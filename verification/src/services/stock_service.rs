//! The stocks that the books list.

use crate::ledger::{Ledger, LedgerError, MAX_RECORDS};
use crate::models::Stock;
use vstd::prelude::*;
use vstd::string::*;

verus! {

/// The list of stocks.
pub struct StockService;

impl StockService {
    /// Lists the stock with this symbol, unless it is listed already.
    pub fn ensure_stock_exists(ledger: &mut Ledger, symbol: &str) -> (r: Result<(), LedgerError>)
        requires
            old(ledger)@.is_sound(),
        ensures
            final(ledger)@.is_sound(),
            final(ledger)@.buys == old(ledger)@.buys,
            final(ledger)@.sells == old(ledger)@.sells,
            final(ledger)@.allocations == old(ledger)@.allocations,
            match r {
                Ok(()) => {
                    &&& final(ledger)@.lists(symbol@)
                    &&& old(ledger)@.lists(symbol@) ==> final(ledger)@.stocks == old(
                        ledger,
                    )@.stocks
                    &&& !old(ledger)@.lists(symbol@) ==> {
                        &&& final(ledger)@.stocks.len() == old(ledger)@.stocks.len() + 1
                        &&& final(ledger)@.stocks.drop_last() == old(ledger)@.stocks
                        &&& final(ledger)@.stocks.last().symbol@ == symbol@
                    }
                },
                Err(e) => {
                    &&& e == LedgerError::Full
                    &&& *final(ledger) == *old(ledger)
                    &&& !old(ledger)@.lists(symbol@)
                    &&& old(ledger)@.stocks.len() == MAX_RECORDS
                },
            },
    {
        let symbol = String::from_str(symbol);
        let ghost before = ledger@;
        let r = ledger.insert_stock_if_absent(&symbol);
        proof {
            if r.is_ok() {
                if before.lists(symbol@) {
                    assert(ledger@.stocks == before.stocks);
                } else {
                    let last = ledger@.stocks.len() - 1;
                    assert(ledger@.stocks[last] == ledger@.stocks.last());
                    assert(ledger@.stocks[last].symbol@ == symbol@);
                }
                assert(ledger@.lists(symbol@));
            }
        }
        r
    }

    /// The stocks, in the order they were listed.
    pub fn get_all_stocks(ledger: &Ledger) -> (stocks: &Vec<Stock>)
        ensures
            stocks@ == ledger@.stocks,
    {
        ledger.stocks()
    }

    /// The stock with this symbol, if it is listed.
    pub fn find_stock_by_symbol<'a>(ledger: &'a Ledger, symbol: &str) -> (found: Option<
        &'a Stock,
    >)
        ensures
            match found {
                Some(stock) => stock.symbol@ == symbol@ && ledger@.stocks.contains(*stock),
                None => !ledger@.lists(symbol@),
            },
    {
        let symbol = String::from_str(symbol);
        match ledger.find_stock(&symbol) {
            Some(at) => {
                let stocks = ledger.stocks();
                assert(stocks@[at as int] == ledger@.stocks[at as int]);
                Some(&stocks[at])
            },
            None => None,
        }
    }
}

} // verus!
