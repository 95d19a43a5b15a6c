//! Entering purchases and sales in the books, and looking them up.

use crate::date::Date;
use crate::fifo::{lots_are_sound, AvailableLot};
use crate::ledger::{has_lots_of, is_oldest_first, Ledger, LedgerError, MAX_RECORDS};
use crate::models::{BuyTransaction, SellTransaction};
use crate::money::Money;
use crate::services::stock_service::StockService;
use vstd::prelude::*;
use vstd::string::*;

verus! {

/// Purchases and sales.
pub struct TransactionService;

impl TransactionService {
    /// Enters a purchase, listing its stock if need be, and gives the
    /// number of the purchase.
    pub fn add_buy_transaction(
        ledger: &mut Ledger,
        stock_id: &str,
        date: Date,
        quantity: u32,
        price_per_share: Money,
        fees: Money,
        notes: Option<String>,
    ) -> (r: Result<i64, LedgerError>)
        requires
            old(ledger)@.is_sound(),
        ensures
            final(ledger)@.is_sound(),
            final(ledger)@.sells == old(ledger)@.sells,
            final(ledger)@.allocations == old(ledger)@.allocations,
            old(ledger)@.lists(stock_id@) ==> final(ledger)@.stocks == old(ledger)@.stocks,
            !old(ledger)@.lists(stock_id@) ==> {
                ||| final(ledger)@.stocks == old(ledger)@.stocks && old(ledger)@.stocks.len()
                    == MAX_RECORDS
                ||| {
                    &&& final(ledger)@.stocks.len() == old(ledger)@.stocks.len() + 1
                    &&& final(ledger)@.stocks.drop_last() == old(ledger)@.stocks
                    &&& final(ledger)@.stocks.last().symbol@ == stock_id@
                }
            },
            match r {
                Ok(id) => {
                    &&& id == old(ledger)@.buys.len() + 1
                    &&& final(ledger)@.lists(stock_id@)
                    &&& final(ledger)@.buys.len() == old(ledger)@.buys.len() + 1
                    &&& final(ledger)@.buys.drop_last() == old(ledger)@.buys
                    &&& final(ledger)@.buys.last().id == Some(id as i32)
                    &&& final(ledger)@.buys.last().stock_id@ == stock_id@
                    &&& final(ledger)@.buys.last().date == date
                    &&& final(ledger)@.buys.last().quantity == quantity
                    &&& final(ledger)@.buys.last().price_per_share == price_per_share
                    &&& final(ledger)@.buys.last().fees == fees
                    &&& final(ledger)@.buys.last().notes == notes
                },
                Err(e) => {
                    &&& e == LedgerError::Full
                    &&& final(ledger)@.buys == old(ledger)@.buys
                    &&& if !old(ledger)@.lists(stock_id@) && old(ledger)@.stocks.len()
                        == MAX_RECORDS {
                        final(ledger)@.stocks == old(ledger)@.stocks
                    } else {
                        final(ledger)@.lists(stock_id@) && old(ledger)@.buys.len() == MAX_RECORDS
                    }
                },
            },
    {
        match StockService::ensure_stock_exists(ledger, stock_id) {
            Ok(()) => {},
            Err(e) => {
                return Err(e);
            },
        }
        let transaction = BuyTransaction::new(
            String::from_str(stock_id),
            date,
            quantity,
            price_per_share,
            fees,
            notes,
        );
        let ghost before = ledger@.buys;
        match ledger.insert_buy(transaction) {
            Ok(id) => {
                proof {
                    assert(ledger@.buys.drop_last() =~= before);
                }
                Ok(id as i64)
            },
            Err(e) => Err(e),
        }
    }

    /// Enters a sale, listing its stock if need be, and gives the number of
    /// the sale.
    pub fn add_sell_transaction(
        ledger: &mut Ledger,
        stock_id: &str,
        date: Date,
        quantity: u32,
        price_per_share: Money,
        fees: Money,
        notes: Option<String>,
    ) -> (r: Result<i64, LedgerError>)
        requires
            old(ledger)@.is_sound(),
        ensures
            final(ledger)@.is_sound(),
            final(ledger)@.buys == old(ledger)@.buys,
            final(ledger)@.allocations == old(ledger)@.allocations,
            old(ledger)@.lists(stock_id@) ==> final(ledger)@.stocks == old(ledger)@.stocks,
            !old(ledger)@.lists(stock_id@) ==> {
                ||| final(ledger)@.stocks == old(ledger)@.stocks && old(ledger)@.stocks.len()
                    == MAX_RECORDS
                ||| {
                    &&& final(ledger)@.stocks.len() == old(ledger)@.stocks.len() + 1
                    &&& final(ledger)@.stocks.drop_last() == old(ledger)@.stocks
                    &&& final(ledger)@.stocks.last().symbol@ == stock_id@
                }
            },
            match r {
                Ok(id) => {
                    &&& id == old(ledger)@.sells.len() + 1
                    &&& final(ledger)@.lists(stock_id@)
                    &&& final(ledger)@.sells.len() == old(ledger)@.sells.len() + 1
                    &&& final(ledger)@.sells.drop_last() == old(ledger)@.sells
                    &&& final(ledger)@.sells.last().id == Some(id as i32)
                    &&& final(ledger)@.sells.last().stock_id@ == stock_id@
                    &&& final(ledger)@.sells.last().date == date
                    &&& final(ledger)@.sells.last().quantity == quantity
                    &&& final(ledger)@.sells.last().price_per_share == price_per_share
                    &&& final(ledger)@.sells.last().fees == fees
                    &&& final(ledger)@.sells.last().notes == notes
                },
                Err(e) => {
                    &&& e == LedgerError::Full
                    &&& final(ledger)@.sells == old(ledger)@.sells
                    &&& if !old(ledger)@.lists(stock_id@) && old(ledger)@.stocks.len()
                        == MAX_RECORDS {
                        final(ledger)@.stocks == old(ledger)@.stocks
                    } else {
                        final(ledger)@.lists(stock_id@) && old(ledger)@.sells.len() == MAX_RECORDS
                    }
                },
            },
    {
        match StockService::ensure_stock_exists(ledger, stock_id) {
            Ok(()) => {},
            Err(e) => {
                return Err(e);
            },
        }
        let transaction = SellTransaction::new(
            String::from_str(stock_id),
            date,
            quantity,
            price_per_share,
            fees,
            notes,
        );
        let ghost before = ledger@.sells;
        match ledger.insert_sell(transaction) {
            Ok(id) => {
                proof {
                    assert(ledger@.sells.drop_last() =~= before);
                }
                Ok(id as i64)
            },
            Err(e) => Err(e),
        }
    }

    /// The purchases, in the order they were entered.
    pub fn get_all_buy_transactions(ledger: &Ledger) -> (buys: &Vec<BuyTransaction>)
        ensures
            buys@ == ledger@.buys,
    {
        ledger.buys()
    }

    /// The sales, in the order they were entered.
    pub fn get_all_sell_transactions(ledger: &Ledger) -> (sells: &Vec<SellTransaction>)
        ensures
            sells@ == ledger@.sells,
    {
        ledger.sells()
    }

    /// The purchase numbered `id`, if there is one.
    pub fn get_buy_transaction(ledger: &Ledger, id: i32) -> (found: Option<&BuyTransaction>)
        ensures
            match found {
                Some(buy) => 1 <= id <= ledger@.buys.len() && *buy == ledger@.buys[id - 1],
                None => !(1 <= id <= ledger@.buys.len()),
            },
    {
        ledger.find_buy(id)
    }

    /// The sale numbered `id`, if there is one.
    pub fn get_sell_transaction(ledger: &Ledger, id: i32) -> (found: Option<&SellTransaction>)
        ensures
            match found {
                Some(sell) => 1 <= id <= ledger@.sells.len() && *sell == ledger@.sells[id - 1],
                None => !(1 <= id <= ledger@.sells.len()),
            },
    {
        ledger.find_sell(id)
    }

    /// The lots of a stock that a sale can draw on: all its lots, oldest
    /// first, each with the number of shares that no sale has taken yet.
    pub fn get_available_buys_for_stock(ledger: &Ledger, stock_id: &str) -> (lots: Vec<
        AvailableLot,
    >)
        requires
            ledger@.is_sound(),
        ensures
            lots@ == ledger@.lots_for(stock_id@),
            lots_are_sound(lots@),
            is_oldest_first(lots@),
            has_lots_of(lots@, ledger@, stock_id@, ledger@.buys.len() as int),
    {
        ledger.available_lots(&String::from_str(stock_id))
    }
}

} // verus!
