//! Reading trades from CSV text and entering them in the books.

use crate::csv_bridge::{csv_reading, read_csv, row_texts};
use crate::date::{Date, DateError};
use crate::fifo::AllocationError;
use crate::ledger::{Books, Ledger, LedgerError, MAX_RECORDS};
use crate::money::Money;
use crate::services::allocation_service::AllocationService;
use crate::services::stock_service::StockService;
use crate::services::transaction_service::TransactionService;
use crate::symbols::texts;
use crate::text::{
    chars_of, parse_i32, parse_micros, read_i32, read_micros, remove_char, string_of, trim,
    trimmed, without,
};
use vstd::prelude::*;
use vstd::string::*;

verus! {

/// Why an import stopped.
#[derive(Debug, Clone, PartialEq, Eq)]
pub enum ImportError {
    /// The CSV reader could not read a row.
    MalformedCsv,
    /// A row has fewer than four fields.
    InsufficientFields,
    /// The first field is no date.
    Date(DateError),
    /// The third field is no whole number of shares.
    InvalidShares(String),
    /// The fourth field is no price.
    InvalidPrice { cleaned: String, given: String },
    /// The row trades no shares.
    ZeroShares,
    /// The books could not take the trade.
    Ledger(LedgerError),
    /// The sale could not be matched to lots.
    Allocation(AllocationError),
}

impl ImportError {
    /// The message of an error, as text.
    pub open spec fn message(&self) -> Seq<char> {
        match self {
            ImportError::MalformedCsv => "Malformed CSV record"@,
            ImportError::InsufficientFields => "Skipping invalid record, insufficient fields"@,
            ImportError::Date(e) => e.message(),
            ImportError::InvalidShares(text) => "Invalid shares value '"@ + text@ + "'"@,
            ImportError::InvalidPrice { cleaned, given } => "Invalid price value '"@
                + cleaned@ + "' (given: '"@ + given@ + "')"@,
            ImportError::ZeroShares => "Skipping record with zero shares"@,
            ImportError::Ledger(e) => e.message(),
            ImportError::Allocation(e) => e.message(),
        }
    }

    /// Renders the error for people.
    pub fn to_string(&self) -> (s: String)
        ensures
            s@ == self.message(),
    {
        match self {
            ImportError::MalformedCsv => String::from_str("Malformed CSV record"),
            ImportError::InsufficientFields => String::from_str(
                "Skipping invalid record, insufficient fields",
            ),
            ImportError::Date(e) => e.to_string(),
            ImportError::InvalidShares(text) => {
                let mut s = String::from_str("Invalid shares value '");
                s.append(text.as_str());
                s.append("'");
                s
            },
            ImportError::InvalidPrice { cleaned, given } => {
                let mut s = String::from_str("Invalid price value '");
                s.append(cleaned.as_str());
                s.append("' (given: '");
                s.append(given.as_str());
                s.append("')");
                s
            },
            ImportError::ZeroShares => String::from_str("Skipping record with zero shares"),
            ImportError::Ledger(e) => e.to_string(),
            ImportError::Allocation(e) => e.to_string(),
        }
    }
}

/// A row of the CSV text, read: a purchase if `shares` is positive, a sale
/// of that many shares if it is negative.
#[derive(Debug)]
pub struct Trade {
    pub date: Date,
    pub symbol: String,
    pub shares: i32,
    pub price_per_share: Money,
}

/// What is to be done with a trade.
#[derive(Debug, Clone, Copy, PartialEq, Eq, Structural)]
pub enum TradeAction {
    /// Enter a purchase of `quantity` shares.
    Buy { quantity: u32 },
    /// Enter a sale of `quantity` shares and match it to lots.
    Sell { quantity: u32 },
}

impl Trade {
    /// What is to be done with the trade, as mathematics: a positive
    /// number of shares is bought, a negative number is sold, and no shares
    /// are an error.
    pub open spec fn action_of(shares: i32) -> Result<TradeAction, ImportError> {
        if shares > 0 {
            Ok(TradeAction::Buy { quantity: shares as u32 })
        } else if shares < 0 {
            Ok(TradeAction::Sell { quantity: (-shares) as u32 })
        } else {
            Err(ImportError::ZeroShares)
        }
    }

    /// What is to be done with the trade.
    pub fn action(&self) -> (r: Result<TradeAction, ImportError>)
        ensures
            r == Self::action_of(self.shares),
    {
        if self.shares > 0 {
            Ok(TradeAction::Buy { quantity: self.shares as u32 })
        } else if self.shares < 0 {
            Ok(TradeAction::Sell { quantity: (-(self.shares as i64)) as u32 })
        } else {
            Err(ImportError::ZeroShares)
        }
    }
}

/// The price text made ready for reading: without the white space around
/// it and without dollar signs, with a zero put behind a point at the end
/// and before a point at the start.
pub open spec fn cleaned_price(field: Seq<char>) -> Seq<char> {
    let bare = without(trimmed(field), '$');
    let ended = if bare.len() > 0 && bare.last() == '.' {
        bare.push('0')
    } else {
        bare
    };
    if ended.len() > 0 && ended[0] == '.' {
        seq!['0'] + ended
    } else {
        ended
    }
}

/// The price that the text names, in micro-units, if it names one that can
/// be held.
pub open spec fn price_of(field: Seq<char>) -> Option<i64> {
    match parse_micros(cleaned_price(field)) {
        Some(v) => if i64::MIN <= v <= i64::MAX {
            Some(v as i64)
        } else {
            None
        },
        None => None,
    }
}

/// What reading a row must give: the trade, or the first thing wrong with
/// the row, looking at the number of fields, the date, the shares and the
/// price in that order.
pub open spec fn is_trade_reading(fields: Seq<Seq<char>>, r: Result<Trade, ImportError>) -> bool {
    if fields.len() < 4 {
        r matches Err(ImportError::InsufficientFields)
    } else if Date::csv_date(fields[0]).is_none() {
        &&& r matches Err(ImportError::Date(e))
        &&& Date::is_csv_reading(fields[0], Err(e))
    } else if parse_i32(trimmed(fields[2])).is_none() {
        &&& r matches Err(ImportError::InvalidShares(text))
        &&& text@ == trimmed(fields[2])
    } else if price_of(fields[3]).is_none() {
        &&& r matches Err(ImportError::InvalidPrice { cleaned, given })
        &&& cleaned@ == cleaned_price(fields[3])
        &&& given@ == trimmed(fields[3])
    } else {
        &&& r matches Ok(trade)
        &&& trade.date@ == Date::csv_date(fields[0]).unwrap()
        &&& trade.symbol@ == trimmed(fields[1])
        &&& trade.shares == parse_i32(trimmed(fields[2])).unwrap()
        &&& trade.price_per_share@ == price_of(fields[3]).unwrap()
    }
}

/// Whether the row reads as a trade.
pub open spec fn is_readable_row(row: Option<Seq<Seq<char>>>) -> bool {
    &&& row matches Some(fields)
    &&& fields.len() >= 4
    &&& Date::csv_date(fields[0]).is_some()
    &&& parse_i32(trimmed(fields[2])).is_some()
    &&& price_of(fields[3]).is_some()
}

/// Whether the row is one that an import goes on after: it reads as a
/// trade of some shares.
pub open spec fn is_trade_row(row: Option<Seq<Seq<char>>>) -> bool {
    &&& is_readable_row(row)
    &&& row matches Some(fields)
    &&& parse_i32(trimmed(fields[2])).unwrap() != 0
}

/// The books as they stand between the entry of a sale and its matching to
/// lots: with the stocks and sales of `after`, and the rest of `before`.
pub open spec fn with_sale_entered(before: Books, after: Books) -> Books {
    Books { stocks: after.stocks, sells: after.sells, ..before }
}

/// Whether `after` are the books `before` with the trade entered: its
/// stock is listed, a purchase is entered as a lot, a sale is entered and
/// matched to lots. Where that fails the books keep what was entered
/// before the failure, and `r` says what failed.
#[verifier::opaque]
pub open spec fn is_trade_import(
    before: Books,
    trade: Trade,
    after: Books,
    r: Result<(), ImportError>,
) -> bool {
    let fees = 9_500_000int;
    if !before.lists(trade.symbol@) && before.stocks.len() == MAX_RECORDS {
        &&& after == before
        &&& r == Err::<(), ImportError>(ImportError::Ledger(LedgerError::Full))
    } else {
        &&& after.lists(trade.symbol@)
        &&& before.lists(trade.symbol@) ==> after.stocks == before.stocks
        &&& !before.lists(trade.symbol@) ==> after.stocks.drop_last() == before.stocks
            && after.stocks.len() == before.stocks.len() + 1
        &&& if trade.shares == 0 {
            &&& after.buys == before.buys
            &&& after.sells == before.sells
            &&& after.allocations == before.allocations
            &&& r == Err::<(), ImportError>(ImportError::ZeroShares)
        } else if trade.shares > 0 {
            &&& after.sells == before.sells
            &&& after.allocations == before.allocations
            &&& if before.buys.len() == MAX_RECORDS {
                &&& after.buys == before.buys
                &&& r == Err::<(), ImportError>(ImportError::Ledger(LedgerError::Full))
            } else {
                &&& r == Ok::<(), ImportError>(())
                &&& after.buys.len() == before.buys.len() + 1
                &&& after.buys.drop_last() == before.buys
                &&& after.buys.last().stock_id@ == trade.symbol@
                &&& after.buys.last().date == trade.date
                &&& after.buys.last().quantity == trade.shares
                &&& after.buys.last().price_per_share == trade.price_per_share
                &&& after.buys.last().fees@ == fees
            }
        } else {
            &&& after.buys == before.buys
            &&& if before.sells.len() == MAX_RECORDS {
                &&& after.sells == before.sells
                &&& after.allocations == before.allocations
                &&& r == Err::<(), ImportError>(ImportError::Ledger(LedgerError::Full))
            } else {
                let id = (before.sells.len() + 1) as i32;
                let entered = with_sale_entered(before, after);
                &&& after.sells.len() == before.sells.len() + 1
                &&& after.sells.drop_last() == before.sells
                &&& after.sells.last().stock_id@ == trade.symbol@
                &&& after.sells.last().date == trade.date
                &&& after.sells.last().quantity == -trade.shares
                &&& after.sells.last().price_per_share == trade.price_per_share
                &&& after.sells.last().fees@ == fees
                &&& after == entered.after_allocation(id)
                &&& r == match entered.allocation_result(id) {
                    Ok(()) => Ok::<(), ImportError>(()),
                    Err(e) => Err::<(), ImportError>(ImportError::Allocation(e)),
                }
            }
        }
    }
}

/// Whether the books `after` hold what the books `before` hold, in the
/// same places, and possibly more behind it.
pub open spec fn has_grown_from(after: Books, before: Books) -> bool {
    &&& before.stocks.len() <= after.stocks.len()
    &&& after.stocks.subrange(0, before.stocks.len() as int) == before.stocks
    &&& before.buys.len() <= after.buys.len()
    &&& after.buys.subrange(0, before.buys.len() as int) == before.buys
    &&& before.sells.len() <= after.sells.len()
    &&& after.sells.subrange(0, before.sells.len() as int) == before.sells
    &&& before.allocations.len() <= after.allocations.len()
    &&& after.allocations.subrange(0, before.allocations.len() as int) == before.allocations
}

/// The purchases and sales that `after` holds more than `before`.
pub open spec fn trades_entered(before: Books, after: Books) -> int {
    (after.buys.len() - before.buys.len()) + (after.sells.len() - before.sells.len())
}

/// Whether row `k` reads as a trade, and entering that trade leads from
/// the state `k` to the next.
pub open spec fn is_import_step(
    states: Seq<Books>,
    rows: Seq<Option<Seq<Seq<char>>>>,
    k: int,
) -> bool {
    exists|trade: Trade|
        {
            &&& rows[k] matches Some(fields)
            &&& is_trade_reading(fields, Ok(trade))
            &&& #[trigger] is_trade_import(states[k], trade, states[k + 1], Ok(()))
        }
}

/// Whether `states` are the books as they stand before and after each of
/// the first `n` rows is entered.
pub open spec fn is_import_run(
    states: Seq<Books>,
    rows: Seq<Option<Seq<Seq<char>>>>,
    n: int,
) -> bool {
    &&& states.len() == n + 1
    &&& forall|k: int| 0 <= k < n ==> #[trigger] is_import_step(states, rows, k)
}

/// What an import of rows must give. The rows are entered one by one, each
/// as one trade, until one fails. If none fails, `r` is their number and
/// the books are as the last row left them. If one fails, `r` is what was
/// wrong with the row, or with entering it, and the books are as that
/// left them.
pub open spec fn is_import(
    before: Books,
    rows: Seq<Option<Seq<Seq<char>>>>,
    after: Books,
    r: Result<u32, ImportError>,
) -> bool {
    exists|states: Seq<Books>, good: int|
        {
            &&& 0 <= good <= rows.len()
            &&& #[trigger] is_import_run(states, rows, good)
            &&& states[0] == before
            &&& match r {
                Ok(count) => good == rows.len() && count == good && after == states[good],
                Err(e) => {
                    &&& good < rows.len()
                    &&& match rows[good] {
                        None => e == ImportError::MalformedCsv && after == states[good],
                        Some(fields) => {
                            ||| is_trade_reading(fields, Err(e)) && after == states[good]
                            ||| exists|trade: Trade|
                                {
                                    &&& is_trade_reading(fields, Ok(trade))
                                    &&& #[trigger] is_trade_import(
                                        states[good],
                                        trade,
                                        after,
                                        Err(e),
                                    )
                                }
                        },
                    }
                },
            }
        }
}

/// What an import of rows gives in outline. If no row fails, `r` is the
/// number of rows. If one fails, the rows before it have been entered; of
/// the failing row a sale that could not be matched to lots has been
/// entered too, and nothing otherwise.
pub open spec fn is_import_outline(
    before: Books,
    rows: Seq<Option<Seq<Seq<char>>>>,
    after: Books,
    r: Result<u32, ImportError>,
) -> bool {
    let entered = trades_entered(before, after);
    &&& has_grown_from(after, before)
    &&& 0 <= entered <= rows.len()
    &&& forall|k: int| 0 <= k < entered ==> is_trade_row(#[trigger] rows[k])
    &&& match r {
        Ok(count) => count == rows.len() && entered == rows.len(),
        Err(ImportError::Allocation(_)) => entered >= 1,
        Err(ImportError::MalformedCsv) => entered < rows.len() && rows[entered].is_none(),
        Err(ImportError::Ledger(_)) => entered < rows.len() && is_readable_row(rows[entered]),
        Err(ImportError::ZeroShares) => {
            &&& entered < rows.len()
            &&& rows[entered] matches Some(fields)
            &&& fields.len() >= 4
            &&& parse_i32(trimmed(fields[2])) == Some(0i32)
        },
        Err(e) => {
            &&& entered < rows.len()
            &&& rows[entered] matches Some(fields)
            &&& is_trade_reading(fields, Err(e))
        },
    }
}

/// Import of trades.
pub struct ImportService;

impl ImportService {
    /// The fees that an imported trade is taken to have cost: 9.50.
    pub fn default_fees() -> (fees: Money)
        ensures
            fees@ == 9_500_000,
    {
        Money::from_micros(9_500_000)
    }

    /// Makes a price text ready for reading.
    pub fn clean_price(field: &str) -> (cleaned: Vec<char>)
        ensures
            cleaned@ == cleaned_price(field@),
    {
        let bare = remove_char(&trim(&chars_of(field)), '$');
        let mut cleaned: Vec<char> = Vec::new();
        if bare.len() > 0 && bare[0] == '.' {
            cleaned.push('0');
        }
        let ghost head = cleaned@;
        let mut i: usize = 0;
        while i < bare.len()
            invariant
                0 <= i <= bare.len(),
                cleaned@ == head + bare@.take(i as int),
            decreases bare.len() - i,
        {
            cleaned.push(bare[i]);
            assert(cleaned@ =~= head + bare@.take(i + 1));
            i += 1;
        }
        proof {
            assert(bare@.take(i as int) =~= bare@);
        }
        if bare.len() > 0 && bare[bare.len() - 1] == '.' {
            cleaned.push('0');
        }
        proof {
            assert(cleaned@ =~= cleaned_price(field@));
        }
        cleaned
    }

    /// Reads the fields of a row as a trade: the date as `DD/MMM/YY`, the
    /// symbol, the number of shares, negative for a sale, and the price of
    /// one share. Fields beyond the fourth are not looked at.
    pub fn read_trade(fields: &Vec<String>) -> (r: Result<Trade, ImportError>)
        ensures
            is_trade_reading(texts(fields@), r),
    {
        if fields.len() < 4 {
            return Err(ImportError::InsufficientFields);
        }
        proof {
            assert(texts(fields@)[0] == fields[0]@);
            assert(texts(fields@)[1] == fields[1]@);
            assert(texts(fields@)[2] == fields[2]@);
            assert(texts(fields@)[3] == fields[3]@);
        }
        let date = match Date::from_csv(fields[0].as_str()) {
            Ok(date) => date,
            Err(e) => {
                return Err(ImportError::Date(e));
            },
        };
        let symbol = string_of(&trim(&chars_of(fields[1].as_str())));
        let shares_text = trim(&chars_of(fields[2].as_str()));
        assert(shares_text@.subrange(0, shares_text.len() as int) =~= shares_text@);
        let shares = match read_i32(&shares_text, 0, shares_text.len()) {
            Some(shares) => shares,
            None => {
                return Err(ImportError::InvalidShares(string_of(&shares_text)));
            },
        };
        let cleaned = Self::clean_price(fields[3].as_str());
        let price = match read_micros(&cleaned) {
            Some(micros) => Money::from_micros(micros),
            None => {
                return Err(
                    ImportError::InvalidPrice {
                        cleaned: string_of(&cleaned),
                        given: string_of(&trim(&chars_of(fields[3].as_str()))),
                    },
                );
            },
        };
        Ok(Trade { date, symbol, shares, price_per_share: price })
    }

    /// Reads CSV text row by row, the first row being the headings: each
    /// row as a trade, or as the reason it is none.
    pub fn read_trades(data: &[u8]) -> (trades: Vec<Result<Trade, ImportError>>)
        ensures
            trades@.len() == csv_reading(data@, true).len(),
            forall|k: int|
                0 <= k < trades@.len() ==> match csv_reading(data@, true)[k] {
                    Some(fields) => is_trade_reading(fields, #[trigger] trades@[k]),
                    None => trades@[k] matches Err(ImportError::MalformedCsv),
                },
    {
        let rows = read_csv(data, true);
        let mut trades: Vec<Result<Trade, ImportError>> = Vec::new();
        let mut i: usize = 0;
        while i < rows.len()
            invariant
                0 <= i <= rows.len(),
                trades@.len() == i,
                rows@.len() == csv_reading(data@, true).len(),
                forall|k: int|
                    0 <= k < rows@.len() ==> row_texts(#[trigger] rows@[k]) == csv_reading(
                        data@,
                        true,
                    )[k],
                forall|k: int|
                    0 <= k < i ==> match csv_reading(data@, true)[k] {
                        Some(fields) => is_trade_reading(fields, #[trigger] trades@[k]),
                        None => trades@[k] matches Err(ImportError::MalformedCsv),
                    },
            decreases rows.len() - i,
        {
            assert(row_texts(rows@[i as int]) == csv_reading(data@, true)[i as int]);
            let trade = match &rows[i] {
                Ok(fields) => Self::read_trade(fields),
                Err(_) => Err(ImportError::MalformedCsv),
            };
            trades.push(trade);
            i += 1;
        }
        trades
    }

    /// Enters a trade in the books: lists its stock, enters a purchase as a
    /// lot, or enters a sale and matches it to lots.
    pub fn import_trade(ledger: &mut Ledger, trade: &Trade) -> (r: Result<(), ImportError>)
        requires
            old(ledger)@.is_sound(),
        ensures
            final(ledger)@.is_sound(),
            is_trade_import(old(ledger)@, *trade, final(ledger)@, r),
    {
        reveal(is_trade_import);
        let ghost before = ledger@;
        match StockService::ensure_stock_exists(ledger, trade.symbol.as_str()) {
            Ok(()) => {},
            Err(e) => {
                return Err(ImportError::Ledger(e));
            },
        }
        match trade.action() {
            Ok(TradeAction::Buy { quantity }) => {
                match TransactionService::add_buy_transaction(
                    ledger,
                    trade.symbol.as_str(),
                    trade.date,
                    quantity,
                    trade.price_per_share,
                    Self::default_fees(),
                    Some(String::from_str("Imported from CSV")),
                ) {
                    Ok(_) => Ok(()),
                    Err(e) => Err(ImportError::Ledger(e)),
                }
            },
            Ok(TradeAction::Sell { quantity }) => {
                let sell_id = match TransactionService::add_sell_transaction(
                    ledger,
                    trade.symbol.as_str(),
                    trade.date,
                    quantity,
                    trade.price_per_share,
                    Self::default_fees(),
                    Some(String::from_str("Imported from CSV")),
                ) {
                    Ok(id) => id,
                    Err(e) => {
                        return Err(ImportError::Ledger(e));
                    },
                };
                let ghost entered = ledger@;
                let result = AllocationService::allocate_sell_transaction_fifo(
                    ledger,
                    sell_id as i32,
                );
                proof {
                    assert(entered == with_sale_entered(before, ledger@));
                }
                match result {
                    Ok(()) => Ok(()),
                    Err(e) => Err(ImportError::Allocation(e)),
                }
            },
            Err(e) => Err(e),
        }
    }

    /// Reads CSV text and enters its rows in the books as trades, in their
    /// order; the first row holds the headings. Stops at the first row that
    /// cannot be read or entered. Gives the number of rows entered.
    pub fn import_csv_data(ledger: &mut Ledger, data: &[u8]) -> (r: Result<u32, ImportError>)
        requires
            old(ledger)@.is_sound(),
        ensures
            final(ledger)@.is_sound(),
            is_import(old(ledger)@, csv_reading(data@, true), final(ledger)@, r),
            is_import_outline(old(ledger)@, csv_reading(data@, true), final(ledger)@, r),
    {
        let ghost before = ledger@;
        let ghost reading = csv_reading(data@, true);
        let ghost mut states: Seq<Books> = seq![before];
        let rows = read_csv(data, true);
        let mut transaction_count: u32 = 0;
        let mut i: usize = 0;
        proof {
            assert(before.stocks.subrange(0, before.stocks.len() as int) =~= before.stocks);
            assert(before.buys.subrange(0, before.buys.len() as int) =~= before.buys);
            assert(before.sells.subrange(0, before.sells.len() as int) =~= before.sells);
            assert(before.allocations.subrange(0, before.allocations.len() as int)
                =~= before.allocations);
        }
        while i < rows.len()
            invariant
                0 <= i <= rows.len(),
                rows@.len() == reading.len(),
                forall|k: int|
                    0 <= k < rows@.len() ==> row_texts(#[trigger] rows@[k]) == reading[k],
                ledger@.is_sound(),
                before == old(ledger)@,
                reading == csv_reading(data@, true),
                has_grown_from(ledger@, before),
                trades_entered(before, ledger@) == i,
                transaction_count == i,
                forall|k: int| 0 <= k < i ==> is_trade_row(#[trigger] reading[k]),
                is_import_run(states, reading, i as int),
                states[0] == before,
                states[i as int] == ledger@,
            decreases rows.len() - i,
        {
            let ghost here = ledger@;
            assert(row_texts(rows@[i as int]) == reading[i as int]);
            let fields = match &rows[i] {
                Ok(fields) => fields,
                Err(_) => {
                    proof {
                        assert(is_import_run(states, reading, i as int));
                    }
                    return Err(ImportError::MalformedCsv);
                },
            };
            let trade = match Self::read_trade(fields) {
                Ok(trade) => trade,
                Err(e) => {
                    proof {
                        assert(is_import_run(states, reading, i as int));
                    }
                    return Err(e);
                },
            };
            let result = Self::import_trade(ledger, &trade);
            let ghost there = ledger@;
            let ghost outcome = result;
            proof {
                assert(is_trade_import(here, trade, there, result));
                lemma_trade_import_grows(here, trade, ledger@, result);
                lemma_growth_goes_on(before, here, ledger@);
            }
            match result {
                Ok(()) => {
                    proof {
                        let earlier = states;
                        states = states.push(ledger@);
                        assert forall|k: int| 0 <= k < i + 1 implies #[trigger] is_import_step(
                            states,
                            reading,
                            k,
                        ) by {
                            if k < i {
                                assert(is_import_step(earlier, reading, k));
                                let t = choose|t: Trade|
                                    {
                                        &&& reading[k] matches Some(fields)
                                        &&& is_trade_reading(fields, Ok(t))
                                        &&& #[trigger] is_trade_import(
                                            earlier[k],
                                            t,
                                            earlier[k + 1],
                                            Ok(()),
                                        )
                                    };
                                assert(states[k] == earlier[k]);
                                assert(states[k + 1] == earlier[k + 1]);
                                assert(is_trade_import(states[k], t, states[k + 1], Ok(())));
                            } else {
                                assert(states[k] == here);
                                assert(states[k + 1] == there);
                                assert(outcome.is_ok() && outcome.unwrap() == ());
                                assert(outcome == Ok::<(), ImportError>(()));
                                assert(is_trade_import(states[k], trade, states[k + 1], Ok(())));
                                assert(reading[k] matches Some(fields) && is_trade_reading(
                                    fields,
                                    Ok(trade),
                                ));
                            }
                        }
                    }
                },
                Err(e) => {
                    proof {
                        assert(is_import_run(states, reading, i as int));
                        assert(outcome == Err::<(), ImportError>(e));
                        assert(is_trade_import(states[i as int], trade, ledger@, outcome));
                    }
                    return Err(e);
                },
            }
            transaction_count = transaction_count + 1;
            i += 1;
        }
        proof {
            assert(is_import_run(states, reading, i as int));
        }
        Ok(transaction_count)
    }
}

proof fn lemma_has_grown(after: Books, before: Books)
    requires
        before.stocks.len() <= after.stocks.len(),
        after.stocks.subrange(0, before.stocks.len() as int) == before.stocks,
        before.buys.len() <= after.buys.len(),
        after.buys.subrange(0, before.buys.len() as int) == before.buys,
        before.sells.len() <= after.sells.len(),
        after.sells.subrange(0, before.sells.len() as int) == before.sells,
        before.allocations.len() <= after.allocations.len(),
        after.allocations.subrange(0, before.allocations.len() as int) == before.allocations,
    ensures
        has_grown_from(after, before),
{
}

/// Entering a trade lets the books grow: by one purchase or one sale,
/// unless the trade is of no shares or the books are full.
pub proof fn lemma_trade_import_grows(
    before: Books,
    trade: Trade,
    after: Books,
    r: Result<(), ImportError>,
)
    requires
        is_trade_import(before, trade, after, r),
    ensures
        has_grown_from(after, before),
        r matches Ok(_) ==> trade.shares != 0 && trades_entered(before, after) == 1,
        r matches Err(e) ==> {
            ||| e == ImportError::ZeroShares && trade.shares == 0 && trades_entered(before, after)
                == 0
            ||| e == ImportError::Ledger(LedgerError::Full) && trades_entered(before, after) == 0
            ||| e matches ImportError::Allocation(_) && trade.shares < 0 && trades_entered(
                before,
                after,
            ) == 1
        },
{
    reveal(is_trade_import);
    assert(before.stocks.subrange(0, before.stocks.len() as int) =~= before.stocks);
    assert(before.buys.subrange(0, before.buys.len() as int) =~= before.buys);
    assert(before.sells.subrange(0, before.sells.len() as int) =~= before.sells);
    assert(before.allocations.subrange(0, before.allocations.len() as int)
        =~= before.allocations);
    if !before.lists(trade.symbol@) && before.stocks.len() == MAX_RECORDS {
    } else {
        if !before.lists(trade.symbol@) {
            assert(after.stocks.subrange(0, before.stocks.len() as int)
                =~= after.stocks.drop_last());
        }
        if trade.shares > 0 && before.buys.len() < MAX_RECORDS {
            assert(after.buys.subrange(0, before.buys.len() as int) =~= after.buys.drop_last());
        }
        if trade.shares < 0 && before.sells.len() < MAX_RECORDS {
            assert(after.sells.subrange(0, before.sells.len() as int)
                =~= after.sells.drop_last());
            let entered = with_sale_entered(before, after);
            let id = (before.sells.len() + 1) as i32;
            if entered.allocation_result(id).is_ok() && !entered.has_allocations(id) {
                let added = crate::ledger::numbered(
                    entered.planned_for(id),
                    entered.allocations.len() as int,
                );
                assert(after.allocations == before.allocations + added);
                assert(after.allocations.subrange(0, before.allocations.len() as int)
                    =~= before.allocations);
            } else {
                assert(after.allocations == before.allocations);
            }
        }
    }
    assert(after.allocations.subrange(0, before.allocations.len() as int)
        == before.allocations);
    lemma_has_grown(after, before);
}

/// Books that have grown from books that had grown have grown from the
/// first.
pub proof fn lemma_growth_goes_on(first: Books, second: Books, third: Books)
    requires
        has_grown_from(second, first),
        has_grown_from(third, second),
    ensures
        has_grown_from(third, first),
{
    assert(third.stocks.subrange(0, first.stocks.len() as int) =~= first.stocks) by {
        assert forall|k: int| 0 <= k < first.stocks.len() implies third.stocks[k]
            == first.stocks[k] by {
            assert(third.stocks.subrange(0, second.stocks.len() as int)[k] == second.stocks[k]);
            assert(second.stocks.subrange(0, first.stocks.len() as int)[k] == first.stocks[k]);
        }
    }
    assert(third.buys.subrange(0, first.buys.len() as int) =~= first.buys) by {
        assert forall|k: int| 0 <= k < first.buys.len() implies third.buys[k]
            == first.buys[k] by {
            assert(third.buys.subrange(0, second.buys.len() as int)[k] == second.buys[k]);
            assert(second.buys.subrange(0, first.buys.len() as int)[k] == first.buys[k]);
        }
    }
    assert(third.sells.subrange(0, first.sells.len() as int) =~= first.sells) by {
        assert forall|k: int| 0 <= k < first.sells.len() implies third.sells[k]
            == first.sells[k] by {
            assert(third.sells.subrange(0, second.sells.len() as int)[k] == second.sells[k]);
            assert(second.sells.subrange(0, first.sells.len() as int)[k] == first.sells[k]);
        }
    }
    assert(third.allocations.subrange(0, first.allocations.len() as int)
        =~= first.allocations) by {
        assert forall|k: int| 0 <= k < first.allocations.len() implies third.allocations[k]
            == first.allocations[k] by {
            assert(third.allocations.subrange(0, second.allocations.len() as int)[k]
                == second.allocations[k]);
            assert(second.allocations.subrange(0, first.allocations.len() as int)[k]
                == first.allocations[k]);
        }
    }
}

} // verus!
