//! The books: every stock, purchase, sale and allocation, kept in memory in
//! the order they were entered.

use crate::date::Date;
use crate::fifo::{
    allocations_of_sale, lemma_allocation_conserves_quantity, lemma_planned_for_sale,
    lemma_planned_from_lot, lemma_planned_records_take_shares, lemma_quantities_add_up,
    lemma_quantities_depend_on_links,
    lemma_take_within_lot, lots_are_sound, planned_records, quantity_for_sell,
    quantity_from_lot, total_available, uses_lot_out_of_range, AllocationError, AvailableLot,
};
use crate::gains::{viewed, StockAllocation, StockRow};
use crate::models::{BuyTransaction, SellAllocation, SellTransaction, Stock};
use vstd::prelude::*;
use vstd::string::*;

verus! {

/// The largest number of records of one kind that the books hold: record
/// numbers are positive `i32`s.
pub const MAX_RECORDS: usize = 0x7fff_fffe;

/// Where a lot bought on `date` goes among `lots`, looking from `from` on:
/// before the first lot that was bought later, so behind every lot bought
/// on the same day.
pub open spec fn slot_for(lots: Seq<AvailableLot>, date: Date, from: int) -> int
    decreases lots.len() - from,
{
    if from < 0 || from >= lots.len() {
        lots.len() as int
    } else if date.is_before(lots[from].0.date) {
        from
    } else {
        slot_for(lots, date, from + 1)
    }
}

/// The records numbered on from `first`: the first gets the number
/// `first + 1`.
pub open spec fn numbered(records: Seq<SellAllocation>, first: int) -> Seq<SellAllocation> {
    Seq::new(
        records.len(),
        |k: int| SellAllocation { id: Some((first + k + 1) as i32), ..records[k] },
    )
}

/// What the books hold, as mathematics.
pub struct Books {
    pub stocks: Seq<Stock>,
    pub buys: Seq<BuyTransaction>,
    pub sells: Seq<SellTransaction>,
    pub allocations: Seq<SellAllocation>,
}

impl Books {
    /// Records are numbered from 1 in the order they were entered.
    pub open spec fn is_numbered(self) -> bool {
        &&& self.stocks.len() <= MAX_RECORDS
        &&& self.buys.len() <= MAX_RECORDS
        &&& self.sells.len() <= MAX_RECORDS
        &&& self.allocations.len() <= MAX_RECORDS
        &&& forall|i: int|
            0 <= i < self.stocks.len() ==> (#[trigger] self.stocks[i]).id == Some((i + 1) as i32)
        &&& forall|i: int|
            0 <= i < self.buys.len() ==> (#[trigger] self.buys[i]).id == Some((i + 1) as i32)
        &&& forall|i: int|
            0 <= i < self.sells.len() ==> (#[trigger] self.sells[i]).id == Some((i + 1) as i32)
        &&& forall|i: int|
            0 <= i < self.allocations.len() ==> (#[trigger] self.allocations[i]).id == Some(
                (i + 1) as i32,
            )
    }

    /// No symbol is listed twice.
    pub open spec fn has_distinct_stocks(self) -> bool {
        forall|i: int, j: int|
            0 <= i < j < self.stocks.len() ==> (#[trigger] self.stocks[i]).symbol@ != (
            #[trigger] self.stocks[j]).symbol@
    }

    /// Every purchase and every sale is of a stock that is listed.
    pub open spec fn has_listed_stocks(self) -> bool {
        &&& forall|i: int|
            0 <= i < self.buys.len() ==> self.lists((#[trigger] self.buys[i]).stock_id@)
        &&& forall|i: int|
            0 <= i < self.sells.len() ==> self.lists((#[trigger] self.sells[i]).stock_id@)
    }

    /// Whether a stock with this symbol is listed.
    pub open spec fn lists(self, symbol: Seq<char>) -> bool {
        exists|i: int| 0 <= i < self.stocks.len() && (#[trigger] self.stocks[i]).symbol@ == symbol
    }

    /// Every allocation takes at least one share and links a sale in the
    /// books to a lot in the books, and both are of one stock.
    pub open spec fn has_linked_allocations(self) -> bool {
        forall|k: int|
            0 <= k < self.allocations.len() ==> {
                &&& (#[trigger] self.allocations[k]).quantity > 0
                &&& 1 <= self.allocations[k].buy_transaction_id <= self.buys.len()
                &&& 1 <= self.allocations[k].sell_transaction_id <= self.sells.len()
                &&& self.buys[self.allocations[k].buy_transaction_id - 1].stock_id@
                    == self.sells[self.allocations[k].sell_transaction_id - 1].stock_id@
            }
    }

    /// No lot has given more shares than it was bought with.
    pub open spec fn no_lot_is_overdrawn(self) -> bool {
        forall|b: int|
            0 <= b < self.buys.len() ==> quantity_from_lot(self.allocations, (b + 1) as i32) <= (
            #[trigger] self.buys[b]).quantity
    }

    /// Every sale is matched to lots in full or not at all.
    pub open spec fn no_sale_is_half_matched(self) -> bool {
        forall|s: int|
            0 <= s < self.sells.len() ==> {
                ||| quantity_for_sell(self.allocations, (s + 1) as i32) == 0
                ||| quantity_for_sell(self.allocations, (s + 1) as i32) == (
                #[trigger] self.sells[s]).quantity
            }
    }

    /// What holds of the books at all times.
    pub open spec fn is_sound(self) -> bool {
        &&& self.is_numbered()
        &&& self.has_distinct_stocks()
        &&& self.has_listed_stocks()
        &&& self.has_linked_allocations()
        &&& self.no_lot_is_overdrawn()
        &&& self.no_sale_is_half_matched()
    }

    /// Whether the sale numbered `sell_id` has any allocation.
    pub open spec fn has_allocations(self, sell_id: i32) -> bool {
        exists|k: int|
            0 <= k < self.allocations.len() && (#[trigger] self.allocations[k]).sell_transaction_id
                == sell_id
    }

    /// The shares of the lot numbered `buy_id` that no sale has taken.
    pub open spec fn remaining(self, buy_id: i32) -> int {
        self.buys[buy_id - 1].quantity - quantity_from_lot(self.allocations, buy_id)
    }

    /// The lots of the stock `symbol` among the first `n` purchases, each
    /// with what is left of it, ordered by the day of purchase; lots of one
    /// day stand in the order they were entered.
    pub open spec fn lots_among(self, symbol: Seq<char>, n: int) -> Seq<AvailableLot>
        decreases n,
    {
        if n <= 0 {
            Seq::empty()
        } else {
            let before = self.lots_among(symbol, n - 1);
            let lot = self.buys[n - 1];
            if lot.stock_id@ == symbol {
                before.insert(
                    slot_for(before, lot.date, 0),
                    (lot, self.remaining(n as i32) as u32),
                )
            } else {
                before
            }
        }
    }

    /// The lots of the stock `symbol`, oldest first, each with what is left
    /// of it.
    pub open spec fn lots_for(self, symbol: Seq<char>) -> Seq<AvailableLot> {
        self.lots_among(symbol, self.buys.len() as int)
    }

    /// Those of the first `n` allocations whose sale lies in the financial
    /// year that starts in `year`, each with the symbol of its stock.
    pub open spec fn rows_among(self, year: int, n: int) -> Seq<StockRow>
        decreases n,
    {
        if n <= 0 {
            Seq::empty()
        } else {
            let before = self.rows_among(year, n - 1);
            let allocation = self.allocations[n - 1];
            if self.sells[allocation.sell_transaction_id - 1].date.financial_year() == year {
                before.push(
                    (self.buys[allocation.buy_transaction_id - 1].stock_id@, allocation),
                )
            } else {
                before
            }
        }
    }

    /// The allocations whose sale lies in the financial year that starts in
    /// `year`, each with the symbol of its stock.
    pub open spec fn rows_in_year(self, year: int) -> Seq<StockRow> {
        self.rows_among(year, self.allocations.len() as int)
    }

    /// The records that match the sale numbered `sell_id` to the lots of
    /// its stock as the books stand, not yet numbered.
    pub open spec fn planned_for(self, sell_id: i32) -> Seq<SellAllocation> {
        let sell = self.sells[sell_id - 1];
        let lots = self.lots_for(sell.stock_id@);
        planned_records(sell_id, sell, lots, lots.len() as int)
    }

    /// How matching the sale numbered `sell_id` to lots ends. A sale that
    /// has allocations already is left as it is, which is no error.
    pub open spec fn allocation_result(self, sell_id: i32) -> Result<(), AllocationError> {
        if !(1 <= sell_id <= self.sells.len()) {
            Err(AllocationError::SellNotFound { sell_transaction_id: sell_id })
        } else if self.has_allocations(sell_id) {
            Ok(())
        } else {
            let sell = self.sells[sell_id - 1];
            let lots = self.lots_for(sell.stock_id@);
            if total_available(lots) < sell.quantity {
                Err(
                    AllocationError::InsufficientLots {
                        sell_transaction_id: sell_id,
                        remaining: (sell.quantity - total_available(lots)) as u32,
                    },
                )
            } else if uses_lot_out_of_range(sell, lots, lots.len() as int) {
                Err(AllocationError::AmountOutOfRange)
            } else if self.allocations.len() + self.planned_for(sell_id).len() > MAX_RECORDS {
                Err(AllocationError::TooManyRecords)
            } else {
                Ok(())
            }
        }
    }

    /// The books after the sale numbered `sell_id` has been matched to
    /// lots: its records are entered behind the others and numbered on; if
    /// the sale has allocations already or cannot be matched, the books
    /// stay as they are.
    pub open spec fn after_allocation(self, sell_id: i32) -> Books {
        if self.allocation_result(sell_id).is_ok() && !self.has_allocations(sell_id) {
            Books {
                allocations: self.allocations + numbered(
                    self.planned_for(sell_id),
                    self.allocations.len() as int,
                ),
                ..self
            }
        } else {
            self
        }
    }
}

/// Whether each of `lots` is one of the first `n` purchases of the books,
/// a lot of the stock `symbol`, with what is left of it.
pub open spec fn has_lots_of(
    lots: Seq<AvailableLot>,
    books: Books,
    symbol: Seq<char>,
    n: int,
) -> bool {
    forall|k: int|
        0 <= k < lots.len() ==> {
            &&& (#[trigger] lots[k]).0.id matches Some(b)
            &&& 1 <= b <= n
            &&& lots[k].0 == books.buys[b - 1]
            &&& lots[k].0.stock_id@ == symbol
            &&& lots[k].1 == books.remaining(b)
        }
}

/// Whether `lots` stand oldest first, lots of one day in the order of their
/// numbers, and none comes twice.
pub open spec fn is_oldest_first(lots: Seq<AvailableLot>) -> bool {
    forall|j: int, k: int|
        0 <= j < k < lots.len() ==> {
            &&& !(#[trigger] lots[k]).0.date.is_before((#[trigger] lots[j]).0.date)
            &&& lots[j].0.date == lots[k].0.date ==> lots[j].0.id.unwrap() < lots[k].0.id.unwrap()
            &&& lots[j].0.id != lots[k].0.id
        }
}

/// The place that [`slot_for`] gives lies behind every lot that was not
/// bought later and before the first that was.
pub proof fn lemma_slot_for(lots: Seq<AvailableLot>, date: Date, from: int)
    requires
        0 <= from <= lots.len(),
    ensures
        from <= slot_for(lots, date, from) <= lots.len(),
        forall|k: int|
            from <= k < slot_for(lots, date, from) ==> !date.is_before((#[trigger] lots[k]).0.date),
        slot_for(lots, date, from) < lots.len() ==> date.is_before(
            lots[slot_for(lots, date, from)].0.date,
        ),
    decreases lots.len() - from,
{
    if from < lots.len() && !date.is_before(lots[from].0.date) {
        lemma_slot_for(lots, date, from + 1);
    }
}

/// A lot with a number above all others, put in at its place, leaves the
/// queue oldest first.
proof fn lemma_insert_keeps_order(lots: Seq<AvailableLot>, entry: AvailableLot)
    requires
        is_oldest_first(lots),
        entry.0.id.is_some(),
        forall|k: int|
            0 <= k < lots.len() ==> (#[trigger] lots[k]).0.id.is_some() && lots[k].0.id.unwrap()
                < entry.0.id.unwrap(),
    ensures
        is_oldest_first(lots.insert(slot_for(lots, entry.0.date, 0), entry)),
{
    let date = entry.0.date;
    let slot = slot_for(lots, date, 0);
    lemma_slot_for(lots, date, 0);
    let now = lots.insert(slot, entry);
    assert forall|j: int, k: int| 0 <= j < k < now.len() implies {
        &&& !(#[trigger] now[k]).0.date.is_before((#[trigger] now[j]).0.date)
        &&& now[j].0.date == now[k].0.date ==> now[j].0.id.unwrap() < now[k].0.id.unwrap()
        &&& now[j].0.id != now[k].0.id
    } by {
        if k == slot {
            assert(now[k] == entry);
            assert(now[j] == lots[j]);
            assert(!date.is_before(lots[j].0.date));
        } else if j == slot {
            assert(now[j] == entry);
            assert(now[k] == lots[k - 1]);
            assert(date.is_before(lots[slot].0.date));
            if k - 1 > slot {
                assert(!lots[k - 1].0.date.is_before(lots[slot].0.date));
            }
            crate::date::lemma_before_is_strict_order(date, lots[slot].0.date, lots[k - 1].0.date);
            crate::date::lemma_before_is_strict_order(date, lots[k - 1].0.date, date);
        } else {
            let oj = if j < slot {
                j
            } else {
                j - 1
            };
            let ok = if k < slot {
                k
            } else {
                k - 1
            };
            assert(now[j] == lots[oj]);
            assert(now[k] == lots[ok]);
            assert(0 <= oj < ok < lots.len());
        }
    }
}

/// A lot of the stock put into the queue leaves it a queue of the stock's
/// lots.
proof fn lemma_insert_keeps_lots(
    lots: Seq<AvailableLot>,
    books: Books,
    symbol: Seq<char>,
    n: int,
    slot: int,
)
    requires
        1 <= n <= books.buys.len(),
        has_lots_of(lots, books, symbol, n - 1),
        0 <= slot <= lots.len(),
        books.buys[n - 1].id == Some(n as i32),
        n <= MAX_RECORDS,
        books.buys[n - 1].stock_id@ == symbol,
        0 <= books.remaining(n as i32) <= u32::MAX,
    ensures
        has_lots_of(
            lots.insert(slot, (books.buys[n - 1], books.remaining(n as i32) as u32)),
            books,
            symbol,
            n,
        ),
{
    let entry = (books.buys[n - 1], books.remaining(n as i32) as u32);
    let now = lots.insert(slot, entry);
    assert forall|k: int| 0 <= k < now.len() implies {
        &&& (#[trigger] now[k]).0.id matches Some(b)
        &&& 1 <= b <= n
        &&& now[k].0 == books.buys[b - 1]
        &&& now[k].0.stock_id@ == symbol
        &&& now[k].1 == books.remaining(b)
    } by {
        if k < slot {
            assert(now[k] == lots[k]);
        } else if k > slot {
            assert(now[k] == lots[k - 1]);
        } else {
            assert(now[k] == entry);
        }
    }
}

/// The lots that the books give for a stock are lots of that stock among
/// the purchases, each with what is left of it, oldest first and none
/// twice.
pub proof fn lemma_lots_among_is_queue(books: Books, symbol: Seq<char>, n: int)
    requires
        books.is_numbered(),
        books.no_lot_is_overdrawn(),
        0 <= n <= books.buys.len(),
    ensures
        has_lots_of(books.lots_among(symbol, n), books, symbol, n),
        is_oldest_first(books.lots_among(symbol, n)),
    decreases n,
{
    if n > 0 {
        lemma_lots_among_is_queue(books, symbol, n - 1);
        let before = books.lots_among(symbol, n - 1);
        let lot = books.buys[n - 1];
        if lot.stock_id@ == symbol {
            let slot = slot_for(before, lot.date, 0);
            lemma_slot_for(before, lot.date, 0);
            let entry = (lot, books.remaining(n as i32) as u32);
            assert(0 <= books.remaining(n as i32) <= lot.quantity) by {
                crate::fifo::lemma_quantity_from_lot_is_not_negative(books.allocations, n as i32);
            }
            lemma_insert_keeps_lots(before, books, symbol, n, slot);
            lemma_insert_keeps_order(before, entry);
        } else {
            assert(has_lots_of(before, books, symbol, n)) by {
                assert forall|k: int| 0 <= k < before.len() implies {
                    &&& (#[trigger] before[k]).0.id matches Some(b)
                    &&& 1 <= b <= n
                    &&& before[k].0 == books.buys[b - 1]
                    &&& before[k].0.stock_id@ == symbol
                    &&& before[k].1 == books.remaining(b)
                } by {}
            }
        }
    }
}

/// Every lot of the stock among the purchases is in the queue that the
/// books give for the stock.
pub proof fn lemma_lots_among_is_complete(books: Books, symbol: Seq<char>, n: int, b: int)
    requires
        books.is_numbered(),
        0 <= b < n <= books.buys.len(),
        books.buys[b].stock_id@ == symbol,
    ensures
        exists|k: int|
            0 <= k < books.lots_among(symbol, n).len() && (#[trigger] books.lots_among(
                symbol,
                n,
            )[k]).0.id == Some((b + 1) as i32),
    decreases n,
{
    let before = books.lots_among(symbol, n - 1);
    let now = books.lots_among(symbol, n);
    let lot = books.buys[n - 1];
    if lot.stock_id@ == symbol {
        let slot = slot_for(before, lot.date, 0);
        lemma_slot_for(before, lot.date, 0);
        if b < n - 1 {
            lemma_lots_among_is_complete(books, symbol, n - 1, b);
            let k = choose|k: int|
                0 <= k < before.len() && (#[trigger] before[k]).0.id == Some((b + 1) as i32);
            if k < slot {
                assert(now[k] == before[k]);
            } else {
                assert(now[k + 1] == before[k]);
            }
        } else {
            assert(now[slot].0.id == Some((b + 1) as i32));
        }
    } else {
        lemma_lots_among_is_complete(books, symbol, n - 1, b);
        let k = choose|k: int|
            0 <= k < before.len() && (#[trigger] before[k]).0.id == Some((b + 1) as i32);
        assert(now[k] == before[k]);
    }
}

/// A sale that has allocations, each of at least one share, has been given
/// at least one share.
pub proof fn lemma_named_sale_got_something(allocations: Seq<SellAllocation>, sell_id: i32)
    requires
        forall|k: int| 0 <= k < allocations.len() ==> (#[trigger] allocations[k]).quantity > 0,
        exists|k: int|
            0 <= k < allocations.len() && (#[trigger] allocations[k]).sell_transaction_id
                == sell_id,
    ensures
        quantity_for_sell(allocations, sell_id) > 0,
    decreases allocations.len(),
{
    let front = allocations.drop_last();
    assert forall|k: int| 0 <= k < front.len() implies (#[trigger] front[k]).quantity > 0 by {
        assert(front[k] == allocations[k]);
    }
    crate::fifo::lemma_quantity_for_sell_is_not_negative(front, sell_id);
    if allocations.last().sell_transaction_id != sell_id {
        let k = choose|k: int|
            0 <= k < allocations.len() && (#[trigger] allocations[k]).sell_transaction_id
                == sell_id;
        assert(front[k] == allocations[k]);
        lemma_named_sale_got_something(front, sell_id);
    } else {
        assert(allocations[allocations.len() - 1].quantity > 0);
    }
}

/// Conservation of quantity: in sound books a sale that has allocations has
/// been given exactly the shares it sold.
pub proof fn lemma_allocated_sale_is_matched_in_full(books: Books, sell_id: i32)
    requires
        books.is_sound(),
        1 <= sell_id <= books.sells.len(),
        books.has_allocations(sell_id),
    ensures
        quantity_for_sell(books.allocations, sell_id) == books.sells[sell_id - 1].quantity,
{
    lemma_named_sale_got_something(books.allocations, sell_id);
    let s = sell_id - 1;
    assert(quantity_for_sell(books.allocations, (s + 1) as i32) == 0 || quantity_for_sell(
        books.allocations,
        (s + 1) as i32,
    ) == books.sells[s].quantity);
}

/// No lot is ever overdrawn: in sound books the sales have taken from a lot
/// no more shares than it was bought with, and what is left of it is not
/// less than nothing.
pub proof fn lemma_no_lot_is_overdrawn(books: Books, buy_id: i32)
    requires
        books.is_sound(),
        1 <= buy_id <= books.buys.len(),
    ensures
        0 <= quantity_from_lot(books.allocations, buy_id) <= books.buys[buy_id - 1].quantity,
        0 <= books.remaining(buy_id) <= books.buys[buy_id - 1].quantity,
{
    crate::fifo::lemma_quantity_from_lot_is_not_negative(books.allocations, buy_id);
    assert(books.buys[buy_id - 1].quantity >= quantity_from_lot(
        books.allocations,
        ((buy_id - 1) + 1) as i32,
    ));
}

/// Matching a sale to lots keeps the books sound, and a sale that was
/// matched has been given exactly the shares sold.
pub proof fn lemma_allocation_keeps_books_sound(books: Books, sell_id: i32)
    requires
        books.is_sound(),
    ensures
        books.after_allocation(sell_id).is_sound(),
        books.allocation_result(sell_id).is_ok() && !books.has_allocations(sell_id)
            ==> quantity_for_sell(books.after_allocation(sell_id).allocations, sell_id)
            == books.sells[sell_id - 1].quantity,
{
    if books.allocation_result(sell_id).is_ok() && !books.has_allocations(sell_id) {
        let sell = books.sells[sell_id - 1];
        let symbol = sell.stock_id@;
        let lots = books.lots_for(symbol);
        let n = lots.len() as int;
        let planned = books.planned_for(sell_id);
        let first = books.allocations.len() as int;
        let added = numbered(planned, first);
        let after = books.after_allocation(sell_id);
        lemma_lots_among_is_queue(books, symbol, books.buys.len() as int);
        assert(after.allocations == books.allocations + added);
        assert(after.is_numbered()) by {
            assert forall|i: int| 0 <= i < after.allocations.len() implies (
            #[trigger] after.allocations[i]).id == Some((i + 1) as i32) by {
                if i < first {
                    assert(after.allocations[i] == books.allocations[i]);
                } else {
                    assert(after.allocations[i] == added[i - first]);
                }
            }
        }
        assert(after.has_linked_allocations()) by {
            lemma_planned_from_lot(sell_id, sell, lots, n, 0);
            lemma_planned_for_sale(sell_id, sell, lots, n, 0);
            lemma_planned_records_take_shares(sell_id, sell, lots, n);
            assert forall|k: int| 0 <= k < after.allocations.len() implies {
                &&& (#[trigger] after.allocations[k]).quantity > 0
                &&& 1 <= after.allocations[k].buy_transaction_id <= after.buys.len()
                &&& 1 <= after.allocations[k].sell_transaction_id <= after.sells.len()
                &&& after.buys[after.allocations[k].buy_transaction_id - 1].stock_id@
                    == after.sells[after.allocations[k].sell_transaction_id - 1].stock_id@
            } by {
                if k < first {
                    assert(after.allocations[k] == books.allocations[k]);
                } else {
                    assert(after.allocations[k] == added[k - first]);
                    let i = choose|i: int|
                        0 <= i < n && (#[trigger] lots[i]).0.id == Some(
                            (#[trigger] planned[k - first]).buy_transaction_id,
                        );
                }
            }
        }
        lemma_quantities_depend_on_links(added, planned, sell_id);
        assert(after.no_lot_is_overdrawn()) by {
            assert forall|b: int| 0 <= b < after.buys.len() implies quantity_from_lot(
                after.allocations,
                (b + 1) as i32,
            ) <= (#[trigger] after.buys[b]).quantity by {
                let id = (b + 1) as i32;
                lemma_quantities_add_up(books.allocations, added, id);
                lemma_quantities_depend_on_links(added, planned, id);
                lemma_planned_from_lot(sell_id, sell, lots, n, id);
                if exists|k: int| 0 <= k < n && (#[trigger] lots[k]).0.id == Some(id) {
                    let k = choose|k: int| 0 <= k < n && (#[trigger] lots[k]).0.id == Some(id);
                    lemma_take_within_lot(sell.quantity as int, lots, k);
                    assert(lots[k].1 == books.remaining(id));
                }
            }
        }
        assert(after.no_sale_is_half_matched() && quantity_for_sell(after.allocations, sell_id)
            == sell.quantity) by {
            lemma_allocation_conserves_quantity(sell_id, sell, lots);
            assert forall|s: int| 0 <= s < after.sells.len() implies {
                ||| quantity_for_sell(after.allocations, (s + 1) as i32) == 0
                ||| quantity_for_sell(after.allocations, (s + 1) as i32) == (
                #[trigger] after.sells[s]).quantity
            } by {
                let id = (s + 1) as i32;
                lemma_quantities_add_up(books.allocations, added, id);
                lemma_quantities_depend_on_links(added, planned, id);
                lemma_planned_for_sale(sell_id, sell, lots, n, id);
                if id == sell_id {
                    lemma_unnamed_sale_got_nothing(books.allocations, sell_id);
                }
            }
            lemma_quantities_add_up(books.allocations, added, sell_id);
            lemma_planned_for_sale(sell_id, sell, lots, n, sell_id);
            lemma_unnamed_sale_got_nothing(books.allocations, sell_id);
        }
    }
}

/// Matching a sale a second time changes nothing: the books stay as the
/// first time left them, and if the first time was no error, neither is the
/// second.
pub proof fn lemma_allocation_is_idempotent(books: Books, sell_id: i32)
    requires
        books.is_sound(),
    ensures
        books.after_allocation(sell_id).after_allocation(sell_id) == books.after_allocation(
            sell_id,
        ),
        books.allocation_result(sell_id).is_ok() ==> books.after_allocation(
            sell_id,
        ).allocation_result(sell_id).is_ok(),
{
    if books.allocation_result(sell_id).is_ok() && !books.has_allocations(sell_id) {
        let planned = books.planned_for(sell_id);
        let first = books.allocations.len() as int;
        let added = numbered(planned, first);
        let after = books.after_allocation(sell_id);
        if planned.len() == 0 {
            assert(books.allocations + added =~= books.allocations);
        } else {
            let sell = books.sells[sell_id - 1];
            let lots = books.lots_for(sell.stock_id@);
            lemma_planned_for_sale(sell_id, sell, lots, lots.len() as int, 0);
            assert(planned[0].sell_transaction_id == sell_id);
            assert(after.allocations[first] == added[0]);
            assert(after.has_allocations(sell_id));
        }
    }
}

/// A lot that no allocation names has given nothing.
pub proof fn lemma_unnamed_lot_gave_nothing(allocations: Seq<SellAllocation>, buy_id: i32)
    requires
        forall|k: int|
            0 <= k < allocations.len() ==> (#[trigger] allocations[k]).buy_transaction_id
                != buy_id,
    ensures
        quantity_from_lot(allocations, buy_id) == 0,
    decreases allocations.len(),
{
    if allocations.len() > 0 {
        let front = allocations.drop_last();
        assert forall|k: int| 0 <= k < front.len() implies (#[trigger] front[k]).buy_transaction_id
            != buy_id by {
            assert(front[k] == allocations[k]);
        }
        lemma_unnamed_lot_gave_nothing(front, buy_id);
    }
}

/// A sale that no allocation names has been given nothing.
pub proof fn lemma_unnamed_sale_got_nothing(allocations: Seq<SellAllocation>, sell_id: i32)
    requires
        forall|k: int|
            0 <= k < allocations.len() ==> (#[trigger] allocations[k]).sell_transaction_id
                != sell_id,
    ensures
        quantity_for_sell(allocations, sell_id) == 0,
    decreases allocations.len(),
{
    if allocations.len() > 0 {
        let front = allocations.drop_last();
        assert forall|k: int| 0 <= k < front.len() implies (
        #[trigger] front[k]).sell_transaction_id != sell_id by {
            assert(front[k] == allocations[k]);
        }
        lemma_unnamed_sale_got_nothing(front, sell_id);
    }
}

/// Why the books could not take a record.
#[derive(Debug, Clone, Copy, PartialEq, Eq, Structural)]
pub enum LedgerError {
    /// The books hold as many records of this kind as can be numbered.
    Full,
    /// The transaction is of a stock that is not listed.
    UnknownStock,
}

impl LedgerError {
    /// The message of an error, as text.
    pub open spec fn message(&self) -> Seq<char> {
        match self {
            LedgerError::Full => "The books are full"@,
            LedgerError::UnknownStock => "The stock is not listed"@,
        }
    }

    /// Renders the error for people.
    pub fn to_string(&self) -> (s: String)
        ensures
            s@ == self.message(),
    {
        match self {
            LedgerError::Full => String::from_str("The books are full"),
            LedgerError::UnknownStock => String::from_str("The stock is not listed"),
        }
    }
}

/// The books. Every operation keeps them sound: see [`Books::is_sound`].
pub struct Ledger {
    stocks: Vec<Stock>,
    buys: Vec<BuyTransaction>,
    sells: Vec<SellTransaction>,
    allocations: Vec<SellAllocation>,
}

impl View for Ledger {
    type V = Books;

    closed spec fn view(&self) -> Books {
        Books {
            stocks: self.stocks@,
            buys: self.buys@,
            sells: self.sells@,
            allocations: self.allocations@,
        }
    }
}

impl Ledger {
    /// Empty books.
    pub fn new() -> (ledger: Ledger)
        ensures
            ledger@.stocks.len() == 0,
            ledger@.buys.len() == 0,
            ledger@.sells.len() == 0,
            ledger@.allocations.len() == 0,
            ledger@.is_sound(),
    {
        Ledger { stocks: Vec::new(), buys: Vec::new(), sells: Vec::new(), allocations: Vec::new() }
    }

    /// The stocks, in the order they were entered.
    pub fn stocks(&self) -> (stocks: &Vec<Stock>)
        ensures
            stocks@ == self@.stocks,
    {
        &self.stocks
    }

    /// The purchases, in the order they were entered.
    pub fn buys(&self) -> (buys: &Vec<BuyTransaction>)
        ensures
            buys@ == self@.buys,
    {
        &self.buys
    }

    /// The sales, in the order they were entered.
    pub fn sells(&self) -> (sells: &Vec<SellTransaction>)
        ensures
            sells@ == self@.sells,
    {
        &self.sells
    }

    /// The allocations, in the order they were entered.
    pub fn allocations(&self) -> (allocations: &Vec<SellAllocation>)
        ensures
            allocations@ == self@.allocations,
    {
        &self.allocations
    }

    /// Where the stock with this symbol stands among the stocks, if it is
    /// listed.
    pub fn find_stock(&self, symbol: &String) -> (at: Option<usize>)
        ensures
            match at {
                Some(i) => i < self@.stocks.len() && self@.stocks[i as int].symbol@ == symbol@,
                None => forall|i: int|
                    0 <= i < self@.stocks.len() ==> (#[trigger] self@.stocks[i]).symbol@
                        != symbol@,
            },
    {
        let mut i: usize = 0;
        while i < self.stocks.len()
            invariant
                0 <= i <= self.stocks.len(),
                forall|j: int| 0 <= j < i ==> (#[trigger] self.stocks@[j]).symbol@ != symbol@,
            decreases self.stocks.len() - i,
        {
            if self.stocks[i].symbol == *symbol {
                return Some(i);
            }
            i += 1;
        }
        None
    }

    /// Lists the stock with this symbol, unless it is listed already.
    pub fn insert_stock_if_absent(&mut self, symbol: &String) -> (r: Result<(), LedgerError>)
        requires
            old(self)@.is_sound(),
        ensures
            final(self)@.is_sound(),
            final(self)@.buys == old(self)@.buys,
            final(self)@.sells == old(self)@.sells,
            final(self)@.allocations == old(self)@.allocations,
            match r {
                Ok(()) => {
                    if exists|i: int|
                        0 <= i < old(self)@.stocks.len() && (#[trigger] old(
                            self,
                        )@.stocks[i]).symbol@ == symbol@ {
                        final(self)@.stocks == old(self)@.stocks
                    } else {
                        &&& final(self)@.stocks.len() == old(self)@.stocks.len() + 1
                        &&& final(self)@.stocks.drop_last() == old(self)@.stocks
                        &&& final(self)@.stocks.last().symbol@ == symbol@
                    }
                },
                Err(e) => {
                    &&& e == LedgerError::Full
                    &&& *final(self) == *old(self)
                    &&& old(self)@.stocks.len() == MAX_RECORDS
                    &&& forall|i: int|
                        0 <= i < old(self)@.stocks.len() ==> (#[trigger] old(
                            self,
                        )@.stocks[i]).symbol@ != symbol@
                },
            },
    {
        match self.find_stock(symbol) {
            Some(_) => Ok(()),
            None => {
                let n = self.stocks.len();
                if n >= MAX_RECORDS {
                    return Err(LedgerError::Full);
                }
                let stock = Stock::with_id((n + 1) as i32, symbol.clone());
                proof {
                    let after = self.stocks@.push(stock);
                    assert(after.drop_last() =~= self.stocks@);
                }
                self.stocks.push(stock);
                Ok(())
            },
        }
    }

    /// Enters a purchase and gives it the next number.
    pub fn insert_buy(&mut self, transaction: BuyTransaction) -> (r: Result<i32, LedgerError>)
        requires
            old(self)@.is_sound(),
        ensures
            final(self)@.is_sound(),
            final(self)@.stocks == old(self)@.stocks,
            final(self)@.sells == old(self)@.sells,
            final(self)@.allocations == old(self)@.allocations,
            match r {
                Ok(id) => {
                    &&& id == old(self)@.buys.len() + 1
                    &&& final(self)@.buys == old(self)@.buys.push(
                        BuyTransaction { id: Some(id), ..transaction },
                    )
                },
                Err(LedgerError::UnknownStock) => {
                    &&& *final(self) == *old(self)
                    &&& !old(self)@.lists(transaction.stock_id@)
                },
                Err(LedgerError::Full) => {
                    &&& *final(self) == *old(self)
                    &&& old(self)@.lists(transaction.stock_id@)
                    &&& old(self)@.buys.len() == MAX_RECORDS
                },
            },
    {
        if self.find_stock(&transaction.stock_id).is_none() {
            return Err(LedgerError::UnknownStock);
        }
        let n = self.buys.len();
        if n >= MAX_RECORDS {
            return Err(LedgerError::Full);
        }
        let id = (n + 1) as i32;
        let mut transaction = transaction;
        transaction.id = Some(id);
        proof {
            let ghost_buys = self.buys@.push(transaction);
            lemma_unnamed_lot_gave_nothing(self.allocations@, id);
            assert forall|i: int| 0 <= i < ghost_buys.len() implies self@.lists(
                (#[trigger] ghost_buys[i]).stock_id@,
            ) by {
                if i < n {
                    assert(ghost_buys[i] == self.buys@[i]);
                }
            }
            assert forall|k: int| 0 <= k < self.allocations@.len() implies ghost_buys[(
            #[trigger] self.allocations@[k]).buy_transaction_id - 1]
                == self.buys@[self.allocations@[k].buy_transaction_id - 1] by {}
            assert forall|b: int| 0 <= b < ghost_buys.len() implies quantity_from_lot(
                self.allocations@,
                (b + 1) as i32,
            ) <= (#[trigger] ghost_buys[b]).quantity by {
                if b < n {
                    assert(ghost_buys[b] == self.buys@[b]);
                }
            }
        }
        self.buys.push(transaction);
        Ok(id)
    }

    /// Enters a sale and gives it the next number.
    pub fn insert_sell(&mut self, transaction: SellTransaction) -> (r: Result<i32, LedgerError>)
        requires
            old(self)@.is_sound(),
        ensures
            final(self)@.is_sound(),
            final(self)@.stocks == old(self)@.stocks,
            final(self)@.buys == old(self)@.buys,
            final(self)@.allocations == old(self)@.allocations,
            match r {
                Ok(id) => {
                    &&& id == old(self)@.sells.len() + 1
                    &&& final(self)@.sells == old(self)@.sells.push(
                        SellTransaction { id: Some(id), ..transaction },
                    )
                },
                Err(LedgerError::UnknownStock) => {
                    &&& *final(self) == *old(self)
                    &&& !old(self)@.lists(transaction.stock_id@)
                },
                Err(LedgerError::Full) => {
                    &&& *final(self) == *old(self)
                    &&& old(self)@.lists(transaction.stock_id@)
                    &&& old(self)@.sells.len() == MAX_RECORDS
                },
            },
    {
        if self.find_stock(&transaction.stock_id).is_none() {
            return Err(LedgerError::UnknownStock);
        }
        let n = self.sells.len();
        if n >= MAX_RECORDS {
            return Err(LedgerError::Full);
        }
        let id = (n + 1) as i32;
        let mut transaction = transaction;
        transaction.id = Some(id);
        proof {
            let ghost_sells = self.sells@.push(transaction);
            lemma_unnamed_sale_got_nothing(self.allocations@, id);
            assert forall|i: int| 0 <= i < ghost_sells.len() implies self@.lists(
                (#[trigger] ghost_sells[i]).stock_id@,
            ) by {
                if i < n {
                    assert(ghost_sells[i] == self.sells@[i]);
                }
            }
            assert forall|k: int| 0 <= k < self.allocations@.len() implies ghost_sells[(
            #[trigger] self.allocations@[k]).sell_transaction_id - 1]
                == self.sells@[self.allocations@[k].sell_transaction_id - 1] by {}
            assert forall|s: int| 0 <= s < ghost_sells.len() implies {
                ||| quantity_for_sell(self.allocations@, (s + 1) as i32) == 0
                ||| quantity_for_sell(self.allocations@, (s + 1) as i32) == (
                #[trigger] ghost_sells[s]).quantity
            } by {
                if s < n {
                    assert(ghost_sells[s] == self.sells@[s]);
                }
            }
        }
        self.sells.push(transaction);
        Ok(id)
    }

    /// Whether the sale numbered `sell_transaction_id` has any allocation.
    pub fn has_allocations(&self, sell_transaction_id: i32) -> (r: bool)
        ensures
            r == self@.has_allocations(sell_transaction_id),
    {
        let mut i: usize = 0;
        while i < self.allocations.len()
            invariant
                0 <= i <= self.allocations.len(),
                forall|k: int|
                    0 <= k < i ==> (#[trigger] self.allocations@[k]).sell_transaction_id
                        != sell_transaction_id,
            decreases self.allocations.len() - i,
        {
            if self.allocations[i].sell_transaction_id == sell_transaction_id {
                return true;
            }
            i += 1;
        }
        false
    }

    /// The shares that sales have taken from the lot numbered `buy_id`.
    pub fn quantity_taken_from(&self, buy_id: i32) -> (taken: u64)
        requires
            self@.is_sound(),
        ensures
            taken == quantity_from_lot(self@.allocations, buy_id),
    {
        let mut taken: u64 = 0;
        let mut i: usize = 0;
        while i < self.allocations.len()
            invariant
                0 <= i <= self.allocations.len(),
                self.allocations.len() <= MAX_RECORDS,
                taken == quantity_from_lot(self.allocations@.take(i as int), buy_id),
                taken <= i * 0xffff_ffff,
            decreases self.allocations.len() - i,
        {
            proof {
                assert(self.allocations@.take(i + 1).drop_last() =~= self.allocations@.take(
                    i as int,
                ));
                assert(i * 0xffff_ffff + 0xffff_ffff <= 0xffff_ffff_ffff_ffff) by (nonlinear_arith)
                    requires
                        0 <= i < 0xffff_ffff,
                ;
                assert((i + 1) * 0xffff_ffff == i * 0xffff_ffff + 0xffff_ffff) by (nonlinear_arith);
            }
            if self.allocations[i].buy_transaction_id == buy_id {
                taken = taken + self.allocations[i].quantity as u64;
            }
            i += 1;
        }
        proof {
            assert(self.allocations@.take(i as int) =~= self.allocations@);
        }
        taken
    }

    /// The lots of a stock that a sale can draw on: all its lots, oldest
    /// first, each with the number of shares that no sale has taken yet.
    pub fn available_lots(&self, stock_id: &String) -> (lots: Vec<AvailableLot>)
        requires
            self@.is_sound(),
        ensures
            lots@ == self@.lots_for(stock_id@),
            lots_are_sound(lots@),
            is_oldest_first(lots@),
            has_lots_of(lots@, self@, stock_id@, self@.buys.len() as int),
    {
        proof {
            lemma_lots_among_is_queue(self@, stock_id@, self@.buys.len() as int);
        }
        let mut lots: Vec<AvailableLot> = Vec::new();
        let n = self.buys.len();
        let mut i: usize = 0;
        while i < n
            invariant
                0 <= i <= n,
                n == self.buys.len(),
                self@.is_sound(),
                lots@ == self@.lots_among(stock_id@, i as int),
                lots_are_sound(lots@),
            decreases n - i,
        {
            let lot = &self.buys[i];
            if lot.stock_id == *stock_id {
                let taken = self.quantity_taken_from((i + 1) as i32);
                assert(taken <= lot.quantity);
                let left: u32 = (lot.quantity as u64 - taken) as u32;
                let mut slot: usize = 0;
                while slot < lots.len() && !lot.date.precedes(&lots[slot].0.date)
                    invariant
                        0 <= slot <= lots.len(),
                        slot_for(lots@, lot.date, 0) == slot_for(lots@, lot.date, slot as int),
                    decreases lots.len() - slot,
                {
                    slot += 1;
                }
                let ghost before = lots@;
                lots.insert(slot, (lot.duplicate(), left));
                proof {
                    assert forall|k: int| 0 <= k < lots@.len() implies (#[trigger] lots@[k]).1
                        <= lots@[k].0.quantity by {
                        if k < slot {
                            assert(lots@[k] == before[k]);
                        } else if k > slot {
                            assert(lots@[k] == before[k - 1]);
                        }
                    }
                }
            }
            i += 1;
        }
        lots
    }

    /// Enters the records that match the sale numbered `sell_id` to lots,
    /// behind the allocations that are there, and numbers them on.
    pub(crate) fn enter_allocations(&mut self, sell_id: i32, records: Vec<SellAllocation>)
        requires
            old(self)@.is_sound(),
            old(self)@.allocation_result(sell_id).is_ok(),
            !old(self)@.has_allocations(sell_id),
            records@ == old(self)@.planned_for(sell_id),
        ensures
            final(self)@ == old(self)@.after_allocation(sell_id),
            final(self)@.is_sound(),
    {
        let ghost before = self@;
        let n = records.len();
        let first = self.allocations.len();
        let mut k: usize = 0;
        while k < n
            invariant
                0 <= k <= n,
                n == records.len(),
                first + n <= MAX_RECORDS,
                self.stocks@ == before.stocks,
                self.buys@ == before.buys,
                self.sells@ == before.sells,
                self.allocations@ == before.allocations + numbered(
                    records@.take(k as int),
                    first as int,
                ),
            decreases n - k,
        {
            let record = records[k];
            let entry = SellAllocation {
                id: Some((first + k + 1) as i32),
                sell_transaction_id: record.sell_transaction_id,
                buy_transaction_id: record.buy_transaction_id,
                quantity: record.quantity,
                allocated_buy_price: record.allocated_buy_price,
                allocated_buy_fees: record.allocated_buy_fees,
                capital_gain: record.capital_gain,
                cgt_discount_applied: record.cgt_discount_applied,
            };
            self.allocations.push(entry);
            proof {
                assert(self.allocations@ =~= before.allocations + numbered(
                    records@.take(k + 1),
                    first as int,
                ));
            }
            k += 1;
        }
        proof {
            assert(records@.take(n as int) =~= records@);
            lemma_allocation_keeps_books_sound(before, sell_id);
        }
    }

    /// The purchase numbered `id`, if there is one.
    pub fn find_buy(&self, id: i32) -> (found: Option<&BuyTransaction>)
        ensures
            match found {
                Some(buy) => 1 <= id <= self@.buys.len() && *buy == self@.buys[id - 1],
                None => !(1 <= id <= self@.buys.len()),
            },
    {
        if id >= 1 && id as usize <= self.buys.len() {
            Some(&self.buys[(id - 1) as usize])
        } else {
            None
        }
    }

    /// The sale numbered `id`, if there is one.
    pub fn find_sell(&self, id: i32) -> (found: Option<&SellTransaction>)
        ensures
            match found {
                Some(sell) => 1 <= id <= self@.sells.len() && *sell == self@.sells[id - 1],
                None => !(1 <= id <= self@.sells.len()),
            },
    {
        if id >= 1 && id as usize <= self.sells.len() {
            Some(&self.sells[(id - 1) as usize])
        } else {
            None
        }
    }

    /// The allocations of the sale numbered `sell_transaction_id`, in the
    /// order they were entered.
    pub fn allocations_for_sell(&self, sell_transaction_id: i32) -> (found: Vec<SellAllocation>)
        ensures
            found@ == allocations_of_sale(self@.allocations, sell_transaction_id),
    {
        let mut found: Vec<SellAllocation> = Vec::new();
        let mut i: usize = 0;
        while i < self.allocations.len()
            invariant
                0 <= i <= self.allocations.len(),
                found@ == allocations_of_sale(
                    self.allocations@.take(i as int),
                    sell_transaction_id,
                ),
            decreases self.allocations.len() - i,
        {
            proof {
                assert(self.allocations@.take(i + 1).drop_last() =~= self.allocations@.take(
                    i as int,
                ));
            }
            if self.allocations[i].sell_transaction_id == sell_transaction_id {
                found.push(self.allocations[i]);
            }
            i += 1;
        }
        proof {
            assert(self.allocations@.take(i as int) =~= self.allocations@);
        }
        found
    }

    /// The allocations whose sale lies in the financial year that starts in
    /// `year`, in the order they were entered, each with the symbol of its
    /// stock.
    pub fn rows_in_financial_year(&self, year: i32) -> (rows: Vec<StockAllocation>)
        requires
            self@.is_sound(),
        ensures
            viewed(rows@) == self@.rows_in_year(year as int),
    {
        let mut rows: Vec<StockAllocation> = Vec::new();
        let mut i: usize = 0;
        while i < self.allocations.len()
            invariant
                0 <= i <= self.allocations.len(),
                self@.is_sound(),
                viewed(rows@) == self@.rows_among(year as int, i as int),
            decreases self.allocations.len() - i,
        {
            let allocation = self.allocations[i];
            let sell = &self.sells[(allocation.sell_transaction_id - 1) as usize];
            if Date::which_fy(&sell.date) == year {
                let buy = &self.buys[(allocation.buy_transaction_id - 1) as usize];
                let ghost before = rows@;
                rows.push((buy.stock_id.clone(), allocation));
                proof {
                    assert(viewed(rows@) =~= viewed(before).push((buy.stock_id@, allocation)));
                }
            }
            i += 1;
        }
        rows
    }
}

} // verus!
