//! Matching the sales in the books to lots.

use crate::fifo::{
    allocations_of_sale, match_to_lots, quantity_for_sell, uses_lot_without_id,
    AllocationError,
};
use crate::gains::{gains_by_stock_of, listed_gains, StockGains};
use crate::services::reporting_service::{labelled_year, ReportError, ReportingService};
use crate::ledger::{
    has_lots_of, lemma_allocated_sale_is_matched_in_full, lemma_allocation_keeps_books_sound,
    Ledger, MAX_RECORDS,
};
use crate::models::SellAllocation;
use vstd::prelude::*;

verus! {

/// Allocation of sales to lots, first in, first out.
pub struct AllocationService;

impl AllocationService {
    /// Whether the sale has been matched to lots already.
    pub fn has_allocations(ledger: &Ledger, sell_transaction_id: i32) -> (r: bool)
        ensures
            r == ledger@.has_allocations(sell_transaction_id),
    {
        ledger.has_allocations(sell_transaction_id)
    }

    /// Matches the sale to the lots of its stock, oldest lot first, and
    /// enters the allocations in the books.
    ///
    /// A sale that has allocations already is left alone. If the lots do not
    /// hold the shares sold, or an amount cannot be held, nothing is
    /// entered.
    pub fn allocate_sell_transaction_fifo(ledger: &mut Ledger, sell_transaction_id: i32) -> (r:
        Result<(), AllocationError>)
        requires
            old(ledger)@.is_sound(),
        ensures
            r == old(ledger)@.allocation_result(sell_transaction_id),
            final(ledger)@ == old(ledger)@.after_allocation(sell_transaction_id),
            final(ledger)@.is_sound(),
            r.is_ok() ==> quantity_for_sell(final(ledger)@.allocations, sell_transaction_id)
                == old(ledger)@.sells[sell_transaction_id - 1].quantity,
            r.is_err() ==> final(ledger)@ == old(ledger)@,
    {
        proof {
            lemma_allocation_keeps_books_sound(ledger@, sell_transaction_id);
            if ledger@.has_allocations(sell_transaction_id) && 1 <= sell_transaction_id
                <= ledger@.sells.len() {
                lemma_allocated_sale_is_matched_in_full(ledger@, sell_transaction_id);
            }
        }
        if sell_transaction_id < 1 || sell_transaction_id as usize > ledger.sells().len() {
            return Err(AllocationError::SellNotFound { sell_transaction_id });
        }
        if ledger.has_allocations(sell_transaction_id) {
            return Ok(());
        }
        let sell = &ledger.sells()[(sell_transaction_id - 1) as usize];
        let lots = ledger.available_lots(&sell.stock_id);
        proof {
            assert(!uses_lot_without_id(sell.quantity as int, lots@, lots@.len() as int)) by {
                assert(has_lots_of(lots@, ledger@, sell.stock_id@, ledger@.buys.len() as int));
            }
        }
        let records = match match_to_lots(sell_transaction_id, sell, &lots) {
            Ok(records) => records,
            Err(e) => {
                return Err(e);
            },
        };
        if records.len() > MAX_RECORDS - ledger.allocations().len() {
            return Err(AllocationError::TooManyRecords);
        }
        ledger.enter_allocations(sell_transaction_id, records);
        Ok(())
    }

    /// All allocations, in the order they were entered.
    pub fn get_all_allocations(ledger: &Ledger) -> (allocations: &Vec<SellAllocation>)
        ensures
            allocations@ == ledger@.allocations,
    {
        ledger.allocations()
    }

    /// The allocations of one sale, in the order they were entered.
    pub fn get_allocations_for_sell(ledger: &Ledger, sell_transaction_id: i32) -> (found: Vec<
        SellAllocation,
    >)
        ensures
            found@ == allocations_of_sale(ledger@.allocations, sell_transaction_id),
    {
        ledger.allocations_for_sell(sell_transaction_id)
    }

    /// The short-term gains, long-term gains and losses of the financial
    /// year that `fy` names, stock by stock.
    pub fn get_capital_gains_by_stock(ledger: &Ledger, fy: &str) -> (r: Result<
        Vec<(String, u128, u128, u128)>,
        ReportError,
    >)
        requires
            ledger@.is_sound(),
        ensures
            match labelled_year(fy@) {
                Some(year) => {
                    let gains = gains_by_stock_of(ledger@.rows_in_year(year as int));
                    &&& r matches Ok(totals)
                    &&& totals.len() == gains.len()
                    &&& forall|k: int|
                        0 <= k < totals.len() ==> {
                            &&& (#[trigger] totals[k]).0@ == gains[k].0
                            &&& totals[k].1 == gains[k].1
                            &&& totals[k].2 == gains[k].2
                            &&& totals[k].3 == gains[k].3
                        }
                },
                None => {
                    &&& r matches Err(ReportError::InvalidFinancialYear(text))
                    &&& text@ == fy@
                },
            },
    {
        let gains: Vec<StockGains> = match ReportingService::generate_capital_gains_by_stock(
            ledger,
            fy,
        ) {
            Ok(gains) => gains,
            Err(e) => {
                return Err(e);
            },
        };
        let ghost target = gains_by_stock_of(
            ledger@.rows_in_year(labelled_year(fy@).unwrap() as int),
        );
        let mut totals: Vec<(String, u128, u128, u128)> = Vec::new();
        let mut k: usize = 0;
        while k < gains.len()
            invariant
                0 <= k <= gains.len(),
                totals.len() == k,
                listed_gains(gains@) == target,
                forall|m: int|
                    0 <= m < k ==> {
                        &&& (#[trigger] totals[m]).0@ == target[m].0
                        &&& totals[m].1 == target[m].1
                        &&& totals[m].2 == target[m].2
                        &&& totals[m].3 == target[m].3
                    },
            decreases gains.len() - k,
        {
            proof {
                assert(listed_gains(gains@)[k as int] == target[k as int]);
            }
            totals.push((gains[k].0.clone(), gains[k].1, gains[k].2, gains[k].3));
            k += 1;
        }
        proof {
            assert(listed_gains(gains@).len() == gains.len());
        }
        Ok(totals)
    }
}

} // verus!
