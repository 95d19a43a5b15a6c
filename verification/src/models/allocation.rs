//! The link between a sale and a lot that supplies it.

use crate::money::{round_div, Money};
use vstd::prelude::*;

verus! {

/// Part of a sale matched to one lot: how many shares of the lot it takes,
/// what they cost, and what was gained on them.
#[derive(Debug, Clone, Copy, PartialEq, Eq, Structural)]
pub struct SellAllocation {
    /// The number the store gave it, once stored.
    pub id: Option<i32>,
    pub sell_transaction_id: i32,
    pub buy_transaction_id: i32,
    /// Shares taken from the lot.
    pub quantity: u32,
    /// Purchase price of the shares taken.
    pub allocated_buy_price: Money,
    /// The share of the lot's fees that falls to the shares taken.
    pub allocated_buy_fees: Money,
    /// Net proceeds less cost; negative for a loss.
    pub capital_gain: Money,
    /// Whether the lot was held long enough for the discount.
    pub cgt_discount_applied: bool,
}

impl SellAllocation {
    /// An allocation that has not been stored yet.
    pub fn new(
        sell_transaction_id: i32,
        buy_transaction_id: i32,
        quantity: u32,
        allocated_buy_price: Money,
        allocated_buy_fees: Money,
        capital_gain: Money,
        cgt_discount_applied: bool,
    ) -> (allocation: SellAllocation)
        ensures
            allocation == (SellAllocation {
                id: None,
                sell_transaction_id,
                buy_transaction_id,
                quantity,
                allocated_buy_price,
                allocated_buy_fees,
                capital_gain,
                cgt_discount_applied,
            }),
    {
        Self {
            id: None,
            sell_transaction_id,
            buy_transaction_id,
            quantity,
            allocated_buy_price,
            allocated_buy_fees,
            capital_gain,
            cgt_discount_applied,
        }
    }

    /// The gain that counts after the discount: a discounted gain counts by
    /// half, anything else in full.
    pub open spec fn effective_gain(&self) -> int {
        if self.capital_gain@ > 0 && self.cgt_discount_applied {
            round_div(self.capital_gain@, 2)
        } else {
            self.capital_gain@
        }
    }

    /// The gain after any discount that applies. Losses are never
    /// discounted.
    pub fn effective_capital_gain(&self) -> (gain: Money)
        ensures
            gain@ == self.effective_gain(),
    {
        if self.capital_gain.micros() <= 0 {
            self.capital_gain
        } else if self.cgt_discount_applied {
            self.capital_gain.apportion(1, 2)
        } else {
            self.capital_gain
        }
    }
}

} // verus!
