//! Capital gains of one financial year, added up.

use crate::money::round_div;
use vstd::prelude::*;

verus! {

/// What is taxable of gains `short_term` and `long_term` after the long-term
/// gains are halved and `losses` are set against them; never negative.
pub open spec fn net_gains(short_term: int, long_term: int, losses: int) -> int {
    let total = short_term + round_div(long_term, 2);
    if total > losses {
        total - losses
    } else {
        0
    }
}

/// The losses that remain once the gains are used up; never negative.
pub open spec fn carried_losses(short_term: int, discounted: int, losses: int) -> int {
    let total = short_term + discounted;
    if losses > total {
        losses - total
    } else {
        0
    }
}

/// Capital gains of one financial year. All amounts are in micro-units and
/// none is negative.
#[derive(Debug)]
pub struct CapitalGainsSummary {
    pub financial_year: String,
    /// Gains on lots held for up to 365 days.
    pub short_term_gains: u128,
    /// Gains on lots held longer, before the discount.
    pub long_term_gains: u128,
    /// The long-term gains after the discount of one half.
    pub discounted_gains: u128,
    /// Losses, as a positive amount.
    pub capital_losses: u128,
    /// The taxable total.
    pub net_capital_gains: u128,
}

impl CapitalGainsSummary {
    /// Whether the derived amounts are what the totals make them.
    pub open spec fn is_consistent(&self) -> bool {
        &&& self.discounted_gains == round_div(self.long_term_gains as int, 2)
        &&& self.net_capital_gains == net_gains(
            self.short_term_gains as int,
            self.long_term_gains as int,
            self.capital_losses as int,
        )
    }

    /// The summary of the given totals: the long-term gains are halved, and
    /// the losses are set against the gains as far as these go.
    pub fn new(
        financial_year: String,
        short_term_gains: u128,
        long_term_gains: u128,
        capital_losses: u128,
    ) -> (summary: CapitalGainsSummary)
        requires
            short_term_gains + round_div(long_term_gains as int, 2) <= u128::MAX,
        ensures
            summary.financial_year == financial_year,
            summary.short_term_gains == short_term_gains,
            summary.long_term_gains == long_term_gains,
            summary.capital_losses == capital_losses,
            summary.is_consistent(),
    {
        let discounted_gains = long_term_gains / 2 + long_term_gains % 2;
        let total_gains = short_term_gains + discounted_gains;
        let net_capital_gains = if total_gains > capital_losses {
            total_gains - capital_losses
        } else {
            0
        };
        Self {
            financial_year,
            short_term_gains,
            long_term_gains,
            discounted_gains,
            capital_losses,
            net_capital_gains,
        }
    }

    /// The losses left over to carry into later years.
    pub fn excess_losses(&self) -> (excess: u128)
        ensures
            excess == carried_losses(
                self.short_term_gains as int,
                self.discounted_gains as int,
                self.capital_losses as int,
            ),
    {
        if self.capital_losses > self.short_term_gains {
            let rest = self.capital_losses - self.short_term_gains;
            if rest > self.discounted_gains {
                rest - self.discounted_gains
            } else {
                0
            }
        } else {
            0
        }
    }
}

/// Of the taxable gains and the losses carried forward at most one is not
/// zero, and their difference is the gains less the losses.
pub proof fn lemma_net_or_excess(summary: &CapitalGainsSummary)
    requires
        summary.is_consistent(),
    ensures
        summary.net_capital_gains == 0 || carried_losses(
            summary.short_term_gains as int,
            summary.discounted_gains as int,
            summary.capital_losses as int,
        ) == 0,
        summary.net_capital_gains - carried_losses(
            summary.short_term_gains as int,
            summary.discounted_gains as int,
            summary.capital_losses as int,
        ) == summary.short_term_gains + summary.discounted_gains - summary.capital_losses,
{
}

} // verus!
