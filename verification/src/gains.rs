//! Adding up what allocations gained and lost.

use crate::models::summary::net_gains;
use crate::models::{CapitalGainsSummary, SellAllocation};
use crate::symbols::{distinct_names, first_mentions, texts};
use vstd::prelude::*;

verus! {

/// What an allocation adds to the short-term gains: its gain, if it is one
/// and the lot was not held long enough for the discount.
pub open spec fn short_term_part(a: SellAllocation) -> int {
    if a.capital_gain@ > 0 && !a.cgt_discount_applied {
        a.capital_gain@
    } else {
        0
    }
}

/// What an allocation adds to the long-term gains: its gain, if it is one
/// and the lot was held long enough for the discount.
pub open spec fn long_term_part(a: SellAllocation) -> int {
    if a.capital_gain@ > 0 && a.cgt_discount_applied {
        a.capital_gain@
    } else {
        0
    }
}

/// What an allocation adds to the losses: its loss as a positive amount,
/// however long the lot was held.
pub open spec fn loss_part(a: SellAllocation) -> int {
    if a.capital_gain@ < 0 {
        -a.capital_gain@
    } else {
        0
    }
}

/// The short-term gains of the allocations.
pub open spec fn short_term_total(allocations: Seq<SellAllocation>) -> int
    decreases allocations.len(),
{
    if allocations.len() == 0 {
        0
    } else {
        short_term_total(allocations.drop_last()) + short_term_part(allocations.last())
    }
}

/// The long-term gains of the allocations, before the discount.
pub open spec fn long_term_total(allocations: Seq<SellAllocation>) -> int
    decreases allocations.len(),
{
    if allocations.len() == 0 {
        0
    } else {
        long_term_total(allocations.drop_last()) + long_term_part(allocations.last())
    }
}

/// The losses of the allocations, as a positive amount.
pub open spec fn loss_total(allocations: Seq<SellAllocation>) -> int
    decreases allocations.len(),
{
    if allocations.len() == 0 {
        0
    } else {
        loss_total(allocations.drop_last()) + loss_part(allocations.last())
    }
}

/// The most that one allocation can add to a total.
pub open spec fn part_limit() -> int {
    0x8000_0000_0000_0000
}

/// The three totals are not negative, and together they are at most
/// [`part_limit`] for each allocation.
pub proof fn lemma_totals_bounded(allocations: Seq<SellAllocation>)
    ensures
        0 <= short_term_total(allocations),
        0 <= long_term_total(allocations),
        0 <= loss_total(allocations),
        short_term_total(allocations) + long_term_total(allocations) + loss_total(allocations)
            <= allocations.len() * part_limit(),
    decreases allocations.len(),
{
    if allocations.len() > 0 {
        lemma_totals_bounded(allocations.drop_last());
        assert(allocations.len() * part_limit() == allocations.drop_last().len() * part_limit()
            + part_limit()) by (nonlinear_arith)
            requires
                allocations.len() == allocations.drop_last().len() + 1,
        ;
    }
}

/// The three amounts that one allocation adds to the totals.
pub fn parts_of(a: &SellAllocation) -> (parts: (u64, u64, u64))
    ensures
        parts.0 == short_term_part(*a),
        parts.1 == long_term_part(*a),
        parts.2 == loss_part(*a),
{
    let gain = a.capital_gain.micros();
    if gain > 0 {
        if a.cgt_discount_applied {
            (0, gain as u64, 0)
        } else {
            (gain as u64, 0, 0)
        }
    } else if gain < 0 {
        (0, 0, (-(gain as i128)) as u64)
    } else {
        (0, 0, 0)
    }
}

/// The short-term gains, the long-term gains and the losses of the
/// allocations.
pub fn totals(allocations: &Vec<SellAllocation>) -> (sums: (u128, u128, u128))
    ensures
        sums.0 == short_term_total(allocations@),
        sums.1 == long_term_total(allocations@),
        sums.2 == loss_total(allocations@),
        sums.0 + sums.1 + sums.2 <= allocations.len() * part_limit(),
{
    let mut short_term_gains: u128 = 0;
    let mut long_term_gains: u128 = 0;
    let mut capital_losses: u128 = 0;
    let n = allocations.len();
    let mut i: usize = 0;
    while i < n
        invariant
            0 <= i <= n,
            n == allocations.len(),
            short_term_gains == short_term_total(allocations@.take(i as int)),
            long_term_gains == long_term_total(allocations@.take(i as int)),
            capital_losses == loss_total(allocations@.take(i as int)),
        decreases n - i,
    {
        proof {
            lemma_totals_bounded(allocations@.take(i as int));
            assert(allocations@.take(i + 1).drop_last() =~= allocations@.take(i as int));
            assert(i * part_limit() <= 0xffff_ffff_ffff_ffff * part_limit()) by (nonlinear_arith)
                requires
                    0 <= i <= 0xffff_ffff_ffff_ffff,
            ;
        }
        let parts = parts_of(&allocations[i]);
        short_term_gains = short_term_gains + parts.0 as u128;
        long_term_gains = long_term_gains + parts.1 as u128;
        capital_losses = capital_losses + parts.2 as u128;
        i += 1;
    }
    proof {
        assert(allocations@.take(n as int) =~= allocations@);
        lemma_totals_bounded(allocations@);
    }
    (short_term_gains, long_term_gains, capital_losses)
}

/// The capital gains of the allocations of one financial year: gains on
/// lots held for up to 365 days, gains on lots held longer, and losses are
/// added up apart; a gain of zero counts nowhere.
pub fn summarize(financial_year: String, allocations: &Vec<SellAllocation>) -> (summary:
    CapitalGainsSummary)
    ensures
        summary.financial_year == financial_year,
        summary.short_term_gains == short_term_total(allocations@),
        summary.long_term_gains == long_term_total(allocations@),
        summary.capital_losses == loss_total(allocations@),
        summary.is_consistent(),
{
    let sums = totals(allocations);
    proof {
        lemma_totals_bounded(allocations@);
        assert(allocations.len() * part_limit() <= 0xffff_ffff_ffff_ffff * part_limit())
            by (nonlinear_arith)
            requires
                0 <= allocations.len() <= 0xffff_ffff_ffff_ffff,
        ;
        crate::money::lemma_round_div_share_bounded(sums.1 as int, 1, 2);
    }
    CapitalGainsSummary::new(financial_year, sums.0, sums.1, sums.2)
}

/// An allocation together with the symbol of the stock it is about.
pub type StockAllocation = (String, SellAllocation);

/// The totals of one stock: its symbol, short-term gains, long-term gains,
/// losses, and what is taxable of them.
pub type StockGains = (String, u128, u128, u128, u128);

/// An allocation together with the symbol of its stock, as mathematics.
pub type StockRow = (Seq<char>, SellAllocation);

/// The rows as mathematics.
pub open spec fn viewed(rows: Seq<StockAllocation>) -> Seq<StockRow> {
    Seq::new(rows.len(), |k: int| (rows[k].0@, rows[k].1))
}

/// The allocations of the rows.
pub open spec fn allocations_in(rows: Seq<StockRow>) -> Seq<SellAllocation> {
    Seq::new(rows.len(), |k: int| rows[k].1)
}

/// The allocations among `rows` that are about the stock `symbol`, in
/// their order.
pub open spec fn allocations_of(rows: Seq<StockRow>, symbol: Seq<char>) -> Seq<SellAllocation>
    decreases rows.len(),
{
    if rows.len() == 0 {
        Seq::empty()
    } else if rows.last().0 == symbol {
        allocations_of(rows.drop_last(), symbol).push(rows.last().1)
    } else {
        allocations_of(rows.drop_last(), symbol)
    }
}

/// The stocks that `rows` are about, each once, in the order of first
/// mention.
pub open spec fn stocks_of(rows: Seq<StockRow>) -> Seq<Seq<char>> {
    first_mentions(Seq::new(rows.len(), |k: int| rows[k].0))
}

/// The totals of the stock `symbol` in `rows`.
pub open spec fn stock_gains_of(rows: Seq<StockRow>, symbol: Seq<char>) -> (
    Seq<char>,
    int,
    int,
    int,
    int,
) {
    let own = allocations_of(rows, symbol);
    (
        symbol,
        short_term_total(own),
        long_term_total(own),
        loss_total(own),
        net_gains(short_term_total(own), long_term_total(own), loss_total(own)),
    )
}

/// The totals of every stock that `rows` are about, in the order of first
/// mention.
pub open spec fn gains_by_stock_of(rows: Seq<StockRow>) -> Seq<
    (Seq<char>, int, int, int, int),
> {
    Seq::new(stocks_of(rows).len(), |k: int| stock_gains_of(rows, stocks_of(rows)[k]))
}

/// A list of totals as mathematics.
pub open spec fn listed_gains(gains: Seq<StockGains>) -> Seq<(Seq<char>, int, int, int, int)> {
    Seq::new(
        gains.len(),
        |k: int|
            (
                gains[k].0@,
                gains[k].1 as int,
                gains[k].2 as int,
                gains[k].3 as int,
                gains[k].4 as int,
            ),
    )
}

/// The allocations among `rows` that are about one stock.
pub fn allocations_for_stock(rows: &Vec<StockAllocation>, stock_id: &String) -> (own: Vec<
    SellAllocation,
>)
    ensures
        own@ == allocations_of(viewed(rows@), stock_id@),
{
    let mut own: Vec<SellAllocation> = Vec::new();
    let mut i: usize = 0;
    while i < rows.len()
        invariant
            0 <= i <= rows.len(),
            own@ == allocations_of(viewed(rows@).take(i as int), stock_id@),
        decreases rows.len() - i,
    {
        proof {
            assert(viewed(rows@).take(i + 1).drop_last() =~= viewed(rows@).take(i as int));
            assert(viewed(rows@).take(i + 1).last() == (rows[i as int].0@, rows[i as int].1));
        }
        if rows[i].0 == *stock_id {
            own.push(rows[i].1);
        }
        i += 1;
    }
    proof {
        assert(viewed(rows@).take(i as int) =~= viewed(rows@));
    }
    own
}

/// The capital gains stock by stock: for each stock that the allocations
/// are about, the same totals as for a whole year, and what is taxable of
/// them.
pub fn summarize_by_stock(rows: &Vec<StockAllocation>) -> (gains: Vec<StockGains>)
    ensures
        listed_gains(gains@) == gains_by_stock_of(viewed(rows@)),
{
    let mut names: Vec<String> = Vec::new();
    let mut i: usize = 0;
    while i < rows.len()
        invariant
            0 <= i <= rows.len(),
            names.len() == i,
            texts(names@) == Seq::new(i as nat, |k: int| rows@[k].0@),
        decreases rows.len() - i,
    {
        let ghost before = names@;
        names.push(rows[i].0.clone());
        proof {
            let target = Seq::new((i + 1) as nat, |k: int| rows@[k].0@);
            assert forall|m: int| 0 <= m < target.len() implies texts(names@)[m] == target[m] by {
                if m < i {
                    assert(names@[m] == before[m]);
                    assert(texts(before)[m] == rows@[m].0@);
                }
            }
            assert(texts(names@) =~= target);
        }
        i += 1;
    }
    proof {
        assert(texts(names@) =~= Seq::new(viewed(rows@).len(), |k: int| viewed(rows@)[k].0));
    }
    let symbols = distinct_names(&names);
    let mut gains: Vec<StockGains> = Vec::new();
    let mut k: usize = 0;
    while k < symbols.len()
        invariant
            0 <= k <= symbols.len(),
            texts(symbols@) == stocks_of(viewed(rows@)),
            gains.len() == k,
            forall|m: int|
                0 <= m < k ==> listed_gains(gains@)[m] == stock_gains_of(
                    viewed(rows@),
                    symbols[m]@,
                ),
        decreases symbols.len() - k,
    {
        let own = allocations_for_stock(rows, &symbols[k]);
        let summary = summarize(symbols[k].clone(), &own);
        let ghost before = gains@;
        gains.push(
            (
                summary.financial_year,
                summary.short_term_gains,
                summary.long_term_gains,
                summary.capital_losses,
                summary.net_capital_gains,
            ),
        );
        proof {
            assert forall|m: int| 0 <= m < k + 1 implies listed_gains(gains@)[m]
                == stock_gains_of(viewed(rows@), symbols[m]@) by {
                if m < k {
                    assert(gains@[m] == before[m]);
                    assert(listed_gains(before)[m] == stock_gains_of(viewed(rows@), symbols[m]@));
                }
            }
        }
        k += 1;
    }
    proof {
        assert(texts(symbols@).len() == symbols.len());
        assert forall|m: int| 0 <= m < gains.len() implies listed_gains(gains@)[m]
            == gains_by_stock_of(viewed(rows@))[m] by {
            assert(texts(symbols@)[m] == symbols[m]@);
        }
        assert(listed_gains(gains@) =~= gains_by_stock_of(viewed(rows@)));
    }
    gains
}

} // verus!
