//! What is held of each stock.

use crate::models::{BuyTransaction, SellTransaction};
use crate::symbols::{distinct_names, first_mentions, texts};
use vstd::prelude::*;

verus! {

/// The shares of the stock `symbol` that the purchases bought.
pub open spec fn bought(buys: Seq<BuyTransaction>, symbol: Seq<char>) -> int
    decreases buys.len(),
{
    if buys.len() == 0 {
        0
    } else {
        bought(buys.drop_last(), symbol) + if buys.last().stock_id@ == symbol {
            buys.last().quantity as int
        } else {
            0
        }
    }
}

/// The shares of the stock `symbol` that the sales sold.
pub open spec fn sold(sells: Seq<SellTransaction>, symbol: Seq<char>) -> int
    decreases sells.len(),
{
    if sells.len() == 0 {
        0
    } else {
        sold(sells.drop_last(), symbol) + if sells.last().stock_id@ == symbol {
            sells.last().quantity as int
        } else {
            0
        }
    }
}

/// The shares of the stock `symbol` that are held: what was bought less
/// what was sold. Sales without purchases make it negative.
pub open spec fn holding(
    buys: Seq<BuyTransaction>,
    sells: Seq<SellTransaction>,
    symbol: Seq<char>,
) -> int {
    bought(buys, symbol) - sold(sells, symbol)
}

/// The symbols of the purchases, then those of the sales.
pub open spec fn traded_names(buys: Seq<BuyTransaction>, sells: Seq<SellTransaction>) -> Seq<
    Seq<char>,
> {
    Seq::new(buys.len(), |k: int| buys[k].stock_id@) + Seq::new(
        sells.len(),
        |k: int| sells[k].stock_id@,
    )
}

/// Each stock that was traded, once, in the order of first mention.
pub open spec fn traded_symbols(buys: Seq<BuyTransaction>, sells: Seq<SellTransaction>) -> Seq<
    Seq<char>,
> {
    first_mentions(traded_names(buys, sells))
}

/// A list of holdings as mathematics: each symbol with its number of
/// shares.
pub open spec fn listed(holdings: Seq<(String, i128)>) -> Seq<(Seq<char>, int)> {
    Seq::new(holdings.len(), |k: int| (holdings[k].0@, holdings[k].1 as int))
}

/// Each traded stock once, in the order of first mention, with the shares
/// held of it.
pub open spec fn holdings_of(buys: Seq<BuyTransaction>, sells: Seq<SellTransaction>) -> Seq<
    (Seq<char>, int),
> {
    Seq::new(
        traded_symbols(buys, sells).len(),
        |k: int|
            (traded_symbols(buys, sells)[k], holding(buys, sells, traded_symbols(buys, sells)[k])),
    )
}

/// The holdings of more than nothing among `holdings`, in their order.
pub open spec fn positive_holdings(holdings: Seq<(Seq<char>, int)>) -> Seq<(Seq<char>, int)>
    decreases holdings.len(),
{
    if holdings.len() == 0 {
        Seq::empty()
    } else if holdings.last().1 > 0 {
        positive_holdings(holdings.drop_last()).push(holdings.last())
    } else {
        positive_holdings(holdings.drop_last())
    }
}

/// Holdings, worked out from purchases and sales.
pub struct PortfolioService;

impl PortfolioService {
    /// The shares of one stock that the purchases bought.
    pub fn quantity_bought(buys: &Vec<BuyTransaction>, stock_id: &String) -> (total: u128)
        ensures
            total == bought(buys@, stock_id@),
            total <= buys.len() * 0xffff_ffff,
    {
        let mut total: u128 = 0;
        let mut i: usize = 0;
        while i < buys.len()
            invariant
                0 <= i <= buys.len(),
                total == bought(buys@.take(i as int), stock_id@),
                total <= i * 0xffff_ffff,
            decreases buys.len() - i,
        {
            proof {
                assert(buys@.take(i + 1).drop_last() =~= buys@.take(i as int));
                assert((i + 1) * 0xffff_ffff == i * 0xffff_ffff + 0xffff_ffff) by (nonlinear_arith);
                assert(i * 0xffff_ffff <= 0xffff_ffff_ffff_ffff * 0xffff_ffff) by (nonlinear_arith)
                    requires
                        0 <= i <= 0xffff_ffff_ffff_ffff,
                ;
            }
            if buys[i].stock_id == *stock_id {
                total = total + buys[i].quantity as u128;
            }
            i += 1;
        }
        proof {
            assert(buys@.take(i as int) =~= buys@);
        }
        total
    }

    /// The shares of one stock that the sales sold.
    pub fn quantity_sold(sells: &Vec<SellTransaction>, stock_id: &String) -> (total: u128)
        ensures
            total == sold(sells@, stock_id@),
            total <= sells.len() * 0xffff_ffff,
    {
        let mut total: u128 = 0;
        let mut i: usize = 0;
        while i < sells.len()
            invariant
                0 <= i <= sells.len(),
                total == sold(sells@.take(i as int), stock_id@),
                total <= i * 0xffff_ffff,
            decreases sells.len() - i,
        {
            proof {
                assert(sells@.take(i + 1).drop_last() =~= sells@.take(i as int));
                assert((i + 1) * 0xffff_ffff == i * 0xffff_ffff + 0xffff_ffff) by (nonlinear_arith);
                assert(i * 0xffff_ffff <= 0xffff_ffff_ffff_ffff * 0xffff_ffff) by (nonlinear_arith)
                    requires
                        0 <= i <= 0xffff_ffff_ffff_ffff,
                ;
            }
            if sells[i].stock_id == *stock_id {
                total = total + sells[i].quantity as u128;
            }
            i += 1;
        }
        proof {
            assert(sells@.take(i as int) =~= sells@);
        }
        total
    }

    /// The shares held of one stock: zero for a stock that was never
    /// traded, negative where more was sold than bought.
    pub fn get_holdings_for_stock(
        buys: &Vec<BuyTransaction>,
        sells: &Vec<SellTransaction>,
        stock_id: &String,
    ) -> (held: i128)
        ensures
            held == holding(buys@, sells@, stock_id@),
    {
        let b = Self::quantity_bought(buys, stock_id);
        let s = Self::quantity_sold(sells, stock_id);
        proof {
            assert(buys.len() * 0xffff_ffff <= 0xffff_ffff_ffff_ffff * 0xffff_ffff)
                by (nonlinear_arith)
                requires
                    0 <= buys.len() <= 0xffff_ffff_ffff_ffff,
            ;
            assert(sells.len() * 0xffff_ffff <= 0xffff_ffff_ffff_ffff * 0xffff_ffff)
                by (nonlinear_arith)
                requires
                    0 <= sells.len() <= 0xffff_ffff_ffff_ffff,
            ;
        }
        b as i128 - s as i128
    }

    /// The shares held of every stock that was traded.
    pub fn get_current_holdings(
        buys: &Vec<BuyTransaction>,
        sells: &Vec<SellTransaction>,
    ) -> (holdings: Vec<(String, i128)>)
        ensures
            listed(holdings@) == holdings_of(buys@, sells@),
    {
        let mut names: Vec<String> = Vec::new();
        let mut i: usize = 0;
        while i < buys.len()
            invariant
                0 <= i <= buys.len(),
                names.len() == i,
                texts(names@) == Seq::new(i as nat, |k: int| buys@[k].stock_id@),
            decreases buys.len() - i,
        {
            let ghost before = names@;
            names.push(buys[i].stock_id.clone());
            proof {
                let target = Seq::new((i + 1) as nat, |k: int| buys@[k].stock_id@);
                assert forall|m: int| 0 <= m < target.len() implies texts(names@)[m]
                    == target[m] by {
                    if m < i {
                        assert(names@[m] == before[m]);
                        assert(texts(before)[m] == buys@[m].stock_id@);
                    }
                }
                assert(texts(names@) =~= target);
            }
            i += 1;
        }
        let mut j: usize = 0;
        while j < sells.len()
            invariant
                0 <= j <= sells.len(),
                i == buys.len(),
                names.len() == i + j,
                texts(names@) == Seq::new(i as nat, |k: int| buys@[k].stock_id@) + Seq::new(
                    j as nat,
                    |k: int| sells@[k].stock_id@,
                ),
            decreases sells.len() - j,
        {
            let ghost before = names@;
            names.push(sells[j].stock_id.clone());
            proof {
                let old_target = Seq::new(i as nat, |k: int| buys@[k].stock_id@) + Seq::new(
                    j as nat,
                    |k: int| sells@[k].stock_id@,
                );
                let target = Seq::new(i as nat, |k: int| buys@[k].stock_id@) + Seq::new(
                    (j + 1) as nat,
                    |k: int| sells@[k].stock_id@,
                );
                assert forall|m: int| 0 <= m < target.len() implies texts(names@)[m]
                    == target[m] by {
                    if m < i + j {
                        assert(names@[m] == before[m]);
                        assert(texts(before)[m] == old_target[m]);
                    }
                }
                assert(texts(names@) =~= target);
            }
            j += 1;
        }
        assert(texts(names@) == traded_names(buys@, sells@));
        let symbols = distinct_names(&names);
        let mut holdings: Vec<(String, i128)> = Vec::new();
        let mut k: usize = 0;
        while k < symbols.len()
            invariant
                0 <= k <= symbols.len(),
                texts(symbols@) == traded_symbols(buys@, sells@),
                holdings.len() == k,
                forall|m: int|
                    0 <= m < k ==> {
                        &&& (#[trigger] holdings[m]).0@ == symbols[m]@
                        &&& holdings[m].1 == holding(buys@, sells@, symbols[m]@)
                    },
            decreases symbols.len() - k,
        {
            let held = Self::get_holdings_for_stock(buys, sells, &symbols[k]);
            holdings.push((symbols[k].clone(), held));
            k += 1;
        }
        proof {
            assert forall|m: int| 0 <= m < holdings.len() implies listed(holdings@)[m]
                == holdings_of(buys@, sells@)[m] by {
                assert(texts(symbols@)[m] == symbols[m]@);
            }
            assert(texts(symbols@).len() == symbols.len());
            assert(listed(holdings@) =~= holdings_of(buys@, sells@));
        }
        holdings
    }

    /// The stocks of which a positive number of shares is held, with that
    /// number.
    pub fn get_active_holdings(buys: &Vec<BuyTransaction>, sells: &Vec<SellTransaction>) -> (active:
        Vec<(String, i128)>)
        ensures
            listed(active@) == positive_holdings(holdings_of(buys@, sells@)),
    {
        let all = Self::get_current_holdings(buys, sells);
        let mut active: Vec<(String, i128)> = Vec::new();
        let mut k: usize = 0;
        while k < all.len()
            invariant
                0 <= k <= all.len(),
                listed(active@) == positive_holdings(listed(all@).take(k as int)),
            decreases all.len() - k,
        {
            proof {
                assert(listed(all@).take(k + 1).drop_last() =~= listed(all@).take(k as int));
                assert(listed(all@).take(k + 1).last() == (
                    all[k as int].0@,
                    all[k as int].1 as int,
                ));
            }
            if all[k].1 > 0 {
                let ghost before = active@;
                active.push((all[k].0.clone(), all[k].1));
                assert(listed(active@) =~= listed(before).push(
                    (all[k as int].0@, all[k as int].1 as int),
                ));
            }
            k += 1;
        }
        proof {
            assert(listed(all@).take(k as int) =~= listed(all@));
        }
        active
    }
}

} // verus!
