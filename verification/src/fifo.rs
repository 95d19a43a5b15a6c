//! Matching a sale to the lots that supply it, oldest lot first, and
//! working out what was gained on each part.

use crate::date::Date;
use crate::models::{BuyTransaction, SellAllocation, SellTransaction};
use crate::money::{fits_money, round_div, Money};
use crate::text::{decimal_text, push_decimal};
use vstd::prelude::*;
use vstd::string::*;

verus! {

/// Why a sale could not be matched to lots.
#[derive(Debug, Clone, Copy, PartialEq, Eq, Structural)]
pub enum AllocationError {
    /// The store holds no sale of this number.
    SellNotFound { sell_transaction_id: i32 },
    /// The lots hold fewer shares than were sold; `remaining` shares are
    /// left without a lot.
    InsufficientLots { sell_transaction_id: i32, remaining: u32 },
    /// A lot that the sale would draw on has no number.
    LotWithoutId,
    /// An amount of an allocation is too large to be held.
    AmountOutOfRange,
    /// The books cannot number any more allocations.
    TooManyRecords,
}

impl AllocationError {
    /// The message of an error, as text.
    pub open spec fn message(&self) -> Seq<char> {
        match self {
            AllocationError::SellNotFound { sell_transaction_id } =>
                "Sell transaction not found: "@ + decimal_text(*sell_transaction_id as int),
            AllocationError::InsufficientLots { sell_transaction_id, remaining } =>
                "Could not allocate all shares for sell transaction "@ + decimal_text(
                    *sell_transaction_id as int,
                ) + ": "@ + decimal_text(*remaining as int) + " remaining"@,
            AllocationError::LotWithoutId => "Buy transaction has no ID"@,
            AllocationError::AmountOutOfRange => "Allocated amount is out of range"@,
            AllocationError::TooManyRecords => "Too many allocations"@,
        }
    }

    /// Renders the error for people.
    pub fn to_string(&self) -> (s: String)
        ensures
            s@ == self.message(),
    {
        match self {
            AllocationError::SellNotFound { sell_transaction_id } => {
                let mut s = String::from_str("Sell transaction not found: ");
                push_decimal(&mut s, *sell_transaction_id as i64);
                s
            },
            AllocationError::InsufficientLots { sell_transaction_id, remaining } => {
                let mut s = String::from_str(
                    "Could not allocate all shares for sell transaction ",
                );
                push_decimal(&mut s, *sell_transaction_id as i64);
                s.append(": ");
                push_decimal(&mut s, *remaining as i64);
                s.append(" remaining");
                s
            },
            AllocationError::LotWithoutId => String::from_str("Buy transaction has no ID"),
            AllocationError::AmountOutOfRange => String::from_str(
                "Allocated amount is out of range",
            ),
            AllocationError::TooManyRecords => String::from_str("Too many allocations"),
        }
    }
}

/// A lot together with the number of its shares that no sale has taken yet.
pub type AvailableLot = (BuyTransaction, u32);

/// No lot has more shares left than it was bought with.
pub open spec fn lots_are_sound(lots: Seq<AvailableLot>) -> bool {
    forall|i: int| 0 <= i < lots.len() ==> (#[trigger] lots[i]).1 <= lots[i].0.quantity
}

/// The shares left in the first `n` lots together.
pub open spec fn available_before(lots: Seq<AvailableLot>, n: int) -> int
    decreases n,
{
    if n <= 0 {
        0
    } else {
        available_before(lots, n - 1) + lots[n - 1].1
    }
}

/// The shares left in all the lots together.
pub open spec fn total_available(lots: Seq<AvailableLot>) -> int {
    available_before(lots, lots.len() as int)
}

/// The shares of a sale of `need` shares that are still unmatched when lot
/// `i` is reached, the lots before it having given all they had.
pub open spec fn wanted_at(need: int, lots: Seq<AvailableLot>, i: int) -> int {
    if need > available_before(lots, i) {
        need - available_before(lots, i)
    } else {
        0
    }
}

/// The shares that lot `i` gives to a sale of `need` shares: all that is
/// still wanted, as far as the lot has them.
pub open spec fn take_at(need: int, lots: Seq<AvailableLot>, i: int) -> int {
    if wanted_at(need, lots, i) < lots[i].1 {
        wanted_at(need, lots, i)
    } else {
        lots[i].1 as int
    }
}

/// The purchase price of `take` shares of a lot.
pub open spec fn line_cost(lot: BuyTransaction, take: int) -> int {
    lot.price_per_share@ * take
}

/// The share of a lot's fees that falls to `take` of its shares: in
/// proportion to the quantity the lot was bought with.
pub open spec fn line_buy_fees(lot: BuyTransaction, take: int) -> int {
    round_div(lot.fees@ * take, lot.quantity as int)
}

/// What `take` shares of a sale bring in: their price less their share of
/// the sale's fees, in proportion to the quantity sold.
pub open spec fn line_proceeds(sell: SellTransaction, take: int) -> int {
    sell.price_per_share@ * take - round_div(sell.fees@ * take, sell.quantity as int)
}

/// The gain on `take` shares of a lot sold in a sale: proceeds less the cost
/// and the lot's fees.
pub open spec fn line_gain(sell: SellTransaction, lot: BuyTransaction, take: int) -> int {
    line_proceeds(sell, take) - (line_cost(lot, take) + line_buy_fees(lot, take))
}

/// Whether the amounts of the allocation can be held.
pub open spec fn line_fits(sell: SellTransaction, lot: BuyTransaction, take: int) -> bool {
    fits_money(line_cost(lot, take)) && fits_money(line_gain(sell, lot, take))
}

/// The record of `take` shares of a lot sold in the sale numbered `sell_id`.
pub open spec fn line_record(
    sell_id: i32,
    sell: SellTransaction,
    lot: BuyTransaction,
    take: int,
) -> SellAllocation {
    SellAllocation {
        id: None,
        sell_transaction_id: sell_id,
        buy_transaction_id: lot.id.unwrap(),
        quantity: take as u32,
        allocated_buy_price: Money { micros: line_cost(lot, take) as i64 },
        allocated_buy_fees: Money { micros: line_buy_fees(lot, take) as i64 },
        capital_gain: Money { micros: line_gain(sell, lot, take) as i64 },
        cgt_discount_applied: sell.date.day_number() - lot.date.day_number() > 365,
    }
}

/// The records for the first `n` lots: one for each lot that gives shares,
/// in the order of the lots.
pub open spec fn planned_records(
    sell_id: i32,
    sell: SellTransaction,
    lots: Seq<AvailableLot>,
    n: int,
) -> Seq<SellAllocation>
    decreases n,
{
    if n <= 0 {
        Seq::empty()
    } else {
        let before = planned_records(sell_id, sell, lots, n - 1);
        let take = take_at(sell.quantity as int, lots, n - 1);
        if take > 0 {
            before.push(line_record(sell_id, sell, lots[n - 1].0, take))
        } else {
            before
        }
    }
}

/// Whether one of the first `n` lots gives shares but has no number.
pub open spec fn uses_lot_without_id(need: int, lots: Seq<AvailableLot>, n: int) -> bool {
    exists|i: int| 0 <= i < n && #[trigger] take_at(need, lots, i) > 0 && lots[i].0.id.is_none()
}

/// Whether one of the first `n` lots gives shares whose amounts cannot be
/// held.
pub open spec fn uses_lot_out_of_range(
    sell: SellTransaction,
    lots: Seq<AvailableLot>,
    n: int,
) -> bool {
    exists|i: int|
        0 <= i < n && #[trigger] take_at(sell.quantity as int, lots, i) > 0 && !line_fits(
            sell,
            lots[i].0,
            take_at(sell.quantity as int, lots, i),
        )
}

/// What matching a sale to lots must give. There are records only if the
/// lots hold all the shares sold, each lot drawn on has a number, and every
/// amount can be held; otherwise the first of these that fails is the error.
pub open spec fn is_matching_of(
    sell_id: i32,
    sell: SellTransaction,
    lots: Seq<AvailableLot>,
    r: Result<Vec<SellAllocation>, AllocationError>,
) -> bool {
    let need = sell.quantity as int;
    let n = lots.len() as int;
    if total_available(lots) < need {
        r == Err::<Vec<SellAllocation>, AllocationError>(
            AllocationError::InsufficientLots {
                sell_transaction_id: sell_id,
                remaining: (need - total_available(lots)) as u32,
            },
        )
    } else if uses_lot_without_id(need, lots, n) {
        r == Err::<Vec<SellAllocation>, AllocationError>(AllocationError::LotWithoutId)
    } else if uses_lot_out_of_range(sell, lots, n) {
        r == Err::<Vec<SellAllocation>, AllocationError>(AllocationError::AmountOutOfRange)
    } else {
        &&& r matches Ok(records)
        &&& records@ == planned_records(sell_id, sell, lots, n)
    }
}

/// What allocating a sale must give. A sale that has allocations keeps
/// them: they are given back as they are, and the lots are not looked at.
/// A sale that has none is matched to the lots.
pub open spec fn is_allocation_of(
    sell_id: i32,
    sell: SellTransaction,
    existing: Seq<SellAllocation>,
    lots: Seq<AvailableLot>,
    r: Result<Vec<SellAllocation>, AllocationError>,
) -> bool {
    if existing.len() > 0 {
        &&& r matches Ok(records)
        &&& records@ == existing
    } else {
        is_matching_of(sell_id, sell, lots, r)
    }
}

/// The shares that the records take, all together.
pub open spec fn total_quantity(records: Seq<SellAllocation>) -> int
    decreases records.len(),
{
    if records.len() == 0 {
        0
    } else {
        total_quantity(records.drop_last()) + records.last().quantity
    }
}

/// The shares that the records take from the lot numbered `buy_id`.
pub open spec fn quantity_from_lot(records: Seq<SellAllocation>, buy_id: i32) -> int
    decreases records.len(),
{
    if records.len() == 0 {
        0
    } else {
        quantity_from_lot(records.drop_last(), buy_id) + if records.last().buy_transaction_id
            == buy_id {
            records.last().quantity as int
        } else {
            0
        }
    }
}

/// The shares that the allocations give to the sale numbered `sell_id`.
pub open spec fn quantity_for_sell(allocations: Seq<SellAllocation>, sell_id: i32) -> int
    decreases allocations.len(),
{
    if allocations.len() == 0 {
        0
    } else {
        quantity_for_sell(allocations.drop_last(), sell_id) + if allocations.last(
        ).sell_transaction_id == sell_id {
            allocations.last().quantity as int
        } else {
            0
        }
    }
}

/// The allocations of the sale numbered `sell_id` among `allocations`, in
/// their order.
pub open spec fn allocations_of_sale(allocations: Seq<SellAllocation>, sell_id: i32) -> Seq<
    SellAllocation,
>
    decreases allocations.len(),
{
    if allocations.len() == 0 {
        Seq::empty()
    } else if allocations.last().sell_transaction_id == sell_id {
        allocations_of_sale(allocations.drop_last(), sell_id).push(allocations.last())
    } else {
        allocations_of_sale(allocations.drop_last(), sell_id)
    }
}

/// Allocations never take less than nothing from a lot.
pub proof fn lemma_quantity_from_lot_is_not_negative(records: Seq<SellAllocation>, buy_id: i32)
    ensures
        quantity_from_lot(records, buy_id) >= 0,
    decreases records.len(),
{
    if records.len() > 0 {
        lemma_quantity_from_lot_is_not_negative(records.drop_last(), buy_id);
    }
}

/// Allocations never give less than nothing to a sale.
pub proof fn lemma_quantity_for_sell_is_not_negative(records: Seq<SellAllocation>, sell_id: i32)
    ensures
        quantity_for_sell(records, sell_id) >= 0,
    decreases records.len(),
{
    if records.len() > 0 {
        lemma_quantity_for_sell_is_not_negative(records.drop_last(), sell_id);
    }
}

/// Lots never hold less than nothing.
pub proof fn lemma_available_is_not_negative(lots: Seq<AvailableLot>, n: int)
    ensures
        available_before(lots, n) >= 0,
    decreases n,
{
    if n > 0 {
        lemma_available_is_not_negative(lots, n - 1);
    }
}

/// Once nothing is wanted any more, no later lot gives anything.
pub proof fn lemma_nothing_wanted_later(need: int, lots: Seq<AvailableLot>, i: int, j: int)
    requires
        0 <= i <= j,
        wanted_at(need, lots, i) == 0,
    ensures
        wanted_at(need, lots, j) == 0,
        available_before(lots, i) <= available_before(lots, j),
    decreases j - i,
{
    if i < j {
        lemma_nothing_wanted_later(need, lots, i, j - 1);
    }
}

proof fn lemma_planned_stops(
    sell_id: i32,
    sell: SellTransaction,
    lots: Seq<AvailableLot>,
    i: int,
    j: int,
)
    requires
        0 <= i <= j,
        wanted_at(sell.quantity as int, lots, i) == 0,
    ensures
        planned_records(sell_id, sell, lots, j) == planned_records(sell_id, sell, lots, i),
    decreases j - i,
{
    if i < j {
        lemma_planned_stops(sell_id, sell, lots, i, j - 1);
        lemma_nothing_wanted_later(sell.quantity as int, lots, i, j - 1);
    }
}

fn product(amount: Money, count: u32) -> (p: i128)
    ensures
        p == amount@ * count,
        -0x8000_0000_0000_0000 * 0x1_0000_0000 <= p <= 0x8000_0000_0000_0000 * 0x1_0000_0000,
{
    assert(-0x8000_0000_0000_0000 * 0x1_0000_0000 <= amount@ * count <= 0x8000_0000_0000_0000
        * 0x1_0000_0000) by (nonlinear_arith)
        requires
            -0x8000_0000_0000_0000 <= amount@ <= 0x8000_0000_0000_0000,
            0 <= count <= 0x1_0000_0000,
    ;
    amount.micros() as i128 * count as i128
}

/// The record for `take` shares of `lot` sold in `sell`, if the lot has a
/// number and the amounts can be held.
fn make_record(sell_id: i32, sell: &SellTransaction, lot: &BuyTransaction, take: u32) -> (r:
    Option<SellAllocation>)
    requires
        0 < take <= lot.quantity,
        take <= sell.quantity,
        lot.id.is_some(),
    ensures
        match r {
            Some(record) => line_fits(*sell, *lot, take as int) && record == line_record(
                sell_id,
                *sell,
                *lot,
                take as int,
            ),
            None => !line_fits(*sell, *lot, take as int),
        },
{
    let cost = product(lot.price_per_share, take);
    let buy_fees = lot.fees.apportion(take, lot.quantity);
    let sell_price = product(sell.price_per_share, take);
    let sell_fees = sell.fees.apportion(take, sell.quantity);
    let proceeds = sell_price - sell_fees.micros() as i128;
    let cost_basis = cost + buy_fees.micros() as i128;
    let gain = proceeds - cost_basis;
    if cost < i64::MIN as i128 || cost > i64::MAX as i128 || gain < i64::MIN as i128 || gain
        > i64::MAX as i128 {
        return None;
    }
    let discount = Date::is_eligible_for_cgt_discount(&lot.date, &sell.date);
    let buy_id = match lot.id {
        Some(id) => id,
        None => 0,
    };
    Some(
        SellAllocation::new(
            sell_id,
            buy_id,
            take,
            Money::from_micros(cost as i64),
            buy_fees,
            Money::from_micros(gain as i64),
            discount,
        ),
    )
}

/// Matches the sale numbered `sell_id` to `lots`, which are its instrument's
/// lots with what is left of each, oldest first. Each lot in turn gives what
/// is still wanted, as far as it has shares left; lots that have none are
/// passed over. Either the whole sale is matched or there are no records.
pub fn match_to_lots(sell_id: i32, sell: &SellTransaction, lots: &Vec<AvailableLot>) -> (r: Result<
    Vec<SellAllocation>,
    AllocationError,
>)
    requires
        lots_are_sound(lots@),
    ensures
        is_matching_of(sell_id, *sell, lots@, r),
        r matches Ok(records) ==> total_quantity(records@) == sell.quantity,
{
    proof {
        if total_available(lots@) >= sell.quantity {
            lemma_allocation_conserves_quantity(sell_id, *sell, lots@);
        }
    }
    let ghost need = sell.quantity as int;
    let n = lots.len();
    let mut records: Vec<SellAllocation> = Vec::new();
    let mut remaining_to_allocate: u32 = sell.quantity;
    let mut without_id = false;
    let mut out_of_range = false;
    let mut i: usize = 0;
    while i < n && remaining_to_allocate > 0
        invariant
            0 <= i <= n,
            n == lots.len(),
            need == sell.quantity,
            lots_are_sound(lots@),
            remaining_to_allocate == wanted_at(need, lots@, i as int),
            without_id == uses_lot_without_id(need, lots@, i as int),
            !without_id ==> out_of_range == uses_lot_out_of_range(*sell, lots@, i as int),
            !without_id && !out_of_range ==> records@ == planned_records(
                sell_id,
                *sell,
                lots@,
                i as int,
            ),
        decreases n - i,
    {
        let lot = &lots[i].0;
        let left = lots[i].1;
        let take = if remaining_to_allocate < left {
            remaining_to_allocate
        } else {
            left
        };
        assert(take == take_at(need, lots@, i as int));
        proof {
            lemma_available_is_not_negative(lots@, i as int);
        }
        let ghost was_without_id = without_id;
        let ghost was_out_of_range = out_of_range;
        if take > 0 {
            if lot.id.is_none() {
                without_id = true;
            } else {
                match make_record(sell_id, sell, lot, take) {
                    Some(record) => {
                        records.push(record);
                    },
                    None => {
                        out_of_range = true;
                    },
                }
            }
        }
        remaining_to_allocate = remaining_to_allocate - take;
        proof {
            let k = i as int;
            if was_without_id {
                let w = choose|j: int|
                    0 <= j < k && #[trigger] take_at(need, lots@, j) > 0
                        && lots@[j].0.id.is_none();
                assert(0 <= w < k + 1 && take_at(need, lots@, w) > 0);
            } else {
                assert(uses_lot_without_id(need, lots@, k + 1) == without_id) by {
                    if uses_lot_without_id(need, lots@, k + 1) {
                        let w = choose|j: int|
                            0 <= j < k + 1 && #[trigger] take_at(need, lots@, j) > 0
                                && lots@[j].0.id.is_none();
                        if w < k {
                            assert(uses_lot_without_id(need, lots@, k));
                        }
                    }
                    if without_id {
                        assert(take_at(need, lots@, k) > 0 && lots@[k].0.id.is_none());
                    }
                }
            }
            if without_id {
            } else if was_out_of_range {
                let w = choose|j: int|
                    0 <= j < k && #[trigger] take_at(need, lots@, j) > 0 && !line_fits(
                        *sell,
                        lots@[j].0,
                        take_at(need, lots@, j),
                    );
                assert(0 <= w < k + 1 && take_at(need, lots@, w) > 0);
            } else {
                assert(uses_lot_out_of_range(*sell, lots@, k + 1) == out_of_range) by {
                    if uses_lot_out_of_range(*sell, lots@, k + 1) {
                        let w = choose|j: int|
                            0 <= j < k + 1 && #[trigger] take_at(need, lots@, j) > 0 && !line_fits(
                                *sell,
                                lots@[j].0,
                                take_at(need, lots@, j),
                            );
                        if w < k {
                            assert(uses_lot_out_of_range(*sell, lots@, k));
                        }
                    }
                    if out_of_range {
                        assert(take_at(need, lots@, k) > 0 && !line_fits(
                            *sell,
                            lots@[k].0,
                            take_at(need, lots@, k),
                        ));
                    }
                }
            }
        }
        i += 1;
    }
    proof {
        if i < n {
            lemma_nothing_wanted_later(need, lots@, i as int, n as int);
            lemma_planned_stops(sell_id, *sell, lots@, i as int, n as int);
            assert(uses_lot_without_id(need, lots@, n as int) == without_id) by {
                if uses_lot_without_id(need, lots@, n as int) {
                    let w = choose|j: int|
                        0 <= j < n && #[trigger] take_at(need, lots@, j) > 0
                            && lots@[j].0.id.is_none();
                    if w >= i {
                        lemma_nothing_wanted_later(need, lots@, i as int, w);
                    }
                }
                if without_id {
                    let w = choose|j: int|
                        0 <= j < i && #[trigger] take_at(need, lots@, j) > 0
                            && lots@[j].0.id.is_none();
                    assert(0 <= w < n && take_at(need, lots@, w) > 0);
                }
            }
            assert(!without_id ==> uses_lot_out_of_range(*sell, lots@, n as int)
                == out_of_range) by {
                if uses_lot_out_of_range(*sell, lots@, n as int) {
                    let w = choose|j: int|
                        0 <= j < n && #[trigger] take_at(need, lots@, j) > 0 && !line_fits(
                            *sell,
                            lots@[j].0,
                            take_at(need, lots@, j),
                        );
                    if w >= i {
                        lemma_nothing_wanted_later(need, lots@, i as int, w);
                    }
                }
                if !without_id && out_of_range {
                    let w = choose|j: int|
                        0 <= j < i && #[trigger] take_at(need, lots@, j) > 0 && !line_fits(
                            *sell,
                            lots@[j].0,
                            take_at(need, lots@, j),
                        );
                    assert(0 <= w < n && take_at(need, lots@, w) > 0);
                }
            }
        }
    }
    if remaining_to_allocate > 0 {
        Err(
            AllocationError::InsufficientLots {
                sell_transaction_id: sell_id,
                remaining: remaining_to_allocate,
            },
        )
    } else if without_id {
        Err(AllocationError::LotWithoutId)
    } else if out_of_range {
        Err(AllocationError::AmountOutOfRange)
    } else {
        Ok(records)
    }
}

/// No lot gives more than it has left, and none gives less than nothing.
pub proof fn lemma_take_within_lot(need: int, lots: Seq<AvailableLot>, i: int)
    requires
        0 <= i < lots.len(),
    ensures
        0 <= take_at(need, lots, i) <= lots[i].1,
{
}

/// First in, first out: a lot gives shares only when every lot before it
/// has given all it had left.
pub proof fn lemma_earlier_lots_go_first(need: int, lots: Seq<AvailableLot>, j: int, i: int)
    requires
        0 <= j < i < lots.len(),
        take_at(need, lots, i) > 0,
    ensures
        take_at(need, lots, j) == lots[j].1,
{
    lemma_available_is_not_negative(lots, j);
    lemma_available_grows(lots, j + 1, i);
}

/// More lots hold at least as many shares.
pub proof fn lemma_available_grows(lots: Seq<AvailableLot>, i: int, j: int)
    requires
        i <= j,
    ensures
        available_before(lots, i) <= available_before(lots, j),
    decreases j - i,
{
    if i < j {
        lemma_available_grows(lots, i, j - 1);
    } else {
        lemma_available_is_not_negative(lots, i);
    }
}

/// The records for the first `n` lots take what the sale wanted less what
/// it still wants from the lots after them.
pub proof fn lemma_planned_quantity(
    sell_id: i32,
    sell: SellTransaction,
    lots: Seq<AvailableLot>,
    n: int,
)
    requires
        0 <= n <= lots.len(),
    ensures
        total_quantity(planned_records(sell_id, sell, lots, n)) == sell.quantity - wanted_at(
            sell.quantity as int,
            lots,
            n,
        ),
    decreases n,
{
    if n > 0 {
        lemma_planned_quantity(sell_id, sell, lots, n - 1);
        lemma_available_is_not_negative(lots, n - 1);
        let before = planned_records(sell_id, sell, lots, n - 1);
        let take = take_at(sell.quantity as int, lots, n - 1);
        if take > 0 {
            let record = line_record(sell_id, sell, lots[n - 1].0, take);
            assert(before.push(record).drop_last() =~= before);
        }
    }
}

/// Conservation of quantity: when the lots hold all the shares sold, the
/// records take exactly the quantity sold.
pub proof fn lemma_allocation_conserves_quantity(
    sell_id: i32,
    sell: SellTransaction,
    lots: Seq<AvailableLot>,
)
    requires
        total_available(lots) >= sell.quantity,
    ensures
        total_quantity(planned_records(sell_id, sell, lots, lots.len() as int))
            == sell.quantity,
{
    lemma_planned_quantity(sell_id, sell, lots, lots.len() as int);
}

/// Every record takes at least one share and no more than the sale sold.
pub proof fn lemma_planned_records_take_shares(
    sell_id: i32,
    sell: SellTransaction,
    lots: Seq<AvailableLot>,
    n: int,
)
    requires
        0 <= n <= lots.len(),
    ensures
        forall|k: int|
            0 <= k < planned_records(sell_id, sell, lots, n).len() ==> 0 < (
            #[trigger] planned_records(sell_id, sell, lots, n)[k]).quantity <= sell.quantity,
    decreases n,
{
    if n > 0 {
        lemma_planned_records_take_shares(sell_id, sell, lots, n - 1);
        lemma_available_is_not_negative(lots, n - 1);
        let before = planned_records(sell_id, sell, lots, n - 1);
        let now = planned_records(sell_id, sell, lots, n);
        assert forall|k: int| 0 <= k < now.len() implies 0 < (#[trigger] now[k]).quantity
            <= sell.quantity by {
            if k < before.len() {
                assert(now[k] == before[k]);
            }
        }
    }
}

/// Every record of a sale names that sale, so together the records give it
/// what they take in all, and give any other sale nothing.
pub proof fn lemma_planned_for_sale(
    sell_id: i32,
    sell: SellTransaction,
    lots: Seq<AvailableLot>,
    n: int,
    other: i32,
)
    requires
        0 <= n <= lots.len(),
    ensures
        forall|k: int|
            0 <= k < planned_records(sell_id, sell, lots, n).len() ==> (#[trigger] planned_records(
                sell_id,
                sell,
                lots,
                n,
            )[k]).sell_transaction_id == sell_id,
        quantity_for_sell(planned_records(sell_id, sell, lots, n), sell_id) == total_quantity(
            planned_records(sell_id, sell, lots, n),
        ),
        other != sell_id ==> quantity_for_sell(planned_records(sell_id, sell, lots, n), other)
            == 0,
    decreases n,
{
    if n > 0 {
        lemma_planned_for_sale(sell_id, sell, lots, n - 1, other);
        let before = planned_records(sell_id, sell, lots, n - 1);
        let take = take_at(sell.quantity as int, lots, n - 1);
        if take > 0 {
            let record = line_record(sell_id, sell, lots[n - 1].0, take);
            assert(before.push(record).drop_last() =~= before);
        }
    }
}

/// What the records take from one lot: if the lots have numbers and no two
/// the same, the lot numbered `buy_id` gives what its place in the queue
/// allows, and a lot that is not in the queue gives nothing.
pub proof fn lemma_planned_from_lot(
    sell_id: i32,
    sell: SellTransaction,
    lots: Seq<AvailableLot>,
    n: int,
    buy_id: i32,
)
    requires
        0 <= n <= lots.len(),
        forall|k: int| 0 <= k < n ==> (#[trigger] lots[k]).0.id.is_some(),
        forall|j: int, k: int|
            0 <= j < k < n ==> (#[trigger] lots[j]).0.id != (#[trigger] lots[k]).0.id,
    ensures
        forall|k: int|
            0 <= k < n && (#[trigger] lots[k]).0.id == Some(buy_id) ==> quantity_from_lot(
                planned_records(sell_id, sell, lots, n),
                buy_id,
            ) == take_at(sell.quantity as int, lots, k),
        (forall|k: int| 0 <= k < n ==> (#[trigger] lots[k]).0.id != Some(buy_id))
            ==> quantity_from_lot(planned_records(sell_id, sell, lots, n), buy_id) == 0,
        forall|k: int|
            0 <= k < planned_records(sell_id, sell, lots, n).len() ==> exists|i: int|
                0 <= i < n && (#[trigger] lots[i]).0.id == Some(
                    (#[trigger] planned_records(sell_id, sell, lots, n)[k]).buy_transaction_id,
                ),
    decreases n,
{
    if n > 0 {
        lemma_planned_from_lot(sell_id, sell, lots, n - 1, buy_id);
        lemma_available_is_not_negative(lots, n - 1);
        let before = planned_records(sell_id, sell, lots, n - 1);
        let now = planned_records(sell_id, sell, lots, n);
        let take = take_at(sell.quantity as int, lots, n - 1);
        if take > 0 {
            let record = line_record(sell_id, sell, lots[n - 1].0, take);
            assert(before.push(record).drop_last() =~= before);
            assert(now.last() == record);
        }
        assert forall|k: int| 0 <= k < now.len() implies exists|i: int|
            0 <= i < n && (#[trigger] lots[i]).0.id == Some(
                (#[trigger] now[k]).buy_transaction_id,
            ) by {
            if k < before.len() {
                assert(now[k] == before[k]);
                let i = choose|i: int|
                    0 <= i < n - 1 && (#[trigger] lots[i]).0.id == Some(
                        before[k].buy_transaction_id,
                    );
                assert(0 <= i < n && lots[i].0.id == Some(now[k].buy_transaction_id));
            } else {
                assert(lots[n - 1].0.id == Some(now[k].buy_transaction_id));
            }
        }
        assert forall|k: int| 0 <= k < n && (#[trigger] lots[k]).0.id == Some(
            buy_id,
        ) implies quantity_from_lot(now, buy_id) == take_at(sell.quantity as int, lots, k) by {
            if k < n - 1 {
                assert(lots[k].0.id != lots[n - 1].0.id);
            } else {
                assert forall|j: int| 0 <= j < n - 1 implies (#[trigger] lots[j]).0.id != Some(
                    buy_id,
                ) by {
                    assert(lots[j].0.id != lots[n - 1].0.id);
                }
            }
        }
    }
}

/// Allocations put behind others take from a lot, and give to a sale, what
/// both parts do together.
pub proof fn lemma_quantities_add_up(a: Seq<SellAllocation>, b: Seq<SellAllocation>, id: i32)
    ensures
        quantity_from_lot(a + b, id) == quantity_from_lot(a, id) + quantity_from_lot(b, id),
        quantity_for_sell(a + b, id) == quantity_for_sell(a, id) + quantity_for_sell(b, id),
    decreases b.len(),
{
    if b.len() == 0 {
        assert(a + b =~= a);
    } else {
        lemma_quantities_add_up(a, b.drop_last(), id);
        assert((a + b).drop_last() =~= a + b.drop_last());
        assert((a + b).last() == b.last());
    }
}

/// Allocations that agree in the lot, the sale and the quantity, one by one,
/// take and give the same.
pub proof fn lemma_quantities_depend_on_links(
    a: Seq<SellAllocation>,
    b: Seq<SellAllocation>,
    id: i32,
)
    requires
        a.len() == b.len(),
        forall|k: int|
            0 <= k < a.len() ==> {
                &&& (#[trigger] a[k]).buy_transaction_id == b[k].buy_transaction_id
                &&& a[k].sell_transaction_id == b[k].sell_transaction_id
                &&& a[k].quantity == b[k].quantity
            },
    ensures
        quantity_from_lot(a, id) == quantity_from_lot(b, id),
        quantity_for_sell(a, id) == quantity_for_sell(b, id),
    decreases a.len(),
{
    if a.len() > 0 {
        assert forall|k: int| 0 <= k < a.drop_last().len() implies {
            &&& (#[trigger] a.drop_last()[k]).buy_transaction_id
                == b.drop_last()[k].buy_transaction_id
            &&& a.drop_last()[k].sell_transaction_id == b.drop_last()[k].sell_transaction_id
            &&& a.drop_last()[k].quantity == b.drop_last()[k].quantity
        } by {
            assert(a.drop_last()[k] == a[k]);
            assert(b.drop_last()[k] == b[k]);
        }
        lemma_quantities_depend_on_links(a.drop_last(), b.drop_last(), id);
        assert(a.last() == a[a.len() - 1]);
    }
}

/// The allocations of the sale numbered `sell_id`: those it has already,
/// if it has any, and otherwise new ones that match it to `lots`, its
/// stock's lots with what is left of each, oldest first.
///
/// Allocating a sale a second time therefore gives what the first time
/// gave. New allocations match the whole sale or there are none.
pub fn allocate(
    sell_id: i32,
    sell: &SellTransaction,
    existing: &Vec<SellAllocation>,
    lots: &Vec<AvailableLot>,
) -> (r: Result<Vec<SellAllocation>, AllocationError>)
    requires
        existing@.len() == 0 ==> lots_are_sound(lots@),
    ensures
        is_allocation_of(sell_id, *sell, existing@, lots@, r),
        existing@.len() == 0 && r.is_ok() ==> total_quantity(r.unwrap()@) == sell.quantity,
{
    if existing.len() > 0 {
        let mut records: Vec<SellAllocation> = Vec::new();
        let mut i: usize = 0;
        while i < existing.len()
            invariant
                0 <= i <= existing.len(),
                records@ == existing@.take(i as int),
            decreases existing.len() - i,
        {
            records.push(existing[i]);
            assert(records@ =~= existing@.take(i + 1));
            i += 1;
        }
        assert(existing@.take(i as int) =~= existing@);
        Ok(records)
    } else {
        match_to_lots(sell_id, sell, lots)
    }
}

/// Idempotency: a sale that was allocated keeps its allocations when it is
/// allocated again, whatever the lots have become.
pub proof fn lemma_allocating_again_changes_nothing(
    sell_id: i32,
    sell: SellTransaction,
    lots: Seq<AvailableLot>,
    first: Vec<SellAllocation>,
    lots_again: Seq<AvailableLot>,
    second: Result<Vec<SellAllocation>, AllocationError>,
)
    requires
        is_allocation_of(sell_id, sell, Seq::empty(), lots, Ok(first)),
        is_allocation_of(sell_id, sell, first@, lots_again, second),
    ensures
        second matches Ok(again) && again@ == first@,
{
    if first@.len() == 0 {
        let need = sell.quantity as int;
        let n = lots.len() as int;
        let m = lots_again.len() as int;
        lemma_planned_quantity(sell_id, sell, lots, n);
        assert(total_quantity(first@) == 0);
        assert(need == 0);
        lemma_available_is_not_negative(lots_again, m);
        lemma_planned_stops(sell_id, sell, lots_again, 0, m);
        assert forall|i: int| 0 <= i < m implies take_at(need, lots_again, i) == 0 by {
            lemma_nothing_wanted_later(need, lots_again, 0, i);
        }
        assert(planned_records(sell_id, sell, lots_again, 0) =~= Seq::empty());
    }
}

} // verus!
