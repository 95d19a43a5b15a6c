use share_tracker::models::{BuyTransaction, SellAllocation, SellTransaction, Stock, Transaction};
use share_tracker::date::Date;
use share_tracker::money::Money;

fn micros(v: i64) -> Money {
    Money::from_micros(v)
}

#[test]
fn money_keeps_its_micros() {
    assert_eq!(micros(0).micros(), 0);
    assert_eq!(micros(9_500_000).micros(), 9_500_000);
    assert_eq!(micros(-1).micros(), -1);
    assert_eq!(micros(i64::MAX).micros(), i64::MAX);
    assert_eq!(micros(i64::MIN).micros(), i64::MIN);
    assert_eq!(micros(5), micros(5));
    assert_ne!(micros(5), micros(6));
}

#[test]
fn apportion_takes_the_share() {
    // 9.50 for 4 of 10 shares
    assert_eq!(micros(9_500_000).apportion(4, 10), micros(3_800_000));
    assert_eq!(micros(9_500_000).apportion(10, 10), micros(9_500_000));
    assert_eq!(micros(9_500_000).apportion(0, 10), micros(0));
    assert_eq!(micros(0).apportion(3, 7), micros(0));
    assert_eq!(micros(i64::MAX).apportion(1, 1), micros(i64::MAX));
    assert_eq!(micros(i64::MIN).apportion(1, 1), micros(i64::MIN));
    assert_eq!(
        micros(i64::MAX).apportion(u32::MAX, u32::MAX),
        micros(i64::MAX)
    );
}

#[test]
fn apportion_rounds_to_the_nearest_micro() {
    // 10 / 3 = 3.33..
    assert_eq!(micros(10).apportion(1, 3), micros(3));
    // 20 / 3 = 6.66..
    assert_eq!(micros(10).apportion(2, 3), micros(7));
    // 1 / 3 and 2 / 3
    assert_eq!(micros(1).apportion(1, 3), micros(0));
    assert_eq!(micros(2).apportion(1, 3), micros(1));
    // -10 / 3 = -3.33.., -20 / 3 = -6.66..
    assert_eq!(micros(-10).apportion(1, 3), micros(-3));
    assert_eq!(micros(-10).apportion(2, 3), micros(-7));
}

#[test]
fn apportion_rounds_halves_upward() {
    assert_eq!(micros(1).apportion(1, 2), micros(1));
    assert_eq!(micros(3).apportion(1, 2), micros(2));
    assert_eq!(micros(5).apportion(1, 10), micros(1));
    assert_eq!(micros(-1).apportion(1, 2), micros(0));
    assert_eq!(micros(-3).apportion(1, 2), micros(-1));
    assert_eq!(micros(-5).apportion(1, 10), micros(0));
    assert_eq!(micros(-15).apportion(1, 10), micros(-1));
    assert_eq!(micros(i64::MAX).apportion(1, 2), micros(4_611_686_018_427_387_904));
    assert_eq!(micros(i64::MIN).apportion(1, 2), micros(-4_611_686_018_427_387_904));
}

#[test]
fn stock_constructors() {
    let fresh = Stock::new(String::from("AAPL"));
    assert_eq!(fresh.id, None);
    assert_eq!(fresh.symbol, "AAPL");
    let stored = Stock::with_id(7, String::from("MSFT"));
    assert_eq!(stored.id, Some(7));
    assert_eq!(stored.symbol, "MSFT");
}

#[test]
fn transactions_hand_out_their_fields() {
    let date = Date::new(2023, 1, 15).unwrap();
    let buy = BuyTransaction::new(
        String::from("AAPL"),
        date,
        10,
        micros(145_500_000),
        micros(9_990_000),
        Some(String::from("Initial investment")),
    );
    assert_eq!(buy.get_id(), None);
    assert_eq!(buy.get_stock_id(), "AAPL");
    assert_eq!(*buy.get_date(), date);
    assert_eq!(buy.get_quantity(), 10);
    assert_eq!(buy.get_price_per_share(), micros(145_500_000));
    assert_eq!(buy.get_fees(), micros(9_990_000));
    assert_eq!(buy.get_notes(), Some("Initial investment"));
    assert_eq!(buy.get_transaction_value(), 1_455_000_000);
    assert_eq!(buy.get_total_cost(), 1_464_990_000);

    let sell = SellTransaction::new(String::from("AAPL"), date, 3, micros(155_750_000), micros(9_990_000), None);
    assert_eq!(sell.get_id(), None);
    assert_eq!(sell.get_stock_id(), "AAPL");
    assert_eq!(*sell.get_date(), date);
    assert_eq!(sell.get_quantity(), 3);
    assert_eq!(sell.get_price_per_share(), micros(155_750_000));
    assert_eq!(sell.get_fees(), micros(9_990_000));
    assert_eq!(sell.get_notes(), None);
    assert_eq!(sell.get_transaction_value(), 467_250_000);
    assert_eq!(sell.get_total_cost(), 477_240_000);
}

#[test]
fn transaction_value_does_not_overflow() {
    let date = Date::dummy();
    let buy = BuyTransaction::new(
        String::from("X"),
        date,
        u32::MAX,
        micros(i64::MAX),
        micros(i64::MAX),
        None,
    );
    let value = (i64::MAX as i128) * (u32::MAX as i128);
    assert_eq!(buy.get_transaction_value(), value);
    assert_eq!(buy.get_total_cost(), value + i64::MAX as i128);
    let copy = buy.duplicate();
    assert_eq!(copy.stock_id, buy.stock_id);
    assert_eq!(copy.quantity, buy.quantity);
    assert_eq!(copy.notes, buy.notes);
}

#[test]
fn effective_gain_halves_discounted_gains_only() {
    let gain = |micros_gained: i64, discount: bool| {
        SellAllocation::new(1, 1, 1, micros(0), micros(0), micros(micros_gained), discount)
            .effective_capital_gain()
    };
    assert_eq!(gain(200_000_000, true), micros(100_000_000));
    assert_eq!(gain(200_000_000, false), micros(200_000_000));
    assert_eq!(gain(-50_000_000, true), micros(-50_000_000));
    assert_eq!(gain(-50_000_000, false), micros(-50_000_000));
    assert_eq!(gain(0, true), micros(0));
    assert_eq!(gain(1, true), micros(1));
    assert_eq!(gain(3, true), micros(2));
    assert_eq!(gain(i64::MAX, true), micros(4_611_686_018_427_387_904));
    assert_eq!(gain(i64::MIN, true), micros(i64::MIN));
}

#[test]
fn new_allocation_has_no_id() {
    let a = SellAllocation::new(3, 4, 5, micros(6), micros(7), micros(-8), true);
    assert_eq!(a.id, None);
    assert_eq!(a.sell_transaction_id, 3);
    assert_eq!(a.buy_transaction_id, 4);
    assert_eq!(a.quantity, 5);
    assert_eq!(a.allocated_buy_price, micros(6));
    assert_eq!(a.allocated_buy_fees, micros(7));
    assert_eq!(a.capital_gain, micros(-8));
    assert!(a.cgt_discount_applied);
}
