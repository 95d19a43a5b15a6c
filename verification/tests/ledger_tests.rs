use share_tracker::date::Date;
use share_tracker::fifo::AllocationError;
use share_tracker::ledger::{Ledger, LedgerError};
use share_tracker::models::{BuyTransaction, SellAllocation, SellTransaction};
use share_tracker::money::Money;
use share_tracker::services::reporting_service::ReportError;
use share_tracker::services::{
    AllocationService, PortfolioService, ReportingService, StockService, TransactionService,
};

const UNIT: i64 = 1_000_000;

fn day(y: i32, m: u32, d: u32) -> Date {
    Date::new(y, m, d).unwrap()
}

fn buy(ledger: &mut Ledger, stock: &str, date: Date, quantity: u32, price: i64) -> i32 {
    TransactionService::add_buy_transaction(
        ledger,
        stock,
        date,
        quantity,
        Money::from_micros(price),
        Money::from_micros(0),
        None,
    )
    .unwrap() as i32
}

fn sell(ledger: &mut Ledger, stock: &str, date: Date, quantity: u32, price: i64) -> i32 {
    TransactionService::add_sell_transaction(
        ledger,
        stock,
        date,
        quantity,
        Money::from_micros(price),
        Money::from_micros(0),
        None,
    )
    .unwrap() as i32
}

fn taken_from(ledger: &Ledger, buy_id: i32) -> u32 {
    AllocationService::get_all_allocations(ledger)
        .iter()
        .filter(|a| a.buy_transaction_id == buy_id)
        .map(|a| a.quantity)
        .sum()
}

#[test]
fn empty_books() {
    let ledger = Ledger::new();
    assert!(ledger.stocks().is_empty());
    assert!(ledger.buys().is_empty());
    assert!(ledger.sells().is_empty());
    assert!(ledger.allocations().is_empty());
    assert!(!ledger.has_allocations(1));
    assert!(ledger.find_buy(1).is_none());
    assert!(ledger.find_sell(0).is_none());
}

#[test]
fn records_are_numbered_from_one() {
    let mut ledger = Ledger::new();
    assert_eq!(buy(&mut ledger, "AAA", day(2023, 1, 1), 5, UNIT), 1);
    assert_eq!(buy(&mut ledger, "BBB", day(2023, 1, 2), 5, UNIT), 2);
    assert_eq!(sell(&mut ledger, "AAA", day(2023, 2, 1), 1, UNIT), 1);
    assert_eq!(sell(&mut ledger, "CCC", day(2023, 2, 1), 1, UNIT), 2);
    let symbols: Vec<&str> = StockService::get_all_stocks(&ledger)
        .iter()
        .map(|s| s.symbol.as_str())
        .collect();
    assert_eq!(symbols, vec!["AAA", "BBB", "CCC"]);
    let ids: Vec<Option<i32>> = StockService::get_all_stocks(&ledger)
        .iter()
        .map(|s| s.id)
        .collect();
    assert_eq!(ids, vec![Some(1), Some(2), Some(3)]);
    assert_eq!(
        TransactionService::get_buy_transaction(&ledger, 2)
            .unwrap()
            .stock_id,
        "BBB"
    );
    assert_eq!(
        TransactionService::get_buy_transaction(&ledger, 2).unwrap().id,
        Some(2)
    );
    assert!(TransactionService::get_buy_transaction(&ledger, 3).is_none());
    assert!(TransactionService::get_buy_transaction(&ledger, 0).is_none());
    assert!(TransactionService::get_buy_transaction(&ledger, -1).is_none());
    assert_eq!(
        TransactionService::get_sell_transaction(&ledger, 2)
            .unwrap()
            .stock_id,
        "CCC"
    );
    assert!(TransactionService::get_sell_transaction(&ledger, 3).is_none());
    assert_eq!(TransactionService::get_all_buy_transactions(&ledger).len(), 2);
    assert_eq!(TransactionService::get_all_sell_transactions(&ledger).len(), 2);
}

#[test]
fn entered_transaction_keeps_its_fields() {
    let mut ledger = Ledger::new();
    let id = TransactionService::add_buy_transaction(
        &mut ledger,
        "AAPL",
        day(2023, 1, 15),
        10,
        Money::from_micros(145_500_000),
        Money::from_micros(9_990_000),
        Some(String::from("Initial investment")),
    )
    .unwrap();
    assert_eq!(id, 1);
    let entered = TransactionService::get_buy_transaction(&ledger, 1).unwrap();
    assert_eq!(entered.id, Some(1));
    assert_eq!(entered.stock_id, "AAPL");
    assert_eq!(entered.date, day(2023, 1, 15));
    assert_eq!(entered.quantity, 10);
    assert_eq!(entered.price_per_share, Money::from_micros(145_500_000));
    assert_eq!(entered.fees, Money::from_micros(9_990_000));
    assert_eq!(entered.notes, Some(String::from("Initial investment")));
}

#[test]
fn stocks_are_listed_once() {
    let mut ledger = Ledger::new();
    assert_eq!(StockService::ensure_stock_exists(&mut ledger, "AAA"), Ok(()));
    assert_eq!(StockService::ensure_stock_exists(&mut ledger, "AAA"), Ok(()));
    assert_eq!(StockService::ensure_stock_exists(&mut ledger, "aaa"), Ok(()));
    assert_eq!(StockService::get_all_stocks(&ledger).len(), 2);
    let found = StockService::find_stock_by_symbol(&ledger, "aaa").unwrap();
    assert_eq!(found.id, Some(2));
    assert_eq!(found.symbol, "aaa");
    assert!(StockService::find_stock_by_symbol(&ledger, "AA").is_none());
    assert_eq!(ledger.find_stock(&String::from("AAA")), Some(0));
}

#[test]
fn a_transaction_needs_a_listed_stock() {
    let mut ledger = Ledger::new();
    let orphan = BuyTransaction::new(
        String::from("AAA"),
        day(2023, 1, 1),
        1,
        Money::from_micros(0),
        Money::from_micros(0),
        None,
    );
    assert_eq!(ledger.insert_buy(orphan), Err(LedgerError::UnknownStock));
    let orphan = SellTransaction::new(
        String::from("AAA"),
        day(2023, 1, 1),
        1,
        Money::from_micros(0),
        Money::from_micros(0),
        None,
    );
    assert_eq!(ledger.insert_sell(orphan), Err(LedgerError::UnknownStock));
    assert!(ledger.buys().is_empty());
    assert!(ledger.sells().is_empty());
}

#[test]
fn lots_stand_oldest_first() {
    let mut ledger = Ledger::new();
    let late = buy(&mut ledger, "AAA", day(2023, 3, 1), 3, UNIT);
    let other = buy(&mut ledger, "BBB", day(2023, 1, 1), 9, UNIT);
    let early = buy(&mut ledger, "AAA", day(2023, 1, 1), 4, UNIT);
    let same_day = buy(&mut ledger, "AAA", day(2023, 1, 1), 5, UNIT);
    let middle = buy(&mut ledger, "AAA", day(2023, 2, 1), 6, UNIT);
    let lots = TransactionService::get_available_buys_for_stock(&ledger, "AAA");
    let order: Vec<(Option<i32>, u32)> = lots.iter().map(|l| (l.0.id, l.1)).collect();
    assert_eq!(
        order,
        vec![
            (Some(early), 4),
            (Some(same_day), 5),
            (Some(middle), 6),
            (Some(late), 3)
        ]
    );
    let lots = TransactionService::get_available_buys_for_stock(&ledger, "BBB");
    assert_eq!(lots.len(), 1);
    assert_eq!(lots[0].0.id, Some(other));
    assert!(TransactionService::get_available_buys_for_stock(&ledger, "CCC").is_empty());
}

#[test]
fn a_sale_draws_on_the_oldest_lots_of_its_stock() {
    let mut ledger = Ledger::new();
    let third = buy(&mut ledger, "AAA", day(2023, 3, 1), 3, 10 * UNIT);
    let first = buy(&mut ledger, "AAA", day(2023, 1, 1), 3, 10 * UNIT);
    let _other = buy(&mut ledger, "BBB", day(2022, 1, 1), 3, 10 * UNIT);
    let second = buy(&mut ledger, "AAA", day(2023, 2, 1), 3, 10 * UNIT);
    let sale = sell(&mut ledger, "AAA", day(2023, 6, 1), 5, 12 * UNIT);
    assert!(!AllocationService::has_allocations(&ledger, sale));
    assert_eq!(
        AllocationService::allocate_sell_transaction_fifo(&mut ledger, sale),
        Ok(())
    );
    assert!(AllocationService::has_allocations(&ledger, sale));
    let records = AllocationService::get_allocations_for_sell(&ledger, sale);
    let taken: Vec<(i32, u32)> = records
        .iter()
        .map(|r| (r.buy_transaction_id, r.quantity))
        .collect();
    assert_eq!(taken, vec![(first, 3), (second, 2)]);
    assert_eq!(taken_from(&ledger, third), 0);
    assert_eq!(records[0].id, Some(1));
    assert_eq!(records[1].id, Some(2));
    assert_eq!(
        records[0],
        SellAllocation {
            id: Some(1),
            sell_transaction_id: sale,
            buy_transaction_id: first,
            quantity: 3,
            allocated_buy_price: Money::from_micros(30 * UNIT),
            allocated_buy_fees: Money::from_micros(0),
            capital_gain: Money::from_micros(6 * UNIT),
            cgt_discount_applied: false,
        }
    );
    let lots = TransactionService::get_available_buys_for_stock(&ledger, "AAA");
    let left: Vec<u32> = lots.iter().map(|l| l.1).collect();
    assert_eq!(left, vec![0, 1, 3]);
    assert_eq!(ledger.quantity_taken_from(first), 3);
    assert_eq!(ledger.quantity_taken_from(second), 2);
    assert_eq!(ledger.quantity_taken_from(third), 0);
}

#[test]
fn allocating_twice_changes_nothing() {
    let mut ledger = Ledger::new();
    buy(&mut ledger, "AAA", day(2023, 1, 1), 3, UNIT);
    buy(&mut ledger, "AAA", day(2023, 2, 1), 3, UNIT);
    let sale = sell(&mut ledger, "AAA", day(2023, 6, 1), 4, UNIT);
    assert_eq!(
        AllocationService::allocate_sell_transaction_fifo(&mut ledger, sale),
        Ok(())
    );
    let first_time = AllocationService::get_all_allocations(&ledger).clone();
    assert_eq!(first_time.len(), 2);
    assert_eq!(
        AllocationService::allocate_sell_transaction_fifo(&mut ledger, sale),
        Ok(())
    );
    assert_eq!(*AllocationService::get_all_allocations(&ledger), first_time);
    // a sale of nothing has no records, the first time and the second
    let nothing = sell(&mut ledger, "AAA", day(2023, 6, 2), 0, UNIT);
    assert_eq!(
        AllocationService::allocate_sell_transaction_fifo(&mut ledger, nothing),
        Ok(())
    );
    assert_eq!(
        AllocationService::allocate_sell_transaction_fifo(&mut ledger, nothing),
        Ok(())
    );
    assert_eq!(*AllocationService::get_all_allocations(&ledger), first_time);
    assert!(!AllocationService::has_allocations(&ledger, nothing));
}

#[test]
fn too_few_shares_leave_the_books_as_they_were() {
    let mut ledger = Ledger::new();
    let lot = buy(&mut ledger, "AAA", day(2023, 1, 1), 10, UNIT);
    let first = sell(&mut ledger, "AAA", day(2023, 2, 1), 6, UNIT);
    assert_eq!(
        AllocationService::allocate_sell_transaction_fifo(&mut ledger, first),
        Ok(())
    );
    // 4 shares are left
    let second = sell(&mut ledger, "AAA", day(2023, 3, 1), 10, UNIT);
    let before = AllocationService::get_all_allocations(&ledger).clone();
    assert_eq!(
        AllocationService::allocate_sell_transaction_fifo(&mut ledger, second),
        Err(AllocationError::InsufficientLots {
            sell_transaction_id: second,
            remaining: 6
        })
    );
    assert_eq!(*AllocationService::get_all_allocations(&ledger), before);
    assert!(!AllocationService::has_allocations(&ledger, second));
    assert!(AllocationService::get_allocations_for_sell(&ledger, second).is_empty());
    assert_eq!(taken_from(&ledger, lot), 6);
    // lots of another stock do not help
    buy(&mut ledger, "BBB", day(2023, 1, 1), 100, UNIT);
    assert_eq!(
        AllocationService::allocate_sell_transaction_fifo(&mut ledger, second),
        Err(AllocationError::InsufficientLots {
            sell_transaction_id: second,
            remaining: 6
        })
    );
    // more of the same stock does
    buy(&mut ledger, "AAA", day(2023, 2, 15), 6, UNIT);
    assert_eq!(
        AllocationService::allocate_sell_transaction_fifo(&mut ledger, second),
        Ok(())
    );
    assert_eq!(taken_from(&ledger, lot), 10);
}

#[test]
fn no_lot_gives_more_than_it_has() {
    let mut ledger = Ledger::new();
    let lots = [
        buy(&mut ledger, "AAA", day(2023, 1, 1), 5, UNIT),
        buy(&mut ledger, "AAA", day(2023, 1, 2), 7, UNIT),
        buy(&mut ledger, "AAA", day(2023, 1, 3), 2, UNIT),
    ];
    let bought = [5u32, 7, 2];
    for quantity in [3u32, 3, 3, 3, 3, 3] {
        let sale = sell(&mut ledger, "AAA", day(2023, 6, 1), quantity, UNIT);
        let result = AllocationService::allocate_sell_transaction_fifo(&mut ledger, sale);
        for (lot, had) in lots.iter().zip(bought.iter()) {
            assert!(taken_from(&ledger, *lot) <= *had);
        }
        let given: u32 = AllocationService::get_allocations_for_sell(&ledger, sale)
            .iter()
            .map(|a| a.quantity)
            .sum();
        match result {
            Ok(()) => assert_eq!(given, quantity),
            Err(_) => assert_eq!(given, 0),
        }
    }
    // 14 shares bought: four sales of 3 are matched, the fifth is not
    assert_eq!(
        taken_from(&ledger, lots[0]) + taken_from(&ledger, lots[1]) + taken_from(&ledger, lots[2]),
        12
    );
}

#[test]
fn a_sale_that_is_not_in_the_books() {
    let mut ledger = Ledger::new();
    buy(&mut ledger, "AAA", day(2023, 1, 1), 5, UNIT);
    for id in [0, -1, 1, 2, i32::MAX, i32::MIN] {
        assert_eq!(
            AllocationService::allocate_sell_transaction_fifo(&mut ledger, id),
            Err(AllocationError::SellNotFound {
                sell_transaction_id: id
            })
        );
    }
    assert!(ledger.allocations().is_empty());
}

#[test]
fn amounts_too_large_leave_the_books_as_they_were() {
    let mut ledger = Ledger::new();
    buy(&mut ledger, "AAA", day(2023, 1, 1), 1, UNIT);
    buy(&mut ledger, "AAA", day(2023, 1, 2), 2, i64::MAX);
    let sale = sell(&mut ledger, "AAA", day(2023, 6, 1), 3, UNIT);
    assert_eq!(
        AllocationService::allocate_sell_transaction_fifo(&mut ledger, sale),
        Err(AllocationError::AmountOutOfRange)
    );
    assert!(ledger.allocations().is_empty());
}

#[test]
fn holdings_are_bought_less_sold() {
    let mut ledger = Ledger::new();
    buy(&mut ledger, "AAA", day(2023, 1, 1), 5, UNIT);
    buy(&mut ledger, "BBB", day(2023, 1, 2), 7, UNIT);
    buy(&mut ledger, "AAA", day(2023, 1, 3), 2, UNIT);
    sell(&mut ledger, "BBB", day(2023, 2, 1), 7, UNIT);
    sell(&mut ledger, "CCC", day(2023, 2, 1), 4, UNIT);
    sell(&mut ledger, "AAA", day(2023, 2, 1), 3, UNIT);
    let holdings = PortfolioService::get_current_holdings(ledger.buys(), ledger.sells());
    assert_eq!(
        holdings,
        vec![
            (String::from("AAA"), 4),
            (String::from("BBB"), 0),
            (String::from("CCC"), -4)
        ]
    );
    let active = PortfolioService::get_active_holdings(ledger.buys(), ledger.sells());
    assert_eq!(active, vec![(String::from("AAA"), 4)]);
    let held = |symbol: &str| {
        PortfolioService::get_holdings_for_stock(
            ledger.buys(),
            ledger.sells(),
            &String::from(symbol),
        )
    };
    assert_eq!(held("AAA"), 4);
    assert_eq!(held("BBB"), 0);
    assert_eq!(held("CCC"), -4);
    assert_eq!(held("DDD"), 0);
    assert_eq!(
        PortfolioService::quantity_bought(ledger.buys(), &String::from("AAA")),
        7
    );
    assert_eq!(
        PortfolioService::quantity_sold(ledger.sells(), &String::from("AAA")),
        3
    );
    assert_eq!(
        PortfolioService::get_current_holdings(&vec![], &vec![]),
        vec![]
    );
}

#[test]
fn gains_are_reported_by_the_year_of_the_sale() {
    let mut ledger = Ledger::new();
    buy(&mut ledger, "AAA", day(2022, 1, 1), 10, 10 * UNIT);
    buy(&mut ledger, "BBB", day(2023, 5, 1), 10, 10 * UNIT);
    // in 2022-2023: the last day of June
    let s1 = sell(&mut ledger, "AAA", day(2023, 6, 30), 2, 15 * UNIT);
    // in 2023-2024
    let s2 = sell(&mut ledger, "AAA", day(2023, 7, 1), 4, 20 * UNIT);
    let s3 = sell(&mut ledger, "BBB", day(2024, 6, 30), 5, 7 * UNIT);
    let s4 = sell(&mut ledger, "BBB", day(2023, 12, 1), 1, 11 * UNIT);
    for sale in [s1, s2, s3, s4] {
        assert_eq!(
            AllocationService::allocate_sell_transaction_fifo(&mut ledger, sale),
            Ok(())
        );
    }
    let unit = UNIT as u128;
    let summary = ReportingService::generate_capital_gains_summary(&ledger, "2022-2023").unwrap();
    assert_eq!(summary.financial_year, "2022-2023");
    assert_eq!(summary.short_term_gains, 0);
    assert_eq!(summary.long_term_gains, 10 * unit);
    assert_eq!(summary.discounted_gains, 5 * unit);
    assert_eq!(summary.capital_losses, 0);
    assert_eq!(summary.net_capital_gains, 5 * unit);

    let summary = ReportingService::generate_capital_gains_summary(&ledger, "2023-2024").unwrap();
    // AAA: 4 * 10 long term; BBB: 1 short term, 5 * -3 lost (long term)
    assert_eq!(summary.short_term_gains, unit);
    assert_eq!(summary.long_term_gains, 40 * unit);
    assert_eq!(summary.discounted_gains, 20 * unit);
    assert_eq!(summary.capital_losses, 15 * unit);
    assert_eq!(summary.net_capital_gains, 6 * unit);
    assert_eq!(summary.excess_losses(), 0);

    let summary = ReportingService::generate_capital_gains_summary(&ledger, "2024-2025").unwrap();
    assert_eq!(summary.net_capital_gains, 0);
    assert_eq!(summary.capital_losses, 0);

    assert_eq!(
        ReportingService::generate_capital_gains_by_stock(&ledger, "2023-2024").unwrap(),
        vec![
            (String::from("AAA"), 0, 40 * unit, 0, 20 * unit),
            (String::from("BBB"), unit, 0, 15 * unit, 0),
        ]
    );
    assert_eq!(
        AllocationService::get_capital_gains_by_stock(&ledger, "2023-2024").unwrap(),
        vec![
            (String::from("AAA"), 0, 40 * unit, 0),
            (String::from("BBB"), unit, 0, 15 * unit),
        ]
    );
    assert_eq!(
        ReportingService::generate_capital_gains_by_stock(&ledger, "2021-2022").unwrap(),
        vec![]
    );
    let rows = ledger.rows_in_financial_year(2022);
    assert_eq!(rows.len(), 1);
    assert_eq!(rows[0].0, "AAA");
    assert_eq!(rows[0].1.sell_transaction_id, s1);
    assert_eq!(ReportingService::allocations_of_rows(&rows), vec![rows[0].1]);
}

#[test]
fn reports_need_a_financial_year() {
    let ledger = Ledger::new();
    let bad = Err(ReportError::InvalidFinancialYear(String::from("2023")));
    assert_eq!(
        ReportingService::generate_capital_gains_summary(&ledger, "2023").map(|s| s.financial_year),
        bad
    );
    assert_eq!(
        ReportingService::generate_capital_gains_by_stock(&ledger, "2023-2025"),
        Err(ReportError::InvalidFinancialYear(String::from(
            "2023-2025"
        )))
    );
    assert_eq!(
        AllocationService::get_capital_gains_by_stock(&ledger, ""),
        Err(ReportError::InvalidFinancialYear(String::new()))
    );
}
