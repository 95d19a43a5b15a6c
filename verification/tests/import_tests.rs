use share_tracker::date::{Date, DateError};
use share_tracker::fifo::AllocationError;
use share_tracker::ledger::{Ledger, LedgerError};
use share_tracker::money::Money;
use share_tracker::services::import_service::{ImportError, Trade, TradeAction};
use share_tracker::services::{AllocationService, ImportService, PortfolioService};
use share_tracker::text::{chars_of, read_i32, read_micros, read_u32, remove_char, string_of, trim};

fn fields(row: [&str; 4]) -> Vec<String> {
    row.iter().map(|f| String::from(*f)).collect()
}

fn micros(text: &str) -> Option<i64> {
    read_micros(&chars_of(text))
}

#[test]
fn decimal_numbers_are_read_as_micros() {
    assert_eq!(micros("0"), Some(0));
    assert_eq!(micros("1"), Some(1_000_000));
    assert_eq!(micros("12.34"), Some(12_340_000));
    assert_eq!(micros("0.0105"), Some(10_500));
    assert_eq!(micros("3.0"), Some(3_000_000));
    assert_eq!(micros("3."), Some(3_000_000));
    assert_eq!(micros(".5"), Some(500_000));
    assert_eq!(micros("007.100"), Some(7_100_000));
    assert_eq!(micros("0.000001"), Some(1));
    assert_eq!(micros("+2.5"), Some(2_500_000));
    assert_eq!(micros("-2.5"), Some(-2_500_000));
    assert_eq!(micros("-0"), Some(0));
}

#[test]
fn digits_beyond_the_sixth_are_rounded() {
    assert_eq!(micros("0.0000004"), Some(0));
    assert_eq!(micros("0.0000005"), Some(1));
    assert_eq!(micros("0.00000049999"), Some(0));
    assert_eq!(micros("0.1234564"), Some(123_456));
    assert_eq!(micros("0.1234565"), Some(123_457));
    assert_eq!(micros("0.9999995"), Some(1_000_000));
    assert_eq!(micros("1.9999999999999"), Some(2_000_000));
    assert_eq!(micros("-0.0000005"), Some(-1));
    assert_eq!(micros("-0.0000004"), Some(0));
}

#[test]
fn what_is_no_decimal_number_is_refused() {
    for text in [
        "", ".", "+", "-", "+.", "1e3", "1,5", "1.2.3", "1 ", " 1", "$1", "abc", "--1", "1-", "0x10",
        "1..", "..1", "inf", "NaN", "1.5x",
    ] {
        assert_eq!(micros(text), None);
    }
}

#[test]
fn numbers_too_large_for_money_are_refused() {
    assert_eq!(micros("9223372036854.775807"), Some(i64::MAX));
    assert_eq!(micros("9223372036854.775808"), None);
    assert_eq!(micros("9223372036854.7758074"), Some(i64::MAX));
    assert_eq!(micros("9223372036854.7758075"), None);
    assert_eq!(micros("-9223372036854.775808"), Some(i64::MIN));
    assert_eq!(micros("-9223372036854.775809"), None);
    assert_eq!(micros("9223372036855"), None);
    assert_eq!(micros("99999999999999999999999999999999"), None);
    assert_eq!(micros("00000000000000000000000000000001"), Some(1_000_000));
}

#[test]
fn whole_numbers_are_read() {
    let read = |text: &str| {
        let c = chars_of(text);
        (read_u32(&c, 0, c.len()), read_i32(&c, 0, c.len()))
    };
    assert_eq!(read("0"), (Some(0), Some(0)));
    assert_eq!(read("+12"), (Some(12), Some(12)));
    assert_eq!(read("-12"), (None, Some(-12)));
    assert_eq!(read("-0"), (None, Some(0)));
    assert_eq!(read("4294967295"), (Some(u32::MAX), None));
    assert_eq!(read("4294967296"), (None, None));
    assert_eq!(read("2147483647"), (Some(2147483647), Some(i32::MAX)));
    assert_eq!(read("2147483648"), (Some(2147483648), None));
    assert_eq!(read("-2147483648"), (None, Some(i32::MIN)));
    assert_eq!(read("-2147483649"), (None, None));
    assert_eq!(read(""), (None, None));
    assert_eq!(read("+"), (None, None));
    assert_eq!(read("-"), (None, None));
    assert_eq!(read("1 "), (None, None));
    assert_eq!(read("1_000"), (None, None));
    assert_eq!(read("٣"), (None, None));
    let c = chars_of("ab123cd");
    assert_eq!(read_u32(&c, 2, 5), Some(123));
    assert_eq!(read_u32(&c, 2, 6), None);
    assert_eq!(read_u32(&c, 3, 3), None);
}

#[test]
fn white_space_is_trimmed() {
    let trimmed = |text: &str| string_of(&trim(&chars_of(text)));
    assert_eq!(trimmed("  a b \t\n"), "a b");
    assert_eq!(trimmed("abc"), "abc");
    assert_eq!(trimmed(""), "");
    assert_eq!(trimmed(" \u{a0}\u{3000} "), "");
    assert_eq!(trimmed("\u{2003}x\u{85}"), "x");
    assert_eq!(trimmed("\u{200b}x"), "\u{200b}x");
    for text in [" x ", "\u{1680}y\u{2028}", "\u{b}z\u{c}", "\u{feff}w", "\u{202f}v\u{205f}"] {
        assert_eq!(trimmed(text), text.trim());
    }
    assert_eq!(string_of(&remove_char(&chars_of("$1$2$"), '$')), "12");
    assert_eq!(string_of(&remove_char(&chars_of("$$"), '$')), "");
}

#[test]
fn prices_are_made_ready() {
    let cleaned = |text: &str| string_of(&ImportService::clean_price(text));
    assert_eq!(cleaned("$12.34"), "12.34");
    assert_eq!(cleaned(" $3. "), "3.0");
    assert_eq!(cleaned(".0105"), "0.0105");
    assert_eq!(cleaned("$.5"), "0.5");
    assert_eq!(cleaned("."), "0.0");
    assert_eq!(cleaned("$"), "");
    assert_eq!(cleaned("1$2"), "12");
    assert_eq!(cleaned("7"), "7");
}

#[test]
fn a_row_is_read_as_a_trade() {
    let trade = ImportService::read_trade(&fields(["25/Mar/24", " AAPL ", " 10 ", " $145.50 "])).unwrap();
    assert_eq!(trade.date, Date::new(2024, 3, 25).unwrap());
    assert_eq!(trade.symbol, "AAPL");
    assert_eq!(trade.shares, 10);
    assert_eq!(trade.price_per_share, Money::from_micros(145_500_000));
    let trade = ImportService::read_trade(&fields(["1/Jul/23", "ZIP", "-5", ".0105"])).unwrap();
    assert_eq!(trade.shares, -5);
    assert_eq!(trade.price_per_share, Money::from_micros(10_500));
    let trade = ImportService::read_trade(&fields(["1/Jul/23", "", "0", "3."])).unwrap();
    assert_eq!(trade.symbol, "");
    assert_eq!(trade.shares, 0);
    assert_eq!(trade.price_per_share, Money::from_micros(3_000_000));
    let mut five = fields(["1/Jul/23", "A", "1", "1"]);
    five.push(String::from("ignored"));
    assert!(ImportService::read_trade(&five).is_ok());
}

#[test]
fn the_first_thing_wrong_with_a_row_is_the_error() {
    let read = |row: [&str; 4]| ImportService::read_trade(&fields(row)).unwrap_err();
    assert_eq!(
        ImportService::read_trade(&vec![String::from("25/Mar/24"), String::from("A"), String::from("1")])
            .unwrap_err(),
        ImportError::InsufficientFields
    );
    assert_eq!(
        ImportService::read_trade(&vec![]).unwrap_err(),
        ImportError::InsufficientFields
    );
    assert_eq!(
        read(["25-Mar-24", "A", "x", "y"]),
        ImportError::Date(DateError::InvalidFormat(String::from("25-Mar-24")))
    );
    assert_eq!(
        read([" 25/Mar/24", "A", "1", "1"]),
        ImportError::Date(DateError::InvalidNumber(String::from(" 25")))
    );
    assert_eq!(
        read(["25/Mar/24", "A", " 1.5 ", "y"]),
        ImportError::InvalidShares(String::from("1.5"))
    );
    assert_eq!(
        read(["25/Mar/24", "A", "", "1"]),
        ImportError::InvalidShares(String::new())
    );
    assert_eq!(
        read(["25/Mar/24", "A", "1", " $1,000. "]),
        ImportError::InvalidPrice {
            cleaned: String::from("1,000.0"),
            given: String::from("$1,000.")
        }
    );
    assert_eq!(
        read(["25/Mar/24", "A", "1", ""]),
        ImportError::InvalidPrice {
            cleaned: String::new(),
            given: String::new()
        }
    );
}

#[test]
fn import_error_messages() {
    assert_eq!(
        ImportError::InsufficientFields.to_string(),
        "Skipping invalid record, insufficient fields"
    );
    assert_eq!(
        ImportError::ZeroShares.to_string(),
        "Skipping record with zero shares"
    );
    assert_eq!(ImportError::MalformedCsv.to_string(), "Malformed CSV record");
    assert_eq!(
        ImportError::InvalidShares(String::from("x")).to_string(),
        "Invalid shares value 'x'"
    );
    assert_eq!(
        ImportError::InvalidPrice {
            cleaned: String::from("1,0"),
            given: String::from("$1,0")
        }
        .to_string(),
        "Invalid price value '1,0' (given: '$1,0')"
    );
    assert_eq!(
        ImportError::Date(DateError::InvalidFormat(String::from("x"))).to_string(),
        "Invalid date format: x"
    );
    assert_eq!(
        ImportError::Ledger(LedgerError::Full).to_string(),
        "The books are full"
    );
    assert_eq!(
        LedgerError::UnknownStock.to_string(),
        "The stock is not listed"
    );
    assert_eq!(
        ImportError::Allocation(AllocationError::InsufficientLots {
            sell_transaction_id: 3,
            remaining: 6
        })
        .to_string(),
        "Could not allocate all shares for sell transaction 3: 6 remaining"
    );
    assert_eq!(
        AllocationError::SellNotFound {
            sell_transaction_id: -4
        }
        .to_string(),
        "Sell transaction not found: -4"
    );
    assert_eq!(
        AllocationError::LotWithoutId.to_string(),
        "Buy transaction has no ID"
    );
    assert_eq!(
        AllocationError::AmountOutOfRange.to_string(),
        "Allocated amount is out of range"
    );
    assert_eq!(
        AllocationError::TooManyRecords.to_string(),
        "Too many allocations"
    );
}

#[test]
fn a_trade_is_entered() {
    let mut ledger = Ledger::new();
    let day = Date::new(2023, 1, 2).unwrap();
    let bought = Trade {
        date: day,
        symbol: String::from("AAA"),
        shares: 10,
        price_per_share: Money::from_micros(2_000_000),
    };
    assert_eq!(ImportService::import_trade(&mut ledger, &bought), Ok(()));
    let lot = &ledger.buys()[0];
    assert_eq!(lot.id, Some(1));
    assert_eq!(lot.stock_id, "AAA");
    assert_eq!(lot.date, day);
    assert_eq!(lot.quantity, 10);
    assert_eq!(lot.price_per_share, Money::from_micros(2_000_000));
    assert_eq!(lot.fees, Money::from_micros(9_500_000));
    assert_eq!(lot.fees, ImportService::default_fees());
    assert_eq!(lot.notes, Some(String::from("Imported from CSV")));

    let sold = Trade {
        date: Date::new(2023, 2, 2).unwrap(),
        symbol: String::from("AAA"),
        shares: -4,
        price_per_share: Money::from_micros(5_000_000),
    };
    assert_eq!(ImportService::import_trade(&mut ledger, &sold), Ok(()));
    assert_eq!(ledger.sells()[0].quantity, 4);
    assert_eq!(ledger.sells()[0].fees, Money::from_micros(9_500_000));
    let records = AllocationService::get_allocations_for_sell(&ledger, 1);
    assert_eq!(records.len(), 1);
    assert_eq!(records[0].quantity, 4);
    assert_eq!(records[0].allocated_buy_price, Money::from_micros(8_000_000));
    assert_eq!(records[0].allocated_buy_fees, Money::from_micros(3_800_000));
    // (20.00 - 9.50) - (8.00 + 3.80)
    assert_eq!(records[0].capital_gain, Money::from_micros(-1_300_000));

    let nothing = Trade {
        date: day,
        symbol: String::from("BBB"),
        shares: 0,
        price_per_share: Money::from_micros(1),
    };
    assert_eq!(
        ImportService::import_trade(&mut ledger, &nothing),
        Err(ImportError::ZeroShares)
    );
    // the stock is listed all the same
    assert_eq!(ledger.stocks().len(), 2);
    assert_eq!(ledger.buys().len(), 1);

    let too_many = Trade {
        date: day,
        symbol: String::from("AAA"),
        shares: -7,
        price_per_share: Money::from_micros(1),
    };
    assert_eq!(
        ImportService::import_trade(&mut ledger, &too_many),
        Err(ImportError::Allocation(AllocationError::InsufficientLots {
            sell_transaction_id: 2,
            remaining: 1
        }))
    );
    // the sale is entered, but not matched
    assert_eq!(ledger.sells().len(), 2);
    assert_eq!(ledger.allocations().len(), 1);

    let most = Trade {
        date: day,
        symbol: String::from("CCC"),
        shares: i32::MIN,
        price_per_share: Money::from_micros(0),
    };
    assert!(ImportService::import_trade(&mut ledger, &most).is_err());
    assert_eq!(ledger.sells()[2].quantity, 2_147_483_648);
}

#[test]
fn csv_text_is_imported_row_by_row() {
    let data = "Date,Code,Quantity,Price\n\
                15/Jan/23, AAPL , 10 , $145.50\n\
                20/Feb/23,AAPL,5,150.25\n\
                20/Jan/23,MSFT,8,$240.10\n\
                15/Mar/24,AAPL,-12,$155.75\n";
    let mut ledger = Ledger::new();
    assert_eq!(
        ImportService::import_csv_data(&mut ledger, data.as_bytes()),
        Ok(4)
    );
    assert_eq!(ledger.buys().len(), 3);
    assert_eq!(ledger.sells().len(), 1);
    assert_eq!(ledger.stocks().len(), 2);
    assert_eq!(ledger.buys()[0].stock_id, "AAPL");
    assert_eq!(ledger.buys()[0].price_per_share, Money::from_micros(145_500_000));
    let taken: Vec<(i32, u32, bool)> = ledger
        .allocations()
        .iter()
        .map(|a| (a.buy_transaction_id, a.quantity, a.cgt_discount_applied))
        .collect();
    assert_eq!(taken, vec![(1, 10, true), (2, 2, true)]);
    assert_eq!(
        PortfolioService::get_current_holdings(ledger.buys(), ledger.sells()),
        vec![(String::from("AAPL"), 3), (String::from("MSFT"), 8)]
    );
}

#[test]
fn an_import_stops_at_the_first_row_that_fails() {
    let data = "Date,Code,Quantity,Price\n\
                15/Jan/23,AAPL,10,1\n\
                16/Jan/23,AAPL,0,1\n\
                17/Jan/23,AAPL,5,1\n";
    let mut ledger = Ledger::new();
    assert_eq!(
        ImportService::import_csv_data(&mut ledger, data.as_bytes()),
        Err(ImportError::ZeroShares)
    );
    assert_eq!(ledger.buys().len(), 1);

    let data = "Date,Code,Quantity,Price\n\
                15/Jan/23,AAPL,10,1\n\
                16/Jan/23,AAPL,-11,1\n\
                17/Jan/23,AAPL,5,1\n";
    let mut ledger = Ledger::new();
    assert_eq!(
        ImportService::import_csv_data(&mut ledger, data.as_bytes()),
        Err(ImportError::Allocation(AllocationError::InsufficientLots {
            sell_transaction_id: 1,
            remaining: 1
        }))
    );
    assert_eq!(ledger.buys().len(), 1);
    assert_eq!(ledger.sells().len(), 1);
    assert!(ledger.allocations().is_empty());

    // a row of another length
    let data = "Date,Code,Quantity,Price\n\
                15/Jan/23,AAPL,10,1\n\
                16/Jan/23,AAPL,5\n\
                17/Jan/23,AAPL,5,1\n";
    let mut ledger = Ledger::new();
    assert_eq!(
        ImportService::import_csv_data(&mut ledger, data.as_bytes()),
        Err(ImportError::MalformedCsv)
    );
    assert_eq!(ledger.buys().len(), 1);

    // too few fields in every row
    let data = "Date,Code,Quantity\n15/Jan/23,AAPL,10\n";
    let mut ledger = Ledger::new();
    assert_eq!(
        ImportService::import_csv_data(&mut ledger, data.as_bytes()),
        Err(ImportError::InsufficientFields)
    );

    // bytes that are no text
    let mut data = Vec::from("Date,Code,Quantity,Price\n15/Jan/23,A".as_bytes());
    data.push(0xff);
    data.extend_from_slice(",10,1\n".as_bytes());
    let mut ledger = Ledger::new();
    assert_eq!(
        ImportService::import_csv_data(&mut ledger, &data),
        Err(ImportError::MalformedCsv)
    );

    let data = "Date,Code,Quantity,Price\n15/Jan/23,AAPL,ten,1\n";
    let mut ledger = Ledger::new();
    assert_eq!(
        ImportService::import_csv_data(&mut ledger, data.as_bytes()),
        Err(ImportError::InvalidShares(String::from("ten")))
    );
    assert!(ledger.stocks().is_empty());
}

#[test]
fn headings_only_import_nothing() {
    let mut ledger = Ledger::new();
    assert_eq!(
        ImportService::import_csv_data(&mut ledger, "Date,Code,Quantity,Price\n".as_bytes()),
        Ok(0)
    );
    assert_eq!(ImportService::import_csv_data(&mut ledger, &[]), Ok(0));
    // the first row is taken for the headings whatever it holds
    assert_eq!(
        ImportService::import_csv_data(&mut ledger, "15/Jan/23,AAPL,10,1\n".as_bytes()),
        Ok(0)
    );
    assert!(ledger.buys().is_empty());
}

#[test]
fn the_sign_of_the_shares_says_what_is_done() {
    let trade = |shares: i32| Trade {
        date: Date::dummy(),
        symbol: String::from("AAA"),
        shares,
        price_per_share: Money::from_micros(0),
    };
    assert_eq!(trade(10).action(), Ok(TradeAction::Buy { quantity: 10 }));
    assert_eq!(trade(-10).action(), Ok(TradeAction::Sell { quantity: 10 }));
    assert_eq!(trade(0).action(), Err(ImportError::ZeroShares));
    assert_eq!(
        trade(i32::MAX).action(),
        Ok(TradeAction::Buy {
            quantity: 2_147_483_647
        })
    );
    assert_eq!(
        trade(i32::MIN).action(),
        Ok(TradeAction::Sell {
            quantity: 2_147_483_648
        })
    );
}
