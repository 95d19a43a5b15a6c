use share_tracker::date::DateError;
use share_tracker::money::Money;
use share_tracker::ui::TransactionFormatter;
use share_tracker::utils::{date_string_to_unix_i64, date_unix_i64_into_string, timestamp_of_parsed};

#[test]
fn dates_are_turned_into_timestamps() {
    assert_eq!(date_string_to_unix_i64("25/Mar/24"), Ok(1_711_324_800));
    assert_eq!(date_string_to_unix_i64("01/Jan/70"), Ok(0));
    // two-digit years below 70 lie in this century
    assert_eq!(date_string_to_unix_i64("31/Dec/69"), Ok(3_155_673_600));
    assert_eq!(date_string_to_unix_i64("31/Dec/99"), Ok(946_598_400));
    assert_eq!(date_string_to_unix_i64("02/Jan/70"), Ok(86_400));
    assert_eq!(date_string_to_unix_i64("29/Feb/00"), Ok(951_782_400));
    assert_eq!(
        date_string_to_unix_i64("2024-03-25"),
        Err(DateError::Unparseable(String::from("2024-03-25")))
    );
    assert_eq!(
        date_string_to_unix_i64("30/Feb/24"),
        Err(DateError::Unparseable(String::from("30/Feb/24")))
    );
}

#[test]
fn timestamps_of_parsed_dates() {
    assert_eq!(timestamp_of_parsed(Some((1970, 1, 1)), "x"), Ok(0));
    assert_eq!(timestamp_of_parsed(Some((1969, 12, 31)), "x"), Ok(-86_400));
    assert_eq!(
        timestamp_of_parsed(Some((2015, 5, 15)), "x"),
        Ok(1_431_648_000)
    );
    assert_eq!(
        timestamp_of_parsed(Some((1, 1, 1)), "x"),
        Ok(-62_135_596_800)
    );
    assert_eq!(
        timestamp_of_parsed(Some((2015, 2, 29)), "x"),
        Err(DateError::InvalidDate {
            year: 2015,
            month: 2,
            day: 29
        })
    );
    assert_eq!(
        timestamp_of_parsed(None, "x"),
        Err(DateError::Unparseable(String::from("x")))
    );
}

#[test]
fn timestamps_are_turned_into_dates() {
    assert_eq!(date_unix_i64_into_string(0), "1970-01-01");
    assert_eq!(date_unix_i64_into_string(86_399), "1970-01-01");
    assert_eq!(date_unix_i64_into_string(86_400), "1970-01-02");
    assert_eq!(date_unix_i64_into_string(-1), "1969-12-31");
    assert_eq!(date_unix_i64_into_string(-86_400), "1969-12-31");
    assert_eq!(date_unix_i64_into_string(-86_401), "1969-12-30");
    assert_eq!(date_unix_i64_into_string(1_711_324_800), "2024-03-25");
    assert_eq!(date_unix_i64_into_string(1_431_648_000), "2015-05-15");
    assert_eq!(date_unix_i64_into_string(-62_135_596_800), "0001-01-01");
    assert_eq!(date_unix_i64_into_string(-62_135_596_801), "0000-12-31");
    assert_eq!(
        date_unix_i64_into_string(date_string_to_unix_i64("15/Jan/23").unwrap()),
        "2023-01-15"
    );
}

#[test]
fn amounts_are_written_in_dollars_and_cents() {
    let text = |micros: i64| TransactionFormatter::format_currency(Money::from_micros(micros));
    assert_eq!(text(0), "$0.00");
    assert_eq!(text(1_000_000), "$1.00");
    assert_eq!(text(145_500_000), "$145.50");
    assert_eq!(text(9_990_000), "$9.99");
    assert_eq!(text(10_500), "$0.01");
    assert_eq!(text(4_999), "$0.00");
    assert_eq!(text(5_000), "$0.01");
    assert_eq!(text(994_999), "$0.99");
    assert_eq!(text(995_000), "$1.00");
    assert_eq!(text(1_234_567_890_000), "$1234567.89");
    assert_eq!(text(-1_500_000), "$-1.50");
    assert_eq!(text(-5_000), "$-0.01");
    assert_eq!(text(-4_999), "$-0.00");
    assert_eq!(text(i64::MAX), "$9223372036854.78");
    assert_eq!(text(i64::MIN), "$-9223372036854.78");
}
