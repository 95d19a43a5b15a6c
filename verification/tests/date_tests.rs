use share_tracker::date::{month_number, Date, DateError};

#[test]
fn test_month_number() {
    // Test all valid month abbreviations
    assert_eq!(month_number("Jan").unwrap(), 1);
    assert_eq!(month_number("Feb").unwrap(), 2);
    assert_eq!(month_number("Mar").unwrap(), 3);
    assert_eq!(month_number("Apr").unwrap(), 4);
    assert_eq!(month_number("May").unwrap(), 5);
    assert_eq!(month_number("Jun").unwrap(), 6);
    assert_eq!(month_number("Jul").unwrap(), 7);
    assert_eq!(month_number("Aug").unwrap(), 8);
    assert_eq!(month_number("Sep").unwrap(), 9);
    assert_eq!(month_number("Oct").unwrap(), 10);
    assert_eq!(month_number("Nov").unwrap(), 11);
    assert_eq!(month_number("Dec").unwrap(), 12);

    // Test invalid month abbreviation
    let result = month_number("Invalid");
    assert!(result.is_err());
    assert!(result
        .unwrap_err()
        .to_string()
        .contains("does not match mappings"));
}

#[test]
fn test_date_new() {
    // Test valid date
    let date = Date::new(2024, 3, 25).unwrap();
    assert_eq!(date.year(), 2024);
    assert_eq!(date.month(), 3);
    assert_eq!(date.day(), 25);

    // Test invalid date - February 30th
    let invalid_date = Date::new(2024, 2, 30);
    assert!(invalid_date.is_err());
    assert!(invalid_date
        .unwrap_err()
        .to_string()
        .contains("Invalid date"));
}

#[test]
fn test_date_from_csv() {
    // Test valid CSV date
    let date = Date::from_csv("25/Mar/24").unwrap();
    assert_eq!(date.year(), 2024);
    assert_eq!(date.month(), 3);
    assert_eq!(date.day(), 25);

    // Test invalid format (wrong delimiter)
    let invalid_format = Date::from_csv("25-Mar-24");
    assert!(invalid_format.is_err());
    assert!(invalid_format
        .unwrap_err()
        .to_string()
        .contains("Invalid date format"));

    // Test invalid month
    let invalid_month = Date::from_csv("25/Xyz/24");
    assert!(invalid_month.is_err());
    assert!(invalid_month
        .unwrap_err()
        .to_string()
        .contains("does not match mappings"));

    // Test invalid day (non-numeric)
    let invalid_day = Date::from_csv("XX/Mar/24");
    assert!(invalid_day.is_err());
}

#[test]
fn test_date_component_accessors() {
    let date = Date::new(2024, 3, 25).unwrap();

    // Test year accessor
    assert_eq!(date.year(), 2024);

    // Test month accessor
    assert_eq!(date.month(), 3);

    // Test day accessor
    assert_eq!(date.day(), 25);
}

#[test]
fn test_financial_year_calculations() {
    // Test dates in the same financial year
    let date1 = Date::new(2023, 7, 1).unwrap(); // Start of FY 2023-2024
    let date2 = Date::new(2024, 6, 30).unwrap(); // End of FY 2023-2024

    assert_eq!(Date::which_fy(&date1), 2023);
    assert_eq!(Date::which_fy(&date2), 2023);
    assert!(!Date::in_different_fy(&date1, &date2));

    // Test dates in different financial years
    let date3 = Date::new(2024, 7, 1).unwrap(); // Start of FY 2024-2025

    assert_eq!(Date::which_fy(&date3), 2024);
    assert!(Date::in_different_fy(&date1, &date3));
    assert!(Date::in_different_fy(&date2, &date3));
}

#[test]
fn test_format_fy() {
    assert_eq!(Date::format_fy(2023), "2023-2024");
    assert_eq!(Date::format_fy(2024), "2024-2025");
    assert_eq!(Date::format_fy(2000), "2000-2001");
}

#[test]
fn test_cgt_discount_eligibility() {
    // Test exactly one year (not eligible)
    let buy_date = Date::new(2023, 3, 25).unwrap();
    let sell_date = Date::new(2024, 3, 24).unwrap();
    assert!(!Date::is_eligible_for_cgt_discount(&buy_date, &sell_date));

    // Test more than one year (eligible)
    let eligible_sell_date = Date::new(2024, 3, 25).unwrap();
    assert!(Date::is_eligible_for_cgt_discount(
        &buy_date,
        &eligible_sell_date
    ));

    // Test less than one year (not eligible)
    let ineligible_sell_date = Date::new(2023, 9, 25).unwrap();
    assert!(!Date::is_eligible_for_cgt_discount(
        &buy_date,
        &ineligible_sell_date
    ));
}

#[test]
fn test_dummy_date() {
    let dummy = Date::dummy();
    assert_eq!(dummy.year(), 2000);
    assert_eq!(dummy.month(), 6);
    assert_eq!(dummy.day(), 1);
}

#[test]
fn test_try_from_string() {
    // Test valid ISO date string
    let date_str = String::from("2024-03-25");
    let date = Date::try_from(date_str).unwrap();
    assert_eq!(date.year(), 2024);
    assert_eq!(date.month(), 3);
    assert_eq!(date.day(), 25);

    // Test invalid date format
    let invalid_str = String::from("25/03/2024");
    let result = Date::try_from(invalid_str);
    assert!(result.is_err());

    // Test invalid date value
    let invalid_date = String::from("2024-02-30");
    let result = Date::try_from(invalid_date);
    assert!(result.is_err());
}

#[test]
fn test_display() {
    let date = Date::new(2024, 3, 25).unwrap();
    assert_eq!(date.to_string(), "2024-03-25");
}

#[test]
fn test_ordering() {
    let date1 = Date::new(2023, 1, 1).unwrap();
    let date2 = Date::new(2023, 1, 2).unwrap();
    let date3 = Date::new(2023, 2, 1).unwrap();
    let date4 = Date::new(2024, 1, 1).unwrap();

    // Test equality
    let date1_clone = Date::new(2023, 1, 1).unwrap();
    assert_eq!(date1, date1_clone);

    // Test ordering
    assert!(date1 < date2);
    assert!(date2 < date3);
    assert!(date3 < date4);
}

#[test]
fn financial_year_turns_on_the_first_of_july() {
    let last_day = Date::new(2024, 6, 30).unwrap();
    let first_day = Date::new(2024, 7, 1).unwrap();
    assert_eq!(Date::which_fy(&last_day), 2023);
    assert_eq!(Date::which_fy(&first_day), 2024);
    assert!(Date::in_different_fy(&last_day, &first_day));
    assert_eq!(Date::which_fy(&Date::new(2024, 1, 1).unwrap()), 2023);
    assert_eq!(Date::which_fy(&Date::new(2024, 12, 31).unwrap()), 2024);
}

#[test]
fn same_financial_year_is_not_different() {
    let a = Date::new(2023, 12, 31).unwrap();
    let b = Date::new(2024, 1, 1).unwrap();
    assert!(!Date::in_different_fy(&a, &b));
    assert!(!Date::in_different_fy(&a, &a));
}

#[test]
fn discount_needs_more_than_365_days() {
    let bought = Date::new(2023, 3, 25).unwrap();
    // 365 days later
    assert!(!Date::is_eligible_for_cgt_discount(
        &bought,
        &Date::new(2024, 3, 24).unwrap()
    ));
    // 366 days later
    assert!(Date::is_eligible_for_cgt_discount(
        &bought,
        &Date::new(2024, 3, 25).unwrap()
    ));
    // sold before it was bought
    assert!(!Date::is_eligible_for_cgt_discount(
        &Date::new(2024, 3, 25).unwrap(),
        &bought
    ));
    // the same day
    assert!(!Date::is_eligible_for_cgt_discount(&bought, &bought));
}

#[test]
fn discount_counts_days_not_years() {
    // no leap day in between: one calendar year is 365 days
    let bought = Date::new(2022, 3, 1).unwrap();
    assert!(!Date::is_eligible_for_cgt_discount(
        &bought,
        &Date::new(2023, 3, 1).unwrap()
    ));
    assert!(Date::is_eligible_for_cgt_discount(
        &bought,
        &Date::new(2023, 3, 2).unwrap()
    ));
    // across the end of a century that is no leap year
    let old = Date::new(1899, 12, 31).unwrap();
    assert!(!Date::is_eligible_for_cgt_discount(
        &old,
        &Date::new(1900, 12, 31).unwrap()
    ));
    assert!(Date::is_eligible_for_cgt_discount(
        &old,
        &Date::new(1901, 1, 1).unwrap()
    ));
    // far apart, before the year 1
    let ancient = Date::new(-5, 6, 1).unwrap();
    assert!(Date::is_eligible_for_cgt_discount(
        &ancient,
        &Date::new(2000, 6, 1).unwrap()
    ));
}

#[test]
fn leap_days_exist_only_in_leap_years() {
    assert!(Date::new(2024, 2, 29).is_ok());
    assert!(Date::new(2023, 2, 29).is_err());
    assert!(Date::new(2000, 2, 29).is_ok());
    assert!(Date::new(1900, 2, 29).is_err());
    assert!(Date::new(-4, 2, 29).is_ok());
}

#[test]
fn months_and_days_out_of_range_are_refused() {
    assert!(Date::new(2024, 0, 1).is_err());
    assert!(Date::new(2024, 13, 1).is_err());
    assert!(Date::new(2024, 1, 0).is_err());
    assert!(Date::new(2024, 1, 32).is_err());
    assert!(Date::new(2024, 4, 31).is_err());
    assert!(Date::new(2024, 4, 30).is_ok());
    assert!(Date::new(2024, 12, 31).is_ok());
}

#[test]
fn years_out_of_range_are_refused() {
    assert!(Date::new(262_142, 12, 31).is_ok());
    assert!(Date::new(262_143, 1, 1).is_err());
    assert!(Date::new(-262_143, 1, 1).is_ok());
    assert!(Date::new(-262_144, 12, 31).is_err());
    assert!(Date::new(i32::MAX, 1, 1).is_err());
    assert!(Date::new(i32::MIN, 1, 1).is_err());
}

#[test]
fn invalid_date_error_names_the_components() {
    let e = Date::new(2024, 2, 30).unwrap_err();
    assert_eq!(
        e,
        DateError::InvalidDate {
            year: 2024,
            month: 2,
            day: 30
        }
    );
    assert_eq!(e.to_string(), "Invalid date: 2024-2-30");
    let e = Date::new(-7, 13, 0).unwrap_err();
    assert_eq!(e.to_string(), "Invalid date: -7-13-0");
}

#[test]
fn csv_dates_are_read_field_by_field() {
    assert_eq!(
        Date::from_csv("1/Jan/00").unwrap(),
        Date::new(2000, 1, 1).unwrap()
    );
    assert_eq!(
        Date::from_csv("29/Feb/24").unwrap(),
        Date::new(2024, 2, 29).unwrap()
    );
    assert_eq!(
        Date::from_csv("+5/Dec/+7").unwrap(),
        Date::new(2007, 12, 5).unwrap()
    );
    assert_eq!(
        Date::from_csv("05/Jul/2024").unwrap(),
        Date::new(4024, 7, 5).unwrap()
    );
}

#[test]
fn csv_date_errors_say_what_is_wrong() {
    assert_eq!(
        Date::from_csv("25/Mar").unwrap_err(),
        DateError::InvalidFormat(String::from("25/Mar"))
    );
    assert_eq!(
        Date::from_csv("25/Mar/24/1").unwrap_err(),
        DateError::InvalidFormat(String::from("25/Mar/24/1"))
    );
    assert_eq!(
        Date::from_csv("").unwrap_err(),
        DateError::InvalidFormat(String::new())
    );
    assert_eq!(
        Date::from_csv("XX/Mar/24").unwrap_err(),
        DateError::InvalidNumber(String::from("XX"))
    );
    assert_eq!(
        Date::from_csv("/Mar/24").unwrap_err(),
        DateError::InvalidNumber(String::new())
    );
    assert_eq!(
        Date::from_csv(" 5/Mar/24").unwrap_err(),
        DateError::InvalidNumber(String::from(" 5"))
    );
    assert_eq!(
        Date::from_csv("25/mar/24").unwrap_err(),
        DateError::UnknownMonth(String::from("mar"))
    );
    assert_eq!(
        Date::from_csv("25/Mar/-24").unwrap_err(),
        DateError::InvalidNumber(String::from("-24"))
    );
    assert_eq!(
        Date::from_csv("25/Mar/99999999999").unwrap_err(),
        DateError::InvalidNumber(String::from("99999999999"))
    );
    assert_eq!(
        Date::from_csv("30/Feb/24").unwrap_err(),
        DateError::InvalidDate {
            year: 2024,
            month: 2,
            day: 30
        }
    );
    assert_eq!(
        Date::from_csv("1/Jan/4294967295").unwrap_err(),
        DateError::InvalidDate {
            year: 4294969295,
            month: 1,
            day: 1
        }
    );
    // the day is looked at before the month
    assert_eq!(
        Date::from_csv("XX/Xyz/24").unwrap_err(),
        DateError::InvalidNumber(String::from("XX"))
    );
}

#[test]
fn error_messages() {
    assert_eq!(
        DateError::InvalidFormat(String::from("x")).to_string(),
        "Invalid date format: x"
    );
    assert_eq!(
        DateError::UnknownMonth(String::from("Foo")).to_string(),
        "Tried to convert month, but [Foo] does not match mappings"
    );
    assert_eq!(
        DateError::InvalidNumber(String::from("1x")).to_string(),
        "Invalid number: 1x"
    );
    assert_eq!(
        DateError::Unparseable(String::from("yesterday")).to_string(),
        "Failed to parse date 'yesterday'"
    );
}

#[test]
fn month_abbreviations_are_exact() {
    assert!(month_number("jan").is_err());
    assert!(month_number("JAN").is_err());
    assert!(month_number("Jan ").is_err());
    assert!(month_number("January").is_err());
    assert!(month_number("").is_err());
    assert_eq!(
        month_number("Ja").unwrap_err(),
        DateError::UnknownMonth(String::from("Ja"))
    );
}

#[test]
fn iso_text_of_dates() {
    assert_eq!(Date::new(2024, 12, 1).unwrap().to_string(), "2024-12-01");
    assert_eq!(Date::new(987, 1, 31).unwrap().to_string(), "0987-01-31");
    assert_eq!(Date::new(0, 1, 1).unwrap().to_string(), "0000-01-01");
    assert_eq!(Date::new(9999, 12, 31).unwrap().to_string(), "9999-12-31");
    assert_eq!(Date::new(-1, 1, 1).unwrap().to_string(), "-0001-01-01");
    assert_eq!(Date::new(-12345, 3, 4).unwrap().to_string(), "-12345-03-04");
    assert_eq!(
        Date::new(10000, 12, 31).unwrap().to_string(),
        "+10000-12-31"
    );
    assert_eq!(
        Date::new(262_142, 12, 31).unwrap().to_string(),
        "+262142-12-31"
    );
    assert_eq!(
        Date::new(-262_143, 1, 1).unwrap().to_string(),
        "-262143-01-01"
    );
}

#[test]
fn iso_text_is_read_back() {
    let date = Date::new(2024, 2, 29).unwrap();
    assert_eq!(Date::try_from(date.to_string()).unwrap(), date);
    assert_eq!(
        Date::try_from(String::from("0001-01-01")).unwrap(),
        Date::new(1, 1, 1).unwrap()
    );
    assert_eq!(
        Date::try_from(String::from("not a date")).unwrap_err(),
        DateError::Unparseable(String::from("not a date"))
    );
    assert_eq!(
        Date::try_from(String::from("2023-02-29")).unwrap_err(),
        DateError::Unparseable(String::from("2023-02-29"))
    );
}

#[test]
fn parsed_components_make_the_date() {
    assert_eq!(
        Date::from_parsed(Some((2024, 3, 25)), "x").unwrap(),
        Date::new(2024, 3, 25).unwrap()
    );
    assert_eq!(
        Date::from_parsed(Some((2024, 2, 30)), "x").unwrap_err(),
        DateError::InvalidDate {
            year: 2024,
            month: 2,
            day: 30
        }
    );
    assert_eq!(
        Date::from_parsed(None, "x").unwrap_err(),
        DateError::Unparseable(String::from("x"))
    );
}

#[test]
fn dates_are_ordered_in_time() {
    let a = Date::new(2023, 12, 31).unwrap();
    let b = Date::new(2024, 1, 1).unwrap();
    let c = Date::new(2024, 1, 2).unwrap();
    let d = Date::new(2024, 2, 1).unwrap();
    assert!(a < b && b < c && c < d);
    assert!(d > a);
    assert!(a <= a && a >= a);
    assert!(!(a < a));
    assert!(a.precedes(&b));
    assert!(!b.precedes(&a));
    assert!(!a.precedes(&a));
    assert!(Date::new(-1, 12, 31).unwrap() < Date::new(0, 1, 1).unwrap());
    let mut dates = vec![d, b, a, c];
    dates.sort();
    assert_eq!(dates, vec![a, b, c, d]);
}

#[test]
fn naive_date_is_the_same_day() {
    let date = Date::new(2024, 3, 25).unwrap();
    assert_eq!(
        date.naive_date(),
        chrono::NaiveDate::from_ymd_opt(2024, 3, 25).unwrap()
    );
}

#[test]
fn financial_year_labels() {
    assert_eq!(Date::format_fy(1999), "1999-2000");
    assert_eq!(Date::format_fy(0), "0-1");
    assert_eq!(Date::format_fy(-1), "-1-0");
    assert_eq!(Date::format_fy(-10), "-10--9");
    assert_eq!(Date::format_fy(i32::MAX - 1), "2147483646-2147483647");
    assert_eq!(Date::format_fy(i32::MIN), "-2147483648--2147483647");
}
