//! What this crate takes on trust from `chrono`: nothing here is proved, each
//! contract restates what chrono documents.

use crate::calendar::{day_number, is_calendar_date, MAX_YEAR, MIN_YEAR};
use crate::text::{digit_char, two_digits};
use chrono::Datelike;
use vstd::prelude::*;

verus! {

/// `chrono::NaiveDate`, a calendar date; opaque to the verifier.
#[verifier::external_type_specification]
#[verifier::external_body]
pub struct ExNaiveDate(chrono::NaiveDate);

/// `chrono::ParseError`, the reason a text was not read as a date; opaque to
/// the verifier.
#[verifier::external_type_specification]
#[verifier::external_body]
pub struct ExParseError(chrono::ParseError);

/// The `NaiveDate` that `NaiveDate::from_ymd_opt` makes of a year, a month
/// and a day, if it makes one.
pub uninterp spec fn naive_date_of(year: int, month: int, day: int) -> Option<chrono::NaiveDate>;

/// `NaiveDate::from_ymd_opt` gives a date exactly for the triples that name a
/// day of the proleptic Gregorian calendar in the years chrono supports.
/// Which date it gives depends on the three numbers alone and is named by
/// [`naive_date_of`].
pub assume_specification[ chrono::NaiveDate::from_ymd_opt ](
    year: i32,
    month: u32,
    day: u32,
) -> (date: Option<chrono::NaiveDate>)
    ensures
        date == naive_date_of(year as int, month as int, day as int),
        date.is_some() == is_calendar_date(year as int, month as int, day as int),
;

/// `Datelike::num_days_from_ce` on a `NaiveDate`: the count of days in the
/// proleptic Gregorian calendar, with the first of January of year 1 as
/// day 1.
#[verifier::external_body]
pub(crate) fn days_from_ce(year: i32, month: u32, day: u32) -> (n: i32)
    requires
        is_calendar_date(year as int, month as int, day as int),
    ensures
        n == day_number(year as int, month as int, day as int),
{
    chrono::NaiveDate::from_ymd_opt(year, month, day).unwrap().num_days_from_ce()
}

/// The year, month and day that `NaiveDate::parse_from_str` reads from
/// `text` under the format string `format`, if it reads a date at all.
pub uninterp spec fn parsed_ymd(text: Seq<char>, format: Seq<char>) -> Option<(int, int, int)>;

/// `NaiveDate::parse_from_str`: the outcome depends on the two texts alone
/// and is named by [`parsed_ymd`]; nothing more is claimed of it.
#[verifier::external_body]
pub(crate) fn parse_ymd(text: &str, format: &str) -> (r: Result<
    (i32, u32, u32),
    chrono::ParseError,
>)
    ensures
        match r {
            Ok(ymd) => parsed_ymd(text@, format@) == Some(
                (ymd.0 as int, ymd.1 as int, ymd.2 as int),
            ),
            Err(_) => parsed_ymd(text@, format@).is_none(),
        },
{
    match chrono::NaiveDate::parse_from_str(text, format) {
        Ok(date) => Ok((date.year(), date.month(), date.day())),
        Err(e) => Err(e),
    }
}

/// The year as ISO 8601 writes it: four digits for the years 0 to 9999,
/// otherwise a sign and at least four digits.
pub open spec fn iso_year_text(year: int) -> Seq<char> {
    let n = if year < 0 {
        -year
    } else {
        year
    };
    let digits = if n <= 9999 {
        two_digits(n / 100) + two_digits(n % 100)
    } else if n <= 99999 {
        seq![digit_char(n / 10000)] + two_digits(n / 100 % 100) + two_digits(n % 100)
    } else {
        two_digits(n / 10000) + two_digits(n / 100 % 100) + two_digits(n % 100)
    };
    if year < 0 {
        seq!['-'] + digits
    } else if year > 9999 {
        seq!['+'] + digits
    } else {
        digits
    }
}

/// The date as `YYYY-MM-DD`.
pub open spec fn iso_date_text(year: int, month: int, day: int) -> Seq<char> {
    iso_year_text(year) + seq!['-'] + two_digits(month) + seq!['-'] + two_digits(day)
}

/// `Display` of a `NaiveDate`, which chrono documents as the format
/// `%Y-%m-%d`: the year in four digits (with a sign and at least four digits
/// outside 0 to 9999), the month and the day in two digits each.
#[verifier::external_body]
pub(crate) fn iso_date_string(year: i32, month: u32, day: u32) -> (s: String)
    requires
        is_calendar_date(year as int, month as int, day as int),
    ensures
        s@ == iso_date_text(year as int, month as int, day as int),
{
    chrono::NaiveDate::from_ymd_opt(year, month, day).unwrap().to_string()
}

/// The day count of the first of January 1970, from which timestamps
/// count.
pub open spec fn unix_epoch_day() -> int {
    719_163
}

/// `DateTime::timestamp` of midnight in UTC on the given day: the seconds
/// since the start of the first of January 1970, 86 400 to a day.
#[verifier::external_body]
pub(crate) fn timestamp_at_midnight(year: i32, month: u32, day: u32) -> (seconds: i64)
    requires
        is_calendar_date(year as int, month as int, day as int),
    ensures
        seconds == (day_number(year as int, month as int, day as int) - unix_epoch_day())
            * 86_400,
{
    chrono::NaiveDate::from_ymd_opt(year, month, day).unwrap().and_hms_opt(
        0,
        0,
        0,
    ).unwrap().and_utc().timestamp()
}

/// `TimeZone::timestamp_opt` of `Utc` with no nanoseconds, and the date of
/// its result: the day in UTC on which the second lies, if that day is
/// within the years that dates may lie in.
#[verifier::external_body]
pub(crate) fn utc_date_of_timestamp(seconds: i64) -> (r: Option<(i32, u32, u32)>)
    ensures
        match r {
            Some(ymd) => {
                &&& is_calendar_date(ymd.0 as int, ymd.1 as int, ymd.2 as int)
                &&& day_number(ymd.0 as int, ymd.1 as int, ymd.2 as int) == seconds as int
                    / 86_400 + unix_epoch_day()
            },
            None => {
                ||| seconds as int / 86_400 + unix_epoch_day() < day_number(MIN_YEAR as int, 1, 1)
                ||| seconds as int / 86_400 + unix_epoch_day() > day_number(
                    MAX_YEAR as int,
                    12,
                    31,
                )
            },
        },
{
    match chrono::TimeZone::timestamp_opt(&chrono::Utc, seconds, 0).single() {
        Some(time) => Some((time.year(), time.month(), time.day())),
        None => None,
    }
}

} // verus!
