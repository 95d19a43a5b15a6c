//! Dates as seconds since the first of January 1970.

use crate::calendar::{
    day_number, is_calendar_date, lemma_day_number_orders, MAX_YEAR, MIN_YEAR,
};
use crate::chrono_bridge::{
    iso_date_string, iso_date_text, parse_ymd, parsed_ymd, timestamp_at_midnight,
    unix_epoch_day, utc_date_of_timestamp,
};
use crate::date::DateError;
use vstd::prelude::*;
use vstd::string::*;

verus! {

/// The running day count of the day on which the second `seconds` lies.
pub open spec fn day_of_timestamp(seconds: int) -> int {
    seconds / 86_400 + unix_epoch_day()
}

/// Whether the second lies on a day within the years that dates may lie
/// in.
pub open spec fn is_dated_timestamp(seconds: int) -> bool {
    day_number(MIN_YEAR as int, 1, 1) <= day_of_timestamp(seconds) <= day_number(
        MAX_YEAR as int,
        12,
        31,
    )
}

/// Whether `text` is the ISO text of the day with the running count `n`.
pub open spec fn is_iso_text_of_day(text: Seq<char>, n: int) -> bool {
    exists|year: int, month: int, day: int|
        #![trigger day_number(year, month, day)]
        is_calendar_date(year, month, day) && day_number(year, month, day) == n && text
            == iso_date_text(year, month, day)
}

/// What is made of a reading of `DD/Mon/YY` text: the timestamp of
/// midnight on the day read, or the reason there is none.
pub open spec fn is_timestamp_reading(
    parsed: Option<(int, int, int)>,
    text: Seq<char>,
    r: Result<i64, DateError>,
) -> bool {
    match parsed {
        Some((year, month, day)) => {
            if is_calendar_date(year, month, day) {
                r == Ok::<i64, DateError>(
                    ((day_number(year, month, day) - unix_epoch_day()) * 86_400) as i64,
                )
            } else {
                r == Err::<i64, DateError>(
                    DateError::InvalidDate {
                        year: year as i64,
                        month: month as u32,
                        day: day as u32,
                    },
                )
            }
        },
        None => {
            &&& r matches Err(DateError::Unparseable(t))
            &&& t@ == text
        },
    }
}

/// The timestamp of midnight in UTC on the day that was read from `text`.
pub fn timestamp_of_parsed(parsed: Option<(i32, u32, u32)>, text: &str) -> (r: Result<
    i64,
    DateError,
>)
    ensures
        is_timestamp_reading(
            match parsed {
                Some(ymd) => Some((ymd.0 as int, ymd.1 as int, ymd.2 as int)),
                None => None,
            },
            text@,
            r,
        ),
{
    match parsed {
        Some((year, month, day)) => {
            match chrono::NaiveDate::from_ymd_opt(year, month, day) {
                Some(_) => Ok(timestamp_at_midnight(year, month, day)),
                None => Err(DateError::InvalidDate { year: year as i64, month, day }),
            }
        },
        None => Err(DateError::Unparseable(String::from_str(text))),
    }
}

/// Reads a date written as `25/Mar/24` and gives the timestamp of midnight
/// in UTC on that day.
pub fn date_string_to_unix_i64(date_str: &str) -> (r: Result<i64, DateError>)
    ensures
        is_timestamp_reading(parsed_ymd(date_str@, "%d/%b/%y"@), date_str@, r),
{
    let parsed = match parse_ymd(date_str, "%d/%b/%y") {
        Ok(ymd) => Some(ymd),
        Err(_) => None,
    };
    timestamp_of_parsed(parsed, date_str)
}

/// The day in UTC on which the timestamp lies, as `YYYY-MM-DD`.
pub fn date_unix_i64_into_string(date: i64) -> (s: String)
    requires
        is_dated_timestamp(date as int),
    ensures
        is_iso_text_of_day(s@, day_of_timestamp(date as int)),
{
    match utc_date_of_timestamp(date) {
        Some((year, month, day)) => {
            let s = iso_date_string(year, month, day);
            assert(is_iso_text_of_day(s@, day_of_timestamp(date as int))) by {
                assert(is_calendar_date(year as int, month as int, day as int) && day_number(
                    year as int,
                    month as int,
                    day as int,
                ) == day_of_timestamp(date as int));
            }
            s
        },
        None => String::new(),
    }
}

/// No two days have the same running count, so one day at most has a given
/// ISO text for its count.
pub proof fn lemma_iso_text_of_day_is_one(a: Seq<char>, b: Seq<char>, n: int)
    requires
        is_iso_text_of_day(a, n),
        is_iso_text_of_day(b, n),
    ensures
        a == b,
{
    let (y1, m1, d1) = choose|year: int, month: int, day: int|
        #![trigger day_number(year, month, day)]
        is_calendar_date(year, month, day) && day_number(year, month, day) == n && a
            == iso_date_text(year, month, day);
    let (y2, m2, d2) = choose|year: int, month: int, day: int|
        #![trigger day_number(year, month, day)]
        is_calendar_date(year, month, day) && day_number(year, month, day) == n && b
            == iso_date_text(year, month, day);
    lemma_day_number_orders(y1, m1, d1, y2, m2, d2);
}

} // verus!
