//! The proleptic Gregorian calendar as mathematics: which triples name a day,
//! and the running count of days.

use vstd::prelude::*;

verus! {

/// Earliest year a date may lie in.
pub const MIN_YEAR: i32 = -262_143;

/// Latest year a date may lie in.
pub const MAX_YEAR: i32 = 262_142;

pub open spec fn is_leap_year(year: int) -> bool {
    year % 4 == 0 && (year % 100 != 0 || year % 400 == 0)
}

pub open spec fn days_in_month(year: int, month: int) -> int {
    if month == 2 {
        if is_leap_year(year) {
            29
        } else {
            28
        }
    } else if month == 4 || month == 6 || month == 9 || month == 11 {
        30
    } else {
        31
    }
}

/// Whether `(year, month, day)` names a day of the calendar within the
/// supported years.
pub open spec fn is_calendar_date(year: int, month: int, day: int) -> bool {
    &&& MIN_YEAR <= year <= MAX_YEAR
    &&& 1 <= month <= 12
    &&& 1 <= day <= days_in_month(year, month)
}

/// Days of `year` that lie before the first of `month`.
pub open spec fn days_before_month(year: int, month: int) -> int
    decreases month,
{
    if month <= 1 {
        0
    } else {
        days_before_month(year, month - 1) + days_in_month(year, month - 1)
    }
}

/// Days that lie before the first of January of `year`, counted from the
/// first of January of year 1.
pub open spec fn days_before_year(year: int) -> int {
    365 * (year - 1) + (year - 1) / 4 - (year - 1) / 100 + (year - 1) / 400
}

/// The running day count of a date: the first of January of year 1 is day 1.
pub open spec fn day_number(year: int, month: int, day: int) -> int {
    days_before_year(year) + days_before_month(year, month) + day
}

/// The financial year a month of a year lies in, named by the calendar year
/// in which it starts: July to December belong to the year that starts in
/// their own calendar year, January to June to the one that started the
/// year before.
pub open spec fn financial_year_of(year: int, month: int) -> int {
    if month >= 7 {
        year
    } else {
        year - 1
    }
}

/// Calendar order on triples: by year, then month, then day.
pub open spec fn ymd_before(y1: int, m1: int, d1: int, y2: int, m2: int, d2: int) -> bool {
    y1 < y2 || (y1 == y2 && (m1 < m2 || (m1 == m2 && d1 < d2)))
}

pub open spec fn days_in_year(year: int) -> int {
    if is_leap_year(year) {
        366
    } else {
        365
    }
}

/// A year is followed by the next after 365 or 366 days.
pub proof fn lemma_year_step(year: int)
    ensures
        days_before_year(year + 1) == days_before_year(year) + days_in_year(year),
{
    let y = year - 1;
    assert((y + 1) / 4 == y / 4 + if (y + 1) % 4 == 0 { 1int } else { 0 });
    assert((y + 1) / 100 == y / 100 + if (y + 1) % 100 == 0 { 1int } else { 0 });
    assert((y + 1) / 400 == y / 400 + if (y + 1) % 400 == 0 { 1int } else { 0 });
    assert((y + 1) % 400 == 0 ==> (y + 1) % 100 == 0);
    assert((y + 1) % 100 == 0 ==> (y + 1) % 4 == 0);
}

/// Later years start later, by at least 365 days a year.
pub proof fn lemma_years_increase(y1: int, y2: int)
    requires
        y1 <= y2,
    ensures
        days_before_year(y2) - days_before_year(y1) >= 365 * (y2 - y1),
    decreases y2 - y1,
{
    if y1 < y2 {
        lemma_years_increase(y1, y2 - 1);
        lemma_year_step(y2 - 1);
    }
}

/// The months of a year fill it: counting through December gives its length.
pub proof fn lemma_months_fill_year(year: int, month: int)
    requires
        1 <= month <= 12,
    ensures
        0 <= days_before_month(year, month),
        days_before_month(year, month) + days_in_month(year, month) <= days_in_year(year),
        month < 12 ==> days_before_month(year, month + 1) == days_before_month(year, month)
            + days_in_month(year, month),
{
    reveal_with_fuel(days_before_month, 14);
}

/// The day count orders dates as the calendar does.
pub proof fn lemma_day_number_orders(y1: int, m1: int, d1: int, y2: int, m2: int, d2: int)
    requires
        is_calendar_date(y1, m1, d1),
        is_calendar_date(y2, m2, d2),
    ensures
        ymd_before(y1, m1, d1, y2, m2, d2) <==> day_number(y1, m1, d1) < day_number(y2, m2, d2),
        (y1 == y2 && m1 == m2 && d1 == d2) <==> day_number(y1, m1, d1) == day_number(y2, m2, d2),
{
    if ymd_before(y1, m1, d1, y2, m2, d2) {
        lemma_day_number_increases(y1, m1, d1, y2, m2, d2);
    }
    if ymd_before(y2, m2, d2, y1, m1, d1) {
        lemma_day_number_increases(y2, m2, d2, y1, m1, d1);
    }
}

proof fn lemma_day_number_increases(y1: int, m1: int, d1: int, y2: int, m2: int, d2: int)
    requires
        is_calendar_date(y1, m1, d1),
        is_calendar_date(y2, m2, d2),
        ymd_before(y1, m1, d1, y2, m2, d2),
    ensures
        day_number(y1, m1, d1) < day_number(y2, m2, d2),
{
    lemma_months_fill_year(y1, m1);
    lemma_months_fill_year(y2, m2);
    if y1 < y2 {
        lemma_year_step(y1);
        lemma_years_increase(y1 + 1, y2);
    } else if m1 < m2 {
        lemma_months_increase(y1, m1, m2);
    }
}

proof fn lemma_months_increase(year: int, m1: int, m2: int)
    requires
        1 <= m1 < m2 <= 12,
    ensures
        days_before_month(year, m1) + days_in_month(year, m1) <= days_before_month(year, m2),
    decreases m2 - m1,
{
    lemma_months_fill_year(year, m1);
    if m1 + 1 < m2 {
        lemma_months_increase(year, m1 + 1, m2);
    }
}

} // verus!
