//! Calendar dates, the financial year they fall in, and the holding period
//! that earns the long-term discount.

use crate::calendar::{
    day_number, financial_year_of, is_calendar_date, lemma_day_number_orders, ymd_before,
    MAX_YEAR,
};
use crate::chrono_bridge::{
    days_from_ce, iso_date_string, iso_date_text, naive_date_of, parse_ymd, parsed_ymd,
};
use crate::text::{
    chars_of, decimal_text, find_char, find_from, parse_u32, push_decimal, read_u32,
};
use std::cmp::Ordering;
use vstd::prelude::*;
use vstd::std_specs::cmp::PartialOrdSpec;
use vstd::string::*;

verus! {

/// Why a date could not be made.
#[derive(Debug, Clone, PartialEq, Eq)]
pub enum DateError {
    /// The components name no day of the calendar.
    InvalidDate { year: i64, month: u32, day: u32 },
    /// The text does not have the shape `DD/MMM/YY`.
    InvalidFormat(String),
    /// The text is no month abbreviation.
    UnknownMonth(String),
    /// The text is no whole number.
    InvalidNumber(String),
    /// The text is no ISO date.
    Unparseable(String),
}

impl DateError {
    /// The message of an error, as text.
    pub open spec fn message(&self) -> Seq<char> {
        match self {
            DateError::InvalidDate { year, month, day } => "Invalid date: "@ + decimal_text(
                *year as int,
            ) + "-"@ + decimal_text(*month as int) + "-"@ + decimal_text(*day as int),
            DateError::InvalidFormat(text) => "Invalid date format: "@ + text@,
            DateError::UnknownMonth(text) => "Tried to convert month, but ["@ + text@
                + "] does not match mappings"@,
            DateError::InvalidNumber(text) => "Invalid number: "@ + text@,
            DateError::Unparseable(text) => "Failed to parse date '"@ + text@ + "'"@,
        }
    }

    /// Renders the error for people.
    pub fn to_string(&self) -> (s: String)
        ensures
            s@ == self.message(),
    {
        match self {
            DateError::InvalidDate { year, month, day } => {
                let mut s = String::from_str("Invalid date: ");
                push_decimal(&mut s, *year);
                s.append("-");
                push_decimal(&mut s, *month as i64);
                s.append("-");
                push_decimal(&mut s, *day as i64);
                s
            },
            DateError::InvalidFormat(text) => {
                let mut s = String::from_str("Invalid date format: ");
                s.append(text.as_str());
                s
            },
            DateError::UnknownMonth(text) => {
                let mut s = String::from_str("Tried to convert month, but [");
                s.append(text.as_str());
                s.append("] does not match mappings");
                s
            },
            DateError::InvalidNumber(text) => {
                let mut s = String::from_str("Invalid number: ");
                s.append(text.as_str());
                s
            },
            DateError::Unparseable(text) => {
                let mut s = String::from_str("Failed to parse date '");
                s.append(text.as_str());
                s.append("'");
                s
            },
        }
    }
}

/// The month a three-letter English abbreviation names, January being 1.
pub open spec fn month_of_abbreviation(s: Seq<char>) -> Option<u32> {
    if s == seq!['J', 'a', 'n'] {
        Some(1u32)
    } else if s == seq!['F', 'e', 'b'] {
        Some(2u32)
    } else if s == seq!['M', 'a', 'r'] {
        Some(3u32)
    } else if s == seq!['A', 'p', 'r'] {
        Some(4u32)
    } else if s == seq!['M', 'a', 'y'] {
        Some(5u32)
    } else if s == seq!['J', 'u', 'n'] {
        Some(6u32)
    } else if s == seq!['J', 'u', 'l'] {
        Some(7u32)
    } else if s == seq!['A', 'u', 'g'] {
        Some(8u32)
    } else if s == seq!['S', 'e', 'p'] {
        Some(9u32)
    } else if s == seq!['O', 'c', 't'] {
        Some(10u32)
    } else if s == seq!['N', 'o', 'v'] {
        Some(11u32)
    } else if s == seq!['D', 'e', 'c'] {
        Some(12u32)
    } else {
        None
    }
}

/// Every month abbreviation has three letters.
pub proof fn lemma_month_abbreviation_has_three_letters(s: Seq<char>)
    requires
        month_of_abbreviation(s).is_some(),
    ensures
        s.len() == 3,
{
    assert(seq!['J', 'a', 'n'].len() == 3);
    assert(seq!['F', 'e', 'b'].len() == 3);
    assert(seq!['M', 'a', 'r'].len() == 3);
    assert(seq!['A', 'p', 'r'].len() == 3);
    assert(seq!['M', 'a', 'y'].len() == 3);
    assert(seq!['J', 'u', 'n'].len() == 3);
    assert(seq!['J', 'u', 'l'].len() == 3);
    assert(seq!['A', 'u', 'g'].len() == 3);
    assert(seq!['S', 'e', 'p'].len() == 3);
    assert(seq!['O', 'c', 't'].len() == 3);
    assert(seq!['N', 'o', 'v'].len() == 3);
    assert(seq!['D', 'e', 'c'].len() == 3);
}

fn month_of_chars(c: &Vec<char>, lo: usize, hi: usize) -> (m: Option<u32>)
    requires
        lo <= hi <= c.len(),
    ensures
        m == month_of_abbreviation(c@.subrange(lo as int, hi as int)),
{
    let ghost s = c@.subrange(lo as int, hi as int);
    if hi - lo != 3 {
        proof {
            if month_of_abbreviation(s).is_some() {
                lemma_month_abbreviation_has_three_letters(s);
            }
        }
        return None;
    }
    let a = c[lo];
    let b = c[lo + 1];
    let d = c[lo + 2];
    assert(s =~= seq![a, b, d]);
    assert(seq![a, b, d][0] == a && seq![a, b, d][1] == b && seq![a, b, d][2] == d);
    if a == 'J' && b == 'a' && d == 'n' {
        Some(1)
    } else if a == 'F' && b == 'e' && d == 'b' {
        Some(2)
    } else if a == 'M' && b == 'a' && d == 'r' {
        Some(3)
    } else if a == 'A' && b == 'p' && d == 'r' {
        Some(4)
    } else if a == 'M' && b == 'a' && d == 'y' {
        Some(5)
    } else if a == 'J' && b == 'u' && d == 'n' {
        Some(6)
    } else if a == 'J' && b == 'u' && d == 'l' {
        Some(7)
    } else if a == 'A' && b == 'u' && d == 'g' {
        Some(8)
    } else if a == 'S' && b == 'e' && d == 'p' {
        Some(9)
    } else if a == 'O' && b == 'c' && d == 't' {
        Some(10)
    } else if a == 'N' && b == 'o' && d == 'v' {
        Some(11)
    } else if a == 'D' && b == 'e' && d == 'c' {
        Some(12)
    } else {
        None
    }
}

/// Maps a month abbreviation (`Jan` to `Dec`) to its number.
pub fn month_number(val: &str) -> (r: Result<u32, DateError>)
    ensures
        match r {
            Ok(m) => month_of_abbreviation(val@) == Some(m),
            Err(e) => {
                &&& month_of_abbreviation(val@).is_none()
                &&& e matches DateError::UnknownMonth(text)
                &&& text@ == val@
            },
        },
{
    let c = chars_of(val);
    assert(c@.subrange(0, c.len() as int) =~= val@);
    match month_of_chars(&c, 0, c.len()) {
        Some(m) => Ok(m),
        None => Err(DateError::UnknownMonth(String::from_str(val))),
    }
}

/// A date as year, month and day numbers.
pub struct Ymd {
    pub year: int,
    pub month: int,
    pub day: int,
}

/// A day of the proleptic Gregorian calendar. Every value names a day that
/// exists; the derived order is the order in time.
#[derive(Debug, Clone, Copy, PartialEq, Eq, Ord, Hash, Structural)]
pub struct Date {
    year: i32,
    month: u32,
    day: u32,
}

impl View for Date {
    type V = Ymd;

    closed spec fn view(&self) -> Ymd {
        Ymd { year: self.year as int, month: self.month as int, day: self.day as int }
    }
}

/// The fields that the text `DD/MMM/YY` is made of: what stands before,
/// between and after its two slashes. Text with fewer or more slashes has
/// none.
pub open spec fn csv_date_fields(s: Seq<char>) -> Option<(Seq<char>, Seq<char>, Seq<char>)> {
    let first = find_from(s, '/', 0);
    let second = find_from(s, '/', first + 1);
    if first < s.len() && second < s.len() && find_from(s, '/', second + 1) >= s.len() {
        Some(
            (
                s.subrange(0, first),
                s.subrange(first + 1, second),
                s.subrange(second + 1, s.len() as int),
            ),
        )
    } else {
        None
    }
}

/// The text of a financial year: its first calendar year, a hyphen, and the
/// next calendar year.
pub open spec fn financial_year_label(start_year: int) -> Seq<char> {
    decimal_text(start_year) + "-"@ + decimal_text(start_year + 1)
}

impl Date {
    /// Whether the date names a day of the calendar. Every `Date` a program
    /// holds does.
    pub open spec fn is_valid(&self) -> bool {
        is_calendar_date(self@.year, self@.month, self@.day)
    }

    #[verifier::type_invariant]
    pub closed spec fn type_inv(&self) -> bool {
        self.is_valid()
    }

    /// The running day count of the date.
    pub open spec fn day_number(&self) -> int {
        day_number(self@.year, self@.month, self@.day)
    }

    /// Whether the date lies before `other` in the calendar.
    pub open spec fn is_before(&self, other: Date) -> bool {
        ymd_before(self@.year, self@.month, self@.day, other@.year, other@.month, other@.day)
    }

    /// The financial year the date lies in.
    pub open spec fn financial_year(&self) -> int {
        financial_year_of(self@.year, self@.month)
    }

    /// The date of the given year, month and day, if there is such a day.
    pub fn new(year: i32, month: u32, day: u32) -> (r: Result<Date, DateError>)
        ensures
            match r {
                Ok(date) => {
                    &&& is_calendar_date(year as int, month as int, day as int)
                    &&& date@ == Ymd { year: year as int, month: month as int, day: day as int }
                },
                Err(e) => {
                    &&& !is_calendar_date(year as int, month as int, day as int)
                    &&& e == DateError::InvalidDate { year: year as i64, month, day }
                },
            },
    {
        match chrono::NaiveDate::from_ymd_opt(year, month, day) {
            Some(_) => Ok(Date { year, month, day }),
            None => Err(DateError::InvalidDate { year: year as i64, month, day }),
        }
    }

    /// The year.
    pub fn year(&self) -> (y: i32)
        ensures
            y == self@.year,
    {
        self.year
    }

    /// The month, January being 1.
    pub fn month(&self) -> (m: u32)
        ensures
            m == self@.month,
            1 <= m <= 12,
    {
        proof {
            use_type_invariant(self);
        }
        self.month
    }

    /// The day of the month, from 1.
    pub fn day(&self) -> (d: u32)
        ensures
            d == self@.day,
            1 <= d <= 31,
    {
        proof {
            use_type_invariant(self);
        }
        self.day
    }

    /// The financial year that a date lies in, named by the calendar year in
    /// which it started: the first of July 2024 lies in 2024, the fifteenth
    /// of January 2024 in 2023.
    pub fn which_fy(date: &Date) -> (fy: i32)
        ensures
            fy == date.financial_year(),
    {
        proof {
            use_type_invariant(date);
        }
        if date.month >= 7 {
            date.year
        } else {
            date.year - 1
        }
    }

    /// Whether two dates lie in different financial years.
    pub fn in_different_fy(date1: &Date, date2: &Date) -> (r: bool)
        ensures
            r == (date1.financial_year() != date2.financial_year()),
    {
        let fy1 = Self::which_fy(date1);
        let fy2 = Self::which_fy(date2);
        fy1 != fy2
    }

    /// The text of a financial year, such as `2023-2024`.
    pub fn format_fy(fy_start_year: i32) -> (s: String)
        requires
            fy_start_year < i32::MAX,
        ensures
            s@ == financial_year_label(fy_start_year as int),
    {
        let mut s = String::new();
        push_decimal(&mut s, fy_start_year as i64);
        s.append("-");
        push_decimal(&mut s, fy_start_year as i64 + 1);
        s
    }

    /// Whether something bought on `buy_date` and sold on `sell_date` was
    /// held for more than 365 days.
    pub fn is_eligible_for_cgt_discount(buy_date: &Date, sell_date: &Date) -> (r: bool)
        ensures
            r == (sell_date.day_number() - buy_date.day_number() > 365),
    {
        proof {
            use_type_invariant(buy_date);
            use_type_invariant(sell_date);
        }
        let bought = days_from_ce(buy_date.year, buy_date.month, buy_date.day);
        let sold = days_from_ce(sell_date.year, sell_date.month, sell_date.day);
        sold as i64 - bought as i64 > 365
    }

    /// The date that `DD/MMM/YY` text names, if it names one: the fields
    /// are the day, a month abbreviation and the year of this century.
    pub open spec fn csv_date(text: Seq<char>) -> Option<Ymd> {
        match csv_date_fields(text) {
            None => None,
            Some((day_text, month_text, year_text)) => {
                if parse_u32(day_text).is_some() && month_of_abbreviation(month_text).is_some()
                    && parse_u32(year_text).is_some() {
                    let ymd = Ymd {
                        year: 2000 + parse_u32(year_text).unwrap(),
                        month: month_of_abbreviation(month_text).unwrap() as int,
                        day: parse_u32(day_text).unwrap() as int,
                    };
                    if is_calendar_date(ymd.year, ymd.month, ymd.day) {
                        Some(ymd)
                    } else {
                        None
                    }
                } else {
                    None
                }
            },
        }
    }

    /// What reading `DD/MMM/YY` text must give: the date it names, or the
    /// first thing wrong with it, looking at the shape, the day, the month,
    /// the year and last at the date as a whole.
    pub open spec fn is_csv_reading(text: Seq<char>, r: Result<Date, DateError>) -> bool {
        match csv_date_fields(text) {
            None => {
                &&& r matches Err(DateError::InvalidFormat(t))
                &&& t@ == text
            },
            Some((day_text, month_text, year_text)) => {
                if parse_u32(day_text).is_none() {
                    &&& r matches Err(DateError::InvalidNumber(t))
                    &&& t@ == day_text
                } else if month_of_abbreviation(month_text).is_none() {
                    &&& r matches Err(DateError::UnknownMonth(t))
                    &&& t@ == month_text
                } else if parse_u32(year_text).is_none() {
                    &&& r matches Err(DateError::InvalidNumber(t))
                    &&& t@ == year_text
                } else {
                    match Self::csv_date(text) {
                        Some(ymd) => {
                            &&& r matches Ok(date)
                            &&& date@ == ymd
                        },
                        None => r == Err::<Date, DateError>(
                            DateError::InvalidDate {
                                year: (2000 + parse_u32(year_text).unwrap()) as i64,
                                month: month_of_abbreviation(month_text).unwrap(),
                                day: parse_u32(day_text).unwrap(),
                            },
                        ),
                    }
                }
            },
        }
    }

    /// Reads a date written as `DD/MMM/YY`, such as `25/Mar/24`; the year
    /// is taken to lie in the century that began in 2000.
    pub fn from_csv(date_str: &str) -> (r: Result<Date, DateError>)
        ensures
            Self::is_csv_reading(date_str@, r),
            r.is_ok() == Self::csv_date(date_str@).is_some(),
    {
        let c = chars_of(date_str);
        let n = c.len();
        let first = find_char(&c, '/', 0);
        if first >= n {
            return Err(DateError::InvalidFormat(String::from_str(date_str)));
        }
        let second = find_char(&c, '/', first + 1);
        if second >= n {
            return Err(DateError::InvalidFormat(String::from_str(date_str)));
        }
        let third = find_char(&c, '/', second + 1);
        if third < n {
            return Err(DateError::InvalidFormat(String::from_str(date_str)));
        }
        let day = match read_u32(&c, 0, first) {
            Some(v) => v,
            None => {
                return Err(
                    DateError::InvalidNumber(
                        String::from_str(date_str.substring_char(0, first)),
                    ),
                );
            },
        };
        let month = match month_of_chars(&c, first + 1, second) {
            Some(v) => v,
            None => {
                return Err(
                    DateError::UnknownMonth(
                        String::from_str(date_str.substring_char(first + 1, second)),
                    ),
                );
            },
        };
        let year_short = match read_u32(&c, second + 1, n) {
            Some(v) => v,
            None => {
                return Err(
                    DateError::InvalidNumber(
                        String::from_str(date_str.substring_char(second + 1, n)),
                    ),
                );
            },
        };
        let year: i64 = 2000 + year_short as i64;
        if year > MAX_YEAR as i64 {
            return Err(DateError::InvalidDate { year, month, day });
        }
        Self::new(year as i32, month, day)
    }

    /// What is made of a reading of ISO text: the date read, if it names a
    /// day, or the reason there is none.
    pub open spec fn is_iso_reading(
        parsed: Option<(int, int, int)>,
        text: Seq<char>,
        r: Result<Date, DateError>,
    ) -> bool {
        match parsed {
            Some((year, month, day)) => {
                if is_calendar_date(year, month, day) {
                    &&& r matches Ok(date)
                    &&& date@ == Ymd { year, month, day }
                } else {
                    &&& r matches Err(DateError::InvalidDate { year: y, month: m, day: d })
                    &&& y == year
                    &&& m == month
                    &&& d == day
                }
            },
            None => {
                &&& r matches Err(DateError::Unparseable(t))
                &&& t@ == text
            },
        }
    }

    /// Makes the date out of what was read from `text`: the year, month and
    /// day, or nothing if the text was not understood.
    pub fn from_parsed(parsed: Option<(i32, u32, u32)>, text: &str) -> (r: Result<
        Date,
        DateError,
    >)
        ensures
            Self::is_iso_reading(
                match parsed {
                    Some(ymd) => Some((ymd.0 as int, ymd.1 as int, ymd.2 as int)),
                    None => None,
                },
                text@,
                r,
            ),
    {
        match parsed {
            Some((year, month, day)) => Self::new(year, month, day),
            None => Err(DateError::Unparseable(String::from_str(text))),
        }
    }

    /// Reads a date written as `YYYY-MM-DD`.
    pub fn try_from(date_str: String) -> (r: Result<Date, DateError>)
        ensures
            Self::is_iso_reading(parsed_ymd(date_str@, "%Y-%m-%d"@), date_str@, r),
    {
        let parsed = match parse_ymd(date_str.as_str(), "%Y-%m-%d") {
            Ok(ymd) => Some(ymd),
            Err(_) => None,
        };
        Self::from_parsed(parsed, date_str.as_str())
    }

    /// Whether this date lies before `other`.
    pub fn precedes(&self, other: &Date) -> (r: bool)
        ensures
            r == self.is_before(*other),
    {
        self.year < other.year || (self.year == other.year && (self.month < other.month || (
        self.month == other.month && self.day < other.day)))
    }

    /// The same day as a `chrono` date: the date that chrono makes of this
    /// date's year, month and day.
    pub fn naive_date(&self) -> (date: chrono::NaiveDate)
        ensures
            naive_date_of(self@.year, self@.month, self@.day) == Some(date),
    {
        proof {
            use_type_invariant(self);
        }
        chrono::NaiveDate::from_ymd_opt(self.year, self.month, self.day).unwrap()
    }

    /// A placeholder date, the first of June 2000.
    pub fn dummy() -> (date: Date)
        ensures
            date@ == (Ymd { year: 2000, month: 6, day: 1 }),
    {
        Date { year: 2000, month: 6, day: 1 }
    }

    /// The date as `YYYY-MM-DD`.
    pub fn to_string(&self) -> (s: String)
        ensures
            s@ == iso_date_text(self@.year, self@.month, self@.day),
    {
        proof {
            use_type_invariant(self);
        }
        iso_date_string(self.year, self.month, self.day)
    }
}

impl PartialOrd for Date {
    fn partial_cmp(&self, other: &Date) -> (r: Option<Ordering>) {
        if self.year < other.year {
            Some(Ordering::Less)
        } else if self.year > other.year {
            Some(Ordering::Greater)
        } else if self.month < other.month {
            Some(Ordering::Less)
        } else if self.month > other.month {
            Some(Ordering::Greater)
        } else if self.day < other.day {
            Some(Ordering::Less)
        } else if self.day > other.day {
            Some(Ordering::Greater)
        } else {
            Some(Ordering::Equal)
        }
    }
}

impl vstd::std_specs::cmp::PartialOrdSpecImpl for Date {
    open spec fn obeys_partial_cmp_spec() -> bool {
        true
    }

    open spec fn partial_cmp_spec(&self, other: &Date) -> Option<Ordering> {
        if ymd_before(
            self@.year,
            self@.month,
            self@.day,
            other@.year,
            other@.month,
            other@.day,
        ) {
            Some(Ordering::Less)
        } else if ymd_before(
            other@.year,
            other@.month,
            other@.day,
            self@.year,
            self@.month,
            self@.day,
        ) {
            Some(Ordering::Greater)
        } else {
            Some(Ordering::Equal)
        }
    }
}

/// A date is its year, month and day: dates that agree in them are the
/// same date.
pub proof fn lemma_date_is_its_view(a: Date, b: Date)
    requires
        a@ == b@,
    ensures
        a == b,
{
}

/// Being before is a strict order on dates: it passes along a chain of
/// dates none of which is before its predecessor, and two different dates
/// are never the same day.
pub proof fn lemma_before_is_strict_order(a: Date, b: Date, c: Date)
    ensures
        a.is_before(b) && !c.is_before(b) ==> a.is_before(c),
        !(a.is_before(b) && b.is_before(a)),
        !a.is_before(b) && !b.is_before(a) ==> a == b,
{
}

/// The order of dates is the order in time: a date compares as less than
/// another exactly when its day count is smaller, and as equal exactly when
/// the counts agree.
pub proof fn lemma_date_order_is_chronological(a: Date, b: Date)
    requires
        a.is_valid(),
        b.is_valid(),
    ensures
        a.partial_cmp_spec(&b) == Some(Ordering::Less) <==> a.day_number() < b.day_number(),
        a.partial_cmp_spec(&b) == Some(Ordering::Equal) <==> a.day_number() == b.day_number(),
        a.partial_cmp_spec(&b) == Some(Ordering::Greater) <==> a.day_number() > b.day_number(),
{
    lemma_day_number_orders(a@.year, a@.month, a@.day, b@.year, b@.month, b@.day);
    lemma_day_number_orders(b@.year, b@.month, b@.day, a@.year, a@.month, a@.day);
}

} // verus!
