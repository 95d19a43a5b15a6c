//! Reports on the capital gains of a financial year.

use crate::date::{financial_year_label, Date};
use crate::gains::{
    allocations_in, gains_by_stock_of, listed_gains, long_term_total, loss_total,
    short_term_total, summarize, summarize_by_stock, viewed, StockAllocation, StockGains,
};
use crate::ledger::Ledger;
use crate::models::{CapitalGainsSummary, SellAllocation};
use crate::text::{
    chars_of, decimal_digits, find_char, find_from, is_digit,
    lemma_decimal_digits_denote, lemma_decimal_text_is_read_back, lemma_find_passes_digits,
    parse_i32, read_i32,
};
use vstd::prelude::*;
use vstd::string::*;

verus! {

/// Why a report could not be made.
#[derive(Debug, Clone, PartialEq, Eq)]
pub enum ReportError {
    /// The text does not name a financial year.
    InvalidFinancialYear(String),
}

impl ReportError {
    /// The message of an error, as text.
    pub open spec fn message(&self) -> Seq<char> {
        match self {
            ReportError::InvalidFinancialYear(text) => "Invalid financial year format: "@ + text@,
        }
    }

    /// Renders the error for people.
    pub fn to_string(&self) -> (s: String)
        ensures
            s@ == self.message(),
    {
        match self {
            ReportError::InvalidFinancialYear(text) => {
                let mut s = String::from_str("Invalid financial year format: ");
                s.append(text.as_str());
                s
            },
        }
    }
}

/// The year in which the financial year named by `label` starts. A label is
/// two years with one hyphen between them, the second the year after the
/// first; anything else names no financial year.
pub open spec fn labelled_year(label: Seq<char>) -> Option<i32> {
    let hyphen = find_from(label, '-', 0);
    if hyphen < label.len() && find_from(label, '-', hyphen + 1) >= label.len() {
        let start = parse_i32(label.subrange(0, hyphen));
        let end = parse_i32(label.subrange(hyphen + 1, label.len() as int));
        if start.is_some() && end.is_some() && end.unwrap() == start.unwrap() + 1 {
            start
        } else {
            None
        }
    } else {
        None
    }
}

/// The label of a financial year that starts in a year of the common era
/// names that year.
pub proof fn lemma_label_names_its_year(year: i32)
    requires
        0 <= year < i32::MAX,
    ensures
        labelled_year(financial_year_label(year as int)) == Some(year),
{
    reveal_strlit("-");
    let first = decimal_digits(year as nat);
    let second = decimal_digits((year + 1) as nat);
    let label = financial_year_label(year as int);
    lemma_decimal_digits_denote(year as nat);
    lemma_decimal_digits_denote((year + 1) as nat);
    lemma_decimal_text_is_read_back(year as int);
    lemma_decimal_text_is_read_back(year + 1);
    assert("-"@ =~= seq!['-']);
    assert(label =~= first + seq!['-'] + second);
    let n = first.len() as int;
    assert forall|i: int| 0 <= i < n implies is_digit(#[trigger] label[i]) by {
        assert(label[i] == first[i]);
    }
    assert forall|i: int| n + 1 <= i < label.len() implies is_digit(#[trigger] label[i]) by {
        assert(label[i] == second[i - n - 1]);
    }
    assert(label[n] == '-');
    lemma_find_passes_digits(label, '-', 0, n);
    lemma_find_passes_digits(label, '-', n + 1, label.len() as int);
    assert(find_from(label, '-', 0) == n);
    assert(find_from(label, '-', n + 1) == label.len());
    assert(label.subrange(0, n) =~= first);
    assert(label.subrange(n + 1, label.len() as int) =~= second);
}

/// Reports made from the books.
pub struct ReportingService;

impl ReportingService {
    /// The text of the financial year that starts in `year`, such as
    /// `2023-2024`.
    pub fn format_financial_year(year: i32) -> (s: String)
        requires
            year < i32::MAX,
        ensures
            s@ == financial_year_label(year as int),
    {
        Date::format_fy(year)
    }

    /// Reads the text of a financial year and gives the years in which it
    /// starts and ends.
    pub fn parse_financial_year(fy: &str) -> (r: Result<(i32, i32), ReportError>)
        ensures
            match r {
                Ok(years) => labelled_year(fy@) == Some(years.0) && years.1 == years.0 + 1,
                Err(e) => {
                    &&& labelled_year(fy@).is_none()
                    &&& e matches ReportError::InvalidFinancialYear(text)
                    &&& text@ == fy@
                },
            },
    {
        let c = chars_of(fy);
        let n = c.len();
        let hyphen = find_char(&c, '-', 0);
        if hyphen >= n {
            return Err(ReportError::InvalidFinancialYear(String::from_str(fy)));
        }
        let next = find_char(&c, '-', hyphen + 1);
        if next < n {
            return Err(ReportError::InvalidFinancialYear(String::from_str(fy)));
        }
        match (read_i32(&c, 0, hyphen), read_i32(&c, hyphen + 1, n)) {
            (Some(start), Some(end)) => {
                if start < i32::MAX && end == start + 1 {
                    Ok((start, end))
                } else {
                    Err(ReportError::InvalidFinancialYear(String::from_str(fy)))
                }
            },
            _ => Err(ReportError::InvalidFinancialYear(String::from_str(fy))),
        }
    }

    /// The allocations of the rows, without the symbols.
    pub fn allocations_of_rows(rows: &Vec<StockAllocation>) -> (allocations: Vec<SellAllocation>)
        ensures
            allocations@ == allocations_in(viewed(rows@)),
    {
        let mut allocations: Vec<SellAllocation> = Vec::new();
        let mut i: usize = 0;
        while i < rows.len()
            invariant
                0 <= i <= rows.len(),
                allocations.len() == i,
                forall|k: int| 0 <= k < i ==> allocations[k] == rows[k].1,
            decreases rows.len() - i,
        {
            allocations.push(rows[i].1);
            i += 1;
        }
        proof {
            assert(allocations@ =~= allocations_in(viewed(rows@)));
        }
        allocations
    }

    /// The capital gains of the financial year that `fy` names: the
    /// allocations of the sales made in that year, added up.
    pub fn generate_capital_gains_summary(ledger: &Ledger, fy: &str) -> (r: Result<
        CapitalGainsSummary,
        ReportError,
    >)
        requires
            ledger@.is_sound(),
        ensures
            match labelled_year(fy@) {
                Some(year) => {
                    let allocations = allocations_in(ledger@.rows_in_year(year as int));
                    &&& r matches Ok(summary)
                    &&& summary.financial_year@ == fy@
                    &&& summary.short_term_gains == short_term_total(allocations)
                    &&& summary.long_term_gains == long_term_total(allocations)
                    &&& summary.capital_losses == loss_total(allocations)
                    &&& summary.is_consistent()
                },
                None => {
                    &&& r matches Err(ReportError::InvalidFinancialYear(text))
                    &&& text@ == fy@
                },
            },
    {
        let years = match Self::parse_financial_year(fy) {
            Ok(years) => years,
            Err(e) => {
                return Err(e);
            },
        };
        let rows = ledger.rows_in_financial_year(years.0);
        let allocations = Self::allocations_of_rows(&rows);
        Ok(summarize(String::from_str(fy), &allocations))
    }

    /// The capital gains of the financial year that `fy` names, stock by
    /// stock, with what is taxable of each.
    pub fn generate_capital_gains_by_stock(ledger: &Ledger, fy: &str) -> (r: Result<
        Vec<StockGains>,
        ReportError,
    >)
        requires
            ledger@.is_sound(),
        ensures
            match labelled_year(fy@) {
                Some(year) => {
                    &&& r matches Ok(gains)
                    &&& listed_gains(gains@) == gains_by_stock_of(
                        ledger@.rows_in_year(year as int),
                    )
                },
                None => {
                    &&& r matches Err(ReportError::InvalidFinancialYear(text))
                    &&& text@ == fy@
                },
            },
    {
        let years = match Self::parse_financial_year(fy) {
            Ok(years) => years,
            Err(e) => {
                return Err(e);
            },
        };
        let rows = ledger.rows_in_financial_year(years.0);
        Ok(summarize_by_stock(&rows))
    }
}

} // verus!
