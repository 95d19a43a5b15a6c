//! Amounts of money as text.

use crate::money::{round_div, Money};
use crate::text::{decimal_digits, push_decimal_digits, push_two_digits, two_digits};
use vstd::prelude::*;
use vstd::string::*;

verus! {

/// The cents in an amount of `micros` micro-units, without its sign:
/// rounded to the nearest cent, a half away from zero.
pub open spec fn cents_of(micros: int) -> int {
    round_div(
        if micros < 0 {
            -micros
        } else {
            micros
        },
        10_000,
    )
}

/// An amount as text: a dollar sign, a minus sign before an amount below
/// zero, the whole dollars, a point, and the cents in two digits.
pub open spec fn currency_text(micros: int) -> Seq<char> {
    "$"@ + (if micros < 0 {
        "-"@
    } else {
        Seq::empty()
    }) + decimal_digits((cents_of(micros) / 100) as nat) + "."@ + two_digits(
        cents_of(micros) % 100,
    )
}

/// Text for transactions.
pub struct TransactionFormatter;

impl TransactionFormatter {
    /// The amount with a dollar sign and two decimal places.
    pub fn format_currency(value: Money) -> (s: String)
        ensures
            s@ == currency_text(value@),
    {
        let micros = value.micros();
        let magnitude: u64 = if micros < 0 {
            (-(micros as i128)) as u64
        } else {
            micros as u64
        };
        let cents: u64 = (magnitude / 10_000) + if magnitude % 10_000 >= 5_000 {
            1u64
        } else {
            0u64
        };
        assert(cents == cents_of(value@));
        let mut s = String::from_str("$");
        if micros < 0 {
            s.append("-");
        }
        let ghost head = s@;
        push_decimal_digits(&mut s, cents / 100);
        s.append(".");
        push_two_digits(&mut s, (cents % 100) as u8);
        proof {
            assert(head =~= "$"@ + (if micros < 0 {
                "-"@
            } else {
                Seq::empty()
            }));
        }
        s
    }
}

} // verus!
