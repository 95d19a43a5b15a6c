//! Monetary amounts as whole numbers of micro-units, and the one rounding
//! rule the crate uses: to the nearest micro-unit, halves upward.

use vstd::prelude::*;

verus! {

/// `n / d` rounded to the nearest integer, a half rounded towards positive
/// infinity: half of `d` is added before the division rounds down.
/// Meaningful for `d > 0`.
pub open spec fn round_div(n: int, d: int) -> int
    recommends
        d > 0,
{
    (n + d / 2) / d
}

/// Whether `v` micro-units can be held by a [`Money`].
pub open spec fn fits_money(v: int) -> bool {
    i64::MIN <= v <= i64::MAX
}

/// An amount of money in micro-units (millionths of the currency unit).
/// Negative amounts are losses or debits.
#[derive(Clone, Copy, Debug, PartialEq, Eq, Structural)]
pub struct Money {
    pub micros: i64,
}

impl View for Money {
    type V = int;

    open spec fn view(&self) -> int {
        self.micros as int
    }
}

/// A rounded quotient lies within half a unit of the exact one:
/// `2 * d * round_div(n, d)` differs from `2 * n` by at most `d`.
pub proof fn lemma_round_div_is_nearest(n: int, d: int)
    requires
        d > 0,
    ensures
        -d <= 2 * n - 2 * d * round_div(n, d) < d,
{
    let q = round_div(n, d);
    let h = d / 2;
    vstd::arithmetic::div_mod::lemma_fundamental_div_mod(n + h, d);
    vstd::arithmetic::div_mod::lemma_mod_bound(n + h, d);
    assert(2 * d * q == 2 * (d * ((n + h) / d))) by (nonlinear_arith)
        requires
            q == (n + h) / d,
    ;
}

/// The rounded quotient is the only integer within half a unit of the
/// exact one, the upper half excluded.
pub proof fn lemma_round_div_is_only(n: int, d: int, q: int)
    requires
        d > 0,
        -d <= 2 * n - 2 * d * q < d,
    ensures
        q == round_div(n, d),
{
    lemma_round_div_is_nearest(n, d);
    let r = round_div(n, d);
    assert(q == r) by (nonlinear_arith)
        requires
            d > 0,
            -d <= 2 * n - 2 * d * q < d,
            -d <= 2 * n - 2 * d * r < d,
    ;
}

/// A share `part / whole` of an amount, with `part <= whole`, is no larger in
/// magnitude than the amount and has its sign (or is zero).
pub proof fn lemma_round_div_share_bounded(amount: int, part: int, whole: int)
    requires
        0 <= part <= whole,
        whole > 0,
    ensures
        amount >= 0 ==> 0 <= round_div(amount * part, whole) <= amount,
        amount <= 0 ==> amount <= round_div(amount * part, whole) <= 0,
{
    let n = amount * part;
    let q = round_div(n, whole);
    lemma_round_div_is_nearest(n, whole);
    if amount >= 0 {
        assert(0 <= n <= amount * whole) by (nonlinear_arith)
            requires
                n == amount * part,
                0 <= part <= whole,
                amount >= 0,
        ;
        assert(0 <= q <= amount) by (nonlinear_arith)
            requires
                -whole <= 2 * n - 2 * whole * q < whole,
                0 <= n <= amount * whole,
                whole > 0,
        ;
    } else {
        assert(amount * whole <= n <= 0) by (nonlinear_arith)
            requires
                n == amount * part,
                0 <= part <= whole,
                amount <= 0,
        ;
        assert(amount <= q <= 0) by (nonlinear_arith)
            requires
                -whole <= 2 * n - 2 * whole * q < whole,
                amount * whole <= n <= 0,
                whole > 0,
        ;
    }
}

/// The numbers added up.
pub open spec fn sum_of(parts: Seq<int>) -> int
    decreases parts.len(),
{
    if parts.len() == 0 {
        0
    } else {
        sum_of(parts.drop_last()) + parts.last()
    }
}

/// The rounded shares `parts[i] / whole` of an amount, added up.
pub open spec fn sum_of_shares(amount: int, parts: Seq<int>, whole: int) -> int
    decreases parts.len(),
{
    if parts.len() == 0 {
        0
    } else {
        sum_of_shares(amount, parts.drop_last(), whole) + round_div(amount * parts.last(), whole)
    }
}

/// Rounding does not pile up: the rounded shares of an amount add up to the
/// exact share of their sum within half a unit for each share.
pub proof fn lemma_shares_add_up_nearly(amount: int, parts: Seq<int>, whole: int)
    requires
        whole > 0,
    ensures
        -(parts.len() * whole) <= 2 * (amount * sum_of(parts)) - 2 * (whole * sum_of_shares(
            amount,
            parts,
            whole,
        )) <= parts.len() * whole,
    decreases parts.len(),
{
    if parts.len() == 0 {
        assert(parts.len() * whole == 0) by (nonlinear_arith)
            requires
                parts.len() == 0,
        ;
        assert(amount * sum_of(parts) == 0) by (nonlinear_arith)
            requires
                sum_of(parts) == 0,
        ;
        assert(whole * sum_of_shares(amount, parts, whole) == 0) by (nonlinear_arith)
            requires
                sum_of_shares(amount, parts, whole) == 0,
        ;
    } else {
        let front = parts.drop_last();
        let last = parts.last();
        lemma_shares_add_up_nearly(amount, front, whole);
        lemma_round_div_is_nearest(amount * last, whole);
        let s = sum_of_shares(amount, front, whole);
        let q = round_div(amount * last, whole);
        let t = sum_of(front);
        assert(amount * (t + last) == amount * t + amount * last) by (nonlinear_arith);
        assert(whole * (s + q) == whole * s + whole * q) by (nonlinear_arith);
        assert(2 * whole * q == 2 * (whole * q)) by (nonlinear_arith);
        assert(parts.len() * whole == front.len() * whole + whole) by (nonlinear_arith)
            requires
                parts.len() == front.len() + 1,
        ;
    }
}

impl Money {
    /// The amount of `micros` micro-units.
    pub fn from_micros(micros: i64) -> (m: Money)
        ensures
            m@ == micros,
    {
        Money { micros }
    }

    /// The amount in micro-units.
    pub fn micros(&self) -> (v: i64)
        ensures
            v == self@,
    {
        self.micros
    }

    /// The share `part / whole` of this amount, rounded to the nearest
    /// micro-unit with halves upward.
    pub fn apportion(&self, part: u32, whole: u32) -> (share: Money)
        requires
            0 < whole,
            part <= whole,
        ensures
            share@ == round_div(self@ * part, whole as int),
    {
        let w: u128 = whole as u128;
        let half: u128 = w / 2;
        let ghost n: int = self@ * part;
        proof {
            lemma_round_div_share_bounded(self@, part as int, whole as int);
        }
        if self.micros >= 0 {
            let a: u128 = self.micros as u128;
            assert(a * part <= 0x8000_0000_0000_0000 * 0x1_0000_0000) by (nonlinear_arith)
                requires
                    a <= 0x8000_0000_0000_0000,
                    part <= 0x1_0000_0000,
            ;
            let m: u128 = a * (part as u128);
            let q: u128 = (m + half) / w;
            Money { micros: q as i64 }
        } else {
            let a: u128 = (-(self.micros as i128)) as u128;
            assert(a * part <= 0x8000_0000_0000_0000 * 0x1_0000_0000) by (nonlinear_arith)
                requires
                    a <= 0x8000_0000_0000_0000,
                    part <= 0x1_0000_0000,
            ;
            let m: u128 = a * (part as u128);
            assert(n == -(m as int)) by (nonlinear_arith)
                requires
                    n == self@ * part,
                    m == a * part,
                    a == -self@,
            ;
            if m <= half {
                assert(round_div(n, whole as int) == 0) by {
                    vstd::arithmetic::div_mod::lemma_fundamental_div_mod_converse_div(
                        n + half,
                        whole as int,
                        0,
                        half - m,
                    );
                }
                Money { micros: 0 }
            } else {
                let b: u128 = m - half;
                let c: u128 = (b + w - 1) / w;
                proof {
                    vstd::arithmetic::div_mod::lemma_fundamental_div_mod(
                        (b + w - 1) as int,
                        w as int,
                    );
                    vstd::arithmetic::div_mod::lemma_mod_pos_bound((b + w - 1) as int, w as int);
                    let r = (b + w - 1) as int % w as int;
                    assert(n + half == w * (-(c as int)) + (w - 1 - r)) by (nonlinear_arith)
                        requires
                            b + w - 1 == w * c + r,
                            b == m - half,
                            n == -(m as int),
                    ;
                    vstd::arithmetic::div_mod::lemma_fundamental_div_mod_converse_div(
                        n + half,
                        w as int,
                        -(c as int),
                        w - 1 - r,
                    );
                    assert(round_div(n, whole as int) == -(c as int));
                }
                let neg: i128 = -(c as i128);
                Money { micros: neg as i64 }
            }
        }
    }
}

} // verus!
