//! Text as sequences of characters: decimal numbers read and written, and
//! fields found between separators.

use vstd::prelude::*;
use vstd::string::*;

verus! {

pub open spec fn is_digit(c: char) -> bool {
    '0' <= c <= '9'
}

pub open spec fn digit_value(c: char) -> int {
    c as int - '0' as int
}

/// The character for a single decimal digit `0 <= d <= 9`.
pub open spec fn digit_char(d: int) -> char {
    if d == 0 {
        '0'
    } else if d == 1 {
        '1'
    } else if d == 2 {
        '2'
    } else if d == 3 {
        '3'
    } else if d == 4 {
        '4'
    } else if d == 5 {
        '5'
    } else if d == 6 {
        '6'
    } else if d == 7 {
        '7'
    } else if d == 8 {
        '8'
    } else {
        '9'
    }
}

pub open spec fn all_digits(s: Seq<char>) -> bool {
    forall|i: int| 0 <= i < s.len() ==> is_digit(#[trigger] s[i])
}

/// The number a string of decimal digits denotes; the empty string denotes 0.
pub open spec fn digits_value(s: Seq<char>) -> nat
    decreases s.len(),
{
    if s.len() == 0 {
        0
    } else {
        (10 * digits_value(s.drop_last()) + digit_value(s.last())) as nat
    }
}

/// Reads a whole number: an optional `+`, then one or more decimal digits and
/// nothing else.
pub open spec fn parse_unsigned(s: Seq<char>) -> Option<nat> {
    let body = if s.len() > 0 && s[0] == '+' {
        s.subrange(1, s.len() as int)
    } else {
        s
    };
    if body.len() > 0 && all_digits(body) {
        Some(digits_value(body))
    } else {
        None
    }
}

/// Reads an integer: an optional `+` or `-`, then one or more decimal digits
/// and nothing else.
pub open spec fn parse_signed(s: Seq<char>) -> Option<int> {
    if s.len() > 0 && s[0] == '-' {
        let body = s.subrange(1, s.len() as int);
        if body.len() > 0 && all_digits(body) {
            Some(-(digits_value(body) as int))
        } else {
            None
        }
    } else {
        match parse_unsigned(s) {
            Some(v) => Some(v as int),
            None => None,
        }
    }
}

/// Reads a `u32`; text that denotes a larger number is refused.
pub open spec fn parse_u32(s: Seq<char>) -> Option<u32> {
    match parse_unsigned(s) {
        Some(v) => if v <= u32::MAX {
            Some(v as u32)
        } else {
            None
        },
        None => None,
    }
}

/// Reads an `i32`; text that denotes a number out of its range is refused.
pub open spec fn parse_i32(s: Seq<char>) -> Option<i32> {
    match parse_signed(s) {
        Some(v) => if i32::MIN <= v <= i32::MAX {
            Some(v as i32)
        } else {
            None
        },
        None => None,
    }
}

/// The decimal digits of `n`, without leading zeros.
pub open spec fn decimal_digits(n: nat) -> Seq<char>
    decreases n,
{
    if n < 10 {
        seq![digit_char(n as int)]
    } else {
        decimal_digits(n / 10).push(digit_char((n % 10) as int))
    }
}

/// Two decimal digits for `0 <= v <= 99`.
pub open spec fn two_digits(v: int) -> Seq<char> {
    seq![digit_char(v / 10), digit_char(v % 10)]
}

/// The decimal text of an integer: a `-` before the digits of a negative one.
pub open spec fn decimal_text(v: int) -> Seq<char> {
    if v < 0 {
        seq!['-'] + decimal_digits((-v) as nat)
    } else {
        decimal_digits(v as nat)
    }
}

/// The position of the first `c` in `s` at or after `from`, or the length of
/// `s` if there is none.
pub open spec fn find_from(s: Seq<char>, c: char, from: int) -> int
    decreases s.len() - from,
{
    if from >= s.len() {
        s.len() as int
    } else if from >= 0 && s[from] == c {
        from
    } else {
        find_from(s, c, from + 1)
    }
}

/// The characters of `s`, one element each.
pub fn chars_of(s: &str) -> (v: Vec<char>)
    ensures
        v@ == s@,
{
    let mut v: Vec<char> = Vec::new();
    for c in it: s.chars()
        invariant
            v@ == it.seq().take(it.index() as int),
            it.seq() == s@,
    {
        v.push(c);
    }
    v
}

/// Finds the first `c` among `chars[from..]`.
pub fn find_char(chars: &Vec<char>, c: char, from: usize) -> (at: usize)
    requires
        from <= chars.len(),
    ensures
        at == find_from(chars@, c, from as int),
        from <= at <= chars.len(),
        at < chars.len() ==> chars[at as int] == c,
        forall|i: int| from <= i < at ==> chars[i] != c,
{
    let mut i: usize = from;
    while i < chars.len() && chars[i] != c
        invariant
            from <= i <= chars.len(),
            find_from(chars@, c, from as int) == find_from(chars@, c, i as int),
            forall|j: int| from <= j < i ==> chars[j] != c,
        decreases chars.len() - i,
    {
        i += 1;
    }
    i
}

fn digit_of(c: char) -> (d: Option<u8>)
    ensures
        match d {
            Some(v) => is_digit(c) && v == digit_value(c),
            None => !is_digit(c),
        },
{
    if '0' <= c && c <= '9' {
        Some((c as u32 - '0' as u32) as u8)
    } else {
        None
    }
}

/// Reads the digits `chars[lo..hi]` as a number no larger than `limit`.
fn read_digits(chars: &Vec<char>, lo: usize, hi: usize, limit: u64) -> (r: Option<u64>)
    requires
        lo <= hi <= chars.len(),
        limit <= 1_000_000_000_000_000_000,
    ensures
        r == if lo < hi && all_digits(chars@.subrange(lo as int, hi as int)) && digits_value(
            chars@.subrange(lo as int, hi as int),
        ) <= limit {
            Some(digits_value(chars@.subrange(lo as int, hi as int)) as u64)
        } else {
            None
        },
{
    if lo == hi {
        return None;
    }
    let mut acc: u64 = 0;
    let mut over: bool = false;
    let mut i: usize = lo;
    while i < hi
        invariant
            lo <= i <= hi <= chars.len(),
            limit <= 1_000_000_000_000_000_000,
            all_digits(chars@.subrange(lo as int, i as int)),
            !over ==> acc == digits_value(chars@.subrange(lo as int, i as int)) && acc <= limit,
            over ==> digits_value(chars@.subrange(lo as int, i as int)) > limit,
        decreases hi - i,
    {
        let ghost before = chars@.subrange(lo as int, i as int);
        let ghost after = chars@.subrange(lo as int, i + 1);
        assert(after.drop_last() =~= before);
        assert(after.last() == chars[i as int]);
        match digit_of(chars[i]) {
            None => {
                assert(!all_digits(chars@.subrange(lo as int, hi as int))) by {
                    assert(chars@.subrange(lo as int, hi as int)[i - lo] == chars[i as int]);
                }
                return None;
            },
            Some(d) => {
                assert(all_digits(after)) by {
                    assert forall|j: int| 0 <= j < after.len() implies is_digit(
                        #[trigger] after[j],
                    ) by {
                        if j < before.len() {
                            assert(after[j] == before[j]);
                        }
                    }
                }
                if !over {
                    let next: u64 = acc * 10 + d as u64;
                    if next > limit {
                        over = true;
                    } else {
                        acc = next;
                    }
                }
            },
        }
        i += 1;
    }
    assert(chars@.subrange(lo as int, i as int) =~= chars@.subrange(lo as int, hi as int));
    if over {
        None
    } else {
        Some(acc)
    }
}

/// Reads `chars[lo..hi]` as a `u32`.
pub fn read_u32(chars: &Vec<char>, lo: usize, hi: usize) -> (r: Option<u32>)
    requires
        lo <= hi <= chars.len(),
    ensures
        r == parse_u32(chars@.subrange(lo as int, hi as int)),
{
    let ghost s = chars@.subrange(lo as int, hi as int);
    let start: usize = if lo < hi && chars[lo] == '+' {
        lo + 1
    } else {
        lo
    };
    assert(chars@.subrange(start as int, hi as int) =~= if s.len() > 0 && s[0] == '+' {
        s.subrange(1, s.len() as int)
    } else {
        s
    });
    match read_digits(chars, start, hi, u32::MAX as u64) {
        Some(v) => Some(v as u32),
        None => None,
    }
}

/// Reads `chars[lo..hi]` as an `i32`.
pub fn read_i32(chars: &Vec<char>, lo: usize, hi: usize) -> (r: Option<i32>)
    requires
        lo <= hi <= chars.len(),
    ensures
        r == parse_i32(chars@.subrange(lo as int, hi as int)),
{
    let ghost s = chars@.subrange(lo as int, hi as int);
    if lo < hi && chars[lo] == '-' {
        assert(chars@.subrange(lo + 1, hi as int) =~= s.subrange(1, s.len() as int));
        match read_digits(chars, lo + 1, hi, i32::MAX as u64 + 1) {
            Some(v) => Some((-(v as i64)) as i32),
            None => None,
        }
    } else {
        let start: usize = if lo < hi && chars[lo] == '+' {
            lo + 1
        } else {
            lo
        };
        assert(chars@.subrange(start as int, hi as int) =~= if s.len() > 0 && s[0] == '+' {
            s.subrange(1, s.len() as int)
        } else {
            s
        });
        match read_digits(chars, start, hi, i32::MAX as u64) {
            Some(v) => Some(v as i32),
            None => None,
        }
    }
}

/// The one-character text of a decimal digit.
fn digit_str(d: u8) -> (s: &'static str)
    requires
        d <= 9,
    ensures
        s@ == seq![digit_char(d as int)],
{
    proof {
        reveal_strlit("0");
        reveal_strlit("1");
        reveal_strlit("2");
        reveal_strlit("3");
        reveal_strlit("4");
        reveal_strlit("5");
        reveal_strlit("6");
        reveal_strlit("7");
        reveal_strlit("8");
        reveal_strlit("9");
    }
    let s = if d == 0 {
        "0"
    } else if d == 1 {
        "1"
    } else if d == 2 {
        "2"
    } else if d == 3 {
        "3"
    } else if d == 4 {
        "4"
    } else if d == 5 {
        "5"
    } else if d == 6 {
        "6"
    } else if d == 7 {
        "7"
    } else if d == 8 {
        "8"
    } else {
        "9"
    };
    assert(s@ =~= seq![digit_char(d as int)]);
    s
}

/// Appends the decimal digits of `n` to `out`.
pub fn push_decimal_digits(out: &mut String, n: u64)
    ensures
        final(out)@ == old(out)@ + decimal_digits(n as nat),
    decreases n,
{
    if n >= 10 {
        push_decimal_digits(out, n / 10);
    }
    out.append(digit_str((n % 10) as u8));
    proof {
        if n >= 10 {
            assert(final(out)@ =~= old(out)@ + decimal_digits(n as nat));
        } else {
            assert(final(out)@ =~= old(out)@ + decimal_digits(n as nat));
        }
    }
}

/// Appends the two decimal digits of `v` to `out`.
pub fn push_two_digits(out: &mut String, v: u8)
    requires
        v <= 99,
    ensures
        final(out)@ == old(out)@ + two_digits(v as int),
{
    out.append(digit_str(v / 10));
    out.append(digit_str(v % 10));
    assert(final(out)@ =~= old(out)@ + two_digits(v as int));
}

/// Appends the decimal text of `v` to `out`.
pub fn push_decimal(out: &mut String, v: i64)
    ensures
        final(out)@ == old(out)@ + decimal_text(v as int),
{
    if v < 0 {
        proof {
            reveal_strlit("-");
        }
        out.append("-");
        let ghost mid = out@;
        let m: u64 = (-(v as i128)) as u64;
        push_decimal_digits(out, m);
        assert(final(out)@ =~= old(out)@ + decimal_text(v as int)) by {
            assert(mid =~= old(out)@ + seq!['-']);
        }
    } else {
        push_decimal_digits(out, v as u64);
    }
}

/// Whether `c` is white space, as Unicode has it.
pub open spec fn is_space(c: char) -> bool {
    ||| '\u{9}' <= c <= '\u{d}'
    ||| c == ' '
    ||| c == '\u{85}'
    ||| c == '\u{a0}'
    ||| c == '\u{1680}'
    ||| '\u{2000}' <= c <= '\u{200a}'
    ||| c == '\u{2028}'
    ||| c == '\u{2029}'
    ||| c == '\u{202f}'
    ||| c == '\u{205f}'
    ||| c == '\u{3000}'
}

/// Where the text without leading white space starts, looking from `from`.
pub open spec fn trim_start_at(s: Seq<char>, from: int) -> int
    decreases s.len() - from,
{
    if from < 0 || from >= s.len() || !is_space(s[from]) {
        from
    } else {
        trim_start_at(s, from + 1)
    }
}

/// Where the text without trailing white space ends, looking back from
/// `to` and no further than `from`.
pub open spec fn trim_end_at(s: Seq<char>, from: int, to: int) -> int
    decreases to - from,
{
    if to <= from || to > s.len() || !is_space(s[to - 1]) {
        to
    } else {
        trim_end_at(s, from, to - 1)
    }
}

/// The text without the white space at its start and its end.
pub open spec fn trimmed(s: Seq<char>) -> Seq<char> {
    let start = trim_start_at(s, 0);
    if start >= s.len() {
        Seq::empty()
    } else {
        s.subrange(start, trim_end_at(s, start, s.len() as int))
    }
}

/// The text without any `c`.
pub open spec fn without(s: Seq<char>, c: char) -> Seq<char>
    decreases s.len(),
{
    if s.len() == 0 {
        s
    } else if s.last() == c {
        without(s.drop_last(), c)
    } else {
        without(s.drop_last(), c).push(s.last())
    }
}

fn is_space_char(c: char) -> (r: bool)
    ensures
        r == is_space(c),
{
    ('\u{9}' <= c && c <= '\u{d}') || c == ' ' || c == '\u{85}' || c == '\u{a0}' || c
        == '\u{1680}' || ('\u{2000}' <= c && c <= '\u{200a}') || c == '\u{2028}' || c
        == '\u{2029}' || c == '\u{202f}' || c == '\u{205f}' || c == '\u{3000}'
}

/// The characters of `chars` without the white space at the start and the
/// end.
pub fn trim(chars: &Vec<char>) -> (t: Vec<char>)
    ensures
        t@ == trimmed(chars@),
{
    let n = chars.len();
    let mut start: usize = 0;
    while start < n && is_space_char(chars[start])
        invariant
            0 <= start <= n,
            n == chars.len(),
            trim_start_at(chars@, 0) == trim_start_at(chars@, start as int),
        decreases n - start,
    {
        start += 1;
    }
    let mut t: Vec<char> = Vec::new();
    if start >= n {
        return t;
    }
    let mut end: usize = n;
    while end > start && is_space_char(chars[end - 1])
        invariant
            start <= end <= n,
            n == chars.len(),
            trim_end_at(chars@, start as int, n as int) == trim_end_at(
                chars@,
                start as int,
                end as int,
            ),
        decreases end - start,
    {
        end -= 1;
    }
    let mut i: usize = start;
    while i < end
        invariant
            start <= i <= end <= n,
            n == chars.len(),
            t@ == chars@.subrange(start as int, i as int),
        decreases end - i,
    {
        t.push(chars[i]);
        assert(t@ =~= chars@.subrange(start as int, i + 1));
        i += 1;
    }
    t
}

/// The characters of `chars` other than `c`, in their order.
pub fn remove_char(chars: &Vec<char>, c: char) -> (t: Vec<char>)
    ensures
        t@ == without(chars@, c),
{
    let mut t: Vec<char> = Vec::new();
    let mut i: usize = 0;
    while i < chars.len()
        invariant
            0 <= i <= chars.len(),
            t@ == without(chars@.take(i as int), c),
        decreases chars.len() - i,
    {
        proof {
            assert(chars@.take(i + 1).drop_last() =~= chars@.take(i as int));
        }
        if chars[i] != c {
            t.push(chars[i]);
        }
        i += 1;
    }
    proof {
        assert(chars@.take(i as int) =~= chars@);
    }
    t
}

/// The string of the characters.
pub fn string_of(chars: &Vec<char>) -> (s: String)
    ensures
        s@ == chars@,
{
    let mut s = String::new();
    let mut i: usize = 0;
    while i < chars.len()
        invariant
            0 <= i <= chars.len(),
            s@ == chars@.take(i as int),
        decreases chars.len() - i,
    {
        s.push(chars[i]);
        assert(s@ =~= chars@.take(i + 1));
        i += 1;
    }
    proof {
        assert(chars@.take(i as int) =~= chars@);
    }
    s
}

/// Ten to the power of `k`.
pub open spec fn pow10(k: nat) -> nat
    decreases k,
{
    if k == 0 {
        1
    } else {
        10 * pow10((k - 1) as nat)
    }
}

/// The millionths that the digits behind a decimal point denote, rounded to
/// the nearest millionth, a half upward: the first six digits count, and
/// the seventh rounds.
pub open spec fn fraction_micros(fraction: Seq<char>) -> int {
    let kept = if fraction.len() > 6 {
        fraction.subrange(0, 6)
    } else {
        fraction
    };
    digits_value(kept) * pow10((6 - kept.len()) as nat) + if fraction.len() > 6 && digit_value(
        fraction[6],
    ) >= 5 {
        1int
    } else {
        0int
    }
}

/// Reads a decimal number without sign as a number of millionths:
/// digits, and optionally a point and more digits; there must be a digit
/// before or behind the point. What lies beyond the sixth digit behind the
/// point is rounded to the nearest millionth, a half upward.
pub open spec fn unsigned_micros(body: Seq<char>) -> Option<int> {
    let point = find_from(body, '.', 0);
    let whole = body.subrange(0, point);
    let fraction = if point < body.len() {
        body.subrange(point + 1, body.len() as int)
    } else {
        Seq::empty()
    };
    if whole.len() + fraction.len() > 0 && all_digits(whole) && all_digits(fraction) {
        Some(digits_value(whole) * 1_000_000 + fraction_micros(fraction))
    } else {
        None
    }
}

/// Reads a decimal number as a number of millionths: an optional sign, then
/// a number as [`unsigned_micros`] reads it.
pub open spec fn parse_micros(s: Seq<char>) -> Option<int> {
    if s.len() > 0 && s[0] == '-' {
        match unsigned_micros(s.subrange(1, s.len() as int)) {
            Some(v) => Some(-v),
            None => None,
        }
    } else if s.len() > 0 && s[0] == '+' {
        unsigned_micros(s.subrange(1, s.len() as int))
    } else {
        unsigned_micros(s)
    }
}

/// Whether `chars[lo..hi]` are all digits.
fn all_digits_in(chars: &Vec<char>, lo: usize, hi: usize) -> (r: bool)
    requires
        lo <= hi <= chars.len(),
    ensures
        r == all_digits(chars@.subrange(lo as int, hi as int)),
{
    let mut i: usize = lo;
    while i < hi
        invariant
            lo <= i <= hi <= chars.len(),
            forall|j: int| lo <= j < i ==> is_digit(#[trigger] chars[j]),
        decreases hi - i,
    {
        if digit_of(chars[i]).is_none() {
            assert(chars@.subrange(lo as int, hi as int)[i - lo] == chars[i as int]);
            return false;
        }
        i += 1;
    }
    assert forall|j: int| 0 <= j < hi - lo implies is_digit(
        #[trigger] chars@.subrange(lo as int, hi as int)[j],
    ) by {
        assert(chars@.subrange(lo as int, hi as int)[j] == chars[lo + j]);
    }
    true
}

/// The value of a string of up to six digits is below ten to the power of
/// its length.
proof fn lemma_digits_value_bound(s: Seq<char>)
    requires
        all_digits(s),
    ensures
        digits_value(s) < pow10(s.len()),
    decreases s.len(),
{
    if s.len() > 0 {
        assert forall|j: int| 0 <= j < s.drop_last().len() implies is_digit(
            #[trigger] s.drop_last()[j],
        ) by {
            assert(s.drop_last()[j] == s[j]);
        }
        lemma_digits_value_bound(s.drop_last());
        assert(is_digit(s[s.len() - 1]));
    }
}

/// Reads `chars[lo..hi]`, which are digits, as the millionths behind a
/// decimal point.
fn read_fraction(chars: &Vec<char>, lo: usize, hi: usize) -> (part: u64)
    requires
        lo <= hi <= chars.len(),
        all_digits(chars@.subrange(lo as int, hi as int)),
    ensures
        part == fraction_micros(chars@.subrange(lo as int, hi as int)),
        part <= 1_000_000,
{
    let ghost fraction = chars@.subrange(lo as int, hi as int);
    let kept_end: usize = if hi - lo > 6 {
        lo + 6
    } else {
        hi
    };
    let ghost kept = chars@.subrange(lo as int, kept_end as int);
    proof {
        assert(kept =~= if fraction.len() > 6 {
            fraction.subrange(0, 6)
        } else {
            fraction
        });
        assert forall|j: int| 0 <= j < kept.len() implies is_digit(#[trigger] kept[j]) by {
            assert(kept[j] == fraction[j]);
        }
        lemma_digits_value_bound(kept);
        reveal_with_fuel(pow10, 8);
    }
    let kept_value: u64 = if kept_end == lo {
        0
    } else {
        match read_digits(chars, lo, kept_end, 999_999) {
            Some(v) => v,
            None => 0,
        }
    };
    let kept_len = kept_end - lo;
    assert(kept_value < pow10(kept.len()));
    let scaled: u64 = if kept_len == 0 {
        0
    } else if kept_len == 1 {
        kept_value * 100_000
    } else if kept_len == 2 {
        kept_value * 10_000
    } else if kept_len == 3 {
        kept_value * 1_000
    } else if kept_len == 4 {
        kept_value * 100
    } else if kept_len == 5 {
        kept_value * 10
    } else {
        kept_value
    };
    assert(scaled == digits_value(kept) * pow10((6 - kept.len()) as nat) && scaled <= 999_999);
    let round_up: u64 = if hi - lo > 6 {
        assert(fraction[6] == chars[lo + 6]);
        match digit_of(chars[lo + 6]) {
            Some(d) => if d >= 5 {
                1
            } else {
                0
            },
            None => 0,
        }
    } else {
        0
    };
    scaled + round_up
}

/// Reads `chars[lo..hi]` as a decimal number of millionths without sign.
/// Numbers above two to the power of 63 are not given.
fn read_unsigned_micros(chars: &Vec<char>, lo: usize, hi: usize) -> (r: Option<u64>)
    requires
        lo <= hi <= chars.len(),
    ensures
        r == match unsigned_micros(chars@.subrange(lo as int, hi as int)) {
            Some(v) => if v <= 0x8000_0000_0000_0000 {
                Some(v as u64)
            } else {
                None
            },
            None => None,
        },
{
    let ghost body = chars@.subrange(lo as int, hi as int);
    let found = find_char(chars, '.', lo);
    let point: usize = if found < hi {
        found
    } else {
        hi
    };
    proof {
        lemma_find_in_part(chars@, '.', lo as int, hi as int, lo as int);
    }
    let fraction_start: usize = if point < hi {
        point + 1
    } else {
        hi
    };
    let ghost whole = body.subrange(0, point - lo);
    let ghost fraction = if point < hi {
        body.subrange(point - lo + 1, body.len() as int)
    } else {
        Seq::empty()
    };
    proof {
        assert(whole =~= chars@.subrange(lo as int, point as int));
        assert(fraction =~= chars@.subrange(fraction_start as int, hi as int));
    }
    if point == lo && fraction_start == hi {
        return None;
    }
    if !all_digits_in(chars, lo, point) || !all_digits_in(chars, fraction_start, hi) {
        return None;
    }
    let part = read_fraction(chars, fraction_start, hi);
    let whole_value: u64 = if point == lo {
        0
    } else {
        match read_digits(chars, lo, point, 9_223_372_036_854) {
            Some(v) => v,
            None => {
                proof {
                    assert(digits_value(whole) * 1_000_000 > 9_223_372_036_854 * 1_000_000)
                        by (nonlinear_arith)
                        requires
                            digits_value(whole) > 9_223_372_036_854,
                    ;
                }
                return None;
            },
        }
    };
    assert(whole_value * 1_000_000 <= 9_223_372_036_854 * 1_000_000) by (nonlinear_arith)
        requires
            whole_value <= 9_223_372_036_854,
    ;
    let micros: u64 = whole_value * 1_000_000 + part;
    if micros > 0x8000_0000_0000_0000 {
        None
    } else {
        Some(micros)
    }
}

/// Reads `chars` as a decimal number of millionths that an `i64` holds.
pub fn read_micros(chars: &Vec<char>) -> (r: Option<i64>)
    ensures
        r == match parse_micros(chars@) {
            Some(v) => if i64::MIN <= v <= i64::MAX {
                Some(v as i64)
            } else {
                None
            },
            None => None,
        },
{
    let n = chars.len();
    if n > 0 && chars[0] == '-' {
        match read_unsigned_micros(chars, 1, n) {
            Some(v) => Some((-(v as i128)) as i64),
            None => None,
        }
    } else if n > 0 && chars[0] == '+' {
        match read_unsigned_micros(chars, 1, n) {
            Some(v) => if v <= 0x7fff_ffff_ffff_ffff {
                Some(v as i64)
            } else {
                None
            },
            None => None,
        }
    } else {
        assert(chars@.subrange(0, n as int) =~= chars@);
        match read_unsigned_micros(chars, 0, n) {
            Some(v) => if v <= 0x7fff_ffff_ffff_ffff {
                Some(v as i64)
            } else {
                None
            },
            None => None,
        }
    }
}

/// Looking for a character in a part of a text finds the place where it
/// stands in the whole text, if that lies in the part, and otherwise the
/// end of the part.
pub proof fn lemma_find_in_part(s: Seq<char>, c: char, start: int, end: int, from: int)
    requires
        0 <= start <= from <= end <= s.len(),
    ensures
        find_from(s.subrange(start, end), c, from - start) == if find_from(s, c, from) < end {
            find_from(s, c, from) - start
        } else {
            end - start
        },
    decreases end - from,
{
    let part = s.subrange(start, end);
    if from < end {
        assert(part[from - start] == s[from]);
        if s[from] != c {
            lemma_find_in_part(s, c, start, end, from + 1);
        }
    } else {
        lemma_find_is_not_before(s, c, from);
    }
}

/// What is found from `from` on does not lie before `from`.
pub proof fn lemma_find_is_not_before(s: Seq<char>, c: char, from: int)
    requires
        0 <= from <= s.len(),
    ensures
        from <= find_from(s, c, from) <= s.len(),
    decreases s.len() - from,
{
    if from < s.len() && s[from] != c {
        lemma_find_is_not_before(s, c, from + 1);
    }
}

/// The decimal digits of a number are digits, at least one, and denote the
/// number.
pub proof fn lemma_decimal_digits_denote(n: nat)
    ensures
        decimal_digits(n).len() >= 1,
        all_digits(decimal_digits(n)),
        digits_value(decimal_digits(n)) == n,
    decreases n,
{
    if n < 10 {
        let s = decimal_digits(n);
        assert(s =~= seq![digit_char(n as int)]);
        assert(s.drop_last() =~= Seq::<char>::empty());
        assert(digits_value(s.drop_last()) == 0);
        assert(s.last() == digit_char(n as int));
    } else {
        lemma_decimal_digits_denote(n / 10);
        let front = decimal_digits(n / 10);
        let s = decimal_digits(n);
        assert(s =~= front.push(digit_char((n % 10) as int)));
        assert(s.drop_last() =~= front);
        assert(s.last() == digit_char((n % 10) as int));
        assert forall|i: int| 0 <= i < s.len() implies is_digit(#[trigger] s[i]) by {
            if i < front.len() {
                assert(s[i] == front[i]);
            }
        }
    }
}

/// What is written as the decimal text of an `i32` is read back as that
/// number.
pub proof fn lemma_decimal_text_is_read_back(v: int)
    requires
        i32::MIN <= v <= i32::MAX,
    ensures
        parse_i32(decimal_text(v)) == Some(v as i32),
{
    if v < 0 {
        let digits = decimal_digits((-v) as nat);
        lemma_decimal_digits_denote((-v) as nat);
        let text = decimal_text(v);
        assert(text =~= seq!['-'] + digits);
        assert(text[0] == '-');
        assert(text.subrange(1, text.len() as int) =~= digits);
    } else {
        let digits = decimal_digits(v as nat);
        lemma_decimal_digits_denote(v as nat);
        assert(is_digit(digits[0]));
    }
}

/// A character that is no digit does not stand among digits.
pub proof fn lemma_find_passes_digits(s: Seq<char>, c: char, from: int, to: int)
    requires
        0 <= from <= to <= s.len(),
        !is_digit(c),
        forall|i: int| from <= i < to ==> is_digit(#[trigger] s[i]),
    ensures
        find_from(s, c, from) == find_from(s, c, to),
    decreases to - from,
{
    if from < to {
        lemma_find_passes_digits(s, c, from + 1, to);
    }
}

} // verus!
