//! The numbers written in a chart.
//!
//! A *decimal* is an optional sign, digits, and optionally a point with
//! digits behind it; at least one digit must be there, before the point or
//! behind it. What stands before the point must be less than a thousand
//! million. The value is counted in millionths: the first six digits behind
//! the point count, the digits after them are dropped.
//!
//! A *whole number* is an optional sign and at least one digit, and its value
//! must fit in an `i32`.

use vstd::prelude::*;
use vstd::slice::slice_subrange;
use crate::text::{split, split_on, views, DOT};

verus! {

/// `+`.
pub const PLUS: u8 = 0x2b;

/// `-`.
pub const MINUS: u8 = 0x2d;

/// The greatest value before the point of a decimal.
pub const WHOLE_MOST: u64 = 999_999_999;

/// The digits behind the point of a decimal that count.
pub const FRACTION_DIGITS: usize = 6;

/// `b` is one of `0` to `9`.
pub open spec fn is_digit(b: u8) -> bool {
    0x30 <= b <= 0x39
}

/// Every byte of `s` is a digit.
pub open spec fn all_digits(s: Seq<u8>) -> bool {
    forall|i: int| 0 <= i < s.len() ==> is_digit(#[trigger] s[i])
}

/// The number that the digits `s` write in base ten; 0 for no digits.
pub open spec fn digits_value(s: Seq<u8>) -> nat
    decreases s.len(),
{
    if s.len() == 0 {
        0
    } else {
        digits_value(s.drop_last()) * 10 + (s.last() as int - 0x30) as nat
    }
}

/// Ten to the power `n`.
pub open spec fn pow10(n: nat) -> nat
    decreases n,
{
    if n == 0 {
        1
    } else {
        10 * pow10((n - 1) as nat)
    }
}

/// `s` starts with a minus sign.
pub open spec fn is_negative(s: Seq<u8>) -> bool {
    s.len() > 0 && s[0] == MINUS
}

/// `s` without its sign, if it starts with one.
pub open spec fn unsigned_part(s: Seq<u8>) -> Seq<u8> {
    if s.len() > 0 && (s[0] == PLUS || s[0] == MINUS) {
        s.skip(1)
    } else {
        s
    }
}

/// The digits before the point of the unsigned decimal `body`.
pub open spec fn whole_part(body: Seq<u8>) -> Seq<u8> {
    split_on(body, DOT)[0]
}

/// The digits behind the point of the unsigned decimal `body`; none where it
/// has no point.
pub open spec fn fraction_part(body: Seq<u8>) -> Seq<u8> {
    if split_on(body, DOT).len() >= 2 {
        split_on(body, DOT)[1]
    } else {
        Seq::empty()
    }
}

/// The digits of `fraction` that count: the first six.
pub open spec fn counted(fraction: Seq<u8>) -> Seq<u8> {
    if fraction.len() > 6 {
        fraction.take(6)
    } else {
        fraction
    }
}

/// The millionths that the digits `fraction` behind a point are worth.
pub open spec fn fraction_micros(fraction: Seq<u8>) -> nat {
    digits_value(counted(fraction)) * pow10((6 - counted(fraction).len()) as nat)
}

/// `s` is a decimal.
pub open spec fn is_decimal(s: Seq<u8>) -> bool {
    let body = unsigned_part(s);
    let whole = whole_part(body);
    let fraction = fraction_part(body);
    &&& split_on(body, DOT).len() <= 2
    &&& all_digits(whole)
    &&& all_digits(fraction)
    &&& whole.len() + fraction.len() >= 1
    &&& digits_value(whole) <= 999_999_999
}

/// The value of the decimal `s` in millionths, `None` where `s` is no
/// decimal.
pub open spec fn decimal_micros(s: Seq<u8>) -> Option<int> {
    if is_decimal(s) {
        let body = unsigned_part(s);
        let magnitude = digits_value(whole_part(body)) * 1_000_000 + fraction_micros(
            fraction_part(body),
        );
        Some(
            if is_negative(s) {
                -magnitude
            } else {
                magnitude as int
            },
        )
    } else {
        None
    }
}

/// The value of the whole number `s`, `None` where `s` is none or its value
/// does not fit in an `i32`.
pub open spec fn int_value(s: Seq<u8>) -> Option<int> {
    let body = unsigned_part(s);
    let value = if is_negative(s) {
        -digits_value(body)
    } else {
        digits_value(body) as int
    };
    if body.len() >= 1 && all_digits(body) && i32::MIN <= value <= i32::MAX {
        Some(value)
    } else {
        None
    }
}

/// The first powers of ten.
pub proof fn lemma_pow10_values()
    ensures
        pow10(0) == 1,
        pow10(1) == 10,
        pow10(2) == 100,
        pow10(3) == 1_000,
        pow10(4) == 10_000,
        pow10(5) == 100_000,
        pow10(6) == 1_000_000,
{
    reveal_with_fuel(pow10, 7);
}

/// `n` digits write a number below ten to the `n`.
pub proof fn lemma_digits_bound(s: Seq<u8>)
    requires
        all_digits(s),
    ensures
        digits_value(s) < pow10(s.len()),
    decreases s.len(),
{
    if s.len() > 0 {
        lemma_digits_bound(s.drop_last());
        assert(is_digit(s[s.len() - 1]));
    }
}

/// What stands behind the point is worth less than one.
pub proof fn lemma_fraction_bound(fraction: Seq<u8>)
    requires
        all_digits(fraction),
    ensures
        fraction_micros(fraction) < 1_000_000,
{
    let digits = counted(fraction);
    lemma_pow10_values();
    lemma_digits_bound(digits);
    let value = digits_value(digits);
    let below = pow10(digits.len());
    let scale = pow10((6 - digits.len()) as nat);
    assert(scale * below == 1_000_000 && scale > 0) by {
        let n = digits.len();
        assert(n == 0 || n == 1 || n == 2 || n == 3 || n == 4 || n == 5 || n == 6);
    }
    assert(value * scale < 1_000_000) by (nonlinear_arith)
        requires
            value < below,
            scale * below == 1_000_000,
            scale > 0,
    ;
}

/// No digits behind the point are worth nothing.
pub proof fn lemma_no_fraction()
    ensures
        fraction_micros(Seq::empty()) == 0,
{
    let none = Seq::<u8>::empty();
    let value = digits_value(counted(none));
    let scale = pow10((6 - counted(none).len()) as nat);
    assert(value * scale == 0) by (nonlinear_arith)
        requires
            value == 0,
    ;
}

/// A decimal is less than a thousand million in size: its value in
/// millionths lies strictly between minus and plus ten to the fifteen.
pub proof fn lemma_decimal_bound(s: Seq<u8>)
    requires
        is_decimal(s),
    ensures
        -1_000_000_000_000_000 < decimal_micros(s).unwrap() < 1_000_000_000_000_000,
{
    lemma_fraction_bound(fraction_part(unsigned_part(s)));
}

/// Tells whether `b` is a digit.
pub fn digit(b: u8) -> (r: bool)
    ensures
        r == is_digit(b),
{
    0x30 <= b && b <= 0x39
}

/// Tells whether `s` holds digits only.
pub fn only_digits(s: &[u8]) -> (r: bool)
    ensures
        r == all_digits(s@),
{
    let mut i: usize = 0;
    while i < s.len()
        invariant
            i <= s.len(),
            forall|j: int| 0 <= j < i ==> is_digit(#[trigger] s@[j]),
        decreases s.len() - i,
    {
        if !digit(s[i]) {
            assert(!is_digit(s@[i as int]));
            return false;
        }
        i += 1;
    }
    true
}

/// Reads `s` as a run of digits whose value is at most `most`.
pub fn read_digits(s: &[u8], most: u64) -> (r: Option<u64>)
    requires
        most <= 1_000_000_000_000_000_000,
    ensures
        r is Some <==> all_digits(s@) && digits_value(s@) <= most,
        r is Some ==> r.unwrap() == digits_value(s@),
{
    let mut value: u64 = 0;
    let mut over: bool = false;
    let mut i: usize = 0;
    while i < s.len()
        invariant
            i <= s.len(),
            most <= 1_000_000_000_000_000_000,
            all_digits(s@.take(i as int)),
            !over ==> value == digits_value(s@.take(i as int)) && value <= most,
            over ==> digits_value(s@.take(i as int)) > most,
        decreases s.len() - i,
    {
        if !digit(s[i]) {
            assert(!is_digit(s@[i as int]));
            return None;
        }
        proof {
            let now = s@.take(i + 1);
            assert(now.drop_last() == s@.take(i as int));
            assert(now.last() == s@[i as int]);
            assert forall|j: int| 0 <= j < now.len() implies is_digit(#[trigger] now[j]) by {
                if j < i {
                    assert(now[j] == s@.take(i as int)[j]);
                }
            }
        }
        if !over {
            value = value * 10 + (s[i] - 0x30) as u64;
            if value > most {
                over = true;
            }
        }
        i += 1;
    }
    assert(s@.take(i as int) == s@);
    if over {
        None
    } else {
        Some(value)
    }
}

/// The factor that turns `len` digits behind the point into millionths.
fn fraction_scale(len: usize) -> (scale: u64)
    requires
        len <= 6,
    ensures
        scale == pow10((6 - len) as nat),
{
    proof {
        lemma_pow10_values();
    }
    if len == 0 {
        1_000_000
    } else if len == 1 {
        100_000
    } else if len == 2 {
        10_000
    } else if len == 3 {
        1_000
    } else if len == 4 {
        100
    } else if len == 5 {
        10
    } else {
        1
    }
}

/// Reads what stands behind the point of a decimal and returns what it is
/// worth in millionths.
pub fn read_fraction(fraction: &[u8]) -> (r: Option<u64>)
    ensures
        r is Some <==> all_digits(fraction@),
        r is Some ==> r.unwrap() == fraction_micros(fraction@) && r.unwrap() < 1_000_000,
{
    if !only_digits(fraction) {
        return None;
    }
    let len: usize = if fraction.len() > FRACTION_DIGITS {
        FRACTION_DIGITS
    } else {
        fraction.len()
    };
    let digits: &[u8] = slice_subrange(fraction, 0, len);
    proof {
        assert(digits@ == counted(fraction@));
        assert forall|j: int| 0 <= j < digits@.len() implies is_digit(#[trigger] digits@[j]) by {
            assert(digits@[j] == fraction@[j]);
        }
        lemma_pow10_values();
        lemma_digits_bound(digits@);
        lemma_fraction_bound(fraction@);
    }
    match read_digits(digits, 999_999) {
        Some(value) => Some(value * fraction_scale(len)),
        None => None,
    }
}

/// Reads `s` as a decimal and returns its value in millionths.
pub fn parse_decimal(s: &[u8]) -> (r: Option<i64>)
    ensures
        r is Some <==> is_decimal(s@),
        r is Some ==> Some(r.unwrap() as int) == decimal_micros(s@),
{
    let n: usize = s.len();
    let signed: bool = n > 0 && (s[0] == PLUS || s[0] == MINUS);
    let negative: bool = n > 0 && s[0] == MINUS;
    let body: &[u8] = if signed {
        slice_subrange(s, 1, n)
    } else {
        s
    };
    assert(body@ == unsigned_part(s@));
    let parts: Vec<Vec<u8>> = split(body, DOT);
    assert(views(parts@)[0] == parts@[0]@);
    if parts.len() > 2 {
        return None;
    }
    let whole: Option<u64> = read_digits(parts[0].as_slice(), WHOLE_MOST);
    let mut fraction: Option<u64> = Some(0);
    let mut fraction_len: usize = 0;
    if parts.len() == 2 {
        assert(views(parts@)[1] == parts@[1]@);
        fraction = read_fraction(parts[1].as_slice());
        fraction_len = parts[1].len();
    } else {
        proof {
            lemma_no_fraction();
        }
    }
    match (whole, fraction) {
        (Some(w), Some(f)) => {
            if parts[0].len() == 0 && fraction_len == 0 {
                return None;
            }
            let magnitude: i64 = (w * 1_000_000 + f) as i64;
            if negative {
                Some(-magnitude)
            } else {
                Some(magnitude)
            }
        },
        _ => None,
    }
}

/// Reads `s` as a whole number.
pub fn parse_int(s: &[u8]) -> (r: Option<i32>)
    ensures
        r is Some <==> int_value(s@) is Some,
        r is Some ==> Some(r.unwrap() as int) == int_value(s@),
{
    let n: usize = s.len();
    let signed: bool = n > 0 && (s[0] == PLUS || s[0] == MINUS);
    let negative: bool = n > 0 && s[0] == MINUS;
    let body: &[u8] = if signed {
        slice_subrange(s, 1, n)
    } else {
        s
    };
    assert(body@ == unsigned_part(s@));
    if body.len() == 0 {
        return None;
    }
    match read_digits(body, 2_147_483_648) {
        Some(value) => {
            if negative {
                Some((-(value as i64)) as i32)
            } else if value <= 2_147_483_647 {
                Some(value as i32)
            } else {
                None
            }
        },
        None => None,
    }
}

} // verus!
