//! Reading a temperature from the decimal text of a number.
//!
//! The text is an optional `-`, one or more digits, an optional fraction
//! (`.` and one or more digits) and an optional exponent (`e` or `E`, an
//! optional sign, one or more digits). Its value is rounded to the nearest
//! millidegree, ties to even.

use vstd::prelude::*;
use vstd::string::StringSliceAdditionalSpecFns;
use crate::temperature::Temperature;
use crate::temperature::round_div;
use crate::temperature::lemma_round_div_nearest;
use crate::temperature::lemma_round_div_parts;

verus! {

/// The largest magnitude that a temperature can have, the one of the
/// lowest: two to the power of 63.
pub const LIMIT: u128 = 9_223_372_036_854_775_808;

/// The value at which an exponent is capped while it is read: ten to the
/// power of 30, far beyond the length of any text.
pub const EXPONENT_CAP: u128 = 1_000_000_000_000_000_000_000_000_000_000;

/// The byte `-`.
pub const MINUS: u8 = 45;

/// The byte `+`.
pub const PLUS: u8 = 43;

/// The byte `.`.
pub const POINT: u8 = 46;

/// The byte `e`.
pub const LOWER_E: u8 = 101;

/// The byte `E`.
pub const UPPER_E: u8 = 69;

/// The byte `0`.
pub const ZERO: u8 = 48;

/// The byte `5`.
pub const FIVE: u8 = 53;

/// The byte `9`.
pub const NINE: u8 = 57;

/// Ten to the power of `n`.
pub open spec fn pow10(n: nat) -> nat
    decreases n,
{
    if n == 0 {
        1
    } else {
        10 * pow10((n - 1) as nat)
    }
}

/// Whether `b` is an ASCII digit.
pub open spec fn is_digit(b: u8) -> bool {
    ZERO <= b <= NINE
}

/// Whether `s` holds ASCII digits only.
pub open spec fn all_digits(s: Seq<u8>) -> bool {
    forall|i: int| 0 <= i < s.len() ==> is_digit(#[trigger] s[i])
}

/// The number that the digits `s` write in base ten.
pub open spec fn digits_value(s: Seq<u8>) -> nat
    decreases s.len(),
{
    if s.len() == 0 {
        0
    } else {
        digits_value(s.drop_last()) * 10 + (s.last() - ZERO) as nat
    }
}

/// `n` times ten to the power of `shift`, rounded to the nearest integer
/// (ties to even) where the power is negative.
pub open spec fn scaled(n: nat, shift: int) -> int {
    if shift >= 0 {
        (n * pow10(shift as nat)) as int
    } else {
        round_div(n as int, pow10((-shift) as nat) as int)
    }
}

/// The index of the first byte at or after `from` that is no digit.
pub open spec fn digits_end(s: Seq<u8>, from: int) -> int
    decreases s.len() - from,
{
    if 0 <= from < s.len() && is_digit(s[from]) {
        digits_end(s, from + 1)
    } else {
        from
    }
}

/// A decimal number as its text writes it: the number that `digits`
/// write, times ten to the power of `exponent`, negated where `negative`.
pub struct Decimal {
    pub negative: bool,
    pub digits: Seq<u8>,
    pub exponent: int,
}

/// The number that a decimal text writes, or `None` where the text is no
/// decimal number.
pub open spec fn decimal_shape(s: Seq<u8>) -> Option<Decimal> {
    let start: int = if s.len() > 0 && s[0] == MINUS {
        1
    } else {
        0
    };
    let int_end = digits_end(s, start);
    let has_fraction = int_end < s.len() && s[int_end] == POINT;
    let frac_start = if has_fraction {
        int_end + 1
    } else {
        int_end
    };
    let frac_end = if has_fraction {
        digits_end(s, frac_start)
    } else {
        int_end
    };
    let has_exponent = frac_end < s.len() && (s[frac_end] == LOWER_E || s[frac_end] == UPPER_E);
    let sign_at = frac_end + 1;
    let has_sign = has_exponent && sign_at < s.len() && (s[sign_at] == PLUS || s[sign_at] == MINUS);
    let exp_start = if !has_exponent {
        frac_end
    } else if has_sign {
        sign_at + 1
    } else {
        sign_at
    };
    let exp_end = if has_exponent {
        digits_end(s, exp_start)
    } else {
        frac_end
    };
    if int_end == start || (has_fraction && frac_end == frac_start) || (has_exponent && exp_end
        == exp_start) || exp_end != s.len() {
        None
    } else {
        let e = digits_value(s.subrange(exp_start, exp_end)) as int;
        Some(
            Decimal {
                negative: start == 1,
                digits: s.subrange(start, int_end) + s.subrange(frac_start, frac_end),
                exponent: (if has_sign && s[sign_at] == MINUS {
                    -e
                } else {
                    e
                }) - (frac_end - frac_start),
            },
        )
    }
}

/// The magnitude of a decimal number in millidegrees, rounded to the
/// nearest one, ties to even.
pub open spec fn decimal_magnitude(d: Decimal) -> int {
    scaled(digits_value(d.digits), d.exponent + 3)
}

/// The temperature of `magnitude` millidegrees, below zero where
/// `negative`; `None` where it is beyond 64 bits.
pub open spec fn signed_temperature(negative: bool, magnitude: int) -> Option<Temperature> {
    let m = if negative {
        -magnitude
    } else {
        magnitude
    };
    if i64::MIN <= m <= i64::MAX {
        Some(Temperature { millidegrees: m as i64 })
    } else {
        None
    }
}

/// The temperature that a decimal text of degrees Celsius writes: `None`
/// where the text is no decimal number, or its value in millidegrees is
/// beyond 64 bits.
pub open spec fn temperature_of_decimal(s: Seq<u8>) -> Option<Temperature> {
    match decimal_shape(s) {
        None => None,
        Some(d) => signed_temperature(d.negative, decimal_magnitude(d)),
    }
}

/// Every power of ten is at least one.
proof fn lemma_pow10_positive(n: nat)
    ensures
        pow10(n) >= 1,
    decreases n,
{
    if n > 0 {
        lemma_pow10_positive((n - 1) as nat);
    }
}

/// A higher power of ten is no less.
proof fn lemma_pow10_increases(a: nat, b: nat)
    requires
        a <= b,
    ensures
        pow10(a) <= pow10(b),
    decreases b,
{
    if a < b {
        lemma_pow10_increases(a, (b - 1) as nat);
    }
}

/// Ten to the nineteenth is beyond every 64-bit temperature.
proof fn lemma_pow10_19()
    ensures
        pow10(19) == 10_000_000_000_000_000_000,
{
    reveal_with_fuel(pow10, 20);
}

/// Digits write a number below ten to the power of their count.
proof fn lemma_digits_value_bound(s: Seq<u8>)
    requires
        all_digits(s),
    ensures
        digits_value(s) < pow10(s.len()),
    decreases s.len(),
{
    if s.len() > 0 {
        assert(all_digits(s.drop_last())) by {
            assert forall|i: int| 0 <= i < s.drop_last().len() implies is_digit(
                #[trigger] s.drop_last()[i],
            ) by {
                assert(s.drop_last()[i] == s[i]);
            }
        }
        lemma_digits_value_bound(s.drop_last());
        assert(is_digit(s[s.len() - 1]));
    }
}

/// The value of digits written one after the other.
proof fn lemma_digits_value_concat(a: Seq<u8>, b: Seq<u8>)
    ensures
        digits_value(a + b) == digits_value(a) * pow10(b.len()) + digits_value(b),
    decreases b.len(),
{
    if b.len() == 0 {
        assert(a + b =~= a);
        assert(digits_value(a) * 1 == digits_value(a)) by (nonlinear_arith);
    } else {
        assert((a + b).drop_last() =~= a + b.drop_last());
        assert((a + b).last() == b.last());
        lemma_digits_value_concat(a, b.drop_last());
        let p = pow10((b.len() - 1) as nat);
        assert((digits_value(a) * p + digits_value(b.drop_last())) * 10 == digits_value(a) * (10
            * p) + digits_value(b.drop_last()) * 10) by (nonlinear_arith);
    }
}

/// Digits write zero exactly when each of them is `0`.
proof fn lemma_digits_value_zero(s: Seq<u8>)
    requires
        all_digits(s),
    ensures
        digits_value(s) == 0 <==> forall|i: int| 0 <= i < s.len() ==> #[trigger] s[i] == ZERO,
    decreases s.len(),
{
    if s.len() > 0 {
        let rest = s.drop_last();
        assert(all_digits(rest)) by {
            assert forall|i: int| 0 <= i < rest.len() implies is_digit(#[trigger] rest[i]) by {
                assert(rest[i] == s[i]);
            }
        }
        lemma_digits_value_zero(rest);
        assert(is_digit(s[s.len() - 1]));
        if digits_value(s) == 0 {
            assert forall|i: int| 0 <= i < s.len() implies #[trigger] s[i] == ZERO by {
                if i < s.len() - 1 {
                    assert(rest[i] == s[i]);
                }
            }
        }
        if forall|i: int| 0 <= i < s.len() ==> #[trigger] s[i] == ZERO {
            assert forall|i: int| 0 <= i < rest.len() implies #[trigger] rest[i] == ZERO by {
                assert(rest[i] == s[i]);
            }
            assert(s[s.len() - 1] == ZERO);
        }
    }
}

/// Scaling zero gives zero.
proof fn lemma_scaled_zero(shift: int)
    ensures
        scaled(0, shift) == 0,
{
    if shift >= 0 {
        assert(0 * pow10(shift as nat) == 0) by (nonlinear_arith);
    } else {
        let p = pow10((-shift) as nat);
        lemma_pow10_positive((-shift) as nat);
        lemma_round_div_parts(0, p as int, 0, 0);
    }
}

/// A number that is not zero, times ten to the nineteenth or more, is
/// beyond every 64-bit temperature.
proof fn lemma_scaled_large(n: nat, shift: int)
    requires
        n >= 1,
        shift >= 19,
    ensures
        scaled(n, shift) >= 10_000_000_000_000_000_000,
{
    lemma_pow10_19();
    lemma_pow10_increases(19, shift as nat);
    assert(n * pow10(shift as nat) >= pow10(shift as nat)) by (nonlinear_arith)
        requires
            n >= 1,
    ;
}

/// A number of `len` digits, divided by ten to a power beyond `len`,
/// rounds to zero.
proof fn lemma_scaled_small(n: nat, len: nat, shift: int)
    requires
        n < pow10(len),
        -shift > len,
    ensures
        scaled(n, shift) == 0,
{
    let m = (-shift) as nat;
    lemma_pow10_increases(len + 1, m);
    assert(pow10(len + 1) == 10 * pow10(len));
    lemma_round_div_parts(n as int, pow10(m) as int, 0, n as int);
}

/// One more ten multiplies the scaled number by ten.
proof fn lemma_scaled_up_step(n: nat, shift: nat)
    ensures
        scaled(n, (shift + 1) as int) == 10 * scaled(n, shift as int),
{
    assert(n * (10 * pow10(shift)) == 10 * (n * pow10(shift))) by (nonlinear_arith);
}

/// Scaling up by more tens gives no less.
proof fn lemma_scaled_up_increases(n: nat, a: nat, b: nat)
    requires
        a <= b,
    ensures
        scaled(n, a as int) <= scaled(n, b as int),
{
    lemma_pow10_increases(a, b);
    assert(n * pow10(a) <= n * pow10(b)) by (nonlinear_arith)
        requires
            pow10(a) <= pow10(b),
    ;
}

/// A longer run of digits writes no less than its start.
proof fn lemma_prefix_value(s: Seq<u8>, k: int)
    requires
        0 <= k <= s.len(),
    ensures
        digits_value(s.take(k)) <= digits_value(s),
        digits_value(s) == digits_value(s.take(k)) * pow10((s.len() - k) as nat) + digits_value(
            s.skip(k),
        ),
{
    assert(s =~= s.take(k) + s.skip(k));
    lemma_digits_value_concat(s.take(k), s.skip(k));
    lemma_pow10_positive((s.len() - k) as nat);
    assert(digits_value(s.take(k)) * pow10((s.len() - k) as nat) >= digits_value(s.take(k)))
        by (nonlinear_arith)
        requires
            pow10((s.len() - k) as nat) >= 1,
    ;
}

/// Rounding away `m` digits, decided by the first of them, by whether
/// anything but zeros follows it, and by the parity of what is kept.
proof fn lemma_round_by_digit(d: nat, q: nat, f: nat, t: nat, m: nat)
    requires
        m >= 1,
        f <= 9,
        t < pow10((m - 1) as nat),
        d == q * pow10(m) + f * pow10((m - 1) as nat) + t,
    ensures
        scaled(d, -(m as int)) == if f > 5 || (f == 5 && (t > 0 || q % 2 == 1)) {
            q + 1
        } else {
            q
        },
{
    let p = pow10((m - 1) as nat);
    let r = f * p + t;
    lemma_pow10_positive((m - 1) as nat);
    assert(pow10(m) == 10 * p);
    assert(r < 10 * p) by (nonlinear_arith)
        requires
            r == f * p + t,
            f <= 9,
            t < p,
    ;
    lemma_round_div_parts(d as int, pow10(m) as int, q as int, r as int);
    if f >= 6 {
        assert(2 * r > 10 * p) by (nonlinear_arith)
            requires
                r == f * p + t,
                f >= 6,
                p >= 1,
        ;
    } else if f <= 4 {
        assert(2 * r < 10 * p) by (nonlinear_arith)
            requires
                r == f * p + t,
                f <= 4,
                t < p,
        ;
    } else {
        assert(2 * r == 10 * p + 2 * t) by (nonlinear_arith)
            requires
                r == f * p + t,
                f == 5,
        ;
    }
}

/// Finds where the digits that start at `from` end.
fn scan_digits(s: &[u8], from: usize) -> (end: usize)
    requires
        from <= s@.len(),
    ensures
        end == digits_end(s@, from as int),
        from <= end <= s@.len(),
        all_digits(s@.subrange(from as int, end as int)),
{
    let mut i: usize = from;
    while i < s.len() && s[i] >= ZERO && s[i] <= NINE
        invariant
            from <= i <= s@.len(),
            digits_end(s@, from as int) == digits_end(s@, i as int),
            forall|j: int| from <= j < i ==> is_digit(#[trigger] s@[j]),
        decreases s.len() - i,
    {
        i += 1;
    }
    assert(all_digits(s@.subrange(from as int, i as int))) by {
        assert forall|j: int| 0 <= j < i - from implies is_digit(
            #[trigger] s@.subrange(from as int, i as int)[j],
        ) by {
            assert(is_digit(s@[from + j]));
        }
    }
    i
}

/// The number that the first `upto` digits write, unless it is beyond
/// `LIMIT`.
fn bounded_value(digits: &[u8], upto: usize) -> (value: Option<u128>)
    requires
        upto <= digits@.len(),
        all_digits(digits@),
    ensures
        match value {
            Some(v) => v == digits_value(digits@.take(upto as int)) && v <= LIMIT,
            None => digits_value(digits@.take(upto as int)) > LIMIT,
        },
{
    let mut acc: u128 = 0;
    let mut i: usize = 0;
    while i < upto
        invariant
            i <= upto <= digits@.len(),
            all_digits(digits@),
            acc == digits_value(digits@.take(i as int)),
            acc <= LIMIT,
        decreases upto - i,
    {
        proof {
            assert(digits@.take(i + 1).drop_last() =~= digits@.take(i as int));
            assert(digits@.take(i + 1).last() == digits@[i as int]);
            assert(is_digit(digits@[i as int]));
        }
        acc = acc * 10 + (digits[i] - ZERO) as u128;
        i += 1;
        if acc > LIMIT {
            proof {
                let whole = digits@.take(upto as int);
                assert(whole.take(i as int) =~= digits@.take(i as int));
                lemma_prefix_value(whole, i as int);
            }
            return None;
        }
    }
    Some(acc)
}

/// The number that the digits from `from` to `to` write, or
/// `EXPONENT_CAP` where it is more.
fn capped_value(s: &[u8], from: usize, to: usize) -> (value: u128)
    requires
        from <= to <= s@.len(),
        all_digits(s@.subrange(from as int, to as int)),
    ensures
        value <= EXPONENT_CAP,
        value < EXPONENT_CAP ==> value == digits_value(s@.subrange(from as int, to as int)),
        value == EXPONENT_CAP ==> digits_value(s@.subrange(from as int, to as int))
            >= EXPONENT_CAP,
{
    let mut acc: u128 = 0;
    let mut i: usize = from;
    while i < to
        invariant
            from <= i <= to <= s@.len(),
            all_digits(s@.subrange(from as int, to as int)),
            acc <= EXPONENT_CAP,
            acc < EXPONENT_CAP ==> acc == digits_value(s@.subrange(from as int, i as int)),
            acc == EXPONENT_CAP ==> digits_value(s@.subrange(from as int, i as int))
                >= EXPONENT_CAP,
        decreases to - i,
    {
        proof {
            let next = s@.subrange(from as int, i + 1);
            assert(next.drop_last() =~= s@.subrange(from as int, i as int));
            assert(next.last() == s@[i as int]);
            assert(s@.subrange(from as int, to as int)[i - from] == s@[i as int]);
            assert(is_digit(s@[i as int]));
        }
        acc = acc * 10 + (s[i] - ZERO) as u128;
        if acc > EXPONENT_CAP {
            acc = EXPONENT_CAP;
        }
        i += 1;
    }
    acc
}

/// Whether the digits from `from` on are all `0`.
fn zeros_from(digits: &[u8], from: usize) -> (zeros: bool)
    requires
        from <= digits@.len(),
        all_digits(digits@),
    ensures
        zeros == (digits_value(digits@.skip(from as int)) == 0),
{
    let ghost tail = digits@.skip(from as int);
    proof {
        lemma_all_digits_skip(digits@, from as int);
    }
    let mut i: usize = from;
    while i < digits.len()
        invariant
            from <= i <= digits@.len(),
            tail == digits@.skip(from as int),
            all_digits(tail),
            forall|j: int| 0 <= j < i - from ==> #[trigger] tail[j] == ZERO,
        decreases digits.len() - i,
    {
        proof {
            assert(tail[i - from] == digits@[i as int]);
        }
        if digits[i] != ZERO {
            proof {
                lemma_digits_value_zero(tail);
            }
            return false;
        }
        i += 1;
    }
    proof {
        lemma_digits_value_zero(tail);
    }
    true
}

/// The digits after the first `k` are digits too.
proof fn lemma_all_digits_skip(s: Seq<u8>, k: int)
    requires
        all_digits(s),
        0 <= k <= s.len(),
    ensures
        all_digits(s.skip(k)),
{
    assert forall|j: int| 0 <= j < s.skip(k).len() implies is_digit(#[trigger] s.skip(k)[j]) by {
        assert(s.skip(k)[j] == s[k + j]);
    }
}

/// One digit writes itself.
proof fn lemma_digit_value(x: u8)
    requires
        is_digit(x),
    ensures
        digits_value(seq![x]) == (x - ZERO) as nat,
{
    let s = seq![x];
    assert(s.drop_last() =~= Seq::<u8>::empty());
    assert(digits_value(Seq::<u8>::empty()) == 0);
    assert(s.last() == x);
}

/// Rounding away the digits from the `k`-th on: decided by that digit, by
/// whether anything but zeros follows it, and by the parity of what the
/// digits before it write.
proof fn lemma_round_at(digits: Seq<u8>, k: int)
    requires
        all_digits(digits),
        0 <= k < digits.len(),
    ensures
        ({
            let q = digits_value(digits.take(k));
            let f = digits[k];
            let t = digits_value(digits.skip(k + 1));
            scaled(digits_value(digits), k - digits.len()) == if f > FIVE || (f == FIVE && (t > 0 || q
                % 2 == 1)) {
                q + 1
            } else {
                q
            }
        }),
{
    let m = (digits.len() - k) as nat;
    let q = digits_value(digits.take(k));
    let tail = digits.skip(k);
    let x = digits[k];
    let f = (x - ZERO) as nat;
    let t = digits_value(digits.skip(k + 1));
    let p = pow10((m - 1) as nat);
    lemma_prefix_value(digits, k);
    assert(tail =~= seq![x] + digits.skip(k + 1));
    lemma_digits_value_concat(seq![x], digits.skip(k + 1));
    assert(is_digit(x));
    lemma_digit_value(x);
    lemma_all_digits_skip(digits, k + 1);
    lemma_digits_value_bound(digits.skip(k + 1));
    assert(digits.skip(k + 1).len() == m - 1);
    assert(digits_value(tail) == f * p + t);
    lemma_round_by_digit(digits_value(digits), q, f, t, m);
}

/// The number that `digits` write, times ten to the power of `shift`,
/// unless it is beyond `LIMIT`.
fn scale_up(digits: &[u8], shift: i128) -> (magnitude: Option<u128>)
    requires
        all_digits(digits@),
        0 <= shift,
    ensures
        match magnitude {
            Some(v) => v == scaled(digits_value(digits@), shift as int) && v <= LIMIT,
            None => scaled(digits_value(digits@), shift as int) > LIMIT,
        },
{
    let n = digits.len();
    let ghost dv = digits_value(digits@);
    proof {
        assert(digits@.take(n as int) =~= digits@);
        assert(dv * 1 == dv) by (nonlinear_arith);
        assert(scaled(dv, 0) == dv);
    }
    match bounded_value(digits, n) {
        None => {
            proof {
                lemma_scaled_up_increases(dv, 0, shift as nat);
            }
            None
        },
        Some(d) => {
            if d == 0 {
                proof {
                    lemma_scaled_zero(shift as int);
                }
                Some(0)
            } else if shift >= 19 {
                proof {
                    lemma_scaled_large(dv, shift as int);
                }
                None
            } else {
                let mut acc: u128 = d;
                let mut j: i128 = 0;
                while j < shift
                    invariant
                        0 <= j <= shift < 19,
                        dv == digits_value(digits@),
                        acc == scaled(dv, j as int),
                        acc <= LIMIT,
                    decreases shift - j,
                {
                    proof {
                        lemma_scaled_up_step(dv, j as nat);
                        lemma_scaled_up_increases(dv, (j + 1) as nat, shift as nat);
                    }
                    acc = acc * 10;
                    j += 1;
                    if acc > LIMIT {
                        return None;
                    }
                }
                Some(acc)
            }
        },
    }
}

/// The number that `digits` write, divided by ten to the power of `m`
/// and rounded (ties to even), unless it is beyond `LIMIT`.
fn scale_down(digits: &[u8], m: i128) -> (magnitude: Option<u128>)
    requires
        all_digits(digits@),
        0 < m,
    ensures
        match magnitude {
            Some(v) => v == scaled(digits_value(digits@), -(m as int)) && v <= LIMIT,
            None => scaled(digits_value(digits@), -(m as int)) > LIMIT,
        },
{
    let n = digits.len();
    proof {
        lemma_digits_value_bound(digits@);
    }
    if m > n as i128 {
        proof {
            lemma_scaled_small(digits_value(digits@), n as nat, -(m as int));
        }
        Some(0)
    } else {
        let k: usize = n - (m as usize);
        proof {
            lemma_round_at(digits@, k as int);
        }
        match bounded_value(digits, k) {
            None => None,
            Some(q) => {
                let first = digits[k];
                let up = if first > FIVE {
                    true
                } else if first < FIVE {
                    false
                } else if !zeros_from(digits, k + 1) {
                    true
                } else {
                    q % 2 == 1
                };
                let v: u128 = if up {
                    q + 1
                } else {
                    q
                };
                if v > LIMIT {
                    None
                } else {
                    Some(v)
                }
            },
        }
    }
}

/// Copies the digits before and after the point into one run.
fn gather_digits(s: &[u8], a: usize, b: usize, c: usize, d: usize) -> (digits: Vec<u8>)
    requires
        a <= b <= s@.len(),
        c <= d <= s@.len(),
    ensures
        digits@ == s@.subrange(a as int, b as int) + s@.subrange(c as int, d as int),
{
    let mut digits: Vec<u8> = Vec::new();
    let mut i: usize = a;
    while i < b
        invariant
            a <= i <= b <= s@.len(),
            digits@ == s@.subrange(a as int, i as int),
        decreases b - i,
    {
        digits.push(s[i]);
        i += 1;
        assert(digits@ =~= s@.subrange(a as int, i as int));
    }
    let mut j: usize = c;
    assert(digits@ =~= s@.subrange(a as int, b as int) + s@.subrange(c as int, j as int));
    while j < d
        invariant
            c <= j <= d <= s@.len(),
            a <= b <= s@.len(),
            digits@ == s@.subrange(a as int, b as int) + s@.subrange(c as int, j as int),
        decreases d - j,
    {
        digits.push(s[j]);
        j += 1;
        assert(digits@ =~= s@.subrange(a as int, b as int) + s@.subrange(c as int, j as int));
    }
    digits
}

/// Digits written one after the other are digits.
proof fn lemma_all_digits_concat(a: Seq<u8>, b: Seq<u8>)
    requires
        all_digits(a),
        all_digits(b),
    ensures
        all_digits(a + b),
{
    assert forall|i: int| 0 <= i < (a + b).len() implies is_digit(#[trigger] (a + b)[i]) by {
        if i < a.len() {
            assert((a + b)[i] == a[i]);
        } else {
            assert((a + b)[i] == b[i - a.len()]);
        }
    }
}

/// An exponent at or beyond the cap decides the scaled value by its sign
/// alone: zero for zero digits or a negative exponent, beyond `LIMIT`
/// otherwise.
proof fn lemma_capped_shift(n: nat, len: nat, capped: int, exact: int)
    requires
        n < pow10(len),
        len < EXPONENT_CAP - 0x2_0000_0000_0000_0000,
        (capped >= EXPONENT_CAP - 0x2_0000_0000_0000_0000 && exact >= capped) || (capped
            <= 0x2_0000_0000_0000_0000 - EXPONENT_CAP && exact <= capped),
    ensures
        scaled(n, capped) <= LIMIT ==> scaled(n, exact) == scaled(n, capped),
        scaled(n, capped) > LIMIT ==> scaled(n, exact) > LIMIT,
{
    if capped > 0 {
        if n == 0 {
            lemma_scaled_zero(capped);
            lemma_scaled_zero(exact);
        } else {
            lemma_scaled_large(n, capped);
            lemma_scaled_large(n, exact);
        }
    } else {
        lemma_scaled_small(n, len, capped);
        lemma_scaled_small(n, len, exact);
    }
}

/// A temperature that is read is within half a millidegree of what the
/// text writes.
pub proof fn lemma_decimal_is_nearest(d: Decimal)
    requires
        d.exponent + 3 < 0,
    ensures
        ({
            let unit = pow10((-(d.exponent + 3)) as nat) as int;
            let written = digits_value(d.digits) as int;
            unit >= 1 && -unit <= 2 * (decimal_magnitude(d) * unit - written) <= unit
        }),
{
    lemma_pow10_positive((-(d.exponent + 3)) as nat);
    lemma_round_div_nearest(
        digits_value(d.digits) as int,
        pow10((-(d.exponent + 3)) as nat) as int,
    );
}

/// Where the parts of a decimal text begin and end.
struct Parts {
    negative: bool,
    int_start: usize,
    int_end: usize,
    frac_start: usize,
    frac_end: usize,
    exponent_negative: bool,
    exp_start: usize,
    exp_end: usize,
}

impl Parts {
    /// Whether the parts lie in `s`, one after the other, and hold digits.
    spec fn fits(self, s: Seq<u8>) -> bool {
        &&& self.int_start <= self.int_end <= self.frac_start <= self.frac_end <= self.exp_start
            <= self.exp_end <= s.len()
        &&& all_digits(s.subrange(self.int_start as int, self.int_end as int))
        &&& all_digits(s.subrange(self.frac_start as int, self.frac_end as int))
        &&& all_digits(s.subrange(self.exp_start as int, self.exp_end as int))
    }

    /// The digits before and after the point.
    spec fn digits(self, s: Seq<u8>) -> Seq<u8> {
        s.subrange(self.int_start as int, self.int_end as int) + s.subrange(
            self.frac_start as int,
            self.frac_end as int,
        )
    }

    /// The exponent as it is written.
    spec fn written_exponent(self, s: Seq<u8>) -> int {
        let e = digits_value(s.subrange(self.exp_start as int, self.exp_end as int)) as int;
        if self.exponent_negative {
            -e
        } else {
            e
        }
    }

    /// The number that the parts write.
    spec fn decimal(self, s: Seq<u8>) -> Decimal {
        Decimal {
            negative: self.negative,
            digits: self.digits(s),
            exponent: self.written_exponent(s) - (self.frac_end - self.frac_start),
        }
    }
}

/// Finds the parts of a decimal text; `None` where the text is no decimal
/// number.
#[verifier::rlimit(50)]
fn read_parts(s: &[u8]) -> (parts: Option<Parts>)
    ensures
        match parts {
            Some(p) => p.fits(s@) && decimal_shape(s@) == Some(p.decimal(s@)),
            None => decimal_shape(s@) is None,
        },
{
    let len = s.len();
    let start: usize = if len > 0 && s[0] == MINUS {
        1
    } else {
        0
    };
    let int_end = scan_digits(s, start);
    if int_end == start {
        return None;
    }
    let has_fraction = int_end < len && s[int_end] == POINT;
    let frac_start = if has_fraction {
        int_end + 1
    } else {
        int_end
    };
    let frac_end = if has_fraction {
        scan_digits(s, frac_start)
    } else {
        int_end
    };
    if has_fraction && frac_end == frac_start {
        return None;
    }
    proof {
        if !has_fraction {
            assert(s@.subrange(frac_start as int, frac_end as int) =~= Seq::<u8>::empty());
        }
    }
    let has_exponent = frac_end < len && (s[frac_end] == LOWER_E || s[frac_end] == UPPER_E);
    if !has_exponent {
        if frac_end != len {
            return None;
        }
        proof {
            assert(s@.subrange(frac_end as int, frac_end as int) =~= Seq::<u8>::empty());
            assert(digits_value(Seq::<u8>::empty()) == 0);
        }
        return Some(
            Parts {
                negative: start == 1,
                int_start: start,
                int_end: int_end,
                frac_start: frac_start,
                frac_end: frac_end,
                exponent_negative: false,
                exp_start: frac_end,
                exp_end: frac_end,
            },
        );
    }
    let sign_at = frac_end + 1;
    let has_sign = sign_at < len && (s[sign_at] == PLUS || s[sign_at] == MINUS);
    let exp_start = if has_sign {
        sign_at + 1
    } else {
        sign_at
    };
    let exp_end = scan_digits(s, exp_start);
    if exp_end == exp_start || exp_end != len {
        return None;
    }
    Some(
        Parts {
            negative: start == 1,
            int_start: start,
            int_end: int_end,
            frac_start: frac_start,
            frac_end: frac_end,
            exponent_negative: has_sign && s[sign_at] == MINUS,
            exp_start: exp_start,
            exp_end: exp_end,
        },
    )
}

/// The number that `digits` write, times ten to the power of `shift`
/// and rounded (ties to even), unless it is beyond `LIMIT`.
fn scale_digits(digits: &[u8], shift: i128) -> (magnitude: Option<u128>)
    requires
        all_digits(digits@),
        -i128::MAX < shift,
    ensures
        match magnitude {
            Some(v) => v == scaled(digits_value(digits@), shift as int) && v <= LIMIT,
            None => scaled(digits_value(digits@), shift as int) > LIMIT,
        },
{
    if shift >= 0 {
        scale_up(digits, shift)
    } else {
        scale_down(digits, -shift)
    }
}

/// Gives a magnitude its sign, unless the temperature is beyond 64 bits.
fn with_sign(negative: bool, magnitude: u128) -> (t: Option<Temperature>)
    requires
        magnitude <= LIMIT,
    ensures
        t == signed_temperature(negative, magnitude as int),
{
    if negative {
        Some(Temperature { millidegrees: (-(magnitude as i128)) as i64 })
    } else if magnitude == LIMIT {
        None
    } else {
        Some(Temperature { millidegrees: magnitude as i64 })
    }
}

/// The power of ten by which the digits are multiplied to give
/// millidegrees, with the exponent capped: three more than the exponent,
/// less the number of digits after the point.
fn capped_shift(s: &[u8], parts: &Parts) -> (shift: i128)
    requires
        parts.fits(s@),
    ensures
        ({
            let exact = parts.decimal(s@).exponent + 3;
            let far = EXPONENT_CAP - 0x2_0000_0000_0000_0000;
            -i128::MAX < shift < i128::MAX && (shift == exact || (shift >= far && exact >= shift)
                || (shift <= -far && exact <= shift))
        }),
{
    let exponent = capped_value(s, parts.exp_start, parts.exp_end);
    let signed: i128 = if parts.exponent_negative {
        -(exponent as i128)
    } else {
        exponent as i128
    };
    signed - (parts.frac_end - parts.frac_start) as i128 + 3
}

/// Reads a temperature in degrees Celsius from the decimal text of a
/// number, rounding to the nearest millidegree (ties to even). `None`
/// where the text is no decimal number, or the temperature is beyond 64
/// bits of millidegrees.
pub fn parse_decimal(s: &[u8]) -> (t: Option<Temperature>)
    ensures
        t == temperature_of_decimal(s@),
{
    let parts = match read_parts(s) {
        Some(parts) => parts,
        None => {
            return None;
        },
    };
    let digits = gather_digits(s, parts.int_start, parts.int_end, parts.frac_start, parts.frac_end);
    let shift = capped_shift(s, &parts);
    let ghost exact = parts.decimal(s@).exponent + 3;
    let ghost value = digits_value(digits@);
    proof {
        lemma_all_digits_concat(
            s@.subrange(parts.int_start as int, parts.int_end as int),
            s@.subrange(parts.frac_start as int, parts.frac_end as int),
        );
        lemma_digits_value_bound(digits@);
        if shift != exact {
            lemma_capped_shift(value, digits@.len(), shift as int, exact);
        }
    }
    match scale_digits(digits.as_slice(), shift) {
        Some(magnitude) => with_sign(parts.negative, magnitude),
        None => None,
    }
}

impl Temperature {
    /// Reads a temperature in degrees Celsius from the decimal text of a
    /// number, as `parse_decimal` does from its bytes.
    pub fn from_decimal(text: &str) -> (t: Option<Temperature>)
        ensures
            t == temperature_of_decimal(text.spec_bytes()),
    {
        parse_decimal(text.as_bytes())
    }
}

} // verus!
