//! Temperatures as fixed-point numbers, and the rounding division that
//! every average in this crate goes through.

use vstd::prelude::*;
use vstd::string::StringExecFns;
use vstd::arithmetic::div_mod::lemma_fundamental_div_mod;
use vstd::arithmetic::div_mod::lemma_fundamental_div_mod_converse;

verus! {

/// A temperature in thousandths of a degree Celsius.
#[derive(Debug, Clone, Copy, PartialEq, Eq, Structural)]
pub struct Temperature {
    pub millidegrees: i64,
}

/// The integer nearest to `n / d`; a quotient that lies exactly halfway
/// between two integers goes to the even one.
pub open spec fn round_div(n: int, d: int) -> int
    recommends
        d > 0,
{
    let q = n / d;
    let r = n % d;
    if 2 * r < d {
        q
    } else if 2 * r > d {
        q + 1
    } else if q % 2 == 0 {
        q
    } else {
        q + 1
    }
}

/// `round_div` of a quotient and remainder that are already known.
pub proof fn lemma_round_div_parts(n: int, d: int, q: int, r: int)
    requires
        d > 0,
        0 <= r < d,
        n == q * d + r,
    ensures
        round_div(n, d) == if 2 * r < d {
            q
        } else if 2 * r > d {
            q + 1
        } else if q % 2 == 0 {
            q
        } else {
            q + 1
        },
{
    lemma_fundamental_div_mod_converse(n, d, q, r);
}

/// Rounding is symmetric about zero.
pub proof fn lemma_round_div_neg(n: int, d: int)
    requires
        d > 0,
    ensures
        round_div(-n, d) == -round_div(n, d),
{
    let q = n / d;
    let r = n % d;
    lemma_fundamental_div_mod(n, d);
    assert(n == q * d + r) by (nonlinear_arith)
        requires
            n == d * q + r,
    ;
    if r == 0 {
        assert(-n == (-q) * d + 0) by (nonlinear_arith)
            requires
                n == q * d + r,
                r == 0,
        ;
        lemma_round_div_parts(-n, d, -q, 0);
    } else {
        assert(-n == (-q - 1) * d + (d - r)) by (nonlinear_arith)
            requires
                n == q * d + r,
        ;
        lemma_round_div_parts(-n, d, -q - 1, d - r);
    }
}

/// The rounded quotient is within half a unit of the exact one.
pub proof fn lemma_round_div_nearest(n: int, d: int)
    requires
        d > 0,
    ensures
        -d <= 2 * (round_div(n, d) * d - n) <= d,
{
    let q = n / d;
    let r = n % d;
    lemma_fundamental_div_mod(n, d);
    assert(n == q * d + r) by (nonlinear_arith)
        requires
            n == d * q + r,
    ;
    assert((q + 1) * d == q * d + d) by (nonlinear_arith);
}

/// A rounded quotient stays between any two integers that bound the exact
/// one.
pub proof fn lemma_round_div_between(n: int, d: int, lo: int, hi: int)
    requires
        d > 0,
        lo * d <= n <= hi * d,
    ensures
        lo <= round_div(n, d) <= hi,
{
    let q = n / d;
    let r = n % d;
    lemma_fundamental_div_mod(n, d);
    assert(n == q * d + r) by (nonlinear_arith)
        requires
            n == d * q + r,
    ;
    assert(lo <= q) by (nonlinear_arith)
        requires
            lo * d <= q * d + r,
            r < d,
            d > 0,
    ;
    assert(q <= hi) by (nonlinear_arith)
        requires
            q * d + r <= hi * d,
            0 <= r,
            d > 0,
    ;
    if q == hi {
        assert(r == 0) by (nonlinear_arith)
            requires
                q * d + r <= hi * d,
                q == hi,
                0 <= r,
        ;
    }
}

/// Divides `n` by `d` and rounds to the nearest integer, ties to even.
pub fn rounded_quotient(n: i128, d: i128) -> (m: i128)
    requires
        d > 0,
        -i128::MAX < n < i128::MAX,
    ensures
        m == round_div(n as int, d as int),
{
    let negative = n < 0;
    let a: u128 = if negative {
        (-n) as u128
    } else {
        n as u128
    };
    let du: u128 = d as u128;
    let q: u128 = a / du;
    let r: u128 = a % du;
    proof {
        lemma_fundamental_div_mod(a as int, du as int);
        assert(a == q * du + r) by (nonlinear_arith)
            requires
                a == du * q + r,
        ;
        assert(q <= a) by (nonlinear_arith)
            requires
                a == q * du + r,
                du >= 1,
                q >= 0,
                r >= 0,
        ;
        lemma_round_div_parts(a as int, du as int, q as int, r as int);
        if negative {
            lemma_round_div_neg(a as int, du as int);
        }
    }
    let up = if 2 * r > du {
        true
    } else if 2 * r < du {
        false
    } else {
        q % 2 == 1
    };
    let m: u128 = if up {
        q + 1
    } else {
        q
    };
    if negative {
        -(m as i128)
    } else {
        m as i128
    }
}

/// The character of a digit.
pub open spec fn digit_char(d: nat) -> char {
    if d == 0 {
        '0'
    } else if d == 1 {
        '1'
    } else if d == 2 {
        '2'
    } else if d == 3 {
        '3'
    } else if d == 4 {
        '4'
    } else if d == 5 {
        '5'
    } else if d == 6 {
        '6'
    } else if d == 7 {
        '7'
    } else if d == 8 {
        '8'
    } else {
        '9'
    }
}

/// The digits of `n` in base ten, without leading zeros.
pub open spec fn decimal_text(n: nat) -> Seq<char>
    decreases n,
{
    if n < 10 {
        seq![digit_char(n)]
    } else {
        decimal_text(n / 10).push(digit_char(n % 10))
    }
}

/// The text, with one decimal place, of the number of tenths `n / d`: a
/// minus sign wherever the number is below zero, even where it rounds to
/// zero; then its magnitude, rounded once to the nearest tenth (ties to
/// even), as the digits of the whole part, a point and one digit.
pub open spec fn one_decimal_text(n: int, d: int) -> Seq<char>
    recommends
        d > 0,
{
    let magnitude = round_div(
        if n < 0 {
            -n
        } else {
            n
        },
        d,
    ) as nat;
    let sign = if n < 0 {
        seq!['-']
    } else {
        Seq::<char>::empty()
    };
    sign + decimal_text(magnitude / 10) + seq!['.', digit_char(magnitude % 10)]
}

/// The text of one digit.
fn digit_str(d: u64) -> (text: &'static str)
    requires
        d < 10,
    ensures
        text@ == seq![digit_char(d as nat)],
{
    proof {
        reveal_strlit("0");
        reveal_strlit("1");
        reveal_strlit("2");
        reveal_strlit("3");
        reveal_strlit("4");
        reveal_strlit("5");
        reveal_strlit("6");
        reveal_strlit("7");
        reveal_strlit("8");
        reveal_strlit("9");
    }
    let text = if d == 0 {
        "0"
    } else if d == 1 {
        "1"
    } else if d == 2 {
        "2"
    } else if d == 3 {
        "3"
    } else if d == 4 {
        "4"
    } else if d == 5 {
        "5"
    } else if d == 6 {
        "6"
    } else if d == 7 {
        "7"
    } else if d == 8 {
        "8"
    } else {
        "9"
    };
    assert(text@ =~= seq![digit_char(d as nat)]);
    text
}

/// Appends the digits of `n` to `out`.
fn push_decimal(out: &mut String, n: u128)
    ensures
        final(out)@ == old(out)@ + decimal_text(n as nat),
    decreases n,
{
    if n >= 10 {
        push_decimal(out, n / 10);
    }
    out.append(digit_str((n % 10) as u64));
    proof {
        if n >= 10 {
            assert(out@ =~= old(out)@ + decimal_text((n / 10) as nat).push(
                digit_char((n % 10) as nat),
            ));
        } else {
            assert(out@ =~= old(out)@ + seq![digit_char(n as nat)]);
        }
    }
}

/// Appends the number `n`, written in base ten, to `out`.
pub(crate) fn push_number(out: &mut String, n: u64)
    ensures
        final(out)@ == old(out)@ + decimal_text(n as nat),
{
    push_decimal(out, n as u128);
}

/// Appends to `out` the number of tenths `n / d` with one decimal place:
/// its sign, and its magnitude rounded once, to the nearest tenth.
pub(crate) fn push_one_decimal(out: &mut String, n: i128, d: i128)
    requires
        d > 0,
        -i128::MAX < n < i128::MAX,
    ensures
        final(out)@ == old(out)@ + one_decimal_text(n as int, d as int),
{
    let negative = n < 0;
    let absolute: i128 = if negative {
        -n
    } else {
        n
    };
    proof {
        assert(0 * d <= absolute <= absolute * d) by (nonlinear_arith)
            requires
                absolute >= 0,
                d >= 1,
        ;
        lemma_round_div_between(absolute as int, d as int, 0, absolute as int);
        reveal_strlit("-");
        reveal_strlit(".");
    }
    let magnitude: u128 = rounded_quotient(absolute, d) as u128;
    if negative {
        out.append("-");
    }
    push_decimal(out, magnitude / 10);
    out.append(".");
    out.append(digit_str((magnitude % 10) as u64));
    assert(out@ =~= old(out)@ + one_decimal_text(n as int, d as int));
}

impl Temperature {
    /// The temperature in degrees with one decimal place, as it is shown
    /// to a reader: below zero with a minus sign, rounded to the nearest
    /// tenth of a degree.
    pub open spec fn text(self) -> Seq<char> {
        one_decimal_text(self.millidegrees as int, 100)
    }

    /// Writes the temperature in degrees with one decimal place.
    pub fn to_text(&self) -> (text: String)
        ensures
            text@ == self.text(),
    {
        let mut text = String::new();
        push_one_decimal(&mut text, self.millidegrees as i128, 100);
        text
    }
}

} // verus!
