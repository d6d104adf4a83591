//! The `math` namespace: integers, and what of floats their spellings tell.

use super::{option_v, option_value};
use super::order::{float_le, float_not_after};
use crate::eval::value::{float_value, int_value, Value, ValueV};
use crate::text::{chars_of, same_text, sub_text};
use vstd::prelude::*;
use vstd::string::*;

verus! {

/// `Some` with a number if it is in range.
pub open spec fn checked_v(n: Option<int>) -> ValueV {
    match n {
        Some(i) => if i64::MIN <= i <= i64::MAX {
            option_v(Some(ValueV::Int(i as i64)))
        } else {
            option_v(None)
        },
        None => option_v(None),
    }
}

pub open spec fn magnitude(a: int) -> int {
    if a < 0 {
        -a
    } else {
        a
    }
}

/// The quotient, rounded toward zero.
pub open spec fn quotient(a: int, b: int) -> Option<int> {
    let q = magnitude(a) / magnitude(b);
    if b == 0 {
        None
    } else if (a < 0) == (b < 0) {
        Some(q)
    } else {
        Some(-q)
    }
}

/// What the quotient leaves over; it has the sign of `a`.
pub open spec fn remainder(a: int, b: int) -> Option<int> {
    let m = magnitude(a) % magnitude(b);
    if b == 0 {
        None
    } else if a < 0 {
        Some(-m)
    } else {
        Some(m)
    }
}

fn checked_int(r: Option<i64>) -> (v: Value)
    ensures
        v@ == option_v(
            match r {
                Some(n) => Some(ValueV::Int(n)),
                None => None,
            },
        ),
{
    match r {
        Some(n) => option_value(Some(int_value(n))),
        None => option_value(None),
    }
}

proof fn lemma_small_quotient(a: int, b: int)
    requires
        b != 0,
    ensures
        0 <= magnitude(a) / magnitude(b) <= magnitude(a),
        0 <= magnitude(a) % magnitude(b) < magnitude(b),
        a == 0 ==> magnitude(a) / magnitude(b) == 0 && magnitude(a) % magnitude(b) == 0,
{
    let c = magnitude(a);
    let d = magnitude(b);
    vstd::arithmetic::div_mod::lemma_div_is_ordered_by_denominator(c, 1, d);
    vstd::arithmetic::div_mod::lemma_div_pos_is_pos(c, d);
    vstd::arithmetic::div_mod::lemma_small_mod(0, d as nat);
}

/// `checked_div`: nothing for a division by zero or a quotient out of range.
pub fn checked_div(a: i64, b: i64) -> (r: Value)
    ensures
        r@ == checked_v(quotient(a as int, b as int)),
{
    proof {
        if b != 0 {
            lemma_small_quotient(a as int, b as int);
        }
    }
    checked_int(a.checked_div(b))
}

/// `checked_mod`: nothing for a division by zero or a quotient out of range.
pub fn checked_mod(a: i64, b: i64) -> (r: Value)
    ensures
        r@ == (if a == i64::MIN && b == -1 {
            option_v(None)
        } else {
            checked_v(remainder(a as int, b as int))
        }),
{
    proof {
        if b != 0 {
            lemma_small_quotient(a as int, b as int);
            assert(a < 0 ==> a * -1 == magnitude(a as int));
            assert(b < 0 ==> b * -1 == magnitude(b as int));
        }
    }
    checked_int(a.checked_rem(b))
}

/// `checked_add`: nothing for a sum out of range.
pub fn checked_add(a: i64, b: i64) -> (r: Value)
    ensures
        r@ == checked_v(Some(a + b)),
{
    checked_int(a.checked_add(b))
}

/// `checked_sub`: nothing for a difference out of range.
pub fn checked_sub(a: i64, b: i64) -> (r: Value)
    ensures
        r@ == checked_v(Some(a - b)),
{
    checked_int(a.checked_sub(b))
}

/// `checked_mul`: nothing for a product out of range.
pub fn checked_mul(a: i64, b: i64) -> (r: Value)
    ensures
        r@ == checked_v(Some(a * b)),
{
    checked_int(a.checked_mul(b))
}

/// `abs_int`: the absolute value; that of the least integer is itself.
pub fn abs_int(x: i64) -> (r: Value)
    ensures
        r@ == ValueV::Int(
            if x >= 0 || x == i64::MIN {
                x
            } else {
                (-x) as i64
            },
        ),
{
    if x >= 0 || x == i64::MIN {
        int_value(x)
    } else {
        int_value(-x)
    }
}

/// `min`: the smaller one.
pub fn min_int(a: i64, b: i64) -> (r: Value)
    ensures
        r@ == ValueV::Int(
            if a <= b {
                a
            } else {
                b
            },
        ),
{
    if a <= b {
        int_value(a)
    } else {
        int_value(b)
    }
}

/// `max`: the larger one.
pub fn max_int(a: i64, b: i64) -> (r: Value)
    ensures
        r@ == ValueV::Int(
            if a <= b {
                b
            } else {
                a
            },
        ),
{
    if a <= b {
        int_value(b)
    } else {
        int_value(a)
    }
}

/// A float's spelling without its sign.
pub open spec fn abs_of(x: Seq<char>) -> Seq<char> {
    if x.len() > 0 && x[0] == '-' {
        x.skip(1)
    } else {
        x
    }
}

/// `abs` of a float with the spelling `x`.
pub fn abs_float(x: &str) -> (r: Value)
    ensures
        r@ == ValueV::Float(abs_of(x@)),
{
    let v = chars_of(x);
    if v.len() > 0 && v[0] == '-' {
        let t = sub_text(&v, 1, v.len());
        assert(t@ =~= x@.skip(1));
        float_value(t)
    } else {
        float_value(x.to_owned())
    }
}

/// The smaller one of two floats; what is not a number gives way to the other.
pub open spec fn min_of(a: Seq<char>, b: Seq<char>) -> Seq<char> {
    if a == "NaN"@ {
        b
    } else if float_le(a, b) {
        a
    } else {
        b
    }
}

/// The larger one of two floats; what is not a number gives way to the other.
pub open spec fn max_of(a: Seq<char>, b: Seq<char>) -> Seq<char> {
    if a == "NaN"@ {
        b
    } else if float_le(b, a) {
        a
    } else {
        b
    }
}

/// `min` of two floats, by their spellings.
pub fn min_float(a: &str, b: &str) -> (r: Value)
    ensures
        r@ == ValueV::Float(min_of(a@, b@)),
{
    if !same_text(a, "NaN") && float_not_after(a, b) {
        float_value(a.to_owned())
    } else {
        float_value(b.to_owned())
    }
}

/// `max` of two floats, by their spellings.
pub fn max_float(a: &str, b: &str) -> (r: Value)
    ensures
        r@ == ValueV::Float(max_of(a@, b@)),
{
    if !same_text(a, "NaN") && float_not_after(b, a) {
        float_value(a.to_owned())
    } else {
        float_value(b.to_owned())
    }
}

/// A quotient and what it leaves over make the dividend, and what is left over is smaller than
/// the divisor.
pub proof fn law_quotient_and_remainder(a: int, b: int)
    requires
        b != 0,
    ensures
        quotient(a, b) matches Some(q) && remainder(a, b) matches Some(m) && a == q * b + m
            && -magnitude(b) < m < magnitude(b) && (a >= 0 ==> m >= 0) && (a <= 0 ==> m <= 0),
{
    let c = magnitude(a);
    let d = magnitude(b);
    vstd::arithmetic::div_mod::lemma_fundamental_div_mod(c, d);
    let q = c / d;
    assert(d * q == q * d) by (nonlinear_arith);
    assert((-q) * d == -(q * d)) by (nonlinear_arith);
    assert(q * (-d) == -(q * d)) by (nonlinear_arith);
    assert((-q) * (-d) == q * d) by (nonlinear_arith);
}

/// Where a sum is in range, taking one summand away gives the other.
pub proof fn law_subtraction_undoes_addition(a: i64, b: i64)
    requires
        i64::MIN <= a + b <= i64::MAX,
    ensures
        checked_v(Some(a + b)) == option_v(Some(ValueV::Int((a + b) as i64))),
        checked_v(Some(((a + b) as i64) - b)) == option_v(Some(ValueV::Int(a))),
{
}

} // verus!
