//! The order of sort keys.

use crate::eval::value::{lemma_value_view, Value, ValueV};
use crate::text::{chars_of, same_text};
use std::cmp::Ordering;
use vstd::prelude::*;
use vstd::string::*;

verus! {

/// `a` comes before `b`, or equals it, character by character.
pub open spec fn text_le(a: Seq<char>, b: Seq<char>) -> bool
    decreases a.len(),
{
    if a.len() == 0 {
        true
    } else if b.len() == 0 {
        false
    } else if a[0] != b[0] {
        a[0] < b[0]
    } else {
        text_le(a.drop_first(), b.drop_first())
    }
}

/// Of two texts one does not come after the other.
pub proof fn lemma_text_le_total(a: Seq<char>, b: Seq<char>)
    ensures
        text_le(a, b) || text_le(b, a),
    decreases a.len(),
{
    if a.len() > 0 && b.len() > 0 && a[0] == b[0] {
        lemma_text_le_total(a.drop_first(), b.drop_first());
    }
}

/// The order of texts carries over.
pub proof fn lemma_text_le_carries(a: Seq<char>, b: Seq<char>, c: Seq<char>)
    requires
        text_le(a, b),
        text_le(b, c),
    ensures
        text_le(a, c),
    decreases a.len(),
{
    if a.len() > 0 && b.len() > 0 && c.len() > 0 && a[0] == b[0] && b[0] == c[0] {
        lemma_text_le_carries(a.drop_first(), b.drop_first(), c.drop_first());
    }
}

/// The digits before the decimal point of a number without a sign.
pub open spec fn whole_len(a: Seq<char>) -> nat
    decreases a.len(),
{
    if a.len() == 0 || a[0] == '.' {
        0
    } else {
        1 + whole_len(a.drop_first())
    }
}

/// The order of numbers without a sign: the one with more digits before the point is greater.
pub open spec fn magnitude_le(a: Seq<char>, b: Seq<char>) -> bool {
    if b == "inf"@ {
        true
    } else if a == "inf"@ {
        false
    } else {
        whole_len(a) < whole_len(b) || (whole_len(a) == whole_len(b) && text_le(a, b))
    }
}

pub open spec fn below_zero(a: Seq<char>) -> bool {
    a.len() > 0 && a[0] == '-' && a != "-0"@
}

pub open spec fn magnitude(a: Seq<char>) -> Seq<char> {
    if a.len() > 0 && a[0] == '-' {
        a.drop_first()
    } else {
        a
    }
}

/// The order of floats by their spellings. `NaN` is not ordered, so it counts as equal to
/// anything.
pub open spec fn float_le(a: Seq<char>, b: Seq<char>) -> bool {
    if a == "NaN"@ || b == "NaN"@ {
        true
    } else if below_zero(a) {
        !below_zero(b) || magnitude_le(magnitude(b), magnitude(a))
    } else {
        !below_zero(b) && magnitude_le(magnitude(a), magnitude(b))
    }
}

proof fn lemma_magnitude_le(a: Seq<char>, b: Seq<char>, c: Seq<char>)
    ensures
        magnitude_le(a, b) || magnitude_le(b, a),
        magnitude_le(a, b) && magnitude_le(b, c) ==> magnitude_le(a, c),
{
    lemma_text_le_total(a, b);
    if text_le(a, b) && text_le(b, c) {
        lemma_text_le_carries(a, b, c);
    }
}

/// Of two floats one does not come after the other, and their order carries over, where `NaN` is
/// not among them.
pub proof fn lemma_float_le(a: Seq<char>, b: Seq<char>, c: Seq<char>)
    requires
        a != "NaN"@ && b != "NaN"@ && c != "NaN"@,
    ensures
        float_le(a, b) || float_le(b, a),
        float_le(a, b) && float_le(b, c) ==> float_le(a, c),
{
    lemma_magnitude_le(magnitude(a), magnitude(b), magnitude(c));
    lemma_magnitude_le(magnitude(c), magnitude(b), magnitude(a));
}

/// The order of sort keys: integers and floats by size, texts character by character. Keys of
/// different kinds are not ordered.
pub open spec fn key_le(a: ValueV, b: ValueV) -> bool {
    match (a, b) {
        (ValueV::Int(x), ValueV::Int(y)) => x <= y,
        (ValueV::Float(x), ValueV::Float(y)) => float_le(x, y),
        (ValueV::Str(x), ValueV::Str(y)) => text_le(x, y),
        _ => true,
    }
}

/// How two sort keys compare.
pub open spec fn key_order(a: ValueV, b: ValueV) -> Ordering {
    if !key_le(a, b) {
        Ordering::Greater
    } else if key_le(b, a) {
        Ordering::Equal
    } else {
        Ordering::Less
    }
}

fn chars_not_after(x: &Vec<char>, y: &Vec<char>) -> (r: bool)
    ensures
        r == text_le(x@, y@),
{
    let mut i: usize = 0;
    assert(x@.skip(0) =~= x@);
    assert(y@.skip(0) =~= y@);
    while i < x.len()
        invariant
            i <= x@.len(),
            i <= y@.len(),
            text_le(x@.skip(i as int), y@.skip(i as int)) == text_le(x@, y@),
        decreases x@.len() - i,
    {
        if i >= y.len() {
            return false;
        }
        if x[i] != y[i] {
            return x[i] < y[i];
        }
        assert(x@.skip(i as int).drop_first() =~= x@.skip(i + 1));
        assert(y@.skip(i as int).drop_first() =~= y@.skip(i + 1));
        i = i + 1;
    }
    true
}

/// Whether `a` does not come after `b`, character by character.
pub fn text_not_after(a: &str, b: &str) -> (r: bool)
    ensures
        r == text_le(a@, b@),
{
    let x = chars_of(a);
    let y = chars_of(b);
    chars_not_after(&x, &y)
}

fn whole_digits(x: &Vec<char>) -> (r: usize)
    ensures
        r == whole_len(x@),
{
    let mut i: usize = 0;
    assert(x@.skip(0) =~= x@);
    while i < x.len()
        invariant
            i <= x@.len(),
            whole_len(x@) == i + whole_len(x@.skip(i as int)),
        decreases x@.len() - i,
    {
        if x[i] == '.' {
            return i;
        }
        assert(x@.skip(i as int).drop_first() =~= x@.skip(i + 1));
        i = i + 1;
    }
    i
}

fn is_inf(x: &Vec<char>) -> (r: bool)
    ensures
        r == (x@ == "inf"@),
{
    proof {
        reveal_strlit("inf");
    }
    let r = x.len() == 3 && x[0] == 'i' && x[1] == 'n' && x[2] == 'f';
    assert(r ==> x@ =~= "inf"@);
    r
}

fn magnitude_not_after(x: &Vec<char>, y: &Vec<char>) -> (r: bool)
    ensures
        r == magnitude_le(x@, y@),
{
    if is_inf(y) {
        return true;
    }
    if is_inf(x) {
        return false;
    }
    let n: usize = whole_digits(x);
    let m: usize = whole_digits(y);
    n < m || (n == m && chars_not_after(x, y))
}

fn magnitude_of(a: &str) -> (r: Vec<char>)
    ensures
        r@ == magnitude(a@),
{
    let mut x = chars_of(a);
    if x.len() > 0 && x[0] == '-' {
        let _sign = x.remove(0);
        assert(x@ =~= a@.drop_first());
    }
    x
}

fn is_below_zero(a: &str) -> (r: bool)
    ensures
        r == below_zero(a@),
{
    let x = chars_of(a);
    x.len() > 0 && x[0] == '-' && !same_text(a, "-0")
}

/// Whether the float `a` does not come after the float `b`.
pub fn float_not_after(a: &str, b: &str) -> (r: bool)
    ensures
        r == float_le(a@, b@),
{
    if same_text(a, "NaN") || same_text(b, "NaN") {
        return true;
    }
    let x = magnitude_of(a);
    let y = magnitude_of(b);
    if is_below_zero(a) {
        !is_below_zero(b) || magnitude_not_after(&y, &x)
    } else {
        !is_below_zero(b) && magnitude_not_after(&x, &y)
    }
}

/// Whether the key `a` does not come after the key `b`.
pub fn key_not_after(a: &Value, b: &Value) -> (r: bool)
    ensures
        r == key_le(a@, b@),
{
    proof {
        lemma_value_view(*a);
        lemma_value_view(*b);
    }
    match (a, b) {
        (Value::Int(x), Value::Int(y)) => {
            return *x <= *y;
        },
        (Value::Float(x), Value::Float(y)) => {
            return float_not_after(x.as_str(), y.as_str());
        },
        (Value::Str(x), Value::Str(y)) => {
            return text_not_after(x.as_str(), y.as_str());
        },
        _ => {
            return true;
        },
    }
}

/// How two sort keys compare.
pub fn compare_sort_keys(a: &Value, b: &Value) -> (r: Ordering)
    ensures
        r == key_order(a@, b@),
{
    if !key_not_after(a, b) {
        Ordering::Greater
    } else if key_not_after(b, a) {
        Ordering::Equal
    } else {
        Ordering::Less
    }
}

} // verus!
