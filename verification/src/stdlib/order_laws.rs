//! What the order of sort keys comes to.

use super::order::{key_le, key_order, text_le};
use crate::eval::value::ValueV;
use std::cmp::Ordering;
use vstd::prelude::*;

verus! {

proof fn lemma_first_difference(a: Seq<char>, b: Seq<char>, i: int)
    requires
        0 <= i <= a.len(),
        i <= b.len(),
        forall|j: int| 0 <= j < i ==> a[j] == b[j],
    ensures
        i < a.len() && i < b.len() && a[i] < b[i] ==> text_le(a, b) && !text_le(b, a),
        i == a.len() && i < b.len() ==> text_le(a, b) && !text_le(b, a),
        i == a.len() && i == b.len() ==> text_le(a, b) && text_le(b, a),
    decreases i,
{
    if i > 0 {
        assert(a[0] == b[0]);
        assert forall|j: int| 0 <= j < i - 1 implies a.drop_first()[j] == b.drop_first()[j] by {
            assert(a[j + 1] == b[j + 1]);
        }
        lemma_first_difference(a.drop_first(), b.drop_first(), i - 1);
    }
}

/// Texts are ordered by their first difference, whatever their lengths: where two texts agree up
/// to an index and differ there, the one with the smaller character comes strictly first, and a
/// text comes strictly before a longer one that it starts. Only a text itself is neither before
/// nor after it.
pub proof fn law_texts_are_ordered_by_their_first_difference(a: Seq<char>, b: Seq<char>, i: int)
    requires
        0 <= i <= a.len(),
        i <= b.len(),
        forall|j: int| 0 <= j < i ==> a[j] == b[j],
    ensures
        i < a.len() && i < b.len() && a[i] < b[i] ==> key_order(ValueV::Str(a), ValueV::Str(b))
            == Ordering::Less,
        i < a.len() && i < b.len() && a[i] > b[i] ==> key_order(ValueV::Str(a), ValueV::Str(b))
            == Ordering::Greater,
        i == a.len() && i < b.len() ==> key_order(ValueV::Str(a), ValueV::Str(b))
            == Ordering::Less,
        i == b.len() && i < a.len() ==> key_order(ValueV::Str(a), ValueV::Str(b))
            == Ordering::Greater,
        i == a.len() && i == b.len() ==> key_order(ValueV::Str(a), ValueV::Str(b))
            == Ordering::Equal,
{
    lemma_first_difference(a, b, i);
    lemma_first_difference(b, a, i);
}

/// Integers are ordered by their size.
pub proof fn law_integers_are_ordered_by_size(x: i64, y: i64)
    ensures
        x < y ==> key_order(ValueV::Int(x), ValueV::Int(y)) == Ordering::Less,
        x == y ==> key_order(ValueV::Int(x), ValueV::Int(y)) == Ordering::Equal,
        x > y ==> key_order(ValueV::Int(x), ValueV::Int(y)) == Ordering::Greater,
{
}

/// How two keys compare tells which may stand before the other: the first just where it is not
/// greater.
pub proof fn law_keys_that_are_not_greater_may_come_first(a: ValueV, b: ValueV)
    ensures
        key_le(a, b) == (key_order(a, b) != Ordering::Greater),
{
}

} // verus!
