//! What holds of the methods of lists, dictionaries and sets.

use super::collections::{picked, place, sorted_by, span_len, with_more};
use super::order::{key_le, lemma_float_le, lemma_text_le_carries, lemma_text_le_total, magnitude};
use crate::eval::keys::KeyV;
use crate::eval::value::{
    distinct_keys, has_key, inserted, key_index, looked_up, removed, ValueV,
};
use vstd::prelude::*;

verus! {

// ---------------------------------------------------------------------------
// Lists
// ---------------------------------------------------------------------------

/// A list that is turned round twice is as it was.
pub proof fn law_reversing_twice(items: Seq<ValueV>)
    ensures
        items.reverse().reverse() == items,
{
    assert(items.reverse().reverse() =~= items);
}

/// What `take` takes and what `skip` leaves make up the list.
pub proof fn law_take_and_skip_part_a_list(items: Seq<ValueV>, n: int)
    ensures
        items.take(span_len(n, items.len() as int)) + items.skip(
            span_len(n, items.len() as int),
        ) == items,
{
    let k = span_len(n, items.len() as int);
    assert(items.take(k) + items.skip(k) =~= items);
}

/// An item that was inserted is removed again at its index.
pub proof fn law_remove_undoes_insert(items: Seq<ValueV>, i: int, x: ValueV)
    requires
        0 <= i <= items.len(),
    ensures
        items.insert(i, x)[i] == x,
        items.insert(i, x).remove(i) == items,
{
    assert(items.insert(i, x).remove(i) =~= items);
}

// ---------------------------------------------------------------------------
// Sorting
// ---------------------------------------------------------------------------

proof fn lemma_place_bounds(keys: Seq<ValueV>, k: ValueV)
    ensures
        0 <= place(keys, k) <= keys.len(),
        forall|p: int| place(keys, k) <= p < keys.len() ==> !key_le(#[trigger] keys[p], k),
        place(keys, k) > 0 ==> key_le(keys[place(keys, k) - 1], k),
    decreases keys.len(),
{
    if keys.len() > 0 && !key_le(keys.last(), k) {
        lemma_place_bounds(keys.drop_last(), k);
        assert forall|p: int| place(keys, k) <= p < keys.len() implies !key_le(
            #[trigger] keys[p],
            k,
        ) by {
            if p < keys.len() - 1 {
                assert(keys.drop_last()[p] == keys[p]);
            }
        }
    }
}

proof fn lemma_lengths(keys: Seq<ValueV>, items: Seq<ValueV>)
    requires
        keys.len() == items.len(),
    ensures
        sorted_by(keys, items).0.len() == keys.len(),
        sorted_by(keys, items).1.len() == keys.len(),
    decreases keys.len(),
{
    if keys.len() > 0 {
        lemma_lengths(keys.drop_last(), items.drop_last());
        lemma_place_bounds(sorted_by(keys.drop_last(), items.drop_last()).0, keys.last());
    }
}

/// A sorted list has the same items as before.
pub proof fn law_sorting_keeps_the_items(keys: Seq<ValueV>, items: Seq<ValueV>)
    requires
        keys.len() == items.len(),
    ensures
        sorted_by(keys, items).0.to_multiset() =~= keys.to_multiset(),
        sorted_by(keys, items).1.to_multiset() =~= items.to_multiset(),
    decreases keys.len(),
{
    broadcast use vstd::seq_lib::group_to_multiset_ensures;
    lemma_lengths(keys, items);
    if keys.len() > 0 {
        law_sorting_keeps_the_items(keys.drop_last(), items.drop_last());
        lemma_lengths(keys.drop_last(), items.drop_last());
        lemma_place_bounds(sorted_by(keys.drop_last(), items.drop_last()).0, keys.last());
        assert(keys =~= keys.drop_last().push(keys.last()));
        assert(items =~= items.drop_last().push(items.last()));
    } else {
        assert(keys =~= Seq::empty());
        assert(items =~= Seq::empty());
    }
}

/// Any two of the keys are ordered, and the order carries over.
pub open spec fn ordered(keys: Seq<ValueV>) -> bool {
    &&& forall|a: ValueV, b: ValueV|
        keys.contains(a) && keys.contains(b) ==> #[trigger] key_le(a, b) || key_le(b, a)
    &&& forall|a: ValueV, b: ValueV, c: ValueV|
        keys.contains(a) && keys.contains(b) && keys.contains(c) && #[trigger] key_le(a, b)
            && #[trigger] key_le(b, c) ==> key_le(a, c)
}

proof fn lemma_fewer_ordered(keys: Seq<ValueV>)
    requires
        keys.len() > 0,
        ordered(keys),
    ensures
        ordered(keys.drop_last()),
        forall|a: ValueV| keys.drop_last().contains(a) ==> keys.contains(a),
        keys.contains(keys.last()),
{
    assert(keys[keys.len() - 1] == keys.last());
    assert forall|a: ValueV| keys.drop_last().contains(a) implies keys.contains(a) by {
        let i = choose|i: int| 0 <= i < keys.drop_last().len() && keys.drop_last()[i] == a;
        assert(keys[i] == a);
    }
}

proof fn lemma_sorted_keys(keys: Seq<ValueV>, items: Seq<ValueV>)
    requires
        keys.len() == items.len(),
    ensures
        forall|i: int|
            0 <= i < sorted_by(keys, items).0.len() ==> keys.contains(
                #[trigger] sorted_by(keys, items).0[i],
            ),
    decreases keys.len(),
{
    if keys.len() > 0 {
        let old_keys = sorted_by(keys.drop_last(), items.drop_last()).0;
        let new_keys = sorted_by(keys, items).0;
        let at = place(old_keys, keys.last());
        lemma_sorted_keys(keys.drop_last(), items.drop_last());
        lemma_place_bounds(old_keys, keys.last());
        assert forall|i: int| 0 <= i < new_keys.len() implies keys.contains(
            #[trigger] new_keys[i],
        ) by {
            if i == at {
                assert(keys[keys.len() - 1] == new_keys[i]);
            } else {
                let k = if i < at {
                    i
                } else {
                    i - 1
                };
                assert(new_keys[i] == old_keys[k]);
                let j = choose|j: int|
                    0 <= j < keys.drop_last().len() && keys.drop_last()[j] == old_keys[k];
                assert(keys[j] == new_keys[i]);
            }
        }
    }
}

/// The keys of a sorted list ascend.
pub proof fn law_sorted_keys_ascend(keys: Seq<ValueV>, items: Seq<ValueV>)
    requires
        keys.len() == items.len(),
        ordered(keys),
    ensures
        forall|i: int, j: int|
            0 <= i < j < keys.len() ==> key_le(
                #[trigger] sorted_by(keys, items).0[i],
                #[trigger] sorted_by(keys, items).0[j],
            ),
    decreases keys.len(),
{
    lemma_lengths(keys, items);
    if keys.len() > 0 {
        let k = keys.last();
        let old_keys = sorted_by(keys.drop_last(), items.drop_last()).0;
        let new_keys = sorted_by(keys, items).0;
        let at = place(old_keys, k);
        lemma_fewer_ordered(keys);
        law_sorted_keys_ascend(keys.drop_last(), items.drop_last());
        lemma_lengths(keys.drop_last(), items.drop_last());
        lemma_sorted_keys(keys.drop_last(), items.drop_last());
        lemma_place_bounds(old_keys, k);
        assert forall|p: int| 0 <= p < old_keys.len() implies keys.contains(
            #[trigger] old_keys[p],
        ) by {
            assert(keys.drop_last().contains(old_keys[p]));
        }
        assert forall|p: int| 0 <= p < at implies key_le(#[trigger] old_keys[p], k) by {
            if p < at - 1 {
                assert(key_le(old_keys[p], old_keys[at - 1]));
                assert(key_le(old_keys[at - 1], k));
            }
        }
        assert forall|p: int| at <= p < old_keys.len() implies key_le(
            k,
            #[trigger] old_keys[p],
        ) by {
            assert(!key_le(old_keys[p], k));
        }
        assert forall|i: int, j: int| 0 <= i < j < keys.len() implies key_le(
            #[trigger] new_keys[i],
            #[trigger] new_keys[j],
        ) by {
            if i == at {
                assert(new_keys[j] == old_keys[j - 1]);
            } else if j == at {
                assert(new_keys[i] == old_keys[i]);
            } else {
                let a = if i < at {
                    i
                } else {
                    i - 1
                };
                let b = if j < at {
                    j
                } else {
                    j - 1
                };
                assert(new_keys[i] == old_keys[a] && new_keys[j] == old_keys[b]);
            }
        }
    }
}

/// A float key that has a place in the order.
pub open spec fn is_ordered_float(k: ValueV) -> bool {
    k matches ValueV::Float(x) && x != "NaN"@
}

/// Keys that are all integers, all texts, or all floats other than `NaN`, are ordered.
pub proof fn law_keys_of_one_kind_are_ordered(keys: Seq<ValueV>)
    requires
        ({
            ||| forall|i: int| 0 <= i < keys.len() ==> (#[trigger] keys[i]) is Int
            ||| forall|i: int| 0 <= i < keys.len() ==> (#[trigger] keys[i]) is Str
            ||| forall|i: int| 0 <= i < keys.len() ==> is_ordered_float(#[trigger] keys[i])
        }),
    ensures
        ordered(keys),
{
    assert forall|a: ValueV, b: ValueV|
        keys.contains(a) && keys.contains(b) implies #[trigger] key_le(a, b) || key_le(b, a) by {
        if a is Str && b is Str {
            lemma_text_le_total(a->Str_0, b->Str_0);
        } else if a is Float && b is Float {
            lemma_float_le(a->Float_0, b->Float_0, b->Float_0);
        }
    }
    assert forall|a: ValueV, b: ValueV, c: ValueV|
        keys.contains(a) && keys.contains(b) && keys.contains(c) && #[trigger] key_le(a, b)
            && #[trigger] key_le(b, c) implies key_le(a, c) by {
        if a is Str && b is Str && c is Str {
            lemma_text_le_carries(a->Str_0, b->Str_0, c->Str_0);
        } else if a is Float && b is Float && c is Float {
            lemma_float_le(a->Float_0, b->Float_0, c->Float_0);
        }
    }
}

/// The items whose key is `k`, in their order.
pub open spec fn items_with_key(keys: Seq<ValueV>, items: Seq<ValueV>, k: ValueV) -> Seq<ValueV>
    decreases keys.len(),
{
    if keys.len() == 0 || items.len() == 0 {
        Seq::empty()
    } else if keys.last() == k {
        items_with_key(keys.drop_last(), items.drop_last(), k).push(items.last())
    } else {
        items_with_key(keys.drop_last(), items.drop_last(), k)
    }
}

proof fn lemma_key_le_itself(k: ValueV)
    ensures
        key_le(k, k),
{
    match k {
        ValueV::Str(s) => lemma_text_le_total(s, s),
        ValueV::Float(x) => lemma_text_le_total(magnitude(x), magnitude(x)),
        _ => {},
    }
}

proof fn lemma_with_key_insert(
    keys: Seq<ValueV>,
    items: Seq<ValueV>,
    at: int,
    key: ValueV,
    item: ValueV,
    k: ValueV,
)
    requires
        keys.len() == items.len(),
        0 <= at <= keys.len(),
        forall|p: int| at <= p < keys.len() ==> #[trigger] keys[p] != key,
    ensures
        items_with_key(keys.insert(at, key), items.insert(at, item), k) == if k == key {
            items_with_key(keys, items, k).push(item)
        } else {
            items_with_key(keys, items, k)
        },
    decreases keys.len(),
{
    let ks = keys.insert(at, key);
    let vs = items.insert(at, item);
    if at == keys.len() {
        assert(ks.drop_last() =~= keys);
        assert(vs.drop_last() =~= items);
    } else {
        lemma_with_key_insert(keys.drop_last(), items.drop_last(), at, key, item, k);
        assert(ks.drop_last() =~= keys.drop_last().insert(at, key));
        assert(vs.drop_last() =~= items.drop_last().insert(at, item));
        assert(ks.last() == keys.last() && vs.last() == items.last());
        assert(keys[keys.len() - 1] != key);
    }
}

/// Items with the same key keep their order.
pub proof fn law_sorting_is_stable(keys: Seq<ValueV>, items: Seq<ValueV>, k: ValueV)
    requires
        keys.len() == items.len(),
    ensures
        items_with_key(sorted_by(keys, items).0, sorted_by(keys, items).1, k) == items_with_key(
            keys,
            items,
            k,
        ),
    decreases keys.len(),
{
    if keys.len() > 0 {
        let (ks, vs) = sorted_by(keys.drop_last(), items.drop_last());
        let key = keys.last();
        let at = place(ks, key);
        law_sorting_is_stable(keys.drop_last(), items.drop_last(), k);
        lemma_lengths(keys.drop_last(), items.drop_last());
        lemma_place_bounds(ks, key);
        lemma_key_le_itself(key);
        assert forall|p: int| at <= p < ks.len() implies #[trigger] ks[p] != key by {
            assert(!key_le(ks[p], key));
        }
        lemma_with_key_insert(ks, vs, at, key, items.last(), k);
    }
}

// ---------------------------------------------------------------------------
// Dictionaries
// ---------------------------------------------------------------------------

proof fn lemma_index(entries: Seq<(KeyV, ValueV)>, i: int)
    requires
        0 <= i < entries.len(),
        distinct_keys(entries),
    ensures
        has_key(entries, entries[i].0),
        key_index(entries, entries[i].0) == i,
{
}

/// A key has the value that it was given, and the others keep theirs.
pub proof fn law_insert_gives_a_key_its_value(
    entries: Seq<(KeyV, ValueV)>,
    k: KeyV,
    v: ValueV,
    other: KeyV,
)
    requires
        distinct_keys(entries),
    ensures
        distinct_keys(inserted(entries, k, v)),
        looked_up(inserted(entries, k, v), k) == Some(v),
        other != k ==> looked_up(inserted(entries, k, v), other) == looked_up(entries, other),
{
    let new = inserted(entries, k, v);
    let at = if has_key(entries, k) {
        key_index(entries, k)
    } else {
        entries.len() as int
    };
    assert(new[at] == (k, v));
    assert forall|i: int| 0 <= i < entries.len() && i != at implies #[trigger] new[i]
        == entries[i] by {}
    assert forall|i: int, j: int|
        0 <= i < new.len() && 0 <= j < new.len() && (#[trigger] new[i]).0 == (
        #[trigger] new[j]).0 implies i == j by {
        if i != j {
            if i == at {
                assert(entries[j].0 == k);
            } else if j == at {
                assert(entries[i].0 == k);
            } else {
                assert(entries[i].0 == entries[j].0);
            }
        }
    }
    lemma_index(new, at);
    if other != k {
        if has_key(entries, other) {
            let i = key_index(entries, other);
            assert(new[i] == entries[i]);
            lemma_index(new, i);
        } else if has_key(new, other) {
            let i = key_index(new, other);
            assert(entries[i].0 == other);
        }
    }
}

/// A key that was removed has no value, and the others keep theirs.
pub proof fn law_remove_takes_a_key_away(
    entries: Seq<(KeyV, ValueV)>,
    k: KeyV,
    other: KeyV,
)
    requires
        distinct_keys(entries),
    ensures
        distinct_keys(removed(entries, k)),
        looked_up(removed(entries, k), k) is None,
        other != k ==> looked_up(removed(entries, k), other) == looked_up(entries, other),
{
    let new = removed(entries, k);
    if has_key(entries, k) {
        let at = key_index(entries, k);
        assert forall|i: int| 0 <= i < new.len() implies #[trigger] new[i] == entries[if i < at {
            i
        } else {
            i + 1
        }] by {}
        assert forall|i: int, j: int|
            0 <= i < new.len() && 0 <= j < new.len() && (#[trigger] new[i]).0 == (
            #[trigger] new[j]).0 implies i == j by {}
        if has_key(new, k) {
            let i = key_index(new, k);
            assert(entries[if i < at {
                i
            } else {
                i + 1
            }].0 == entries[at].0);
        }
        if other != k {
            if has_key(entries, other) {
                let i = key_index(entries, other);
                let j = if i < at {
                    i
                } else {
                    i - 1
                };
                assert(new[j] == entries[i]);
                lemma_index(new, j);
            } else if has_key(new, other) {
                let i = key_index(new, other);
                assert(entries[if i < at {
                    i
                } else {
                    i + 1
                }].0 == other);
            }
        }
    }
}

/// A key that was removed and is given a value again goes to the end.
pub proof fn law_reinserted_key_goes_to_the_end(
    entries: Seq<(KeyV, ValueV)>,
    k: KeyV,
    v: ValueV,
)
    requires
        distinct_keys(entries),
    ensures
        inserted(removed(entries, k), k, v) == removed(entries, k).push((k, v)),
{
    law_remove_takes_a_key_away(entries, k, k);
}

// ---------------------------------------------------------------------------
// Sets
// ---------------------------------------------------------------------------

/// A union has what either set has; the first set comes first in it.
pub proof fn law_union_has_what_either_set_has(a: Seq<KeyV>, b: Seq<KeyV>, x: KeyV)
    ensures
        with_more(a, b).contains(x) == (a.contains(x) || b.contains(x)),
        a.len() <= with_more(a, b).len(),
        with_more(a, b).take(a.len() as int) == a,
    decreases b.len(),
{
    if b.len() == 0 {
        assert(a.take(a.len() as int) =~= a);
    } else {
        let r = with_more(a, b.drop_last());
        law_union_has_what_either_set_has(a, b.drop_last(), x);
        assert(b =~= b.drop_last().push(b.last()));
        assert(b.contains(x) == (b.drop_last().contains(x) || x == b.last())) by {
            if b.contains(x) {
                let i = choose|i: int| 0 <= i < b.len() && b[i] == x;
                if i < b.len() - 1 {
                    assert(b.drop_last()[i] == x);
                }
            }
            if b.drop_last().contains(x) {
                let i = choose|i: int| 0 <= i < b.drop_last().len() && b.drop_last()[i] == x;
                assert(b[i] == x);
            }
            if x == b.last() {
                assert(b[b.len() - 1] == x);
            }
        }
        if !r.contains(b.last()) {
            let w = r.push(b.last());
            assert(w.contains(x) == (r.contains(x) || x == b.last())) by {
                if r.contains(x) {
                    let i = choose|i: int| 0 <= i < r.len() && r[i] == x;
                    assert(w[i] == x);
                }
                if x == b.last() {
                    assert(w[r.len() as int] == x);
                }
                if w.contains(x) {
                    let i = choose|i: int| 0 <= i < w.len() && w[i] == x;
                    if i < r.len() {
                        assert(r[i] == x);
                    }
                }
            }
            assert(w.take(a.len() as int) =~= r.take(a.len() as int));
        }
    }
}

/// An intersection has what both sets have, and a difference what only the first has.
pub proof fn law_intersection_and_difference_part_a_set(a: Seq<KeyV>, b: Seq<KeyV>, x: KeyV)
    ensures
        picked(a, b, true).contains(x) == (a.contains(x) && b.contains(x)),
        picked(a, b, false).contains(x) == (a.contains(x) && !b.contains(x)),
        picked(a, b, true).len() + picked(a, b, false).len() == a.len(),
    decreases a.len(),
{
    if a.len() > 0 {
        law_intersection_and_difference_part_a_set(a.drop_last(), b, x);
        assert(a.contains(x) == (a.drop_last().contains(x) || x == a.last())) by {
            if a.contains(x) {
                let i = choose|i: int| 0 <= i < a.len() && a[i] == x;
                if i < a.len() - 1 {
                    assert(a.drop_last()[i] == x);
                }
            }
            if a.drop_last().contains(x) {
                let i = choose|i: int| 0 <= i < a.drop_last().len() && a.drop_last()[i] == x;
                assert(a[i] == x);
            }
            if x == a.last() {
                assert(a[a.len() - 1] == x);
            }
        }
        let wanted = b.contains(a.last());
        let r = picked(a.drop_last(), b, wanted);
        let w = r.push(a.last());
        assert(w.contains(x) == (r.contains(x) || x == a.last())) by {
            if r.contains(x) {
                let i = choose|i: int| 0 <= i < r.len() && r[i] == x;
                assert(w[i] == x);
            }
            if x == a.last() {
                assert(w[r.len() as int] == x);
            }
            if w.contains(x) {
                let i = choose|i: int| 0 <= i < w.len() && w[i] == x;
                if i < r.len() {
                    assert(r[i] == x);
                }
            }
        }
    }
}

} // verus!
