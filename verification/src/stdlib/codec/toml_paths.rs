//! What stands at the paths of a TOML document.

use super::toml::{placed, put, GoalV};
use crate::eval::keys::KeyV;
use crate::eval::value::{
    distinct_keys, has_key, inserted, key_index, looked_up, ValueV,
};
use crate::stdlib::collections_laws::law_insert_gives_a_key_its_value;
use vstd::prelude::*;

verus! {

/// What stands at a path from its `i`-th segment on. An array of tables is entered at its last
/// element.
pub open spec fn found_at(table: Seq<(KeyV, ValueV)>, path: Seq<Seq<char>>, i: int) -> Option<
    ValueV,
>
    decreases path.len() - i,
{
    if i + 1 >= path.len() {
        looked_up(table, KeyV::Str(path[i]))
    } else {
        match looked_up(table, KeyV::Str(path[i])) {
            Some(ValueV::Dict(inner)) => found_at(inner, path, i + 1),
            Some(ValueV::List(items)) => if items.len() > 0 && items.last() is Dict {
                found_at(items.last()->Dict_0, path, i + 1)
            } else {
                None
            },
            _ => None,
        }
    }
}

/// An entry that was just made is found.
proof fn lemma_there(table: Seq<(KeyV, ValueV)>, k: KeyV, v: ValueV)
    ensures
        has_key(inserted(table, k, v), k),
        distinct_keys(table) ==> looked_up(inserted(table, k, v), k) == Some(v),
{
    let new = inserted(table, k, v);
    let at = if has_key(table, k) {
        key_index(table, k)
    } else {
        table.len() as int
    };
    assert(new[at].0 == k);
    if distinct_keys(table) {
        law_insert_gives_a_key_its_value(table, k, v, k);
    }
}

/// Every table of a document has each key once.
pub open spec fn keys_once(v: ValueV) -> bool
    decreases v,
{
    match v {
        ValueV::Dict(entries) => distinct_keys(entries) && forall|i: int|
            0 <= i < entries.len() ==> keys_once((#[trigger] entries[i]).1),
        ValueV::List(items) => forall|i: int|
            0 <= i < items.len() ==> keys_once(#[trigger] items[i]),
        _ => true,
    }
}

proof fn lemma_inner(table: Seq<(KeyV, ValueV)>, k: KeyV)
    requires
        keys_once(ValueV::Dict(table)),
        looked_up(table, k) is Some,
    ensures
        keys_once(looked_up(table, k).unwrap()),
{
    let at = key_index(table, k);
    assert(table[at].0 == k);
    assert(keys_once(table[at].1));
}

proof fn lemma_put_leaf(
    table: Seq<(KeyV, ValueV)>,
    path: Seq<Seq<char>>,
    i: int,
    v: ValueV,
    w: ValueV,
)
    requires
        0 <= i < path.len(),
        keys_once(ValueV::Dict(table)),
        put(table, path, i, GoalV::Leaf(v)) is Ok,
    ensures
        ({
            let after = put(table, path, i, GoalV::Leaf(v))->Ok_0;
            &&& found_at(after, path, i) == Some(v)
            &&& found_at(table, path, i) is None
            &&& put(after, path, i, GoalV::Leaf(w)) is Err
        }),
    decreases path.len() - i,
{
    let key = KeyV::Str(path[i]);
    if i + 1 >= path.len() {
        lemma_there(table, key, v);
    } else {
        let none = Seq::<(KeyV, ValueV)>::empty();
        match looked_up(table, key) {
            None => {
                lemma_put_leaf(none, path, i + 1, v, w);
                let t = put(none, path, i + 1, GoalV::Leaf(v))->Ok_0;
                lemma_there(table, key, ValueV::Dict(t));
            },
            Some(ValueV::Dict(inner)) => {
                lemma_inner(table, key);
                lemma_put_leaf(inner, path, i + 1, v, w);
                let t = put(inner, path, i + 1, GoalV::Leaf(v))->Ok_0;
                lemma_there(table, key, ValueV::Dict(t));
            },
            Some(ValueV::List(items)) => {
                lemma_inner(table, key);
                let last = items.last();
                assert(keys_once(items[items.len() - 1]));
                lemma_put_leaf(last->Dict_0, path, i + 1, v, w);
                let t = put(last->Dict_0, path, i + 1, GoalV::Leaf(v))->Ok_0;
                let more = items.drop_last().push(ValueV::Dict(t));
                assert(more.last() == ValueV::Dict(t));
                lemma_there(table, key, ValueV::List(more));
            },
            Some(_) => {},
        }
    }
}

/// A value is put where nothing stands and stands there afterwards, and a second one is refused.
pub proof fn law_toml_keys_are_defined_once(
    table: Seq<(KeyV, ValueV)>,
    path: Seq<Seq<char>>,
    v: ValueV,
    w: ValueV,
)
    requires
        path.len() > 0,
        keys_once(ValueV::Dict(table)),
        put(table, path, 0, GoalV::Leaf(v)) is Ok,
    ensures
        ({
            let after = put(table, path, 0, GoalV::Leaf(v))->Ok_0;
            &&& found_at(table, path, 0) is None
            &&& found_at(after, path, 0) == Some(v)
            &&& put(after, path, 0, GoalV::Leaf(w)) is Err
        }),
{
    lemma_put_leaf(table, path, 0, v, w);
}

/// Whatever is put at a path, what stands under other keys stays.
pub proof fn law_toml_other_keys_stay(
    table: Seq<(KeyV, ValueV)>,
    path: Seq<Seq<char>>,
    goal: GoalV,
    k: KeyV,
)
    requires
        path.len() > 0,
        distinct_keys(table),
        k != KeyV::Str(path[0]),
        put(table, path, 0, goal) is Ok,
    ensures
        looked_up(put(table, path, 0, goal)->Ok_0, k) == looked_up(table, k),
        distinct_keys(put(table, path, 0, goal)->Ok_0),
{
    let key = KeyV::Str(path[0]);
    let after = put(table, path, 0, goal)->Ok_0;
    if after != table {
        let v = looked_up(after, key);
        if path.len() == 1 {
            assert(placed(table, path[0], goal) == Ok::<Seq<(KeyV, ValueV)>, Seq<char>>(after));
            match goal {
                GoalV::Leaf(x) => {
                    law_insert_gives_a_key_its_value(table, key, x, k);
                },
                GoalV::Table => {
                    law_insert_gives_a_key_its_value(table, key, ValueV::Dict(Seq::empty()), k);
                },
                GoalV::Element => {
                    let empty = ValueV::Dict(Seq::empty());
                    law_insert_gives_a_key_its_value(table, key, ValueV::List(seq![empty]), k);
                    if let Some(ValueV::List(items)) = looked_up(table, key) {
                        law_insert_gives_a_key_its_value(
                            table,
                            key,
                            ValueV::List(items.push(empty)),
                            k,
                        );
                    }
                },
            }
        } else {
            let none = Seq::<(KeyV, ValueV)>::empty();
            match looked_up(table, key) {
                None => {
                    let t = put(none, path, 1, goal)->Ok_0;
                    law_insert_gives_a_key_its_value(table, key, ValueV::Dict(t), k);
                },
                Some(ValueV::Dict(inner)) => {
                    let t = put(inner, path, 1, goal)->Ok_0;
                    law_insert_gives_a_key_its_value(table, key, ValueV::Dict(t), k);
                },
                Some(ValueV::List(items)) => {
                    let t = put(items.last()->Dict_0, path, 1, goal)->Ok_0;
                    let more = items.drop_last().push(ValueV::Dict(t));
                    law_insert_gives_a_key_its_value(table, key, ValueV::List(more), k);
                },
                Some(_) => {},
            }
        }
    }
}

} // verus!
