//! What was written of the protocol reads back.

use super::json::{
    is_finite, items_written, json_from, json_value, jsons_from, members_from, members_written,
    number_text, written, JsonV,
};
use crate::eval::keys::KeyV;
use crate::eval::value::ValueV;
use crate::names::{distinct_names, lemma_next};
use crate::stdlib::codec::dynamic::{
    branches_of, dbool_v, ddict_v, dfloat_v, dint_v, dlist_v, dstr_v, dyn_of, lemma_tree, null_v,
    tree_of, trees_of, DynV,
};
use crate::stdlib::codec::json::{branches_from, items_from, json_text_by, FloatText, Reading};
use crate::stdlib::codec::json_laws::{
    holdable, is_decimal, law_json_reads_back_whatever_writes_floats,
};
use vstd::prelude::*;
use vstd::string::*;

verus! {

/// A value of the protocol as a dynamic value.
pub open spec fn dyn_json(j: JsonV) -> ValueV
    decreases j,
{
    match j {
        JsonV::Null => null_v(),
        JsonV::Bool(b) => dbool_v(b),
        JsonV::Int(n) => dint_v(n),
        JsonV::Float(x) => dfloat_v(x),
        JsonV::Str(s) => dstr_v(s),
        JsonV::Arr(items) => dlist_v(
            Seq::new(
                items.len(),
                |i: int|
                    if 0 <= i < items.len() {
                        dyn_json(items[i])
                    } else {
                        arbitrary()
                    },
            ),
        ),
        JsonV::Obj(m) => ddict_v(
            Seq::new(
                m.len(),
                |i: int|
                    if 0 <= i < m.len() {
                        (KeyV::Str(m[i].0), dyn_json(m[i].1))
                    } else {
                        arbitrary()
                    },
            ),
        ),
    }
}

pub open spec fn dyn_items(items: Seq<JsonV>) -> Seq<ValueV> {
    Seq::new(items.len(), |i: int| dyn_json(items[i]))
}

pub open spec fn dyn_members(m: Seq<(Seq<char>, JsonV)>) -> Seq<(KeyV, ValueV)> {
    Seq::new(m.len(), |i: int| (KeyV::Str(m[i].0), dyn_json(m[i].1)))
}

/// How the protocol writes floats.
pub open spec fn protocol_floats() -> FloatText {
    |x: Seq<char>| number_text(x)
}

/// A value of the protocol that text can hold, inside `depth` containers: names differ, floats
/// are finite and written so that they read back, and containers do not nest too deep.
pub open spec fn fits(read: Reading, j: JsonV, depth: int) -> bool
    decreases j,
{
    &&& depth <= 256
    &&& match j {
        JsonV::Float(x) => {
            &&& is_finite(x)
            &&& is_decimal(number_text(x))
            &&& read(number_text(x)) == Some(x)
        },
        JsonV::Arr(items) => forall|i: int|
            0 <= i < items.len() ==> fits(read, #[trigger] items[i], depth + 1),
        JsonV::Obj(m) => distinct_names(m) && forall|i: int|
            0 <= i < m.len() ==> fits(read, (#[trigger] m[i]).1, depth + 1),
        _ => true,
    }
}

proof fn lemma_dyn_list(items: Seq<JsonV>)
    ensures
        dyn_json(JsonV::Arr(items)) == dlist_v(dyn_items(items)),
{
    let d = dyn_json(JsonV::Arr(items));
    assert(d->Enum_fields[0]->List_0 =~= dyn_items(items));
    assert(d->Enum_fields =~= dlist_v(dyn_items(items))->Enum_fields);
}

proof fn lemma_dyn_dict(m: Seq<(Seq<char>, JsonV)>)
    ensures
        dyn_json(JsonV::Obj(m)) == ddict_v(dyn_members(m)),
{
    let d = dyn_json(JsonV::Obj(m));
    assert(d->Enum_fields[0]->Dict_0 =~= dyn_members(m));
    assert(d->Enum_fields =~= ddict_v(dyn_members(m))->Enum_fields);
}

proof fn lemma_names()
    ensures
        "Null"@ != "Bool"@,
        "Null"@ != "Int"@,
        "Null"@ != "Float"@,
        "Null"@ != "Str"@,
        "Null"@ != "List"@,
        "Null"@ != "Dict"@,
        "Bool"@ != "Int"@,
        "Bool"@ != "Float"@,
        "Bool"@ != "Str"@,
        "Bool"@ != "List"@,
        "Bool"@ != "Dict"@,
        "Int"@ != "Float"@,
        "Int"@ != "Str"@,
        "Int"@ != "List"@,
        "Int"@ != "Dict"@,
        "Float"@ != "Str"@,
        "Float"@ != "List"@,
        "Float"@ != "Dict"@,
        "Str"@ != "List"@,
        "Str"@ != "Dict"@,
        "List"@ != "Dict"@,
{
    reveal_strlit("Null");
    reveal_strlit("Bool");
    reveal_strlit("Int");
    reveal_strlit("Float");
    reveal_strlit("Str");
    reveal_strlit("List");
    reveal_strlit("Dict");
    assert("Null"@[0] == 'N' && "Bool"@[0] == 'B' && "Int"@[0] == 'I' && "Float"@[0] == 'F'
        && "Str"@[0] == 'S' && "List"@[0] == 'L' && "Dict"@[0] == 'D');
}

proof fn lemma_holdable(read: Reading, j: JsonV, depth: int)
    requires
        fits(read, j, depth),
    ensures
        holdable(read, protocol_floats(), dyn_json(j), depth),
    decreases j,
{
    lemma_names();
    let d = dyn_json(j);
    match j {
        JsonV::Arr(items) => {
            lemma_dyn_list(items);
            assert(dyn_of(d) == DynV::List(dyn_items(items)));
            assert forall|i: int| 0 <= i < items.len() implies holdable(
                read,
                protocol_floats(),
                #[trigger] dyn_items(items)[i],
                depth + 1,
            ) by {
                assert(fits(read, items[i], depth + 1));
                lemma_holdable(read, items[i], depth + 1);
            }
        },
        JsonV::Obj(m) => {
            lemma_dyn_dict(m);
            let entries = dyn_members(m);
            assert(dyn_of(d) == DynV::Dict(entries));
            assert forall|i: int| 0 <= i < entries.len() implies (#[trigger] entries[i]).0 is Str
                && holdable(read, protocol_floats(), entries[i].1, depth + 1) by {
                assert(fits(read, m[i].1, depth + 1));
                lemma_holdable(read, m[i].1, depth + 1);
            }
            assert forall|a: int, b: int|
                0 <= a < entries.len() && 0 <= b < entries.len() && (#[trigger] entries[a]).0 == (
                #[trigger] entries[b]).0 implies a == b by {
                assert(m[a].0 == m[b].0);
            }
        },
        _ => {},
    }
}

proof fn lemma_item_fits(read: Reading, items: Seq<JsonV>, i: int, depth: int)
    requires
        fits(read, JsonV::Arr(items), depth),
        0 <= i < items.len(),
    ensures
        fits(read, items[i], depth + 1),
{
    let j = JsonV::Arr(items);
    assert(j->Arr_0[i] == items[i]);
}

proof fn lemma_same_text(read: Reading, j: JsonV, depth: int)
    requires
        fits(read, j, depth),
    ensures
        json_text_by(protocol_floats(), tree_of(dyn_json(j))) == written(j),
    decreases j, 1int, 0int,
{
    lemma_names();
    let d = dyn_json(j);
    lemma_tree(d);
    match j {
        JsonV::Arr(items) => {
            lemma_dyn_list(items);
            assert(dyn_of(d) == DynV::List(dyn_items(items)));
            lemma_same_items(read, items, 0, depth);
        },
        JsonV::Obj(m) => {
            lemma_dyn_dict(m);
            assert(dyn_of(d) == DynV::Dict(dyn_members(m)));
            lemma_same_members(read, m, 0, depth);
        },
        _ => {},
    }
}

proof fn lemma_same_items(read: Reading, items: Seq<JsonV>, i: int, depth: int)
    requires
        fits(read, JsonV::Arr(items), depth),
        0 <= i <= items.len(),
    ensures
        items_from(protocol_floats(), trees_of(dyn_items(items)), i) == items_written(items, i),
    decreases items, 0int, items.len() - i,
{
    if i < items.len() {
        lemma_item_fits(read, items, i, depth);
        lemma_same_text(read, items[i], depth + 1);
        lemma_same_items(read, items, i + 1, depth);
    }
}

proof fn lemma_same_members(read: Reading, m: Seq<(Seq<char>, JsonV)>, i: int, depth: int)
    requires
        fits(read, JsonV::Obj(m), depth),
        0 <= i <= m.len(),
    ensures
        branches_from(protocol_floats(), branches_of(dyn_members(m)), i) == members_written(m, i),
    decreases m, 0int, m.len() - i,
{
    if i < m.len() {
        assert(fits(read, m[i].1, depth + 1));
        assert(decreases_to!(m => m[i]));
        assert(decreases_to!(m[i] => m[i].1));
        lemma_same_text(read, m[i].1, depth + 1);
        lemma_same_members(read, m, i + 1, depth);
        assert(branches_of(dyn_members(m))[i].0 == m[i].0);
    }
}

proof fn lemma_from(read: Reading, j: JsonV, depth: int)
    requires
        fits(read, j, depth),
    ensures
        json_from(dyn_json(j)) == Ok::<JsonV, Seq<char>>(j),
    decreases j, 1int, 0int,
{
    lemma_names();
    match j {
        JsonV::Arr(items) => {
            lemma_dyn_list(items);
            lemma_from_items(read, items, 0, depth);
            assert(items.take(0) =~= Seq::empty());
        },
        JsonV::Obj(m) => {
            lemma_dyn_dict(m);
            lemma_from_members(read, m, 0, depth);
            assert(m.take(0) =~= Seq::empty());
        },
        _ => {},
    }
}

proof fn lemma_from_items(read: Reading, items: Seq<JsonV>, i: int, depth: int)
    requires
        fits(read, JsonV::Arr(items), depth),
        0 <= i <= items.len(),
    ensures
        jsons_from(dyn_items(items), i, items.take(i)) == Ok::<Seq<JsonV>, Seq<char>>(items),
    decreases items, 0int, items.len() - i,
{
    if i < items.len() {
        lemma_item_fits(read, items, i, depth);
        lemma_from(read, items[i], depth + 1);
        assert(items.take(i).push(items[i]) =~= items.take(i + 1));
        lemma_from_items(read, items, i + 1, depth);
    } else {
        assert(items.take(i) =~= items);
    }
}

proof fn lemma_from_members(read: Reading, m: Seq<(Seq<char>, JsonV)>, i: int, depth: int)
    requires
        fits(read, JsonV::Obj(m), depth),
        0 <= i <= m.len(),
    ensures
        members_from(dyn_members(m), i, m.take(i)) == Ok::<Seq<(Seq<char>, JsonV)>, Seq<char>>(m),
    decreases m, 0int, m.len() - i,
{
    if i < m.len() {
        assert(fits(read, m[i].1, depth + 1));
        assert(decreases_to!(m => m[i]));
        assert(decreases_to!(m[i] => m[i].1));
        lemma_from(read, m[i].1, depth + 1);
        lemma_next(m, i);
        lemma_from_members(read, m, i + 1, depth);
    } else {
        assert(m.take(i) =~= m);
    }
}

/// What a value of the protocol was written as reads back as that value.
pub proof fn law_protocol_values_read_back(read: Reading, j: JsonV)
    requires
        fits(read, j, 0),
    ensures
        json_value(read, written(j)) == Ok::<JsonV, Seq<char>>(j),
{
    lemma_holdable(read, j, 0);
    lemma_same_text(read, j, 0);
    lemma_from(read, j, 0);
    law_json_reads_back_whatever_writes_floats(read, protocol_floats(), dyn_json(j));
}

} // verus!
