//! Values of a type survive being lifted and lowered.

use super::dynamic::{
    dbool_v, ddict_v, dfloat_v, dint_v, dlist_v, dstr_v, dyn_of, null_v, DynV,
};
use super::json::Reading;
use super::lift::{
    entries_lifted_from, fields_lifted_from, key_lifted, key_out, keys_lifted, lifted, lifted_from,
};
use super::lower::{
    each_lowered_from, entries_lowered_from, enum_lowered, field_tys_from, fields_lowered_from,
    list_lowered_from, lowered, payload_lowered, set_lowered_from, struct_lowered, variant_from,
    variant_no, variant_of,
};
use super::toml_laws::lemma_new_key;
use crate::ast::{EnumV, ParamV, StructV};
use crate::eval::env::ProgramV;
use crate::eval::keys::KeyV;
use crate::eval::value::{distinct_keys, has_key, key_index, key_v, try_key_v, try_keys_v, ValueV};
use crate::generics::{ann_ty, bindings_from, substituted};
use crate::names::lookup;
use crate::stdlib::{none_v, some_v};
use crate::types::TyV;
use vstd::prelude::*;
use vstd::string::*;

verus! {

// ---------------------------------------------------------------------------
// Types
// ---------------------------------------------------------------------------

/// A key that is a value of a type.
pub open spec fn key_of_type(k: KeyV, t: TyV) -> bool
    decreases k,
{
    match (k, t) {
        (KeyV::Str(_), TyV::Str) => true,
        (KeyV::Int(_), TyV::Int) => true,
        (KeyV::Bool(_), TyV::Bool) => true,
        (KeyV::Tuple(ks), TyV::Tuple(ts)) => ks.len() == ts.len() && forall|i: int|
            0 <= i < ks.len() ==> key_of_type(#[trigger] ks[i], ts[i]),
        _ => false,
    }
}

/// The type of the `i`-th field of a struct.
pub open spec fn field_ty(decl: StructV, args: Seq<TyV>, i: int, p: ProgramV) -> Option<TyV> {
    match ann_ty(decl.fields[i].ty, decl.generics, p) {
        Some(t) => Some(
            substituted(t, bindings_from(decl.generics, args, 0, Seq::empty())),
        ),
        None => None,
    }
}

/// No two fields of a struct have the same name.
pub open spec fn fields_differ(fields: Seq<ParamV>) -> bool {
    forall|i: int, j: int|
        0 <= i < fields.len() && 0 <= j < fields.len() && (#[trigger] fields[i]).name == (
        #[trigger] fields[j]).name ==> i == j
}

/// The types of the fields of a variant of an enum.
pub open spec fn variant_tys(decl: EnumV, args: Seq<TyV>, at: int, p: ProgramV) -> Option<
    Seq<TyV>,
> {
    field_tys_from(
        decl.variants[at].fields,
        0,
        decl.generics,
        bindings_from(decl.generics, args, 0, Seq::empty()),
        p,
        Seq::empty(),
    )
}

/// A value of a type, in a form that a text can hold: dictionaries have texts as keys, what an
/// optional value holds is not written as nothing, and functions and `Result` are in it nowhere.
pub open spec fn of_type(v: ValueV, t: TyV, p: ProgramV) -> bool
    decreases v,
{
    match t {
        TyV::Int => v is Int,
        TyV::Float => v is Float,
        TyV::Bool => v is Bool,
        TyV::Str => v is Str,
        TyV::List(e) => match v {
            ValueV::List(items) => forall|i: int|
                0 <= i < items.len() ==> of_type(#[trigger] items[i], *e, p),
            _ => false,
        },
        TyV::Tuple(ts) => match v {
            ValueV::Tuple(items) => items.len() == ts.len() && forall|i: int|
                0 <= i < items.len() ==> of_type(#[trigger] items[i], ts[i], p),
            _ => false,
        },
        TyV::SetOf(e) => match v {
            ValueV::SetOf(keys) => keys.no_duplicates() && forall|i: int|
                0 <= i < keys.len() ==> key_of_type(#[trigger] keys[i], *e),
            _ => false,
        },
        TyV::Dict(k, e) => match v {
            ValueV::Dict(entries) => *k is Str && distinct_keys(entries) && forall|i: int|
                0 <= i < entries.len() ==> (#[trigger] entries[i]).0 is Str && of_type(
                    entries[i].1,
                    *e,
                    p,
                ),
            _ => false,
        },
        TyV::Named { name, args } => if name == "Value"@ {
            v matches ValueV::Enum { ty_name, .. } && ty_name == "Value"@
        } else if name == "Option"@ && args.len() == 1 {
            ||| v == none_v()
            ||| v matches ValueV::Enum { fields, .. } && fields.len() == 1 && v == some_v(fields[0])
                && of_type(fields[0], args[0], p) && variant_of(lifted(fields[0], p.structs))
                != Some("Null"@)
        } else if name == "Option"@ || name == "Result"@ {
            false
        } else {
            match lookup(p.enums, name) {
                Some(decl) => match v {
                    ValueV::Enum { ty_name, variant_index, variant_name, fields } => ty_name
                        == name && match variant_from(decl.variants, variant_name, 0) {
                        Some(at) => variant_index == variant_no(at) && match variant_tys(
                            decl,
                            args,
                            at,
                            p,
                        ) {
                            Some(ts) => fields.len() == ts.len() && forall|i: int|
                                0 <= i < fields.len() ==> of_type(#[trigger] fields[i], ts[i], p),
                            None => false,
                        },
                        None => false,
                    },
                    _ => false,
                },
                None => match lookup(p.structs, name) {
                    Some(decl) => match v {
                        ValueV::Struct { ty_name, fields } => {
                            &&& ty_name == name
                            &&& fields.len() == decl.fields.len()
                            &&& fields_differ(decl.fields)
                            &&& forall|i: int|
                                0 <= i < fields.len() ==> (field_ty(decl, args, i, p) is Some
                                    && of_type(
                                    #[trigger] fields[i],
                                    field_ty(decl, args, i, p).unwrap(),
                                    p,
                                ))
                        },
                        _ => false,
                    },
                    None => false,
                },
            }
        },
        _ => false,
    }
}

// ---------------------------------------------------------------------------
// Dynamic values
// ---------------------------------------------------------------------------

/// The variants of dynamic values are told apart by their names.
proof fn lemma_variants()
    ensures
        forall|b: bool| dyn_of(#[trigger] dbool_v(b)) == DynV::Bool(b),
        forall|n: i64| dyn_of(#[trigger] dint_v(n)) == DynV::Int(n),
        forall|x: Seq<char>| dyn_of(#[trigger] dfloat_v(x)) == DynV::Float(x),
        forall|x: Seq<char>| dyn_of(#[trigger] dstr_v(x)) == DynV::Str(x),
        forall|x: Seq<ValueV>| dyn_of(#[trigger] dlist_v(x)) == DynV::List(x),
        forall|x: Seq<(KeyV, ValueV)>| dyn_of(#[trigger] ddict_v(x)) == DynV::Dict(x),
{
    reveal_strlit("Null");
    reveal_strlit("Bool");
    reveal_strlit("Int");
    reveal_strlit("Float");
    reveal_strlit("Str");
    reveal_strlit("List");
    reveal_strlit("Dict");
    assert("Null"@[0] == 'N');
    assert("Bool"@[0] == 'B');
    assert("Int"@[0] == 'I');
    assert("Float"@[0] == 'F');
    assert("Str"@[0] == 'S');
    assert("List"@[0] == 'L');
    assert("Dict"@[0] == 'D');
}

// ---------------------------------------------------------------------------
// Items and entries
// ---------------------------------------------------------------------------

/// Some values, each lifted.
pub open spec fn each_lifted(items: Seq<ValueV>, p: ProgramV) -> Seq<ValueV> {
    Seq::new(items.len(), |i: int| lifted(items[i], p.structs))
}

proof fn lemma_lifted_items(items: Seq<ValueV>, i: int, p: ProgramV)
    requires
        0 <= i <= items.len(),
    ensures
        lifted_from(items, i, p.structs, each_lifted(items, p).take(i)) == each_lifted(items, p),
    decreases items.len() - i,
{
    let all = each_lifted(items, p);
    if i < items.len() {
        assert(all.take(i).push(all[i]) =~= all.take(i + 1));
        lemma_lifted_items(items, i + 1, p);
    } else {
        assert(all.take(i) =~= all);
    }
}

proof fn lemma_items_lifted(items: Seq<ValueV>, p: ProgramV)
    ensures
        lifted_from(items, 0, p.structs, Seq::empty()) == each_lifted(items, p),
{
    assert(each_lifted(items, p).take(0) =~= Seq::empty());
    lemma_lifted_items(items, 0, p);
}

/// A value comes back when it is lifted and lowered.
spec fn comes_back(read: Reading, v: ValueV, t: TyV, p: ProgramV) -> bool {
    lowered(read, t, lifted(v, p.structs), p) == Ok::<ValueV, ValueV>(v)
}

proof fn lemma_list(read: Reading, items: Seq<ValueV>, t: TyV, i: int, p: ProgramV)
    requires
        0 <= i <= items.len(),
        forall|j: int| 0 <= j < items.len() ==> comes_back(read, #[trigger] items[j], t, p),
    ensures
        list_lowered_from(read, t, each_lifted(items, p), i, p, items.take(i)) == Ok::<
            Seq<ValueV>,
            ValueV,
        >(items),
    decreases items.len() - i,
{
    if i < items.len() {
        assert(comes_back(read, items[i], t, p));
        assert(items.take(i).push(items[i]) =~= items.take(i + 1));
        lemma_list(read, items, t, i + 1, p);
    } else {
        assert(items.take(i) =~= items);
    }
}

proof fn lemma_each(read: Reading, items: Seq<ValueV>, ts: Seq<TyV>, i: int, p: ProgramV)
    requires
        0 <= i <= items.len(),
        forall|j: int| 0 <= j < items.len() ==> comes_back(read, #[trigger] items[j], ts[j], p),
    ensures
        each_lowered_from(read, ts, each_lifted(items, p), i, p, items.take(i)) == Ok::<
            Seq<ValueV>,
            ValueV,
        >(items),
    decreases items.len() - i,
{
    if i < items.len() {
        assert(comes_back(read, items[i], ts[i], p));
        assert(items.take(i).push(items[i]) =~= items.take(i + 1));
        lemma_each(read, items, ts, i + 1, p);
    } else {
        assert(items.take(i) =~= items);
    }
}

/// Some entries, the value of each lifted.
spec fn entries_lifted(entries: Seq<(KeyV, ValueV)>, p: ProgramV) -> Seq<(KeyV, ValueV)> {
    Seq::new(entries.len(), |i: int| (entries[i].0, lifted(entries[i].1, p.structs)))
}

proof fn lemma_lifted_keys_differ(entries: Seq<(KeyV, ValueV)>, p: ProgramV)
    requires
        distinct_keys(entries),
    ensures
        distinct_keys(entries_lifted(entries, p)),
{
    let all = entries_lifted(entries, p);
    assert forall|i: int, j: int|
        0 <= i < all.len() && 0 <= j < all.len() && (#[trigger] all[i]).0 == (
        #[trigger] all[j]).0 implies i == j by {
        assert(entries[i].0 == entries[j].0);
    }
}

proof fn lemma_lifted_entries(entries: Seq<(KeyV, ValueV)>, i: int, p: ProgramV)
    requires
        0 <= i <= entries.len(),
        distinct_keys(entries),
        forall|j: int| 0 <= j < entries.len() ==> (#[trigger] entries[j]).0 is Str,
    ensures
        entries_lifted_from(entries, i, p.structs, entries_lifted(entries, p).take(i))
            == entries_lifted(entries, p),
    decreases entries.len() - i,
{
    let all = entries_lifted(entries, p);
    if i < entries.len() {
        assert(entries[i].0 is Str);
        lemma_lifted_keys_differ(entries, p);
        lemma_new_key(all, i);
        assert(KeyV::Str(key_out(entries[i].0)) == all[i].0);
        lemma_lifted_entries(entries, i + 1, p);
    } else {
        assert(all.take(i) =~= all);
    }
}

proof fn lemma_entries(
    read: Reading,
    entries: Seq<(KeyV, ValueV)>,
    t: TyV,
    i: int,
    p: ProgramV,
)
    requires
        0 <= i <= entries.len(),
        distinct_keys(entries),
        forall|j: int|
            0 <= j < entries.len() ==> comes_back(read, (#[trigger] entries[j]).1, t, p),
    ensures
        entries_lowered_from(read, t, entries_lifted(entries, p), i, p, entries.take(i)) == Ok::<
            Seq<(KeyV, ValueV)>,
            ValueV,
        >(entries),
    decreases entries.len() - i,
{
    if i < entries.len() {
        assert(comes_back(read, entries[i].1, t, p));
        lemma_new_key(entries, i);
        lemma_entries(read, entries, t, i + 1, p);
    } else {
        assert(entries.take(i) =~= entries);
    }
}

/// The dictionary that a struct is lifted to.
spec fn fields_named(
    fields: Seq<ParamV>,
    values: Seq<ValueV>,
    p: ProgramV,
) -> Seq<(KeyV, ValueV)> {
    Seq::new(
        values.len(),
        |i: int| (KeyV::Str(fields[i].name), lifted(values[i], p.structs)),
    )
}

proof fn lemma_named_keys_differ(fields: Seq<ParamV>, values: Seq<ValueV>, p: ProgramV)
    requires
        fields.len() == values.len(),
        fields_differ(fields),
    ensures
        distinct_keys(fields_named(fields, values, p)),
{
    let all = fields_named(fields, values, p);
    assert forall|i: int, j: int|
        0 <= i < all.len() && 0 <= j < all.len() && (#[trigger] all[i]).0 == (
        #[trigger] all[j]).0 implies i == j by {
        assert(fields[i].name == fields[j].name);
    }
}

proof fn lemma_lifted_fields(fields: Seq<ParamV>, values: Seq<ValueV>, i: int, p: ProgramV)
    requires
        0 <= i <= values.len(),
        fields.len() == values.len(),
        fields_differ(fields),
    ensures
        fields_lifted_from(
            fields,
            values,
            i,
            p.structs,
            fields_named(fields, values, p).take(i),
        ) == fields_named(fields, values, p),
    decreases values.len() - i,
{
    let all = fields_named(fields, values, p);
    if i < values.len() {
        lemma_named_keys_differ(fields, values, p);
        lemma_new_key(all, i);
        lemma_lifted_fields(fields, values, i + 1, p);
    } else {
        assert(all.take(i) =~= all);
    }
}

/// The value of the `i`-th field of a struct comes back.
spec fn field_comes_back(
    read: Reading,
    decl: StructV,
    args: Seq<TyV>,
    value: ValueV,
    i: int,
    p: ProgramV,
) -> bool {
    field_ty(decl, args, i, p) matches Some(t) && comes_back(read, value, t, p)
}

spec fn fields_come_back(
    read: Reading,
    decl: StructV,
    args: Seq<TyV>,
    values: Seq<ValueV>,
    p: ProgramV,
) -> bool {
    forall|j: int|
        0 <= j < values.len() ==> field_comes_back(read, decl, args, #[trigger] values[j], j, p)
}

proof fn lemma_fields(
    read: Reading,
    decl: StructV,
    args: Seq<TyV>,
    values: Seq<ValueV>,
    i: int,
    p: ProgramV,
)
    requires
        0 <= i <= values.len(),
        decl.fields.len() == values.len(),
        fields_differ(decl.fields),
        fields_come_back(read, decl, args, values, p),
    ensures
        fields_lowered_from(
            read,
            decl.fields,
            i,
            decl.generics,
            bindings_from(decl.generics, args, 0, Seq::empty()),
            fields_named(decl.fields, values, p),
            p,
            values.take(i),
        ) == Ok::<Seq<ValueV>, ValueV>(values),
    decreases values.len() - i,
{
    let all = fields_named(decl.fields, values, p);
    if i < values.len() {
        let key = KeyV::Str(decl.fields[i].name);
        assert(field_comes_back(read, decl, args, values[i], i, p));
        lemma_named_keys_differ(decl.fields, values, p);
        assert(all[i].0 == key);
        assert(has_key(all, key));
        assert(all[key_index(all, key)].0 == all[i].0);
        assert(key_index(all, key) == i);
        assert(values.take(i).push(values[i]) =~= values.take(i + 1));
        lemma_fields(read, decl, args, values, i + 1, p);
    } else {
        assert(values.take(i) =~= values);
    }
}

// ---------------------------------------------------------------------------
// Keys
// ---------------------------------------------------------------------------

proof fn lemma_keys_of_values(ks: Seq<KeyV>, vs: Seq<ValueV>)
    requires
        vs.len() == ks.len(),
        forall|i: int| 0 <= i < ks.len() ==> try_key_v(#[trigger] vs[i]) == Some(ks[i]),
    ensures
        try_keys_v(vs) == Some(ks),
    decreases ks.len(),
{
    if ks.len() > 0 {
        assert(try_key_v(vs[vs.len() - 1]) == Some(ks[ks.len() - 1]));
        assert forall|i: int| 0 <= i < ks.len() - 1 implies try_key_v(#[trigger] vs.drop_last()[i])
            == Some(ks.drop_last()[i]) by {
            assert(try_key_v(vs[i]) == Some(ks[i]));
        }
        lemma_keys_of_values(ks.drop_last(), vs.drop_last());
        assert(ks.drop_last().push(ks.last()) =~= ks);
    } else {
        assert(ks =~= Seq::empty());
    }
}

proof fn lemma_key_each(
    read: Reading,
    ks: Seq<KeyV>,
    vs: Seq<ValueV>,
    ts: Seq<TyV>,
    i: int,
    p: ProgramV,
)
    requires
        0 <= i <= ks.len(),
        vs.len() == ks.len(),
        forall|j: int|
            0 <= j < ks.len() ==> lowered(read, ts[j], key_lifted(#[trigger] ks[j]), p) == Ok::<
                ValueV,
                ValueV,
            >(vs[j]),
    ensures
        each_lowered_from(read, ts, keys_lifted(ks), i, p, vs.take(i)) == Ok::<
            Seq<ValueV>,
            ValueV,
        >(vs),
    decreases ks.len() - i,
{
    if i < ks.len() {
        assert(keys_lifted(ks)[i] == key_lifted(ks[i]));
        assert(vs.take(i).push(vs[i]) =~= vs.take(i + 1));
        lemma_key_each(read, ks, vs, ts, i + 1, p);
    } else {
        assert(vs.take(i) =~= vs);
    }
}

proof fn lemma_key(read: Reading, k: KeyV, t: TyV, p: ProgramV)
    requires
        key_of_type(k, t),
    ensures
        lowered(read, t, key_lifted(k), p) == Ok::<ValueV, ValueV>(key_v(k)),
        try_key_v(key_v(k)) == Some(k),
    decreases k,
{
    lemma_variants();
    match (k, t) {
        (KeyV::Tuple(ks), TyV::Tuple(ts)) => {
            let vs = key_v(k)->Tuple_0;
            assert forall|j: int| 0 <= j < ks.len() implies lowered(
                read,
                ts[j],
                key_lifted(#[trigger] ks[j]),
                p,
            ) == Ok::<ValueV, ValueV>(vs[j]) && try_key_v(vs[j]) == Some(ks[j]) by {
                lemma_key(read, ks[j], ts[j], p);
            }
            lemma_key_each(read, ks, vs, ts, 0, p);
            assert(vs.take(0) =~= Seq::empty());
            assert(key_lifted(k) == dlist_v(keys_lifted(ks))) by {
                assert(key_lifted(k)->Enum_fields[0]->List_0 =~= keys_lifted(ks));
            }
            lemma_keys_of_values(ks, vs);
        },
        _ => {},
    }
}

proof fn lemma_set(read: Reading, keys: Seq<KeyV>, t: TyV, i: int, p: ProgramV)
    requires
        0 <= i <= keys.len(),
        keys.no_duplicates(),
        forall|j: int| 0 <= j < keys.len() ==> key_of_type(#[trigger] keys[j], t),
    ensures
        set_lowered_from(read, t, keys_lifted(keys), i, p, keys.take(i)) == Ok::<
            Seq<KeyV>,
            ValueV,
        >(keys),
    decreases keys.len() - i,
{
    if i < keys.len() {
        let k = keys[i];
        assert(key_of_type(k, t));
        lemma_key(read, k, t, p);
        assert(keys_lifted(keys)[i] == key_lifted(k));
        let out = keys.take(i);
        assert(!out.contains(k)) by {
            if out.contains(k) {
                let j = choose|j: int| 0 <= j < out.len() && out[j] == k;
                assert(keys[j] == keys[i]);
            }
        }
        assert(out.push(k) =~= keys.take(i + 1));
        lemma_set(read, keys, t, i + 1, p);
    } else {
        assert(keys.take(i) =~= keys);
    }
}

// ---------------------------------------------------------------------------
// Values
// ---------------------------------------------------------------------------

proof fn lemma_variant(
    read: Reading,
    v: ValueV,
    name: Seq<char>,
    args: Seq<TyV>,
    decl: EnumV,
    at: int,
    ts: Seq<TyV>,
    p: ProgramV,
)
    requires
        v is Enum,
        v->Enum_ty_name == name,
        name != "Value"@ && name != "Option"@ && name != "Result"@,
        variant_from(decl.variants, v->variant_name, 0) == Some(at),
        v->variant_index == variant_no(at),
        variant_tys(decl, args, at, p) == Some(ts),
        v->Enum_fields.len() == ts.len(),
        forall|j: int|
            0 <= j < ts.len() ==> comes_back(read, #[trigger] v->Enum_fields[j], ts[j], p),
    ensures
        enum_lowered(read, name, decl, args, lifted(v, p.structs), p) == Ok::<ValueV, ValueV>(v),
{
    lemma_variants();
    let fields = v->Enum_fields;
    let payload = if fields.len() == 0 {
        null_v()
    } else if fields.len() == 1 {
        lifted(fields[0], p.structs)
    } else {
        dlist_v(lifted_from(fields, 0, p.structs, Seq::empty()))
    };
    assert(lifted(v, p.structs) == ddict_v(seq![(KeyV::Str(v->variant_name), payload)]));
    assert(payload_lowered(read, ts, payload, p) == Ok::<Seq<ValueV>, ValueV>(fields)) by {
        if fields.len() == 0 {
            assert(fields =~= Seq::empty());
        } else if fields.len() == 1 {
            assert(comes_back(read, fields[0], ts[0], p));
            assert(seq![fields[0]] =~= fields);
        } else {
            lemma_items_lifted(fields, p);
            assert(fields.take(0) =~= Seq::empty());
            lemma_each(read, fields, ts, 0, p);
        }
    }
}

proof fn lemma_struct(
    read: Reading,
    v: ValueV,
    name: Seq<char>,
    args: Seq<TyV>,
    decl: StructV,
    p: ProgramV,
)
    requires
        lookup(p.structs, name) == Some(decl),
        v is Struct,
        v->Struct_ty_name == name,
        v->Struct_fields.len() == decl.fields.len(),
        fields_differ(decl.fields),
        fields_come_back(read, decl, args, v->Struct_fields, p),
    ensures
        struct_lowered(read, name, args, lifted(v, p.structs), p) == Ok::<ValueV, ValueV>(v),
{
    lemma_variants();
    let values = v->Struct_fields;
    assert(fields_named(decl.fields, values, p).take(0) =~= Seq::empty());
    assert(values.take(0) =~= Seq::empty());
    lemma_lifted_fields(decl.fields, values, 0, p);
    lemma_fields(read, decl, args, values, 0, p);
}

proof fn lemma_comes_back(read: Reading, v: ValueV, t: TyV, p: ProgramV)
    requires
        of_type(v, t, p),
    ensures
        comes_back(read, v, t, p),
    decreases v,
{
    lemma_variants();
    match t {
        TyV::List(e) => {
            let items = v->List_0;
            assert forall|j: int| 0 <= j < items.len() implies comes_back(
                read,
                #[trigger] items[j],
                *e,
                p,
            ) by {
                assert(of_type(items[j], *e, p));
                lemma_comes_back(read, items[j], *e, p);
            }
            lemma_items_lifted(items, p);
            assert(items.take(0) =~= Seq::empty());
            lemma_list(read, items, *e, 0, p);
        },
        TyV::Tuple(ts) => {
            let items = v->Tuple_0;
            assert forall|j: int| 0 <= j < items.len() implies comes_back(
                read,
                #[trigger] items[j],
                ts[j],
                p,
            ) by {
                assert(of_type(items[j], ts[j], p));
                lemma_comes_back(read, items[j], ts[j], p);
            }
            lemma_items_lifted(items, p);
            assert(items.take(0) =~= Seq::empty());
            lemma_each(read, items, ts, 0, p);
        },
        TyV::SetOf(e) => {
            let keys = v->SetOf_0;
            assert(keys.take(0) =~= Seq::empty());
            lemma_set(read, keys, *e, 0, p);
        },
        TyV::Dict(k, e) => {
            let entries = v->Dict_0;
            assert forall|j: int| 0 <= j < entries.len() implies comes_back(
                read,
                (#[trigger] entries[j]).1,
                *e,
                p,
            ) by {
                assert(of_type(entries[j].1, *e, p));
                lemma_comes_back(read, entries[j].1, *e, p);
            }
            assert(entries_lifted(entries, p).take(0) =~= Seq::empty());
            assert(entries.take(0) =~= Seq::empty());
            lemma_lifted_entries(entries, 0, p);
            lemma_entries(read, entries, *e, 0, p);
        },
        TyV::Named { name, args } => {
            if name == "Value"@ {
            } else if name == "Option"@ {
                reveal_strlit("Value");
                reveal_strlit("Option");
                assert("Value"@.len() != "Option"@.len());
                if v != none_v() {
                    let fields = v->Enum_fields;
                    lemma_comes_back(read, fields[0], args[0], p);
                    assert(lifted(v, p.structs) == lifted(fields[0], p.structs));
                    lemma_variant_known(fields[0], p);
                } else {
                    assert(lifted(v, p.structs) == null_v());
                }
            } else {
                match lookup(p.enums, name) {
                    Some(decl) => {
                        let fields = v->Enum_fields;
                        let at = variant_from(decl.variants, v->variant_name, 0).unwrap();
                        let ts = variant_tys(decl, args, at, p).unwrap();
                        assert forall|j: int| 0 <= j < ts.len() implies comes_back(
                            read,
                            #[trigger] v->Enum_fields[j],
                            ts[j],
                            p,
                        ) by {
                            assert(of_type(fields[j], ts[j], p));
                            lemma_comes_back(read, fields[j], ts[j], p);
                        }
                        lemma_variant(read, v, name, args, decl, at, ts, p);
                    },
                    None => {
                        let decl = lookup(p.structs, name).unwrap();
                        let fields = v->Struct_fields;
                        assert forall|j: int| 0 <= j < fields.len() implies field_comes_back(
                            read,
                            decl,
                            args,
                            #[trigger] fields[j],
                            j,
                            p,
                        ) by {
                            let ft = field_ty(decl, args, j, p).unwrap();
                            assert(of_type(fields[j], ft, p));
                            lemma_comes_back(read, fields[j], ft, p);
                        }
                        lemma_struct(read, v, name, args, decl, p);
                    },
                }
            }
        },
        _ => {},
    }
}

proof fn lemma_variant_known(v: ValueV, p: ProgramV)
    ensures
        variant_of(lifted(v, p.structs)) is Some,
    decreases v,
{
    if let ValueV::Enum { ty_name, variant_index, variant_name, fields } = v {
        if fields.len() > 0 {
            lemma_variant_known(fields[0], p);
        }
    }
}

/// Lowering undoes lifting: a value of a type comes back as it was.
pub proof fn law_lowering_undoes_lifting(read: Reading, v: ValueV, t: TyV, p: ProgramV)
    requires
        of_type(v, t, p),
    ensures
        lowered(read, t, lifted(v, p.structs), p) == Ok::<ValueV, ValueV>(v),
{
    lemma_comes_back(read, v, t, p);
}

} // verus!
