//! Decoded values are of the types that they are decoded to.

use super::dynamic::{dyn_of, lemma_dict_smaller, lemma_payload_smaller};
use super::json::Reading;
use super::lift_laws::{field_ty, variant_tys};
use super::lower::{
    each_lowered_from, entries_lowered_from, enum_lowered, fields_lowered_from, list_lowered_from,
    lowered, payload_lowered, set_lowered_from, struct_lowered, variant_from, variant_no,
};
use crate::ast::StructV;
use crate::eval::env::ProgramV;
use crate::eval::keys::KeyV;
use crate::eval::value::{inserted, key_index, try_key_v, try_keys_v, ValueV};
use crate::generics::bindings_from;
use crate::names::lookup;
use crate::stdlib::{none_v, some_v};
use crate::types::TyV;
use vstd::prelude::*;

verus! {

/// A key is of a type. A `Value` may be anything.
pub open spec fn key_typed(k: KeyV, t: TyV) -> bool
    decreases k,
{
    match t {
        TyV::Str => k is Str,
        TyV::Int => k is Int,
        TyV::Bool => k is Bool,
        TyV::Tuple(ts) => k matches KeyV::Tuple(ks) && ks.len() == ts.len() && forall|i: int|
            0 <= i < ks.len() ==> key_typed(#[trigger] ks[i], ts[i]),
        TyV::Named { name, args } => name == "Value"@,
        _ => false,
    }
}

/// The types of the fields of a struct, unknown where an annotation names none.
pub open spec fn field_tys(decl: StructV, args: Seq<TyV>, p: ProgramV) -> Seq<TyV> {
    Seq::new(
        decl.fields.len(),
        |i: int|
            match field_ty(decl, args, i, p) {
                Some(t) => t,
                None => TyV::Unknown,
            },
    )
}

/// A value is of a type. A `Value` may be anything.
pub open spec fn typed(v: ValueV, t: TyV, p: ProgramV) -> bool
    decreases v,
{
    match t {
        TyV::Int => v is Int,
        TyV::Float => v is Float,
        TyV::Bool => v is Bool,
        TyV::Str => v is Str,
        TyV::List(e) => v matches ValueV::List(items) && forall|i: int|
            0 <= i < items.len() ==> typed(#[trigger] items[i], *e, p),
        TyV::Tuple(ts) => v matches ValueV::Tuple(items) && items.len() == ts.len() && forall|
            i: int,
        |
            0 <= i < items.len() ==> typed(#[trigger] items[i], ts[i], p),
        TyV::SetOf(e) => v matches ValueV::SetOf(keys) && keys.no_duplicates() && forall|i: int|
            0 <= i < keys.len() ==> key_typed(#[trigger] keys[i], *e),
        TyV::Dict(k, e) => v matches ValueV::Dict(entries) && *k is Str && forall|i: int|
            0 <= i < entries.len() ==> typed((#[trigger] entries[i]).1, *e, p),
        TyV::Named { name, args } => if name == "Value"@ {
            true
        } else if name == "Option"@ && args.len() == 1 {
            ||| v == none_v()
            ||| v matches ValueV::Enum { fields, .. } && fields.len() == 1 && v == some_v(fields[0])
                && typed(fields[0], args[0], p)
        } else {
            match lookup(p.enums, name) {
                Some(decl) => v matches ValueV::Enum {
                    ty_name,
                    variant_index,
                    variant_name,
                    fields,
                } && ty_name == name && match variant_from(decl.variants, variant_name, 0) {
                    Some(at) => variant_index == variant_no(at) && match variant_tys(
                        decl,
                        args,
                        at,
                        p,
                    ) {
                        Some(ts) => fields.len() == ts.len() && forall|i: int|
                            0 <= i < fields.len() ==> typed(#[trigger] fields[i], ts[i], p),
                        None => false,
                    },
                    None => false,
                },
                None => match lookup(p.structs, name) {
                    Some(decl) => v matches ValueV::Struct { ty_name, fields } && ty_name == name
                        && fields.len() == decl.fields.len() && forall|i: int|
                        0 <= i < fields.len() ==> typed(
                            #[trigger] fields[i],
                            field_tys(decl, args, p)[i],
                            p,
                        ),
                    None => false,
                },
            }
        },
        _ => false,
    }
}

spec fn all_typed(vs: Seq<ValueV>, t: TyV, p: ProgramV) -> bool {
    forall|i: int| 0 <= i < vs.len() ==> typed(#[trigger] vs[i], t, p)
}

spec fn each_typed(vs: Seq<ValueV>, ts: Seq<TyV>, p: ProgramV) -> bool {
    forall|i: int| 0 <= i < vs.len() ==> typed(#[trigger] vs[i], ts[i], p)
}

spec fn keys_typed(ks: Seq<KeyV>, t: TyV) -> bool {
    ks.no_duplicates() && forall|i: int| 0 <= i < ks.len() ==> key_typed(#[trigger] ks[i], t)
}

spec fn entries_typed(es: Seq<(KeyV, ValueV)>, t: TyV, p: ProgramV) -> bool {
    forall|i: int| 0 <= i < es.len() ==> typed((#[trigger] es[i]).1, t, p)
}

/// The key that a value is, if it is one, is of a type.
spec fn keyed(v: ValueV, t: TyV) -> bool {
    match try_key_v(v) {
        Some(k) => key_typed(k, t),
        None => true,
    }
}

proof fn lemma_keys_typed(items: Seq<ValueV>, ts: Seq<TyV>)
    requires
        items.len() == ts.len(),
        forall|i: int| 0 <= i < items.len() ==> keyed(#[trigger] items[i], ts[i]),
        try_keys_v(items) is Some,
    ensures
        try_keys_v(items).unwrap().len() == items.len(),
        forall|i: int|
            0 <= i < items.len() ==> key_typed(#[trigger] try_keys_v(items).unwrap()[i], ts[i]),
    decreases items.len(),
{
    if items.len() > 0 {
        let less = items.drop_last();
        let n = items.len() - 1;
        assert forall|i: int| 0 <= i < less.len() implies keyed(
            #[trigger] less[i],
            ts.drop_last()[i],
        ) by {
            assert(keyed(items[i], ts[i]));
        }
        lemma_keys_typed(less, ts.drop_last());
        assert(keyed(items[n], ts[n]));
        assert forall|i: int| 0 <= i < items.len() implies key_typed(
            #[trigger] try_keys_v(items).unwrap()[i],
            ts[i],
        ) by {
            if i < n {
                assert(key_typed(try_keys_v(less).unwrap()[i], ts.drop_last()[i]));
            }
        }
    }
}

proof fn lemma_keyed(v: ValueV, t: TyV, p: ProgramV)
    requires
        typed(v, t, p),
    ensures
        keyed(v, t),
    decreases v,
{
    if let ValueV::Tuple(items) = v {
        if try_keys_v(items) is Some && t is Tuple {
            let ts = t->Tuple_0;
            assert forall|i: int| 0 <= i < items.len() implies keyed(#[trigger] items[i], ts[i]) by {
                lemma_keyed(items[i], ts[i], p);
            }
            lemma_keys_typed(items, ts);
        }
    }
}

proof fn lemma_list(
    read: Reading,
    t: TyV,
    items: Seq<ValueV>,
    i: int,
    p: ProgramV,
    out: Seq<ValueV>,
)
    requires
        all_typed(out, t, p),
        list_lowered_from(read, t, items, i, p, out) is Ok,
    ensures
        all_typed(list_lowered_from(read, t, items, i, p, out)->Ok_0, t, p),
    decreases items, TyV::Int, items.len() - i,
{
    if 0 <= i < items.len() {
        lemma_typed(read, t, items[i], p);
        let v = lowered(read, t, items[i], p)->Ok_0;
        lemma_list(read, t, items, i + 1, p, out.push(v));
    }
}

proof fn lemma_set(
    read: Reading,
    t: TyV,
    items: Seq<ValueV>,
    i: int,
    p: ProgramV,
    out: Seq<KeyV>,
)
    requires
        keys_typed(out, t),
        set_lowered_from(read, t, items, i, p, out) is Ok,
    ensures
        keys_typed(set_lowered_from(read, t, items, i, p, out)->Ok_0, t),
    decreases items, TyV::Int, items.len() - i,
{
    if 0 <= i < items.len() {
        lemma_typed(read, t, items[i], p);
        let v = lowered(read, t, items[i], p)->Ok_0;
        lemma_keyed(v, t, p);
        let k = try_key_v(v).unwrap();
        let more = if out.contains(k) {
            out
        } else {
            out.push(k)
        };
        lemma_set(read, t, items, i + 1, p, more);
    }
}

proof fn lemma_each(
    read: Reading,
    ts: Seq<TyV>,
    items: Seq<ValueV>,
    i: int,
    p: ProgramV,
    out: Seq<ValueV>,
)
    requires
        0 <= i <= items.len(),
        out.len() == i,
        each_typed(out, ts, p),
        each_lowered_from(read, ts, items, i, p, out) is Ok,
    ensures
        each_typed(each_lowered_from(read, ts, items, i, p, out)->Ok_0, ts, p),
        each_lowered_from(read, ts, items, i, p, out)->Ok_0.len() == items.len(),
    decreases items, TyV::Int, items.len() - i,
{
    if i < items.len() {
        lemma_typed(read, ts[i], items[i], p);
        let v = lowered(read, ts[i], items[i], p)->Ok_0;
        lemma_each(read, ts, items, i + 1, p, out.push(v));
    }
}

proof fn lemma_entries(
    read: Reading,
    t: TyV,
    entries: Seq<(KeyV, ValueV)>,
    i: int,
    p: ProgramV,
    out: Seq<(KeyV, ValueV)>,
)
    requires
        entries_typed(out, t, p),
        entries_lowered_from(read, t, entries, i, p, out) is Ok,
    ensures
        entries_typed(entries_lowered_from(read, t, entries, i, p, out)->Ok_0, t, p),
    decreases entries, TyV::Int, entries.len() - i,
{
    if 0 <= i < entries.len() {
        assert(decreases_to!(entries => entries[i]));
        assert(decreases_to!(entries[i] => entries[i].1));
        lemma_typed(read, t, entries[i].1, p);
        let v = lowered(read, t, entries[i].1, p)->Ok_0;
        let k = entries[i].0;
        let more = inserted(out, k, v);
        assert forall|j: int| 0 <= j < more.len() implies typed((#[trigger] more[j]).1, t, p) by {
            if j < out.len() {
                assert(typed(out[j].1, t, p));
            }
        }
        lemma_entries(read, t, entries, i + 1, p, more);
    }
}

proof fn lemma_fields(
    read: Reading,
    decl: StructV,
    args: Seq<TyV>,
    i: int,
    entries: Seq<(KeyV, ValueV)>,
    p: ProgramV,
    out: Seq<ValueV>,
)
    requires
        0 <= i <= decl.fields.len(),
        out.len() == i,
        each_typed(out, field_tys(decl, args, p), p),
        fields_lowered_from(
            read,
            decl.fields,
            i,
            decl.generics,
            bindings_from(decl.generics, args, 0, Seq::empty()),
            entries,
            p,
            out,
        ) is Ok,
    ensures
        ({
            let r = fields_lowered_from(
                read,
                decl.fields,
                i,
                decl.generics,
                bindings_from(decl.generics, args, 0, Seq::empty()),
                entries,
                p,
                out,
            )->Ok_0;
            each_typed(r, field_tys(decl, args, p), p) && r.len() == decl.fields.len()
        }),
    decreases entries, TyV::Int, decl.fields.len() - i,
{
    if i < decl.fields.len() {
        let at = key_index(entries, KeyV::Str(decl.fields[i].name));
        let t = field_ty(decl, args, i, p).unwrap();
        assert(0 <= at < entries.len());
        assert(decreases_to!(entries => entries[at]));
        assert(decreases_to!(entries[at] => entries[at].1));
        lemma_typed(read, t, entries[at].1, p);
        let v = lowered(read, t, entries[at].1, p)->Ok_0;
        let more = out.push(v);
        assert(field_tys(decl, args, p)[i] == t);
        lemma_fields(read, decl, args, i + 1, entries, p, more);
    }
}

proof fn lemma_payload(read: Reading, ts: Seq<TyV>, payload: ValueV, p: ProgramV)
    requires
        payload_lowered(read, ts, payload, p) is Ok,
    ensures
        each_typed(payload_lowered(read, ts, payload, p)->Ok_0, ts, p),
        payload_lowered(read, ts, payload, p)->Ok_0.len() == ts.len(),
    decreases payload, TyV::Tuple(ts), 1int,
{
    if ts.len() == 1 {
        let all = TyV::Tuple(ts);
        assert(decreases_to!(all => all->Tuple_0));
        assert(decreases_to!(ts => ts[0]));
        lemma_typed(read, ts[0], payload, p);
    } else if ts.len() > 1 {
        lemma_payload_smaller(payload);
        let items = dyn_of(payload)->List_0;
        lemma_each(read, ts, items, 0, p, Seq::empty());
    }
}

#[verifier::spinoff_prover]
#[verifier::rlimit(50)]
proof fn lemma_typed(read: Reading, t: TyV, d: ValueV, p: ProgramV)
    requires
        lowered(read, t, d, p) is Ok,
    ensures
        typed(lowered(read, t, d, p)->Ok_0, t, p),
    decreases d, t, 1int,
{
    let is_value = t matches TyV::Named { name, .. } && name == "Value"@;
    if !is_value {
        lemma_payload_smaller(d);
        match t {
            TyV::List(e) => {
                lemma_list(read, *e, dyn_of(d)->List_0, 0, p, Seq::empty());
            },
            TyV::SetOf(e) => {
                lemma_set(read, *e, dyn_of(d)->List_0, 0, p, Seq::empty());
            },
            TyV::Tuple(ts) => {
                lemma_each(read, ts, dyn_of(d)->List_0, 0, p, Seq::empty());
            },
            TyV::Dict(k, e) => {
                lemma_entries(read, *e, dyn_of(d)->Dict_0, 0, p, Seq::empty());
            },
            TyV::Named { name, args } => {
                if name == "Option"@ && args.len() == 1 {
                    if lowered(read, t, d, p)->Ok_0 != none_v() {
                        assert(decreases_to!(t => args));
                        assert(decreases_to!(args => args[0]));
                        lemma_typed(read, args[0], d, p);
                        let v = lowered(read, args[0], d, p)->Ok_0;
                        let r = some_v(v);
                        assert(r->Enum_fields =~= seq![v]);
                        assert(r->Enum_fields[0] == v);
                        assert(r == some_v(r->Enum_fields[0]));
                        assert(typed(r, t, p));
                    }
                } else {
                    match lookup(p.enums, name) {
                        Some(decl) => {
                            assert(enum_lowered(read, name, decl, args, d, p) is Ok);
                            assert(dyn_of(d) is Dict);
                            lemma_dict_smaller(d);
                            let tagged = dyn_of(d)->Dict_0;
                            assert(decreases_to!(d => tagged[0].1));
                            let at = variant_from(
                                decl.variants,
                                tagged[0].0->Str_0,
                                0,
                            ).unwrap();
                            let ts = variant_tys(decl, args, at, p).unwrap();
                            lemma_payload(read, ts, tagged[0].1, p);
                            let r = lowered(read, t, d, p)->Ok_0;
                            assert(r->Enum_fields.len() == ts.len());
                            assert(typed(r, t, p));
                        },
                        None => {
                            assert(struct_lowered(read, name, args, d, p) is Ok);
                            assert(dyn_of(d) is Dict);
                            let decl = lookup(p.structs, name).unwrap();
                            let entries = dyn_of(d)->Dict_0;
                            lemma_fields(read, decl, args, 0, entries, p, Seq::empty());
                            let r = lowered(read, t, d, p)->Ok_0;
                            let fields = r->Struct_fields;
                            assert(each_typed(fields, field_tys(decl, args, p), p));
                            assert(typed(r, t, p));
                        },
                    }
                }
            },
            _ => {},
        }
    }
}

/// A value that is decoded to a type is of that type.
pub proof fn law_decoded_values_are_of_their_types(read: Reading, t: TyV, d: ValueV, p: ProgramV)
    requires
        lowered(read, t, d, p) is Ok,
    ensures
        typed(lowered(read, t, d, p)->Ok_0, t, p),
{
    lemma_typed(read, t, d, p);
}

} // verus!
