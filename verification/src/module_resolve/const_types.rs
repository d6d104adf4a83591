//! The types of module constants, held against their values.

use super::const_laws::{law_constants_have_the_values_of_their_expressions, names_differ, settled};
use super::consts::{
    alike_from, alike_side_from, const_type, const_value, consts_resolved, entries_from, is_key_ty,
    keys_from, type_round, types_checked, types_from, unsettled_from, values_from, CandidateV,
    TypeRoundV,
};
use super::module_grammar::{checked_from, is_const};
use crate::ast::{ExprKindV, ExprV, ItemV};
use crate::diagnostics::{DiagnosticView, ErrorCode};
use crate::eval::keys::KeyV;
use crate::eval::value::{has_key, inserted, key_index, try_key_v, try_keys_v, ValueV};
use crate::names::{lemma_put_lookup, lookup, put};
use crate::types::TyV;
use vstd::prelude::*;

verus! {

/// A key is of a type.
pub open spec fn key_fits(k: KeyV, t: TyV) -> bool
    decreases k,
{
    match (k, t) {
        (KeyV::Str(_), TyV::Str) => true,
        (KeyV::Int(_), TyV::Int) => true,
        (KeyV::Bool(_), TyV::Bool) => true,
        (KeyV::Tuple(ks), TyV::Tuple(ts)) => ks.len() == ts.len() && forall|i: int|
            0 <= i < ks.len() ==> key_fits(#[trigger] ks[i], ts[i]),
        _ => false,
    }
}

/// A value is of a type: the items of a list are all of one type, the items of a tuple each of
/// its own.
pub open spec fn fits(v: ValueV, t: TyV) -> bool
    decreases v,
{
    match (v, t) {
        (ValueV::Int(_), TyV::Int) => true,
        (ValueV::Float(_), TyV::Float) => true,
        (ValueV::Bool(_), TyV::Bool) => true,
        (ValueV::Str(_), TyV::Str) => true,
        (ValueV::List(items), TyV::List(e)) => forall|i: int|
            0 <= i < items.len() ==> fits(#[trigger] items[i], *e),
        (ValueV::Tuple(items), TyV::Tuple(ts)) => items.len() == ts.len() && forall|i: int|
            0 <= i < items.len() ==> fits(#[trigger] items[i], ts[i]),
        (ValueV::SetOf(ks), TyV::SetOf(e)) => forall|i: int|
            0 <= i < ks.len() ==> key_fits(#[trigger] ks[i], *e),
        (ValueV::Dict(es), TyV::Dict(k, w)) => forall|i: int|
            0 <= i < es.len() ==> key_fits((#[trigger] es[i]).0, *k) && fits(es[i].1, *w),
        _ => false,
    }
}

/// What has a type in one table has a value of it in the other.
pub open spec fn tables_fit(
    types: Seq<(Seq<char>, TyV)>,
    values: Seq<(Seq<char>, ValueV)>,
) -> bool {
    forall|name: Seq<char>| #[trigger]
        lookup(types, name) is Some ==> lookup(values, name) is Some && fits(
            lookup(values, name).unwrap(),
            lookup(types, name).unwrap(),
        )
}

spec fn all_fit(vs: Seq<ValueV>, t: TyV) -> bool {
    forall|i: int| 0 <= i < vs.len() ==> fits(#[trigger] vs[i], t)
}

spec fn each_fits(vs: Seq<ValueV>, ts: Seq<TyV>) -> bool {
    vs.len() == ts.len() && forall|i: int| 0 <= i < vs.len() ==> fits(#[trigger] vs[i], ts[i])
}

spec fn keys_fit(ks: Seq<KeyV>, t: TyV) -> bool {
    forall|i: int| 0 <= i < ks.len() ==> key_fits(#[trigger] ks[i], t)
}

spec fn entries_fit(es: Seq<(KeyV, ValueV)>, k: TyV, w: TyV) -> bool {
    forall|i: int|
        0 <= i < es.len() ==> key_fits((#[trigger] es[i]).0, k) && fits(es[i].1, w)
}

proof fn lemma_key(v: ValueV, t: TyV)
    requires
        fits(v, t),
        is_key_ty(t),
    ensures
        try_key_v(v) is Some,
        key_fits(try_key_v(v).unwrap(), t),
    decreases v,
{
    if let ValueV::Tuple(items) = v {
        let ts = t->Tuple_0;
        assert forall|i: int| 0 <= i < items.len() implies try_key_v(#[trigger] items[i]) is Some
            && key_fits(try_key_v(items[i]).unwrap(), ts[i]) by {
            assert(is_key_ty(ts[i]));
            lemma_key(items[i], ts[i]);
        }
        lemma_keys(items, ts);
    }
}

proof fn lemma_keys(items: Seq<ValueV>, ts: Seq<TyV>)
    requires
        items.len() == ts.len(),
        forall|i: int|
            0 <= i < items.len() ==> try_key_v(#[trigger] items[i]) is Some && key_fits(
                try_key_v(items[i]).unwrap(),
                ts[i],
            ),
    ensures
        try_keys_v(items) is Some,
        try_keys_v(items).unwrap().len() == items.len(),
        forall|i: int|
            0 <= i < items.len() ==> key_fits(#[trigger] try_keys_v(items).unwrap()[i], ts[i]),
    decreases items.len(),
{
    if items.len() > 0 {
        let less = items.drop_last();
        assert forall|i: int| 0 <= i < less.len() implies try_key_v(#[trigger] less[i]) is Some
            && key_fits(try_key_v(less[i]).unwrap(), ts.drop_last()[i]) by {
            assert(less[i] == items[i]);
        }
        lemma_keys(less, ts.drop_last());
        let n = items.len() - 1;
        assert(items.last() == items[n]);
        assert(try_key_v(items[n]) is Some);
        assert forall|i: int| 0 <= i < items.len() implies key_fits(
            #[trigger] try_keys_v(items).unwrap()[i],
            ts[i],
        ) by {
            if i < n {
                assert(key_fits(try_keys_v(less).unwrap()[i], ts.drop_last()[i]));
            }
        }
    }
}

proof fn lemma_alike_keeps(
    elements: Seq<ExprV>,
    i: int,
    t: TyV,
    types: Seq<(Seq<char>, TyV)>,
)
    requires
        alike_from(elements, i, Some(t), types) is Ok,
    ensures
        alike_from(elements, i, Some(t), types) == Ok::<TyV, Option<DiagnosticView>>(t),
    decreases elements.len() - i,
{
    if 0 <= i < elements.len() {
        lemma_alike_keeps(elements, i + 1, t, types);
    }
}

proof fn lemma_alike_side_keeps(
    entries: Seq<(ExprV, ExprV)>,
    first: bool,
    i: int,
    t: TyV,
    types: Seq<(Seq<char>, TyV)>,
)
    requires
        alike_side_from(entries, first, i, Some(t), types) is Ok,
    ensures
        alike_side_from(entries, first, i, Some(t), types) == Ok::<TyV, Option<DiagnosticView>>(t),
    decreases entries.len() - i,
{
    if 0 <= i < entries.len() {
        lemma_alike_side_keeps(entries, first, i + 1, t, types);
    }
}

proof fn lemma_list(
    elements: Seq<ExprV>,
    i: int,
    expected: Option<TyV>,
    t: TyV,
    types: Seq<(Seq<char>, TyV)>,
    values: Seq<(Seq<char>, ValueV)>,
    vs: Seq<ValueV>,
)
    requires
        tables_fit(types, values),
        0 <= i,
        alike_from(elements, i, expected, types) == Ok::<TyV, Option<DiagnosticView>>(t),
        all_fit(vs, t),
    ensures
        values_from(elements, i, values, vs) is Some,
        all_fit(values_from(elements, i, values, vs).unwrap(), t),
        forall|j: int| i <= j < elements.len() ==> is_const(#[trigger] elements[j]),
    decreases elements, elements.len() - i,
{
    if i < elements.len() {
        let u = const_type(elements[i], types)->Ok_0;
        lemma_alike_keeps(elements, i + 1, u, types);
        lemma_fits(elements[i], types, values);
        let v = const_value(elements[i], values).unwrap();
        lemma_list(elements, i + 1, Some(u), t, types, values, vs.push(v));
    }
}

proof fn lemma_set(
    elements: Seq<ExprV>,
    i: int,
    expected: Option<TyV>,
    t: TyV,
    types: Seq<(Seq<char>, TyV)>,
    values: Seq<(Seq<char>, ValueV)>,
    ks: Seq<KeyV>,
)
    requires
        tables_fit(types, values),
        0 <= i,
        alike_from(elements, i, expected, types) == Ok::<TyV, Option<DiagnosticView>>(t),
        is_key_ty(t),
        keys_fit(ks, t),
    ensures
        keys_from(elements, i, values, ks) is Some,
        keys_fit(keys_from(elements, i, values, ks).unwrap(), t),
        forall|j: int| i <= j < elements.len() ==> is_const(#[trigger] elements[j]),
    decreases elements, elements.len() - i,
{
    if i < elements.len() {
        let u = const_type(elements[i], types)->Ok_0;
        lemma_alike_keeps(elements, i + 1, u, types);
        lemma_fits(elements[i], types, values);
        let v = const_value(elements[i], values).unwrap();
        lemma_key(v, t);
        let k = try_key_v(v).unwrap();
        let more = if ks.contains(k) {
            ks
        } else {
            ks.push(k)
        };
        lemma_set(elements, i + 1, Some(u), t, types, values, more);
    }
}

proof fn lemma_tuple(
    elements: Seq<ExprV>,
    i: int,
    types: Seq<(Seq<char>, TyV)>,
    values: Seq<(Seq<char>, ValueV)>,
    ts: Seq<TyV>,
    vs: Seq<ValueV>,
)
    requires
        tables_fit(types, values),
        0 <= i,
        types_from(elements, i, types, ts) is Ok,
        each_fits(vs, ts),
    ensures
        values_from(elements, i, values, vs) is Some,
        each_fits(
            values_from(elements, i, values, vs).unwrap(),
            types_from(elements, i, types, ts)->Ok_0,
        ),
        forall|j: int| i <= j < elements.len() ==> is_const(#[trigger] elements[j]),
    decreases elements, elements.len() - i,
{
    if i < elements.len() {
        lemma_fits(elements[i], types, values);
        let t = const_type(elements[i], types)->Ok_0;
        let v = const_value(elements[i], values).unwrap();
        lemma_tuple(elements, i + 1, types, values, ts.push(t), vs.push(v));
    }
}

proof fn lemma_dict(
    entries: Seq<(ExprV, ExprV)>,
    i: int,
    ek: Option<TyV>,
    ew: Option<TyV>,
    k: TyV,
    w: TyV,
    types: Seq<(Seq<char>, TyV)>,
    values: Seq<(Seq<char>, ValueV)>,
    es: Seq<(KeyV, ValueV)>,
)
    requires
        tables_fit(types, values),
        0 <= i,
        alike_side_from(entries, true, i, ek, types) == Ok::<TyV, Option<DiagnosticView>>(k),
        alike_side_from(entries, false, i, ew, types) == Ok::<TyV, Option<DiagnosticView>>(w),
        is_key_ty(k),
        entries_fit(es, k, w),
    ensures
        entries_from(entries, i, values, es) is Some,
        entries_fit(entries_from(entries, i, values, es).unwrap(), k, w),
        forall|j: int|
            i <= j < entries.len() ==> is_const((#[trigger] entries[j]).0) && is_const(
                entries[j].1,
            ),
    decreases entries, entries.len() - i,
{
    if i < entries.len() {
        let a = const_type(entries[i].0, types)->Ok_0;
        let b = const_type(entries[i].1, types)->Ok_0;
        lemma_alike_side_keeps(entries, true, i + 1, a, types);
        lemma_alike_side_keeps(entries, false, i + 1, b, types);
        lemma_fits(entries[i].0, types, values);
        lemma_fits(entries[i].1, types, values);
        let x = const_value(entries[i].0, values).unwrap();
        let v = const_value(entries[i].1, values).unwrap();
        lemma_key(x, k);
        let key = try_key_v(x).unwrap();
        assert(entries_fit(inserted(es, key, v), k, w)) by {
            if has_key(es, key) {
                let at = key_index(es, key);
                assert forall|j: int| 0 <= j < es.len() implies key_fits(
                    (#[trigger] es.update(at, (key, v))[j]).0,
                    k,
                ) && fits(es.update(at, (key, v))[j].1, w) by {
                    assert(key_fits(es[j].0, k) && fits(es[j].1, w));
                }
            }
        }
        lemma_dict(entries, i + 1, Some(a), Some(b), k, w, types, values, inserted(es, key, v));
    }
}

#[verifier::spinoff_prover]
proof fn lemma_fits(
    e: ExprV,
    types: Seq<(Seq<char>, TyV)>,
    values: Seq<(Seq<char>, ValueV)>,
)
    requires
        tables_fit(types, values),
        const_type(e, types) is Ok,
    ensures
        const_value(e, values) is Some,
        fits(const_value(e, values).unwrap(), const_type(e, types)->Ok_0),
        is_const(e),
    decreases e, 0int,
{
    match e.kind {
        ExprKindV::Grouping(inner) => {
            lemma_fits(*inner, types, values);
        },
        ExprKindV::ListLit { elements, was_multiline } => {
            let t = alike_from(elements, 0, None, types)->Ok_0;
            lemma_list(elements, 0, None, t, types, values, Seq::empty());
        },
        ExprKindV::SetLit { elements, was_multiline } => {
            let t = alike_from(elements, 0, None, types)->Ok_0;
            lemma_set(elements, 0, None, t, types, values, Seq::empty());
        },
        ExprKindV::TupleLit { elements, was_multiline } => {
            lemma_tuple(elements, 0, types, values, Seq::empty(), Seq::empty());
        },
        ExprKindV::DictLit { entries, was_multiline } => {
            let k = alike_side_from(entries, true, 0, None, types)->Ok_0;
            let w = alike_side_from(entries, false, 0, None, types)->Ok_0;
            lemma_dict(entries, 0, None, None, k, w, types, values, Seq::empty());
        },
        ExprKindV::Ident(name) => {
            assert(lookup(types, name) is Some);
        },
        _ => {},
    }
}

/// An expression of which a type is found has a value, the value is of that type, and the
/// expression may stand in a module.
pub proof fn law_typed_constants_have_values_of_their_types(
    e: ExprV,
    types: Seq<(Seq<char>, TyV)>,
    values: Seq<(Seq<char>, ValueV)>,
)
    requires
        tables_fit(types, values),
        const_type(e, types) is Ok,
    ensures
        const_value(e, values) is Some,
        fits(const_value(e, values).unwrap(), const_type(e, types)->Ok_0),
        is_const(e),
{
    lemma_fits(e, types, values);
}

proof fn lemma_unsettled(rest: Seq<CandidateV>, i: int, notes: Seq<DiagnosticView>)
    requires
        0 <= i <= rest.len(),
    ensures
        unsettled_from(rest, i, notes).len() == notes.len() + rest.len() - i,
    decreases rest.len() - i,
{
    if i < rest.len() {
        lemma_unsettled(rest, i + 1, notes.push(super::consts::unsettled(rest[i])));
    }
}

/// The constants from the `i`-th on have values of their types among `values`, but for those
/// that are put off or reported.
proof fn lemma_round(
    cs: Seq<CandidateV>,
    i: int,
    st: TypeRoundV,
    values: Seq<(Seq<char>, ValueV)>,
)
    requires
        0 <= i <= cs.len(),
        settled(cs, values),
        settled(st.rest, values),
        tables_fit(st.known, values),
    ensures
        tables_fit(type_round(cs, i, st).known, values),
        settled(type_round(cs, i, st).rest, values),
        type_round(cs, i, st).notes.len() >= st.notes.len(),
        type_round(cs, i, st).rest.len() >= st.rest.len(),
        forall|j: int|
            0 <= j < st.rest.len() ==> #[trigger] type_round(cs, i, st).rest[j] == st.rest[j],
        type_round(cs, i, st).notes.len() == st.notes.len() ==> forall|j: int|
            i <= j < cs.len() ==> lookup(values, (#[trigger] cs[j]).name) is Some
                || type_round(cs, i, st).rest.contains(cs[j]),
    decreases cs.len() - i,
{
    if i < cs.len() {
        let c = cs[i];
        assert(lookup(values, c.name) == const_value(c.value, values));
        let next = match const_type(c.value, st.known) {
            Ok(t) => TypeRoundV { known: put(st.known, c.name, t), ..st },
            Err(Some(d)) => TypeRoundV { notes: st.notes.push(d), ..st },
            Err(None) => TypeRoundV { rest: st.rest.push(c), ..st },
        };
        match const_type(c.value, st.known) {
            Ok(t) => {
                lemma_fits(c.value, st.known, values);
                assert forall|name: Seq<char>| #[trigger]
                    lookup(next.known, name) is Some implies lookup(values, name) is Some && fits(
                    lookup(values, name).unwrap(),
                    lookup(next.known, name).unwrap(),
                ) by {
                    lemma_put_lookup(st.known, c.name, t, name);
                }
            },
            _ => {},
        }
        lemma_round(cs, i + 1, next, values);
        let end = type_round(cs, i + 1, next);
        if const_type(c.value, st.known) == Err::<TyV, Option<DiagnosticView>>(None) {
            assert(next.rest[st.rest.len() as int] == c);
            assert(end.rest[st.rest.len() as int] == next.rest[st.rest.len() as int]);
            assert(end.rest.contains(c));
        }
        assert forall|j: int| 0 <= j < st.rest.len() implies #[trigger] end.rest[j]
            == st.rest[j] by {
            assert(next.rest[j] == st.rest[j]);
        }
    }
}

proof fn lemma_checked(
    cs: Seq<CandidateV>,
    types: Seq<(Seq<char>, TyV)>,
    notes: Seq<DiagnosticView>,
    values: Seq<(Seq<char>, ValueV)>,
)
    requires
        settled(cs, values),
        tables_fit(types, values),
    ensures
        types_checked(cs, types, notes).len() >= notes.len(),
        types_checked(cs, types, notes).len() == notes.len() ==> forall|j: int|
            0 <= j < cs.len() ==> lookup(values, (#[trigger] cs[j]).name) is Some,
    decreases cs.len(),
{
    if cs.len() > 0 {
        let start = TypeRoundV { known: types, notes, rest: Seq::empty() };
        let st = type_round(cs, 0, start);
        lemma_round(cs, 0, start, values);
        if st.rest.len() >= cs.len() {
            lemma_unsettled(st.rest, 0, st.notes);
        } else {
            lemma_checked(st.rest, st.known, st.notes, values);
            if types_checked(cs, types, notes).len() == notes.len() {
                assert forall|j: int| 0 <= j < cs.len() implies lookup(
                    values,
                    (#[trigger] cs[j]).name,
                ) is Some by {
                    if st.rest.contains(cs[j]) {
                        let r = choose|r: int| 0 <= r < st.rest.len() && st.rest[r] == cs[j];
                        assert(lookup(values, st.rest[r].name) is Some);
                    }
                }
            }
        }
    }
}

/// Where the types of the constants give nothing to report, every constant has a value.
pub proof fn law_constants_without_reports_have_values(
    cs: Seq<CandidateV>,
    notes: Seq<DiagnosticView>,
    i: int,
)
    requires
        names_differ(cs),
        types_checked(cs, Seq::empty(), notes) == notes,
        0 <= i < cs.len(),
    ensures
        lookup(consts_resolved(cs, Seq::empty()), cs[i].name) is Some,
{
    let values = consts_resolved(cs, Seq::empty());
    law_constants_have_the_values_of_their_expressions(cs, Seq::empty());
    lemma_checked(cs, Seq::empty(), notes, values);
    assert(lookup(values, cs[i].name) is Some);
}

/// What keeps a constant expression from having a value: a name that is not known, or something
/// in the place of a key that cannot be one.
pub open spec fn lacks(e: ExprV, values: Seq<(Seq<char>, ValueV)>) -> bool
    decreases e,
{
    match e.kind {
        ExprKindV::Ident(name) => lookup(values, name) is None,
        ExprKindV::Grouping(inner) => lacks(*inner, values),
        ExprKindV::ListLit { elements, was_multiline } => exists|i: int|
            0 <= i < elements.len() && lacks(#[trigger] elements[i], values),
        ExprKindV::TupleLit { elements, was_multiline } => exists|i: int|
            0 <= i < elements.len() && lacks(#[trigger] elements[i], values),
        ExprKindV::SetLit { elements, was_multiline } => exists|i: int|
            0 <= i < elements.len() && (lacks(#[trigger] elements[i], values) || no_key(
                elements[i],
                values,
            )),
        ExprKindV::DictLit { entries, was_multiline } => exists|i: int|
            0 <= i < entries.len() && (lacks((#[trigger] entries[i]).0, values) || lacks(
                entries[i].1,
                values,
            ) || no_key(entries[i].0, values)),
        _ => false,
    }
}

/// The value of an expression cannot be a key.
pub open spec fn no_key(e: ExprV, values: Seq<(Seq<char>, ValueV)>) -> bool {
    const_value(e, values) matches Some(v) && try_key_v(v) is None
}

spec fn valued(e: ExprV, values: Seq<(Seq<char>, ValueV)>) -> bool {
    const_value(e, values) is Some || lacks(e, values)
}

proof fn lemma_values(
    elements: Seq<ExprV>,
    i: int,
    values: Seq<(Seq<char>, ValueV)>,
    out: Seq<ValueV>,
)
    requires
        0 <= i <= elements.len(),
        forall|j: int| i <= j < elements.len() ==> valued(#[trigger] elements[j], values),
    ensures
        values_from(elements, i, values, out) is Some || exists|j: int|
            i <= j < elements.len() && lacks(#[trigger] elements[j], values),
    decreases elements.len() - i,
{
    if i < elements.len() {
        assert(valued(elements[i], values));
        if let Some(v) = const_value(elements[i], values) {
            lemma_values(elements, i + 1, values, out.push(v));
        }
    }
}

proof fn lemma_set_values(
    elements: Seq<ExprV>,
    i: int,
    values: Seq<(Seq<char>, ValueV)>,
    out: Seq<KeyV>,
)
    requires
        0 <= i <= elements.len(),
        forall|j: int| i <= j < elements.len() ==> valued(#[trigger] elements[j], values),
    ensures
        keys_from(elements, i, values, out) is Some || exists|j: int|
            i <= j < elements.len() && (lacks(#[trigger] elements[j], values) || no_key(
                elements[j],
                values,
            )),
    decreases elements.len() - i,
{
    if i < elements.len() {
        assert(valued(elements[i], values));
        if let Some(v) = const_value(elements[i], values) {
            if let Some(k) = try_key_v(v) {
                let more = if out.contains(k) {
                    out
                } else {
                    out.push(k)
                };
                lemma_set_values(elements, i + 1, values, more);
            } else {
                assert(no_key(elements[i], values));
            }
        }
    }
}

proof fn lemma_dict_values(
    entries: Seq<(ExprV, ExprV)>,
    i: int,
    values: Seq<(Seq<char>, ValueV)>,
    out: Seq<(KeyV, ValueV)>,
)
    requires
        0 <= i <= entries.len(),
        forall|j: int|
            i <= j < entries.len() ==> valued((#[trigger] entries[j]).0, values) && valued(
                entries[j].1,
                values,
            ),
    ensures
        entries_from(entries, i, values, out) is Some || exists|j: int|
            i <= j < entries.len() && (lacks((#[trigger] entries[j]).0, values) || lacks(
                entries[j].1,
                values,
            ) || no_key(entries[j].0, values)),
    decreases entries.len() - i,
{
    if i < entries.len() {
        assert(valued(entries[i].0, values) && valued(entries[i].1, values));
        match (const_value(entries[i].0, values), const_value(entries[i].1, values)) {
            (Some(x), Some(v)) => {
                if let Some(k) = try_key_v(x) {
                    lemma_dict_values(entries, i + 1, values, inserted(out, k, v));
                } else {
                    assert(no_key(entries[i].0, values));
                }
            },
            _ => {},
        }
    }
}

/// An expression that may stand in a module has a value, unless it refers to a name that has
/// none or puts something in the place of a key that cannot be one.
pub proof fn law_module_constants_have_values(e: ExprV, values: Seq<(Seq<char>, ValueV)>)
    requires
        is_const(e),
    ensures
        const_value(e, values) is Some || lacks(e, values),
    decreases e,
{
    match e.kind {
        ExprKindV::Grouping(inner) => {
            law_module_constants_have_values(*inner, values);
        },
        ExprKindV::ListLit { elements, was_multiline } => {
            assert forall|j: int| 0 <= j < elements.len() implies valued(
                #[trigger] elements[j],
                values,
            ) by {
                law_module_constants_have_values(elements[j], values);
            }
            lemma_values(elements, 0, values, Seq::empty());
        },
        ExprKindV::TupleLit { elements, was_multiline } => {
            assert forall|j: int| 0 <= j < elements.len() implies valued(
                #[trigger] elements[j],
                values,
            ) by {
                law_module_constants_have_values(elements[j], values);
            }
            lemma_values(elements, 0, values, Seq::empty());
        },
        ExprKindV::SetLit { elements, was_multiline } => {
            assert forall|j: int| 0 <= j < elements.len() implies valued(
                #[trigger] elements[j],
                values,
            ) by {
                law_module_constants_have_values(elements[j], values);
            }
            lemma_set_values(elements, 0, values, Seq::empty());
        },
        ExprKindV::DictLit { entries, was_multiline } => {
            assert forall|j: int| 0 <= j < entries.len() implies valued(
                (#[trigger] entries[j]).0,
                values,
            ) && valued(entries[j].1, values) by {
                law_module_constants_have_values(entries[j].0, values);
                law_module_constants_have_values(entries[j].1, values);
            }
            lemma_dict_values(entries, 0, values, Seq::empty());
        },
        _ => {},
    }
}

/// The item is a statement that names a value.
pub open spec fn names_a_value(item: ItemV) -> bool {
    item matches ItemV::Stmt(s) && s.kind is NameAssign
}

/// The item names a value of which a type is found.
pub open spec fn names_a_constant(item: ItemV, types: Seq<(Seq<char>, TyV)>) -> bool {
    names_a_value(item) && const_type(item->Stmt_0.kind->NameAssign_value, types) is Ok
}

proof fn lemma_checked_items(
    items: Seq<ItemV>,
    i: int,
    notes: Seq<DiagnosticView>,
    types: Seq<(Seq<char>, TyV)>,
    values: Seq<(Seq<char>, ValueV)>,
)
    requires
        0 <= i <= items.len(),
        tables_fit(types, values),
    ensures
        checked_from(items, i, notes).len() >= notes.len(),
        checked_from(items, i, notes).take(notes.len() as int) == notes,
        forall|j: int|
            i <= j < items.len() && (#[trigger] items[j]) is Stmt && !names_a_value(items[j])
                ==> reported_at(checked_from(items, i, notes), items[j]->Stmt_0.span),
        (forall|j: int|
            i <= j < items.len() && (#[trigger] items[j]) is Stmt ==> names_a_constant(
                items[j],
                types,
            )) ==> checked_from(items, i, notes) == notes,
    decreases items.len() - i,
{
    if i < items.len() {
        let next = match items[i] {
            ItemV::Stmt(s) => if super::module_grammar::const_of(s) is None {
                notes.push(super::module_grammar::misplaced(s))
            } else {
                notes
            },
            _ => notes,
        };
        lemma_checked_items(items, i + 1, next, types, values);
        let end = checked_from(items, i + 1, next);
        assert(end.take(notes.len() as int) =~= next.take(notes.len() as int)) by {
            assert(end.take(next.len() as int) == next);
            assert forall|k: int| 0 <= k < notes.len() implies end[k] == next[k] by {
                assert(end.take(next.len() as int)[k] == next[k]);
            }
        }
        assert(next.take(notes.len() as int) =~= notes);
        if items[i] is Stmt && !names_a_value(items[i]) {
            let n = notes.len() as int;
            assert(end.take(next.len() as int)[n] == next[n]);
            assert(end[n].span == items[i]->Stmt_0.span);
        }
        if names_a_constant(items[i], types) {
            lemma_fits(items[i]->Stmt_0.kind->NameAssign_value, types, values);
        }
    } else {
        assert(notes.take(notes.len() as int) =~= notes);
    }
}

/// A statement at a place is reported as one that may not stand in a module.
pub open spec fn reported_at(notes: Seq<DiagnosticView>, span: crate::diagnostics::Span) -> bool {
    exists|k: int|
        0 <= k < notes.len() && (#[trigger] notes[k]).span == span && notes[k].code
            == ErrorCode::ModuleTopLevelStatement
}

/// Each statement of a module that does not name a value is reported. A module whose statements
/// all name constants of some types is reported nothing, and what was reported stays.
pub proof fn law_modules_hold_declarations_and_constants(
    items: Seq<ItemV>,
    notes: Seq<DiagnosticView>,
    types: Seq<(Seq<char>, TyV)>,
    values: Seq<(Seq<char>, ValueV)>,
)
    requires
        tables_fit(types, values),
    ensures
        checked_from(items, 0, notes).len() >= notes.len(),
        checked_from(items, 0, notes).take(notes.len() as int) == notes,
        forall|j: int|
            0 <= j < items.len() && (#[trigger] items[j]) is Stmt && !names_a_value(items[j])
                ==> reported_at(checked_from(items, 0, notes), items[j]->Stmt_0.span),
        (forall|j: int|
            0 <= j < items.len() && (#[trigger] items[j]) is Stmt ==> names_a_constant(
                items[j],
                types,
            )) ==> checked_from(items, 0, notes) == notes,
{
    lemma_checked_items(items, 0, notes, types, values);
}

} // verus!
