//! What holds of the names and the constants of a program.

use super::consts::{
    const_value, consts_resolved, entries_from, keys_from, value_round, values_from, CandidateV,
    ValueRoundV,
};
use super::flat_namespace::{
    declared_from, declared_one, modules_from, namespace, registered, taken, AnnouncementV, SpaceV,
};
use crate::ast::{ExprKindV, ExprV, ModuleV};
use crate::diagnostics::{DiagnosticView, ErrorCode, Span};
use crate::eval::env::ProgramV;
use crate::eval::keys::KeyV;
use crate::eval::value::{inserted, try_key_v, ValueV};
use crate::names::{lemma_put_lookup, lookup, put};
use vstd::prelude::*;

verus! {

// ---------------------------------------------------------------------------
// More constants
// ---------------------------------------------------------------------------

/// What one table has, another one has too.
pub open spec fn extends<T>(some: Seq<(Seq<char>, T)>, more: Seq<(Seq<char>, T)>) -> bool {
    forall|name: Seq<char>|
        #[trigger] lookup(some, name) is Some ==> lookup(more, name) == lookup(some, name)
}

proof fn lemma_value_stays(
    e: ExprV,
    some: Seq<(Seq<char>, ValueV)>,
    more: Seq<(Seq<char>, ValueV)>,
)
    requires
        extends(some, more),
        const_value(e, some) is Some,
    ensures
        const_value(e, more) == const_value(e, some),
    decreases e, 0int,
{
    match e.kind {
        ExprKindV::Ident(name) => {
            assert(lookup(some, name) is Some);
        },
        ExprKindV::Grouping(inner) => {
            lemma_value_stays(*inner, some, more);
        },
        ExprKindV::ListLit { elements, was_multiline } => {
            lemma_values_stay(elements, 0, some, more, Seq::empty());
        },
        ExprKindV::TupleLit { elements, was_multiline } => {
            lemma_values_stay(elements, 0, some, more, Seq::empty());
        },
        ExprKindV::SetLit { elements, was_multiline } => {
            lemma_keys_stay(elements, 0, some, more, Seq::empty());
        },
        ExprKindV::DictLit { entries, was_multiline } => {
            lemma_entries_stay(entries, 0, some, more, Seq::empty());
        },
        _ => {},
    }
}

proof fn lemma_values_stay(
    elements: Seq<ExprV>,
    i: int,
    some: Seq<(Seq<char>, ValueV)>,
    more: Seq<(Seq<char>, ValueV)>,
    out: Seq<ValueV>,
)
    requires
        extends(some, more),
        values_from(elements, i, some, out) is Some,
    ensures
        values_from(elements, i, more, out) == values_from(elements, i, some, out),
    decreases elements, elements.len() - i,
{
    if 0 <= i < elements.len() {
        lemma_value_stays(elements[i], some, more);
        let v = const_value(elements[i], some).unwrap();
        lemma_values_stay(elements, i + 1, some, more, out.push(v));
    }
}

proof fn lemma_keys_stay(
    elements: Seq<ExprV>,
    i: int,
    some: Seq<(Seq<char>, ValueV)>,
    more: Seq<(Seq<char>, ValueV)>,
    out: Seq<KeyV>,
)
    requires
        extends(some, more),
        keys_from(elements, i, some, out) is Some,
    ensures
        keys_from(elements, i, more, out) == keys_from(elements, i, some, out),
    decreases elements, elements.len() - i,
{
    if 0 <= i < elements.len() {
        lemma_value_stays(elements[i], some, more);
        let k = try_key_v(const_value(elements[i], some).unwrap()).unwrap();
        let next = if out.contains(k) {
            out
        } else {
            out.push(k)
        };
        lemma_keys_stay(elements, i + 1, some, more, next);
    }
}

proof fn lemma_entries_stay(
    entries: Seq<(ExprV, ExprV)>,
    i: int,
    some: Seq<(Seq<char>, ValueV)>,
    more: Seq<(Seq<char>, ValueV)>,
    out: Seq<(KeyV, ValueV)>,
)
    requires
        extends(some, more),
        entries_from(entries, i, some, out) is Some,
    ensures
        entries_from(entries, i, more, out) == entries_from(entries, i, some, out),
    decreases entries, entries.len() - i,
{
    if 0 <= i < entries.len() {
        lemma_value_stays(entries[i].0, some, more);
        lemma_value_stays(entries[i].1, some, more);
        let k = try_key_v(const_value(entries[i].0, some).unwrap()).unwrap();
        let v = const_value(entries[i].1, some).unwrap();
        lemma_entries_stay(entries, i + 1, some, more, inserted(out, k, v));
    }
}

// ---------------------------------------------------------------------------
// Rounds
// ---------------------------------------------------------------------------

/// No two constants have the same name.
pub open spec fn names_differ(cs: Seq<CandidateV>) -> bool {
    forall|i: int, j: int|
        0 <= i < j < cs.len() ==> (#[trigger] cs[i]).name != (#[trigger] cs[j]).name
}

/// None of the constants from the `i`-th on is known.
pub open spec fn unknown_from(
    cs: Seq<CandidateV>,
    i: int,
    known: Seq<(Seq<char>, ValueV)>,
) -> bool {
    forall|j: int| i <= j < cs.len() ==> lookup(known, (#[trigger] cs[j]).name) is None
}

/// Each constant is known as what its expression stands for, and is not known where that is
/// nothing.
pub open spec fn settled(cs: Seq<CandidateV>, known: Seq<(Seq<char>, ValueV)>) -> bool {
    forall|j: int|
        0 <= j < cs.len() ==> lookup(known, (#[trigger] cs[j]).name) == const_value(
            cs[j].value,
            known,
        )
}

/// The names of the constants from the `i`-th on are none of those of some others.
spec fn apart_from(rest: Seq<CandidateV>, cs: Seq<CandidateV>, i: int) -> bool {
    forall|r: int, j: int|
        0 <= r < rest.len() && i <= j < cs.len() ==> (#[trigger] rest[r]).name != (
        #[trigger] cs[j]).name
}

proof fn lemma_round(cs: Seq<CandidateV>, i: int, st: ValueRoundV)
    requires
        0 <= i <= cs.len(),
        names_differ(cs),
        unknown_from(cs, i, st.known),
        names_differ(st.rest),
        unknown_from(st.rest, 0, st.known),
        apart_from(st.rest, cs, i),
    ensures
        ({
            let out = value_round(cs, i, st);
            &&& extends(st.known, out.known)
            &&& names_differ(out.rest)
            &&& unknown_from(out.rest, 0, out.known)
            &&& st.rest.len() <= out.rest.len() <= st.rest.len() + cs.len() - i
            &&& forall|r: int| 0 <= r < st.rest.len() ==> out.rest[r] == #[trigger] st.rest[r]
            &&& forall|j: int|
                i <= j < cs.len() ==> out.rest.contains(#[trigger] cs[j]) || (lookup(
                    out.known,
                    cs[j].name,
                ) is Some && const_value(cs[j].value, out.known) == lookup(out.known, cs[j].name))
            &&& out.rest.len() == st.rest.len() + cs.len() - i ==> out.known == st.known
                && forall|j: int|
                i <= j < cs.len() ==> const_value((#[trigger] cs[j]).value, st.known) is None
        }),
    decreases cs.len() - i,
{
    if i < cs.len() {
        let c = cs[i];
        match const_value(c.value, st.known) {
            Some(v) => {
                let next = ValueRoundV { known: put(st.known, c.name, v), ..st };
                assert forall|name: Seq<char>| true implies #[trigger] lookup(next.known, name)
                    == if name == c.name {
                    Some(v)
                } else {
                    lookup(st.known, name)
                } by {
                    lemma_put_lookup(st.known, c.name, v, name);
                }
                assert(unknown_from(cs, i + 1, next.known)) by {
                    assert forall|j: int| i + 1 <= j < cs.len() implies lookup(
                        next.known,
                        (#[trigger] cs[j]).name,
                    ) is None by {
                        assert(cs[i].name != cs[j].name);
                    }
                }
                assert(unknown_from(st.rest, 0, next.known)) by {
                    assert forall|r: int| 0 <= r < st.rest.len() implies lookup(
                        next.known,
                        (#[trigger] st.rest[r]).name,
                    ) is None by {
                        assert(st.rest[r].name != cs[i].name);
                    }
                }
                assert(lookup(st.known, c.name) is None);
                assert(extends(st.known, next.known));
                lemma_round(cs, i + 1, next);
                let out = value_round(cs, i + 1, next);
                assert(extends(st.known, out.known)) by {
                    assert forall|name: Seq<char>|
                        #[trigger] lookup(st.known, name) is Some implies lookup(out.known, name)
                        == lookup(st.known, name) by {
                        assert(lookup(next.known, name) is Some);
                    }
                }
                lemma_value_stays(c.value, st.known, out.known);
                assert(lookup(next.known, c.name) == Some(v));
            },
            None => {
                let next = ValueRoundV { rest: st.rest.push(c), ..st };
                assert(names_differ(next.rest)) by {
                    assert forall|a: int, b: int| 0 <= a < b < next.rest.len() implies (
                    #[trigger] next.rest[a]).name != (#[trigger] next.rest[b]).name by {
                        if b == st.rest.len() {
                            assert(st.rest[a].name != cs[i].name);
                        }
                    }
                }
                assert(apart_from(next.rest, cs, i + 1)) by {
                    assert forall|r: int, j: int|
                        0 <= r < next.rest.len() && i + 1 <= j < cs.len() implies (
                    #[trigger] next.rest[r]).name != (#[trigger] cs[j]).name by {
                        if r == st.rest.len() {
                            assert(cs[i].name != cs[j].name);
                        }
                    }
                }
                assert(unknown_from(next.rest, 0, next.known));
                lemma_round(cs, i + 1, next);
                let out = value_round(cs, i + 1, next);
                assert(next.rest[st.rest.len() as int] == c);
                assert(out.rest[st.rest.len() as int] == c);
                assert(out.rest.contains(c));
                assert forall|r: int| 0 <= r < st.rest.len() implies out.rest[r]
                    == #[trigger] st.rest[r] by {
                    assert(next.rest[r] == st.rest[r]);
                }
            },
        }
    }
}

proof fn lemma_settles(cs: Seq<CandidateV>, known: Seq<(Seq<char>, ValueV)>)
    requires
        names_differ(cs),
        unknown_from(cs, 0, known),
    ensures
        extends(known, consts_resolved(cs, known)),
        settled(cs, consts_resolved(cs, known)),
    decreases cs.len(),
{
    let start = ValueRoundV { known, rest: Seq::empty() };
    let st = value_round(cs, 0, start);
    let all = consts_resolved(cs, known);
    lemma_round(cs, 0, start);
    if st.rest.len() < cs.len() {
        lemma_settles(st.rest, st.known);
        assert forall|j: int| 0 <= j < cs.len() implies lookup(all, (#[trigger] cs[j]).name)
            == const_value(cs[j].value, all) by {
            if st.rest.contains(cs[j]) {
                let r = choose|r: int| 0 <= r < st.rest.len() && st.rest[r] == cs[j];
                assert(lookup(all, st.rest[r].name) == const_value(st.rest[r].value, all));
            } else {
                lemma_value_stays(cs[j].value, st.known, all);
            }
        }
        assert forall|name: Seq<char>| #[trigger] lookup(known, name) is Some implies lookup(
            all,
            name,
        ) == lookup(known, name) by {
            assert(lookup(st.known, name) is Some);
        }
    }
}

/// A round finds nothing that a table with the values of all constants does not have.
proof fn lemma_round_within(
    cs: Seq<CandidateV>,
    i: int,
    st: ValueRoundV,
    all: Seq<(Seq<char>, ValueV)>,
)
    requires
        0 <= i <= cs.len(),
        settled(cs, all),
        settled(st.rest, all),
        extends(st.known, all),
    ensures
        extends(value_round(cs, i, st).known, all),
        settled(value_round(cs, i, st).rest, all),
    decreases cs.len() - i,
{
    if i < cs.len() {
        let c = cs[i];
        match const_value(c.value, st.known) {
            Some(v) => {
                let next = ValueRoundV { known: put(st.known, c.name, v), ..st };
                lemma_value_stays(c.value, st.known, all);
                assert(lookup(all, cs[i].name) == Some(v));
                assert forall|name: Seq<char>|
                    #[trigger] lookup(next.known, name) is Some implies lookup(all, name)
                    == lookup(next.known, name) by {
                    lemma_put_lookup(st.known, c.name, v, name);
                    if name != c.name {
                        assert(lookup(st.known, name) is Some);
                    }
                }
                lemma_round_within(cs, i + 1, next, all);
            },
            None => {
                let next = ValueRoundV { rest: st.rest.push(c), ..st };
                assert forall|j: int| 0 <= j < next.rest.len() implies lookup(
                    all,
                    (#[trigger] next.rest[j]).name,
                ) == const_value(next.rest[j].value, all) by {
                    if j < st.rest.len() {
                        assert(next.rest[j] == st.rest[j]);
                    } else {
                        assert(next.rest[j] == cs[i]);
                    }
                }
                lemma_round_within(cs, i + 1, next, all);
            },
        }
    }
}

proof fn lemma_resolved_within(
    cs: Seq<CandidateV>,
    known: Seq<(Seq<char>, ValueV)>,
    all: Seq<(Seq<char>, ValueV)>,
)
    requires
        settled(cs, all),
        extends(known, all),
    ensures
        extends(consts_resolved(cs, known), all),
    decreases cs.len(),
{
    let start = ValueRoundV { known, rest: Seq::empty() };
    let st = value_round(cs, 0, start);
    lemma_round_within(cs, 0, start, all);
    if st.rest.len() < cs.len() {
        lemma_resolved_within(st.rest, st.known, all);
    }
}

/// Each constant has the value that its expression has among all constants, and one without a
/// value refers to something that has none. What was known stays known.
pub proof fn law_constants_have_the_values_of_their_expressions(
    cs: Seq<CandidateV>,
    known: Seq<(Seq<char>, ValueV)>,
)
    requires
        names_differ(cs),
        unknown_from(cs, 0, known),
    ensures
        settled(cs, consts_resolved(cs, known)),
        extends(known, consts_resolved(cs, known)),
{
    lemma_settles(cs, known);
}

/// The values of constants do not depend on the order in which they are declared.
pub proof fn law_constants_resolve_in_any_order(
    one: Seq<CandidateV>,
    two: Seq<CandidateV>,
    known: Seq<(Seq<char>, ValueV)>,
    name: Seq<char>,
)
    requires
        forall|c: CandidateV| one.contains(c) <==> two.contains(c),
        names_differ(one),
        names_differ(two),
        unknown_from(one, 0, known),
    ensures
        lookup(consts_resolved(one, known), name) == lookup(consts_resolved(two, known), name),
{
    let a = consts_resolved(one, known);
    let b = consts_resolved(two, known);
    assert forall|j: int| 0 <= j < two.len() implies lookup(
        known,
        (#[trigger] two[j]).name,
    ) is None by {
        assert(two.contains(two[j]));
        let i = choose|i: int| 0 <= i < one.len() && one[i] == two[j];
        assert(lookup(known, one[i].name) is None);
    }
    lemma_settles(one, known);
    lemma_settles(two, known);
    assert forall|j: int| 0 <= j < one.len() implies lookup(b, (#[trigger] one[j]).name)
        == const_value(one[j].value, b) by {
        assert(one.contains(one[j]));
        let i = choose|i: int| 0 <= i < two.len() && two[i] == one[j];
        assert(lookup(b, two[i].name) == const_value(two[i].value, b));
    }
    assert forall|j: int| 0 <= j < two.len() implies lookup(a, (#[trigger] two[j]).name)
        == const_value(two[j].value, a) by {
        assert(two.contains(two[j]));
        let i = choose|i: int| 0 <= i < one.len() && one[i] == two[j];
        assert(lookup(a, one[i].name) == const_value(one[i].value, a));
    }
    lemma_resolved_within(one, known, b);
    lemma_resolved_within(two, known, a);
    if lookup(a, name) is Some {
        assert(lookup(b, name) == lookup(a, name));
    } else if lookup(b, name) is Some {
        assert(lookup(a, name) == lookup(b, name));
    }
}

// ---------------------------------------------------------------------------
// Names
// ---------------------------------------------------------------------------

/// A name is taken once the first `i` names have been declared.
pub open spec fn taken_by(
    before: Seq<(Seq<char>, Span)>,
    names: Seq<AnnouncementV>,
    i: int,
    name: Seq<char>,
) -> bool {
    lookup(before, name) is Some || exists|j: int|
        0 <= j < i && j < names.len() && (#[trigger] names[j]).name == name
}

/// Some diagnostics report a name that is declared again at a place.
pub open spec fn reported(notes: Seq<DiagnosticView>, span: Span) -> bool {
    exists|k: int|
        0 <= k < notes.len() && (#[trigger] notes[k]).code == ErrorCode::DuplicateName
            && notes[k].span == span
}

/// Nothing is taken from some diagnostics.
spec fn keeps(some: Seq<DiagnosticView>, more: Seq<DiagnosticView>) -> bool {
    some.len() <= more.len() && forall|k: int|
        0 <= k < some.len() ==> more[k] == #[trigger] some[k]
}

proof fn lemma_reported_stays(
    some: Seq<DiagnosticView>,
    more: Seq<DiagnosticView>,
    span: Span,
)
    requires
        keeps(some, more),
        reported(some, span),
    ensures
        reported(more, span),
{
    let k = choose|k: int|
        0 <= k < some.len() && (#[trigger] some[k]).code == ErrorCode::DuplicateName
            && some[k].span == span;
    assert(more[k] == some[k]);
}

proof fn lemma_declared(
    sources: Seq<Seq<char>>,
    before: Seq<(Seq<char>, Span)>,
    names: Seq<AnnouncementV>,
    i: int,
    st: SpaceV,
)
    requires
        0 <= i <= names.len(),
        forall|name: Seq<char>|
            #[trigger] lookup(st.declared, name) is Some <==> taken_by(before, names, i, name),
        names_differ(st.candidates),
        forall|c: int|
            0 <= c < st.candidates.len() ==> lookup(
                st.declared,
                (#[trigger] st.candidates[c]).name,
            ) is Some && lookup(before, st.candidates[c].name) is None,
    ensures
        ({
            let out = declared_from(sources, names, i, st);
            &&& names_differ(out.candidates)
            &&& forall|c: int|
                0 <= c < out.candidates.len() ==> lookup(
                    before,
                    (#[trigger] out.candidates[c]).name,
                ) is None
            &&& keeps(st.notes, out.notes)
            &&& forall|j: int|
                i <= j < names.len() && taken_by(before, names, j, (#[trigger] names[j]).name)
                    ==> reported(out.notes, names[j].span)
            &&& (forall|j: int|
                i <= j < names.len() ==> !taken_by(before, names, j, (#[trigger] names[j]).name))
                ==> out.notes == st.notes
        }),
    decreases names.len() - i,
{
    if i < names.len() {
        let a = names[i];
        let next = declared_one(sources, st, a);
        let out = declared_from(sources, names, i + 1, next);
        assert(lookup(st.declared, a.name) is Some <==> taken_by(before, names, i, a.name));
        assert forall|name: Seq<char>|
            #[trigger] lookup(next.declared, name) is Some <==> taken_by(
            before,
            names,
            i + 1,
            name,
        ) by {
            assert(lookup(st.declared, name) is Some <==> taken_by(before, names, i, name));
            if lookup(st.declared, a.name) is None {
                lemma_put_lookup(st.declared, a.name, a.span, name);
            }
            if taken_by(before, names, i, name) && lookup(before, name) is None {
                let j = choose|j: int|
                    0 <= j < i && j < names.len() && (#[trigger] names[j]).name == name;
                assert(names[j].name == name);
            }
            if name == a.name {
                assert(names[i].name == name);
            }
        }
        assert forall|c: int| 0 <= c < next.candidates.len() implies lookup(
            next.declared,
            (#[trigger] next.candidates[c]).name,
        ) is Some && lookup(before, next.candidates[c].name) is None by {
            if c < st.candidates.len() {
                assert(next.candidates[c] == st.candidates[c]);
                if lookup(st.declared, a.name) is None {
                    lemma_put_lookup(st.declared, a.name, a.span, st.candidates[c].name);
                }
            } else {
                lemma_put_lookup(st.declared, a.name, a.span, a.name);
            }
        }
        assert(names_differ(next.candidates)) by {
            assert forall|x: int, y: int| 0 <= x < y < next.candidates.len() implies (
            #[trigger] next.candidates[x]).name != (#[trigger] next.candidates[y]).name by {
                if y == st.candidates.len() {
                    assert(next.candidates[x] == st.candidates[x]);
                    assert(lookup(st.declared, st.candidates[x].name) is Some);
                }
            }
        }
        lemma_declared(sources, before, names, i + 1, next);
        assert(keeps(st.notes, next.notes));
        assert(keeps(st.notes, out.notes)) by {
            assert forall|k: int| 0 <= k < st.notes.len() implies out.notes[k]
                == #[trigger] st.notes[k] by {
                assert(next.notes[k] == st.notes[k]);
            }
        }
        if taken_by(before, names, i, a.name) {
            assert(next.notes.last().code == ErrorCode::DuplicateName);
            assert(next.notes[st.notes.len() as int].span == a.span);
            lemma_reported_stays(next.notes, out.notes, a.span);
        }
    }
}

/// All names share one namespace: a name that is taken, or that was declared before, is reported
/// where it is declared again; where there is none, nothing is reported. The constants that are
/// kept have names of their own.
pub proof fn law_names_declared_again_are_reported(
    modules: Seq<ModuleV>,
    p: ProgramV,
    notes: Seq<DiagnosticView>,
)
    ensures
        ({
            let names = modules_from(modules, 0, Seq::empty());
            let st = namespace(modules, p, notes);
            &&& names_differ(st.candidates)
            &&& forall|j: int|
                0 <= j < names.len() && taken_by(taken(p), names, j, (#[trigger] names[j]).name)
                    ==> reported(st.notes, names[j].span)
            &&& (forall|j: int|
                0 <= j < names.len() ==> !taken_by(
                    taken(p),
                    names,
                    j,
                    (#[trigger] names[j]).name,
                )) ==> st.notes == notes
        }),
{
    let names = modules_from(modules, 0, Seq::empty());
    lemma_declared(
        p.sources.paths,
        taken(p),
        names,
        0,
        SpaceV {
            declared: taken(p),
            notes,
            const_spans: p.const_spans,
            candidates: Seq::empty(),
        },
    );
}

/// The constants of a program have the values of their expressions, wherever in its files they
/// are declared.
pub proof fn law_constants_of_a_program_are_settled(
    modules: Seq<ModuleV>,
    p: ProgramV,
    notes: Seq<DiagnosticView>,
)
    requires
        p.consts.len() == 0,
    ensures
        settled(
            namespace(modules, p, notes).candidates,
            registered(modules, p, notes).consts,
        ),
{
    law_names_declared_again_are_reported(modules, p, notes);
    lemma_settles(namespace(modules, p, notes).candidates, p.consts);
}

} // verus!
