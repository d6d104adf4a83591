//! What holds of type annotations and type variables.

use crate::ast::{TypeKindV, TypeV};
use crate::diagnostics::Span;
use crate::eval::env::ProgramV;
use crate::generics::{
    all_substituted, ann_ty, ann_tys_from, bindings_from, is_declared, lemma_substituted,
    substituted,
};
use crate::names::{lemma_put_lookup, lookup, put};
use crate::types::TyV;
use vstd::prelude::*;

verus! {

/// A type variable occurs in a type.
pub open spec fn mentions(t: TyV, name: Seq<char>) -> bool
    decreases t,
{
    match t {
        TyV::TypeVar(n) => n == name,
        TyV::List(e) => mentions(*e, name),
        TyV::SetOf(e) => mentions(*e, name),
        TyV::Dict(k, v) => mentions(*k, name) || mentions(*v, name),
        TyV::Tuple(items) => exists|i: int|
            0 <= i < items.len() && mentions(#[trigger] items[i], name),
        TyV::Named { name: _, args } => exists|i: int|
            0 <= i < args.len() && mentions(#[trigger] args[i], name),
        TyV::Function { params, effects, ret } => mentions(*ret, name) || exists|i: int|
            0 <= i < params.len() && mentions(#[trigger] params[i], name),
        _ => false,
    }
}

/// A type of whose type variables none stands for anything is left as it is.
pub proof fn law_types_without_variables_stay(t: TyV, by: Seq<(Seq<char>, TyV)>)
    requires
        forall|n: Seq<char>| #[trigger] mentions(t, n) ==> lookup(by, n) is None,
    ensures
        substituted(t, by) == t,
    decreases t,
{
    lemma_substituted(t, by);
    match t {
        TyV::TypeVar(n) => {
            assert(mentions(t, n));
        },
        TyV::List(e) => {
            assert forall|n: Seq<char>| #[trigger] mentions(*e, n) implies lookup(by, n) is None by {
                assert(mentions(t, n));
            }
            law_types_without_variables_stay(*e, by);
        },
        TyV::SetOf(e) => {
            assert forall|n: Seq<char>| #[trigger] mentions(*e, n) implies lookup(by, n) is None by {
                assert(mentions(t, n));
            }
            law_types_without_variables_stay(*e, by);
        },
        TyV::Dict(k, v) => {
            assert forall|n: Seq<char>| #[trigger] mentions(*k, n) implies lookup(by, n) is None by {
                assert(mentions(t, n));
            }
            assert forall|n: Seq<char>| #[trigger] mentions(*v, n) implies lookup(by, n) is None by {
                assert(mentions(t, n));
            }
            law_types_without_variables_stay(*k, by);
            law_types_without_variables_stay(*v, by);
        },
        TyV::Tuple(items) => {
            assert forall|i: int| 0 <= i < items.len() implies substituted(
                #[trigger] items[i],
                by,
            ) == items[i] by {
                assert forall|n: Seq<char>| #[trigger] mentions(items[i], n) implies lookup(by, n)
                    is None by {
                    assert(mentions(t, n));
                }
                law_types_without_variables_stay(items[i], by);
            }
            assert(all_substituted(items, by) =~= items);
        },
        TyV::Named { name, args } => {
            assert forall|i: int| 0 <= i < args.len() implies substituted(#[trigger] args[i], by)
                == args[i] by {
                assert forall|n: Seq<char>| #[trigger] mentions(args[i], n) implies lookup(by, n)
                    is None by {
                    assert(mentions(t, n));
                }
                law_types_without_variables_stay(args[i], by);
            }
            assert(all_substituted(args, by) =~= args);
        },
        TyV::Function { params, effects, ret } => {
            assert forall|i: int| 0 <= i < params.len() implies substituted(
                #[trigger] params[i],
                by,
            ) == params[i] by {
                assert forall|n: Seq<char>| #[trigger] mentions(params[i], n) implies lookup(by, n)
                    is None by {
                    assert(mentions(t, n));
                }
                law_types_without_variables_stay(params[i], by);
            }
            assert(all_substituted(params, by) =~= params);
            assert forall|n: Seq<char>| #[trigger] mentions(*ret, n) implies lookup(by, n)
                is None by {
                assert(mentions(t, n));
            }
            law_types_without_variables_stay(*ret, by);
        },
        _ => {},
    }
}

/// A type variable that stands for something is gone: what the type mentions afterwards, it
/// mentioned before, or one of the types that its variables stand for does.
pub proof fn law_variables_give_way_to_their_types(
    t: TyV,
    by: Seq<(Seq<char>, TyV)>,
    x: Seq<char>,
)
    requires
        mentions(substituted(t, by), x),
    ensures
        (mentions(t, x) && lookup(by, x) is None) || exists|n: Seq<char>| #[trigger]
            mentions(t, n) && lookup(by, n) is Some && mentions(lookup(by, n).unwrap(), x),
    decreases t, 0int,
{
    lemma_substituted(t, by);
    match t {
        TyV::TypeVar(n) => {
            assert(mentions(t, n));
        },
        TyV::List(e) => {
            lemma_part(t, *e, by, x);
        },
        TyV::SetOf(e) => {
            lemma_part(t, *e, by, x);
        },
        TyV::Dict(k, v) => {
            if mentions(substituted(*k, by), x) {
                lemma_part(t, *k, by, x);
            } else {
                lemma_part(t, *v, by, x);
            }
        },
        TyV::Tuple(items) => {
            let ts = all_substituted(items, by);
            let i = choose|i: int| 0 <= i < ts.len() && mentions(#[trigger] ts[i], x);
            assert(ts[i] == substituted(items[i], by));
            lemma_part(t, items[i], by, x);
        },
        TyV::Named { name, args } => {
            let ts = all_substituted(args, by);
            let i = choose|i: int| 0 <= i < ts.len() && mentions(#[trigger] ts[i], x);
            assert(ts[i] == substituted(args[i], by));
            lemma_part(t, args[i], by, x);
        },
        TyV::Function { params, effects, ret } => {
            if mentions(substituted(*ret, by), x) {
                lemma_part(t, *ret, by, x);
            } else {
                let ts = all_substituted(params, by);
                let i = choose|i: int| 0 <= i < ts.len() && mentions(#[trigger] ts[i], x);
                assert(ts[i] == substituted(params[i], by));
                lemma_part(t, params[i], by, x);
            }
        },
        _ => {},
    }
}

proof fn lemma_part(t: TyV, part: TyV, by: Seq<(Seq<char>, TyV)>, x: Seq<char>)
    requires
        decreases_to!(t => part),
        forall|n: Seq<char>| #[trigger] mentions(part, n) ==> mentions(t, n),
        mentions(substituted(part, by), x),
    ensures
        (mentions(t, x) && lookup(by, x) is None) || exists|n: Seq<char>| #[trigger]
            mentions(t, n) && lookup(by, n) is Some && mentions(lookup(by, n).unwrap(), x),
    decreases part, 1int,
{
    law_variables_give_way_to_their_types(part, by, x);
    if exists|n: Seq<char>| #[trigger]
        mentions(part, n) && lookup(by, n) is Some && mentions(lookup(by, n).unwrap(), x) {
        let n = choose|n: Seq<char>| #[trigger]
            mentions(part, n) && lookup(by, n) is Some && mentions(lookup(by, n).unwrap(), x);
        assert(mentions(t, n));
    }
}

proof fn lemma_bound(
    generics: Seq<Seq<char>>,
    args: Seq<TyV>,
    i: int,
    out: Seq<(Seq<char>, TyV)>,
    name: Seq<char>,
)
    requires
        0 <= i <= generics.len(),
        generics.no_duplicates(),
    ensures
        lookup(bindings_from(generics, args, i, out), name) == (if exists|k: int|
            i <= k < generics.len() && k < args.len() && #[trigger] generics[k] == name {
            Some(
                args[choose|k: int|
                    i <= k < generics.len() && k < args.len() && #[trigger] generics[k] == name],
            )
        } else {
            lookup(out, name)
        }),
    decreases generics.len() - i,
{
    if i < generics.len() && i < args.len() {
        lemma_put_lookup(out, generics[i], args[i], name);
        lemma_bound(generics, args, i + 1, put(out, generics[i], args[i]), name);
        if generics[i] == name {
            let k = choose|k: int|
                i <= k < generics.len() && k < args.len() && #[trigger] generics[k] == name;
            assert(k == i);
        } else if exists|k: int|
            i <= k < generics.len() && k < args.len() && #[trigger] generics[k] == name {
            let k = choose|k: int|
                i <= k < generics.len() && k < args.len() && #[trigger] generics[k] == name;
            let m = choose|k: int|
                i + 1 <= k < generics.len() && k < args.len() && #[trigger] generics[k] == name;
            assert(i + 1 <= k);
            assert(generics[k] == generics[m]);
        }
    }
}

/// The arguments that a declaration is given take the places of its type variables, each that of
/// the variable at its own place.
pub proof fn law_arguments_take_the_places_of_variables(
    generics: Seq<Seq<char>>,
    args: Seq<TyV>,
    i: int,
)
    requires
        generics.no_duplicates(),
        0 <= i < generics.len(),
        i < args.len(),
    ensures
        substituted(TyV::TypeVar(generics[i]), bindings_from(generics, args, 0, Seq::empty()))
            == args[i],
{
    lemma_bound(generics, args, 0, Seq::empty(), generics[i]);
    let k = choose|k: int|
        0 <= k < generics.len() && k < args.len() && #[trigger] generics[k] == generics[i];
    assert(generics[i] == generics[i]);
    assert(k == i);
}

/// The annotation that a type is written as.
pub open spec fn annotation(t: TyV, span: Span) -> TypeV
    decreases t,
{
    let kind = match t {
        TyV::Int => TypeKindV::Named { name: "int"@, args: Seq::empty() },
        TyV::Float => TypeKindV::Named { name: "float"@, args: Seq::empty() },
        TyV::Bool => TypeKindV::Named { name: "bool"@, args: Seq::empty() },
        TyV::Str => TypeKindV::Named { name: "str"@, args: Seq::empty() },
        TyV::List(e) => TypeKindV::Named { name: "list"@, args: seq![annotation(*e, span)] },
        TyV::SetOf(e) => TypeKindV::Named { name: "set"@, args: seq![annotation(*e, span)] },
        TyV::Dict(k, v) => TypeKindV::Named {
            name: "dict"@,
            args: seq![annotation(*k, span), annotation(*v, span)],
        },
        TyV::Tuple(items) => TypeKindV::Tuple(
            Seq::new(
                items.len(),
                |i: int|
                    if 0 <= i < items.len() {
                        annotation(items[i], span)
                    } else {
                        arbitrary()
                    },
            ),
        ),
        TyV::Named { name, args } => TypeKindV::Named {
            name,
            args: Seq::new(
                args.len(),
                |i: int|
                    if 0 <= i < args.len() {
                        annotation(args[i], span)
                    } else {
                        arbitrary()
                    },
            ),
        },
        TyV::Function { params, effects, ret } => TypeKindV::Function {
            params: Seq::new(
                params.len(),
                |i: int|
                    if 0 <= i < params.len() {
                        annotation(params[i], span)
                    } else {
                        arbitrary()
                    },
            ),
            effects,
            ret: Box::new(annotation(*ret, span)),
        },
        TyV::TypeVar(name) => TypeKindV::Named { name, args: Seq::empty() },
        _ => TypeKindV::Void,
    };
    TypeV { kind, span }
}

/// A type can be written where `generics` are the type variables: its variables are among them,
/// the types that it names are declared, and no name hides another.
pub open spec fn can_be_written(t: TyV, generics: Seq<Seq<char>>, p: ProgramV) -> bool
    decreases t,
{
    match t {
        TyV::Int => !generics.contains("int"@),
        TyV::Float => !generics.contains("float"@),
        TyV::Bool => !generics.contains("bool"@),
        TyV::Str => !generics.contains("str"@),
        TyV::Void => true,
        TyV::List(e) => can_be_written(*e, generics, p),
        TyV::SetOf(e) => can_be_written(*e, generics, p),
        TyV::Dict(k, v) => can_be_written(*k, generics, p) && can_be_written(*v, generics, p),
        TyV::Tuple(items) => forall|i: int|
            0 <= i < items.len() ==> can_be_written(#[trigger] items[i], generics, p),
        TyV::Named { name, args } => {
            &&& is_declared(p, name)
            &&& args.len() == 0 ==> !generics.contains(name) && name != "int"@ && name
                != "float"@ && name != "bool"@ && name != "str"@
            &&& args.len() == 1 ==> name != "list"@ && name != "set"@
            &&& args.len() == 2 ==> name != "dict"@
            &&& forall|i: int|
                0 <= i < args.len() ==> can_be_written(#[trigger] args[i], generics, p)
        },
        TyV::Function { params, effects, ret } => can_be_written(*ret, generics, p) && forall|
            i: int,
        |
            0 <= i < params.len() ==> can_be_written(#[trigger] params[i], generics, p),
        TyV::TypeVar(name) => generics.contains(name),
        TyV::Unknown => false,
    }
}

proof fn lemma_all_named(
    anns: Seq<TypeV>,
    ts: Seq<TyV>,
    i: int,
    generics: Seq<Seq<char>>,
    p: ProgramV,
)
    requires
        0 <= i <= ts.len(),
        anns.len() == ts.len(),
        forall|j: int|
            0 <= j < ts.len() ==> ann_ty(#[trigger] anns[j], generics, p) == Some(ts[j]),
    ensures
        ann_tys_from(anns, i, generics, p, ts.take(i)) == Some(ts),
    decreases ts.len() - i,
{
    if i < ts.len() {
        assert(ann_ty(anns[i], generics, p) == Some(ts[i]));
        assert(ts.take(i).push(ts[i]) =~= ts.take(i + 1));
        lemma_all_named(anns, ts, i + 1, generics, p);
    } else {
        assert(ts.take(i) =~= ts);
    }
}

/// An annotation names the type that it is written for.
#[verifier::spinoff_prover]
pub proof fn law_annotations_name_their_types(
    t: TyV,
    span: Span,
    generics: Seq<Seq<char>>,
    p: ProgramV,
)
    requires
        can_be_written(t, generics, p),
    ensures
        ann_ty(annotation(t, span), generics, p) == Some(t),
    decreases t,
{
    reveal_strlit("int");
    reveal_strlit("float");
    reveal_strlit("bool");
    reveal_strlit("str");
    reveal_strlit("list");
    reveal_strlit("set");
    let a = annotation(t, span);
    match t {
        TyV::List(e) => {
            law_annotations_name_their_types(*e, span, generics, p);
            lemma_all_named(a.kind->args, seq![*e], 0, generics, p);
            assert(seq![*e].take(0) =~= Seq::empty());
        },
        TyV::SetOf(e) => {
            law_annotations_name_their_types(*e, span, generics, p);
            lemma_all_named(a.kind->args, seq![*e], 0, generics, p);
            assert(seq![*e].take(0) =~= Seq::empty());
            assert("set"@[0] != "list"@[0]);
        },
        TyV::Dict(k, v) => {
            law_annotations_name_their_types(*k, span, generics, p);
            law_annotations_name_their_types(*v, span, generics, p);
            lemma_all_named(a.kind->args, seq![*k, *v], 0, generics, p);
            assert(seq![*k, *v].take(0) =~= Seq::empty());
        },
        TyV::Tuple(items) => {
            let anns = a.kind->Tuple_0;
            assert forall|j: int| 0 <= j < items.len() implies ann_ty(
                #[trigger] anns[j],
                generics,
                p,
            ) == Some(items[j]) by {
                law_annotations_name_their_types(items[j], span, generics, p);
            }
            lemma_all_named(anns, items, 0, generics, p);
            assert(items.take(0) =~= Seq::empty());
        },
        TyV::Named { name, args } => {
            let anns = a.kind->args;
            assert forall|j: int| 0 <= j < args.len() implies ann_ty(
                #[trigger] anns[j],
                generics,
                p,
            ) == Some(args[j]) by {
                law_annotations_name_their_types(args[j], span, generics, p);
            }
            lemma_all_named(anns, args, 0, generics, p);
            assert(args.take(0) =~= Seq::empty());
        },
        TyV::Function { params, effects, ret } => {
            let anns = a.kind->params;
            assert forall|j: int| 0 <= j < params.len() implies ann_ty(
                #[trigger] anns[j],
                generics,
                p,
            ) == Some(params[j]) by {
                law_annotations_name_their_types(params[j], span, generics, p);
            }
            lemma_all_named(anns, params, 0, generics, p);
            assert(params.take(0) =~= Seq::empty());
            law_annotations_name_their_types(*ret, span, generics, p);
        },
        TyV::Int | TyV::Float | TyV::Bool | TyV::Str | TyV::TypeVar(_) => {
            lemma_all_named(Seq::empty(), Seq::empty(), 0, generics, p);
            assert(Seq::<TyV>::empty().take(0) =~= Seq::empty());
            assert("float"@[0] != "int"@[0]);
            assert("bool"@[0] != "int"@[0]);
            assert("bool"@[0] != "float"@[0]);
            assert("str"@[0] != "int"@[0]);
            assert("str"@[0] != "float"@[0]);
            assert("str"@[0] != "bool"@[0]);
        },
        _ => {},
    }
}

} // verus!
