//! Types from annotations, and type variables.

use crate::ast::{types_view, TypeAnn, TypeAnnKind, TypeKindV, TypeV};
use crate::eval::env::{Program, ProgramV};
use crate::ast::{EnumDecl, StructDecl};
use crate::names::{find, lemma_mapped, lookup, put, NameMap};
use crate::module_resolve::consts::ty_views;
use crate::text::{same_text, texts};
use crate::types::{copy_texts, lemma_ty_view, tys_view, Ty, TyV};
use vstd::prelude::*;
use vstd::string::*;

verus! {

/// The types that a program need not declare.
pub open spec fn builtin_ty(name: Seq<char>) -> bool {
    name == "Option"@ || name == "Result"@ || name == "Value"@ || name == "Error"@ || name
        == "Response"@ || name == "HttpOptions"@ || name == "ProcOutput"@
}

/// `name` is a type of the program.
pub open spec fn is_declared(p: ProgramV, name: Seq<char>) -> bool {
    builtin_ty(name) || find(p.structs, name) is Some || find(p.enums, name) is Some
}

/// The type that an annotation names; nothing where it names none. Names among `generics` are
/// type variables.
pub open spec fn ann_ty(t: TypeV, generics: Seq<Seq<char>>, p: ProgramV) -> Option<TyV>
    decreases t, 0int,
{
    match t.kind {
        TypeKindV::Void => Some(TyV::Void),
        TypeKindV::Tuple(items) => match ann_tys_from(items, 0, generics, p, Seq::empty()) {
            Some(ts) => Some(TyV::Tuple(ts)),
            None => None,
        },
        TypeKindV::Function { params, effects, ret } => match (
            ann_tys_from(params, 0, generics, p, Seq::empty()),
            ann_ty(*ret, generics, p),
        ) {
            (Some(ps), Some(r)) => Some(
                TyV::Function { params: ps, effects, ret: Box::new(r) },
            ),
            _ => None,
        },
        TypeKindV::Named { name, args } => match ann_tys_from(
            args,
            0,
            generics,
            p,
            Seq::empty(),
        ) {
            Some(ts) => named_ty(name, ts, generics, p),
            None => None,
        },
    }
}

/// The types that the annotations from the `i`-th on name.
pub open spec fn ann_tys_from(
    items: Seq<TypeV>,
    i: int,
    generics: Seq<Seq<char>>,
    p: ProgramV,
    out: Seq<TyV>,
) -> Option<Seq<TyV>>
    decreases items, items.len() - i,
{
    if !(0 <= i < items.len()) {
        Some(out)
    } else {
        match ann_ty(items[i], generics, p) {
            Some(t) => ann_tys_from(items, i + 1, generics, p, out.push(t)),
            None => None,
        }
    }
}

/// The type that a name with arguments stands for.
pub open spec fn named_ty(
    name: Seq<char>,
    args: Seq<TyV>,
    generics: Seq<Seq<char>>,
    p: ProgramV,
) -> Option<TyV> {
    if args.len() == 0 && generics.contains(name) {
        Some(TyV::TypeVar(name))
    } else if args.len() == 0 && name == "int"@ {
        Some(TyV::Int)
    } else if args.len() == 0 && name == "float"@ {
        Some(TyV::Float)
    } else if args.len() == 0 && name == "bool"@ {
        Some(TyV::Bool)
    } else if args.len() == 0 && name == "str"@ {
        Some(TyV::Str)
    } else if args.len() == 1 && name == "list"@ {
        Some(TyV::List(Box::new(args[0])))
    } else if args.len() == 1 && name == "set"@ {
        Some(TyV::SetOf(Box::new(args[0])))
    } else if args.len() == 2 && name == "dict"@ {
        Some(TyV::Dict(Box::new(args[0]), Box::new(args[1])))
    } else if is_declared(p, name) {
        Some(TyV::Named { name, args })
    } else {
        None
    }
}

pub open spec fn opt_ty(o: Option<Ty>) -> Option<TyV> {
    match o {
        Some(t) => Some(t@),
        None => None,
    }
}

pub open spec fn opt_tys(o: Option<Vec<Ty>>) -> Option<Seq<TyV>> {
    match o {
        Some(v) => Some(tys_view(v@)),
        None => None,
    }
}

fn shown(t: Ty) -> (r: Ty)
    ensures
        r@ == t.shape(),
{
    proof {
        lemma_ty_view(t);
    }
    t
}

fn has_text(v: &Vec<String>, s: &str) -> (r: bool)
    ensures
        r == texts(v@).contains(s@),
{
    let mut i: usize = 0;
    while i < v.len()
        invariant
            i <= v@.len(),
            forall|j: int| 0 <= j < i ==> (#[trigger] v@[j])@ != s@,
        decreases v@.len() - i,
    {
        if same_text(v[i].as_str(), s) {
            assert(texts(v@)[i as int] == s@);
            return true;
        }
        i = i + 1;
    }
    false
}

fn knows_type(program: &Program, name: &str) -> (r: bool)
    ensures
        r == is_declared(program@, name@),
{
    proof {
        lemma_mapped(program.structs@, |d: StructDecl| d.view(), name@, arbitrary());
        lemma_mapped(program.enums@, |d: EnumDecl| d.view(), name@, arbitrary());
    }
    same_text(name, "Option") || same_text(name, "Result") || same_text(name, "Value") || same_text(
        name,
        "Error",
    ) || same_text(name, "Response") || same_text(name, "HttpOptions") || same_text(
        name,
        "ProcOutput",
    ) || program.structs.contains_key(name) || program.enums.contains_key(name)
}

fn resolve_name(name: &String, args: Vec<Ty>, generics: &Vec<String>, program: &Program) -> (r:
    Option<Ty>)
    ensures
        opt_ty(r) == named_ty(name@, tys_view(args@), texts(generics@), program@),
{
    let ghost ts = tys_view(args@);
    let n: usize = args.len();
    let s = name.as_str();
    if n == 0 && has_text(generics, s) {
        return Some(shown(Ty::TypeVar(name.clone())));
    }
    if n == 0 && same_text(s, "int") {
        return Some(shown(Ty::Int));
    }
    if n == 0 && same_text(s, "float") {
        return Some(shown(Ty::Float));
    }
    if n == 0 && same_text(s, "bool") {
        return Some(shown(Ty::Bool));
    }
    if n == 0 && same_text(s, "str") {
        return Some(shown(Ty::Str));
    }
    if n == 1 && same_text(s, "list") {
        let t = args[0].copy();
        return Some(shown(Ty::List(Box::new(t))));
    }
    if n == 1 && same_text(s, "set") {
        let t = args[0].copy();
        return Some(shown(Ty::SetOf(Box::new(t))));
    }
    if n == 2 && same_text(s, "dict") {
        let k = args[0].copy();
        let v = args[1].copy();
        return Some(shown(Ty::Dict(Box::new(k), Box::new(v))));
    }
    if knows_type(program, s) {
        return Some(shown(Ty::Named { name: name.clone(), args }));
    }
    None
}

fn tys_from_anns(items: &Vec<TypeAnn>, generics: &Vec<String>, program: &Program) -> (r: Option<
    Vec<Ty>,
>)
    ensures
        opt_tys(r) == ann_tys_from(
            types_view(items@),
            0,
            texts(generics@),
            program@,
            Seq::empty(),
        ),
    decreases items, 0int,
{
    let ghost ts = types_view(items@);
    let mut out: Vec<Ty> = Vec::new();
    let mut i: usize = 0;
    assert(tys_view(out@) =~= Seq::empty());
    assert(ts.len() == items@.len());
    while i < items.len()
        invariant
            ts == types_view(items@),
            ts.len() == items@.len(),
            i <= items@.len(),
            ann_tys_from(ts, i as int, texts(generics@), program@, tys_view(out@))
                == ann_tys_from(ts, 0, texts(generics@), program@, Seq::empty()),
        decreases items@.len() - i,
    {
        proof {
            assert(decreases_to!(*items => items@));
            assert(decreases_to!(items@ => items@[i as int]));
            assert(ts[i as int] == items@[i as int]@);
        }
        let ghost seen = tys_view(out@);
        match ty_from_ann(&items[i], generics, program) {
            Some(t) => {
                out.push(t);
                assert(tys_view(out@) =~= seen.push(t@));
            },
            None => {
                return None;
            },
        }
        i = i + 1;
    }
    Some(out)
}

/// The type that an annotation names. Names among `generics` are type variables.
pub fn ty_from_ann(ann: &TypeAnn, generics: &Vec<String>, program: &Program) -> (r: Option<Ty>)
    ensures
        opt_ty(r) == ann_ty(ann@, texts(generics@), program@),
    decreases ann, 1int,
{
    proof {
        assert(ann@.kind == ann.kind@);
        assert(decreases_to!(*ann => ann.kind));
    }
    match &ann.kind {
        TypeAnnKind::Void => {
            return Some(shown(Ty::Void));
        },
        TypeAnnKind::Tuple(items) => {
            return match tys_from_anns(items, generics, program) {
                Some(ts) => Some(shown(Ty::Tuple(ts))),
                None => None,
            };
        },
        TypeAnnKind::Function { params, effects, ret } => {
            let ps = match tys_from_anns(params, generics, program) {
                Some(ps) => ps,
                None => {
                    return None;
                },
            };
            let r = match ty_from_ann(ret, generics, program) {
                Some(r) => r,
                None => {
                    return None;
                },
            };
            return Some(
                shown(
                    Ty::Function { params: ps, effects: copy_texts(effects), ret: Box::new(r) },
                ),
            );
        },
        TypeAnnKind::Named { name, args } => {
            return match tys_from_anns(args, generics, program) {
                Some(ts) => resolve_name(name, ts, generics, program),
                None => None,
            };
        },
    }
}

/// A type with its type variables replaced.
pub open spec fn substituted(t: TyV, by: Seq<(Seq<char>, TyV)>) -> TyV
    decreases t,
{
    match t {
        TyV::TypeVar(name) => match lookup(by, name) {
            Some(s) => s,
            None => t,
        },
        TyV::List(e) => TyV::List(Box::new(substituted(*e, by))),
        TyV::SetOf(e) => TyV::SetOf(Box::new(substituted(*e, by))),
        TyV::Dict(k, v) => TyV::Dict(
            Box::new(substituted(*k, by)),
            Box::new(substituted(*v, by)),
        ),
        TyV::Tuple(items) => TyV::Tuple(
            Seq::new(
                items.len(),
                |i: int|
                    if 0 <= i < items.len() {
                        substituted(items[i], by)
                    } else {
                        arbitrary()
                    },
            ),
        ),
        TyV::Named { name, args } => TyV::Named {
            name,
            args: Seq::new(
                args.len(),
                |i: int|
                    if 0 <= i < args.len() {
                        substituted(args[i], by)
                    } else {
                        arbitrary()
                    },
            ),
        },
        TyV::Function { params, effects, ret } => TyV::Function {
            params: Seq::new(
                params.len(),
                |i: int|
                    if 0 <= i < params.len() {
                        substituted(params[i], by)
                    } else {
                        arbitrary()
                    },
            ),
            effects,
            ret: Box::new(substituted(*ret, by)),
        },
        _ => t,
    }
}

/// Types with their type variables replaced.
pub open spec fn all_substituted(items: Seq<TyV>, by: Seq<(Seq<char>, TyV)>) -> Seq<TyV> {
    Seq::new(items.len(), |i: int| substituted(items[i], by))
}

pub proof fn lemma_substituted(t: TyV, by: Seq<(Seq<char>, TyV)>)
    ensures
        substituted(t, by) == match t {
            TyV::TypeVar(name) => match lookup(by, name) {
                Some(s) => s,
                None => t,
            },
            TyV::List(e) => TyV::List(Box::new(substituted(*e, by))),
            TyV::SetOf(e) => TyV::SetOf(Box::new(substituted(*e, by))),
            TyV::Dict(k, v) => TyV::Dict(
                Box::new(substituted(*k, by)),
                Box::new(substituted(*v, by)),
            ),
            TyV::Tuple(items) => TyV::Tuple(all_substituted(items, by)),
            TyV::Named { name, args } => TyV::Named { name, args: all_substituted(args, by) },
            TyV::Function { params, effects, ret } => TyV::Function {
                params: all_substituted(params, by),
                effects,
                ret: Box::new(substituted(*ret, by)),
            },
            _ => t,
        },
{
    match t {
        TyV::Tuple(items) => {
            assert(substituted(t, by)->Tuple_0 =~= all_substituted(items, by));
        },
        TyV::Named { name, args } => {
            assert(substituted(t, by)->args =~= all_substituted(args, by));
        },
        TyV::Function { params, effects, ret } => {
            assert(substituted(t, by)->params =~= all_substituted(params, by));
        },
        _ => {},
    }
}

fn substitute_all(items: &Vec<Ty>, by: &NameMap<Ty>) -> (r: Vec<Ty>)
    ensures
        tys_view(r@) == all_substituted(tys_view(items@), ty_views(by@)),
    decreases items, 0int,
{
    let mut out: Vec<Ty> = Vec::new();
    let mut i: usize = 0;
    while i < items.len()
        invariant
            i <= items@.len(),
            out@.len() == i,
            forall|j: int|
                0 <= j < i ==> (#[trigger] out@[j])@ == substituted(items@[j]@, ty_views(by@)),
        decreases items@.len() - i,
    {
        proof {
            assert(decreases_to!(*items => items@));
            assert(decreases_to!(items@ => items@[i as int]));
        }
        let t = substitute(&items[i], by);
        out.push(t);
        i = i + 1;
    }
    assert(tys_view(out@) =~= all_substituted(tys_view(items@), ty_views(by@)));
    out
}

/// A type with its type variables replaced.
pub fn substitute(t: &Ty, by: &NameMap<Ty>) -> (r: Ty)
    ensures
        r@ == substituted(t@, ty_views(by@)),
    decreases t, 1int,
{
    proof {
        lemma_ty_view(*t);
        lemma_substituted(t@, ty_views(by@));
    }
    match t {
        Ty::TypeVar(name) => {
            proof {
                lemma_mapped(by@, |x: Ty| x.view(), name@, arbitrary());
            }
            return match by.get(name.as_str()) {
                Some(s) => s.copy(),
                None => t.copy(),
            };
        },
        Ty::List(e) => {
            let e2 = substitute(e, by);
            return shown(Ty::List(Box::new(e2)));
        },
        Ty::SetOf(e) => {
            let e2 = substitute(e, by);
            return shown(Ty::SetOf(Box::new(e2)));
        },
        Ty::Dict(k, v) => {
            let k2 = substitute(k, by);
            let v2 = substitute(v, by);
            return shown(Ty::Dict(Box::new(k2), Box::new(v2)));
        },
        Ty::Tuple(items) => {
            let ts = substitute_all(items, by);
            return shown(Ty::Tuple(ts));
        },
        Ty::Named { name, args } => {
            let ts = substitute_all(args, by);
            return shown(Ty::Named { name: name.clone(), args: ts });
        },
        Ty::Function { params, effects, ret } => {
            let ps = substitute_all(params, by);
            let r2 = substitute(ret, by);
            return shown(
                Ty::Function { params: ps, effects: copy_texts(effects), ret: Box::new(r2) },
            );
        },
        _ => {
            return t.copy();
        },
    }
}

/// What the type variables of a declaration stand for, by the arguments that it is given.
pub open spec fn bindings_from(
    generics: Seq<Seq<char>>,
    args: Seq<TyV>,
    i: int,
    out: Seq<(Seq<char>, TyV)>,
) -> Seq<(Seq<char>, TyV)>
    decreases generics.len() - i,
{
    if 0 <= i < generics.len() && i < args.len() {
        bindings_from(generics, args, i + 1, put(out, generics[i], args[i]))
    } else {
        out
    }
}

/// What the type variables of a declaration stand for, by the arguments that it is given.
pub fn bind_generics(generics: &Vec<String>, args: &Vec<Ty>) -> (r: NameMap<Ty>)
    ensures
        ty_views(r@) == bindings_from(texts(generics@), tys_view(args@), 0, Seq::empty()),
{
    let ghost gs = texts(generics@);
    let ghost ts = tys_view(args@);
    let mut out: NameMap<Ty> = NameMap::new();
    let mut i: usize = 0;
    assert(ty_views(out@) =~= Seq::empty());
    while i < generics.len() && i < args.len()
        invariant
            gs == texts(generics@),
            ts == tys_view(args@),
            i <= generics@.len(),
            i <= args@.len(),
            bindings_from(gs, ts, i as int, ty_views(out@)) == bindings_from(
                gs,
                ts,
                0,
                Seq::empty(),
            ),
        decreases generics@.len() - i,
    {
        let t = args[i].copy();
        proof {
            lemma_mapped(out@, |x: Ty| x.view(), generics@[i as int]@, t);
        }
        out.insert(generics[i].clone(), t);
        i = i + 1;
    }
    out
}

} // verus!
