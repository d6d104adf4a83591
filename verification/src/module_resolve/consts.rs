//! The constants of modules: their types and their values.

use crate::ast::{
    entries_view, exprs_view, lemma_expr_kind_view, lemma_expr_view, Expr, ExprKind, ExprKindV,
    ExprV,
};
use crate::diagnostics::{Diagnostic, DiagnosticBag, DiagnosticView, ErrorCode, Span};
use crate::eval::env::const_views;
use crate::eval::keys::{items_of, set_insert_full, set_new, KeyV, MapKey};
use crate::eval::value::{
    bool_value, dict_value, float_value, inserted, int_value, list_value, set_value, str_value,
    try_key_v, tuple_value, values_view, Dict, Value, ValueV,
};
use crate::names::{lemma_mapped, lookup, mapped, put, NameMap};
use crate::text::join3;
use crate::types::{lemma_ty_view, tys_view, Ty, TyV};
use vstd::prelude::*;

verus! {

// ---------------------------------------------------------------------------
// Values
// ---------------------------------------------------------------------------

/// The value of a constant expression, by the constants that are known; nothing where it refers
/// to one that is not.
pub open spec fn const_value(e: ExprV, known: Seq<(Seq<char>, ValueV)>) -> Option<ValueV>
    decreases e, 0int,
{
    match e.kind {
        ExprKindV::IntLit(n) => Some(ValueV::Int(n)),
        ExprKindV::FloatLit(x) => Some(ValueV::Float(x)),
        ExprKindV::BoolLit(b) => Some(ValueV::Bool(b)),
        ExprKindV::StringLit(s) => Some(ValueV::Str(s)),
        ExprKindV::Ident(name) => lookup(known, name),
        ExprKindV::Grouping(inner) => const_value(*inner, known),
        ExprKindV::ListLit { elements, was_multiline } => match values_from(
            elements,
            0,
            known,
            Seq::empty(),
        ) {
            Some(vs) => Some(ValueV::List(vs)),
            None => None,
        },
        ExprKindV::TupleLit { elements, was_multiline } => match values_from(
            elements,
            0,
            known,
            Seq::empty(),
        ) {
            Some(vs) => Some(ValueV::Tuple(vs)),
            None => None,
        },
        ExprKindV::SetLit { elements, was_multiline } => match keys_from(
            elements,
            0,
            known,
            Seq::empty(),
        ) {
            Some(ks) => Some(ValueV::SetOf(ks)),
            None => None,
        },
        ExprKindV::DictLit { entries, was_multiline } => match entries_from(
            entries,
            0,
            known,
            Seq::empty(),
        ) {
            Some(es) => Some(ValueV::Dict(es)),
            None => None,
        },
        _ => None,
    }
}

/// The values of the elements from the `i`-th on.
pub open spec fn values_from(
    elements: Seq<ExprV>,
    i: int,
    known: Seq<(Seq<char>, ValueV)>,
    out: Seq<ValueV>,
) -> Option<Seq<ValueV>>
    decreases elements, elements.len() - i,
{
    if !(0 <= i < elements.len()) {
        Some(out)
    } else {
        match const_value(elements[i], known) {
            Some(v) => values_from(elements, i + 1, known, out.push(v)),
            None => None,
        }
    }
}

/// The keys of a set from the `i`-th element on, each once.
pub open spec fn keys_from(
    elements: Seq<ExprV>,
    i: int,
    known: Seq<(Seq<char>, ValueV)>,
    out: Seq<KeyV>,
) -> Option<Seq<KeyV>>
    decreases elements, elements.len() - i,
{
    if !(0 <= i < elements.len()) {
        Some(out)
    } else {
        match const_value(elements[i], known) {
            Some(v) => match try_key_v(v) {
                Some(k) => keys_from(
                    elements,
                    i + 1,
                    known,
                    if out.contains(k) {
                        out
                    } else {
                        out.push(k)
                    },
                ),
                None => None,
            },
            None => None,
        }
    }
}

/// The entries of a dictionary from the `i`-th on.
pub open spec fn entries_from(
    entries: Seq<(ExprV, ExprV)>,
    i: int,
    known: Seq<(Seq<char>, ValueV)>,
    out: Seq<(KeyV, ValueV)>,
) -> Option<Seq<(KeyV, ValueV)>>
    decreases entries, entries.len() - i,
{
    if !(0 <= i < entries.len()) {
        Some(out)
    } else {
        match (const_value(entries[i].0, known), const_value(entries[i].1, known)) {
            (Some(kv), Some(v)) => match try_key_v(kv) {
                Some(k) => entries_from(entries, i + 1, known, inserted(out, k, v)),
                None => None,
            },
            _ => None,
        }
    }
}

pub open spec fn value_option(o: Option<Value>) -> Option<ValueV> {
    match o {
        Some(v) => Some(v@),
        None => None,
    }
}

fn eval_elements(elements: &Vec<Expr>, known: &NameMap<Value>) -> (r: Option<Vec<Value>>)
    ensures
        match r {
            Some(vs) => values_from(exprs_view(elements@), 0, const_views(known@), Seq::empty())
                == Some(values_view(vs@)),
            None => values_from(
                exprs_view(elements@),
                0,
                const_views(known@),
                Seq::empty(),
            ) is None,
        },
    decreases elements, 0int,
{
    let ghost es = exprs_view(elements@);
    let ghost ks = const_views(known@);
    let mut out: Vec<Value> = Vec::new();
    let mut i: usize = 0;
    assert(values_view(out@) =~= Seq::empty());
    while i < elements.len()
        invariant
            es == exprs_view(elements@),
            ks == const_views(known@),
            i <= elements@.len(),
            values_from(es, i as int, ks, values_view(out@)) == values_from(
                es,
                0,
                ks,
                Seq::empty(),
            ),
        decreases elements@.len() - i,
    {
        proof {
            assert(decreases_to!(*elements => elements@));
            assert(decreases_to!(elements@ => elements@[i as int]));
        }
        let ghost seen = values_view(out@);
        match eval_const_expr(&elements[i], known) {
            Some(v) => {
                out.push(v);
                assert(values_view(out@) =~= seen.push(v@));
            },
            None => {
                return None;
            },
        }
        i = i + 1;
    }
    Some(out)
}

fn eval_set(elements: &Vec<Expr>, known: &NameMap<Value>) -> (r: Option<Value>)
    ensures
        value_option(r) == match keys_from(
            exprs_view(elements@),
            0,
            const_views(known@),
            Seq::empty(),
        ) {
            Some(ks) => Some(ValueV::SetOf(ks)),
            None => None,
        },
    decreases elements, 0int,
{
    let ghost es = exprs_view(elements@);
    let ghost ks = const_views(known@);
    let mut out = set_new();
    let mut i: usize = 0;
    while i < elements.len()
        invariant
            es == exprs_view(elements@),
            ks == const_views(known@),
            i <= elements@.len(),
            keys_from(es, i as int, ks, items_of(out)) == keys_from(es, 0, ks, Seq::empty()),
        decreases elements@.len() - i,
    {
        proof {
            assert(decreases_to!(*elements => elements@));
            assert(decreases_to!(elements@ => elements@[i as int]));
        }
        match eval_const_expr(&elements[i], known) {
            Some(v) => {
                match MapKey::try_from_value(&v) {
                    Some(k) => {
                        let _added = set_insert_full(&mut out, k);
                    },
                    None => {
                        return None;
                    },
                }
            },
            None => {
                return None;
            },
        }
        i = i + 1;
    }
    Some(set_value(out))
}

fn eval_dict(entries: &Vec<(Expr, Expr)>, known: &NameMap<Value>) -> (r: Option<Value>)
    ensures
        value_option(r) == match entries_from(
            entries_view(entries@),
            0,
            const_views(known@),
            Seq::empty(),
        ) {
            Some(es) => Some(ValueV::Dict(es)),
            None => None,
        },
    decreases entries, 0int,
{
    let ghost es = entries_view(entries@);
    let ghost ks = const_views(known@);
    let mut out = Dict::new();
    let mut i: usize = 0;
    while i < entries.len()
        invariant
            es == entries_view(entries@),
            ks == const_views(known@),
            i <= entries@.len(),
            entries_from(es, i as int, ks, out@) == entries_from(es, 0, ks, Seq::empty()),
        decreases entries@.len() - i,
    {
        proof {
            assert(decreases_to!(*entries => entries@));
            assert(decreases_to!(entries@ => entries@[i as int]));
            assert(decreases_to!(entries@[i as int] => entries@[i as int].0));
            assert(decreases_to!(entries@[i as int] => entries@[i as int].1));
        }
        let key = match eval_const_expr(&entries[i].0, known) {
            Some(v) => v,
            None => {
                return None;
            },
        };
        let value = match eval_const_expr(&entries[i].1, known) {
            Some(v) => v,
            None => {
                return None;
            },
        };
        match MapKey::try_from_value(&key) {
            Some(k) => {
                let _old = out.insert(k, value);
            },
            None => {
                return None;
            },
        }
        i = i + 1;
    }
    Some(dict_value(out))
}

/// The value of a constant expression, by the constants that are known; nothing where it refers
/// to one that is not.
pub fn eval_const_expr(expr: &Expr, known: &NameMap<Value>) -> (r: Option<Value>)
    ensures
        value_option(r) == const_value(expr@, const_views(known@)),
    decreases expr, 1int,
{
    proof {
        lemma_expr_view(*expr);
        lemma_expr_kind_view(expr.kind);
        assert(decreases_to!(*expr => expr.kind));
    }
    match &expr.kind {
        ExprKind::IntLit(n) => {
            return Some(int_value(*n));
        },
        ExprKind::FloatLit(x) => {
            return Some(float_value(x.clone()));
        },
        ExprKind::BoolLit(b) => {
            return Some(bool_value(*b));
        },
        ExprKind::StringLit(s) => {
            return Some(str_value(s.clone()));
        },
        ExprKind::Ident(name) => {
            proof {
                lemma_mapped(known@, |v: Value| v.view(), name@, arbitrary());
            }
            return match known.get(name.as_str()) {
                Some(v) => Some(v.copy()),
                None => None,
            };
        },
        ExprKind::Grouping(inner) => {
            return eval_const_expr(inner, known);
        },
        ExprKind::ListLit { elements, was_multiline } => {
            return match eval_elements(elements, known) {
                Some(vs) => Some(list_value(vs)),
                None => None,
            };
        },
        ExprKind::TupleLit { elements, was_multiline } => {
            return match eval_elements(elements, known) {
                Some(vs) => Some(tuple_value(vs)),
                None => None,
            };
        },
        ExprKind::SetLit { elements, was_multiline } => {
            return eval_set(elements, known);
        },
        ExprKind::DictLit { entries, was_multiline } => {
            return eval_dict(entries, known);
        },
        _ => {
            return None;
        },
    }
}

// ---------------------------------------------------------------------------
// Types
// ---------------------------------------------------------------------------

/// A type whose values can be keys.
pub open spec fn is_key_ty(t: TyV) -> bool
    decreases t,
{
    match t {
        TyV::Int => true,
        TyV::Bool => true,
        TyV::Str => true,
        TyV::Tuple(items) => forall|i: int|
            0 <= i < items.len() ==> is_key_ty(#[trigger] items[i]),
        _ => false,
    }
}

/// The values of all types can be keys.
pub open spec fn all_key_tys(items: Seq<TyV>) -> bool {
    forall|i: int| 0 <= i < items.len() ==> is_key_ty(#[trigger] items[i])
}

proof fn lemma_key_ty(t: TyV)
    ensures
        t matches TyV::Tuple(items) ==> is_key_ty(t) == all_key_tys(items),
{
}

fn is_key(t: &Ty) -> (r: bool)
    ensures
        r == is_key_ty(t@),
    decreases t,
{
    proof {
        lemma_ty_view(*t);
        lemma_key_ty(t@);
    }
    match t {
        Ty::Int => true,
        Ty::Bool => true,
        Ty::Str => true,
        Ty::Tuple(items) => {
            let ghost ts = tys_view(items@);
            let mut i: usize = 0;
            while i < items.len()
                invariant
                    t matches Ty::Tuple(w) && w == items,
                    is_key_ty(t@) == all_key_tys(ts),
                    ts == tys_view(items@),
                    i <= items@.len(),
                    forall|j: int| 0 <= j < i ==> is_key_ty(#[trigger] ts[j]),
                decreases items@.len() - i,
            {
                proof {
                    assert(decreases_to!(*t => *items));
                    assert(decreases_to!(*items => items@));
                    assert(decreases_to!(items@ => items@[i as int]));
                }
                if !is_key(&items[i]) {
                    assert(!is_key_ty(ts[i as int]));
                    return false;
                }
                i = i + 1;
            }
            true
        },
        _ => false,
    }
}

pub open spec fn note(code: ErrorCode, span: Span, message: Seq<char>) -> Option<DiagnosticView> {
    Some(DiagnosticView { code, span, message })
}

/// The type of a constant expression, by the types of the constants that are known. Where it is
/// in error the diagnostic says why, and where it refers to a constant that is not known, or is
/// empty, there is none.
pub open spec fn const_type(e: ExprV, known: Seq<(Seq<char>, TyV)>) -> Result<
    TyV,
    Option<DiagnosticView>,
>
    decreases e, 0int,
{
    match e.kind {
        ExprKindV::IntLit(_) => Ok(TyV::Int),
        ExprKindV::FloatLit(_) => Ok(TyV::Float),
        ExprKindV::BoolLit(_) => Ok(TyV::Bool),
        ExprKindV::StringLit(_) => Ok(TyV::Str),
        ExprKindV::Ident(name) => match lookup(known, name) {
            Some(t) => Ok(t),
            None => Err(None),
        },
        ExprKindV::Grouping(inner) => const_type(*inner, known),
        ExprKindV::ListLit { elements, was_multiline } => match alike_from(
            elements,
            0,
            None,
            known,
        ) {
            Ok(t) => Ok(TyV::List(Box::new(t))),
            Err(d) => Err(d),
        },
        ExprKindV::SetLit { elements, was_multiline } => match alike_from(
            elements,
            0,
            None,
            known,
        ) {
            Ok(t) => if is_key_ty(t) {
                Ok(TyV::SetOf(Box::new(t)))
            } else {
                Err(
                    note(
                        ErrorCode::SetElementTypeNotAllowed,
                        e.span,
                        "module constant set element type is not allowed"@,
                    ),
                )
            },
            Err(d) => Err(d),
        },
        ExprKindV::TupleLit { elements, was_multiline } => match types_from(
            elements,
            0,
            known,
            Seq::empty(),
        ) {
            Ok(ts) => Ok(TyV::Tuple(ts)),
            Err(d) => Err(d),
        },
        ExprKindV::DictLit { entries, was_multiline } => match alike_side_from(
            entries,
            true,
            0,
            None,
            known,
        ) {
            Err(d) => Err(d),
            Ok(k) => if !is_key_ty(k) {
                Err(
                    note(
                        ErrorCode::DictKeyTypeNotAllowed,
                        e.span,
                        "module constant dictionary key type is not allowed"@,
                    ),
                )
            } else {
                match alike_side_from(entries, false, 0, None, known) {
                    Err(d) => Err(d),
                    Ok(v) => Ok(TyV::Dict(Box::new(k), Box::new(v))),
                }
            },
        },
        _ => Err(None),
    }
}

/// What the type `actual` of an element adds to those of the ones before it.
pub open spec fn agreed(expected: Option<TyV>, actual: TyV, span: Span) -> Result<
    TyV,
    Option<DiagnosticView>,
> {
    match expected {
        None => Ok(actual),
        Some(t) => if t == actual {
            Ok(t)
        } else {
            Err(
                note(
                    ErrorCode::CollectionElementTypeMismatch,
                    span,
                    "module constant collection elements have different types"@,
                ),
            )
        },
    }
}

/// The type that the elements from the `i`-th on share with those before them.
pub open spec fn alike_from(
    elements: Seq<ExprV>,
    i: int,
    expected: Option<TyV>,
    known: Seq<(Seq<char>, TyV)>,
) -> Result<TyV, Option<DiagnosticView>>
    decreases elements, elements.len() - i,
{
    if !(0 <= i < elements.len()) {
        match expected {
            Some(t) => Ok(t),
            None => Err(None),
        }
    } else {
        match const_type(elements[i], known) {
            Err(d) => Err(d),
            Ok(actual) => match agreed(expected, actual, elements[i].span) {
                Err(d) => Err(d),
                Ok(t) => alike_from(elements, i + 1, Some(t), known),
            },
        }
    }
}

pub open spec fn side(entry: (ExprV, ExprV), first: bool) -> ExprV {
    if first {
        entry.0
    } else {
        entry.1
    }
}

/// The type that the keys, or the values, of the entries from the `i`-th on share with those
/// before them.
pub open spec fn alike_side_from(
    entries: Seq<(ExprV, ExprV)>,
    first: bool,
    i: int,
    expected: Option<TyV>,
    known: Seq<(Seq<char>, TyV)>,
) -> Result<TyV, Option<DiagnosticView>>
    decreases entries, entries.len() - i,
{
    if !(0 <= i < entries.len()) {
        match expected {
            Some(t) => Ok(t),
            None => Err(None),
        }
    } else {
        let found = if first {
            const_type(entries[i].0, known)
        } else {
            const_type(entries[i].1, known)
        };
        match found {
            Err(d) => Err(d),
            Ok(actual) => match agreed(expected, actual, side(entries[i], first).span) {
                Err(d) => Err(d),
                Ok(t) => alike_side_from(entries, first, i + 1, Some(t), known),
            },
        }
    }
}

/// The types of the elements from the `i`-th on.
pub open spec fn types_from(
    elements: Seq<ExprV>,
    i: int,
    known: Seq<(Seq<char>, TyV)>,
    out: Seq<TyV>,
) -> Result<Seq<TyV>, Option<DiagnosticView>>
    decreases elements, elements.len() - i,
{
    if !(0 <= i < elements.len()) {
        Ok(out)
    } else {
        match const_type(elements[i], known) {
            Err(d) => Err(d),
            Ok(t) => types_from(elements, i + 1, known, out.push(t)),
        }
    }
}

pub open spec fn ty_views(s: Seq<(Seq<char>, Ty)>) -> Seq<(Seq<char>, TyV)> {
    mapped(s, |t: Ty| t.view())
}

pub open spec fn opt_note(o: Option<Diagnostic>) -> Option<DiagnosticView> {
    match o {
        Some(d) => Some(d@),
        None => None,
    }
}

pub open spec fn ty_result(r: Result<Ty, Option<Diagnostic>>) -> Result<
    TyV,
    Option<DiagnosticView>,
> {
    match r {
        Ok(t) => Ok(t@),
        Err(d) => Err(opt_note(d)),
    }
}

pub open spec fn opt_ty(o: Option<Ty>) -> Option<TyV> {
    match o {
        Some(t) => Some(t@),
        None => None,
    }
}

fn diagnostic(code: ErrorCode, span: Span, message: &str) -> (r: Option<Diagnostic>)
    ensures
        opt_note(r) == note(code, span, message@),
{
    Some(Diagnostic { code, span, message: message.to_owned() })
}

fn agree(expected: Option<Ty>, actual: Ty, span: Span) -> (r: Result<Ty, Option<Diagnostic>>)
    ensures
        ty_result(r) == agreed(opt_ty(expected), actual@, span),
{
    match expected {
        None => Ok(actual),
        Some(t) => if t.same(&actual) {
            Ok(t)
        } else {
            Err(
                diagnostic(
                    ErrorCode::CollectionElementTypeMismatch,
                    span,
                    "module constant collection elements have different types",
                ),
            )
        },
    }
}

fn infer_homogeneous(elements: &Vec<Expr>, known: &NameMap<Ty>) -> (r: Result<
    Ty,
    Option<Diagnostic>,
>)
    ensures
        ty_result(r) == alike_from(exprs_view(elements@), 0, None, ty_views(known@)),
    decreases elements, 0int,
{
    let ghost es = exprs_view(elements@);
    let ghost ks = ty_views(known@);
    let mut expected: Option<Ty> = None;
    let mut i: usize = 0;
    while i < elements.len()
        invariant
            es == exprs_view(elements@),
            ks == ty_views(known@),
            i <= elements@.len(),
            alike_from(es, i as int, opt_ty(expected), ks) == alike_from(es, 0, None, ks),
        decreases elements@.len() - i,
    {
        proof {
            assert(decreases_to!(*elements => elements@));
            assert(decreases_to!(elements@ => elements@[i as int]));
            lemma_expr_view(elements@[i as int]);
        }
        let actual = match infer_const_type(&elements[i], known) {
            Ok(t) => t,
            Err(d) => {
                return Err(d);
            },
        };
        match agree(expected, actual, elements[i].span) {
            Ok(t) => {
                expected = Some(t);
            },
            Err(d) => {
                return Err(d);
            },
        }
        i = i + 1;
    }
    match expected {
        Some(t) => Ok(t),
        None => Err(None),
    }
}

fn infer_side(entries: &Vec<(Expr, Expr)>, first: bool, known: &NameMap<Ty>) -> (r: Result<
    Ty,
    Option<Diagnostic>,
>)
    ensures
        ty_result(r) == alike_side_from(
            entries_view(entries@),
            first,
            0,
            None,
            ty_views(known@),
        ),
    decreases entries, 0int,
{
    let ghost es = entries_view(entries@);
    let ghost ks = ty_views(known@);
    let mut expected: Option<Ty> = None;
    let mut i: usize = 0;
    while i < entries.len()
        invariant
            es == entries_view(entries@),
            ks == ty_views(known@),
            i <= entries@.len(),
            alike_side_from(es, first, i as int, opt_ty(expected), ks) == alike_side_from(
                es,
                first,
                0,
                None,
                ks,
            ),
        decreases entries@.len() - i,
    {
        proof {
            assert(decreases_to!(*entries => entries@));
            assert(decreases_to!(entries@ => entries@[i as int]));
            assert(decreases_to!(entries@[i as int] => entries@[i as int].0));
            assert(decreases_to!(entries@[i as int] => entries@[i as int].1));
            lemma_expr_view(entries@[i as int].0);
            lemma_expr_view(entries@[i as int].1);
        }
        let element = if first {
            &entries[i].0
        } else {
            &entries[i].1
        };
        let actual = match infer_const_type(element, known) {
            Ok(t) => t,
            Err(d) => {
                return Err(d);
            },
        };
        match agree(expected, actual, element.span) {
            Ok(t) => {
                expected = Some(t);
            },
            Err(d) => {
                return Err(d);
            },
        }
        i = i + 1;
    }
    match expected {
        Some(t) => Ok(t),
        None => Err(None),
    }
}

fn infer_each(elements: &Vec<Expr>, known: &NameMap<Ty>) -> (r: Result<
    Vec<Ty>,
    Option<Diagnostic>,
>)
    ensures
        match r {
            Ok(ts) => types_from(exprs_view(elements@), 0, ty_views(known@), Seq::empty()) == Ok::<
                Seq<TyV>,
                Option<DiagnosticView>,
            >(tys_view(ts@)),
            Err(d) => types_from(exprs_view(elements@), 0, ty_views(known@), Seq::empty())
                == Err::<Seq<TyV>, Option<DiagnosticView>>(opt_note(d)),
        },
    decreases elements, 0int,
{
    let ghost es = exprs_view(elements@);
    let ghost ks = ty_views(known@);
    let mut out: Vec<Ty> = Vec::new();
    let mut i: usize = 0;
    assert(tys_view(out@) =~= Seq::empty());
    while i < elements.len()
        invariant
            es == exprs_view(elements@),
            ks == ty_views(known@),
            i <= elements@.len(),
            types_from(es, i as int, ks, tys_view(out@)) == types_from(es, 0, ks, Seq::empty()),
        decreases elements@.len() - i,
    {
        proof {
            assert(decreases_to!(*elements => elements@));
            assert(decreases_to!(elements@ => elements@[i as int]));
        }
        let ghost seen = tys_view(out@);
        match infer_const_type(&elements[i], known) {
            Ok(t) => {
                out.push(t);
                assert(tys_view(out@) =~= seen.push(t@));
            },
            Err(d) => {
                return Err(d);
            },
        }
        i = i + 1;
    }
    Ok(out)
}

fn list_ty(t: Ty) -> (r: Ty)
    ensures
        r@ == TyV::List(Box::new(t@)),
{
    let r = Ty::List(Box::new(t));
    proof {
        lemma_ty_view(r);
    }
    r
}

fn set_ty(t: Ty) -> (r: Ty)
    ensures
        r@ == TyV::SetOf(Box::new(t@)),
{
    let r = Ty::SetOf(Box::new(t));
    proof {
        lemma_ty_view(r);
    }
    r
}

fn dict_ty(k: Ty, v: Ty) -> (r: Ty)
    ensures
        r@ == TyV::Dict(Box::new(k@), Box::new(v@)),
{
    let r = Ty::Dict(Box::new(k), Box::new(v));
    proof {
        lemma_ty_view(r);
    }
    r
}

fn tuple_ty(items: Vec<Ty>) -> (r: Ty)
    ensures
        r@ == TyV::Tuple(tys_view(items@)),
{
    let r = Ty::Tuple(items);
    proof {
        lemma_ty_view(r);
    }
    r
}

/// The type of a constant expression, by the types of the constants that are known.
pub fn infer_const_type(expression: &Expr, known: &NameMap<Ty>) -> (r: Result<
    Ty,
    Option<Diagnostic>,
>)
    ensures
        ty_result(r) == const_type(expression@, ty_views(known@)),
    decreases expression, 1int,
{
    proof {
        lemma_expr_view(*expression);
        lemma_expr_kind_view(expression.kind);
        lemma_ty_view(Ty::Int);
        lemma_ty_view(Ty::Float);
        lemma_ty_view(Ty::Bool);
        lemma_ty_view(Ty::Str);
        assert(decreases_to!(*expression => expression.kind));
    }
    match &expression.kind {
        ExprKind::IntLit(_) => {
            return Ok(Ty::Int);
        },
        ExprKind::FloatLit(_) => {
            return Ok(Ty::Float);
        },
        ExprKind::BoolLit(_) => {
            return Ok(Ty::Bool);
        },
        ExprKind::StringLit(_) => {
            return Ok(Ty::Str);
        },
        ExprKind::Ident(name) => {
            proof {
                lemma_mapped(known@, |t: Ty| t.view(), name@, arbitrary());
            }
            return match known.get(name.as_str()) {
                Some(t) => Ok(t.copy()),
                None => Err(None),
            };
        },
        ExprKind::Grouping(inner) => {
            return infer_const_type(inner, known);
        },
        ExprKind::ListLit { elements, was_multiline } => {
            return match infer_homogeneous(elements, known) {
                Ok(t) => Ok(list_ty(t)),
                Err(d) => Err(d),
            };
        },
        ExprKind::SetLit { elements, was_multiline } => {
            return match infer_homogeneous(elements, known) {
                Ok(t) => if is_key(&t) {
                    Ok(set_ty(t))
                } else {
                    Err(
                        diagnostic(
                            ErrorCode::SetElementTypeNotAllowed,
                            expression.span,
                            "module constant set element type is not allowed",
                        ),
                    )
                },
                Err(d) => Err(d),
            };
        },
        ExprKind::TupleLit { elements, was_multiline } => {
            return match infer_each(elements, known) {
                Ok(ts) => Ok(tuple_ty(ts)),
                Err(d) => Err(d),
            };
        },
        ExprKind::DictLit { entries, was_multiline } => {
            let k = match infer_side(entries, true, known) {
                Ok(t) => t,
                Err(d) => {
                    return Err(d);
                },
            };
            if !is_key(&k) {
                return Err(
                    diagnostic(
                        ErrorCode::DictKeyTypeNotAllowed,
                        expression.span,
                        "module constant dictionary key type is not allowed",
                    ),
                );
            }
            return match infer_side(entries, false, known) {
                Ok(v) => Ok(dict_ty(k, v)),
                Err(d) => Err(d),
            };
        },
        _ => {
            return Err(None);
        },
    }
}

// ---------------------------------------------------------------------------
// All constants together
// ---------------------------------------------------------------------------

/// A constant that a module defines.
pub struct Candidate<'a> {
    pub name: String,
    pub value: &'a Expr,
}

pub ghost struct CandidateV {
    pub name: Seq<char>,
    pub value: ExprV,
}

impl<'a> Candidate<'a> {
    pub open spec fn view(&self) -> CandidateV {
        CandidateV { name: self.name@, value: self.value.view() }
    }
}

pub open spec fn candidates_view(v: Seq<Candidate<'_>>) -> Seq<CandidateV> {
    Seq::new(v.len(), |i: int| v[i].view())
}

/// The state of checking types: the types that are known, the diagnostics, and the constants
/// that could not be settled yet.
pub ghost struct TypeRoundV {
    pub known: Seq<(Seq<char>, TyV)>,
    pub notes: Seq<DiagnosticView>,
    pub rest: Seq<CandidateV>,
}

/// The state once the constants from the `i`-th on have been tried.
pub open spec fn type_round(pending: Seq<CandidateV>, i: int, st: TypeRoundV) -> TypeRoundV
    decreases pending.len() - i,
{
    if !(0 <= i < pending.len()) {
        st
    } else {
        let next = match const_type(pending[i].value, st.known) {
            Ok(t) => TypeRoundV { known: put(st.known, pending[i].name, t), ..st },
            Err(Some(d)) => TypeRoundV { notes: st.notes.push(d), ..st },
            Err(None) => TypeRoundV { rest: st.rest.push(pending[i]), ..st },
        };
        type_round(pending, i + 1, next)
    }
}

/// What a constant that cannot be settled is reported as.
pub open spec fn unsettled(c: CandidateV) -> DiagnosticView {
    DiagnosticView {
        code: ErrorCode::UninferableType,
        span: c.value.span,
        message: "module constant '"@ + c.name
            + "' has an undefined or circular reference"@,
    }
}

pub open spec fn unsettled_from(rest: Seq<CandidateV>, i: int, notes: Seq<DiagnosticView>) -> Seq<
    DiagnosticView,
>
    decreases rest.len() - i,
{
    if 0 <= i < rest.len() {
        unsettled_from(rest, i + 1, notes.push(unsettled(rest[i])))
    } else {
        notes
    }
}

/// The diagnostics of checking the types of constants: they are tried in turn until a round
/// settles none, and those left over are reported.
pub open spec fn types_checked(
    pending: Seq<CandidateV>,
    known: Seq<(Seq<char>, TyV)>,
    notes: Seq<DiagnosticView>,
) -> Seq<DiagnosticView>
    decreases pending.len(),
{
    let st = type_round(pending, 0, TypeRoundV { known, notes, rest: Seq::empty() });
    if pending.len() == 0 {
        notes
    } else if st.rest.len() >= pending.len() {
        unsettled_from(st.rest, 0, st.notes)
    } else {
        types_checked(st.rest, st.known, st.notes)
    }
}

/// Reports the module constants whose types are in error, or that refer to nothing or to one
/// another in a circle.
pub fn validate_module_const_types(candidates: Vec<Candidate<'_>>, diagnostics: &mut DiagnosticBag)
    ensures
        final(diagnostics)@ == types_checked(
            candidates_view(candidates@),
            Seq::empty(),
            old(diagnostics)@,
        ),
{
    let ghost start = diagnostics@;
    let ghost all = candidates_view(candidates@);
    let mut known: NameMap<Ty> = NameMap::new();
    let mut pending = candidates;
    assert(ty_views(known@) =~= Seq::empty());
    while pending.len() > 0
        invariant
            all == candidates_view(candidates@),
            start == old(diagnostics)@,
            types_checked(candidates_view(pending@), ty_views(known@), diagnostics@)
                == types_checked(all, Seq::empty(), start),
        decreases pending@.len(),
    {
        let ghost ps = candidates_view(pending@);
        let ghost st0 = TypeRoundV {
            known: ty_views(known@),
            notes: diagnostics@,
            rest: Seq::empty(),
        };
        let tried: usize = pending.len();
        let mut rest: Vec<Candidate<'_>> = Vec::new();
        let mut i: usize = 0;
        assert(candidates_view(rest@) =~= Seq::empty());
        while i < tried
            invariant
                tried == pending@.len(),
                ps == candidates_view(pending@),
                i <= tried,
                rest@.len() <= i,
                type_round(
                    ps,
                    i as int,
                    TypeRoundV {
                        known: ty_views(known@),
                        notes: diagnostics@,
                        rest: candidates_view(rest@),
                    },
                ) == type_round(ps, 0, st0),
            decreases tried - i,
        {
            let ghost seen = candidates_view(rest@);
            assert(ps[i as int] == pending@[i as int]@);
            match infer_const_type(pending[i].value, &known) {
                Ok(t) => {
                    proof {
                        lemma_mapped(known@, |x: Ty| x.view(), pending@[i as int].name@, t);
                    }
                    known.insert(pending[i].name.clone(), t);
                },
                Err(Some(d)) => {
                    diagnostics.push(d);
                },
                Err(None) => {
                    let c = Candidate { name: pending[i].name.clone(), value: pending[i].value };
                    rest.push(c);
                    assert(candidates_view(rest@) =~= seen.push(ps[i as int]));
                },
            }
            i = i + 1;
        }
        if rest.len() >= tried {
            let ghost rs = candidates_view(rest@);
            let ghost notes = diagnostics@;
            let mut j: usize = 0;
            while j < rest.len()
                invariant
                    rs == candidates_view(rest@),
                    j <= rest@.len(),
                    unsettled_from(rs, j as int, diagnostics@) == unsettled_from(rs, 0, notes),
                decreases rest@.len() - j,
            {
                proof {
                    assert(rs[j as int] == rest@[j as int]@);
                    lemma_expr_view(*rest@[j as int].value);
                }
                diagnostics.push(
                    Diagnostic {
                        code: ErrorCode::UninferableType,
                        span: rest[j].value.span,
                        message: join3(
                            "module constant '",
                            rest[j].name.as_str(),
                            "' has an undefined or circular reference",
                        ),
                    },
                );
                j = j + 1;
            }
            return;
        }
        pending = rest;
    }
}

/// The state of finding values: the constants that are known, and those that are not yet.
pub ghost struct ValueRoundV {
    pub known: Seq<(Seq<char>, ValueV)>,
    pub rest: Seq<CandidateV>,
}

/// The state once the constants from the `i`-th on have been tried.
pub open spec fn value_round(pending: Seq<CandidateV>, i: int, st: ValueRoundV) -> ValueRoundV
    decreases pending.len() - i,
{
    if !(0 <= i < pending.len()) {
        st
    } else {
        let next = match const_value(pending[i].value, st.known) {
            Some(v) => ValueRoundV { known: put(st.known, pending[i].name, v), ..st },
            None => ValueRoundV { rest: st.rest.push(pending[i]), ..st },
        };
        value_round(pending, i + 1, next)
    }
}

/// The constants that are known once they have been tried in turn until a round finds no value.
pub open spec fn consts_resolved(
    pending: Seq<CandidateV>,
    known: Seq<(Seq<char>, ValueV)>,
) -> Seq<(Seq<char>, ValueV)>
    decreases pending.len(),
{
    let st = value_round(pending, 0, ValueRoundV { known, rest: Seq::empty() });
    if st.rest.len() >= pending.len() {
        st.known
    } else {
        consts_resolved(st.rest, st.known)
    }
}

/// Finds the values of module constants, in whatever order they refer to one another.
pub fn resolve_module_const_values(candidates: Vec<Candidate<'_>>, known: &mut NameMap<Value>)
    ensures
        const_views(final(known)@) == consts_resolved(
            candidates_view(candidates@),
            const_views(old(known)@),
        ),
{
    let ghost start = const_views(known@);
    let ghost all = candidates_view(candidates@);
    let mut pending = candidates;
    loop
        invariant
            all == candidates_view(candidates@),
            start == const_views(old(known)@),
            consts_resolved(candidates_view(pending@), const_views(known@)) == consts_resolved(
                all,
                start,
            ),
        decreases pending@.len(),
    {
        let ghost ps = candidates_view(pending@);
        let ghost st0 = ValueRoundV { known: const_views(known@), rest: Seq::empty() };
        let tried: usize = pending.len();
        let mut rest: Vec<Candidate<'_>> = Vec::new();
        let mut i: usize = 0;
        assert(candidates_view(rest@) =~= Seq::empty());
        while i < tried
            invariant
                tried == pending@.len(),
                ps == candidates_view(pending@),
                i <= tried,
                value_round(
                    ps,
                    i as int,
                    ValueRoundV {
                        known: const_views(known@),
                        rest: candidates_view(rest@),
                    },
                ) == value_round(ps, 0, st0),
            decreases tried - i,
        {
            let ghost seen = candidates_view(rest@);
            assert(ps[i as int] == pending@[i as int]@);
            match eval_const_expr(pending[i].value, known) {
                Some(v) => {
                    proof {
                        lemma_mapped(known@, |x: Value| x.view(), pending@[i as int].name@, v);
                    }
                    known.insert(pending[i].name.clone(), v);
                },
                None => {
                    let c = Candidate { name: pending[i].name.clone(), value: pending[i].value };
                    rest.push(c);
                    assert(candidates_view(rest@) =~= seen.push(ps[i as int]));
                },
            }
            i = i + 1;
        }
        if rest.len() >= tried {
            return;
        }
        pending = rest;
    }
}

} // verus!
