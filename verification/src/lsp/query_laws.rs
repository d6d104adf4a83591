//! What a search for the expression at a place comes to.

use super::query::{
    found_at, in_arg, in_args, in_arm, in_arms, in_block, in_body, in_callee, in_else, in_entries,
    in_entry, in_expr, in_exprs, in_functions, in_if, in_kind, in_methods, in_segment, in_segments,
    in_stage, in_stages, in_stmt, in_stmt_kind, in_stmts, in_structs, ExprAtV, Place, QueryKindV,
};
use crate::ast::{
    ArgV, ArmBodyV, ArmV, BlockV, CalleeV, ElseV, ExprKindV, ExprV, FunctionV, IfV, SegmentV,
    StageV, StmtKindV, StmtV, StructV,
};
use crate::diagnostics::{FileId, Span};
use crate::eval::env::ProgramV;
use vstd::prelude::*;

verus! {

// ---------------------------------------------------------------------------
// Spans and places
// ---------------------------------------------------------------------------

/// A span covers a place: it starts there or before, and ends behind it.
pub open spec fn covers(s: Span, at: Place) -> bool {
    let line = at.position.line;
    let col = at.position.col;
    &&& s.file == at.file
    &&& s.start.line < line || (s.start.line == line && s.start.col <= col)
    &&& line < s.end.line || (line == s.end.line && col < s.end.col)
}

/// One span lies in another: it starts no earlier and ends no later.
pub open spec fn lies_in(a: Span, b: Span) -> bool {
    &&& b.start.line < a.start.line || (b.start.line == a.start.line && b.start.col <= a.start.col)
    &&& a.end.line < b.end.line || (a.end.line == b.end.line && a.end.col <= b.end.col)
}

/// One span lies in another that reaches further.
pub open spec fn strictly_inside(a: Span, b: Span) -> bool {
    lies_in(a, b) && !lies_in(b, a)
}

// ---------------------------------------------------------------------------
// The expressions in a tree
// ---------------------------------------------------------------------------

/// `e` is `x` or one of its parts, at any depth; so for the other trees, and for lists of them
/// from the `i`-th item on.
pub open spec fn occurs_expr(e: ExprV, x: ExprV) -> bool
    decreases x, 0int,
{
    e == x || occurs_kind(e, x.kind)
}

pub open spec fn occurs_entry(e: ExprV, x: (ExprV, ExprV)) -> bool
    decreases x, 0int,
{
    occurs_expr(e, x.0) || occurs_expr(e, x.1)
}

pub open spec fn occurs_arg(e: ExprV, x: ArgV) -> bool
    decreases x, 0int,
{
    occurs_expr(e, x.value)
}

pub open spec fn occurs_segment(e: ExprV, x: SegmentV) -> bool
    decreases x, 0int,
{
    match x {
        SegmentV::Expr(inner) => occurs_expr(e, *inner),
        SegmentV::Text(_) => false,
    }
}

pub open spec fn occurs_stage(e: ExprV, x: StageV) -> bool
    decreases x, 0int,
{
    occurs_callee(e, x.callee)
}

pub open spec fn occurs_callee(e: ExprV, x: CalleeV) -> bool
    decreases x, 0int,
{
    match x {
        CalleeV::Bare(inner) => occurs_expr(e, inner),
        CalleeV::WithArgs { callee, args } => occurs_expr(e, *callee) || occurs_args(e, args, 0),
    }
}

pub open spec fn occurs_if(e: ExprV, x: IfV) -> bool
    decreases x, 0int,
{
    occurs_expr(e, *x.cond) || occurs_block(e, x.then_branch) || occurs_else(e, x.else_branch)
}

pub open spec fn occurs_else(e: ExprV, x: ElseV) -> bool
    decreases x, 0int,
{
    match x {
        ElseV::Block(b) => occurs_block(e, b),
        ElseV::ElseIf(i) => occurs_if(e, *i),
    }
}

pub open spec fn occurs_arm(e: ExprV, x: ArmV) -> bool
    decreases x, 0int,
{
    occurs_body(e, x.body)
}

pub open spec fn occurs_body(e: ExprV, x: ArmBodyV) -> bool
    decreases x, 0int,
{
    match x {
        ArmBodyV::Expr(inner) => occurs_expr(e, inner),
        ArmBodyV::Block(b) => occurs_block(e, b),
    }
}

pub open spec fn occurs_block(e: ExprV, x: BlockV) -> bool
    decreases x, 0int,
{
    occurs_stmts(e, x.stmts, 0)
}

pub open spec fn occurs_stmt(e: ExprV, x: StmtV) -> bool
    decreases x, 0int,
{
    occurs_stmt_kind(e, x.kind)
}

pub open spec fn occurs_kind(e: ExprV, x: ExprKindV) -> bool
    decreases x, 0int,
{
    match x {
        ExprKindV::FString(segments) => occurs_segments(e, segments, 0),
        ExprKindV::ListLit { elements, was_multiline } => occurs_exprs(e, elements, 0),
        ExprKindV::SetLit { elements, was_multiline } => occurs_exprs(e, elements, 0),
        ExprKindV::TupleLit { elements, was_multiline } => occurs_exprs(e, elements, 0),
        ExprKindV::DictLit { entries, was_multiline } => occurs_entries(e, entries, 0),
        ExprKindV::Unary { op, operand } => occurs_expr(e, *operand),
        ExprKindV::Binary { op, lhs, rhs } => occurs_expr(e, *lhs) || occurs_expr(e, *rhs),
        ExprKindV::Call { callee, type_args, args, was_multiline } => occurs_expr(e, *callee) || occurs_args(e, args, 0),
        ExprKindV::MethodCall { receiver, method, type_args, args, was_multiline } => occurs_expr(e, *receiver) || occurs_args(e, args, 0),
        ExprKindV::FieldAccess { target, field } => occurs_expr(e, *target),
        ExprKindV::TupleIndex { target, index } => occurs_expr(e, *target),
        ExprKindV::Index { target, index } => occurs_expr(e, *target) || occurs_expr(e, *index),
        ExprKindV::Question { target } => occurs_expr(e, *target),
        ExprKindV::Pipe { source, stages } => occurs_expr(e, *source) || occurs_stages(e, stages, 0),
        ExprKindV::Lambda { params, body } => occurs_expr(e, *body),
        ExprKindV::If(i) => occurs_if(e, *i),
        ExprKindV::Match { scrutinee, arms } => occurs_expr(e, *scrutinee) || occurs_arms(e, arms, 0),
        ExprKindV::Par { kind, elements } => occurs_exprs(e, elements, 0),
        ExprKindV::Grouping(inner) => occurs_expr(e, *inner),
        _ => false,
    }
}

pub open spec fn occurs_stmt_kind(e: ExprV, x: StmtKindV) -> bool
    decreases x, 0int,
{
    match x {
        StmtKindV::VarDecl { name, ty, value } => occurs_expr(e, value),
        StmtKindV::NameAssign { name, ty, value } => occurs_expr(e, value),
        StmtKindV::FieldAssign { target, field, value } => occurs_expr(e, target) || occurs_expr(e, value),
        StmtKindV::IndexAssign { target, index, value } => occurs_expr(e, target) || occurs_expr(e, index) || occurs_expr(e, value),
        StmtKindV::Discard(inner) => occurs_expr(e, inner),
        StmtKindV::ExprStmt(inner) => occurs_expr(e, inner),
        StmtKindV::Return(Some(inner)) => occurs_expr(e, inner),
        StmtKindV::Return(None) => false,
    }
}

pub open spec fn occurs_exprs(e: ExprV, x: Seq<ExprV>, i: int) -> bool
    decreases x, x.len() - i,
{
    0 <= i < x.len() && (occurs_expr(e, x[i]) || occurs_exprs(e, x, i + 1))
}

pub open spec fn occurs_entries(e: ExprV, x: Seq<(ExprV, ExprV)>, i: int) -> bool
    decreases x, x.len() - i,
{
    0 <= i < x.len() && (occurs_entry(e, x[i]) || occurs_entries(e, x, i + 1))
}

pub open spec fn occurs_args(e: ExprV, x: Seq<ArgV>, i: int) -> bool
    decreases x, x.len() - i,
{
    0 <= i < x.len() && (occurs_arg(e, x[i]) || occurs_args(e, x, i + 1))
}

pub open spec fn occurs_segments(e: ExprV, x: Seq<SegmentV>, i: int) -> bool
    decreases x, x.len() - i,
{
    0 <= i < x.len() && (occurs_segment(e, x[i]) || occurs_segments(e, x, i + 1))
}

pub open spec fn occurs_stages(e: ExprV, x: Seq<StageV>, i: int) -> bool
    decreases x, x.len() - i,
{
    0 <= i < x.len() && (occurs_stage(e, x[i]) || occurs_stages(e, x, i + 1))
}

pub open spec fn occurs_arms(e: ExprV, x: Seq<ArmV>, i: int) -> bool
    decreases x, x.len() - i,
{
    0 <= i < x.len() && (occurs_arm(e, x[i]) || occurs_arms(e, x, i + 1))
}

pub open spec fn occurs_stmts(e: ExprV, x: Seq<StmtV>, i: int) -> bool
    decreases x, x.len() - i,
{
    0 <= i < x.len() && (occurs_stmt(e, x[i]) || occurs_stmts(e, x, i + 1))
}

/// `e` occurs in the body of a function, or of a method of a struct, that stands in a file.
pub open spec fn in_bodies(e: ExprV, p: ProgramV, file: FileId) -> bool {
    ||| exists|i: int|
        0 <= i < p.functions.len() && (#[trigger] p.functions[i]).1.span.file == file && occurs_block(
            e,
            p.functions[i].1.body,
        )
    ||| exists|i: int, j: int|
        #![trigger p.structs[i], p.structs[i].1.methods[j]]
        0 <= i < p.structs.len() && p.structs[i].1.span.file == file && 0 <= j
            < p.structs[i].1.methods.len() && occurs_block(e, p.structs[i].1.methods[j].body)
}

/// `r` tells of the expression `e`: its number, its span, and what it names.
pub open spec fn tells_of(r: ExprAtV, e: ExprV) -> bool {
    &&& r.id == e.id
    &&& r.span == e.span
    &&& match e.kind {
        ExprKindV::Ident(_) => r.kind is Ident,
        ExprKindV::MethodCall { receiver, method, type_args, args, was_multiline } => {
            r.kind == (QueryKindV::Method { receiver: receiver.id, name: method })
        },
        ExprKindV::FieldAccess { target, field } => {
            r.kind == (QueryKindV::Field { receiver: target.id, name: field })
        },
        _ => r.kind is Other,
    }
}

// ---------------------------------------------------------------------------
// The search
// ---------------------------------------------------------------------------

/// The search has come past `e`: where it covers the place, something was found, and nothing that
/// it lies strictly inside of.
spec fn settled(e: ExprV, at: Place, r: Option<ExprAtV>) -> bool {
    covers(e.span, at) ==> r is Some && !strictly_inside(e.span, r->Some_0.span)
}

/// What is found later lies in what was found before.
spec fn narrowed(a: Option<ExprAtV>, b: Option<ExprAtV>) -> bool {
    a is Some ==> b is Some && lies_in(b->Some_0.span, a->Some_0.span)
}

spec fn answers(e: ExprV, r: Option<ExprAtV>) -> bool {
    r is Some && tells_of(r->Some_0, e)
}

proof fn lemma_stays()
    ensures
        forall|e: ExprV, at: Place, a: Option<ExprAtV>, b: Option<ExprAtV>|
            #[trigger] settled(e, at, a) && #[trigger] narrowed(a, b) ==> settled(e, at, b),
        forall|a: Option<ExprAtV>, b: Option<ExprAtV>, c: Option<ExprAtV>|
            #[trigger] narrowed(a, b) && #[trigger] narrowed(b, c) ==> narrowed(a, c),
{
}

proof fn seek_expr(x: ExprV, at: Place, best: Option<ExprAtV>)
    ensures
        narrowed(best, in_expr(x, at, best)),
        forall|e: ExprV| #[trigger] occurs_expr(e, x) ==> settled(e, at, in_expr(x, at, best)),
        in_expr(x, at, best) == best || exists|e: ExprV| #[trigger]
            occurs_expr(e, x) && answers(e, in_expr(x, at, best)),
    decreases x, 0int,
{
    lemma_stays();
    let found = if covers(x.span, at) && (best is None || lies_in(x.span, best->Some_0.span)) {
        in_here(x)
    } else {
        best
    };
    assert(in_expr(x, at, best) == in_kind(x.kind, at, found));
    seek_kind(x.kind, at, found);
    assert(settled(x, at, found));
    assert(narrowed(best, found));
    let r = in_kind(x.kind, at, found);
    assert forall|e: ExprV| #[trigger] occurs_expr(e, x) implies settled(e, at, r) by {
        if e != x {
            assert(occurs_kind(e, x.kind));
        }
    }
    assert(occurs_expr(x, x));
    if r != found {
        let e = choose|e: ExprV| #[trigger] occurs_kind(e, x.kind) && answers(e, r);
        assert(occurs_expr(e, x));
    }
}

spec fn in_here(x: ExprV) -> Option<ExprAtV> {
    Some(ExprAtV { id: x.id, span: x.span, kind: super::query::query_of(x.kind) })
}

proof fn seek_entry(x: (ExprV, ExprV), at: Place, best: Option<ExprAtV>)
    ensures
        narrowed(best, in_entry(x, at, best)),
        forall|e: ExprV| #[trigger] occurs_entry(e, x) ==> settled(e, at, in_entry(x, at, best)),
        in_entry(x, at, best) == best || exists|e: ExprV| #[trigger]
            occurs_entry(e, x) && answers(e, in_entry(x, at, best)),
    decreases x, 0int,
{
    lemma_stays();
    let r = in_entry(x, at, best);
    seek_expr(x.0, at, best);
    seek_expr(x.1, at, in_expr(x.0, at, best));
    assert forall|e: ExprV| #[trigger] occurs_entry(e, x) implies settled(e, at, r) by {
        if occurs_expr(e, x.0) {
            assert(settled(e, at, in_expr(x.0, at, best)));
        }
        if occurs_expr(e, x.1) {
            assert(settled(e, at, in_expr(x.1, at, in_expr(x.0, at, best))));
        }
    }
    if in_expr(x.1, at, in_expr(x.0, at, best)) != in_expr(x.0, at, best) {
        let e = choose|e: ExprV| #[trigger] occurs_expr(e, x.1) && answers(e, in_expr(x.1, at, in_expr(x.0, at, best)));
        assert(occurs_entry(e, x));
    } else if in_expr(x.0, at, best) != best {
        let e = choose|e: ExprV| #[trigger] occurs_expr(e, x.0) && answers(e, in_expr(x.0, at, best));
        assert(occurs_entry(e, x));
    }
}

proof fn seek_arg(x: ArgV, at: Place, best: Option<ExprAtV>)
    ensures
        narrowed(best, in_arg(x, at, best)),
        forall|e: ExprV| #[trigger] occurs_arg(e, x) ==> settled(e, at, in_arg(x, at, best)),
        in_arg(x, at, best) == best || exists|e: ExprV| #[trigger]
            occurs_arg(e, x) && answers(e, in_arg(x, at, best)),
    decreases x, 0int,
{
    lemma_stays();
    let r = in_arg(x, at, best);
    seek_expr(x.value, at, best);
    assert forall|e: ExprV| #[trigger] occurs_arg(e, x) implies settled(e, at, r) by {
        if occurs_expr(e, x.value) {
            assert(settled(e, at, in_expr(x.value, at, best)));
        }
    }
    if in_expr(x.value, at, best) != best {
        let e = choose|e: ExprV| #[trigger] occurs_expr(e, x.value) && answers(e, in_expr(x.value, at, best));
        assert(occurs_arg(e, x));
    }
}

proof fn seek_segment(x: SegmentV, at: Place, best: Option<ExprAtV>)
    ensures
        narrowed(best, in_segment(x, at, best)),
        forall|e: ExprV| #[trigger] occurs_segment(e, x) ==> settled(e, at, in_segment(x, at, best)),
        in_segment(x, at, best) == best || exists|e: ExprV| #[trigger]
            occurs_segment(e, x) && answers(e, in_segment(x, at, best)),
    decreases x, 0int,
{
    lemma_stays();
    let r = in_segment(x, at, best);
    match x {
        SegmentV::Expr(inner) => {
            seek_expr(*inner, at, best);
            assert forall|e: ExprV| #[trigger] occurs_segment(e, x) implies settled(e, at, r) by {
                if occurs_expr(e, *inner) {
                    assert(settled(e, at, in_expr(*inner, at, best)));
                }
            }
            if in_expr(*inner, at, best) != best {
                let e = choose|e: ExprV| #[trigger] occurs_expr(e, *inner) && answers(e, in_expr(*inner, at, best));
                assert(occurs_segment(e, x));
            }
        },
        SegmentV::Text(_) => {},
    }
}

proof fn seek_stage(x: StageV, at: Place, best: Option<ExprAtV>)
    ensures
        narrowed(best, in_stage(x, at, best)),
        forall|e: ExprV| #[trigger] occurs_stage(e, x) ==> settled(e, at, in_stage(x, at, best)),
        in_stage(x, at, best) == best || exists|e: ExprV| #[trigger]
            occurs_stage(e, x) && answers(e, in_stage(x, at, best)),
    decreases x, 0int,
{
    lemma_stays();
    let r = in_stage(x, at, best);
    seek_callee(x.callee, at, best);
    assert forall|e: ExprV| #[trigger] occurs_stage(e, x) implies settled(e, at, r) by {
        if occurs_callee(e, x.callee) {
            assert(settled(e, at, in_callee(x.callee, at, best)));
        }
    }
    if in_callee(x.callee, at, best) != best {
        let e = choose|e: ExprV| #[trigger] occurs_callee(e, x.callee) && answers(e, in_callee(x.callee, at, best));
        assert(occurs_stage(e, x));
    }
}

proof fn seek_callee(x: CalleeV, at: Place, best: Option<ExprAtV>)
    ensures
        narrowed(best, in_callee(x, at, best)),
        forall|e: ExprV| #[trigger] occurs_callee(e, x) ==> settled(e, at, in_callee(x, at, best)),
        in_callee(x, at, best) == best || exists|e: ExprV| #[trigger]
            occurs_callee(e, x) && answers(e, in_callee(x, at, best)),
    decreases x, 0int,
{
    lemma_stays();
    let r = in_callee(x, at, best);
    match x {
        CalleeV::Bare(inner) => {
            seek_expr(inner, at, best);
            assert forall|e: ExprV| #[trigger] occurs_callee(e, x) implies settled(e, at, r) by {
                if occurs_expr(e, inner) {
                    assert(settled(e, at, in_expr(inner, at, best)));
                }
            }
            if in_expr(inner, at, best) != best {
                let e = choose|e: ExprV| #[trigger] occurs_expr(e, inner) && answers(e, in_expr(inner, at, best));
                assert(occurs_callee(e, x));
            }
        },
        CalleeV::WithArgs { callee, args } => {
            seek_expr(*callee, at, best);
            seek_args(args, 0, at, in_expr(*callee, at, best));
            assert forall|e: ExprV| #[trigger] occurs_callee(e, x) implies settled(e, at, r) by {
                if occurs_expr(e, *callee) {
                    assert(settled(e, at, in_expr(*callee, at, best)));
                }
                if occurs_args(e, args, 0) {
                    assert(settled(e, at, in_args(args, 0, at, in_expr(*callee, at, best))));
                }
            }
            if in_args(args, 0, at, in_expr(*callee, at, best)) != in_expr(*callee, at, best) {
                let e = choose|e: ExprV| #[trigger] occurs_args(e, args, 0) && answers(e, in_args(args, 0, at, in_expr(*callee, at, best)));
                assert(occurs_callee(e, x));
            } else if in_expr(*callee, at, best) != best {
                let e = choose|e: ExprV| #[trigger] occurs_expr(e, *callee) && answers(e, in_expr(*callee, at, best));
                assert(occurs_callee(e, x));
            }
        },
    }
}

proof fn seek_if(x: IfV, at: Place, best: Option<ExprAtV>)
    ensures
        narrowed(best, in_if(x, at, best)),
        forall|e: ExprV| #[trigger] occurs_if(e, x) ==> settled(e, at, in_if(x, at, best)),
        in_if(x, at, best) == best || exists|e: ExprV| #[trigger]
            occurs_if(e, x) && answers(e, in_if(x, at, best)),
    decreases x, 0int,
{
    lemma_stays();
    let r = in_if(x, at, best);
    seek_expr(*x.cond, at, best);
    seek_block(x.then_branch, at, in_expr(*x.cond, at, best));
    seek_else(x.else_branch, at, in_block(x.then_branch, at, in_expr(*x.cond, at, best)));
    assert forall|e: ExprV| #[trigger] occurs_if(e, x) implies settled(e, at, r) by {
        if occurs_expr(e, *x.cond) {
            assert(settled(e, at, in_expr(*x.cond, at, best)));
        }
        if occurs_block(e, x.then_branch) {
            assert(settled(e, at, in_block(x.then_branch, at, in_expr(*x.cond, at, best))));
        }
        if occurs_else(e, x.else_branch) {
            assert(settled(e, at, in_else(x.else_branch, at, in_block(x.then_branch, at, in_expr(*x.cond, at, best)))));
        }
    }
    if in_else(x.else_branch, at, in_block(x.then_branch, at, in_expr(*x.cond, at, best))) != in_block(x.then_branch, at, in_expr(*x.cond, at, best)) {
        let e = choose|e: ExprV| #[trigger] occurs_else(e, x.else_branch) && answers(e, in_else(x.else_branch, at, in_block(x.then_branch, at, in_expr(*x.cond, at, best))));
        assert(occurs_if(e, x));
    } else if in_block(x.then_branch, at, in_expr(*x.cond, at, best)) != in_expr(*x.cond, at, best) {
        let e = choose|e: ExprV| #[trigger] occurs_block(e, x.then_branch) && answers(e, in_block(x.then_branch, at, in_expr(*x.cond, at, best)));
        assert(occurs_if(e, x));
    } else if in_expr(*x.cond, at, best) != best {
        let e = choose|e: ExprV| #[trigger] occurs_expr(e, *x.cond) && answers(e, in_expr(*x.cond, at, best));
        assert(occurs_if(e, x));
    }
}

proof fn seek_else(x: ElseV, at: Place, best: Option<ExprAtV>)
    ensures
        narrowed(best, in_else(x, at, best)),
        forall|e: ExprV| #[trigger] occurs_else(e, x) ==> settled(e, at, in_else(x, at, best)),
        in_else(x, at, best) == best || exists|e: ExprV| #[trigger]
            occurs_else(e, x) && answers(e, in_else(x, at, best)),
    decreases x, 0int,
{
    lemma_stays();
    let r = in_else(x, at, best);
    match x {
        ElseV::Block(b) => {
            seek_block(b, at, best);
            assert forall|e: ExprV| #[trigger] occurs_else(e, x) implies settled(e, at, r) by {
                if occurs_block(e, b) {
                    assert(settled(e, at, in_block(b, at, best)));
                }
            }
            if in_block(b, at, best) != best {
                let e = choose|e: ExprV| #[trigger] occurs_block(e, b) && answers(e, in_block(b, at, best));
                assert(occurs_else(e, x));
            }
        },
        ElseV::ElseIf(i) => {
            seek_if(*i, at, best);
            assert forall|e: ExprV| #[trigger] occurs_else(e, x) implies settled(e, at, r) by {
                if occurs_if(e, *i) {
                    assert(settled(e, at, in_if(*i, at, best)));
                }
            }
            if in_if(*i, at, best) != best {
                let e = choose|e: ExprV| #[trigger] occurs_if(e, *i) && answers(e, in_if(*i, at, best));
                assert(occurs_else(e, x));
            }
        },
    }
}

proof fn seek_arm(x: ArmV, at: Place, best: Option<ExprAtV>)
    ensures
        narrowed(best, in_arm(x, at, best)),
        forall|e: ExprV| #[trigger] occurs_arm(e, x) ==> settled(e, at, in_arm(x, at, best)),
        in_arm(x, at, best) == best || exists|e: ExprV| #[trigger]
            occurs_arm(e, x) && answers(e, in_arm(x, at, best)),
    decreases x, 0int,
{
    lemma_stays();
    let r = in_arm(x, at, best);
    seek_body(x.body, at, best);
    assert forall|e: ExprV| #[trigger] occurs_arm(e, x) implies settled(e, at, r) by {
        if occurs_body(e, x.body) {
            assert(settled(e, at, in_body(x.body, at, best)));
        }
    }
    if in_body(x.body, at, best) != best {
        let e = choose|e: ExprV| #[trigger] occurs_body(e, x.body) && answers(e, in_body(x.body, at, best));
        assert(occurs_arm(e, x));
    }
}

proof fn seek_body(x: ArmBodyV, at: Place, best: Option<ExprAtV>)
    ensures
        narrowed(best, in_body(x, at, best)),
        forall|e: ExprV| #[trigger] occurs_body(e, x) ==> settled(e, at, in_body(x, at, best)),
        in_body(x, at, best) == best || exists|e: ExprV| #[trigger]
            occurs_body(e, x) && answers(e, in_body(x, at, best)),
    decreases x, 0int,
{
    lemma_stays();
    let r = in_body(x, at, best);
    match x {
        ArmBodyV::Expr(inner) => {
            seek_expr(inner, at, best);
            assert forall|e: ExprV| #[trigger] occurs_body(e, x) implies settled(e, at, r) by {
                if occurs_expr(e, inner) {
                    assert(settled(e, at, in_expr(inner, at, best)));
                }
            }
            if in_expr(inner, at, best) != best {
                let e = choose|e: ExprV| #[trigger] occurs_expr(e, inner) && answers(e, in_expr(inner, at, best));
                assert(occurs_body(e, x));
            }
        },
        ArmBodyV::Block(b) => {
            seek_block(b, at, best);
            assert forall|e: ExprV| #[trigger] occurs_body(e, x) implies settled(e, at, r) by {
                if occurs_block(e, b) {
                    assert(settled(e, at, in_block(b, at, best)));
                }
            }
            if in_block(b, at, best) != best {
                let e = choose|e: ExprV| #[trigger] occurs_block(e, b) && answers(e, in_block(b, at, best));
                assert(occurs_body(e, x));
            }
        },
    }
}

proof fn seek_block(x: BlockV, at: Place, best: Option<ExprAtV>)
    ensures
        narrowed(best, in_block(x, at, best)),
        forall|e: ExprV| #[trigger] occurs_block(e, x) ==> settled(e, at, in_block(x, at, best)),
        in_block(x, at, best) == best || exists|e: ExprV| #[trigger]
            occurs_block(e, x) && answers(e, in_block(x, at, best)),
    decreases x, 0int,
{
    lemma_stays();
    let r = in_block(x, at, best);
    seek_stmts(x.stmts, 0, at, best);
    assert forall|e: ExprV| #[trigger] occurs_block(e, x) implies settled(e, at, r) by {
        if occurs_stmts(e, x.stmts, 0) {
            assert(settled(e, at, in_stmts(x.stmts, 0, at, best)));
        }
    }
    if in_stmts(x.stmts, 0, at, best) != best {
        let e = choose|e: ExprV| #[trigger] occurs_stmts(e, x.stmts, 0) && answers(e, in_stmts(x.stmts, 0, at, best));
        assert(occurs_block(e, x));
    }
}

proof fn seek_stmt(x: StmtV, at: Place, best: Option<ExprAtV>)
    ensures
        narrowed(best, in_stmt(x, at, best)),
        forall|e: ExprV| #[trigger] occurs_stmt(e, x) ==> settled(e, at, in_stmt(x, at, best)),
        in_stmt(x, at, best) == best || exists|e: ExprV| #[trigger]
            occurs_stmt(e, x) && answers(e, in_stmt(x, at, best)),
    decreases x, 0int,
{
    lemma_stays();
    let r = in_stmt(x, at, best);
    seek_stmt_kind(x.kind, at, best);
    assert forall|e: ExprV| #[trigger] occurs_stmt(e, x) implies settled(e, at, r) by {
        if occurs_stmt_kind(e, x.kind) {
            assert(settled(e, at, in_stmt_kind(x.kind, at, best)));
        }
    }
    if in_stmt_kind(x.kind, at, best) != best {
        let e = choose|e: ExprV| #[trigger] occurs_stmt_kind(e, x.kind) && answers(e, in_stmt_kind(x.kind, at, best));
        assert(occurs_stmt(e, x));
    }
}

proof fn seek_kind(x: ExprKindV, at: Place, best: Option<ExprAtV>)
    ensures
        narrowed(best, in_kind(x, at, best)),
        forall|e: ExprV| #[trigger] occurs_kind(e, x) ==> settled(e, at, in_kind(x, at, best)),
        in_kind(x, at, best) == best || exists|e: ExprV| #[trigger]
            occurs_kind(e, x) && answers(e, in_kind(x, at, best)),
    decreases x, 0int,
{
    lemma_stays();
    let r = in_kind(x, at, best);
    match x {
        ExprKindV::FString(segments) => {
            seek_segments(segments, 0, at, best);
            assert forall|e: ExprV| #[trigger] occurs_kind(e, x) implies settled(e, at, r) by {
                if occurs_segments(e, segments, 0) {
                    assert(settled(e, at, in_segments(segments, 0, at, best)));
                }
            }
            if in_segments(segments, 0, at, best) != best {
                let e = choose|e: ExprV| #[trigger] occurs_segments(e, segments, 0) && answers(e, in_segments(segments, 0, at, best));
                assert(occurs_kind(e, x));
            }
        },
        ExprKindV::ListLit { elements, was_multiline } => {
            seek_exprs(elements, 0, at, best);
            assert forall|e: ExprV| #[trigger] occurs_kind(e, x) implies settled(e, at, r) by {
                if occurs_exprs(e, elements, 0) {
                    assert(settled(e, at, in_exprs(elements, 0, at, best)));
                }
            }
            if in_exprs(elements, 0, at, best) != best {
                let e = choose|e: ExprV| #[trigger] occurs_exprs(e, elements, 0) && answers(e, in_exprs(elements, 0, at, best));
                assert(occurs_kind(e, x));
            }
        },
        ExprKindV::SetLit { elements, was_multiline } => {
            seek_exprs(elements, 0, at, best);
            assert forall|e: ExprV| #[trigger] occurs_kind(e, x) implies settled(e, at, r) by {
                if occurs_exprs(e, elements, 0) {
                    assert(settled(e, at, in_exprs(elements, 0, at, best)));
                }
            }
            if in_exprs(elements, 0, at, best) != best {
                let e = choose|e: ExprV| #[trigger] occurs_exprs(e, elements, 0) && answers(e, in_exprs(elements, 0, at, best));
                assert(occurs_kind(e, x));
            }
        },
        ExprKindV::TupleLit { elements, was_multiline } => {
            seek_exprs(elements, 0, at, best);
            assert forall|e: ExprV| #[trigger] occurs_kind(e, x) implies settled(e, at, r) by {
                if occurs_exprs(e, elements, 0) {
                    assert(settled(e, at, in_exprs(elements, 0, at, best)));
                }
            }
            if in_exprs(elements, 0, at, best) != best {
                let e = choose|e: ExprV| #[trigger] occurs_exprs(e, elements, 0) && answers(e, in_exprs(elements, 0, at, best));
                assert(occurs_kind(e, x));
            }
        },
        ExprKindV::DictLit { entries, was_multiline } => {
            seek_entries(entries, 0, at, best);
            assert forall|e: ExprV| #[trigger] occurs_kind(e, x) implies settled(e, at, r) by {
                if occurs_entries(e, entries, 0) {
                    assert(settled(e, at, in_entries(entries, 0, at, best)));
                }
            }
            if in_entries(entries, 0, at, best) != best {
                let e = choose|e: ExprV| #[trigger] occurs_entries(e, entries, 0) && answers(e, in_entries(entries, 0, at, best));
                assert(occurs_kind(e, x));
            }
        },
        ExprKindV::Unary { op, operand } => {
            seek_expr(*operand, at, best);
            assert forall|e: ExprV| #[trigger] occurs_kind(e, x) implies settled(e, at, r) by {
                if occurs_expr(e, *operand) {
                    assert(settled(e, at, in_expr(*operand, at, best)));
                }
            }
            if in_expr(*operand, at, best) != best {
                let e = choose|e: ExprV| #[trigger] occurs_expr(e, *operand) && answers(e, in_expr(*operand, at, best));
                assert(occurs_kind(e, x));
            }
        },
        ExprKindV::Binary { op, lhs, rhs } => {
            seek_expr(*lhs, at, best);
            seek_expr(*rhs, at, in_expr(*lhs, at, best));
            assert forall|e: ExprV| #[trigger] occurs_kind(e, x) implies settled(e, at, r) by {
                if occurs_expr(e, *lhs) {
                    assert(settled(e, at, in_expr(*lhs, at, best)));
                }
                if occurs_expr(e, *rhs) {
                    assert(settled(e, at, in_expr(*rhs, at, in_expr(*lhs, at, best))));
                }
            }
            if in_expr(*rhs, at, in_expr(*lhs, at, best)) != in_expr(*lhs, at, best) {
                let e = choose|e: ExprV| #[trigger] occurs_expr(e, *rhs) && answers(e, in_expr(*rhs, at, in_expr(*lhs, at, best)));
                assert(occurs_kind(e, x));
            } else if in_expr(*lhs, at, best) != best {
                let e = choose|e: ExprV| #[trigger] occurs_expr(e, *lhs) && answers(e, in_expr(*lhs, at, best));
                assert(occurs_kind(e, x));
            }
        },
        ExprKindV::Call { callee, type_args, args, was_multiline } => {
            seek_expr(*callee, at, best);
            seek_args(args, 0, at, in_expr(*callee, at, best));
            assert forall|e: ExprV| #[trigger] occurs_kind(e, x) implies settled(e, at, r) by {
                if occurs_expr(e, *callee) {
                    assert(settled(e, at, in_expr(*callee, at, best)));
                }
                if occurs_args(e, args, 0) {
                    assert(settled(e, at, in_args(args, 0, at, in_expr(*callee, at, best))));
                }
            }
            if in_args(args, 0, at, in_expr(*callee, at, best)) != in_expr(*callee, at, best) {
                let e = choose|e: ExprV| #[trigger] occurs_args(e, args, 0) && answers(e, in_args(args, 0, at, in_expr(*callee, at, best)));
                assert(occurs_kind(e, x));
            } else if in_expr(*callee, at, best) != best {
                let e = choose|e: ExprV| #[trigger] occurs_expr(e, *callee) && answers(e, in_expr(*callee, at, best));
                assert(occurs_kind(e, x));
            }
        },
        ExprKindV::MethodCall { receiver, method, type_args, args, was_multiline } => {
            seek_expr(*receiver, at, best);
            seek_args(args, 0, at, in_expr(*receiver, at, best));
            assert forall|e: ExprV| #[trigger] occurs_kind(e, x) implies settled(e, at, r) by {
                if occurs_expr(e, *receiver) {
                    assert(settled(e, at, in_expr(*receiver, at, best)));
                }
                if occurs_args(e, args, 0) {
                    assert(settled(e, at, in_args(args, 0, at, in_expr(*receiver, at, best))));
                }
            }
            if in_args(args, 0, at, in_expr(*receiver, at, best)) != in_expr(*receiver, at, best) {
                let e = choose|e: ExprV| #[trigger] occurs_args(e, args, 0) && answers(e, in_args(args, 0, at, in_expr(*receiver, at, best)));
                assert(occurs_kind(e, x));
            } else if in_expr(*receiver, at, best) != best {
                let e = choose|e: ExprV| #[trigger] occurs_expr(e, *receiver) && answers(e, in_expr(*receiver, at, best));
                assert(occurs_kind(e, x));
            }
        },
        ExprKindV::FieldAccess { target, field } => {
            seek_expr(*target, at, best);
            assert forall|e: ExprV| #[trigger] occurs_kind(e, x) implies settled(e, at, r) by {
                if occurs_expr(e, *target) {
                    assert(settled(e, at, in_expr(*target, at, best)));
                }
            }
            if in_expr(*target, at, best) != best {
                let e = choose|e: ExprV| #[trigger] occurs_expr(e, *target) && answers(e, in_expr(*target, at, best));
                assert(occurs_kind(e, x));
            }
        },
        ExprKindV::TupleIndex { target, index } => {
            seek_expr(*target, at, best);
            assert forall|e: ExprV| #[trigger] occurs_kind(e, x) implies settled(e, at, r) by {
                if occurs_expr(e, *target) {
                    assert(settled(e, at, in_expr(*target, at, best)));
                }
            }
            if in_expr(*target, at, best) != best {
                let e = choose|e: ExprV| #[trigger] occurs_expr(e, *target) && answers(e, in_expr(*target, at, best));
                assert(occurs_kind(e, x));
            }
        },
        ExprKindV::Index { target, index } => {
            seek_expr(*target, at, best);
            seek_expr(*index, at, in_expr(*target, at, best));
            assert forall|e: ExprV| #[trigger] occurs_kind(e, x) implies settled(e, at, r) by {
                if occurs_expr(e, *target) {
                    assert(settled(e, at, in_expr(*target, at, best)));
                }
                if occurs_expr(e, *index) {
                    assert(settled(e, at, in_expr(*index, at, in_expr(*target, at, best))));
                }
            }
            if in_expr(*index, at, in_expr(*target, at, best)) != in_expr(*target, at, best) {
                let e = choose|e: ExprV| #[trigger] occurs_expr(e, *index) && answers(e, in_expr(*index, at, in_expr(*target, at, best)));
                assert(occurs_kind(e, x));
            } else if in_expr(*target, at, best) != best {
                let e = choose|e: ExprV| #[trigger] occurs_expr(e, *target) && answers(e, in_expr(*target, at, best));
                assert(occurs_kind(e, x));
            }
        },
        ExprKindV::Question { target } => {
            seek_expr(*target, at, best);
            assert forall|e: ExprV| #[trigger] occurs_kind(e, x) implies settled(e, at, r) by {
                if occurs_expr(e, *target) {
                    assert(settled(e, at, in_expr(*target, at, best)));
                }
            }
            if in_expr(*target, at, best) != best {
                let e = choose|e: ExprV| #[trigger] occurs_expr(e, *target) && answers(e, in_expr(*target, at, best));
                assert(occurs_kind(e, x));
            }
        },
        ExprKindV::Pipe { source, stages } => {
            seek_expr(*source, at, best);
            seek_stages(stages, 0, at, in_expr(*source, at, best));
            assert forall|e: ExprV| #[trigger] occurs_kind(e, x) implies settled(e, at, r) by {
                if occurs_expr(e, *source) {
                    assert(settled(e, at, in_expr(*source, at, best)));
                }
                if occurs_stages(e, stages, 0) {
                    assert(settled(e, at, in_stages(stages, 0, at, in_expr(*source, at, best))));
                }
            }
            if in_stages(stages, 0, at, in_expr(*source, at, best)) != in_expr(*source, at, best) {
                let e = choose|e: ExprV| #[trigger] occurs_stages(e, stages, 0) && answers(e, in_stages(stages, 0, at, in_expr(*source, at, best)));
                assert(occurs_kind(e, x));
            } else if in_expr(*source, at, best) != best {
                let e = choose|e: ExprV| #[trigger] occurs_expr(e, *source) && answers(e, in_expr(*source, at, best));
                assert(occurs_kind(e, x));
            }
        },
        ExprKindV::Lambda { params, body } => {
            seek_expr(*body, at, best);
            assert forall|e: ExprV| #[trigger] occurs_kind(e, x) implies settled(e, at, r) by {
                if occurs_expr(e, *body) {
                    assert(settled(e, at, in_expr(*body, at, best)));
                }
            }
            if in_expr(*body, at, best) != best {
                let e = choose|e: ExprV| #[trigger] occurs_expr(e, *body) && answers(e, in_expr(*body, at, best));
                assert(occurs_kind(e, x));
            }
        },
        ExprKindV::If(i) => {
            seek_if(*i, at, best);
            assert forall|e: ExprV| #[trigger] occurs_kind(e, x) implies settled(e, at, r) by {
                if occurs_if(e, *i) {
                    assert(settled(e, at, in_if(*i, at, best)));
                }
            }
            if in_if(*i, at, best) != best {
                let e = choose|e: ExprV| #[trigger] occurs_if(e, *i) && answers(e, in_if(*i, at, best));
                assert(occurs_kind(e, x));
            }
        },
        ExprKindV::Match { scrutinee, arms } => {
            seek_expr(*scrutinee, at, best);
            seek_arms(arms, 0, at, in_expr(*scrutinee, at, best));
            assert forall|e: ExprV| #[trigger] occurs_kind(e, x) implies settled(e, at, r) by {
                if occurs_expr(e, *scrutinee) {
                    assert(settled(e, at, in_expr(*scrutinee, at, best)));
                }
                if occurs_arms(e, arms, 0) {
                    assert(settled(e, at, in_arms(arms, 0, at, in_expr(*scrutinee, at, best))));
                }
            }
            if in_arms(arms, 0, at, in_expr(*scrutinee, at, best)) != in_expr(*scrutinee, at, best) {
                let e = choose|e: ExprV| #[trigger] occurs_arms(e, arms, 0) && answers(e, in_arms(arms, 0, at, in_expr(*scrutinee, at, best)));
                assert(occurs_kind(e, x));
            } else if in_expr(*scrutinee, at, best) != best {
                let e = choose|e: ExprV| #[trigger] occurs_expr(e, *scrutinee) && answers(e, in_expr(*scrutinee, at, best));
                assert(occurs_kind(e, x));
            }
        },
        ExprKindV::Par { kind, elements } => {
            seek_exprs(elements, 0, at, best);
            assert forall|e: ExprV| #[trigger] occurs_kind(e, x) implies settled(e, at, r) by {
                if occurs_exprs(e, elements, 0) {
                    assert(settled(e, at, in_exprs(elements, 0, at, best)));
                }
            }
            if in_exprs(elements, 0, at, best) != best {
                let e = choose|e: ExprV| #[trigger] occurs_exprs(e, elements, 0) && answers(e, in_exprs(elements, 0, at, best));
                assert(occurs_kind(e, x));
            }
        },
        ExprKindV::Grouping(inner) => {
            seek_expr(*inner, at, best);
            assert forall|e: ExprV| #[trigger] occurs_kind(e, x) implies settled(e, at, r) by {
                if occurs_expr(e, *inner) {
                    assert(settled(e, at, in_expr(*inner, at, best)));
                }
            }
            if in_expr(*inner, at, best) != best {
                let e = choose|e: ExprV| #[trigger] occurs_expr(e, *inner) && answers(e, in_expr(*inner, at, best));
                assert(occurs_kind(e, x));
            }
        },
        _ => {},
    }
}

proof fn seek_stmt_kind(x: StmtKindV, at: Place, best: Option<ExprAtV>)
    ensures
        narrowed(best, in_stmt_kind(x, at, best)),
        forall|e: ExprV| #[trigger] occurs_stmt_kind(e, x) ==> settled(e, at, in_stmt_kind(x, at, best)),
        in_stmt_kind(x, at, best) == best || exists|e: ExprV| #[trigger]
            occurs_stmt_kind(e, x) && answers(e, in_stmt_kind(x, at, best)),
    decreases x, 0int,
{
    lemma_stays();
    let r = in_stmt_kind(x, at, best);
    match x {
        StmtKindV::VarDecl { name, ty, value } => {
            seek_expr(value, at, best);
            assert forall|e: ExprV| #[trigger] occurs_stmt_kind(e, x) implies settled(e, at, r) by {
                if occurs_expr(e, value) {
                    assert(settled(e, at, in_expr(value, at, best)));
                }
            }
            if in_expr(value, at, best) != best {
                let e = choose|e: ExprV| #[trigger] occurs_expr(e, value) && answers(e, in_expr(value, at, best));
                assert(occurs_stmt_kind(e, x));
            }
        },
        StmtKindV::NameAssign { name, ty, value } => {
            seek_expr(value, at, best);
            assert forall|e: ExprV| #[trigger] occurs_stmt_kind(e, x) implies settled(e, at, r) by {
                if occurs_expr(e, value) {
                    assert(settled(e, at, in_expr(value, at, best)));
                }
            }
            if in_expr(value, at, best) != best {
                let e = choose|e: ExprV| #[trigger] occurs_expr(e, value) && answers(e, in_expr(value, at, best));
                assert(occurs_stmt_kind(e, x));
            }
        },
        StmtKindV::FieldAssign { target, field, value } => {
            seek_expr(target, at, best);
            seek_expr(value, at, in_expr(target, at, best));
            assert forall|e: ExprV| #[trigger] occurs_stmt_kind(e, x) implies settled(e, at, r) by {
                if occurs_expr(e, target) {
                    assert(settled(e, at, in_expr(target, at, best)));
                }
                if occurs_expr(e, value) {
                    assert(settled(e, at, in_expr(value, at, in_expr(target, at, best))));
                }
            }
            if in_expr(value, at, in_expr(target, at, best)) != in_expr(target, at, best) {
                let e = choose|e: ExprV| #[trigger] occurs_expr(e, value) && answers(e, in_expr(value, at, in_expr(target, at, best)));
                assert(occurs_stmt_kind(e, x));
            } else if in_expr(target, at, best) != best {
                let e = choose|e: ExprV| #[trigger] occurs_expr(e, target) && answers(e, in_expr(target, at, best));
                assert(occurs_stmt_kind(e, x));
            }
        },
        StmtKindV::IndexAssign { target, index, value } => {
            seek_expr(target, at, best);
            seek_expr(index, at, in_expr(target, at, best));
            seek_expr(value, at, in_expr(index, at, in_expr(target, at, best)));
            assert forall|e: ExprV| #[trigger] occurs_stmt_kind(e, x) implies settled(e, at, r) by {
                if occurs_expr(e, target) {
                    assert(settled(e, at, in_expr(target, at, best)));
                }
                if occurs_expr(e, index) {
                    assert(settled(e, at, in_expr(index, at, in_expr(target, at, best))));
                }
                if occurs_expr(e, value) {
                    assert(settled(e, at, in_expr(value, at, in_expr(index, at, in_expr(target, at, best)))));
                }
            }
            if in_expr(value, at, in_expr(index, at, in_expr(target, at, best))) != in_expr(index, at, in_expr(target, at, best)) {
                let e = choose|e: ExprV| #[trigger] occurs_expr(e, value) && answers(e, in_expr(value, at, in_expr(index, at, in_expr(target, at, best))));
                assert(occurs_stmt_kind(e, x));
            } else if in_expr(index, at, in_expr(target, at, best)) != in_expr(target, at, best) {
                let e = choose|e: ExprV| #[trigger] occurs_expr(e, index) && answers(e, in_expr(index, at, in_expr(target, at, best)));
                assert(occurs_stmt_kind(e, x));
            } else if in_expr(target, at, best) != best {
                let e = choose|e: ExprV| #[trigger] occurs_expr(e, target) && answers(e, in_expr(target, at, best));
                assert(occurs_stmt_kind(e, x));
            }
        },
        StmtKindV::Discard(inner) => {
            seek_expr(inner, at, best);
            assert forall|e: ExprV| #[trigger] occurs_stmt_kind(e, x) implies settled(e, at, r) by {
                if occurs_expr(e, inner) {
                    assert(settled(e, at, in_expr(inner, at, best)));
                }
            }
            if in_expr(inner, at, best) != best {
                let e = choose|e: ExprV| #[trigger] occurs_expr(e, inner) && answers(e, in_expr(inner, at, best));
                assert(occurs_stmt_kind(e, x));
            }
        },
        StmtKindV::ExprStmt(inner) => {
            seek_expr(inner, at, best);
            assert forall|e: ExprV| #[trigger] occurs_stmt_kind(e, x) implies settled(e, at, r) by {
                if occurs_expr(e, inner) {
                    assert(settled(e, at, in_expr(inner, at, best)));
                }
            }
            if in_expr(inner, at, best) != best {
                let e = choose|e: ExprV| #[trigger] occurs_expr(e, inner) && answers(e, in_expr(inner, at, best));
                assert(occurs_stmt_kind(e, x));
            }
        },
        StmtKindV::Return(Some(inner)) => {
            seek_expr(inner, at, best);
            assert forall|e: ExprV| #[trigger] occurs_stmt_kind(e, x) implies settled(e, at, r) by {
                if occurs_expr(e, inner) {
                    assert(settled(e, at, in_expr(inner, at, best)));
                }
            }
            if in_expr(inner, at, best) != best {
                let e = choose|e: ExprV| #[trigger] occurs_expr(e, inner) && answers(e, in_expr(inner, at, best));
                assert(occurs_stmt_kind(e, x));
            }
        },
        StmtKindV::Return(None) => {},
    }
}

#[verifier::spinoff_prover]
proof fn seek_exprs(x: Seq<ExprV>, i: int, at: Place, best: Option<ExprAtV>)
    ensures
        narrowed(best, in_exprs(x, i, at, best)),
        forall|e: ExprV| #[trigger]
            occurs_exprs(e, x, i) ==> settled(e, at, in_exprs(x, i, at, best)),
        in_exprs(x, i, at, best) == best || exists|e: ExprV| #[trigger]
            occurs_exprs(e, x, i) && answers(e, in_exprs(x, i, at, best)),
    decreases x, x.len() - i,
{
    lemma_stays();
    let r = in_exprs(x, i, at, best);
    if 0 <= i < x.len() {
        let next = in_expr(x[i], at, best);
        seek_expr(x[i], at, best);
        seek_exprs(x, i + 1, at, next);
        assert forall|e: ExprV| #[trigger] occurs_exprs(e, x, i) implies settled(e, at, r) by {
            if occurs_expr(e, x[i]) {
                assert(settled(e, at, next));
            } else {
                assert(occurs_exprs(e, x, i + 1));
            }
        }
        if r != next {
            let e = choose|e: ExprV| #[trigger] occurs_exprs(e, x, i + 1) && answers(e, r);
            assert(occurs_exprs(e, x, i));
        } else if next != best {
            let e = choose|e: ExprV| #[trigger] occurs_expr(e, x[i]) && answers(e, next);
            assert(occurs_exprs(e, x, i));
        }
    }
}

#[verifier::spinoff_prover]
proof fn seek_entries(x: Seq<(ExprV, ExprV)>, i: int, at: Place, best: Option<ExprAtV>)
    ensures
        narrowed(best, in_entries(x, i, at, best)),
        forall|e: ExprV| #[trigger]
            occurs_entries(e, x, i) ==> settled(e, at, in_entries(x, i, at, best)),
        in_entries(x, i, at, best) == best || exists|e: ExprV| #[trigger]
            occurs_entries(e, x, i) && answers(e, in_entries(x, i, at, best)),
    decreases x, x.len() - i,
{
    lemma_stays();
    let r = in_entries(x, i, at, best);
    if 0 <= i < x.len() {
        let next = in_entry(x[i], at, best);
        seek_entry(x[i], at, best);
        seek_entries(x, i + 1, at, next);
        assert forall|e: ExprV| #[trigger] occurs_entries(e, x, i) implies settled(e, at, r) by {
            if occurs_entry(e, x[i]) {
                assert(settled(e, at, next));
            } else {
                assert(occurs_entries(e, x, i + 1));
            }
        }
        if r != next {
            let e = choose|e: ExprV| #[trigger] occurs_entries(e, x, i + 1) && answers(e, r);
            assert(occurs_entries(e, x, i));
        } else if next != best {
            let e = choose|e: ExprV| #[trigger] occurs_entry(e, x[i]) && answers(e, next);
            assert(occurs_entries(e, x, i));
        }
    }
}

#[verifier::spinoff_prover]
proof fn seek_args(x: Seq<ArgV>, i: int, at: Place, best: Option<ExprAtV>)
    ensures
        narrowed(best, in_args(x, i, at, best)),
        forall|e: ExprV| #[trigger]
            occurs_args(e, x, i) ==> settled(e, at, in_args(x, i, at, best)),
        in_args(x, i, at, best) == best || exists|e: ExprV| #[trigger]
            occurs_args(e, x, i) && answers(e, in_args(x, i, at, best)),
    decreases x, x.len() - i,
{
    lemma_stays();
    let r = in_args(x, i, at, best);
    if 0 <= i < x.len() {
        let next = in_arg(x[i], at, best);
        seek_arg(x[i], at, best);
        seek_args(x, i + 1, at, next);
        assert forall|e: ExprV| #[trigger] occurs_args(e, x, i) implies settled(e, at, r) by {
            if occurs_arg(e, x[i]) {
                assert(settled(e, at, next));
            } else {
                assert(occurs_args(e, x, i + 1));
            }
        }
        if r != next {
            let e = choose|e: ExprV| #[trigger] occurs_args(e, x, i + 1) && answers(e, r);
            assert(occurs_args(e, x, i));
        } else if next != best {
            let e = choose|e: ExprV| #[trigger] occurs_arg(e, x[i]) && answers(e, next);
            assert(occurs_args(e, x, i));
        }
    }
}

#[verifier::spinoff_prover]
proof fn seek_segments(x: Seq<SegmentV>, i: int, at: Place, best: Option<ExprAtV>)
    ensures
        narrowed(best, in_segments(x, i, at, best)),
        forall|e: ExprV| #[trigger]
            occurs_segments(e, x, i) ==> settled(e, at, in_segments(x, i, at, best)),
        in_segments(x, i, at, best) == best || exists|e: ExprV| #[trigger]
            occurs_segments(e, x, i) && answers(e, in_segments(x, i, at, best)),
    decreases x, x.len() - i,
{
    lemma_stays();
    let r = in_segments(x, i, at, best);
    if 0 <= i < x.len() {
        let next = in_segment(x[i], at, best);
        seek_segment(x[i], at, best);
        seek_segments(x, i + 1, at, next);
        assert forall|e: ExprV| #[trigger] occurs_segments(e, x, i) implies settled(e, at, r) by {
            if occurs_segment(e, x[i]) {
                assert(settled(e, at, next));
            } else {
                assert(occurs_segments(e, x, i + 1));
            }
        }
        if r != next {
            let e = choose|e: ExprV| #[trigger] occurs_segments(e, x, i + 1) && answers(e, r);
            assert(occurs_segments(e, x, i));
        } else if next != best {
            let e = choose|e: ExprV| #[trigger] occurs_segment(e, x[i]) && answers(e, next);
            assert(occurs_segments(e, x, i));
        }
    }
}

#[verifier::spinoff_prover]
proof fn seek_stages(x: Seq<StageV>, i: int, at: Place, best: Option<ExprAtV>)
    ensures
        narrowed(best, in_stages(x, i, at, best)),
        forall|e: ExprV| #[trigger]
            occurs_stages(e, x, i) ==> settled(e, at, in_stages(x, i, at, best)),
        in_stages(x, i, at, best) == best || exists|e: ExprV| #[trigger]
            occurs_stages(e, x, i) && answers(e, in_stages(x, i, at, best)),
    decreases x, x.len() - i,
{
    lemma_stays();
    let r = in_stages(x, i, at, best);
    if 0 <= i < x.len() {
        let next = in_stage(x[i], at, best);
        seek_stage(x[i], at, best);
        seek_stages(x, i + 1, at, next);
        assert forall|e: ExprV| #[trigger] occurs_stages(e, x, i) implies settled(e, at, r) by {
            if occurs_stage(e, x[i]) {
                assert(settled(e, at, next));
            } else {
                assert(occurs_stages(e, x, i + 1));
            }
        }
        if r != next {
            let e = choose|e: ExprV| #[trigger] occurs_stages(e, x, i + 1) && answers(e, r);
            assert(occurs_stages(e, x, i));
        } else if next != best {
            let e = choose|e: ExprV| #[trigger] occurs_stage(e, x[i]) && answers(e, next);
            assert(occurs_stages(e, x, i));
        }
    }
}

#[verifier::spinoff_prover]
proof fn seek_arms(x: Seq<ArmV>, i: int, at: Place, best: Option<ExprAtV>)
    ensures
        narrowed(best, in_arms(x, i, at, best)),
        forall|e: ExprV| #[trigger]
            occurs_arms(e, x, i) ==> settled(e, at, in_arms(x, i, at, best)),
        in_arms(x, i, at, best) == best || exists|e: ExprV| #[trigger]
            occurs_arms(e, x, i) && answers(e, in_arms(x, i, at, best)),
    decreases x, x.len() - i,
{
    lemma_stays();
    let r = in_arms(x, i, at, best);
    if 0 <= i < x.len() {
        let next = in_arm(x[i], at, best);
        seek_arm(x[i], at, best);
        seek_arms(x, i + 1, at, next);
        assert forall|e: ExprV| #[trigger] occurs_arms(e, x, i) implies settled(e, at, r) by {
            if occurs_arm(e, x[i]) {
                assert(settled(e, at, next));
            } else {
                assert(occurs_arms(e, x, i + 1));
            }
        }
        if r != next {
            let e = choose|e: ExprV| #[trigger] occurs_arms(e, x, i + 1) && answers(e, r);
            assert(occurs_arms(e, x, i));
        } else if next != best {
            let e = choose|e: ExprV| #[trigger] occurs_arm(e, x[i]) && answers(e, next);
            assert(occurs_arms(e, x, i));
        }
    }
}

#[verifier::spinoff_prover]
proof fn seek_stmts(x: Seq<StmtV>, i: int, at: Place, best: Option<ExprAtV>)
    ensures
        narrowed(best, in_stmts(x, i, at, best)),
        forall|e: ExprV| #[trigger]
            occurs_stmts(e, x, i) ==> settled(e, at, in_stmts(x, i, at, best)),
        in_stmts(x, i, at, best) == best || exists|e: ExprV| #[trigger]
            occurs_stmts(e, x, i) && answers(e, in_stmts(x, i, at, best)),
    decreases x, x.len() - i,
{
    lemma_stays();
    let r = in_stmts(x, i, at, best);
    if 0 <= i < x.len() {
        let next = in_stmt(x[i], at, best);
        seek_stmt(x[i], at, best);
        seek_stmts(x, i + 1, at, next);
        assert forall|e: ExprV| #[trigger] occurs_stmts(e, x, i) implies settled(e, at, r) by {
            if occurs_stmt(e, x[i]) {
                assert(settled(e, at, next));
            } else {
                assert(occurs_stmts(e, x, i + 1));
            }
        }
        if r != next {
            let e = choose|e: ExprV| #[trigger] occurs_stmts(e, x, i + 1) && answers(e, r);
            assert(occurs_stmts(e, x, i));
        } else if next != best {
            let e = choose|e: ExprV| #[trigger] occurs_stmt(e, x[i]) && answers(e, next);
            assert(occurs_stmts(e, x, i));
        }
    }
}

proof fn seek_functions(
    fs: Seq<(Seq<char>, FunctionV)>,
    i: int,
    at: Place,
    best: Option<ExprAtV>,
)
    requires
        0 <= i <= fs.len(),
    ensures
        narrowed(best, in_functions(fs, i, at, best)),
        forall|e: ExprV, k: int|
            #![trigger occurs_block(e, fs[k].1.body)]
            i <= k < fs.len() && fs[k].1.span.file == at.file && occurs_block(e, fs[k].1.body)
                ==> settled(e, at, in_functions(fs, i, at, best)),
        in_functions(fs, i, at, best) == best || exists|e: ExprV, k: int|
            #![trigger occurs_block(e, fs[k].1.body)]
            i <= k < fs.len() && fs[k].1.span.file == at.file && occurs_block(e, fs[k].1.body)
                && answers(e, in_functions(fs, i, at, best)),
    decreases fs.len() - i,
{
    lemma_stays();
    let r = in_functions(fs, i, at, best);
    if i < fs.len() {
        let next = if fs[i].1.span.file == at.file {
            in_block(fs[i].1.body, at, best)
        } else {
            best
        };
        seek_block(fs[i].1.body, at, best);
        seek_functions(fs, i + 1, at, next);
        assert forall|e: ExprV, k: int|
            #![trigger occurs_block(e, fs[k].1.body)]
            i <= k < fs.len() && fs[k].1.span.file == at.file && occurs_block(
                e,
                fs[k].1.body,
            ) implies settled(e, at, r) by {
            if k == i {
                assert(settled(e, at, next));
            }
        }
        if r == next && next != best {
            let e = choose|e: ExprV| #[trigger] occurs_block(e, fs[i].1.body) && answers(e, next);
            assert(occurs_block(e, fs[i].1.body));
        } else if r != next {
            let (e, k) = choose|e: ExprV, k: int|
                #![trigger occurs_block(e, fs[k].1.body)]
                i + 1 <= k < fs.len() && fs[k].1.span.file == at.file && occurs_block(
                    e,
                    fs[k].1.body,
                ) && answers(e, r);
            assert(occurs_block(e, fs[k].1.body));
        }
    }
}

proof fn seek_methods(ms: Seq<FunctionV>, i: int, at: Place, best: Option<ExprAtV>)
    requires
        0 <= i <= ms.len(),
    ensures
        narrowed(best, in_methods(ms, i, at, best)),
        forall|e: ExprV, k: int|
            #![trigger occurs_block(e, ms[k].body)]
            i <= k < ms.len() && occurs_block(e, ms[k].body) ==> settled(
                e,
                at,
                in_methods(ms, i, at, best),
            ),
        in_methods(ms, i, at, best) == best || exists|e: ExprV, k: int|
            #![trigger occurs_block(e, ms[k].body)]
            i <= k < ms.len() && occurs_block(e, ms[k].body) && answers(
                e,
                in_methods(ms, i, at, best),
            ),
    decreases ms.len() - i,
{
    lemma_stays();
    let r = in_methods(ms, i, at, best);
    if i < ms.len() {
        let next = in_block(ms[i].body, at, best);
        seek_block(ms[i].body, at, best);
        seek_methods(ms, i + 1, at, next);
        assert forall|e: ExprV, k: int|
            #![trigger occurs_block(e, ms[k].body)]
            i <= k < ms.len() && occurs_block(e, ms[k].body) implies settled(e, at, r) by {
            if k == i {
                assert(settled(e, at, next));
            }
        }
        if r == next && next != best {
            let e = choose|e: ExprV| #[trigger] occurs_block(e, ms[i].body) && answers(e, next);
            assert(occurs_block(e, ms[i].body));
        } else if r != next {
            let (e, k) = choose|e: ExprV, k: int|
                #![trigger occurs_block(e, ms[k].body)]
                i + 1 <= k < ms.len() && occurs_block(e, ms[k].body) && answers(e, r);
            assert(occurs_block(e, ms[k].body));
        }
    }
}

proof fn seek_structs(
    ss: Seq<(Seq<char>, StructV)>,
    i: int,
    at: Place,
    best: Option<ExprAtV>,
)
    requires
        0 <= i <= ss.len(),
    ensures
        narrowed(best, in_structs(ss, i, at, best)),
        forall|e: ExprV, k: int, j: int|
            #![trigger occurs_block(e, ss[k].1.methods[j].body)]
            i <= k < ss.len() && ss[k].1.span.file == at.file && 0 <= j < ss[k].1.methods.len()
                && occurs_block(e, ss[k].1.methods[j].body) ==> settled(
                e,
                at,
                in_structs(ss, i, at, best),
            ),
        in_structs(ss, i, at, best) == best || exists|e: ExprV, k: int, j: int|
            #![trigger occurs_block(e, ss[k].1.methods[j].body)]
            i <= k < ss.len() && ss[k].1.span.file == at.file && 0 <= j < ss[k].1.methods.len()
                && occurs_block(e, ss[k].1.methods[j].body) && answers(
                e,
                in_structs(ss, i, at, best),
            ),
    decreases ss.len() - i,
{
    lemma_stays();
    let r = in_structs(ss, i, at, best);
    if i < ss.len() {
        let next = if ss[i].1.span.file == at.file {
            in_methods(ss[i].1.methods, 0, at, best)
        } else {
            best
        };
        seek_methods(ss[i].1.methods, 0, at, best);
        seek_structs(ss, i + 1, at, next);
        assert forall|e: ExprV, k: int, j: int|
            #![trigger occurs_block(e, ss[k].1.methods[j].body)]
            i <= k < ss.len() && ss[k].1.span.file == at.file && 0 <= j < ss[k].1.methods.len()
                && occurs_block(e, ss[k].1.methods[j].body) implies settled(e, at, r) by {
            if k == i {
                assert(settled(e, at, next));
            }
        }
        if r == next && next != best {
            let (e, j) = choose|e: ExprV, j: int|
                #![trigger occurs_block(e, ss[i].1.methods[j].body)]
                0 <= j < ss[i].1.methods.len() && occurs_block(e, ss[i].1.methods[j].body)
                    && answers(e, next);
            assert(occurs_block(e, ss[i].1.methods[j].body));
        } else if r != next {
            let (e, k, j) = choose|e: ExprV, k: int, j: int|
                #![trigger occurs_block(e, ss[k].1.methods[j].body)]
                i + 1 <= k < ss.len() && ss[k].1.span.file == at.file && 0 <= j
                    < ss[k].1.methods.len() && occurs_block(e, ss[k].1.methods[j].body) && answers(
                    e,
                    r,
                );
            assert(occurs_block(e, ss[k].1.methods[j].body));
        }
    }
}

/// Where an expression in the body of a function or a method of a file covers a place, one is
/// found, and none that covers the place lies strictly inside the one that is found. What is
/// found is one of these expressions and covers the place.
pub proof fn law_the_innermost_expression_is_found(p: ProgramV, at: Place)
    ensures
        forall|e: ExprV| #[trigger]
            in_bodies(e, p, at.file) && covers(e.span, at) ==> found_at(p, at) is Some
                && !strictly_inside(e.span, found_at(p, at)->Some_0.span),
        found_at(p, at) matches Some(r) ==> exists|e: ExprV| #[trigger]
            in_bodies(e, p, at.file) && covers(e.span, at) && tells_of(r, e),
{
    lemma_stays();
    let first = in_functions(p.functions, 0, at, None);
    let r = found_at(p, at);
    seek_functions(p.functions, 0, at, None);
    seek_structs(p.structs, 0, at, first);
    super::query::law_found_expression_holds_the_place(p, at);
    assert forall|e: ExprV| #[trigger] in_bodies(e, p, at.file) && covers(e.span, at) implies r
        is Some && !strictly_inside(e.span, r->Some_0.span) by {
        if exists|i: int|
            0 <= i < p.functions.len() && (#[trigger] p.functions[i]).1.span.file == at.file
                && occurs_block(e, p.functions[i].1.body) {
            assert(settled(e, at, first));
        }
        assert(settled(e, at, r));
    }
    if r is Some {
        if r == first {
            let (e, k) = choose|e: ExprV, k: int|
                #![trigger occurs_block(e, p.functions[k].1.body)]
                0 <= k < p.functions.len() && p.functions[k].1.span.file == at.file && occurs_block(
                    e,
                    p.functions[k].1.body,
                ) && answers(e, first);
            assert(in_bodies(e, p, at.file));
        } else {
            let (e, k, j) = choose|e: ExprV, k: int, j: int|
                #![trigger occurs_block(e, p.structs[k].1.methods[j].body)]
                0 <= k < p.structs.len() && p.structs[k].1.span.file == at.file && 0 <= j
                    < p.structs[k].1.methods.len() && occurs_block(
                    e,
                    p.structs[k].1.methods[j].body,
                ) && answers(e, r);
            assert(in_bodies(e, p, at.file));
        }
    }
}

} // verus!
