//! What stands at a position of a program, and where it is defined.

use crate::ast::{
    args_view, arms_view, entries_view, exprs_view, functions_view, lemma_arg_view,
    lemma_block_view, lemma_else_branch_view, lemma_expr_kind_view, lemma_expr_view,
    lemma_fstring_segment_view, lemma_if_expr_view, lemma_match_arm_body_view,
    lemma_match_arm_view, lemma_pipe_callee_view, lemma_pipe_stage_view, lemma_stmt_kind_view,
    lemma_stmt_view, params_view, segments_view, stages_view, stmts_view, Arg, ArgV, ArmBodyV,
    ArmV, Block, BlockV, CalleeV, ElseBranch, ElseV, Expr, ExprKind, ExprKindV, ExprV,
    FStringSegment, FunctionDecl, FunctionV, IfExpr, IfV, MatchArm, MatchArmBody, NodeId, ParamV,
    PipeCallee, PipeStage, SegmentV, StageV, Stmt, StmtKind, StmtKindV, StmtV, StructDecl,
    StructV,
};
use crate::diagnostics::{FileId, Position, Span};
use crate::eval::env::{function_views, struct_views, Program, ProgramV};
use crate::names::{lemma_mapped, lookup};
use crate::text::same_text;
use crate::types::{lemma_ty_view, Ty, TyV};
use vstd::prelude::*;

verus! {

/// What an expression is, as far as its definition goes.
#[derive(Debug)]
pub enum QueryKind {
    Ident,
    Method { receiver: NodeId, name: String },
    Field { receiver: NodeId, name: String },
    Other,
}

/// An expression at a position.
#[derive(Debug)]
pub struct ExprAt {
    pub id: NodeId,
    pub span: Span,
    pub kind: QueryKind,
}

pub ghost enum QueryKindV {
    Ident,
    Method { receiver: NodeId, name: Seq<char> },
    Field { receiver: NodeId, name: Seq<char> },
    Other,
}

pub ghost struct ExprAtV {
    pub id: NodeId,
    pub span: Span,
    pub kind: QueryKindV,
}

impl QueryKind {
    pub open spec fn view(&self) -> QueryKindV {
        match *self {
            QueryKind::Ident => QueryKindV::Ident,
            QueryKind::Method { receiver, name } => QueryKindV::Method { receiver, name: name@ },
            QueryKind::Field { receiver, name } => QueryKindV::Field { receiver, name: name@ },
            QueryKind::Other => QueryKindV::Other,
        }
    }
}

impl ExprAt {
    pub open spec fn view(&self) -> ExprAtV {
        ExprAtV { id: self.id, span: self.span, kind: self.kind.view() }
    }
}

pub open spec fn opt_at(o: Option<ExprAt>) -> Option<ExprAtV> {
    match o {
        Some(x) => Some(x@),
        None => None,
    }
}

/// One position is not after another.
pub open spec fn pos_le(a: Position, b: Position) -> bool {
    a.line < b.line || (a.line == b.line && a.col <= b.col)
}

fn not_after(a: Position, b: Position) -> (r: bool)
    ensures
        r == pos_le(a, b),
{
    a.line < b.line || (a.line == b.line && a.col <= b.col)
}

/// Where to look.
#[derive(Clone, Copy, Debug, PartialEq, Eq, Structural)]
pub struct Place {
    pub file: FileId,
    pub position: Position,
}

/// A span holds a place.
pub open spec fn holds(span: Span, at: Place) -> bool {
    span.file == at.file && pos_le(span.start, at.position) && !pos_le(span.end, at.position)
}

/// A span lies within another.
pub open spec fn within(inner: Span, outer: Span) -> bool {
    pos_le(outer.start, inner.start) && pos_le(inner.end, outer.end)
}

/// An expression is found: it holds the place, and lies within what was found before.
pub open spec fn is_found(e: ExprV, at: Place, best: Option<ExprAtV>) -> bool {
    holds(e.span, at) && match best {
        Some(b) => within(e.span, b.span),
        None => true,
    }
}

/// What an expression is, as far as its definition goes.
pub open spec fn query_of(k: ExprKindV) -> QueryKindV {
    match k {
        ExprKindV::Ident(_) => QueryKindV::Ident,
        ExprKindV::MethodCall { receiver, method, type_args, args, was_multiline } => {
            QueryKindV::Method { receiver: receiver.id, name: method }
        },
        ExprKindV::FieldAccess { target, field } => QueryKindV::Field {
            receiver: target.id,
            name: field,
        },
        _ => QueryKindV::Other,
    }
}

// ---------------------------------------------------------------------------
// What is found in the parts of a program, after what was found before: an expression before its
// parts, and the parts in the order of the source
// ---------------------------------------------------------------------------

pub open spec fn in_expr(e: ExprV, at: Place, best: Option<ExprAtV>) -> Option<ExprAtV>
    decreases e, 0int,
{
    let found = if is_found(e, at, best) {
        Some(ExprAtV { id: e.id, span: e.span, kind: query_of(e.kind) })
    } else {
        best
    };
    in_kind(e.kind, at, found)
}

pub open spec fn in_kind(k: ExprKindV, at: Place, best: Option<ExprAtV>) -> Option<ExprAtV>
    decreases k, 0int,
{
    match k {
        ExprKindV::FString(segments) => in_segments(segments, 0, at, best),
        ExprKindV::ListLit { elements, was_multiline } => in_exprs(elements, 0, at, best),
        ExprKindV::SetLit { elements, was_multiline } => in_exprs(elements, 0, at, best),
        ExprKindV::TupleLit { elements, was_multiline } => in_exprs(elements, 0, at, best),
        ExprKindV::DictLit { entries, was_multiline } => in_entries(entries, 0, at, best),
        ExprKindV::Unary { op, operand } => in_expr(*operand, at, best),
        ExprKindV::Binary { op, lhs, rhs } => in_expr(*rhs, at, in_expr(*lhs, at, best)),
        ExprKindV::Call { callee, type_args, args, was_multiline } => in_args(
            args,
            0,
            at,
            in_expr(*callee, at, best),
        ),
        ExprKindV::MethodCall { receiver, method, type_args, args, was_multiline } => in_args(
            args,
            0,
            at,
            in_expr(*receiver, at, best),
        ),
        ExprKindV::FieldAccess { target, field } => in_expr(*target, at, best),
        ExprKindV::TupleIndex { target, index } => in_expr(*target, at, best),
        ExprKindV::Index { target, index } => in_expr(*index, at, in_expr(*target, at, best)),
        ExprKindV::Question { target } => in_expr(*target, at, best),
        ExprKindV::Pipe { source, stages } => in_stages(
            stages,
            0,
            at,
            in_expr(*source, at, best),
        ),
        ExprKindV::Lambda { params, body } => in_expr(*body, at, best),
        ExprKindV::If(i) => in_if(*i, at, best),
        ExprKindV::Match { scrutinee, arms } => in_arms(
            arms,
            0,
            at,
            in_expr(*scrutinee, at, best),
        ),
        ExprKindV::Par { kind, elements } => in_exprs(elements, 0, at, best),
        ExprKindV::Grouping(e) => in_expr(*e, at, best),
        _ => best,
    }
}

pub open spec fn in_entry(e: (ExprV, ExprV), at: Place, best: Option<ExprAtV>) -> Option<ExprAtV>
    decreases e, 0int,
{
    in_expr(e.1, at, in_expr(e.0, at, best))
}

pub open spec fn in_arg(a: ArgV, at: Place, best: Option<ExprAtV>) -> Option<ExprAtV>
    decreases a, 0int,
{
    in_expr(a.value, at, best)
}

pub open spec fn in_segment(s: SegmentV, at: Place, best: Option<ExprAtV>) -> Option<ExprAtV>
    decreases s, 0int,
{
    match s {
        SegmentV::Text(_) => best,
        SegmentV::Expr(e) => in_expr(*e, at, best),
    }
}

pub open spec fn in_stage(s: StageV, at: Place, best: Option<ExprAtV>) -> Option<ExprAtV>
    decreases s, 0int,
{
    in_callee(s.callee, at, best)
}

pub open spec fn in_callee(c: CalleeV, at: Place, best: Option<ExprAtV>) -> Option<ExprAtV>
    decreases c, 0int,
{
    match c {
        CalleeV::Bare(e) => in_expr(e, at, best),
        CalleeV::WithArgs { callee, args } => in_args(args, 0, at, in_expr(*callee, at, best)),
    }
}

pub open spec fn in_if(i: IfV, at: Place, best: Option<ExprAtV>) -> Option<ExprAtV>
    decreases i, 0int,
{
    in_else(i.else_branch, at, in_block(i.then_branch, at, in_expr(*i.cond, at, best)))
}

pub open spec fn in_else(e: ElseV, at: Place, best: Option<ExprAtV>) -> Option<ExprAtV>
    decreases e, 0int,
{
    match e {
        ElseV::Block(b) => in_block(b, at, best),
        ElseV::ElseIf(i) => in_if(*i, at, best),
    }
}

pub open spec fn in_arm(a: ArmV, at: Place, best: Option<ExprAtV>) -> Option<ExprAtV>
    decreases a, 0int,
{
    in_body(a.body, at, best)
}

pub open spec fn in_body(b: ArmBodyV, at: Place, best: Option<ExprAtV>) -> Option<ExprAtV>
    decreases b, 0int,
{
    match b {
        ArmBodyV::Expr(e) => in_expr(e, at, best),
        ArmBodyV::Block(b) => in_block(b, at, best),
    }
}

pub open spec fn in_block(b: BlockV, at: Place, best: Option<ExprAtV>) -> Option<ExprAtV>
    decreases b, 0int,
{
    in_stmts(b.stmts, 0, at, best)
}

pub open spec fn in_stmt(s: StmtV, at: Place, best: Option<ExprAtV>) -> Option<ExprAtV>
    decreases s, 0int,
{
    in_stmt_kind(s.kind, at, best)
}

pub open spec fn in_stmt_kind(k: StmtKindV, at: Place, best: Option<ExprAtV>) -> Option<ExprAtV>
    decreases k, 0int,
{
    match k {
        StmtKindV::VarDecl { name, ty, value } => in_expr(value, at, best),
        StmtKindV::NameAssign { name, ty, value } => in_expr(value, at, best),
        StmtKindV::FieldAssign { target, field, value } => in_expr(
            value,
            at,
            in_expr(target, at, best),
        ),
        StmtKindV::IndexAssign { target, index, value } => in_expr(
            value,
            at,
            in_expr(index, at, in_expr(target, at, best)),
        ),
        StmtKindV::Discard(e) => in_expr(e, at, best),
        StmtKindV::ExprStmt(e) => in_expr(e, at, best),
        StmtKindV::Return(o) => match o {
            Some(e) => in_expr(e, at, best),
            None => best,
        },
    }
}

pub open spec fn in_exprs(v: Seq<ExprV>, i: int, at: Place, best: Option<ExprAtV>) -> Option<
    ExprAtV,
>
    decreases v, v.len() - i,
{
    if 0 <= i < v.len() {
        in_exprs(v, i + 1, at, in_expr(v[i], at, best))
    } else {
        best
    }
}

pub open spec fn in_entries(v: Seq<(ExprV, ExprV)>, i: int, at: Place, best: Option<ExprAtV>) -> Option<
    ExprAtV,
>
    decreases v, v.len() - i,
{
    if 0 <= i < v.len() {
        in_entries(v, i + 1, at, in_entry(v[i], at, best))
    } else {
        best
    }
}

pub open spec fn in_args(v: Seq<ArgV>, i: int, at: Place, best: Option<ExprAtV>) -> Option<
    ExprAtV,
>
    decreases v, v.len() - i,
{
    if 0 <= i < v.len() {
        in_args(v, i + 1, at, in_arg(v[i], at, best))
    } else {
        best
    }
}

pub open spec fn in_segments(v: Seq<SegmentV>, i: int, at: Place, best: Option<ExprAtV>) -> Option<
    ExprAtV,
>
    decreases v, v.len() - i,
{
    if 0 <= i < v.len() {
        in_segments(v, i + 1, at, in_segment(v[i], at, best))
    } else {
        best
    }
}

pub open spec fn in_stages(v: Seq<StageV>, i: int, at: Place, best: Option<ExprAtV>) -> Option<
    ExprAtV,
>
    decreases v, v.len() - i,
{
    if 0 <= i < v.len() {
        in_stages(v, i + 1, at, in_stage(v[i], at, best))
    } else {
        best
    }
}

pub open spec fn in_arms(v: Seq<ArmV>, i: int, at: Place, best: Option<ExprAtV>) -> Option<
    ExprAtV,
>
    decreases v, v.len() - i,
{
    if 0 <= i < v.len() {
        in_arms(v, i + 1, at, in_arm(v[i], at, best))
    } else {
        best
    }
}

pub open spec fn in_stmts(v: Seq<StmtV>, i: int, at: Place, best: Option<ExprAtV>) -> Option<
    ExprAtV,
>
    decreases v, v.len() - i,
{
    if 0 <= i < v.len() {
        in_stmts(v, i + 1, at, in_stmt(v[i], at, best))
    } else {
        best
    }
}

// ---------------------------------------------------------------------------
// The search
// ---------------------------------------------------------------------------

fn visit_exprs(v: &Vec<Expr>, at: Place, best: Option<ExprAt>) -> (r: Option<ExprAt>)
    ensures
        opt_at(r) == in_exprs(exprs_view(v@), 0, at, opt_at(best)),
    decreases *v, 0int,
{
    let ghost all = exprs_view(v@);
    let ghost start = opt_at(best);
    let mut best = best;
    let mut i: usize = 0;
    while i < v.len()
        invariant
            all == exprs_view(v@),
            i <= v@.len(),
            in_exprs(all, i as int, at, opt_at(best)) == in_exprs(all, 0, at, start),
        decreases v@.len() - i,
    {
        proof {
            assert(decreases_to!(*v => v@));
            assert(decreases_to!(v@ => v@[i as int]));
        }
        best = visit_expr(&v[i], at, best);
        i = i + 1;
    }
    best
}

fn visit_entries(v: &Vec<(Expr, Expr)>, at: Place, best: Option<ExprAt>) -> (r: Option<ExprAt>)
    ensures
        opt_at(r) == in_entries(entries_view(v@), 0, at, opt_at(best)),
    decreases *v, 0int,
{
    let ghost all = entries_view(v@);
    let ghost start = opt_at(best);
    let mut best = best;
    let mut i: usize = 0;
    while i < v.len()
        invariant
            all == entries_view(v@),
            i <= v@.len(),
            in_entries(all, i as int, at, opt_at(best)) == in_entries(all, 0, at, start),
        decreases v@.len() - i,
    {
        proof {
            assert(decreases_to!(*v => v@));
            assert(decreases_to!(v@ => v@[i as int]));
        }
        best = visit_entry(&v[i], at, best);
        i = i + 1;
    }
    best
}

fn visit_args(v: &Vec<Arg>, at: Place, best: Option<ExprAt>) -> (r: Option<ExprAt>)
    ensures
        opt_at(r) == in_args(args_view(v@), 0, at, opt_at(best)),
    decreases *v, 0int,
{
    let ghost all = args_view(v@);
    let ghost start = opt_at(best);
    let mut best = best;
    let mut i: usize = 0;
    while i < v.len()
        invariant
            all == args_view(v@),
            i <= v@.len(),
            in_args(all, i as int, at, opt_at(best)) == in_args(all, 0, at, start),
        decreases v@.len() - i,
    {
        proof {
            assert(decreases_to!(*v => v@));
            assert(decreases_to!(v@ => v@[i as int]));
        }
        best = visit_arg(&v[i], at, best);
        i = i + 1;
    }
    best
}

fn visit_segments(v: &Vec<FStringSegment>, at: Place, best: Option<ExprAt>) -> (r: Option<ExprAt>)
    ensures
        opt_at(r) == in_segments(segments_view(v@), 0, at, opt_at(best)),
    decreases *v, 0int,
{
    let ghost all = segments_view(v@);
    let ghost start = opt_at(best);
    let mut best = best;
    let mut i: usize = 0;
    while i < v.len()
        invariant
            all == segments_view(v@),
            i <= v@.len(),
            in_segments(all, i as int, at, opt_at(best)) == in_segments(all, 0, at, start),
        decreases v@.len() - i,
    {
        proof {
            assert(decreases_to!(*v => v@));
            assert(decreases_to!(v@ => v@[i as int]));
        }
        best = visit_segment(&v[i], at, best);
        i = i + 1;
    }
    best
}

fn visit_stages(v: &Vec<PipeStage>, at: Place, best: Option<ExprAt>) -> (r: Option<ExprAt>)
    ensures
        opt_at(r) == in_stages(stages_view(v@), 0, at, opt_at(best)),
    decreases *v, 0int,
{
    let ghost all = stages_view(v@);
    let ghost start = opt_at(best);
    let mut best = best;
    let mut i: usize = 0;
    while i < v.len()
        invariant
            all == stages_view(v@),
            i <= v@.len(),
            in_stages(all, i as int, at, opt_at(best)) == in_stages(all, 0, at, start),
        decreases v@.len() - i,
    {
        proof {
            assert(decreases_to!(*v => v@));
            assert(decreases_to!(v@ => v@[i as int]));
        }
        best = visit_stage(&v[i], at, best);
        i = i + 1;
    }
    best
}

fn visit_arms(v: &Vec<MatchArm>, at: Place, best: Option<ExprAt>) -> (r: Option<ExprAt>)
    ensures
        opt_at(r) == in_arms(arms_view(v@), 0, at, opt_at(best)),
    decreases *v, 0int,
{
    let ghost all = arms_view(v@);
    let ghost start = opt_at(best);
    let mut best = best;
    let mut i: usize = 0;
    while i < v.len()
        invariant
            all == arms_view(v@),
            i <= v@.len(),
            in_arms(all, i as int, at, opt_at(best)) == in_arms(all, 0, at, start),
        decreases v@.len() - i,
    {
        proof {
            assert(decreases_to!(*v => v@));
            assert(decreases_to!(v@ => v@[i as int]));
        }
        best = visit_arm(&v[i], at, best);
        i = i + 1;
    }
    best
}

fn visit_stmts(v: &Vec<Stmt>, at: Place, best: Option<ExprAt>) -> (r: Option<ExprAt>)
    ensures
        opt_at(r) == in_stmts(stmts_view(v@), 0, at, opt_at(best)),
    decreases *v, 0int,
{
    let ghost all = stmts_view(v@);
    let ghost start = opt_at(best);
    let mut best = best;
    let mut i: usize = 0;
    while i < v.len()
        invariant
            all == stmts_view(v@),
            i <= v@.len(),
            in_stmts(all, i as int, at, opt_at(best)) == in_stmts(all, 0, at, start),
        decreases v@.len() - i,
    {
        proof {
            assert(decreases_to!(*v => v@));
            assert(decreases_to!(v@ => v@[i as int]));
        }
        best = visit_stmt(&v[i], at, best);
        i = i + 1;
    }
    best
}

fn visit_entry(x: &(Expr, Expr), at: Place, best: Option<ExprAt>) -> (r: Option<ExprAt>)
    ensures
        opt_at(r) == in_entry((x.0@, x.1@), at, opt_at(best)),
    decreases *x, 0int,
{
    let best = visit_expr(&x.0, at, best);
    visit_expr(&x.1, at, best)
}

fn visit_arg(x: &Arg, at: Place, best: Option<ExprAt>) -> (r: Option<ExprAt>)
    ensures
        opt_at(r) == in_arg(x@, at, opt_at(best)),
    decreases *x, 0int,
{
    proof {
        lemma_arg_view(*x);
    }
    visit_expr(&x.value, at, best)
}

fn visit_segment(x: &FStringSegment, at: Place, best: Option<ExprAt>) -> (r: Option<ExprAt>)
    ensures
        opt_at(r) == in_segment(x@, at, opt_at(best)),
    decreases *x, 0int,
{
    proof {
        lemma_fstring_segment_view(*x);
    }
    match x {
        FStringSegment::Text(_) => best,
        FStringSegment::Expr(e) => visit_expr(e, at, best),
    }
}

fn visit_stage(x: &PipeStage, at: Place, best: Option<ExprAt>) -> (r: Option<ExprAt>)
    ensures
        opt_at(r) == in_stage(x@, at, opt_at(best)),
    decreases *x, 0int,
{
    proof {
        lemma_pipe_stage_view(*x);
    }
    visit_callee(&x.callee, at, best)
}

fn visit_callee(x: &PipeCallee, at: Place, best: Option<ExprAt>) -> (r: Option<ExprAt>)
    ensures
        opt_at(r) == in_callee(x@, at, opt_at(best)),
    decreases *x, 0int,
{
    proof {
        lemma_pipe_callee_view(*x);
    }
    match x {
        PipeCallee::Bare(e) => visit_expr(e, at, best),
        PipeCallee::WithArgs { callee, args } => {
            let best = visit_expr(callee, at, best);
            visit_args(args, at, best)
        },
    }
}

fn visit_if(x: &IfExpr, at: Place, best: Option<ExprAt>) -> (r: Option<ExprAt>)
    ensures
        opt_at(r) == in_if(x@, at, opt_at(best)),
    decreases *x, 0int,
{
    proof {
        lemma_if_expr_view(*x);
    }
    let best = visit_expr(&x.cond, at, best);
    let best = visit_block(&x.then_branch, at, best);
    visit_else(&x.else_branch, at, best)
}

fn visit_else(x: &ElseBranch, at: Place, best: Option<ExprAt>) -> (r: Option<ExprAt>)
    ensures
        opt_at(r) == in_else(x@, at, opt_at(best)),
    decreases *x, 0int,
{
    proof {
        lemma_else_branch_view(*x);
    }
    match x {
        ElseBranch::Block(b) => visit_block(b, at, best),
        ElseBranch::ElseIf(i) => visit_if(i, at, best),
    }
}

fn visit_arm(x: &MatchArm, at: Place, best: Option<ExprAt>) -> (r: Option<ExprAt>)
    ensures
        opt_at(r) == in_arm(x@, at, opt_at(best)),
    decreases *x, 0int,
{
    proof {
        lemma_match_arm_view(*x);
    }
    visit_body(&x.body, at, best)
}

fn visit_body(x: &MatchArmBody, at: Place, best: Option<ExprAt>) -> (r: Option<ExprAt>)
    ensures
        opt_at(r) == in_body(x@, at, opt_at(best)),
    decreases *x, 0int,
{
    proof {
        lemma_match_arm_body_view(*x);
    }
    match x {
        MatchArmBody::Expr(e) => visit_expr(e, at, best),
        MatchArmBody::Block(b) => visit_block(b, at, best),
    }
}

fn visit_block(x: &Block, at: Place, best: Option<ExprAt>) -> (r: Option<ExprAt>)
    ensures
        opt_at(r) == in_block(x@, at, opt_at(best)),
    decreases *x, 0int,
{
    proof {
        lemma_block_view(*x);
    }
    visit_stmts(&x.stmts, at, best)
}

fn visit_stmt(x: &Stmt, at: Place, best: Option<ExprAt>) -> (r: Option<ExprAt>)
    ensures
        opt_at(r) == in_stmt(x@, at, opt_at(best)),
    decreases *x, 0int,
{
    proof {
        lemma_stmt_view(*x);
    }
    visit_stmt_kind(&x.kind, at, best)
}

fn visit_stmt_kind(x: &StmtKind, at: Place, best: Option<ExprAt>) -> (r: Option<ExprAt>)
    ensures
        opt_at(r) == in_stmt_kind(x@, at, opt_at(best)),
    decreases *x, 0int,
{
    proof {
        lemma_stmt_kind_view(*x);
    }
    match x {
        StmtKind::VarDecl { value, .. } => visit_expr(value, at, best),
        StmtKind::NameAssign { value, .. } => visit_expr(value, at, best),
        StmtKind::FieldAssign { target, value, .. } => {
            let best = visit_expr(target, at, best);
            visit_expr(value, at, best)
        },
        StmtKind::IndexAssign { target, index, value } => {
            let best = visit_expr(target, at, best);
            let best = visit_expr(index, at, best);
            visit_expr(value, at, best)
        },
        StmtKind::Discard(e) => visit_expr(e, at, best),
        StmtKind::ExprStmt(e) => visit_expr(e, at, best),
        StmtKind::Return(o) => match o {
            Some(e) => visit_expr(e, at, best),
            None => best,
        },
    }
}

fn visit_kind(x: &ExprKind, at: Place, best: Option<ExprAt>) -> (r: Option<ExprAt>)
    ensures
        opt_at(r) == in_kind(x@, at, opt_at(best)),
    decreases *x, 0int,
{
    proof {
        lemma_expr_kind_view(*x);
    }
    match x {
        ExprKind::FString(segments) => visit_segments(segments, at, best),
        ExprKind::ListLit { elements, .. } => visit_exprs(elements, at, best),
        ExprKind::SetLit { elements, .. } => visit_exprs(elements, at, best),
        ExprKind::TupleLit { elements, .. } => visit_exprs(elements, at, best),
        ExprKind::DictLit { entries, .. } => visit_entries(entries, at, best),
        ExprKind::Unary { operand, .. } => visit_expr(operand, at, best),
        ExprKind::Binary { lhs, rhs, .. } => {
            let best = visit_expr(lhs, at, best);
            visit_expr(rhs, at, best)
        },
        ExprKind::Call { callee, args, .. } => {
            let best = visit_expr(callee, at, best);
            visit_args(args, at, best)
        },
        ExprKind::MethodCall { receiver, args, .. } => {
            let best = visit_expr(receiver, at, best);
            visit_args(args, at, best)
        },
        ExprKind::FieldAccess { target, .. } => visit_expr(target, at, best),
        ExprKind::TupleIndex { target, .. } => visit_expr(target, at, best),
        ExprKind::Index { target, index } => {
            let best = visit_expr(target, at, best);
            visit_expr(index, at, best)
        },
        ExprKind::Question { target } => visit_expr(target, at, best),
        ExprKind::Pipe(p) => {
            let best = visit_expr(&p.source, at, best);
            visit_stages(&p.stages, at, best)
        },
        ExprKind::Lambda { body, .. } => visit_expr(body, at, best),
        ExprKind::If(i) => visit_if(i, at, best),
        ExprKind::Match { scrutinee, arms } => {
            let best = visit_expr(scrutinee, at, best);
            visit_arms(arms, at, best)
        },
        ExprKind::Par { elements, .. } => visit_exprs(elements, at, best),
        ExprKind::Grouping(e) => visit_expr(e, at, best),
        _ => best,
    }
}

fn kind_of(x: &ExprKind) -> (r: QueryKind)
    ensures
        r@ == query_of(x@),
{
    proof {
        lemma_expr_kind_view(*x);
    }
    match x {
        ExprKind::Ident(_) => QueryKind::Ident,
        ExprKind::MethodCall { receiver, method, .. } => {
            proof {
                lemma_expr_view(**receiver);
            }
            QueryKind::Method { receiver: receiver.id, name: method.clone() }
        },
        ExprKind::FieldAccess { target, field } => {
            proof {
                lemma_expr_view(**target);
            }
            QueryKind::Field { receiver: target.id, name: field.clone() }
        },
        _ => QueryKind::Other,
    }
}

fn visit_expr(x: &Expr, at: Place, best: Option<ExprAt>) -> (r: Option<ExprAt>)
    ensures
        opt_at(r) == in_expr(x@, at, opt_at(best)),
    decreases *x, 0int,
{
    proof {
        lemma_expr_view(*x);
    }
    let inside = match &best {
        Some(b) => not_after(b.span.start, x.span.start) && not_after(x.span.end, b.span.end),
        None => true,
    };
    let found = if x.span.file == at.file && not_after(x.span.start, at.position) && !not_after(
        x.span.end,
        at.position,
    ) && inside {
        Some(ExprAt { id: x.id, span: x.span, kind: kind_of(&x.kind) })
    } else {
        best
    };
    visit_kind(&x.kind, at, found)
}

/// What is found in the functions of a file, from the `i`-th on.
pub open spec fn in_functions(
    fs: Seq<(Seq<char>, FunctionV)>,
    i: int,
    at: Place,
    best: Option<ExprAtV>,
) -> Option<ExprAtV>
    decreases fs.len() - i,
{
    if 0 <= i < fs.len() {
        in_functions(
            fs,
            i + 1,
            at,
            if fs[i].1.span.file == at.file {
                in_block(fs[i].1.body, at, best)
            } else {
                best
            },
        )
    } else {
        best
    }
}

pub open spec fn in_methods(ms: Seq<FunctionV>, i: int, at: Place, best: Option<ExprAtV>) -> Option<
    ExprAtV,
>
    decreases ms.len() - i,
{
    if 0 <= i < ms.len() {
        in_methods(ms, i + 1, at, in_block(ms[i].body, at, best))
    } else {
        best
    }
}

/// What is found in the methods of the structs of a file, from the `i`-th on.
pub open spec fn in_structs(
    ss: Seq<(Seq<char>, StructV)>,
    i: int,
    at: Place,
    best: Option<ExprAtV>,
) -> Option<ExprAtV>
    decreases ss.len() - i,
{
    if 0 <= i < ss.len() {
        in_structs(
            ss,
            i + 1,
            at,
            if ss[i].1.span.file == at.file {
                in_methods(ss[i].1.methods, 0, at, best)
            } else {
                best
            },
        )
    } else {
        best
    }
}

/// The innermost expression at a place in a program.
pub open spec fn found_at(p: ProgramV, at: Place) -> Option<ExprAtV> {
    in_structs(p.structs, 0, at, in_functions(p.functions, 0, at, None))
}

fn visit_methods(ms: &Vec<FunctionDecl>, at: Place, best: Option<ExprAt>) -> (r: Option<ExprAt>)
    ensures
        opt_at(r) == in_methods(functions_view(ms@), 0, at, opt_at(best)),
{
    let ghost all = functions_view(ms@);
    let ghost start = opt_at(best);
    let mut best = best;
    let mut i: usize = 0;
    while i < ms.len()
        invariant
            all == functions_view(ms@),
            i <= ms@.len(),
            in_methods(all, i as int, at, opt_at(best)) == in_methods(all, 0, at, start),
        decreases ms@.len() - i,
    {
        assert(all[i as int] == ms@[i as int]@);
        best = visit_block(&ms[i].body, at, best);
        i = i + 1;
    }
    best
}

/// The innermost expression at a position of a file.
pub fn expr_at(program: &Program, file: FileId, position: Position) -> (r: Option<ExprAt>)
    ensures
        opt_at(r) == found_at(program@, Place { file, position }),
{
    let at = Place { file, position };
    let ghost fs = function_views(program.functions@);
    let ghost ss = struct_views(program.structs@);
    let mut best: Option<ExprAt> = None;
    let n: usize = program.functions.len();
    let mut i: usize = 0;
    while i < n
        invariant
            n == program.functions@.len(),
            fs == function_views(program.functions@),
            i <= n,
            in_functions(fs, i as int, at, opt_at(best)) == in_functions(fs, 0, at, None),
        decreases n - i,
    {
        let f = program.functions.item_at(i);
        assert(fs[i as int].1 == f@);
        if f.span.file == at.file {
            best = visit_block(&f.body, at, best);
        }
        i = i + 1;
    }
    let ghost before = opt_at(best);
    let m: usize = program.structs.len();
    let mut j: usize = 0;
    while j < m
        invariant
            m == program.structs@.len(),
            ss == struct_views(program.structs@),
            j <= m,
            in_structs(ss, j as int, at, opt_at(best)) == in_structs(ss, 0, at, before),
        decreases m - j,
    {
        let s = program.structs.item_at(j);
        assert(ss[j as int].1 == s@);
        if s.span.file == at.file {
            best = visit_methods(&s.methods, at, best);
        }
        j = j + 1;
    }
    best
}

// ---------------------------------------------------------------------------
// Definitions
// ---------------------------------------------------------------------------

/// What the checks of a program found out: where identifiers are defined, and the types of
/// expressions.
#[derive(Debug)]
pub struct Resolutions {
    pub ident_def: Vec<(NodeId, Span)>,
    pub expr_ty: Vec<(NodeId, Ty)>,
}

/// The first definition of an identifier, from the `i`-th entry on.
pub open spec fn def_from(defs: Seq<(NodeId, Span)>, id: NodeId, i: int) -> Option<Span>
    decreases defs.len() - i,
{
    if !(0 <= i < defs.len()) {
        None
    } else if defs[i].0 == id {
        Some(defs[i].1)
    } else {
        def_from(defs, id, i + 1)
    }
}

/// The first type of an expression, from the `i`-th entry on.
pub open spec fn ty_of_from(tys: Seq<(NodeId, Ty)>, id: NodeId, i: int) -> Option<TyV>
    decreases tys.len() - i,
{
    if !(0 <= i < tys.len()) {
        None
    } else if tys[i].0 == id {
        Some(tys[i].1@)
    } else {
        ty_of_from(tys, id, i + 1)
    }
}

impl Resolutions {
    /// Where an identifier is defined.
    pub fn definition(&self, id: NodeId) -> (r: Option<Span>)
        ensures
            r == def_from(self.ident_def@, id, 0),
    {
        let mut i: usize = 0;
        while i < self.ident_def.len()
            invariant
                i <= self.ident_def@.len(),
                def_from(self.ident_def@, id, i as int) == def_from(self.ident_def@, id, 0),
            decreases self.ident_def@.len() - i,
        {
            if self.ident_def[i].0 == id {
                return Some(self.ident_def[i].1);
            }
            i = i + 1;
        }
        None
    }

    /// The type of an expression.
    pub fn type_of(&self, id: NodeId) -> (r: Option<&Ty>)
        ensures
            match r {
                Some(t) => ty_of_from(self.expr_ty@, id, 0) == Some(t@),
                None => ty_of_from(self.expr_ty@, id, 0) is None,
            },
    {
        let mut i: usize = 0;
        while i < self.expr_ty.len()
            invariant
                i <= self.expr_ty@.len(),
                ty_of_from(self.expr_ty@, id, i as int) == ty_of_from(self.expr_ty@, id, 0),
            decreases self.expr_ty@.len() - i,
        {
            if self.expr_ty[i].0 == id {
                return Some(&self.expr_ty[i].1);
            }
            i = i + 1;
        }
        None
    }
}

/// The struct that an expression is an instance of.
pub open spec fn struct_of(p: ProgramV, tys: Seq<(NodeId, Ty)>, id: NodeId) -> Option<StructV> {
    match ty_of_from(tys, id, 0) {
        Some(TyV::Named { name, args }) => lookup(p.structs, name),
        _ => None,
    }
}

pub open spec fn method_span_from(ms: Seq<FunctionV>, name: Seq<char>, i: int) -> Option<Span>
    decreases ms.len() - i,
{
    if !(0 <= i < ms.len()) {
        None
    } else if ms[i].name == name {
        Some(ms[i].span)
    } else {
        method_span_from(ms, name, i + 1)
    }
}

pub open spec fn field_span_from(fs: Seq<ParamV>, name: Seq<char>, i: int) -> Option<Span>
    decreases fs.len() - i,
{
    if !(0 <= i < fs.len()) {
        None
    } else if fs[i].name == name {
        Some(fs[i].span)
    } else {
        field_span_from(fs, name, i + 1)
    }
}

/// Where an expression is defined: an identifier by what the checks found out, and a method or a
/// field in the struct of its receiver.
pub open spec fn defined_at(
    p: ProgramV,
    defs: Seq<(NodeId, Span)>,
    tys: Seq<(NodeId, Ty)>,
    e: ExprAtV,
) -> Option<Span> {
    match e.kind {
        QueryKindV::Ident => def_from(defs, e.id, 0),
        QueryKindV::Method { receiver, name } => match struct_of(p, tys, receiver) {
            Some(s) => method_span_from(s.methods, name, 0),
            None => None,
        },
        QueryKindV::Field { receiver, name } => match struct_of(p, tys, receiver) {
            Some(s) => field_span_from(s.fields, name, 0),
            None => None,
        },
        QueryKindV::Other => None,
    }
}

fn struct_of_expr<'a>(program: &'a Program, found: &Resolutions, id: NodeId) -> (r: Option<
    &'a StructDecl,
>)
    ensures
        match r {
            Some(s) => struct_of(program@, found.expr_ty@, id) == Some(s@),
            None => struct_of(program@, found.expr_ty@, id) is None,
        },
{
    let t = match found.type_of(id) {
        Some(t) => t,
        None => {
            return None;
        },
    };
    proof {
        lemma_ty_view(*t);
    }
    match t {
        Ty::Named { name, .. } => {
            proof {
                lemma_mapped(program.structs@, |d: StructDecl| d.view(), name@, arbitrary());
            }
            program.structs.get(name.as_str())
        },
        _ => None,
    }
}

fn method_span(s: &StructDecl, name: &str) -> (r: Option<Span>)
    ensures
        r == method_span_from(s@.methods, name@, 0),
{
    let ghost ms = functions_view(s.methods@);
    let mut i: usize = 0;
    while i < s.methods.len()
        invariant
            ms == functions_view(s.methods@),
            i <= s.methods@.len(),
            method_span_from(ms, name@, i as int) == method_span_from(ms, name@, 0),
        decreases s.methods@.len() - i,
    {
        assert(ms[i as int] == s.methods@[i as int]@);
        if same_text(s.methods[i].name.as_str(), name) {
            return Some(s.methods[i].span);
        }
        i = i + 1;
    }
    None
}

fn field_span(s: &StructDecl, name: &str) -> (r: Option<Span>)
    ensures
        r == field_span_from(s@.fields, name@, 0),
{
    let ghost fs = params_view(s.fields@);
    let mut i: usize = 0;
    while i < s.fields.len()
        invariant
            fs == params_view(s.fields@),
            i <= s.fields@.len(),
            field_span_from(fs, name@, i as int) == field_span_from(fs, name@, 0),
        decreases s.fields@.len() - i,
    {
        assert(fs[i as int] == s.fields@[i as int]@);
        if same_text(s.fields[i].name.as_str(), name) {
            return Some(s.fields[i].span);
        }
        i = i + 1;
    }
    None
}

/// Where an expression is defined.
pub fn definition_span(program: &Program, found: &Resolutions, expr: &ExprAt) -> (r: Option<Span>)
    ensures
        r == defined_at(program@, found.ident_def@, found.expr_ty@, expr@),
{
    match &expr.kind {
        QueryKind::Ident => found.definition(expr.id),
        QueryKind::Method { receiver, name } => match struct_of_expr(program, found, *receiver) {
            Some(s) => method_span(s, name.as_str()),
            None => None,
        },
        QueryKind::Field { receiver, name } => match struct_of_expr(program, found, *receiver) {
            Some(s) => field_span(s, name.as_str()),
            None => None,
        },
        QueryKind::Other => None,
    }
}

// ---------------------------------------------------------------------------
// Laws
// ---------------------------------------------------------------------------

/// What was found holds the place.
pub open spec fn sound(best: Option<ExprAtV>, at: Place) -> bool {
    best matches Some(x) ==> holds(x.span, at)
}

proof fn lemma_expr(e: ExprV, at: Place, best: Option<ExprAtV>)
    requires
        sound(best, at),
    ensures
        sound(in_expr(e, at, best), at),
    decreases e, 0int,
{
    let found = if is_found(e, at, best) {
        Some(ExprAtV { id: e.id, span: e.span, kind: query_of(e.kind) })
    } else {
        best
    };
    lemma_kind(e.kind, at, found);
}

proof fn lemma_kind(k: ExprKindV, at: Place, best: Option<ExprAtV>)
    requires
        sound(best, at),
    ensures
        sound(in_kind(k, at, best), at),
    decreases k, 0int,
{
    match k {
        ExprKindV::FString(segments) => lemma_segments(segments, 0, at, best),
        ExprKindV::ListLit { elements, .. } => lemma_exprs(elements, 0, at, best),
        ExprKindV::SetLit { elements, .. } => lemma_exprs(elements, 0, at, best),
        ExprKindV::TupleLit { elements, .. } => lemma_exprs(elements, 0, at, best),
        ExprKindV::DictLit { entries, .. } => lemma_entries(entries, 0, at, best),
        ExprKindV::Unary { operand, .. } => lemma_expr(*operand, at, best),
        ExprKindV::Binary { lhs, rhs, .. } => {
            lemma_expr(*lhs, at, best);
            lemma_expr(*rhs, at, in_expr(*lhs, at, best));
        },
        ExprKindV::Call { callee, args, .. } => {
            lemma_expr(*callee, at, best);
            lemma_args(args, 0, at, in_expr(*callee, at, best));
        },
        ExprKindV::MethodCall { receiver, args, .. } => {
            lemma_expr(*receiver, at, best);
            lemma_args(args, 0, at, in_expr(*receiver, at, best));
        },
        ExprKindV::FieldAccess { target, .. } => lemma_expr(*target, at, best),
        ExprKindV::TupleIndex { target, .. } => lemma_expr(*target, at, best),
        ExprKindV::Index { target, index } => {
            lemma_expr(*target, at, best);
            lemma_expr(*index, at, in_expr(*target, at, best));
        },
        ExprKindV::Question { target } => lemma_expr(*target, at, best),
        ExprKindV::Pipe { source, stages } => {
            lemma_expr(*source, at, best);
            lemma_stages(stages, 0, at, in_expr(*source, at, best));
        },
        ExprKindV::Lambda { body, .. } => lemma_expr(*body, at, best),
        ExprKindV::If(i) => lemma_if(*i, at, best),
        ExprKindV::Match { scrutinee, arms } => {
            lemma_expr(*scrutinee, at, best);
            lemma_arms(arms, 0, at, in_expr(*scrutinee, at, best));
        },
        ExprKindV::Par { elements, .. } => lemma_exprs(elements, 0, at, best),
        ExprKindV::Grouping(e) => lemma_expr(*e, at, best),
        _ => {},
    }
}

proof fn lemma_entry(x: (ExprV, ExprV), at: Place, best: Option<ExprAtV>)
    requires
        sound(best, at),
    ensures
        sound(in_entry(x, at, best), at),
    decreases x, 0int,
{
    lemma_expr(x.0, at, best);
    lemma_expr(x.1, at, in_expr(x.0, at, best));
}

proof fn lemma_arg(x: ArgV, at: Place, best: Option<ExprAtV>)
    requires
        sound(best, at),
    ensures
        sound(in_arg(x, at, best), at),
    decreases x, 0int,
{
    lemma_expr(x.value, at, best);
}

proof fn lemma_segment(x: SegmentV, at: Place, best: Option<ExprAtV>)
    requires
        sound(best, at),
    ensures
        sound(in_segment(x, at, best), at),
    decreases x, 0int,
{
    if let SegmentV::Expr(e) = x {
        lemma_expr(*e, at, best);
    }
}

proof fn lemma_stage(x: StageV, at: Place, best: Option<ExprAtV>)
    requires
        sound(best, at),
    ensures
        sound(in_stage(x, at, best), at),
    decreases x, 0int,
{
    lemma_callee(x.callee, at, best);
}

proof fn lemma_callee(x: CalleeV, at: Place, best: Option<ExprAtV>)
    requires
        sound(best, at),
    ensures
        sound(in_callee(x, at, best), at),
    decreases x, 0int,
{
    match x {
        CalleeV::Bare(e) => lemma_expr(e, at, best),
        CalleeV::WithArgs { callee, args } => {
            lemma_expr(*callee, at, best);
            lemma_args(args, 0, at, in_expr(*callee, at, best));
        },
    }
}

proof fn lemma_if(x: IfV, at: Place, best: Option<ExprAtV>)
    requires
        sound(best, at),
    ensures
        sound(in_if(x, at, best), at),
    decreases x, 0int,
{
    lemma_expr(*x.cond, at, best);
    let cond = in_expr(*x.cond, at, best);
    lemma_block(x.then_branch, at, cond);
    lemma_else(x.else_branch, at, in_block(x.then_branch, at, cond));
}

proof fn lemma_else(x: ElseV, at: Place, best: Option<ExprAtV>)
    requires
        sound(best, at),
    ensures
        sound(in_else(x, at, best), at),
    decreases x, 0int,
{
    match x {
        ElseV::Block(b) => lemma_block(b, at, best),
        ElseV::ElseIf(i) => lemma_if(*i, at, best),
    }
}

proof fn lemma_arm(x: ArmV, at: Place, best: Option<ExprAtV>)
    requires
        sound(best, at),
    ensures
        sound(in_arm(x, at, best), at),
    decreases x, 0int,
{
    lemma_body(x.body, at, best);
}

proof fn lemma_body(x: ArmBodyV, at: Place, best: Option<ExprAtV>)
    requires
        sound(best, at),
    ensures
        sound(in_body(x, at, best), at),
    decreases x, 0int,
{
    match x {
        ArmBodyV::Expr(e) => lemma_expr(e, at, best),
        ArmBodyV::Block(b) => lemma_block(b, at, best),
    }
}

proof fn lemma_block(x: BlockV, at: Place, best: Option<ExprAtV>)
    requires
        sound(best, at),
    ensures
        sound(in_block(x, at, best), at),
    decreases x, 0int,
{
    lemma_stmts(x.stmts, 0, at, best);
}

proof fn lemma_stmt(x: StmtV, at: Place, best: Option<ExprAtV>)
    requires
        sound(best, at),
    ensures
        sound(in_stmt(x, at, best), at),
    decreases x, 0int,
{
    lemma_stmt_kind(x.kind, at, best);
}

proof fn lemma_stmt_kind(x: StmtKindV, at: Place, best: Option<ExprAtV>)
    requires
        sound(best, at),
    ensures
        sound(in_stmt_kind(x, at, best), at),
    decreases x, 0int,
{
    match x {
        StmtKindV::VarDecl { value, .. } => lemma_expr(value, at, best),
        StmtKindV::NameAssign { value, .. } => lemma_expr(value, at, best),
        StmtKindV::FieldAssign { target, value, .. } => {
            lemma_expr(target, at, best);
            lemma_expr(value, at, in_expr(target, at, best));
        },
        StmtKindV::IndexAssign { target, index, value } => {
            lemma_expr(target, at, best);
            lemma_expr(index, at, in_expr(target, at, best));
            lemma_expr(value, at, in_expr(index, at, in_expr(target, at, best)));
        },
        StmtKindV::Discard(e) => lemma_expr(e, at, best),
        StmtKindV::ExprStmt(e) => lemma_expr(e, at, best),
        StmtKindV::Return(o) => {
            if let Some(e) = o {
                lemma_expr(e, at, best);
            }
        },
    }
}

proof fn lemma_exprs(v: Seq<ExprV>, i: int, at: Place, best: Option<ExprAtV>)
    requires
        sound(best, at),
    ensures
        sound(in_exprs(v, i, at, best), at),
    decreases v, v.len() - i,
{
    if 0 <= i < v.len() {
        lemma_expr(v[i], at, best);
        lemma_exprs(v, i + 1, at, in_expr(v[i], at, best));
    }
}

proof fn lemma_entries(v: Seq<(ExprV, ExprV)>, i: int, at: Place, best: Option<ExprAtV>)
    requires
        sound(best, at),
    ensures
        sound(in_entries(v, i, at, best), at),
    decreases v, v.len() - i,
{
    if 0 <= i < v.len() {
        lemma_entry(v[i], at, best);
        lemma_entries(v, i + 1, at, in_entry(v[i], at, best));
    }
}

proof fn lemma_args(v: Seq<ArgV>, i: int, at: Place, best: Option<ExprAtV>)
    requires
        sound(best, at),
    ensures
        sound(in_args(v, i, at, best), at),
    decreases v, v.len() - i,
{
    if 0 <= i < v.len() {
        lemma_arg(v[i], at, best);
        lemma_args(v, i + 1, at, in_arg(v[i], at, best));
    }
}

proof fn lemma_segments(v: Seq<SegmentV>, i: int, at: Place, best: Option<ExprAtV>)
    requires
        sound(best, at),
    ensures
        sound(in_segments(v, i, at, best), at),
    decreases v, v.len() - i,
{
    if 0 <= i < v.len() {
        lemma_segment(v[i], at, best);
        lemma_segments(v, i + 1, at, in_segment(v[i], at, best));
    }
}

proof fn lemma_stages(v: Seq<StageV>, i: int, at: Place, best: Option<ExprAtV>)
    requires
        sound(best, at),
    ensures
        sound(in_stages(v, i, at, best), at),
    decreases v, v.len() - i,
{
    if 0 <= i < v.len() {
        lemma_stage(v[i], at, best);
        lemma_stages(v, i + 1, at, in_stage(v[i], at, best));
    }
}

proof fn lemma_arms(v: Seq<ArmV>, i: int, at: Place, best: Option<ExprAtV>)
    requires
        sound(best, at),
    ensures
        sound(in_arms(v, i, at, best), at),
    decreases v, v.len() - i,
{
    if 0 <= i < v.len() {
        lemma_arm(v[i], at, best);
        lemma_arms(v, i + 1, at, in_arm(v[i], at, best));
    }
}

proof fn lemma_stmts(v: Seq<StmtV>, i: int, at: Place, best: Option<ExprAtV>)
    requires
        sound(best, at),
    ensures
        sound(in_stmts(v, i, at, best), at),
    decreases v, v.len() - i,
{
    if 0 <= i < v.len() {
        lemma_stmt(v[i], at, best);
        lemma_stmts(v, i + 1, at, in_stmt(v[i], at, best));
    }
}

proof fn lemma_functions(
    fs: Seq<(Seq<char>, FunctionV)>,
    i: int,
    at: Place,
    best: Option<ExprAtV>,
)
    requires
        sound(best, at),
    ensures
        sound(in_functions(fs, i, at, best), at),
    decreases fs.len() - i,
{
    if 0 <= i < fs.len() {
        lemma_block(fs[i].1.body, at, best);
        lemma_functions(
            fs,
            i + 1,
            at,
            if fs[i].1.span.file == at.file {
                in_block(fs[i].1.body, at, best)
            } else {
                best
            },
        );
    }
}

proof fn lemma_methods(ms: Seq<FunctionV>, i: int, at: Place, best: Option<ExprAtV>)
    requires
        sound(best, at),
    ensures
        sound(in_methods(ms, i, at, best), at),
    decreases ms.len() - i,
{
    if 0 <= i < ms.len() {
        lemma_block(ms[i].body, at, best);
        lemma_methods(ms, i + 1, at, in_block(ms[i].body, at, best));
    }
}

proof fn lemma_structs(
    ss: Seq<(Seq<char>, StructV)>,
    i: int,
    at: Place,
    best: Option<ExprAtV>,
)
    requires
        sound(best, at),
    ensures
        sound(in_structs(ss, i, at, best), at),
    decreases ss.len() - i,
{
    if 0 <= i < ss.len() {
        lemma_methods(ss[i].1.methods, 0, at, best);
        lemma_structs(
            ss,
            i + 1,
            at,
            if ss[i].1.span.file == at.file {
                in_methods(ss[i].1.methods, 0, at, best)
            } else {
                best
            },
        );
    }
}

/// An expression that was found at a place holds the place.
pub proof fn law_found_expression_holds_the_place(p: ProgramV, at: Place)
    ensures
        found_at(p, at) matches Some(x) ==> holds(x.span, at),
{
    lemma_functions(p.functions, 0, at, None);
    lemma_structs(p.structs, 0, at, in_functions(p.functions, 0, at, None));
}

} // verus!
