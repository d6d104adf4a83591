//! No comment is lost.

use super::comments::{
    as_leading, attach_arg, attach_args, attach_arm, attach_arm_body, attach_arms, attach_block,
    attach_callee, attach_else, attach_entries, attach_enum, attach_expr, attach_exprs,
    attach_fields, attach_function, attach_functions, attach_if, attach_item, attach_items,
    attach_kind, attach_module, attach_segment, attach_segments, attach_stage, attach_stages,
    attach_stmt, attach_stmt_kind, attach_stmts, attach_struct, attach_variant, attach_variants,
    doc_start, leading_count, split_doc, stripped, take_leading, take_trailing,
};
use crate::ast::{
    ArgV, ArmBodyV, ArmV, BlockV, CalleeV, DeclV, ElseV, EnumV, ExprKindV, ExprV, FunctionV, IfV,
    ItemV, LeadingV, ModuleV, ParamV, SegmentV, StageV, StmtKindV, StmtV, StructV, VariantV,
};
use crate::lexer::RawCommentView;
use vstd::prelude::*;

verus! {

// ---------------------------------------------------------------------------
// The comments of nodes
// ---------------------------------------------------------------------------

/// What a comment says, and in which line.
pub open spec fn noted(c: RawCommentView) -> LeadingV {
    LeadingV { text: stripped(c.text), line: c.span.start.line }
}

/// Some comments are what a queue says, but for documentation that was left out of it: every
/// ordinary comment of the queue is among them once, in its order and with its line, and nothing
/// is that the queue does not hold.
pub open spec fn sifted(q: Seq<RawCommentView>, out: Seq<LeadingV>) -> bool
    decreases q.len(),
{
    if q.len() == 0 {
        out.len() == 0
    } else {
        ||| out.len() > 0 && out[0] == noted(q[0]) && sifted(q.drop_first(), out.drop_first())
        ||| q[0].is_doc && sifted(q.drop_first(), out)
    }
}

/// The trailing comment of what ends in a line.
pub open spec fn said_trailing(x: Option<Seq<char>>, line: u32) -> Seq<LeadingV> {
    match x {
        Some(text) => seq![LeadingV { text, line }],
        None => Seq::empty(),
    }
}

/// What the comments inside an expression say, in the order in which they were attached; so for
/// the other nodes.
pub open spec fn said_expr(x: ExprV) -> Seq<LeadingV>
    decreases x,
{
    said_kind(x.kind)
}

pub open spec fn said_exprs(x: Seq<ExprV>) -> Seq<LeadingV>
    decreases x,
{
    if x.len() == 0 {
        Seq::empty()
    } else {
        said_exprs(x.drop_last()) + said_expr(x.last())
    }
}

pub open spec fn said_segments(x: Seq<SegmentV>) -> Seq<LeadingV>
    decreases x,
{
    if x.len() == 0 {
        Seq::empty()
    } else {
        said_segments(x.drop_last()) + said_segment(x.last())
    }
}

pub open spec fn said_args(x: Seq<ArgV>) -> Seq<LeadingV>
    decreases x,
{
    if x.len() == 0 {
        Seq::empty()
    } else {
        said_args(x.drop_last()) + said_arg(x.last())
    }
}

pub open spec fn said_stages(x: Seq<StageV>) -> Seq<LeadingV>
    decreases x,
{
    if x.len() == 0 {
        Seq::empty()
    } else {
        said_stages(x.drop_last()) + said_stage(x.last())
    }
}

pub open spec fn said_entries(x: Seq<(ExprV, ExprV)>) -> Seq<LeadingV>
    decreases x,
{
    if x.len() == 0 {
        Seq::empty()
    } else {
        said_entries(x.drop_last()) + said_expr(x.last().0) + said_expr(x.last().1)
    }
}

pub open spec fn said_segment(x: SegmentV) -> Seq<LeadingV>
    decreases x,
{
    match x {
        SegmentV::Text(_) => Seq::empty(),
        SegmentV::Expr(e) => said_expr(*e),
    }
}

pub open spec fn said_arg(x: ArgV) -> Seq<LeadingV>
    decreases x,
{
    said_expr(x.value)
}

pub open spec fn said_callee(x: CalleeV) -> Seq<LeadingV>
    decreases x,
{
    match x {
        CalleeV::Bare(e) => said_expr(e),
        CalleeV::WithArgs { callee, args } => said_expr(*callee) + said_args(args),
    }
}

pub open spec fn said_stage(x: StageV) -> Seq<LeadingV>
    decreases x,
{
    said_callee(x.callee)
}

pub open spec fn said_kind(x: ExprKindV) -> Seq<LeadingV>
    decreases x,
{
    match x {
        ExprKindV::FString(segments) => said_segments(segments),
        ExprKindV::ListLit { elements, .. } => said_exprs(elements),
        ExprKindV::SetLit { elements, .. } => said_exprs(elements),
        ExprKindV::TupleLit { elements, .. } => said_exprs(elements),
        ExprKindV::Par { elements, .. } => said_exprs(elements),
        ExprKindV::DictLit { entries, .. } => said_entries(entries),
        ExprKindV::Unary { operand, .. } => said_expr(*operand),
        ExprKindV::Binary { lhs, rhs, .. } => said_expr(*lhs) + said_expr(*rhs),
        ExprKindV::Call { callee, args, .. } => said_expr(*callee) + said_args(args),
        ExprKindV::MethodCall { receiver, args, .. } => said_expr(*receiver) + said_args(args),
        ExprKindV::FieldAccess { target, .. } => said_expr(*target),
        ExprKindV::TupleIndex { target, .. } => said_expr(*target),
        ExprKindV::Index { target, index } => said_expr(*target) + said_expr(*index),
        ExprKindV::Question { target } => said_expr(*target),
        ExprKindV::Pipe { source, stages } => said_expr(*source) + said_stages(stages),
        ExprKindV::Lambda { body, .. } => said_expr(*body),
        ExprKindV::If(i) => said_if(*i),
        ExprKindV::Match { scrutinee, arms } => said_expr(*scrutinee) + said_arms(arms),
        ExprKindV::Grouping(e) => said_expr(*e),
        _ => Seq::empty(),
    }
}

pub open spec fn said_if(x: IfV) -> Seq<LeadingV>
    decreases x,
{
    said_expr(*x.cond) + said_block(x.then_branch) + said_else(x.else_branch)
}

pub open spec fn said_else(x: ElseV) -> Seq<LeadingV>
    decreases x,
{
    match x {
        ElseV::Block(b) => said_block(b),
        ElseV::ElseIf(i) => said_if(*i),
    }
}

pub open spec fn said_arm_body(x: ArmBodyV) -> Seq<LeadingV>
    decreases x,
{
    match x {
        ArmBodyV::Expr(e) => said_expr(e),
        ArmBodyV::Block(b) => said_block(b),
    }
}

pub open spec fn said_arm(x: ArmV) -> Seq<LeadingV>
    decreases x,
{
    x.leading_comments + said_trailing(x.trailing_comment, x.span.end.line) + said_arm_body(
        x.body,
    )
}

pub open spec fn said_arms(x: Seq<ArmV>) -> Seq<LeadingV>
    decreases x,
{
    if x.len() == 0 {
        Seq::empty()
    } else {
        said_arms(x.drop_last()) + said_arm(x.last())
    }
}

pub open spec fn said_block(x: BlockV) -> Seq<LeadingV>
    decreases x,
{
    said_stmts(x.stmts)
}

pub open spec fn said_stmts(x: Seq<StmtV>) -> Seq<LeadingV>
    decreases x,
{
    if x.len() == 0 {
        Seq::empty()
    } else {
        said_stmts(x.drop_last()) + said_stmt(x.last())
    }
}

pub open spec fn said_stmt(x: StmtV) -> Seq<LeadingV>
    decreases x,
{
    x.leading_comments + said_trailing(x.trailing_comment, x.span.end.line) + said_stmt_kind(
        x.kind,
    )
}

pub open spec fn said_stmt_kind(x: StmtKindV) -> Seq<LeadingV>
    decreases x,
{
    match x {
        StmtKindV::VarDecl { value, .. } => said_expr(value),
        StmtKindV::NameAssign { value, .. } => said_expr(value),
        StmtKindV::FieldAssign { target, value, .. } => said_expr(target) + said_expr(value),
        StmtKindV::IndexAssign { target, index, value } => said_expr(target) + said_expr(index)
            + said_expr(value),
        StmtKindV::Discard(e) => said_expr(e),
        StmtKindV::ExprStmt(e) => said_expr(e),
        StmtKindV::Return(Some(e)) => said_expr(e),
        StmtKindV::Return(None) => Seq::empty(),
    }
}

pub open spec fn said_function(x: FunctionV) -> Seq<LeadingV> {
    x.leading_comments + said_block(x.body)
}

pub open spec fn said_functions(x: Seq<FunctionV>) -> Seq<LeadingV>
    decreases x.len(),
{
    if x.len() == 0 {
        Seq::empty()
    } else {
        said_functions(x.drop_last()) + said_function(x.last())
    }
}

/// What the comments of the fields of a struct say.
pub open spec fn said_fields(
    fields: Seq<ParamV>,
    leads: Seq<Seq<LeadingV>>,
    trails: Seq<Option<Seq<char>>>,
) -> Seq<LeadingV>
    decreases fields.len(),
{
    if fields.len() == 0 {
        Seq::empty()
    } else {
        said_fields(fields.drop_last(), leads.drop_last(), trails.drop_last()) + leads.last()
            + said_trailing(trails.last(), fields.last().span.end.line)
    }
}

pub open spec fn said_struct(x: StructV) -> Seq<LeadingV> {
    x.leading_comments + said_fields(
        x.fields,
        x.field_leading_comments,
        x.field_trailing_comments,
    ) + said_functions(x.methods)
}

pub open spec fn said_variant(x: VariantV) -> Seq<LeadingV> {
    x.leading_comments + said_trailing(x.trailing_comment, x.span.end.line)
}

pub open spec fn said_variants(x: Seq<VariantV>) -> Seq<LeadingV>
    decreases x.len(),
{
    if x.len() == 0 {
        Seq::empty()
    } else {
        said_variants(x.drop_last()) + said_variant(x.last())
    }
}

pub open spec fn said_enum(x: EnumV) -> Seq<LeadingV> {
    x.leading_comments + said_variants(x.variants)
}

pub open spec fn said_item(x: ItemV) -> Seq<LeadingV> {
    match x {
        ItemV::Decl(DeclV::Function(f)) => said_function(f),
        ItemV::Decl(DeclV::Struct(s)) => said_struct(s),
        ItemV::Decl(DeclV::Enum(e)) => said_enum(e),
        ItemV::Stmt(s) => said_stmt(s),
    }
}

pub open spec fn said_items(x: Seq<ItemV>) -> Seq<LeadingV>
    decreases x.len(),
{
    if x.len() == 0 {
        Seq::empty()
    } else {
        said_items(x.drop_last()) + said_item(x.last())
    }
}

/// What the comments of a module say.
pub open spec fn said_module(x: ModuleV) -> Seq<LeadingV> {
    said_items(x.items) + x.trailing_comments
}

// ---------------------------------------------------------------------------
// Queues
// ---------------------------------------------------------------------------

/// What was taken from the front of a queue, but for documentation, and the rest of the queue.
spec fn kept(q: Seq<RawCommentView>, taken: Seq<LeadingV>, r: Seq<RawCommentView>) -> bool {
    &&& r.len() <= q.len()
    &&& r == q.skip(q.len() - r.len())
    &&& sifted(q.take(q.len() - r.len()), taken)
}

proof fn lemma_nothing(q: Seq<RawCommentView>)
    ensures
        kept(q, Seq::empty(), q),
{
    assert(q =~= q.skip(0));
}

proof fn lemma_sifted_join(
    a: Seq<RawCommentView>,
    x: Seq<LeadingV>,
    b: Seq<RawCommentView>,
    y: Seq<LeadingV>,
)
    requires
        sifted(a, x),
        sifted(b, y),
    ensures
        sifted(a + b, x + y),
    decreases a.len(),
{
    if a.len() == 0 {
        assert(a + b =~= b);
        assert(x + y =~= y);
    } else {
        let rest = a.drop_first();
        assert((a + b).drop_first() =~= rest + b);
        if x.len() > 0 && x[0] == noted(a[0]) && sifted(rest, x.drop_first()) {
            lemma_sifted_join(rest, x.drop_first(), b, y);
            assert((x + y).drop_first() =~= x.drop_first() + y);
        } else {
            lemma_sifted_join(rest, x, b, y);
        }
    }
}

proof fn lemma_both(
    q: Seq<RawCommentView>,
    a: Seq<LeadingV>,
    r: Seq<RawCommentView>,
    b: Seq<LeadingV>,
    t: Seq<RawCommentView>,
)
    requires
        kept(q, a, r),
        kept(r, b, t),
    ensures
        kept(q, a + b, t),
{
    let n = q.len() - r.len();
    let m = r.len() - t.len();
    lemma_sifted_join(q.take(n), a, r.take(m), b);
    assert(q.take(n) + r.take(m) =~= q.take(n + m));
    assert(t =~= q.skip(n + m));
}

proof fn lemma_all_said(q: Seq<RawCommentView>)
    ensures
        sifted(q, as_leading(q)),
    decreases q.len(),
{
    if q.len() > 0 {
        lemma_all_said(q.drop_first());
        assert(as_leading(q).drop_first() =~= as_leading(q.drop_first()));
    }
}

proof fn lemma_all_documentation(q: Seq<RawCommentView>)
    requires
        forall|i: int| 0 <= i < q.len() ==> (#[trigger] q[i]).is_doc,
    ensures
        sifted(q, Seq::empty()),
    decreases q.len(),
{
    if q.len() > 0 {
        lemma_all_documentation(q.drop_first());
    }
}

proof fn lemma_doc_start(q: Seq<RawCommentView>, i: int, next: Option<u32>)
    requires
        0 <= i <= q.len(),
    ensures
        0 <= doc_start(q, i, next) <= i,
        forall|j: int| doc_start(q, i, next) <= j < i ==> (#[trigger] q[j]).is_doc,
    decreases i,
{
    if i > 0 {
        let c = q[i - 1];
        if c.is_doc && (next matches Some(n) ==> c.span.start.line + 1 == n) {
            lemma_doc_start(q, i - 1, Some(c.span.start.line));
        }
    }
}

proof fn lemma_split(q: Seq<RawCommentView>)
    ensures
        sifted(q, split_doc(q).1),
{
    reveal(split_doc);
    let k = doc_start(q, q.len() as int, None);
    lemma_doc_start(q, q.len() as int, None);
    if k >= q.len() {
        lemma_all_said(q);
    } else {
        lemma_all_said(q.take(k));
        assert forall|i: int| 0 <= i < q.skip(k).len() implies (#[trigger] q.skip(k)[i]).is_doc by {
            assert(q[k + i].is_doc);
        }
        lemma_all_documentation(q.skip(k));
        lemma_sifted_join(q.take(k), as_leading(q.take(k)), q.skip(k), Seq::empty());
        assert(q.take(k) + q.skip(k) =~= q);
        assert(as_leading(q.take(k)) + Seq::<LeadingV>::empty() =~= as_leading(q.take(k)));
    }
}

proof fn lemma_count(q: Seq<RawCommentView>, line: u32)
    ensures
        leading_count(q, line) <= q.len(),
    decreases q.len(),
{
    if q.len() > 0 {
        lemma_count(q.drop_first(), line);
    }
}

proof fn lemma_leading(q: Seq<RawCommentView>, line: u32)
    ensures
        kept(q, as_leading(take_leading(q, line).0), take_leading(q, line).1),
        kept(q, split_doc(take_leading(q, line).0).1, take_leading(q, line).1),
{
    reveal(take_leading);
    lemma_count(q, line);
    let (taken, r) = take_leading(q, line);
    assert(q.take(q.len() - r.len()) =~= taken);
    lemma_all_said(taken);
    lemma_split(taken);
}

proof fn lemma_trailing(q: Seq<RawCommentView>, line: u32)
    ensures
        kept(q, said_trailing(take_trailing(q, line).0, line), take_trailing(q, line).1),
{
    reveal(take_trailing);
    let (text, r) = take_trailing(q, line);
    if text is Some {
        let front = q.take(1);
        assert(r =~= q.skip(1));
        assert(q.take(q.len() - r.len()) =~= front);
        lemma_all_said(front);
        assert(as_leading(front) =~= said_trailing(text, line));
    } else {
        lemma_nothing(q);
    }
}

// ---------------------------------------------------------------------------
// Nodes
// ---------------------------------------------------------------------------

proof fn lemma_expr(x: ExprV, q: Seq<RawCommentView>)
    ensures
        kept(q, said_expr(attach_expr(x, q).0), attach_expr(x, q).1),
    decreases x, 1int,
{
    lemma_kind(x.kind, q);
}

proof fn lemma_exprs(x: Seq<ExprV>, q: Seq<RawCommentView>)
    ensures
        kept(q, said_exprs(attach_exprs(x, q).0), attach_exprs(x, q).1),
    decreases x, 1int,
{
    lemma_nothing(q);
    if x.len() > 0 {
        lemma_exprs(x.drop_last(), q);
        let (init, r) = attach_exprs(x.drop_last(), q);
        lemma_expr(x.last(), r);
        let (last, t) = attach_expr(x.last(), r);
        lemma_both(q, said_exprs(init), r, said_expr(last), t);
        assert(init.push(last).drop_last() =~= init);
    }
}

proof fn lemma_segments(x: Seq<SegmentV>, q: Seq<RawCommentView>)
    ensures
        kept(q, said_segments(attach_segments(x, q).0), attach_segments(x, q).1),
    decreases x, 1int,
{
    lemma_nothing(q);
    if x.len() > 0 {
        lemma_segments(x.drop_last(), q);
        let (init, r) = attach_segments(x.drop_last(), q);
        lemma_segment(x.last(), r);
        let (last, t) = attach_segment(x.last(), r);
        lemma_both(q, said_segments(init), r, said_segment(last), t);
        assert(init.push(last).drop_last() =~= init);
    }
}

proof fn lemma_args(x: Seq<ArgV>, q: Seq<RawCommentView>)
    ensures
        kept(q, said_args(attach_args(x, q).0), attach_args(x, q).1),
    decreases x, 1int,
{
    lemma_nothing(q);
    if x.len() > 0 {
        lemma_args(x.drop_last(), q);
        let (init, r) = attach_args(x.drop_last(), q);
        lemma_arg(x.last(), r);
        let (last, t) = attach_arg(x.last(), r);
        lemma_both(q, said_args(init), r, said_arg(last), t);
        assert(init.push(last).drop_last() =~= init);
    }
}

proof fn lemma_stages(x: Seq<StageV>, q: Seq<RawCommentView>)
    ensures
        kept(q, said_stages(attach_stages(x, q).0), attach_stages(x, q).1),
    decreases x, 1int,
{
    lemma_nothing(q);
    if x.len() > 0 {
        lemma_stages(x.drop_last(), q);
        let (init, r) = attach_stages(x.drop_last(), q);
        lemma_stage(x.last(), r);
        let (last, t) = attach_stage(x.last(), r);
        lemma_both(q, said_stages(init), r, said_stage(last), t);
        assert(init.push(last).drop_last() =~= init);
    }
}

proof fn lemma_entries(x: Seq<(ExprV, ExprV)>, q: Seq<RawCommentView>)
    ensures
        kept(q, said_entries(attach_entries(x, q).0), attach_entries(x, q).1),
    decreases x, 1int,
{
    lemma_nothing(q);
    if x.len() > 0 {
        lemma_entries(x.drop_last(), q);
        let (init, r) = attach_entries(x.drop_last(), q);
        assert(decreases_to!(x => x[x.len() - 1]));
        lemma_expr(x.last().0, r);
        let (key, t) = attach_expr(x.last().0, r);
        lemma_both(q, said_entries(init), r, said_expr(key), t);
        lemma_expr(x.last().1, t);
        let (value, u) = attach_expr(x.last().1, t);
        lemma_both(q, said_entries(init) + said_expr(key), t, said_expr(value), u);
        assert(init.push((key, value)).drop_last() =~= init);
    }
}

proof fn lemma_segment(x: SegmentV, q: Seq<RawCommentView>)
    ensures
        kept(q, said_segment(attach_segment(x, q).0), attach_segment(x, q).1),
    decreases x, 1int,
{
    lemma_nothing(q);
    if let SegmentV::Expr(inner) = x {
        lemma_expr(*inner, q);
    }
}

proof fn lemma_arg(x: ArgV, q: Seq<RawCommentView>)
    ensures
        kept(q, said_arg(attach_arg(x, q).0), attach_arg(x, q).1),
    decreases x, 1int,
{
    lemma_expr(x.value, q);
}

proof fn lemma_callee(x: CalleeV, q: Seq<RawCommentView>)
    ensures
        kept(q, said_callee(attach_callee(x, q).0), attach_callee(x, q).1),
    decreases x, 1int,
{
    match x {
        CalleeV::Bare(inner) => {
            lemma_expr(inner, q);
        },
        CalleeV::WithArgs { callee, args } => {
            lemma_expr(*callee, q);
            let (x0, r) = attach_expr(*callee, q);
            lemma_args(args, r);
            let (x1, t) = attach_args(args, r);
            lemma_both(q, said_expr(x0), r, said_args(x1), t);
        },
    }
}

proof fn lemma_stage(x: StageV, q: Seq<RawCommentView>)
    ensures
        kept(q, said_stage(attach_stage(x, q).0), attach_stage(x, q).1),
    decreases x, 1int,
{
    lemma_callee(x.callee, q);
}

proof fn lemma_kind(x: ExprKindV, q: Seq<RawCommentView>)
    ensures
        kept(q, said_kind(attach_kind(x, q).0), attach_kind(x, q).1),
    decreases x, 1int,
{
    lemma_nothing(q);
    match x {
        ExprKindV::FString(segments) => {
            lemma_segments(segments, q);
        },
        ExprKindV::ListLit { elements, .. } => {
            lemma_exprs(elements, q);
        },
        ExprKindV::SetLit { elements, .. } => {
            lemma_exprs(elements, q);
        },
        ExprKindV::TupleLit { elements, .. } => {
            lemma_exprs(elements, q);
        },
        ExprKindV::Par { elements, .. } => {
            lemma_exprs(elements, q);
        },
        ExprKindV::DictLit { entries, .. } => {
            lemma_entries(entries, q);
        },
        ExprKindV::Unary { operand, .. } => {
            lemma_expr(*operand, q);
        },
        ExprKindV::Binary { lhs, rhs, .. } => {
            lemma_expr(*lhs, q);
            let (x0, r) = attach_expr(*lhs, q);
            lemma_expr(*rhs, r);
            let (x1, t) = attach_expr(*rhs, r);
            lemma_both(q, said_expr(x0), r, said_expr(x1), t);
        },
        ExprKindV::Call { callee, args, .. } => {
            lemma_expr(*callee, q);
            let (x0, r) = attach_expr(*callee, q);
            lemma_args(args, r);
            let (x1, t) = attach_args(args, r);
            lemma_both(q, said_expr(x0), r, said_args(x1), t);
        },
        ExprKindV::MethodCall { receiver, args, .. } => {
            lemma_expr(*receiver, q);
            let (x0, r) = attach_expr(*receiver, q);
            lemma_args(args, r);
            let (x1, t) = attach_args(args, r);
            lemma_both(q, said_expr(x0), r, said_args(x1), t);
        },
        ExprKindV::FieldAccess { target, .. } => {
            lemma_expr(*target, q);
        },
        ExprKindV::TupleIndex { target, .. } => {
            lemma_expr(*target, q);
        },
        ExprKindV::Index { target, index } => {
            lemma_expr(*target, q);
            let (x0, r) = attach_expr(*target, q);
            lemma_expr(*index, r);
            let (x1, t) = attach_expr(*index, r);
            lemma_both(q, said_expr(x0), r, said_expr(x1), t);
        },
        ExprKindV::Question { target } => {
            lemma_expr(*target, q);
        },
        ExprKindV::Pipe { source, stages } => {
            lemma_expr(*source, q);
            let (x0, r) = attach_expr(*source, q);
            lemma_stages(stages, r);
            let (x1, t) = attach_stages(stages, r);
            lemma_both(q, said_expr(x0), r, said_stages(x1), t);
        },
        ExprKindV::Lambda { body, .. } => {
            lemma_expr(*body, q);
        },
        ExprKindV::If(i) => {
            lemma_if(*i, q);
        },
        ExprKindV::Match { scrutinee, arms } => {
            lemma_expr(*scrutinee, q);
            let (x0, r) = attach_expr(*scrutinee, q);
            lemma_arms(arms, r);
            let (x1, t) = attach_arms(arms, r);
            lemma_both(q, said_expr(x0), r, said_arms(x1), t);
        },
        ExprKindV::Grouping(e) => {
            lemma_expr(*e, q);
        },
        _ => {},
    }
}

proof fn lemma_if(x: IfV, q: Seq<RawCommentView>)
    ensures
        kept(q, said_if(attach_if(x, q).0), attach_if(x, q).1),
    decreases x, 1int,
{
    lemma_expr(*x.cond, q);
    let (cond, r) = attach_expr(*x.cond, q);
    lemma_block(x.then_branch, r);
    let (yes, t) = attach_block(x.then_branch, r);
    lemma_both(q, said_expr(cond), r, said_block(yes), t);
    lemma_else(x.else_branch, t);
    let (no, u) = attach_else(x.else_branch, t);
    lemma_both(q, said_expr(cond) + said_block(yes), t, said_else(no), u);
}

proof fn lemma_else(x: ElseV, q: Seq<RawCommentView>)
    ensures
        kept(q, said_else(attach_else(x, q).0), attach_else(x, q).1),
    decreases x, 1int,
{
    match x {
        ElseV::Block(b) => {
            lemma_block(b, q);
        },
        ElseV::ElseIf(i) => {
            lemma_if(*i, q);
        },
    }
}

proof fn lemma_arm_body(x: ArmBodyV, q: Seq<RawCommentView>)
    ensures
        kept(q, said_arm_body(attach_arm_body(x, q).0), attach_arm_body(x, q).1),
    decreases x, 1int,
{
    match x {
        ArmBodyV::Expr(e) => {
            lemma_expr(e, q);
        },
        ArmBodyV::Block(b) => {
            lemma_block(b, q);
        },
    }
}

proof fn lemma_arm(x: ArmV, q: Seq<RawCommentView>)
    ensures
        kept(q, said_arm(attach_arm(x, q).0), attach_arm(x, q).1),
    decreases x, 1int,
{
    lemma_leading(q, x.span.start.line);
    let (leading, r) = take_leading(q, x.span.start.line);
    let before = as_leading(leading);
    lemma_trailing(r, x.span.end.line);
    let (trailing, t) = take_trailing(r, x.span.end.line);
    let behind = said_trailing(trailing, x.span.end.line);
    lemma_both(q, before, r, behind, t);
    lemma_arm_body(x.body, t);
    let (body, u) = attach_arm_body(x.body, t);
    lemma_both(q, before + behind, t, said_arm_body(body), u);
}

proof fn lemma_arms(x: Seq<ArmV>, q: Seq<RawCommentView>)
    ensures
        kept(q, said_arms(attach_arms(x, q).0), attach_arms(x, q).1),
    decreases x, 1int,
{
    lemma_nothing(q);
    if x.len() > 0 {
        lemma_arms(x.drop_last(), q);
        let (init, r) = attach_arms(x.drop_last(), q);
        lemma_arm(x.last(), r);
        let (last, t) = attach_arm(x.last(), r);
        lemma_both(q, said_arms(init), r, said_arm(last), t);
        assert(init.push(last).drop_last() =~= init);
    }
}

proof fn lemma_block(x: BlockV, q: Seq<RawCommentView>)
    ensures
        kept(q, said_block(attach_block(x, q).0), attach_block(x, q).1),
    decreases x, 1int,
{
    lemma_stmts(x.stmts, q);
}

proof fn lemma_stmts(x: Seq<StmtV>, q: Seq<RawCommentView>)
    ensures
        kept(q, said_stmts(attach_stmts(x, q).0), attach_stmts(x, q).1),
    decreases x, 1int,
{
    lemma_nothing(q);
    if x.len() > 0 {
        lemma_stmts(x.drop_last(), q);
        let (init, r) = attach_stmts(x.drop_last(), q);
        lemma_stmt(x.last(), r);
        let (last, t) = attach_stmt(x.last(), r);
        lemma_both(q, said_stmts(init), r, said_stmt(last), t);
        assert(init.push(last).drop_last() =~= init);
    }
}

proof fn lemma_stmt(x: StmtV, q: Seq<RawCommentView>)
    ensures
        kept(q, said_stmt(attach_stmt(x, q).0), attach_stmt(x, q).1),
    decreases x, 1int,
{
    lemma_leading(q, x.span.start.line);
    let (leading, r) = take_leading(q, x.span.start.line);
    let before = if x.kind is NameAssign {
        split_doc(leading).1
    } else {
        as_leading(leading)
    };
    lemma_trailing(r, x.span.end.line);
    let (trailing, t) = take_trailing(r, x.span.end.line);
    let behind = said_trailing(trailing, x.span.end.line);
    lemma_both(q, before, r, behind, t);
    lemma_stmt_kind(x.kind, t);
    let (kind, u) = attach_stmt_kind(x.kind, t);
    lemma_both(q, before + behind, t, said_stmt_kind(kind), u);
}

proof fn lemma_stmt_kind(x: StmtKindV, q: Seq<RawCommentView>)
    ensures
        kept(q, said_stmt_kind(attach_stmt_kind(x, q).0), attach_stmt_kind(x, q).1),
    decreases x, 1int,
{
    lemma_nothing(q);
    match x {
        StmtKindV::VarDecl { value, .. } => {
            lemma_expr(value, q);
        },
        StmtKindV::NameAssign { value, .. } => {
            lemma_expr(value, q);
        },
        StmtKindV::FieldAssign { target, value, .. } => {
            lemma_expr(target, q);
            let (x0, r) = attach_expr(target, q);
            lemma_expr(value, r);
            let (x1, t) = attach_expr(value, r);
            lemma_both(q, said_expr(x0), r, said_expr(x1), t);
        },
        StmtKindV::IndexAssign { target, index, value } => {
            lemma_expr(target, q);
            let (x0, r) = attach_expr(target, q);
            lemma_expr(index, r);
            let (x1, t) = attach_expr(index, r);
            lemma_both(q, said_expr(x0), r, said_expr(x1), t);
            lemma_expr(value, t);
            let (x2, u) = attach_expr(value, t);
            lemma_both(q, said_expr(x0) + said_expr(x1), t, said_expr(x2), u);
        },
        StmtKindV::Discard(e) => {
            lemma_expr(e, q);
        },
        StmtKindV::ExprStmt(e) => {
            lemma_expr(e, q);
        },
        StmtKindV::Return(Some(e)) => {
            lemma_expr(e, q);
        },
        StmtKindV::Return(None) => {},
    }
}

proof fn lemma_function(x: FunctionV, q: Seq<RawCommentView>)
    ensures
        kept(q, said_function(attach_function(x, q).0), attach_function(x, q).1),
{
    lemma_leading(q, x.span.start.line);
    let (leading, r) = take_leading(q, x.span.start.line);
    let before = split_doc(leading).1;
    lemma_block(x.body, r);
    let (body, t) = attach_block(x.body, r);
    lemma_both(q, before, r, said_block(body), t);
}

proof fn lemma_functions(x: Seq<FunctionV>, q: Seq<RawCommentView>)
    ensures
        kept(q, said_functions(attach_functions(x, q).0), attach_functions(x, q).1),
    decreases x.len(),
{
    lemma_nothing(q);
    if x.len() > 0 {
        lemma_functions(x.drop_last(), q);
        let (init, r) = attach_functions(x.drop_last(), q);
        lemma_function(x.last(), r);
        let (last, t) = attach_function(x.last(), r);
        lemma_both(q, said_functions(init), r, said_function(last), t);
        assert(init.push(last).drop_last() =~= init);
    }
}

proof fn lemma_fields(x: Seq<ParamV>, q: Seq<RawCommentView>)
    ensures
        kept(
            q,
            said_fields(x, attach_fields(x, q).0, attach_fields(x, q).1),
            attach_fields(x, q).2,
        ),
    decreases x.len(),
{
    lemma_nothing(q);
    if x.len() > 0 {
        lemma_fields(x.drop_last(), q);
        let (leads, trails, r) = attach_fields(x.drop_last(), q);
        let so_far = said_fields(x.drop_last(), leads, trails);
        let line = x.last().span.start.line;
        let end = x.last().span.end.line;
        lemma_leading(r, line);
        let (leading, t) = take_leading(r, line);
        lemma_both(q, so_far, r, as_leading(leading), t);
        lemma_trailing(t, end);
        let (trailing, u) = take_trailing(t, end);
        lemma_both(q, so_far + as_leading(leading), t, said_trailing(trailing, end), u);
        assert(leads.push(as_leading(leading)).drop_last() =~= leads);
        assert(trails.push(trailing).drop_last() =~= trails);
    }
}

proof fn lemma_struct(x: StructV, q: Seq<RawCommentView>)
    ensures
        kept(q, said_struct(attach_struct(x, q).0), attach_struct(x, q).1),
{
    lemma_leading(q, x.span.start.line);
    let (leading, r) = take_leading(q, x.span.start.line);
    let before = split_doc(leading).1;
    lemma_fields(x.fields, r);
    let (leads, trails, t) = attach_fields(x.fields, r);
    lemma_both(q, before, r, said_fields(x.fields, leads, trails), t);
    lemma_functions(x.methods, t);
    let (methods, u) = attach_functions(x.methods, t);
    lemma_both(q, before + said_fields(x.fields, leads, trails), t, said_functions(methods), u);
}

proof fn lemma_variant(x: VariantV, q: Seq<RawCommentView>)
    ensures
        kept(q, said_variant(attach_variant(x, q).0), attach_variant(x, q).1),
{
    lemma_leading(q, x.span.start.line);
    let (leading, r) = take_leading(q, x.span.start.line);
    let before = as_leading(leading);
    lemma_trailing(r, x.span.end.line);
    let (trailing, t) = take_trailing(r, x.span.end.line);
    let behind = said_trailing(trailing, x.span.end.line);
    lemma_both(q, before, r, behind, t);
}

proof fn lemma_variants(x: Seq<VariantV>, q: Seq<RawCommentView>)
    ensures
        kept(q, said_variants(attach_variants(x, q).0), attach_variants(x, q).1),
    decreases x.len(),
{
    lemma_nothing(q);
    if x.len() > 0 {
        lemma_variants(x.drop_last(), q);
        let (init, r) = attach_variants(x.drop_last(), q);
        lemma_variant(x.last(), r);
        let (last, t) = attach_variant(x.last(), r);
        lemma_both(q, said_variants(init), r, said_variant(last), t);
        assert(init.push(last).drop_last() =~= init);
    }
}

proof fn lemma_enum(x: EnumV, q: Seq<RawCommentView>)
    ensures
        kept(q, said_enum(attach_enum(x, q).0), attach_enum(x, q).1),
{
    lemma_leading(q, x.span.start.line);
    let (leading, r) = take_leading(q, x.span.start.line);
    let before = split_doc(leading).1;
    lemma_variants(x.variants, r);
    let (variants, t) = attach_variants(x.variants, r);
    lemma_both(q, before, r, said_variants(variants), t);
}

proof fn lemma_item(x: ItemV, q: Seq<RawCommentView>)
    ensures
        kept(q, said_item(attach_item(x, q).0), attach_item(x, q).1),
{
    match x {
        ItemV::Decl(DeclV::Function(f)) => {
            lemma_function(f, q);
        },
        ItemV::Decl(DeclV::Struct(s)) => {
            lemma_struct(s, q);
        },
        ItemV::Decl(DeclV::Enum(e)) => {
            lemma_enum(e, q);
        },
        ItemV::Stmt(s) => {
            lemma_stmt(s, q);
        },
    }
}

proof fn lemma_items(x: Seq<ItemV>, q: Seq<RawCommentView>)
    ensures
        kept(q, said_items(attach_items(x, q).0), attach_items(x, q).1),
    decreases x.len(),
{
    lemma_nothing(q);
    if x.len() > 0 {
        lemma_items(x.drop_last(), q);
        let (init, r) = attach_items(x.drop_last(), q);
        lemma_item(x.last(), r);
        let (last, t) = attach_item(x.last(), r);
        lemma_both(q, said_items(init), r, said_item(last), t);
        assert(init.push(last).drop_last() =~= init);
    }
}

/// No comment is lost, and none is said twice: what the comments of a module say is what was
/// there to attach, in its order and with its lines, but for the lines of documentation that
/// became the documentation of something.
pub proof fn law_no_comment_is_lost(m: ModuleV, q: Seq<RawCommentView>)
    ensures
        sifted(q, said_module(attach_module(m, q))),
{
    lemma_items(m.items, q);
    let (items, r) = attach_items(m.items, q);
    lemma_all_said(r);
    assert(q.take(q.len() - r.len()) + r =~= q);
    lemma_sifted_join(q.take(q.len() - r.len()), said_items(items), r, as_leading(r));
}

proof fn lemma_ordinary(q: Seq<RawCommentView>, out: Seq<LeadingV>)
    requires
        sifted(q, out),
        forall|i: int| 0 <= i < q.len() ==> !(#[trigger] q[i]).is_doc,
    ensures
        out == as_leading(q),
    decreases q.len(),
{
    if q.len() > 0 {
        assert(!q[0].is_doc);
        lemma_ordinary(q.drop_first(), out.drop_first());
        assert(out =~= seq![out[0]] + out.drop_first());
        assert(out =~= as_leading(q));
    } else {
        assert(out =~= as_leading(q));
    }
}

/// Where no comment is documentation, a module says all of them, and nothing else.
pub proof fn law_ordinary_comments_stay_as_they_are(m: ModuleV, q: Seq<RawCommentView>)
    requires
        forall|i: int| 0 <= i < q.len() ==> !(#[trigger] q[i]).is_doc,
    ensures
        said_module(attach_module(m, q)) == as_leading(q),
{
    law_no_comment_is_lost(m, q);
    lemma_ordinary(q, said_module(attach_module(m, q)));
}

} // verus!
