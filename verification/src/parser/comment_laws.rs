//! What holds of the comments that nodes get.

use super::comments::{
    as_leading, attach_arg, attach_args, attach_arm, attach_arm_body, attach_arms, attach_block,
    attach_callee, attach_else, attach_entries, attach_enum, attach_expr, attach_exprs,
    attach_fields, attach_function, attach_functions, attach_if, attach_item, attach_items,
    attach_kind, attach_module, attach_segment, attach_segments, attach_stage, attach_stages,
    attach_stmt, attach_stmt_kind, attach_stmts, attach_struct, attach_variant, attach_variants,
    leading_count, take_leading, take_trailing,
};
use crate::ast::{
    ArgV, ArmBodyV, ArmV, BinaryOp, BlockV, CalleeV, DeclV, ElseV, EnumV, ExprKindV, ExprV,
    FunctionV, IfV, ItemV, LambdaParamV, ModuleV, ParKind, ParamV, SegmentV, StageV, StmtKindV,
    StmtV, StructV, TypeV, UnaryOp, VariantV,
};
use crate::lexer::RawCommentView;
use vstd::prelude::*;

verus! {

pub open spec fn no_comments() -> Seq<RawCommentView> {
    Seq::empty()
}

/// A module without its comments.
pub open spec fn uncommented(m: ModuleV) -> ModuleV {
    attach_module(m, no_comments())
}

/// What is left of a queue once some were taken from its front.
pub open spec fn is_rest(r: Seq<RawCommentView>, q: Seq<RawCommentView>) -> bool {
    r.len() <= q.len() && r == q.skip(q.len() - r.len())
}

proof fn lemma_rest(a: Seq<RawCommentView>, b: Seq<RawCommentView>, c: Seq<RawCommentView>)
    requires
        is_rest(b, a),
        is_rest(c, b),
    ensures
        is_rest(c, a),
{
    assert(c =~= a.skip(a.len() - c.len()));
}

proof fn lemma_rest_itself(q: Seq<RawCommentView>)
    ensures
        is_rest(q, q),
{
    assert(q =~= q.skip(0));
}

proof fn lemma_count(q: Seq<RawCommentView>, line: u32)
    ensures
        leading_count(q, line) <= q.len(),
    decreases q.len(),
{
    if q.len() > 0 {
        lemma_count(q.drop_first(), line);
    }
}

proof fn lemma_taken(q: Seq<RawCommentView>, line: u32)
    ensures
        take_leading(no_comments(), line) == (no_comments(), no_comments()),
        take_trailing(no_comments(), line) == (None::<Seq<char>>, no_comments()),
        is_rest(take_leading(q, line).1, q),
        is_rest(take_trailing(q, line).1, q),
{
    reveal(take_leading);
    reveal(take_trailing);
    let e = no_comments();
    assert(e.take(0) =~= e);
    assert(e.skip(0) =~= e);
    lemma_count(q, line);
    lemma_rest_itself(q);
    if q.len() > 0 {
        assert(q.drop_first() =~= q.skip(1));
    }
}

proof fn lemma_expr(x: ExprV, q: Seq<RawCommentView>)
    ensures
        attach_expr(attach_expr(x, q).0, no_comments()) == attach_expr(x, no_comments()),
        attach_expr(x, no_comments()).1 == no_comments(),
        is_rest(attach_expr(x, q).1, q),
    decreases x, 1int,
{
    lemma_kind(x.kind, q);
}

proof fn lemma_exprs_push(init: Seq<ExprV>, last: ExprV, q: Seq<RawCommentView>)
    ensures
        attach_exprs(init.push(last), q) == (
            attach_exprs(init, q).0.push(attach_expr(last, attach_exprs(init, q).1).0),
            attach_expr(last, attach_exprs(init, q).1).1,
        ),
{
    assert(init.push(last).drop_last() =~= init);
}

proof fn lemma_exprs(x: Seq<ExprV>, q: Seq<RawCommentView>)
    ensures
        attach_exprs(attach_exprs(x, q).0, no_comments()) == attach_exprs(x, no_comments()),
        attach_exprs(x, no_comments()).1 == no_comments(),
        is_rest(attach_exprs(x, q).1, q),
    decreases x, 1int,
{
    lemma_rest_itself(q);
    if x.len() > 0 {
        lemma_exprs(x.drop_last(), q);
        let (init, r) = attach_exprs(x.drop_last(), q);
        lemma_expr(x.last(), r);
        let (last, t) = attach_expr(x.last(), r);
        lemma_rest(q, r, t);
        assert(x =~= x.drop_last().push(x.last()));
        lemma_exprs_push(x.drop_last(), x.last(), q);
        lemma_exprs_push(x.drop_last(), x.last(), no_comments());
        lemma_exprs_push(init, last, no_comments());
    }
}

proof fn lemma_entries(x: Seq<(ExprV, ExprV)>, q: Seq<RawCommentView>)
    ensures
        attach_entries(attach_entries(x, q).0, no_comments()) == attach_entries(x, no_comments()),
        attach_entries(x, no_comments()).1 == no_comments(),
        is_rest(attach_entries(x, q).1, q),
    decreases x, 1int,
{
    lemma_rest_itself(q);
    if x.len() > 0 {
        lemma_entries(x.drop_last(), q);
        let (init, r) = attach_entries(x.drop_last(), q);
        assert(decreases_to!(x => x[x.len() - 1]));
        lemma_expr(x.last().0, r);
        let (key, t) = attach_expr(x.last().0, r);
        lemma_rest(q, r, t);
        lemma_expr(x.last().1, t);
        let (value, u) = attach_expr(x.last().1, t);
        lemma_rest(q, t, u);
        assert(init.push((key, value)).drop_last() =~= init);
    }
}

proof fn lemma_segments_push(init: Seq<SegmentV>, last: SegmentV, q: Seq<RawCommentView>)
    ensures
        attach_segments(init.push(last), q) == (
            attach_segments(init, q).0.push(attach_segment(last, attach_segments(init, q).1).0),
            attach_segment(last, attach_segments(init, q).1).1,
        ),
{
    assert(init.push(last).drop_last() =~= init);
}

proof fn lemma_segments(x: Seq<SegmentV>, q: Seq<RawCommentView>)
    ensures
        attach_segments(attach_segments(x, q).0, no_comments()) == attach_segments(
            x,
            no_comments(),
        ),
        attach_segments(x, no_comments()).1 == no_comments(),
        is_rest(attach_segments(x, q).1, q),
    decreases x, 1int,
{
    lemma_rest_itself(q);
    if x.len() > 0 {
        lemma_segments(x.drop_last(), q);
        let (init, r) = attach_segments(x.drop_last(), q);
        lemma_segment(x.last(), r);
        let (last, t) = attach_segment(x.last(), r);
        lemma_rest(q, r, t);
        assert(x =~= x.drop_last().push(x.last()));
        lemma_segments_push(x.drop_last(), x.last(), q);
        lemma_segments_push(x.drop_last(), x.last(), no_comments());
        lemma_segments_push(init, last, no_comments());
    }
}

proof fn lemma_segment(x: SegmentV, q: Seq<RawCommentView>)
    ensures
        attach_segment(attach_segment(x, q).0, no_comments()) == attach_segment(x, no_comments()),
        attach_segment(x, no_comments()).1 == no_comments(),
        is_rest(attach_segment(x, q).1, q),
    decreases x, 1int,
{
    lemma_rest_itself(q);
    if let SegmentV::Expr(inner) = x {
        lemma_expr(*inner, q);
    }
}

proof fn lemma_arg(x: ArgV, q: Seq<RawCommentView>)
    ensures
        attach_arg(attach_arg(x, q).0, no_comments()) == attach_arg(x, no_comments()),
        attach_arg(x, no_comments()).1 == no_comments(),
        is_rest(attach_arg(x, q).1, q),
    decreases x, 1int,
{
    lemma_expr(x.value, q);
}

proof fn lemma_args_push(init: Seq<ArgV>, last: ArgV, q: Seq<RawCommentView>)
    ensures
        attach_args(init.push(last), q) == (
            attach_args(init, q).0.push(attach_arg(last, attach_args(init, q).1).0),
            attach_arg(last, attach_args(init, q).1).1,
        ),
{
    assert(init.push(last).drop_last() =~= init);
}

proof fn lemma_args(x: Seq<ArgV>, q: Seq<RawCommentView>)
    ensures
        attach_args(attach_args(x, q).0, no_comments()) == attach_args(x, no_comments()),
        attach_args(x, no_comments()).1 == no_comments(),
        is_rest(attach_args(x, q).1, q),
    decreases x, 1int,
{
    lemma_rest_itself(q);
    if x.len() > 0 {
        lemma_args(x.drop_last(), q);
        let (init, r) = attach_args(x.drop_last(), q);
        lemma_arg(x.last(), r);
        let (last, t) = attach_arg(x.last(), r);
        lemma_rest(q, r, t);
        assert(x =~= x.drop_last().push(x.last()));
        lemma_args_push(x.drop_last(), x.last(), q);
        lemma_args_push(x.drop_last(), x.last(), no_comments());
        lemma_args_push(init, last, no_comments());
    }
}

proof fn lemma_callee(x: CalleeV, q: Seq<RawCommentView>)
    ensures
        attach_callee(attach_callee(x, q).0, no_comments()) == attach_callee(x, no_comments()),
        attach_callee(x, no_comments()).1 == no_comments(),
        is_rest(attach_callee(x, q).1, q),
    decreases x, 1int,
{
    match x {
        CalleeV::Bare(inner) => {
            lemma_expr(inner, q);
        },
        CalleeV::WithArgs { callee, args } => {
            lemma_expr(*callee, q);
            let r = attach_expr(*callee, q).1;
            lemma_args(args, r);
            let t = attach_args(args, r).1;
            lemma_rest(q, r, t);
        },
    }
}

proof fn lemma_stage(x: StageV, q: Seq<RawCommentView>)
    ensures
        attach_stage(attach_stage(x, q).0, no_comments()) == attach_stage(x, no_comments()),
        attach_stage(x, no_comments()).1 == no_comments(),
        is_rest(attach_stage(x, q).1, q),
    decreases x, 1int,
{
    lemma_callee(x.callee, q);
}

proof fn lemma_stages_push(init: Seq<StageV>, last: StageV, q: Seq<RawCommentView>)
    ensures
        attach_stages(init.push(last), q) == (
            attach_stages(init, q).0.push(attach_stage(last, attach_stages(init, q).1).0),
            attach_stage(last, attach_stages(init, q).1).1,
        ),
{
    assert(init.push(last).drop_last() =~= init);
}

proof fn lemma_stages(x: Seq<StageV>, q: Seq<RawCommentView>)
    ensures
        attach_stages(attach_stages(x, q).0, no_comments()) == attach_stages(x, no_comments()),
        attach_stages(x, no_comments()).1 == no_comments(),
        is_rest(attach_stages(x, q).1, q),
    decreases x, 1int,
{
    lemma_rest_itself(q);
    if x.len() > 0 {
        lemma_stages(x.drop_last(), q);
        let (init, r) = attach_stages(x.drop_last(), q);
        lemma_stage(x.last(), r);
        let (last, t) = attach_stage(x.last(), r);
        lemma_rest(q, r, t);
        assert(x =~= x.drop_last().push(x.last()));
        lemma_stages_push(x.drop_last(), x.last(), q);
        lemma_stages_push(x.drop_last(), x.last(), no_comments());
        lemma_stages_push(init, last, no_comments());
    }
}

/// Comments are all that the parts of an expression get, and they are taken in order.
spec fn kind_keeps(x: ExprKindV, q: Seq<RawCommentView>) -> bool {
    &&& attach_kind(attach_kind(x, q).0, no_comments()) == attach_kind(x, no_comments())
    &&& attach_kind(x, no_comments()).1 == no_comments()
    &&& is_rest(attach_kind(x, q).1, q)
}

proof fn lemma_fstring(segments: Seq<SegmentV>, q: Seq<RawCommentView>)
    ensures
        kind_keeps(ExprKindV::FString(segments), q),
    decreases (ExprKindV::FString(segments)), 0int,
{
    let x = ExprKindV::FString(segments);
    lemma_rest_itself(q);
    assert(decreases_to!(x => x->FString_0));
    lemma_segments(segments, q);
}

proof fn lemma_list(elements: Seq<ExprV>, was_multiline: bool, q: Seq<RawCommentView>)
    ensures
        kind_keeps(ExprKindV::ListLit { elements, was_multiline }, q),
    decreases (ExprKindV::ListLit { elements, was_multiline }), 0int,
{
    let x = ExprKindV::ListLit { elements, was_multiline };
    lemma_rest_itself(q);
    assert(decreases_to!(x => x->ListLit_elements));
    lemma_exprs(elements, q);
}

proof fn lemma_set(elements: Seq<ExprV>, was_multiline: bool, q: Seq<RawCommentView>)
    ensures
        kind_keeps(ExprKindV::SetLit { elements, was_multiline }, q),
    decreases (ExprKindV::SetLit { elements, was_multiline }), 0int,
{
    let x = ExprKindV::SetLit { elements, was_multiline };
    lemma_rest_itself(q);
    assert(decreases_to!(x => x->SetLit_elements));
    lemma_exprs(elements, q);
}

proof fn lemma_tuple(elements: Seq<ExprV>, was_multiline: bool, q: Seq<RawCommentView>)
    ensures
        kind_keeps(ExprKindV::TupleLit { elements, was_multiline }, q),
    decreases (ExprKindV::TupleLit { elements, was_multiline }), 0int,
{
    let x = ExprKindV::TupleLit { elements, was_multiline };
    lemma_rest_itself(q);
    assert(decreases_to!(x => x->TupleLit_elements));
    lemma_exprs(elements, q);
}

proof fn lemma_par(kind: ParKind, elements: Seq<ExprV>, q: Seq<RawCommentView>)
    ensures
        kind_keeps(ExprKindV::Par { kind, elements }, q),
    decreases (ExprKindV::Par { kind, elements }), 0int,
{
    let x = ExprKindV::Par { kind, elements };
    lemma_rest_itself(q);
    assert(decreases_to!(x => x->Par_elements));
    lemma_exprs(elements, q);
}

proof fn lemma_dict(entries: Seq<(ExprV, ExprV)>, was_multiline: bool, q: Seq<RawCommentView>)
    ensures
        kind_keeps(ExprKindV::DictLit { entries, was_multiline }, q),
    decreases (ExprKindV::DictLit { entries, was_multiline }), 0int,
{
    let x = ExprKindV::DictLit { entries, was_multiline };
    lemma_rest_itself(q);
    assert(decreases_to!(x => x->DictLit_entries));
    lemma_entries(entries, q);
}

proof fn lemma_unary(op: UnaryOp, operand: Box<ExprV>, q: Seq<RawCommentView>)
    ensures
        kind_keeps(ExprKindV::Unary { op, operand }, q),
    decreases (ExprKindV::Unary { op, operand }), 0int,
{
    let x = ExprKindV::Unary { op, operand };
    lemma_rest_itself(q);
    assert(decreases_to!(x => x->Unary_operand));
    lemma_expr(*operand, q);
}

proof fn lemma_binary(op: BinaryOp, lhs: Box<ExprV>, rhs: Box<ExprV>, q: Seq<RawCommentView>)
    ensures
        kind_keeps(ExprKindV::Binary { op, lhs, rhs }, q),
    decreases (ExprKindV::Binary { op, lhs, rhs }), 0int,
{
    let x = ExprKindV::Binary { op, lhs, rhs };
    lemma_rest_itself(q);
    assert(decreases_to!(x => x->Binary_lhs));
    assert(decreases_to!(x => x->Binary_rhs));
    lemma_expr(*lhs, q);
    let r = attach_expr(*lhs, q).1;
    lemma_expr(*rhs, r);
    let t = attach_expr(*rhs, r).1;
    lemma_rest(q, r, t);
}

proof fn lemma_call(
    callee: Box<ExprV>,
    type_args: Seq<TypeV>,
    args: Seq<ArgV>,
    was_multiline: bool,
    q: Seq<RawCommentView>,
)
    ensures
        kind_keeps(ExprKindV::Call { callee, type_args, args, was_multiline }, q),
    decreases (ExprKindV::Call { callee, type_args, args, was_multiline }), 0int,
{
    let x = ExprKindV::Call { callee, type_args, args, was_multiline };
    lemma_rest_itself(q);
    assert(decreases_to!(x => x->Call_callee));
    assert(decreases_to!(x => x->Call_args));
    lemma_expr(*callee, q);
    let r = attach_expr(*callee, q).1;
    lemma_args(args, r);
    let t = attach_args(args, r).1;
    lemma_rest(q, r, t);
}

proof fn lemma_method_call(
    receiver: Box<ExprV>,
    method: Seq<char>,
    type_args: Seq<TypeV>,
    args: Seq<ArgV>,
    was_multiline: bool,
    q: Seq<RawCommentView>,
)
    ensures
        kind_keeps(ExprKindV::MethodCall { receiver, method, type_args, args, was_multiline }, q),
    decreases (ExprKindV::MethodCall { receiver, method, type_args, args, was_multiline }), 0int,
{
    let x = ExprKindV::MethodCall { receiver, method, type_args, args, was_multiline };
    lemma_rest_itself(q);
    assert(decreases_to!(x => x->MethodCall_receiver));
    assert(decreases_to!(x => x->MethodCall_args));
    lemma_expr(*receiver, q);
    let r = attach_expr(*receiver, q).1;
    lemma_args(args, r);
    let t = attach_args(args, r).1;
    lemma_rest(q, r, t);
}

proof fn lemma_field(target: Box<ExprV>, field: Seq<char>, q: Seq<RawCommentView>)
    ensures
        kind_keeps(ExprKindV::FieldAccess { target, field }, q),
    decreases (ExprKindV::FieldAccess { target, field }), 0int,
{
    let x = ExprKindV::FieldAccess { target, field };
    lemma_rest_itself(q);
    assert(decreases_to!(x => x->FieldAccess_target));
    lemma_expr(*target, q);
}

proof fn lemma_tuple_index(target: Box<ExprV>, index: u32, q: Seq<RawCommentView>)
    ensures
        kind_keeps(ExprKindV::TupleIndex { target, index }, q),
    decreases (ExprKindV::TupleIndex { target, index }), 0int,
{
    let x = ExprKindV::TupleIndex { target, index };
    lemma_rest_itself(q);
    assert(decreases_to!(x => x->TupleIndex_target));
    lemma_expr(*target, q);
}

proof fn lemma_index(target: Box<ExprV>, index: Box<ExprV>, q: Seq<RawCommentView>)
    ensures
        kind_keeps(ExprKindV::Index { target, index }, q),
    decreases (ExprKindV::Index { target, index }), 0int,
{
    let x = ExprKindV::Index { target, index };
    lemma_rest_itself(q);
    assert(decreases_to!(x => x->Index_target));
    assert(decreases_to!(x => x->Index_index));
    lemma_expr(*target, q);
    let r = attach_expr(*target, q).1;
    lemma_expr(*index, r);
    let t = attach_expr(*index, r).1;
    lemma_rest(q, r, t);
}

proof fn lemma_question(target: Box<ExprV>, q: Seq<RawCommentView>)
    ensures
        kind_keeps(ExprKindV::Question { target }, q),
    decreases (ExprKindV::Question { target }), 0int,
{
    let x = ExprKindV::Question { target };
    lemma_rest_itself(q);
    assert(decreases_to!(x => x->Question_target));
    lemma_expr(*target, q);
}

proof fn lemma_pipe(source: Box<ExprV>, stages: Seq<StageV>, q: Seq<RawCommentView>)
    ensures
        kind_keeps(ExprKindV::Pipe { source, stages }, q),
    decreases (ExprKindV::Pipe { source, stages }), 0int,
{
    let x = ExprKindV::Pipe { source, stages };
    lemma_rest_itself(q);
    assert(decreases_to!(x => x->Pipe_source));
    assert(decreases_to!(x => x->Pipe_stages));
    lemma_expr(*source, q);
    let r = attach_expr(*source, q).1;
    lemma_stages(stages, r);
    let t = attach_stages(stages, r).1;
    lemma_rest(q, r, t);
}

proof fn lemma_lambda(params: Seq<LambdaParamV>, body: Box<ExprV>, q: Seq<RawCommentView>)
    ensures
        kind_keeps(ExprKindV::Lambda { params, body }, q),
    decreases (ExprKindV::Lambda { params, body }), 0int,
{
    let x = ExprKindV::Lambda { params, body };
    lemma_rest_itself(q);
    assert(decreases_to!(x => x->Lambda_body));
    lemma_expr(*body, q);
}

proof fn lemma_if_kind(i: Box<IfV>, q: Seq<RawCommentView>)
    ensures
        kind_keeps(ExprKindV::If(i), q),
    decreases (ExprKindV::If(i)), 0int,
{
    let x = ExprKindV::If(i);
    lemma_rest_itself(q);
    assert(decreases_to!(x => x->If_0));
    lemma_if(*i, q);
}

proof fn lemma_match(scrutinee: Box<ExprV>, arms: Seq<ArmV>, q: Seq<RawCommentView>)
    ensures
        kind_keeps(ExprKindV::Match { scrutinee, arms }, q),
    decreases (ExprKindV::Match { scrutinee, arms }), 0int,
{
    let x = ExprKindV::Match { scrutinee, arms };
    lemma_rest_itself(q);
    assert(decreases_to!(x => x->Match_scrutinee));
    assert(decreases_to!(x => x->Match_arms));
    lemma_expr(*scrutinee, q);
    let r = attach_expr(*scrutinee, q).1;
    lemma_arms(arms, r);
    let t = attach_arms(arms, r).1;
    lemma_rest(q, r, t);
}

proof fn lemma_grouping(inner: Box<ExprV>, q: Seq<RawCommentView>)
    ensures
        kind_keeps(ExprKindV::Grouping(inner), q),
    decreases (ExprKindV::Grouping(inner)), 0int,
{
    let x = ExprKindV::Grouping(inner);
    lemma_rest_itself(q);
    assert(decreases_to!(x => x->Grouping_0));
    lemma_expr(*inner, q);
}

proof fn lemma_kind(x: ExprKindV, q: Seq<RawCommentView>)
    ensures
        attach_kind(attach_kind(x, q).0, no_comments()) == attach_kind(x, no_comments()),
        attach_kind(x, no_comments()).1 == no_comments(),
        is_rest(attach_kind(x, q).1, q),
    decreases x, 1int,
{
    lemma_rest_itself(q);
    match x {
        ExprKindV::FString(segments) => lemma_fstring(segments, q),
        ExprKindV::ListLit { elements, was_multiline } => lemma_list(elements, was_multiline, q),
        ExprKindV::SetLit { elements, was_multiline } => lemma_set(elements, was_multiline, q),
        ExprKindV::TupleLit { elements, was_multiline } => lemma_tuple(elements, was_multiline, q),
        ExprKindV::Par { kind, elements } => lemma_par(kind, elements, q),
        ExprKindV::DictLit { entries, was_multiline } => lemma_dict(entries, was_multiline, q),
        ExprKindV::Unary { op, operand } => lemma_unary(op, operand, q),
        ExprKindV::Binary { op, lhs, rhs } => lemma_binary(op, lhs, rhs, q),
        ExprKindV::Call { callee, type_args, args, was_multiline } => {
            lemma_call(callee, type_args, args, was_multiline, q);
        },
        ExprKindV::MethodCall { receiver, method, type_args, args, was_multiline } => {
            lemma_method_call(receiver, method, type_args, args, was_multiline, q);
        },
        ExprKindV::FieldAccess { target, field } => lemma_field(target, field, q),
        ExprKindV::TupleIndex { target, index } => lemma_tuple_index(target, index, q),
        ExprKindV::Index { target, index } => lemma_index(target, index, q),
        ExprKindV::Question { target } => lemma_question(target, q),
        ExprKindV::Pipe { source, stages } => lemma_pipe(source, stages, q),
        ExprKindV::Lambda { params, body } => lemma_lambda(params, body, q),
        ExprKindV::If(i) => lemma_if_kind(i, q),
        ExprKindV::Match { scrutinee, arms } => lemma_match(scrutinee, arms, q),
        ExprKindV::Grouping(inner) => lemma_grouping(inner, q),
        _ => {},
    }
}

proof fn lemma_if(x: IfV, q: Seq<RawCommentView>)
    ensures
        attach_if(attach_if(x, q).0, no_comments()) == attach_if(x, no_comments()),
        attach_if(x, no_comments()).1 == no_comments(),
        is_rest(attach_if(x, q).1, q),
    decreases x, 1int,
{
    lemma_expr(*x.cond, q);
    let r = attach_expr(*x.cond, q).1;
    lemma_block(x.then_branch, r);
    let t = attach_block(x.then_branch, r).1;
    lemma_rest(q, r, t);
    lemma_else(x.else_branch, t);
    let u = attach_else(x.else_branch, t).1;
    lemma_rest(q, t, u);
}

proof fn lemma_else(x: ElseV, q: Seq<RawCommentView>)
    ensures
        attach_else(attach_else(x, q).0, no_comments()) == attach_else(x, no_comments()),
        attach_else(x, no_comments()).1 == no_comments(),
        is_rest(attach_else(x, q).1, q),
    decreases x, 1int,
{
    match x {
        ElseV::Block(b) => {
            lemma_block(b, q);
        },
        ElseV::ElseIf(i) => {
            lemma_if(*i, q);
        },
    }
}

proof fn lemma_arm_body(x: ArmBodyV, q: Seq<RawCommentView>)
    ensures
        attach_arm_body(attach_arm_body(x, q).0, no_comments()) == attach_arm_body(
            x,
            no_comments(),
        ),
        attach_arm_body(x, no_comments()).1 == no_comments(),
        is_rest(attach_arm_body(x, q).1, q),
    decreases x, 1int,
{
    match x {
        ArmBodyV::Expr(inner) => {
            lemma_expr(inner, q);
        },
        ArmBodyV::Block(b) => {
            lemma_block(b, q);
        },
    }
}

proof fn lemma_arm(x: ArmV, q: Seq<RawCommentView>)
    ensures
        attach_arm(attach_arm(x, q).0, no_comments()) == attach_arm(x, no_comments()),
        attach_arm(x, no_comments()).1 == no_comments(),
        is_rest(attach_arm(x, q).1, q),
    decreases x, 1int,
{
    lemma_taken(q, x.span.start.line);
    let r = take_leading(q, x.span.start.line).1;
    lemma_taken(r, x.span.end.line);
    let t = take_trailing(r, x.span.end.line).1;
    lemma_rest(q, r, t);
    lemma_arm_body(x.body, t);
    lemma_rest(q, t, attach_arm_body(x.body, t).1);
}

proof fn lemma_arms_push(init: Seq<ArmV>, last: ArmV, q: Seq<RawCommentView>)
    ensures
        attach_arms(init.push(last), q) == (
            attach_arms(init, q).0.push(attach_arm(last, attach_arms(init, q).1).0),
            attach_arm(last, attach_arms(init, q).1).1,
        ),
{
    assert(init.push(last).drop_last() =~= init);
}

proof fn lemma_arms(x: Seq<ArmV>, q: Seq<RawCommentView>)
    ensures
        attach_arms(attach_arms(x, q).0, no_comments()) == attach_arms(x, no_comments()),
        attach_arms(x, no_comments()).1 == no_comments(),
        is_rest(attach_arms(x, q).1, q),
    decreases x, 1int,
{
    lemma_rest_itself(q);
    if x.len() > 0 {
        lemma_arms(x.drop_last(), q);
        let (init, r) = attach_arms(x.drop_last(), q);
        lemma_arm(x.last(), r);
        let (last, t) = attach_arm(x.last(), r);
        lemma_rest(q, r, t);
        assert(x =~= x.drop_last().push(x.last()));
        lemma_arms_push(x.drop_last(), x.last(), q);
        lemma_arms_push(x.drop_last(), x.last(), no_comments());
        lemma_arms_push(init, last, no_comments());
    }
}

proof fn lemma_block(x: BlockV, q: Seq<RawCommentView>)
    ensures
        attach_block(attach_block(x, q).0, no_comments()) == attach_block(x, no_comments()),
        attach_block(x, no_comments()).1 == no_comments(),
        is_rest(attach_block(x, q).1, q),
    decreases x, 1int,
{
    lemma_stmts(x.stmts, q);
}

proof fn lemma_stmts_push(init: Seq<StmtV>, last: StmtV, q: Seq<RawCommentView>)
    ensures
        attach_stmts(init.push(last), q) == (
            attach_stmts(init, q).0.push(attach_stmt(last, attach_stmts(init, q).1).0),
            attach_stmt(last, attach_stmts(init, q).1).1,
        ),
{
    assert(init.push(last).drop_last() =~= init);
}

proof fn lemma_stmts(x: Seq<StmtV>, q: Seq<RawCommentView>)
    ensures
        attach_stmts(attach_stmts(x, q).0, no_comments()) == attach_stmts(x, no_comments()),
        attach_stmts(x, no_comments()).1 == no_comments(),
        is_rest(attach_stmts(x, q).1, q),
    decreases x, 1int,
{
    lemma_rest_itself(q);
    if x.len() > 0 {
        lemma_stmts(x.drop_last(), q);
        let (init, r) = attach_stmts(x.drop_last(), q);
        lemma_stmt(x.last(), r);
        let (last, t) = attach_stmt(x.last(), r);
        lemma_rest(q, r, t);
        assert(x =~= x.drop_last().push(x.last()));
        lemma_stmts_push(x.drop_last(), x.last(), q);
        lemma_stmts_push(x.drop_last(), x.last(), no_comments());
        lemma_stmts_push(init, last, no_comments());
    }
}

proof fn lemma_stmt(x: StmtV, q: Seq<RawCommentView>)
    ensures
        attach_stmt(attach_stmt(x, q).0, no_comments()) == attach_stmt(x, no_comments()),
        attach_stmt(x, no_comments()).1 == no_comments(),
        is_rest(attach_stmt(x, q).1, q),
    decreases x, 1int,
{
    lemma_taken(q, x.span.start.line);
    let r = take_leading(q, x.span.start.line).1;
    lemma_taken(r, x.span.end.line);
    let t = take_trailing(r, x.span.end.line).1;
    lemma_rest(q, r, t);
    lemma_stmt_kind(x.kind, t);
    lemma_rest(q, t, attach_stmt_kind(x.kind, t).1);
}

/// Comments are all that the parts of a statement get, and they are taken in order.
spec fn stmt_kind_keeps(x: StmtKindV, q: Seq<RawCommentView>) -> bool {
    &&& attach_stmt_kind(attach_stmt_kind(x, q).0, no_comments()) == attach_stmt_kind(
        x,
        no_comments(),
    )
    &&& attach_stmt_kind(x, no_comments()).1 == no_comments()
    &&& is_rest(attach_stmt_kind(x, q).1, q)
}

proof fn lemma_var_decl(name: Seq<char>, ty: Option<TypeV>, value: ExprV, q: Seq<RawCommentView>)
    ensures
        stmt_kind_keeps(StmtKindV::VarDecl { name, ty, value }, q),
    decreases (StmtKindV::VarDecl { name, ty, value }), 0int,
{
    let x = StmtKindV::VarDecl { name, ty, value };
    lemma_rest_itself(q);
    assert(decreases_to!(x => x->VarDecl_value));
    lemma_expr(value, q);
}

proof fn lemma_name_assign(name: Seq<char>, ty: Option<TypeV>, value: ExprV, q: Seq<RawCommentView>)
    ensures
        stmt_kind_keeps(StmtKindV::NameAssign { name, ty, value }, q),
    decreases (StmtKindV::NameAssign { name, ty, value }), 0int,
{
    let x = StmtKindV::NameAssign { name, ty, value };
    lemma_rest_itself(q);
    assert(decreases_to!(x => x->NameAssign_value));
    lemma_expr(value, q);
}

proof fn lemma_field_assign(target: ExprV, field: Seq<char>, value: ExprV, q: Seq<RawCommentView>)
    ensures
        stmt_kind_keeps(StmtKindV::FieldAssign { target, field, value }, q),
    decreases (StmtKindV::FieldAssign { target, field, value }), 0int,
{
    let x = StmtKindV::FieldAssign { target, field, value };
    lemma_rest_itself(q);
    assert(decreases_to!(x => x->FieldAssign_target));
    assert(decreases_to!(x => x->FieldAssign_value));
    lemma_expr(target, q);
    let r = attach_expr(target, q).1;
    lemma_expr(value, r);
    let t = attach_expr(value, r).1;
    lemma_rest(q, r, t);
}

proof fn lemma_index_assign(target: ExprV, index: ExprV, value: ExprV, q: Seq<RawCommentView>)
    ensures
        stmt_kind_keeps(StmtKindV::IndexAssign { target, index, value }, q),
    decreases (StmtKindV::IndexAssign { target, index, value }), 0int,
{
    let x = StmtKindV::IndexAssign { target, index, value };
    lemma_rest_itself(q);
    assert(decreases_to!(x => x->IndexAssign_target));
    assert(decreases_to!(x => x->IndexAssign_index));
    assert(decreases_to!(x => x->IndexAssign_value));
    lemma_expr(target, q);
    let r = attach_expr(target, q).1;
    lemma_expr(index, r);
    let t = attach_expr(index, r).1;
    lemma_rest(q, r, t);
    lemma_expr(value, t);
    let u = attach_expr(value, t).1;
    lemma_rest(q, t, u);
}

proof fn lemma_discard(inner: ExprV, q: Seq<RawCommentView>)
    ensures
        stmt_kind_keeps(StmtKindV::Discard(inner), q),
    decreases (StmtKindV::Discard(inner)), 0int,
{
    let x = StmtKindV::Discard(inner);
    lemma_rest_itself(q);
    assert(decreases_to!(x => x->Discard_0));
    lemma_expr(inner, q);
}

proof fn lemma_expr_stmt(inner: ExprV, q: Seq<RawCommentView>)
    ensures
        stmt_kind_keeps(StmtKindV::ExprStmt(inner), q),
    decreases (StmtKindV::ExprStmt(inner)), 0int,
{
    let x = StmtKindV::ExprStmt(inner);
    lemma_rest_itself(q);
    assert(decreases_to!(x => x->ExprStmt_0));
    lemma_expr(inner, q);
}

proof fn lemma_return(inner: ExprV, q: Seq<RawCommentView>)
    ensures
        stmt_kind_keeps(StmtKindV::Return(Some(inner)), q),
    decreases (StmtKindV::Return(Some(inner))), 0int,
{
    let x = StmtKindV::Return(Some(inner));
    lemma_rest_itself(q);
    assert(decreases_to!(x => x->Return_0));
    assert(decreases_to!(x->Return_0 => x->Return_0->Some_0));
    lemma_expr(inner, q);
}

proof fn lemma_stmt_kind(x: StmtKindV, q: Seq<RawCommentView>)
    ensures
        attach_stmt_kind(attach_stmt_kind(x, q).0, no_comments()) == attach_stmt_kind(
            x,
            no_comments(),
        ),
        attach_stmt_kind(x, no_comments()).1 == no_comments(),
        is_rest(attach_stmt_kind(x, q).1, q),
    decreases x, 1int,
{
    lemma_rest_itself(q);
    match x {
        StmtKindV::VarDecl { name, ty, value } => lemma_var_decl(name, ty, value, q),
        StmtKindV::NameAssign { name, ty, value } => lemma_name_assign(name, ty, value, q),
        StmtKindV::FieldAssign { target, field, value } => {
            lemma_field_assign(target, field, value, q);
        },
        StmtKindV::IndexAssign { target, index, value } => {
            lemma_index_assign(target, index, value, q);
        },
        StmtKindV::Discard(inner) => lemma_discard(inner, q),
        StmtKindV::ExprStmt(inner) => lemma_expr_stmt(inner, q),
        StmtKindV::Return(Some(inner)) => lemma_return(inner, q),
        _ => {},
    }
}

proof fn lemma_function(x: FunctionV, q: Seq<RawCommentView>)
    ensures
        attach_function(attach_function(x, q).0, no_comments()) == attach_function(
            x,
            no_comments(),
        ),
        attach_function(x, no_comments()).1 == no_comments(),
        is_rest(attach_function(x, q).1, q),
{
    lemma_taken(q, x.span.start.line);
    let r = take_leading(q, x.span.start.line).1;
    lemma_block(x.body, r);
    lemma_rest(q, r, attach_block(x.body, r).1);
}

proof fn lemma_functions_push(init: Seq<FunctionV>, last: FunctionV, q: Seq<RawCommentView>)
    ensures
        attach_functions(init.push(last), q) == (
            attach_functions(init, q).0.push(attach_function(last, attach_functions(init, q).1).0),
            attach_function(last, attach_functions(init, q).1).1,
        ),
{
    assert(init.push(last).drop_last() =~= init);
}

proof fn lemma_functions(x: Seq<FunctionV>, q: Seq<RawCommentView>)
    ensures
        attach_functions(attach_functions(x, q).0, no_comments()) == attach_functions(
            x,
            no_comments(),
        ),
        attach_functions(x, no_comments()).1 == no_comments(),
        is_rest(attach_functions(x, q).1, q),
    decreases x.len(),
{
    lemma_rest_itself(q);
    if x.len() > 0 {
        lemma_functions(x.drop_last(), q);
        let (init, r) = attach_functions(x.drop_last(), q);
        lemma_function(x.last(), r);
        let (last, t) = attach_function(x.last(), r);
        lemma_rest(q, r, t);
        assert(x =~= x.drop_last().push(x.last()));
        lemma_functions_push(x.drop_last(), x.last(), q);
        lemma_functions_push(x.drop_last(), x.last(), no_comments());
        lemma_functions_push(init, last, no_comments());
    }
}

proof fn lemma_fields(x: Seq<ParamV>, q: Seq<RawCommentView>)
    ensures
        attach_fields(x, no_comments()).2 == no_comments(),
        is_rest(attach_fields(x, q).2, q),
    decreases x.len(),
{
    lemma_rest_itself(q);
    if x.len() > 0 {
        lemma_fields(x.drop_last(), q);
        let r = attach_fields(x.drop_last(), q).2;
        lemma_taken(r, x.last().span.start.line);
        let t = take_leading(r, x.last().span.start.line).1;
        lemma_rest(q, r, t);
        lemma_taken(t, x.last().span.end.line);
        lemma_rest(q, t, take_trailing(t, x.last().span.end.line).1);
    }
}

proof fn lemma_struct(x: StructV, q: Seq<RawCommentView>)
    ensures
        attach_struct(attach_struct(x, q).0, no_comments()) == attach_struct(x, no_comments()),
        attach_struct(x, no_comments()).1 == no_comments(),
        is_rest(attach_struct(x, q).1, q),
{
    lemma_taken(q, x.span.start.line);
    let r = take_leading(q, x.span.start.line).1;
    lemma_fields(x.fields, r);
    let t = attach_fields(x.fields, r).2;
    lemma_rest(q, r, t);
    lemma_functions(x.methods, t);
    lemma_rest(q, t, attach_functions(x.methods, t).1);
}

proof fn lemma_variants_push(init: Seq<VariantV>, last: VariantV, q: Seq<RawCommentView>)
    ensures
        attach_variants(init.push(last), q) == (
            attach_variants(init, q).0.push(attach_variant(last, attach_variants(init, q).1).0),
            attach_variant(last, attach_variants(init, q).1).1,
        ),
{
    assert(init.push(last).drop_last() =~= init);
}

proof fn lemma_variants(x: Seq<VariantV>, q: Seq<RawCommentView>)
    ensures
        attach_variants(attach_variants(x, q).0, no_comments()) == attach_variants(
            x,
            no_comments(),
        ),
        attach_variants(x, no_comments()).1 == no_comments(),
        is_rest(attach_variants(x, q).1, q),
    decreases x.len(),
{
    lemma_rest_itself(q);
    if x.len() > 0 {
        lemma_variants(x.drop_last(), q);
        let (init, r) = attach_variants(x.drop_last(), q);
        lemma_variant(x.last(), r);
        let (last, t) = attach_variant(x.last(), r);
        lemma_rest(q, r, t);
        assert(x =~= x.drop_last().push(x.last()));
        lemma_variants_push(x.drop_last(), x.last(), q);
        lemma_variants_push(x.drop_last(), x.last(), no_comments());
        lemma_variants_push(init, last, no_comments());
    }
}

proof fn lemma_variant(x: VariantV, q: Seq<RawCommentView>)
    ensures
        attach_variant(attach_variant(x, q).0, no_comments()) == attach_variant(x, no_comments()),
        attach_variant(x, no_comments()).1 == no_comments(),
        is_rest(attach_variant(x, q).1, q),
{
    lemma_taken(q, x.span.start.line);
    let r = take_leading(q, x.span.start.line).1;
    lemma_taken(r, x.span.end.line);
    lemma_rest(q, r, take_trailing(r, x.span.end.line).1);
}

proof fn lemma_enum(x: EnumV, q: Seq<RawCommentView>)
    ensures
        attach_enum(attach_enum(x, q).0, no_comments()) == attach_enum(x, no_comments()),
        attach_enum(x, no_comments()).1 == no_comments(),
        is_rest(attach_enum(x, q).1, q),
{
    lemma_taken(q, x.span.start.line);
    let r = take_leading(q, x.span.start.line).1;
    lemma_variants(x.variants, r);
    lemma_rest(q, r, attach_variants(x.variants, r).1);
}

proof fn lemma_item(x: ItemV, q: Seq<RawCommentView>)
    ensures
        attach_item(attach_item(x, q).0, no_comments()) == attach_item(x, no_comments()),
        attach_item(x, no_comments()).1 == no_comments(),
        is_rest(attach_item(x, q).1, q),
{
    match x {
        ItemV::Decl(DeclV::Function(f)) => {
            lemma_function(f, q);
        },
        ItemV::Decl(DeclV::Struct(s)) => {
            lemma_struct(s, q);
        },
        ItemV::Decl(DeclV::Enum(n)) => {
            lemma_enum(n, q);
        },
        ItemV::Stmt(s) => {
            lemma_stmt(s, q);
        },
    }
}

proof fn lemma_items_push(init: Seq<ItemV>, last: ItemV, q: Seq<RawCommentView>)
    ensures
        attach_items(init.push(last), q) == (
            attach_items(init, q).0.push(attach_item(last, attach_items(init, q).1).0),
            attach_item(last, attach_items(init, q).1).1,
        ),
{
    assert(init.push(last).drop_last() =~= init);
}

proof fn lemma_items(x: Seq<ItemV>, q: Seq<RawCommentView>)
    ensures
        attach_items(attach_items(x, q).0, no_comments()) == attach_items(x, no_comments()),
        attach_items(x, no_comments()).1 == no_comments(),
        is_rest(attach_items(x, q).1, q),
    decreases x.len(),
{
    lemma_rest_itself(q);
    if x.len() > 0 {
        lemma_items(x.drop_last(), q);
        let (init, r) = attach_items(x.drop_last(), q);
        lemma_item(x.last(), r);
        let (last, t) = attach_item(x.last(), r);
        lemma_rest(q, r, t);
        assert(x =~= x.drop_last().push(x.last()));
        lemma_items_push(x.drop_last(), x.last(), q);
        lemma_items_push(x.drop_last(), x.last(), no_comments());
        lemma_items_push(init, last, no_comments());
    }
}

/// Comments are all that a module gets: without them it is what it was without them before.
pub proof fn law_comments_are_all_that_changes(m: ModuleV, q: Seq<RawCommentView>)
    ensures
        uncommented(attach_module(m, q)) == uncommented(m),
{
    lemma_items(m.items, q);
    lemma_items(m.items, no_comments());
}

/// The nodes take the comments in their order: what no node takes is the end of the queue, and it
/// follows the last item.
pub proof fn law_comments_are_taken_in_order(m: ModuleV, q: Seq<RawCommentView>)
    ensures
        is_rest(attach_items(m.items, q).1, q),
        attach_module(m, q).trailing_comments == as_leading(attach_items(m.items, q).1),
{
    lemma_items(m.items, q);
}

} // verus!
