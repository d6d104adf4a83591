//! How operators bind: those that bind closer stand further in, and those that bind alike are
//! read from left to right.

use super::grammar::{
    additive_op, equality_op, initial, module_from, multiplicative_op, part_count, plain_stmt,
    relational_op, unary_op,
};
use super::sealed::{
    sealed_additive_tail, sealed_and_from, sealed_and_tail, sealed_annotated_rest, sealed_arg_from,
    sealed_args_from, sealed_args_rest, sealed_args_tail, sealed_arithmetic_from,
    sealed_arm_body_from, sealed_arm_from, sealed_arms_block, sealed_arms_inline,
    sealed_assign_or_expr_from, sealed_assigned_rest, sealed_binary, sealed_binding_name,
    sealed_block_from, sealed_body_from, sealed_brace_rest, sealed_branch_from, sealed_callee_rest,
    sealed_comparison_from, sealed_destination_from, sealed_destination_tail, sealed_directive_from,
    sealed_dot_rest, sealed_else_from, sealed_entries_tail, sealed_entry_from, sealed_equality_tail,
    sealed_expr_from, sealed_exprs_from, sealed_exprs_tail, sealed_function_from,
    sealed_function_params_from, sealed_generics_from, sealed_if_rest, sealed_item_from,
    sealed_items_tail, sealed_lambda_params_from, sealed_lambda_rest, sealed_list_rest,
    sealed_logical_from, sealed_match_rest, sealed_members_tail, sealed_multiplicative_tail,
    sealed_opt_type_from, sealed_or_tail, sealed_par_elements, sealed_par_rest, sealed_param_from,
    sealed_paren_rest, sealed_pattern_from, sealed_pipe_from, sealed_postfix_from,
    sealed_postfix_tail, sealed_primary_from, sealed_relational_from, sealed_return_rest,
    sealed_segments_tail, sealed_stage_from, sealed_stages_tail, sealed_stmt_from,
    sealed_stmt_kind_from, sealed_stmt_or_skip_from, sealed_stmts_tail, sealed_struct_from,
    sealed_term_from, sealed_type_args_rest, sealed_type_from, sealed_unary_from, sealed_uses_from,
    sealed_var_rest, unfold_additive_tail, unfold_and_from, unfold_and_tail, unfold_annotated_rest,
    unfold_arg_from, unfold_args_from, unfold_args_rest, unfold_args_tail, unfold_arithmetic_from,
    unfold_arm_body_from, unfold_arm_from, unfold_arms_block, unfold_arms_inline,
    unfold_assign_or_expr_from, unfold_assigned_rest, unfold_binary, unfold_block_from,
    unfold_brace_rest, unfold_branch_from, unfold_callee_rest, unfold_comparison_from,
    unfold_destination_from, unfold_destination_tail, unfold_dot_rest, unfold_else_from,
    unfold_entries_tail, unfold_entry_from, unfold_equality_tail, unfold_expr_from,
    unfold_exprs_from, unfold_exprs_tail, unfold_function_from, unfold_if_rest, unfold_item_from,
    unfold_items_tail, unfold_lambda_rest, unfold_list_rest, unfold_logical_from, unfold_match_rest,
    unfold_members_tail, unfold_module_from, unfold_multiplicative_tail, unfold_or_tail,
    unfold_par_elements, unfold_par_rest, unfold_paren_rest, unfold_pipe_from, unfold_postfix_from,
    unfold_postfix_tail, unfold_primary_from, unfold_relational_from, unfold_return_rest,
    unfold_segments_tail, unfold_stage_from, unfold_stages_tail, unfold_stmt_from,
    unfold_stmt_kind_from, unfold_stmt_or_skip_from, unfold_stmts_tail, unfold_struct_from,
    unfold_term_from, unfold_unary_from, unfold_var_rest,
};
use super::state::{
    between, close_followed, node, poison, PState, MAX_PARSE_DEPTH,
};
use crate::ast::{
    ArgV, ArmBodyV, ArmV, BinaryOp, BlockV, CalleeV, DeclV, ElseV, ExprKindV, ExprV, FunctionV, IfV,
    ItemV, ParKind, ParamV, SegmentV, StageV, StmtKindV, StmtV, StructV,
};
use crate::diagnostics::{FileId, Span};
use crate::lexer::{FStringPart, Token, TokenKind};
use vstd::prelude::*;

verus! {

// ---------------------------------------------------------------------------
// Ranks
// ---------------------------------------------------------------------------

/// How closely a binary operator binds.
pub open spec fn level(op: BinaryOp) -> int {
    match op {
        BinaryOp::Or => 1,
        BinaryOp::And => 2,
        BinaryOp::EqEq | BinaryOp::NotEq => 3,
        BinaryOp::Lt | BinaryOp::LtEq | BinaryOp::Gt | BinaryOp::GtEq => 4,
        BinaryOp::Add | BinaryOp::Sub => 5,
        BinaryOp::Mul | BinaryOp::Div | BinaryOp::Mod => 6,
    }
}

/// How closely an expression holds together: a pipe least, then the binary operators, then the
/// unary ones, and all else most.
pub open spec fn rank(e: ExprV) -> int {
    match e.kind {
        ExprKindV::Pipe { source, stages } => 0,
        ExprKindV::Binary { op, lhs, rhs } => level(op),
        ExprKindV::Unary { op, operand } => 7,
        _ => 8,
    }
}

/// The parts of an expression hold together more closely than the expression does; the left part
/// of a binary operator may be one of the same level, unless the operator compares sizes.
pub open spec fn binds(k: ExprKindV) -> bool {
    match k {
        ExprKindV::Binary { op, lhs, rhs } => {
            &&& level(op) <= rank(*lhs)
            &&& level(op) == 4 ==> 4 < rank(*lhs)
            &&& level(op) < rank(*rhs)
        },
        ExprKindV::Unary { op, operand } => 7 <= rank(*operand),
        ExprKindV::Pipe { source, stages } => 1 <= rank(*source),
        ExprKindV::Call { callee, type_args, args, was_multiline } => rank(*callee) == 8,
        ExprKindV::MethodCall { receiver, method, type_args, args, was_multiline } => {
            rank(*receiver) == 8
        },
        ExprKindV::FieldAccess { target, field } => rank(*target) == 8,
        ExprKindV::TupleIndex { target, index } => rank(*target) == 8,
        ExprKindV::Index { target, index } => rank(*target) == 8,
        ExprKindV::Question { target } => rank(*target) == 8,
        _ => true,
    }
}

/// An expression and all its parts bind as they should; so for the other trees. Lists take the
/// first `n` of their items.
#[verifier::opaque]
pub open spec fn ranked_expr(x: ExprV) -> bool
    decreases x, 0int,
{
    binds(x.kind) && ranked_kind(x.kind)
}

#[verifier::opaque]
pub open spec fn ranked_kind(x: ExprKindV) -> bool
    decreases x, 0int,
{
    match x {
        ExprKindV::FString(segments) => ranked_segments(segments),
        ExprKindV::ListLit { elements, was_multiline } => ranked_exprs(elements),
        ExprKindV::SetLit { elements, was_multiline } => ranked_exprs(elements),
        ExprKindV::TupleLit { elements, was_multiline } => ranked_exprs(elements),
        ExprKindV::DictLit { entries, was_multiline } => ranked_entries(entries),
        ExprKindV::Unary { op, operand } => ranked_expr(*operand),
        ExprKindV::Binary { op, lhs, rhs } => ranked_expr(*lhs) && ranked_expr(*rhs),
        ExprKindV::Call { callee, type_args, args, was_multiline } => ranked_expr(*callee) && ranked_args(
            args,
        ),
        ExprKindV::MethodCall { receiver, method, type_args, args, was_multiline } => ranked_expr(*receiver) && ranked_args(
            args,
        ),
        ExprKindV::FieldAccess { target, field } => ranked_expr(*target),
        ExprKindV::TupleIndex { target, index } => ranked_expr(*target),
        ExprKindV::Index { target, index } => ranked_expr(*target) && ranked_expr(*index),
        ExprKindV::Question { target } => ranked_expr(*target),
        ExprKindV::Pipe { source, stages } => ranked_expr(*source) && ranked_stages(stages),
        ExprKindV::Lambda { params, body } => ranked_expr(*body),
        ExprKindV::If(i) => ranked_if(*i),
        ExprKindV::Match { scrutinee, arms } => ranked_expr(*scrutinee) && ranked_arms(arms),
        ExprKindV::Par { kind, elements } => ranked_exprs(elements),
        ExprKindV::Grouping(inner) => ranked_expr(*inner),
        _ => true,
    }
}

#[verifier::opaque]
pub open spec fn ranked_segment(x: SegmentV) -> bool
    decreases x, 0int,
{
    match x {
        SegmentV::Expr(inner) => ranked_expr(*inner),
        _ => true,
    }
}

#[verifier::opaque]
pub open spec fn ranked_entry(x: (ExprV, ExprV)) -> bool {
    ranked_expr(x.0) && ranked_expr(x.1)
}

#[verifier::opaque]
pub open spec fn ranked_arg(x: ArgV) -> bool
    decreases x, 0int,
{
    ranked_expr(x.value)
}

#[verifier::opaque]
pub open spec fn ranked_stage(x: StageV) -> bool
    decreases x, 0int,
{
    ranked_callee(x.callee)
}

#[verifier::opaque]
pub open spec fn ranked_callee(x: CalleeV) -> bool
    decreases x, 0int,
{
    match x {
        CalleeV::Bare(inner) => ranked_expr(inner),
        CalleeV::WithArgs { callee, args } => ranked_expr(*callee) && ranked_args(args),
    }
}

#[verifier::opaque]
pub open spec fn ranked_if(x: IfV) -> bool
    decreases x, 0int,
{
    ranked_expr(*x.cond) && ranked_block(x.then_branch) && ranked_else(x.else_branch)
}

#[verifier::opaque]
pub open spec fn ranked_else(x: ElseV) -> bool
    decreases x, 0int,
{
    match x {
        ElseV::Block(b) => ranked_block(b),
        ElseV::ElseIf(i) => ranked_if(*i),
    }
}

#[verifier::opaque]
pub open spec fn ranked_arm(x: ArmV) -> bool
    decreases x, 0int,
{
    ranked_arm_body(x.body)
}

#[verifier::opaque]
pub open spec fn ranked_arm_body(x: ArmBodyV) -> bool
    decreases x, 0int,
{
    match x {
        ArmBodyV::Expr(inner) => ranked_expr(inner),
        ArmBodyV::Block(b) => ranked_block(b),
    }
}

#[verifier::opaque]
pub open spec fn ranked_block(x: BlockV) -> bool
    decreases x, 0int,
{
    ranked_stmts(x.stmts)
}

#[verifier::opaque]
pub open spec fn ranked_stmt(x: StmtV) -> bool
    decreases x, 0int,
{
    ranked_stmt_kind(x.kind)
}

#[verifier::opaque]
pub open spec fn ranked_stmt_kind(x: StmtKindV) -> bool
    decreases x, 0int,
{
    match x {
        StmtKindV::VarDecl { name, ty, value } => ranked_expr(value),
        StmtKindV::NameAssign { name, ty, value } => ranked_expr(value),
        StmtKindV::FieldAssign { target, field, value } => ranked_expr(target) && ranked_expr(
            value,
        ),
        StmtKindV::IndexAssign { target, index, value } => ranked_expr(target) && ranked_expr(index) && ranked_expr(
            value,
        ),
        StmtKindV::Discard(inner) => ranked_expr(inner),
        StmtKindV::ExprStmt(inner) => ranked_expr(inner),
        StmtKindV::Return(Some(inner)) => ranked_expr(inner),
        _ => true,
    }
}

#[verifier::opaque]
pub open spec fn ranked_function(x: FunctionV) -> bool {
    ranked_block(x.body)
}

#[verifier::opaque]
pub open spec fn ranked_struct(x: StructV) -> bool {
    ranked_functions(x.methods)
}

#[verifier::opaque]
pub open spec fn ranked_item(x: ItemV) -> bool {
    match x {
        ItemV::Decl(DeclV::Function(f)) => ranked_function(f),
        ItemV::Decl(DeclV::Struct(s)) => ranked_struct(s),
        ItemV::Stmt(s) => ranked_stmt(s),
        _ => true,
    }
}

#[verifier::opaque]
pub open spec fn ranked_exprs(x: Seq<ExprV>) -> bool
    decreases x, x.len() + 1,
{
    first_exprs(x, x.len() as int)
}

#[verifier::opaque]
pub open spec fn first_exprs(x: Seq<ExprV>, n: int) -> bool
    decreases x, n,
{
    0 < n <= x.len() ==> first_exprs(x, n - 1) && ranked_expr(x[n - 1])
}

#[verifier::opaque]
pub open spec fn ranked_entries(x: Seq<(ExprV, ExprV)>) -> bool
    decreases x, x.len() + 1,
{
    first_entries(x, x.len() as int)
}

#[verifier::opaque]
pub open spec fn first_entries(x: Seq<(ExprV, ExprV)>, n: int) -> bool
    decreases x, n,
{
    0 < n <= x.len() ==> first_entries(x, n - 1) && ranked_expr(x[n - 1].0) && ranked_expr(
        x[n - 1].1,
    )
}

#[verifier::opaque]
pub open spec fn ranked_segments(x: Seq<SegmentV>) -> bool
    decreases x, x.len() + 1,
{
    first_segments(x, x.len() as int)
}

#[verifier::opaque]
pub open spec fn first_segments(x: Seq<SegmentV>, n: int) -> bool
    decreases x, n,
{
    0 < n <= x.len() ==> first_segments(x, n - 1) && ranked_segment(x[n - 1])
}

#[verifier::opaque]
pub open spec fn ranked_args(x: Seq<ArgV>) -> bool
    decreases x, x.len() + 1,
{
    first_args(x, x.len() as int)
}

#[verifier::opaque]
pub open spec fn first_args(x: Seq<ArgV>, n: int) -> bool
    decreases x, n,
{
    0 < n <= x.len() ==> first_args(x, n - 1) && ranked_arg(x[n - 1])
}

#[verifier::opaque]
pub open spec fn ranked_stages(x: Seq<StageV>) -> bool
    decreases x, x.len() + 1,
{
    first_stages(x, x.len() as int)
}

#[verifier::opaque]
pub open spec fn first_stages(x: Seq<StageV>, n: int) -> bool
    decreases x, n,
{
    0 < n <= x.len() ==> first_stages(x, n - 1) && ranked_stage(x[n - 1])
}

#[verifier::opaque]
pub open spec fn ranked_arms(x: Seq<ArmV>) -> bool
    decreases x, x.len() + 1,
{
    first_arms(x, x.len() as int)
}

#[verifier::opaque]
pub open spec fn first_arms(x: Seq<ArmV>, n: int) -> bool
    decreases x, n,
{
    0 < n <= x.len() ==> first_arms(x, n - 1) && ranked_arm(x[n - 1])
}

#[verifier::opaque]
pub open spec fn ranked_stmts(x: Seq<StmtV>) -> bool
    decreases x, x.len() + 1,
{
    first_stmts(x, x.len() as int)
}

#[verifier::opaque]
pub open spec fn first_stmts(x: Seq<StmtV>, n: int) -> bool
    decreases x, n,
{
    0 < n <= x.len() ==> first_stmts(x, n - 1) && ranked_stmt(x[n - 1])
}

#[verifier::opaque]
pub open spec fn ranked_functions(x: Seq<FunctionV>) -> bool {
    first_functions(x, x.len() as int)
}

#[verifier::opaque]
pub open spec fn first_functions(x: Seq<FunctionV>, n: int) -> bool
    decreases n,
{
    0 < n <= x.len() ==> first_functions(x, n - 1) && ranked_function(x[n - 1])
}

#[verifier::opaque]
pub open spec fn ranked_items(x: Seq<ItemV>) -> bool {
    first_items(x, x.len() as int)
}

#[verifier::opaque]
pub open spec fn first_items(x: Seq<ItemV>, n: int) -> bool
    decreases n,
{
    0 < n <= x.len() ==> first_items(x, n - 1) && ranked_item(x[n - 1])
}

// ---------------------------------------------------------------------------
// One level of a tree
// ---------------------------------------------------------------------------

#[verifier::spinoff_prover]
proof fn open_expr(x: ExprV)
    ensures
        ranked_expr(x) == ({
            binds(x.kind) && ranked_kind(x.kind)
        }),
{
    reveal(ranked_expr);
    reveal(ranked_kind);
}

#[verifier::spinoff_prover]
proof fn open_kind(x: ExprKindV)
    ensures
        ranked_kind(x) == ({
            match x {
                ExprKindV::FString(segments) => ranked_segments(segments),
                ExprKindV::ListLit { elements, was_multiline } => ranked_exprs(elements),
                ExprKindV::SetLit { elements, was_multiline } => ranked_exprs(elements),
                ExprKindV::TupleLit { elements, was_multiline } => ranked_exprs(elements),
                ExprKindV::DictLit { entries, was_multiline } => ranked_entries(entries),
                ExprKindV::Unary { op, operand } => ranked_expr(*operand),
                ExprKindV::Binary { op, lhs, rhs } => ranked_expr(*lhs) && ranked_expr(*rhs),
                ExprKindV::Call { callee, type_args, args, was_multiline } => ranked_expr(*callee) && ranked_args(
                    args,
                ),
                ExprKindV::MethodCall { receiver, method, type_args, args, was_multiline } => ranked_expr(*receiver) && ranked_args(
                    args,
                ),
                ExprKindV::FieldAccess { target, field } => ranked_expr(*target),
                ExprKindV::TupleIndex { target, index } => ranked_expr(*target),
                ExprKindV::Index { target, index } => ranked_expr(*target) && ranked_expr(*index),
                ExprKindV::Question { target } => ranked_expr(*target),
                ExprKindV::Pipe { source, stages } => ranked_expr(*source) && ranked_stages(stages),
                ExprKindV::Lambda { params, body } => ranked_expr(*body),
                ExprKindV::If(i) => ranked_if(*i),
                ExprKindV::Match { scrutinee, arms } => ranked_expr(*scrutinee) && ranked_arms(
                    arms,
                ),
                ExprKindV::Par { kind, elements } => ranked_exprs(elements),
                ExprKindV::Grouping(inner) => ranked_expr(*inner),
                _ => true,
            }
        }),
{
    reveal(ranked_kind);
    reveal(ranked_segments);
    reveal(ranked_exprs);
    reveal(ranked_entries);
    reveal(ranked_expr);
    reveal(ranked_args);
    reveal(ranked_stages);
    reveal(ranked_if);
    reveal(ranked_arms);
}

#[verifier::spinoff_prover]
proof fn open_segment(x: SegmentV)
    ensures
        ranked_segment(x) == ({
            match x {
                SegmentV::Expr(inner) => ranked_expr(*inner),
                _ => true,
            }
        }),
{
    reveal(ranked_segment);
    reveal(ranked_expr);
}

#[verifier::spinoff_prover]
proof fn open_entry(x: (ExprV, ExprV))
    ensures
        ranked_entry(x) == ({
            ranked_expr(x.0) && ranked_expr(x.1)
        }),
{
    reveal(ranked_entry);
}

#[verifier::spinoff_prover]
proof fn open_arg(x: ArgV)
    ensures
        ranked_arg(x) == ({
            ranked_expr(x.value)
        }),
{
    reveal(ranked_arg);
    reveal(ranked_expr);
}

#[verifier::spinoff_prover]
proof fn open_stage(x: StageV)
    ensures
        ranked_stage(x) == ({
            ranked_callee(x.callee)
        }),
{
    reveal(ranked_stage);
    reveal(ranked_callee);
}

#[verifier::spinoff_prover]
proof fn open_callee(x: CalleeV)
    ensures
        ranked_callee(x) == ({
            match x {
                CalleeV::Bare(inner) => ranked_expr(inner),
                CalleeV::WithArgs { callee, args } => ranked_expr(*callee) && ranked_args(args),
            }
        }),
{
    reveal(ranked_callee);
    reveal(ranked_expr);
    reveal(ranked_args);
}

#[verifier::spinoff_prover]
proof fn open_if(x: IfV)
    ensures
        ranked_if(x) == ({
            ranked_expr(*x.cond) && ranked_block(x.then_branch) && ranked_else(x.else_branch)
        }),
{
    reveal(ranked_if);
    reveal(ranked_expr);
    reveal(ranked_block);
    reveal(ranked_else);
}

#[verifier::spinoff_prover]
proof fn open_else(x: ElseV)
    ensures
        ranked_else(x) == ({
            match x {
                ElseV::Block(b) => ranked_block(b),
                ElseV::ElseIf(i) => ranked_if(*i),
            }
        }),
{
    reveal(ranked_else);
    reveal(ranked_block);
    reveal(ranked_if);
}

#[verifier::spinoff_prover]
proof fn open_arm(x: ArmV)
    ensures
        ranked_arm(x) == ({
            ranked_arm_body(x.body)
        }),
{
    reveal(ranked_arm);
    reveal(ranked_arm_body);
}

#[verifier::spinoff_prover]
proof fn open_arm_body(x: ArmBodyV)
    ensures
        ranked_arm_body(x) == ({
            match x {
                ArmBodyV::Expr(inner) => ranked_expr(inner),
                ArmBodyV::Block(b) => ranked_block(b),
            }
        }),
{
    reveal(ranked_arm_body);
    reveal(ranked_expr);
    reveal(ranked_block);
}

#[verifier::spinoff_prover]
proof fn open_block(x: BlockV)
    ensures
        ranked_block(x) == ({
            ranked_stmts(x.stmts)
        }),
{
    reveal(ranked_block);
    reveal(ranked_stmts);
}

#[verifier::spinoff_prover]
proof fn open_stmt(x: StmtV)
    ensures
        ranked_stmt(x) == ({
            ranked_stmt_kind(x.kind)
        }),
{
    reveal(ranked_stmt);
    reveal(ranked_stmt_kind);
}

#[verifier::spinoff_prover]
proof fn open_stmt_kind(x: StmtKindV)
    ensures
        ranked_stmt_kind(x) == ({
            match x {
                StmtKindV::VarDecl { name, ty, value } => ranked_expr(value),
                StmtKindV::NameAssign { name, ty, value } => ranked_expr(value),
                StmtKindV::FieldAssign { target, field, value } => ranked_expr(target) && ranked_expr(
                    value,
                ),
                StmtKindV::IndexAssign { target, index, value } => ranked_expr(target) && ranked_expr(index) && ranked_expr(
                    value,
                ),
                StmtKindV::Discard(inner) => ranked_expr(inner),
                StmtKindV::ExprStmt(inner) => ranked_expr(inner),
                StmtKindV::Return(Some(inner)) => ranked_expr(inner),
                _ => true,
            }
        }),
{
    reveal(ranked_stmt_kind);
    reveal(ranked_expr);
}

#[verifier::spinoff_prover]
proof fn open_function(x: FunctionV)
    ensures
        ranked_function(x) == ({
            ranked_block(x.body)
        }),
{
    reveal(ranked_function);
}

#[verifier::spinoff_prover]
proof fn open_struct(x: StructV)
    ensures
        ranked_struct(x) == ({
            ranked_functions(x.methods)
        }),
{
    reveal(ranked_struct);
}

#[verifier::spinoff_prover]
proof fn open_item(x: ItemV)
    ensures
        ranked_item(x) == ({
            match x {
                ItemV::Decl(DeclV::Function(f)) => ranked_function(f),
                ItemV::Decl(DeclV::Struct(s)) => ranked_struct(s),
                ItemV::Stmt(s) => ranked_stmt(s),
                _ => true,
            }
        }),
{
    reveal(ranked_item);
}

proof fn lemma_first_exprs(x: Seq<ExprV>, e: ExprV, n: int)
    requires
        0 <= n <= x.len(),
    ensures
        first_exprs(x.push(e), n) == first_exprs(x, n),
    decreases n,
{
    reveal(ranked_exprs);
    reveal(first_exprs);
    reveal(ranked_expr);
    if n > 0 {
        lemma_first_exprs(x, e, n - 1);
        assert(x.push(e)[n - 1] == x[n - 1]);
    }
}

#[verifier::spinoff_prover]
proof fn lemma_list_exprs()
    ensures
        ranked_exprs(Seq::empty()),
        forall|x: Seq<ExprV>, e: ExprV| #[trigger]
            ranked_exprs(x.push(e)) == (ranked_exprs(x) && ranked_expr(e)),
{
    reveal(ranked_exprs);
    reveal(first_exprs);
    reveal(ranked_expr);
    assert forall|x: Seq<ExprV>, e: ExprV| #[trigger]
        ranked_exprs(x.push(e)) == (ranked_exprs(x) && ranked_expr(e)) by {
        lemma_first_exprs(x, e, x.len() as int);
        assert(x.push(e)[x.len() as int] == e);
    }
}

proof fn lemma_first_entries(x: Seq<(ExprV, ExprV)>, e: (ExprV, ExprV), n: int)
    requires
        0 <= n <= x.len(),
    ensures
        first_entries(x.push(e), n) == first_entries(x, n),
    decreases n,
{
    reveal(ranked_entries);
    reveal(first_entries);
    reveal(ranked_expr);
    if n > 0 {
        lemma_first_entries(x, e, n - 1);
        assert(x.push(e)[n - 1] == x[n - 1]);
    }
}

#[verifier::spinoff_prover]
proof fn lemma_list_entries()
    ensures
        ranked_entries(Seq::empty()),
        forall|x: Seq<(ExprV, ExprV)>, e: (ExprV, ExprV)| #[trigger]
            ranked_entries(x.push(e)) == (ranked_entries(x) && ranked_entry(e)),
{
    reveal(ranked_entries);
    reveal(first_entries);
    reveal(ranked_expr);
    reveal(ranked_entry);
    assert forall|x: Seq<(ExprV, ExprV)>, e: (ExprV, ExprV)| #[trigger]
        ranked_entries(x.push(e)) == (ranked_entries(x) && ranked_entry(e)) by {
        lemma_first_entries(x, e, x.len() as int);
        assert(x.push(e)[x.len() as int] == e);
    }
}

proof fn lemma_first_segments(x: Seq<SegmentV>, e: SegmentV, n: int)
    requires
        0 <= n <= x.len(),
    ensures
        first_segments(x.push(e), n) == first_segments(x, n),
    decreases n,
{
    reveal(ranked_segments);
    reveal(first_segments);
    reveal(ranked_segment);
    if n > 0 {
        lemma_first_segments(x, e, n - 1);
        assert(x.push(e)[n - 1] == x[n - 1]);
    }
}

#[verifier::spinoff_prover]
proof fn lemma_list_segments()
    ensures
        ranked_segments(Seq::empty()),
        forall|x: Seq<SegmentV>, e: SegmentV| #[trigger]
            ranked_segments(x.push(e)) == (ranked_segments(x) && ranked_segment(e)),
{
    reveal(ranked_segments);
    reveal(first_segments);
    reveal(ranked_segment);
    assert forall|x: Seq<SegmentV>, e: SegmentV| #[trigger]
        ranked_segments(x.push(e)) == (ranked_segments(x) && ranked_segment(e)) by {
        lemma_first_segments(x, e, x.len() as int);
        assert(x.push(e)[x.len() as int] == e);
    }
}

proof fn lemma_first_args(x: Seq<ArgV>, e: ArgV, n: int)
    requires
        0 <= n <= x.len(),
    ensures
        first_args(x.push(e), n) == first_args(x, n),
    decreases n,
{
    reveal(ranked_args);
    reveal(first_args);
    reveal(ranked_arg);
    if n > 0 {
        lemma_first_args(x, e, n - 1);
        assert(x.push(e)[n - 1] == x[n - 1]);
    }
}

#[verifier::spinoff_prover]
proof fn lemma_list_args()
    ensures
        ranked_args(Seq::empty()),
        forall|x: Seq<ArgV>, e: ArgV| #[trigger]
            ranked_args(x.push(e)) == (ranked_args(x) && ranked_arg(e)),
{
    reveal(ranked_args);
    reveal(first_args);
    reveal(ranked_arg);
    assert forall|x: Seq<ArgV>, e: ArgV| #[trigger]
        ranked_args(x.push(e)) == (ranked_args(x) && ranked_arg(e)) by {
        lemma_first_args(x, e, x.len() as int);
        assert(x.push(e)[x.len() as int] == e);
    }
}

proof fn lemma_first_stages(x: Seq<StageV>, e: StageV, n: int)
    requires
        0 <= n <= x.len(),
    ensures
        first_stages(x.push(e), n) == first_stages(x, n),
    decreases n,
{
    reveal(ranked_stages);
    reveal(first_stages);
    reveal(ranked_stage);
    if n > 0 {
        lemma_first_stages(x, e, n - 1);
        assert(x.push(e)[n - 1] == x[n - 1]);
    }
}

#[verifier::spinoff_prover]
proof fn lemma_list_stages()
    ensures
        ranked_stages(Seq::empty()),
        forall|x: Seq<StageV>, e: StageV| #[trigger]
            ranked_stages(x.push(e)) == (ranked_stages(x) && ranked_stage(e)),
{
    reveal(ranked_stages);
    reveal(first_stages);
    reveal(ranked_stage);
    assert forall|x: Seq<StageV>, e: StageV| #[trigger]
        ranked_stages(x.push(e)) == (ranked_stages(x) && ranked_stage(e)) by {
        lemma_first_stages(x, e, x.len() as int);
        assert(x.push(e)[x.len() as int] == e);
    }
}

proof fn lemma_first_arms(x: Seq<ArmV>, e: ArmV, n: int)
    requires
        0 <= n <= x.len(),
    ensures
        first_arms(x.push(e), n) == first_arms(x, n),
    decreases n,
{
    reveal(ranked_arms);
    reveal(first_arms);
    reveal(ranked_arm);
    if n > 0 {
        lemma_first_arms(x, e, n - 1);
        assert(x.push(e)[n - 1] == x[n - 1]);
    }
}

#[verifier::spinoff_prover]
proof fn lemma_list_arms()
    ensures
        ranked_arms(Seq::empty()),
        forall|x: Seq<ArmV>, e: ArmV| #[trigger]
            ranked_arms(x.push(e)) == (ranked_arms(x) && ranked_arm(e)),
{
    reveal(ranked_arms);
    reveal(first_arms);
    reveal(ranked_arm);
    assert forall|x: Seq<ArmV>, e: ArmV| #[trigger]
        ranked_arms(x.push(e)) == (ranked_arms(x) && ranked_arm(e)) by {
        lemma_first_arms(x, e, x.len() as int);
        assert(x.push(e)[x.len() as int] == e);
    }
}

proof fn lemma_first_stmts(x: Seq<StmtV>, e: StmtV, n: int)
    requires
        0 <= n <= x.len(),
    ensures
        first_stmts(x.push(e), n) == first_stmts(x, n),
    decreases n,
{
    reveal(ranked_stmts);
    reveal(first_stmts);
    reveal(ranked_stmt);
    if n > 0 {
        lemma_first_stmts(x, e, n - 1);
        assert(x.push(e)[n - 1] == x[n - 1]);
    }
}

#[verifier::spinoff_prover]
proof fn lemma_list_stmts()
    ensures
        ranked_stmts(Seq::empty()),
        forall|x: Seq<StmtV>, e: StmtV| #[trigger]
            ranked_stmts(x.push(e)) == (ranked_stmts(x) && ranked_stmt(e)),
{
    reveal(ranked_stmts);
    reveal(first_stmts);
    reveal(ranked_stmt);
    assert forall|x: Seq<StmtV>, e: StmtV| #[trigger]
        ranked_stmts(x.push(e)) == (ranked_stmts(x) && ranked_stmt(e)) by {
        lemma_first_stmts(x, e, x.len() as int);
        assert(x.push(e)[x.len() as int] == e);
    }
}

proof fn lemma_first_functions(x: Seq<FunctionV>, e: FunctionV, n: int)
    requires
        0 <= n <= x.len(),
    ensures
        first_functions(x.push(e), n) == first_functions(x, n),
    decreases n,
{
    reveal(ranked_functions);
    reveal(first_functions);
    if n > 0 {
        lemma_first_functions(x, e, n - 1);
        assert(x.push(e)[n - 1] == x[n - 1]);
    }
}

#[verifier::spinoff_prover]
proof fn lemma_list_functions()
    ensures
        ranked_functions(Seq::empty()),
        forall|x: Seq<FunctionV>, e: FunctionV| #[trigger]
            ranked_functions(x.push(e)) == (ranked_functions(x) && ranked_function(e)),
{
    reveal(ranked_functions);
    reveal(first_functions);
    assert forall|x: Seq<FunctionV>, e: FunctionV| #[trigger]
        ranked_functions(x.push(e)) == (ranked_functions(x) && ranked_function(e)) by {
        lemma_first_functions(x, e, x.len() as int);
        assert(x.push(e)[x.len() as int] == e);
    }
}

proof fn lemma_first_items(x: Seq<ItemV>, e: ItemV, n: int)
    requires
        0 <= n <= x.len(),
    ensures
        first_items(x.push(e), n) == first_items(x, n),
    decreases n,
{
    reveal(ranked_items);
    reveal(first_items);
    if n > 0 {
        lemma_first_items(x, e, n - 1);
        assert(x.push(e)[n - 1] == x[n - 1]);
    }
}

#[verifier::spinoff_prover]
proof fn lemma_list_items()
    ensures
        ranked_items(Seq::empty()),
        forall|x: Seq<ItemV>, e: ItemV| #[trigger]
            ranked_items(x.push(e)) == (ranked_items(x) && ranked_item(e)),
{
    reveal(ranked_items);
    reveal(first_items);
    assert forall|x: Seq<ItemV>, e: ItemV| #[trigger]
        ranked_items(x.push(e)) == (ranked_items(x) && ranked_item(e)) by {
        lemma_first_items(x, e, x.len() as int);
        assert(x.push(e)[x.len() as int] == e);
    }
}

spec fn opened_kind(x: ExprKindV) -> bool {
    match x {
        ExprKindV::FString(segments) => ranked_segments(segments),
        ExprKindV::ListLit { elements, was_multiline } => ranked_exprs(elements),
        ExprKindV::SetLit { elements, was_multiline } => ranked_exprs(elements),
        ExprKindV::TupleLit { elements, was_multiline } => ranked_exprs(elements),
        ExprKindV::DictLit { entries, was_multiline } => ranked_entries(entries),
        ExprKindV::Unary { op, operand } => ranked_expr(*operand),
        ExprKindV::Binary { op, lhs, rhs } => ranked_expr(*lhs) && ranked_expr(*rhs),
        ExprKindV::Call { callee, type_args, args, was_multiline } => ranked_expr(*callee) && ranked_args(
            args,
        ),
        ExprKindV::MethodCall { receiver, method, type_args, args, was_multiline } => ranked_expr(*receiver) && ranked_args(
            args,
        ),
        ExprKindV::FieldAccess { target, field } => ranked_expr(*target),
        ExprKindV::TupleIndex { target, index } => ranked_expr(*target),
        ExprKindV::Index { target, index } => ranked_expr(*target) && ranked_expr(*index),
        ExprKindV::Question { target } => ranked_expr(*target),
        ExprKindV::Pipe { source, stages } => ranked_expr(*source) && ranked_stages(stages),
        ExprKindV::Lambda { params, body } => ranked_expr(*body),
        ExprKindV::If(i) => ranked_if(*i),
        ExprKindV::Match { scrutinee, arms } => ranked_expr(*scrutinee) && ranked_arms(arms),
        ExprKindV::Par { kind, elements } => ranked_exprs(elements),
        ExprKindV::Grouping(inner) => ranked_expr(*inner),
        _ => true,
    }
}

proof fn ranks_node(p: PState, kind: ExprKindV, span: Span)
    ensures
        binds(kind) && opened_kind(kind) ==> ranked_expr(node(p, kind, span).0),
{
    open_expr(node(p, kind, span).0);
    open_kind(kind);
}

proof fn ranks_poison(p: PState, span: Span)
    ensures
        ranked_expr(poison(p, span).0),
{
    ranks_node(p, ExprKindV::IntLit(0), span);
}

proof fn lemma_small_open()
    ensures
        forall|x: (ExprV, ExprV)| #[trigger]
            ranked_entry(x) == (ranked_expr(x.0) && ranked_expr(x.1)),
        forall|x: Seq<char>| #[trigger] ranked_segment(SegmentV::Text(x)),
        forall|x: Box<ExprV>| #[trigger] ranked_segment(SegmentV::Expr(x)) == ranked_expr(*x),
{
    assert forall|x: (ExprV, ExprV)| #[trigger]
        ranked_entry(x) == (ranked_expr(x.0) && ranked_expr(x.1)) by {
        open_entry(x);
    }
    assert forall|x: Seq<char>| #[trigger] ranked_segment(SegmentV::Text(x)) by {
        open_segment(SegmentV::Text(x));
    }
    assert forall|x: Box<ExprV>| #[trigger]
        ranked_segment(SegmentV::Expr(x)) == ranked_expr(*x) by {
        open_segment(SegmentV::Expr(x));
    }
}

// ---------------------------------------------------------------------------
// The grammar
// ---------------------------------------------------------------------------

#[verifier::spinoff_prover]
proof fn ranks_destination_from(p: PState)
    ensures
        ({
            let r = sealed_destination_from(p);
            {
                &&& ranked_expr(r.0)
                &&& 8 <= rank(r.0)
            }
        }),
{
    unfold_destination_from(p);
    let (name, q) = p.ident("pipe destination function name/namespace name"@);
    ranks_node(q, ExprKindV::Ident(name), p.current_span());
    let (e, r) = node(q, ExprKindV::Ident(name), p.current_span());
    ranks_destination_tail(e, r);
}

#[verifier::spinoff_prover]
proof fn ranks_destination_tail(e: ExprV, p: PState)
    ensures
        ({
            let r = sealed_destination_tail(e, p);
            ranked_expr(e) && 8 <= rank(e) ==> {
                &&& ranked_expr(r.0)
                &&& 8 <= rank(r.0)
            }
        }),
    decreases p.left(),
{
    unfold_destination_tail(e, p);
    if p.at(TokenKind::Dot) {
        let (field, q) = p.bump().ident("field/method name"@);
        ranks_node(
            q,
            ExprKindV::FieldAccess { target: Box::new(e), field },
            between(e.span, q.previous_span()),
        );
        let (e2, r) = node(
            q,
            ExprKindV::FieldAccess { target: Box::new(e), field },
            between(e.span, q.previous_span()),
        );
        ranks_destination_tail(e2, r.after(p.bump()));
    }
}

#[verifier::spinoff_prover]
proof fn ranks_binary(op: BinaryOp, lhs: ExprV, rhs: ExprV, p: PState)
    ensures
        ({
            let r = sealed_binary(op, lhs, rhs, p);
            ranked_expr(lhs) && ranked_expr(rhs) && level(op) <= rank(lhs) && (level(op) == 4 ==> 4 < rank(lhs)) && level(op) < rank(rhs) ==> {
                &&& ranked_expr(r.0)
                &&& rank(r.0) == level(op)
            }
        }),
{
    unfold_binary(op, lhs, rhs, p);
    ranks_node(
        p,
        ExprKindV::Binary { op, lhs: Box::new(lhs), rhs: Box::new(rhs) },
        between(lhs.span, rhs.span),
    );
}

#[verifier::spinoff_prover]
proof fn ranks_expr_from(p: PState)
    ensures
        ({
            let r = sealed_expr_from(p);
            {
                &&& ranked_expr(r.0)
            }
        }),
    decreases p.toks, p.left(), 200int,
{
    unfold_expr_from(p);
    let span = p.current_span();
    if p.depth >= MAX_PARSE_DEPTH {
        ranks_poison(p.too_deep(span), span);
    } else {
        ranks_pipe_from(p.deeper());
    }
}

#[verifier::spinoff_prover]
proof fn ranks_pipe_from(p: PState)
    ensures
        ({
            let r = sealed_pipe_from(p);
            {
                &&& ranked_expr(r.0)
            }
        }),
    decreases p.toks, p.left(), 190int,
{
    unfold_pipe_from(p);
    lemma_list_stages();
    ranks_logical_from(p);
    let (source, q) = sealed_logical_from(p);
    if q.at(TokenKind::PipeOp) {
        ranks_stages_tail(Seq::empty(), q.after(p));
        let (stages, r) = sealed_stages_tail(Seq::empty(), q.after(p));
        let end = if stages.len() > 0 {
            stages.last().span
        } else {
            source.span
        };
        ranks_node(
            r,
            ExprKindV::Pipe { source: Box::new(source), stages },
            between(source.span, end),
        );
    }
}

#[verifier::spinoff_prover]
proof fn ranks_stages_tail(acc: Seq<StageV>, p: PState)
    ensures
        ({
            let r = sealed_stages_tail(acc, p);
            ranked_stages(acc) ==> {
                &&& ranked_stages(r.0)
            }
        }),
    decreases p.toks, p.left(), 185int,
{
    unfold_stages_tail(acc, p);
    lemma_list_stages();
    if p.at(TokenKind::PipeOp) {
        ranks_stage_from(p.bump());
        let (stage, q) = sealed_stage_from(p.bump());
        ranks_stages_tail(acc.push(stage), q.after(p.bump()));
    }
}

#[verifier::spinoff_prover]
proof fn ranks_stage_from(p: PState)
    ensures
        ({
            let r = sealed_stage_from(p);
            {
                &&& ranked_stage(r.0)
            }
        }),
    decreases p.toks, p.left(), 310int,
{
    unfold_stage_from(p);
    open_stage(sealed_stage_from(p).0);
    ranks_destination_from(p);
    let (target, q) = sealed_destination_from(p);
    ranks_callee_rest(target, q.after(p));
}

#[verifier::spinoff_prover]
proof fn ranks_callee_rest(target: ExprV, p: PState)
    ensures
        ({
            let r = sealed_callee_rest(target, p);
            ranked_expr(target) ==> {
                &&& ranked_callee(r.0)
            }
        }),
    decreases p.toks, p.left(), 305int,
{
    unfold_callee_rest(target, p);
    open_callee(sealed_callee_rest(target, p).0);
    if p.at(TokenKind::LParen) {
        ranks_args_rest(p.current_span().start.line, p.bump());
    }
}

#[verifier::spinoff_prover]
proof fn ranks_logical_from(p: PState)
    ensures
        ({
            let r = sealed_logical_from(p);
            {
                &&& ranked_expr(r.0)
                &&& 1 <= rank(r.0)
            }
        }),
    decreases p.toks, p.left(), 180int,
{
    unfold_logical_from(p);
    ranks_and_from(p);
    let (lhs, q) = sealed_and_from(p);
    ranks_or_tail(lhs, q.after(p));
}

#[verifier::spinoff_prover]
proof fn ranks_or_tail(lhs: ExprV, p: PState)
    ensures
        ({
            let r = sealed_or_tail(lhs, p);
            ranked_expr(lhs) && 1 <= rank(lhs) ==> {
                &&& ranked_expr(r.0)
                &&& 1 <= rank(r.0)
            }
        }),
    decreases p.toks, p.left(), 175int,
{
    unfold_or_tail(lhs, p);
    if p.at(TokenKind::Or) {
        ranks_and_from(p.bump());
        let (rhs, q) = sealed_and_from(p.bump());
        ranks_binary(BinaryOp::Or, lhs, rhs, q);
        let (e, r) = sealed_binary(BinaryOp::Or, lhs, rhs, q);
        ranks_or_tail(e, r.after(p.bump()));
    }
}

#[verifier::spinoff_prover]
proof fn ranks_and_from(p: PState)
    ensures
        ({
            let r = sealed_and_from(p);
            {
                &&& ranked_expr(r.0)
                &&& 2 <= rank(r.0)
            }
        }),
    decreases p.toks, p.left(), 170int,
{
    unfold_and_from(p);
    ranks_comparison_from(p);
    let (lhs, q) = sealed_comparison_from(p);
    ranks_and_tail(lhs, q.after(p));
}

#[verifier::spinoff_prover]
proof fn ranks_and_tail(lhs: ExprV, p: PState)
    ensures
        ({
            let r = sealed_and_tail(lhs, p);
            ranked_expr(lhs) && 2 <= rank(lhs) ==> {
                &&& ranked_expr(r.0)
                &&& 2 <= rank(r.0)
            }
        }),
    decreases p.toks, p.left(), 165int,
{
    unfold_and_tail(lhs, p);
    if p.at(TokenKind::And) {
        ranks_comparison_from(p.bump());
        let (rhs, q) = sealed_comparison_from(p.bump());
        ranks_binary(BinaryOp::And, lhs, rhs, q);
        let (e, r) = sealed_binary(BinaryOp::And, lhs, rhs, q);
        ranks_and_tail(e, r.after(p.bump()));
    }
}

#[verifier::spinoff_prover]
proof fn ranks_comparison_from(p: PState)
    ensures
        ({
            let r = sealed_comparison_from(p);
            {
                &&& ranked_expr(r.0)
                &&& 3 <= rank(r.0)
            }
        }),
    decreases p.toks, p.left(), 160int,
{
    unfold_comparison_from(p);
    ranks_relational_from(p);
    let (lhs, q) = sealed_relational_from(p);
    ranks_equality_tail(lhs, q.after(p));
}

#[verifier::spinoff_prover]
proof fn ranks_equality_tail(lhs: ExprV, p: PState)
    ensures
        ({
            let r = sealed_equality_tail(lhs, p);
            ranked_expr(lhs) && 3 <= rank(lhs) ==> {
                &&& ranked_expr(r.0)
                &&& 3 <= rank(r.0)
            }
        }),
    decreases p.toks, p.left(), 155int,
{
    unfold_equality_tail(lhs, p);
    match equality_op(p.kind()) {
        Some(op) => {
            ranks_relational_from(p.bump());
            let (rhs, q) = sealed_relational_from(p.bump());
            ranks_binary(op, lhs, rhs, q);
            let (e, r) = sealed_binary(op, lhs, rhs, q);
            ranks_equality_tail(e, r.after(p.bump()));
        },
        None => {},
    }
}

#[verifier::spinoff_prover]
proof fn ranks_relational_from(p: PState)
    ensures
        ({
            let r = sealed_relational_from(p);
            {
                &&& ranked_expr(r.0)
                &&& 4 <= rank(r.0)
            }
        }),
    decreases p.toks, p.left(), 150int,
{
    unfold_relational_from(p);
    ranks_arithmetic_from(p);
    let (lhs, q) = sealed_arithmetic_from(p);
    match relational_op(q.kind()) {
        Some(op) => {
            ranks_arithmetic_from(q.after(p).bump());
            let (rhs, r) = sealed_arithmetic_from(q.after(p).bump());
            ranks_binary(op, lhs, rhs, r);
        },
        None => {},
    }
}

#[verifier::spinoff_prover]
proof fn ranks_arithmetic_from(p: PState)
    ensures
        ({
            let r = sealed_arithmetic_from(p);
            {
                &&& ranked_expr(r.0)
                &&& 5 <= rank(r.0)
            }
        }),
    decreases p.toks, p.left(), 140int,
{
    unfold_arithmetic_from(p);
    ranks_term_from(p);
    let (lhs, q) = sealed_term_from(p);
    ranks_additive_tail(lhs, q.after(p));
}

#[verifier::spinoff_prover]
proof fn ranks_additive_tail(lhs: ExprV, p: PState)
    ensures
        ({
            let r = sealed_additive_tail(lhs, p);
            ranked_expr(lhs) && 5 <= rank(lhs) ==> {
                &&& ranked_expr(r.0)
                &&& 5 <= rank(r.0)
            }
        }),
    decreases p.toks, p.left(), 135int,
{
    unfold_additive_tail(lhs, p);
    match additive_op(p.kind()) {
        Some(op) => {
            ranks_term_from(p.bump());
            let (rhs, q) = sealed_term_from(p.bump());
            ranks_binary(op, lhs, rhs, q);
            let (e, r) = sealed_binary(op, lhs, rhs, q);
            ranks_additive_tail(e, r.after(p.bump()));
        },
        None => {},
    }
}

#[verifier::spinoff_prover]
proof fn ranks_term_from(p: PState)
    ensures
        ({
            let r = sealed_term_from(p);
            {
                &&& ranked_expr(r.0)
                &&& 6 <= rank(r.0)
            }
        }),
    decreases p.toks, p.left(), 130int,
{
    unfold_term_from(p);
    ranks_unary_from(p);
    let (lhs, q) = sealed_unary_from(p);
    ranks_multiplicative_tail(lhs, q.after(p));
}

#[verifier::spinoff_prover]
proof fn ranks_multiplicative_tail(lhs: ExprV, p: PState)
    ensures
        ({
            let r = sealed_multiplicative_tail(lhs, p);
            ranked_expr(lhs) && 6 <= rank(lhs) ==> {
                &&& ranked_expr(r.0)
                &&& 6 <= rank(r.0)
            }
        }),
    decreases p.toks, p.left(), 125int,
{
    unfold_multiplicative_tail(lhs, p);
    match multiplicative_op(p.kind()) {
        Some(op) => {
            ranks_unary_from(p.bump());
            let (rhs, q) = sealed_unary_from(p.bump());
            ranks_binary(op, lhs, rhs, q);
            let (e, r) = sealed_binary(op, lhs, rhs, q);
            ranks_multiplicative_tail(e, r.after(p.bump()));
        },
        None => {},
    }
}

#[verifier::spinoff_prover]
proof fn ranks_unary_from(p: PState)
    ensures
        ({
            let r = sealed_unary_from(p);
            {
                &&& ranked_expr(r.0)
                &&& 7 <= rank(r.0)
            }
        }),
    decreases p.toks, p.left(), 120int,
{
    unfold_unary_from(p);
    let start = p.current_span();
    match unary_op(p.kind()) {
        Some(op) => {
            let q = p.bump();
            if q.depth >= MAX_PARSE_DEPTH {
                ranks_poison(q.too_deep(start), start);
            } else {
                ranks_unary_from(q.deeper());
            }
            let (operand, r) = if q.depth >= MAX_PARSE_DEPTH {
                poison(q.too_deep(start), start)
            } else {
                let (e, s) = sealed_unary_from(q.deeper());
                (e, s.at_depth(q.depth))
            };
            ranks_node(
                r,
                ExprKindV::Unary { op, operand: Box::new(operand) },
                between(start, operand.span),
            );
        },
        None => {
            ranks_postfix_from(p);
        },
    }
}

#[verifier::spinoff_prover]
proof fn ranks_postfix_from(p: PState)
    ensures
        ({
            let r = sealed_postfix_from(p);
            {
                &&& ranked_expr(r.0)
                &&& 8 <= rank(r.0)
            }
        }),
    decreases p.toks, p.left(), 110int,
{
    unfold_postfix_from(p);
    ranks_primary_from(p);
    let (e, q) = sealed_primary_from(p);
    ranks_postfix_tail(e, q.after(p));
}

#[verifier::spinoff_prover]
proof fn ranks_postfix_tail(e: ExprV, p: PState)
    ensures
        ({
            let r = sealed_postfix_tail(e, p);
            ranked_expr(e) && 8 <= rank(e) ==> {
                &&& ranked_expr(r.0)
                &&& 8 <= rank(r.0)
            }
        }),
    decreases p.toks, p.left(), 105int,
{
    unfold_postfix_tail(e, p);
    lemma_list_args();
    let p1 = p.bump();
    match p.kind() {
        Some(TokenKind::Dot) => {
            ranks_dot_rest(e, p1);
            let (e2, q) = sealed_dot_rest(e, p1);
            ranks_postfix_tail(e2, q.after(p1));
        },
        Some(TokenKind::LParen) => {
            ranks_args_rest(p.current_span().start.line, p1);
            let (args, was_multiline, q) = sealed_args_rest(p.current_span().start.line, p1);
            ranks_node(
                q,
                ExprKindV::Call {
                    callee: Box::new(e),
                    type_args: Seq::empty(),
                    args,
                    was_multiline,
                },
                between(e.span, q.previous_span()),
            );
            let (e2, r) = node(
                q,
                ExprKindV::Call {
                    callee: Box::new(e),
                    type_args: Seq::empty(),
                    args,
                    was_multiline,
                },
                between(e.span, q.previous_span()),
            );
            ranks_postfix_tail(e2, r.after(p1));
        },
        Some(TokenKind::LBracket) => {
            if p.explicit_type_args() {
                let (type_args, q) = sealed_type_args_rest(p1);
                let q1 = q.after(p1);
                ranks_args_rest(q1.current_span().start.line, q1.bump());
                let (args, was_multiline, r) = sealed_args_rest(
                    q1.current_span().start.line,
                    q1.bump(),
                );
                ranks_node(
                    r,
                    ExprKindV::Call { callee: Box::new(e), type_args, args, was_multiline },
                    between(e.span, r.previous_span()),
                );
                let (e2, s) = node(
                    r,
                    ExprKindV::Call { callee: Box::new(e), type_args, args, was_multiline },
                    between(e.span, r.previous_span()),
                );
                ranks_postfix_tail(e2, s.after(p1));
            } else {
                ranks_expr_from(p1);
                let (index, q) = sealed_expr_from(p1);
                let r = q.expect(TokenKind::RBracket, "`]`"@);
                ranks_node(
                    r,
                    ExprKindV::Index { target: Box::new(e), index: Box::new(index) },
                    between(e.span, r.previous_span()),
                );
                let (e2, s) = node(
                    r,
                    ExprKindV::Index { target: Box::new(e), index: Box::new(index) },
                    between(e.span, r.previous_span()),
                );
                ranks_postfix_tail(e2, s.after(p1));
            }
        },
        Some(TokenKind::Question) => {
            let q = if p1.no_question {
                p1.unexpected(
                    p1.previous_span(),
                    "a bare `?` inside a par branch (or a lambda body passed to one) is forbidden (D-PAR-03)"@,
                )
            } else {
                p1
            };
            ranks_node(
                q,
                ExprKindV::Question { target: Box::new(e) },
                between(e.span, q.previous_span()),
            );
            let (e2, r) = node(
                q,
                ExprKindV::Question { target: Box::new(e) },
                between(e.span, q.previous_span()),
            );
            ranks_postfix_tail(e2, r.after(p1));
        },
        _ => {},
    }
}

#[verifier::spinoff_prover]
proof fn ranks_dot_rest(receiver: ExprV, p: PState)
    ensures
        ({
            let r = sealed_dot_rest(receiver, p);
            ranked_expr(receiver) && 8 <= rank(receiver) ==> {
                &&& ranked_expr(r.0)
                &&& 8 <= rank(r.0)
            }
        }),
    decreases p.toks, p.left(), 310int,
{
    unfold_dot_rest(receiver, p);
    lemma_list_args();
    match p.kind() {
        Some(TokenKind::IntLiteral(n)) => {
            let q = p.bump();
            ranks_node(
                q,
                ExprKindV::TupleIndex { target: Box::new(receiver), index: n as u32 },
                between(receiver.span, q.previous_span()),
            );
        },
        Some(TokenKind::Ident(name)) => {
            let q = p.bump();
            let (type_args, r) = if q.explicit_type_args() {
                sealed_type_args_rest(q.bump())
            } else {
                (Seq::empty(), q)
            };
            if r.at(TokenKind::LParen) {
                ranks_args_rest(r.current_span().start.line, r.after(q).bump());
                let (args, was_multiline, s) = sealed_args_rest(
                    r.current_span().start.line,
                    r.after(q).bump(),
                );
                ranks_node(
                    s,
                    ExprKindV::MethodCall {
                        receiver: Box::new(receiver),
                        method: name@,
                        type_args,
                        args,
                        was_multiline,
                    },
                    between(receiver.span, s.previous_span()),
                );
            } else {
                let s = if type_args.len() > 0 {
                    r.unexpected(
                        r.previous_span(),
                        "an explicit type argument list must be followed by a call `(...)`"@,
                    )
                } else {
                    r
                };
                ranks_node(
                    s,
                    ExprKindV::FieldAccess { target: Box::new(receiver), field: name@ },
                    between(receiver.span, s.previous_span()),
                );
            }
        },
        _ => {},
    }
}

#[verifier::spinoff_prover]
proof fn ranks_primary_from(p: PState)
    ensures
        ({
            let r = sealed_primary_from(p);
            {
                &&& ranked_expr(r.0)
                &&& 8 <= rank(r.0)
            }
        }),
    decreases p.toks, p.left(), 100int,
{
    unfold_primary_from(p);
    lemma_list_segments();
    let start = p.current_span();
    let p1 = p.bump();
    match p.kind() {
        Some(TokenKind::IntLiteral(n)) => {
            ranks_node(p1, ExprKindV::IntLit(n), start);
        },
        Some(TokenKind::FloatLiteral(s)) => {
            ranks_node(p1, ExprKindV::FloatLit(s@), start);
        },
        Some(TokenKind::True) => {
            ranks_node(p1, ExprKindV::BoolLit(true), start);
        },
        Some(TokenKind::False) => {
            ranks_node(p1, ExprKindV::BoolLit(false), start);
        },
        Some(TokenKind::StringLiteral(s)) => {
            ranks_node(p1, ExprKindV::StringLit(s@), start);
        },
        Some(TokenKind::FString(_)) => {
            ranks_segments_tail(Seq::empty(), p.pos, 0, p1);
            let (segments, q) = sealed_segments_tail(Seq::empty(), p.pos, 0, p1);
            ranks_node(q, ExprKindV::FString(segments), between(start, q.previous_span()));
        },
        Some(TokenKind::KwSelf) => {
            ranks_node(p1, ExprKindV::Ident("self"@), start);
        },
        Some(TokenKind::Ident(name)) => {
            ranks_node(p1, ExprKindV::Ident(name@), start);
        },
        Some(TokenKind::LParen) => {
            if close_followed(p.toks, p.pos, 0, TokenKind::FatArrow) {
                ranks_lambda_rest(start, p1);
            } else {
                ranks_paren_rest(start, p1);
            }
        },
        Some(TokenKind::LBracket) => {
            ranks_list_rest(start, p1);
        },
        Some(TokenKind::LBrace) => {
            ranks_brace_rest(start, p1);
        },
        Some(TokenKind::If) => {
            ranks_if_rest(start, p1);
            let (i, q) = sealed_if_rest(start, p1);
            ranks_node(q, ExprKindV::If(Box::new(i)), i.span);
        },
        Some(TokenKind::Match) => {
            ranks_match_rest(start, p1);
        },
        Some(TokenKind::Par) => {
            ranks_par_rest(start, p1);
        },
        _ => {
            ranks_poison(
                p.unexpected(start, "expected an expression but did not find one"@).bump(),
                start,
            );
        },
    }
}

#[verifier::spinoff_prover]
proof fn ranks_segments_tail(acc: Seq<SegmentV>, at: int, i: int, p: PState)
    ensures
        ({
            let r = sealed_segments_tail(acc, at, i, p);
            ranked_segments(acc) ==> {
                &&& ranked_segments(r.0)
            }
        }),
    decreases p.toks, p.left(), part_count(p.toks, at) - i,
{
    unfold_segments_tail(acc, at, i, p);
    lemma_list_segments();
    lemma_small_open();
    if 0 <= i < part_count(p.toks, at) {
        match p.toks[at].kind->FString_0@[i] {
            FStringPart::Text(text) => {
                ranks_segments_tail(acc.push(SegmentV::Text(text@)), at, i + 1, p);
            },
            FStringPart::Expr(sub) => {
                let inner = PState { toks: sub@, pos: 0, ..p };
                ranks_expr_from(inner);
                let (e, q) = sealed_expr_from(inner);
                let r = if q.pos < q.toks.len() {
                    q.unexpected(
                        q.current_span(),
                        "there are extra tokens in the f-string's expression"@,
                    )
                } else {
                    q
                };
                ranks_segments_tail(
                    acc.push(SegmentV::Expr(Box::new(e))),
                    at,
                    i + 1,
                    PState { toks: p.toks, pos: p.pos, ..r },
                );
            },
        }
    }
}

#[verifier::spinoff_prover]
proof fn ranks_paren_rest(start: Span, p: PState)
    ensures
        ({
            let r = sealed_paren_rest(start, p);
            {
                &&& ranked_expr(r.0)
                &&& 8 <= rank(r.0)
            }
        }),
    decreases p.toks, p.left(), 310int,
{
    unfold_paren_rest(start, p);
    lemma_list_exprs();
    if p.at(TokenKind::RParen) {
        let q = p.bump();
        ranks_node(
            q,
            ExprKindV::TupleLit { elements: Seq::empty(), was_multiline: false },
            between(start, q.previous_span()),
        );
    } else {
        ranks_expr_from(p);
        let (first, q) = sealed_expr_from(p);
        if q.at(TokenKind::Comma) {
            ranks_exprs_from(seq![first], q.after(p).bump(), TokenKind::RParen);
            let (elements, r) = sealed_exprs_from(
                seq![first],
                q.after(p).bump(),
                TokenKind::RParen,
            );
            let was_multiline = start.start.line != r.current_span().start.line;
            let s = r.expect(TokenKind::RParen, "`)`"@);
            ranks_node(
                s,
                ExprKindV::TupleLit { elements, was_multiline },
                between(start, s.previous_span()),
            );
        } else {
            let s = q.expect(TokenKind::RParen, "`)`"@);
            ranks_node(s, ExprKindV::Grouping(Box::new(first)), between(start, s.previous_span()));
        }
    }
}

#[verifier::spinoff_prover]
proof fn ranks_exprs_from(acc: Seq<ExprV>, p: PState, closing: TokenKind)
    ensures
        ({
            let r = sealed_exprs_from(acc, p, closing);
            ranked_exprs(acc) ==> {
                &&& ranked_exprs(r.0)
            }
        }),
    decreases p.toks, p.left(), 250int,
{
    unfold_exprs_from(acc, p, closing);
    lemma_list_exprs();
    if !p.at(closing) {
        ranks_expr_from(p);
        let (e, q) = sealed_expr_from(p);
        ranks_exprs_tail(acc.push(e), q.after(p), closing);
    }
}

#[verifier::spinoff_prover]
proof fn ranks_exprs_tail(acc: Seq<ExprV>, p: PState, closing: TokenKind)
    ensures
        ({
            let r = sealed_exprs_tail(acc, p, closing);
            ranked_exprs(acc) ==> {
                &&& ranked_exprs(r.0)
            }
        }),
    decreases p.toks, p.left(), 240int,
{
    unfold_exprs_tail(acc, p, closing);
    lemma_list_exprs();
    if p.at(TokenKind::Comma) {
        let q = p.bump();
        if !q.at(closing) {
            ranks_expr_from(q);
            let (e, r) = sealed_expr_from(q);
            ranks_exprs_tail(acc.push(e), r.after(q), closing);
        }
    }
}

#[verifier::spinoff_prover]
proof fn ranks_entry_from(p: PState)
    ensures
        ({
            let r = sealed_entry_from(p);
            {
                &&& ranked_entry(r.0)
            }
        }),
    decreases p.toks, p.left(), 230int,
{
    unfold_entry_from(p);
    open_entry(sealed_entry_from(p).0);
    ranks_expr_from(p);
    let (key, q) = sealed_expr_from(p);
    ranks_expr_from(q.expect(TokenKind::Colon, "`:`"@).after(p));
}

#[verifier::spinoff_prover]
proof fn ranks_entries_tail(acc: Seq<(ExprV, ExprV)>, p: PState)
    ensures
        ({
            let r = sealed_entries_tail(acc, p);
            ranked_entries(acc) ==> {
                &&& ranked_entries(r.0)
            }
        }),
    decreases p.toks, p.left(), 240int,
{
    unfold_entries_tail(acc, p);
    lemma_list_entries();
    lemma_small_open();
    if p.at(TokenKind::Comma) {
        let q = p.bump();
        if !q.at(TokenKind::RBrace) {
            ranks_entry_from(q);
            let (e, r) = sealed_entry_from(q);
            ranks_entries_tail(acc.push(e), r.after(q));
        }
    }
}

#[verifier::spinoff_prover]
proof fn ranks_lambda_rest(start: Span, p: PState)
    ensures
        ({
            let r = sealed_lambda_rest(start, p);
            {
                &&& ranked_expr(r.0)
                &&& 8 <= rank(r.0)
            }
        }),
    decreases p.toks, p.left(), 310int,
{
    unfold_lambda_rest(start, p);
    let (params, q) = sealed_lambda_params_from(p);
    let r = q.after(p).expect(TokenKind::RParen, "`)`"@).expect(TokenKind::FatArrow, "`=>`"@);
    ranks_expr_from(r.after(p).forbidding(false));
    let (body, s) = sealed_expr_from(r.after(p).forbidding(false));
    let t = s.forbidding(p.no_question);
    ranks_node(
        t,
        ExprKindV::Lambda { params, body: Box::new(body) },
        between(start, t.previous_span()),
    );
}

#[verifier::spinoff_prover]
proof fn ranks_list_rest(start: Span, p: PState)
    ensures
        ({
            let r = sealed_list_rest(start, p);
            {
                &&& ranked_expr(r.0)
                &&& 8 <= rank(r.0)
            }
        }),
    decreases p.toks, p.left(), 310int,
{
    unfold_list_rest(start, p);
    lemma_list_exprs();
    ranks_exprs_from(Seq::empty(), p, TokenKind::RBracket);
    let (elements, q) = sealed_exprs_from(Seq::empty(), p, TokenKind::RBracket);
    let was_multiline = start.start.line != q.current_span().start.line;
    let r = q.expect(TokenKind::RBracket, "`]`"@);
    ranks_node(
        r,
        ExprKindV::ListLit { elements, was_multiline },
        between(start, r.previous_span()),
    );
}

#[verifier::spinoff_prover]
proof fn ranks_brace_rest(start: Span, p: PState)
    ensures
        ({
            let r = sealed_brace_rest(start, p);
            {
                &&& ranked_expr(r.0)
                &&& 8 <= rank(r.0)
            }
        }),
    decreases p.toks, p.left(), 310int,
{
    unfold_brace_rest(start, p);
    lemma_list_exprs();
    lemma_list_entries();
    lemma_small_open();
    if p.at(TokenKind::RBrace) {
        let q = p.bump();
        ranks_node(
            q,
            ExprKindV::DictLit { entries: Seq::empty(), was_multiline: false },
            between(start, q.previous_span()),
        );
    } else {
        ranks_expr_from(p);
        let (first, q) = sealed_expr_from(p);
        if q.at(TokenKind::Colon) {
            ranks_expr_from(q.after(p).bump());
            let (value, r) = sealed_expr_from(q.after(p).bump());
            ranks_entries_tail(seq![(first, value)], r.after(p));
            let (entries, s) = sealed_entries_tail(seq![(first, value)], r.after(p));
            let was_multiline = start.start.line != s.current_span().start.line;
            let t = s.expect(TokenKind::RBrace, "`}`"@);
            ranks_node(
                t,
                ExprKindV::DictLit { entries, was_multiline },
                between(start, t.previous_span()),
            );
        } else {
            ranks_exprs_tail(seq![first], q.after(p), TokenKind::RBrace);
            let (elements, s) = sealed_exprs_tail(seq![first], q.after(p), TokenKind::RBrace);
            let was_multiline = start.start.line != s.current_span().start.line;
            let t = s.expect(TokenKind::RBrace, "`}`"@);
            ranks_node(
                t,
                ExprKindV::SetLit { elements, was_multiline },
                between(start, t.previous_span()),
            );
        }
    }
}

#[verifier::spinoff_prover]
proof fn ranks_match_rest(start: Span, p: PState)
    ensures
        ({
            let r = sealed_match_rest(start, p);
            {
                &&& ranked_expr(r.0)
                &&& 8 <= rank(r.0)
            }
        }),
    decreases p.toks, p.left(), 310int,
{
    unfold_match_rest(start, p);
    lemma_list_arms();
    ranks_expr_from(p);
    let (scrutinee, q) = sealed_expr_from(p);
    if q.indented_ahead() {
        ranks_arms_block(Seq::empty(), q.after(p).bump().bump());
    } else {
        ranks_arms_inline(Seq::empty(), q.after(p));
    }
    let (arms, r) = if q.indented_ahead() {
        sealed_arms_block(Seq::empty(), q.after(p).bump().bump())
    } else {
        sealed_arms_inline(Seq::empty(), q.after(p))
    };
    ranks_node(
        r,
        ExprKindV::Match { scrutinee: Box::new(scrutinee), arms },
        between(start, r.previous_span()),
    );
}

#[verifier::spinoff_prover]
proof fn ranks_arms_block(acc: Seq<ArmV>, p: PState)
    ensures
        ({
            let r = sealed_arms_block(acc, p);
            ranked_arms(acc) ==> {
                &&& ranked_arms(r.0)
            }
        }),
    decreases p.toks, p.left(), 300int,
{
    unfold_arms_block(acc, p);
    lemma_list_arms();
    let q = p.newlines().after(p);
    if !q.at(TokenKind::Dedent) {
        if !q.at_end() {
            ranks_arm_from(q);
            let (arm, r) = sealed_arm_from(q);
            ranks_arms_block(acc.push(arm), r.after(q.bump()));
        }
    }
}

#[verifier::spinoff_prover]
proof fn ranks_arms_inline(acc: Seq<ArmV>, p: PState)
    ensures
        ({
            let r = sealed_arms_inline(acc, p);
            ranked_arms(acc) ==> {
                &&& ranked_arms(r.0)
            }
        }),
    decreases p.toks, p.left(), 300int,
{
    unfold_arms_inline(acc, p);
    lemma_list_arms();
    if p.at_pattern_start() {
        ranks_arm_from(p);
        let (arm, r) = sealed_arm_from(p);
        ranks_arms_inline(acc.push(arm), r.after(p.bump()));
    }
}

#[verifier::spinoff_prover]
proof fn ranks_arm_from(p: PState)
    ensures
        ({
            let r = sealed_arm_from(p);
            {
                &&& ranked_arm(r.0)
            }
        }),
    decreases p.toks, p.left(), 290int,
{
    unfold_arm_from(p);
    open_arm(sealed_arm_from(p).0);
    let (pattern, q) = sealed_pattern_from(p);
    ranks_arm_body_from(q.expect(TokenKind::FatArrow, "`=>`"@).after(p));
}

#[verifier::spinoff_prover]
proof fn ranks_arm_body_from(p: PState)
    ensures
        ({
            let r = sealed_arm_body_from(p);
            {
                &&& ranked_arm_body(r.0)
            }
        }),
    decreases p.toks, p.left(), 280int,
{
    unfold_arm_body_from(p);
    open_arm_body(sealed_arm_body_from(p).0);
    if p.indented_ahead() {
        ranks_block_from(p);
    } else {
        ranks_expr_from(p);
    }
}

#[verifier::spinoff_prover]
proof fn ranks_par_rest(start: Span, p: PState)
    ensures
        ({
            let r = sealed_par_rest(start, p);
            {
                &&& ranked_expr(r.0)
                &&& 8 <= rank(r.0)
            }
        }),
    decreases p.toks, p.left(), 310int,
{
    unfold_par_rest(start, p);
    if p.at(TokenKind::LBracket) {
        ranks_par_elements(start, ParKind::List, TokenKind::RBracket, "`]`"@, p.bump());
    } else {
        if p.at(TokenKind::LParen) {
            ranks_par_elements(start, ParKind::Tuple, TokenKind::RParen, "`)`"@, p.bump());
        } else {
            ranks_poison(p.unexpected(start, "`par` must be followed by `[` or `(`"@), start);
        }
    }
}

#[verifier::spinoff_prover]
proof fn ranks_par_elements(
    start: Span,
    kind: ParKind,
    closing: TokenKind,
    closing_text: Seq<char>,
    p: PState,
)
    ensures
        ({
            let r = sealed_par_elements(start, kind, closing, closing_text, p);
            {
                &&& ranked_expr(r.0)
                &&& 8 <= rank(r.0)
            }
        }),
    decreases p.toks, p.left(), 300int,
{
    unfold_par_elements(start, kind, closing, closing_text, p);
    lemma_list_exprs();
    ranks_exprs_from(Seq::empty(), p.forbidding(true), closing);
    let (elements, q) = sealed_exprs_from(Seq::empty(), p.forbidding(true), closing);
    let r = q.forbidding(p.no_question).expect(closing, closing_text);
    ranks_node(r, ExprKindV::Par { kind, elements }, between(start, r.previous_span()));
}

#[verifier::spinoff_prover]
proof fn ranks_args_rest(open_line: u32, p: PState)
    ensures
        ({
            let r = sealed_args_rest(open_line, p);
            {
                &&& ranked_args(r.0)
            }
        }),
    decreases p.toks, p.left(), 300int,
{
    unfold_args_rest(open_line, p);
    ranks_args_from(p);
}

#[verifier::spinoff_prover]
proof fn ranks_args_from(p: PState)
    ensures
        ({
            let r = sealed_args_from(p);
            {
                &&& ranked_args(r.0)
            }
        }),
    decreases p.toks, p.left(), 250int,
{
    unfold_args_from(p);
    lemma_list_args();
    if !p.at(TokenKind::RParen) {
        ranks_arg_from(p);
        let (a, q) = sealed_arg_from(p);
        ranks_args_tail(seq![a], q.after(p));
    }
}

#[verifier::spinoff_prover]
proof fn ranks_args_tail(acc: Seq<ArgV>, p: PState)
    ensures
        ({
            let r = sealed_args_tail(acc, p);
            ranked_args(acc) ==> {
                &&& ranked_args(r.0)
            }
        }),
    decreases p.toks, p.left(), 240int,
{
    unfold_args_tail(acc, p);
    lemma_list_args();
    if p.at(TokenKind::Comma) {
        let q = p.bump();
        if !q.at(TokenKind::RParen) {
            ranks_arg_from(q);
            let (a, r) = sealed_arg_from(q);
            ranks_args_tail(acc.push(a), r.after(q));
        }
    }
}

#[verifier::spinoff_prover]
proof fn ranks_arg_from(p: PState)
    ensures
        ({
            let r = sealed_arg_from(p);
            {
                &&& ranked_arg(r.0)
            }
        }),
    decreases p.toks, p.left(), 230int,
{
    unfold_arg_from(p);
    open_arg(sealed_arg_from(p).0);
    match p.kind() {
        Some(TokenKind::Underscore) => {
            ranks_node(p.bump(), ExprKindV::Ident("_"@), p.current_span());
        },
        Some(TokenKind::Ident(name)) => {
            if p.kind_at(1) == Some(TokenKind::Colon) {
                ranks_expr_from(p.bump().bump());
            } else {
                ranks_expr_from(p);
            }
        },
        _ => {
            ranks_expr_from(p);
        },
    }
}

#[verifier::spinoff_prover]
proof fn ranks_block_from(p: PState)
    ensures
        ({
            let r = sealed_block_from(p);
            {
                &&& ranked_block(r.0)
            }
        }),
    decreases p.toks, p.left(), 270int,
{
    unfold_block_from(p);
    open_block(sealed_block_from(p).0);
    lemma_list_stmts();
    let q = if p.at(TokenKind::Newline) {
        p.bump()
    } else {
        p
    };
    if q.at(TokenKind::Indent) {
        ranks_stmts_tail(Seq::empty(), q.bump());
    }
}

#[verifier::spinoff_prover]
proof fn ranks_stmts_tail(acc: Seq<StmtV>, p: PState)
    ensures
        ({
            let r = sealed_stmts_tail(acc, p);
            ranked_stmts(acc) ==> {
                &&& ranked_stmts(r.0)
            }
        }),
    decreases p.toks, p.left(), 400int,
{
    unfold_stmts_tail(acc, p);
    lemma_list_stmts();
    let q = p.newlines().after(p);
    if !q.at(TokenKind::Dedent) {
        if !q.at_end() {
            ranks_stmt_or_skip_from(q);
            let (s, r) = sealed_stmt_or_skip_from(q);
            ranks_stmts_tail(acc.push(s), r.after(q.bump()));
        }
    }
}

#[verifier::spinoff_prover]
proof fn ranks_stmt_or_skip_from(p: PState)
    ensures
        ({
            let r = sealed_stmt_or_skip_from(p);
            {
                &&& ranked_stmt(r.0)
            }
        }),
    decreases p.toks, p.left(), 360int,
{
    unfold_stmt_or_skip_from(p);
    ranks_stmt_from(p);
}

#[verifier::spinoff_prover]
proof fn ranks_stmt_from(p: PState)
    ensures
        ({
            let r = sealed_stmt_from(p);
            {
                &&& ranked_stmt(r.0)
            }
        }),
    decreases p.toks, p.left(), 350int,
{
    unfold_stmt_from(p);
    open_stmt(sealed_stmt_from(p).0);
    ranks_stmt_kind_from(p);
}

#[verifier::spinoff_prover]
proof fn ranks_stmt_kind_from(p: PState)
    ensures
        ({
            let r = sealed_stmt_kind_from(p);
            {
                &&& ranked_stmt_kind(r.0)
            }
        }),
    decreases p.toks, p.left(), 348int,
{
    unfold_stmt_kind_from(p);
    open_stmt_kind(sealed_stmt_kind_from(p).0);
    match p.kind() {
        Some(TokenKind::Var) => {
            ranks_var_rest(p.bump());
        },
        Some(TokenKind::Return) => {
            ranks_return_rest(p.bump());
        },
        Some(TokenKind::Underscore) => {
            if p.kind_at(1) == Some(TokenKind::Eq) {
                ranks_expr_from(p.bump().bump());
            } else {
                ranks_assign_or_expr_from(p);
            }
        },
        _ => {
            ranks_assign_or_expr_from(p);
        },
    }
}

#[verifier::spinoff_prover]
proof fn ranks_var_rest(p: PState)
    ensures
        ({
            let r = sealed_var_rest(p);
            {
                &&& ranked_stmt_kind(r.0)
            }
        }),
    decreases p.toks, p.left(), 310int,
{
    unfold_var_rest(p);
    open_stmt_kind(sealed_var_rest(p).0);
    let (name, q) = sealed_binding_name(p, "variable name"@);
    let (ty, r) = sealed_opt_type_from(q);
    ranks_expr_from(r.expect(TokenKind::Eq, "`=`"@).after(p));
}

#[verifier::spinoff_prover]
proof fn ranks_return_rest(p: PState)
    ensures
        ({
            let r = sealed_return_rest(p);
            {
                &&& ranked_stmt_kind(r.0)
            }
        }),
    decreases p.toks, p.left(), 310int,
{
    unfold_return_rest(p);
    open_stmt_kind(sealed_return_rest(p).0);
    if !(p.at_end() || p.at(TokenKind::Newline) || p.at(TokenKind::Dedent)) {
        ranks_expr_from(p);
    }
}

#[verifier::spinoff_prover]
proof fn ranks_assign_or_expr_from(p: PState)
    ensures
        ({
            let r = sealed_assign_or_expr_from(p);
            {
                &&& ranked_stmt_kind(r.0)
            }
        }),
    decreases p.toks, p.left(), 340int,
{
    unfold_assign_or_expr_from(p);
    open_stmt_kind(sealed_assign_or_expr_from(p).0);
    ranks_expr_from(p);
    let (lhs, q) = sealed_expr_from(p);
    match q.kind() {
        Some(TokenKind::Colon) => {
            ranks_annotated_rest(lhs, q.after(p).bump());
        },
        Some(TokenKind::Eq) => {
            ranks_assigned_rest(lhs, q.after(p).bump());
        },
        _ => {},
    }
}

#[verifier::spinoff_prover]
proof fn ranks_annotated_rest(lhs: ExprV, p: PState)
    ensures
        ({
            let r = sealed_annotated_rest(lhs, p);
            ranked_expr(lhs) ==> {
                &&& ranked_stmt_kind(r.0)
            }
        }),
    decreases p.toks, p.left(), 310int,
{
    unfold_annotated_rest(lhs, p);
    open_stmt_kind(sealed_annotated_rest(lhs, p).0);
    open_expr(lhs);
    let (ty, q) = sealed_type_from(p);
    ranks_expr_from(q.expect(TokenKind::Eq, "`=`"@).after(p));
}

#[verifier::spinoff_prover]
proof fn ranks_assigned_rest(lhs: ExprV, p: PState)
    ensures
        ({
            let r = sealed_assigned_rest(lhs, p);
            ranked_expr(lhs) ==> {
                &&& ranked_stmt_kind(r.0)
            }
        }),
    decreases p.toks, p.left(), 310int,
{
    unfold_assigned_rest(lhs, p);
    open_stmt_kind(sealed_assigned_rest(lhs, p).0);
    open_expr(lhs);
    open_kind(lhs.kind);
    ranks_expr_from(p);
}

#[verifier::spinoff_prover]
proof fn ranks_if_rest(start: Span, p: PState)
    ensures
        ({
            let r = sealed_if_rest(start, p);
            {
                &&& ranked_if(r.0)
            }
        }),
    decreases p.toks, p.left(), 310int,
{
    unfold_if_rest(start, p);
    open_if(sealed_if_rest(start, p).0);
    ranks_expr_from(p);
    let (cond, q) = sealed_expr_from(p);
    ranks_branch_from(q.after(p));
    let (then_branch, r) = sealed_branch_from(q.after(p));
    ranks_else_from(r.after(p));
}

#[verifier::spinoff_prover]
proof fn ranks_else_from(p: PState)
    ensures
        ({
            let r = sealed_else_from(p);
            {
                &&& ranked_else(r.0)
            }
        }),
    decreases p.toks, p.left(), 300int,
{
    unfold_else_from(p);
    open_else(sealed_else_from(p).0);
    lemma_list_stmts();
    open_block(BlockV { stmts: Seq::empty(), span: p.current_span() });
    if p.at(TokenKind::Else) {
        let q = p.bump();
        if q.at(TokenKind::If) {
            ranks_if_rest(q.current_span(), q.bump());
        } else {
            ranks_branch_from(q);
        }
    }
}

#[verifier::spinoff_prover]
proof fn ranks_branch_from(p: PState)
    ensures
        ({
            let r = sealed_branch_from(p);
            {
                &&& ranked_block(r.0)
            }
        }),
    decreases p.toks, p.left(), 280int,
{
    unfold_branch_from(p);
    open_block(sealed_branch_from(p).0);
    lemma_list_stmts();
    let e = sealed_expr_from(p).0;
    open_stmt(plain_stmt(StmtKindV::ExprStmt(e), e.span));
    open_stmt_kind(StmtKindV::ExprStmt(e));
    if p.indented_ahead() {
        ranks_block_from(p);
    } else {
        ranks_expr_from(p);
    }
}

#[verifier::spinoff_prover]
proof fn ranks_function_from(p: PState)
    ensures
        ({
            let r = sealed_function_from(p);
            {
                &&& ranked_function(r.0)
            }
        }),
{
    unfold_function_from(p);
    open_function(sealed_function_from(p).0);
    let (name, p1) = p.bump().ident("function name"@);
    let (generics, p2) = sealed_generics_from(p1);
    let (self_param, params, p3) = sealed_function_params_from(
        p2.expect(TokenKind::LParen, "`(`"@),
    );
    let p4 = p3.expect(TokenKind::RParen, "`)`"@).expect(
        TokenKind::Colon,
        "`:` (return type annotation)"@,
    );
    let (ret, p5) = sealed_type_from(p4);
    let (effects, p6) = sealed_uses_from(p5);
    ranks_block_from(p6);
}

#[verifier::spinoff_prover]
proof fn ranks_struct_from(p: PState)
    ensures
        ({
            let r = sealed_struct_from(p);
            {
                &&& ranked_struct(r.0)
            }
        }),
{
    unfold_struct_from(p);
    open_struct(sealed_struct_from(p).0);
    lemma_list_functions();
    let (name, p1) = p.bump().ident("struct name"@);
    let (generics, p2) = sealed_generics_from(p1);
    let (has_body, p3) = sealed_body_from(p2);
    if has_body {
        ranks_members_tail(Seq::empty(), Seq::empty(), p3);
    }
}

#[verifier::spinoff_prover]
proof fn ranks_members_tail(fields: Seq<ParamV>, methods: Seq<FunctionV>, p: PState)
    ensures
        ({
            let r = sealed_members_tail(fields, methods, p);
            ranked_functions(methods) ==> {
                &&& ranked_functions(r.1)
            }
        }),
    decreases p.left(),
{
    unfold_members_tail(fields, methods, p);
    lemma_list_functions();
    let q = p.newlines().after(p);
    match q.kind() {
        Some(TokenKind::Dedent) => {},
        None => {},
        Some(TokenKind::Eof) => {},
        Some(TokenKind::Def) => {
            ranks_function_from(q);
            let (f, r) = sealed_function_from(q);
            ranks_members_tail(fields, methods.push(f), r.after(q.bump()));
        },
        Some(TokenKind::Ident(_)) => {
            let (x, r) = sealed_param_from(q);
            ranks_members_tail(fields.push(x), methods, r.after(q.bump()));
        },
        Some(_) => {
            let r = q.unexpected(
                q.current_span(),
                "expected a struct field or method definition"@,
            ).sync(0);
            ranks_members_tail(fields, methods, r.after(q.bump()));
        },
    }
}

#[verifier::spinoff_prover]
proof fn ranks_items_tail(acc: Seq<ItemV>, p: PState)
    ensures
        ({
            let r = sealed_items_tail(acc, p);
            ranked_items(acc) ==> {
                &&& ranked_items(r.0)
            }
        }),
    decreases p.left(),
{
    unfold_items_tail(acc, p);
    lemma_list_items();
    let q = p.newlines().after(p);
    if !(q.at_end() || q.at(TokenKind::Dedent)) {
        ranks_item_from(q);
        let (item, r) = sealed_item_from(q);
        ranks_items_tail(acc.push(item), r.after(q.bump()));
    }
}

#[verifier::spinoff_prover]
proof fn ranks_item_from(p: PState)
    ensures
        ({
            let r = sealed_item_from(p);
            {
                &&& ranked_item(r.0)
            }
        }),
{
    unfold_item_from(p);
    open_item(sealed_item_from(p).0);
    match p.kind() {
        Some(TokenKind::Def) => {
            ranks_function_from(p);
        },
        Some(TokenKind::Struct) => {
            ranks_struct_from(p);
        },
        Some(TokenKind::Enum) => {},
        _ => {
            ranks_stmt_or_skip_from(p);
        },
    }
}

// ---------------------------------------------------------------------------
// A whole file
// ---------------------------------------------------------------------------

/// In a module that was read, whatever was reported, every operator binds by its level: its parts
/// hold together more closely than it does, and operators of one level are read from left to
/// right. Only parentheses put an expression of a lower level inside one of a higher.
#[verifier::spinoff_prover]
pub proof fn law_operators_bind_by_their_level(toks: Seq<Token>, file: FileId, start_id: u32)
    ensures
        ranked_items(module_from(toks, file, start_id).0.items),
{
    unfold_module_from(toks, file, start_id);
    let (directive, q) = sealed_directive_from(initial(toks, file, start_id));
    lemma_list_items();
    ranks_items_tail(Seq::empty(), q);
}

} // verus!
