//! Node numbers: no two nodes of a module share one.

use super::grammar::{
    additive_op, directive_from, equality_op, initial, items_tail, literal_from, module_from,
    multiplicative_op, part_count, plain_stmt, relational_op, unary_op,
};
use super::numbering::{lemma_directive_from, lemma_items_tail, lemma_raised_items, raised_state};
use super::sealed::{
    sealed_additive_tail, sealed_and_from, sealed_and_tail, sealed_annotated_rest, sealed_arg_from,
    sealed_args_from, sealed_args_rest, sealed_args_tail, sealed_arithmetic_from,
    sealed_arm_body_from, sealed_arm_from, sealed_arms_block, sealed_arms_inline,
    sealed_assign_or_expr_from, sealed_assigned_rest, sealed_binary, sealed_binding_name,
    sealed_block_from, sealed_body_from, sealed_brace_rest, sealed_branch_from, sealed_callee_rest,
    sealed_comparison_from, sealed_destination_from, sealed_destination_tail, sealed_directive_from,
    sealed_dot_rest, sealed_else_from, sealed_entries_tail, sealed_entry_from, sealed_enum_from,
    sealed_equality_tail, sealed_expr_from, sealed_exprs_from, sealed_exprs_tail,
    sealed_function_from, sealed_function_params_from, sealed_function_type_rest,
    sealed_generics_from, sealed_idents_from, sealed_idents_tail, sealed_if_rest, sealed_item_from,
    sealed_items_tail, sealed_lambda_param_from, sealed_lambda_params_from,
    sealed_lambda_params_tail, sealed_lambda_rest, sealed_line_end, sealed_list_rest,
    sealed_logical_from, sealed_match_rest, sealed_members_tail, sealed_multiplicative_tail,
    sealed_named_type_rest, sealed_opt_comma, sealed_opt_type_from, sealed_or_tail,
    sealed_par_elements, sealed_par_rest, sealed_param_from, sealed_params_tail, sealed_paren_rest,
    sealed_pattern_from, sealed_pipe_from, sealed_postfix_from, sealed_postfix_tail,
    sealed_primary_from, sealed_relational_from, sealed_return_rest, sealed_segments_tail,
    sealed_self_param_from, sealed_stage_from, sealed_stages_tail, sealed_stmt_from,
    sealed_stmt_kind_from, sealed_stmt_or_skip_from, sealed_stmts_tail, sealed_struct_from,
    sealed_sub_pattern_from, sealed_sub_patterns_from, sealed_sub_patterns_tail, sealed_term_from,
    sealed_type_args_rest, sealed_type_from, sealed_types_from, sealed_types_tail,
    sealed_unary_from, sealed_uses_from, sealed_var_rest, sealed_variant_field_from,
    sealed_variant_fields_from, sealed_variant_fields_tail, sealed_variant_from,
    sealed_variants_tail, unfold_additive_tail, unfold_and_from, unfold_and_tail,
    unfold_annotated_rest, unfold_arg_from, unfold_args_from, unfold_args_rest, unfold_args_tail,
    unfold_arithmetic_from, unfold_arm_body_from, unfold_arm_from, unfold_arms_block,
    unfold_arms_inline, unfold_assign_or_expr_from, unfold_assigned_rest, unfold_binary,
    unfold_binding_name, unfold_block_from, unfold_body_from, unfold_brace_rest, unfold_branch_from,
    unfold_callee_rest, unfold_comparison_from, unfold_destination_from, unfold_destination_tail,
    unfold_directive_from, unfold_dot_rest, unfold_else_from, unfold_entries_tail,
    unfold_entry_from, unfold_enum_from, unfold_equality_tail, unfold_expr_from, unfold_exprs_from,
    unfold_exprs_tail, unfold_function_from, unfold_function_params_from, unfold_function_type_rest,
    unfold_generics_from, unfold_idents_from, unfold_idents_tail, unfold_if_rest, unfold_item_from,
    unfold_items_tail, unfold_lambda_param_from, unfold_lambda_params_from,
    unfold_lambda_params_tail, unfold_lambda_rest, unfold_line_end, unfold_list_rest,
    unfold_logical_from, unfold_match_rest, unfold_members_tail, unfold_module_from,
    unfold_multiplicative_tail, unfold_named_type_rest, unfold_opt_comma, unfold_opt_type_from,
    unfold_or_tail, unfold_par_elements, unfold_par_rest, unfold_param_from, unfold_params_tail,
    unfold_paren_rest, unfold_pattern_from, unfold_pipe_from, unfold_postfix_from,
    unfold_postfix_tail, unfold_primary_from, unfold_relational_from, unfold_return_rest,
    unfold_segments_tail, unfold_self_param_from, unfold_stage_from, unfold_stages_tail,
    unfold_stmt_from, unfold_stmt_kind_from, unfold_stmt_or_skip_from, unfold_stmts_tail,
    unfold_struct_from, unfold_sub_pattern_from, unfold_sub_patterns_from, unfold_sub_patterns_tail,
    unfold_term_from, unfold_type_args_rest, unfold_type_from, unfold_types_from, unfold_types_tail,
    unfold_unary_from, unfold_uses_from, unfold_var_rest, unfold_variant_field_from,
    unfold_variant_fields_from, unfold_variant_fields_tail, unfold_variant_from,
    unfold_variants_tail,
};
use super::state::{between, close_followed, closer, node, opener, poison, PState, MAX_PARSE_DEPTH};
use crate::ast::{
    ArgV, ArmBodyV, ArmV, BinaryOp, BlockV, CalleeV, DeclV, ElseV, EnumV, ExprKindV, ExprV,
    FunctionV, IfV, ItemV, LambdaParamV, ModuleV, ParKind, ParamV, PatternV, SegmentV, StageV,
    StmtKindV, StmtV, StructV, SubPatternV, TypeV, VariantV,
};
use crate::diagnostics::{ErrorCode, FileId, Span};
use crate::lexer::{FStringPart, Token, TokenKind};
use vstd::prelude::*;

verus! {

// ---------------------------------------------------------------------------
// The numbers in a tree
// ---------------------------------------------------------------------------

/// The numbers of the nodes in a pattern; so for the other trees, where the numbers of the parts
/// of a node come before its own.
#[verifier::opaque]
pub open spec fn numbers_sub_pattern(x: SubPatternV) -> Seq<int> {
    match x {
        SubPatternV::BareIdent(name, id, span) => seq![id.0 as int],
        _ => Seq::empty(),
    }
}

#[verifier::opaque]
pub open spec fn numbers_pattern(x: PatternV) -> Seq<int> {
    match x {
        PatternV::BareIdent(name, id, span) => seq![id.0 as int],
        PatternV::Variant { name, fields, span } => numbers_sub_patterns(
            fields,
            fields.len() as int,
        ),
        PatternV::Tuple { elements, span } => numbers_sub_patterns(elements, elements.len() as int),
        _ => Seq::empty(),
    }
}

#[verifier::opaque]
pub open spec fn numbers_expr(x: ExprV) -> Seq<int>
    decreases x, 0int,
{
    numbers_kind(x.kind) + seq![x.id.0 as int]
}

#[verifier::opaque]
pub open spec fn numbers_segment(x: SegmentV) -> Seq<int>
    decreases x, 0int,
{
    match x {
        SegmentV::Expr(e) => numbers_expr(*e),
        _ => Seq::empty(),
    }
}

#[verifier::opaque]
pub open spec fn numbers_arg(x: ArgV) -> Seq<int>
    decreases x, 0int,
{
    numbers_expr(x.value)
}

#[verifier::opaque]
pub open spec fn numbers_entry(x: (ExprV, ExprV)) -> Seq<int> {
    numbers_expr(x.0) + numbers_expr(x.1)
}

#[verifier::opaque]
pub open spec fn numbers_stage(x: StageV) -> Seq<int>
    decreases x, 0int,
{
    numbers_callee(x.callee)
}

#[verifier::opaque]
pub open spec fn numbers_callee(x: CalleeV) -> Seq<int>
    decreases x, 0int,
{
    match x {
        CalleeV::Bare(e) => numbers_expr(e),
        CalleeV::WithArgs { callee, args } => numbers_expr(*callee) + numbers_args(
            args,
            args.len() as int,
        ),
    }
}

#[verifier::opaque]
pub open spec fn numbers_kind(x: ExprKindV) -> Seq<int>
    decreases x, 0int,
{
    match x {
        ExprKindV::FString(segments) => numbers_segments(segments, segments.len() as int),
        ExprKindV::ListLit { elements, was_multiline } => numbers_exprs(
            elements,
            elements.len() as int,
        ),
        ExprKindV::SetLit { elements, was_multiline } => numbers_exprs(
            elements,
            elements.len() as int,
        ),
        ExprKindV::TupleLit { elements, was_multiline } => numbers_exprs(
            elements,
            elements.len() as int,
        ),
        ExprKindV::DictLit { entries, was_multiline } => numbers_entries(
            entries,
            entries.len() as int,
        ),
        ExprKindV::Unary { op, operand } => numbers_expr(*operand),
        ExprKindV::Binary { op, lhs, rhs } => numbers_expr(*lhs) + numbers_expr(*rhs),
        ExprKindV::Call { callee, type_args, args, was_multiline } => numbers_expr(*callee) + numbers_args(
            args,
            args.len() as int,
        ),
        ExprKindV::MethodCall { receiver, method, type_args, args, was_multiline } => numbers_expr(*receiver) + numbers_args(
            args,
            args.len() as int,
        ),
        ExprKindV::FieldAccess { target, field } => numbers_expr(*target),
        ExprKindV::TupleIndex { target, index } => numbers_expr(*target),
        ExprKindV::Index { target, index } => numbers_expr(*target) + numbers_expr(*index),
        ExprKindV::Question { target } => numbers_expr(*target),
        ExprKindV::Pipe { source, stages } => numbers_expr(*source) + numbers_stages(
            stages,
            stages.len() as int,
        ),
        ExprKindV::Lambda { params, body } => numbers_expr(*body),
        ExprKindV::If(i) => numbers_if(*i),
        ExprKindV::Match { scrutinee, arms } => numbers_expr(*scrutinee) + numbers_arms(
            arms,
            arms.len() as int,
        ),
        ExprKindV::Par { kind, elements } => numbers_exprs(elements, elements.len() as int),
        ExprKindV::Grouping(e) => numbers_expr(*e),
        _ => Seq::empty(),
    }
}

#[verifier::opaque]
pub open spec fn numbers_if(x: IfV) -> Seq<int>
    decreases x, 0int,
{
    numbers_expr(*x.cond) + numbers_block(x.then_branch) + numbers_else(x.else_branch)
}

#[verifier::opaque]
pub open spec fn numbers_else(x: ElseV) -> Seq<int>
    decreases x, 0int,
{
    match x {
        ElseV::Block(b) => numbers_block(b),
        ElseV::ElseIf(i) => numbers_if(*i),
    }
}

#[verifier::opaque]
pub open spec fn numbers_arm(x: ArmV) -> Seq<int>
    decreases x, 0int,
{
    numbers_pattern(x.pattern) + numbers_arm_body(x.body)
}

#[verifier::opaque]
pub open spec fn numbers_arm_body(x: ArmBodyV) -> Seq<int>
    decreases x, 0int,
{
    match x {
        ArmBodyV::Expr(e) => numbers_expr(e),
        ArmBodyV::Block(b) => numbers_block(b),
    }
}

#[verifier::opaque]
pub open spec fn numbers_block(x: BlockV) -> Seq<int>
    decreases x, 0int,
{
    numbers_stmts(x.stmts, x.stmts.len() as int)
}

#[verifier::opaque]
pub open spec fn numbers_stmt(x: StmtV) -> Seq<int>
    decreases x, 0int,
{
    numbers_stmt_kind(x.kind)
}

#[verifier::opaque]
pub open spec fn numbers_stmt_kind(x: StmtKindV) -> Seq<int>
    decreases x, 0int,
{
    match x {
        StmtKindV::VarDecl { name, ty, value } => numbers_expr(value),
        StmtKindV::NameAssign { name, ty, value } => numbers_expr(value),
        StmtKindV::FieldAssign { target, field, value } => numbers_expr(target) + numbers_expr(
            value,
        ),
        StmtKindV::IndexAssign { target, index, value } => numbers_expr(target) + numbers_expr(index) + numbers_expr(
            value,
        ),
        StmtKindV::Discard(e) => numbers_expr(e),
        StmtKindV::ExprStmt(e) => numbers_expr(e),
        StmtKindV::Return(Some(e)) => numbers_expr(e),
        StmtKindV::Return(None) => Seq::empty(),
    }
}

#[verifier::opaque]
pub open spec fn numbers_function(x: FunctionV) -> Seq<int> {
    numbers_block(x.body) + seq![x.id.0 as int]
}

#[verifier::opaque]
pub open spec fn numbers_struct(x: StructV) -> Seq<int> {
    numbers_functions(x.methods, x.methods.len() as int) + seq![x.id.0 as int]
}

#[verifier::opaque]
pub open spec fn numbers_enum(x: EnumV) -> Seq<int> {
    seq![x.id.0 as int]
}

#[verifier::opaque]
pub open spec fn numbers_item(x: ItemV) -> Seq<int> {
    match x {
        ItemV::Decl(DeclV::Function(d)) => numbers_function(d),
        ItemV::Decl(DeclV::Struct(d)) => numbers_struct(d),
        ItemV::Decl(DeclV::Enum(d)) => numbers_enum(d),
        ItemV::Stmt(s) => numbers_stmt(s),
    }
}

#[verifier::opaque]
pub open spec fn numbers_exprs(x: Seq<ExprV>, n: int) -> Seq<int>
    decreases x, n,
{
    if 0 < n <= x.len() {
        numbers_exprs(x, n - 1) + (numbers_expr(x[n - 1]))
    } else {
        Seq::empty()
    }
}

#[verifier::opaque]
pub open spec fn numbers_entries(x: Seq<(ExprV, ExprV)>, n: int) -> Seq<int>
    decreases x, n,
{
    if 0 < n <= x.len() {
        numbers_entries(x, n - 1) + (numbers_expr(x[n - 1].0) + numbers_expr(x[n - 1].1))
    } else {
        Seq::empty()
    }
}

#[verifier::opaque]
pub open spec fn numbers_segments(x: Seq<SegmentV>, n: int) -> Seq<int>
    decreases x, n,
{
    if 0 < n <= x.len() {
        numbers_segments(x, n - 1) + (numbers_segment(x[n - 1]))
    } else {
        Seq::empty()
    }
}

#[verifier::opaque]
pub open spec fn numbers_args(x: Seq<ArgV>, n: int) -> Seq<int>
    decreases x, n,
{
    if 0 < n <= x.len() {
        numbers_args(x, n - 1) + (numbers_arg(x[n - 1]))
    } else {
        Seq::empty()
    }
}

#[verifier::opaque]
pub open spec fn numbers_stages(x: Seq<StageV>, n: int) -> Seq<int>
    decreases x, n,
{
    if 0 < n <= x.len() {
        numbers_stages(x, n - 1) + (numbers_stage(x[n - 1]))
    } else {
        Seq::empty()
    }
}

#[verifier::opaque]
pub open spec fn numbers_arms(x: Seq<ArmV>, n: int) -> Seq<int>
    decreases x, n,
{
    if 0 < n <= x.len() {
        numbers_arms(x, n - 1) + (numbers_arm(x[n - 1]))
    } else {
        Seq::empty()
    }
}

#[verifier::opaque]
pub open spec fn numbers_stmts(x: Seq<StmtV>, n: int) -> Seq<int>
    decreases x, n,
{
    if 0 < n <= x.len() {
        numbers_stmts(x, n - 1) + (numbers_stmt(x[n - 1]))
    } else {
        Seq::empty()
    }
}

#[verifier::opaque]
pub open spec fn numbers_sub_patterns(x: Seq<SubPatternV>, n: int) -> Seq<int>
    decreases n,
{
    if 0 < n <= x.len() {
        numbers_sub_patterns(x, n - 1) + (numbers_sub_pattern(x[n - 1]))
    } else {
        Seq::empty()
    }
}

#[verifier::opaque]
pub open spec fn numbers_functions(x: Seq<FunctionV>, n: int) -> Seq<int>
    decreases n,
{
    if 0 < n <= x.len() {
        numbers_functions(x, n - 1) + (numbers_function(x[n - 1]))
    } else {
        Seq::empty()
    }
}

#[verifier::opaque]
pub open spec fn numbers_items(x: Seq<ItemV>, n: int) -> Seq<int>
    decreases n,
{
    if 0 < n <= x.len() {
        numbers_items(x, n - 1) + (numbers_item(x[n - 1]))
    } else {
        Seq::empty()
    }
}

/// The numbers of the nodes in a module.
pub open spec fn numbers_of(m: ModuleV) -> Seq<int> {
    numbers_items(m.items, m.items.len() as int)
}

// ---------------------------------------------------------------------------
// Ascending numbers
// ---------------------------------------------------------------------------

/// What numbers are left behind `n`, where they were left from `lo` on; more than there are where
/// `n` is not one of them.
spec fn taken(n: int, lo: int) -> int {
    if lo <= n {
        n + 1
    } else {
        0x2_0000_0000
    }
}

/// What numbers are left behind the first `n` of some numbers.
spec fn left_behind(s: Seq<int>, n: int, lo: int) -> int
    decreases n,
{
    if 0 < n <= s.len() {
        taken(s[n - 1], left_behind(s, n - 1, lo))
    } else {
        lo
    }
}

#[verifier::opaque]
spec fn left_behind_all(s: Seq<int>, lo: int) -> int {
    left_behind(s, s.len() as int, lo)
}

proof fn lemma_left_prefix(a: Seq<int>, b: Seq<int>, n: int, lo: int)
    requires
        0 <= n <= a.len(),
        n <= b.len(),
        forall|i: int| 0 <= i < n ==> a[i] == b[i],
    ensures
        left_behind(a, n, lo) == left_behind(b, n, lo),
    decreases n,
{
    if n > 0 {
        lemma_left_prefix(a, b, n - 1, lo);
    }
}

proof fn lemma_left_joined(a: Seq<int>, b: Seq<int>, n: int, lo: int)
    requires
        0 <= n <= b.len(),
    ensures
        left_behind(a + b, a.len() + n, lo) == left_behind(b, n, left_behind_all(a, lo)),
    decreases n,
{
    reveal(left_behind_all);
    if n > 0 {
        lemma_left_joined(a, b, n - 1, lo);
        assert((a + b)[a.len() + n - 1] == b[n - 1]);
    } else {
        lemma_left_prefix(a + b, a, a.len() as int, lo);
    }
}

proof fn lemma_left_sums()
    ensures
        forall|lo: int| #[trigger] left_behind_all(Seq::empty(), lo) == lo,
        forall|n: int, lo: int| #[trigger] left_behind_all(seq![n], lo) == taken(n, lo),
        forall|a: Seq<int>, b: Seq<int>, lo: int| #[trigger]
            left_behind_all(a + b, lo) == left_behind_all(b, left_behind_all(a, lo)),
{
    reveal(left_behind_all);
    reveal_with_fuel(left_behind, 3);
    assert forall|a: Seq<int>, b: Seq<int>, lo: int| #[trigger]
        left_behind_all(a + b, lo) == left_behind_all(b, left_behind_all(a, lo)) by {
        lemma_left_joined(a, b, b.len() as int, lo);
    }
}

/// Numbers of which no more are left than there are ascend.
proof fn lemma_left_ascends(s: Seq<int>, n: int, lo: int)
    requires
        0 <= n <= s.len(),
        left_behind(s, n, lo) <= 0x1_0000_0000,
    ensures
        lo <= left_behind(s, n, lo),
        forall|i: int| 0 <= i < n ==> lo <= #[trigger] s[i] < left_behind(s, n, lo),
        forall|i: int, j: int| 0 <= i < j < n ==> #[trigger] s[i] < #[trigger] s[j],
    decreases n,
{
    if n > 0 {
        lemma_left_ascends(s, n - 1, lo);
    }
}

// What numbers are left behind a tree.

#[verifier::opaque]
spec fn reach_sub_pattern(x: SubPatternV, lo: int) -> int {
    left_behind_all(numbers_sub_pattern(x), lo)
}

#[verifier::opaque]
spec fn reach_pattern(x: PatternV, lo: int) -> int {
    left_behind_all(numbers_pattern(x), lo)
}

#[verifier::opaque]
spec fn reach_expr(x: ExprV, lo: int) -> int {
    left_behind_all(numbers_expr(x), lo)
}

#[verifier::opaque]
spec fn reach_segment(x: SegmentV, lo: int) -> int {
    left_behind_all(numbers_segment(x), lo)
}

#[verifier::opaque]
spec fn reach_arg(x: ArgV, lo: int) -> int {
    left_behind_all(numbers_arg(x), lo)
}

#[verifier::opaque]
spec fn reach_entry(x: (ExprV, ExprV), lo: int) -> int {
    left_behind_all(numbers_entry(x), lo)
}

#[verifier::opaque]
spec fn reach_stage(x: StageV, lo: int) -> int {
    left_behind_all(numbers_stage(x), lo)
}

#[verifier::opaque]
spec fn reach_callee(x: CalleeV, lo: int) -> int {
    left_behind_all(numbers_callee(x), lo)
}

#[verifier::opaque]
spec fn reach_kind(x: ExprKindV, lo: int) -> int {
    left_behind_all(numbers_kind(x), lo)
}

#[verifier::opaque]
spec fn reach_if(x: IfV, lo: int) -> int {
    left_behind_all(numbers_if(x), lo)
}

#[verifier::opaque]
spec fn reach_else(x: ElseV, lo: int) -> int {
    left_behind_all(numbers_else(x), lo)
}

#[verifier::opaque]
spec fn reach_arm(x: ArmV, lo: int) -> int {
    left_behind_all(numbers_arm(x), lo)
}

#[verifier::opaque]
spec fn reach_arm_body(x: ArmBodyV, lo: int) -> int {
    left_behind_all(numbers_arm_body(x), lo)
}

#[verifier::opaque]
spec fn reach_block(x: BlockV, lo: int) -> int {
    left_behind_all(numbers_block(x), lo)
}

#[verifier::opaque]
spec fn reach_stmt(x: StmtV, lo: int) -> int {
    left_behind_all(numbers_stmt(x), lo)
}

#[verifier::opaque]
spec fn reach_stmt_kind(x: StmtKindV, lo: int) -> int {
    left_behind_all(numbers_stmt_kind(x), lo)
}

#[verifier::opaque]
spec fn reach_function(x: FunctionV, lo: int) -> int {
    left_behind_all(numbers_function(x), lo)
}

#[verifier::opaque]
spec fn reach_struct(x: StructV, lo: int) -> int {
    left_behind_all(numbers_struct(x), lo)
}

#[verifier::opaque]
spec fn reach_enum(x: EnumV, lo: int) -> int {
    left_behind_all(numbers_enum(x), lo)
}

#[verifier::opaque]
spec fn reach_item(x: ItemV, lo: int) -> int {
    left_behind_all(numbers_item(x), lo)
}

#[verifier::opaque]
spec fn reach_exprs(x: Seq<ExprV>, lo: int) -> int {
    left_behind_all(numbers_exprs(x, x.len() as int), lo)
}

#[verifier::opaque]
spec fn reach_entries(x: Seq<(ExprV, ExprV)>, lo: int) -> int {
    left_behind_all(numbers_entries(x, x.len() as int), lo)
}

#[verifier::opaque]
spec fn reach_segments(x: Seq<SegmentV>, lo: int) -> int {
    left_behind_all(numbers_segments(x, x.len() as int), lo)
}

#[verifier::opaque]
spec fn reach_args(x: Seq<ArgV>, lo: int) -> int {
    left_behind_all(numbers_args(x, x.len() as int), lo)
}

#[verifier::opaque]
spec fn reach_stages(x: Seq<StageV>, lo: int) -> int {
    left_behind_all(numbers_stages(x, x.len() as int), lo)
}

#[verifier::opaque]
spec fn reach_arms(x: Seq<ArmV>, lo: int) -> int {
    left_behind_all(numbers_arms(x, x.len() as int), lo)
}

#[verifier::opaque]
spec fn reach_stmts(x: Seq<StmtV>, lo: int) -> int {
    left_behind_all(numbers_stmts(x, x.len() as int), lo)
}

#[verifier::opaque]
spec fn reach_sub_patterns(x: Seq<SubPatternV>, lo: int) -> int {
    left_behind_all(numbers_sub_patterns(x, x.len() as int), lo)
}

#[verifier::opaque]
spec fn reach_functions(x: Seq<FunctionV>, lo: int) -> int {
    left_behind_all(numbers_functions(x, x.len() as int), lo)
}

#[verifier::opaque]
spec fn reach_items(x: Seq<ItemV>, lo: int) -> int {
    left_behind_all(numbers_items(x, x.len() as int), lo)
}

spec fn opened_reach_kind(x: ExprKindV, lo: int) -> int {
    match x {
        ExprKindV::FString(segments) => reach_segments(segments, lo),
        ExprKindV::ListLit { elements, was_multiline } => reach_exprs(elements, lo),
        ExprKindV::SetLit { elements, was_multiline } => reach_exprs(elements, lo),
        ExprKindV::TupleLit { elements, was_multiline } => reach_exprs(elements, lo),
        ExprKindV::DictLit { entries, was_multiline } => reach_entries(entries, lo),
        ExprKindV::Unary { op, operand } => reach_expr(*operand, lo),
        ExprKindV::Binary { op, lhs, rhs } => reach_expr(*rhs, reach_expr(*lhs, lo)),
        ExprKindV::Call { callee, type_args, args, was_multiline } => reach_args(
            args,
            reach_expr(*callee, lo),
        ),
        ExprKindV::MethodCall { receiver, method, type_args, args, was_multiline } => reach_args(
            args,
            reach_expr(*receiver, lo),
        ),
        ExprKindV::FieldAccess { target, field } => reach_expr(*target, lo),
        ExprKindV::TupleIndex { target, index } => reach_expr(*target, lo),
        ExprKindV::Index { target, index } => reach_expr(*index, reach_expr(*target, lo)),
        ExprKindV::Question { target } => reach_expr(*target, lo),
        ExprKindV::Pipe { source, stages } => reach_stages(stages, reach_expr(*source, lo)),
        ExprKindV::Lambda { params, body } => reach_expr(*body, lo),
        ExprKindV::If(i) => reach_if(*i, lo),
        ExprKindV::Match { scrutinee, arms } => reach_arms(arms, reach_expr(*scrutinee, lo)),
        ExprKindV::Par { kind, elements } => reach_exprs(elements, lo),
        ExprKindV::Grouping(e) => reach_expr(*e, lo),
        _ => lo,
    }
}

#[verifier::spinoff_prover]
proof fn open_sub_pattern(x: SubPatternV)
    ensures
        forall|lo: int| #[trigger]
            reach_sub_pattern(x, lo) == ({
                match x {
                    SubPatternV::BareIdent(name, id, span) => taken(id.0 as int, lo),
                    _ => lo,
                }
            }),
{
    reveal(reach_sub_pattern);
    reveal(numbers_sub_pattern);
    lemma_left_sums();
}

#[verifier::spinoff_prover]
proof fn open_pattern(x: PatternV)
    ensures
        forall|lo: int| #[trigger]
            reach_pattern(x, lo) == ({
                match x {
                    PatternV::BareIdent(name, id, span) => taken(id.0 as int, lo),
                    PatternV::Variant { name, fields, span } => reach_sub_patterns(fields, lo),
                    PatternV::Tuple { elements, span } => reach_sub_patterns(elements, lo),
                    _ => lo,
                }
            }),
{
    reveal(reach_pattern);
    reveal(reach_sub_patterns);
    reveal(numbers_pattern);
    lemma_left_sums();
}

#[verifier::spinoff_prover]
proof fn open_expr(x: ExprV)
    ensures
        forall|lo: int| #[trigger]
            reach_expr(x, lo) == ({
                taken(x.id.0 as int, reach_kind(x.kind, lo))
            }),
{
    reveal(reach_expr);
    reveal(reach_kind);
    reveal(numbers_expr);
    reveal(numbers_kind);
    lemma_left_sums();
}

#[verifier::spinoff_prover]
proof fn open_segment(x: SegmentV)
    ensures
        forall|lo: int| #[trigger]
            reach_segment(x, lo) == ({
                match x {
                    SegmentV::Expr(e) => reach_expr(*e, lo),
                    _ => lo,
                }
            }),
{
    reveal(reach_segment);
    reveal(reach_expr);
    reveal(numbers_segment);
    reveal(numbers_expr);
    lemma_left_sums();
}

#[verifier::spinoff_prover]
proof fn open_arg(x: ArgV)
    ensures
        forall|lo: int| #[trigger]
            reach_arg(x, lo) == ({
                reach_expr(x.value, lo)
            }),
{
    reveal(reach_arg);
    reveal(reach_expr);
    reveal(numbers_arg);
    reveal(numbers_expr);
    lemma_left_sums();
}

#[verifier::spinoff_prover]
proof fn open_entry(x: (ExprV, ExprV))
    ensures
        forall|lo: int| #[trigger]
            reach_entry(x, lo) == ({
                reach_expr(x.1, reach_expr(x.0, lo))
            }),
{
    reveal(reach_entry);
    reveal(reach_expr);
    reveal(numbers_entry);
    lemma_left_sums();
}

#[verifier::spinoff_prover]
proof fn open_stage(x: StageV)
    ensures
        forall|lo: int| #[trigger]
            reach_stage(x, lo) == ({
                reach_callee(x.callee, lo)
            }),
{
    reveal(reach_stage);
    reveal(reach_callee);
    reveal(numbers_stage);
    reveal(numbers_callee);
    lemma_left_sums();
}

#[verifier::spinoff_prover]
proof fn open_callee(x: CalleeV)
    ensures
        forall|lo: int| #[trigger]
            reach_callee(x, lo) == ({
                match x {
                    CalleeV::Bare(e) => reach_expr(e, lo),
                    CalleeV::WithArgs { callee, args } => reach_args(args, reach_expr(*callee, lo)),
                }
            }),
{
    reveal(reach_callee);
    reveal(reach_args);
    reveal(reach_expr);
    reveal(numbers_callee);
    reveal(numbers_expr);
    reveal(numbers_args);
    lemma_left_sums();
}

#[verifier::spinoff_prover]
proof fn open_kind(x: ExprKindV)
    ensures
        forall|lo: int| #[trigger]
            reach_kind(x, lo) == ({
                match x {
                    ExprKindV::FString(segments) => reach_segments(segments, lo),
                    ExprKindV::ListLit { elements, was_multiline } => reach_exprs(elements, lo),
                    ExprKindV::SetLit { elements, was_multiline } => reach_exprs(elements, lo),
                    ExprKindV::TupleLit { elements, was_multiline } => reach_exprs(elements, lo),
                    ExprKindV::DictLit { entries, was_multiline } => reach_entries(entries, lo),
                    ExprKindV::Unary { op, operand } => reach_expr(*operand, lo),
                    ExprKindV::Binary { op, lhs, rhs } => reach_expr(*rhs, reach_expr(*lhs, lo)),
                    ExprKindV::Call { callee, type_args, args, was_multiline } => reach_args(
                        args,
                        reach_expr(*callee, lo),
                    ),
                    ExprKindV::MethodCall { receiver, method, type_args, args, was_multiline } => reach_args(
                        args,
                        reach_expr(*receiver, lo),
                    ),
                    ExprKindV::FieldAccess { target, field } => reach_expr(*target, lo),
                    ExprKindV::TupleIndex { target, index } => reach_expr(*target, lo),
                    ExprKindV::Index { target, index } => reach_expr(
                        *index,
                        reach_expr(*target, lo),
                    ),
                    ExprKindV::Question { target } => reach_expr(*target, lo),
                    ExprKindV::Pipe { source, stages } => reach_stages(
                        stages,
                        reach_expr(*source, lo),
                    ),
                    ExprKindV::Lambda { params, body } => reach_expr(*body, lo),
                    ExprKindV::If(i) => reach_if(*i, lo),
                    ExprKindV::Match { scrutinee, arms } => reach_arms(
                        arms,
                        reach_expr(*scrutinee, lo),
                    ),
                    ExprKindV::Par { kind, elements } => reach_exprs(elements, lo),
                    ExprKindV::Grouping(e) => reach_expr(*e, lo),
                    _ => lo,
                }
            }),
{
    reveal(reach_kind);
    reveal(reach_args);
    reveal(reach_arms);
    reveal(reach_entries);
    reveal(reach_expr);
    reveal(reach_exprs);
    reveal(reach_if);
    reveal(reach_segments);
    reveal(reach_stages);
    reveal(numbers_kind);
    reveal(numbers_segments);
    reveal(numbers_exprs);
    reveal(numbers_entries);
    reveal(numbers_expr);
    reveal(numbers_args);
    reveal(numbers_stages);
    reveal(numbers_if);
    reveal(numbers_arms);
    lemma_left_sums();
}

#[verifier::spinoff_prover]
proof fn open_if(x: IfV)
    ensures
        forall|lo: int| #[trigger]
            reach_if(x, lo) == ({
                reach_else(x.else_branch, reach_block(x.then_branch, reach_expr(*x.cond, lo)))
            }),
{
    reveal(reach_if);
    reveal(reach_block);
    reveal(reach_else);
    reveal(reach_expr);
    reveal(numbers_if);
    reveal(numbers_expr);
    reveal(numbers_block);
    reveal(numbers_else);
    lemma_left_sums();
}

#[verifier::spinoff_prover]
proof fn open_else(x: ElseV)
    ensures
        forall|lo: int| #[trigger]
            reach_else(x, lo) == ({
                match x {
                    ElseV::Block(b) => reach_block(b, lo),
                    ElseV::ElseIf(i) => reach_if(*i, lo),
                }
            }),
{
    reveal(reach_else);
    reveal(reach_block);
    reveal(reach_if);
    reveal(numbers_else);
    reveal(numbers_block);
    reveal(numbers_if);
    lemma_left_sums();
}

#[verifier::spinoff_prover]
proof fn open_arm(x: ArmV)
    ensures
        forall|lo: int| #[trigger]
            reach_arm(x, lo) == ({
                reach_arm_body(x.body, reach_pattern(x.pattern, lo))
            }),
{
    reveal(reach_arm);
    reveal(reach_arm_body);
    reveal(reach_pattern);
    reveal(numbers_arm);
    reveal(numbers_arm_body);
    lemma_left_sums();
}

#[verifier::spinoff_prover]
proof fn open_arm_body(x: ArmBodyV)
    ensures
        forall|lo: int| #[trigger]
            reach_arm_body(x, lo) == ({
                match x {
                    ArmBodyV::Expr(e) => reach_expr(e, lo),
                    ArmBodyV::Block(b) => reach_block(b, lo),
                }
            }),
{
    reveal(reach_arm_body);
    reveal(reach_block);
    reveal(reach_expr);
    reveal(numbers_arm_body);
    reveal(numbers_expr);
    reveal(numbers_block);
    lemma_left_sums();
}

#[verifier::spinoff_prover]
proof fn open_block(x: BlockV)
    ensures
        forall|lo: int| #[trigger]
            reach_block(x, lo) == ({
                reach_stmts(x.stmts, lo)
            }),
{
    reveal(reach_block);
    reveal(reach_stmts);
    reveal(numbers_block);
    reveal(numbers_stmts);
    lemma_left_sums();
}

#[verifier::spinoff_prover]
proof fn open_stmt(x: StmtV)
    ensures
        forall|lo: int| #[trigger]
            reach_stmt(x, lo) == ({
                reach_stmt_kind(x.kind, lo)
            }),
{
    reveal(reach_stmt);
    reveal(reach_stmt_kind);
    reveal(numbers_stmt);
    reveal(numbers_stmt_kind);
    lemma_left_sums();
}

#[verifier::spinoff_prover]
proof fn open_stmt_kind(x: StmtKindV)
    ensures
        forall|lo: int| #[trigger]
            reach_stmt_kind(x, lo) == ({
                match x {
                    StmtKindV::VarDecl { name, ty, value } => reach_expr(value, lo),
                    StmtKindV::NameAssign { name, ty, value } => reach_expr(value, lo),
                    StmtKindV::FieldAssign { target, field, value } => reach_expr(
                        value,
                        reach_expr(target, lo),
                    ),
                    StmtKindV::IndexAssign { target, index, value } => reach_expr(
                        value,
                        reach_expr(index, reach_expr(target, lo)),
                    ),
                    StmtKindV::Discard(e) => reach_expr(e, lo),
                    StmtKindV::ExprStmt(e) => reach_expr(e, lo),
                    StmtKindV::Return(Some(e)) => reach_expr(e, lo),
                    StmtKindV::Return(None) => lo,
                }
            }),
{
    reveal(reach_stmt_kind);
    reveal(reach_expr);
    reveal(numbers_stmt_kind);
    reveal(numbers_expr);
    lemma_left_sums();
}

#[verifier::spinoff_prover]
proof fn open_function(x: FunctionV)
    ensures
        forall|lo: int| #[trigger]
            reach_function(x, lo) == ({
                taken(x.id.0 as int, reach_block(x.body, lo))
            }),
{
    reveal(reach_function);
    reveal(reach_block);
    reveal(numbers_function);
    lemma_left_sums();
}

#[verifier::spinoff_prover]
proof fn open_struct(x: StructV)
    ensures
        forall|lo: int| #[trigger]
            reach_struct(x, lo) == ({
                taken(x.id.0 as int, reach_functions(x.methods, lo))
            }),
{
    reveal(reach_struct);
    reveal(reach_functions);
    reveal(numbers_struct);
    lemma_left_sums();
}

#[verifier::spinoff_prover]
proof fn open_enum(x: EnumV)
    ensures
        forall|lo: int| #[trigger]
            reach_enum(x, lo) == ({
                taken(x.id.0 as int, lo)
            }),
{
    reveal(reach_enum);
    reveal(numbers_enum);
    lemma_left_sums();
}

#[verifier::spinoff_prover]
proof fn open_item(x: ItemV)
    ensures
        forall|lo: int| #[trigger]
            reach_item(x, lo) == ({
                match x {
                    ItemV::Decl(DeclV::Function(d)) => reach_function(d, lo),
                    ItemV::Decl(DeclV::Struct(d)) => reach_struct(d, lo),
                    ItemV::Decl(DeclV::Enum(d)) => reach_enum(d, lo),
                    ItemV::Stmt(s) => reach_stmt(s, lo),
                }
            }),
{
    reveal(reach_item);
    reveal(reach_enum);
    reveal(reach_function);
    reveal(reach_stmt);
    reveal(reach_struct);
    reveal(numbers_item);
    lemma_left_sums();
}

proof fn lemma_first_exprs(x: Seq<ExprV>, e: ExprV, n: int)
    requires
        0 <= n <= x.len(),
    ensures
        numbers_exprs(x.push(e), n) == numbers_exprs(x, n),
    decreases n,
{
    reveal(numbers_exprs);
    reveal(numbers_expr);
    if n > 0 {
        lemma_first_exprs(x, e, n - 1);
        assert(x.push(e)[n - 1] == x[n - 1]);
    }
}

#[verifier::spinoff_prover]
proof fn lemma_reach_exprs()
    ensures
        forall|lo: int| #[trigger] reach_exprs(Seq::empty(), lo) == lo,
        forall|x: Seq<ExprV>, e: ExprV, lo: int| #[trigger]
            reach_exprs(x.push(e), lo) == reach_expr(e, reach_exprs(x, lo)),
{
    reveal(reach_exprs);
    reveal(reach_expr);
    reveal(numbers_exprs);
    reveal(numbers_expr);
    lemma_left_sums();
    assert forall|x: Seq<ExprV>, e: ExprV, lo: int| #[trigger]
        reach_exprs(x.push(e), lo) == reach_expr(e, reach_exprs(x, lo)) by {
        lemma_first_exprs(x, e, x.len() as int);
        assert(x.push(e)[x.len() as int] == e);
    }
}

proof fn lemma_first_entries(x: Seq<(ExprV, ExprV)>, e: (ExprV, ExprV), n: int)
    requires
        0 <= n <= x.len(),
    ensures
        numbers_entries(x.push(e), n) == numbers_entries(x, n),
    decreases n,
{
    reveal(numbers_entries);
    reveal(numbers_expr);
    reveal(numbers_entry);
    if n > 0 {
        lemma_first_entries(x, e, n - 1);
        assert(x.push(e)[n - 1] == x[n - 1]);
    }
}

#[verifier::spinoff_prover]
proof fn lemma_reach_entries()
    ensures
        forall|lo: int| #[trigger] reach_entries(Seq::empty(), lo) == lo,
        forall|x: Seq<(ExprV, ExprV)>, e: (ExprV, ExprV), lo: int| #[trigger]
            reach_entries(x.push(e), lo) == reach_entry(e, reach_entries(x, lo)),
{
    reveal(reach_entries);
    reveal(reach_entry);
    reveal(numbers_entries);
    reveal(numbers_expr);
    reveal(numbers_entry);
    lemma_left_sums();
    assert forall|x: Seq<(ExprV, ExprV)>, e: (ExprV, ExprV), lo: int| #[trigger]
        reach_entries(x.push(e), lo) == reach_entry(e, reach_entries(x, lo)) by {
        lemma_first_entries(x, e, x.len() as int);
        assert(x.push(e)[x.len() as int] == e);
    }
}

proof fn lemma_first_segments(x: Seq<SegmentV>, e: SegmentV, n: int)
    requires
        0 <= n <= x.len(),
    ensures
        numbers_segments(x.push(e), n) == numbers_segments(x, n),
    decreases n,
{
    reveal(numbers_segments);
    reveal(numbers_segment);
    if n > 0 {
        lemma_first_segments(x, e, n - 1);
        assert(x.push(e)[n - 1] == x[n - 1]);
    }
}

#[verifier::spinoff_prover]
proof fn lemma_reach_segments()
    ensures
        forall|lo: int| #[trigger] reach_segments(Seq::empty(), lo) == lo,
        forall|x: Seq<SegmentV>, e: SegmentV, lo: int| #[trigger]
            reach_segments(x.push(e), lo) == reach_segment(e, reach_segments(x, lo)),
{
    reveal(reach_segments);
    reveal(reach_segment);
    reveal(numbers_segments);
    reveal(numbers_segment);
    lemma_left_sums();
    assert forall|x: Seq<SegmentV>, e: SegmentV, lo: int| #[trigger]
        reach_segments(x.push(e), lo) == reach_segment(e, reach_segments(x, lo)) by {
        lemma_first_segments(x, e, x.len() as int);
        assert(x.push(e)[x.len() as int] == e);
    }
}

proof fn lemma_first_args(x: Seq<ArgV>, e: ArgV, n: int)
    requires
        0 <= n <= x.len(),
    ensures
        numbers_args(x.push(e), n) == numbers_args(x, n),
    decreases n,
{
    reveal(numbers_args);
    reveal(numbers_arg);
    if n > 0 {
        lemma_first_args(x, e, n - 1);
        assert(x.push(e)[n - 1] == x[n - 1]);
    }
}

#[verifier::spinoff_prover]
proof fn lemma_reach_args()
    ensures
        forall|lo: int| #[trigger] reach_args(Seq::empty(), lo) == lo,
        forall|x: Seq<ArgV>, e: ArgV, lo: int| #[trigger]
            reach_args(x.push(e), lo) == reach_arg(e, reach_args(x, lo)),
{
    reveal(reach_args);
    reveal(reach_arg);
    reveal(numbers_args);
    reveal(numbers_arg);
    lemma_left_sums();
    assert forall|x: Seq<ArgV>, e: ArgV, lo: int| #[trigger]
        reach_args(x.push(e), lo) == reach_arg(e, reach_args(x, lo)) by {
        lemma_first_args(x, e, x.len() as int);
        assert(x.push(e)[x.len() as int] == e);
    }
}

proof fn lemma_first_stages(x: Seq<StageV>, e: StageV, n: int)
    requires
        0 <= n <= x.len(),
    ensures
        numbers_stages(x.push(e), n) == numbers_stages(x, n),
    decreases n,
{
    reveal(numbers_stages);
    reveal(numbers_stage);
    if n > 0 {
        lemma_first_stages(x, e, n - 1);
        assert(x.push(e)[n - 1] == x[n - 1]);
    }
}

#[verifier::spinoff_prover]
proof fn lemma_reach_stages()
    ensures
        forall|lo: int| #[trigger] reach_stages(Seq::empty(), lo) == lo,
        forall|x: Seq<StageV>, e: StageV, lo: int| #[trigger]
            reach_stages(x.push(e), lo) == reach_stage(e, reach_stages(x, lo)),
{
    reveal(reach_stages);
    reveal(reach_stage);
    reveal(numbers_stages);
    reveal(numbers_stage);
    lemma_left_sums();
    assert forall|x: Seq<StageV>, e: StageV, lo: int| #[trigger]
        reach_stages(x.push(e), lo) == reach_stage(e, reach_stages(x, lo)) by {
        lemma_first_stages(x, e, x.len() as int);
        assert(x.push(e)[x.len() as int] == e);
    }
}

proof fn lemma_first_arms(x: Seq<ArmV>, e: ArmV, n: int)
    requires
        0 <= n <= x.len(),
    ensures
        numbers_arms(x.push(e), n) == numbers_arms(x, n),
    decreases n,
{
    reveal(numbers_arms);
    reveal(numbers_arm);
    if n > 0 {
        lemma_first_arms(x, e, n - 1);
        assert(x.push(e)[n - 1] == x[n - 1]);
    }
}

#[verifier::spinoff_prover]
proof fn lemma_reach_arms()
    ensures
        forall|lo: int| #[trigger] reach_arms(Seq::empty(), lo) == lo,
        forall|x: Seq<ArmV>, e: ArmV, lo: int| #[trigger]
            reach_arms(x.push(e), lo) == reach_arm(e, reach_arms(x, lo)),
{
    reveal(reach_arms);
    reveal(reach_arm);
    reveal(numbers_arms);
    reveal(numbers_arm);
    lemma_left_sums();
    assert forall|x: Seq<ArmV>, e: ArmV, lo: int| #[trigger]
        reach_arms(x.push(e), lo) == reach_arm(e, reach_arms(x, lo)) by {
        lemma_first_arms(x, e, x.len() as int);
        assert(x.push(e)[x.len() as int] == e);
    }
}

proof fn lemma_first_stmts(x: Seq<StmtV>, e: StmtV, n: int)
    requires
        0 <= n <= x.len(),
    ensures
        numbers_stmts(x.push(e), n) == numbers_stmts(x, n),
    decreases n,
{
    reveal(numbers_stmts);
    reveal(numbers_stmt);
    if n > 0 {
        lemma_first_stmts(x, e, n - 1);
        assert(x.push(e)[n - 1] == x[n - 1]);
    }
}

#[verifier::spinoff_prover]
proof fn lemma_reach_stmts()
    ensures
        forall|lo: int| #[trigger] reach_stmts(Seq::empty(), lo) == lo,
        forall|x: Seq<StmtV>, e: StmtV, lo: int| #[trigger]
            reach_stmts(x.push(e), lo) == reach_stmt(e, reach_stmts(x, lo)),
{
    reveal(reach_stmts);
    reveal(reach_stmt);
    reveal(numbers_stmts);
    reveal(numbers_stmt);
    lemma_left_sums();
    assert forall|x: Seq<StmtV>, e: StmtV, lo: int| #[trigger]
        reach_stmts(x.push(e), lo) == reach_stmt(e, reach_stmts(x, lo)) by {
        lemma_first_stmts(x, e, x.len() as int);
        assert(x.push(e)[x.len() as int] == e);
    }
}

proof fn lemma_first_sub_patterns(x: Seq<SubPatternV>, e: SubPatternV, n: int)
    requires
        0 <= n <= x.len(),
    ensures
        numbers_sub_patterns(x.push(e), n) == numbers_sub_patterns(x, n),
    decreases n,
{
    reveal(numbers_sub_patterns);
    if n > 0 {
        lemma_first_sub_patterns(x, e, n - 1);
        assert(x.push(e)[n - 1] == x[n - 1]);
    }
}

#[verifier::spinoff_prover]
proof fn lemma_reach_sub_patterns()
    ensures
        forall|lo: int| #[trigger] reach_sub_patterns(Seq::empty(), lo) == lo,
        forall|x: Seq<SubPatternV>, e: SubPatternV, lo: int| #[trigger]
            reach_sub_patterns(x.push(e), lo) == reach_sub_pattern(e, reach_sub_patterns(x, lo)),
{
    reveal(reach_sub_patterns);
    reveal(reach_sub_pattern);
    reveal(numbers_sub_patterns);
    lemma_left_sums();
    assert forall|x: Seq<SubPatternV>, e: SubPatternV, lo: int| #[trigger]
        reach_sub_patterns(x.push(e), lo) == reach_sub_pattern(e, reach_sub_patterns(x, lo)) by {
        lemma_first_sub_patterns(x, e, x.len() as int);
        assert(x.push(e)[x.len() as int] == e);
    }
}

proof fn lemma_first_functions(x: Seq<FunctionV>, e: FunctionV, n: int)
    requires
        0 <= n <= x.len(),
    ensures
        numbers_functions(x.push(e), n) == numbers_functions(x, n),
    decreases n,
{
    reveal(numbers_functions);
    if n > 0 {
        lemma_first_functions(x, e, n - 1);
        assert(x.push(e)[n - 1] == x[n - 1]);
    }
}

#[verifier::spinoff_prover]
proof fn lemma_reach_functions()
    ensures
        forall|lo: int| #[trigger] reach_functions(Seq::empty(), lo) == lo,
        forall|x: Seq<FunctionV>, e: FunctionV, lo: int| #[trigger]
            reach_functions(x.push(e), lo) == reach_function(e, reach_functions(x, lo)),
{
    reveal(reach_functions);
    reveal(reach_function);
    reveal(numbers_functions);
    lemma_left_sums();
    assert forall|x: Seq<FunctionV>, e: FunctionV, lo: int| #[trigger]
        reach_functions(x.push(e), lo) == reach_function(e, reach_functions(x, lo)) by {
        lemma_first_functions(x, e, x.len() as int);
        assert(x.push(e)[x.len() as int] == e);
    }
}

proof fn lemma_first_items(x: Seq<ItemV>, e: ItemV, n: int)
    requires
        0 <= n <= x.len(),
    ensures
        numbers_items(x.push(e), n) == numbers_items(x, n),
    decreases n,
{
    reveal(numbers_items);
    if n > 0 {
        lemma_first_items(x, e, n - 1);
        assert(x.push(e)[n - 1] == x[n - 1]);
    }
}

#[verifier::spinoff_prover]
proof fn lemma_reach_items()
    ensures
        forall|lo: int| #[trigger] reach_items(Seq::empty(), lo) == lo,
        forall|x: Seq<ItemV>, e: ItemV, lo: int| #[trigger]
            reach_items(x.push(e), lo) == reach_item(e, reach_items(x, lo)),
{
    reveal(reach_items);
    reveal(reach_item);
    reveal(numbers_items);
    lemma_left_sums();
    assert forall|x: Seq<ItemV>, e: ItemV, lo: int| #[trigger]
        reach_items(x.push(e), lo) == reach_item(e, reach_items(x, lo)) by {
        lemma_first_items(x, e, x.len() as int);
        assert(x.push(e)[x.len() as int] == e);
    }
}

// ---------------------------------------------------------------------------
// The grammar
// ---------------------------------------------------------------------------

proof fn order_node(p: PState, kind: ExprKindV, span: Span)
    ensures
        node(p, kind, span).1.next_id == p.next_id + 1,
        forall|lo: int|
            0 <= p.next_id < 0x1_0000_0000 && opened_reach_kind(kind, lo) <= p.next_id ==> #[trigger]
                reach_expr(node(p, kind, span).0, lo) <= p.next_id + 1,
{
    open_expr(node(p, kind, span).0);
    open_kind(kind);
}

proof fn order_poison(p: PState, span: Span)
    ensures
        poison(p, span).1.next_id == p.next_id + 1,
        forall|lo: int|
            0 <= p.next_id < 0x1_0000_0000 && lo <= p.next_id ==> #[trigger] reach_expr(
                poison(p, span).0,
                lo,
            ) <= p.next_id + 1,
{
    order_node(p, ExprKindV::IntLit(0), span);
}

proof fn order_newlines(p: PState)
    ensures
        p.newlines().next_id == p.next_id,
    decreases p.left(),
{
    if p.at(TokenKind::Newline) {
        order_newlines(p.bump());
    }
}

proof fn order_sync(p: PState, depth: nat)
    ensures
        p.sync(depth).next_id == p.next_id,
    decreases p.left(),
{
    match p.kind() {
        None => {},
        Some(TokenKind::Eof) => {},
        Some(TokenKind::Dedent) => {
            if depth > 0 {
                order_sync(p.bump(), (depth - 1) as nat);
            }
        },
        Some(TokenKind::Indent) => {
            order_sync(p.bump(), depth + 1);
        },
        Some(_) => {
            order_sync(p.bump(), depth);
        },
    }
}

proof fn order_skip_brackets(p: PState, depth: int)
    ensures
        p.skip_brackets(depth).next_id == p.next_id,
    decreases p.left(),
{
    match p.kind() {
        None => {},
        Some(k) => {
            if opener(k) {
                order_skip_brackets(p.bump(), depth + 1);
            } else if closer(k) {
                if depth - 1 > 0 {
                    order_skip_brackets(p.bump(), depth - 1);
                }
            } else if !(k is Eof || k is Newline || k is Dedent) {
                order_skip_brackets(p.bump(), depth);
            }
        },
    }
}

proof fn order_literal_from(p: PState)
    ensures
        literal_from(p) matches Some((literal, q)) ==> q.next_id == p.next_id,
{
}

/// A stretch of numbers that starts at or behind `lo` and does not go round.
spec fn within(lo: int, from: int, to: int) -> bool {
    0 <= from && lo <= from && to <= 0x1_0000_0000
}

proof fn lemma_entries_open()
    ensures
        forall|x: (ExprV, ExprV), lo: int| #[trigger]
            reach_entry(x, lo) == reach_expr(x.1, reach_expr(x.0, lo)),
{
    assert forall|x: (ExprV, ExprV), lo: int| #[trigger]
        reach_entry(x, lo) == reach_expr(x.1, reach_expr(x.0, lo)) by {
        open_entry(x);
    }
}

proof fn lemma_segments_open()
    ensures
        forall|x: Seq<char>, lo: int| #[trigger] reach_segment(SegmentV::Text(x), lo) == lo,
        forall|x: Box<ExprV>, lo: int| #[trigger]
            reach_segment(SegmentV::Expr(x), lo) == reach_expr(*x, lo),
{
    assert forall|x: Seq<char>, lo: int| #[trigger] reach_segment(SegmentV::Text(x), lo) == lo by {
        open_segment(SegmentV::Text(x));
    }
    assert forall|x: Box<ExprV>, lo: int| #[trigger]
        reach_segment(SegmentV::Expr(x), lo) == reach_expr(*x, lo) by {
        open_segment(SegmentV::Expr(x));
    }
}

#[verifier::spinoff_prover]
proof fn order_idents_from(p: PState, closing: TokenKind, what: Seq<char>)
    ensures
        ({
            let r = sealed_idents_from(p, closing, what);
            &&& p.next_id <= r.1.next_id
        }),
{
    unfold_idents_from(p, closing, what);
    if !p.at(closing) {
        let (name, q) = p.ident(what);
        order_idents_tail(seq![name], q, closing, what);
    }
}

#[verifier::spinoff_prover]
proof fn order_idents_tail(acc: Seq<Seq<char>>, p: PState, closing: TokenKind, what: Seq<char>)
    ensures
        ({
            let r = sealed_idents_tail(acc, p, closing, what);
            &&& p.next_id <= r.1.next_id
        }),
    decreases p.left(),
{
    unfold_idents_tail(acc, p, closing, what);
    if p.at(TokenKind::Comma) {
        let q = p.bump();
        if !q.at(closing) {
            let (name, r) = q.ident(what);
            order_idents_tail(acc.push(name), r.after(q), closing, what);
        }
    }
}

#[verifier::spinoff_prover]
proof fn order_uses_from(p: PState)
    ensures
        ({
            let r = sealed_uses_from(p);
            &&& p.next_id <= r.1.next_id
        }),
{
    unfold_uses_from(p);
    if p.at(TokenKind::Uses) {
        let q = p.bump().expect(TokenKind::LBrace, "`{`"@);
        order_idents_from(q, TokenKind::RBrace, "effect name"@);
    }
}

#[verifier::spinoff_prover]
proof fn order_type_from(p: PState)
    ensures
        ({
            let r = sealed_type_from(p);
            &&& p.next_id <= r.1.next_id
        }),
    decreases p.left(), 3int,
{
    unfold_type_from(p);
    let start = p.current_span();
    if !(p.depth >= MAX_PARSE_DEPTH) {
        let q = p.deeper();
        match q.kind() {
            Some(TokenKind::Void) => {},
            Some(TokenKind::LParen) => {
                order_function_type_rest(start, q.bump());
            },
            Some(TokenKind::Ident(name)) => {
                order_named_type_rest(start, name@, q.bump());
            },
            _ => {},
        }
    }
}

#[verifier::spinoff_prover]
proof fn order_function_type_rest(start: Span, p: PState)
    ensures
        ({
            let r = sealed_function_type_rest(start, p);
            &&& p.next_id <= r.1.next_id
        }),
    decreases p.left(), 6int,
{
    unfold_function_type_rest(start, p);
    order_types_from(p, TokenKind::RParen);
    let (params, q) = sealed_types_from(p, TokenKind::RParen);
    let r = q.after(p).expect(TokenKind::RParen, "`)`"@).expect(TokenKind::Arrow, "`->`"@).after(p);
    order_type_from(r);
    let (ret, s) = sealed_type_from(r);
    order_uses_from(s);
}

#[verifier::spinoff_prover]
proof fn order_named_type_rest(start: Span, name: Seq<char>, p: PState)
    ensures
        ({
            let r = sealed_named_type_rest(start, name, p);
            &&& p.next_id <= r.1.next_id
        }),
    decreases p.left(), 6int,
{
    unfold_named_type_rest(start, name, p);
    lemma_reach_sub_patterns();
    if p.at(TokenKind::LBracket) {
        order_type_args_rest(p.bump());
    }
}

#[verifier::spinoff_prover]
proof fn order_type_args_rest(p: PState)
    ensures
        ({
            let r = sealed_type_args_rest(p);
            &&& p.next_id <= r.1.next_id
        }),
    decreases p.left(), 6int,
{
    unfold_type_args_rest(p);
    order_types_from(p, TokenKind::RBracket);
}

#[verifier::spinoff_prover]
proof fn order_types_from(p: PState, closing: TokenKind)
    ensures
        ({
            let r = sealed_types_from(p, closing);
            &&& p.next_id <= r.1.next_id
        }),
    decreases p.left(), 5int,
{
    unfold_types_from(p, closing);
    if !p.at(closing) {
        order_type_from(p);
        let (t, q) = sealed_type_from(p);
        order_types_tail(seq![t], q.after(p), closing);
    }
}

#[verifier::spinoff_prover]
proof fn order_types_tail(acc: Seq<TypeV>, p: PState, closing: TokenKind)
    ensures
        ({
            let r = sealed_types_tail(acc, p, closing);
            &&& p.next_id <= r.1.next_id
        }),
    decreases p.left(), 4int,
{
    unfold_types_tail(acc, p, closing);
    if p.at(TokenKind::Comma) {
        let q = p.bump();
        if !q.at(closing) {
            order_type_from(q);
            let (t, r) = sealed_type_from(q);
            order_types_tail(acc.push(t), r.after(q), closing);
        }
    }
}

#[verifier::spinoff_prover]
proof fn order_opt_type_from(p: PState)
    ensures
        ({
            let r = sealed_opt_type_from(p);
            &&& p.next_id <= r.1.next_id
        }),
{
    unfold_opt_type_from(p);
    if p.at(TokenKind::Colon) {
        order_type_from(p.bump());
    }
}

#[verifier::spinoff_prover]
proof fn order_sub_pattern_from(p: PState)
    ensures
        ({
            let r = sealed_sub_pattern_from(p);
            &&& p.next_id <= r.1.next_id
            &&& forall|lo: int|
                within(lo, p.next_id, r.1.next_id)
                    ==> #[trigger] reach_sub_pattern(r.0, lo) <= r.1.next_id
        }),
{
    unfold_sub_pattern_from(p);
    open_sub_pattern(sealed_sub_pattern_from(p).0);
    let start = p.current_span();
    order_literal_from(p);
    match literal_from(p) {
        Some((lit, q)) => {},
        None => {
            match p.kind() {
                Some(TokenKind::Underscore) => {},
                Some(TokenKind::Ident(name)) => {
                    let q = p.bump();
                    if q.at(TokenKind::LParen) || q.at(TokenKind::LBracket) {
                        order_skip_brackets(
                            q.unexpected(
                                start,
                                "nesting enum/tuple patterns is forbidden (D-SYN-06)"@,
                            ),
                            0,
                        );
                    }
                },
                Some(TokenKind::LParen) => {
                    order_skip_brackets(
                        p.unexpected(
                            start,
                            "nesting enum/tuple patterns is forbidden (D-SYN-06)"@,
                        ),
                        0,
                    );
                },
                _ => {},
            }
        },
    }
}

#[verifier::spinoff_prover]
proof fn order_sub_patterns_from(p: PState)
    ensures
        ({
            let r = sealed_sub_patterns_from(p);
            &&& p.next_id <= r.1.next_id
            &&& forall|lo: int|
                within(lo, p.next_id, r.1.next_id)
                    ==> #[trigger] reach_sub_patterns(r.0, lo) <= r.1.next_id
        }),
{
    unfold_sub_patterns_from(p);
    lemma_reach_sub_patterns();
    if !p.at(TokenKind::RParen) {
        order_sub_pattern_from(p);
        let (s, q) = sealed_sub_pattern_from(p);
        order_sub_patterns_tail(seq![s], q);
    }
}

#[verifier::spinoff_prover]
proof fn order_sub_patterns_tail(acc: Seq<SubPatternV>, p: PState)
    ensures
        ({
            let r = sealed_sub_patterns_tail(acc, p);
            &&& p.next_id <= r.1.next_id
            &&& forall|lo: int|
                within(lo, p.next_id, r.1.next_id) && reach_sub_patterns(acc, lo) <= p.next_id
                    ==> #[trigger] reach_sub_patterns(r.0, lo) <= r.1.next_id
        }),
    decreases p.left(),
{
    unfold_sub_patterns_tail(acc, p);
    lemma_reach_sub_patterns();
    if p.at(TokenKind::Comma) {
        let q = p.bump();
        if !q.at(TokenKind::RParen) {
            order_sub_pattern_from(q);
            let (s, r) = sealed_sub_pattern_from(q);
            order_sub_patterns_tail(acc.push(s), r.after(q));
        }
    }
}

#[verifier::spinoff_prover]
proof fn order_pattern_from(p: PState)
    ensures
        ({
            let r = sealed_pattern_from(p);
            &&& p.next_id <= r.1.next_id
            &&& forall|lo: int|
                within(lo, p.next_id, r.1.next_id)
                    ==> #[trigger] reach_pattern(r.0, lo) <= r.1.next_id
        }),
{
    unfold_pattern_from(p);
    open_pattern(sealed_pattern_from(p).0);
    order_literal_from(p);
    match literal_from(p) {
        Some((lit, q)) => {},
        None => {
            match p.kind() {
                Some(TokenKind::Underscore) => {},
                Some(TokenKind::LParen) => {
                    order_sub_patterns_from(p.bump());
                },
                Some(TokenKind::Ident(name)) => {
                    let q = p.bump();
                    if q.at(TokenKind::LParen) {
                        order_sub_patterns_from(q.bump());
                    }
                },
                _ => {},
            }
        },
    }
}

#[verifier::spinoff_prover]
proof fn order_lambda_param_from(p: PState)
    ensures
        ({
            let r = sealed_lambda_param_from(p);
            &&& p.next_id <= r.1.next_id
        }),
{
    unfold_lambda_param_from(p);
    let (name, q) = p.ident("lambda parameter name"@);
    order_opt_type_from(q);
}

#[verifier::spinoff_prover]
proof fn order_lambda_params_from(p: PState)
    ensures
        ({
            let r = sealed_lambda_params_from(p);
            &&& p.next_id <= r.1.next_id
        }),
{
    unfold_lambda_params_from(p);
    if !p.at(TokenKind::RParen) {
        order_lambda_param_from(p);
        let (x, q) = sealed_lambda_param_from(p);
        order_lambda_params_tail(seq![x], q);
    }
}

#[verifier::spinoff_prover]
proof fn order_lambda_params_tail(acc: Seq<LambdaParamV>, p: PState)
    ensures
        ({
            let r = sealed_lambda_params_tail(acc, p);
            &&& p.next_id <= r.1.next_id
        }),
    decreases p.left(),
{
    unfold_lambda_params_tail(acc, p);
    if p.at(TokenKind::Comma) {
        let q = p.bump();
        if !q.at(TokenKind::RParen) {
            order_lambda_param_from(q);
            let (x, r) = sealed_lambda_param_from(q);
            order_lambda_params_tail(acc.push(x), r.after(q));
        }
    }
}

#[verifier::spinoff_prover]
proof fn order_destination_from(p: PState)
    ensures
        ({
            let r = sealed_destination_from(p);
            &&& p.next_id <= r.1.next_id
            &&& forall|lo: int|
                within(lo, p.next_id, r.1.next_id)
                    ==> #[trigger] reach_expr(r.0, lo) <= r.1.next_id
        }),
{
    unfold_destination_from(p);
    let (name, q) = p.ident("pipe destination function name/namespace name"@);
    order_node(q, ExprKindV::Ident(name), p.current_span());
    let (e, r) = node(q, ExprKindV::Ident(name), p.current_span());
    order_destination_tail(e, r);
}

#[verifier::spinoff_prover]
proof fn order_destination_tail(e: ExprV, p: PState)
    ensures
        ({
            let r = sealed_destination_tail(e, p);
            &&& p.next_id <= r.1.next_id
            &&& forall|lo: int|
                within(lo, p.next_id, r.1.next_id) && reach_expr(e, lo) <= p.next_id
                    ==> #[trigger] reach_expr(r.0, lo) <= r.1.next_id
        }),
    decreases p.left(),
{
    unfold_destination_tail(e, p);
    if p.at(TokenKind::Dot) {
        let (field, q) = p.bump().ident("field/method name"@);
        order_node(
            q,
            ExprKindV::FieldAccess { target: Box::new(e), field },
            between(e.span, q.previous_span()),
        );
        let (e2, r) = node(
            q,
            ExprKindV::FieldAccess { target: Box::new(e), field },
            between(e.span, q.previous_span()),
        );
        order_destination_tail(e2, r.after(p.bump()));
    }
}

#[verifier::spinoff_prover]
proof fn order_binary(op: BinaryOp, lhs: ExprV, rhs: ExprV, p: PState)
    ensures
        ({
            let r = sealed_binary(op, lhs, rhs, p);
            &&& p.next_id <= r.1.next_id
            &&& forall|lo: int|
                within(lo, p.next_id, r.1.next_id) && reach_expr(rhs, reach_expr(lhs, lo)) <= p.next_id
                    ==> #[trigger] reach_expr(r.0, lo) <= r.1.next_id
        }),
{
    unfold_binary(op, lhs, rhs, p);
    order_node(
        p,
        ExprKindV::Binary { op, lhs: Box::new(lhs), rhs: Box::new(rhs) },
        between(lhs.span, rhs.span),
    );
}

#[verifier::spinoff_prover]
proof fn order_expr_from(p: PState)
    ensures
        ({
            let r = sealed_expr_from(p);
            &&& p.next_id <= r.1.next_id
            &&& forall|lo: int|
                within(lo, p.next_id, r.1.next_id)
                    ==> #[trigger] reach_expr(r.0, lo) <= r.1.next_id
        }),
    decreases p.toks, p.left(), 200int,
{
    unfold_expr_from(p);
    let span = p.current_span();
    if p.depth >= MAX_PARSE_DEPTH {
        order_poison(p.too_deep(span), span);
    } else {
        order_pipe_from(p.deeper());
    }
}

#[verifier::spinoff_prover]
proof fn order_pipe_from(p: PState)
    ensures
        ({
            let r = sealed_pipe_from(p);
            &&& p.next_id <= r.1.next_id
            &&& forall|lo: int|
                within(lo, p.next_id, r.1.next_id)
                    ==> #[trigger] reach_expr(r.0, lo) <= r.1.next_id
        }),
    decreases p.toks, p.left(), 190int,
{
    unfold_pipe_from(p);
    lemma_reach_stages();
    order_logical_from(p);
    let (source, q) = sealed_logical_from(p);
    if q.at(TokenKind::PipeOp) {
        order_stages_tail(Seq::empty(), q.after(p));
        let (stages, r) = sealed_stages_tail(Seq::empty(), q.after(p));
        let end = if stages.len() > 0 {
            stages.last().span
        } else {
            source.span
        };
        order_node(
            r,
            ExprKindV::Pipe { source: Box::new(source), stages },
            between(source.span, end),
        );
    }
}

#[verifier::spinoff_prover]
proof fn order_stages_tail(acc: Seq<StageV>, p: PState)
    ensures
        ({
            let r = sealed_stages_tail(acc, p);
            &&& p.next_id <= r.1.next_id
            &&& forall|lo: int|
                within(lo, p.next_id, r.1.next_id) && reach_stages(acc, lo) <= p.next_id
                    ==> #[trigger] reach_stages(r.0, lo) <= r.1.next_id
        }),
    decreases p.toks, p.left(), 185int,
{
    unfold_stages_tail(acc, p);
    lemma_reach_stages();
    if p.at(TokenKind::PipeOp) {
        order_stage_from(p.bump());
        let (stage, q) = sealed_stage_from(p.bump());
        order_stages_tail(acc.push(stage), q.after(p.bump()));
    }
}

#[verifier::spinoff_prover]
proof fn order_stage_from(p: PState)
    ensures
        ({
            let r = sealed_stage_from(p);
            &&& p.next_id <= r.1.next_id
            &&& forall|lo: int|
                within(lo, p.next_id, r.1.next_id)
                    ==> #[trigger] reach_stage(r.0, lo) <= r.1.next_id
        }),
    decreases p.toks, p.left(), 310int,
{
    unfold_stage_from(p);
    open_stage(sealed_stage_from(p).0);
    order_destination_from(p);
    let (target, q) = sealed_destination_from(p);
    order_callee_rest(target, q.after(p));
}

#[verifier::spinoff_prover]
proof fn order_callee_rest(target: ExprV, p: PState)
    ensures
        ({
            let r = sealed_callee_rest(target, p);
            &&& p.next_id <= r.1.next_id
            &&& forall|lo: int|
                within(lo, p.next_id, r.1.next_id) && reach_expr(target, lo) <= p.next_id
                    ==> #[trigger] reach_callee(r.0, lo) <= r.1.next_id
        }),
    decreases p.toks, p.left(), 305int,
{
    unfold_callee_rest(target, p);
    open_callee(sealed_callee_rest(target, p).0);
    if p.at(TokenKind::LParen) {
        order_args_rest(p.current_span().start.line, p.bump());
    }
}

#[verifier::spinoff_prover]
proof fn order_logical_from(p: PState)
    ensures
        ({
            let r = sealed_logical_from(p);
            &&& p.next_id <= r.1.next_id
            &&& forall|lo: int|
                within(lo, p.next_id, r.1.next_id)
                    ==> #[trigger] reach_expr(r.0, lo) <= r.1.next_id
        }),
    decreases p.toks, p.left(), 180int,
{
    unfold_logical_from(p);
    order_and_from(p);
    let (lhs, q) = sealed_and_from(p);
    order_or_tail(lhs, q.after(p));
}

#[verifier::spinoff_prover]
proof fn order_or_tail(lhs: ExprV, p: PState)
    ensures
        ({
            let r = sealed_or_tail(lhs, p);
            &&& p.next_id <= r.1.next_id
            &&& forall|lo: int|
                within(lo, p.next_id, r.1.next_id) && reach_expr(lhs, lo) <= p.next_id
                    ==> #[trigger] reach_expr(r.0, lo) <= r.1.next_id
        }),
    decreases p.toks, p.left(), 175int,
{
    unfold_or_tail(lhs, p);
    if p.at(TokenKind::Or) {
        order_and_from(p.bump());
        let (rhs, q) = sealed_and_from(p.bump());
        order_binary(BinaryOp::Or, lhs, rhs, q);
        let (e, r) = sealed_binary(BinaryOp::Or, lhs, rhs, q);
        order_or_tail(e, r.after(p.bump()));
    }
}

#[verifier::spinoff_prover]
proof fn order_and_from(p: PState)
    ensures
        ({
            let r = sealed_and_from(p);
            &&& p.next_id <= r.1.next_id
            &&& forall|lo: int|
                within(lo, p.next_id, r.1.next_id)
                    ==> #[trigger] reach_expr(r.0, lo) <= r.1.next_id
        }),
    decreases p.toks, p.left(), 170int,
{
    unfold_and_from(p);
    order_comparison_from(p);
    let (lhs, q) = sealed_comparison_from(p);
    order_and_tail(lhs, q.after(p));
}

#[verifier::spinoff_prover]
proof fn order_and_tail(lhs: ExprV, p: PState)
    ensures
        ({
            let r = sealed_and_tail(lhs, p);
            &&& p.next_id <= r.1.next_id
            &&& forall|lo: int|
                within(lo, p.next_id, r.1.next_id) && reach_expr(lhs, lo) <= p.next_id
                    ==> #[trigger] reach_expr(r.0, lo) <= r.1.next_id
        }),
    decreases p.toks, p.left(), 165int,
{
    unfold_and_tail(lhs, p);
    if p.at(TokenKind::And) {
        order_comparison_from(p.bump());
        let (rhs, q) = sealed_comparison_from(p.bump());
        order_binary(BinaryOp::And, lhs, rhs, q);
        let (e, r) = sealed_binary(BinaryOp::And, lhs, rhs, q);
        order_and_tail(e, r.after(p.bump()));
    }
}

#[verifier::spinoff_prover]
proof fn order_comparison_from(p: PState)
    ensures
        ({
            let r = sealed_comparison_from(p);
            &&& p.next_id <= r.1.next_id
            &&& forall|lo: int|
                within(lo, p.next_id, r.1.next_id)
                    ==> #[trigger] reach_expr(r.0, lo) <= r.1.next_id
        }),
    decreases p.toks, p.left(), 160int,
{
    unfold_comparison_from(p);
    order_relational_from(p);
    let (lhs, q) = sealed_relational_from(p);
    order_equality_tail(lhs, q.after(p));
}

#[verifier::spinoff_prover]
proof fn order_equality_tail(lhs: ExprV, p: PState)
    ensures
        ({
            let r = sealed_equality_tail(lhs, p);
            &&& p.next_id <= r.1.next_id
            &&& forall|lo: int|
                within(lo, p.next_id, r.1.next_id) && reach_expr(lhs, lo) <= p.next_id
                    ==> #[trigger] reach_expr(r.0, lo) <= r.1.next_id
        }),
    decreases p.toks, p.left(), 155int,
{
    unfold_equality_tail(lhs, p);
    match equality_op(p.kind()) {
        Some(op) => {
            order_relational_from(p.bump());
            let (rhs, q) = sealed_relational_from(p.bump());
            order_binary(op, lhs, rhs, q);
            let (e, r) = sealed_binary(op, lhs, rhs, q);
            order_equality_tail(e, r.after(p.bump()));
        },
        None => {},
    }
}

#[verifier::spinoff_prover]
proof fn order_relational_from(p: PState)
    ensures
        ({
            let r = sealed_relational_from(p);
            &&& p.next_id <= r.1.next_id
            &&& forall|lo: int|
                within(lo, p.next_id, r.1.next_id)
                    ==> #[trigger] reach_expr(r.0, lo) <= r.1.next_id
        }),
    decreases p.toks, p.left(), 150int,
{
    unfold_relational_from(p);
    order_arithmetic_from(p);
    let (lhs, q) = sealed_arithmetic_from(p);
    match relational_op(q.kind()) {
        Some(op) => {
            order_arithmetic_from(q.after(p).bump());
            let (rhs, r) = sealed_arithmetic_from(q.after(p).bump());
            order_binary(op, lhs, rhs, r);
        },
        None => {},
    }
}

#[verifier::spinoff_prover]
proof fn order_arithmetic_from(p: PState)
    ensures
        ({
            let r = sealed_arithmetic_from(p);
            &&& p.next_id <= r.1.next_id
            &&& forall|lo: int|
                within(lo, p.next_id, r.1.next_id)
                    ==> #[trigger] reach_expr(r.0, lo) <= r.1.next_id
        }),
    decreases p.toks, p.left(), 140int,
{
    unfold_arithmetic_from(p);
    order_term_from(p);
    let (lhs, q) = sealed_term_from(p);
    order_additive_tail(lhs, q.after(p));
}

#[verifier::spinoff_prover]
proof fn order_additive_tail(lhs: ExprV, p: PState)
    ensures
        ({
            let r = sealed_additive_tail(lhs, p);
            &&& p.next_id <= r.1.next_id
            &&& forall|lo: int|
                within(lo, p.next_id, r.1.next_id) && reach_expr(lhs, lo) <= p.next_id
                    ==> #[trigger] reach_expr(r.0, lo) <= r.1.next_id
        }),
    decreases p.toks, p.left(), 135int,
{
    unfold_additive_tail(lhs, p);
    match additive_op(p.kind()) {
        Some(op) => {
            order_term_from(p.bump());
            let (rhs, q) = sealed_term_from(p.bump());
            order_binary(op, lhs, rhs, q);
            let (e, r) = sealed_binary(op, lhs, rhs, q);
            order_additive_tail(e, r.after(p.bump()));
        },
        None => {},
    }
}

#[verifier::spinoff_prover]
proof fn order_term_from(p: PState)
    ensures
        ({
            let r = sealed_term_from(p);
            &&& p.next_id <= r.1.next_id
            &&& forall|lo: int|
                within(lo, p.next_id, r.1.next_id)
                    ==> #[trigger] reach_expr(r.0, lo) <= r.1.next_id
        }),
    decreases p.toks, p.left(), 130int,
{
    unfold_term_from(p);
    order_unary_from(p);
    let (lhs, q) = sealed_unary_from(p);
    order_multiplicative_tail(lhs, q.after(p));
}

#[verifier::spinoff_prover]
proof fn order_multiplicative_tail(lhs: ExprV, p: PState)
    ensures
        ({
            let r = sealed_multiplicative_tail(lhs, p);
            &&& p.next_id <= r.1.next_id
            &&& forall|lo: int|
                within(lo, p.next_id, r.1.next_id) && reach_expr(lhs, lo) <= p.next_id
                    ==> #[trigger] reach_expr(r.0, lo) <= r.1.next_id
        }),
    decreases p.toks, p.left(), 125int,
{
    unfold_multiplicative_tail(lhs, p);
    match multiplicative_op(p.kind()) {
        Some(op) => {
            order_unary_from(p.bump());
            let (rhs, q) = sealed_unary_from(p.bump());
            order_binary(op, lhs, rhs, q);
            let (e, r) = sealed_binary(op, lhs, rhs, q);
            order_multiplicative_tail(e, r.after(p.bump()));
        },
        None => {},
    }
}

#[verifier::spinoff_prover]
proof fn order_unary_from(p: PState)
    ensures
        ({
            let r = sealed_unary_from(p);
            &&& p.next_id <= r.1.next_id
            &&& forall|lo: int|
                within(lo, p.next_id, r.1.next_id)
                    ==> #[trigger] reach_expr(r.0, lo) <= r.1.next_id
        }),
    decreases p.toks, p.left(), 120int,
{
    unfold_unary_from(p);
    let start = p.current_span();
    match unary_op(p.kind()) {
        Some(op) => {
            let q = p.bump();
            if q.depth >= MAX_PARSE_DEPTH {
                order_poison(q.too_deep(start), start);
            } else {
                order_unary_from(q.deeper());
            }
            let (operand, r) = if q.depth >= MAX_PARSE_DEPTH {
                poison(q.too_deep(start), start)
            } else {
                let (e, s) = sealed_unary_from(q.deeper());
                (e, s.at_depth(q.depth))
            };
            order_node(
                r,
                ExprKindV::Unary { op, operand: Box::new(operand) },
                between(start, operand.span),
            );
        },
        None => {
            order_postfix_from(p);
        },
    }
}

#[verifier::spinoff_prover]
proof fn order_postfix_from(p: PState)
    ensures
        ({
            let r = sealed_postfix_from(p);
            &&& p.next_id <= r.1.next_id
            &&& forall|lo: int|
                within(lo, p.next_id, r.1.next_id)
                    ==> #[trigger] reach_expr(r.0, lo) <= r.1.next_id
        }),
    decreases p.toks, p.left(), 110int,
{
    unfold_postfix_from(p);
    order_primary_from(p);
    let (e, q) = sealed_primary_from(p);
    order_postfix_tail(e, q.after(p));
}

#[verifier::spinoff_prover]
proof fn order_postfix_tail(e: ExprV, p: PState)
    ensures
        ({
            let r = sealed_postfix_tail(e, p);
            &&& p.next_id <= r.1.next_id
            &&& forall|lo: int|
                within(lo, p.next_id, r.1.next_id) && reach_expr(e, lo) <= p.next_id
                    ==> #[trigger] reach_expr(r.0, lo) <= r.1.next_id
        }),
    decreases p.toks, p.left(), 105int,
{
    unfold_postfix_tail(e, p);
    lemma_reach_args();
    let p1 = p.bump();
    match p.kind() {
        Some(TokenKind::Dot) => {
            order_dot_rest(e, p1);
            let (e2, q) = sealed_dot_rest(e, p1);
            order_postfix_tail(e2, q.after(p1));
        },
        Some(TokenKind::LParen) => {
            order_args_rest(p.current_span().start.line, p1);
            let (args, was_multiline, q) = sealed_args_rest(p.current_span().start.line, p1);
            order_node(
                q,
                ExprKindV::Call {
                    callee: Box::new(e),
                    type_args: Seq::empty(),
                    args,
                    was_multiline,
                },
                between(e.span, q.previous_span()),
            );
            let (e2, r) = node(
                q,
                ExprKindV::Call {
                    callee: Box::new(e),
                    type_args: Seq::empty(),
                    args,
                    was_multiline,
                },
                between(e.span, q.previous_span()),
            );
            order_postfix_tail(e2, r.after(p1));
        },
        Some(TokenKind::LBracket) => {
            if p.explicit_type_args() {
                order_type_args_rest(p1);
                let (type_args, q) = sealed_type_args_rest(p1);
                let q1 = q.after(p1);
                order_args_rest(q1.current_span().start.line, q1.bump());
                let (args, was_multiline, r) = sealed_args_rest(
                    q1.current_span().start.line,
                    q1.bump(),
                );
                order_node(
                    r,
                    ExprKindV::Call { callee: Box::new(e), type_args, args, was_multiline },
                    between(e.span, r.previous_span()),
                );
                let (e2, s) = node(
                    r,
                    ExprKindV::Call { callee: Box::new(e), type_args, args, was_multiline },
                    between(e.span, r.previous_span()),
                );
                order_postfix_tail(e2, s.after(p1));
            } else {
                order_expr_from(p1);
                let (index, q) = sealed_expr_from(p1);
                let r = q.expect(TokenKind::RBracket, "`]`"@);
                order_node(
                    r,
                    ExprKindV::Index { target: Box::new(e), index: Box::new(index) },
                    between(e.span, r.previous_span()),
                );
                let (e2, s) = node(
                    r,
                    ExprKindV::Index { target: Box::new(e), index: Box::new(index) },
                    between(e.span, r.previous_span()),
                );
                order_postfix_tail(e2, s.after(p1));
            }
        },
        Some(TokenKind::Question) => {
            let q = if p1.no_question {
                p1.unexpected(
                    p1.previous_span(),
                    "a bare `?` inside a par branch (or a lambda body passed to one) is forbidden (D-PAR-03)"@,
                )
            } else {
                p1
            };
            order_node(
                q,
                ExprKindV::Question { target: Box::new(e) },
                between(e.span, q.previous_span()),
            );
            let (e2, r) = node(
                q,
                ExprKindV::Question { target: Box::new(e) },
                between(e.span, q.previous_span()),
            );
            order_postfix_tail(e2, r.after(p1));
        },
        _ => {},
    }
}

#[verifier::spinoff_prover]
proof fn order_dot_rest(receiver: ExprV, p: PState)
    ensures
        ({
            let r = sealed_dot_rest(receiver, p);
            &&& p.next_id <= r.1.next_id
            &&& forall|lo: int|
                within(lo, p.next_id, r.1.next_id) && reach_expr(receiver, lo) <= p.next_id
                    ==> #[trigger] reach_expr(r.0, lo) <= r.1.next_id
        }),
    decreases p.toks, p.left(), 310int,
{
    unfold_dot_rest(receiver, p);
    lemma_reach_args();
    match p.kind() {
        Some(TokenKind::IntLiteral(n)) => {
            let q = p.bump();
            order_node(
                q,
                ExprKindV::TupleIndex { target: Box::new(receiver), index: n as u32 },
                between(receiver.span, q.previous_span()),
            );
        },
        Some(TokenKind::Ident(name)) => {
            let q = p.bump();
            if q.explicit_type_args() {
                order_type_args_rest(q.bump());
            }
            let (type_args, r) = if q.explicit_type_args() {
                sealed_type_args_rest(q.bump())
            } else {
                (Seq::empty(), q)
            };
            if r.at(TokenKind::LParen) {
                order_args_rest(r.current_span().start.line, r.after(q).bump());
                let (args, was_multiline, s) = sealed_args_rest(
                    r.current_span().start.line,
                    r.after(q).bump(),
                );
                order_node(
                    s,
                    ExprKindV::MethodCall {
                        receiver: Box::new(receiver),
                        method: name@,
                        type_args,
                        args,
                        was_multiline,
                    },
                    between(receiver.span, s.previous_span()),
                );
            } else {
                let s = if type_args.len() > 0 {
                    r.unexpected(
                        r.previous_span(),
                        "an explicit type argument list must be followed by a call `(...)`"@,
                    )
                } else {
                    r
                };
                order_node(
                    s,
                    ExprKindV::FieldAccess { target: Box::new(receiver), field: name@ },
                    between(receiver.span, s.previous_span()),
                );
            }
        },
        _ => {},
    }
}

#[verifier::spinoff_prover]
proof fn order_primary_from(p: PState)
    ensures
        ({
            let r = sealed_primary_from(p);
            &&& p.next_id <= r.1.next_id
            &&& forall|lo: int|
                within(lo, p.next_id, r.1.next_id)
                    ==> #[trigger] reach_expr(r.0, lo) <= r.1.next_id
        }),
    decreases p.toks, p.left(), 100int,
{
    unfold_primary_from(p);
    lemma_reach_exprs();
    lemma_reach_segments();
    lemma_reach_arms();
    let start = p.current_span();
    let p1 = p.bump();
    match p.kind() {
        Some(TokenKind::IntLiteral(n)) => {
            order_node(p1, ExprKindV::IntLit(n), start);
        },
        Some(TokenKind::FloatLiteral(s)) => {
            order_node(p1, ExprKindV::FloatLit(s@), start);
        },
        Some(TokenKind::True) => {
            order_node(p1, ExprKindV::BoolLit(true), start);
        },
        Some(TokenKind::False) => {
            order_node(p1, ExprKindV::BoolLit(false), start);
        },
        Some(TokenKind::StringLiteral(s)) => {
            order_node(p1, ExprKindV::StringLit(s@), start);
        },
        Some(TokenKind::FString(_)) => {
            order_segments_tail(Seq::empty(), p.pos, 0, p1);
            let (segments, q) = sealed_segments_tail(Seq::empty(), p.pos, 0, p1);
            order_node(q, ExprKindV::FString(segments), between(start, q.previous_span()));
        },
        Some(TokenKind::KwSelf) => {
            order_node(p1, ExprKindV::Ident("self"@), start);
        },
        Some(TokenKind::Ident(name)) => {
            order_node(p1, ExprKindV::Ident(name@), start);
        },
        Some(TokenKind::LParen) => {
            if close_followed(p.toks, p.pos, 0, TokenKind::FatArrow) {
                order_lambda_rest(start, p1);
            } else {
                order_paren_rest(start, p1);
            }
        },
        Some(TokenKind::LBracket) => {
            order_list_rest(start, p1);
        },
        Some(TokenKind::LBrace) => {
            order_brace_rest(start, p1);
        },
        Some(TokenKind::If) => {
            order_if_rest(start, p1);
            let (i, q) = sealed_if_rest(start, p1);
            order_node(q, ExprKindV::If(Box::new(i)), i.span);
        },
        Some(TokenKind::Match) => {
            order_match_rest(start, p1);
        },
        Some(TokenKind::Par) => {
            order_par_rest(start, p1);
        },
        _ => {
            order_poison(
                p.unexpected(start, "expected an expression but did not find one"@).bump(),
                start,
            );
        },
    }
}

#[verifier::spinoff_prover]
proof fn order_segments_tail(acc: Seq<SegmentV>, at: int, i: int, p: PState)
    ensures
        ({
            let r = sealed_segments_tail(acc, at, i, p);
            &&& p.next_id <= r.1.next_id
            &&& forall|lo: int|
                within(lo, p.next_id, r.1.next_id) && reach_segments(acc, lo) <= p.next_id
                    ==> #[trigger] reach_segments(r.0, lo) <= r.1.next_id
        }),
    decreases p.toks, p.left(), part_count(p.toks, at) - i,
{
    unfold_segments_tail(acc, at, i, p);
    lemma_reach_segments();
    lemma_segments_open();
    if 0 <= i < part_count(p.toks, at) {
        match p.toks[at].kind->FString_0@[i] {
            FStringPart::Text(text) => {
                order_segments_tail(acc.push(SegmentV::Text(text@)), at, i + 1, p);
            },
            FStringPart::Expr(sub) => {
                let inner = PState { toks: sub@, pos: 0, ..p };
                order_expr_from(inner);
                let (e, q) = sealed_expr_from(inner);
                let r = if q.pos < q.toks.len() {
                    q.unexpected(
                        q.current_span(),
                        "there are extra tokens in the f-string's expression"@,
                    )
                } else {
                    q
                };
                order_segments_tail(
                    acc.push(SegmentV::Expr(Box::new(e))),
                    at,
                    i + 1,
                    PState { toks: p.toks, pos: p.pos, ..r },
                );
            },
        }
    }
}

#[verifier::spinoff_prover]
proof fn order_paren_rest(start: Span, p: PState)
    ensures
        ({
            let r = sealed_paren_rest(start, p);
            &&& p.next_id <= r.1.next_id
            &&& forall|lo: int|
                within(lo, p.next_id, r.1.next_id)
                    ==> #[trigger] reach_expr(r.0, lo) <= r.1.next_id
        }),
    decreases p.toks, p.left(), 310int,
{
    unfold_paren_rest(start, p);
    lemma_reach_exprs();
    if p.at(TokenKind::RParen) {
        let q = p.bump();
        order_node(
            q,
            ExprKindV::TupleLit { elements: Seq::empty(), was_multiline: false },
            between(start, q.previous_span()),
        );
    } else {
        order_expr_from(p);
        let (first, q) = sealed_expr_from(p);
        if q.at(TokenKind::Comma) {
            order_exprs_from(seq![first], q.after(p).bump(), TokenKind::RParen);
            let (elements, r) = sealed_exprs_from(
                seq![first],
                q.after(p).bump(),
                TokenKind::RParen,
            );
            let was_multiline = start.start.line != r.current_span().start.line;
            let s = r.expect(TokenKind::RParen, "`)`"@);
            order_node(
                s,
                ExprKindV::TupleLit { elements, was_multiline },
                between(start, s.previous_span()),
            );
        } else {
            let s = q.expect(TokenKind::RParen, "`)`"@);
            order_node(s, ExprKindV::Grouping(Box::new(first)), between(start, s.previous_span()));
        }
    }
}

#[verifier::spinoff_prover]
proof fn order_exprs_from(acc: Seq<ExprV>, p: PState, closing: TokenKind)
    ensures
        ({
            let r = sealed_exprs_from(acc, p, closing);
            &&& p.next_id <= r.1.next_id
            &&& forall|lo: int|
                within(lo, p.next_id, r.1.next_id) && reach_exprs(acc, lo) <= p.next_id
                    ==> #[trigger] reach_exprs(r.0, lo) <= r.1.next_id
        }),
    decreases p.toks, p.left(), 250int,
{
    unfold_exprs_from(acc, p, closing);
    lemma_reach_exprs();
    if !p.at(closing) {
        order_expr_from(p);
        let (e, q) = sealed_expr_from(p);
        order_exprs_tail(acc.push(e), q.after(p), closing);
    }
}

#[verifier::spinoff_prover]
proof fn order_exprs_tail(acc: Seq<ExprV>, p: PState, closing: TokenKind)
    ensures
        ({
            let r = sealed_exprs_tail(acc, p, closing);
            &&& p.next_id <= r.1.next_id
            &&& forall|lo: int|
                within(lo, p.next_id, r.1.next_id) && reach_exprs(acc, lo) <= p.next_id
                    ==> #[trigger] reach_exprs(r.0, lo) <= r.1.next_id
        }),
    decreases p.toks, p.left(), 240int,
{
    unfold_exprs_tail(acc, p, closing);
    lemma_reach_exprs();
    if p.at(TokenKind::Comma) {
        let q = p.bump();
        if !q.at(closing) {
            order_expr_from(q);
            let (e, r) = sealed_expr_from(q);
            order_exprs_tail(acc.push(e), r.after(q), closing);
        }
    }
}

#[verifier::spinoff_prover]
proof fn order_entry_from(p: PState)
    ensures
        ({
            let r = sealed_entry_from(p);
            &&& p.next_id <= r.1.next_id
            &&& forall|lo: int|
                within(lo, p.next_id, r.1.next_id)
                    ==> #[trigger] reach_entry(r.0, lo) <= r.1.next_id
        }),
    decreases p.toks, p.left(), 230int,
{
    unfold_entry_from(p);
    open_entry(sealed_entry_from(p).0);
    order_expr_from(p);
    let (key, q) = sealed_expr_from(p);
    order_expr_from(q.expect(TokenKind::Colon, "`:`"@).after(p));
}

#[verifier::spinoff_prover]
proof fn order_entries_tail(acc: Seq<(ExprV, ExprV)>, p: PState)
    ensures
        ({
            let r = sealed_entries_tail(acc, p);
            &&& p.next_id <= r.1.next_id
            &&& forall|lo: int|
                within(lo, p.next_id, r.1.next_id) && reach_entries(acc, lo) <= p.next_id
                    ==> #[trigger] reach_entries(r.0, lo) <= r.1.next_id
        }),
    decreases p.toks, p.left(), 240int,
{
    unfold_entries_tail(acc, p);
    lemma_reach_entries();
    lemma_entries_open();
    if p.at(TokenKind::Comma) {
        let q = p.bump();
        if !q.at(TokenKind::RBrace) {
            order_entry_from(q);
            let (e, r) = sealed_entry_from(q);
            order_entries_tail(acc.push(e), r.after(q));
        }
    }
}

#[verifier::spinoff_prover]
proof fn order_lambda_rest(start: Span, p: PState)
    ensures
        ({
            let r = sealed_lambda_rest(start, p);
            &&& p.next_id <= r.1.next_id
            &&& forall|lo: int|
                within(lo, p.next_id, r.1.next_id)
                    ==> #[trigger] reach_expr(r.0, lo) <= r.1.next_id
        }),
    decreases p.toks, p.left(), 310int,
{
    unfold_lambda_rest(start, p);
    order_lambda_params_from(p);
    let (params, q) = sealed_lambda_params_from(p);
    let r = q.after(p).expect(TokenKind::RParen, "`)`"@).expect(TokenKind::FatArrow, "`=>`"@);
    order_expr_from(r.after(p).forbidding(false));
    let (body, s) = sealed_expr_from(r.after(p).forbidding(false));
    let t = s.forbidding(p.no_question);
    order_node(
        t,
        ExprKindV::Lambda { params, body: Box::new(body) },
        between(start, t.previous_span()),
    );
}

#[verifier::spinoff_prover]
proof fn order_list_rest(start: Span, p: PState)
    ensures
        ({
            let r = sealed_list_rest(start, p);
            &&& p.next_id <= r.1.next_id
            &&& forall|lo: int|
                within(lo, p.next_id, r.1.next_id)
                    ==> #[trigger] reach_expr(r.0, lo) <= r.1.next_id
        }),
    decreases p.toks, p.left(), 310int,
{
    unfold_list_rest(start, p);
    lemma_reach_exprs();
    order_exprs_from(Seq::empty(), p, TokenKind::RBracket);
    let (elements, q) = sealed_exprs_from(Seq::empty(), p, TokenKind::RBracket);
    let was_multiline = start.start.line != q.current_span().start.line;
    let r = q.expect(TokenKind::RBracket, "`]`"@);
    order_node(
        r,
        ExprKindV::ListLit { elements, was_multiline },
        between(start, r.previous_span()),
    );
}

#[verifier::spinoff_prover]
proof fn order_brace_rest(start: Span, p: PState)
    ensures
        ({
            let r = sealed_brace_rest(start, p);
            &&& p.next_id <= r.1.next_id
            &&& forall|lo: int|
                within(lo, p.next_id, r.1.next_id)
                    ==> #[trigger] reach_expr(r.0, lo) <= r.1.next_id
        }),
    decreases p.toks, p.left(), 310int,
{
    unfold_brace_rest(start, p);
    lemma_reach_exprs();
    lemma_reach_entries();
    lemma_entries_open();
    if p.at(TokenKind::RBrace) {
        let q = p.bump();
        order_node(
            q,
            ExprKindV::DictLit { entries: Seq::empty(), was_multiline: false },
            between(start, q.previous_span()),
        );
    } else {
        order_expr_from(p);
        let (first, q) = sealed_expr_from(p);
        if q.at(TokenKind::Colon) {
            order_expr_from(q.after(p).bump());
            let (value, r) = sealed_expr_from(q.after(p).bump());
            order_entries_tail(seq![(first, value)], r.after(p));
            let (entries, s) = sealed_entries_tail(seq![(first, value)], r.after(p));
            let was_multiline = start.start.line != s.current_span().start.line;
            let t = s.expect(TokenKind::RBrace, "`}`"@);
            order_node(
                t,
                ExprKindV::DictLit { entries, was_multiline },
                between(start, t.previous_span()),
            );
        } else {
            order_exprs_tail(seq![first], q.after(p), TokenKind::RBrace);
            let (elements, s) = sealed_exprs_tail(seq![first], q.after(p), TokenKind::RBrace);
            let was_multiline = start.start.line != s.current_span().start.line;
            let t = s.expect(TokenKind::RBrace, "`}`"@);
            order_node(
                t,
                ExprKindV::SetLit { elements, was_multiline },
                between(start, t.previous_span()),
            );
        }
    }
}

#[verifier::spinoff_prover]
proof fn order_match_rest(start: Span, p: PState)
    ensures
        ({
            let r = sealed_match_rest(start, p);
            &&& p.next_id <= r.1.next_id
            &&& forall|lo: int|
                within(lo, p.next_id, r.1.next_id)
                    ==> #[trigger] reach_expr(r.0, lo) <= r.1.next_id
        }),
    decreases p.toks, p.left(), 310int,
{
    unfold_match_rest(start, p);
    lemma_reach_arms();
    order_expr_from(p);
    let (scrutinee, q) = sealed_expr_from(p);
    if q.indented_ahead() {
        order_arms_block(Seq::empty(), q.after(p).bump().bump());
    } else {
        order_arms_inline(Seq::empty(), q.after(p));
    }
    let (arms, r) = if q.indented_ahead() {
        sealed_arms_block(Seq::empty(), q.after(p).bump().bump())
    } else {
        sealed_arms_inline(Seq::empty(), q.after(p))
    };
    order_node(
        r,
        ExprKindV::Match { scrutinee: Box::new(scrutinee), arms },
        between(start, r.previous_span()),
    );
}

#[verifier::spinoff_prover]
proof fn order_arms_block(acc: Seq<ArmV>, p: PState)
    ensures
        ({
            let r = sealed_arms_block(acc, p);
            &&& p.next_id <= r.1.next_id
            &&& forall|lo: int|
                within(lo, p.next_id, r.1.next_id) && reach_arms(acc, lo) <= p.next_id
                    ==> #[trigger] reach_arms(r.0, lo) <= r.1.next_id
        }),
    decreases p.toks, p.left(), 300int,
{
    unfold_arms_block(acc, p);
    lemma_reach_arms();
    order_newlines(p);
    let q = p.newlines().after(p);
    if !q.at(TokenKind::Dedent) {
        if !q.at_end() {
            order_arm_from(q);
            let (arm, r) = sealed_arm_from(q);
            order_arms_block(acc.push(arm), r.after(q.bump()));
        }
    }
}

#[verifier::spinoff_prover]
proof fn order_arms_inline(acc: Seq<ArmV>, p: PState)
    ensures
        ({
            let r = sealed_arms_inline(acc, p);
            &&& p.next_id <= r.1.next_id
            &&& forall|lo: int|
                within(lo, p.next_id, r.1.next_id) && reach_arms(acc, lo) <= p.next_id
                    ==> #[trigger] reach_arms(r.0, lo) <= r.1.next_id
        }),
    decreases p.toks, p.left(), 300int,
{
    unfold_arms_inline(acc, p);
    lemma_reach_arms();
    if p.at_pattern_start() {
        order_arm_from(p);
        let (arm, r) = sealed_arm_from(p);
        order_arms_inline(acc.push(arm), r.after(p.bump()));
    }
}

#[verifier::spinoff_prover]
proof fn order_arm_from(p: PState)
    ensures
        ({
            let r = sealed_arm_from(p);
            &&& p.next_id <= r.1.next_id
            &&& forall|lo: int|
                within(lo, p.next_id, r.1.next_id)
                    ==> #[trigger] reach_arm(r.0, lo) <= r.1.next_id
        }),
    decreases p.toks, p.left(), 290int,
{
    unfold_arm_from(p);
    open_arm(sealed_arm_from(p).0);
    order_pattern_from(p);
    let (pattern, q) = sealed_pattern_from(p);
    order_arm_body_from(q.expect(TokenKind::FatArrow, "`=>`"@).after(p));
}

#[verifier::spinoff_prover]
proof fn order_arm_body_from(p: PState)
    ensures
        ({
            let r = sealed_arm_body_from(p);
            &&& p.next_id <= r.1.next_id
            &&& forall|lo: int|
                within(lo, p.next_id, r.1.next_id)
                    ==> #[trigger] reach_arm_body(r.0, lo) <= r.1.next_id
        }),
    decreases p.toks, p.left(), 280int,
{
    unfold_arm_body_from(p);
    open_arm_body(sealed_arm_body_from(p).0);
    if p.indented_ahead() {
        order_block_from(p);
    } else {
        order_expr_from(p);
    }
}

#[verifier::spinoff_prover]
proof fn order_par_rest(start: Span, p: PState)
    ensures
        ({
            let r = sealed_par_rest(start, p);
            &&& p.next_id <= r.1.next_id
            &&& forall|lo: int|
                within(lo, p.next_id, r.1.next_id)
                    ==> #[trigger] reach_expr(r.0, lo) <= r.1.next_id
        }),
    decreases p.toks, p.left(), 310int,
{
    unfold_par_rest(start, p);
    if p.at(TokenKind::LBracket) {
        order_par_elements(start, ParKind::List, TokenKind::RBracket, "`]`"@, p.bump());
    } else {
        if p.at(TokenKind::LParen) {
            order_par_elements(start, ParKind::Tuple, TokenKind::RParen, "`)`"@, p.bump());
        } else {
            order_poison(p.unexpected(start, "`par` must be followed by `[` or `(`"@), start);
        }
    }
}

#[verifier::spinoff_prover]
proof fn order_par_elements(
    start: Span,
    kind: ParKind,
    closing: TokenKind,
    closing_text: Seq<char>,
    p: PState,
)
    ensures
        ({
            let r = sealed_par_elements(start, kind, closing, closing_text, p);
            &&& p.next_id <= r.1.next_id
            &&& forall|lo: int|
                within(lo, p.next_id, r.1.next_id)
                    ==> #[trigger] reach_expr(r.0, lo) <= r.1.next_id
        }),
    decreases p.toks, p.left(), 300int,
{
    unfold_par_elements(start, kind, closing, closing_text, p);
    lemma_reach_exprs();
    order_exprs_from(Seq::empty(), p.forbidding(true), closing);
    let (elements, q) = sealed_exprs_from(Seq::empty(), p.forbidding(true), closing);
    let r = q.forbidding(p.no_question).expect(closing, closing_text);
    order_node(r, ExprKindV::Par { kind, elements }, between(start, r.previous_span()));
}

#[verifier::spinoff_prover]
proof fn order_args_rest(open_line: u32, p: PState)
    ensures
        ({
            let r = sealed_args_rest(open_line, p);
            &&& p.next_id <= r.2.next_id
            &&& forall|lo: int|
                within(lo, p.next_id, r.2.next_id)
                    ==> #[trigger] reach_args(r.0, lo) <= r.2.next_id
        }),
    decreases p.toks, p.left(), 300int,
{
    unfold_args_rest(open_line, p);
    order_args_from(p);
}

#[verifier::spinoff_prover]
proof fn order_args_from(p: PState)
    ensures
        ({
            let r = sealed_args_from(p);
            &&& p.next_id <= r.1.next_id
            &&& forall|lo: int|
                within(lo, p.next_id, r.1.next_id)
                    ==> #[trigger] reach_args(r.0, lo) <= r.1.next_id
        }),
    decreases p.toks, p.left(), 250int,
{
    unfold_args_from(p);
    lemma_reach_args();
    if !p.at(TokenKind::RParen) {
        order_arg_from(p);
        let (a, q) = sealed_arg_from(p);
        order_args_tail(seq![a], q.after(p));
    }
}

#[verifier::spinoff_prover]
proof fn order_args_tail(acc: Seq<ArgV>, p: PState)
    ensures
        ({
            let r = sealed_args_tail(acc, p);
            &&& p.next_id <= r.1.next_id
            &&& forall|lo: int|
                within(lo, p.next_id, r.1.next_id) && reach_args(acc, lo) <= p.next_id
                    ==> #[trigger] reach_args(r.0, lo) <= r.1.next_id
        }),
    decreases p.toks, p.left(), 240int,
{
    unfold_args_tail(acc, p);
    lemma_reach_args();
    if p.at(TokenKind::Comma) {
        let q = p.bump();
        if !q.at(TokenKind::RParen) {
            order_arg_from(q);
            let (a, r) = sealed_arg_from(q);
            order_args_tail(acc.push(a), r.after(q));
        }
    }
}

#[verifier::spinoff_prover]
proof fn order_arg_from(p: PState)
    ensures
        ({
            let r = sealed_arg_from(p);
            &&& p.next_id <= r.1.next_id
            &&& forall|lo: int|
                within(lo, p.next_id, r.1.next_id)
                    ==> #[trigger] reach_arg(r.0, lo) <= r.1.next_id
        }),
    decreases p.toks, p.left(), 230int,
{
    unfold_arg_from(p);
    open_arg(sealed_arg_from(p).0);
    match p.kind() {
        Some(TokenKind::Underscore) => {
            order_node(p.bump(), ExprKindV::Ident("_"@), p.current_span());
        },
        Some(TokenKind::Ident(name)) => {
            if p.kind_at(1) == Some(TokenKind::Colon) {
                order_expr_from(p.bump().bump());
            } else {
                order_expr_from(p);
            }
        },
        _ => {
            order_expr_from(p);
        },
    }
}

#[verifier::spinoff_prover]
proof fn order_block_from(p: PState)
    ensures
        ({
            let r = sealed_block_from(p);
            &&& p.next_id <= r.1.next_id
            &&& forall|lo: int|
                within(lo, p.next_id, r.1.next_id)
                    ==> #[trigger] reach_block(r.0, lo) <= r.1.next_id
        }),
    decreases p.toks, p.left(), 270int,
{
    unfold_block_from(p);
    open_block(sealed_block_from(p).0);
    lemma_reach_stmts();
    let q = if p.at(TokenKind::Newline) {
        p.bump()
    } else {
        p
    };
    if q.at(TokenKind::Indent) {
        order_stmts_tail(Seq::empty(), q.bump());
    }
}

#[verifier::spinoff_prover]
proof fn order_stmts_tail(acc: Seq<StmtV>, p: PState)
    ensures
        ({
            let r = sealed_stmts_tail(acc, p);
            &&& p.next_id <= r.1.next_id
            &&& forall|lo: int|
                within(lo, p.next_id, r.1.next_id) && reach_stmts(acc, lo) <= p.next_id
                    ==> #[trigger] reach_stmts(r.0, lo) <= r.1.next_id
        }),
    decreases p.toks, p.left(), 400int,
{
    unfold_stmts_tail(acc, p);
    lemma_reach_stmts();
    order_newlines(p);
    let q = p.newlines().after(p);
    if !q.at(TokenKind::Dedent) {
        if !q.at_end() {
            order_stmt_or_skip_from(q);
            let (s, r) = sealed_stmt_or_skip_from(q);
            order_stmts_tail(acc.push(s), r.after(q.bump()));
        }
    }
}

#[verifier::spinoff_prover]
proof fn order_stmt_or_skip_from(p: PState)
    ensures
        ({
            let r = sealed_stmt_or_skip_from(p);
            &&& p.next_id <= r.1.next_id
            &&& forall|lo: int|
                within(lo, p.next_id, r.1.next_id)
                    ==> #[trigger] reach_stmt(r.0, lo) <= r.1.next_id
        }),
    decreases p.toks, p.left(), 360int,
{
    unfold_stmt_or_skip_from(p);
    order_stmt_from(p);
    let (s, q) = sealed_stmt_from(p);
    if !(q.pos > p.pos) {
        order_sync(q.bump(), 0);
    }
}

#[verifier::spinoff_prover]
proof fn order_stmt_from(p: PState)
    ensures
        ({
            let r = sealed_stmt_from(p);
            &&& p.next_id <= r.1.next_id
            &&& forall|lo: int|
                within(lo, p.next_id, r.1.next_id)
                    ==> #[trigger] reach_stmt(r.0, lo) <= r.1.next_id
        }),
    decreases p.toks, p.left(), 350int,
{
    unfold_stmt_from(p);
    open_stmt(sealed_stmt_from(p).0);
    order_stmt_kind_from(p);
}

#[verifier::spinoff_prover]
proof fn order_stmt_kind_from(p: PState)
    ensures
        ({
            let r = sealed_stmt_kind_from(p);
            &&& p.next_id <= r.1.next_id
            &&& forall|lo: int|
                within(lo, p.next_id, r.1.next_id)
                    ==> #[trigger] reach_stmt_kind(r.0, lo) <= r.1.next_id
        }),
    decreases p.toks, p.left(), 348int,
{
    unfold_stmt_kind_from(p);
    open_stmt_kind(sealed_stmt_kind_from(p).0);
    match p.kind() {
        Some(TokenKind::Var) => {
            order_var_rest(p.bump());
        },
        Some(TokenKind::Return) => {
            order_return_rest(p.bump());
        },
        Some(TokenKind::Underscore) => {
            if p.kind_at(1) == Some(TokenKind::Eq) {
                order_expr_from(p.bump().bump());
            } else {
                order_assign_or_expr_from(p);
            }
        },
        _ => {
            order_assign_or_expr_from(p);
        },
    }
}

#[verifier::spinoff_prover]
proof fn order_binding_name(p: PState, what: Seq<char>)
    ensures
        ({
            let r = sealed_binding_name(p, what);
            &&& p.next_id <= r.1.next_id
        }),
{
    unfold_binding_name(p, what);
}

#[verifier::spinoff_prover]
proof fn order_var_rest(p: PState)
    ensures
        ({
            let r = sealed_var_rest(p);
            &&& p.next_id <= r.1.next_id
            &&& forall|lo: int|
                within(lo, p.next_id, r.1.next_id)
                    ==> #[trigger] reach_stmt_kind(r.0, lo) <= r.1.next_id
        }),
    decreases p.toks, p.left(), 310int,
{
    unfold_var_rest(p);
    open_stmt_kind(sealed_var_rest(p).0);
    order_binding_name(p, "variable name"@);
    let (name, q) = sealed_binding_name(p, "variable name"@);
    order_opt_type_from(q);
    let (ty, r) = sealed_opt_type_from(q);
    order_expr_from(r.expect(TokenKind::Eq, "`=`"@).after(p));
}

#[verifier::spinoff_prover]
proof fn order_return_rest(p: PState)
    ensures
        ({
            let r = sealed_return_rest(p);
            &&& p.next_id <= r.1.next_id
            &&& forall|lo: int|
                within(lo, p.next_id, r.1.next_id)
                    ==> #[trigger] reach_stmt_kind(r.0, lo) <= r.1.next_id
        }),
    decreases p.toks, p.left(), 310int,
{
    unfold_return_rest(p);
    open_stmt_kind(sealed_return_rest(p).0);
    if !(p.at_end() || p.at(TokenKind::Newline) || p.at(TokenKind::Dedent)) {
        order_expr_from(p);
    }
}

#[verifier::spinoff_prover]
proof fn order_assign_or_expr_from(p: PState)
    ensures
        ({
            let r = sealed_assign_or_expr_from(p);
            &&& p.next_id <= r.1.next_id
            &&& forall|lo: int|
                within(lo, p.next_id, r.1.next_id)
                    ==> #[trigger] reach_stmt_kind(r.0, lo) <= r.1.next_id
        }),
    decreases p.toks, p.left(), 340int,
{
    unfold_assign_or_expr_from(p);
    open_stmt_kind(sealed_assign_or_expr_from(p).0);
    order_expr_from(p);
    let (lhs, q) = sealed_expr_from(p);
    match q.kind() {
        Some(TokenKind::Colon) => {
            order_annotated_rest(lhs, q.after(p).bump());
        },
        Some(TokenKind::Eq) => {
            order_assigned_rest(lhs, q.after(p).bump());
        },
        _ => {},
    }
}

#[verifier::spinoff_prover]
proof fn order_annotated_rest(lhs: ExprV, p: PState)
    ensures
        ({
            let r = sealed_annotated_rest(lhs, p);
            &&& p.next_id <= r.1.next_id
            &&& forall|lo: int|
                within(lo, p.next_id, r.1.next_id) && reach_expr(lhs, lo) <= p.next_id
                    ==> #[trigger] reach_stmt_kind(r.0, lo) <= r.1.next_id
        }),
    decreases p.toks, p.left(), 310int,
{
    unfold_annotated_rest(lhs, p);
    open_stmt_kind(sealed_annotated_rest(lhs, p).0);
    open_expr(lhs);
    order_type_from(p);
    let (ty, q) = sealed_type_from(p);
    order_expr_from(q.expect(TokenKind::Eq, "`=`"@).after(p));
}

#[verifier::spinoff_prover]
proof fn order_assigned_rest(lhs: ExprV, p: PState)
    ensures
        ({
            let r = sealed_assigned_rest(lhs, p);
            &&& p.next_id <= r.1.next_id
            &&& forall|lo: int|
                within(lo, p.next_id, r.1.next_id) && reach_expr(lhs, lo) <= p.next_id
                    ==> #[trigger] reach_stmt_kind(r.0, lo) <= r.1.next_id
        }),
    decreases p.toks, p.left(), 310int,
{
    unfold_assigned_rest(lhs, p);
    open_stmt_kind(sealed_assigned_rest(lhs, p).0);
    open_expr(lhs);
    open_kind(lhs.kind);
    order_expr_from(p);
}

#[verifier::spinoff_prover]
proof fn order_if_rest(start: Span, p: PState)
    ensures
        ({
            let r = sealed_if_rest(start, p);
            &&& p.next_id <= r.1.next_id
            &&& forall|lo: int|
                within(lo, p.next_id, r.1.next_id)
                    ==> #[trigger] reach_if(r.0, lo) <= r.1.next_id
        }),
    decreases p.toks, p.left(), 310int,
{
    unfold_if_rest(start, p);
    open_if(sealed_if_rest(start, p).0);
    order_expr_from(p);
    let (cond, q) = sealed_expr_from(p);
    order_branch_from(q.after(p));
    let (then_branch, r) = sealed_branch_from(q.after(p));
    order_else_from(r.after(p));
}

#[verifier::spinoff_prover]
proof fn order_else_from(p: PState)
    ensures
        ({
            let r = sealed_else_from(p);
            &&& p.next_id <= r.1.next_id
            &&& forall|lo: int|
                within(lo, p.next_id, r.1.next_id)
                    ==> #[trigger] reach_else(r.0, lo) <= r.1.next_id
        }),
    decreases p.toks, p.left(), 300int,
{
    unfold_else_from(p);
    open_else(sealed_else_from(p).0);
    lemma_reach_stmts();
    open_block(BlockV { stmts: Seq::empty(), span: p.current_span() });
    lemma_reach_stmts();
    if p.at(TokenKind::Else) {
        let q = p.bump();
        if q.at(TokenKind::If) {
            order_if_rest(q.current_span(), q.bump());
        } else {
            order_branch_from(q);
        }
    } else {
        let span = p.current_span();
        order_sync(p.unexpected(span, "an if expression requires else (D-SYN-03)"@), 0);
    }
}

#[verifier::spinoff_prover]
proof fn order_branch_from(p: PState)
    ensures
        ({
            let r = sealed_branch_from(p);
            &&& p.next_id <= r.1.next_id
            &&& forall|lo: int|
                within(lo, p.next_id, r.1.next_id)
                    ==> #[trigger] reach_block(r.0, lo) <= r.1.next_id
        }),
    decreases p.toks, p.left(), 280int,
{
    unfold_branch_from(p);
    open_block(sealed_branch_from(p).0);
    lemma_reach_stmts();
    let e = sealed_expr_from(p).0;
    open_stmt(plain_stmt(StmtKindV::ExprStmt(e), e.span));
    open_stmt_kind(StmtKindV::ExprStmt(e));
    if p.indented_ahead() {
        order_block_from(p);
    } else {
        order_expr_from(p);
    }
}

#[verifier::spinoff_prover]
proof fn order_generics_from(p: PState)
    ensures
        ({
            let r = sealed_generics_from(p);
            &&& p.next_id <= r.1.next_id
        }),
{
    unfold_generics_from(p);
    if p.at(TokenKind::LBracket) {
        order_idents_from(p.bump(), TokenKind::RBracket, "type parameter name"@);
    }
}

#[verifier::spinoff_prover]
proof fn order_param_from(p: PState)
    ensures
        ({
            let r = sealed_param_from(p);
            &&& p.next_id <= r.1.next_id
        }),
{
    unfold_param_from(p);
    let (name, q) = p.ident("parameter name/field name"@);
    if q.at(TokenKind::Colon) {
        order_type_from(q.bump());
    }
}

#[verifier::spinoff_prover]
proof fn order_opt_comma(p: PState)
    ensures
        ({
            let r = sealed_opt_comma(p);
            &&& p.next_id <= r.next_id
        }),
{
    unfold_opt_comma(p);
}

#[verifier::spinoff_prover]
proof fn order_self_param_from(p: PState)
    ensures
        ({
            let r = sealed_self_param_from(p);
            &&& p.next_id <= r.1.next_id
        }),
{
    unfold_self_param_from(p);
    if p.at(TokenKind::Var) && p.kind_at(1) == Some(TokenKind::KwSelf) {
        order_opt_comma(p.bump().bump());
    } else {
        if p.at(TokenKind::KwSelf) {
            order_opt_comma(p.bump());
        }
    }
}

#[verifier::spinoff_prover]
proof fn order_function_params_from(p: PState)
    ensures
        ({
            let r = sealed_function_params_from(p);
            &&& p.next_id <= r.2.next_id
        }),
{
    unfold_function_params_from(p);
    if !p.at(TokenKind::RParen) {
        order_self_param_from(p);
        let (self_param, q) = sealed_self_param_from(p);
        order_params_tail(Seq::empty(), q);
    }
}

#[verifier::spinoff_prover]
proof fn order_params_tail(acc: Seq<ParamV>, p: PState)
    ensures
        ({
            let r = sealed_params_tail(acc, p);
            &&& p.next_id <= r.1.next_id
        }),
    decreases p.left(),
{
    unfold_params_tail(acc, p);
    if !(p.at_end() || p.at(TokenKind::RParen)) {
        order_param_from(p);
        let (x, q) = sealed_param_from(p);
        if q.at(TokenKind::Comma) {
            let r = q.after(p).bump();
            if !r.at(TokenKind::RParen) {
                order_params_tail(acc.push(x), r);
            }
        }
    }
}

#[verifier::spinoff_prover]
proof fn order_function_from(p: PState)
    ensures
        ({
            let r = sealed_function_from(p);
            &&& p.next_id <= r.1.next_id
            &&& forall|lo: int|
                within(lo, p.next_id, r.1.next_id)
                    ==> #[trigger] reach_function(r.0, lo) <= r.1.next_id
        }),
{
    unfold_function_from(p);
    open_function(sealed_function_from(p).0);
    let (name, p1) = p.bump().ident("function name"@);
    order_generics_from(p1);
    let (generics, p2) = sealed_generics_from(p1);
    order_function_params_from(p2.expect(TokenKind::LParen, "`(`"@));
    let (self_param, params, p3) = sealed_function_params_from(
        p2.expect(TokenKind::LParen, "`(`"@),
    );
    let p4 = p3.expect(TokenKind::RParen, "`)`"@).expect(
        TokenKind::Colon,
        "`:` (return type annotation)"@,
    );
    order_type_from(p4);
    let (ret, p5) = sealed_type_from(p4);
    order_uses_from(p5);
    let (effects, p6) = sealed_uses_from(p5);
    order_block_from(p6);
}

#[verifier::spinoff_prover]
proof fn order_body_from(p: PState)
    ensures
        ({
            let r = sealed_body_from(p);
            &&& p.next_id <= r.1.next_id
        }),
{
    unfold_body_from(p);
}

#[verifier::spinoff_prover]
proof fn order_struct_from(p: PState)
    ensures
        ({
            let r = sealed_struct_from(p);
            &&& p.next_id <= r.1.next_id
            &&& forall|lo: int|
                within(lo, p.next_id, r.1.next_id)
                    ==> #[trigger] reach_struct(r.0, lo) <= r.1.next_id
        }),
{
    unfold_struct_from(p);
    lemma_reach_functions();
    open_struct(sealed_struct_from(p).0);
    let (name, p1) = p.bump().ident("struct name"@);
    order_generics_from(p1);
    let (generics, p2) = sealed_generics_from(p1);
    order_body_from(p2);
    let (has_body, p3) = sealed_body_from(p2);
    if has_body {
        order_members_tail(Seq::empty(), Seq::empty(), p3);
    }
}

#[verifier::spinoff_prover]
proof fn order_members_tail(fields: Seq<ParamV>, methods: Seq<FunctionV>, p: PState)
    ensures
        ({
            let r = sealed_members_tail(fields, methods, p);
            &&& p.next_id <= r.2.next_id
            &&& forall|lo: int|
                within(lo, p.next_id, r.2.next_id) && reach_functions(methods, lo) <= p.next_id
                    ==> #[trigger] reach_functions(r.1, lo) <= r.2.next_id
        }),
    decreases p.left(),
{
    unfold_members_tail(fields, methods, p);
    lemma_reach_functions();
    order_newlines(p);
    let q = p.newlines().after(p);
    match q.kind() {
        Some(TokenKind::Dedent) => {},
        None => {},
        Some(TokenKind::Eof) => {},
        Some(TokenKind::Def) => {
            order_function_from(q);
            let (f, r) = sealed_function_from(q);
            order_members_tail(fields, methods.push(f), r.after(q.bump()));
        },
        Some(TokenKind::Ident(_)) => {
            order_param_from(q);
            let (x, r) = sealed_param_from(q);
            order_members_tail(fields.push(x), methods, r.after(q.bump()));
        },
        Some(_) => {
            order_sync(
                q.unexpected(
                    q.current_span(),
                    "expected a struct field or method definition"@,
                ),
                0,
            );
            let r = q.unexpected(
                q.current_span(),
                "expected a struct field or method definition"@,
            ).sync(0);
            order_members_tail(fields, methods, r.after(q.bump()));
        },
    }
}

#[verifier::spinoff_prover]
proof fn order_variant_field_from(p: PState)
    ensures
        ({
            let r = sealed_variant_field_from(p);
            &&& p.next_id <= r.2.next_id
        }),
{
    unfold_variant_field_from(p);
    match p.kind() {
        Some(TokenKind::Ident(name)) => {
            if p.kind_at(1) == Some(TokenKind::Colon) {
                order_type_from(p.bump().bump());
            } else {
                order_type_from(p);
            }
        },
        _ => {
            order_type_from(p);
        },
    }
}

#[verifier::spinoff_prover]
proof fn order_variant_fields_from(p: PState)
    ensures
        ({
            let r = sealed_variant_fields_from(p);
            &&& p.next_id <= r.2.next_id
        }),
{
    unfold_variant_fields_from(p);
    if !p.at(TokenKind::RParen) {
        order_variant_field_from(p);
        let (n, t, q) = sealed_variant_field_from(p);
        order_variant_fields_tail(seq![n], seq![t], q);
    }
}

#[verifier::spinoff_prover]
proof fn order_variant_fields_tail(names: Seq<Option<Seq<char>>>, types: Seq<TypeV>, p: PState)
    ensures
        ({
            let r = sealed_variant_fields_tail(names, types, p);
            &&& p.next_id <= r.2.next_id
        }),
    decreases p.left(),
{
    unfold_variant_fields_tail(names, types, p);
    if p.at(TokenKind::Comma) {
        let q = p.bump();
        if !q.at(TokenKind::RParen) {
            order_variant_field_from(q);
            let (n, t, r) = sealed_variant_field_from(q);
            order_variant_fields_tail(names.push(n), types.push(t), r.after(q));
        }
    }
}

#[verifier::spinoff_prover]
proof fn order_variant_from(p: PState)
    ensures
        ({
            let r = sealed_variant_from(p);
            &&& p.next_id <= r.1.next_id
        }),
{
    unfold_variant_from(p);
    let (name, q) = p.ident("variant name"@);
    if q.at(TokenKind::LParen) {
        order_variant_fields_from(q.bump());
    }
}

#[verifier::spinoff_prover]
proof fn order_variants_tail(acc: Seq<VariantV>, p: PState)
    ensures
        ({
            let r = sealed_variants_tail(acc, p);
            &&& p.next_id <= r.1.next_id
        }),
    decreases p.left(),
{
    unfold_variants_tail(acc, p);
    order_newlines(p);
    let q = p.newlines().after(p);
    match q.kind() {
        Some(TokenKind::Dedent) => {},
        None => {},
        Some(TokenKind::Eof) => {},
        Some(TokenKind::Ident(_)) => {
            order_variant_from(q);
            let (v, r) = sealed_variant_from(q);
            order_variants_tail(acc.push(v), r.after(q.bump()));
        },
        Some(_) => {
            order_sync(q.unexpected(q.current_span(), "expected an enum variant"@), 0);
            let r = q.unexpected(q.current_span(), "expected an enum variant"@).sync(0);
            order_variants_tail(acc, r.after(q.bump()));
        },
    }
}

#[verifier::spinoff_prover]
proof fn order_enum_from(p: PState)
    ensures
        ({
            let r = sealed_enum_from(p);
            &&& p.next_id <= r.1.next_id
            &&& forall|lo: int|
                within(lo, p.next_id, r.1.next_id)
                    ==> #[trigger] reach_enum(r.0, lo) <= r.1.next_id
        }),
{
    unfold_enum_from(p);
    open_enum(sealed_enum_from(p).0);
    let (name, p1) = p.bump().ident("enum name"@);
    order_generics_from(p1);
    let (generics, p2) = sealed_generics_from(p1);
    order_body_from(p2);
    let (has_body, p3) = sealed_body_from(p2);
    if has_body {
        order_variants_tail(Seq::empty(), p3);
    }
}

#[verifier::spinoff_prover]
proof fn order_items_tail(acc: Seq<ItemV>, p: PState)
    ensures
        ({
            let r = sealed_items_tail(acc, p);
            &&& p.next_id <= r.1.next_id
            &&& forall|lo: int|
                within(lo, p.next_id, r.1.next_id) && reach_items(acc, lo) <= p.next_id
                    ==> #[trigger] reach_items(r.0, lo) <= r.1.next_id
        }),
    decreases p.left(),
{
    unfold_items_tail(acc, p);
    lemma_reach_items();
    order_newlines(p);
    let q = p.newlines().after(p);
    if !(q.at_end() || q.at(TokenKind::Dedent)) {
        order_item_from(q);
        let (item, r) = sealed_item_from(q);
        order_items_tail(acc.push(item), r.after(q.bump()));
    }
}

#[verifier::spinoff_prover]
proof fn order_item_from(p: PState)
    ensures
        ({
            let r = sealed_item_from(p);
            &&& p.next_id <= r.1.next_id
            &&& forall|lo: int|
                within(lo, p.next_id, r.1.next_id)
                    ==> #[trigger] reach_item(r.0, lo) <= r.1.next_id
        }),
{
    unfold_item_from(p);
    open_item(sealed_item_from(p).0);
    match p.kind() {
        Some(TokenKind::Def) => {
            order_function_from(p);
        },
        Some(TokenKind::Struct) => {
            order_struct_from(p);
        },
        Some(TokenKind::Enum) => {
            order_enum_from(p);
        },
        _ => {
            order_stmt_or_skip_from(p);
        },
    }
}

#[verifier::spinoff_prover]
proof fn order_line_end(p: PState)
    ensures
        ({
            let r = sealed_line_end(p);
            &&& p.next_id <= r.next_id
        }),
    decreases p.left(),
{
    unfold_line_end(p);
    if !(p.at_end() || p.at(TokenKind::Newline)) {
        order_line_end(p.bump());
    }
}

#[verifier::spinoff_prover]
proof fn order_directive_from(p: PState)
    ensures
        ({
            let r = sealed_directive_from(p);
            &&& p.next_id <= r.1.next_id
        }),
{
    unfold_directive_from(p);
    if p.at(TokenKind::Module) {
        let q = p.bump();
        if !(q.at(TokenKind::Newline) || q.at(TokenKind::Eof)) {
            let r = q.report(
                ErrorCode::ModuleDirectiveMalformed,
                between(p.current_span(), q.current_span()),
                "a module directive must be the bare keyword with no name (D-LEX-08)"@,
            );
            order_line_end(r);
        }
    }
}

// ---------------------------------------------------------------------------
// A whole file
// ---------------------------------------------------------------------------

/// How many node numbers the parse of a file takes.
#[verifier::opaque]
pub open spec fn numbers_taken(toks: Seq<Token>, file: FileId) -> int {
    items_tail(Seq::empty(), directive_from(initial(toks, file, 0)).1).1.next_id
}

#[verifier::spinoff_prover]
proof fn unfold_numbers_taken(toks: Seq<Token>, file: FileId)
    ensures
        numbers_taken(toks, file) == sealed_items_tail(
            Seq::empty(),
            sealed_directive_from(initial(toks, file, 0)).1,
        ).1.next_id,
{
    reveal(numbers_taken);
    reveal(sealed_items_tail);
    reveal(sealed_directive_from);
}

/// The nodes of a parsed module have different numbers: in the order in which they were made the
/// numbers ascend, from the start number on and up to the one that is returned. Numbers go round
/// at the greatest one, so there must be enough of them behind the start number.
#[verifier::spinoff_prover]
pub proof fn law_node_numbers_are_distinct(toks: Seq<Token>, file: FileId, start_id: u32)
    requires
        start_id + numbers_taken(toks, file) <= u32::MAX,
    ensures
        ({
            let (m, _, next) = module_from(toks, file, start_id);
            let ids = numbers_of(m);
            &&& next == start_id + numbers_taken(toks, file)
            &&& forall|i: int| 0 <= i < ids.len() ==> start_id <= #[trigger] ids[i] < next
            &&& forall|i: int, j: int|
                0 <= i < j < ids.len() ==> #[trigger] ids[i] < #[trigger] ids[j]
        }),
{
    let p0 = initial(toks, file, 0);
    let p = initial(toks, file, start_id);
    assert(raised_state(p0, start_id) == p);
    unfold_module_from(toks, file, start_id);
    unfold_numbers_taken(toks, file);
    lemma_directive_from(p0, start_id);
    let (d0, q0) = sealed_directive_from(p0);
    lemma_items_tail(Seq::empty(), q0, start_id);
    lemma_raised_items(start_id);
    let (directive, q) = sealed_directive_from(p);
    let (items, r) = sealed_items_tail(Seq::empty(), q);
    order_directive_from(p);
    order_items_tail(Seq::empty(), q);
    lemma_reach_items();
    let lo = start_id as int;
    assert(reach_items(Seq::empty(), lo) == lo);
    assert(reach_items(items, lo) <= r.next_id);
    reveal(reach_items);
    reveal(left_behind_all);
    let ids = numbers_items(items, items.len() as int);
    lemma_left_ascends(ids, ids.len() as int, lo);
}

} // verus!
