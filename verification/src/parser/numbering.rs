//! Node numbers: another start number only shifts them.

use super::grammar::{
    additive_op, assignable, equality_op, has_placeholder, initial, literal_from, module_from,
    multiplicative_op, part_count, plain_stmt, relational_op, unary_op,
};
use super::sealed::{
    sealed_additive_tail, sealed_and_from, sealed_and_tail, sealed_annotated_rest, sealed_arg_from,
    sealed_args_from, sealed_args_rest, sealed_args_tail, sealed_arithmetic_from,
    sealed_arm_body_from, sealed_arm_from, sealed_arms_block, sealed_arms_inline,
    sealed_assign_or_expr_from, sealed_assigned_rest, sealed_binary, sealed_binding_name,
    sealed_block_from, sealed_body_from, sealed_brace_rest, sealed_branch_from, sealed_callee_rest,
    sealed_comparison_from, sealed_destination_from, sealed_destination_tail, sealed_directive_from,
    sealed_dot_rest, sealed_else_from, sealed_entries_tail, sealed_entry_from, sealed_enum_from,
    sealed_equality_tail, sealed_expr_from, sealed_exprs_from, sealed_exprs_tail,
    sealed_function_from, sealed_function_params_from, sealed_function_type_rest,
    sealed_generics_from, sealed_idents_from, sealed_idents_tail, sealed_if_rest, sealed_item_from,
    sealed_items_tail, sealed_lambda_param_from, sealed_lambda_params_from,
    sealed_lambda_params_tail, sealed_lambda_rest, sealed_line_end, sealed_list_rest,
    sealed_logical_from, sealed_match_rest, sealed_members_tail, sealed_multiplicative_tail,
    sealed_named_type_rest, sealed_opt_comma, sealed_opt_type_from, sealed_or_tail,
    sealed_par_elements, sealed_par_rest, sealed_param_from, sealed_params_tail, sealed_paren_rest,
    sealed_pattern_from, sealed_pipe_from, sealed_postfix_from, sealed_postfix_tail,
    sealed_primary_from, sealed_relational_from, sealed_return_rest, sealed_segments_tail,
    sealed_self_param_from, sealed_stage_from, sealed_stages_tail, sealed_stmt_from,
    sealed_stmt_kind_from, sealed_stmt_or_skip_from, sealed_stmts_tail, sealed_struct_from,
    sealed_sub_pattern_from, sealed_sub_patterns_from, sealed_sub_patterns_tail, sealed_term_from,
    sealed_type_args_rest, sealed_type_from, sealed_types_from, sealed_types_tail,
    sealed_unary_from, sealed_uses_from, sealed_var_rest, sealed_variant_field_from,
    sealed_variant_fields_from, sealed_variant_fields_tail, sealed_variant_from,
    sealed_variants_tail, unfold_additive_tail, unfold_and_from, unfold_and_tail,
    unfold_annotated_rest, unfold_arg_from, unfold_args_from, unfold_args_rest, unfold_args_tail,
    unfold_arithmetic_from, unfold_arm_body_from, unfold_arm_from, unfold_arms_block,
    unfold_arms_inline, unfold_assign_or_expr_from, unfold_assigned_rest, unfold_binary,
    unfold_binding_name, unfold_block_from, unfold_body_from, unfold_brace_rest, unfold_branch_from,
    unfold_callee_rest, unfold_comparison_from, unfold_destination_from, unfold_destination_tail,
    unfold_directive_from, unfold_dot_rest, unfold_else_from, unfold_entries_tail,
    unfold_entry_from, unfold_enum_from, unfold_equality_tail, unfold_expr_from, unfold_exprs_from,
    unfold_exprs_tail, unfold_function_from, unfold_function_params_from, unfold_function_type_rest,
    unfold_generics_from, unfold_idents_from, unfold_idents_tail, unfold_if_rest, unfold_item_from,
    unfold_items_tail, unfold_lambda_param_from, unfold_lambda_params_from,
    unfold_lambda_params_tail, unfold_lambda_rest, unfold_line_end, unfold_list_rest,
    unfold_logical_from, unfold_match_rest, unfold_members_tail, unfold_module_from,
    unfold_multiplicative_tail, unfold_named_type_rest, unfold_opt_comma, unfold_opt_type_from,
    unfold_or_tail, unfold_par_elements, unfold_par_rest, unfold_param_from, unfold_params_tail,
    unfold_paren_rest, unfold_pattern_from, unfold_pipe_from, unfold_postfix_from,
    unfold_postfix_tail, unfold_primary_from, unfold_relational_from, unfold_return_rest,
    unfold_segments_tail, unfold_self_param_from, unfold_stage_from, unfold_stages_tail,
    unfold_stmt_from, unfold_stmt_kind_from, unfold_stmt_or_skip_from, unfold_stmts_tail,
    unfold_struct_from, unfold_sub_pattern_from, unfold_sub_patterns_from, unfold_sub_patterns_tail,
    unfold_term_from, unfold_type_args_rest, unfold_type_from, unfold_types_from, unfold_types_tail,
    unfold_unary_from, unfold_uses_from, unfold_var_rest, unfold_variant_field_from,
    unfold_variant_fields_from, unfold_variant_fields_tail, unfold_variant_from,
    unfold_variants_tail,
};
use super::state::{
    between, close_followed, closer, node, opener, poison, wrapped, PState, MAX_PARSE_DEPTH,
};
use crate::ast::{
    ArgV, ArmBodyV, ArmV, BinaryOp, BlockV, CalleeV, DeclV, ElseV, EnumV, ExprKindV, ExprV,
    FunctionV, IfV, ItemV, LambdaParamV, ModuleV, NodeId, ParKind, ParamV, PatternV, SegmentV,
    StageV, StmtKindV, StmtV, StructV, SubPatternV, TypeV, VariantV,
};
use crate::diagnostics::{ErrorCode, FileId, Span};
use crate::lexer::{FStringPart, Token, TokenKind};
use vstd::prelude::*;

verus! {

// ---------------------------------------------------------------------------
// Shifted trees
// ---------------------------------------------------------------------------

/// A node number, raised; numbers go round at the greatest one.
#[verifier::opaque]
pub open spec fn raised_id(x: NodeId, shift: u32) -> NodeId {
    NodeId(wrapped(x.0 + shift))
}

/// A parse that goes on with raised numbers.
pub open spec fn raised_state(x: PState, shift: u32) -> PState {
    PState { next_id: x.next_id + shift, ..x }
}

pub open spec fn raised_sub_pattern(x: SubPatternV, shift: u32) -> SubPatternV {
    match x {
        SubPatternV::BareIdent(name, id, span) => SubPatternV::BareIdent(
            name,
            raised_id(id, shift),
            span,
        ),
        _ => x,
    }
}

#[verifier::opaque]
pub open spec fn raised_sub_patterns(x: Seq<SubPatternV>, shift: u32) -> Seq<SubPatternV> {
    Seq::new(x.len(), |i: int| raised_sub_pattern(x[i], shift))
}

pub open spec fn raised_pattern(x: PatternV, shift: u32) -> PatternV {
    match x {
        PatternV::BareIdent(name, id, span) => PatternV::BareIdent(
            name,
            raised_id(id, shift),
            span,
        ),
        PatternV::Variant { name, fields, span } => PatternV::Variant {
            name,
            fields: raised_sub_patterns(fields, shift),
            span,
        },
        PatternV::Tuple { elements, span } => PatternV::Tuple {
            elements: raised_sub_patterns(elements, shift),
            span,
        },
        _ => x,
    }
}

/// An expression with every node number in it raised; so for the other nodes.
#[verifier::opaque]
pub open spec fn raised_expr(x: ExprV, shift: u32) -> ExprV
    decreases x,
{
    ExprV { id: raised_id(x.id, shift), kind: raised_kind(x.kind, shift), span: x.span }
}

#[verifier::opaque]
pub open spec fn raised_exprs(x: Seq<ExprV>, shift: u32) -> Seq<ExprV>
    decreases x,
{
    Seq::new(
        x.len(),
        |i: int|
            if 0 <= i < x.len() {
                raised_expr(x[i], shift)
            } else {
                arbitrary()
            },
    )
}

#[verifier::opaque]
pub open spec fn raised_entries(x: Seq<(ExprV, ExprV)>, shift: u32) -> Seq<(ExprV, ExprV)>
    decreases x,
{
    Seq::new(
        x.len(),
        |i: int|
            if 0 <= i < x.len() {
                (raised_expr(x[i].0, shift), raised_expr(x[i].1, shift))
            } else {
                arbitrary()
            },
    )
}

#[verifier::opaque]
pub open spec fn raised_segments(x: Seq<SegmentV>, shift: u32) -> Seq<SegmentV>
    decreases x,
{
    Seq::new(
        x.len(),
        |i: int|
            if 0 <= i < x.len() {
                raised_segment(x[i], shift)
            } else {
                arbitrary()
            },
    )
}

#[verifier::opaque]
pub open spec fn raised_segment(x: SegmentV, shift: u32) -> SegmentV
    decreases x,
{
    match x {
        SegmentV::Text(_) => x,
        SegmentV::Expr(e) => SegmentV::Expr(Box::new(raised_expr(*e, shift))),
    }
}

#[verifier::opaque]
pub open spec fn raised_args(x: Seq<ArgV>, shift: u32) -> Seq<ArgV>
    decreases x,
{
    Seq::new(
        x.len(),
        |i: int|
            if 0 <= i < x.len() {
                raised_arg(x[i], shift)
            } else {
                arbitrary()
            },
    )
}

#[verifier::opaque]
pub open spec fn raised_arg(x: ArgV, shift: u32) -> ArgV
    decreases x,
{
    ArgV { value: raised_expr(x.value, shift), ..x }
}

#[verifier::opaque]
pub open spec fn raised_stages(x: Seq<StageV>, shift: u32) -> Seq<StageV>
    decreases x,
{
    Seq::new(
        x.len(),
        |i: int|
            if 0 <= i < x.len() {
                raised_stage(x[i], shift)
            } else {
                arbitrary()
            },
    )
}

#[verifier::opaque]
pub open spec fn raised_stage(x: StageV, shift: u32) -> StageV
    decreases x,
{
    StageV { callee: raised_callee(x.callee, shift), ..x }
}

#[verifier::opaque]
pub open spec fn raised_callee(x: CalleeV, shift: u32) -> CalleeV
    decreases x,
{
    match x {
        CalleeV::Bare(e) => CalleeV::Bare(raised_expr(e, shift)),
        CalleeV::WithArgs { callee, args } => CalleeV::WithArgs {
            callee: Box::new(raised_expr(*callee, shift)),
            args: raised_args(args, shift),
        },
    }
}

#[verifier::opaque]
pub open spec fn raised_kind(x: ExprKindV, shift: u32) -> ExprKindV
    decreases x,
{
    match x {
        ExprKindV::FString(segments) => ExprKindV::FString(raised_segments(segments, shift)),
        ExprKindV::ListLit { elements, was_multiline } => ExprKindV::ListLit {
            elements: raised_exprs(elements, shift),
            was_multiline,
        },
        ExprKindV::SetLit { elements, was_multiline } => ExprKindV::SetLit {
            elements: raised_exprs(elements, shift),
            was_multiline,
        },
        ExprKindV::TupleLit { elements, was_multiline } => ExprKindV::TupleLit {
            elements: raised_exprs(elements, shift),
            was_multiline,
        },
        ExprKindV::DictLit { entries, was_multiline } => ExprKindV::DictLit {
            entries: raised_entries(entries, shift),
            was_multiline,
        },
        ExprKindV::Unary { op, operand } => ExprKindV::Unary {
            op,
            operand: Box::new(raised_expr(*operand, shift)),
        },
        ExprKindV::Binary { op, lhs, rhs } => ExprKindV::Binary {
            op,
            lhs: Box::new(raised_expr(*lhs, shift)),
            rhs: Box::new(raised_expr(*rhs, shift)),
        },
        ExprKindV::Call { callee, type_args, args, was_multiline } => ExprKindV::Call {
            callee: Box::new(raised_expr(*callee, shift)),
            type_args,
            args: raised_args(args, shift),
            was_multiline,
        },
        ExprKindV::MethodCall {
            receiver,
            method,
            type_args,
            args,
            was_multiline,
        } => ExprKindV::MethodCall {
            receiver: Box::new(raised_expr(*receiver, shift)),
            method,
            type_args,
            args: raised_args(args, shift),
            was_multiline,
        },
        ExprKindV::FieldAccess { target, field } => ExprKindV::FieldAccess {
            target: Box::new(raised_expr(*target, shift)),
            field,
        },
        ExprKindV::TupleIndex { target, index } => ExprKindV::TupleIndex {
            target: Box::new(raised_expr(*target, shift)),
            index,
        },
        ExprKindV::Index { target, index } => ExprKindV::Index {
            target: Box::new(raised_expr(*target, shift)),
            index: Box::new(raised_expr(*index, shift)),
        },
        ExprKindV::Question { target } => ExprKindV::Question {
            target: Box::new(raised_expr(*target, shift)),
        },
        ExprKindV::Pipe { source, stages } => ExprKindV::Pipe {
            source: Box::new(raised_expr(*source, shift)),
            stages: raised_stages(stages, shift),
        },
        ExprKindV::Lambda { params, body } => ExprKindV::Lambda {
            params,
            body: Box::new(raised_expr(*body, shift)),
        },
        ExprKindV::If(i) => ExprKindV::If(Box::new(raised_if(*i, shift))),
        ExprKindV::Match { scrutinee, arms } => ExprKindV::Match {
            scrutinee: Box::new(raised_expr(*scrutinee, shift)),
            arms: raised_arms(arms, shift),
        },
        ExprKindV::Par { kind, elements } => ExprKindV::Par {
            kind,
            elements: raised_exprs(elements, shift),
        },
        ExprKindV::Grouping(e) => ExprKindV::Grouping(Box::new(raised_expr(*e, shift))),
        _ => x,
    }
}

#[verifier::opaque]
pub open spec fn raised_if(x: IfV, shift: u32) -> IfV
    decreases x,
{
    IfV {
        cond: Box::new(raised_expr(*x.cond, shift)),
        then_branch: raised_block(x.then_branch, shift),
        else_branch: raised_else(x.else_branch, shift),
        span: x.span,
    }
}

#[verifier::opaque]
pub open spec fn raised_else(x: ElseV, shift: u32) -> ElseV
    decreases x,
{
    match x {
        ElseV::Block(b) => ElseV::Block(raised_block(b, shift)),
        ElseV::ElseIf(i) => ElseV::ElseIf(Box::new(raised_if(*i, shift))),
    }
}

#[verifier::opaque]
pub open spec fn raised_arms(x: Seq<ArmV>, shift: u32) -> Seq<ArmV>
    decreases x,
{
    Seq::new(
        x.len(),
        |i: int|
            if 0 <= i < x.len() {
                raised_arm(x[i], shift)
            } else {
                arbitrary()
            },
    )
}

#[verifier::opaque]
pub open spec fn raised_arm(x: ArmV, shift: u32) -> ArmV
    decreases x,
{
    ArmV {
        pattern: raised_pattern(x.pattern, shift),
        body: raised_arm_body(x.body, shift),
        ..x
    }
}

#[verifier::opaque]
pub open spec fn raised_arm_body(x: ArmBodyV, shift: u32) -> ArmBodyV
    decreases x,
{
    match x {
        ArmBodyV::Expr(e) => ArmBodyV::Expr(raised_expr(e, shift)),
        ArmBodyV::Block(b) => ArmBodyV::Block(raised_block(b, shift)),
    }
}

#[verifier::opaque]
pub open spec fn raised_block(x: BlockV, shift: u32) -> BlockV
    decreases x,
{
    BlockV { stmts: raised_stmts(x.stmts, shift), ..x }
}

#[verifier::opaque]
pub open spec fn raised_stmts(x: Seq<StmtV>, shift: u32) -> Seq<StmtV>
    decreases x,
{
    Seq::new(
        x.len(),
        |i: int|
            if 0 <= i < x.len() {
                raised_stmt(x[i], shift)
            } else {
                arbitrary()
            },
    )
}

#[verifier::opaque]
pub open spec fn raised_stmt(x: StmtV, shift: u32) -> StmtV
    decreases x,
{
    StmtV { kind: raised_stmt_kind(x.kind, shift), ..x }
}

#[verifier::opaque]
pub open spec fn raised_stmt_kind(x: StmtKindV, shift: u32) -> StmtKindV
    decreases x,
{
    match x {
        StmtKindV::VarDecl { name, ty, value } => StmtKindV::VarDecl {
            name,
            ty,
            value: raised_expr(value, shift),
        },
        StmtKindV::NameAssign { name, ty, value } => StmtKindV::NameAssign {
            name,
            ty,
            value: raised_expr(value, shift),
        },
        StmtKindV::FieldAssign { target, field, value } => StmtKindV::FieldAssign {
            target: raised_expr(target, shift),
            field,
            value: raised_expr(value, shift),
        },
        StmtKindV::IndexAssign { target, index, value } => StmtKindV::IndexAssign {
            target: raised_expr(target, shift),
            index: raised_expr(index, shift),
            value: raised_expr(value, shift),
        },
        StmtKindV::Discard(e) => StmtKindV::Discard(raised_expr(e, shift)),
        StmtKindV::ExprStmt(e) => StmtKindV::ExprStmt(raised_expr(e, shift)),
        StmtKindV::Return(Some(e)) => StmtKindV::Return(Some(raised_expr(e, shift))),
        StmtKindV::Return(None) => x,
    }
}

pub open spec fn raised_function(x: FunctionV, shift: u32) -> FunctionV {
    FunctionV { id: raised_id(x.id, shift), body: raised_block(x.body, shift), ..x }
}

#[verifier::opaque]
pub open spec fn raised_functions(x: Seq<FunctionV>, shift: u32) -> Seq<FunctionV> {
    Seq::new(x.len(), |i: int| raised_function(x[i], shift))
}

pub open spec fn raised_struct(x: StructV, shift: u32) -> StructV {
    StructV {
        id: raised_id(x.id, shift),
        methods: raised_functions(x.methods, shift),
        ..x
    }
}

pub open spec fn raised_enum(x: EnumV, shift: u32) -> EnumV {
    EnumV { id: raised_id(x.id, shift), ..x }
}

pub open spec fn raised_item(x: ItemV, shift: u32) -> ItemV {
    match x {
        ItemV::Decl(DeclV::Function(d)) => ItemV::Decl(DeclV::Function(raised_function(d, shift))),
        ItemV::Decl(DeclV::Struct(d)) => ItemV::Decl(DeclV::Struct(raised_struct(d, shift))),
        ItemV::Decl(DeclV::Enum(d)) => ItemV::Decl(DeclV::Enum(raised_enum(d, shift))),
        ItemV::Stmt(s) => ItemV::Stmt(raised_stmt(s, shift)),
    }
}

#[verifier::opaque]
pub open spec fn raised_items(x: Seq<ItemV>, shift: u32) -> Seq<ItemV> {
    Seq::new(x.len(), |i: int| raised_item(x[i], shift))
}

pub open spec fn raised_entry(x: (ExprV, ExprV), shift: u32) -> (ExprV, ExprV) {
    (raised_expr(x.0, shift), raised_expr(x.1, shift))
}

/// A module with every node number in it raised.
pub open spec fn raised_module(x: ModuleV, shift: u32) -> ModuleV {
    ModuleV { items: raised_items(x.items, shift), ..x }
}

// ---------------------------------------------------------------------------
// States and nodes
// ---------------------------------------------------------------------------

// One level of a shifted tree, with what stands below it left closed.

spec fn opened_expr(x: ExprV, shift: u32) -> ExprV {
    ExprV { id: raised_id(x.id, shift), kind: opened_kind(x.kind, shift), span: x.span }
}

spec fn opened_arg(x: ArgV, shift: u32) -> ArgV {
    ArgV { value: raised_expr(x.value, shift), ..x }
}

spec fn opened_stage(x: StageV, shift: u32) -> StageV {
    StageV { callee: raised_callee(x.callee, shift), ..x }
}

spec fn opened_callee(x: CalleeV, shift: u32) -> CalleeV {
    match x {
        CalleeV::Bare(e) => CalleeV::Bare(raised_expr(e, shift)),
        CalleeV::WithArgs { callee, args } => CalleeV::WithArgs {
            callee: Box::new(raised_expr(*callee, shift)),
            args: raised_args(args, shift),
        },
    }
}

spec fn opened_kind(x: ExprKindV, shift: u32) -> ExprKindV {
    match x {
        ExprKindV::FString(segments) => ExprKindV::FString(raised_segments(segments, shift)),
        ExprKindV::ListLit { elements, was_multiline } => ExprKindV::ListLit {
            elements: raised_exprs(elements, shift),
            was_multiline,
        },
        ExprKindV::SetLit { elements, was_multiline } => ExprKindV::SetLit {
            elements: raised_exprs(elements, shift),
            was_multiline,
        },
        ExprKindV::TupleLit { elements, was_multiline } => ExprKindV::TupleLit {
            elements: raised_exprs(elements, shift),
            was_multiline,
        },
        ExprKindV::DictLit { entries, was_multiline } => ExprKindV::DictLit {
            entries: raised_entries(entries, shift),
            was_multiline,
        },
        ExprKindV::Unary { op, operand } => ExprKindV::Unary {
            op,
            operand: Box::new(raised_expr(*operand, shift)),
        },
        ExprKindV::Binary { op, lhs, rhs } => ExprKindV::Binary {
            op,
            lhs: Box::new(raised_expr(*lhs, shift)),
            rhs: Box::new(raised_expr(*rhs, shift)),
        },
        ExprKindV::Call { callee, type_args, args, was_multiline } => ExprKindV::Call {
            callee: Box::new(raised_expr(*callee, shift)),
            type_args,
            args: raised_args(args, shift),
            was_multiline,
        },
        ExprKindV::MethodCall {
            receiver,
            method,
            type_args,
            args,
            was_multiline,
        } => ExprKindV::MethodCall {
            receiver: Box::new(raised_expr(*receiver, shift)),
            method,
            type_args,
            args: raised_args(args, shift),
            was_multiline,
        },
        ExprKindV::FieldAccess { target, field } => ExprKindV::FieldAccess {
            target: Box::new(raised_expr(*target, shift)),
            field,
        },
        ExprKindV::TupleIndex { target, index } => ExprKindV::TupleIndex {
            target: Box::new(raised_expr(*target, shift)),
            index,
        },
        ExprKindV::Index { target, index } => ExprKindV::Index {
            target: Box::new(raised_expr(*target, shift)),
            index: Box::new(raised_expr(*index, shift)),
        },
        ExprKindV::Question { target } => ExprKindV::Question {
            target: Box::new(raised_expr(*target, shift)),
        },
        ExprKindV::Pipe { source, stages } => ExprKindV::Pipe {
            source: Box::new(raised_expr(*source, shift)),
            stages: raised_stages(stages, shift),
        },
        ExprKindV::Lambda { params, body } => ExprKindV::Lambda {
            params,
            body: Box::new(raised_expr(*body, shift)),
        },
        ExprKindV::If(i) => ExprKindV::If(Box::new(raised_if(*i, shift))),
        ExprKindV::Match { scrutinee, arms } => ExprKindV::Match {
            scrutinee: Box::new(raised_expr(*scrutinee, shift)),
            arms: raised_arms(arms, shift),
        },
        ExprKindV::Par { kind, elements } => ExprKindV::Par {
            kind,
            elements: raised_exprs(elements, shift),
        },
        ExprKindV::Grouping(e) => ExprKindV::Grouping(Box::new(raised_expr(*e, shift))),
        _ => x,
    }
}

spec fn opened_if(x: IfV, shift: u32) -> IfV {
    IfV {
        cond: Box::new(raised_expr(*x.cond, shift)),
        then_branch: raised_block(x.then_branch, shift),
        else_branch: raised_else(x.else_branch, shift),
        span: x.span,
    }
}

spec fn opened_else(x: ElseV, shift: u32) -> ElseV {
    match x {
        ElseV::Block(b) => ElseV::Block(raised_block(b, shift)),
        ElseV::ElseIf(i) => ElseV::ElseIf(Box::new(raised_if(*i, shift))),
    }
}

spec fn opened_arm(x: ArmV, shift: u32) -> ArmV {
    ArmV {
        pattern: raised_pattern(x.pattern, shift),
        body: raised_arm_body(x.body, shift),
        ..x
    }
}

spec fn opened_arm_body(x: ArmBodyV, shift: u32) -> ArmBodyV {
    match x {
        ArmBodyV::Expr(e) => ArmBodyV::Expr(raised_expr(e, shift)),
        ArmBodyV::Block(b) => ArmBodyV::Block(raised_block(b, shift)),
    }
}

spec fn opened_block(x: BlockV, shift: u32) -> BlockV {
    BlockV { stmts: raised_stmts(x.stmts, shift), ..x }
}

spec fn opened_stmt(x: StmtV, shift: u32) -> StmtV {
    StmtV { kind: raised_stmt_kind(x.kind, shift), ..x }
}

spec fn opened_stmt_kind(x: StmtKindV, shift: u32) -> StmtKindV {
    match x {
        StmtKindV::VarDecl { name, ty, value } => StmtKindV::VarDecl {
            name,
            ty,
            value: raised_expr(value, shift),
        },
        StmtKindV::NameAssign { name, ty, value } => StmtKindV::NameAssign {
            name,
            ty,
            value: raised_expr(value, shift),
        },
        StmtKindV::FieldAssign { target, field, value } => StmtKindV::FieldAssign {
            target: raised_expr(target, shift),
            field,
            value: raised_expr(value, shift),
        },
        StmtKindV::IndexAssign { target, index, value } => StmtKindV::IndexAssign {
            target: raised_expr(target, shift),
            index: raised_expr(index, shift),
            value: raised_expr(value, shift),
        },
        StmtKindV::Discard(e) => StmtKindV::Discard(raised_expr(e, shift)),
        StmtKindV::ExprStmt(e) => StmtKindV::ExprStmt(raised_expr(e, shift)),
        StmtKindV::Return(Some(e)) => StmtKindV::Return(Some(raised_expr(e, shift))),
        StmtKindV::Return(None) => x,
    }
}

proof fn open_expr(x: ExprV, shift: u32)
    ensures
        raised_expr(x, shift) == opened_expr(x, shift),
{
    reveal(raised_expr);
    reveal(raised_kind);
    reveal(raised_segments);
    reveal(raised_exprs);
    reveal(raised_entries);
    reveal(raised_args);
    reveal(raised_stages);
    reveal(raised_if);
    reveal(raised_arms);
}

proof fn open_arg(x: ArgV, shift: u32)
    ensures
        raised_arg(x, shift) == opened_arg(x, shift),
{
    reveal(raised_arg);
    reveal(raised_expr);
}

proof fn open_stage(x: StageV, shift: u32)
    ensures
        raised_stage(x, shift) == opened_stage(x, shift),
{
    reveal(raised_stage);
    reveal(raised_callee);
}

proof fn open_callee(x: CalleeV, shift: u32)
    ensures
        raised_callee(x, shift) == opened_callee(x, shift),
{
    reveal(raised_callee);
    reveal(raised_expr);
    reveal(raised_args);
}

proof fn open_if(x: IfV, shift: u32)
    ensures
        raised_if(x, shift) == opened_if(x, shift),
{
    reveal(raised_if);
    reveal(raised_expr);
    reveal(raised_block);
    reveal(raised_else);
}

proof fn open_else(x: ElseV, shift: u32)
    ensures
        raised_else(x, shift) == opened_else(x, shift),
{
    reveal(raised_else);
    reveal(raised_block);
    reveal(raised_if);
}

proof fn open_arm(x: ArmV, shift: u32)
    ensures
        raised_arm(x, shift) == opened_arm(x, shift),
{
    reveal(raised_arm);
    reveal(raised_arm_body);
}

proof fn open_arm_body(x: ArmBodyV, shift: u32)
    ensures
        raised_arm_body(x, shift) == opened_arm_body(x, shift),
{
    reveal(raised_arm_body);
    reveal(raised_expr);
    reveal(raised_block);
}

proof fn open_block(x: BlockV, shift: u32)
    ensures
        raised_block(x, shift) == opened_block(x, shift),
{
    reveal(raised_block);
    reveal(raised_stmts);
}

proof fn open_stmt(x: StmtV, shift: u32)
    ensures
        raised_stmt(x, shift) == opened_stmt(x, shift),
{
    reveal(raised_stmt);
    reveal(raised_stmt_kind);
}

proof fn open_stmt_kind(x: StmtKindV, shift: u32)
    ensures
        raised_stmt_kind(x, shift) == opened_stmt_kind(x, shift),
{
    reveal(raised_stmt_kind);
    reveal(raised_expr);
}

proof fn lemma_segments(shift: u32)
    ensures
        forall|x: Seq<char>| #[trigger]
            raised_segment(SegmentV::Text(x), shift) == SegmentV::Text(x),
        forall|x: Box<ExprV>| #[trigger]
            raised_segment(SegmentV::Expr(x), shift) == SegmentV::Expr(
                Box::new(raised_expr(*x, shift)),
            ),
{
    reveal(raised_segment);
    reveal(raised_expr);
}

proof fn lemma_raised_exprs(shift: u32)
    ensures
        raised_exprs(Seq::empty(), shift) == Seq::<ExprV>::empty(),
        forall|x: Seq<ExprV>, e: ExprV| #[trigger]
            raised_exprs(x.push(e), shift) == raised_exprs(x, shift).push(
                raised_expr(e, shift),
            ),
{
    reveal(raised_exprs);
    reveal(raised_expr);
    assert(raised_exprs(Seq::empty(), shift) =~= Seq::<ExprV>::empty());
    assert forall|x: Seq<ExprV>, e: ExprV| #[trigger]
        raised_exprs(x.push(e), shift) == raised_exprs(x, shift).push(
            raised_expr(e, shift),
        ) by {
        assert(raised_exprs(x.push(e), shift) =~= raised_exprs(x, shift).push(
            raised_expr(e, shift),
        ));
    }
}

proof fn lemma_raised_entries(shift: u32)
    ensures
        raised_entries(Seq::empty(), shift) == Seq::<(ExprV, ExprV)>::empty(),
        forall|x: Seq<(ExprV, ExprV)>, e: (ExprV, ExprV)| #[trigger]
            raised_entries(x.push(e), shift) == raised_entries(x, shift).push(
                raised_entry(e, shift),
            ),
{
    reveal(raised_entries);
    reveal(raised_expr);
    assert(raised_entries(Seq::empty(), shift) =~= Seq::<(ExprV, ExprV)>::empty());
    assert forall|x: Seq<(ExprV, ExprV)>, e: (ExprV, ExprV)| #[trigger]
        raised_entries(x.push(e), shift) == raised_entries(x, shift).push(
            raised_entry(e, shift),
        ) by {
        assert(raised_entries(x.push(e), shift) =~= raised_entries(x, shift).push(
            raised_entry(e, shift),
        ));
    }
}

proof fn lemma_raised_segments(shift: u32)
    ensures
        raised_segments(Seq::empty(), shift) == Seq::<SegmentV>::empty(),
        forall|x: Seq<SegmentV>, e: SegmentV| #[trigger]
            raised_segments(x.push(e), shift) == raised_segments(x, shift).push(
                raised_segment(e, shift),
            ),
{
    reveal(raised_segments);
    reveal(raised_segment);
    assert(raised_segments(Seq::empty(), shift) =~= Seq::<SegmentV>::empty());
    assert forall|x: Seq<SegmentV>, e: SegmentV| #[trigger]
        raised_segments(x.push(e), shift) == raised_segments(x, shift).push(
            raised_segment(e, shift),
        ) by {
        assert(raised_segments(x.push(e), shift) =~= raised_segments(x, shift).push(
            raised_segment(e, shift),
        ));
    }
}

proof fn lemma_raised_args(shift: u32)
    ensures
        raised_args(Seq::empty(), shift) == Seq::<ArgV>::empty(),
        forall|x: Seq<ArgV>, e: ArgV| #[trigger]
            raised_args(x.push(e), shift) == raised_args(x, shift).push(
                raised_arg(e, shift),
            ),
{
    reveal(raised_args);
    reveal(raised_arg);
    assert(raised_args(Seq::empty(), shift) =~= Seq::<ArgV>::empty());
    assert forall|x: Seq<ArgV>, e: ArgV| #[trigger]
        raised_args(x.push(e), shift) == raised_args(x, shift).push(
            raised_arg(e, shift),
        ) by {
        assert(raised_args(x.push(e), shift) =~= raised_args(x, shift).push(
            raised_arg(e, shift),
        ));
    }
}

proof fn lemma_raised_stages(shift: u32)
    ensures
        raised_stages(Seq::empty(), shift) == Seq::<StageV>::empty(),
        forall|x: Seq<StageV>, e: StageV| #[trigger]
            raised_stages(x.push(e), shift) == raised_stages(x, shift).push(
                raised_stage(e, shift),
            ),
        forall|x: Seq<StageV>| (#[trigger] raised_stages(x, shift)).len() == x.len(),
        forall|x: Seq<StageV>|
            x.len() > 0 ==> (#[trigger] raised_stages(x, shift)).last() == raised_stage(
                x.last(),
                shift,
            ),
{
    reveal(raised_stages);
    reveal(raised_stage);
    assert(raised_stages(Seq::empty(), shift) =~= Seq::<StageV>::empty());
    assert forall|x: Seq<StageV>, e: StageV| #[trigger]
        raised_stages(x.push(e), shift) == raised_stages(x, shift).push(
            raised_stage(e, shift),
        ) by {
        assert(raised_stages(x.push(e), shift) =~= raised_stages(x, shift).push(
            raised_stage(e, shift),
        ));
    }
}

proof fn lemma_raised_arms(shift: u32)
    ensures
        raised_arms(Seq::empty(), shift) == Seq::<ArmV>::empty(),
        forall|x: Seq<ArmV>, e: ArmV| #[trigger]
            raised_arms(x.push(e), shift) == raised_arms(x, shift).push(
                raised_arm(e, shift),
            ),
{
    reveal(raised_arms);
    reveal(raised_arm);
    assert(raised_arms(Seq::empty(), shift) =~= Seq::<ArmV>::empty());
    assert forall|x: Seq<ArmV>, e: ArmV| #[trigger]
        raised_arms(x.push(e), shift) == raised_arms(x, shift).push(
            raised_arm(e, shift),
        ) by {
        assert(raised_arms(x.push(e), shift) =~= raised_arms(x, shift).push(
            raised_arm(e, shift),
        ));
    }
}

proof fn lemma_raised_stmts(shift: u32)
    ensures
        raised_stmts(Seq::empty(), shift) == Seq::<StmtV>::empty(),
        forall|x: Seq<StmtV>, e: StmtV| #[trigger]
            raised_stmts(x.push(e), shift) == raised_stmts(x, shift).push(
                raised_stmt(e, shift),
            ),
{
    reveal(raised_stmts);
    reveal(raised_stmt);
    assert(raised_stmts(Seq::empty(), shift) =~= Seq::<StmtV>::empty());
    assert forall|x: Seq<StmtV>, e: StmtV| #[trigger]
        raised_stmts(x.push(e), shift) == raised_stmts(x, shift).push(
            raised_stmt(e, shift),
        ) by {
        assert(raised_stmts(x.push(e), shift) =~= raised_stmts(x, shift).push(
            raised_stmt(e, shift),
        ));
    }
}

proof fn lemma_raised_sub_patterns(shift: u32)
    ensures
        raised_sub_patterns(Seq::empty(), shift) == Seq::<SubPatternV>::empty(),
        forall|x: Seq<SubPatternV>, e: SubPatternV| #[trigger]
            raised_sub_patterns(x.push(e), shift) == raised_sub_patterns(x, shift).push(
                raised_sub_pattern(e, shift),
            ),
{
    reveal(raised_sub_patterns);
    assert(raised_sub_patterns(Seq::empty(), shift) =~= Seq::<SubPatternV>::empty());
    assert forall|x: Seq<SubPatternV>, e: SubPatternV| #[trigger]
        raised_sub_patterns(x.push(e), shift) == raised_sub_patterns(x, shift).push(
            raised_sub_pattern(e, shift),
        ) by {
        assert(raised_sub_patterns(x.push(e), shift) =~= raised_sub_patterns(x, shift).push(
            raised_sub_pattern(e, shift),
        ));
    }
}

proof fn lemma_raised_functions(shift: u32)
    ensures
        raised_functions(Seq::empty(), shift) == Seq::<FunctionV>::empty(),
        forall|x: Seq<FunctionV>, e: FunctionV| #[trigger]
            raised_functions(x.push(e), shift) == raised_functions(x, shift).push(
                raised_function(e, shift),
            ),
{
    reveal(raised_functions);
    assert(raised_functions(Seq::empty(), shift) =~= Seq::<FunctionV>::empty());
    assert forall|x: Seq<FunctionV>, e: FunctionV| #[trigger]
        raised_functions(x.push(e), shift) == raised_functions(x, shift).push(
            raised_function(e, shift),
        ) by {
        assert(raised_functions(x.push(e), shift) =~= raised_functions(x, shift).push(
            raised_function(e, shift),
        ));
    }
}

pub proof fn lemma_raised_items(shift: u32)
    ensures
        raised_items(Seq::empty(), shift) == Seq::<ItemV>::empty(),
        forall|x: Seq<ItemV>, e: ItemV| #[trigger]
            raised_items(x.push(e), shift) == raised_items(x, shift).push(
                raised_item(e, shift),
            ),
{
    reveal(raised_items);
    assert(raised_items(Seq::empty(), shift) =~= Seq::<ItemV>::empty());
    assert forall|x: Seq<ItemV>, e: ItemV| #[trigger]
        raised_items(x.push(e), shift) == raised_items(x, shift).push(
            raised_item(e, shift),
        ) by {
        assert(raised_items(x.push(e), shift) =~= raised_items(x, shift).push(
            raised_item(e, shift),
        ));
    }
}

proof fn lemma_ids(shift: u32)
    ensures
        forall|p: PState| #[trigger]
            raised_state(p, shift).numbered() == raised_state(p.numbered(), shift),
        forall|p: PState| #[trigger] raised_state(p, shift).id() == raised_id(p.id(), shift),
{
    reveal(raised_id);
}

proof fn lemma_numbered(p: PState, shift: u32)
    ensures
        raised_state(p, shift).numbered() == raised_state(p.numbered(), shift),
        raised_state(p, shift).id() == raised_id(p.id(), shift),
{
    reveal(raised_id);
}

proof fn lemma_node(p: PState, kind: ExprKindV, span: Span, shift: u32)
    ensures
        node(raised_state(p, shift), opened_kind(kind, shift), span) == (
            raised_expr(node(p, kind, span).0, shift),
            raised_state(node(p, kind, span).1, shift),
        ),
{
    lemma_numbered(p, shift);
    open_expr(node(p, kind, span).0, shift);
}

proof fn lemma_poison(p: PState, span: Span, shift: u32)
    ensures
        poison(raised_state(p, shift), span) == (
            raised_expr(poison(p, span).0, shift),
            raised_state(poison(p, span).1, shift),
        ),
{
    lemma_node(p, ExprKindV::IntLit(0), span, shift);
}

proof fn lemma_newlines(p: PState, shift: u32)
    ensures
        raised_state(p, shift).newlines() == raised_state(p.newlines(), shift),
    decreases p.left(),
{
    if p.at(TokenKind::Newline) {
        lemma_newlines(p.bump(), shift);
    }
}

proof fn lemma_sync(p: PState, depth: nat, shift: u32)
    ensures
        raised_state(p, shift).sync(depth) == raised_state(p.sync(depth), shift),
    decreases p.left(),
{
    match p.kind() {
        None => {},
        Some(TokenKind::Eof) => {},
        Some(TokenKind::Dedent) => {
            if depth > 0 {
                lemma_sync(p.bump(), (depth - 1) as nat, shift);
            }
        },
        Some(TokenKind::Indent) => {
            lemma_sync(p.bump(), depth + 1, shift);
        },
        Some(_) => {
            lemma_sync(p.bump(), depth, shift);
        },
    }
}

proof fn lemma_skip_brackets(p: PState, depth: int, shift: u32)
    ensures
        raised_state(p, shift).skip_brackets(depth) == raised_state(p.skip_brackets(depth), shift),
    decreases p.left(),
{
    match p.kind() {
        None => {},
        Some(k) => {
            if opener(k) {
                lemma_skip_brackets(p.bump(), depth + 1, shift);
            } else if closer(k) {
                if depth - 1 > 0 {
                    lemma_skip_brackets(p.bump(), depth - 1, shift);
                }
            } else if !(k is Eof || k is Newline || k is Dedent) {
                lemma_skip_brackets(p.bump(), depth, shift);
            }
        },
    }
}

proof fn lemma_literal_from(p: PState, shift: u32)
    ensures
        literal_from(raised_state(p, shift)) == match literal_from(p) {
            Some((literal, q)) => Some((literal, raised_state(q, shift))),
            None => None,
        },
{
}

proof fn lemma_placeholder(args: Seq<ArgV>, shift: u32)
    ensures
        has_placeholder(raised_args(args, shift)) == has_placeholder(args),
{
    reveal(raised_args);
    reveal(raised_arg);
    reveal(raised_expr);
    let more = raised_args(args, shift);
    if has_placeholder(args) {
        let i = choose|i: int| 0 <= i < args.len() && #[trigger] args[i].is_placeholder;
        assert(more[i].is_placeholder);
    }
    if has_placeholder(more) {
        let i = choose|i: int| 0 <= i < more.len() && #[trigger] more[i].is_placeholder;
        assert(args[i].is_placeholder);
    }
}

// ---------------------------------------------------------------------------
// The grammar
// ---------------------------------------------------------------------------

#[verifier::spinoff_prover]
proof fn lemma_idents_from(p: PState, closing: TokenKind, what: Seq<char>, shift: u32)
    ensures
        ({
            let r = sealed_idents_from(p, closing, what);
            sealed_idents_from(raised_state(p, shift), closing, what) == (
                r.0,
                raised_state(r.1, shift),
            )
        }),
{
    unfold_idents_from(p, closing, what);
    unfold_idents_from(raised_state(p, shift), closing, what);
    if !p.at(closing) {
        let (name, q) = p.ident(what);
        lemma_idents_tail(seq![name], q, closing, what, shift);
    }
}

#[verifier::spinoff_prover]
proof fn lemma_idents_tail(
    acc: Seq<Seq<char>>,
    p: PState,
    closing: TokenKind,
    what: Seq<char>,
    shift: u32,
)
    ensures
        ({
            let r = sealed_idents_tail(acc, p, closing, what);
            sealed_idents_tail(acc, raised_state(p, shift), closing, what) == (
                r.0,
                raised_state(r.1, shift),
            )
        }),
    decreases p.left(),
{
    unfold_idents_tail(acc, p, closing, what);
    unfold_idents_tail(acc, raised_state(p, shift), closing, what);
    if p.at(TokenKind::Comma) {
        let q = p.bump();
        if !q.at(closing) {
            let (name, r) = q.ident(what);
            lemma_idents_tail(acc.push(name), r.after(q), closing, what, shift);
        }
    }
}

#[verifier::spinoff_prover]
proof fn lemma_uses_from(p: PState, shift: u32)
    ensures
        ({
            let r = sealed_uses_from(p);
            sealed_uses_from(raised_state(p, shift)) == (r.0, raised_state(r.1, shift))
        }),
{
    unfold_uses_from(p);
    unfold_uses_from(raised_state(p, shift));
    if p.at(TokenKind::Uses) {
        let q = p.bump().expect(TokenKind::LBrace, "`{`"@);
        lemma_idents_from(q, TokenKind::RBrace, "effect name"@, shift);
    }
}

#[verifier::spinoff_prover]
proof fn lemma_type_from(p: PState, shift: u32)
    ensures
        ({
            let r = sealed_type_from(p);
            sealed_type_from(raised_state(p, shift)) == (r.0, raised_state(r.1, shift))
        }),
    decreases p.left(), 3int,
{
    unfold_type_from(p);
    unfold_type_from(raised_state(p, shift));
    let start = p.current_span();
    if !(p.depth >= MAX_PARSE_DEPTH) {
        let q = p.deeper();
        match q.kind() {
            Some(TokenKind::Void) => {},
            Some(TokenKind::LParen) => {
                lemma_function_type_rest(start, q.bump(), shift);
            },
            Some(TokenKind::Ident(name)) => {
                lemma_named_type_rest(start, name@, q.bump(), shift);
            },
            _ => {},
        }
    }
}

#[verifier::spinoff_prover]
proof fn lemma_function_type_rest(start: Span, p: PState, shift: u32)
    ensures
        ({
            let r = sealed_function_type_rest(start, p);
            sealed_function_type_rest(start, raised_state(p, shift)) == (
                r.0,
                raised_state(r.1, shift),
            )
        }),
    decreases p.left(), 6int,
{
    unfold_function_type_rest(start, p);
    unfold_function_type_rest(start, raised_state(p, shift));
    lemma_types_from(p, TokenKind::RParen, shift);
    let (params, q) = sealed_types_from(p, TokenKind::RParen);
    let r = q.after(p).expect(TokenKind::RParen, "`)`"@).expect(TokenKind::Arrow, "`->`"@).after(p);
    lemma_type_from(r, shift);
    let (ret, s) = sealed_type_from(r);
    lemma_uses_from(s, shift);
}

#[verifier::spinoff_prover]
proof fn lemma_named_type_rest(start: Span, name: Seq<char>, p: PState, shift: u32)
    ensures
        ({
            let r = sealed_named_type_rest(start, name, p);
            sealed_named_type_rest(start, name, raised_state(p, shift)) == (
                r.0,
                raised_state(r.1, shift),
            )
        }),
    decreases p.left(), 6int,
{
    unfold_named_type_rest(start, name, p);
    unfold_named_type_rest(start, name, raised_state(p, shift));
    lemma_raised_sub_patterns(shift);
    if p.at(TokenKind::LBracket) {
        lemma_type_args_rest(p.bump(), shift);
    }
}

#[verifier::spinoff_prover]
proof fn lemma_type_args_rest(p: PState, shift: u32)
    ensures
        ({
            let r = sealed_type_args_rest(p);
            sealed_type_args_rest(raised_state(p, shift)) == (r.0, raised_state(r.1, shift))
        }),
    decreases p.left(), 6int,
{
    unfold_type_args_rest(p);
    unfold_type_args_rest(raised_state(p, shift));
    lemma_types_from(p, TokenKind::RBracket, shift);
}

#[verifier::spinoff_prover]
proof fn lemma_types_from(p: PState, closing: TokenKind, shift: u32)
    ensures
        ({
            let r = sealed_types_from(p, closing);
            sealed_types_from(raised_state(p, shift), closing) == (r.0, raised_state(r.1, shift))
        }),
    decreases p.left(), 5int,
{
    unfold_types_from(p, closing);
    unfold_types_from(raised_state(p, shift), closing);
    if !p.at(closing) {
        lemma_type_from(p, shift);
        let (t, q) = sealed_type_from(p);
        lemma_types_tail(seq![t], q.after(p), closing, shift);
    }
}

#[verifier::spinoff_prover]
proof fn lemma_types_tail(acc: Seq<TypeV>, p: PState, closing: TokenKind, shift: u32)
    ensures
        ({
            let r = sealed_types_tail(acc, p, closing);
            sealed_types_tail(acc, raised_state(p, shift), closing) == (
                r.0,
                raised_state(r.1, shift),
            )
        }),
    decreases p.left(), 4int,
{
    unfold_types_tail(acc, p, closing);
    unfold_types_tail(acc, raised_state(p, shift), closing);
    if p.at(TokenKind::Comma) {
        let q = p.bump();
        if !q.at(closing) {
            lemma_type_from(q, shift);
            let (t, r) = sealed_type_from(q);
            lemma_types_tail(acc.push(t), r.after(q), closing, shift);
        }
    }
}

#[verifier::spinoff_prover]
proof fn lemma_opt_type_from(p: PState, shift: u32)
    ensures
        ({
            let r = sealed_opt_type_from(p);
            sealed_opt_type_from(raised_state(p, shift)) == (r.0, raised_state(r.1, shift))
        }),
{
    unfold_opt_type_from(p);
    unfold_opt_type_from(raised_state(p, shift));
    if p.at(TokenKind::Colon) {
        lemma_type_from(p.bump(), shift);
    }
}

#[verifier::spinoff_prover]
proof fn lemma_sub_pattern_from(p: PState, shift: u32)
    ensures
        ({
            let r = sealed_sub_pattern_from(p);
            sealed_sub_pattern_from(raised_state(p, shift)) == (
                raised_sub_pattern(r.0, shift),
                raised_state(r.1, shift),
            )
        }),
{
    unfold_sub_pattern_from(p);
    unfold_sub_pattern_from(raised_state(p, shift));
    reveal(raised_id);
    let start = p.current_span();
    lemma_literal_from(p, shift);
    match literal_from(p) {
        Some((lit, q)) => {},
        None => {
            match p.kind() {
                Some(TokenKind::Underscore) => {},
                Some(TokenKind::Ident(name)) => {
                    let q = p.bump();
                    if q.at(TokenKind::LParen) || q.at(TokenKind::LBracket) {
                        lemma_skip_brackets(
                            q.unexpected(
                                start,
                                "nesting enum/tuple patterns is forbidden (D-SYN-06)"@,
                            ),
                            0,
                            shift,
                        );
                    }
                },
                Some(TokenKind::LParen) => {
                    lemma_skip_brackets(
                        p.unexpected(
                            start,
                            "nesting enum/tuple patterns is forbidden (D-SYN-06)"@,
                        ),
                        0,
                        shift,
                    );
                },
                _ => {},
            }
        },
    }
}

#[verifier::spinoff_prover]
proof fn lemma_sub_patterns_from(p: PState, shift: u32)
    ensures
        ({
            let r = sealed_sub_patterns_from(p);
            sealed_sub_patterns_from(raised_state(p, shift)) == (
                raised_sub_patterns(r.0, shift),
                raised_state(r.1, shift),
            )
        }),
{
    unfold_sub_patterns_from(p);
    unfold_sub_patterns_from(raised_state(p, shift));
    lemma_raised_sub_patterns(shift);
    if !p.at(TokenKind::RParen) {
        lemma_sub_pattern_from(p, shift);
        let (s, q) = sealed_sub_pattern_from(p);
        lemma_sub_patterns_tail(seq![s], q, shift);
    }
}

#[verifier::spinoff_prover]
proof fn lemma_sub_patterns_tail(acc: Seq<SubPatternV>, p: PState, shift: u32)
    ensures
        ({
            let r = sealed_sub_patterns_tail(acc, p);
            sealed_sub_patterns_tail(raised_sub_patterns(acc, shift), raised_state(p, shift)) == (
                raised_sub_patterns(r.0, shift),
                raised_state(r.1, shift),
            )
        }),
    decreases p.left(),
{
    unfold_sub_patterns_tail(acc, p);
    unfold_sub_patterns_tail(raised_sub_patterns(acc, shift), raised_state(p, shift));
    lemma_raised_sub_patterns(shift);
    if p.at(TokenKind::Comma) {
        let q = p.bump();
        if !q.at(TokenKind::RParen) {
            lemma_sub_pattern_from(q, shift);
            let (s, r) = sealed_sub_pattern_from(q);
            lemma_sub_patterns_tail(acc.push(s), r.after(q), shift);
        }
    }
}

#[verifier::spinoff_prover]
proof fn lemma_pattern_from(p: PState, shift: u32)
    ensures
        ({
            let r = sealed_pattern_from(p);
            sealed_pattern_from(raised_state(p, shift)) == (
                raised_pattern(r.0, shift),
                raised_state(r.1, shift),
            )
        }),
{
    unfold_pattern_from(p);
    unfold_pattern_from(raised_state(p, shift));
    reveal(raised_id);
    lemma_literal_from(p, shift);
    match literal_from(p) {
        Some((lit, q)) => {},
        None => {
            match p.kind() {
                Some(TokenKind::Underscore) => {},
                Some(TokenKind::LParen) => {
                    lemma_sub_patterns_from(p.bump(), shift);
                },
                Some(TokenKind::Ident(name)) => {
                    let q = p.bump();
                    if q.at(TokenKind::LParen) {
                        lemma_sub_patterns_from(q.bump(), shift);
                    }
                },
                _ => {},
            }
        },
    }
}

#[verifier::spinoff_prover]
proof fn lemma_lambda_param_from(p: PState, shift: u32)
    ensures
        ({
            let r = sealed_lambda_param_from(p);
            sealed_lambda_param_from(raised_state(p, shift)) == (r.0, raised_state(r.1, shift))
        }),
{
    unfold_lambda_param_from(p);
    unfold_lambda_param_from(raised_state(p, shift));
    let (name, q) = p.ident("lambda parameter name"@);
    lemma_opt_type_from(q, shift);
}

#[verifier::spinoff_prover]
proof fn lemma_lambda_params_from(p: PState, shift: u32)
    ensures
        ({
            let r = sealed_lambda_params_from(p);
            sealed_lambda_params_from(raised_state(p, shift)) == (r.0, raised_state(r.1, shift))
        }),
{
    unfold_lambda_params_from(p);
    unfold_lambda_params_from(raised_state(p, shift));
    if !p.at(TokenKind::RParen) {
        lemma_lambda_param_from(p, shift);
        let (x, q) = sealed_lambda_param_from(p);
        lemma_lambda_params_tail(seq![x], q, shift);
    }
}

#[verifier::spinoff_prover]
proof fn lemma_lambda_params_tail(acc: Seq<LambdaParamV>, p: PState, shift: u32)
    ensures
        ({
            let r = sealed_lambda_params_tail(acc, p);
            sealed_lambda_params_tail(acc, raised_state(p, shift)) == (
                r.0,
                raised_state(r.1, shift),
            )
        }),
    decreases p.left(),
{
    unfold_lambda_params_tail(acc, p);
    unfold_lambda_params_tail(acc, raised_state(p, shift));
    if p.at(TokenKind::Comma) {
        let q = p.bump();
        if !q.at(TokenKind::RParen) {
            lemma_lambda_param_from(q, shift);
            let (x, r) = sealed_lambda_param_from(q);
            lemma_lambda_params_tail(acc.push(x), r.after(q), shift);
        }
    }
}

#[verifier::spinoff_prover]
proof fn lemma_destination_from(p: PState, shift: u32)
    ensures
        ({
            let r = sealed_destination_from(p);
            sealed_destination_from(raised_state(p, shift)) == (
                raised_expr(r.0, shift),
                raised_state(r.1, shift),
            )
        }),
{
    unfold_destination_from(p);
    unfold_destination_from(raised_state(p, shift));
    let (name, q) = p.ident("pipe destination function name/namespace name"@);
    lemma_node(q, ExprKindV::Ident(name), p.current_span(), shift);
    let (e, r) = node(q, ExprKindV::Ident(name), p.current_span());
    lemma_destination_tail(e, r, shift);
}

#[verifier::spinoff_prover]
proof fn lemma_destination_tail(e: ExprV, p: PState, shift: u32)
    ensures
        ({
            let r = sealed_destination_tail(e, p);
            sealed_destination_tail(raised_expr(e, shift), raised_state(p, shift)) == (
                raised_expr(r.0, shift),
                raised_state(r.1, shift),
            )
        }),
    decreases p.left(),
{
    unfold_destination_tail(e, p);
    unfold_destination_tail(raised_expr(e, shift), raised_state(p, shift));
    if p.at(TokenKind::Dot) {
        let (field, q) = p.bump().ident("field/method name"@);
        open_expr(e, shift);
        lemma_node(
            q,
            ExprKindV::FieldAccess { target: Box::new(e), field },
            between(e.span, q.previous_span()),
            shift,
        );
        let (e2, r) = node(
            q,
            ExprKindV::FieldAccess { target: Box::new(e), field },
            between(e.span, q.previous_span()),
        );
        lemma_destination_tail(e2, r.after(p.bump()), shift);
    }
}

#[verifier::spinoff_prover]
proof fn lemma_binary(op: BinaryOp, lhs: ExprV, rhs: ExprV, p: PState, shift: u32)
    ensures
        ({
            let r = sealed_binary(op, lhs, rhs, p);
            sealed_binary(
                op,
                raised_expr(lhs, shift),
                raised_expr(rhs, shift),
                raised_state(p, shift),
            ) == (
                raised_expr(r.0, shift),
                raised_state(r.1, shift),
            )
        }),
{
    unfold_binary(op, lhs, rhs, p);
    unfold_binary(op, raised_expr(lhs, shift), raised_expr(rhs, shift), raised_state(p, shift));
    open_expr(lhs, shift);
    open_expr(rhs, shift);
    lemma_node(
        p,
        ExprKindV::Binary { op, lhs: Box::new(lhs), rhs: Box::new(rhs) },
        between(lhs.span, rhs.span),
        shift,
    );
}

#[verifier::spinoff_prover]
proof fn lemma_expr_from(p: PState, shift: u32)
    ensures
        ({
            let r = sealed_expr_from(p);
            sealed_expr_from(raised_state(p, shift)) == (
                raised_expr(r.0, shift),
                raised_state(r.1, shift),
            )
        }),
    decreases p.toks, p.left(), 200int,
{
    unfold_expr_from(p);
    unfold_expr_from(raised_state(p, shift));
    let span = p.current_span();
    if p.depth >= MAX_PARSE_DEPTH {
        lemma_poison(p.too_deep(span), span, shift);
    } else {
        lemma_pipe_from(p.deeper(), shift);
    }
}

#[verifier::spinoff_prover]
proof fn lemma_pipe_from(p: PState, shift: u32)
    ensures
        ({
            let r = sealed_pipe_from(p);
            sealed_pipe_from(raised_state(p, shift)) == (
                raised_expr(r.0, shift),
                raised_state(r.1, shift),
            )
        }),
    decreases p.toks, p.left(), 190int,
{
    unfold_pipe_from(p);
    unfold_pipe_from(raised_state(p, shift));
    lemma_raised_stages(shift);
    lemma_logical_from(p, shift);
    let (source, q) = sealed_logical_from(p);
    if q.at(TokenKind::PipeOp) {
        lemma_stages_tail(Seq::empty(), q.after(p), shift);
        let (stages, r) = sealed_stages_tail(Seq::empty(), q.after(p));
        if stages.len() > 0 {
            open_stage(stages.last(), shift);
        } else {
            open_expr(source, shift);
        }
        let end = if stages.len() > 0 {
            stages.last().span
        } else {
            source.span
        };
        open_expr(source, shift);
        lemma_node(
            r,
            ExprKindV::Pipe { source: Box::new(source), stages },
            between(source.span, end),
            shift,
        );
    }
}

#[verifier::spinoff_prover]
proof fn lemma_stages_tail(acc: Seq<StageV>, p: PState, shift: u32)
    ensures
        ({
            let r = sealed_stages_tail(acc, p);
            sealed_stages_tail(raised_stages(acc, shift), raised_state(p, shift)) == (
                raised_stages(r.0, shift),
                raised_state(r.1, shift),
            )
        }),
    decreases p.toks, p.left(), 185int,
{
    unfold_stages_tail(acc, p);
    unfold_stages_tail(raised_stages(acc, shift), raised_state(p, shift));
    lemma_raised_stages(shift);
    if p.at(TokenKind::PipeOp) {
        lemma_stage_from(p.bump(), shift);
        let (stage, q) = sealed_stage_from(p.bump());
        lemma_stages_tail(acc.push(stage), q.after(p.bump()), shift);
    }
}

#[verifier::spinoff_prover]
proof fn lemma_stage_from(p: PState, shift: u32)
    ensures
        ({
            let r = sealed_stage_from(p);
            sealed_stage_from(raised_state(p, shift)) == (
                raised_stage(r.0, shift),
                raised_state(r.1, shift),
            )
        }),
    decreases p.toks, p.left(), 310int,
{
    unfold_stage_from(p);
    unfold_stage_from(raised_state(p, shift));
    open_stage(sealed_stage_from(p).0, shift);
    lemma_destination_from(p, shift);
    let (target, q) = sealed_destination_from(p);
    lemma_callee_rest(target, q.after(p), shift);
}

#[verifier::spinoff_prover]
proof fn lemma_callee_rest(target: ExprV, p: PState, shift: u32)
    ensures
        ({
            let r = sealed_callee_rest(target, p);
            sealed_callee_rest(raised_expr(target, shift), raised_state(p, shift)) == (
                raised_callee(r.0, shift),
                raised_state(r.1, shift),
            )
        }),
    decreases p.toks, p.left(), 305int,
{
    unfold_callee_rest(target, p);
    unfold_callee_rest(raised_expr(target, shift), raised_state(p, shift));
    open_callee(sealed_callee_rest(target, p).0, shift);
    if p.at(TokenKind::LParen) {
        lemma_placeholder(sealed_args_rest(p.current_span().start.line, p.bump()).0, shift);
    }
    if p.at(TokenKind::LParen) {
        lemma_args_rest(p.current_span().start.line, p.bump(), shift);
    }
}

#[verifier::spinoff_prover]
proof fn lemma_logical_from(p: PState, shift: u32)
    ensures
        ({
            let r = sealed_logical_from(p);
            sealed_logical_from(raised_state(p, shift)) == (
                raised_expr(r.0, shift),
                raised_state(r.1, shift),
            )
        }),
    decreases p.toks, p.left(), 180int,
{
    unfold_logical_from(p);
    unfold_logical_from(raised_state(p, shift));
    lemma_and_from(p, shift);
    let (lhs, q) = sealed_and_from(p);
    lemma_or_tail(lhs, q.after(p), shift);
}

#[verifier::spinoff_prover]
proof fn lemma_or_tail(lhs: ExprV, p: PState, shift: u32)
    ensures
        ({
            let r = sealed_or_tail(lhs, p);
            sealed_or_tail(raised_expr(lhs, shift), raised_state(p, shift)) == (
                raised_expr(r.0, shift),
                raised_state(r.1, shift),
            )
        }),
    decreases p.toks, p.left(), 175int,
{
    unfold_or_tail(lhs, p);
    unfold_or_tail(raised_expr(lhs, shift), raised_state(p, shift));
    if p.at(TokenKind::Or) {
        lemma_and_from(p.bump(), shift);
        let (rhs, q) = sealed_and_from(p.bump());
        lemma_binary(BinaryOp::Or, lhs, rhs, q, shift);
        let (e, r) = sealed_binary(BinaryOp::Or, lhs, rhs, q);
        lemma_or_tail(e, r.after(p.bump()), shift);
    }
}

#[verifier::spinoff_prover]
proof fn lemma_and_from(p: PState, shift: u32)
    ensures
        ({
            let r = sealed_and_from(p);
            sealed_and_from(raised_state(p, shift)) == (
                raised_expr(r.0, shift),
                raised_state(r.1, shift),
            )
        }),
    decreases p.toks, p.left(), 170int,
{
    unfold_and_from(p);
    unfold_and_from(raised_state(p, shift));
    lemma_comparison_from(p, shift);
    let (lhs, q) = sealed_comparison_from(p);
    lemma_and_tail(lhs, q.after(p), shift);
}

#[verifier::spinoff_prover]
proof fn lemma_and_tail(lhs: ExprV, p: PState, shift: u32)
    ensures
        ({
            let r = sealed_and_tail(lhs, p);
            sealed_and_tail(raised_expr(lhs, shift), raised_state(p, shift)) == (
                raised_expr(r.0, shift),
                raised_state(r.1, shift),
            )
        }),
    decreases p.toks, p.left(), 165int,
{
    unfold_and_tail(lhs, p);
    unfold_and_tail(raised_expr(lhs, shift), raised_state(p, shift));
    if p.at(TokenKind::And) {
        lemma_comparison_from(p.bump(), shift);
        let (rhs, q) = sealed_comparison_from(p.bump());
        lemma_binary(BinaryOp::And, lhs, rhs, q, shift);
        let (e, r) = sealed_binary(BinaryOp::And, lhs, rhs, q);
        lemma_and_tail(e, r.after(p.bump()), shift);
    }
}

#[verifier::spinoff_prover]
proof fn lemma_comparison_from(p: PState, shift: u32)
    ensures
        ({
            let r = sealed_comparison_from(p);
            sealed_comparison_from(raised_state(p, shift)) == (
                raised_expr(r.0, shift),
                raised_state(r.1, shift),
            )
        }),
    decreases p.toks, p.left(), 160int,
{
    unfold_comparison_from(p);
    unfold_comparison_from(raised_state(p, shift));
    lemma_relational_from(p, shift);
    let (lhs, q) = sealed_relational_from(p);
    lemma_equality_tail(lhs, q.after(p), shift);
}

#[verifier::spinoff_prover]
proof fn lemma_equality_tail(lhs: ExprV, p: PState, shift: u32)
    ensures
        ({
            let r = sealed_equality_tail(lhs, p);
            sealed_equality_tail(raised_expr(lhs, shift), raised_state(p, shift)) == (
                raised_expr(r.0, shift),
                raised_state(r.1, shift),
            )
        }),
    decreases p.toks, p.left(), 155int,
{
    unfold_equality_tail(lhs, p);
    unfold_equality_tail(raised_expr(lhs, shift), raised_state(p, shift));
    match equality_op(p.kind()) {
        Some(op) => {
            lemma_relational_from(p.bump(), shift);
            let (rhs, q) = sealed_relational_from(p.bump());
            lemma_binary(op, lhs, rhs, q, shift);
            let (e, r) = sealed_binary(op, lhs, rhs, q);
            lemma_equality_tail(e, r.after(p.bump()), shift);
        },
        None => {},
    }
}

#[verifier::spinoff_prover]
proof fn lemma_relational_from(p: PState, shift: u32)
    ensures
        ({
            let r = sealed_relational_from(p);
            sealed_relational_from(raised_state(p, shift)) == (
                raised_expr(r.0, shift),
                raised_state(r.1, shift),
            )
        }),
    decreases p.toks, p.left(), 150int,
{
    unfold_relational_from(p);
    unfold_relational_from(raised_state(p, shift));
    lemma_arithmetic_from(p, shift);
    let (lhs, q) = sealed_arithmetic_from(p);
    match relational_op(q.kind()) {
        Some(op) => {
            lemma_arithmetic_from(q.after(p).bump(), shift);
            let (rhs, r) = sealed_arithmetic_from(q.after(p).bump());
            lemma_binary(op, lhs, rhs, r, shift);
        },
        None => {},
    }
}

#[verifier::spinoff_prover]
proof fn lemma_arithmetic_from(p: PState, shift: u32)
    ensures
        ({
            let r = sealed_arithmetic_from(p);
            sealed_arithmetic_from(raised_state(p, shift)) == (
                raised_expr(r.0, shift),
                raised_state(r.1, shift),
            )
        }),
    decreases p.toks, p.left(), 140int,
{
    unfold_arithmetic_from(p);
    unfold_arithmetic_from(raised_state(p, shift));
    lemma_term_from(p, shift);
    let (lhs, q) = sealed_term_from(p);
    lemma_additive_tail(lhs, q.after(p), shift);
}

#[verifier::spinoff_prover]
proof fn lemma_additive_tail(lhs: ExprV, p: PState, shift: u32)
    ensures
        ({
            let r = sealed_additive_tail(lhs, p);
            sealed_additive_tail(raised_expr(lhs, shift), raised_state(p, shift)) == (
                raised_expr(r.0, shift),
                raised_state(r.1, shift),
            )
        }),
    decreases p.toks, p.left(), 135int,
{
    unfold_additive_tail(lhs, p);
    unfold_additive_tail(raised_expr(lhs, shift), raised_state(p, shift));
    match additive_op(p.kind()) {
        Some(op) => {
            lemma_term_from(p.bump(), shift);
            let (rhs, q) = sealed_term_from(p.bump());
            lemma_binary(op, lhs, rhs, q, shift);
            let (e, r) = sealed_binary(op, lhs, rhs, q);
            lemma_additive_tail(e, r.after(p.bump()), shift);
        },
        None => {},
    }
}

#[verifier::spinoff_prover]
proof fn lemma_term_from(p: PState, shift: u32)
    ensures
        ({
            let r = sealed_term_from(p);
            sealed_term_from(raised_state(p, shift)) == (
                raised_expr(r.0, shift),
                raised_state(r.1, shift),
            )
        }),
    decreases p.toks, p.left(), 130int,
{
    unfold_term_from(p);
    unfold_term_from(raised_state(p, shift));
    lemma_unary_from(p, shift);
    let (lhs, q) = sealed_unary_from(p);
    lemma_multiplicative_tail(lhs, q.after(p), shift);
}

#[verifier::spinoff_prover]
proof fn lemma_multiplicative_tail(lhs: ExprV, p: PState, shift: u32)
    ensures
        ({
            let r = sealed_multiplicative_tail(lhs, p);
            sealed_multiplicative_tail(raised_expr(lhs, shift), raised_state(p, shift)) == (
                raised_expr(r.0, shift),
                raised_state(r.1, shift),
            )
        }),
    decreases p.toks, p.left(), 125int,
{
    unfold_multiplicative_tail(lhs, p);
    unfold_multiplicative_tail(raised_expr(lhs, shift), raised_state(p, shift));
    match multiplicative_op(p.kind()) {
        Some(op) => {
            lemma_unary_from(p.bump(), shift);
            let (rhs, q) = sealed_unary_from(p.bump());
            lemma_binary(op, lhs, rhs, q, shift);
            let (e, r) = sealed_binary(op, lhs, rhs, q);
            lemma_multiplicative_tail(e, r.after(p.bump()), shift);
        },
        None => {},
    }
}

#[verifier::spinoff_prover]
proof fn lemma_unary_from(p: PState, shift: u32)
    ensures
        ({
            let r = sealed_unary_from(p);
            sealed_unary_from(raised_state(p, shift)) == (
                raised_expr(r.0, shift),
                raised_state(r.1, shift),
            )
        }),
    decreases p.toks, p.left(), 120int,
{
    unfold_unary_from(p);
    unfold_unary_from(raised_state(p, shift));
    let start = p.current_span();
    match unary_op(p.kind()) {
        Some(op) => {
            let q = p.bump();
            if q.depth >= MAX_PARSE_DEPTH {
                lemma_poison(q.too_deep(start), start, shift);
            } else {
                lemma_unary_from(q.deeper(), shift);
            }
            let (operand, r) = if q.depth >= MAX_PARSE_DEPTH {
                poison(q.too_deep(start), start)
            } else {
                let (e, s) = sealed_unary_from(q.deeper());
                (e, s.at_depth(q.depth))
            };
            open_expr(operand, shift);
            lemma_node(
                r,
                ExprKindV::Unary { op, operand: Box::new(operand) },
                between(start, operand.span),
                shift,
            );
        },
        None => {
            lemma_postfix_from(p, shift);
        },
    }
}

#[verifier::spinoff_prover]
proof fn lemma_postfix_from(p: PState, shift: u32)
    ensures
        ({
            let r = sealed_postfix_from(p);
            sealed_postfix_from(raised_state(p, shift)) == (
                raised_expr(r.0, shift),
                raised_state(r.1, shift),
            )
        }),
    decreases p.toks, p.left(), 110int,
{
    unfold_postfix_from(p);
    unfold_postfix_from(raised_state(p, shift));
    lemma_primary_from(p, shift);
    let (e, q) = sealed_primary_from(p);
    lemma_postfix_tail(e, q.after(p), shift);
}

#[verifier::spinoff_prover]
proof fn lemma_postfix_tail(e: ExprV, p: PState, shift: u32)
    ensures
        ({
            let r = sealed_postfix_tail(e, p);
            sealed_postfix_tail(raised_expr(e, shift), raised_state(p, shift)) == (
                raised_expr(r.0, shift),
                raised_state(r.1, shift),
            )
        }),
    decreases p.toks, p.left(), 105int,
{
    unfold_postfix_tail(e, p);
    unfold_postfix_tail(raised_expr(e, shift), raised_state(p, shift));
    lemma_raised_args(shift);
    let p1 = p.bump();
    match p.kind() {
        Some(TokenKind::Dot) => {
            lemma_dot_rest(e, p1, shift);
            let (e2, q) = sealed_dot_rest(e, p1);
            lemma_postfix_tail(e2, q.after(p1), shift);
        },
        Some(TokenKind::LParen) => {
            lemma_args_rest(p.current_span().start.line, p1, shift);
            let (args, was_multiline, q) = sealed_args_rest(p.current_span().start.line, p1);
            open_expr(e, shift);
            lemma_node(
                q,
                ExprKindV::Call {
                    callee: Box::new(e),
                    type_args: Seq::empty(),
                    args,
                    was_multiline,
                },
                between(e.span, q.previous_span()),
                shift,
            );
            let (e2, r) = node(
                q,
                ExprKindV::Call {
                    callee: Box::new(e),
                    type_args: Seq::empty(),
                    args,
                    was_multiline,
                },
                between(e.span, q.previous_span()),
            );
            lemma_postfix_tail(e2, r.after(p1), shift);
        },
        Some(TokenKind::LBracket) => {
            if p.explicit_type_args() {
                lemma_type_args_rest(p1, shift);
                let (type_args, q) = sealed_type_args_rest(p1);
                let q1 = q.after(p1);
                lemma_args_rest(q1.current_span().start.line, q1.bump(), shift);
                let (args, was_multiline, r) = sealed_args_rest(
                    q1.current_span().start.line,
                    q1.bump(),
                );
                open_expr(e, shift);
                lemma_node(
                    r,
                    ExprKindV::Call { callee: Box::new(e), type_args, args, was_multiline },
                    between(e.span, r.previous_span()),
                    shift,
                );
                let (e2, s) = node(
                    r,
                    ExprKindV::Call { callee: Box::new(e), type_args, args, was_multiline },
                    between(e.span, r.previous_span()),
                );
                lemma_postfix_tail(e2, s.after(p1), shift);
            } else {
                lemma_expr_from(p1, shift);
                let (index, q) = sealed_expr_from(p1);
                let r = q.expect(TokenKind::RBracket, "`]`"@);
                open_expr(e, shift);
                lemma_node(
                    r,
                    ExprKindV::Index { target: Box::new(e), index: Box::new(index) },
                    between(e.span, r.previous_span()),
                    shift,
                );
                let (e2, s) = node(
                    r,
                    ExprKindV::Index { target: Box::new(e), index: Box::new(index) },
                    between(e.span, r.previous_span()),
                );
                lemma_postfix_tail(e2, s.after(p1), shift);
            }
        },
        Some(TokenKind::Question) => {
            let q = if p1.no_question {
                p1.unexpected(
                    p1.previous_span(),
                    "a bare `?` inside a par branch (or a lambda body passed to one) is forbidden (D-PAR-03)"@,
                )
            } else {
                p1
            };
            open_expr(e, shift);
            lemma_node(
                q,
                ExprKindV::Question { target: Box::new(e) },
                between(e.span, q.previous_span()),
                shift,
            );
            let (e2, r) = node(
                q,
                ExprKindV::Question { target: Box::new(e) },
                between(e.span, q.previous_span()),
            );
            lemma_postfix_tail(e2, r.after(p1), shift);
        },
        _ => {},
    }
}

#[verifier::spinoff_prover]
proof fn lemma_dot_rest(receiver: ExprV, p: PState, shift: u32)
    ensures
        ({
            let r = sealed_dot_rest(receiver, p);
            sealed_dot_rest(raised_expr(receiver, shift), raised_state(p, shift)) == (
                raised_expr(r.0, shift),
                raised_state(r.1, shift),
            )
        }),
    decreases p.toks, p.left(), 310int,
{
    unfold_dot_rest(receiver, p);
    unfold_dot_rest(raised_expr(receiver, shift), raised_state(p, shift));
    lemma_raised_args(shift);
    match p.kind() {
        Some(TokenKind::IntLiteral(n)) => {
            let q = p.bump();
            open_expr(receiver, shift);
            lemma_node(
                q,
                ExprKindV::TupleIndex { target: Box::new(receiver), index: n as u32 },
                between(receiver.span, q.previous_span()),
                shift,
            );
        },
        Some(TokenKind::Ident(name)) => {
            let q = p.bump();
            if q.explicit_type_args() {
                lemma_type_args_rest(q.bump(), shift);
            }
            let (type_args, r) = if q.explicit_type_args() {
                sealed_type_args_rest(q.bump())
            } else {
                (Seq::empty(), q)
            };
            if r.at(TokenKind::LParen) {
                lemma_args_rest(r.current_span().start.line, r.after(q).bump(), shift);
                let (args, was_multiline, s) = sealed_args_rest(
                    r.current_span().start.line,
                    r.after(q).bump(),
                );
                open_expr(receiver, shift);
                lemma_node(
                    s,
                    ExprKindV::MethodCall {
                        receiver: Box::new(receiver),
                        method: name@,
                        type_args,
                        args,
                        was_multiline,
                    },
                    between(receiver.span, s.previous_span()),
                    shift,
                );
            } else {
                let s = if type_args.len() > 0 {
                    r.unexpected(
                        r.previous_span(),
                        "an explicit type argument list must be followed by a call `(...)`"@,
                    )
                } else {
                    r
                };
                open_expr(receiver, shift);
                lemma_node(
                    s,
                    ExprKindV::FieldAccess { target: Box::new(receiver), field: name@ },
                    between(receiver.span, s.previous_span()),
                    shift,
                );
            }
        },
        _ => {},
    }
}

#[verifier::spinoff_prover]
proof fn lemma_primary_from(p: PState, shift: u32)
    ensures
        ({
            let r = sealed_primary_from(p);
            sealed_primary_from(raised_state(p, shift)) == (
                raised_expr(r.0, shift),
                raised_state(r.1, shift),
            )
        }),
    decreases p.toks, p.left(), 100int,
{
    unfold_primary_from(p);
    unfold_primary_from(raised_state(p, shift));
    lemma_raised_exprs(shift);
    lemma_raised_segments(shift);
    lemma_raised_arms(shift);
    let start = p.current_span();
    let p1 = p.bump();
    match p.kind() {
        Some(TokenKind::IntLiteral(n)) => {
            lemma_node(p1, ExprKindV::IntLit(n), start, shift);
        },
        Some(TokenKind::FloatLiteral(s)) => {
            lemma_node(p1, ExprKindV::FloatLit(s@), start, shift);
        },
        Some(TokenKind::True) => {
            lemma_node(p1, ExprKindV::BoolLit(true), start, shift);
        },
        Some(TokenKind::False) => {
            lemma_node(p1, ExprKindV::BoolLit(false), start, shift);
        },
        Some(TokenKind::StringLiteral(s)) => {
            lemma_node(p1, ExprKindV::StringLit(s@), start, shift);
        },
        Some(TokenKind::FString(_)) => {
            lemma_segments_tail(Seq::empty(), p.pos, 0, p1, shift);
            let (segments, q) = sealed_segments_tail(Seq::empty(), p.pos, 0, p1);
            lemma_node(q, ExprKindV::FString(segments), between(start, q.previous_span()), shift);
        },
        Some(TokenKind::KwSelf) => {
            lemma_node(p1, ExprKindV::Ident("self"@), start, shift);
        },
        Some(TokenKind::Ident(name)) => {
            lemma_node(p1, ExprKindV::Ident(name@), start, shift);
        },
        Some(TokenKind::LParen) => {
            if close_followed(p.toks, p.pos, 0, TokenKind::FatArrow) {
                lemma_lambda_rest(start, p1, shift);
            } else {
                lemma_paren_rest(start, p1, shift);
            }
        },
        Some(TokenKind::LBracket) => {
            lemma_list_rest(start, p1, shift);
        },
        Some(TokenKind::LBrace) => {
            lemma_brace_rest(start, p1, shift);
        },
        Some(TokenKind::If) => {
            lemma_if_rest(start, p1, shift);
            let (i, q) = sealed_if_rest(start, p1);
            open_if(i, shift);
            lemma_node(q, ExprKindV::If(Box::new(i)), i.span, shift);
        },
        Some(TokenKind::Match) => {
            lemma_match_rest(start, p1, shift);
        },
        Some(TokenKind::Par) => {
            lemma_par_rest(start, p1, shift);
        },
        _ => {
            lemma_poison(
                p.unexpected(start, "expected an expression but did not find one"@).bump(),
                start,
                shift,
            );
        },
    }
}

#[verifier::spinoff_prover]
proof fn lemma_segments_tail(acc: Seq<SegmentV>, at: int, i: int, p: PState, shift: u32)
    ensures
        ({
            let r = sealed_segments_tail(acc, at, i, p);
            sealed_segments_tail(raised_segments(acc, shift), at, i, raised_state(p, shift)) == (
                raised_segments(r.0, shift),
                raised_state(r.1, shift),
            )
        }),
    decreases p.toks, p.left(), part_count(p.toks, at) - i,
{
    unfold_segments_tail(acc, at, i, p);
    unfold_segments_tail(raised_segments(acc, shift), at, i, raised_state(p, shift));
    lemma_segments(shift);
    lemma_raised_segments(shift);
    if 0 <= i < part_count(p.toks, at) {
        match p.toks[at].kind->FString_0@[i] {
            FStringPart::Text(text) => {
                lemma_segments_tail(acc.push(SegmentV::Text(text@)), at, i + 1, p, shift);
            },
            FStringPart::Expr(sub) => {
                let inner = PState { toks: sub@, pos: 0, ..p };
                lemma_expr_from(inner, shift);
                let (e, q) = sealed_expr_from(inner);
                let r = if q.pos < q.toks.len() {
                    q.unexpected(
                        q.current_span(),
                        "there are extra tokens in the f-string's expression"@,
                    )
                } else {
                    q
                };
                lemma_segments_tail(
                    acc.push(SegmentV::Expr(Box::new(e))),
                    at,
                    i + 1,
                    PState { toks: p.toks, pos: p.pos, ..r },
                    shift,
                );
            },
        }
    }
}

#[verifier::spinoff_prover]
proof fn lemma_paren_rest(start: Span, p: PState, shift: u32)
    ensures
        ({
            let r = sealed_paren_rest(start, p);
            sealed_paren_rest(start, raised_state(p, shift)) == (
                raised_expr(r.0, shift),
                raised_state(r.1, shift),
            )
        }),
    decreases p.toks, p.left(), 310int,
{
    unfold_paren_rest(start, p);
    unfold_paren_rest(start, raised_state(p, shift));
    lemma_raised_exprs(shift);
    if p.at(TokenKind::RParen) {
        let q = p.bump();
        lemma_node(
            q,
            ExprKindV::TupleLit { elements: Seq::empty(), was_multiline: false },
            between(start, q.previous_span()),
            shift,
        );
    } else {
        lemma_expr_from(p, shift);
        let (first, q) = sealed_expr_from(p);
        if q.at(TokenKind::Comma) {
            lemma_exprs_from(seq![first], q.after(p).bump(), TokenKind::RParen, shift);
            let (elements, r) = sealed_exprs_from(
                seq![first],
                q.after(p).bump(),
                TokenKind::RParen,
            );
            let was_multiline = start.start.line != r.current_span().start.line;
            let s = r.expect(TokenKind::RParen, "`)`"@);
            lemma_node(
                s,
                ExprKindV::TupleLit { elements, was_multiline },
                between(start, s.previous_span()),
                shift,
            );
        } else {
            let s = q.expect(TokenKind::RParen, "`)`"@);
            lemma_node(
                s,
                ExprKindV::Grouping(Box::new(first)),
                between(start, s.previous_span()),
                shift,
            );
        }
    }
}

#[verifier::spinoff_prover]
proof fn lemma_exprs_from(acc: Seq<ExprV>, p: PState, closing: TokenKind, shift: u32)
    ensures
        ({
            let r = sealed_exprs_from(acc, p, closing);
            sealed_exprs_from(raised_exprs(acc, shift), raised_state(p, shift), closing) == (
                raised_exprs(r.0, shift),
                raised_state(r.1, shift),
            )
        }),
    decreases p.toks, p.left(), 250int,
{
    unfold_exprs_from(acc, p, closing);
    unfold_exprs_from(raised_exprs(acc, shift), raised_state(p, shift), closing);
    lemma_raised_exprs(shift);
    if !p.at(closing) {
        lemma_expr_from(p, shift);
        let (e, q) = sealed_expr_from(p);
        lemma_exprs_tail(acc.push(e), q.after(p), closing, shift);
    }
}

#[verifier::spinoff_prover]
proof fn lemma_exprs_tail(acc: Seq<ExprV>, p: PState, closing: TokenKind, shift: u32)
    ensures
        ({
            let r = sealed_exprs_tail(acc, p, closing);
            sealed_exprs_tail(raised_exprs(acc, shift), raised_state(p, shift), closing) == (
                raised_exprs(r.0, shift),
                raised_state(r.1, shift),
            )
        }),
    decreases p.toks, p.left(), 240int,
{
    unfold_exprs_tail(acc, p, closing);
    unfold_exprs_tail(raised_exprs(acc, shift), raised_state(p, shift), closing);
    lemma_raised_exprs(shift);
    if p.at(TokenKind::Comma) {
        let q = p.bump();
        if !q.at(closing) {
            lemma_expr_from(q, shift);
            let (e, r) = sealed_expr_from(q);
            lemma_exprs_tail(acc.push(e), r.after(q), closing, shift);
        }
    }
}

#[verifier::spinoff_prover]
proof fn lemma_entry_from(p: PState, shift: u32)
    ensures
        ({
            let r = sealed_entry_from(p);
            sealed_entry_from(raised_state(p, shift)) == (
                raised_entry(r.0, shift),
                raised_state(r.1, shift),
            )
        }),
    decreases p.toks, p.left(), 230int,
{
    unfold_entry_from(p);
    unfold_entry_from(raised_state(p, shift));
    lemma_expr_from(p, shift);
    let (key, q) = sealed_expr_from(p);
    lemma_expr_from(q.expect(TokenKind::Colon, "`:`"@).after(p), shift);
}

#[verifier::spinoff_prover]
proof fn lemma_entries_tail(acc: Seq<(ExprV, ExprV)>, p: PState, shift: u32)
    ensures
        ({
            let r = sealed_entries_tail(acc, p);
            sealed_entries_tail(raised_entries(acc, shift), raised_state(p, shift)) == (
                raised_entries(r.0, shift),
                raised_state(r.1, shift),
            )
        }),
    decreases p.toks, p.left(), 240int,
{
    unfold_entries_tail(acc, p);
    unfold_entries_tail(raised_entries(acc, shift), raised_state(p, shift));
    lemma_raised_entries(shift);
    if p.at(TokenKind::Comma) {
        let q = p.bump();
        if !q.at(TokenKind::RBrace) {
            lemma_entry_from(q, shift);
            let (e, r) = sealed_entry_from(q);
            lemma_entries_tail(acc.push(e), r.after(q), shift);
        }
    }
}

#[verifier::spinoff_prover]
proof fn lemma_lambda_rest(start: Span, p: PState, shift: u32)
    ensures
        ({
            let r = sealed_lambda_rest(start, p);
            sealed_lambda_rest(start, raised_state(p, shift)) == (
                raised_expr(r.0, shift),
                raised_state(r.1, shift),
            )
        }),
    decreases p.toks, p.left(), 310int,
{
    unfold_lambda_rest(start, p);
    unfold_lambda_rest(start, raised_state(p, shift));
    lemma_lambda_params_from(p, shift);
    let (params, q) = sealed_lambda_params_from(p);
    let r = q.after(p).expect(TokenKind::RParen, "`)`"@).expect(TokenKind::FatArrow, "`=>`"@);
    lemma_expr_from(r.after(p).forbidding(false), shift);
    let (body, s) = sealed_expr_from(r.after(p).forbidding(false));
    let t = s.forbidding(p.no_question);
    lemma_node(
        t,
        ExprKindV::Lambda { params, body: Box::new(body) },
        between(start, t.previous_span()),
        shift,
    );
}

#[verifier::spinoff_prover]
proof fn lemma_list_rest(start: Span, p: PState, shift: u32)
    ensures
        ({
            let r = sealed_list_rest(start, p);
            sealed_list_rest(start, raised_state(p, shift)) == (
                raised_expr(r.0, shift),
                raised_state(r.1, shift),
            )
        }),
    decreases p.toks, p.left(), 310int,
{
    unfold_list_rest(start, p);
    unfold_list_rest(start, raised_state(p, shift));
    lemma_raised_exprs(shift);
    lemma_exprs_from(Seq::empty(), p, TokenKind::RBracket, shift);
    let (elements, q) = sealed_exprs_from(Seq::empty(), p, TokenKind::RBracket);
    let was_multiline = start.start.line != q.current_span().start.line;
    let r = q.expect(TokenKind::RBracket, "`]`"@);
    lemma_node(
        r,
        ExprKindV::ListLit { elements, was_multiline },
        between(start, r.previous_span()),
        shift,
    );
}

#[verifier::spinoff_prover]
proof fn lemma_brace_rest(start: Span, p: PState, shift: u32)
    ensures
        ({
            let r = sealed_brace_rest(start, p);
            sealed_brace_rest(start, raised_state(p, shift)) == (
                raised_expr(r.0, shift),
                raised_state(r.1, shift),
            )
        }),
    decreases p.toks, p.left(), 310int,
{
    unfold_brace_rest(start, p);
    unfold_brace_rest(start, raised_state(p, shift));
    lemma_raised_exprs(shift);
    lemma_raised_entries(shift);
    if p.at(TokenKind::RBrace) {
        let q = p.bump();
        lemma_node(
            q,
            ExprKindV::DictLit { entries: Seq::empty(), was_multiline: false },
            between(start, q.previous_span()),
            shift,
        );
    } else {
        lemma_expr_from(p, shift);
        let (first, q) = sealed_expr_from(p);
        if q.at(TokenKind::Colon) {
            lemma_expr_from(q.after(p).bump(), shift);
            let (value, r) = sealed_expr_from(q.after(p).bump());
            lemma_entries_tail(seq![(first, value)], r.after(p), shift);
            let (entries, s) = sealed_entries_tail(seq![(first, value)], r.after(p));
            let was_multiline = start.start.line != s.current_span().start.line;
            let t = s.expect(TokenKind::RBrace, "`}`"@);
            lemma_node(
                t,
                ExprKindV::DictLit { entries, was_multiline },
                between(start, t.previous_span()),
                shift,
            );
        } else {
            lemma_exprs_tail(seq![first], q.after(p), TokenKind::RBrace, shift);
            let (elements, s) = sealed_exprs_tail(seq![first], q.after(p), TokenKind::RBrace);
            let was_multiline = start.start.line != s.current_span().start.line;
            let t = s.expect(TokenKind::RBrace, "`}`"@);
            lemma_node(
                t,
                ExprKindV::SetLit { elements, was_multiline },
                between(start, t.previous_span()),
                shift,
            );
        }
    }
}

#[verifier::spinoff_prover]
proof fn lemma_match_rest(start: Span, p: PState, shift: u32)
    ensures
        ({
            let r = sealed_match_rest(start, p);
            sealed_match_rest(start, raised_state(p, shift)) == (
                raised_expr(r.0, shift),
                raised_state(r.1, shift),
            )
        }),
    decreases p.toks, p.left(), 310int,
{
    unfold_match_rest(start, p);
    unfold_match_rest(start, raised_state(p, shift));
    lemma_raised_arms(shift);
    lemma_expr_from(p, shift);
    let (scrutinee, q) = sealed_expr_from(p);
    if q.indented_ahead() {
        lemma_arms_block(Seq::empty(), q.after(p).bump().bump(), shift);
    } else {
        lemma_arms_inline(Seq::empty(), q.after(p), shift);
    }
    let (arms, r) = if q.indented_ahead() {
        sealed_arms_block(Seq::empty(), q.after(p).bump().bump())
    } else {
        sealed_arms_inline(Seq::empty(), q.after(p))
    };
    lemma_node(
        r,
        ExprKindV::Match { scrutinee: Box::new(scrutinee), arms },
        between(start, r.previous_span()),
        shift,
    );
}

#[verifier::spinoff_prover]
proof fn lemma_arms_block(acc: Seq<ArmV>, p: PState, shift: u32)
    ensures
        ({
            let r = sealed_arms_block(acc, p);
            sealed_arms_block(raised_arms(acc, shift), raised_state(p, shift)) == (
                raised_arms(r.0, shift),
                raised_state(r.1, shift),
            )
        }),
    decreases p.toks, p.left(), 300int,
{
    unfold_arms_block(acc, p);
    unfold_arms_block(raised_arms(acc, shift), raised_state(p, shift));
    lemma_raised_arms(shift);
    lemma_newlines(p, shift);
    let q = p.newlines().after(p);
    if !q.at(TokenKind::Dedent) {
        if !q.at_end() {
            lemma_arm_from(q, shift);
            let (arm, r) = sealed_arm_from(q);
            lemma_arms_block(acc.push(arm), r.after(q.bump()), shift);
        }
    }
}

#[verifier::spinoff_prover]
proof fn lemma_arms_inline(acc: Seq<ArmV>, p: PState, shift: u32)
    ensures
        ({
            let r = sealed_arms_inline(acc, p);
            sealed_arms_inline(raised_arms(acc, shift), raised_state(p, shift)) == (
                raised_arms(r.0, shift),
                raised_state(r.1, shift),
            )
        }),
    decreases p.toks, p.left(), 300int,
{
    unfold_arms_inline(acc, p);
    unfold_arms_inline(raised_arms(acc, shift), raised_state(p, shift));
    lemma_raised_arms(shift);
    if p.at_pattern_start() {
        lemma_arm_from(p, shift);
        let (arm, r) = sealed_arm_from(p);
        lemma_arms_inline(acc.push(arm), r.after(p.bump()), shift);
    }
}

#[verifier::spinoff_prover]
proof fn lemma_arm_from(p: PState, shift: u32)
    ensures
        ({
            let r = sealed_arm_from(p);
            sealed_arm_from(raised_state(p, shift)) == (
                raised_arm(r.0, shift),
                raised_state(r.1, shift),
            )
        }),
    decreases p.toks, p.left(), 290int,
{
    unfold_arm_from(p);
    unfold_arm_from(raised_state(p, shift));
    open_arm(sealed_arm_from(p).0, shift);
    lemma_pattern_from(p, shift);
    let (pattern, q) = sealed_pattern_from(p);
    lemma_arm_body_from(q.expect(TokenKind::FatArrow, "`=>`"@).after(p), shift);
}

#[verifier::spinoff_prover]
proof fn lemma_arm_body_from(p: PState, shift: u32)
    ensures
        ({
            let r = sealed_arm_body_from(p);
            sealed_arm_body_from(raised_state(p, shift)) == (
                raised_arm_body(r.0, shift),
                raised_state(r.1, shift),
            )
        }),
    decreases p.toks, p.left(), 280int,
{
    unfold_arm_body_from(p);
    unfold_arm_body_from(raised_state(p, shift));
    open_arm_body(sealed_arm_body_from(p).0, shift);
    if p.indented_ahead() {
        lemma_block_from(p, shift);
    } else {
        lemma_expr_from(p, shift);
    }
}

#[verifier::spinoff_prover]
proof fn lemma_par_rest(start: Span, p: PState, shift: u32)
    ensures
        ({
            let r = sealed_par_rest(start, p);
            sealed_par_rest(start, raised_state(p, shift)) == (
                raised_expr(r.0, shift),
                raised_state(r.1, shift),
            )
        }),
    decreases p.toks, p.left(), 310int,
{
    unfold_par_rest(start, p);
    unfold_par_rest(start, raised_state(p, shift));
    if p.at(TokenKind::LBracket) {
        lemma_par_elements(start, ParKind::List, TokenKind::RBracket, "`]`"@, p.bump(), shift);
    } else {
        if p.at(TokenKind::LParen) {
            lemma_par_elements(start, ParKind::Tuple, TokenKind::RParen, "`)`"@, p.bump(), shift);
        } else {
            lemma_poison(
                p.unexpected(start, "`par` must be followed by `[` or `(`"@),
                start,
                shift,
            );
        }
    }
}

#[verifier::spinoff_prover]
proof fn lemma_par_elements(
    start: Span,
    kind: ParKind,
    closing: TokenKind,
    closing_text: Seq<char>,
    p: PState,
    shift: u32,
)
    ensures
        ({
            let r = sealed_par_elements(start, kind, closing, closing_text, p);
            sealed_par_elements(start, kind, closing, closing_text, raised_state(p, shift)) == (
                raised_expr(r.0, shift),
                raised_state(r.1, shift),
            )
        }),
    decreases p.toks, p.left(), 300int,
{
    unfold_par_elements(start, kind, closing, closing_text, p);
    unfold_par_elements(start, kind, closing, closing_text, raised_state(p, shift));
    lemma_raised_exprs(shift);
    lemma_exprs_from(Seq::empty(), p.forbidding(true), closing, shift);
    let (elements, q) = sealed_exprs_from(Seq::empty(), p.forbidding(true), closing);
    let r = q.forbidding(p.no_question).expect(closing, closing_text);
    lemma_node(r, ExprKindV::Par { kind, elements }, between(start, r.previous_span()), shift);
}

#[verifier::spinoff_prover]
proof fn lemma_args_rest(open_line: u32, p: PState, shift: u32)
    ensures
        ({
            let r = sealed_args_rest(open_line, p);
            sealed_args_rest(open_line, raised_state(p, shift)) == (
                raised_args(r.0, shift),
                r.1,
                raised_state(r.2, shift),
            )
        }),
    decreases p.toks, p.left(), 300int,
{
    unfold_args_rest(open_line, p);
    unfold_args_rest(open_line, raised_state(p, shift));
    lemma_args_from(p, shift);
}

#[verifier::spinoff_prover]
proof fn lemma_args_from(p: PState, shift: u32)
    ensures
        ({
            let r = sealed_args_from(p);
            sealed_args_from(raised_state(p, shift)) == (
                raised_args(r.0, shift),
                raised_state(r.1, shift),
            )
        }),
    decreases p.toks, p.left(), 250int,
{
    unfold_args_from(p);
    unfold_args_from(raised_state(p, shift));
    lemma_raised_args(shift);
    if !p.at(TokenKind::RParen) {
        lemma_arg_from(p, shift);
        let (a, q) = sealed_arg_from(p);
        lemma_args_tail(seq![a], q.after(p), shift);
    }
}

#[verifier::spinoff_prover]
proof fn lemma_args_tail(acc: Seq<ArgV>, p: PState, shift: u32)
    ensures
        ({
            let r = sealed_args_tail(acc, p);
            sealed_args_tail(raised_args(acc, shift), raised_state(p, shift)) == (
                raised_args(r.0, shift),
                raised_state(r.1, shift),
            )
        }),
    decreases p.toks, p.left(), 240int,
{
    unfold_args_tail(acc, p);
    unfold_args_tail(raised_args(acc, shift), raised_state(p, shift));
    lemma_raised_args(shift);
    if p.at(TokenKind::Comma) {
        let q = p.bump();
        if !q.at(TokenKind::RParen) {
            lemma_arg_from(q, shift);
            let (a, r) = sealed_arg_from(q);
            lemma_args_tail(acc.push(a), r.after(q), shift);
        }
    }
}

#[verifier::spinoff_prover]
proof fn lemma_arg_from(p: PState, shift: u32)
    ensures
        ({
            let r = sealed_arg_from(p);
            sealed_arg_from(raised_state(p, shift)) == (
                raised_arg(r.0, shift),
                raised_state(r.1, shift),
            )
        }),
    decreases p.toks, p.left(), 230int,
{
    unfold_arg_from(p);
    unfold_arg_from(raised_state(p, shift));
    open_arg(sealed_arg_from(p).0, shift);
    match p.kind() {
        Some(TokenKind::Underscore) => {
            lemma_node(p.bump(), ExprKindV::Ident("_"@), p.current_span(), shift);
        },
        Some(TokenKind::Ident(name)) => {
            if p.kind_at(1) == Some(TokenKind::Colon) {
                lemma_expr_from(p.bump().bump(), shift);
            } else {
                lemma_expr_from(p, shift);
            }
        },
        _ => {
            lemma_expr_from(p, shift);
        },
    }
}

#[verifier::spinoff_prover]
proof fn lemma_block_from(p: PState, shift: u32)
    ensures
        ({
            let r = sealed_block_from(p);
            sealed_block_from(raised_state(p, shift)) == (
                raised_block(r.0, shift),
                raised_state(r.1, shift),
            )
        }),
    decreases p.toks, p.left(), 270int,
{
    unfold_block_from(p);
    unfold_block_from(raised_state(p, shift));
    open_block(sealed_block_from(p).0, shift);
    lemma_raised_stmts(shift);
    let q = if p.at(TokenKind::Newline) {
        p.bump()
    } else {
        p
    };
    if q.at(TokenKind::Indent) {
        lemma_stmts_tail(Seq::empty(), q.bump(), shift);
    }
}

#[verifier::spinoff_prover]
proof fn lemma_stmts_tail(acc: Seq<StmtV>, p: PState, shift: u32)
    ensures
        ({
            let r = sealed_stmts_tail(acc, p);
            sealed_stmts_tail(raised_stmts(acc, shift), raised_state(p, shift)) == (
                raised_stmts(r.0, shift),
                raised_state(r.1, shift),
            )
        }),
    decreases p.toks, p.left(), 400int,
{
    unfold_stmts_tail(acc, p);
    unfold_stmts_tail(raised_stmts(acc, shift), raised_state(p, shift));
    lemma_raised_stmts(shift);
    lemma_newlines(p, shift);
    let q = p.newlines().after(p);
    if !q.at(TokenKind::Dedent) {
        if !q.at_end() {
            lemma_stmt_or_skip_from(q, shift);
            let (s, r) = sealed_stmt_or_skip_from(q);
            lemma_stmts_tail(acc.push(s), r.after(q.bump()), shift);
        }
    }
}

#[verifier::spinoff_prover]
proof fn lemma_stmt_or_skip_from(p: PState, shift: u32)
    ensures
        ({
            let r = sealed_stmt_or_skip_from(p);
            sealed_stmt_or_skip_from(raised_state(p, shift)) == (
                raised_stmt(r.0, shift),
                raised_state(r.1, shift),
            )
        }),
    decreases p.toks, p.left(), 360int,
{
    unfold_stmt_or_skip_from(p);
    unfold_stmt_or_skip_from(raised_state(p, shift));
    lemma_stmt_from(p, shift);
    let (s, q) = sealed_stmt_from(p);
    if !(q.pos > p.pos) {
        lemma_sync(q.bump(), 0, shift);
    }
}

#[verifier::spinoff_prover]
proof fn lemma_stmt_from(p: PState, shift: u32)
    ensures
        ({
            let r = sealed_stmt_from(p);
            sealed_stmt_from(raised_state(p, shift)) == (
                raised_stmt(r.0, shift),
                raised_state(r.1, shift),
            )
        }),
    decreases p.toks, p.left(), 350int,
{
    unfold_stmt_from(p);
    unfold_stmt_from(raised_state(p, shift));
    open_stmt(sealed_stmt_from(p).0, shift);
    lemma_stmt_kind_from(p, shift);
}

#[verifier::spinoff_prover]
proof fn lemma_stmt_kind_from(p: PState, shift: u32)
    ensures
        ({
            let r = sealed_stmt_kind_from(p);
            sealed_stmt_kind_from(raised_state(p, shift)) == (
                raised_stmt_kind(r.0, shift),
                raised_state(r.1, shift),
            )
        }),
    decreases p.toks, p.left(), 348int,
{
    unfold_stmt_kind_from(p);
    unfold_stmt_kind_from(raised_state(p, shift));
    open_stmt_kind(sealed_stmt_kind_from(p).0, shift);
    match p.kind() {
        Some(TokenKind::Var) => {
            lemma_var_rest(p.bump(), shift);
        },
        Some(TokenKind::Return) => {
            lemma_return_rest(p.bump(), shift);
        },
        Some(TokenKind::Underscore) => {
            if p.kind_at(1) == Some(TokenKind::Eq) {
                lemma_expr_from(p.bump().bump(), shift);
            } else {
                lemma_assign_or_expr_from(p, shift);
            }
        },
        _ => {
            lemma_assign_or_expr_from(p, shift);
        },
    }
}

#[verifier::spinoff_prover]
proof fn lemma_binding_name(p: PState, what: Seq<char>, shift: u32)
    ensures
        ({
            let r = sealed_binding_name(p, what);
            sealed_binding_name(raised_state(p, shift), what) == (r.0, raised_state(r.1, shift))
        }),
{
    unfold_binding_name(p, what);
    unfold_binding_name(raised_state(p, shift), what);
}

#[verifier::spinoff_prover]
proof fn lemma_var_rest(p: PState, shift: u32)
    ensures
        ({
            let r = sealed_var_rest(p);
            sealed_var_rest(raised_state(p, shift)) == (
                raised_stmt_kind(r.0, shift),
                raised_state(r.1, shift),
            )
        }),
    decreases p.toks, p.left(), 310int,
{
    unfold_var_rest(p);
    unfold_var_rest(raised_state(p, shift));
    open_stmt_kind(sealed_var_rest(p).0, shift);
    lemma_binding_name(p, "variable name"@, shift);
    let (name, q) = sealed_binding_name(p, "variable name"@);
    lemma_opt_type_from(q, shift);
    let (ty, r) = sealed_opt_type_from(q);
    lemma_expr_from(r.expect(TokenKind::Eq, "`=`"@).after(p), shift);
}

#[verifier::spinoff_prover]
proof fn lemma_return_rest(p: PState, shift: u32)
    ensures
        ({
            let r = sealed_return_rest(p);
            sealed_return_rest(raised_state(p, shift)) == (
                raised_stmt_kind(r.0, shift),
                raised_state(r.1, shift),
            )
        }),
    decreases p.toks, p.left(), 310int,
{
    unfold_return_rest(p);
    unfold_return_rest(raised_state(p, shift));
    open_stmt_kind(sealed_return_rest(p).0, shift);
    if !(p.at_end() || p.at(TokenKind::Newline) || p.at(TokenKind::Dedent)) {
        lemma_expr_from(p, shift);
    }
}

#[verifier::spinoff_prover]
proof fn lemma_assign_or_expr_from(p: PState, shift: u32)
    ensures
        ({
            let r = sealed_assign_or_expr_from(p);
            sealed_assign_or_expr_from(raised_state(p, shift)) == (
                raised_stmt_kind(r.0, shift),
                raised_state(r.1, shift),
            )
        }),
    decreases p.toks, p.left(), 340int,
{
    unfold_assign_or_expr_from(p);
    unfold_assign_or_expr_from(raised_state(p, shift));
    open_stmt_kind(sealed_assign_or_expr_from(p).0, shift);
    lemma_expr_from(p, shift);
    let (lhs, q) = sealed_expr_from(p);
    match q.kind() {
        Some(TokenKind::Colon) => {
            lemma_annotated_rest(lhs, q.after(p).bump(), shift);
        },
        Some(TokenKind::Eq) => {
            lemma_assigned_rest(lhs, q.after(p).bump(), shift);
        },
        _ => {},
    }
}

#[verifier::spinoff_prover]
proof fn lemma_annotated_rest(lhs: ExprV, p: PState, shift: u32)
    ensures
        ({
            let r = sealed_annotated_rest(lhs, p);
            sealed_annotated_rest(raised_expr(lhs, shift), raised_state(p, shift)) == (
                raised_stmt_kind(r.0, shift),
                raised_state(r.1, shift),
            )
        }),
    decreases p.toks, p.left(), 310int,
{
    unfold_annotated_rest(lhs, p);
    unfold_annotated_rest(raised_expr(lhs, shift), raised_state(p, shift));
    open_stmt_kind(sealed_annotated_rest(lhs, p).0, shift);
    lemma_type_from(p, shift);
    let (ty, q) = sealed_type_from(p);
    lemma_expr_from(q.expect(TokenKind::Eq, "`=`"@).after(p), shift);
    open_expr(lhs, shift);
    match lhs.kind {
        ExprKindV::Ident(name) => {},
        _ => {
            open_expr(lhs, shift);
        },
    }
}

#[verifier::spinoff_prover]
proof fn lemma_assigned_rest(lhs: ExprV, p: PState, shift: u32)
    ensures
        ({
            let r = sealed_assigned_rest(lhs, p);
            sealed_assigned_rest(raised_expr(lhs, shift), raised_state(p, shift)) == (
                raised_stmt_kind(r.0, shift),
                raised_state(r.1, shift),
            )
        }),
    decreases p.toks, p.left(), 310int,
{
    unfold_assigned_rest(lhs, p);
    unfold_assigned_rest(raised_expr(lhs, shift), raised_state(p, shift));
    open_stmt_kind(sealed_assigned_rest(lhs, p).0, shift);
    lemma_expr_from(p, shift);
    open_expr(lhs, shift);
    if !assignable(lhs) {
        open_expr(lhs, shift);
    }
    open_expr(lhs, shift);
}

#[verifier::spinoff_prover]
proof fn lemma_if_rest(start: Span, p: PState, shift: u32)
    ensures
        ({
            let r = sealed_if_rest(start, p);
            sealed_if_rest(start, raised_state(p, shift)) == (
                raised_if(r.0, shift),
                raised_state(r.1, shift),
            )
        }),
    decreases p.toks, p.left(), 310int,
{
    unfold_if_rest(start, p);
    unfold_if_rest(start, raised_state(p, shift));
    open_if(sealed_if_rest(start, p).0, shift);
    lemma_expr_from(p, shift);
    let (cond, q) = sealed_expr_from(p);
    lemma_branch_from(q.after(p), shift);
    let (then_branch, r) = sealed_branch_from(q.after(p));
    lemma_else_from(r.after(p), shift);
}

#[verifier::spinoff_prover]
proof fn lemma_else_from(p: PState, shift: u32)
    ensures
        ({
            let r = sealed_else_from(p);
            sealed_else_from(raised_state(p, shift)) == (
                raised_else(r.0, shift),
                raised_state(r.1, shift),
            )
        }),
    decreases p.toks, p.left(), 300int,
{
    unfold_else_from(p);
    unfold_else_from(raised_state(p, shift));
    open_else(sealed_else_from(p).0, shift);
    lemma_raised_stmts(shift);
    open_block(BlockV { stmts: Seq::empty(), span: p.current_span() }, shift);
    if p.at(TokenKind::Else) {
        let q = p.bump();
        if q.at(TokenKind::If) {
            lemma_if_rest(q.current_span(), q.bump(), shift);
        } else {
            lemma_branch_from(q, shift);
        }
    } else {
        let span = p.current_span();
        lemma_sync(p.unexpected(span, "an if expression requires else (D-SYN-03)"@), 0, shift);
    }
}

#[verifier::spinoff_prover]
proof fn lemma_branch_from(p: PState, shift: u32)
    ensures
        ({
            let r = sealed_branch_from(p);
            sealed_branch_from(raised_state(p, shift)) == (
                raised_block(r.0, shift),
                raised_state(r.1, shift),
            )
        }),
    decreases p.toks, p.left(), 280int,
{
    unfold_branch_from(p);
    unfold_branch_from(raised_state(p, shift));
    open_block(sealed_branch_from(p).0, shift);
    lemma_raised_stmts(shift);
    let e = sealed_expr_from(p).0;
    open_stmt(plain_stmt(StmtKindV::ExprStmt(e), e.span), shift);
    open_stmt_kind(StmtKindV::ExprStmt(e), shift);
    if p.indented_ahead() {
        lemma_block_from(p, shift);
    } else {
        lemma_expr_from(p, shift);
        let (e, q) = sealed_expr_from(p);
        open_expr(e, shift);
    }
}

#[verifier::spinoff_prover]
proof fn lemma_generics_from(p: PState, shift: u32)
    ensures
        ({
            let r = sealed_generics_from(p);
            sealed_generics_from(raised_state(p, shift)) == (r.0, raised_state(r.1, shift))
        }),
{
    unfold_generics_from(p);
    unfold_generics_from(raised_state(p, shift));
    if p.at(TokenKind::LBracket) {
        lemma_idents_from(p.bump(), TokenKind::RBracket, "type parameter name"@, shift);
    }
}

#[verifier::spinoff_prover]
proof fn lemma_param_from(p: PState, shift: u32)
    ensures
        ({
            let r = sealed_param_from(p);
            sealed_param_from(raised_state(p, shift)) == (r.0, raised_state(r.1, shift))
        }),
{
    unfold_param_from(p);
    unfold_param_from(raised_state(p, shift));
    let (name, q) = p.ident("parameter name/field name"@);
    if q.at(TokenKind::Colon) {
        lemma_type_from(q.bump(), shift);
    }
}

#[verifier::spinoff_prover]
proof fn lemma_opt_comma(p: PState, shift: u32)
    ensures
        ({
            let r = sealed_opt_comma(p);
            sealed_opt_comma(raised_state(p, shift)) == raised_state(r, shift)
        }),
{
    unfold_opt_comma(p);
    unfold_opt_comma(raised_state(p, shift));
}

#[verifier::spinoff_prover]
proof fn lemma_self_param_from(p: PState, shift: u32)
    ensures
        ({
            let r = sealed_self_param_from(p);
            sealed_self_param_from(raised_state(p, shift)) == (r.0, raised_state(r.1, shift))
        }),
{
    unfold_self_param_from(p);
    unfold_self_param_from(raised_state(p, shift));
    if p.at(TokenKind::Var) && p.kind_at(1) == Some(TokenKind::KwSelf) {
        lemma_opt_comma(p.bump().bump(), shift);
    } else {
        if p.at(TokenKind::KwSelf) {
            lemma_opt_comma(p.bump(), shift);
        }
    }
}

#[verifier::spinoff_prover]
proof fn lemma_function_params_from(p: PState, shift: u32)
    ensures
        ({
            let r = sealed_function_params_from(p);
            sealed_function_params_from(raised_state(p, shift)) == (
                r.0,
                r.1,
                raised_state(r.2, shift),
            )
        }),
{
    unfold_function_params_from(p);
    unfold_function_params_from(raised_state(p, shift));
    if !p.at(TokenKind::RParen) {
        lemma_self_param_from(p, shift);
        let (self_param, q) = sealed_self_param_from(p);
        lemma_params_tail(Seq::empty(), q, shift);
    }
}

#[verifier::spinoff_prover]
proof fn lemma_params_tail(acc: Seq<ParamV>, p: PState, shift: u32)
    ensures
        ({
            let r = sealed_params_tail(acc, p);
            sealed_params_tail(acc, raised_state(p, shift)) == (r.0, raised_state(r.1, shift))
        }),
    decreases p.left(),
{
    unfold_params_tail(acc, p);
    unfold_params_tail(acc, raised_state(p, shift));
    if !(p.at_end() || p.at(TokenKind::RParen)) {
        lemma_param_from(p, shift);
        let (x, q) = sealed_param_from(p);
        if q.at(TokenKind::Comma) {
            let r = q.after(p).bump();
            if !r.at(TokenKind::RParen) {
                lemma_params_tail(acc.push(x), r, shift);
            }
        }
    }
}

#[verifier::spinoff_prover]
proof fn lemma_function_from(p: PState, shift: u32)
    ensures
        ({
            let r = sealed_function_from(p);
            sealed_function_from(raised_state(p, shift)) == (
                raised_function(r.0, shift),
                raised_state(r.1, shift),
            )
        }),
{
    unfold_function_from(p);
    unfold_function_from(raised_state(p, shift));
    lemma_ids(shift);
    let (name, p1) = p.bump().ident("function name"@);
    lemma_generics_from(p1, shift);
    let (generics, p2) = sealed_generics_from(p1);
    lemma_function_params_from(p2.expect(TokenKind::LParen, "`(`"@), shift);
    let (self_param, params, p3) = sealed_function_params_from(
        p2.expect(TokenKind::LParen, "`(`"@),
    );
    let p4 = p3.expect(TokenKind::RParen, "`)`"@).expect(
        TokenKind::Colon,
        "`:` (return type annotation)"@,
    );
    lemma_type_from(p4, shift);
    let (ret, p5) = sealed_type_from(p4);
    lemma_uses_from(p5, shift);
    let (effects, p6) = sealed_uses_from(p5);
    lemma_block_from(p6, shift);
}

#[verifier::spinoff_prover]
proof fn lemma_body_from(p: PState, shift: u32)
    ensures
        ({
            let r = sealed_body_from(p);
            sealed_body_from(raised_state(p, shift)) == (r.0, raised_state(r.1, shift))
        }),
{
    unfold_body_from(p);
    unfold_body_from(raised_state(p, shift));
}

#[verifier::spinoff_prover]
proof fn lemma_struct_from(p: PState, shift: u32)
    ensures
        ({
            let r = sealed_struct_from(p);
            sealed_struct_from(raised_state(p, shift)) == (
                raised_struct(r.0, shift),
                raised_state(r.1, shift),
            )
        }),
{
    unfold_struct_from(p);
    unfold_struct_from(raised_state(p, shift));
    lemma_raised_functions(shift);
    lemma_ids(shift);
    let (name, p1) = p.bump().ident("struct name"@);
    lemma_generics_from(p1, shift);
    let (generics, p2) = sealed_generics_from(p1);
    lemma_body_from(p2, shift);
    let (has_body, p3) = sealed_body_from(p2);
    if has_body {
        lemma_members_tail(Seq::empty(), Seq::empty(), p3, shift);
    }
}

#[verifier::spinoff_prover]
proof fn lemma_members_tail(fields: Seq<ParamV>, methods: Seq<FunctionV>, p: PState, shift: u32)
    ensures
        ({
            let r = sealed_members_tail(fields, methods, p);
            sealed_members_tail(fields, raised_functions(methods, shift), raised_state(p, shift)) == (
                r.0,
                raised_functions(r.1, shift),
                raised_state(r.2, shift),
            )
        }),
    decreases p.left(),
{
    unfold_members_tail(fields, methods, p);
    unfold_members_tail(fields, raised_functions(methods, shift), raised_state(p, shift));
    lemma_raised_functions(shift);
    lemma_newlines(p, shift);
    let q = p.newlines().after(p);
    match q.kind() {
        Some(TokenKind::Dedent) => {},
        None => {},
        Some(TokenKind::Eof) => {},
        Some(TokenKind::Def) => {
            lemma_function_from(q, shift);
            let (f, r) = sealed_function_from(q);
            lemma_members_tail(fields, methods.push(f), r.after(q.bump()), shift);
        },
        Some(TokenKind::Ident(_)) => {
            lemma_param_from(q, shift);
            let (x, r) = sealed_param_from(q);
            lemma_members_tail(fields.push(x), methods, r.after(q.bump()), shift);
        },
        Some(_) => {
            lemma_sync(
                q.unexpected(
                    q.current_span(),
                    "expected a struct field or method definition"@,
                ),
                0,
                shift,
            );
            let r = q.unexpected(
                q.current_span(),
                "expected a struct field or method definition"@,
            ).sync(0);
            lemma_members_tail(fields, methods, r.after(q.bump()), shift);
        },
    }
}

#[verifier::spinoff_prover]
proof fn lemma_variant_field_from(p: PState, shift: u32)
    ensures
        ({
            let r = sealed_variant_field_from(p);
            sealed_variant_field_from(raised_state(p, shift)) == (
                r.0,
                r.1,
                raised_state(r.2, shift),
            )
        }),
{
    unfold_variant_field_from(p);
    unfold_variant_field_from(raised_state(p, shift));
    match p.kind() {
        Some(TokenKind::Ident(name)) => {
            if p.kind_at(1) == Some(TokenKind::Colon) {
                lemma_type_from(p.bump().bump(), shift);
            } else {
                lemma_type_from(p, shift);
            }
        },
        _ => {
            lemma_type_from(p, shift);
        },
    }
}

#[verifier::spinoff_prover]
proof fn lemma_variant_fields_from(p: PState, shift: u32)
    ensures
        ({
            let r = sealed_variant_fields_from(p);
            sealed_variant_fields_from(raised_state(p, shift)) == (
                r.0,
                r.1,
                raised_state(r.2, shift),
            )
        }),
{
    unfold_variant_fields_from(p);
    unfold_variant_fields_from(raised_state(p, shift));
    if !p.at(TokenKind::RParen) {
        lemma_variant_field_from(p, shift);
        let (n, t, q) = sealed_variant_field_from(p);
        lemma_variant_fields_tail(seq![n], seq![t], q, shift);
    }
}

#[verifier::spinoff_prover]
proof fn lemma_variant_fields_tail(
    names: Seq<Option<Seq<char>>>,
    types: Seq<TypeV>,
    p: PState,
    shift: u32,
)
    ensures
        ({
            let r = sealed_variant_fields_tail(names, types, p);
            sealed_variant_fields_tail(names, types, raised_state(p, shift)) == (
                r.0,
                r.1,
                raised_state(r.2, shift),
            )
        }),
    decreases p.left(),
{
    unfold_variant_fields_tail(names, types, p);
    unfold_variant_fields_tail(names, types, raised_state(p, shift));
    if p.at(TokenKind::Comma) {
        let q = p.bump();
        if !q.at(TokenKind::RParen) {
            lemma_variant_field_from(q, shift);
            let (n, t, r) = sealed_variant_field_from(q);
            lemma_variant_fields_tail(names.push(n), types.push(t), r.after(q), shift);
        }
    }
}

#[verifier::spinoff_prover]
proof fn lemma_variant_from(p: PState, shift: u32)
    ensures
        ({
            let r = sealed_variant_from(p);
            sealed_variant_from(raised_state(p, shift)) == (r.0, raised_state(r.1, shift))
        }),
{
    unfold_variant_from(p);
    unfold_variant_from(raised_state(p, shift));
    let (name, q) = p.ident("variant name"@);
    if q.at(TokenKind::LParen) {
        lemma_variant_fields_from(q.bump(), shift);
    }
}

#[verifier::spinoff_prover]
proof fn lemma_variants_tail(acc: Seq<VariantV>, p: PState, shift: u32)
    ensures
        ({
            let r = sealed_variants_tail(acc, p);
            sealed_variants_tail(acc, raised_state(p, shift)) == (r.0, raised_state(r.1, shift))
        }),
    decreases p.left(),
{
    unfold_variants_tail(acc, p);
    unfold_variants_tail(acc, raised_state(p, shift));
    lemma_newlines(p, shift);
    let q = p.newlines().after(p);
    match q.kind() {
        Some(TokenKind::Dedent) => {},
        None => {},
        Some(TokenKind::Eof) => {},
        Some(TokenKind::Ident(_)) => {
            lemma_variant_from(q, shift);
            let (v, r) = sealed_variant_from(q);
            lemma_variants_tail(acc.push(v), r.after(q.bump()), shift);
        },
        Some(_) => {
            lemma_sync(q.unexpected(q.current_span(), "expected an enum variant"@), 0, shift);
            let r = q.unexpected(q.current_span(), "expected an enum variant"@).sync(0);
            lemma_variants_tail(acc, r.after(q.bump()), shift);
        },
    }
}

#[verifier::spinoff_prover]
proof fn lemma_enum_from(p: PState, shift: u32)
    ensures
        ({
            let r = sealed_enum_from(p);
            sealed_enum_from(raised_state(p, shift)) == (
                raised_enum(r.0, shift),
                raised_state(r.1, shift),
            )
        }),
{
    unfold_enum_from(p);
    unfold_enum_from(raised_state(p, shift));
    lemma_ids(shift);
    let (name, p1) = p.bump().ident("enum name"@);
    lemma_generics_from(p1, shift);
    let (generics, p2) = sealed_generics_from(p1);
    lemma_body_from(p2, shift);
    let (has_body, p3) = sealed_body_from(p2);
    if has_body {
        lemma_variants_tail(Seq::empty(), p3, shift);
    }
}

#[verifier::spinoff_prover]
pub proof fn lemma_items_tail(acc: Seq<ItemV>, p: PState, shift: u32)
    ensures
        ({
            let r = sealed_items_tail(acc, p);
            sealed_items_tail(raised_items(acc, shift), raised_state(p, shift)) == (
                raised_items(r.0, shift),
                raised_state(r.1, shift),
            )
        }),
    decreases p.left(),
{
    unfold_items_tail(acc, p);
    unfold_items_tail(raised_items(acc, shift), raised_state(p, shift));
    lemma_raised_items(shift);
    lemma_newlines(p, shift);
    let q = p.newlines().after(p);
    if !(q.at_end() || q.at(TokenKind::Dedent)) {
        lemma_item_from(q, shift);
        let (item, r) = sealed_item_from(q);
        lemma_items_tail(acc.push(item), r.after(q.bump()), shift);
    }
}

#[verifier::spinoff_prover]
proof fn lemma_item_from(p: PState, shift: u32)
    ensures
        ({
            let r = sealed_item_from(p);
            sealed_item_from(raised_state(p, shift)) == (
                raised_item(r.0, shift),
                raised_state(r.1, shift),
            )
        }),
{
    unfold_item_from(p);
    unfold_item_from(raised_state(p, shift));
    match p.kind() {
        Some(TokenKind::Def) => {
            lemma_function_from(p, shift);
        },
        Some(TokenKind::Struct) => {
            lemma_struct_from(p, shift);
        },
        Some(TokenKind::Enum) => {
            lemma_enum_from(p, shift);
        },
        _ => {
            lemma_stmt_or_skip_from(p, shift);
        },
    }
}

#[verifier::spinoff_prover]
proof fn lemma_line_end(p: PState, shift: u32)
    ensures
        ({
            let r = sealed_line_end(p);
            sealed_line_end(raised_state(p, shift)) == raised_state(r, shift)
        }),
    decreases p.left(),
{
    unfold_line_end(p);
    unfold_line_end(raised_state(p, shift));
    if !(p.at_end() || p.at(TokenKind::Newline)) {
        lemma_line_end(p.bump(), shift);
    }
}

#[verifier::spinoff_prover]
pub proof fn lemma_directive_from(p: PState, shift: u32)
    ensures
        ({
            let r = sealed_directive_from(p);
            sealed_directive_from(raised_state(p, shift)) == (r.0, raised_state(r.1, shift))
        }),
{
    unfold_directive_from(p);
    unfold_directive_from(raised_state(p, shift));
    if p.at(TokenKind::Module) {
        let q = p.bump();
        if !(q.at(TokenKind::Newline) || q.at(TokenKind::Eof)) {
            let r = q.report(
                ErrorCode::ModuleDirectiveMalformed,
                between(p.current_span(), q.current_span()),
                "a module directive must be the bare keyword with no name (D-LEX-08)"@,
            );
            lemma_line_end(r, shift);
        }
    }
}

proof fn lemma_wrapped(n: int, shift: u32)
    ensures
        wrapped(n + shift) == wrapped(wrapped(n) + shift),
{
}

/// A parse that starts with another number reads the same module, with every node number raised by
/// the difference, and reports the same. Numbers go round at the greatest one; where they do not,
/// the first number that is left is raised by the difference too.
#[verifier::spinoff_prover]
pub proof fn law_start_numbers_only_shift(toks: Seq<Token>, file: FileId, shift: u32)
    ensures
        ({
            let (m0, d0, n0) = module_from(toks, file, 0);
            &&& module_from(toks, file, shift) == (
                raised_module(m0, shift),
                d0,
                wrapped(n0 + shift),
            )
            &&& n0 + shift <= u32::MAX ==> module_from(toks, file, shift).2 == n0 + shift
        }),
{
    let p = initial(toks, file, 0);
    assert(raised_state(p, shift) == initial(toks, file, shift));
    unfold_module_from(toks, file, 0);
    unfold_module_from(toks, file, shift);
    lemma_directive_from(p, shift);
    let (directive, q) = sealed_directive_from(p);
    lemma_items_tail(Seq::empty(), q, shift);
    lemma_raised_items(shift);
    lemma_wrapped(sealed_items_tail(Seq::empty(), q).1.next_id, shift);
}

} // verus!
