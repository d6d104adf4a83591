//! The grammar, one step at a time: a proof about the grammar takes from it the step that it
//! needs, and what that step rests on stays closed.

use super::grammar::{
    additive_op, additive_tail, and_from, and_tail, annotated_rest, arg_from, args_from, args_rest,
    args_tail, arithmetic_from, arm_body_from, arm_from, arms_block, arms_inline,
    assign_or_expr_from, assignable, assigned_rest, assignment, binary, binding_name, block_from,
    body_from, brace_rest, branch_from, callee_rest, comparison_from, destination_from,
    destination_tail, directive_from, dot_rest, else_from, entries_tail, entry_from, enum_from,
    equality_op, equality_tail, expr_from, exprs_from, exprs_tail, function_from,
    function_params_from, function_type_rest, generics_from, has_placeholder, idents_from,
    idents_tail, if_rest, initial, item_from, items_tail, lambda_param_from, lambda_params_from,
    lambda_params_tail, lambda_rest, line_end, list_rest, literal_from, logical_from, match_rest,
    members_tail, module_from, multiplicative_op, multiplicative_tail, named_type_rest, opt_comma,
    opt_type_from, or_tail, par_elements, par_rest, param_from, params_tail, paren_rest, part_count,
    pattern_from, pipe_from, plain_stmt, postfix_from, postfix_tail, primary_from, relational_from,
    relational_op, return_rest, segments_tail, self_param_from, stage_from, stages_tail, stmt_from,
    stmt_kind_from, stmt_or_skip_from, stmts_tail, struct_from, sub_pattern_from, sub_patterns_from,
    sub_patterns_tail, term_from, type_args_rest, type_from, types_from, types_tail, unary_from,
    unary_op, unnamed_type, uses_from, var_rest, variant_field_from, variant_fields_from,
    variant_fields_tail, variant_from, variants_tail,
};
use super::state::{between, close_followed, node, poison, wrapped, PState, MAX_PARSE_DEPTH};
use crate::ast::{
    ArgV, ArmBodyV, ArmV, BinaryOp, BlockV, CalleeV, DeclV, ElseV, EnumV, ExprKindV, ExprV,
    FunctionV, IfV, ItemV, LambdaParamV, LeadingV, ModuleV, ParKind, ParamV, PatternV, SegmentV,
    SelfParam, StageV, StmtKindV, StmtV, StructV, SubPatternV, TypeKindV, TypeV, VariantV,
};
use crate::diagnostics::{ErrorCode, FileId, Span};
use crate::lexer::{FStringPart, Token, TokenKind};
use vstd::prelude::*;

verus! {

// Each function of the grammar, without its definition: a proof takes from it the one step that
// it needs.

#[verifier::opaque]
pub open spec fn sealed_idents_from(
    p: PState,
    closing: TokenKind,
    what: Seq<char>,
) -> (Seq<Seq<char>>, PState) {
    idents_from(p, closing, what)
}

#[verifier::opaque]
pub open spec fn sealed_idents_tail(
    acc: Seq<Seq<char>>,
    p: PState,
    closing: TokenKind,
    what: Seq<char>,
) -> (Seq<Seq<char>>, PState) {
    idents_tail(acc, p, closing, what)
}

#[verifier::opaque]
pub open spec fn sealed_uses_from(p: PState) -> (Seq<Seq<char>>, PState) {
    uses_from(p)
}

#[verifier::opaque]
pub open spec fn sealed_type_from(p: PState) -> (TypeV, PState) {
    type_from(p)
}

#[verifier::opaque]
pub open spec fn sealed_function_type_rest(start: Span, p: PState) -> (TypeV, PState) {
    function_type_rest(start, p)
}

#[verifier::opaque]
pub open spec fn sealed_named_type_rest(
    start: Span,
    name: Seq<char>,
    p: PState,
) -> (TypeV, PState) {
    named_type_rest(start, name, p)
}

#[verifier::opaque]
pub open spec fn sealed_type_args_rest(p: PState) -> (Seq<TypeV>, PState) {
    type_args_rest(p)
}

#[verifier::opaque]
pub open spec fn sealed_types_from(p: PState, closing: TokenKind) -> (Seq<TypeV>, PState) {
    types_from(p, closing)
}

#[verifier::opaque]
pub open spec fn sealed_types_tail(
    acc: Seq<TypeV>,
    p: PState,
    closing: TokenKind,
) -> (Seq<TypeV>, PState) {
    types_tail(acc, p, closing)
}

#[verifier::opaque]
pub open spec fn sealed_opt_type_from(p: PState) -> (Option<TypeV>, PState) {
    opt_type_from(p)
}

#[verifier::opaque]
pub open spec fn sealed_sub_pattern_from(p: PState) -> (SubPatternV, PState) {
    sub_pattern_from(p)
}

#[verifier::opaque]
pub open spec fn sealed_sub_patterns_from(p: PState) -> (Seq<SubPatternV>, PState) {
    sub_patterns_from(p)
}

#[verifier::opaque]
pub open spec fn sealed_sub_patterns_tail(
    acc: Seq<SubPatternV>,
    p: PState,
) -> (Seq<SubPatternV>, PState) {
    sub_patterns_tail(acc, p)
}

#[verifier::opaque]
pub open spec fn sealed_pattern_from(p: PState) -> (PatternV, PState) {
    pattern_from(p)
}

#[verifier::opaque]
pub open spec fn sealed_lambda_param_from(p: PState) -> (LambdaParamV, PState) {
    lambda_param_from(p)
}

#[verifier::opaque]
pub open spec fn sealed_lambda_params_from(p: PState) -> (Seq<LambdaParamV>, PState) {
    lambda_params_from(p)
}

#[verifier::opaque]
pub open spec fn sealed_lambda_params_tail(
    acc: Seq<LambdaParamV>,
    p: PState,
) -> (Seq<LambdaParamV>, PState) {
    lambda_params_tail(acc, p)
}

#[verifier::opaque]
pub open spec fn sealed_destination_from(p: PState) -> (ExprV, PState) {
    destination_from(p)
}

#[verifier::opaque]
pub open spec fn sealed_destination_tail(e: ExprV, p: PState) -> (ExprV, PState) {
    destination_tail(e, p)
}

#[verifier::opaque]
pub open spec fn sealed_binary(op: BinaryOp, lhs: ExprV, rhs: ExprV, p: PState) -> (ExprV, PState) {
    binary(op, lhs, rhs, p)
}

#[verifier::opaque]
pub open spec fn sealed_expr_from(p: PState) -> (ExprV, PState) {
    expr_from(p)
}

#[verifier::opaque]
pub open spec fn sealed_pipe_from(p: PState) -> (ExprV, PState) {
    pipe_from(p)
}

#[verifier::opaque]
pub open spec fn sealed_stages_tail(acc: Seq<StageV>, p: PState) -> (Seq<StageV>, PState) {
    stages_tail(acc, p)
}

#[verifier::opaque]
pub open spec fn sealed_stage_from(p: PState) -> (StageV, PState) {
    stage_from(p)
}

#[verifier::opaque]
pub open spec fn sealed_callee_rest(target: ExprV, p: PState) -> (CalleeV, PState) {
    callee_rest(target, p)
}

#[verifier::opaque]
pub open spec fn sealed_logical_from(p: PState) -> (ExprV, PState) {
    logical_from(p)
}

#[verifier::opaque]
pub open spec fn sealed_or_tail(lhs: ExprV, p: PState) -> (ExprV, PState) {
    or_tail(lhs, p)
}

#[verifier::opaque]
pub open spec fn sealed_and_from(p: PState) -> (ExprV, PState) {
    and_from(p)
}

#[verifier::opaque]
pub open spec fn sealed_and_tail(lhs: ExprV, p: PState) -> (ExprV, PState) {
    and_tail(lhs, p)
}

#[verifier::opaque]
pub open spec fn sealed_comparison_from(p: PState) -> (ExprV, PState) {
    comparison_from(p)
}

#[verifier::opaque]
pub open spec fn sealed_equality_tail(lhs: ExprV, p: PState) -> (ExprV, PState) {
    equality_tail(lhs, p)
}

#[verifier::opaque]
pub open spec fn sealed_relational_from(p: PState) -> (ExprV, PState) {
    relational_from(p)
}

#[verifier::opaque]
pub open spec fn sealed_arithmetic_from(p: PState) -> (ExprV, PState) {
    arithmetic_from(p)
}

#[verifier::opaque]
pub open spec fn sealed_additive_tail(lhs: ExprV, p: PState) -> (ExprV, PState) {
    additive_tail(lhs, p)
}

#[verifier::opaque]
pub open spec fn sealed_term_from(p: PState) -> (ExprV, PState) {
    term_from(p)
}

#[verifier::opaque]
pub open spec fn sealed_multiplicative_tail(lhs: ExprV, p: PState) -> (ExprV, PState) {
    multiplicative_tail(lhs, p)
}

#[verifier::opaque]
pub open spec fn sealed_unary_from(p: PState) -> (ExprV, PState) {
    unary_from(p)
}

#[verifier::opaque]
pub open spec fn sealed_postfix_from(p: PState) -> (ExprV, PState) {
    postfix_from(p)
}

#[verifier::opaque]
pub open spec fn sealed_postfix_tail(e: ExprV, p: PState) -> (ExprV, PState) {
    postfix_tail(e, p)
}

#[verifier::opaque]
pub open spec fn sealed_dot_rest(receiver: ExprV, p: PState) -> (ExprV, PState) {
    dot_rest(receiver, p)
}

#[verifier::opaque]
pub open spec fn sealed_primary_from(p: PState) -> (ExprV, PState) {
    primary_from(p)
}

#[verifier::opaque]
pub open spec fn sealed_segments_tail(
    acc: Seq<SegmentV>,
    at: int,
    i: int,
    p: PState,
) -> (Seq<SegmentV>, PState) {
    segments_tail(acc, at, i, p)
}

#[verifier::opaque]
pub open spec fn sealed_paren_rest(start: Span, p: PState) -> (ExprV, PState) {
    paren_rest(start, p)
}

#[verifier::opaque]
pub open spec fn sealed_exprs_from(
    acc: Seq<ExprV>,
    p: PState,
    closing: TokenKind,
) -> (Seq<ExprV>, PState) {
    exprs_from(acc, p, closing)
}

#[verifier::opaque]
pub open spec fn sealed_exprs_tail(
    acc: Seq<ExprV>,
    p: PState,
    closing: TokenKind,
) -> (Seq<ExprV>, PState) {
    exprs_tail(acc, p, closing)
}

#[verifier::opaque]
pub open spec fn sealed_entry_from(p: PState) -> ((ExprV, ExprV), PState) {
    entry_from(p)
}

#[verifier::opaque]
pub open spec fn sealed_entries_tail(
    acc: Seq<(ExprV, ExprV)>,
    p: PState,
) -> (Seq<(ExprV, ExprV)>, PState) {
    entries_tail(acc, p)
}

#[verifier::opaque]
pub open spec fn sealed_lambda_rest(start: Span, p: PState) -> (ExprV, PState) {
    lambda_rest(start, p)
}

#[verifier::opaque]
pub open spec fn sealed_list_rest(start: Span, p: PState) -> (ExprV, PState) {
    list_rest(start, p)
}

#[verifier::opaque]
pub open spec fn sealed_brace_rest(start: Span, p: PState) -> (ExprV, PState) {
    brace_rest(start, p)
}

#[verifier::opaque]
pub open spec fn sealed_match_rest(start: Span, p: PState) -> (ExprV, PState) {
    match_rest(start, p)
}

#[verifier::opaque]
pub open spec fn sealed_arms_block(acc: Seq<ArmV>, p: PState) -> (Seq<ArmV>, PState) {
    arms_block(acc, p)
}

#[verifier::opaque]
pub open spec fn sealed_arms_inline(acc: Seq<ArmV>, p: PState) -> (Seq<ArmV>, PState) {
    arms_inline(acc, p)
}

#[verifier::opaque]
pub open spec fn sealed_arm_from(p: PState) -> (ArmV, PState) {
    arm_from(p)
}

#[verifier::opaque]
pub open spec fn sealed_arm_body_from(p: PState) -> (ArmBodyV, PState) {
    arm_body_from(p)
}

#[verifier::opaque]
pub open spec fn sealed_par_rest(start: Span, p: PState) -> (ExprV, PState) {
    par_rest(start, p)
}

#[verifier::opaque]
pub open spec fn sealed_par_elements(
    start: Span,
    kind: ParKind,
    closing: TokenKind,
    closing_text: Seq<char>,
    p: PState,
) -> (ExprV, PState) {
    par_elements(start, kind, closing, closing_text, p)
}

#[verifier::opaque]
pub open spec fn sealed_args_rest(open_line: u32, p: PState) -> (Seq<ArgV>, bool, PState) {
    args_rest(open_line, p)
}

#[verifier::opaque]
pub open spec fn sealed_args_from(p: PState) -> (Seq<ArgV>, PState) {
    args_from(p)
}

#[verifier::opaque]
pub open spec fn sealed_args_tail(acc: Seq<ArgV>, p: PState) -> (Seq<ArgV>, PState) {
    args_tail(acc, p)
}

#[verifier::opaque]
pub open spec fn sealed_arg_from(p: PState) -> (ArgV, PState) {
    arg_from(p)
}

#[verifier::opaque]
pub open spec fn sealed_block_from(p: PState) -> (BlockV, PState) {
    block_from(p)
}

#[verifier::opaque]
pub open spec fn sealed_stmts_tail(acc: Seq<StmtV>, p: PState) -> (Seq<StmtV>, PState) {
    stmts_tail(acc, p)
}

#[verifier::opaque]
pub open spec fn sealed_stmt_or_skip_from(p: PState) -> (StmtV, PState) {
    stmt_or_skip_from(p)
}

#[verifier::opaque]
pub open spec fn sealed_stmt_from(p: PState) -> (StmtV, PState) {
    stmt_from(p)
}

#[verifier::opaque]
pub open spec fn sealed_stmt_kind_from(p: PState) -> (StmtKindV, PState) {
    stmt_kind_from(p)
}

#[verifier::opaque]
pub open spec fn sealed_binding_name(p: PState, what: Seq<char>) -> (Seq<char>, PState) {
    binding_name(p, what)
}

#[verifier::opaque]
pub open spec fn sealed_var_rest(p: PState) -> (StmtKindV, PState) {
    var_rest(p)
}

#[verifier::opaque]
pub open spec fn sealed_return_rest(p: PState) -> (StmtKindV, PState) {
    return_rest(p)
}

#[verifier::opaque]
pub open spec fn sealed_assign_or_expr_from(p: PState) -> (StmtKindV, PState) {
    assign_or_expr_from(p)
}

#[verifier::opaque]
pub open spec fn sealed_annotated_rest(lhs: ExprV, p: PState) -> (StmtKindV, PState) {
    annotated_rest(lhs, p)
}

#[verifier::opaque]
pub open spec fn sealed_assigned_rest(lhs: ExprV, p: PState) -> (StmtKindV, PState) {
    assigned_rest(lhs, p)
}

#[verifier::opaque]
pub open spec fn sealed_if_rest(start: Span, p: PState) -> (IfV, PState) {
    if_rest(start, p)
}

#[verifier::opaque]
pub open spec fn sealed_else_from(p: PState) -> (ElseV, PState) {
    else_from(p)
}

#[verifier::opaque]
pub open spec fn sealed_branch_from(p: PState) -> (BlockV, PState) {
    branch_from(p)
}

#[verifier::opaque]
pub open spec fn sealed_generics_from(p: PState) -> (Seq<Seq<char>>, PState) {
    generics_from(p)
}

#[verifier::opaque]
pub open spec fn sealed_param_from(p: PState) -> (ParamV, PState) {
    param_from(p)
}

#[verifier::opaque]
pub open spec fn sealed_opt_comma(p: PState) -> PState {
    opt_comma(p)
}

#[verifier::opaque]
pub open spec fn sealed_self_param_from(p: PState) -> (Option<SelfParam>, PState) {
    self_param_from(p)
}

#[verifier::opaque]
pub open spec fn sealed_function_params_from(
    p: PState,
) -> (Option<SelfParam>, Seq<ParamV>, PState) {
    function_params_from(p)
}

#[verifier::opaque]
pub open spec fn sealed_params_tail(acc: Seq<ParamV>, p: PState) -> (Seq<ParamV>, PState) {
    params_tail(acc, p)
}

#[verifier::opaque]
pub open spec fn sealed_function_from(p: PState) -> (FunctionV, PState) {
    function_from(p)
}

#[verifier::opaque]
pub open spec fn sealed_body_from(p: PState) -> (bool, PState) {
    body_from(p)
}

#[verifier::opaque]
pub open spec fn sealed_struct_from(p: PState) -> (StructV, PState) {
    struct_from(p)
}

#[verifier::opaque]
pub open spec fn sealed_members_tail(
    fields: Seq<ParamV>,
    methods: Seq<FunctionV>,
    p: PState,
) -> (Seq<ParamV>, Seq<FunctionV>, PState) {
    members_tail(fields, methods, p)
}

#[verifier::opaque]
pub open spec fn sealed_variant_field_from(p: PState) -> (Option<Seq<char>>, TypeV, PState) {
    variant_field_from(p)
}

#[verifier::opaque]
pub open spec fn sealed_variant_fields_from(
    p: PState,
) -> (Seq<Option<Seq<char>>>, Seq<TypeV>, PState) {
    variant_fields_from(p)
}

#[verifier::opaque]
pub open spec fn sealed_variant_fields_tail(
    names: Seq<Option<Seq<char>>>,
    types: Seq<TypeV>,
    p: PState,
) -> (Seq<Option<Seq<char>>>, Seq<TypeV>, PState) {
    variant_fields_tail(names, types, p)
}

#[verifier::opaque]
pub open spec fn sealed_variant_from(p: PState) -> (VariantV, PState) {
    variant_from(p)
}

#[verifier::opaque]
pub open spec fn sealed_variants_tail(acc: Seq<VariantV>, p: PState) -> (Seq<VariantV>, PState) {
    variants_tail(acc, p)
}

#[verifier::opaque]
pub open spec fn sealed_enum_from(p: PState) -> (EnumV, PState) {
    enum_from(p)
}

#[verifier::opaque]
pub open spec fn sealed_items_tail(acc: Seq<ItemV>, p: PState) -> (Seq<ItemV>, PState) {
    items_tail(acc, p)
}

#[verifier::opaque]
pub open spec fn sealed_item_from(p: PState) -> (ItemV, PState) {
    item_from(p)
}

#[verifier::opaque]
pub open spec fn sealed_line_end(p: PState) -> PState {
    line_end(p)
}

#[verifier::opaque]
pub open spec fn sealed_directive_from(p: PState) -> (bool, PState) {
    directive_from(p)
}

#[verifier::spinoff_prover]
pub proof fn unfold_idents_from(p: PState, closing: TokenKind, what: Seq<char>)
    ensures
        sealed_idents_from(p, closing, what) == ({
            if p.at(closing) {
                (Seq::empty(), p)
            } else {
                let (name, q) = p.ident(what);
                sealed_idents_tail(seq![name], q, closing, what)
            }
        }),
{
    reveal(sealed_idents_from);
    reveal(sealed_idents_tail);
}

#[verifier::spinoff_prover]
pub proof fn unfold_idents_tail(acc: Seq<Seq<char>>, p: PState, closing: TokenKind, what: Seq<char>)
    ensures
        sealed_idents_tail(acc, p, closing, what) == ({
            if p.at(TokenKind::Comma) {
                let q = p.bump();
                if q.at(closing) {
                    (acc, q)
                } else {
                    let (name, r) = q.ident(what);
                    sealed_idents_tail(acc.push(name), r.after(q), closing, what)
                }
            } else {
                (acc, p)
            }
        }),
{
    reveal(sealed_idents_tail);
}

#[verifier::spinoff_prover]
pub proof fn unfold_uses_from(p: PState)
    ensures
        sealed_uses_from(p) == ({
            if p.at(TokenKind::Uses) {
                let q = p.bump().expect(TokenKind::LBrace, "`{`"@);
                let (names, r) = sealed_idents_from(q, TokenKind::RBrace, "effect name"@);
                (names, r.expect(TokenKind::RBrace, "`}`"@))
            } else {
                (Seq::empty(), p)
            }
        }),
{
    reveal(sealed_uses_from);
    reveal(sealed_idents_from);
}

#[verifier::spinoff_prover]
pub proof fn unfold_type_from(p: PState)
    ensures
        sealed_type_from(p) == ({
            let start = p.current_span();
            if p.depth >= MAX_PARSE_DEPTH {
                (unnamed_type(start), p.too_deep(start))
            } else {
                let q = p.deeper();
                let (t, r) = match q.kind() {
                    Some(TokenKind::Void) => (
                        TypeV { kind: TypeKindV::Void, span: start },
                        q.bump(),
                    ),
                    Some(TokenKind::LParen) => sealed_function_type_rest(start, q.bump()),
                    Some(TokenKind::Ident(name)) => sealed_named_type_rest(start, name@, q.bump()),
                    _ => (
                        unnamed_type(start),
                        q.unexpected(start, "expected a type annotation but did not find one"@),
                    ),
                };
                (t, r.at_depth(p.depth))
            }
        }),
{
    reveal(sealed_type_from);
    reveal(sealed_function_type_rest);
    reveal(sealed_named_type_rest);
}

#[verifier::spinoff_prover]
pub proof fn unfold_function_type_rest(start: Span, p: PState)
    ensures
        sealed_function_type_rest(start, p) == ({
            let (params, q) = sealed_types_from(p, TokenKind::RParen);
            let r = q.after(p).expect(TokenKind::RParen, "`)`"@).expect(TokenKind::Arrow, "`->`"@).after(
                p,
            );
            let (ret, s) = sealed_type_from(r);
            let (effects, t) = sealed_uses_from(s);
            (
                TypeV {
                    kind: TypeKindV::Function { params, effects, ret: Box::new(ret) },
                    span: between(start, t.previous_span()),
                },
                t,
            )
        }),
{
    reveal(sealed_function_type_rest);
    reveal(sealed_uses_from);
    reveal(sealed_type_from);
    reveal(sealed_types_from);
}

#[verifier::spinoff_prover]
pub proof fn unfold_named_type_rest(start: Span, name: Seq<char>, p: PState)
    ensures
        sealed_named_type_rest(start, name, p) == ({
            let (args, q) = if p.at(TokenKind::LBracket) {
                sealed_type_args_rest(p.bump())
            } else {
                (Seq::empty(), p)
            };
            let span = between(start, q.previous_span());
            let kind = if name == "tuple"@ {
                TypeKindV::Tuple(args)
            } else {
                TypeKindV::Named { name, args }
            };
            (TypeV { kind, span }, q)
        }),
{
    reveal(sealed_named_type_rest);
    reveal(sealed_type_args_rest);
}

#[verifier::spinoff_prover]
pub proof fn unfold_type_args_rest(p: PState)
    ensures
        sealed_type_args_rest(p) == ({
            let (args, q) = sealed_types_from(p, TokenKind::RBracket);
            (args, q.expect(TokenKind::RBracket, "`]`"@))
        }),
{
    reveal(sealed_type_args_rest);
    reveal(sealed_types_from);
}

#[verifier::spinoff_prover]
pub proof fn unfold_types_from(p: PState, closing: TokenKind)
    ensures
        sealed_types_from(p, closing) == ({
            if p.at(closing) {
                (Seq::empty(), p)
            } else {
                let (t, q) = sealed_type_from(p);
                sealed_types_tail(seq![t], q.after(p), closing)
            }
        }),
{
    reveal(sealed_types_from);
    reveal(sealed_type_from);
    reveal(sealed_types_tail);
}

#[verifier::spinoff_prover]
pub proof fn unfold_types_tail(acc: Seq<TypeV>, p: PState, closing: TokenKind)
    ensures
        sealed_types_tail(acc, p, closing) == ({
            if p.at(TokenKind::Comma) {
                let q = p.bump();
                if q.at(closing) {
                    (acc, q)
                } else {
                    let (t, r) = sealed_type_from(q);
                    sealed_types_tail(acc.push(t), r.after(q), closing)
                }
            } else {
                (acc, p)
            }
        }),
{
    reveal(sealed_types_tail);
    reveal(sealed_type_from);
}

#[verifier::spinoff_prover]
pub proof fn unfold_opt_type_from(p: PState)
    ensures
        sealed_opt_type_from(p) == ({
            if p.at(TokenKind::Colon) {
                let (t, q) = sealed_type_from(p.bump());
                (Some(t), q)
            } else {
                (None, p)
            }
        }),
{
    reveal(sealed_opt_type_from);
    reveal(sealed_type_from);
}

#[verifier::spinoff_prover]
pub proof fn unfold_sub_pattern_from(p: PState)
    ensures
        sealed_sub_pattern_from(p) == ({
            let start = p.current_span();
            match literal_from(p) {
                Some((lit, q)) => (SubPatternV::Literal(lit, between(start, q.previous_span())), q),
                None => match p.kind() {
                    Some(TokenKind::Underscore) => (SubPatternV::Wildcard(start), p.bump()),
                    Some(TokenKind::Ident(name)) => {
                        let q = p.bump();
                        let r = if q.at(TokenKind::LParen) || q.at(TokenKind::LBracket) {
                            q.unexpected(
                                start,
                                "nesting enum/tuple patterns is forbidden (D-SYN-06)"@,
                            ).skip_brackets(0)
                        } else {
                            q
                        };
                        (SubPatternV::BareIdent(name@, r.id(), start), r.numbered())
                    },
                    Some(TokenKind::LParen) => (
                        SubPatternV::Wildcard(start),
                        p.unexpected(
                            start,
                            "nesting enum/tuple patterns is forbidden (D-SYN-06)"@,
                        ).skip_brackets(0),
                    ),
                    _ => (
                        SubPatternV::Wildcard(start),
                        p.unexpected(start, "expected a pattern but none was found"@).bump(),
                    ),
                },
            }
        }),
{
    reveal(sealed_sub_pattern_from);
}

#[verifier::spinoff_prover]
pub proof fn unfold_sub_patterns_from(p: PState)
    ensures
        sealed_sub_patterns_from(p) == ({
            if p.at(TokenKind::RParen) {
                (Seq::empty(), p)
            } else {
                let (s, q) = sealed_sub_pattern_from(p);
                sealed_sub_patterns_tail(seq![s], q)
            }
        }),
{
    reveal(sealed_sub_patterns_from);
    reveal(sealed_sub_pattern_from);
    reveal(sealed_sub_patterns_tail);
}

#[verifier::spinoff_prover]
pub proof fn unfold_sub_patterns_tail(acc: Seq<SubPatternV>, p: PState)
    ensures
        sealed_sub_patterns_tail(acc, p) == ({
            if p.at(TokenKind::Comma) {
                let q = p.bump();
                if q.at(TokenKind::RParen) {
                    (acc, q)
                } else {
                    let (s, r) = sealed_sub_pattern_from(q);
                    sealed_sub_patterns_tail(acc.push(s), r.after(q))
                }
            } else {
                (acc, p)
            }
        }),
{
    reveal(sealed_sub_patterns_tail);
    reveal(sealed_sub_pattern_from);
}

#[verifier::spinoff_prover]
pub proof fn unfold_pattern_from(p: PState)
    ensures
        sealed_pattern_from(p) == ({
            let start = p.current_span();
            match literal_from(p) {
                Some((lit, q)) => (PatternV::Literal(lit, between(start, q.previous_span())), q),
                None => match p.kind() {
                    Some(TokenKind::Underscore) => (PatternV::Wildcard(start), p.bump()),
                    Some(TokenKind::LParen) => {
                        let (elements, q) = sealed_sub_patterns_from(p.bump());
                        let r = q.expect(TokenKind::RParen, "`)`"@);
                        (PatternV::Tuple { elements, span: between(start, r.previous_span()) }, r)
                    },
                    Some(TokenKind::Ident(name)) => {
                        let q = p.bump();
                        if q.at(TokenKind::LParen) {
                            let (fields, r) = sealed_sub_patterns_from(q.bump());
                            let s = r.expect(TokenKind::RParen, "`)`"@);
                            (
                                PatternV::Variant {
                                    name: name@,
                                    fields,
                                    span: between(start, s.previous_span()),
                                },
                                s,
                            )
                        } else {
                            (PatternV::BareIdent(name@, q.id(), start), q.numbered())
                        }
                    },
                    _ => (
                        PatternV::Wildcard(start),
                        p.unexpected(start, "expected a match pattern but none was found"@).bump(),
                    ),
                },
            }
        }),
{
    reveal(sealed_pattern_from);
    reveal(sealed_sub_patterns_from);
}

#[verifier::spinoff_prover]
pub proof fn unfold_lambda_param_from(p: PState)
    ensures
        sealed_lambda_param_from(p) == ({
            let (name, q) = p.ident("lambda parameter name"@);
            let (ty, r) = sealed_opt_type_from(q);
            (LambdaParamV { name, ty, span: between(p.current_span(), r.previous_span()) }, r)
        }),
{
    reveal(sealed_lambda_param_from);
    reveal(sealed_opt_type_from);
}

#[verifier::spinoff_prover]
pub proof fn unfold_lambda_params_from(p: PState)
    ensures
        sealed_lambda_params_from(p) == ({
            if p.at(TokenKind::RParen) {
                (Seq::empty(), p)
            } else {
                let (x, q) = sealed_lambda_param_from(p);
                sealed_lambda_params_tail(seq![x], q)
            }
        }),
{
    reveal(sealed_lambda_params_from);
    reveal(sealed_lambda_param_from);
    reveal(sealed_lambda_params_tail);
}

#[verifier::spinoff_prover]
pub proof fn unfold_lambda_params_tail(acc: Seq<LambdaParamV>, p: PState)
    ensures
        sealed_lambda_params_tail(acc, p) == ({
            if p.at(TokenKind::Comma) {
                let q = p.bump();
                if q.at(TokenKind::RParen) {
                    (acc, q)
                } else {
                    let (x, r) = sealed_lambda_param_from(q);
                    sealed_lambda_params_tail(acc.push(x), r.after(q))
                }
            } else {
                (acc, p)
            }
        }),
{
    reveal(sealed_lambda_params_tail);
    reveal(sealed_lambda_param_from);
}

#[verifier::spinoff_prover]
pub proof fn unfold_destination_from(p: PState)
    ensures
        sealed_destination_from(p) == ({
            let (name, q) = p.ident("pipe destination function name/namespace name"@);
            let (e, r) = node(q, ExprKindV::Ident(name), p.current_span());
            sealed_destination_tail(e, r)
        }),
{
    reveal(sealed_destination_from);
    reveal(sealed_destination_tail);
}

#[verifier::spinoff_prover]
pub proof fn unfold_destination_tail(e: ExprV, p: PState)
    ensures
        sealed_destination_tail(e, p) == ({
            if p.at(TokenKind::Dot) {
                let (field, q) = p.bump().ident("field/method name"@);
                let (e2, r) = node(
                    q,
                    ExprKindV::FieldAccess { target: Box::new(e), field },
                    between(e.span, q.previous_span()),
                );
                sealed_destination_tail(e2, r.after(p.bump()))
            } else {
                (e, p)
            }
        }),
{
    reveal(sealed_destination_tail);
}

#[verifier::spinoff_prover]
pub proof fn unfold_binary(op: BinaryOp, lhs: ExprV, rhs: ExprV, p: PState)
    ensures
        sealed_binary(op, lhs, rhs, p) == ({
            node(
                p,
                ExprKindV::Binary { op, lhs: Box::new(lhs), rhs: Box::new(rhs) },
                between(lhs.span, rhs.span),
            )
        }),
{
    reveal(sealed_binary);
}

#[verifier::spinoff_prover]
pub proof fn unfold_expr_from(p: PState)
    ensures
        sealed_expr_from(p) == ({
            let span = p.current_span();
            if p.depth >= MAX_PARSE_DEPTH {
                poison(p.too_deep(span), span)
            } else {
                let (e, q) = sealed_pipe_from(p.deeper());
                (e, q.at_depth(p.depth))
            }
        }),
{
    reveal(sealed_expr_from);
    reveal(sealed_pipe_from);
}

#[verifier::spinoff_prover]
pub proof fn unfold_pipe_from(p: PState)
    ensures
        sealed_pipe_from(p) == ({
            let (source, q) = sealed_logical_from(p);
            if q.at(TokenKind::PipeOp) {
                let (stages, r) = sealed_stages_tail(Seq::empty(), q.after(p));
                let end = if stages.len() > 0 {
                    stages.last().span
                } else {
                    source.span
                };
                node(
                    r,
                    ExprKindV::Pipe { source: Box::new(source), stages },
                    between(source.span, end),
                )
            } else {
                (source, q)
            }
        }),
{
    reveal(sealed_pipe_from);
    reveal(sealed_stages_tail);
    reveal(sealed_logical_from);
}

#[verifier::spinoff_prover]
pub proof fn unfold_stages_tail(acc: Seq<StageV>, p: PState)
    ensures
        sealed_stages_tail(acc, p) == ({
            if p.at(TokenKind::PipeOp) {
                let (stage, q) = sealed_stage_from(p.bump());
                sealed_stages_tail(acc.push(stage), q.after(p.bump()))
            } else {
                (acc, p)
            }
        }),
{
    reveal(sealed_stages_tail);
    reveal(sealed_stage_from);
}

#[verifier::spinoff_prover]
pub proof fn unfold_stage_from(p: PState)
    ensures
        sealed_stage_from(p) == ({
            let start = p.current_span();
            let (target, q) = sealed_destination_from(p);
            let (callee, r) = sealed_callee_rest(target, q.after(p));
            let question = r.at(TokenKind::Question);
            let u = if question {
                let v = r.bump();
                if v.no_question {
                    v.unexpected(
                        v.previous_span(),
                        "a trailing pipe-stage `?` inside a par branch (or a lambda body passed to one) is forbidden (D-PAR-03)"@,
                    )
                } else {
                    v
                }
            } else {
                r
            };
            (StageV { callee, question, span: between(start, u.previous_span()) }, u)
        }),
{
    reveal(sealed_stage_from);
    reveal(sealed_destination_from);
    reveal(sealed_callee_rest);
}

#[verifier::spinoff_prover]
pub proof fn unfold_callee_rest(target: ExprV, p: PState)
    ensures
        sealed_callee_rest(target, p) == ({
            if p.at(TokenKind::LParen) {
                let (args, _multiline, q) = sealed_args_rest(p.current_span().start.line, p.bump());
                let r = if has_placeholder(args) {
                    q
                } else {
                    q.report(
                        ErrorCode::PipePlaceholderMissing,
                        q.previous_span(),
                        "a pipe destination with arguments requires a `_` placeholder (SPEC §6.3, D-DIAG-02 E0503)"@,
                    )
                };
                (CalleeV::WithArgs { callee: Box::new(target), args }, r)
            } else {
                (CalleeV::Bare(target), p)
            }
        }),
{
    reveal(sealed_callee_rest);
    reveal(sealed_args_rest);
}

#[verifier::spinoff_prover]
pub proof fn unfold_logical_from(p: PState)
    ensures
        sealed_logical_from(p) == ({
            let (lhs, q) = sealed_and_from(p);
            sealed_or_tail(lhs, q.after(p))
        }),
{
    reveal(sealed_logical_from);
    reveal(sealed_or_tail);
    reveal(sealed_and_from);
}

#[verifier::spinoff_prover]
pub proof fn unfold_or_tail(lhs: ExprV, p: PState)
    ensures
        sealed_or_tail(lhs, p) == ({
            if p.at(TokenKind::Or) {
                let (rhs, q) = sealed_and_from(p.bump());
                let (e, r) = sealed_binary(BinaryOp::Or, lhs, rhs, q);
                sealed_or_tail(e, r.after(p.bump()))
            } else {
                (lhs, p)
            }
        }),
{
    reveal(sealed_or_tail);
    reveal(sealed_binary);
    reveal(sealed_and_from);
}

#[verifier::spinoff_prover]
pub proof fn unfold_and_from(p: PState)
    ensures
        sealed_and_from(p) == ({
            let (lhs, q) = sealed_comparison_from(p);
            sealed_and_tail(lhs, q.after(p))
        }),
{
    reveal(sealed_and_from);
    reveal(sealed_and_tail);
    reveal(sealed_comparison_from);
}

#[verifier::spinoff_prover]
pub proof fn unfold_and_tail(lhs: ExprV, p: PState)
    ensures
        sealed_and_tail(lhs, p) == ({
            if p.at(TokenKind::And) {
                let (rhs, q) = sealed_comparison_from(p.bump());
                let (e, r) = sealed_binary(BinaryOp::And, lhs, rhs, q);
                sealed_and_tail(e, r.after(p.bump()))
            } else {
                (lhs, p)
            }
        }),
{
    reveal(sealed_and_tail);
    reveal(sealed_binary);
    reveal(sealed_comparison_from);
}

#[verifier::spinoff_prover]
pub proof fn unfold_comparison_from(p: PState)
    ensures
        sealed_comparison_from(p) == ({
            let (lhs, q) = sealed_relational_from(p);
            sealed_equality_tail(lhs, q.after(p))
        }),
{
    reveal(sealed_comparison_from);
    reveal(sealed_equality_tail);
    reveal(sealed_relational_from);
}

#[verifier::spinoff_prover]
pub proof fn unfold_equality_tail(lhs: ExprV, p: PState)
    ensures
        sealed_equality_tail(lhs, p) == ({
            match equality_op(p.kind()) {
                Some(op) => {
                    let (rhs, q) = sealed_relational_from(p.bump());
                    let (e, r) = sealed_binary(op, lhs, rhs, q);
                    sealed_equality_tail(e, r.after(p.bump()))
                },
                None => (lhs, p),
            }
        }),
{
    reveal(sealed_equality_tail);
    reveal(sealed_binary);
    reveal(sealed_relational_from);
}

#[verifier::spinoff_prover]
pub proof fn unfold_relational_from(p: PState)
    ensures
        sealed_relational_from(p) == ({
            let (lhs, q) = sealed_arithmetic_from(p);
            match relational_op(q.kind()) {
                Some(op) => {
                    let (rhs, r) = sealed_arithmetic_from(q.after(p).bump());
                    sealed_binary(op, lhs, rhs, r)
                },
                None => (lhs, q),
            }
        }),
{
    reveal(sealed_relational_from);
    reveal(sealed_binary);
    reveal(sealed_arithmetic_from);
}

#[verifier::spinoff_prover]
pub proof fn unfold_arithmetic_from(p: PState)
    ensures
        sealed_arithmetic_from(p) == ({
            let (lhs, q) = sealed_term_from(p);
            sealed_additive_tail(lhs, q.after(p))
        }),
{
    reveal(sealed_arithmetic_from);
    reveal(sealed_additive_tail);
    reveal(sealed_term_from);
}

#[verifier::spinoff_prover]
pub proof fn unfold_additive_tail(lhs: ExprV, p: PState)
    ensures
        sealed_additive_tail(lhs, p) == ({
            match additive_op(p.kind()) {
                Some(op) => {
                    let (rhs, q) = sealed_term_from(p.bump());
                    let (e, r) = sealed_binary(op, lhs, rhs, q);
                    sealed_additive_tail(e, r.after(p.bump()))
                },
                None => (lhs, p),
            }
        }),
{
    reveal(sealed_additive_tail);
    reveal(sealed_binary);
    reveal(sealed_term_from);
}

#[verifier::spinoff_prover]
pub proof fn unfold_term_from(p: PState)
    ensures
        sealed_term_from(p) == ({
            let (lhs, q) = sealed_unary_from(p);
            sealed_multiplicative_tail(lhs, q.after(p))
        }),
{
    reveal(sealed_term_from);
    reveal(sealed_multiplicative_tail);
    reveal(sealed_unary_from);
}

#[verifier::spinoff_prover]
pub proof fn unfold_multiplicative_tail(lhs: ExprV, p: PState)
    ensures
        sealed_multiplicative_tail(lhs, p) == ({
            match multiplicative_op(p.kind()) {
                Some(op) => {
                    let (rhs, q) = sealed_unary_from(p.bump());
                    let (e, r) = sealed_binary(op, lhs, rhs, q);
                    sealed_multiplicative_tail(e, r.after(p.bump()))
                },
                None => (lhs, p),
            }
        }),
{
    reveal(sealed_multiplicative_tail);
    reveal(sealed_binary);
    reveal(sealed_unary_from);
}

#[verifier::spinoff_prover]
pub proof fn unfold_unary_from(p: PState)
    ensures
        sealed_unary_from(p) == ({
            let start = p.current_span();
            match unary_op(p.kind()) {
                Some(op) => {
                    let q = p.bump();
                    let (operand, r) = if q.depth >= MAX_PARSE_DEPTH {
                        poison(q.too_deep(start), start)
                    } else {
                        let (e, s) = sealed_unary_from(q.deeper());
                        (e, s.at_depth(q.depth))
                    };
                    node(
                        r,
                        ExprKindV::Unary { op, operand: Box::new(operand) },
                        between(start, operand.span),
                    )
                },
                None => sealed_postfix_from(p),
            }
        }),
{
    reveal(sealed_unary_from);
    reveal(sealed_postfix_from);
}

#[verifier::spinoff_prover]
pub proof fn unfold_postfix_from(p: PState)
    ensures
        sealed_postfix_from(p) == ({
            let (e, q) = sealed_primary_from(p);
            sealed_postfix_tail(e, q.after(p))
        }),
{
    reveal(sealed_postfix_from);
    reveal(sealed_postfix_tail);
    reveal(sealed_primary_from);
}

#[verifier::spinoff_prover]
pub proof fn unfold_postfix_tail(e: ExprV, p: PState)
    ensures
        sealed_postfix_tail(e, p) == ({
            let p1 = p.bump();
            match p.kind() {
                Some(TokenKind::Dot) => {
                    let (e2, q) = sealed_dot_rest(e, p1);
                    sealed_postfix_tail(e2, q.after(p1))
                },
                Some(TokenKind::LParen) => {
                    let (args, was_multiline, q) = sealed_args_rest(
                        p.current_span().start.line,
                        p1,
                    );
                    let (e2, r) = node(
                        q,
                        ExprKindV::Call {
                            callee: Box::new(e),
                            type_args: Seq::empty(),
                            args,
                            was_multiline,
                        },
                        between(e.span, q.previous_span()),
                    );
                    sealed_postfix_tail(e2, r.after(p1))
                },
                Some(TokenKind::LBracket) => if p.explicit_type_args() {
                    let (type_args, q) = sealed_type_args_rest(p1);
                    let q1 = q.after(p1);
                    let (args, was_multiline, r) = sealed_args_rest(
                        q1.current_span().start.line,
                        q1.bump(),
                    );
                    let (e2, s) = node(
                        r,
                        ExprKindV::Call { callee: Box::new(e), type_args, args, was_multiline },
                        between(e.span, r.previous_span()),
                    );
                    sealed_postfix_tail(e2, s.after(p1))
                } else {
                    let (index, q) = sealed_expr_from(p1);
                    let r = q.expect(TokenKind::RBracket, "`]`"@);
                    let (e2, s) = node(
                        r,
                        ExprKindV::Index { target: Box::new(e), index: Box::new(index) },
                        between(e.span, r.previous_span()),
                    );
                    sealed_postfix_tail(e2, s.after(p1))
                },
                Some(TokenKind::Question) => {
                    let q = if p1.no_question {
                        p1.unexpected(
                            p1.previous_span(),
                            "a bare `?` inside a par branch (or a lambda body passed to one) is forbidden (D-PAR-03)"@,
                        )
                    } else {
                        p1
                    };
                    let (e2, r) = node(
                        q,
                        ExprKindV::Question { target: Box::new(e) },
                        between(e.span, q.previous_span()),
                    );
                    sealed_postfix_tail(e2, r.after(p1))
                },
                _ => (e, p),
            }
        }),
{
    reveal(sealed_postfix_tail);
    reveal(sealed_type_args_rest);
    reveal(sealed_expr_from);
    reveal(sealed_dot_rest);
    reveal(sealed_args_rest);
}

#[verifier::spinoff_prover]
pub proof fn unfold_dot_rest(receiver: ExprV, p: PState)
    ensures
        sealed_dot_rest(receiver, p) == ({
            match p.kind() {
                Some(TokenKind::IntLiteral(n)) => {
                    let q = p.bump();
                    node(
                        q,
                        ExprKindV::TupleIndex { target: Box::new(receiver), index: n as u32 },
                        between(receiver.span, q.previous_span()),
                    )
                },
                Some(TokenKind::Ident(name)) => {
                    let q = p.bump();
                    let (type_args, r) = if q.explicit_type_args() {
                        sealed_type_args_rest(q.bump())
                    } else {
                        (Seq::empty(), q)
                    };
                    if r.at(TokenKind::LParen) {
                        let (args, was_multiline, s) = sealed_args_rest(
                            r.current_span().start.line,
                            r.after(q).bump(),
                        );
                        node(
                            s,
                            ExprKindV::MethodCall {
                                receiver: Box::new(receiver),
                                method: name@,
                                type_args,
                                args,
                                was_multiline,
                            },
                            between(receiver.span, s.previous_span()),
                        )
                    } else {
                        let s = if type_args.len() > 0 {
                            r.unexpected(
                                r.previous_span(),
                                "an explicit type argument list must be followed by a call `(...)`"@,
                            )
                        } else {
                            r
                        };
                        node(
                            s,
                            ExprKindV::FieldAccess { target: Box::new(receiver), field: name@ },
                            between(receiver.span, s.previous_span()),
                        )
                    }
                },
                _ => (
                    receiver,
                    p.unexpected(
                        p.current_span(),
                        "a field name, method name, or tuple index (a number) is required after `.`"@,
                    ),
                ),
            }
        }),
{
    reveal(sealed_dot_rest);
    reveal(sealed_type_args_rest);
    reveal(sealed_args_rest);
}

#[verifier::spinoff_prover]
pub proof fn unfold_primary_from(p: PState)
    ensures
        sealed_primary_from(p) == ({
            let start = p.current_span();
            let p1 = p.bump();
            match p.kind() {
                Some(TokenKind::IntLiteral(n)) => node(p1, ExprKindV::IntLit(n), start),
                Some(TokenKind::FloatLiteral(s)) => node(p1, ExprKindV::FloatLit(s@), start),
                Some(TokenKind::True) => node(p1, ExprKindV::BoolLit(true), start),
                Some(TokenKind::False) => node(p1, ExprKindV::BoolLit(false), start),
                Some(TokenKind::StringLiteral(s)) => node(p1, ExprKindV::StringLit(s@), start),
                Some(TokenKind::FString(_)) => {
                    let (segments, q) = sealed_segments_tail(Seq::empty(), p.pos, 0, p1);
                    node(q, ExprKindV::FString(segments), between(start, q.previous_span()))
                },
                Some(TokenKind::KwSelf) => node(p1, ExprKindV::Ident("self"@), start),
                Some(TokenKind::Ident(name)) => node(p1, ExprKindV::Ident(name@), start),
                Some(TokenKind::LParen) => if close_followed(
                    p.toks,
                    p.pos,
                    0,
                    TokenKind::FatArrow,
                ) {
                    sealed_lambda_rest(start, p1)
                } else {
                    sealed_paren_rest(start, p1)
                },
                Some(TokenKind::LBracket) => sealed_list_rest(start, p1),
                Some(TokenKind::LBrace) => sealed_brace_rest(start, p1),
                Some(TokenKind::If) => {
                    let (i, q) = sealed_if_rest(start, p1);
                    node(q, ExprKindV::If(Box::new(i)), i.span)
                },
                Some(TokenKind::Match) => sealed_match_rest(start, p1),
                Some(TokenKind::Par) => sealed_par_rest(start, p1),
                _ => poison(
                    p.unexpected(start, "expected an expression but did not find one"@).bump(),
                    start,
                ),
            }
        }),
{
    reveal(sealed_primary_from);
    reveal(sealed_segments_tail);
    reveal(sealed_paren_rest);
    reveal(sealed_lambda_rest);
    reveal(sealed_list_rest);
    reveal(sealed_brace_rest);
    reveal(sealed_match_rest);
    reveal(sealed_par_rest);
    reveal(sealed_if_rest);
}

#[verifier::spinoff_prover]
pub proof fn unfold_segments_tail(acc: Seq<SegmentV>, at: int, i: int, p: PState)
    ensures
        sealed_segments_tail(acc, at, i, p) == ({
            if 0 <= i < part_count(p.toks, at) {
                match p.toks[at].kind->FString_0@[i] {
                    FStringPart::Text(text) => sealed_segments_tail(
                        acc.push(SegmentV::Text(text@)),
                        at,
                        i + 1,
                        p,
                    ),
                    FStringPart::Expr(sub) => {
                        let inner = PState { toks: sub@, pos: 0, ..p };
                        let (e, q) = sealed_expr_from(inner);
                        let r = if q.pos < q.toks.len() {
                            q.unexpected(
                                q.current_span(),
                                "there are extra tokens in the f-string's expression"@,
                            )
                        } else {
                            q
                        };
                        sealed_segments_tail(
                            acc.push(SegmentV::Expr(Box::new(e))),
                            at,
                            i + 1,
                            PState { toks: p.toks, pos: p.pos, ..r },
                        )
                    },
                }
            } else {
                (acc, p)
            }
        }),
{
    reveal(sealed_segments_tail);
    reveal(sealed_expr_from);
}

#[verifier::spinoff_prover]
pub proof fn unfold_paren_rest(start: Span, p: PState)
    ensures
        sealed_paren_rest(start, p) == ({
            if p.at(TokenKind::RParen) {
                let q = p.bump();
                node(
                    q,
                    ExprKindV::TupleLit { elements: Seq::empty(), was_multiline: false },
                    between(start, q.previous_span()),
                )
            } else {
                let (first, q) = sealed_expr_from(p);
                if q.at(TokenKind::Comma) {
                    let (elements, r) = sealed_exprs_from(
                        seq![first],
                        q.after(p).bump(),
                        TokenKind::RParen,
                    );
                    let was_multiline = start.start.line != r.current_span().start.line;
                    let s = r.expect(TokenKind::RParen, "`)`"@);
                    node(
                        s,
                        ExprKindV::TupleLit { elements, was_multiline },
                        between(start, s.previous_span()),
                    )
                } else {
                    let s = q.expect(TokenKind::RParen, "`)`"@);
                    node(s, ExprKindV::Grouping(Box::new(first)), between(start, s.previous_span()))
                }
            }
        }),
{
    reveal(sealed_paren_rest);
    reveal(sealed_expr_from);
    reveal(sealed_exprs_from);
}

#[verifier::spinoff_prover]
pub proof fn unfold_exprs_from(acc: Seq<ExprV>, p: PState, closing: TokenKind)
    ensures
        sealed_exprs_from(acc, p, closing) == ({
            if p.at(closing) {
                (acc, p)
            } else {
                let (e, q) = sealed_expr_from(p);
                sealed_exprs_tail(acc.push(e), q.after(p), closing)
            }
        }),
{
    reveal(sealed_exprs_from);
    reveal(sealed_expr_from);
    reveal(sealed_exprs_tail);
}

#[verifier::spinoff_prover]
pub proof fn unfold_exprs_tail(acc: Seq<ExprV>, p: PState, closing: TokenKind)
    ensures
        sealed_exprs_tail(acc, p, closing) == ({
            if p.at(TokenKind::Comma) {
                let q = p.bump();
                if q.at(closing) {
                    (acc, q)
                } else {
                    let (e, r) = sealed_expr_from(q);
                    sealed_exprs_tail(acc.push(e), r.after(q), closing)
                }
            } else {
                (acc, p)
            }
        }),
{
    reveal(sealed_exprs_tail);
    reveal(sealed_expr_from);
}

#[verifier::spinoff_prover]
pub proof fn unfold_entry_from(p: PState)
    ensures
        sealed_entry_from(p) == ({
            let (key, q) = sealed_expr_from(p);
            let (value, r) = sealed_expr_from(q.expect(TokenKind::Colon, "`:`"@).after(p));
            ((key, value), r)
        }),
{
    reveal(sealed_entry_from);
    reveal(sealed_expr_from);
}

#[verifier::spinoff_prover]
pub proof fn unfold_entries_tail(acc: Seq<(ExprV, ExprV)>, p: PState)
    ensures
        sealed_entries_tail(acc, p) == ({
            if p.at(TokenKind::Comma) {
                let q = p.bump();
                if q.at(TokenKind::RBrace) {
                    (acc, q)
                } else {
                    let (e, r) = sealed_entry_from(q);
                    sealed_entries_tail(acc.push(e), r.after(q))
                }
            } else {
                (acc, p)
            }
        }),
{
    reveal(sealed_entries_tail);
    reveal(sealed_entry_from);
}

#[verifier::spinoff_prover]
pub proof fn unfold_lambda_rest(start: Span, p: PState)
    ensures
        sealed_lambda_rest(start, p) == ({
            let (params, q) = sealed_lambda_params_from(p);
            let r = q.after(p).expect(TokenKind::RParen, "`)`"@).expect(
                TokenKind::FatArrow,
                "`=>`"@,
            );
            let (body, s) = sealed_expr_from(r.after(p).forbidding(false));
            let t = s.forbidding(p.no_question);
            node(
                t,
                ExprKindV::Lambda { params, body: Box::new(body) },
                between(start, t.previous_span()),
            )
        }),
{
    reveal(sealed_lambda_rest);
    reveal(sealed_lambda_params_from);
    reveal(sealed_expr_from);
}

#[verifier::spinoff_prover]
pub proof fn unfold_list_rest(start: Span, p: PState)
    ensures
        sealed_list_rest(start, p) == ({
            let (elements, q) = sealed_exprs_from(Seq::empty(), p, TokenKind::RBracket);
            let was_multiline = start.start.line != q.current_span().start.line;
            let r = q.expect(TokenKind::RBracket, "`]`"@);
            node(
                r,
                ExprKindV::ListLit { elements, was_multiline },
                between(start, r.previous_span()),
            )
        }),
{
    reveal(sealed_list_rest);
    reveal(sealed_exprs_from);
}

#[verifier::spinoff_prover]
pub proof fn unfold_brace_rest(start: Span, p: PState)
    ensures
        sealed_brace_rest(start, p) == ({
            if p.at(TokenKind::RBrace) {
                let q = p.bump();
                node(
                    q,
                    ExprKindV::DictLit { entries: Seq::empty(), was_multiline: false },
                    between(start, q.previous_span()),
                )
            } else {
                let (first, q) = sealed_expr_from(p);
                if q.at(TokenKind::Colon) {
                    let (value, r) = sealed_expr_from(q.after(p).bump());
                    let (entries, s) = sealed_entries_tail(seq![(first, value)], r.after(p));
                    let was_multiline = start.start.line != s.current_span().start.line;
                    let t = s.expect(TokenKind::RBrace, "`}`"@);
                    node(
                        t,
                        ExprKindV::DictLit { entries, was_multiline },
                        between(start, t.previous_span()),
                    )
                } else {
                    let (elements, s) = sealed_exprs_tail(
                        seq![first],
                        q.after(p),
                        TokenKind::RBrace,
                    );
                    let was_multiline = start.start.line != s.current_span().start.line;
                    let t = s.expect(TokenKind::RBrace, "`}`"@);
                    node(
                        t,
                        ExprKindV::SetLit { elements, was_multiline },
                        between(start, t.previous_span()),
                    )
                }
            }
        }),
{
    reveal(sealed_brace_rest);
    reveal(sealed_expr_from);
    reveal(sealed_exprs_tail);
    reveal(sealed_entries_tail);
}

#[verifier::spinoff_prover]
pub proof fn unfold_match_rest(start: Span, p: PState)
    ensures
        sealed_match_rest(start, p) == ({
            let (scrutinee, q) = sealed_expr_from(p);
            let (arms, r) = if q.indented_ahead() {
                sealed_arms_block(Seq::empty(), q.after(p).bump().bump())
            } else {
                sealed_arms_inline(Seq::empty(), q.after(p))
            };
            node(
                r,
                ExprKindV::Match { scrutinee: Box::new(scrutinee), arms },
                between(start, r.previous_span()),
            )
        }),
{
    reveal(sealed_match_rest);
    reveal(sealed_expr_from);
    reveal(sealed_arms_block);
    reveal(sealed_arms_inline);
}

#[verifier::spinoff_prover]
pub proof fn unfold_arms_block(acc: Seq<ArmV>, p: PState)
    ensures
        sealed_arms_block(acc, p) == ({
            let q = p.newlines().after(p);
            if q.at(TokenKind::Dedent) {
                (acc, q.bump())
            } else if q.at_end() {
                (acc, q)
            } else {
                let (arm, r) = sealed_arm_from(q);
                sealed_arms_block(acc.push(arm), r.after(q.bump()))
            }
        }),
{
    reveal(sealed_arms_block);
    reveal(sealed_arm_from);
}

#[verifier::spinoff_prover]
pub proof fn unfold_arms_inline(acc: Seq<ArmV>, p: PState)
    ensures
        sealed_arms_inline(acc, p) == ({
            if p.at_pattern_start() {
                let (arm, r) = sealed_arm_from(p);
                sealed_arms_inline(acc.push(arm), r.after(p.bump()))
            } else {
                (acc, p)
            }
        }),
{
    reveal(sealed_arms_inline);
    reveal(sealed_arm_from);
}

#[verifier::spinoff_prover]
pub proof fn unfold_arm_from(p: PState)
    ensures
        sealed_arm_from(p) == ({
            let start = p.current_span();
            let (pattern, q) = sealed_pattern_from(p);
            let (body, s) = sealed_arm_body_from(q.expect(TokenKind::FatArrow, "`=>`"@).after(p));
            (
                ArmV {
                    pattern,
                    body,
                    leading_comments: Seq::<LeadingV>::empty(),
                    trailing_comment: None,
                    span: between(start, s.previous_span()),
                },
                s,
            )
        }),
{
    reveal(sealed_arm_from);
    reveal(sealed_pattern_from);
    reveal(sealed_arm_body_from);
}

#[verifier::spinoff_prover]
pub proof fn unfold_arm_body_from(p: PState)
    ensures
        sealed_arm_body_from(p) == ({
            if p.indented_ahead() {
                let (b, q) = sealed_block_from(p);
                (ArmBodyV::Block(b), q)
            } else {
                let (e, q) = sealed_expr_from(p);
                (ArmBodyV::Expr(e), q)
            }
        }),
{
    reveal(sealed_arm_body_from);
    reveal(sealed_expr_from);
    reveal(sealed_block_from);
}

#[verifier::spinoff_prover]
pub proof fn unfold_par_rest(start: Span, p: PState)
    ensures
        sealed_par_rest(start, p) == ({
            if p.at(TokenKind::LBracket) {
                sealed_par_elements(start, ParKind::List, TokenKind::RBracket, "`]`"@, p.bump())
            } else if p.at(TokenKind::LParen) {
                sealed_par_elements(start, ParKind::Tuple, TokenKind::RParen, "`)`"@, p.bump())
            } else {
                poison(p.unexpected(start, "`par` must be followed by `[` or `(`"@), start)
            }
        }),
{
    reveal(sealed_par_rest);
    reveal(sealed_par_elements);
}

#[verifier::spinoff_prover]
pub proof fn unfold_par_elements(
    start: Span,
    kind: ParKind,
    closing: TokenKind,
    closing_text: Seq<char>,
    p: PState,
)
    ensures
        sealed_par_elements(start, kind, closing, closing_text, p) == ({
            let (elements, q) = sealed_exprs_from(Seq::empty(), p.forbidding(true), closing);
            let r = q.forbidding(p.no_question).expect(closing, closing_text);
            node(r, ExprKindV::Par { kind, elements }, between(start, r.previous_span()))
        }),
{
    reveal(sealed_par_elements);
    reveal(sealed_exprs_from);
}

#[verifier::spinoff_prover]
pub proof fn unfold_args_rest(open_line: u32, p: PState)
    ensures
        sealed_args_rest(open_line, p) == ({
            let (args, q) = sealed_args_from(p);
            let close_line = q.current_span().start.line;
            (args, open_line != close_line, q.expect(TokenKind::RParen, "`)`"@))
        }),
{
    reveal(sealed_args_rest);
    reveal(sealed_args_from);
}

#[verifier::spinoff_prover]
pub proof fn unfold_args_from(p: PState)
    ensures
        sealed_args_from(p) == ({
            if p.at(TokenKind::RParen) {
                (Seq::empty(), p)
            } else {
                let (a, q) = sealed_arg_from(p);
                sealed_args_tail(seq![a], q.after(p))
            }
        }),
{
    reveal(sealed_args_from);
    reveal(sealed_args_tail);
    reveal(sealed_arg_from);
}

#[verifier::spinoff_prover]
pub proof fn unfold_args_tail(acc: Seq<ArgV>, p: PState)
    ensures
        sealed_args_tail(acc, p) == ({
            if p.at(TokenKind::Comma) {
                let q = p.bump();
                if q.at(TokenKind::RParen) {
                    (acc, q)
                } else {
                    let (a, r) = sealed_arg_from(q);
                    sealed_args_tail(acc.push(a), r.after(q))
                }
            } else {
                (acc, p)
            }
        }),
{
    reveal(sealed_args_tail);
    reveal(sealed_arg_from);
}

#[verifier::spinoff_prover]
pub proof fn unfold_arg_from(p: PState)
    ensures
        sealed_arg_from(p) == ({
            match p.kind() {
                Some(TokenKind::Underscore) => {
                    let (value, q) = node(p.bump(), ExprKindV::Ident("_"@), p.current_span());
                    (ArgV { name: None, value, is_placeholder: true }, q)
                },
                Some(TokenKind::Ident(name)) => if p.kind_at(1) == Some(TokenKind::Colon) {
                    let (value, q) = sealed_expr_from(p.bump().bump());
                    (ArgV { name: Some(name@), value, is_placeholder: false }, q)
                } else {
                    let (value, q) = sealed_expr_from(p);
                    (ArgV { name: None, value, is_placeholder: false }, q)
                },
                _ => {
                    let (value, q) = sealed_expr_from(p);
                    (ArgV { name: None, value, is_placeholder: false }, q)
                },
            }
        }),
{
    reveal(sealed_arg_from);
    reveal(sealed_expr_from);
}

#[verifier::spinoff_prover]
pub proof fn unfold_block_from(p: PState)
    ensures
        sealed_block_from(p) == ({
            let start = p.current_span();
            let q = if p.at(TokenKind::Newline) {
                p.bump()
            } else {
                p
            };
            if q.at(TokenKind::Indent) {
                let (stmts, r) = sealed_stmts_tail(Seq::empty(), q.bump());
                (BlockV { stmts, span: between(start, r.previous_span()) }, r)
            } else {
                (BlockV { stmts: Seq::empty(), span: start }, q)
            }
        }),
{
    reveal(sealed_block_from);
    reveal(sealed_stmts_tail);
}

#[verifier::spinoff_prover]
pub proof fn unfold_stmts_tail(acc: Seq<StmtV>, p: PState)
    ensures
        sealed_stmts_tail(acc, p) == ({
            let q = p.newlines().after(p);
            if q.at(TokenKind::Dedent) {
                (acc, q.bump())
            } else if q.at_end() {
                (acc, q)
            } else {
                let (s, r) = sealed_stmt_or_skip_from(q);
                sealed_stmts_tail(acc.push(s), r.after(q.bump()))
            }
        }),
{
    reveal(sealed_stmts_tail);
    reveal(sealed_stmt_or_skip_from);
}

#[verifier::spinoff_prover]
pub proof fn unfold_stmt_or_skip_from(p: PState)
    ensures
        sealed_stmt_or_skip_from(p) == ({
            let (s, q) = sealed_stmt_from(p);
            if q.pos > p.pos {
                (s, q)
            } else {
                (s, q.bump().sync(0))
            }
        }),
{
    reveal(sealed_stmt_or_skip_from);
    reveal(sealed_stmt_from);
}

#[verifier::spinoff_prover]
pub proof fn unfold_stmt_from(p: PState)
    ensures
        sealed_stmt_from(p) == ({
            let start = p.current_span();
            let (kind, q) = sealed_stmt_kind_from(p);
            (plain_stmt(kind, between(start, q.previous_span())), q)
        }),
{
    reveal(sealed_stmt_from);
    reveal(sealed_stmt_kind_from);
}

#[verifier::spinoff_prover]
pub proof fn unfold_stmt_kind_from(p: PState)
    ensures
        sealed_stmt_kind_from(p) == ({
            match p.kind() {
                Some(TokenKind::Var) => sealed_var_rest(p.bump()),
                Some(TokenKind::Return) => sealed_return_rest(p.bump()),
                Some(TokenKind::Underscore) => if p.kind_at(1) == Some(TokenKind::Eq) {
                    let (value, r) = sealed_expr_from(p.bump().bump());
                    (StmtKindV::Discard(value), r)
                } else {
                    sealed_assign_or_expr_from(p)
                },
                _ => sealed_assign_or_expr_from(p),
            }
        }),
{
    reveal(sealed_stmt_kind_from);
    reveal(sealed_expr_from);
    reveal(sealed_var_rest);
    reveal(sealed_return_rest);
    reveal(sealed_assign_or_expr_from);
}

#[verifier::spinoff_prover]
pub proof fn unfold_binding_name(p: PState, what: Seq<char>)
    ensures
        sealed_binding_name(p, what) == ({
            if p.at(TokenKind::Underscore) {
                ("_"@, p.bump())
            } else {
                p.ident(what)
            }
        }),
{
    reveal(sealed_binding_name);
}

#[verifier::spinoff_prover]
pub proof fn unfold_var_rest(p: PState)
    ensures
        sealed_var_rest(p) == ({
            let (name, q) = sealed_binding_name(p, "variable name"@);
            let (ty, r) = sealed_opt_type_from(q);
            let (value, s) = sealed_expr_from(r.expect(TokenKind::Eq, "`=`"@).after(p));
            (StmtKindV::VarDecl { name, ty, value }, s)
        }),
{
    reveal(sealed_var_rest);
    reveal(sealed_opt_type_from);
    reveal(sealed_expr_from);
    reveal(sealed_binding_name);
}

#[verifier::spinoff_prover]
pub proof fn unfold_return_rest(p: PState)
    ensures
        sealed_return_rest(p) == ({
            if p.at_end() || p.at(TokenKind::Newline) || p.at(TokenKind::Dedent) {
                (StmtKindV::Return(None), p)
            } else {
                let (value, q) = sealed_expr_from(p);
                (StmtKindV::Return(Some(value)), q)
            }
        }),
{
    reveal(sealed_return_rest);
    reveal(sealed_expr_from);
}

#[verifier::spinoff_prover]
pub proof fn unfold_assign_or_expr_from(p: PState)
    ensures
        sealed_assign_or_expr_from(p) == ({
            let (lhs, q) = sealed_expr_from(p);
            match q.kind() {
                Some(TokenKind::Colon) => sealed_annotated_rest(lhs, q.after(p).bump()),
                Some(TokenKind::Eq) => sealed_assigned_rest(lhs, q.after(p).bump()),
                _ => (StmtKindV::ExprStmt(lhs), q),
            }
        }),
{
    reveal(sealed_assign_or_expr_from);
    reveal(sealed_expr_from);
    reveal(sealed_annotated_rest);
    reveal(sealed_assigned_rest);
}

#[verifier::spinoff_prover]
pub proof fn unfold_annotated_rest(lhs: ExprV, p: PState)
    ensures
        sealed_annotated_rest(lhs, p) == ({
            let (ty, q) = sealed_type_from(p);
            let (value, r) = sealed_expr_from(q.expect(TokenKind::Eq, "`=`"@).after(p));
            match lhs.kind {
                ExprKindV::Ident(name) => (StmtKindV::NameAssign { name, ty: Some(ty), value }, r),
                _ => (
                    StmtKindV::NameAssign { name: ""@, ty: Some(ty), value },
                    r.unexpected(
                        lhs.span,
                        "the left-hand side of a type-annotated assignment must be an identifier"@,
                    ),
                ),
            }
        }),
{
    reveal(sealed_annotated_rest);
    reveal(sealed_type_from);
    reveal(sealed_expr_from);
}

#[verifier::spinoff_prover]
pub proof fn unfold_assigned_rest(lhs: ExprV, p: PState)
    ensures
        sealed_assigned_rest(lhs, p) == ({
            let (value, q) = sealed_expr_from(p);
            let r = if assignable(lhs) {
                q
            } else {
                q.unexpected(
                    lhs.span,
                    "invalid expression for the left-hand side of an assignment"@,
                )
            };
            (assignment(lhs, value), r)
        }),
{
    reveal(sealed_assigned_rest);
    reveal(sealed_expr_from);
}

#[verifier::spinoff_prover]
pub proof fn unfold_if_rest(start: Span, p: PState)
    ensures
        sealed_if_rest(start, p) == ({
            let (cond, q) = sealed_expr_from(p);
            let (then_branch, r) = sealed_branch_from(q.after(p));
            let (else_branch, s) = sealed_else_from(r.after(p));
            (
                IfV {
                    cond: Box::new(cond),
                    then_branch,
                    else_branch,
                    span: between(start, s.previous_span()),
                },
                s,
            )
        }),
{
    reveal(sealed_if_rest);
    reveal(sealed_expr_from);
    reveal(sealed_else_from);
    reveal(sealed_branch_from);
}

#[verifier::spinoff_prover]
pub proof fn unfold_else_from(p: PState)
    ensures
        sealed_else_from(p) == ({
            if p.at(TokenKind::Else) {
                let q = p.bump();
                if q.at(TokenKind::If) {
                    let (inner, r) = sealed_if_rest(q.current_span(), q.bump());
                    (ElseV::ElseIf(Box::new(inner)), r)
                } else {
                    let (b, r) = sealed_branch_from(q);
                    (ElseV::Block(b), r)
                }
            } else {
                let span = p.current_span();
                (
                    ElseV::Block(BlockV { stmts: Seq::empty(), span }),
                    p.unexpected(span, "an if expression requires else (D-SYN-03)"@).sync(0),
                )
            }
        }),
{
    reveal(sealed_else_from);
    reveal(sealed_if_rest);
    reveal(sealed_branch_from);
}

#[verifier::spinoff_prover]
pub proof fn unfold_branch_from(p: PState)
    ensures
        sealed_branch_from(p) == ({
            if p.indented_ahead() {
                sealed_block_from(p)
            } else {
                let (e, q) = sealed_expr_from(p);
                (
                    BlockV { stmts: seq![plain_stmt(StmtKindV::ExprStmt(e), e.span)], span: e.span },
                    q,
                )
            }
        }),
{
    reveal(sealed_branch_from);
    reveal(sealed_expr_from);
    reveal(sealed_block_from);
}

#[verifier::spinoff_prover]
pub proof fn unfold_generics_from(p: PState)
    ensures
        sealed_generics_from(p) == ({
            if p.at(TokenKind::LBracket) {
                let (names, q) = sealed_idents_from(
                    p.bump(),
                    TokenKind::RBracket,
                    "type parameter name"@,
                );
                (names, q.expect(TokenKind::RBracket, "`]`"@))
            } else {
                (Seq::empty(), p)
            }
        }),
{
    reveal(sealed_generics_from);
    reveal(sealed_idents_from);
}

#[verifier::spinoff_prover]
pub proof fn unfold_param_from(p: PState)
    ensures
        sealed_param_from(p) == ({
            let (name, q) = p.ident("parameter name/field name"@);
            let (ty, r) = if q.at(TokenKind::Colon) {
                sealed_type_from(q.bump())
            } else {
                (unnamed_type(q.previous_span()), q)
            };
            (ParamV { name, ty, span: between(p.current_span(), r.previous_span()) }, r)
        }),
{
    reveal(sealed_param_from);
    reveal(sealed_type_from);
}

#[verifier::spinoff_prover]
pub proof fn unfold_opt_comma(p: PState)
    ensures
        sealed_opt_comma(p) == ({
            if p.at(TokenKind::Comma) {
                p.bump()
            } else {
                p
            }
        }),
{
    reveal(sealed_opt_comma);
}

#[verifier::spinoff_prover]
pub proof fn unfold_self_param_from(p: PState)
    ensures
        sealed_self_param_from(p) == ({
            let span = p.current_span();
            if p.at(TokenKind::Var) && p.kind_at(1) == Some(TokenKind::KwSelf) {
                (Some(SelfParam { mutable: true, span }), sealed_opt_comma(p.bump().bump()))
            } else if p.at(TokenKind::KwSelf) {
                (Some(SelfParam { mutable: false, span }), sealed_opt_comma(p.bump()))
            } else {
                (None, p)
            }
        }),
{
    reveal(sealed_self_param_from);
    reveal(sealed_opt_comma);
}

#[verifier::spinoff_prover]
pub proof fn unfold_function_params_from(p: PState)
    ensures
        sealed_function_params_from(p) == ({
            if p.at(TokenKind::RParen) {
                (None, Seq::empty(), p)
            } else {
                let (self_param, q) = sealed_self_param_from(p);
                let (params, r) = sealed_params_tail(Seq::empty(), q);
                (self_param, params, r)
            }
        }),
{
    reveal(sealed_function_params_from);
    reveal(sealed_self_param_from);
    reveal(sealed_params_tail);
}

#[verifier::spinoff_prover]
pub proof fn unfold_params_tail(acc: Seq<ParamV>, p: PState)
    ensures
        sealed_params_tail(acc, p) == ({
            if p.at_end() || p.at(TokenKind::RParen) {
                (acc, p)
            } else {
                let (x, q) = sealed_param_from(p);
                if q.at(TokenKind::Comma) {
                    let r = q.after(p).bump();
                    if r.at(TokenKind::RParen) {
                        (acc.push(x), r)
                    } else {
                        sealed_params_tail(acc.push(x), r)
                    }
                } else {
                    (acc.push(x), q)
                }
            }
        }),
{
    reveal(sealed_params_tail);
    reveal(sealed_param_from);
}

#[verifier::spinoff_prover]
pub proof fn unfold_function_from(p: PState)
    ensures
        sealed_function_from(p) == ({
            let start = p.current_span();
            let (name, p1) = p.bump().ident("function name"@);
            let (generics, p2) = sealed_generics_from(p1);
            let (self_param, params, p3) = sealed_function_params_from(
                p2.expect(TokenKind::LParen, "`(`"@),
            );
            let p4 = p3.expect(TokenKind::RParen, "`)`"@).expect(
                TokenKind::Colon,
                "`:` (return type annotation)"@,
            );
            let (ret, p5) = sealed_type_from(p4);
            let (effects, p6) = sealed_uses_from(p5);
            let (body, p7) = sealed_block_from(p6);
            (
                FunctionV {
                    id: p7.id(),
                    name,
                    generics,
                    self_param,
                    params,
                    ret,
                    effects,
                    body,
                    leading_comments: Seq::<LeadingV>::empty(),
                    doc_comment: None,
                    span: between(start, p7.previous_span()),
                },
                p7.numbered(),
            )
        }),
{
    reveal(sealed_function_from);
    reveal(sealed_uses_from);
    reveal(sealed_type_from);
    reveal(sealed_block_from);
    reveal(sealed_generics_from);
    reveal(sealed_function_params_from);
}

#[verifier::spinoff_prover]
pub proof fn unfold_body_from(p: PState)
    ensures
        sealed_body_from(p) == ({
            let q = if p.at(TokenKind::Newline) {
                p.bump()
            } else {
                p
            };
            if q.at(TokenKind::Indent) {
                (true, q.bump())
            } else {
                (false, q)
            }
        }),
{
    reveal(sealed_body_from);
}

#[verifier::spinoff_prover]
pub proof fn unfold_struct_from(p: PState)
    ensures
        sealed_struct_from(p) == ({
            let start = p.current_span();
            let (name, p1) = p.bump().ident("struct name"@);
            let (generics, p2) = sealed_generics_from(p1);
            let (has_body, p3) = sealed_body_from(p2);
            let (fields, methods, p4) = if has_body {
                sealed_members_tail(Seq::empty(), Seq::empty(), p3)
            } else {
                (Seq::empty(), Seq::empty(), p3)
            };
            (
                StructV {
                    id: p4.id(),
                    name,
                    generics,
                    fields,
                    field_leading_comments: Seq::new(
                        fields.len(),
                        |i: int| Seq::<LeadingV>::empty(),
                    ),
                    field_trailing_comments: Seq::new(fields.len(), |i: int| None::<Seq<char>>),
                    methods,
                    leading_comments: Seq::<LeadingV>::empty(),
                    doc_comment: None,
                    span: between(start, p4.previous_span()),
                },
                p4.numbered(),
            )
        }),
{
    reveal(sealed_struct_from);
    reveal(sealed_generics_from);
    reveal(sealed_body_from);
    reveal(sealed_members_tail);
}

#[verifier::spinoff_prover]
pub proof fn unfold_members_tail(fields: Seq<ParamV>, methods: Seq<FunctionV>, p: PState)
    ensures
        sealed_members_tail(fields, methods, p) == ({
            let q = p.newlines().after(p);
            match q.kind() {
                Some(TokenKind::Dedent) => (fields, methods, q.bump()),
                None => (fields, methods, q),
                Some(TokenKind::Eof) => (fields, methods, q),
                Some(TokenKind::Def) => {
                    let (f, r) = sealed_function_from(q);
                    sealed_members_tail(fields, methods.push(f), r.after(q.bump()))
                },
                Some(TokenKind::Ident(_)) => {
                    let (x, r) = sealed_param_from(q);
                    sealed_members_tail(fields.push(x), methods, r.after(q.bump()))
                },
                Some(_) => {
                    let r = q.unexpected(
                        q.current_span(),
                        "expected a struct field or method definition"@,
                    ).sync(0);
                    sealed_members_tail(fields, methods, r.after(q.bump()))
                },
            }
        }),
{
    reveal(sealed_members_tail);
    reveal(sealed_param_from);
    reveal(sealed_function_from);
}

#[verifier::spinoff_prover]
pub proof fn unfold_variant_field_from(p: PState)
    ensures
        sealed_variant_field_from(p) == ({
            match p.kind() {
                Some(TokenKind::Ident(name)) => if p.kind_at(1) == Some(TokenKind::Colon) {
                    let (t, q) = sealed_type_from(p.bump().bump());
                    (Some(name@), t, q)
                } else {
                    let (t, q) = sealed_type_from(p);
                    (None, t, q)
                },
                _ => {
                    let (t, q) = sealed_type_from(p);
                    (None, t, q)
                },
            }
        }),
{
    reveal(sealed_variant_field_from);
    reveal(sealed_type_from);
}

#[verifier::spinoff_prover]
pub proof fn unfold_variant_fields_from(p: PState)
    ensures
        sealed_variant_fields_from(p) == ({
            if p.at(TokenKind::RParen) {
                (Seq::empty(), Seq::empty(), p)
            } else {
                let (n, t, q) = sealed_variant_field_from(p);
                sealed_variant_fields_tail(seq![n], seq![t], q)
            }
        }),
{
    reveal(sealed_variant_fields_from);
    reveal(sealed_variant_field_from);
    reveal(sealed_variant_fields_tail);
}

#[verifier::spinoff_prover]
pub proof fn unfold_variant_fields_tail(names: Seq<Option<Seq<char>>>, types: Seq<TypeV>, p: PState)
    ensures
        sealed_variant_fields_tail(names, types, p) == ({
            if p.at(TokenKind::Comma) {
                let q = p.bump();
                if q.at(TokenKind::RParen) {
                    (names, types, q)
                } else {
                    let (n, t, r) = sealed_variant_field_from(q);
                    sealed_variant_fields_tail(names.push(n), types.push(t), r.after(q))
                }
            } else {
                (names, types, p)
            }
        }),
{
    reveal(sealed_variant_fields_tail);
    reveal(sealed_variant_field_from);
}

#[verifier::spinoff_prover]
pub proof fn unfold_variant_from(p: PState)
    ensures
        sealed_variant_from(p) == ({
            let start = p.current_span();
            let (name, q) = p.ident("variant name"@);
            let (field_names, fields, r) = if q.at(TokenKind::LParen) {
                let (n, t, s) = sealed_variant_fields_from(q.bump());
                (n, t, s.expect(TokenKind::RParen, "`)`"@))
            } else {
                (Seq::empty(), Seq::empty(), q)
            };
            (
                VariantV {
                    name,
                    fields,
                    field_names,
                    leading_comments: Seq::<LeadingV>::empty(),
                    trailing_comment: None,
                    span: between(start, r.previous_span()),
                },
                r,
            )
        }),
{
    reveal(sealed_variant_from);
    reveal(sealed_variant_fields_from);
}

#[verifier::spinoff_prover]
pub proof fn unfold_variants_tail(acc: Seq<VariantV>, p: PState)
    ensures
        sealed_variants_tail(acc, p) == ({
            let q = p.newlines().after(p);
            match q.kind() {
                Some(TokenKind::Dedent) => (acc, q.bump()),
                None => (acc, q),
                Some(TokenKind::Eof) => (acc, q),
                Some(TokenKind::Ident(_)) => {
                    let (v, r) = sealed_variant_from(q);
                    sealed_variants_tail(acc.push(v), r.after(q.bump()))
                },
                Some(_) => {
                    let r = q.unexpected(q.current_span(), "expected an enum variant"@).sync(0);
                    sealed_variants_tail(acc, r.after(q.bump()))
                },
            }
        }),
{
    reveal(sealed_variants_tail);
    reveal(sealed_variant_from);
}

#[verifier::spinoff_prover]
pub proof fn unfold_enum_from(p: PState)
    ensures
        sealed_enum_from(p) == ({
            let start = p.current_span();
            let (name, p1) = p.bump().ident("enum name"@);
            let (generics, p2) = sealed_generics_from(p1);
            let (has_body, p3) = sealed_body_from(p2);
            let (variants, p4) = if has_body {
                sealed_variants_tail(Seq::empty(), p3)
            } else {
                (Seq::empty(), p3)
            };
            (
                EnumV {
                    id: p4.id(),
                    name,
                    generics,
                    variants,
                    leading_comments: Seq::<LeadingV>::empty(),
                    doc_comment: None,
                    span: between(start, p4.previous_span()),
                },
                p4.numbered(),
            )
        }),
{
    reveal(sealed_enum_from);
    reveal(sealed_generics_from);
    reveal(sealed_body_from);
    reveal(sealed_variants_tail);
}

#[verifier::spinoff_prover]
pub proof fn unfold_items_tail(acc: Seq<ItemV>, p: PState)
    ensures
        sealed_items_tail(acc, p) == ({
            let q = p.newlines().after(p);
            if q.at_end() || q.at(TokenKind::Dedent) {
                (acc, q)
            } else {
                let (item, r) = sealed_item_from(q);
                sealed_items_tail(acc.push(item), r.after(q.bump()))
            }
        }),
{
    reveal(sealed_items_tail);
    reveal(sealed_item_from);
}

#[verifier::spinoff_prover]
pub proof fn unfold_item_from(p: PState)
    ensures
        sealed_item_from(p) == ({
            match p.kind() {
                Some(TokenKind::Def) => {
                    let (d, q) = sealed_function_from(p);
                    (ItemV::Decl(DeclV::Function(d)), q)
                },
                Some(TokenKind::Struct) => {
                    let (d, q) = sealed_struct_from(p);
                    (ItemV::Decl(DeclV::Struct(d)), q)
                },
                Some(TokenKind::Enum) => {
                    let (d, q) = sealed_enum_from(p);
                    (ItemV::Decl(DeclV::Enum(d)), q)
                },
                _ => {
                    let (s, q) = sealed_stmt_or_skip_from(p);
                    (ItemV::Stmt(s), q)
                },
            }
        }),
{
    reveal(sealed_item_from);
    reveal(sealed_stmt_or_skip_from);
    reveal(sealed_function_from);
    reveal(sealed_struct_from);
    reveal(sealed_enum_from);
}

#[verifier::spinoff_prover]
pub proof fn unfold_line_end(p: PState)
    ensures
        sealed_line_end(p) == ({
            if p.at_end() || p.at(TokenKind::Newline) {
                p
            } else {
                sealed_line_end(p.bump())
            }
        }),
{
    reveal(sealed_line_end);
}

#[verifier::spinoff_prover]
pub proof fn unfold_directive_from(p: PState)
    ensures
        sealed_directive_from(p) == ({
            if p.at(TokenKind::Module) {
                let q = p.bump();
                if q.at(TokenKind::Newline) || q.at(TokenKind::Eof) {
                    (true, q)
                } else {
                    let r = q.report(
                        ErrorCode::ModuleDirectiveMalformed,
                        between(p.current_span(), q.current_span()),
                        "a module directive must be the bare keyword with no name (D-LEX-08)"@,
                    );
                    (true, sealed_line_end(r))
                }
            } else {
                (false, p)
            }
        }),
{
    reveal(sealed_directive_from);
    reveal(sealed_line_end);
}

#[verifier::spinoff_prover]
pub proof fn unfold_module_from(toks: Seq<Token>, file: FileId, start_id: u32)
    ensures
        module_from(toks, file, start_id) == ({
            let (is_module_directive, p) = sealed_directive_from(initial(toks, file, start_id));
            let (items, q) = sealed_items_tail(Seq::empty(), p);
            (
                ModuleV {
                    file,
                    is_module_directive,
                    items,
                    trailing_comments: Seq::<LeadingV>::empty(),
                },
                q.diags,
                wrapped(q.next_id),
            )
        }),
{
    reveal(module_from);
    reveal(sealed_directive_from);
    reveal(sealed_items_tail);
}

} // verus!
