//! What a tree is written as: the tokens that a module was read from spell it.

use super::grammar::{
    additive_op, equality_op, initial, literal_from, module_from, multiplicative_op, part_count,
    plain_stmt, relational_op, unary_op,
};
use super::sealed::{
    sealed_additive_tail, sealed_and_from, sealed_and_tail, sealed_annotated_rest, sealed_arg_from,
    sealed_args_from, sealed_args_rest, sealed_args_tail, sealed_arithmetic_from,
    sealed_arm_body_from, sealed_arm_from, sealed_arms_block, sealed_arms_inline,
    sealed_assign_or_expr_from, sealed_assigned_rest, sealed_binary, sealed_binding_name,
    sealed_block_from, sealed_body_from, sealed_brace_rest, sealed_branch_from, sealed_callee_rest,
    sealed_comparison_from, sealed_destination_from, sealed_destination_tail, sealed_directive_from,
    sealed_dot_rest, sealed_else_from, sealed_entries_tail, sealed_entry_from, sealed_enum_from,
    sealed_equality_tail, sealed_expr_from, sealed_exprs_from, sealed_exprs_tail,
    sealed_function_from, sealed_function_params_from, sealed_function_type_rest,
    sealed_generics_from, sealed_idents_from, sealed_idents_tail, sealed_if_rest, sealed_item_from,
    sealed_items_tail, sealed_lambda_param_from, sealed_lambda_params_from,
    sealed_lambda_params_tail, sealed_lambda_rest, sealed_line_end, sealed_list_rest,
    sealed_logical_from, sealed_match_rest, sealed_members_tail, sealed_multiplicative_tail,
    sealed_named_type_rest, sealed_opt_comma, sealed_opt_type_from, sealed_or_tail,
    sealed_par_elements, sealed_par_rest, sealed_param_from, sealed_params_tail, sealed_paren_rest,
    sealed_pattern_from, sealed_pipe_from, sealed_postfix_from, sealed_postfix_tail,
    sealed_primary_from, sealed_relational_from, sealed_return_rest, sealed_segments_tail,
    sealed_self_param_from, sealed_stage_from, sealed_stages_tail, sealed_stmt_from,
    sealed_stmt_kind_from, sealed_stmt_or_skip_from, sealed_stmts_tail, sealed_struct_from,
    sealed_sub_pattern_from, sealed_sub_patterns_from, sealed_sub_patterns_tail, sealed_term_from,
    sealed_type_args_rest, sealed_type_from, sealed_types_from, sealed_types_tail,
    sealed_unary_from, sealed_uses_from, sealed_var_rest, sealed_variant_field_from,
    sealed_variant_fields_from, sealed_variant_fields_tail, sealed_variant_from,
    sealed_variants_tail, unfold_additive_tail, unfold_and_from, unfold_and_tail,
    unfold_annotated_rest, unfold_arg_from, unfold_args_from, unfold_args_rest, unfold_args_tail,
    unfold_arithmetic_from, unfold_arm_body_from, unfold_arm_from, unfold_arms_block,
    unfold_arms_inline, unfold_assign_or_expr_from, unfold_assigned_rest, unfold_binary,
    unfold_binding_name, unfold_block_from, unfold_body_from, unfold_brace_rest, unfold_branch_from,
    unfold_callee_rest, unfold_comparison_from, unfold_destination_from, unfold_destination_tail,
    unfold_directive_from, unfold_dot_rest, unfold_else_from, unfold_entries_tail,
    unfold_entry_from, unfold_enum_from, unfold_equality_tail, unfold_expr_from, unfold_exprs_from,
    unfold_exprs_tail, unfold_function_from, unfold_function_params_from, unfold_function_type_rest,
    unfold_generics_from, unfold_idents_from, unfold_idents_tail, unfold_if_rest, unfold_item_from,
    unfold_items_tail, unfold_lambda_param_from, unfold_lambda_params_from,
    unfold_lambda_params_tail, unfold_lambda_rest, unfold_line_end, unfold_list_rest,
    unfold_logical_from, unfold_match_rest, unfold_members_tail, unfold_module_from,
    unfold_multiplicative_tail, unfold_named_type_rest, unfold_opt_comma, unfold_opt_type_from,
    unfold_or_tail, unfold_par_elements, unfold_par_rest, unfold_param_from, unfold_params_tail,
    unfold_paren_rest, unfold_pattern_from, unfold_pipe_from, unfold_postfix_from,
    unfold_postfix_tail, unfold_primary_from, unfold_relational_from, unfold_return_rest,
    unfold_segments_tail, unfold_self_param_from, unfold_stage_from, unfold_stages_tail,
    unfold_stmt_from, unfold_stmt_kind_from, unfold_stmt_or_skip_from, unfold_stmts_tail,
    unfold_struct_from, unfold_sub_pattern_from, unfold_sub_patterns_from, unfold_sub_patterns_tail,
    unfold_term_from, unfold_type_args_rest, unfold_type_from, unfold_types_from, unfold_types_tail,
    unfold_unary_from, unfold_uses_from, unfold_var_rest, unfold_variant_field_from,
    unfold_variant_fields_from, unfold_variant_fields_tail, unfold_variant_from,
    unfold_variants_tail,
};
use super::state::{
    between, close_followed, closer, framed, node, opener, poison, PState, MAX_PARSE_DEPTH,
};
use crate::ast::{
    ArgV, ArmBodyV, ArmV, BinaryOp, BlockV, CalleeV, DeclV, ElseV, EnumV, ExprKindV, ExprV,
    FunctionV, IfV, ItemV, LambdaParamV, LiteralV, ModuleV, ParKind, ParamV, PatternV, SegmentV,
    SelfParam, StageV, StmtKindV, StmtV, StructV, SubPatternV, TypeKindV, TypeV, UnaryOp, VariantV,
};
use crate::diagnostics::{ErrorCode, FileId, Span};
use crate::lexer::{well_lexed, FStringPart, Token, TokenKind};
use vstd::prelude::*;
use vstd::string::*;

verus! {

// ---------------------------------------------------------------------------
// Tokens
// ---------------------------------------------------------------------------

/// A token that only lays a text out: line ends, indents and dedents, commas, and the end.
pub open spec fn layout(k: TokenKind) -> bool {
    k is Newline || k is Indent || k is Dedent || k is Comma || k is Eof
}

/// The first place from `i` on whose token says something.
pub open spec fn settle(t: Seq<Token>, i: int) -> int
    decreases t.len() - i,
{
    if 0 <= i < t.len() && layout(t[i].kind) {
        settle(t, i + 1)
    } else {
        i
    }
}

/// The place behind the token of kind `k` at `i`; none where another token stands there.
pub open spec fn tok(t: Seq<Token>, k: TokenKind, i: int) -> int {
    if 0 <= i < t.len() && t[i].kind == k {
        settle(t, i + 1)
    } else {
        -1
    }
}

/// The token at `i` follows another that says something, with no layout between them.
pub open spec fn adjacent(t: Seq<Token>, i: int) -> bool {
    0 < i < t.len() && !layout(t[i - 1].kind)
}

/// A span starts where the token at `i` does.
pub open spec fn starts(s: Span, t: Seq<Token>, i: int) -> bool {
    0 <= i < t.len() && s.file == t[i].span.file && s.start == t[i].span.start
}

/// A span reaches from the start of the token at `i` to the end of the last token before `end`, or
/// of layout that follows it.
pub open spec fn spans(s: Span, t: Seq<Token>, i: int, end: int) -> bool {
    starts(s, t, i) && exists|e: int|
        0 < e <= t.len() && #[trigger] settle(t, e) == end && s.end == t[e - 1].span.end
}

/// The token that an operator is written as.
pub open spec fn binary_sign(op: BinaryOp) -> TokenKind {
    match op {
        BinaryOp::Add => TokenKind::Plus,
        BinaryOp::Sub => TokenKind::Minus,
        BinaryOp::Mul => TokenKind::Star,
        BinaryOp::Div => TokenKind::Slash,
        BinaryOp::Mod => TokenKind::Percent,
        BinaryOp::EqEq => TokenKind::EqEq,
        BinaryOp::NotEq => TokenKind::NotEq,
        BinaryOp::Lt => TokenKind::Lt,
        BinaryOp::LtEq => TokenKind::LtEq,
        BinaryOp::Gt => TokenKind::Gt,
        BinaryOp::GtEq => TokenKind::GtEq,
        BinaryOp::And => TokenKind::And,
        BinaryOp::Or => TokenKind::Or,
    }
}

pub open spec fn unary_sign(op: UnaryOp) -> TokenKind {
    match op {
        UnaryOp::Neg => TokenKind::Minus,
        UnaryOp::Not => TokenKind::Not,
    }
}

// ---------------------------------------------------------------------------
// What trees are written as
// ---------------------------------------------------------------------------

/// The place behind a name that is written at `i`; so for all that follows: the place behind what
/// a tree is written as, or none where something else stands there. The span of an expression, a
/// statement, a declaration or a parameter must reach over what it is written as. Lists take the
/// first `n` of their items, one after the other.
pub open spec fn spell_name(x: Seq<char>, t: Seq<Token>, i: int) -> int {
    if 0 <= i < t.len() && t[i].kind is Ident && t[i].kind->Ident_0@ == x {
        settle(t, i + 1)
    } else {
        -1
    }
}

pub open spec fn spell_variable(x: Seq<char>, t: Seq<Token>, i: int) -> int {
    if 0 <= i < t.len() && t[i].kind is KwSelf && x == "self"@ {
        settle(t, i + 1)
    } else {
        spell_name(x, t, i)
    }
}

pub open spec fn spell_binding(x: Seq<char>, t: Seq<Token>, i: int) -> int {
    if 0 <= i < t.len() && t[i].kind is Underscore && x == "_"@ {
        settle(t, i + 1)
    } else {
        spell_name(x, t, i)
    }
}

#[verifier::opaque]
pub open spec fn spell_literal(x: LiteralV, t: Seq<Token>, i: int) -> int {
    if !(0 <= i < t.len()) {
        -1
    } else if t[i].kind is Minus {
        if i + 1 < t.len() && match x {
            LiteralV::Int(n) => t[i + 1].kind is IntLiteral && n == -t[i + 1].kind->IntLiteral_0,
            LiteralV::Float(s) => t[i + 1].kind is FloatLiteral && s == "-"@
                + t[i + 1].kind->FloatLiteral_0@,
            _ => false,
        } {
            settle(t, i + 2)
        } else {
            -1
        }
    } else if match x {
        LiteralV::Int(n) => t[i].kind is IntLiteral && n == t[i].kind->IntLiteral_0,
        LiteralV::Float(s) => t[i].kind is FloatLiteral && s == t[i].kind->FloatLiteral_0@,
        LiteralV::Str(s) => t[i].kind is StringLiteral && s == t[i].kind->StringLiteral_0@,
        LiteralV::Bool(b) => if b {
            t[i].kind is True
        } else {
            t[i].kind is False
        },
    } {
        settle(t, i + 1)
    } else {
        -1
    }
}

#[verifier::opaque]
pub open spec fn spell_sub_pattern(x: SubPatternV, t: Seq<Token>, i: int) -> int {
    match x {
        SubPatternV::Literal(l, _) => spell_literal(l, t, i),
        SubPatternV::Wildcard(_) => tok(t, TokenKind::Underscore, i),
        SubPatternV::BareIdent(name, _, _) => spell_name(name, t, i),
    }
}

#[verifier::opaque]
pub open spec fn spell_pattern(x: PatternV, t: Seq<Token>, i: int) -> int {
    match x {
        PatternV::Literal(l, _) => spell_literal(l, t, i),
        PatternV::Wildcard(_) => tok(t, TokenKind::Underscore, i),
        PatternV::BareIdent(name, _, _) => spell_name(name, t, i),
        PatternV::Variant { name, fields, span } => tok(
            t,
            TokenKind::RParen,
            spell_sub_patterns(fields, t, tok(t, TokenKind::LParen, spell_name(name, t, i))),
        ),
        PatternV::Tuple { elements, span } => tok(
            t,
            TokenKind::RParen,
            spell_sub_patterns(elements, t, tok(t, TokenKind::LParen, i)),
        ),
    }
}

#[verifier::opaque]
pub open spec fn spell_type(x: TypeV, t: Seq<Token>, i: int) -> int
    decreases x, 0int,
{
    spell_type_kind(x.kind, t, i)
}

#[verifier::opaque]
pub open spec fn spell_type_kind(x: TypeKindV, t: Seq<Token>, i: int) -> int
    decreases x, 0int,
{
    match x {
        TypeKindV::Void => tok(t, TokenKind::Void, i),
        TypeKindV::Named { name, args } => spell_type_args(args, t, spell_name(name, t, i)),
        TypeKindV::Tuple(args) => spell_type_args(args, t, spell_name("tuple"@, t, i)),
        TypeKindV::Function { params, effects, ret } => spell_effects(
            effects,
            t,
            spell_type(
                *ret,
                t,
                tok(
                    t,
                    TokenKind::Arrow,
                    tok(t, TokenKind::RParen, spell_types(params, t, tok(t, TokenKind::LParen, i))),
                ),
            ),
        ),
    }
}

#[verifier::opaque]
pub open spec fn spell_type_args(x: Seq<TypeV>, t: Seq<Token>, i: int) -> int
    decreases x, x.len() + 2,
{
    if adjacent(t, i) && t[i].kind is LBracket {
        tok(t, TokenKind::RBracket, spell_types(x, t, tok(t, TokenKind::LBracket, i)))
    } else if x.len() == 0 {
        i
    } else {
        -1
    }
}

pub open spec fn spell_call_types(x: Seq<TypeV>, t: Seq<Token>, i: int) -> int {
    if 0 <= i < t.len() && t[i].kind is LBracket {
        tok(t, TokenKind::RBracket, spell_types(x, t, tok(t, TokenKind::LBracket, i)))
    } else if x.len() == 0 {
        i
    } else {
        -1
    }
}

pub open spec fn spell_effects(x: Seq<Seq<char>>, t: Seq<Token>, i: int) -> int {
    if adjacent(t, i) && t[i].kind is Uses {
        tok(
            t,
            TokenKind::RBrace,
            spell_names(x, t, tok(t, TokenKind::LBrace, tok(t, TokenKind::Uses, i))),
        )
    } else if x.len() == 0 {
        i
    } else {
        -1
    }
}

pub open spec fn spell_generics(x: Seq<Seq<char>>, t: Seq<Token>, i: int) -> int {
    if adjacent(t, i) && t[i].kind is LBracket {
        tok(t, TokenKind::RBracket, spell_names(x, t, tok(t, TokenKind::LBracket, i)))
    } else if x.len() == 0 {
        i
    } else {
        -1
    }
}

pub open spec fn spell_opt_type(x: Option<TypeV>, t: Seq<Token>, i: int) -> int {
    match x {
        Some(ty) => spell_type(ty, t, tok(t, TokenKind::Colon, i)),
        None => i,
    }
}

pub open spec fn spell_param(x: ParamV, t: Seq<Token>, i: int) -> int {
    let j = spell_name(x.name, t, i);
    let end = if adjacent(t, j) && t[j].kind is Colon {
        spell_type(x.ty, t, tok(t, TokenKind::Colon, j))
    } else if x.ty.kind == (TypeKindV::Named { name: ""@, args: Seq::empty() }) {
        j
    } else {
        -1
    };
    if spans(x.span, t, i, end) {
        end
    } else {
        -1
    }
}

pub open spec fn spell_lambda_param(x: LambdaParamV, t: Seq<Token>, i: int) -> int {
    spell_opt_type(x.ty, t, spell_name(x.name, t, i))
}

pub open spec fn spell_self_param(x: Option<SelfParam>, t: Seq<Token>, i: int) -> int {
    match x {
        Some(s) => if s.mutable {
            tok(t, TokenKind::KwSelf, tok(t, TokenKind::Var, i))
        } else {
            tok(t, TokenKind::KwSelf, i)
        },
        None => i,
    }
}

#[verifier::opaque]
pub open spec fn spell_expr(x: ExprV, t: Seq<Token>, i: int) -> int
    decreases x, 0int,
{
    let end = spell_kind(x.kind, t, i);
    if spans(x.span, t, i, end) {
        end
    } else {
        -1
    }
}

#[verifier::opaque]
pub open spec fn spell_entry(x: (ExprV, ExprV), t: Seq<Token>, i: int) -> int
    decreases x, 0int,
{
    spell_expr(x.1, t, tok(t, TokenKind::Colon, spell_expr(x.0, t, i)))
}

#[verifier::opaque]
pub open spec fn spell_arg(x: ArgV, t: Seq<Token>, i: int) -> int
    decreases x, 0int,
{
    if x.is_placeholder {
        if x.name is None && x.value.kind == ExprKindV::Ident("_"@) {
            tok(t, TokenKind::Underscore, i)
        } else {
            -1
        }
    } else {
        match x.name {
            Some(name) => spell_expr(x.value, t, tok(t, TokenKind::Colon, spell_name(name, t, i))),
            None => spell_expr(x.value, t, i),
        }
    }
}

#[verifier::opaque]
pub open spec fn spell_stage(x: StageV, t: Seq<Token>, i: int) -> int
    decreases x, 0int,
{
    let j = spell_callee(x.callee, t, tok(t, TokenKind::PipeOp, i));
    if x.question {
        tok(t, TokenKind::Question, j)
    } else {
        j
    }
}

#[verifier::opaque]
pub open spec fn spell_callee(x: CalleeV, t: Seq<Token>, i: int) -> int
    decreases x, 0int,
{
    match x {
        CalleeV::Bare(e) => spell_expr(e, t, i),
        CalleeV::WithArgs { callee, args } => tok(
            t,
            TokenKind::RParen,
            spell_args(args, t, tok(t, TokenKind::LParen, spell_expr(*callee, t, i))),
        ),
    }
}

#[verifier::opaque]
pub open spec fn spell_kind(x: ExprKindV, t: Seq<Token>, i: int) -> int
    decreases x, 0int,
{
    match x {
        ExprKindV::IntLit(n) => if 0 <= i < t.len() && t[i].kind is IntLiteral && t[i].kind->IntLiteral_0 == n {
            settle(t, i + 1)
        } else {
            -1
        },
        ExprKindV::FloatLit(s) => if 0 <= i < t.len() && t[i].kind is FloatLiteral && t[i].kind->FloatLiteral_0@ == s {
            settle(t, i + 1)
        } else {
            -1
        },
        ExprKindV::BoolLit(b) => if b {
            tok(t, TokenKind::True, i)
        } else {
            tok(t, TokenKind::False, i)
        },
        ExprKindV::StringLit(s) => if 0 <= i < t.len() && t[i].kind is StringLiteral && t[i].kind->StringLiteral_0@ == s {
            settle(t, i + 1)
        } else {
            -1
        },
        ExprKindV::FString(segments) => if 0 <= i < t.len() && t[i].kind is FString
            && spell_segments(segments, t[i].kind->FString_0@) {
            settle(t, i + 1)
        } else {
            -1
        },
        ExprKindV::Ident(name) => spell_variable(name, t, i),
        ExprKindV::ListLit { elements, was_multiline } => tok(
            t,
            TokenKind::RBracket,
            spell_exprs(elements, t, tok(t, TokenKind::LBracket, i)),
        ),
        ExprKindV::SetLit { elements, was_multiline } => tok(
            t,
            TokenKind::RBrace,
            spell_exprs(elements, t, tok(t, TokenKind::LBrace, i)),
        ),
        ExprKindV::TupleLit { elements, was_multiline } => tok(
            t,
            TokenKind::RParen,
            spell_exprs(elements, t, tok(t, TokenKind::LParen, i)),
        ),
        ExprKindV::DictLit { entries, was_multiline } => tok(
            t,
            TokenKind::RBrace,
            spell_entries(entries, t, tok(t, TokenKind::LBrace, i)),
        ),
        ExprKindV::Unary { op, operand } => spell_expr(*operand, t, tok(t, unary_sign(op), i)),
        ExprKindV::Binary { op, lhs, rhs } => spell_expr(
            *rhs,
            t,
            tok(t, binary_sign(op), spell_expr(*lhs, t, i)),
        ),
        ExprKindV::Call { callee, type_args, args, was_multiline } => tok(
            t,
            TokenKind::RParen,
            spell_args(
                args,
                t,
                tok(
                    t,
                    TokenKind::LParen,
                    spell_call_types(type_args, t, spell_expr(*callee, t, i)),
                ),
            ),
        ),
        ExprKindV::MethodCall { receiver, method, type_args, args, was_multiline } => tok(
            t,
            TokenKind::RParen,
            spell_args(
                args,
                t,
                tok(
                    t,
                    TokenKind::LParen,
                    spell_call_types(
                        type_args,
                        t,
                        spell_name(method, t, tok(t, TokenKind::Dot, spell_expr(*receiver, t, i))),
                    ),
                ),
            ),
        ),
        ExprKindV::FieldAccess { target, field } => spell_name(
            field,
            t,
            tok(t, TokenKind::Dot, spell_expr(*target, t, i)),
        ),
        ExprKindV::TupleIndex { target, index } => {
            let j = tok(t, TokenKind::Dot, spell_expr(*target, t, i));
            if 0 <= j < t.len() && t[j].kind is IntLiteral && t[j].kind->IntLiteral_0 == index {
                settle(t, j + 1)
            } else {
                -1
            }
        },
        ExprKindV::Index { target, index } => tok(
            t,
            TokenKind::RBracket,
            spell_expr(*index, t, tok(t, TokenKind::LBracket, spell_expr(*target, t, i))),
        ),
        ExprKindV::Question { target } => tok(t, TokenKind::Question, spell_expr(*target, t, i)),
        ExprKindV::Pipe { source, stages } => spell_stages(stages, t, spell_expr(*source, t, i)),
        ExprKindV::Lambda { params, body } => spell_expr(
            *body,
            t,
            tok(
                t,
                TokenKind::FatArrow,
                tok(
                    t,
                    TokenKind::RParen,
                    spell_lambda_params(params, t, tok(t, TokenKind::LParen, i)),
                ),
            ),
        ),
        ExprKindV::If(inner) => spell_if(*inner, t, i),
        ExprKindV::Match { scrutinee, arms } => spell_arms(
            arms,
            t,
            spell_expr(*scrutinee, t, tok(t, TokenKind::Match, i)),
        ),
        ExprKindV::Par { kind, elements } => match kind {
            ParKind::List => tok(
                t,
                TokenKind::RBracket,
                spell_exprs(elements, t, tok(t, TokenKind::LBracket, tok(t, TokenKind::Par, i))),
            ),
            ParKind::Tuple => tok(
                t,
                TokenKind::RParen,
                spell_exprs(elements, t, tok(t, TokenKind::LParen, tok(t, TokenKind::Par, i))),
            ),
        },
        ExprKindV::Grouping(inner) => tok(
            t,
            TokenKind::RParen,
            spell_expr(*inner, t, tok(t, TokenKind::LParen, i)),
        ),
    }
}

#[verifier::opaque]
pub open spec fn spell_if(x: IfV, t: Seq<Token>, i: int) -> int
    decreases x, 0int,
{
    let end = spell_else(
        x.else_branch,
        t,
        spell_block(x.then_branch, t, spell_expr(*x.cond, t, tok(t, TokenKind::If, i))),
    );
    if spans(x.span, t, i, end) {
        end
    } else {
        -1
    }
}

#[verifier::opaque]
pub open spec fn spell_else(x: ElseV, t: Seq<Token>, i: int) -> int
    decreases x, 0int,
{
    match x {
        ElseV::Block(b) => spell_block(b, t, tok(t, TokenKind::Else, i)),
        ElseV::ElseIf(inner) => spell_if(*inner, t, tok(t, TokenKind::Else, i)),
    }
}

#[verifier::opaque]
pub open spec fn spell_arm(x: ArmV, t: Seq<Token>, i: int) -> int
    decreases x, 0int,
{
    spell_arm_body(x.body, t, tok(t, TokenKind::FatArrow, spell_pattern(x.pattern, t, i)))
}

#[verifier::opaque]
pub open spec fn spell_arm_body(x: ArmBodyV, t: Seq<Token>, i: int) -> int
    decreases x, 0int,
{
    match x {
        ArmBodyV::Expr(e) => spell_expr(e, t, i),
        ArmBodyV::Block(b) => spell_block(b, t, i),
    }
}

#[verifier::opaque]
pub open spec fn spell_block(x: BlockV, t: Seq<Token>, i: int) -> int
    decreases x, 0int,
{
    spell_stmts(x.stmts, t, i)
}

#[verifier::opaque]
pub open spec fn spell_stmt(x: StmtV, t: Seq<Token>, i: int) -> int
    decreases x, 0int,
{
    let end = spell_stmt_kind(x.kind, t, i);
    if spans(x.span, t, i, end) {
        end
    } else {
        -1
    }
}

#[verifier::opaque]
pub open spec fn spell_stmt_kind(x: StmtKindV, t: Seq<Token>, i: int) -> int
    decreases x, 0int,
{
    match x {
        StmtKindV::VarDecl { name, ty, value } => spell_expr(
            value,
            t,
            tok(
                t,
                TokenKind::Eq,
                spell_opt_type(ty, t, spell_binding(name, t, tok(t, TokenKind::Var, i))),
            ),
        ),
        StmtKindV::NameAssign { name, ty, value } => spell_expr(
            value,
            t,
            tok(t, TokenKind::Eq, spell_opt_type(ty, t, spell_variable(name, t, i))),
        ),
        StmtKindV::FieldAssign { target, field, value } => spell_expr(
            value,
            t,
            tok(
                t,
                TokenKind::Eq,
                spell_name(field, t, tok(t, TokenKind::Dot, spell_expr(target, t, i))),
            ),
        ),
        StmtKindV::IndexAssign { target, index, value } => spell_expr(
            value,
            t,
            tok(
                t,
                TokenKind::Eq,
                tok(
                    t,
                    TokenKind::RBracket,
                    spell_expr(index, t, tok(t, TokenKind::LBracket, spell_expr(target, t, i))),
                ),
            ),
        ),
        StmtKindV::Discard(e) => spell_expr(
            e,
            t,
            tok(t, TokenKind::Eq, tok(t, TokenKind::Underscore, i)),
        ),
        StmtKindV::ExprStmt(e) => spell_expr(e, t, i),
        StmtKindV::Return(o) => match o {
            Some(e) => spell_expr(e, t, tok(t, TokenKind::Return, i)),
            None => tok(t, TokenKind::Return, i),
        },
    }
}

#[verifier::opaque]
pub open spec fn spell_function(x: FunctionV, t: Seq<Token>, i: int) -> int {
    let j = tok(
        t,
        TokenKind::LParen,
        spell_generics(x.generics, t, spell_name(x.name, t, tok(t, TokenKind::Def, i))),
    );
    let k = tok(
        t,
        TokenKind::Colon,
        tok(t, TokenKind::RParen, spell_params(x.params, t, spell_self_param(x.self_param, t, j))),
    );
    let end = spell_block(x.body, t, spell_effects(x.effects, t, spell_type(x.ret, t, k)));
    if spans(x.span, t, i, end) {
        end
    } else {
        -1
    }
}

#[verifier::opaque]
pub open spec fn spell_struct(x: StructV, t: Seq<Token>, i: int) -> int {
    let end = spell_members(
        x.fields,
        x.methods,
        0,
        0,
        t,
        spell_generics(x.generics, t, spell_name(x.name, t, tok(t, TokenKind::Struct, i))),
    );
    if spans(x.span, t, i, end) {
        end
    } else {
        -1
    }
}

#[verifier::opaque]
pub open spec fn spell_variant(x: VariantV, t: Seq<Token>, i: int) -> int {
    let j = spell_name(x.name, t, i);
    if adjacent(t, j) && t[j].kind is LParen {
        tok(
            t,
            TokenKind::RParen,
            spell_fields(x.field_names, x.fields, t, tok(t, TokenKind::LParen, j)),
        )
    } else if x.fields.len() == 0 {
        j
    } else {
        -1
    }
}

#[verifier::opaque]
pub open spec fn spell_enum(x: EnumV, t: Seq<Token>, i: int) -> int {
    let end = spell_variants(
        x.variants,
        t,
        spell_generics(x.generics, t, spell_name(x.name, t, tok(t, TokenKind::Enum, i))),
    );
    if spans(x.span, t, i, end) {
        end
    } else {
        -1
    }
}

#[verifier::opaque]
pub open spec fn spell_item(x: ItemV, t: Seq<Token>, i: int) -> int {
    match x {
        ItemV::Decl(DeclV::Function(f)) => spell_function(f, t, i),
        ItemV::Decl(DeclV::Struct(s)) => spell_struct(s, t, i),
        ItemV::Decl(DeclV::Enum(e)) => spell_enum(e, t, i),
        ItemV::Stmt(s) => spell_stmt(s, t, i),
    }
}

#[verifier::opaque]
pub open spec fn spell_exprs(x: Seq<ExprV>, t: Seq<Token>, i: int) -> int
    decreases x, x.len() + 1,
{
    first_exprs(x, x.len() as int, t, i)
}

#[verifier::opaque]
pub open spec fn first_exprs(x: Seq<ExprV>, n: int, t: Seq<Token>, i: int) -> int
    decreases x, n,
{
    if 0 < n <= x.len() {
        spell_expr(x[n - 1], t, first_exprs(x, n - 1, t, i))
    } else {
        i
    }
}

#[verifier::opaque]
pub open spec fn spell_entries(x: Seq<(ExprV, ExprV)>, t: Seq<Token>, i: int) -> int
    decreases x, x.len() + 1,
{
    first_entries(x, x.len() as int, t, i)
}

#[verifier::opaque]
pub open spec fn first_entries(x: Seq<(ExprV, ExprV)>, n: int, t: Seq<Token>, i: int) -> int
    decreases x, n,
{
    if 0 < n <= x.len() {
        spell_expr(
            x[n - 1].1,
            t,
            tok(t, TokenKind::Colon, spell_expr(x[n - 1].0, t, first_entries(x, n - 1, t, i))),
        )
    } else {
        i
    }
}

#[verifier::opaque]
pub open spec fn spell_args(x: Seq<ArgV>, t: Seq<Token>, i: int) -> int
    decreases x, x.len() + 1,
{
    first_args(x, x.len() as int, t, i)
}

#[verifier::opaque]
pub open spec fn first_args(x: Seq<ArgV>, n: int, t: Seq<Token>, i: int) -> int
    decreases x, n,
{
    if 0 < n <= x.len() {
        spell_arg(x[n - 1], t, first_args(x, n - 1, t, i))
    } else {
        i
    }
}

#[verifier::opaque]
pub open spec fn spell_stages(x: Seq<StageV>, t: Seq<Token>, i: int) -> int
    decreases x, x.len() + 1,
{
    first_stages(x, x.len() as int, t, i)
}

#[verifier::opaque]
pub open spec fn first_stages(x: Seq<StageV>, n: int, t: Seq<Token>, i: int) -> int
    decreases x, n,
{
    if 0 < n <= x.len() {
        spell_stage(x[n - 1], t, first_stages(x, n - 1, t, i))
    } else {
        i
    }
}

#[verifier::opaque]
pub open spec fn spell_arms(x: Seq<ArmV>, t: Seq<Token>, i: int) -> int
    decreases x, x.len() + 1,
{
    first_arms(x, x.len() as int, t, i)
}

#[verifier::opaque]
pub open spec fn first_arms(x: Seq<ArmV>, n: int, t: Seq<Token>, i: int) -> int
    decreases x, n,
{
    if 0 < n <= x.len() {
        spell_arm(x[n - 1], t, first_arms(x, n - 1, t, i))
    } else {
        i
    }
}

#[verifier::opaque]
pub open spec fn spell_stmts(x: Seq<StmtV>, t: Seq<Token>, i: int) -> int
    decreases x, x.len() + 1,
{
    first_stmts(x, x.len() as int, t, i)
}

#[verifier::opaque]
pub open spec fn first_stmts(x: Seq<StmtV>, n: int, t: Seq<Token>, i: int) -> int
    decreases x, n,
{
    if 0 < n <= x.len() {
        spell_stmt(x[n - 1], t, first_stmts(x, n - 1, t, i))
    } else {
        i
    }
}

#[verifier::opaque]
pub open spec fn spell_sub_patterns(x: Seq<SubPatternV>, t: Seq<Token>, i: int) -> int {
    first_sub_patterns(x, x.len() as int, t, i)
}

#[verifier::opaque]
pub open spec fn first_sub_patterns(x: Seq<SubPatternV>, n: int, t: Seq<Token>, i: int) -> int
    decreases n,
{
    if 0 < n <= x.len() {
        spell_sub_pattern(x[n - 1], t, first_sub_patterns(x, n - 1, t, i))
    } else {
        i
    }
}

#[verifier::opaque]
pub open spec fn spell_functions(x: Seq<FunctionV>, t: Seq<Token>, i: int) -> int {
    first_functions(x, x.len() as int, t, i)
}

#[verifier::opaque]
pub open spec fn first_functions(x: Seq<FunctionV>, n: int, t: Seq<Token>, i: int) -> int
    decreases n,
{
    if 0 < n <= x.len() {
        spell_function(x[n - 1], t, first_functions(x, n - 1, t, i))
    } else {
        i
    }
}

#[verifier::opaque]
pub open spec fn spell_items(x: Seq<ItemV>, t: Seq<Token>, i: int) -> int {
    first_items(x, x.len() as int, t, i)
}

#[verifier::opaque]
pub open spec fn first_items(x: Seq<ItemV>, n: int, t: Seq<Token>, i: int) -> int
    decreases n,
{
    if 0 < n <= x.len() {
        spell_item(x[n - 1], t, first_items(x, n - 1, t, i))
    } else {
        i
    }
}

#[verifier::opaque]
pub open spec fn spell_types(x: Seq<TypeV>, t: Seq<Token>, i: int) -> int
    decreases x, x.len() + 1,
{
    first_types(x, x.len() as int, t, i)
}

#[verifier::opaque]
pub open spec fn first_types(x: Seq<TypeV>, n: int, t: Seq<Token>, i: int) -> int
    decreases x, n,
{
    if 0 < n <= x.len() {
        spell_type(x[n - 1], t, first_types(x, n - 1, t, i))
    } else {
        i
    }
}

#[verifier::opaque]
pub open spec fn spell_params(x: Seq<ParamV>, t: Seq<Token>, i: int) -> int {
    first_params(x, x.len() as int, t, i)
}

#[verifier::opaque]
pub open spec fn first_params(x: Seq<ParamV>, n: int, t: Seq<Token>, i: int) -> int
    decreases n,
{
    if 0 < n <= x.len() {
        spell_param(x[n - 1], t, first_params(x, n - 1, t, i))
    } else {
        i
    }
}

#[verifier::opaque]
pub open spec fn spell_lambda_params(x: Seq<LambdaParamV>, t: Seq<Token>, i: int) -> int {
    first_lambda_params(x, x.len() as int, t, i)
}

#[verifier::opaque]
pub open spec fn first_lambda_params(x: Seq<LambdaParamV>, n: int, t: Seq<Token>, i: int) -> int
    decreases n,
{
    if 0 < n <= x.len() {
        spell_lambda_param(x[n - 1], t, first_lambda_params(x, n - 1, t, i))
    } else {
        i
    }
}

#[verifier::opaque]
pub open spec fn spell_names(x: Seq<Seq<char>>, t: Seq<Token>, i: int) -> int {
    first_names(x, x.len() as int, t, i)
}

#[verifier::opaque]
pub open spec fn first_names(x: Seq<Seq<char>>, n: int, t: Seq<Token>, i: int) -> int
    decreases n,
{
    if 0 < n <= x.len() {
        spell_name(x[n - 1], t, first_names(x, n - 1, t, i))
    } else {
        i
    }
}

#[verifier::opaque]
pub open spec fn spell_variants(x: Seq<VariantV>, t: Seq<Token>, i: int) -> int {
    first_variants(x, x.len() as int, t, i)
}

#[verifier::opaque]
pub open spec fn first_variants(x: Seq<VariantV>, n: int, t: Seq<Token>, i: int) -> int
    decreases n,
{
    if 0 < n <= x.len() {
        spell_variant(x[n - 1], t, first_variants(x, n - 1, t, i))
    } else {
        i
    }
}

/// The segments of an f-string are its parts.
#[verifier::opaque]
pub open spec fn spell_segments(x: Seq<SegmentV>, parts: Seq<FStringPart>) -> bool
    decreases x, 0int,
{
    x.len() == parts.len() && forall|k: int|
        0 <= k < x.len() ==> match (#[trigger] x[k], parts[k]) {
            (SegmentV::Text(a), FStringPart::Text(b)) => a == b@,
            (SegmentV::Expr(e), FStringPart::Expr(sub)) => spell_expr(*e, sub@, settle(sub@, 0))
                == settle(sub@, sub@.len() as int),
            _ => false,
        }
}

/// The fields of a variant, each with its name if it has one.
#[verifier::opaque]
pub open spec fn spell_fields(
    names: Seq<Option<Seq<char>>>,
    types: Seq<TypeV>,
    t: Seq<Token>,
    i: int,
) -> int {
    first_fields(names, types, types.len() as int, t, i)
}

#[verifier::opaque]
pub open spec fn first_fields(
    names: Seq<Option<Seq<char>>>,
    types: Seq<TypeV>,
    n: int,
    t: Seq<Token>,
    i: int,
) -> int
    decreases n,
{
    if 0 < n <= types.len() {
        spell_field(names[n - 1], types[n - 1], t, first_fields(names, types, n - 1, t, i))
    } else {
        i
    }
}

pub open spec fn spell_field(name: Option<Seq<char>>, ty: TypeV, t: Seq<Token>, i: int) -> int {
    match name {
        Some(s) => spell_type(ty, t, tok(t, TokenKind::Colon, spell_name(s, t, i))),
        None => spell_type(ty, t, i),
    }
}

/// The fields and methods of a struct from the `a`-th and the `b`-th on, in whatever order they
/// are written.
#[verifier::opaque]
pub open spec fn spell_members(
    fields: Seq<ParamV>,
    methods: Seq<FunctionV>,
    a: int,
    b: int,
    t: Seq<Token>,
    i: int,
) -> int
    decreases fields.len() - a + methods.len() - b,
{
    if 0 <= b < methods.len() && 0 <= a <= fields.len() && 0 <= i < t.len() && t[i].kind is Def {
        spell_members(fields, methods, a, b + 1, t, spell_function(methods[b], t, i))
    } else if 0 <= a < fields.len() && 0 <= b <= methods.len() {
        spell_members(fields, methods, a + 1, b, t, spell_param(fields[a], t, i))
    } else if b < methods.len() {
        -1
    } else {
        i
    }
}

/// A whole module.
pub open spec fn spell_module(m: ModuleV, t: Seq<Token>) -> int {
    spell_items(
        m.items,
        t,
        if m.is_module_directive {
            tok(t, TokenKind::Module, settle(t, 0))
        } else {
            settle(t, 0)
        },
    )
}

// ---------------------------------------------------------------------------
// One level of a tree
// ---------------------------------------------------------------------------

spec fn opened_kind(x: ExprKindV, t: Seq<Token>, i: int) -> int {
    match x {
        ExprKindV::IntLit(n) => if 0 <= i < t.len() && t[i].kind is IntLiteral && t[i].kind->IntLiteral_0 == n {
            settle(t, i + 1)
        } else {
            -1
        },
        ExprKindV::FloatLit(s) => if 0 <= i < t.len() && t[i].kind is FloatLiteral && t[i].kind->FloatLiteral_0@ == s {
            settle(t, i + 1)
        } else {
            -1
        },
        ExprKindV::BoolLit(b) => if b {
            tok(t, TokenKind::True, i)
        } else {
            tok(t, TokenKind::False, i)
        },
        ExprKindV::StringLit(s) => if 0 <= i < t.len() && t[i].kind is StringLiteral && t[i].kind->StringLiteral_0@ == s {
            settle(t, i + 1)
        } else {
            -1
        },
        ExprKindV::FString(segments) => if 0 <= i < t.len() && t[i].kind is FString
            && spell_segments(segments, t[i].kind->FString_0@) {
            settle(t, i + 1)
        } else {
            -1
        },
        ExprKindV::Ident(name) => spell_variable(name, t, i),
        ExprKindV::ListLit { elements, was_multiline } => tok(
            t,
            TokenKind::RBracket,
            spell_exprs(elements, t, tok(t, TokenKind::LBracket, i)),
        ),
        ExprKindV::SetLit { elements, was_multiline } => tok(
            t,
            TokenKind::RBrace,
            spell_exprs(elements, t, tok(t, TokenKind::LBrace, i)),
        ),
        ExprKindV::TupleLit { elements, was_multiline } => tok(
            t,
            TokenKind::RParen,
            spell_exprs(elements, t, tok(t, TokenKind::LParen, i)),
        ),
        ExprKindV::DictLit { entries, was_multiline } => tok(
            t,
            TokenKind::RBrace,
            spell_entries(entries, t, tok(t, TokenKind::LBrace, i)),
        ),
        ExprKindV::Unary { op, operand } => spell_expr(*operand, t, tok(t, unary_sign(op), i)),
        ExprKindV::Binary { op, lhs, rhs } => spell_expr(
            *rhs,
            t,
            tok(t, binary_sign(op), spell_expr(*lhs, t, i)),
        ),
        ExprKindV::Call { callee, type_args, args, was_multiline } => tok(
            t,
            TokenKind::RParen,
            spell_args(
                args,
                t,
                tok(
                    t,
                    TokenKind::LParen,
                    spell_call_types(type_args, t, spell_expr(*callee, t, i)),
                ),
            ),
        ),
        ExprKindV::MethodCall { receiver, method, type_args, args, was_multiline } => tok(
            t,
            TokenKind::RParen,
            spell_args(
                args,
                t,
                tok(
                    t,
                    TokenKind::LParen,
                    spell_call_types(
                        type_args,
                        t,
                        spell_name(method, t, tok(t, TokenKind::Dot, spell_expr(*receiver, t, i))),
                    ),
                ),
            ),
        ),
        ExprKindV::FieldAccess { target, field } => spell_name(
            field,
            t,
            tok(t, TokenKind::Dot, spell_expr(*target, t, i)),
        ),
        ExprKindV::TupleIndex { target, index } => {
            let j = tok(t, TokenKind::Dot, spell_expr(*target, t, i));
            if 0 <= j < t.len() && t[j].kind is IntLiteral && t[j].kind->IntLiteral_0 == index {
                settle(t, j + 1)
            } else {
                -1
            }
        },
        ExprKindV::Index { target, index } => tok(
            t,
            TokenKind::RBracket,
            spell_expr(*index, t, tok(t, TokenKind::LBracket, spell_expr(*target, t, i))),
        ),
        ExprKindV::Question { target } => tok(t, TokenKind::Question, spell_expr(*target, t, i)),
        ExprKindV::Pipe { source, stages } => spell_stages(stages, t, spell_expr(*source, t, i)),
        ExprKindV::Lambda { params, body } => spell_expr(
            *body,
            t,
            tok(
                t,
                TokenKind::FatArrow,
                tok(
                    t,
                    TokenKind::RParen,
                    spell_lambda_params(params, t, tok(t, TokenKind::LParen, i)),
                ),
            ),
        ),
        ExprKindV::If(inner) => spell_if(*inner, t, i),
        ExprKindV::Match { scrutinee, arms } => spell_arms(
            arms,
            t,
            spell_expr(*scrutinee, t, tok(t, TokenKind::Match, i)),
        ),
        ExprKindV::Par { kind, elements } => match kind {
            ParKind::List => tok(
                t,
                TokenKind::RBracket,
                spell_exprs(elements, t, tok(t, TokenKind::LBracket, tok(t, TokenKind::Par, i))),
            ),
            ParKind::Tuple => tok(
                t,
                TokenKind::RParen,
                spell_exprs(elements, t, tok(t, TokenKind::LParen, tok(t, TokenKind::Par, i))),
            ),
        },
        ExprKindV::Grouping(inner) => tok(
            t,
            TokenKind::RParen,
            spell_expr(*inner, t, tok(t, TokenKind::LParen, i)),
        ),
    }
}

#[verifier::spinoff_prover]
proof fn open_literal(x: LiteralV)
    ensures
        forall|t: Seq<Token>, i: int| #[trigger]
            spell_literal(x, t, i) == ({
                if !(0 <= i < t.len()) {
                    -1
                } else if t[i].kind is Minus {
                    if i + 1 < t.len() && match x {
                        LiteralV::Int(n) => t[i + 1].kind is IntLiteral && n == -t[i + 1].kind->IntLiteral_0,
                        LiteralV::Float(s) => t[i + 1].kind is FloatLiteral && s == "-"@
                            + t[i + 1].kind->FloatLiteral_0@,
                        _ => false,
                    } {
                        settle(t, i + 2)
                    } else {
                        -1
                    }
                } else if match x {
                    LiteralV::Int(n) => t[i].kind is IntLiteral && n == t[i].kind->IntLiteral_0,
                    LiteralV::Float(s) => t[i].kind is FloatLiteral && s == t[i].kind->FloatLiteral_0@,
                    LiteralV::Str(s) => t[i].kind is StringLiteral && s == t[i].kind->StringLiteral_0@,
                    LiteralV::Bool(b) => if b {
                        t[i].kind is True
                    } else {
                        t[i].kind is False
                    },
                } {
                    settle(t, i + 1)
                } else {
                    -1
                }
            }),
{
    reveal(spell_literal);
}

#[verifier::spinoff_prover]
proof fn open_sub_pattern(x: SubPatternV)
    ensures
        forall|t: Seq<Token>, i: int| #[trigger]
            spell_sub_pattern(x, t, i) == ({
                match x {
                    SubPatternV::Literal(l, _) => spell_literal(l, t, i),
                    SubPatternV::Wildcard(_) => tok(t, TokenKind::Underscore, i),
                    SubPatternV::BareIdent(name, _, _) => spell_name(name, t, i),
                }
            }),
{
    reveal(spell_sub_pattern);
}

#[verifier::spinoff_prover]
proof fn open_pattern(x: PatternV)
    ensures
        forall|t: Seq<Token>, i: int| #[trigger]
            spell_pattern(x, t, i) == ({
                match x {
                    PatternV::Literal(l, _) => spell_literal(l, t, i),
                    PatternV::Wildcard(_) => tok(t, TokenKind::Underscore, i),
                    PatternV::BareIdent(name, _, _) => spell_name(name, t, i),
                    PatternV::Variant { name, fields, span } => tok(
                        t,
                        TokenKind::RParen,
                        spell_sub_patterns(
                            fields,
                            t,
                            tok(t, TokenKind::LParen, spell_name(name, t, i)),
                        ),
                    ),
                    PatternV::Tuple { elements, span } => tok(
                        t,
                        TokenKind::RParen,
                        spell_sub_patterns(elements, t, tok(t, TokenKind::LParen, i)),
                    ),
                }
            }),
{
    reveal(spell_pattern);
}

#[verifier::spinoff_prover]
proof fn open_type(x: TypeV)
    ensures
        forall|t: Seq<Token>, i: int| #[trigger]
            spell_type(x, t, i) == ({
                spell_type_kind(x.kind, t, i)
            }),
{
    reveal(spell_type);
    reveal(spell_type_kind);
}

#[verifier::spinoff_prover]
proof fn open_type_kind(x: TypeKindV)
    ensures
        forall|t: Seq<Token>, i: int| #[trigger]
            spell_type_kind(x, t, i) == ({
                match x {
                    TypeKindV::Void => tok(t, TokenKind::Void, i),
                    TypeKindV::Named { name, args } => spell_type_args(
                        args,
                        t,
                        spell_name(name, t, i),
                    ),
                    TypeKindV::Tuple(args) => spell_type_args(args, t, spell_name("tuple"@, t, i)),
                    TypeKindV::Function { params, effects, ret } => spell_effects(
                        effects,
                        t,
                        spell_type(
                            *ret,
                            t,
                            tok(
                                t,
                                TokenKind::Arrow,
                                tok(
                                    t,
                                    TokenKind::RParen,
                                    spell_types(params, t, tok(t, TokenKind::LParen, i)),
                                ),
                            ),
                        ),
                    ),
                }
            }),
{
    reveal(spell_type_kind);
    reveal(spell_type_args);
    reveal(spell_type);
    reveal(spell_types);
}

#[verifier::spinoff_prover]
proof fn open_type_args(x: Seq<TypeV>)
    ensures
        forall|t: Seq<Token>, i: int| #[trigger]
            spell_type_args(x, t, i) == ({
                if adjacent(t, i) && t[i].kind is LBracket {
                    tok(t, TokenKind::RBracket, spell_types(x, t, tok(t, TokenKind::LBracket, i)))
                } else if x.len() == 0 {
                    i
                } else {
                    -1
                }
            }),
{
    reveal(spell_type_args);
    reveal(spell_types);
}

#[verifier::spinoff_prover]
proof fn open_expr(x: ExprV)
    ensures
        forall|t: Seq<Token>, i: int| #[trigger]
            spell_expr(x, t, i) == ({
                let end = spell_kind(x.kind, t, i);
                if spans(x.span, t, i, end) {
                    end
                } else {
                    -1
                }
            }),
{
    reveal(spell_expr);
    reveal(spell_kind);
}

#[verifier::spinoff_prover]
proof fn open_entry(x: (ExprV, ExprV))
    ensures
        forall|t: Seq<Token>, i: int| #[trigger]
            spell_entry(x, t, i) == ({
                spell_expr(x.1, t, tok(t, TokenKind::Colon, spell_expr(x.0, t, i)))
            }),
{
    reveal(spell_entry);
    reveal(spell_expr);
}

#[verifier::spinoff_prover]
proof fn open_arg(x: ArgV)
    ensures
        forall|t: Seq<Token>, i: int| #[trigger]
            spell_arg(x, t, i) == ({
                if x.is_placeholder {
                    if x.name is None && x.value.kind == ExprKindV::Ident("_"@) {
                        tok(t, TokenKind::Underscore, i)
                    } else {
                        -1
                    }
                } else {
                    match x.name {
                        Some(name) => spell_expr(
                            x.value,
                            t,
                            tok(t, TokenKind::Colon, spell_name(name, t, i)),
                        ),
                        None => spell_expr(x.value, t, i),
                    }
                }
            }),
{
    reveal(spell_arg);
    reveal(spell_expr);
}

#[verifier::spinoff_prover]
proof fn open_stage(x: StageV)
    ensures
        forall|t: Seq<Token>, i: int| #[trigger]
            spell_stage(x, t, i) == ({
                let j = spell_callee(x.callee, t, tok(t, TokenKind::PipeOp, i));
                if x.question {
                    tok(t, TokenKind::Question, j)
                } else {
                    j
                }
            }),
{
    reveal(spell_stage);
    reveal(spell_callee);
}

#[verifier::spinoff_prover]
proof fn open_callee(x: CalleeV)
    ensures
        forall|t: Seq<Token>, i: int| #[trigger]
            spell_callee(x, t, i) == ({
                match x {
                    CalleeV::Bare(e) => spell_expr(e, t, i),
                    CalleeV::WithArgs { callee, args } => tok(
                        t,
                        TokenKind::RParen,
                        spell_args(args, t, tok(t, TokenKind::LParen, spell_expr(*callee, t, i))),
                    ),
                }
            }),
{
    reveal(spell_callee);
    reveal(spell_expr);
    reveal(spell_args);
}

#[verifier::spinoff_prover]
proof fn open_kind(x: ExprKindV)
    ensures
        forall|t: Seq<Token>, i: int| #[trigger]
            spell_kind(x, t, i) == opened_kind(x, t, i),
{
    reveal(spell_kind);
    reveal(spell_segments);
    reveal(spell_exprs);
    reveal(spell_entries);
    reveal(spell_expr);
    reveal(spell_args);
    reveal(spell_stages);
    reveal(spell_if);
    reveal(spell_arms);
}

#[verifier::spinoff_prover]
proof fn open_if(x: IfV)
    ensures
        forall|t: Seq<Token>, i: int| #[trigger]
            spell_if(x, t, i) == ({
                let end = spell_else(
                    x.else_branch,
                    t,
                    spell_block(x.then_branch, t, spell_expr(*x.cond, t, tok(t, TokenKind::If, i))),
                );
                if spans(x.span, t, i, end) {
                    end
                } else {
                    -1
                }
            }),
{
    reveal(spell_if);
    reveal(spell_else);
    reveal(spell_block);
    reveal(spell_expr);
}

#[verifier::spinoff_prover]
proof fn open_else(x: ElseV)
    ensures
        forall|t: Seq<Token>, i: int| #[trigger]
            spell_else(x, t, i) == ({
                match x {
                    ElseV::Block(b) => spell_block(b, t, tok(t, TokenKind::Else, i)),
                    ElseV::ElseIf(inner) => spell_if(*inner, t, tok(t, TokenKind::Else, i)),
                }
            }),
{
    reveal(spell_else);
    reveal(spell_block);
    reveal(spell_if);
}

#[verifier::spinoff_prover]
proof fn open_arm(x: ArmV)
    ensures
        forall|t: Seq<Token>, i: int| #[trigger]
            spell_arm(x, t, i) == ({
                spell_arm_body(
                    x.body,
                    t,
                    tok(t, TokenKind::FatArrow, spell_pattern(x.pattern, t, i)),
                )
            }),
{
    reveal(spell_arm);
    reveal(spell_arm_body);
}

#[verifier::spinoff_prover]
proof fn open_arm_body(x: ArmBodyV)
    ensures
        forall|t: Seq<Token>, i: int| #[trigger]
            spell_arm_body(x, t, i) == ({
                match x {
                    ArmBodyV::Expr(e) => spell_expr(e, t, i),
                    ArmBodyV::Block(b) => spell_block(b, t, i),
                }
            }),
{
    reveal(spell_arm_body);
    reveal(spell_expr);
    reveal(spell_block);
}

#[verifier::spinoff_prover]
proof fn open_block(x: BlockV)
    ensures
        forall|t: Seq<Token>, i: int| #[trigger]
            spell_block(x, t, i) == ({
                spell_stmts(x.stmts, t, i)
            }),
{
    reveal(spell_block);
    reveal(spell_stmts);
}

#[verifier::spinoff_prover]
proof fn open_stmt(x: StmtV)
    ensures
        forall|t: Seq<Token>, i: int| #[trigger]
            spell_stmt(x, t, i) == ({
                let end = spell_stmt_kind(x.kind, t, i);
                if spans(x.span, t, i, end) {
                    end
                } else {
                    -1
                }
            }),
{
    reveal(spell_stmt);
    reveal(spell_stmt_kind);
}

#[verifier::spinoff_prover]
proof fn open_stmt_kind(x: StmtKindV)
    ensures
        forall|t: Seq<Token>, i: int| #[trigger]
            spell_stmt_kind(x, t, i) == ({
                match x {
                    StmtKindV::VarDecl { name, ty, value } => spell_expr(
                        value,
                        t,
                        tok(
                            t,
                            TokenKind::Eq,
                            spell_opt_type(
                                ty,
                                t,
                                spell_binding(name, t, tok(t, TokenKind::Var, i)),
                            ),
                        ),
                    ),
                    StmtKindV::NameAssign { name, ty, value } => spell_expr(
                        value,
                        t,
                        tok(t, TokenKind::Eq, spell_opt_type(ty, t, spell_variable(name, t, i))),
                    ),
                    StmtKindV::FieldAssign { target, field, value } => spell_expr(
                        value,
                        t,
                        tok(
                            t,
                            TokenKind::Eq,
                            spell_name(field, t, tok(t, TokenKind::Dot, spell_expr(target, t, i))),
                        ),
                    ),
                    StmtKindV::IndexAssign { target, index, value } => spell_expr(
                        value,
                        t,
                        tok(
                            t,
                            TokenKind::Eq,
                            tok(
                                t,
                                TokenKind::RBracket,
                                spell_expr(
                                    index,
                                    t,
                                    tok(t, TokenKind::LBracket, spell_expr(target, t, i)),
                                ),
                            ),
                        ),
                    ),
                    StmtKindV::Discard(e) => spell_expr(
                        e,
                        t,
                        tok(t, TokenKind::Eq, tok(t, TokenKind::Underscore, i)),
                    ),
                    StmtKindV::ExprStmt(e) => spell_expr(e, t, i),
                    StmtKindV::Return(o) => match o {
                        Some(e) => spell_expr(e, t, tok(t, TokenKind::Return, i)),
                        None => tok(t, TokenKind::Return, i),
                    },
                }
            }),
{
    reveal(spell_stmt_kind);
    reveal(spell_expr);
}

#[verifier::spinoff_prover]
proof fn open_function(x: FunctionV)
    ensures
        forall|t: Seq<Token>, i: int| #[trigger]
            spell_function(x, t, i) == ({
                let j = tok(
                    t,
                    TokenKind::LParen,
                    spell_generics(x.generics, t, spell_name(x.name, t, tok(t, TokenKind::Def, i))),
                );
                let k = tok(
                    t,
                    TokenKind::Colon,
                    tok(
                        t,
                        TokenKind::RParen,
                        spell_params(x.params, t, spell_self_param(x.self_param, t, j)),
                    ),
                );
                let end = spell_block(
                    x.body,
                    t,
                    spell_effects(x.effects, t, spell_type(x.ret, t, k)),
                );
                if spans(x.span, t, i, end) {
                    end
                } else {
                    -1
                }
            }),
{
    reveal(spell_function);
}

#[verifier::spinoff_prover]
proof fn open_struct(x: StructV)
    ensures
        forall|t: Seq<Token>, i: int| #[trigger]
            spell_struct(x, t, i) == ({
                let end = spell_members(
                    x.fields,
                    x.methods,
                    0,
                    0,
                    t,
                    spell_generics(
                        x.generics,
                        t,
                        spell_name(x.name, t, tok(t, TokenKind::Struct, i)),
                    ),
                );
                if spans(x.span, t, i, end) {
                    end
                } else {
                    -1
                }
            }),
{
    reveal(spell_struct);
}

#[verifier::spinoff_prover]
proof fn open_variant(x: VariantV)
    ensures
        forall|t: Seq<Token>, i: int| #[trigger]
            spell_variant(x, t, i) == ({
                let j = spell_name(x.name, t, i);
                if adjacent(t, j) && t[j].kind is LParen {
                    tok(
                        t,
                        TokenKind::RParen,
                        spell_fields(x.field_names, x.fields, t, tok(t, TokenKind::LParen, j)),
                    )
                } else if x.fields.len() == 0 {
                    j
                } else {
                    -1
                }
            }),
{
    reveal(spell_variant);
}

#[verifier::spinoff_prover]
proof fn open_enum(x: EnumV)
    ensures
        forall|t: Seq<Token>, i: int| #[trigger]
            spell_enum(x, t, i) == ({
                let end = spell_variants(
                    x.variants,
                    t,
                    spell_generics(
                        x.generics,
                        t,
                        spell_name(x.name, t, tok(t, TokenKind::Enum, i)),
                    ),
                );
                if spans(x.span, t, i, end) {
                    end
                } else {
                    -1
                }
            }),
{
    reveal(spell_enum);
}

#[verifier::spinoff_prover]
proof fn open_item(x: ItemV)
    ensures
        forall|t: Seq<Token>, i: int| #[trigger]
            spell_item(x, t, i) == ({
                match x {
                    ItemV::Decl(DeclV::Function(f)) => spell_function(f, t, i),
                    ItemV::Decl(DeclV::Struct(s)) => spell_struct(s, t, i),
                    ItemV::Decl(DeclV::Enum(e)) => spell_enum(e, t, i),
                    ItemV::Stmt(s) => spell_stmt(s, t, i),
                }
            }),
{
    reveal(spell_item);
}

proof fn lemma_first_exprs(x: Seq<ExprV>, e: ExprV, n: int, t: Seq<Token>, i: int)
    requires
        0 <= n <= x.len(),
    ensures
        first_exprs(x.push(e), n, t, i) == first_exprs(x, n, t, i),
    decreases n,
{
    reveal(spell_exprs);
    reveal(first_exprs);
    reveal(spell_expr);
    if n > 0 {
        lemma_first_exprs(x, e, n - 1, t, i);
        assert(x.push(e)[n - 1] == x[n - 1]);
    }
}

#[verifier::spinoff_prover]
proof fn lemma_list_exprs()
    ensures
        forall|t: Seq<Token>, i: int| #[trigger] spell_exprs(Seq::empty(), t, i) == i,
        forall|x: Seq<ExprV>, e: ExprV, t: Seq<Token>, i: int| #[trigger]
            spell_exprs(x.push(e), t, i) == spell_expr(e, t, spell_exprs(x, t, i)),
{
    reveal(spell_exprs);
    reveal(first_exprs);
    reveal(spell_expr);
    assert forall|x: Seq<ExprV>, e: ExprV, t: Seq<Token>, i: int| #[trigger]
        spell_exprs(x.push(e), t, i) == spell_expr(e, t, spell_exprs(x, t, i)) by {
        lemma_first_exprs(x, e, x.len() as int, t, i);
        assert(x.push(e)[x.len() as int] == e);
    }
}

proof fn lemma_first_entries(
    x: Seq<(ExprV, ExprV)>,
    e: (ExprV, ExprV),
    n: int,
    t: Seq<Token>,
    i: int,
)
    requires
        0 <= n <= x.len(),
    ensures
        first_entries(x.push(e), n, t, i) == first_entries(x, n, t, i),
    decreases n,
{
    reveal(spell_entries);
    reveal(first_entries);
    reveal(spell_expr);
    if n > 0 {
        lemma_first_entries(x, e, n - 1, t, i);
        assert(x.push(e)[n - 1] == x[n - 1]);
    }
}

#[verifier::spinoff_prover]
proof fn lemma_list_entries()
    ensures
        forall|t: Seq<Token>, i: int| #[trigger] spell_entries(Seq::empty(), t, i) == i,
        forall|x: Seq<(ExprV, ExprV)>, e: (ExprV, ExprV), t: Seq<Token>, i: int| #[trigger]
            spell_entries(x.push(e), t, i) == spell_entry(e, t, spell_entries(x, t, i)),
{
    reveal(spell_entries);
    reveal(first_entries);
    reveal(spell_expr);
    reveal(spell_entry);
    assert forall|x: Seq<(ExprV, ExprV)>, e: (ExprV, ExprV), t: Seq<Token>, i: int| #[trigger]
        spell_entries(x.push(e), t, i) == spell_entry(e, t, spell_entries(x, t, i)) by {
        lemma_first_entries(x, e, x.len() as int, t, i);
        assert(x.push(e)[x.len() as int] == e);
    }
}

proof fn lemma_first_args(x: Seq<ArgV>, e: ArgV, n: int, t: Seq<Token>, i: int)
    requires
        0 <= n <= x.len(),
    ensures
        first_args(x.push(e), n, t, i) == first_args(x, n, t, i),
    decreases n,
{
    reveal(spell_args);
    reveal(first_args);
    reveal(spell_arg);
    if n > 0 {
        lemma_first_args(x, e, n - 1, t, i);
        assert(x.push(e)[n - 1] == x[n - 1]);
    }
}

#[verifier::spinoff_prover]
proof fn lemma_list_args()
    ensures
        forall|t: Seq<Token>, i: int| #[trigger] spell_args(Seq::empty(), t, i) == i,
        forall|x: Seq<ArgV>, e: ArgV, t: Seq<Token>, i: int| #[trigger]
            spell_args(x.push(e), t, i) == spell_arg(e, t, spell_args(x, t, i)),
{
    reveal(spell_args);
    reveal(first_args);
    reveal(spell_arg);
    assert forall|x: Seq<ArgV>, e: ArgV, t: Seq<Token>, i: int| #[trigger]
        spell_args(x.push(e), t, i) == spell_arg(e, t, spell_args(x, t, i)) by {
        lemma_first_args(x, e, x.len() as int, t, i);
        assert(x.push(e)[x.len() as int] == e);
    }
}

proof fn lemma_first_stages(x: Seq<StageV>, e: StageV, n: int, t: Seq<Token>, i: int)
    requires
        0 <= n <= x.len(),
    ensures
        first_stages(x.push(e), n, t, i) == first_stages(x, n, t, i),
    decreases n,
{
    reveal(spell_stages);
    reveal(first_stages);
    reveal(spell_stage);
    if n > 0 {
        lemma_first_stages(x, e, n - 1, t, i);
        assert(x.push(e)[n - 1] == x[n - 1]);
    }
}

#[verifier::spinoff_prover]
proof fn lemma_list_stages()
    ensures
        forall|t: Seq<Token>, i: int| #[trigger] spell_stages(Seq::empty(), t, i) == i,
        forall|x: Seq<StageV>, e: StageV, t: Seq<Token>, i: int| #[trigger]
            spell_stages(x.push(e), t, i) == spell_stage(e, t, spell_stages(x, t, i)),
{
    reveal(spell_stages);
    reveal(first_stages);
    reveal(spell_stage);
    assert forall|x: Seq<StageV>, e: StageV, t: Seq<Token>, i: int| #[trigger]
        spell_stages(x.push(e), t, i) == spell_stage(e, t, spell_stages(x, t, i)) by {
        lemma_first_stages(x, e, x.len() as int, t, i);
        assert(x.push(e)[x.len() as int] == e);
    }
}

proof fn lemma_first_arms(x: Seq<ArmV>, e: ArmV, n: int, t: Seq<Token>, i: int)
    requires
        0 <= n <= x.len(),
    ensures
        first_arms(x.push(e), n, t, i) == first_arms(x, n, t, i),
    decreases n,
{
    reveal(spell_arms);
    reveal(first_arms);
    reveal(spell_arm);
    if n > 0 {
        lemma_first_arms(x, e, n - 1, t, i);
        assert(x.push(e)[n - 1] == x[n - 1]);
    }
}

#[verifier::spinoff_prover]
proof fn lemma_list_arms()
    ensures
        forall|t: Seq<Token>, i: int| #[trigger] spell_arms(Seq::empty(), t, i) == i,
        forall|x: Seq<ArmV>, e: ArmV, t: Seq<Token>, i: int| #[trigger]
            spell_arms(x.push(e), t, i) == spell_arm(e, t, spell_arms(x, t, i)),
{
    reveal(spell_arms);
    reveal(first_arms);
    reveal(spell_arm);
    assert forall|x: Seq<ArmV>, e: ArmV, t: Seq<Token>, i: int| #[trigger]
        spell_arms(x.push(e), t, i) == spell_arm(e, t, spell_arms(x, t, i)) by {
        lemma_first_arms(x, e, x.len() as int, t, i);
        assert(x.push(e)[x.len() as int] == e);
    }
}

proof fn lemma_first_stmts(x: Seq<StmtV>, e: StmtV, n: int, t: Seq<Token>, i: int)
    requires
        0 <= n <= x.len(),
    ensures
        first_stmts(x.push(e), n, t, i) == first_stmts(x, n, t, i),
    decreases n,
{
    reveal(spell_stmts);
    reveal(first_stmts);
    reveal(spell_stmt);
    if n > 0 {
        lemma_first_stmts(x, e, n - 1, t, i);
        assert(x.push(e)[n - 1] == x[n - 1]);
    }
}

#[verifier::spinoff_prover]
proof fn lemma_list_stmts()
    ensures
        forall|t: Seq<Token>, i: int| #[trigger] spell_stmts(Seq::empty(), t, i) == i,
        forall|x: Seq<StmtV>, e: StmtV, t: Seq<Token>, i: int| #[trigger]
            spell_stmts(x.push(e), t, i) == spell_stmt(e, t, spell_stmts(x, t, i)),
{
    reveal(spell_stmts);
    reveal(first_stmts);
    reveal(spell_stmt);
    assert forall|x: Seq<StmtV>, e: StmtV, t: Seq<Token>, i: int| #[trigger]
        spell_stmts(x.push(e), t, i) == spell_stmt(e, t, spell_stmts(x, t, i)) by {
        lemma_first_stmts(x, e, x.len() as int, t, i);
        assert(x.push(e)[x.len() as int] == e);
    }
}

proof fn lemma_first_sub_patterns(
    x: Seq<SubPatternV>,
    e: SubPatternV,
    n: int,
    t: Seq<Token>,
    i: int,
)
    requires
        0 <= n <= x.len(),
    ensures
        first_sub_patterns(x.push(e), n, t, i) == first_sub_patterns(x, n, t, i),
    decreases n,
{
    reveal(spell_sub_patterns);
    reveal(first_sub_patterns);
    if n > 0 {
        lemma_first_sub_patterns(x, e, n - 1, t, i);
        assert(x.push(e)[n - 1] == x[n - 1]);
    }
}

#[verifier::spinoff_prover]
proof fn lemma_list_sub_patterns()
    ensures
        forall|t: Seq<Token>, i: int| #[trigger] spell_sub_patterns(Seq::empty(), t, i) == i,
        forall|x: Seq<SubPatternV>, e: SubPatternV, t: Seq<Token>, i: int| #[trigger]
            spell_sub_patterns(x.push(e), t, i) == spell_sub_pattern(
                e,
                t,
                spell_sub_patterns(x, t, i),
            ),
{
    reveal(spell_sub_patterns);
    reveal(first_sub_patterns);
    assert forall|x: Seq<SubPatternV>, e: SubPatternV, t: Seq<Token>, i: int| #[trigger]
        spell_sub_patterns(x.push(e), t, i) == spell_sub_pattern(e, t, spell_sub_patterns(x, t, i)) by {
        lemma_first_sub_patterns(x, e, x.len() as int, t, i);
        assert(x.push(e)[x.len() as int] == e);
    }
}

proof fn lemma_first_functions(x: Seq<FunctionV>, e: FunctionV, n: int, t: Seq<Token>, i: int)
    requires
        0 <= n <= x.len(),
    ensures
        first_functions(x.push(e), n, t, i) == first_functions(x, n, t, i),
    decreases n,
{
    reveal(spell_functions);
    reveal(first_functions);
    if n > 0 {
        lemma_first_functions(x, e, n - 1, t, i);
        assert(x.push(e)[n - 1] == x[n - 1]);
    }
}

#[verifier::spinoff_prover]
proof fn lemma_list_functions()
    ensures
        forall|t: Seq<Token>, i: int| #[trigger] spell_functions(Seq::empty(), t, i) == i,
        forall|x: Seq<FunctionV>, e: FunctionV, t: Seq<Token>, i: int| #[trigger]
            spell_functions(x.push(e), t, i) == spell_function(e, t, spell_functions(x, t, i)),
{
    reveal(spell_functions);
    reveal(first_functions);
    assert forall|x: Seq<FunctionV>, e: FunctionV, t: Seq<Token>, i: int| #[trigger]
        spell_functions(x.push(e), t, i) == spell_function(e, t, spell_functions(x, t, i)) by {
        lemma_first_functions(x, e, x.len() as int, t, i);
        assert(x.push(e)[x.len() as int] == e);
    }
}

proof fn lemma_first_items(x: Seq<ItemV>, e: ItemV, n: int, t: Seq<Token>, i: int)
    requires
        0 <= n <= x.len(),
    ensures
        first_items(x.push(e), n, t, i) == first_items(x, n, t, i),
    decreases n,
{
    reveal(spell_items);
    reveal(first_items);
    if n > 0 {
        lemma_first_items(x, e, n - 1, t, i);
        assert(x.push(e)[n - 1] == x[n - 1]);
    }
}

#[verifier::spinoff_prover]
proof fn lemma_list_items()
    ensures
        forall|t: Seq<Token>, i: int| #[trigger] spell_items(Seq::empty(), t, i) == i,
        forall|x: Seq<ItemV>, e: ItemV, t: Seq<Token>, i: int| #[trigger]
            spell_items(x.push(e), t, i) == spell_item(e, t, spell_items(x, t, i)),
{
    reveal(spell_items);
    reveal(first_items);
    assert forall|x: Seq<ItemV>, e: ItemV, t: Seq<Token>, i: int| #[trigger]
        spell_items(x.push(e), t, i) == spell_item(e, t, spell_items(x, t, i)) by {
        lemma_first_items(x, e, x.len() as int, t, i);
        assert(x.push(e)[x.len() as int] == e);
    }
}

proof fn lemma_first_types(x: Seq<TypeV>, e: TypeV, n: int, t: Seq<Token>, i: int)
    requires
        0 <= n <= x.len(),
    ensures
        first_types(x.push(e), n, t, i) == first_types(x, n, t, i),
    decreases n,
{
    reveal(spell_types);
    reveal(first_types);
    reveal(spell_type);
    if n > 0 {
        lemma_first_types(x, e, n - 1, t, i);
        assert(x.push(e)[n - 1] == x[n - 1]);
    }
}

#[verifier::spinoff_prover]
proof fn lemma_list_types()
    ensures
        forall|t: Seq<Token>, i: int| #[trigger] spell_types(Seq::empty(), t, i) == i,
        forall|x: Seq<TypeV>, e: TypeV, t: Seq<Token>, i: int| #[trigger]
            spell_types(x.push(e), t, i) == spell_type(e, t, spell_types(x, t, i)),
{
    reveal(spell_types);
    reveal(first_types);
    reveal(spell_type);
    assert forall|x: Seq<TypeV>, e: TypeV, t: Seq<Token>, i: int| #[trigger]
        spell_types(x.push(e), t, i) == spell_type(e, t, spell_types(x, t, i)) by {
        lemma_first_types(x, e, x.len() as int, t, i);
        assert(x.push(e)[x.len() as int] == e);
    }
}

proof fn lemma_first_params(x: Seq<ParamV>, e: ParamV, n: int, t: Seq<Token>, i: int)
    requires
        0 <= n <= x.len(),
    ensures
        first_params(x.push(e), n, t, i) == first_params(x, n, t, i),
    decreases n,
{
    reveal(spell_params);
    reveal(first_params);
    if n > 0 {
        lemma_first_params(x, e, n - 1, t, i);
        assert(x.push(e)[n - 1] == x[n - 1]);
    }
}

#[verifier::spinoff_prover]
proof fn lemma_list_params()
    ensures
        forall|t: Seq<Token>, i: int| #[trigger] spell_params(Seq::empty(), t, i) == i,
        forall|x: Seq<ParamV>, e: ParamV, t: Seq<Token>, i: int| #[trigger]
            spell_params(x.push(e), t, i) == spell_param(e, t, spell_params(x, t, i)),
{
    reveal(spell_params);
    reveal(first_params);
    assert forall|x: Seq<ParamV>, e: ParamV, t: Seq<Token>, i: int| #[trigger]
        spell_params(x.push(e), t, i) == spell_param(e, t, spell_params(x, t, i)) by {
        lemma_first_params(x, e, x.len() as int, t, i);
        assert(x.push(e)[x.len() as int] == e);
    }
}

proof fn lemma_first_lambda_params(
    x: Seq<LambdaParamV>,
    e: LambdaParamV,
    n: int,
    t: Seq<Token>,
    i: int,
)
    requires
        0 <= n <= x.len(),
    ensures
        first_lambda_params(x.push(e), n, t, i) == first_lambda_params(x, n, t, i),
    decreases n,
{
    reveal(spell_lambda_params);
    reveal(first_lambda_params);
    if n > 0 {
        lemma_first_lambda_params(x, e, n - 1, t, i);
        assert(x.push(e)[n - 1] == x[n - 1]);
    }
}

#[verifier::spinoff_prover]
proof fn lemma_list_lambda_params()
    ensures
        forall|t: Seq<Token>, i: int| #[trigger] spell_lambda_params(Seq::empty(), t, i) == i,
        forall|x: Seq<LambdaParamV>, e: LambdaParamV, t: Seq<Token>, i: int| #[trigger]
            spell_lambda_params(x.push(e), t, i) == spell_lambda_param(
                e,
                t,
                spell_lambda_params(x, t, i),
            ),
{
    reveal(spell_lambda_params);
    reveal(first_lambda_params);
    assert forall|x: Seq<LambdaParamV>, e: LambdaParamV, t: Seq<Token>, i: int| #[trigger]
        spell_lambda_params(x.push(e), t, i) == spell_lambda_param(e, t, spell_lambda_params(x, t, i)) by {
        lemma_first_lambda_params(x, e, x.len() as int, t, i);
        assert(x.push(e)[x.len() as int] == e);
    }
}

proof fn lemma_first_names(x: Seq<Seq<char>>, e: Seq<char>, n: int, t: Seq<Token>, i: int)
    requires
        0 <= n <= x.len(),
    ensures
        first_names(x.push(e), n, t, i) == first_names(x, n, t, i),
    decreases n,
{
    reveal(spell_names);
    reveal(first_names);
    if n > 0 {
        lemma_first_names(x, e, n - 1, t, i);
        assert(x.push(e)[n - 1] == x[n - 1]);
    }
}

#[verifier::spinoff_prover]
proof fn lemma_list_names()
    ensures
        forall|t: Seq<Token>, i: int| #[trigger] spell_names(Seq::empty(), t, i) == i,
        forall|x: Seq<Seq<char>>, e: Seq<char>, t: Seq<Token>, i: int| #[trigger]
            spell_names(x.push(e), t, i) == spell_name(e, t, spell_names(x, t, i)),
{
    reveal(spell_names);
    reveal(first_names);
    assert forall|x: Seq<Seq<char>>, e: Seq<char>, t: Seq<Token>, i: int| #[trigger]
        spell_names(x.push(e), t, i) == spell_name(e, t, spell_names(x, t, i)) by {
        lemma_first_names(x, e, x.len() as int, t, i);
        assert(x.push(e)[x.len() as int] == e);
    }
}

proof fn lemma_first_variants(x: Seq<VariantV>, e: VariantV, n: int, t: Seq<Token>, i: int)
    requires
        0 <= n <= x.len(),
    ensures
        first_variants(x.push(e), n, t, i) == first_variants(x, n, t, i),
    decreases n,
{
    reveal(spell_variants);
    reveal(first_variants);
    if n > 0 {
        lemma_first_variants(x, e, n - 1, t, i);
        assert(x.push(e)[n - 1] == x[n - 1]);
    }
}

#[verifier::spinoff_prover]
proof fn lemma_list_variants()
    ensures
        forall|t: Seq<Token>, i: int| #[trigger] spell_variants(Seq::empty(), t, i) == i,
        forall|x: Seq<VariantV>, e: VariantV, t: Seq<Token>, i: int| #[trigger]
            spell_variants(x.push(e), t, i) == spell_variant(e, t, spell_variants(x, t, i)),
{
    reveal(spell_variants);
    reveal(first_variants);
    assert forall|x: Seq<VariantV>, e: VariantV, t: Seq<Token>, i: int| #[trigger]
        spell_variants(x.push(e), t, i) == spell_variant(e, t, spell_variants(x, t, i)) by {
        lemma_first_variants(x, e, x.len() as int, t, i);
        assert(x.push(e)[x.len() as int] == e);
    }
}

proof fn lemma_list_fields()
    ensures
        forall|t: Seq<Token>, i: int| #[trigger]
            spell_fields(Seq::empty(), Seq::empty(), t, i) == i,
        forall|
            names: Seq<Option<Seq<char>>>,
            types: Seq<TypeV>,
            n: Option<Seq<char>>,
            e: TypeV,
            t: Seq<Token>,
            i: int,
        |
            names.len() == types.len() ==> #[trigger] spell_fields(
                names.push(n),
                types.push(e),
                t,
                i,
            ) == spell_field(n, e, t, spell_fields(names, types, t, i)),
{
    reveal(spell_fields);
    reveal(first_fields);
    assert forall|
        names: Seq<Option<Seq<char>>>,
        types: Seq<TypeV>,
        n: Option<Seq<char>>,
        e: TypeV,
        t: Seq<Token>,
        i: int,
    |
        names.len() == types.len() implies #[trigger] spell_fields(
        names.push(n),
        types.push(e),
        t,
        i,
    ) == spell_field(n, e, t, spell_fields(names, types, t, i)) by {
        lemma_first_fields(names, types, n, e, types.len() as int, t, i);
        assert(names.push(n)[types.len() as int] == n);
        assert(types.push(e)[types.len() as int] == e);
    }
}

proof fn lemma_first_fields(
    names: Seq<Option<Seq<char>>>,
    types: Seq<TypeV>,
    name: Option<Seq<char>>,
    e: TypeV,
    n: int,
    t: Seq<Token>,
    i: int,
)
    requires
        0 <= n <= types.len(),
        names.len() == types.len(),
    ensures
        first_fields(names.push(name), types.push(e), n, t, i) == first_fields(
            names,
            types,
            n,
            t,
            i,
        ),
    decreases n,
{
    reveal(first_fields);
    if n > 0 {
        lemma_first_fields(names, types, name, e, n - 1, t, i);
        assert(names.push(name)[n - 1] == names[n - 1]);
        assert(types.push(e)[n - 1] == types[n - 1]);
    }
}

proof fn lemma_type_args()
    ensures
        forall|x: Seq<TypeV>, t: Seq<Token>, i: int| #[trigger]
            spell_type_args(x, t, i) == (if adjacent(t, i) && t[i].kind is LBracket {
                tok(t, TokenKind::RBracket, spell_types(x, t, tok(t, TokenKind::LBracket, i)))
            } else if x.len() == 0 {
                i
            } else {
                -1
            }),
{
    assert forall|x: Seq<TypeV>, t: Seq<Token>, i: int| #[trigger]
        spell_type_args(x, t, i) == (if adjacent(t, i) && t[i].kind is LBracket {
            tok(t, TokenKind::RBracket, spell_types(x, t, tok(t, TokenKind::LBracket, i)))
        } else if x.len() == 0 {
            i
        } else {
            -1
        }) by {
        open_type_args(x);
    }
}

proof fn lemma_more_field(
    fields: Seq<ParamV>,
    methods: Seq<FunctionV>,
    x: ParamV,
    a: int,
    b: int,
    t: Seq<Token>,
    i: int,
)
    requires
        0 <= a <= fields.len(),
        0 <= b <= methods.len(),
        spell_members(fields, methods, a, b, t, i) >= 0,
        ({
            let j = spell_members(fields, methods, a, b, t, i);
            j < t.len() && !(t[j].kind is Def)
        }),
    ensures
        spell_members(fields.push(x), methods, a, b, t, i) == spell_param(
            x,
            t,
            spell_members(fields, methods, a, b, t, i),
        ),
    decreases fields.len() - a + methods.len() - b,
{
    reveal(spell_members);
    reveal_with_fuel(spell_members, 2);
    let more = fields.push(x);
    if b < methods.len() && 0 <= i < t.len() && t[i].kind is Def {
        lemma_more_field(fields, methods, x, a, b + 1, t, spell_function(methods[b], t, i));
    } else if a < fields.len() {
        assert(more[a] == fields[a]);
        lemma_more_field(fields, methods, x, a + 1, b, t, spell_param(fields[a], t, i));
    } else {
        assert(more[a] == x);
    }
}

proof fn lemma_more_method(
    fields: Seq<ParamV>,
    methods: Seq<FunctionV>,
    x: FunctionV,
    a: int,
    b: int,
    t: Seq<Token>,
    i: int,
)
    requires
        0 <= a <= fields.len(),
        0 <= b <= methods.len(),
        ({
            let j = spell_members(fields, methods, a, b, t, i);
            0 <= j < t.len() && t[j].kind is Def
        }),
    ensures
        spell_members(fields, methods.push(x), a, b, t, i) == spell_function(
            x,
            t,
            spell_members(fields, methods, a, b, t, i),
        ),
    decreases fields.len() - a + methods.len() - b,
{
    reveal(spell_members);
    reveal_with_fuel(spell_members, 2);
    let more = methods.push(x);
    if b < methods.len() && 0 <= i < t.len() && t[i].kind is Def {
        assert(more[b] == methods[b]);
        lemma_more_method(fields, methods, x, a, b + 1, t, spell_function(methods[b], t, i));
    } else if a < fields.len() {
        let j = spell_param(fields[a], t, i);
        if 0 <= i < t.len() && t[i].kind is Def {
            lemma_no_param(fields[a], t, i);
            lemma_members_fail(fields, methods, a + 1, b, t);
        } else {
            lemma_more_method(fields, methods, x, a + 1, b, t, j);
        }
    } else {
        assert(more[b] == x);
    }
}

/// No field starts with `def`.
proof fn lemma_no_param(x: ParamV, t: Seq<Token>, i: int)
    requires
        0 <= i < t.len(),
        t[i].kind is Def,
    ensures
        spell_param(x, t, i) == -1,
{
    lemma_param_fails(x, t, i);
}

proof fn lemma_param_fails(x: ParamV, t: Seq<Token>, i: int)
    requires
        spell_name(x.name, t, i) == -1,
    ensures
        spell_param(x, t, i) == -1,
{
}

/// Where something else stands, nothing behind it is found either.
proof fn lemma_members_fail(
    fields: Seq<ParamV>,
    methods: Seq<FunctionV>,
    a: int,
    b: int,
    t: Seq<Token>,
)
    requires
        0 <= a <= fields.len(),
        0 <= b <= methods.len(),
    ensures
        spell_members(fields, methods, a, b, t, -1) == -1,
    decreases fields.len() - a,
{
    reveal(spell_members);
    if a < fields.len() {
        lemma_param_fails(fields[a], t, -1);
        lemma_members_fail(fields, methods, a + 1, b, t);
    }
}

// ---------------------------------------------------------------------------
// States
// ---------------------------------------------------------------------------

/// A state within well-lexed tokens.
spec fn fit(p: PState) -> bool {
    0 <= p.pos <= p.toks.len() && well_lexed(p.toks)
}

/// Nothing was reported on the way.
spec fn clean(p: PState, r: PState) -> bool {
    r.diags.len() == p.diags.len()
}

/// The place of a state, past layout.
spec fn here(p: PState) -> int {
    settle(p.toks, p.pos)
}

/// The token before a state says something.
spec fn behind_token(p: PState) -> bool {
    0 < p.pos <= p.toks.len() && !layout(p.toks[p.pos - 1].kind)
}

/// A span ends where the token before a state does.
spec fn ended(s: Span, p: PState) -> bool {
    0 < p.pos <= p.toks.len() && s.end == p.toks[p.pos - 1].span.end
}

/// A state stands at a token that says something.
spec fn at_token(p: PState) -> bool {
    0 <= p.pos < p.toks.len() && here(p) == p.pos
}

/// A later state of the same parse.
spec fn later(p: PState, r: PState) -> bool {
    framed(p, r) && r.pos <= r.toks.len() && p.diags.len() <= r.diags.len()
}

proof fn lemma_settle(t: Seq<Token>, i: int)
    requires
        0 <= i <= t.len(),
    ensures
        i <= settle(t, i) <= t.len(),
        settle(t, i) < t.len() ==> !layout(t[settle(t, i)].kind),
        settle(t, i) > i ==> layout(t[settle(t, i) - 1].kind),
        settle(t, settle(t, i)) == settle(t, i),
    decreases t.len() - i,
{
    if i < t.len() && layout(t[i].kind) {
        lemma_settle(t, i + 1);
    }
}

proof fn lemma_settles()
    ensures
        forall|t: Seq<Token>, i: int|
            #![trigger settle(t, i)]
            0 <= i <= t.len() ==> {
                &&& i <= settle(t, i) <= t.len()
                &&& settle(t, i) > i ==> layout(t[settle(t, i) - 1].kind)
            },
{
    assert forall|t: Seq<Token>, i: int| 0 <= i <= t.len() implies {
        &&& i <= #[trigger] settle(t, i) <= t.len()
        &&& settle(t, i) > i ==> layout(t[settle(t, i) - 1].kind)
    } by {
        lemma_settle(t, i);
    }
}

proof fn reads_node(p: PState, kind: ExprKindV, span: Span)
    ensures
        ({
            let r = node(p, kind, span);
            &&& r.1.toks == p.toks && r.1.pos == p.pos && r.1.diags == p.diags
            &&& r.0.span == span
            &&& forall|i: int|
                opened_kind(kind, p.toks, i) == here(p) && starts(span, p.toks, i) && ended(span, p)
                    ==> #[trigger] spell_expr(r.0, p.toks, i) == here(p)
        }),
{
    open_expr(node(p, kind, span).0);
    open_kind(kind);
    if ended(span, p) {
        assert(settle(p.toks, p.pos) == here(p));
    }
}

proof fn reads_poison(p: PState, span: Span)
    ensures
        ({
            let r = poison(p, span);
            r.1.toks == p.toks && r.1.pos == p.pos && r.1.diags == p.diags
        }),
{
}

/// A number behind a dot is an index.
proof fn lemma_index(p: PState)
    ensures
        fit(p) && 0 < p.pos && p.toks[p.pos - 1].kind is Dot ==> (p.kind() matches Some(
            TokenKind::IntLiteral(n),
        ) ==> 0 <= n <= u32::MAX),
{
    if fit(p) && 0 < p.pos < p.toks.len() {
        reveal(well_lexed);
        assert(p.toks[p.pos].kind == p.kind()->Some_0);
    }
}

/// One step of the search for a closing bracket.
proof fn walks(p: PState)
    ensures
        forall|d: int, k: TokenKind| #[trigger]
            close_followed(p.toks, p.pos, d, k) == if 0 <= p.pos < p.toks.len() {
                let kind = p.toks[p.pos].kind;
                if opener(kind) {
                    close_followed(p.toks, p.pos + 1, d + 1, k)
                } else if closer(kind) {
                    if d - 1 == 0 {
                        p.bump().at(k)
                    } else {
                        close_followed(p.toks, p.pos + 1, d - 1, k)
                    }
                } else if kind is Eof {
                    false
                } else {
                    close_followed(p.toks, p.pos + 1, d, k)
                }
            } else {
                false
            },
{
}

proof fn reads_newlines(p: PState)
    ensures
        fit(p) ==> {
            let r = p.newlines();
            &&& later(p, r) && r.diags == p.diags
            &&& here(r) == here(p)
        },
    decreases p.left(),
{
    if p.at(TokenKind::Newline) {
        reads_newlines(p.bump());
    }
}

proof fn reads_sync(p: PState, depth: nat)
    ensures
        fit(p) ==> {
            let r = p.sync(depth);
            &&& later(p, r) && r.diags == p.diags
            &&& p.kind() is Some && !(p.kind()->Some_0 is Dedent) && !(p.kind()->Some_0 is Eof)
                ==> p.pos < r.pos
        },
    decreases p.left(),
{
    match p.kind() {
        None => {},
        Some(TokenKind::Eof) => {},
        Some(TokenKind::Dedent) => {
            if depth > 0 {
                reads_sync(p.bump(), (depth - 1) as nat);
            }
        },
        Some(TokenKind::Indent) => {
            reads_sync(p.bump(), depth + 1);
        },
        Some(_) => {
            reads_sync(p.bump(), depth);
        },
    }
}

proof fn reads_skip_brackets(p: PState, depth: int)
    ensures
        fit(p) ==> later(p, p.skip_brackets(depth)),
        fit(p) && p.at(TokenKind::LParen) ==> p.pos < p.skip_brackets(depth).pos,
    decreases p.left(),
{
    match p.kind() {
        None => {},
        Some(k) => {
            if opener(k) {
                reads_skip_brackets(p.bump(), depth + 1);
            } else if closer(k) {
                if depth - 1 > 0 {
                    reads_skip_brackets(p.bump(), depth - 1);
                }
            } else if !(k is Eof || k is Newline || k is Dedent) {
                reads_skip_brackets(p.bump(), depth);
            }
        },
    }
}

proof fn reads_literal_from(p: PState)
    ensures
        fit(p) ==> (literal_from(p) matches Some((l, q)) ==> {
            &&& later(p, q) && q.diags == p.diags
            &&& p.pos < q.pos
            &&& spell_literal(l, p.toks, here(p)) == here(q)
        }),
{
    match literal_from(p) {
        Some((l, q)) => {
            open_literal(l);
            if fit(p) && p.kind() is Some {
                reveal(well_lexed);
                assert(p.toks[p.pos].kind == p.kind()->Some_0);
                if p.pos + 1 < p.toks.len() {
                    assert(p.toks[p.pos + 1].kind == p.kind_at(1)->Some_0);
                }
            }
        },
        None => {},
    }
}

proof fn lemma_entries_open()
    ensures
        forall|x: (ExprV, ExprV), t: Seq<Token>, i: int| #[trigger]
            spell_entry(x, t, i) == spell_expr(
                x.1,
                t,
                tok(t, TokenKind::Colon, spell_expr(x.0, t, i)),
            ),
{
    assert forall|x: (ExprV, ExprV), t: Seq<Token>, i: int| #[trigger]
        spell_entry(x, t, i) == spell_expr(
            x.1,
            t,
            tok(t, TokenKind::Colon, spell_expr(x.0, t, i)),
        ) by {
        open_entry(x);
    }
}

spec fn segment_is(x: SegmentV, part: FStringPart) -> bool {
    match (x, part) {
        (SegmentV::Text(a), FStringPart::Text(b)) => a == b@,
        (SegmentV::Expr(e), FStringPart::Expr(sub)) => spell_expr(*e, sub@, settle(sub@, 0))
            == settle(sub@, sub@.len() as int),
        _ => false,
    }
}

/// Some segments are the first parts of an f-string.
spec fn segments_are(x: Seq<SegmentV>, parts: Seq<FStringPart>) -> bool {
    x.len() <= parts.len() && forall|k: int|
        0 <= k < x.len() ==> segment_is(#[trigger] x[k], parts[k])
}

proof fn open_segments(x: Seq<SegmentV>, parts: Seq<FStringPart>)
    ensures
        spell_segments(x, parts) == (x.len() == parts.len() && segments_are(x, parts)),
{
    reveal(spell_segments);
    reveal(spell_expr);
}

// ---------------------------------------------------------------------------
// The grammar
// ---------------------------------------------------------------------------

#[verifier::spinoff_prover]
proof fn reads_idents_from(p: PState, closing: TokenKind, what: Seq<char>)
    requires
        closer(closing),
    ensures
        ({
            let r = sealed_idents_from(p, closing, what);
            fit(p) ==> {
                &&& later(p, r.1)
                &&& clean(p, r.1) ==> {
                    &&& spell_names(r.0, p.toks, here(p)) == here(r.1)
                    &&& forall|d: int, k: TokenKind|
                        d >= 1 ==> #[trigger] close_followed(p.toks, p.pos, d, k) == close_followed(
                            p.toks,
                            r.1.pos,
                            d,
                            k,
                        )
                }
            }
        }),
{
    unfold_idents_from(p, closing, what);
    lemma_settles();
    walks(p);
    lemma_list_names();
    if !p.at(closing) {
        let (name, q) = p.ident(what);
        reads_idents_tail(seq![name], q, closing, what);
    }
}

#[verifier::spinoff_prover]
proof fn reads_idents_tail(acc: Seq<Seq<char>>, p: PState, closing: TokenKind, what: Seq<char>)
    requires
        closer(closing),
    ensures
        ({
            let r = sealed_idents_tail(acc, p, closing, what);
            fit(p) ==> {
                &&& later(p, r.1)
                &&& clean(p, r.1) ==> {
                    &&& forall|i: int|
                        spell_names(acc, p.toks, i) == here(p) ==> #[trigger] spell_names(r.0, p.toks, i) == here(
                            r.1,
                        )
                    &&& forall|d: int, k: TokenKind|
                        d >= 1 ==> #[trigger] close_followed(p.toks, p.pos, d, k) == close_followed(
                            p.toks,
                            r.1.pos,
                            d,
                            k,
                        )
                }
            }
        }),
    decreases p.left(),
{
    unfold_idents_tail(acc, p, closing, what);
    lemma_settles();
    walks(p);
    walks(p.bump());
    lemma_list_names();
    reveal_with_fuel(settle, 3);
    if p.at(TokenKind::Comma) {
        let q = p.bump();
        if !q.at(closing) {
            let (name, r) = q.ident(what);
            reads_idents_tail(acc.push(name), r.after(q), closing, what);
        }
    }
}

#[verifier::spinoff_prover]
proof fn reads_uses_from(p: PState)
    ensures
        ({
            let r = sealed_uses_from(p);
            fit(p) ==> {
                &&& later(p, r.1)
                &&& clean(p, r.1) && behind_token(p) ==> {
                    &&& spell_effects(r.0, p.toks, here(p)) == here(r.1)
                    &&& forall|d: int, k: TokenKind|
                        d >= 1 ==> #[trigger] close_followed(p.toks, p.pos, d, k) == close_followed(
                            p.toks,
                            r.1.pos,
                            d,
                            k,
                        )
                    &&& behind_token(r.1)
                }
            }
        }),
{
    unfold_uses_from(p);
    lemma_settles();
    walks(p);
    walks(p.bump());
    walks(
        sealed_idents_from(p.bump().expect(TokenKind::LBrace, "`{`"@), TokenKind::RBrace, "effect name"@).1,
    );
    lemma_list_names();
    if p.at(TokenKind::Uses) {
        let q = p.bump().expect(TokenKind::LBrace, "`{`"@);
        reads_idents_from(q, TokenKind::RBrace, "effect name"@);
    }
}

#[verifier::spinoff_prover]
proof fn reads_type_from(p: PState)
    ensures
        ({
            let r = sealed_type_from(p);
            fit(p) ==> {
                &&& later(p, r.1)
                &&& clean(p, r.1) ==> {
                    &&& spell_type(r.0, p.toks, here(p)) == here(r.1)
                    &&& forall|d: int, k: TokenKind|
                        d >= 1 ==> #[trigger] close_followed(p.toks, p.pos, d, k) == close_followed(
                            p.toks,
                            r.1.pos,
                            d,
                            k,
                        )
                    &&& behind_token(r.1)
                }
            }
        }),
    decreases p.left(), 3int,
{
    unfold_type_from(p);
    lemma_settles();
    walks(p);
    open_type(sealed_type_from(p).0);
    open_type_kind(sealed_type_from(p).0.kind);
    lemma_type_args();
    let start = p.current_span();
    if !(p.depth >= MAX_PARSE_DEPTH) {
        let q = p.deeper();
        match q.kind() {
            Some(TokenKind::Void) => {},
            Some(TokenKind::LParen) => {
                reads_function_type_rest(start, q.bump());
            },
            Some(TokenKind::Ident(name)) => {
                reads_named_type_rest(start, name@, q.bump());
            },
            _ => {},
        }
    }
}

#[verifier::spinoff_prover]
proof fn reads_function_type_rest(start: Span, p: PState)
    ensures
        ({
            let r = sealed_function_type_rest(start, p);
            fit(p) ==> {
                &&& later(p, r.1)
                &&& clean(p, r.1) ==> {
                    &&& forall|i: int|
                        tok(p.toks, TokenKind::LParen, i) == here(p) ==> #[trigger] spell_type(r.0, p.toks, i) == here(
                            r.1,
                        )
                    &&& forall|d: int, k: TokenKind|
                        d >= 2 ==> #[trigger] close_followed(p.toks, p.pos, d, k) == close_followed(
                            p.toks,
                            r.1.pos,
                            d - 1,
                            k,
                        )
                    &&& behind_token(r.1)
                }
            }
        }),
    decreases p.left(), 6int,
{
    unfold_function_type_rest(start, p);
    lemma_settles();
    let close = sealed_types_from(p, TokenKind::RParen).1.after(p);
    walks(close);
    walks(close.bump());
    open_type(sealed_function_type_rest(start, p).0);
    open_type_kind(sealed_function_type_rest(start, p).0.kind);
    lemma_type_args();
    reads_types_from(p, TokenKind::RParen);
    let (params, q) = sealed_types_from(p, TokenKind::RParen);
    let r = q.after(p).expect(TokenKind::RParen, "`)`"@).expect(TokenKind::Arrow, "`->`"@).after(p);
    reads_type_from(r);
    let (ret, s) = sealed_type_from(r);
    reads_uses_from(s);
}

#[verifier::spinoff_prover]
proof fn reads_named_type_rest(start: Span, name: Seq<char>, p: PState)
    ensures
        ({
            let r = sealed_named_type_rest(start, name, p);
            fit(p) ==> {
                &&& later(p, r.1)
                &&& clean(p, r.1) && behind_token(p) ==> {
                    &&& forall|i: int|
                        spell_name(name, p.toks, i) == here(p) ==> #[trigger] spell_type(r.0, p.toks, i) == here(
                            r.1,
                        )
                    &&& forall|d: int, k: TokenKind|
                        d >= 1 ==> #[trigger] close_followed(p.toks, p.pos, d, k) == close_followed(
                            p.toks,
                            r.1.pos,
                            d,
                            k,
                        )
                    &&& behind_token(r.1)
                }
            }
        }),
    decreases p.left(), 6int,
{
    unfold_named_type_rest(start, name, p);
    lemma_settles();
    walks(p);
    open_type(sealed_named_type_rest(start, name, p).0);
    open_type_kind(sealed_named_type_rest(start, name, p).0.kind);
    lemma_type_args();
    lemma_list_types();
    if p.at(TokenKind::LBracket) {
        reads_type_args_rest(p.bump());
    }
}

#[verifier::spinoff_prover]
proof fn reads_type_args_rest(p: PState)
    ensures
        ({
            let r = sealed_type_args_rest(p);
            fit(p) ==> {
                &&& later(p, r.1)
                &&& !p.at(TokenKind::RBracket) ==> r.0.len() > 0
                &&& clean(p, r.1) ==> {
                    &&& tok(p.toks, TokenKind::RBracket, spell_types(r.0, p.toks, here(p))) == here(
                        r.1,
                    )
                    &&& forall|d: int, k: TokenKind|
                        d >= 2 ==> #[trigger] close_followed(p.toks, p.pos, d, k) == close_followed(
                            p.toks,
                            r.1.pos,
                            d - 1,
                            k,
                        )
                    &&& forall|k: TokenKind| #[trigger]
                        close_followed(p.toks, p.pos, 1, k) <==> r.1.at(k)
                    &&& behind_token(r.1)
                }
            }
        }),
    decreases p.left(), 6int,
{
    unfold_type_args_rest(p);
    lemma_settles();
    walks(sealed_types_from(p, TokenKind::RBracket).1);
    reads_types_from(p, TokenKind::RBracket);
}

#[verifier::spinoff_prover]
proof fn reads_types_from(p: PState, closing: TokenKind)
    requires
        closer(closing),
    ensures
        ({
            let r = sealed_types_from(p, closing);
            fit(p) ==> {
                &&& later(p, r.1)
                &&& !p.at(closing) ==> r.0.len() > 0
                &&& clean(p, r.1) ==> {
                    &&& spell_types(r.0, p.toks, here(p)) == here(r.1)
                    &&& forall|d: int, k: TokenKind|
                        d >= 1 ==> #[trigger] close_followed(p.toks, p.pos, d, k) == close_followed(
                            p.toks,
                            r.1.pos,
                            d,
                            k,
                        )
                }
            }
        }),
    decreases p.left(), 5int,
{
    unfold_types_from(p, closing);
    lemma_settles();
    lemma_list_types();
    if !p.at(closing) {
        reads_type_from(p);
        let (t, q) = sealed_type_from(p);
        reads_types_tail(seq![t], q.after(p), closing);
    }
}

#[verifier::spinoff_prover]
proof fn reads_types_tail(acc: Seq<TypeV>, p: PState, closing: TokenKind)
    requires
        closer(closing),
    ensures
        ({
            let r = sealed_types_tail(acc, p, closing);
            fit(p) ==> {
                &&& later(p, r.1)
                &&& acc.len() <= r.0.len()
                &&& clean(p, r.1) ==> {
                    &&& forall|i: int|
                        spell_types(acc, p.toks, i) == here(p) ==> #[trigger] spell_types(r.0, p.toks, i) == here(
                            r.1,
                        )
                    &&& forall|d: int, k: TokenKind|
                        d >= 1 ==> #[trigger] close_followed(p.toks, p.pos, d, k) == close_followed(
                            p.toks,
                            r.1.pos,
                            d,
                            k,
                        )
                }
            }
        }),
    decreases p.left(), 4int,
{
    unfold_types_tail(acc, p, closing);
    lemma_settles();
    walks(p);
    lemma_list_types();
    if p.at(TokenKind::Comma) {
        let q = p.bump();
        if !q.at(closing) {
            reads_type_from(q);
            let (t, r) = sealed_type_from(q);
            reads_types_tail(acc.push(t), r.after(q), closing);
        }
    }
}

#[verifier::spinoff_prover]
proof fn reads_opt_type_from(p: PState)
    ensures
        ({
            let r = sealed_opt_type_from(p);
            fit(p) ==> {
                &&& later(p, r.1)
                &&& clean(p, r.1) ==> {
                    &&& spell_opt_type(r.0, p.toks, here(p)) == here(r.1)
                }
            }
        }),
{
    unfold_opt_type_from(p);
    lemma_settles();
    if p.at(TokenKind::Colon) {
        reads_type_from(p.bump());
    }
}

#[verifier::spinoff_prover]
proof fn reads_sub_pattern_from(p: PState)
    ensures
        ({
            let r = sealed_sub_pattern_from(p);
            fit(p) ==> {
                &&& later(p, r.1)
                &&& clean(p, r.1) ==> {
                    &&& spell_sub_pattern(r.0, p.toks, here(p)) == here(r.1)
                }
            }
        }),
{
    unfold_sub_pattern_from(p);
    lemma_settles();
    open_sub_pattern(sealed_sub_pattern_from(p).0);
    let start = p.current_span();
    reads_literal_from(p);
    match literal_from(p) {
        Some((lit, q)) => {},
        None => {
            match p.kind() {
                Some(TokenKind::Underscore) => {},
                Some(TokenKind::Ident(name)) => {
                    let q = p.bump();
                    if q.at(TokenKind::LParen) || q.at(TokenKind::LBracket) {
                        reads_skip_brackets(
                            q.unexpected(
                                start,
                                "nesting enum/tuple patterns is forbidden (D-SYN-06)"@,
                            ),
                            0,
                        );
                    }
                },
                Some(TokenKind::LParen) => {
                    reads_skip_brackets(
                        p.unexpected(
                            start,
                            "nesting enum/tuple patterns is forbidden (D-SYN-06)"@,
                        ),
                        0,
                    );
                },
                _ => {},
            }
        },
    }
}

#[verifier::spinoff_prover]
proof fn reads_sub_patterns_from(p: PState)
    ensures
        ({
            let r = sealed_sub_patterns_from(p);
            fit(p) ==> {
                &&& later(p, r.1)
                &&& clean(p, r.1) ==> {
                    &&& spell_sub_patterns(r.0, p.toks, here(p)) == here(r.1)
                }
            }
        }),
{
    unfold_sub_patterns_from(p);
    lemma_settles();
    lemma_list_sub_patterns();
    if !p.at(TokenKind::RParen) {
        reads_sub_pattern_from(p);
        let (s, q) = sealed_sub_pattern_from(p);
        reads_sub_patterns_tail(seq![s], q);
    }
}

#[verifier::spinoff_prover]
proof fn reads_sub_patterns_tail(acc: Seq<SubPatternV>, p: PState)
    ensures
        ({
            let r = sealed_sub_patterns_tail(acc, p);
            fit(p) ==> {
                &&& later(p, r.1)
                &&& clean(p, r.1) ==> {
                    &&& forall|i: int|
                        spell_sub_patterns(acc, p.toks, i) == here(p) ==> #[trigger] spell_sub_patterns(r.0, p.toks, i) == here(
                            r.1,
                        )
                }
            }
        }),
    decreases p.left(),
{
    unfold_sub_patterns_tail(acc, p);
    lemma_settles();
    lemma_list_sub_patterns();
    if p.at(TokenKind::Comma) {
        let q = p.bump();
        if !q.at(TokenKind::RParen) {
            reads_sub_pattern_from(q);
            let (s, r) = sealed_sub_pattern_from(q);
            reads_sub_patterns_tail(acc.push(s), r.after(q));
        }
    }
}

#[verifier::spinoff_prover]
proof fn reads_pattern_from(p: PState)
    ensures
        ({
            let r = sealed_pattern_from(p);
            fit(p) ==> {
                &&& later(p, r.1)
                &&& p.pos < p.toks.len() ==> p.pos < r.1.pos
                &&& clean(p, r.1) ==> {
                    &&& spell_pattern(r.0, p.toks, here(p)) == here(r.1)
                }
            }
        }),
{
    unfold_pattern_from(p);
    lemma_settles();
    open_pattern(sealed_pattern_from(p).0);
    reads_literal_from(p);
    match literal_from(p) {
        Some((lit, q)) => {},
        None => {
            match p.kind() {
                Some(TokenKind::Underscore) => {},
                Some(TokenKind::LParen) => {
                    reads_sub_patterns_from(p.bump());
                },
                Some(TokenKind::Ident(name)) => {
                    let q = p.bump();
                    if q.at(TokenKind::LParen) {
                        reads_sub_patterns_from(q.bump());
                    }
                },
                _ => {},
            }
        },
    }
}

#[verifier::spinoff_prover]
proof fn reads_lambda_param_from(p: PState)
    ensures
        ({
            let r = sealed_lambda_param_from(p);
            fit(p) ==> {
                &&& later(p, r.1)
                &&& clean(p, r.1) ==> {
                    &&& spell_lambda_param(r.0, p.toks, here(p)) == here(r.1)
                }
            }
        }),
{
    unfold_lambda_param_from(p);
    lemma_settles();
    let (name, q) = p.ident("lambda parameter name"@);
    reads_opt_type_from(q);
}

#[verifier::spinoff_prover]
proof fn reads_lambda_params_from(p: PState)
    ensures
        ({
            let r = sealed_lambda_params_from(p);
            fit(p) ==> {
                &&& later(p, r.1)
                &&& clean(p, r.1) ==> {
                    &&& spell_lambda_params(r.0, p.toks, here(p)) == here(r.1)
                }
            }
        }),
{
    unfold_lambda_params_from(p);
    lemma_settles();
    lemma_list_lambda_params();
    if !p.at(TokenKind::RParen) {
        reads_lambda_param_from(p);
        let (x, q) = sealed_lambda_param_from(p);
        reads_lambda_params_tail(seq![x], q);
    }
}

#[verifier::spinoff_prover]
proof fn reads_lambda_params_tail(acc: Seq<LambdaParamV>, p: PState)
    ensures
        ({
            let r = sealed_lambda_params_tail(acc, p);
            fit(p) ==> {
                &&& later(p, r.1)
                &&& clean(p, r.1) ==> {
                    &&& forall|i: int|
                        spell_lambda_params(acc, p.toks, i) == here(p) ==> #[trigger] spell_lambda_params(r.0, p.toks, i) == here(
                            r.1,
                        )
                }
            }
        }),
    decreases p.left(),
{
    unfold_lambda_params_tail(acc, p);
    lemma_settles();
    lemma_list_lambda_params();
    if p.at(TokenKind::Comma) {
        let q = p.bump();
        if !q.at(TokenKind::RParen) {
            reads_lambda_param_from(q);
            let (x, r) = sealed_lambda_param_from(q);
            reads_lambda_params_tail(acc.push(x), r.after(q));
        }
    }
}

#[verifier::spinoff_prover]
proof fn reads_destination_from(p: PState)
    ensures
        ({
            let r = sealed_destination_from(p);
            fit(p) ==> {
                &&& later(p, r.1)
                &&& clean(p, r.1) ==> {
                    &&& spell_expr(r.0, p.toks, here(p)) == here(r.1)
                    &&& ended(r.0.span, r.1)
                }
            }
        }),
{
    unfold_destination_from(p);
    lemma_settles();
    let (name, q) = p.ident("pipe destination function name/namespace name"@);
    reads_node(q, ExprKindV::Ident(name), p.current_span());
    let (e, r) = node(q, ExprKindV::Ident(name), p.current_span());
    reads_destination_tail(e, r);
}

#[verifier::spinoff_prover]
proof fn reads_destination_tail(e: ExprV, p: PState)
    ensures
        ({
            let r = sealed_destination_tail(e, p);
            fit(p) ==> {
                &&& later(p, r.1)
                &&& clean(p, r.1) && ended(e.span, p) ==> {
                    &&& forall|i: int|
                        spell_expr(e, p.toks, i) == here(p) ==> #[trigger] spell_expr(r.0, p.toks, i) == here(
                            r.1,
                        )
                    &&& ended(r.0.span, r.1)
                }
            }
        }),
    decreases p.left(),
{
    unfold_destination_tail(e, p);
    lemma_settles();
    open_expr(e);
    if p.at(TokenKind::Dot) {
        let (field, q) = p.bump().ident("field/method name"@);
        reads_node(
            q,
            ExprKindV::FieldAccess { target: Box::new(e), field },
            between(e.span, q.previous_span()),
        );
        let (e2, r) = node(
            q,
            ExprKindV::FieldAccess { target: Box::new(e), field },
            between(e.span, q.previous_span()),
        );
        reads_destination_tail(e2, r.after(p.bump()));
    }
}

#[verifier::spinoff_prover]
proof fn reads_binary(op: BinaryOp, lhs: ExprV, rhs: ExprV, p: PState)
    ensures
        ({
            let r = sealed_binary(op, lhs, rhs, p);
            fit(p) ==> {
                &&& later(p, r.1)
                &&& clean(p, r.1) && ended(rhs.span, p) ==> {
                    &&& forall|i: int|
                        spell_expr(rhs, p.toks, tok(p.toks, binary_sign(op), spell_expr(lhs, p.toks, i))) == here(
                            p,
                        )
                            ==> #[trigger] spell_expr(r.0, p.toks, i) == here(r.1)
                    &&& ended(r.0.span, r.1)
                }
            }
        }),
{
    unfold_binary(op, lhs, rhs, p);
    lemma_settles();
    open_expr(lhs);
    open_expr(rhs);
    reads_node(
        p,
        ExprKindV::Binary { op, lhs: Box::new(lhs), rhs: Box::new(rhs) },
        between(lhs.span, rhs.span),
    );
}

#[verifier::spinoff_prover]
proof fn reads_expr_from(p: PState)
    ensures
        ({
            let r = sealed_expr_from(p);
            fit(p) ==> {
                &&& later(p, r.1)
                &&& clean(p, r.1) ==> {
                    &&& spell_expr(r.0, p.toks, here(p)) == here(r.1)
                    &&& p.pos < r.1.pos && at_token(p)
                    &&& ended(r.0.span, r.1)
                }
            }
        }),
    decreases p.toks, p.left(), 200int,
{
    unfold_expr_from(p);
    lemma_settles();
    let span = p.current_span();
    if p.depth >= MAX_PARSE_DEPTH {
        reads_poison(p.too_deep(span), span);
    } else {
        reads_pipe_from(p.deeper());
    }
}

#[verifier::spinoff_prover]
proof fn reads_pipe_from(p: PState)
    ensures
        ({
            let r = sealed_pipe_from(p);
            fit(p) ==> {
                &&& later(p, r.1)
                &&& clean(p, r.1) ==> {
                    &&& spell_expr(r.0, p.toks, here(p)) == here(r.1)
                    &&& p.pos < r.1.pos && at_token(p)
                    &&& ended(r.0.span, r.1)
                }
            }
        }),
    decreases p.toks, p.left(), 190int,
{
    unfold_pipe_from(p);
    lemma_settles();
    lemma_list_stages();
    open_expr(sealed_logical_from(p).0);
    reads_logical_from(p);
    let (source, q) = sealed_logical_from(p);
    if q.at(TokenKind::PipeOp) {
        reads_stages_tail(Seq::empty(), q.after(p));
        let (stages, r) = sealed_stages_tail(Seq::empty(), q.after(p));
        let end = if stages.len() > 0 {
            stages.last().span
        } else {
            source.span
        };
        reads_node(
            r,
            ExprKindV::Pipe { source: Box::new(source), stages },
            between(source.span, end),
        );
    }
}

#[verifier::spinoff_prover]
proof fn reads_stages_tail(acc: Seq<StageV>, p: PState)
    ensures
        ({
            let r = sealed_stages_tail(acc, p);
            fit(p) ==> {
                &&& later(p, r.1)
                &&& acc.len() <= r.0.len()
                &&& p.at(TokenKind::PipeOp) ==> acc.len() < r.0.len()
                &&& clean(p, r.1) ==> {
                    &&& forall|i: int|
                        spell_stages(acc, p.toks, i) == here(p) ==> #[trigger] spell_stages(r.0, p.toks, i) == here(
                            r.1,
                        )
                    &&& (acc.len() > 0 ==> ended(acc.last().span, p)) && r.0.len() > 0 ==> ended(
                        r.0.last().span,
                        r.1,
                    )
                }
            }
        }),
    decreases p.toks, p.left(), 185int,
{
    unfold_stages_tail(acc, p);
    lemma_settles();
    lemma_list_stages();
    if p.at(TokenKind::PipeOp) {
        reads_stage_from(p.bump());
        let (stage, q) = sealed_stage_from(p.bump());
        reads_stages_tail(acc.push(stage), q.after(p.bump()));
    }
}

#[verifier::spinoff_prover]
proof fn reads_stage_from(p: PState)
    ensures
        ({
            let r = sealed_stage_from(p);
            fit(p) ==> {
                &&& later(p, r.1)
                &&& clean(p, r.1) ==> {
                    &&& forall|i: int|
                        tok(p.toks, TokenKind::PipeOp, i) == here(p) ==> #[trigger] spell_stage(r.0, p.toks, i) == here(
                            r.1,
                        )
                    &&& ended(r.0.span, r.1)
                }
            }
        }),
    decreases p.toks, p.left(), 310int,
{
    unfold_stage_from(p);
    lemma_settles();
    open_stage(sealed_stage_from(p).0);
    reads_destination_from(p);
    let (target, q) = sealed_destination_from(p);
    reads_callee_rest(target, q.after(p));
}

#[verifier::spinoff_prover]
proof fn reads_callee_rest(target: ExprV, p: PState)
    ensures
        ({
            let r = sealed_callee_rest(target, p);
            fit(p) ==> {
                &&& later(p, r.1)
                &&& clean(p, r.1) ==> {
                    &&& forall|i: int|
                        spell_expr(target, p.toks, i) == here(p) ==> #[trigger] spell_callee(r.0, p.toks, i) == here(
                            r.1,
                        )
                }
            }
        }),
    decreases p.toks, p.left(), 305int,
{
    unfold_callee_rest(target, p);
    lemma_settles();
    open_callee(sealed_callee_rest(target, p).0);
    if p.at(TokenKind::LParen) {
        reads_args_rest(p.current_span().start.line, p.bump());
    }
}

#[verifier::spinoff_prover]
proof fn reads_logical_from(p: PState)
    ensures
        ({
            let r = sealed_logical_from(p);
            fit(p) ==> {
                &&& later(p, r.1)
                &&& clean(p, r.1) ==> {
                    &&& spell_expr(r.0, p.toks, here(p)) == here(r.1)
                    &&& p.pos < r.1.pos && at_token(p)
                    &&& ended(r.0.span, r.1)
                }
            }
        }),
    decreases p.toks, p.left(), 180int,
{
    unfold_logical_from(p);
    lemma_settles();
    reads_and_from(p);
    let (lhs, q) = sealed_and_from(p);
    reads_or_tail(lhs, q.after(p));
}

#[verifier::spinoff_prover]
proof fn reads_or_tail(lhs: ExprV, p: PState)
    ensures
        ({
            let r = sealed_or_tail(lhs, p);
            fit(p) ==> {
                &&& later(p, r.1)
                &&& clean(p, r.1) && ended(lhs.span, p) ==> {
                    &&& forall|i: int|
                        spell_expr(lhs, p.toks, i) == here(p) ==> #[trigger] spell_expr(r.0, p.toks, i) == here(
                            r.1,
                        )
                    &&& ended(r.0.span, r.1)
                }
            }
        }),
    decreases p.toks, p.left(), 175int,
{
    unfold_or_tail(lhs, p);
    lemma_settles();
    if p.at(TokenKind::Or) {
        reads_and_from(p.bump());
        let (rhs, q) = sealed_and_from(p.bump());
        reads_binary(BinaryOp::Or, lhs, rhs, q);
        let (e, r) = sealed_binary(BinaryOp::Or, lhs, rhs, q);
        reads_or_tail(e, r.after(p.bump()));
    }
}

#[verifier::spinoff_prover]
proof fn reads_and_from(p: PState)
    ensures
        ({
            let r = sealed_and_from(p);
            fit(p) ==> {
                &&& later(p, r.1)
                &&& clean(p, r.1) ==> {
                    &&& spell_expr(r.0, p.toks, here(p)) == here(r.1)
                    &&& p.pos < r.1.pos && at_token(p)
                    &&& ended(r.0.span, r.1)
                }
            }
        }),
    decreases p.toks, p.left(), 170int,
{
    unfold_and_from(p);
    lemma_settles();
    reads_comparison_from(p);
    let (lhs, q) = sealed_comparison_from(p);
    reads_and_tail(lhs, q.after(p));
}

#[verifier::spinoff_prover]
proof fn reads_and_tail(lhs: ExprV, p: PState)
    ensures
        ({
            let r = sealed_and_tail(lhs, p);
            fit(p) ==> {
                &&& later(p, r.1)
                &&& clean(p, r.1) && ended(lhs.span, p) ==> {
                    &&& forall|i: int|
                        spell_expr(lhs, p.toks, i) == here(p) ==> #[trigger] spell_expr(r.0, p.toks, i) == here(
                            r.1,
                        )
                    &&& ended(r.0.span, r.1)
                }
            }
        }),
    decreases p.toks, p.left(), 165int,
{
    unfold_and_tail(lhs, p);
    lemma_settles();
    if p.at(TokenKind::And) {
        reads_comparison_from(p.bump());
        let (rhs, q) = sealed_comparison_from(p.bump());
        reads_binary(BinaryOp::And, lhs, rhs, q);
        let (e, r) = sealed_binary(BinaryOp::And, lhs, rhs, q);
        reads_and_tail(e, r.after(p.bump()));
    }
}

#[verifier::spinoff_prover]
proof fn reads_comparison_from(p: PState)
    ensures
        ({
            let r = sealed_comparison_from(p);
            fit(p) ==> {
                &&& later(p, r.1)
                &&& clean(p, r.1) ==> {
                    &&& spell_expr(r.0, p.toks, here(p)) == here(r.1)
                    &&& p.pos < r.1.pos && at_token(p)
                    &&& ended(r.0.span, r.1)
                }
            }
        }),
    decreases p.toks, p.left(), 160int,
{
    unfold_comparison_from(p);
    lemma_settles();
    reads_relational_from(p);
    let (lhs, q) = sealed_relational_from(p);
    reads_equality_tail(lhs, q.after(p));
}

#[verifier::spinoff_prover]
proof fn reads_equality_tail(lhs: ExprV, p: PState)
    ensures
        ({
            let r = sealed_equality_tail(lhs, p);
            fit(p) ==> {
                &&& later(p, r.1)
                &&& clean(p, r.1) && ended(lhs.span, p) ==> {
                    &&& forall|i: int|
                        spell_expr(lhs, p.toks, i) == here(p) ==> #[trigger] spell_expr(r.0, p.toks, i) == here(
                            r.1,
                        )
                    &&& ended(r.0.span, r.1)
                }
            }
        }),
    decreases p.toks, p.left(), 155int,
{
    unfold_equality_tail(lhs, p);
    lemma_settles();
    match equality_op(p.kind()) {
        Some(op) => {
            reads_relational_from(p.bump());
            let (rhs, q) = sealed_relational_from(p.bump());
            reads_binary(op, lhs, rhs, q);
            let (e, r) = sealed_binary(op, lhs, rhs, q);
            reads_equality_tail(e, r.after(p.bump()));
        },
        None => {},
    }
}

#[verifier::spinoff_prover]
proof fn reads_relational_from(p: PState)
    ensures
        ({
            let r = sealed_relational_from(p);
            fit(p) ==> {
                &&& later(p, r.1)
                &&& clean(p, r.1) ==> {
                    &&& spell_expr(r.0, p.toks, here(p)) == here(r.1)
                    &&& p.pos < r.1.pos && at_token(p)
                    &&& ended(r.0.span, r.1)
                }
            }
        }),
    decreases p.toks, p.left(), 150int,
{
    unfold_relational_from(p);
    lemma_settles();
    reads_arithmetic_from(p);
    let (lhs, q) = sealed_arithmetic_from(p);
    match relational_op(q.kind()) {
        Some(op) => {
            reads_arithmetic_from(q.after(p).bump());
            let (rhs, r) = sealed_arithmetic_from(q.after(p).bump());
            reads_binary(op, lhs, rhs, r);
        },
        None => {},
    }
}

#[verifier::spinoff_prover]
proof fn reads_arithmetic_from(p: PState)
    ensures
        ({
            let r = sealed_arithmetic_from(p);
            fit(p) ==> {
                &&& later(p, r.1)
                &&& clean(p, r.1) ==> {
                    &&& spell_expr(r.0, p.toks, here(p)) == here(r.1)
                    &&& p.pos < r.1.pos && at_token(p)
                    &&& ended(r.0.span, r.1)
                }
            }
        }),
    decreases p.toks, p.left(), 140int,
{
    unfold_arithmetic_from(p);
    lemma_settles();
    reads_term_from(p);
    let (lhs, q) = sealed_term_from(p);
    reads_additive_tail(lhs, q.after(p));
}

#[verifier::spinoff_prover]
proof fn reads_additive_tail(lhs: ExprV, p: PState)
    ensures
        ({
            let r = sealed_additive_tail(lhs, p);
            fit(p) ==> {
                &&& later(p, r.1)
                &&& clean(p, r.1) && ended(lhs.span, p) ==> {
                    &&& forall|i: int|
                        spell_expr(lhs, p.toks, i) == here(p) ==> #[trigger] spell_expr(r.0, p.toks, i) == here(
                            r.1,
                        )
                    &&& ended(r.0.span, r.1)
                }
            }
        }),
    decreases p.toks, p.left(), 135int,
{
    unfold_additive_tail(lhs, p);
    lemma_settles();
    match additive_op(p.kind()) {
        Some(op) => {
            reads_term_from(p.bump());
            let (rhs, q) = sealed_term_from(p.bump());
            reads_binary(op, lhs, rhs, q);
            let (e, r) = sealed_binary(op, lhs, rhs, q);
            reads_additive_tail(e, r.after(p.bump()));
        },
        None => {},
    }
}

#[verifier::spinoff_prover]
proof fn reads_term_from(p: PState)
    ensures
        ({
            let r = sealed_term_from(p);
            fit(p) ==> {
                &&& later(p, r.1)
                &&& clean(p, r.1) ==> {
                    &&& spell_expr(r.0, p.toks, here(p)) == here(r.1)
                    &&& p.pos < r.1.pos && at_token(p)
                    &&& ended(r.0.span, r.1)
                }
            }
        }),
    decreases p.toks, p.left(), 130int,
{
    unfold_term_from(p);
    lemma_settles();
    reads_unary_from(p);
    let (lhs, q) = sealed_unary_from(p);
    reads_multiplicative_tail(lhs, q.after(p));
}

#[verifier::spinoff_prover]
proof fn reads_multiplicative_tail(lhs: ExprV, p: PState)
    ensures
        ({
            let r = sealed_multiplicative_tail(lhs, p);
            fit(p) ==> {
                &&& later(p, r.1)
                &&& clean(p, r.1) && ended(lhs.span, p) ==> {
                    &&& forall|i: int|
                        spell_expr(lhs, p.toks, i) == here(p) ==> #[trigger] spell_expr(r.0, p.toks, i) == here(
                            r.1,
                        )
                    &&& ended(r.0.span, r.1)
                }
            }
        }),
    decreases p.toks, p.left(), 125int,
{
    unfold_multiplicative_tail(lhs, p);
    lemma_settles();
    match multiplicative_op(p.kind()) {
        Some(op) => {
            reads_unary_from(p.bump());
            let (rhs, q) = sealed_unary_from(p.bump());
            reads_binary(op, lhs, rhs, q);
            let (e, r) = sealed_binary(op, lhs, rhs, q);
            reads_multiplicative_tail(e, r.after(p.bump()));
        },
        None => {},
    }
}

#[verifier::spinoff_prover]
proof fn reads_unary_from(p: PState)
    ensures
        ({
            let r = sealed_unary_from(p);
            fit(p) ==> {
                &&& later(p, r.1)
                &&& clean(p, r.1) ==> {
                    &&& spell_expr(r.0, p.toks, here(p)) == here(r.1)
                    &&& p.pos < r.1.pos && at_token(p)
                    &&& ended(r.0.span, r.1)
                }
            }
        }),
    decreases p.toks, p.left(), 120int,
{
    unfold_unary_from(p);
    lemma_settles();
    let start = p.current_span();
    match unary_op(p.kind()) {
        Some(op) => {
            let q = p.bump();
            if q.depth >= MAX_PARSE_DEPTH {
                reads_poison(q.too_deep(start), start);
            } else {
                reads_unary_from(q.deeper());
            }
            let (operand, r) = if q.depth >= MAX_PARSE_DEPTH {
                poison(q.too_deep(start), start)
            } else {
                let (e, s) = sealed_unary_from(q.deeper());
                (e, s.at_depth(q.depth))
            };
            reads_node(
                r,
                ExprKindV::Unary { op, operand: Box::new(operand) },
                between(start, operand.span),
            );
        },
        None => {
            reads_postfix_from(p);
        },
    }
}

#[verifier::spinoff_prover]
proof fn reads_postfix_from(p: PState)
    ensures
        ({
            let r = sealed_postfix_from(p);
            fit(p) ==> {
                &&& later(p, r.1)
                &&& clean(p, r.1) ==> {
                    &&& spell_expr(r.0, p.toks, here(p)) == here(r.1)
                    &&& p.pos < r.1.pos && at_token(p)
                    &&& ended(r.0.span, r.1)
                }
            }
        }),
    decreases p.toks, p.left(), 110int,
{
    unfold_postfix_from(p);
    lemma_settles();
    reads_primary_from(p);
    let (e, q) = sealed_primary_from(p);
    reads_postfix_tail(e, q.after(p));
}

#[verifier::spinoff_prover]
proof fn reads_postfix_tail(e: ExprV, p: PState)
    ensures
        ({
            let r = sealed_postfix_tail(e, p);
            fit(p) ==> {
                &&& later(p, r.1)
                &&& clean(p, r.1) && ended(e.span, p) ==> {
                    &&& forall|i: int|
                        spell_expr(e, p.toks, i) == here(p) ==> #[trigger] spell_expr(r.0, p.toks, i) == here(
                            r.1,
                        )
                    &&& ended(r.0.span, r.1)
                }
            }
        }),
    decreases p.toks, p.left(), 105int,
{
    unfold_postfix_tail(e, p);
    lemma_settles();
    walks(p);
    lemma_list_args();
    lemma_list_types();
    open_expr(e);
    let p1 = p.bump();
    match p.kind() {
        Some(TokenKind::Dot) => {
            reads_dot_rest(e, p1);
            let (e2, q) = sealed_dot_rest(e, p1);
            reads_postfix_tail(e2, q.after(p1));
        },
        Some(TokenKind::LParen) => {
            reads_args_rest(p.current_span().start.line, p1);
            let (args, was_multiline, q) = sealed_args_rest(p.current_span().start.line, p1);
            reads_node(
                q,
                ExprKindV::Call {
                    callee: Box::new(e),
                    type_args: Seq::empty(),
                    args,
                    was_multiline,
                },
                between(e.span, q.previous_span()),
            );
            let (e2, r) = node(
                q,
                ExprKindV::Call {
                    callee: Box::new(e),
                    type_args: Seq::empty(),
                    args,
                    was_multiline,
                },
                between(e.span, q.previous_span()),
            );
            reads_postfix_tail(e2, r.after(p1));
        },
        Some(TokenKind::LBracket) => {
            if p.explicit_type_args() {
                reads_type_args_rest(p1);
                let (type_args, q) = sealed_type_args_rest(p1);
                let q1 = q.after(p1);
                reads_args_rest(q1.current_span().start.line, q1.bump());
                let (args, was_multiline, r) = sealed_args_rest(
                    q1.current_span().start.line,
                    q1.bump(),
                );
                reads_node(
                    r,
                    ExprKindV::Call { callee: Box::new(e), type_args, args, was_multiline },
                    between(e.span, r.previous_span()),
                );
                let (e2, s) = node(
                    r,
                    ExprKindV::Call { callee: Box::new(e), type_args, args, was_multiline },
                    between(e.span, r.previous_span()),
                );
                reads_postfix_tail(e2, s.after(p1));
            } else {
                reads_expr_from(p1);
                let (index, q) = sealed_expr_from(p1);
                let r = q.expect(TokenKind::RBracket, "`]`"@);
                reads_node(
                    r,
                    ExprKindV::Index { target: Box::new(e), index: Box::new(index) },
                    between(e.span, r.previous_span()),
                );
                let (e2, s) = node(
                    r,
                    ExprKindV::Index { target: Box::new(e), index: Box::new(index) },
                    between(e.span, r.previous_span()),
                );
                reads_postfix_tail(e2, s.after(p1));
            }
        },
        Some(TokenKind::Question) => {
            let q = if p1.no_question {
                p1.unexpected(
                    p1.previous_span(),
                    "a bare `?` inside a par branch (or a lambda body passed to one) is forbidden (D-PAR-03)"@,
                )
            } else {
                p1
            };
            reads_node(
                q,
                ExprKindV::Question { target: Box::new(e) },
                between(e.span, q.previous_span()),
            );
            let (e2, r) = node(
                q,
                ExprKindV::Question { target: Box::new(e) },
                between(e.span, q.previous_span()),
            );
            reads_postfix_tail(e2, r.after(p1));
        },
        _ => {},
    }
}

#[verifier::spinoff_prover]
proof fn reads_dot_rest(receiver: ExprV, p: PState)
    ensures
        ({
            let r = sealed_dot_rest(receiver, p);
            fit(p) ==> {
                &&& later(p, r.1)
                &&& clean(p, r.1) && 0 < p.pos && p.toks[p.pos - 1].kind is Dot ==> {
                    &&& forall|i: int|
                        tok(p.toks, TokenKind::Dot, spell_expr(receiver, p.toks, i)) == here(p) ==> #[trigger] spell_expr(r.0, p.toks, i) == here(
                            r.1,
                        )
                    &&& ended(r.0.span, r.1)
                }
            }
        }),
    decreases p.toks, p.left(), 310int,
{
    unfold_dot_rest(receiver, p);
    lemma_settles();
    lemma_list_args();
    lemma_list_types();
    open_expr(receiver);
    lemma_index(p);
    match p.kind() {
        Some(TokenKind::IntLiteral(n)) => {
            let q = p.bump();
            reads_node(
                q,
                ExprKindV::TupleIndex { target: Box::new(receiver), index: n as u32 },
                between(receiver.span, q.previous_span()),
            );
        },
        Some(TokenKind::Ident(name)) => {
            let q = p.bump();
            if q.explicit_type_args() {
                reads_type_args_rest(q.bump());
            }
            let (type_args, r) = if q.explicit_type_args() {
                sealed_type_args_rest(q.bump())
            } else {
                (Seq::empty(), q)
            };
            if r.at(TokenKind::LParen) {
                reads_args_rest(r.current_span().start.line, r.after(q).bump());
                let (args, was_multiline, s) = sealed_args_rest(
                    r.current_span().start.line,
                    r.after(q).bump(),
                );
                reads_node(
                    s,
                    ExprKindV::MethodCall {
                        receiver: Box::new(receiver),
                        method: name@,
                        type_args,
                        args,
                        was_multiline,
                    },
                    between(receiver.span, s.previous_span()),
                );
            } else {
                let s = if type_args.len() > 0 {
                    r.unexpected(
                        r.previous_span(),
                        "an explicit type argument list must be followed by a call `(...)`"@,
                    )
                } else {
                    r
                };
                reads_node(
                    s,
                    ExprKindV::FieldAccess { target: Box::new(receiver), field: name@ },
                    between(receiver.span, s.previous_span()),
                );
            }
        },
        _ => {},
    }
}

#[verifier::spinoff_prover]
proof fn reads_primary_from(p: PState)
    ensures
        ({
            let r = sealed_primary_from(p);
            fit(p) ==> {
                &&& later(p, r.1)
                &&& clean(p, r.1) ==> {
                    &&& spell_expr(r.0, p.toks, here(p)) == here(r.1)
                    &&& p.pos < r.1.pos && at_token(p)
                    &&& ended(r.0.span, r.1)
                }
            }
        }),
    decreases p.toks, p.left(), 100int,
{
    unfold_primary_from(p);
    lemma_settles();
    let start = p.current_span();
    let p1 = p.bump();
    match p.kind() {
        Some(TokenKind::IntLiteral(n)) => {
            reads_node(p1, ExprKindV::IntLit(n), start);
        },
        Some(TokenKind::FloatLiteral(s)) => {
            reads_node(p1, ExprKindV::FloatLit(s@), start);
        },
        Some(TokenKind::True) => {
            reads_node(p1, ExprKindV::BoolLit(true), start);
        },
        Some(TokenKind::False) => {
            reads_node(p1, ExprKindV::BoolLit(false), start);
        },
        Some(TokenKind::StringLiteral(s)) => {
            reads_node(p1, ExprKindV::StringLit(s@), start);
        },
        Some(TokenKind::FString(_)) => {
            reads_segments_tail(Seq::empty(), p.pos, 0, p1);
            let (segments, q) = sealed_segments_tail(Seq::empty(), p.pos, 0, p1);
            reads_node(q, ExprKindV::FString(segments), between(start, q.previous_span()));
        },
        Some(TokenKind::KwSelf) => {
            reads_node(p1, ExprKindV::Ident("self"@), start);
        },
        Some(TokenKind::Ident(name)) => {
            reads_node(p1, ExprKindV::Ident(name@), start);
        },
        Some(TokenKind::LParen) => {
            if close_followed(p.toks, p.pos, 0, TokenKind::FatArrow) {
                reads_lambda_rest(start, p1);
            } else {
                reads_paren_rest(start, p1);
            }
        },
        Some(TokenKind::LBracket) => {
            reads_list_rest(start, p1);
        },
        Some(TokenKind::LBrace) => {
            reads_brace_rest(start, p1);
        },
        Some(TokenKind::If) => {
            reads_if_rest(start, p1);
            let (i, q) = sealed_if_rest(start, p1);
            reads_node(q, ExprKindV::If(Box::new(i)), i.span);
        },
        Some(TokenKind::Match) => {
            reads_match_rest(start, p1);
        },
        Some(TokenKind::Par) => {
            reads_par_rest(start, p1);
        },
        _ => {
            reads_poison(
                p.unexpected(start, "expected an expression but did not find one"@).bump(),
                start,
            );
        },
    }
    if fit(p) && clean(p, sealed_primary_from(p).1) {
        let t = p.toks;
        assert(starts(start, t, p.pos));
        match p.kind() {
            Some(TokenKind::If) => {
                let (i, q) = sealed_if_rest(start, p1);
                assert(tok(t, TokenKind::If, p.pos) == here(p1));
                assert(spell_if(i, t, p.pos) == here(q));
                open_if(i);
                assert(spans(i.span, t, p.pos, here(q)));
                let e = node(q, ExprKindV::If(Box::new(i)), i.span).0;
                assert(opened_kind(e.kind, t, p.pos) == here(q));
                assert(spell_expr(e, t, p.pos) == here(q));
            },
            Some(TokenKind::FString(_)) => {
                let (segments, q) = sealed_segments_tail(Seq::empty(), p.pos, 0, p1);
                let e = node(q, ExprKindV::FString(segments), between(start, q.previous_span())).0;
                assert(opened_kind(e.kind, t, p.pos) == here(q));
                assert(spell_expr(e, t, p.pos) == here(q));
            },
            _ => {},
        }
    }
}

#[verifier::spinoff_prover]
proof fn reads_segments_tail(acc: Seq<SegmentV>, at: int, i: int, p: PState)
    ensures
        ({
            let r = sealed_segments_tail(acc, at, i, p);
            fit(p) ==> {
                &&& later(p, r.1) && r.1.pos == p.pos
                &&& clean(p, r.1) && 0 <= at < p.toks.len() && p.toks[at].kind is FString && acc.len(
                )
                    == i && segments_are(acc, p.toks[at].kind->FString_0@) ==> spell_segments(
                    r.0,
                    p.toks[at].kind->FString_0@,
                )
            }
        }),
    decreases p.toks, p.left(), part_count(p.toks, at) - i,
{
    unfold_segments_tail(acc, at, i, p);
    if 0 <= i < part_count(p.toks, at) {
        let parts = p.toks[at].kind->FString_0@;
        match parts[i] {
            FStringPart::Text(text) => {
                let more = acc.push(SegmentV::Text(text@));
                reads_segments_tail(more, at, i + 1, p);
            },
            FStringPart::Expr(sub) => {
                let inner = PState { toks: sub@, pos: 0, ..p };
                if fit(p) {
                    reveal(well_lexed);
                    assert(p.toks[at].kind matches TokenKind::FString(_));
                    assert(parts[i] matches FStringPart::Expr(_));
                }
                reads_expr_from(inner);
                let (e, q) = sealed_expr_from(inner);
                let r = if q.pos < q.toks.len() {
                    q.unexpected(
                        q.current_span(),
                        "there are extra tokens in the f-string's expression"@,
                    )
                } else {
                    q
                };
                let more = acc.push(SegmentV::Expr(Box::new(e)));
                reads_segments_tail(more, at, i + 1, PState { toks: p.toks, pos: p.pos, ..r });
            },
        }
    } else {
        open_segments(acc, p.toks[at].kind->FString_0@);
    }
}

#[verifier::spinoff_prover]
proof fn reads_paren_rest(start: Span, p: PState)
    ensures
        ({
            let r = sealed_paren_rest(start, p);
            fit(p) ==> {
                &&& later(p, r.1)
                &&& clean(p, r.1) ==> {
                    &&& forall|i: int|
                        tok(p.toks, TokenKind::LParen, i) == here(p) && starts(start, p.toks, i) ==> #[trigger] spell_expr(r.0, p.toks, i) == here(
                            r.1,
                        )
                    &&& ended(r.0.span, r.1)
                }
            }
        }),
    decreases p.toks, p.left(), 310int,
{
    unfold_paren_rest(start, p);
    lemma_settles();
    lemma_list_exprs();
    if p.at(TokenKind::RParen) {
        let q = p.bump();
        reads_node(
            q,
            ExprKindV::TupleLit { elements: Seq::empty(), was_multiline: false },
            between(start, q.previous_span()),
        );
    } else {
        reads_expr_from(p);
        let (first, q) = sealed_expr_from(p);
        if q.at(TokenKind::Comma) {
            reads_exprs_from(seq![first], q.after(p).bump(), TokenKind::RParen);
            let (elements, r) = sealed_exprs_from(
                seq![first],
                q.after(p).bump(),
                TokenKind::RParen,
            );
            let was_multiline = start.start.line != r.current_span().start.line;
            let s = r.expect(TokenKind::RParen, "`)`"@);
            reads_node(
                s,
                ExprKindV::TupleLit { elements, was_multiline },
                between(start, s.previous_span()),
            );
        } else {
            let s = q.expect(TokenKind::RParen, "`)`"@);
            reads_node(s, ExprKindV::Grouping(Box::new(first)), between(start, s.previous_span()));
        }
    }
}

#[verifier::spinoff_prover]
proof fn reads_exprs_from(acc: Seq<ExprV>, p: PState, closing: TokenKind)
    requires
        closer(closing),
    ensures
        ({
            let r = sealed_exprs_from(acc, p, closing);
            fit(p) ==> {
                &&& later(p, r.1)
                &&& clean(p, r.1) ==> {
                    &&& forall|i: int|
                        spell_exprs(acc, p.toks, i) == here(p) ==> #[trigger] spell_exprs(r.0, p.toks, i) == here(
                            r.1,
                        )
                }
            }
        }),
    decreases p.toks, p.left(), 250int,
{
    unfold_exprs_from(acc, p, closing);
    lemma_settles();
    lemma_list_exprs();
    if !p.at(closing) {
        reads_expr_from(p);
        let (e, q) = sealed_expr_from(p);
        reads_exprs_tail(acc.push(e), q.after(p), closing);
    }
}

#[verifier::spinoff_prover]
proof fn reads_exprs_tail(acc: Seq<ExprV>, p: PState, closing: TokenKind)
    requires
        closer(closing),
    ensures
        ({
            let r = sealed_exprs_tail(acc, p, closing);
            fit(p) ==> {
                &&& later(p, r.1)
                &&& clean(p, r.1) ==> {
                    &&& forall|i: int|
                        spell_exprs(acc, p.toks, i) == here(p) ==> #[trigger] spell_exprs(r.0, p.toks, i) == here(
                            r.1,
                        )
                }
            }
        }),
    decreases p.toks, p.left(), 240int,
{
    unfold_exprs_tail(acc, p, closing);
    lemma_settles();
    lemma_list_exprs();
    if p.at(TokenKind::Comma) {
        let q = p.bump();
        if !q.at(closing) {
            reads_expr_from(q);
            let (e, r) = sealed_expr_from(q);
            reads_exprs_tail(acc.push(e), r.after(q), closing);
        }
    }
}

#[verifier::spinoff_prover]
proof fn reads_entry_from(p: PState)
    ensures
        ({
            let r = sealed_entry_from(p);
            fit(p) ==> {
                &&& later(p, r.1)
                &&& clean(p, r.1) ==> {
                    &&& spell_entry(r.0, p.toks, here(p)) == here(r.1)
                }
            }
        }),
    decreases p.toks, p.left(), 230int,
{
    unfold_entry_from(p);
    lemma_settles();
    open_entry(sealed_entry_from(p).0);
    lemma_entries_open();
    reads_expr_from(p);
    let (key, q) = sealed_expr_from(p);
    reads_expr_from(q.expect(TokenKind::Colon, "`:`"@).after(p));
}

#[verifier::spinoff_prover]
proof fn reads_entries_tail(acc: Seq<(ExprV, ExprV)>, p: PState)
    ensures
        ({
            let r = sealed_entries_tail(acc, p);
            fit(p) ==> {
                &&& later(p, r.1)
                &&& clean(p, r.1) ==> {
                    &&& forall|i: int|
                        spell_entries(acc, p.toks, i) == here(p) ==> #[trigger] spell_entries(r.0, p.toks, i) == here(
                            r.1,
                        )
                }
            }
        }),
    decreases p.toks, p.left(), 240int,
{
    unfold_entries_tail(acc, p);
    lemma_settles();
    lemma_list_entries();
    lemma_entries_open();
    if p.at(TokenKind::Comma) {
        let q = p.bump();
        if !q.at(TokenKind::RBrace) {
            reads_entry_from(q);
            let (e, r) = sealed_entry_from(q);
            reads_entries_tail(acc.push(e), r.after(q));
        }
    }
}

#[verifier::spinoff_prover]
proof fn reads_lambda_rest(start: Span, p: PState)
    ensures
        ({
            let r = sealed_lambda_rest(start, p);
            fit(p) ==> {
                &&& later(p, r.1)
                &&& clean(p, r.1) ==> {
                    &&& forall|i: int|
                        tok(p.toks, TokenKind::LParen, i) == here(p) && starts(start, p.toks, i) ==> #[trigger] spell_expr(r.0, p.toks, i) == here(
                            r.1,
                        )
                    &&& ended(r.0.span, r.1)
                }
            }
        }),
    decreases p.toks, p.left(), 310int,
{
    unfold_lambda_rest(start, p);
    lemma_settles();
    reads_lambda_params_from(p);
    let (params, q) = sealed_lambda_params_from(p);
    let r = q.after(p).expect(TokenKind::RParen, "`)`"@).expect(TokenKind::FatArrow, "`=>`"@);
    reads_expr_from(r.after(p).forbidding(false));
    let (body, s) = sealed_expr_from(r.after(p).forbidding(false));
    let t = s.forbidding(p.no_question);
    reads_node(
        t,
        ExprKindV::Lambda { params, body: Box::new(body) },
        between(start, t.previous_span()),
    );
}

#[verifier::spinoff_prover]
proof fn reads_list_rest(start: Span, p: PState)
    ensures
        ({
            let r = sealed_list_rest(start, p);
            fit(p) ==> {
                &&& later(p, r.1)
                &&& clean(p, r.1) ==> {
                    &&& forall|i: int|
                        tok(p.toks, TokenKind::LBracket, i) == here(p) && starts(start, p.toks, i) ==> #[trigger] spell_expr(r.0, p.toks, i) == here(
                            r.1,
                        )
                    &&& ended(r.0.span, r.1)
                }
            }
        }),
    decreases p.toks, p.left(), 310int,
{
    unfold_list_rest(start, p);
    lemma_settles();
    lemma_list_exprs();
    reads_exprs_from(Seq::empty(), p, TokenKind::RBracket);
    let (elements, q) = sealed_exprs_from(Seq::empty(), p, TokenKind::RBracket);
    let was_multiline = start.start.line != q.current_span().start.line;
    let r = q.expect(TokenKind::RBracket, "`]`"@);
    reads_node(
        r,
        ExprKindV::ListLit { elements, was_multiline },
        between(start, r.previous_span()),
    );
}

#[verifier::spinoff_prover]
proof fn reads_brace_rest(start: Span, p: PState)
    ensures
        ({
            let r = sealed_brace_rest(start, p);
            fit(p) ==> {
                &&& later(p, r.1)
                &&& clean(p, r.1) ==> {
                    &&& forall|i: int|
                        tok(p.toks, TokenKind::LBrace, i) == here(p) && starts(start, p.toks, i) ==> #[trigger] spell_expr(r.0, p.toks, i) == here(
                            r.1,
                        )
                    &&& ended(r.0.span, r.1)
                }
            }
        }),
    decreases p.toks, p.left(), 310int,
{
    unfold_brace_rest(start, p);
    lemma_settles();
    lemma_list_exprs();
    lemma_list_entries();
    lemma_entries_open();
    lemma_list_exprs();
    lemma_list_entries();
    if p.at(TokenKind::RBrace) {
        let q = p.bump();
        reads_node(
            q,
            ExprKindV::DictLit { entries: Seq::empty(), was_multiline: false },
            between(start, q.previous_span()),
        );
    } else {
        reads_expr_from(p);
        let (first, q) = sealed_expr_from(p);
        if q.at(TokenKind::Colon) {
            reads_expr_from(q.after(p).bump());
            let (value, r) = sealed_expr_from(q.after(p).bump());
            reads_entries_tail(seq![(first, value)], r.after(p));
            let (entries, s) = sealed_entries_tail(seq![(first, value)], r.after(p));
            let was_multiline = start.start.line != s.current_span().start.line;
            let t = s.expect(TokenKind::RBrace, "`}`"@);
            reads_node(
                t,
                ExprKindV::DictLit { entries, was_multiline },
                between(start, t.previous_span()),
            );
        } else {
            reads_exprs_tail(seq![first], q.after(p), TokenKind::RBrace);
            let (elements, s) = sealed_exprs_tail(seq![first], q.after(p), TokenKind::RBrace);
            let was_multiline = start.start.line != s.current_span().start.line;
            let t = s.expect(TokenKind::RBrace, "`}`"@);
            reads_node(
                t,
                ExprKindV::SetLit { elements, was_multiline },
                between(start, t.previous_span()),
            );
        }
    }
}

#[verifier::spinoff_prover]
proof fn reads_match_rest(start: Span, p: PState)
    ensures
        ({
            let r = sealed_match_rest(start, p);
            fit(p) ==> {
                &&& later(p, r.1)
                &&& clean(p, r.1) ==> {
                    &&& forall|i: int|
                        tok(p.toks, TokenKind::Match, i) == here(p) && starts(start, p.toks, i) ==> #[trigger] spell_expr(r.0, p.toks, i) == here(
                            r.1,
                        )
                    &&& ended(r.0.span, r.1)
                }
            }
        }),
    decreases p.toks, p.left(), 310int,
{
    unfold_match_rest(start, p);
    lemma_settles();
    lemma_list_arms();
    reveal_with_fuel(settle, 3);
    reads_expr_from(p);
    let (scrutinee, q) = sealed_expr_from(p);
    if q.indented_ahead() {
        reads_arms_block(Seq::empty(), q.after(p).bump().bump());
    } else {
        reads_arms_inline(Seq::empty(), q.after(p));
    }
    let (arms, r) = if q.indented_ahead() {
        sealed_arms_block(Seq::empty(), q.after(p).bump().bump())
    } else {
        sealed_arms_inline(Seq::empty(), q.after(p))
    };
    reads_node(
        r,
        ExprKindV::Match { scrutinee: Box::new(scrutinee), arms },
        between(start, r.previous_span()),
    );
}

#[verifier::spinoff_prover]
proof fn reads_arms_block(acc: Seq<ArmV>, p: PState)
    ensures
        ({
            let r = sealed_arms_block(acc, p);
            fit(p) ==> {
                &&& later(p, r.1)
                &&& clean(p, r.1) ==> {
                    &&& forall|i: int|
                        spell_arms(acc, p.toks, i) == here(p) ==> #[trigger] spell_arms(r.0, p.toks, i) == here(
                            r.1,
                        )
                }
            }
        }),
    decreases p.toks, p.left(), 300int,
{
    unfold_arms_block(acc, p);
    lemma_settles();
    lemma_list_arms();
    reads_newlines(p);
    let q = p.newlines().after(p);
    if !q.at(TokenKind::Dedent) {
        if !q.at_end() {
            reads_arm_from(q);
            let (arm, r) = sealed_arm_from(q);
            reads_arms_block(acc.push(arm), r.after(q.bump()));
        }
    }
}

#[verifier::spinoff_prover]
proof fn reads_arms_inline(acc: Seq<ArmV>, p: PState)
    ensures
        ({
            let r = sealed_arms_inline(acc, p);
            fit(p) ==> {
                &&& later(p, r.1)
                &&& clean(p, r.1) ==> {
                    &&& forall|i: int|
                        spell_arms(acc, p.toks, i) == here(p) ==> #[trigger] spell_arms(r.0, p.toks, i) == here(
                            r.1,
                        )
                }
            }
        }),
    decreases p.toks, p.left(), 300int,
{
    unfold_arms_inline(acc, p);
    lemma_settles();
    lemma_list_arms();
    if p.at_pattern_start() {
        reads_arm_from(p);
        let (arm, r) = sealed_arm_from(p);
        reads_arms_inline(acc.push(arm), r.after(p.bump()));
    }
}

#[verifier::spinoff_prover]
proof fn reads_arm_from(p: PState)
    ensures
        ({
            let r = sealed_arm_from(p);
            fit(p) ==> {
                &&& later(p, r.1)
                &&& p.pos < p.toks.len() ==> p.pos < r.1.pos
                &&& clean(p, r.1) ==> {
                    &&& spell_arm(r.0, p.toks, here(p)) == here(r.1)
                }
            }
        }),
    decreases p.toks, p.left(), 290int,
{
    unfold_arm_from(p);
    lemma_settles();
    open_arm(sealed_arm_from(p).0);
    reads_pattern_from(p);
    let (pattern, q) = sealed_pattern_from(p);
    reads_arm_body_from(q.expect(TokenKind::FatArrow, "`=>`"@).after(p));
}

#[verifier::spinoff_prover]
proof fn reads_arm_body_from(p: PState)
    ensures
        ({
            let r = sealed_arm_body_from(p);
            fit(p) ==> {
                &&& later(p, r.1)
                &&& clean(p, r.1) ==> {
                    &&& spell_arm_body(r.0, p.toks, here(p)) == here(r.1)
                }
            }
        }),
    decreases p.toks, p.left(), 280int,
{
    unfold_arm_body_from(p);
    lemma_settles();
    open_arm_body(sealed_arm_body_from(p).0);
    if p.indented_ahead() {
        reads_block_from(p);
    } else {
        reads_expr_from(p);
    }
}

#[verifier::spinoff_prover]
proof fn reads_par_rest(start: Span, p: PState)
    ensures
        ({
            let r = sealed_par_rest(start, p);
            fit(p) ==> {
                &&& later(p, r.1)
                &&& clean(p, r.1) ==> {
                    &&& forall|i: int|
                        tok(p.toks, TokenKind::Par, i) == here(p) && starts(start, p.toks, i) ==> #[trigger] spell_expr(r.0, p.toks, i) == here(
                            r.1,
                        )
                    &&& ended(r.0.span, r.1)
                }
            }
        }),
    decreases p.toks, p.left(), 310int,
{
    unfold_par_rest(start, p);
    lemma_settles();
    if p.at(TokenKind::LBracket) {
        reads_par_elements(start, ParKind::List, TokenKind::RBracket, "`]`"@, p.bump());
    } else {
        if p.at(TokenKind::LParen) {
            reads_par_elements(start, ParKind::Tuple, TokenKind::RParen, "`)`"@, p.bump());
        } else {
            reads_poison(p.unexpected(start, "`par` must be followed by `[` or `(`"@), start);
        }
    }
}

#[verifier::spinoff_prover]
proof fn reads_par_elements(
    start: Span,
    kind: ParKind,
    closing: TokenKind,
    closing_text: Seq<char>,
    p: PState,
)
    requires
        (kind is List && closing is RBracket) || (kind is Tuple && closing is RParen),
    ensures
        ({
            let r = sealed_par_elements(start, kind, closing, closing_text, p);
            fit(p) ==> {
                &&& later(p, r.1)
                &&& clean(p, r.1) ==> {
                    &&& forall|i: int|
                        (if kind is List {
                            tok(p.toks, TokenKind::LBracket, tok(p.toks, TokenKind::Par, i))
                        } else {
                            tok(p.toks, TokenKind::LParen, tok(p.toks, TokenKind::Par, i))
                        }) == here(p) && starts(start, p.toks, i) ==> #[trigger] spell_expr(r.0, p.toks, i) == here(
                            r.1,
                        )
                    &&& ended(r.0.span, r.1)
                }
            }
        }),
    decreases p.toks, p.left(), 300int,
{
    unfold_par_elements(start, kind, closing, closing_text, p);
    lemma_settles();
    lemma_list_exprs();
    reads_exprs_from(Seq::empty(), p.forbidding(true), closing);
    let (elements, q) = sealed_exprs_from(Seq::empty(), p.forbidding(true), closing);
    let r = q.forbidding(p.no_question).expect(closing, closing_text);
    reads_node(r, ExprKindV::Par { kind, elements }, between(start, r.previous_span()));
}

#[verifier::spinoff_prover]
proof fn reads_args_rest(open_line: u32, p: PState)
    ensures
        ({
            let r = sealed_args_rest(open_line, p);
            fit(p) ==> {
                &&& later(p, r.2)
                &&& clean(p, r.2) ==> {
                    &&& tok(p.toks, TokenKind::RParen, spell_args(r.0, p.toks, here(p))) == here(
                        r.2,
                    )
                }
            }
        }),
    decreases p.toks, p.left(), 300int,
{
    unfold_args_rest(open_line, p);
    lemma_settles();
    reads_args_from(p);
}

#[verifier::spinoff_prover]
proof fn reads_args_from(p: PState)
    ensures
        ({
            let r = sealed_args_from(p);
            fit(p) ==> {
                &&& later(p, r.1)
                &&& clean(p, r.1) ==> {
                    &&& spell_args(r.0, p.toks, here(p)) == here(r.1)
                }
            }
        }),
    decreases p.toks, p.left(), 250int,
{
    unfold_args_from(p);
    lemma_settles();
    lemma_list_args();
    if !p.at(TokenKind::RParen) {
        reads_arg_from(p);
        let (a, q) = sealed_arg_from(p);
        reads_args_tail(seq![a], q.after(p));
    }
}

#[verifier::spinoff_prover]
proof fn reads_args_tail(acc: Seq<ArgV>, p: PState)
    ensures
        ({
            let r = sealed_args_tail(acc, p);
            fit(p) ==> {
                &&& later(p, r.1)
                &&& clean(p, r.1) ==> {
                    &&& forall|i: int|
                        spell_args(acc, p.toks, i) == here(p) ==> #[trigger] spell_args(r.0, p.toks, i) == here(
                            r.1,
                        )
                }
            }
        }),
    decreases p.toks, p.left(), 240int,
{
    unfold_args_tail(acc, p);
    lemma_settles();
    lemma_list_args();
    if p.at(TokenKind::Comma) {
        let q = p.bump();
        if !q.at(TokenKind::RParen) {
            reads_arg_from(q);
            let (a, r) = sealed_arg_from(q);
            reads_args_tail(acc.push(a), r.after(q));
        }
    }
}

#[verifier::spinoff_prover]
proof fn reads_arg_from(p: PState)
    ensures
        ({
            let r = sealed_arg_from(p);
            fit(p) ==> {
                &&& later(p, r.1)
                &&& clean(p, r.1) ==> {
                    &&& spell_arg(r.0, p.toks, here(p)) == here(r.1)
                }
            }
        }),
    decreases p.toks, p.left(), 230int,
{
    unfold_arg_from(p);
    lemma_settles();
    open_arg(sealed_arg_from(p).0);
    match p.kind() {
        Some(TokenKind::Underscore) => {
            reads_node(p.bump(), ExprKindV::Ident("_"@), p.current_span());
        },
        Some(TokenKind::Ident(name)) => {
            if p.kind_at(1) == Some(TokenKind::Colon) {
                reads_expr_from(p.bump().bump());
            } else {
                reads_expr_from(p);
            }
        },
        _ => {
            reads_expr_from(p);
        },
    }
}

#[verifier::spinoff_prover]
proof fn reads_block_from(p: PState)
    ensures
        ({
            let r = sealed_block_from(p);
            fit(p) ==> {
                &&& later(p, r.1)
                &&& clean(p, r.1) ==> {
                    &&& spell_block(r.0, p.toks, here(p)) == here(r.1)
                }
            }
        }),
    decreases p.toks, p.left(), 270int,
{
    unfold_block_from(p);
    lemma_settles();
    open_block(sealed_block_from(p).0);
    lemma_list_stmts();
    reveal_with_fuel(settle, 3);
    let q = if p.at(TokenKind::Newline) {
        p.bump()
    } else {
        p
    };
    if q.at(TokenKind::Indent) {
        reads_stmts_tail(Seq::empty(), q.bump());
    }
}

#[verifier::spinoff_prover]
proof fn reads_stmts_tail(acc: Seq<StmtV>, p: PState)
    ensures
        ({
            let r = sealed_stmts_tail(acc, p);
            fit(p) ==> {
                &&& later(p, r.1)
                &&& clean(p, r.1) ==> {
                    &&& forall|i: int|
                        spell_stmts(acc, p.toks, i) == here(p) ==> #[trigger] spell_stmts(r.0, p.toks, i) == here(
                            r.1,
                        )
                }
            }
        }),
    decreases p.toks, p.left(), 400int,
{
    unfold_stmts_tail(acc, p);
    lemma_settles();
    lemma_list_stmts();
    reads_newlines(p);
    let q = p.newlines().after(p);
    if !q.at(TokenKind::Dedent) {
        if !q.at_end() {
            reads_stmt_or_skip_from(q);
            let (s, r) = sealed_stmt_or_skip_from(q);
            reads_stmts_tail(acc.push(s), r.after(q.bump()));
        }
    }
}

#[verifier::spinoff_prover]
proof fn reads_stmt_or_skip_from(p: PState)
    ensures
        ({
            let r = sealed_stmt_or_skip_from(p);
            fit(p) ==> {
                &&& later(p, r.1)
                &&& p.pos < p.toks.len() ==> p.pos < r.1.pos
                &&& clean(p, r.1) ==> {
                    &&& spell_stmt(r.0, p.toks, here(p)) == here(r.1)
                }
            }
        }),
    decreases p.toks, p.left(), 360int,
{
    unfold_stmt_or_skip_from(p);
    lemma_settles();
    reads_stmt_from(p);
    let (s, q) = sealed_stmt_from(p);
    if !(q.pos > p.pos) {
        reads_sync(q.bump(), 0);
    }
}

#[verifier::spinoff_prover]
proof fn reads_stmt_from(p: PState)
    ensures
        ({
            let r = sealed_stmt_from(p);
            fit(p) ==> {
                &&& later(p, r.1)
                &&& clean(p, r.1) ==> {
                    &&& spell_stmt(r.0, p.toks, here(p)) == here(r.1)
                    &&& p.pos < r.1.pos && at_token(p)
                }
            }
        }),
    decreases p.toks, p.left(), 350int,
{
    unfold_stmt_from(p);
    lemma_settles();
    open_stmt(sealed_stmt_from(p).0);
    reads_stmt_kind_from(p);
}

#[verifier::spinoff_prover]
proof fn reads_stmt_kind_from(p: PState)
    ensures
        ({
            let r = sealed_stmt_kind_from(p);
            fit(p) ==> {
                &&& later(p, r.1)
                &&& clean(p, r.1) ==> {
                    &&& spell_stmt_kind(r.0, p.toks, here(p)) == here(r.1)
                    &&& p.pos < r.1.pos && at_token(p)
                }
            }
        }),
    decreases p.toks, p.left(), 348int,
{
    unfold_stmt_kind_from(p);
    lemma_settles();
    open_stmt_kind(sealed_stmt_kind_from(p).0);
    match p.kind() {
        Some(TokenKind::Var) => {
            reads_var_rest(p.bump());
        },
        Some(TokenKind::Return) => {
            reads_return_rest(p.bump());
        },
        Some(TokenKind::Underscore) => {
            if p.kind_at(1) == Some(TokenKind::Eq) {
                reads_expr_from(p.bump().bump());
            } else {
                reads_assign_or_expr_from(p);
            }
        },
        _ => {
            reads_assign_or_expr_from(p);
        },
    }
}

#[verifier::spinoff_prover]
proof fn reads_binding_name(p: PState, what: Seq<char>)
    ensures
        ({
            let r = sealed_binding_name(p, what);
            fit(p) ==> {
                &&& later(p, r.1)
                &&& clean(p, r.1) ==> {
                    &&& spell_binding(r.0, p.toks, here(p)) == here(r.1)
                }
            }
        }),
{
    unfold_binding_name(p, what);
    lemma_settles();
}

#[verifier::spinoff_prover]
proof fn reads_var_rest(p: PState)
    ensures
        ({
            let r = sealed_var_rest(p);
            fit(p) ==> {
                &&& later(p, r.1)
                &&& clean(p, r.1) ==> {
                    &&& forall|i: int|
                        tok(p.toks, TokenKind::Var, i) == here(p) ==> #[trigger] spell_stmt_kind(r.0, p.toks, i) == here(
                            r.1,
                        )
                }
            }
        }),
    decreases p.toks, p.left(), 310int,
{
    unfold_var_rest(p);
    lemma_settles();
    open_stmt_kind(sealed_var_rest(p).0);
    reads_binding_name(p, "variable name"@);
    let (name, q) = sealed_binding_name(p, "variable name"@);
    reads_opt_type_from(q);
    let (ty, r) = sealed_opt_type_from(q);
    reads_expr_from(r.expect(TokenKind::Eq, "`=`"@).after(p));
}

#[verifier::spinoff_prover]
proof fn reads_return_rest(p: PState)
    ensures
        ({
            let r = sealed_return_rest(p);
            fit(p) ==> {
                &&& later(p, r.1)
                &&& clean(p, r.1) ==> {
                    &&& forall|i: int|
                        tok(p.toks, TokenKind::Return, i) == here(p) ==> #[trigger] spell_stmt_kind(r.0, p.toks, i) == here(
                            r.1,
                        )
                }
            }
        }),
    decreases p.toks, p.left(), 310int,
{
    unfold_return_rest(p);
    lemma_settles();
    open_stmt_kind(sealed_return_rest(p).0);
    if !(p.at_end() || p.at(TokenKind::Newline) || p.at(TokenKind::Dedent)) {
        reads_expr_from(p);
    }
}

#[verifier::spinoff_prover]
proof fn reads_assign_or_expr_from(p: PState)
    ensures
        ({
            let r = sealed_assign_or_expr_from(p);
            fit(p) ==> {
                &&& later(p, r.1)
                &&& clean(p, r.1) ==> {
                    &&& spell_stmt_kind(r.0, p.toks, here(p)) == here(r.1)
                    &&& p.pos < r.1.pos && at_token(p)
                }
            }
        }),
    decreases p.toks, p.left(), 340int,
{
    unfold_assign_or_expr_from(p);
    lemma_settles();
    open_stmt_kind(sealed_assign_or_expr_from(p).0);
    reads_expr_from(p);
    let (lhs, q) = sealed_expr_from(p);
    match q.kind() {
        Some(TokenKind::Colon) => {
            reads_annotated_rest(lhs, q.after(p).bump());
        },
        Some(TokenKind::Eq) => {
            reads_assigned_rest(lhs, q.after(p).bump());
        },
        _ => {},
    }
}

#[verifier::spinoff_prover]
proof fn reads_annotated_rest(lhs: ExprV, p: PState)
    ensures
        ({
            let r = sealed_annotated_rest(lhs, p);
            fit(p) ==> {
                &&& later(p, r.1)
                &&& clean(p, r.1) ==> {
                    &&& forall|i: int|
                        tok(p.toks, TokenKind::Colon, spell_expr(lhs, p.toks, i)) == here(p) ==> #[trigger] spell_stmt_kind(r.0, p.toks, i) == here(
                            r.1,
                        )
                }
            }
        }),
    decreases p.toks, p.left(), 310int,
{
    unfold_annotated_rest(lhs, p);
    lemma_settles();
    open_stmt_kind(sealed_annotated_rest(lhs, p).0);
    open_expr(lhs);
    open_kind(lhs.kind);
    reads_type_from(p);
    let (ty, q) = sealed_type_from(p);
    reads_expr_from(q.expect(TokenKind::Eq, "`=`"@).after(p));
}

#[verifier::spinoff_prover]
proof fn reads_assigned_rest(lhs: ExprV, p: PState)
    ensures
        ({
            let r = sealed_assigned_rest(lhs, p);
            fit(p) ==> {
                &&& later(p, r.1)
                &&& clean(p, r.1) ==> {
                    &&& forall|i: int|
                        tok(p.toks, TokenKind::Eq, spell_expr(lhs, p.toks, i)) == here(p) ==> #[trigger] spell_stmt_kind(r.0, p.toks, i) == here(
                            r.1,
                        )
                }
            }
        }),
    decreases p.toks, p.left(), 310int,
{
    unfold_assigned_rest(lhs, p);
    lemma_settles();
    open_stmt_kind(sealed_assigned_rest(lhs, p).0);
    open_expr(lhs);
    open_kind(lhs.kind);
    reads_expr_from(p);
}

#[verifier::spinoff_prover]
proof fn reads_if_rest(start: Span, p: PState)
    ensures
        ({
            let r = sealed_if_rest(start, p);
            fit(p) ==> {
                &&& later(p, r.1)
                &&& clean(p, r.1) ==> {
                    &&& forall|i: int|
                        tok(p.toks, TokenKind::If, i) == here(p) && starts(start, p.toks, i) ==> #[trigger] spell_if(r.0, p.toks, i) == here(
                            r.1,
                        )
                    &&& ended(r.0.span, r.1)
                }
            }
        }),
    decreases p.toks, p.left(), 310int,
{
    unfold_if_rest(start, p);
    lemma_settles();
    open_if(sealed_if_rest(start, p).0);
    reads_expr_from(p);
    let (cond, q) = sealed_expr_from(p);
    reads_branch_from(q.after(p));
    let (then_branch, r) = sealed_branch_from(q.after(p));
    reads_else_from(r.after(p));
}

#[verifier::spinoff_prover]
proof fn reads_else_from(p: PState)
    ensures
        ({
            let r = sealed_else_from(p);
            fit(p) ==> {
                &&& later(p, r.1)
                &&& clean(p, r.1) ==> {
                    &&& spell_else(r.0, p.toks, here(p)) == here(r.1)
                }
            }
        }),
    decreases p.toks, p.left(), 300int,
{
    unfold_else_from(p);
    lemma_settles();
    open_else(sealed_else_from(p).0);
    lemma_list_stmts();
    open_block(BlockV { stmts: Seq::empty(), span: p.current_span() });
    if p.at(TokenKind::Else) {
        let q = p.bump();
        if q.at(TokenKind::If) {
            reads_if_rest(q.current_span(), q.bump());
        } else {
            reads_branch_from(q);
        }
    } else {
        let span = p.current_span();
        reads_sync(p.unexpected(span, "an if expression requires else (D-SYN-03)"@), 0);
    }
}

#[verifier::spinoff_prover]
proof fn reads_branch_from(p: PState)
    ensures
        ({
            let r = sealed_branch_from(p);
            fit(p) ==> {
                &&& later(p, r.1)
                &&& clean(p, r.1) ==> {
                    &&& spell_block(r.0, p.toks, here(p)) == here(r.1)
                }
            }
        }),
    decreases p.toks, p.left(), 280int,
{
    unfold_branch_from(p);
    lemma_settles();
    open_block(sealed_branch_from(p).0);
    lemma_list_stmts();
    let e = sealed_expr_from(p).0;
    open_expr(e);
    open_stmt(plain_stmt(StmtKindV::ExprStmt(e), e.span));
    open_stmt_kind(StmtKindV::ExprStmt(e));
    if p.indented_ahead() {
        reads_block_from(p);
    } else {
        reads_expr_from(p);
    }
}

#[verifier::spinoff_prover]
proof fn reads_generics_from(p: PState)
    ensures
        ({
            let r = sealed_generics_from(p);
            fit(p) ==> {
                &&& later(p, r.1)
                &&& clean(p, r.1) && behind_token(p) ==> {
                    &&& spell_generics(r.0, p.toks, here(p)) == here(r.1)
                }
            }
        }),
{
    unfold_generics_from(p);
    lemma_settles();
    lemma_list_names();
    if p.at(TokenKind::LBracket) {
        reads_idents_from(p.bump(), TokenKind::RBracket, "type parameter name"@);
    }
}

#[verifier::spinoff_prover]
proof fn reads_param_from(p: PState)
    ensures
        ({
            let r = sealed_param_from(p);
            fit(p) ==> {
                &&& later(p, r.1)
                &&& p.kind() is Some && p.kind()->Some_0 is Ident ==> p.pos < r.1.pos
                &&& clean(p, r.1) ==> {
                    &&& spell_param(r.0, p.toks, here(p)) == here(r.1)
                }
            }
        }),
{
    unfold_param_from(p);
    lemma_settles();
    let (name, q) = p.ident("parameter name/field name"@);
    if q.at(TokenKind::Colon) {
        reads_type_from(q.bump());
    }
}

#[verifier::spinoff_prover]
proof fn reads_opt_comma(p: PState)
    ensures
        ({
            let r = sealed_opt_comma(p);
            fit(p) ==> {
                &&& later(p, r)
                &&& here(r) == here(p)
            }
        }),
{
    unfold_opt_comma(p);
    lemma_settles();
}

#[verifier::spinoff_prover]
proof fn reads_self_param_from(p: PState)
    ensures
        ({
            let r = sealed_self_param_from(p);
            fit(p) ==> {
                &&& later(p, r.1)
                &&& clean(p, r.1) ==> {
                    &&& spell_self_param(r.0, p.toks, here(p)) == here(r.1)
                }
            }
        }),
{
    unfold_self_param_from(p);
    lemma_settles();
    if p.at(TokenKind::Var) && p.kind_at(1) == Some(TokenKind::KwSelf) {
        reads_opt_comma(p.bump().bump());
    } else {
        if p.at(TokenKind::KwSelf) {
            reads_opt_comma(p.bump());
        }
    }
}

#[verifier::spinoff_prover]
proof fn reads_function_params_from(p: PState)
    ensures
        ({
            let r = sealed_function_params_from(p);
            fit(p) ==> {
                &&& later(p, r.2)
                &&& clean(p, r.2) ==> {
                    &&& spell_params(r.1, p.toks, spell_self_param(r.0, p.toks, here(p))) == here(
                        r.2,
                    )
                }
            }
        }),
{
    unfold_function_params_from(p);
    lemma_settles();
    lemma_list_params();
    if !p.at(TokenKind::RParen) {
        reads_self_param_from(p);
        let (self_param, q) = sealed_self_param_from(p);
        reads_params_tail(Seq::empty(), q);
    }
}

#[verifier::spinoff_prover]
proof fn reads_params_tail(acc: Seq<ParamV>, p: PState)
    ensures
        ({
            let r = sealed_params_tail(acc, p);
            fit(p) ==> {
                &&& later(p, r.1)
                &&& clean(p, r.1) ==> {
                    &&& forall|i: int|
                        spell_params(acc, p.toks, i) == here(p) ==> #[trigger] spell_params(r.0, p.toks, i) == here(
                            r.1,
                        )
                }
            }
        }),
    decreases p.left(),
{
    unfold_params_tail(acc, p);
    lemma_settles();
    lemma_list_params();
    if !(p.at_end() || p.at(TokenKind::RParen)) {
        reads_param_from(p);
        let (x, q) = sealed_param_from(p);
        if q.at(TokenKind::Comma) {
            let r = q.after(p).bump();
            if !r.at(TokenKind::RParen) {
                reads_params_tail(acc.push(x), r);
            }
        }
    }
}

#[verifier::spinoff_prover]
proof fn reads_function_from(p: PState)
    ensures
        ({
            let r = sealed_function_from(p);
            fit(p) ==> {
                &&& later(p, r.1)
                &&& p.pos < p.toks.len() ==> p.pos < r.1.pos
                &&& clean(p, r.1) && p.at(TokenKind::Def) ==> {
                    &&& spell_function(r.0, p.toks, here(p)) == here(r.1)
                }
            }
        }),
{
    unfold_function_from(p);
    lemma_settles();
    open_function(sealed_function_from(p).0);
    let (name, p1) = p.bump().ident("function name"@);
    reads_generics_from(p1);
    let (generics, p2) = sealed_generics_from(p1);
    reads_function_params_from(p2.expect(TokenKind::LParen, "`(`"@));
    let (self_param, params, p3) = sealed_function_params_from(
        p2.expect(TokenKind::LParen, "`(`"@),
    );
    let p4 = p3.expect(TokenKind::RParen, "`)`"@).expect(
        TokenKind::Colon,
        "`:` (return type annotation)"@,
    );
    reads_type_from(p4);
    let (ret, p5) = sealed_type_from(p4);
    reads_uses_from(p5);
    let (effects, p6) = sealed_uses_from(p5);
    reads_block_from(p6);
}

#[verifier::spinoff_prover]
proof fn reads_body_from(p: PState)
    ensures
        ({
            let r = sealed_body_from(p);
            fit(p) ==> {
                &&& later(p, r.1)
                &&& here(r.1) == here(p)
            }
        }),
{
    unfold_body_from(p);
    lemma_settles();
    reveal_with_fuel(settle, 3);
}

#[verifier::spinoff_prover]
proof fn reads_struct_from(p: PState)
    ensures
        ({
            let r = sealed_struct_from(p);
            fit(p) ==> {
                &&& later(p, r.1)
                &&& p.pos < p.toks.len() ==> p.pos < r.1.pos
                &&& clean(p, r.1) && p.at(TokenKind::Struct) ==> {
                    &&& spell_struct(r.0, p.toks, here(p)) == here(r.1)
                }
            }
        }),
{
    unfold_struct_from(p);
    lemma_settles();
    open_struct(sealed_struct_from(p).0);
    lemma_list_functions();
    lemma_list_params();
    lemma_list_names();
    reveal(spell_members);
    lemma_list_functions();
    let (name, p1) = p.bump().ident("struct name"@);
    reads_generics_from(p1);
    let (generics, p2) = sealed_generics_from(p1);
    reads_body_from(p2);
    let (has_body, p3) = sealed_body_from(p2);
    if has_body {
        reads_members_tail(Seq::empty(), Seq::empty(), p3);
    }
}

#[verifier::spinoff_prover]
proof fn reads_members_tail(fields: Seq<ParamV>, methods: Seq<FunctionV>, p: PState)
    ensures
        ({
            let r = sealed_members_tail(fields, methods, p);
            fit(p) ==> {
                &&& later(p, r.2)
                &&& clean(p, r.2) ==> {
                    &&& forall|i: int|
                        spell_members(fields, methods, 0, 0, p.toks, i) == here(p) ==> #[trigger] spell_members(r.0, r.1, 0, 0, p.toks, i) == here(
                            r.2,
                        )
                }
            }
        }),
    decreases p.left(),
{
    unfold_members_tail(fields, methods, p);
    lemma_settles();
    lemma_list_functions();
    lemma_list_params();
    reads_newlines(p);
    let q = p.newlines().after(p);
    match q.kind() {
        Some(TokenKind::Dedent) => {},
        None => {},
        Some(TokenKind::Eof) => {},
        Some(TokenKind::Def) => {
            reads_function_from(q);
            let (f, r) = sealed_function_from(q);
            reads_members_tail(fields, methods.push(f), r.after(q.bump()));
        },
        Some(TokenKind::Ident(_)) => {
            reads_param_from(q);
            let (x, r) = sealed_param_from(q);
            reads_members_tail(fields.push(x), methods, r.after(q.bump()));
        },
        Some(_) => {
            reads_sync(
                q.unexpected(
                    q.current_span(),
                    "expected a struct field or method definition"@,
                ),
                0,
            );
            let r = q.unexpected(
                q.current_span(),
                "expected a struct field or method definition"@,
            ).sync(0);
            reads_members_tail(fields, methods, r.after(q.bump()));
        },
    }
    if fit(p) {
        let t = p.toks;
        match q.kind() {
            Some(TokenKind::Def) => {
                let (f, r) = sealed_function_from(q);
                assert forall|i: int|
                    spell_members(fields, methods, 0, 0, t, i) == here(p) && clean(
                        q,
                        r,
                    ) implies #[trigger] spell_members(fields, methods.push(f), 0, 0, t, i) == here(
                    r,
                ) by {
                    lemma_more_method(fields, methods, f, 0, 0, t, i);
                }
            },
            Some(TokenKind::Ident(_)) => {
                let (x, r) = sealed_param_from(q);
                assert forall|i: int|
                    spell_members(fields, methods, 0, 0, t, i) == here(p) && clean(
                        q,
                        r,
                    ) implies #[trigger] spell_members(fields.push(x), methods, 0, 0, t, i) == here(
                    r,
                ) by {
                    lemma_more_field(fields, methods, x, 0, 0, t, i);
                }
            },
            _ => {},
        }
    }
}

#[verifier::spinoff_prover]
proof fn reads_variant_field_from(p: PState)
    ensures
        ({
            let r = sealed_variant_field_from(p);
            fit(p) ==> {
                &&& later(p, r.2)
                &&& clean(p, r.2) ==> {
                    &&& spell_field(r.0, r.1, p.toks, here(p)) == here(r.2)
                }
            }
        }),
{
    unfold_variant_field_from(p);
    lemma_settles();
    match p.kind() {
        Some(TokenKind::Ident(name)) => {
            if p.kind_at(1) == Some(TokenKind::Colon) {
                reads_type_from(p.bump().bump());
            } else {
                reads_type_from(p);
            }
        },
        _ => {
            reads_type_from(p);
        },
    }
}

#[verifier::spinoff_prover]
proof fn reads_variant_fields_from(p: PState)
    ensures
        ({
            let r = sealed_variant_fields_from(p);
            fit(p) ==> {
                &&& later(p, r.2)
                &&& r.0.len() == r.1.len()
                &&& clean(p, r.2) ==> {
                    &&& spell_fields(r.0, r.1, p.toks, here(p)) == here(r.2)
                }
            }
        }),
{
    unfold_variant_fields_from(p);
    lemma_settles();
    lemma_list_types();
    lemma_list_fields();
    if !p.at(TokenKind::RParen) {
        reads_variant_field_from(p);
        let (n, t, q) = sealed_variant_field_from(p);
        reads_variant_fields_tail(seq![n], seq![t], q);
    }
}

#[verifier::spinoff_prover]
proof fn reads_variant_fields_tail(names: Seq<Option<Seq<char>>>, types: Seq<TypeV>, p: PState)
    requires
        names.len() == types.len(),
    ensures
        ({
            let r = sealed_variant_fields_tail(names, types, p);
            fit(p) ==> {
                &&& later(p, r.2)
                &&& r.0.len() == r.1.len()
                &&& clean(p, r.2) ==> {
                    &&& forall|i: int|
                        spell_fields(names, types, p.toks, i) == here(p) ==> #[trigger] spell_fields(r.0, r.1, p.toks, i) == here(
                            r.2,
                        )
                }
            }
        }),
    decreases p.left(),
{
    unfold_variant_fields_tail(names, types, p);
    lemma_settles();
    lemma_list_types();
    lemma_list_fields();
    if p.at(TokenKind::Comma) {
        let q = p.bump();
        if !q.at(TokenKind::RParen) {
            reads_variant_field_from(q);
            let (n, t, r) = sealed_variant_field_from(q);
            reads_variant_fields_tail(names.push(n), types.push(t), r.after(q));
        }
    }
}

#[verifier::spinoff_prover]
proof fn reads_variant_from(p: PState)
    ensures
        ({
            let r = sealed_variant_from(p);
            fit(p) ==> {
                &&& later(p, r.1)
                &&& p.kind() is Some && p.kind()->Some_0 is Ident ==> p.pos < r.1.pos
                &&& clean(p, r.1) ==> {
                    &&& spell_variant(r.0, p.toks, here(p)) == here(r.1)
                }
            }
        }),
{
    unfold_variant_from(p);
    lemma_settles();
    open_variant(sealed_variant_from(p).0);
    lemma_list_types();
    lemma_list_fields();
    let (name, q) = p.ident("variant name"@);
    if q.at(TokenKind::LParen) {
        reads_variant_fields_from(q.bump());
    }
}

#[verifier::spinoff_prover]
proof fn reads_variants_tail(acc: Seq<VariantV>, p: PState)
    ensures
        ({
            let r = sealed_variants_tail(acc, p);
            fit(p) ==> {
                &&& later(p, r.1)
                &&& clean(p, r.1) ==> {
                    &&& forall|i: int|
                        spell_variants(acc, p.toks, i) == here(p) ==> #[trigger] spell_variants(r.0, p.toks, i) == here(
                            r.1,
                        )
                }
            }
        }),
    decreases p.left(),
{
    unfold_variants_tail(acc, p);
    lemma_settles();
    lemma_list_variants();
    reads_newlines(p);
    let q = p.newlines().after(p);
    match q.kind() {
        Some(TokenKind::Dedent) => {},
        None => {},
        Some(TokenKind::Eof) => {},
        Some(TokenKind::Ident(_)) => {
            reads_variant_from(q);
            let (v, r) = sealed_variant_from(q);
            reads_variants_tail(acc.push(v), r.after(q.bump()));
        },
        Some(_) => {
            reads_sync(q.unexpected(q.current_span(), "expected an enum variant"@), 0);
            let r = q.unexpected(q.current_span(), "expected an enum variant"@).sync(0);
            reads_variants_tail(acc, r.after(q.bump()));
        },
    }
}

#[verifier::spinoff_prover]
proof fn reads_enum_from(p: PState)
    ensures
        ({
            let r = sealed_enum_from(p);
            fit(p) ==> {
                &&& later(p, r.1)
                &&& p.pos < p.toks.len() ==> p.pos < r.1.pos
                &&& clean(p, r.1) && p.at(TokenKind::Enum) ==> {
                    &&& spell_enum(r.0, p.toks, here(p)) == here(r.1)
                }
            }
        }),
{
    unfold_enum_from(p);
    lemma_settles();
    open_enum(sealed_enum_from(p).0);
    lemma_list_names();
    lemma_list_variants();
    let (name, p1) = p.bump().ident("enum name"@);
    reads_generics_from(p1);
    let (generics, p2) = sealed_generics_from(p1);
    reads_body_from(p2);
    let (has_body, p3) = sealed_body_from(p2);
    if has_body {
        reads_variants_tail(Seq::empty(), p3);
    }
}

#[verifier::spinoff_prover]
proof fn reads_items_tail(acc: Seq<ItemV>, p: PState)
    ensures
        ({
            let r = sealed_items_tail(acc, p);
            fit(p) ==> {
                &&& later(p, r.1)
                &&& r.1.at_end() || r.1.at(TokenKind::Dedent)
                &&& clean(p, r.1) ==> {
                    &&& forall|i: int|
                        spell_items(acc, p.toks, i) == here(p) ==> #[trigger] spell_items(r.0, p.toks, i) == here(
                            r.1,
                        )
                }
            }
        }),
    decreases p.left(),
{
    unfold_items_tail(acc, p);
    lemma_settles();
    lemma_list_items();
    reads_newlines(p);
    let q = p.newlines().after(p);
    if !(q.at_end() || q.at(TokenKind::Dedent)) {
        reads_item_from(q);
        let (item, r) = sealed_item_from(q);
        reads_items_tail(acc.push(item), r.after(q.bump()));
    }
}

#[verifier::spinoff_prover]
proof fn reads_item_from(p: PState)
    ensures
        ({
            let r = sealed_item_from(p);
            fit(p) ==> {
                &&& later(p, r.1)
                &&& p.pos < p.toks.len() ==> p.pos < r.1.pos
                &&& clean(p, r.1) ==> {
                    &&& spell_item(r.0, p.toks, here(p)) == here(r.1)
                }
            }
        }),
{
    unfold_item_from(p);
    lemma_settles();
    open_item(sealed_item_from(p).0);
    match p.kind() {
        Some(TokenKind::Def) => {
            reads_function_from(p);
        },
        Some(TokenKind::Struct) => {
            reads_struct_from(p);
        },
        Some(TokenKind::Enum) => {
            reads_enum_from(p);
        },
        _ => {
            reads_stmt_or_skip_from(p);
        },
    }
}

#[verifier::spinoff_prover]
proof fn reads_line_end(p: PState)
    ensures
        ({
            let r = sealed_line_end(p);
            fit(p) ==> {
                &&& later(p, r)
            }
        }),
    decreases p.left(),
{
    unfold_line_end(p);
    lemma_settles();
    if !(p.at_end() || p.at(TokenKind::Newline)) {
        reads_line_end(p.bump());
    }
}

#[verifier::spinoff_prover]
proof fn reads_directive_from(p: PState)
    ensures
        ({
            let r = sealed_directive_from(p);
            fit(p) ==> {
                &&& later(p, r.1)
                &&& clean(p, r.1) ==> {
                    &&& here(r.1) == if r.0 {
                        tok(p.toks, TokenKind::Module, here(p))
                    } else {
                        here(p)
                    }
                }
            }
        }),
{
    unfold_directive_from(p);
    lemma_settles();
    if p.at(TokenKind::Module) {
        let q = p.bump();
        if !(q.at(TokenKind::Newline) || q.at(TokenKind::Eof)) {
            let r = q.report(
                ErrorCode::ModuleDirectiveMalformed,
                between(p.current_span(), q.current_span()),
                "a module directive must be the bare keyword with no name (D-LEX-08)"@,
            );
            reads_line_end(r);
        }
    }
}

// ---------------------------------------------------------------------------
// A whole file
// ---------------------------------------------------------------------------

/// What was read without a diagnostic is spelled by its tokens: written as tokens, one after the
/// other and but for layout, the module is what stands in the file, from its start up to its end
/// or to a dedent that nothing was indented for.
#[verifier::spinoff_prover]
pub proof fn law_tokens_spell_the_module(toks: Seq<Token>, file: FileId, start_id: u32)
    requires
        well_lexed(toks),
        module_from(toks, file, start_id).1.len() == 0,
    ensures
        exists|end: int|
            #![trigger settle(toks, end)]
            {
                &&& 0 <= end <= toks.len()
                &&& end < toks.len() ==> toks[end].kind is Eof || toks[end].kind is Dedent
                &&& spell_module(module_from(toks, file, start_id).0, toks) == settle(toks, end)
            },
{
    let p = initial(toks, file, start_id);
    unfold_module_from(toks, file, start_id);
    reads_directive_from(p);
    let (directive, q) = sealed_directive_from(p);
    reads_items_tail(Seq::empty(), q);
    lemma_list_items();
    let (items, r) = sealed_items_tail(Seq::empty(), q);
    assert(here(r) == settle(toks, r.pos));
}

} // verus!
