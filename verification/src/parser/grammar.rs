//! The grammar: for each syntactic category, what is read from a parse state and in which
//! state that leaves the parse. A name ending in `_from` takes the state at which the category
//! starts; one ending in `_rest` takes the state after the token that opens it.
//!
//! A later state never lies before an earlier one; `after` says so where a definition needs it
//! to be well founded.

use super::state::{between, close_followed, node, poison, wrapped, PState, MAX_PARSE_DEPTH};
use crate::ast::{
    ArgV, ArmBodyV, ArmV, BinaryOp, BlockV, CalleeV, DeclV, ElseV, EnumV, ExprKindV, ExprV,
    FunctionV, IfV, ItemV, LambdaParamV, LeadingV, LiteralV, ModuleV, ParKind, ParamV, PatternV,
    SegmentV, SelfParam, StageV, StmtKindV, StmtV, StructV, SubPatternV, TypeKindV, TypeV,
    UnaryOp, VariantV,
};
use crate::diagnostics::{DiagnosticView, ErrorCode, FileId, Span};
use crate::lexer::{FStringPart, Token, TokenKind};
use vstd::prelude::*;

verus! {

// ---------------------------------------------------------------------------
// Names and type annotations
// ---------------------------------------------------------------------------

pub open spec fn idents_from(p: PState, closing: TokenKind, what: Seq<char>) -> (
    Seq<Seq<char>>,
    PState,
) {
    if p.at(closing) {
        (Seq::empty(), p)
    } else {
        let (name, q) = p.ident(what);
        idents_tail(seq![name], q, closing, what)
    }
}

pub open spec fn idents_tail(
    acc: Seq<Seq<char>>,
    p: PState,
    closing: TokenKind,
    what: Seq<char>,
) -> (Seq<Seq<char>>, PState)
    decreases p.left(),
{
    if p.at(TokenKind::Comma) {
        let q = p.bump();
        if q.at(closing) {
            (acc, q)
        } else {
            let (name, r) = q.ident(what);
            idents_tail(acc.push(name), r.after(q), closing, what)
        }
    } else {
        (acc, p)
    }
}

/// `uses { name, .. }`, or nothing.
pub open spec fn uses_from(p: PState) -> (Seq<Seq<char>>, PState) {
    if p.at(TokenKind::Uses) {
        let q = p.bump().expect(TokenKind::LBrace, "`{`"@);
        let (names, r) = idents_from(q, TokenKind::RBrace, "effect name"@);
        (names, r.expect(TokenKind::RBrace, "`}`"@))
    } else {
        (Seq::empty(), p)
    }
}

pub open spec fn unnamed_type(span: Span) -> TypeV {
    TypeV { kind: TypeKindV::Named { name: ""@, args: Seq::empty() }, span }
}

pub open spec fn type_from(p: PState) -> (TypeV, PState)
    decreases p.left(), 3int,
{
    let start = p.current_span();
    if p.depth >= MAX_PARSE_DEPTH {
        (unnamed_type(start), p.too_deep(start))
    } else {
        let q = p.deeper();
        let (t, r) = match q.kind() {
            Some(TokenKind::Void) => (TypeV { kind: TypeKindV::Void, span: start }, q.bump()),
            Some(TokenKind::LParen) => function_type_rest(start, q.bump()),
            Some(TokenKind::Ident(name)) => named_type_rest(start, name@, q.bump()),
            _ => (
                unnamed_type(start),
                q.unexpected(start, "expected a type annotation but did not find one"@),
            ),
        };
        (t, r.at_depth(p.depth))
    }
}

/// `T, .. ) -> R uses {..}` after the opening parenthesis.
pub open spec fn function_type_rest(start: Span, p: PState) -> (TypeV, PState)
    decreases p.left(), 6int,
{
    let (params, q) = types_from(p, TokenKind::RParen);
    let r = q.after(p).expect(TokenKind::RParen, "`)`"@).expect(TokenKind::Arrow, "`->`"@).after(p);
    let (ret, s) = type_from(r);
    let (effects, t) = uses_from(s);
    (
        TypeV {
            kind: TypeKindV::Function { params, effects, ret: Box::new(ret) },
            span: between(start, t.previous_span()),
        },
        t,
    )
}

/// What follows a type name: its arguments, if any.
pub open spec fn named_type_rest(start: Span, name: Seq<char>, p: PState) -> (TypeV, PState)
    decreases p.left(), 6int,
{
    let (args, q) = if p.at(TokenKind::LBracket) {
        type_args_rest(p.bump())
    } else {
        (Seq::empty(), p)
    };
    let span = between(start, q.previous_span());
    let kind = if name == "tuple"@ {
        TypeKindV::Tuple(args)
    } else {
        TypeKindV::Named { name, args }
    };
    (TypeV { kind, span }, q)
}

/// `T, .. ]` after the opening bracket.
pub open spec fn type_args_rest(p: PState) -> (Seq<TypeV>, PState)
    decreases p.left(), 6int,
{
    let (args, q) = types_from(p, TokenKind::RBracket);
    (args, q.expect(TokenKind::RBracket, "`]`"@))
}

pub open spec fn types_from(p: PState, closing: TokenKind) -> (Seq<TypeV>, PState)
    decreases p.left(), 5int,
{
    if p.at(closing) {
        (Seq::empty(), p)
    } else {
        let (t, q) = type_from(p);
        types_tail(seq![t], q.after(p), closing)
    }
}

pub open spec fn types_tail(acc: Seq<TypeV>, p: PState, closing: TokenKind) -> (Seq<TypeV>, PState)
    decreases p.left(), 4int,
{
    if p.at(TokenKind::Comma) {
        let q = p.bump();
        if q.at(closing) {
            (acc, q)
        } else {
            let (t, r) = type_from(q);
            types_tail(acc.push(t), r.after(q), closing)
        }
    } else {
        (acc, p)
    }
}

/// `: T`, or nothing.
pub open spec fn opt_type_from(p: PState) -> (Option<TypeV>, PState) {
    if p.at(TokenKind::Colon) {
        let (t, q) = type_from(p.bump());
        (Some(t), q)
    } else {
        (None, p)
    }
}

// ---------------------------------------------------------------------------
// Patterns
// ---------------------------------------------------------------------------

/// A literal, with its sign, if one stands here.
pub open spec fn literal_from(p: PState) -> Option<(LiteralV, PState)> {
    match p.kind() {
        Some(TokenKind::IntLiteral(n)) => Some((LiteralV::Int(n), p.bump())),
        Some(TokenKind::FloatLiteral(s)) => Some((LiteralV::Float(s@), p.bump())),
        Some(TokenKind::StringLiteral(s)) => Some((LiteralV::Str(s@), p.bump())),
        Some(TokenKind::True) => Some((LiteralV::Bool(true), p.bump())),
        Some(TokenKind::False) => Some((LiteralV::Bool(false), p.bump())),
        Some(TokenKind::Minus) => match p.kind_at(1) {
            Some(TokenKind::IntLiteral(n)) => Some((LiteralV::Int((-n) as i64), p.bump().bump())),
            Some(TokenKind::FloatLiteral(s)) => Some(
                (LiteralV::Float("-"@ + s@), p.bump().bump()),
            ),
            _ => None,
        },
        _ => None,
    }
}

pub open spec fn sub_pattern_from(p: PState) -> (SubPatternV, PState) {
    let start = p.current_span();
    match literal_from(p) {
        Some((lit, q)) => (SubPatternV::Literal(lit, between(start, q.previous_span())), q),
        None => match p.kind() {
            Some(TokenKind::Underscore) => (SubPatternV::Wildcard(start), p.bump()),
            Some(TokenKind::Ident(name)) => {
                let q = p.bump();
                let r = if q.at(TokenKind::LParen) || q.at(TokenKind::LBracket) {
                    q.unexpected(
                        start,
                        "nesting enum/tuple patterns is forbidden (D-SYN-06)"@,
                    ).skip_brackets(0)
                } else {
                    q
                };
                (SubPatternV::BareIdent(name@, r.id(), start), r.numbered())
            },
            Some(TokenKind::LParen) => (
                SubPatternV::Wildcard(start),
                p.unexpected(
                    start,
                    "nesting enum/tuple patterns is forbidden (D-SYN-06)"@,
                ).skip_brackets(0),
            ),
            _ => (
                SubPatternV::Wildcard(start),
                p.unexpected(start, "expected a pattern but none was found"@).bump(),
            ),
        },
    }
}

pub open spec fn sub_patterns_from(p: PState) -> (Seq<SubPatternV>, PState) {
    if p.at(TokenKind::RParen) {
        (Seq::empty(), p)
    } else {
        let (s, q) = sub_pattern_from(p);
        sub_patterns_tail(seq![s], q)
    }
}

pub open spec fn sub_patterns_tail(acc: Seq<SubPatternV>, p: PState) -> (Seq<SubPatternV>, PState)
    decreases p.left(),
{
    if p.at(TokenKind::Comma) {
        let q = p.bump();
        if q.at(TokenKind::RParen) {
            (acc, q)
        } else {
            let (s, r) = sub_pattern_from(q);
            sub_patterns_tail(acc.push(s), r.after(q))
        }
    } else {
        (acc, p)
    }
}

pub open spec fn pattern_from(p: PState) -> (PatternV, PState) {
    let start = p.current_span();
    match literal_from(p) {
        Some((lit, q)) => (PatternV::Literal(lit, between(start, q.previous_span())), q),
        None => match p.kind() {
            Some(TokenKind::Underscore) => (PatternV::Wildcard(start), p.bump()),
            Some(TokenKind::LParen) => {
                let (elements, q) = sub_patterns_from(p.bump());
                let r = q.expect(TokenKind::RParen, "`)`"@);
                (PatternV::Tuple { elements, span: between(start, r.previous_span()) }, r)
            },
            Some(TokenKind::Ident(name)) => {
                let q = p.bump();
                if q.at(TokenKind::LParen) {
                    let (fields, r) = sub_patterns_from(q.bump());
                    let s = r.expect(TokenKind::RParen, "`)`"@);
                    (
                        PatternV::Variant {
                            name: name@,
                            fields,
                            span: between(start, s.previous_span()),
                        },
                        s,
                    )
                } else {
                    (PatternV::BareIdent(name@, q.id(), start), q.numbered())
                }
            },
            _ => (
                PatternV::Wildcard(start),
                p.unexpected(start, "expected a match pattern but none was found"@).bump(),
            ),
        },
    }
}

// ---------------------------------------------------------------------------
// Lambda parameters and pipe destinations
// ---------------------------------------------------------------------------

pub open spec fn lambda_param_from(p: PState) -> (LambdaParamV, PState) {
    let (name, q) = p.ident("lambda parameter name"@);
    let (ty, r) = opt_type_from(q);
    (LambdaParamV { name, ty, span: between(p.current_span(), r.previous_span()) }, r)
}

pub open spec fn lambda_params_from(p: PState) -> (Seq<LambdaParamV>, PState) {
    if p.at(TokenKind::RParen) {
        (Seq::empty(), p)
    } else {
        let (x, q) = lambda_param_from(p);
        lambda_params_tail(seq![x], q)
    }
}

pub open spec fn lambda_params_tail(acc: Seq<LambdaParamV>, p: PState) -> (
    Seq<LambdaParamV>,
    PState,
)
    decreases p.left(),
{
    if p.at(TokenKind::Comma) {
        let q = p.bump();
        if q.at(TokenKind::RParen) {
            (acc, q)
        } else {
            let (x, r) = lambda_param_from(q);
            lambda_params_tail(acc.push(x), r.after(q))
        }
    } else {
        (acc, p)
    }
}

/// A name and the fields selected from it: the destination of a pipe stage.
pub open spec fn destination_from(p: PState) -> (ExprV, PState) {
    let (name, q) = p.ident("pipe destination function name/namespace name"@);
    let (e, r) = node(q, ExprKindV::Ident(name), p.current_span());
    destination_tail(e, r)
}

pub open spec fn destination_tail(e: ExprV, p: PState) -> (ExprV, PState)
    decreases p.left(),
{
    if p.at(TokenKind::Dot) {
        let (field, q) = p.bump().ident("field/method name"@);
        let (e2, r) = node(
            q,
            ExprKindV::FieldAccess { target: Box::new(e), field },
            between(e.span, q.previous_span()),
        );
        destination_tail(e2, r.after(p.bump()))
    } else {
        (e, p)
    }
}

// ---------------------------------------------------------------------------
// Expressions, statements and blocks
// ---------------------------------------------------------------------------

pub open spec fn binary(op: BinaryOp, lhs: ExprV, rhs: ExprV, p: PState) -> (ExprV, PState) {
    node(
        p,
        ExprKindV::Binary { op, lhs: Box::new(lhs), rhs: Box::new(rhs) },
        between(lhs.span, rhs.span),
    )
}

pub open spec fn expr_from(p: PState) -> (ExprV, PState)
    decreases p.toks, p.left(), 200int,
{
    let span = p.current_span();
    if p.depth >= MAX_PARSE_DEPTH {
        poison(p.too_deep(span), span)
    } else {
        let (e, q) = pipe_from(p.deeper());
        (e, q.at_depth(p.depth))
    }
}

pub open spec fn pipe_from(p: PState) -> (ExprV, PState)
    decreases p.toks, p.left(), 190int,
{
    let (source, q) = logical_from(p);
    if q.at(TokenKind::PipeOp) {
        let (stages, r) = stages_tail(Seq::empty(), q.after(p));
        let end = if stages.len() > 0 {
            stages.last().span
        } else {
            source.span
        };
        node(
            r,
            ExprKindV::Pipe { source: Box::new(source), stages },
            between(source.span, end),
        )
    } else {
        (source, q)
    }
}

pub open spec fn stages_tail(acc: Seq<StageV>, p: PState) -> (Seq<StageV>, PState)
    decreases p.toks, p.left(), 185int,
{
    if p.at(TokenKind::PipeOp) {
        let (stage, q) = stage_from(p.bump());
        stages_tail(acc.push(stage), q.after(p.bump()))
    } else {
        (acc, p)
    }
}

pub open spec fn has_placeholder(args: Seq<ArgV>) -> bool {
    exists|i: int| 0 <= i < args.len() && #[trigger] args[i].is_placeholder
}

pub open spec fn stage_from(p: PState) -> (StageV, PState)
    decreases p.toks, p.left(), 310int,
{
    let start = p.current_span();
    let (target, q) = destination_from(p);
    let (callee, r) = callee_rest(target, q.after(p));
    let question = r.at(TokenKind::Question);
    let u = if question {
        let v = r.bump();
        if v.no_question {
            v.unexpected(
                v.previous_span(),
                "a trailing pipe-stage `?` inside a par branch (or a lambda body passed to one) is forbidden (D-PAR-03)"@,
            )
        } else {
            v
        }
    } else {
        r
    };
    (StageV { callee, question, span: between(start, u.previous_span()) }, u)
}

/// The arguments of a stage, if it has any; one of them must be the placeholder.
pub open spec fn callee_rest(target: ExprV, p: PState) -> (CalleeV, PState)
    decreases p.toks, p.left(), 305int,
{
    if p.at(TokenKind::LParen) {
        let (args, _multiline, q) = args_rest(p.current_span().start.line, p.bump());
        let r = if has_placeholder(args) {
            q
        } else {
            q.report(
                ErrorCode::PipePlaceholderMissing,
                q.previous_span(),
                "a pipe destination with arguments requires a `_` placeholder (SPEC §6.3, D-DIAG-02 E0503)"@,
            )
        };
        (CalleeV::WithArgs { callee: Box::new(target), args }, r)
    } else {
        (CalleeV::Bare(target), p)
    }
}

pub open spec fn logical_from(p: PState) -> (ExprV, PState)
    decreases p.toks, p.left(), 180int,
{
    let (lhs, q) = and_from(p);
    or_tail(lhs, q.after(p))
}

pub open spec fn or_tail(lhs: ExprV, p: PState) -> (ExprV, PState)
    decreases p.toks, p.left(), 175int,
{
    if p.at(TokenKind::Or) {
        let (rhs, q) = and_from(p.bump());
        let (e, r) = binary(BinaryOp::Or, lhs, rhs, q);
        or_tail(e, r.after(p.bump()))
    } else {
        (lhs, p)
    }
}

pub open spec fn and_from(p: PState) -> (ExprV, PState)
    decreases p.toks, p.left(), 170int,
{
    let (lhs, q) = comparison_from(p);
    and_tail(lhs, q.after(p))
}

pub open spec fn and_tail(lhs: ExprV, p: PState) -> (ExprV, PState)
    decreases p.toks, p.left(), 165int,
{
    if p.at(TokenKind::And) {
        let (rhs, q) = comparison_from(p.bump());
        let (e, r) = binary(BinaryOp::And, lhs, rhs, q);
        and_tail(e, r.after(p.bump()))
    } else {
        (lhs, p)
    }
}

pub open spec fn equality_op(k: Option<TokenKind>) -> Option<BinaryOp> {
    match k {
        Some(TokenKind::EqEq) => Some(BinaryOp::EqEq),
        Some(TokenKind::NotEq) => Some(BinaryOp::NotEq),
        _ => None,
    }
}

pub open spec fn relational_op(k: Option<TokenKind>) -> Option<BinaryOp> {
    match k {
        Some(TokenKind::Lt) => Some(BinaryOp::Lt),
        Some(TokenKind::LtEq) => Some(BinaryOp::LtEq),
        Some(TokenKind::Gt) => Some(BinaryOp::Gt),
        Some(TokenKind::GtEq) => Some(BinaryOp::GtEq),
        _ => None,
    }
}

pub open spec fn additive_op(k: Option<TokenKind>) -> Option<BinaryOp> {
    match k {
        Some(TokenKind::Plus) => Some(BinaryOp::Add),
        Some(TokenKind::Minus) => Some(BinaryOp::Sub),
        _ => None,
    }
}

pub open spec fn multiplicative_op(k: Option<TokenKind>) -> Option<BinaryOp> {
    match k {
        Some(TokenKind::Star) => Some(BinaryOp::Mul),
        Some(TokenKind::Slash) => Some(BinaryOp::Div),
        Some(TokenKind::Percent) => Some(BinaryOp::Mod),
        _ => None,
    }
}

pub open spec fn comparison_from(p: PState) -> (ExprV, PState)
    decreases p.toks, p.left(), 160int,
{
    let (lhs, q) = relational_from(p);
    equality_tail(lhs, q.after(p))
}

pub open spec fn equality_tail(lhs: ExprV, p: PState) -> (ExprV, PState)
    decreases p.toks, p.left(), 155int,
{
    match equality_op(p.kind()) {
        Some(op) => {
            let (rhs, q) = relational_from(p.bump());
            let (e, r) = binary(op, lhs, rhs, q);
            equality_tail(e, r.after(p.bump()))
        },
        None => (lhs, p),
    }
}

/// At most one relational operator: comparisons do not chain.
pub open spec fn relational_from(p: PState) -> (ExprV, PState)
    decreases p.toks, p.left(), 150int,
{
    let (lhs, q) = arithmetic_from(p);
    match relational_op(q.kind()) {
        Some(op) => {
            let (rhs, r) = arithmetic_from(q.after(p).bump());
            binary(op, lhs, rhs, r)
        },
        None => (lhs, q),
    }
}

pub open spec fn arithmetic_from(p: PState) -> (ExprV, PState)
    decreases p.toks, p.left(), 140int,
{
    let (lhs, q) = term_from(p);
    additive_tail(lhs, q.after(p))
}

pub open spec fn additive_tail(lhs: ExprV, p: PState) -> (ExprV, PState)
    decreases p.toks, p.left(), 135int,
{
    match additive_op(p.kind()) {
        Some(op) => {
            let (rhs, q) = term_from(p.bump());
            let (e, r) = binary(op, lhs, rhs, q);
            additive_tail(e, r.after(p.bump()))
        },
        None => (lhs, p),
    }
}

pub open spec fn term_from(p: PState) -> (ExprV, PState)
    decreases p.toks, p.left(), 130int,
{
    let (lhs, q) = unary_from(p);
    multiplicative_tail(lhs, q.after(p))
}

pub open spec fn multiplicative_tail(lhs: ExprV, p: PState) -> (ExprV, PState)
    decreases p.toks, p.left(), 125int,
{
    match multiplicative_op(p.kind()) {
        Some(op) => {
            let (rhs, q) = unary_from(p.bump());
            let (e, r) = binary(op, lhs, rhs, q);
            multiplicative_tail(e, r.after(p.bump()))
        },
        None => (lhs, p),
    }
}

pub open spec fn unary_op(k: Option<TokenKind>) -> Option<UnaryOp> {
    match k {
        Some(TokenKind::Minus) => Some(UnaryOp::Neg),
        Some(TokenKind::Not) => Some(UnaryOp::Not),
        _ => None,
    }
}

pub open spec fn unary_from(p: PState) -> (ExprV, PState)
    decreases p.toks, p.left(), 120int,
{
    let start = p.current_span();
    match unary_op(p.kind()) {
        Some(op) => {
            let q = p.bump();
            let (operand, r) = if q.depth >= MAX_PARSE_DEPTH {
                poison(q.too_deep(start), start)
            } else {
                let (e, s) = unary_from(q.deeper());
                (e, s.at_depth(q.depth))
            };
            node(
                r,
                ExprKindV::Unary { op, operand: Box::new(operand) },
                between(start, operand.span),
            )
        },
        None => postfix_from(p),
    }
}

pub open spec fn postfix_from(p: PState) -> (ExprV, PState)
    decreases p.toks, p.left(), 110int,
{
    let (e, q) = primary_from(p);
    postfix_tail(e, q.after(p))
}

pub open spec fn postfix_tail(e: ExprV, p: PState) -> (ExprV, PState)
    decreases p.toks, p.left(), 105int,
{
    let p1 = p.bump();
    match p.kind() {
        Some(TokenKind::Dot) => {
            let (e2, q) = dot_rest(e, p1);
            postfix_tail(e2, q.after(p1))
        },
        Some(TokenKind::LParen) => {
            let (args, was_multiline, q) = args_rest(p.current_span().start.line, p1);
            let (e2, r) = node(
                q,
                ExprKindV::Call {
                    callee: Box::new(e),
                    type_args: Seq::empty(),
                    args,
                    was_multiline,
                },
                between(e.span, q.previous_span()),
            );
            postfix_tail(e2, r.after(p1))
        },
        Some(TokenKind::LBracket) => if p.explicit_type_args() {
            let (type_args, q) = type_args_rest(p1);
            let q1 = q.after(p1);
            let (args, was_multiline, r) = args_rest(q1.current_span().start.line, q1.bump());
            let (e2, s) = node(
                r,
                ExprKindV::Call { callee: Box::new(e), type_args, args, was_multiline },
                between(e.span, r.previous_span()),
            );
            postfix_tail(e2, s.after(p1))
        } else {
            let (index, q) = expr_from(p1);
            let r = q.expect(TokenKind::RBracket, "`]`"@);
            let (e2, s) = node(
                r,
                ExprKindV::Index { target: Box::new(e), index: Box::new(index) },
                between(e.span, r.previous_span()),
            );
            postfix_tail(e2, s.after(p1))
        },
        Some(TokenKind::Question) => {
            let q = if p1.no_question {
                p1.unexpected(
                    p1.previous_span(),
                    "a bare `?` inside a par branch (or a lambda body passed to one) is forbidden (D-PAR-03)"@,
                )
            } else {
                p1
            };
            let (e2, r) = node(
                q,
                ExprKindV::Question { target: Box::new(e) },
                between(e.span, q.previous_span()),
            );
            postfix_tail(e2, r.after(p1))
        },
        _ => (e, p),
    }
}

/// What follows a dot: a tuple index, a field, or a method call.
pub open spec fn dot_rest(receiver: ExprV, p: PState) -> (ExprV, PState)
    decreases p.toks, p.left(), 310int,
{
    match p.kind() {
        Some(TokenKind::IntLiteral(n)) => {
            let q = p.bump();
            node(
                q,
                ExprKindV::TupleIndex { target: Box::new(receiver), index: n as u32 },
                between(receiver.span, q.previous_span()),
            )
        },
        Some(TokenKind::Ident(name)) => {
            let q = p.bump();
            let (type_args, r) = if q.explicit_type_args() {
                type_args_rest(q.bump())
            } else {
                (Seq::empty(), q)
            };
            if r.at(TokenKind::LParen) {
                let (args, was_multiline, s) = args_rest(
                    r.current_span().start.line,
                    r.after(q).bump(),
                );
                node(
                    s,
                    ExprKindV::MethodCall {
                        receiver: Box::new(receiver),
                        method: name@,
                        type_args,
                        args,
                        was_multiline,
                    },
                    between(receiver.span, s.previous_span()),
                )
            } else {
                let s = if type_args.len() > 0 {
                    r.unexpected(
                        r.previous_span(),
                        "an explicit type argument list must be followed by a call `(...)`"@,
                    )
                } else {
                    r
                };
                node(
                    s,
                    ExprKindV::FieldAccess { target: Box::new(receiver), field: name@ },
                    between(receiver.span, s.previous_span()),
                )
            }
        },
        _ => (
            receiver,
            p.unexpected(
                p.current_span(),
                "a field name, method name, or tuple index (a number) is required after `.`"@,
            ),
        ),
    }
}

pub open spec fn primary_from(p: PState) -> (ExprV, PState)
    decreases p.toks, p.left(), 100int,
{
    let start = p.current_span();
    let p1 = p.bump();
    match p.kind() {
        Some(TokenKind::IntLiteral(n)) => node(p1, ExprKindV::IntLit(n), start),
        Some(TokenKind::FloatLiteral(s)) => node(p1, ExprKindV::FloatLit(s@), start),
        Some(TokenKind::True) => node(p1, ExprKindV::BoolLit(true), start),
        Some(TokenKind::False) => node(p1, ExprKindV::BoolLit(false), start),
        Some(TokenKind::StringLiteral(s)) => node(p1, ExprKindV::StringLit(s@), start),
        Some(TokenKind::FString(_)) => {
            let (segments, q) = segments_tail(Seq::empty(), p.pos, 0, p1);
            node(q, ExprKindV::FString(segments), between(start, q.previous_span()))
        },
        Some(TokenKind::KwSelf) => node(p1, ExprKindV::Ident("self"@), start),
        Some(TokenKind::Ident(name)) => node(p1, ExprKindV::Ident(name@), start),
        Some(TokenKind::LParen) => if close_followed(p.toks, p.pos, 0, TokenKind::FatArrow) {
            lambda_rest(start, p1)
        } else {
            paren_rest(start, p1)
        },
        Some(TokenKind::LBracket) => list_rest(start, p1),
        Some(TokenKind::LBrace) => brace_rest(start, p1),
        Some(TokenKind::If) => {
            let (i, q) = if_rest(start, p1);
            node(q, ExprKindV::If(Box::new(i)), i.span)
        },
        Some(TokenKind::Match) => match_rest(start, p1),
        Some(TokenKind::Par) => par_rest(start, p1),
        _ => poison(
            p.unexpected(start, "expected an expression but did not find one"@).bump(),
            start,
        ),
    }
}

/// The number of parts of the f-string token at `at`.
pub open spec fn part_count(toks: Seq<Token>, at: int) -> int {
    if 0 <= at < toks.len() {
        match toks[at].kind {
            TokenKind::FString(parts) => parts@.len() as int,
            _ => 0,
        }
    } else {
        0
    }
}

/// The segments of the f-string token at `at`, from part `i` on.
pub open spec fn segments_tail(acc: Seq<SegmentV>, at: int, i: int, p: PState) -> (
    Seq<SegmentV>,
    PState,
)
    decreases p.toks, p.left(), part_count(p.toks, at) - i,
{
    if 0 <= i < part_count(p.toks, at) {
        match p.toks[at].kind->FString_0@[i] {
            FStringPart::Text(text) => segments_tail(
                acc.push(SegmentV::Text(text@)),
                at,
                i + 1,
                p,
            ),
            FStringPart::Expr(sub) => {
                let inner = PState { toks: sub@, pos: 0, ..p };
                let (e, q) = expr_from(inner);
                let r = if q.pos < q.toks.len() {
                    q.unexpected(
                        q.current_span(),
                        "there are extra tokens in the f-string's expression"@,
                    )
                } else {
                    q
                };
                segments_tail(
                    acc.push(SegmentV::Expr(Box::new(e))),
                    at,
                    i + 1,
                    PState { toks: p.toks, pos: p.pos, ..r },
                )
            },
        }
    } else {
        (acc, p)
    }
}

pub open spec fn paren_rest(start: Span, p: PState) -> (ExprV, PState)
    decreases p.toks, p.left(), 310int,
{
    if p.at(TokenKind::RParen) {
        let q = p.bump();
        node(
            q,
            ExprKindV::TupleLit { elements: Seq::empty(), was_multiline: false },
            between(start, q.previous_span()),
        )
    } else {
        let (first, q) = expr_from(p);
        if q.at(TokenKind::Comma) {
            let (elements, r) = exprs_from(seq![first], q.after(p).bump(), TokenKind::RParen);
            let was_multiline = start.start.line != r.current_span().start.line;
            let s = r.expect(TokenKind::RParen, "`)`"@);
            node(
                s,
                ExprKindV::TupleLit { elements, was_multiline },
                between(start, s.previous_span()),
            )
        } else {
            let s = q.expect(TokenKind::RParen, "`)`"@);
            node(s, ExprKindV::Grouping(Box::new(first)), between(start, s.previous_span()))
        }
    }
}

/// Expressions separated by commas, up to `closing`, appended to `acc`.
pub open spec fn exprs_from(acc: Seq<ExprV>, p: PState, closing: TokenKind) -> (Seq<ExprV>, PState)
    decreases p.toks, p.left(), 250int,
{
    if p.at(closing) {
        (acc, p)
    } else {
        let (e, q) = expr_from(p);
        exprs_tail(acc.push(e), q.after(p), closing)
    }
}

pub open spec fn exprs_tail(acc: Seq<ExprV>, p: PState, closing: TokenKind) -> (Seq<ExprV>, PState)
    decreases p.toks, p.left(), 240int,
{
    if p.at(TokenKind::Comma) {
        let q = p.bump();
        if q.at(closing) {
            (acc, q)
        } else {
            let (e, r) = expr_from(q);
            exprs_tail(acc.push(e), r.after(q), closing)
        }
    } else {
        (acc, p)
    }
}

pub open spec fn entry_from(p: PState) -> ((ExprV, ExprV), PState)
    decreases p.toks, p.left(), 230int,
{
    let (key, q) = expr_from(p);
    let (value, r) = expr_from(q.expect(TokenKind::Colon, "`:`"@).after(p));
    ((key, value), r)
}

pub open spec fn entries_tail(acc: Seq<(ExprV, ExprV)>, p: PState) -> (
    Seq<(ExprV, ExprV)>,
    PState,
)
    decreases p.toks, p.left(), 240int,
{
    if p.at(TokenKind::Comma) {
        let q = p.bump();
        if q.at(TokenKind::RBrace) {
            (acc, q)
        } else {
            let (e, r) = entry_from(q);
            entries_tail(acc.push(e), r.after(q))
        }
    } else {
        (acc, p)
    }
}

pub open spec fn lambda_rest(start: Span, p: PState) -> (ExprV, PState)
    decreases p.toks, p.left(), 310int,
{
    let (params, q) = lambda_params_from(p);
    let r = q.after(p).expect(TokenKind::RParen, "`)`"@).expect(TokenKind::FatArrow, "`=>`"@);
    let (body, s) = expr_from(r.after(p).forbidding(false));
    let t = s.forbidding(p.no_question);
    node(
        t,
        ExprKindV::Lambda { params, body: Box::new(body) },
        between(start, t.previous_span()),
    )
}

pub open spec fn list_rest(start: Span, p: PState) -> (ExprV, PState)
    decreases p.toks, p.left(), 310int,
{
    let (elements, q) = exprs_from(Seq::empty(), p, TokenKind::RBracket);
    let was_multiline = start.start.line != q.current_span().start.line;
    let r = q.expect(TokenKind::RBracket, "`]`"@);
    node(r, ExprKindV::ListLit { elements, was_multiline }, between(start, r.previous_span()))
}

/// A dictionary when a colon follows the first element, a set otherwise; `{}` is the empty
/// dictionary.
pub open spec fn brace_rest(start: Span, p: PState) -> (ExprV, PState)
    decreases p.toks, p.left(), 310int,
{
    if p.at(TokenKind::RBrace) {
        let q = p.bump();
        node(
            q,
            ExprKindV::DictLit { entries: Seq::empty(), was_multiline: false },
            between(start, q.previous_span()),
        )
    } else {
        let (first, q) = expr_from(p);
        if q.at(TokenKind::Colon) {
            let (value, r) = expr_from(q.after(p).bump());
            let (entries, s) = entries_tail(seq![(first, value)], r.after(p));
            let was_multiline = start.start.line != s.current_span().start.line;
            let t = s.expect(TokenKind::RBrace, "`}`"@);
            node(
                t,
                ExprKindV::DictLit { entries, was_multiline },
                between(start, t.previous_span()),
            )
        } else {
            let (elements, s) = exprs_tail(seq![first], q.after(p), TokenKind::RBrace);
            let was_multiline = start.start.line != s.current_span().start.line;
            let t = s.expect(TokenKind::RBrace, "`}`"@);
            node(
                t,
                ExprKindV::SetLit { elements, was_multiline },
                between(start, t.previous_span()),
            )
        }
    }
}

pub open spec fn match_rest(start: Span, p: PState) -> (ExprV, PState)
    decreases p.toks, p.left(), 310int,
{
    let (scrutinee, q) = expr_from(p);
    let (arms, r) = if q.indented_ahead() {
        arms_block(Seq::empty(), q.after(p).bump().bump())
    } else {
        arms_inline(Seq::empty(), q.after(p))
    };
    node(
        r,
        ExprKindV::Match { scrutinee: Box::new(scrutinee), arms },
        between(start, r.previous_span()),
    )
}

/// Arms up to the dedent that ends their block.
pub open spec fn arms_block(acc: Seq<ArmV>, p: PState) -> (Seq<ArmV>, PState)
    decreases p.toks, p.left(), 300int,
{
    let q = p.newlines().after(p);
    if q.at(TokenKind::Dedent) {
        (acc, q.bump())
    } else if q.at_end() {
        (acc, q)
    } else {
        let (arm, r) = arm_from(q);
        arms_block(acc.push(arm), r.after(q.bump()))
    }
}

/// Arms for as long as a pattern can start.
pub open spec fn arms_inline(acc: Seq<ArmV>, p: PState) -> (Seq<ArmV>, PState)
    decreases p.toks, p.left(), 300int,
{
    if p.at_pattern_start() {
        let (arm, r) = arm_from(p);
        arms_inline(acc.push(arm), r.after(p.bump()))
    } else {
        (acc, p)
    }
}

pub open spec fn arm_from(p: PState) -> (ArmV, PState)
    decreases p.toks, p.left(), 290int,
{
    let start = p.current_span();
    let (pattern, q) = pattern_from(p);
    let (body, s) = arm_body_from(q.expect(TokenKind::FatArrow, "`=>`"@).after(p));
    (
        ArmV {
            pattern,
            body,
            leading_comments: Seq::<LeadingV>::empty(),
            trailing_comment: None,
            span: between(start, s.previous_span()),
        },
        s,
    )
}

/// The body of an arm: an indented block, or a single expression.
pub open spec fn arm_body_from(p: PState) -> (ArmBodyV, PState)
    decreases p.toks, p.left(), 280int,
{
    if p.indented_ahead() {
        let (b, q) = block_from(p);
        (ArmBodyV::Block(b), q)
    } else {
        let (e, q) = expr_from(p);
        (ArmBodyV::Expr(e), q)
    }
}

pub open spec fn par_rest(start: Span, p: PState) -> (ExprV, PState)
    decreases p.toks, p.left(), 310int,
{
    if p.at(TokenKind::LBracket) {
        par_elements(start, ParKind::List, TokenKind::RBracket, "`]`"@, p.bump())
    } else if p.at(TokenKind::LParen) {
        par_elements(start, ParKind::Tuple, TokenKind::RParen, "`)`"@, p.bump())
    } else {
        poison(p.unexpected(start, "`par` must be followed by `[` or `(`"@), start)
    }
}

pub open spec fn par_elements(
    start: Span,
    kind: ParKind,
    closing: TokenKind,
    closing_text: Seq<char>,
    p: PState,
) -> (ExprV, PState)
    decreases p.toks, p.left(), 300int,
{
    let (elements, q) = exprs_from(Seq::empty(), p.forbidding(true), closing);
    let r = q.forbidding(p.no_question).expect(closing, closing_text);
    node(r, ExprKindV::Par { kind, elements }, between(start, r.previous_span()))
}

/// The arguments of a call whose parenthesis opened on `open_line`, and whether it closes on
/// another line.
pub open spec fn args_rest(open_line: u32, p: PState) -> (Seq<ArgV>, bool, PState)
    decreases p.toks, p.left(), 300int,
{
    let (args, q) = args_from(p);
    let close_line = q.current_span().start.line;
    (args, open_line != close_line, q.expect(TokenKind::RParen, "`)`"@))
}

pub open spec fn args_from(p: PState) -> (Seq<ArgV>, PState)
    decreases p.toks, p.left(), 250int,
{
    if p.at(TokenKind::RParen) {
        (Seq::empty(), p)
    } else {
        let (a, q) = arg_from(p);
        args_tail(seq![a], q.after(p))
    }
}

pub open spec fn args_tail(acc: Seq<ArgV>, p: PState) -> (Seq<ArgV>, PState)
    decreases p.toks, p.left(), 240int,
{
    if p.at(TokenKind::Comma) {
        let q = p.bump();
        if q.at(TokenKind::RParen) {
            (acc, q)
        } else {
            let (a, r) = arg_from(q);
            args_tail(acc.push(a), r.after(q))
        }
    } else {
        (acc, p)
    }
}

/// An argument: the placeholder, a named value, or a value.
pub open spec fn arg_from(p: PState) -> (ArgV, PState)
    decreases p.toks, p.left(), 230int,
{
    match p.kind() {
        Some(TokenKind::Underscore) => {
            let (value, q) = node(p.bump(), ExprKindV::Ident("_"@), p.current_span());
            (ArgV { name: None, value, is_placeholder: true }, q)
        },
        Some(TokenKind::Ident(name)) => if p.kind_at(1) == Some(TokenKind::Colon) {
            let (value, q) = expr_from(p.bump().bump());
            (ArgV { name: Some(name@), value, is_placeholder: false }, q)
        } else {
            let (value, q) = expr_from(p);
            (ArgV { name: None, value, is_placeholder: false }, q)
        },
        _ => {
            let (value, q) = expr_from(p);
            (ArgV { name: None, value, is_placeholder: false }, q)
        },
    }
}

/// A block: its statements up to the dedent, or nothing where no indent follows.
pub open spec fn block_from(p: PState) -> (BlockV, PState)
    decreases p.toks, p.left(), 270int,
{
    let start = p.current_span();
    let q = if p.at(TokenKind::Newline) {
        p.bump()
    } else {
        p
    };
    if q.at(TokenKind::Indent) {
        let (stmts, r) = stmts_tail(Seq::empty(), q.bump());
        (BlockV { stmts, span: between(start, r.previous_span()) }, r)
    } else {
        (BlockV { stmts: Seq::empty(), span: start }, q)
    }
}

pub open spec fn stmts_tail(acc: Seq<StmtV>, p: PState) -> (Seq<StmtV>, PState)
    decreases p.toks, p.left(), 400int,
{
    let q = p.newlines().after(p);
    if q.at(TokenKind::Dedent) {
        (acc, q.bump())
    } else if q.at_end() {
        (acc, q)
    } else {
        let (s, r) = stmt_or_skip_from(q);
        stmts_tail(acc.push(s), r.after(q.bump()))
    }
}

/// A statement; where it consumed nothing (its expression nests too deeply), the rest of the
/// block is skipped.
pub open spec fn stmt_or_skip_from(p: PState) -> (StmtV, PState)
    decreases p.toks, p.left(), 360int,
{
    let (s, q) = stmt_from(p);
    if q.pos > p.pos {
        (s, q)
    } else {
        (s, q.bump().sync(0))
    }
}

pub open spec fn plain_stmt(kind: StmtKindV, span: Span) -> StmtV {
    StmtV {
        kind,
        span,
        doc_comment: None,
        leading_comments: Seq::<LeadingV>::empty(),
        trailing_comment: None,
    }
}

pub open spec fn stmt_from(p: PState) -> (StmtV, PState)
    decreases p.toks, p.left(), 350int,
{
    let start = p.current_span();
    let (kind, q) = stmt_kind_from(p);
    (plain_stmt(kind, between(start, q.previous_span())), q)
}

pub open spec fn stmt_kind_from(p: PState) -> (StmtKindV, PState)
    decreases p.toks, p.left(), 348int,
{
    match p.kind() {
        Some(TokenKind::Var) => var_rest(p.bump()),
        Some(TokenKind::Return) => return_rest(p.bump()),
        Some(TokenKind::Underscore) => if p.kind_at(1) == Some(TokenKind::Eq) {
            let (value, r) = expr_from(p.bump().bump());
            (StmtKindV::Discard(value), r)
        } else {
            assign_or_expr_from(p)
        },
        _ => assign_or_expr_from(p),
    }
}

pub open spec fn binding_name(p: PState, what: Seq<char>) -> (Seq<char>, PState) {
    if p.at(TokenKind::Underscore) {
        ("_"@, p.bump())
    } else {
        p.ident(what)
    }
}

pub open spec fn var_rest(p: PState) -> (StmtKindV, PState)
    decreases p.toks, p.left(), 310int,
{
    let (name, q) = binding_name(p, "variable name"@);
    let (ty, r) = opt_type_from(q);
    let (value, s) = expr_from(r.expect(TokenKind::Eq, "`=`"@).after(p));
    (StmtKindV::VarDecl { name, ty, value }, s)
}

pub open spec fn return_rest(p: PState) -> (StmtKindV, PState)
    decreases p.toks, p.left(), 310int,
{
    if p.at_end() || p.at(TokenKind::Newline) || p.at(TokenKind::Dedent) {
        (StmtKindV::Return(None), p)
    } else {
        let (value, q) = expr_from(p);
        (StmtKindV::Return(Some(value)), q)
    }
}

/// An assignment to a name, a field or an element, or an expression.
pub open spec fn assign_or_expr_from(p: PState) -> (StmtKindV, PState)
    decreases p.toks, p.left(), 340int,
{
    let (lhs, q) = expr_from(p);
    match q.kind() {
        Some(TokenKind::Colon) => annotated_rest(lhs, q.after(p).bump()),
        Some(TokenKind::Eq) => assigned_rest(lhs, q.after(p).bump()),
        _ => (StmtKindV::ExprStmt(lhs), q),
    }
}

/// An assignment with a type annotation, after the colon.
pub open spec fn annotated_rest(lhs: ExprV, p: PState) -> (StmtKindV, PState)
    decreases p.toks, p.left(), 310int,
{
    let (ty, q) = type_from(p);
    let (value, r) = expr_from(q.expect(TokenKind::Eq, "`=`"@).after(p));
    match lhs.kind {
        ExprKindV::Ident(name) => (StmtKindV::NameAssign { name, ty: Some(ty), value }, r),
        _ => (
            StmtKindV::NameAssign { name: ""@, ty: Some(ty), value },
            r.unexpected(
                lhs.span,
                "the left-hand side of a type-annotated assignment must be an identifier"@,
            ),
        ),
    }
}

/// What can be assigned to: a name, a field, an element.
pub open spec fn assignable(lhs: ExprV) -> bool {
    lhs.kind is Ident || lhs.kind is FieldAccess || lhs.kind is Index
}

pub open spec fn assignment(lhs: ExprV, value: ExprV) -> StmtKindV {
    match lhs.kind {
        ExprKindV::Ident(name) => StmtKindV::NameAssign { name, ty: None, value },
        ExprKindV::FieldAccess { target, field } => StmtKindV::FieldAssign {
            target: *target,
            field,
            value,
        },
        ExprKindV::Index { target, index } => StmtKindV::IndexAssign {
            target: *target,
            index: *index,
            value,
        },
        _ => StmtKindV::ExprStmt(lhs),
    }
}

/// An assignment, after the equals sign.
pub open spec fn assigned_rest(lhs: ExprV, p: PState) -> (StmtKindV, PState)
    decreases p.toks, p.left(), 310int,
{
    let (value, q) = expr_from(p);
    let r = if assignable(lhs) {
        q
    } else {
        q.unexpected(lhs.span, "invalid expression for the left-hand side of an assignment"@)
    };
    (assignment(lhs, value), r)
}

pub open spec fn if_rest(start: Span, p: PState) -> (IfV, PState)
    decreases p.toks, p.left(), 310int,
{
    let (cond, q) = expr_from(p);
    let (then_branch, r) = branch_from(q.after(p));
    let (else_branch, s) = else_from(r.after(p));
    (
        IfV {
            cond: Box::new(cond),
            then_branch,
            else_branch,
            span: between(start, s.previous_span()),
        },
        s,
    )
}

/// The other branch, which is required.
pub open spec fn else_from(p: PState) -> (ElseV, PState)
    decreases p.toks, p.left(), 300int,
{
    if p.at(TokenKind::Else) {
        let q = p.bump();
        if q.at(TokenKind::If) {
            let (inner, r) = if_rest(q.current_span(), q.bump());
            (ElseV::ElseIf(Box::new(inner)), r)
        } else {
            let (b, r) = branch_from(q);
            (ElseV::Block(b), r)
        }
    } else {
        let span = p.current_span();
        (
            ElseV::Block(BlockV { stmts: Seq::empty(), span }),
            p.unexpected(span, "an if expression requires else (D-SYN-03)"@).sync(0),
        )
    }
}

/// A branch: an indented block, or a single expression.
pub open spec fn branch_from(p: PState) -> (BlockV, PState)
    decreases p.toks, p.left(), 280int,
{
    if p.indented_ahead() {
        block_from(p)
    } else {
        let (e, q) = expr_from(p);
        (BlockV { stmts: seq![plain_stmt(StmtKindV::ExprStmt(e), e.span)], span: e.span }, q)
    }
}

// ---------------------------------------------------------------------------
// Declarations
// ---------------------------------------------------------------------------

pub open spec fn generics_from(p: PState) -> (Seq<Seq<char>>, PState) {
    if p.at(TokenKind::LBracket) {
        let (names, q) = idents_from(p.bump(), TokenKind::RBracket, "type parameter name"@);
        (names, q.expect(TokenKind::RBracket, "`]`"@))
    } else {
        (Seq::empty(), p)
    }
}

pub open spec fn param_from(p: PState) -> (ParamV, PState) {
    let (name, q) = p.ident("parameter name/field name"@);
    let (ty, r) = if q.at(TokenKind::Colon) {
        type_from(q.bump())
    } else {
        (unnamed_type(q.previous_span()), q)
    };
    (ParamV { name, ty, span: between(p.current_span(), r.previous_span()) }, r)
}

/// A comma, if one stands here.
pub open spec fn opt_comma(p: PState) -> PState {
    if p.at(TokenKind::Comma) {
        p.bump()
    } else {
        p
    }
}

pub open spec fn self_param_from(p: PState) -> (Option<SelfParam>, PState) {
    let span = p.current_span();
    if p.at(TokenKind::Var) && p.kind_at(1) == Some(TokenKind::KwSelf) {
        (Some(SelfParam { mutable: true, span }), opt_comma(p.bump().bump()))
    } else if p.at(TokenKind::KwSelf) {
        (Some(SelfParam { mutable: false, span }), opt_comma(p.bump()))
    } else {
        (None, p)
    }
}

pub open spec fn function_params_from(p: PState) -> (Option<SelfParam>, Seq<ParamV>, PState) {
    if p.at(TokenKind::RParen) {
        (None, Seq::empty(), p)
    } else {
        let (self_param, q) = self_param_from(p);
        let (params, r) = params_tail(Seq::empty(), q);
        (self_param, params, r)
    }
}

pub open spec fn params_tail(acc: Seq<ParamV>, p: PState) -> (Seq<ParamV>, PState)
    decreases p.left(),
{
    if p.at_end() || p.at(TokenKind::RParen) {
        (acc, p)
    } else {
        let (x, q) = param_from(p);
        if q.at(TokenKind::Comma) {
            let r = q.after(p).bump();
            if r.at(TokenKind::RParen) {
                (acc.push(x), r)
            } else {
                params_tail(acc.push(x), r)
            }
        } else {
            (acc.push(x), q)
        }
    }
}

/// A function, after `def`.
pub open spec fn function_from(p: PState) -> (FunctionV, PState) {
    let start = p.current_span();
    let (name, p1) = p.bump().ident("function name"@);
    let (generics, p2) = generics_from(p1);
    let (self_param, params, p3) = function_params_from(p2.expect(TokenKind::LParen, "`(`"@));
    let p4 = p3.expect(TokenKind::RParen, "`)`"@).expect(
        TokenKind::Colon,
        "`:` (return type annotation)"@,
    );
    let (ret, p5) = type_from(p4);
    let (effects, p6) = uses_from(p5);
    let (body, p7) = block_from(p6);
    (
        FunctionV {
            id: p7.id(),
            name,
            generics,
            self_param,
            params,
            ret,
            effects,
            body,
            leading_comments: Seq::<LeadingV>::empty(),
            doc_comment: None,
            span: between(start, p7.previous_span()),
        },
        p7.numbered(),
    )
}

/// Where the indented body of a declaration starts, if it has one.
pub open spec fn body_from(p: PState) -> (bool, PState) {
    let q = if p.at(TokenKind::Newline) {
        p.bump()
    } else {
        p
    };
    if q.at(TokenKind::Indent) {
        (true, q.bump())
    } else {
        (false, q)
    }
}

pub open spec fn struct_from(p: PState) -> (StructV, PState) {
    let start = p.current_span();
    let (name, p1) = p.bump().ident("struct name"@);
    let (generics, p2) = generics_from(p1);
    let (has_body, p3) = body_from(p2);
    let (fields, methods, p4) = if has_body {
        members_tail(Seq::empty(), Seq::empty(), p3)
    } else {
        (Seq::empty(), Seq::empty(), p3)
    };
    (
        StructV {
            id: p4.id(),
            name,
            generics,
            fields,
            field_leading_comments: Seq::new(fields.len(), |i: int| Seq::<LeadingV>::empty()),
            field_trailing_comments: Seq::new(fields.len(), |i: int| None::<Seq<char>>),
            methods,
            leading_comments: Seq::<LeadingV>::empty(),
            doc_comment: None,
            span: between(start, p4.previous_span()),
        },
        p4.numbered(),
    )
}

/// Fields and methods, up to the dedent that ends the struct.
pub open spec fn members_tail(fields: Seq<ParamV>, methods: Seq<FunctionV>, p: PState) -> (
    Seq<ParamV>,
    Seq<FunctionV>,
    PState,
)
    decreases p.left(),
{
    let q = p.newlines().after(p);
    match q.kind() {
        Some(TokenKind::Dedent) => (fields, methods, q.bump()),
        None => (fields, methods, q),
        Some(TokenKind::Eof) => (fields, methods, q),
        Some(TokenKind::Def) => {
            let (f, r) = function_from(q);
            members_tail(fields, methods.push(f), r.after(q.bump()))
        },
        Some(TokenKind::Ident(_)) => {
            let (x, r) = param_from(q);
            members_tail(fields.push(x), methods, r.after(q.bump()))
        },
        Some(_) => {
            let r = q.unexpected(
                q.current_span(),
                "expected a struct field or method definition"@,
            ).sync(0);
            members_tail(fields, methods, r.after(q.bump()))
        },
    }
}

pub open spec fn variant_field_from(p: PState) -> (Option<Seq<char>>, TypeV, PState) {
    match p.kind() {
        Some(TokenKind::Ident(name)) => if p.kind_at(1) == Some(TokenKind::Colon) {
            let (t, q) = type_from(p.bump().bump());
            (Some(name@), t, q)
        } else {
            let (t, q) = type_from(p);
            (None, t, q)
        },
        _ => {
            let (t, q) = type_from(p);
            (None, t, q)
        },
    }
}

pub open spec fn variant_fields_from(p: PState) -> (Seq<Option<Seq<char>>>, Seq<TypeV>, PState) {
    if p.at(TokenKind::RParen) {
        (Seq::empty(), Seq::empty(), p)
    } else {
        let (n, t, q) = variant_field_from(p);
        variant_fields_tail(seq![n], seq![t], q)
    }
}

pub open spec fn variant_fields_tail(
    names: Seq<Option<Seq<char>>>,
    types: Seq<TypeV>,
    p: PState,
) -> (Seq<Option<Seq<char>>>, Seq<TypeV>, PState)
    decreases p.left(),
{
    if p.at(TokenKind::Comma) {
        let q = p.bump();
        if q.at(TokenKind::RParen) {
            (names, types, q)
        } else {
            let (n, t, r) = variant_field_from(q);
            variant_fields_tail(names.push(n), types.push(t), r.after(q))
        }
    } else {
        (names, types, p)
    }
}

pub open spec fn variant_from(p: PState) -> (VariantV, PState) {
    let start = p.current_span();
    let (name, q) = p.ident("variant name"@);
    let (field_names, fields, r) = if q.at(TokenKind::LParen) {
        let (n, t, s) = variant_fields_from(q.bump());
        (n, t, s.expect(TokenKind::RParen, "`)`"@))
    } else {
        (Seq::empty(), Seq::empty(), q)
    };
    (
        VariantV {
            name,
            fields,
            field_names,
            leading_comments: Seq::<LeadingV>::empty(),
            trailing_comment: None,
            span: between(start, r.previous_span()),
        },
        r,
    )
}

/// Variants, up to the dedent that ends the enum.
pub open spec fn variants_tail(acc: Seq<VariantV>, p: PState) -> (Seq<VariantV>, PState)
    decreases p.left(),
{
    let q = p.newlines().after(p);
    match q.kind() {
        Some(TokenKind::Dedent) => (acc, q.bump()),
        None => (acc, q),
        Some(TokenKind::Eof) => (acc, q),
        Some(TokenKind::Ident(_)) => {
            let (v, r) = variant_from(q);
            variants_tail(acc.push(v), r.after(q.bump()))
        },
        Some(_) => {
            let r = q.unexpected(q.current_span(), "expected an enum variant"@).sync(0);
            variants_tail(acc, r.after(q.bump()))
        },
    }
}

pub open spec fn enum_from(p: PState) -> (EnumV, PState) {
    let start = p.current_span();
    let (name, p1) = p.bump().ident("enum name"@);
    let (generics, p2) = generics_from(p1);
    let (has_body, p3) = body_from(p2);
    let (variants, p4) = if has_body {
        variants_tail(Seq::empty(), p3)
    } else {
        (Seq::empty(), p3)
    };
    (
        EnumV {
            id: p4.id(),
            name,
            generics,
            variants,
            leading_comments: Seq::<LeadingV>::empty(),
            doc_comment: None,
            span: between(start, p4.previous_span()),
        },
        p4.numbered(),
    )
}

/// Declarations and statements, up to the end of the file.
pub open spec fn items_tail(acc: Seq<ItemV>, p: PState) -> (Seq<ItemV>, PState)
    decreases p.left(),
{
    let q = p.newlines().after(p);
    if q.at_end() || q.at(TokenKind::Dedent) {
        (acc, q)
    } else {
        let (item, r) = item_from(q);
        items_tail(acc.push(item), r.after(q.bump()))
    }
}

pub open spec fn item_from(p: PState) -> (ItemV, PState) {
    match p.kind() {
        Some(TokenKind::Def) => {
            let (d, q) = function_from(p);
            (ItemV::Decl(DeclV::Function(d)), q)
        },
        Some(TokenKind::Struct) => {
            let (d, q) = struct_from(p);
            (ItemV::Decl(DeclV::Struct(d)), q)
        },
        Some(TokenKind::Enum) => {
            let (d, q) = enum_from(p);
            (ItemV::Decl(DeclV::Enum(d)), q)
        },
        _ => {
            let (s, q) = stmt_or_skip_from(p);
            (ItemV::Stmt(s), q)
        },
    }
}

/// Skips to the end of the line.
pub open spec fn line_end(p: PState) -> PState
    decreases p.left(),
{
    if p.at_end() || p.at(TokenKind::Newline) {
        p
    } else {
        line_end(p.bump())
    }
}

/// The state in which the parse of a file starts.
pub open spec fn initial(toks: Seq<Token>, file: FileId, start_id: u32) -> PState {
    PState {
        toks,
        pos: 0,
        next_id: start_id as int,
        depth: 0,
        no_question: false,
        file,
        diags: Seq::empty(),
    }
}

/// The directive at the start of a file, if it has one.
pub open spec fn directive_from(p: PState) -> (bool, PState) {
    if p.at(TokenKind::Module) {
        let q = p.bump();
        if q.at(TokenKind::Newline) || q.at(TokenKind::Eof) {
            (true, q)
        } else {
            let r = q.report(
                ErrorCode::ModuleDirectiveMalformed,
                between(p.current_span(), q.current_span()),
                "a module directive must be the bare keyword with no name (D-LEX-08)"@,
            );
            (true, line_end(r))
        }
    } else {
        (false, p)
    }
}

/// A whole file: the module, the diagnostics, and the first node number not used.
#[verifier::opaque]
pub open spec fn module_from(toks: Seq<Token>, file: FileId, start_id: u32) -> (
    ModuleV,
    Seq<DiagnosticView>,
    u32,
) {
    let (is_module_directive, p) = directive_from(initial(toks, file, start_id));
    let (items, q) = items_tail(Seq::empty(), p);
    (
        ModuleV { file, is_module_directive, items, trailing_comments: Seq::<LeadingV>::empty() },
        q.diags,
        wrapped(q.next_id),
    )
}

} // verus!
