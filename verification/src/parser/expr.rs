//! Expressions, by precedence: postfix operators bind tightest, the unary ones next, the
//! multiplicative, additive, relational, equality, `and` and `or` operators follow, and the
//! pipe binds loosest.

use super::grammar::{
    additive_tail, and_from, and_tail, arithmetic_from, arms_block, arms_inline, brace_rest,
    callee_rest, comparison_from, destination_from, destination_tail, dot_rest, entries_tail,
    entry_from, equality_tail, expr_from, exprs_from, exprs_tail, lambda_param_from,
    lambda_params_from, lambda_params_tail, lambda_rest, list_rest, logical_from, match_rest,
    multiplicative_tail, or_tail, par_elements, par_rest, paren_rest, pipe_from, postfix_from,
    postfix_tail, primary_from, relational_from, segments_tail, stage_from, stages_tail,
    term_from, unary_from,
};
use super::state::{close_followed, node, poison, PState};
use super::args::any_placeholder;
use super::{plain, sound, span_between, step, Parser};
use crate::ast::{
    arms_view, entries_view, exprs_view, lambda_params_view, segments_view, stages_view,
    types_view, BinaryOp, Expr, ExprKind, FStringSegment, LambdaParam, MatchArm, ParKind,
    PipeCallee, PipeStage, TypeAnn, UnaryOp,
};
use crate::ast_build::{
    bare_callee, callee_with_args, expr_segment, expr_span, if_span, new_expr, new_stage, stage_span,
    text_segment,
};
use crate::diagnostics::{ErrorCode, Span};
use crate::lexer::{lemma_embedded_token_count, token_count, well_lexed, FStringPart, Token, TokenKind};
use vstd::prelude::*;

verus! {

impl<'a> Parser<'a> {
    /// Any expression. Every nested expression passes through here, so that guarding the
    /// nesting depth here guards every path.
    pub fn parse_expr(&mut self) -> (r: Expr)
        requires
            sound(old(self)@),
        ensures
            r@ == expr_from(old(self)@).0,
            final(self)@ == expr_from(old(self)@).1,
            step(old(self)@, final(self)@),
        decreases token_count(old(self)@.toks), old(self)@.left(), 200int,
    {
        let span = self.current_span();
        if !self.depth_enter(span) {
            return self.poison_expr(span);
        }
        let result = self.parse_pipe();
        self.depth_exit();
        result
    }

    /// `source |> stage |> ..`.
    pub(crate) fn parse_pipe(&mut self) -> (r: Expr)
        requires
            sound(old(self)@),
        ensures
            r@ == pipe_from(old(self)@).0,
            final(self)@ == pipe_from(old(self)@).1,
            step(old(self)@, final(self)@),
        decreases token_count(old(self)@.toks), old(self)@.left(), 190int,
    {
        let ghost p0 = self@;
        let source = self.parse_logical();
        if !matches!(self.peek_kind(), Some(TokenKind::PipeOp)) {
            return source;
        }
        let ghost p1 = self@;
        let start_span = expr_span(&source);
        let mut end_span = start_span;
        let mut stages: Vec<PipeStage> = Vec::new();
        assert(stages_view(stages@) =~= Seq::empty());
        while matches!(self.peek_kind(), Some(TokenKind::PipeOp))
            invariant
                p0 == old(self)@,
                step(p0, p1),
                step(p1, self@),
                stages_tail(stages_view(stages@), self@) == stages_tail(Seq::empty(), p1),
                end_span == if stages@.len() > 0 {
                    stages_view(stages@).last().span
                } else {
                    start_span
                },
            decreases self@.left(),
        {
            let ghost seen = stages_view(stages@);
            self.bump();
            let stage = self.parse_pipe_stage();
            end_span = stage_span(&stage);
            stages.push(stage);
            assert(stages_view(stages@) =~= seen.push(stage@));
        }
        self.make_expr(ExprKind::pipe(source, stages), span_between(start_span, end_span))
    }

    /// One stage of a pipe: a destination, alone or with arguments that hold a placeholder,
    /// and an optional `?`.
    fn parse_pipe_stage(&mut self) -> (r: PipeStage)
        requires
            sound(old(self)@),
        ensures
            r@ == stage_from(old(self)@).0,
            final(self)@ == stage_from(old(self)@).1,
            step(old(self)@, final(self)@),
        decreases token_count(old(self)@.toks), old(self)@.left(), 310int,
    {
        let start_span = self.current_span();
        let callee_expr = self.parse_pipe_callee_target();
        let callee = self.parse_pipe_callee(callee_expr);
        let question = matches!(self.peek_kind(), Some(TokenKind::Question));
        if question {
            self.bump();
            if self.question_forbidden() {
                let span = self.previous_span();
                self.unexpected(
                    span,
                    "a trailing pipe-stage `?` inside a par branch (or a lambda body passed to one) is forbidden (D-PAR-03)",
                );
            }
        }
        let span = span_between(start_span, self.previous_span());
        new_stage(callee, question, span)
    }

    /// The arguments of a pipe stage, if it has any; one of them must be the placeholder.
    fn parse_pipe_callee(&mut self, target: Expr) -> (r: PipeCallee)
        requires
            sound(old(self)@),
        ensures
            (r@, final(self)@) == callee_rest(target@, old(self)@),
            step(old(self)@, final(self)@),
        decreases token_count(old(self)@.toks), old(self)@.left(), 305int,
    {
        if !self.at(&TokenKind::LParen) {
            return bare_callee(target);
        }
        let open_line: u32 = self.current_span().start.line;
        self.bump();
        let (args, _was_multiline) = self.parse_call_args(open_line);
        if !any_placeholder(&args) {
            let span = self.previous_span();
            self.push_diag(
                ErrorCode::PipePlaceholderMissing,
                span,
                "a pipe destination with arguments requires a `_` placeholder (SPEC §6.3, D-DIAG-02 E0503)".to_owned(),
            );
        }
        callee_with_args(target, args)
    }

    /// The destination of a pipe stage: a name and the fields selected from it.
    fn parse_pipe_callee_target(&mut self) -> (r: Expr)
        requires
            sound(old(self)@),
        ensures
            r@ == destination_from(old(self)@).0,
            final(self)@ == destination_from(old(self)@).1,
            step(old(self)@, final(self)@),
    {
        let ghost p0 = self@;
        let start_span = self.current_span();
        let name = self.expect_ident("pipe destination function name/namespace name");
        let mut expr = self.make_expr(ExprKind::ident(name), start_span);
        while matches!(self.peek_kind(), Some(TokenKind::Dot))
            invariant
                step(p0, self@),
                destination_tail(expr@, self@) == destination_from(p0),
            decreases self@.left(),
        {
            self.bump();
            let field = self.expect_ident("field/method name");
            let span = span_between(expr_span(&expr), self.previous_span());
            expr = self.make_expr(ExprKind::field_access(expr, field), span);
        }
        expr
    }

    fn binary_expr(&mut self, op: BinaryOp, lhs: Expr, rhs: Expr) -> (r: Expr)
        requires
            sound(old(self)@),
        ensures
            (r@, final(self)@) == super::grammar::binary(op, lhs@, rhs@, old(self)@),
            step(old(self)@, final(self)@),
    {
        let span = span_between(expr_span(&lhs), expr_span(&rhs));
        self.make_expr(ExprKind::binary(op, lhs, rhs), span)
    }

    /// `or`, which binds more loosely than `and`.
    pub(crate) fn parse_logical(&mut self) -> (r: Expr)
        requires
            sound(old(self)@),
        ensures
            r@ == logical_from(old(self)@).0,
            final(self)@ == logical_from(old(self)@).1,
            step(old(self)@, final(self)@),
        decreases token_count(old(self)@.toks), old(self)@.left(), 180int,
    {
        let ghost p0 = self@;
        let mut lhs = self.parse_and();
        while matches!(self.peek_kind(), Some(TokenKind::Or))
            invariant
                p0 == old(self)@,
                step(p0, self@),
                or_tail(lhs@, self@) == logical_from(p0),
            decreases self@.left(),
        {
            self.bump();
            let rhs = self.parse_and();
            lhs = self.binary_expr(BinaryOp::Or, lhs, rhs);
        }
        lhs
    }

    fn parse_and(&mut self) -> (r: Expr)
        requires
            sound(old(self)@),
        ensures
            r@ == and_from(old(self)@).0,
            final(self)@ == and_from(old(self)@).1,
            step(old(self)@, final(self)@),
        decreases token_count(old(self)@.toks), old(self)@.left(), 170int,
    {
        let ghost p0 = self@;
        let mut lhs = self.parse_comparison();
        while matches!(self.peek_kind(), Some(TokenKind::And))
            invariant
                p0 == old(self)@,
                step(p0, self@),
                and_tail(lhs@, self@) == and_from(p0),
            decreases self@.left(),
        {
            self.bump();
            let rhs = self.parse_comparison();
            lhs = self.binary_expr(BinaryOp::And, lhs, rhs);
        }
        lhs
    }

    /// `==` and `!=`, above the relational operators.
    pub(crate) fn parse_comparison(&mut self) -> (r: Expr)
        requires
            sound(old(self)@),
        ensures
            r@ == comparison_from(old(self)@).0,
            final(self)@ == comparison_from(old(self)@).1,
            step(old(self)@, final(self)@),
        decreases token_count(old(self)@.toks), old(self)@.left(), 160int,
    {
        let ghost p0 = self@;
        let mut lhs = self.parse_relational();
        loop
            invariant
                p0 == old(self)@,
                step(p0, self@),
                equality_tail(lhs@, self@) == comparison_from(p0),
            ensures
                step(p0, self@),
                (lhs@, self@) == comparison_from(p0),
            decreases self@.left(),
        {
            let op = match self.peek_kind() {
                Some(TokenKind::EqEq) => BinaryOp::EqEq,
                Some(TokenKind::NotEq) => BinaryOp::NotEq,
                _ => break,
            };
            self.bump();
            let rhs = self.parse_relational();
            lhs = self.binary_expr(op, lhs, rhs);
        }
        lhs
    }

    /// `<` `<=` `>` `>=`, at most once: comparisons do not chain.
    fn parse_relational(&mut self) -> (r: Expr)
        requires
            sound(old(self)@),
        ensures
            r@ == relational_from(old(self)@).0,
            final(self)@ == relational_from(old(self)@).1,
            step(old(self)@, final(self)@),
        decreases token_count(old(self)@.toks), old(self)@.left(), 150int,
    {
        let lhs = self.parse_arithmetic();
        let op = match self.peek_kind() {
            Some(TokenKind::Lt) => BinaryOp::Lt,
            Some(TokenKind::LtEq) => BinaryOp::LtEq,
            Some(TokenKind::Gt) => BinaryOp::Gt,
            Some(TokenKind::GtEq) => BinaryOp::GtEq,
            _ => return lhs,
        };
        self.bump();
        let rhs = self.parse_arithmetic();
        self.binary_expr(op, lhs, rhs)
    }

    /// `+` and `-`, above the multiplicative operators.
    pub(crate) fn parse_arithmetic(&mut self) -> (r: Expr)
        requires
            sound(old(self)@),
        ensures
            r@ == arithmetic_from(old(self)@).0,
            final(self)@ == arithmetic_from(old(self)@).1,
            step(old(self)@, final(self)@),
        decreases token_count(old(self)@.toks), old(self)@.left(), 140int,
    {
        let ghost p0 = self@;
        let mut lhs = self.parse_term();
        loop
            invariant
                p0 == old(self)@,
                step(p0, self@),
                additive_tail(lhs@, self@) == arithmetic_from(p0),
            ensures
                step(p0, self@),
                (lhs@, self@) == arithmetic_from(p0),
            decreases self@.left(),
        {
            let op = match self.peek_kind() {
                Some(TokenKind::Plus) => BinaryOp::Add,
                Some(TokenKind::Minus) => BinaryOp::Sub,
                _ => break,
            };
            self.bump();
            let rhs = self.parse_term();
            lhs = self.binary_expr(op, lhs, rhs);
        }
        lhs
    }

    fn parse_term(&mut self) -> (r: Expr)
        requires
            sound(old(self)@),
        ensures
            r@ == term_from(old(self)@).0,
            final(self)@ == term_from(old(self)@).1,
            step(old(self)@, final(self)@),
        decreases token_count(old(self)@.toks), old(self)@.left(), 130int,
    {
        let ghost p0 = self@;
        let mut lhs = self.parse_unary();
        loop
            invariant
                p0 == old(self)@,
                step(p0, self@),
                multiplicative_tail(lhs@, self@) == term_from(p0),
            ensures
                step(p0, self@),
                (lhs@, self@) == term_from(p0),
            decreases self@.left(),
        {
            let op = match self.peek_kind() {
                Some(TokenKind::Star) => BinaryOp::Mul,
                Some(TokenKind::Slash) => BinaryOp::Div,
                Some(TokenKind::Percent) => BinaryOp::Mod,
                _ => break,
            };
            self.bump();
            let rhs = self.parse_unary();
            lhs = self.binary_expr(op, lhs, rhs);
        }
        lhs
    }

    /// Prefix `-` and `not`. Their right recursion does not pass through `parse_expr`, so the
    /// depth is guarded here too.
    pub(crate) fn parse_unary(&mut self) -> (r: Expr)
        requires
            sound(old(self)@),
        ensures
            r@ == unary_from(old(self)@).0,
            final(self)@ == unary_from(old(self)@).1,
            step(old(self)@, final(self)@),
        decreases token_count(old(self)@.toks), old(self)@.left(), 120int,
    {
        let start_span = self.current_span();
        let op = match self.peek_kind() {
            Some(TokenKind::Minus) => UnaryOp::Neg,
            Some(TokenKind::Not) => UnaryOp::Not,
            _ => return self.parse_postfix(),
        };
        self.bump();
        let operand = if self.depth_enter(start_span) {
            let result = self.parse_unary();
            self.depth_exit();
            result
        } else {
            self.poison_expr(start_span)
        };
        let span = span_between(start_span, expr_span(&operand));
        self.make_expr(ExprKind::unary(op, operand), span)
    }

    /// Postfix calls, indexing, selections and `?`, applied from left to right.
    #[verifier::spinoff_prover]
    #[verifier::rlimit(100)]
    pub(crate) fn parse_postfix(&mut self) -> (r: Expr)
        requires
            sound(old(self)@),
        ensures
            r@ == postfix_from(old(self)@).0,
            final(self)@ == postfix_from(old(self)@).1,
            step(old(self)@, final(self)@),
        decreases token_count(old(self)@.toks), old(self)@.left(), 110int,
    {
        let ghost p0 = self@;
        let mut expr = self.parse_primary();
        loop
            invariant
                p0 == old(self)@,
                step(p0, self@),
                postfix_tail(expr@, self@) == postfix_from(p0),
            ensures
                step(p0, self@),
                (expr@, self@) == postfix_from(p0),
            decreases self@.left(),
        {
            match self.peek_kind() {
                Some(TokenKind::Dot) => {
                    self.bump();
                    expr = self.parse_dot_postfix(expr);
                },
                Some(TokenKind::LParen) => {
                    let open_line: u32 = self.current_span().start.line;
                    self.bump();
                    let (args, was_multiline) = self.parse_call_args(open_line);
                    let span = span_between(expr_span(&expr), self.previous_span());
                    let type_args: Vec<TypeAnn> = Vec::new();
                    assert(types_view(type_args@) =~= Seq::empty());
                    expr =
                    self.make_expr(ExprKind::call(expr, type_args, args, was_multiline), span);
                },
                Some(TokenKind::LBracket) => {
                    if self.at_explicit_type_args() {
                        let type_args = self.parse_type_arg_list();
                        let open_line: u32 = self.current_span().start.line;
                        self.bump();
                        let (args, was_multiline) = self.parse_call_args(open_line);
                        let span = span_between(expr_span(&expr), self.previous_span());
                        expr =
                        self.make_expr(ExprKind::call(expr, type_args, args, was_multiline), span);
                    } else {
                        self.bump();
                        let index = self.parse_expr();
                        self.expect(&TokenKind::RBracket, "`]`");
                        let span = span_between(expr_span(&expr), self.previous_span());
                        expr =
                        self.make_expr(ExprKind::index(expr, index), span);
                    }
                },
                Some(TokenKind::Question) => {
                    self.bump();
                    if self.question_forbidden() {
                        let span = self.previous_span();
                        self.unexpected(
                            span,
                            "a bare `?` inside a par branch (or a lambda body passed to one) is forbidden (D-PAR-03)",
                        );
                    }
                    let span = span_between(expr_span(&expr), self.previous_span());
                    expr =
                    self.make_expr(ExprKind::question(expr), span);
                },
                _ => break,
            }
        }
        expr
    }

    /// What follows a consumed dot: a tuple index, a field, or a method call.
    fn parse_dot_postfix(&mut self, receiver: Expr) -> (r: Expr)
        requires
            sound(old(self)@),
            old(self)@.pos > 0,
            old(self)@.toks[old(self)@.pos - 1].kind is Dot,
        ensures
            r@ == dot_rest(receiver@, old(self)@).0,
            final(self)@ == dot_rest(receiver@, old(self)@).1,
            step(old(self)@, final(self)@),
        decreases token_count(old(self)@.toks), old(self)@.left(), 310int,
    {
        let receiver_span = expr_span(&receiver);
        match self.peek_kind() {
            Some(TokenKind::IntLiteral(n)) => {
                proof {
                    reveal(well_lexed);
                    assert(self@.toks[self@.pos].kind is IntLiteral);
                }
                self.bump();
                let index: u32 = *n as u32;
                let span = span_between(receiver_span, self.previous_span());
                self.make_expr(ExprKind::tuple_index(receiver, index), span)
            },
            Some(TokenKind::Ident(_)) => {
                let name = self.expect_ident("field/method name");
                let type_args: Vec<TypeAnn> = if self.at_explicit_type_args() {
                    self.parse_type_arg_list()
                } else {
                    let none: Vec<TypeAnn> = Vec::new();
                    assert(types_view(none@) =~= Seq::empty());
                    none
                };
                if self.at(&TokenKind::LParen) {
                    let open_line: u32 = self.current_span().start.line;
                    self.bump();
                    let (args, was_multiline) = self.parse_call_args(open_line);
                    let span = span_between(receiver_span, self.previous_span());
                    self.make_expr(ExprKind::method_call(receiver, name, type_args, args, was_multiline), span)
                } else {
                    if type_args.len() > 0 {
                        let span = self.previous_span();
                        self.unexpected(
                            span,
                            "an explicit type argument list must be followed by a call `(...)`",
                        );
                    }
                    let span = span_between(receiver_span, self.previous_span());
                    self.make_expr(ExprKind::field_access(receiver, name), span)
                }
            },
            _ => {
                let span = self.current_span();
                self.unexpected(
                    span,
                    "a field name, method name, or tuple index (a number) is required after `.`",
                );
                receiver
            },
        }
    }

    /// Literals, names, bracketed expressions, lambdas, `if`, `match` and `par`.
    #[verifier::spinoff_prover]
    #[verifier::rlimit(80)]
    pub(crate) fn parse_primary(&mut self) -> (r: Expr)
        requires
            sound(old(self)@),
        ensures
            r@ == primary_from(old(self)@).0,
            final(self)@ == primary_from(old(self)@).1,
            step(old(self)@, final(self)@),
        decreases token_count(old(self)@.toks), old(self)@.left(), 100int,
    {
        let start_span = self.current_span();
        match self.peek_kind() {
            Some(TokenKind::IntLiteral(n)) => {
                self.bump();
                self.make_expr(ExprKind::int_lit(*n), start_span)
            },
            Some(TokenKind::FloatLiteral(f)) => {
                self.bump();
                self.make_expr(ExprKind::float_lit(f.clone()), start_span)
            },
            Some(TokenKind::True) => {
                self.bump();
                self.make_expr(ExprKind::bool_lit(true), start_span)
            },
            Some(TokenKind::False) => {
                self.bump();
                self.make_expr(ExprKind::bool_lit(false), start_span)
            },
            Some(TokenKind::StringLiteral(s)) => {
                self.bump();
                self.make_expr(ExprKind::string_lit(s.clone()), start_span)
            },
            Some(TokenKind::FString(_)) => {
                let segments = self.parse_fstring_segments();
                let span = span_between(start_span, self.previous_span());
                self.make_expr(ExprKind::fstring(segments), span)
            },
            Some(TokenKind::KwSelf) => {
                self.bump();
                self.make_expr(ExprKind::ident("self".to_owned()), start_span)
            },
            Some(TokenKind::Ident(_)) => {
                let name = self.expect_ident("identifier");
                self.make_expr(ExprKind::ident(name), start_span)
            },
            Some(TokenKind::LParen) => self.parse_paren_expr(start_span),
            Some(TokenKind::LBracket) => self.parse_list_lit(start_span),
            Some(TokenKind::LBrace) => self.parse_brace_lit(start_span),
            Some(TokenKind::If) => {
                let if_expr = self.parse_if();
                let span = if_span(&if_expr);
                self.make_expr(ExprKind::if_kind(if_expr), span)
            },
            Some(TokenKind::Match) => self.parse_match_expr(start_span),
            Some(TokenKind::Par) => self.parse_par_expr(start_span),
            _ => {
                self.unexpected(start_span, "expected an expression but did not find one");
                self.bump();
                self.poison_expr(start_span)
            },
        }
    }

    pub(crate) fn make_expr(&mut self, kind: ExprKind, span: Span) -> (r: Expr)
        requires
            sound(old(self)@),
        ensures
            (r@, final(self)@) == node(old(self)@, kind@, span),
            step(old(self)@, final(self)@),
    {
        let id = self.next_node_id();
        new_expr(id, kind, span)
    }

    /// The dummy expression with which parsing goes on after an error.
    fn poison_expr(&mut self, span: Span) -> (r: Expr)
        requires
            sound(old(self)@),
        ensures
            (r@, final(self)@) == poison(old(self)@, span),
            step(old(self)@, final(self)@),
    {
        self.make_expr(ExprKind::int_lit(0), span)
    }

    /// What starts with `(`: a lambda when the matching `)` is followed by `=>`; otherwise a
    /// tuple when a comma follows the first element, and a grouping when none does.
    fn parse_paren_expr(&mut self, start_span: Span) -> (r: Expr)
        requires
            sound(old(self)@),
            old(self)@.at(TokenKind::LParen),
        ensures
            (r@, final(self)@) == if close_followed(
                old(self)@.toks,
                old(self)@.pos,
                0,
                TokenKind::FatArrow,
            ) {
                lambda_rest(start_span, old(self)@.bump())
            } else {
                paren_rest(start_span, old(self)@.bump())
            },
            step(old(self)@, final(self)@),
        decreases token_count(old(self)@.toks), old(self)@.left(), 95int,
    {
        if self.matching_close_followed_by(&TokenKind::FatArrow) {
            return self.parse_lambda(start_span);
        }
        self.bump();
        if self.at(&TokenKind::RParen) {
            self.bump();
            let span = span_between(start_span, self.previous_span());
            let elements: Vec<Expr> = Vec::new();
            assert(exprs_view(elements@) =~= Seq::empty());
            return self.make_expr(ExprKind::tuple_lit(elements, false), span);
        }
        let first = self.parse_expr();
        if self.at_comma() {
            self.bump();
            let mut items: Vec<Expr> = Vec::new();
            items.push(first);
            assert(exprs_view(items@) =~= seq![first@]);
            let elements = self.parse_exprs(items, &TokenKind::RParen);
            let close_line: u32 = self.current_span().start.line;
            self.expect(&TokenKind::RParen, "`)`");
            let was_multiline = start_span.start.line != close_line;
            let span = span_between(start_span, self.previous_span());
            self.make_expr(ExprKind::tuple_lit(elements, was_multiline), span)
        } else {
            self.expect(&TokenKind::RParen, "`)`");
            let span = span_between(start_span, self.previous_span());
            self.make_expr(ExprKind::grouping(first), span)
        }
    }

    /// Expressions separated by commas, up to `closing`, appended to `items`.
    fn parse_exprs(&mut self, items: Vec<Expr>, closing: &TokenKind) -> (r: Vec<Expr>)
        requires
            sound(old(self)@),
            plain(*closing),
        ensures
            (exprs_view(r@), final(self)@) == exprs_from(exprs_view(items@), old(self)@, *closing),
            step(old(self)@, final(self)@),
        decreases token_count(old(self)@.toks), old(self)@.left(), 250int,
    {
        if self.at(closing) {
            return items;
        }
        let ghost seen = exprs_view(items@);
        let mut items = items;
        let first = self.parse_expr();
        items.push(first);
        assert(exprs_view(items@) =~= seen.push(first@));
        self.parse_exprs_tail(items, closing)
    }

    /// The continuation of `parse_exprs` after an element.
    fn parse_exprs_tail(&mut self, items: Vec<Expr>, closing: &TokenKind) -> (r: Vec<Expr>)
        requires
            sound(old(self)@),
            plain(*closing),
        ensures
            (exprs_view(r@), final(self)@) == exprs_tail(exprs_view(items@), old(self)@, *closing),
            step(old(self)@, final(self)@),
        decreases token_count(old(self)@.toks), old(self)@.left(), 240int,
    {
        let ghost p0 = self@;
        let ghost before = exprs_view(items@);
        let mut items = items;
        while self.at_comma()
            invariant
                p0 == old(self)@,
                plain(*closing),
                step(p0, self@),
                exprs_tail(exprs_view(items@), self@, *closing) == exprs_tail(
                    before,
                    p0,
                    *closing,
                ),
            ensures
                step(p0, self@),
                (exprs_view(items@), self@) == exprs_tail(before, p0, *closing),
            decreases self@.left(),
        {
            let ghost seen = exprs_view(items@);
            self.bump();
            if self.at(closing) {
                break;
            }
            let item = self.parse_expr();
            items.push(item);
            assert(exprs_view(items@) =~= seen.push(item@));
        }
        items
    }

    /// `(params) => body`. A lambda has its own scope for `?`.
    fn parse_lambda(&mut self, start_span: Span) -> (r: Expr)
        requires
            sound(old(self)@),
            old(self)@.at(TokenKind::LParen),
        ensures
            (r@, final(self)@) == lambda_rest(start_span, old(self)@.bump()),
            step(old(self)@, final(self)@),
        decreases token_count(old(self)@.toks), old(self)@.left(), 94int,
    {
        self.bump();
        let params = self.parse_lambda_params();
        self.expect(&TokenKind::RParen, "`)`");
        self.expect(&TokenKind::FatArrow, "`=>`");
        let saved_flag = self.question_forbidden();
        self.forbid_question(false);
        let body = self.parse_expr();
        self.forbid_question(saved_flag);
        let span = span_between(start_span, self.previous_span());
        self.make_expr(ExprKind::lambda(params, body), span)
    }

    fn parse_lambda_params(&mut self) -> (r: Vec<LambdaParam>)
        requires
            sound(old(self)@),
        ensures
            (lambda_params_view(r@), final(self)@) == lambda_params_from(old(self)@),
            step(old(self)@, final(self)@),
    {
        let ghost p0 = self@;
        let mut items: Vec<LambdaParam> = Vec::new();
        if self.at(&TokenKind::RParen) {
            assert(lambda_params_view(items@) =~= Seq::empty());
            return items;
        }
        let first = self.parse_lambda_param();
        items.push(first);
        assert(lambda_params_view(items@) =~= seq![first@]);
        while self.at_comma()
            invariant
                step(p0, self@),
                lambda_params_tail(lambda_params_view(items@), self@) == lambda_params_from(p0),
            ensures
                step(p0, self@),
                (lambda_params_view(items@), self@) == lambda_params_from(p0),
            decreases self@.left(),
        {
            let ghost seen = lambda_params_view(items@);
            self.bump();
            if self.at(&TokenKind::RParen) {
                break;
            }
            let item = self.parse_lambda_param();
            items.push(item);
            assert(lambda_params_view(items@) =~= seen.push(item@));
        }
        items
    }

    fn parse_lambda_param(&mut self) -> (r: LambdaParam)
        requires
            sound(old(self)@),
        ensures
            (r@, final(self)@) == lambda_param_from(old(self)@),
            step(old(self)@, final(self)@),
    {
        let start_span = self.current_span();
        let name = self.expect_ident("lambda parameter name");
        let ty = self.parse_optional_type();
        let span = span_between(start_span, self.previous_span());
        LambdaParam { name, ty, span }
    }

    /// `[a, b, ..]`.
    fn parse_list_lit(&mut self, start_span: Span) -> (r: Expr)
        requires
            sound(old(self)@),
            old(self)@.at(TokenKind::LBracket),
        ensures
            (r@, final(self)@) == list_rest(start_span, old(self)@.bump()),
            step(old(self)@, final(self)@),
        decreases token_count(old(self)@.toks), old(self)@.left(), 95int,
    {
        self.bump();
        let none: Vec<Expr> = Vec::new();
        assert(exprs_view(none@) =~= Seq::empty());
        let elements = self.parse_exprs(none, &TokenKind::RBracket);
        let close_line: u32 = self.current_span().start.line;
        self.expect(&TokenKind::RBracket, "`]`");
        let was_multiline = start_span.start.line != close_line;
        let span = span_between(start_span, self.previous_span());
        self.make_expr(ExprKind::list_lit(elements, was_multiline), span)
    }

    /// What starts with `{`: `{}` is the empty dictionary; otherwise a dictionary when a colon
    /// follows the first element, and a set when none does.
    fn parse_brace_lit(&mut self, start_span: Span) -> (r: Expr)
        requires
            sound(old(self)@),
            old(self)@.at(TokenKind::LBrace),
        ensures
            (r@, final(self)@) == brace_rest(start_span, old(self)@.bump()),
            step(old(self)@, final(self)@),
        decreases token_count(old(self)@.toks), old(self)@.left(), 95int,
    {
        self.bump();
        if self.at(&TokenKind::RBrace) {
            self.bump();
            let span = span_between(start_span, self.previous_span());
            let entries: Vec<(Expr, Expr)> = Vec::new();
            assert(entries_view(entries@) =~= Seq::empty());
            return self.make_expr(ExprKind::dict_lit(entries, false), span);
        }
        let first_key = self.parse_expr();
        if self.at(&TokenKind::Colon) {
            self.bump();
            let first_value = self.parse_expr();
            let mut items: Vec<(Expr, Expr)> = Vec::new();
            items.push((first_key, first_value));
            assert(entries_view(items@) =~= seq![(first_key@, first_value@)]);
            let entries = self.parse_entries_tail(items);
            let close_line: u32 = self.current_span().start.line;
            self.expect(&TokenKind::RBrace, "`}`");
            let was_multiline = start_span.start.line != close_line;
            let span = span_between(start_span, self.previous_span());
            self.make_expr(ExprKind::dict_lit(entries, was_multiline), span)
        } else {
            let mut items: Vec<Expr> = Vec::new();
            items.push(first_key);
            assert(exprs_view(items@) =~= seq![first_key@]);
            let elements = self.parse_exprs_tail(items, &TokenKind::RBrace);
            let close_line: u32 = self.current_span().start.line;
            self.expect(&TokenKind::RBrace, "`}`");
            let was_multiline = start_span.start.line != close_line;
            let span = span_between(start_span, self.previous_span());
            self.make_expr(ExprKind::set_lit(elements, was_multiline), span)
        }
    }

    fn parse_entry(&mut self) -> (r: (Expr, Expr))
        requires
            sound(old(self)@),
        ensures
            ((r.0@, r.1@), final(self)@) == entry_from(old(self)@),
            step(old(self)@, final(self)@),
        decreases token_count(old(self)@.toks), old(self)@.left(), 230int,
    {
        let key = self.parse_expr();
        self.expect(&TokenKind::Colon, "`:`");
        let value = self.parse_expr();
        (key, value)
    }

    fn parse_entries_tail(&mut self, items: Vec<(Expr, Expr)>) -> (r: Vec<(Expr, Expr)>)
        requires
            sound(old(self)@),
        ensures
            (entries_view(r@), final(self)@) == entries_tail(entries_view(items@), old(self)@),
            step(old(self)@, final(self)@),
        decreases token_count(old(self)@.toks), old(self)@.left(), 240int,
    {
        let ghost p0 = self@;
        let ghost before = entries_view(items@);
        let mut items = items;
        while self.at_comma()
            invariant
                p0 == old(self)@,
                step(p0, self@),
                entries_tail(entries_view(items@), self@) == entries_tail(before, p0),
            ensures
                step(p0, self@),
                (entries_view(items@), self@) == entries_tail(before, p0),
            decreases self@.left(),
        {
            let ghost seen = entries_view(items@);
            self.bump();
            if self.at(&TokenKind::RBrace) {
                break;
            }
            let item = self.parse_entry();
            items.push(item);
            assert(entries_view(items@) =~= seen.push((item.0@, item.1@)));
        }
        items
    }

    /// `match scrutinee` and its arms: an indented block of them, or, where brackets suppress
    /// line ends, as many as follow.
    fn parse_match_expr(&mut self, start_span: Span) -> (r: Expr)
        requires
            sound(old(self)@),
            old(self)@.at(TokenKind::Match),
        ensures
            (r@, final(self)@) == match_rest(start_span, old(self)@.bump()),
            step(old(self)@, final(self)@),
        decreases token_count(old(self)@.toks), old(self)@.left(), 95int,
    {
        let ghost p0 = self@;
        self.bump();
        let ghost p1 = self@;
        let scrutinee = self.parse_expr();
        let ghost p2 = self@;
        let mut arms: Vec<MatchArm> = Vec::new();
        assert(arms_view(arms@) =~= Seq::empty());
        if self.is_indented_block_ahead() {
            self.bump();
            self.bump();
            let ghost p3 = self@;
            loop
                invariant_except_break
                    p0 == old(self)@,
                    step(p1, p3),
                    step(p3, self@),
                    p1.left() < p0.left(),
                    p1.toks == p0.toks,
                    arms_block(arms_view(arms@), self@) == arms_block(Seq::empty(), p3),
                ensures
                    step(p3, self@),
                    (arms_view(arms@), self@) == arms_block(Seq::empty(), p3),
                decreases self@.left(),
            {
                let ghost seen = arms_view(arms@);
                self.skip_blank_newlines();
                match self.peek_kind() {
                    Some(TokenKind::Dedent) => {
                        self.bump();
                        break;
                    },
                    None => break,
                    Some(TokenKind::Eof) => break,
                    _ => {
                        let arm = self.parse_match_arm();
                        arms.push(arm);
                        assert(arms_view(arms@) =~= seen.push(arm@));
                    },
                }
            }
        } else {
            while self.at_pattern_start()
                invariant
                    p0 == old(self)@,
                    step(p1, p2),
                    step(p2, self@),
                    p1.left() < p0.left(),
                    p1.toks == p0.toks,
                    arms_inline(arms_view(arms@), self@) == arms_inline(Seq::empty(), p2),
                decreases self@.left(),
            {
                let ghost seen = arms_view(arms@);
                let arm = self.parse_match_arm();
                arms.push(arm);
                assert(arms_view(arms@) =~= seen.push(arm@));
            }
        }
        let span = span_between(start_span, self.previous_span());
        self.make_expr(ExprKind::match_kind(scrutinee, arms), span)
    }

    /// `par [a, ..]` and `par (a, ..)`; a bare `?` is forbidden in the elements.
    fn parse_par_expr(&mut self, start_span: Span) -> (r: Expr)
        requires
            sound(old(self)@),
            old(self)@.at(TokenKind::Par),
        ensures
            (r@, final(self)@) == par_rest(start_span, old(self)@.bump()),
            step(old(self)@, final(self)@),
        decreases token_count(old(self)@.toks), old(self)@.left(), 95int,
    {
        self.bump();
        match self.peek_kind() {
            Some(TokenKind::LBracket) => {
                self.bump();
                self.parse_par_elements(start_span, ParKind::List, &TokenKind::RBracket, "`]`")
            },
            Some(TokenKind::LParen) => {
                self.bump();
                self.parse_par_elements(start_span, ParKind::Tuple, &TokenKind::RParen, "`)`")
            },
            _ => {
                self.unexpected(start_span, "`par` must be followed by `[` or `(`");
                self.poison_expr(start_span)
            },
        }
    }

    fn parse_par_elements(
        &mut self,
        start_span: Span,
        kind: ParKind,
        closing: &TokenKind,
        closing_text: &str,
    ) -> (r: Expr)
        requires
            sound(old(self)@),
            plain(*closing),
        ensures
            (r@, final(self)@) == par_elements(
                start_span,
                kind,
                *closing,
                closing_text@,
                old(self)@,
            ),
            step(old(self)@, final(self)@),
        decreases token_count(old(self)@.toks), old(self)@.left(), 300int,
    {
        let saved_flag = self.question_forbidden();
        self.forbid_question(true);
        let none: Vec<Expr> = Vec::new();
        assert(exprs_view(none@) =~= Seq::empty());
        let elements = self.parse_exprs(none, closing);
        self.forbid_question(saved_flag);
        self.expect(closing, closing_text);
        let span = span_between(start_span, self.previous_span());
        self.make_expr(ExprKind::par(kind, elements), span)
    }

    /// The segments of the f-string at the current position: its texts, and its expressions
    /// parsed from their tokens.
    pub(crate) fn parse_fstring_segments(&mut self) -> (r: Vec<FStringSegment>)
        requires
            sound(old(self)@),
            old(self)@.kind() matches Some(TokenKind::FString(_)),
        ensures
            (segments_view(r@), final(self)@) == segments_tail(
                Seq::empty(),
                old(self)@.pos,
                0,
                old(self)@.bump(),
            ),
            step(old(self)@, final(self)@),
        decreases token_count(old(self)@.toks), old(self)@.left(), 95int,
    {
        let ghost p0 = self@;
        let mut segments: Vec<FStringSegment> = Vec::new();
        assert(segments_view(segments@) =~= Seq::empty());
        if let Some(TokenKind::FString(parts)) = self.peek_kind() {
            self.bump();
            let ghost p1 = self@;
            let mut i: usize = 0;
            while i < parts.len()
                invariant
                    p0 == old(self)@,
                    sound(p0),
                    p1 == p0.bump(),
                    0 <= p0.pos < p0.toks.len(),
                    p0.toks[p0.pos].kind == TokenKind::FString(*parts),
                    i <= parts@.len(),
                    step(p1, self@),
                    self@.pos == p1.pos,
                    segments_tail(segments_view(segments@), p0.pos, i as int, self@)
                        == segments_tail(Seq::empty(), p0.pos, 0, p1),
                decreases parts@.len() - i,
            {
                let ghost seen = segments_view(segments@);
                match &parts[i] {
                    FStringPart::Text(text) => {
                        let segment = text_segment(text.clone());
                        segments.push(segment);
                        assert(segments_view(segments@) =~= seen.push(
                            crate::ast::SegmentV::Text(text@),
                        ));
                    },
                    FStringPart::Expr(sub_tokens) => {
                        proof {
                            reveal(well_lexed);
                            assert(p0.toks[p0.pos].kind is FString);
                            assert(parts@[i as int] matches FStringPart::Expr(sub) && sub
                                == *sub_tokens);
                            lemma_embedded_token_count(p0.toks, p0.pos, i as int);
                        }
                        let expr = self.parse_token_slice_as_expr(sub_tokens.as_slice());
                        let segment = expr_segment(expr);
                        segments.push(segment);
                        assert(segments_view(segments@) =~= seen.push(
                            crate::ast::SegmentV::Expr(Box::new(expr@)),
                        ));
                    },
                }
                i = i + 1;
            }
        }
        segments
    }

    /// Parses the tokens of an embedded expression, with the rest of the state kept.
    fn parse_token_slice_as_expr(&mut self, tokens: &'a [Token]) -> (r: Expr)
        requires
            sound(old(self)@),
            well_lexed(tokens@),
        ensures
            ({
                let inner = PState { toks: tokens@, pos: 0, ..old(self)@ };
                let (e, q) = expr_from(inner);
                let s = if q.pos < q.toks.len() {
                    q.unexpected(
                        q.current_span(),
                        "there are extra tokens in the f-string's expression"@,
                    )
                } else {
                    q
                };
                &&& r@ == e
                &&& final(self)@ == (PState { toks: old(self)@.toks, pos: old(self)@.pos, ..s })
            }),
            step(old(self)@, final(self)@),
        decreases token_count(tokens@), tokens@.len(), 220int,
    {
        let saved_tokens: &'a [Token] = self.tokens;
        let saved_pos: usize = self.pos;
        self.tokens = tokens;
        self.pos = 0;
        let expr = self.parse_expr();
        if self.pos < self.tokens.len() {
            let span = self.current_span();
            self.unexpected(span, "there are extra tokens in the f-string's expression");
        }
        self.tokens = saved_tokens;
        self.pos = saved_pos;
        expr
    }
}

} // verus!
