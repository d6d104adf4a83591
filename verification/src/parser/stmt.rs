//! Statements, blocks, `if` and the arms of `match`.

use super::grammar::{
    annotated_rest, arm_body_from, arm_from, assign_or_expr_from, assigned_rest, binding_name, block_from, branch_from, else_from,
    if_rest, return_rest, stmt_from, stmt_kind_from, stmt_or_skip_from, stmts_tail, var_rest,
};
use super::{sound, span_between, step, Parser};
use crate::ast::{
    lemma_expr_kind_view, lemma_expr_view, stmts_view, Block, ElseBranch, Expr, ExprKind,
    ExprKindV, IfExpr, MatchArm, MatchArmBody, Stmt, StmtKind,
};
use crate::ast_build::{
    arm_block, arm_expr, else_block, else_if, expr_span, new_arm, new_block, new_if, new_stmt,
};
use crate::lexer::{token_count, TokenKind};
use vstd::prelude::*;

verus! {

/// The left-hand side of an assignment.
enum AssignTarget {
    Name(String),
    Field(Expr, String),
    Element(Expr, Expr),
    Other(Expr),
}

fn assign_target(lhs: Expr) -> (r: AssignTarget)
    ensures
        match r {
            AssignTarget::Name(name) => lhs@.kind == ExprKindV::Ident(name@),
            AssignTarget::Field(target, field) => lhs@.kind == (ExprKindV::FieldAccess {
                target: Box::new(target@),
                field: field@,
            }),
            AssignTarget::Element(target, index) => lhs@.kind == (ExprKindV::Index {
                target: Box::new(target@),
                index: Box::new(index@),
            }),
            AssignTarget::Other(e) => e == lhs && !(lhs@.kind is Ident || lhs@.kind is FieldAccess
                || lhs@.kind is Index),
        },
{
    proof {
        lemma_expr_view(lhs);
        lemma_expr_kind_view(lhs.kind);
    }
    let id = lhs.id;
    let span = lhs.span;
    match lhs.kind {
        ExprKind::Ident(name) => {
            return AssignTarget::Name(name);
        },
        ExprKind::FieldAccess { target, field } => {
            return AssignTarget::Field(*target, field);
        },
        ExprKind::Index { target, index } => {
            return AssignTarget::Element(*target, *index);
        },
        other => {
            return AssignTarget::Other(Expr { id, kind: other, span });
        },
    }
}

/// The assignment of `value` to `lhs`, and whether `lhs` can be assigned to.
fn assignment(lhs: Expr, value: Expr) -> (r: (StmtKind, bool))
    ensures
        r.0@ == super::grammar::assignment(lhs@, value@),
        r.1 == super::grammar::assignable(lhs@),
{
    match assign_target(lhs) {
        AssignTarget::Name(name) => {
            let kind = StmtKind::name_assign(name, None, value);
            return (kind, true);
        },
        AssignTarget::Field(target, field) => {
            let kind = StmtKind::field_assign(target, field, value);
            return (kind, true);
        },
        AssignTarget::Element(target, index) => {
            let kind = StmtKind::index_assign(target, index, value);
            return (kind, true);
        },
        AssignTarget::Other(other) => {
            let kind = StmtKind::expr_stmt(other);
            return (kind, false);
        },
    }
}

impl<'a> Parser<'a> {
    /// An indented block: its statements up to the dedent. Without an indent it is empty.
    pub(crate) fn parse_block(&mut self) -> (r: Block)
        requires
            sound(old(self)@),
        ensures
            (r@, final(self)@) == block_from(old(self)@),
            step(old(self)@, final(self)@),
        decreases token_count(old(self)@.toks), old(self)@.left(), 270int,
    {
        let ghost p0 = self@;
        let start_span = self.current_span();
        let mut stmts: Vec<Stmt> = Vec::new();
        assert(stmts_view(stmts@) =~= Seq::empty());
        if matches!(self.peek_kind(), Some(TokenKind::Newline)) {
            self.bump();
        }
        if !matches!(self.peek_kind(), Some(TokenKind::Indent)) {
            return new_block(stmts, start_span);
        }
        self.bump();
        let ghost p1 = self@;
        loop
            invariant_except_break
                p0 == old(self)@,
                step(p0, p1),
                p1.left() < p0.left(),
                step(p1, self@),
                stmts_tail(stmts_view(stmts@), self@) == stmts_tail(Seq::empty(), p1),
            ensures
                step(p1, self@),
                (stmts_view(stmts@), self@) == stmts_tail(Seq::empty(), p1),
            decreases self@.left(),
        {
            let ghost seen = stmts_view(stmts@);
            self.skip_blank_newlines();
            match self.peek_kind() {
                Some(TokenKind::Dedent) => {
                    self.bump();
                    break;
                },
                None => break,
                Some(TokenKind::Eof) => break,
                _ => {
                    let stmt = self.parse_stmt_or_skip();
                    stmts.push(stmt);
                    assert(stmts_view(stmts@) =~= seen.push(stmt@));
                },
            }
        }
        let end_span = self.previous_span();
        new_block(stmts, span_between(start_span, end_span))
    }

    /// A statement. One that consumes nothing, because its expression nests too deeply, takes
    /// the rest of its block with it, so that every statement makes progress.
    pub(crate) fn parse_stmt_or_skip(&mut self) -> (r: Stmt)
        requires
            sound(old(self)@),
        ensures
            (r@, final(self)@) == stmt_or_skip_from(old(self)@),
            step(old(self)@, final(self)@),
            step(old(self)@.bump(), final(self)@),
        decreases token_count(old(self)@.toks), old(self)@.left(), 360int,
    {
        let before: usize = self.position();
        let stmt = self.parse_stmt();
        if self.position() <= before {
            self.bump();
            self.skip_to_sync_point();
        }
        stmt
    }

    pub(crate) fn parse_stmt(&mut self) -> (r: Stmt)
        requires
            sound(old(self)@),
        ensures
            (r@, final(self)@) == stmt_from(old(self)@),
            step(old(self)@, final(self)@),
        decreases token_count(old(self)@.toks), old(self)@.left(), 350int,
    {
        let start_span = self.current_span();
        let kind = self.parse_stmt_kind();
        let end_span = self.previous_span();
        new_stmt(kind, span_between(start_span, end_span))
    }

    fn parse_stmt_kind(&mut self) -> (r: StmtKind)
        requires
            sound(old(self)@),
        ensures
            (r@, final(self)@) == stmt_kind_from(old(self)@),
            step(old(self)@, final(self)@),
        decreases token_count(old(self)@.toks), old(self)@.left(), 348int,
    {
        match self.peek_kind() {
            Some(TokenKind::Var) => {
                return self.parse_var_decl_kind();
            },
            Some(TokenKind::Return) => {
                return self.parse_return_kind();
            },
            Some(TokenKind::Underscore) => {
                if matches!(self.peek_kind_at(1), Some(TokenKind::Eq)) {
                    self.bump();
                    self.bump();
                    let value = self.parse_expr();
                    return StmtKind::discard(value);
                }
                return self.parse_assignment_or_expr_kind();
            },
            _ => {
                return self.parse_assignment_or_expr_kind();
            },
        }
    }

    /// `var name: T = value`.
    fn parse_var_decl_kind(&mut self) -> (r: StmtKind)
        requires
            sound(old(self)@),
            old(self)@.at(TokenKind::Var),
        ensures
            (r@, final(self)@) == var_rest(old(self)@.bump()),
            step(old(self)@, final(self)@),
        decreases token_count(old(self)@.toks), old(self)@.left(), 345int,
    {
        self.bump();
        let name = self.expect_var_binding_name("variable name");
        let ty = self.parse_optional_type();
        self.expect(&TokenKind::Eq, "`=`");
        let value = self.parse_expr();
        StmtKind::var_decl(name, ty, value)
    }

    fn expect_var_binding_name(&mut self, what: &str) -> (r: String)
        requires
            sound(old(self)@),
        ensures
            (r@, final(self)@) == binding_name(old(self)@, what@),
            step(old(self)@, final(self)@),
    {
        if matches!(self.peek_kind(), Some(TokenKind::Underscore)) {
            self.bump();
            return "_".to_owned();
        }
        self.expect_ident(what)
    }

    fn parse_return_kind(&mut self) -> (r: StmtKind)
        requires
            sound(old(self)@),
            old(self)@.at(TokenKind::Return),
        ensures
            (r@, final(self)@) == return_rest(old(self)@.bump()),
            step(old(self)@, final(self)@),
        decreases token_count(old(self)@.toks), old(self)@.left(), 345int,
    {
        self.bump();
        if matches!(
            self.peek_kind(),
            None | Some(TokenKind::Newline | TokenKind::Dedent | TokenKind::Eof)
        ) {
            return StmtKind::return_none();
        }
        let value = self.parse_expr();
        return StmtKind::return_some(value);
    }

    /// An assignment to a name, a field or an element, or an expression.
    fn parse_assignment_or_expr_kind(&mut self) -> (r: StmtKind)
        requires
            sound(old(self)@),
        ensures
            (r@, final(self)@) == assign_or_expr_from(old(self)@),
            step(old(self)@, final(self)@),
        decreases token_count(old(self)@.toks), old(self)@.left(), 340int,
    {
        let lhs = self.parse_expr();
        match self.peek_kind() {
            Some(TokenKind::Colon) => {
                self.bump();
                return self.parse_annotated_assignment(lhs);
            },
            Some(TokenKind::Eq) => {
                self.bump();
                return self.parse_assignment(lhs);
            },
            _ => {
                return StmtKind::expr_stmt(lhs);
            },
        }
    }

    /// `lhs: T = value`, after the colon.
    fn parse_annotated_assignment(&mut self, lhs: Expr) -> (r: StmtKind)
        requires
            sound(old(self)@),
        ensures
            (r@, final(self)@) == annotated_rest(lhs@, old(self)@),
            step(old(self)@, final(self)@),
        decreases token_count(old(self)@.toks), old(self)@.left(), 310int,
    {
        let lhs_span = expr_span(&lhs);
        let ty = self.parse_type_ann();
        self.expect(&TokenKind::Eq, "`=`");
        let value = self.parse_expr();
        match assign_target(lhs) {
            AssignTarget::Name(name) => {
                return StmtKind::name_assign(name, Some(ty), value);
            },
            _ => {
                self.unexpected(
                    lhs_span,
                    "the left-hand side of a type-annotated assignment must be an identifier",
                );
                return StmtKind::name_assign("".to_owned(), Some(ty), value);
            },
        }
    }

    /// `lhs = value`, after the equals sign.
    fn parse_assignment(&mut self, lhs: Expr) -> (r: StmtKind)
        requires
            sound(old(self)@),
        ensures
            (r@, final(self)@) == assigned_rest(lhs@, old(self)@),
            step(old(self)@, final(self)@),
        decreases token_count(old(self)@.toks), old(self)@.left(), 310int,
    {
        let lhs_span = expr_span(&lhs);
        let value = self.parse_expr();
        let (kind, valid) = assignment(lhs, value);
        if !valid {
            self.unexpected(
                lhs_span,
                "invalid expression for the left-hand side of an assignment",
            );
        }
        kind
    }

    /// `if` with its branches; `else` is required.
    pub(crate) fn parse_if(&mut self) -> (r: IfExpr)
        requires
            sound(old(self)@),
            old(self)@.at(TokenKind::If),
        ensures
            (r@, final(self)@) == if_rest(old(self)@.current_span(), old(self)@.bump()),
            step(old(self)@, final(self)@),
        decreases token_count(old(self)@.toks), old(self)@.left(), 95int,
    {
        let start_span = self.current_span();
        self.bump();
        let cond = self.parse_expr();
        let then_branch = self.parse_branch_block();
        let else_branch = self.parse_else_branch();
        let end_span = self.previous_span();
        new_if(cond, then_branch, else_branch, span_between(start_span, end_span))
    }

    fn parse_else_branch(&mut self) -> (r: ElseBranch)
        requires
            sound(old(self)@),
        ensures
            (r@, final(self)@) == else_from(old(self)@),
            step(old(self)@, final(self)@),
        decreases token_count(old(self)@.toks), old(self)@.left(), 300int,
    {
        if matches!(self.peek_kind(), Some(TokenKind::Else)) {
            self.bump();
            if matches!(self.peek_kind(), Some(TokenKind::If)) {
                return else_if(self.parse_if());
            }
            return else_block(self.parse_branch_block());
        }
        let span = self.current_span();
        self.unexpected(span, "an if expression requires else (D-SYN-03)");
        self.skip_to_sync_point();
        let stmts: Vec<Stmt> = Vec::new();
        assert(stmts_view(stmts@) =~= Seq::empty());
        return else_block(new_block(stmts, span));
    }

    /// A branch: an indented block, or a single expression.
    fn parse_branch_block(&mut self) -> (r: Block)
        requires
            sound(old(self)@),
        ensures
            (r@, final(self)@) == branch_from(old(self)@),
            step(old(self)@, final(self)@),
        decreases token_count(old(self)@.toks), old(self)@.left(), 280int,
    {
        if self.is_indented_block_ahead() {
            return self.parse_block();
        }
        let expr = self.parse_expr();
        let span = expr_span(&expr);
        let stmt = new_stmt(StmtKind::expr_stmt(expr), span);
        let mut stmts: Vec<Stmt> = Vec::new();
        stmts.push(stmt);
        assert(stmts_view(stmts@) =~= seq![stmt@]);
        return new_block(stmts, span);
    }

    fn parse_arm_body(&mut self) -> (r: MatchArmBody)
        requires
            sound(old(self)@),
        ensures
            (r@, final(self)@) == arm_body_from(old(self)@),
            step(old(self)@, final(self)@),
        decreases token_count(old(self)@.toks), old(self)@.left(), 280int,
    {
        if self.is_indented_block_ahead() {
            return arm_block(self.parse_block());
        }
        return arm_expr(self.parse_expr());
    }

    /// `pattern => body`.
    pub(crate) fn parse_match_arm(&mut self) -> (r: MatchArm)
        requires
            sound(old(self)@),
        ensures
            (r@, final(self)@) == arm_from(old(self)@),
            step(old(self)@, final(self)@),
            step(old(self)@.bump(), final(self)@),
        decreases token_count(old(self)@.toks), old(self)@.left(), 290int,
    {
        let start_span = self.current_span();
        let pattern = self.parse_pattern();
        self.expect(&TokenKind::FatArrow, "`=>`");
        let body = self.parse_arm_body();
        let end_span = self.previous_span();
        new_arm(pattern, body, span_between(start_span, end_span))
    }
}

} // verus!
