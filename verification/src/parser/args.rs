//! The arguments of calls.

use super::grammar::{arg_from, args_from, args_rest, args_tail, has_placeholder};
use super::{sound, step, Parser};
use crate::ast::{args_view, lemma_arg_view, Arg, ExprKind};
use crate::ast_build::new_arg;
use crate::lexer::{token_count, TokenKind};
use vstd::prelude::*;

verus! {

impl<'a> Parser<'a> {
    /// The arguments of a call whose parenthesis, on `open_line`, is consumed; and whether the
    /// call spans lines.
    pub(crate) fn parse_call_args(&mut self, open_line: u32) -> (r: (Vec<Arg>, bool))
        requires
            sound(old(self)@),
        ensures
            (args_view(r.0@), r.1, final(self)@) == args_rest(open_line, old(self)@),
            step(old(self)@, final(self)@),
        decreases token_count(old(self)@.toks), old(self)@.left(), 300int,
    {
        let args = self.parse_args();
        let close_line: u32 = self.current_span().start.line;
        self.expect(&TokenKind::RParen, "`)`");
        (args, open_line != close_line)
    }

    fn parse_args(&mut self) -> (r: Vec<Arg>)
        requires
            sound(old(self)@),
        ensures
            (args_view(r@), final(self)@) == args_from(old(self)@),
            step(old(self)@, final(self)@),
        decreases token_count(old(self)@.toks), old(self)@.left(), 250int,
    {
        let ghost p0 = self@;
        let mut items: Vec<Arg> = Vec::new();
        if self.at(&TokenKind::RParen) {
            assert(args_view(items@) =~= Seq::empty());
            return items;
        }
        let first = self.parse_call_arg();
        items.push(first);
        assert(args_view(items@) =~= seq![first@]);
        while self.at_comma()
            invariant
                p0 == old(self)@,
                step(p0, self@),
                args_tail(args_view(items@), self@) == args_from(p0),
            ensures
                step(p0, self@),
                (args_view(items@), self@) == args_from(p0),
            decreases self@.left(),
        {
            let ghost seen = args_view(items@);
            self.bump();
            if self.at(&TokenKind::RParen) {
                break;
            }
            let item = self.parse_call_arg();
            items.push(item);
            assert(args_view(items@) =~= seen.push(item@));
        }
        items
    }

    /// One argument: the placeholder of a pipe, a named value, or a value.
    fn parse_call_arg(&mut self) -> (r: Arg)
        requires
            sound(old(self)@),
        ensures
            (r@, final(self)@) == arg_from(old(self)@),
            step(old(self)@, final(self)@),
        decreases token_count(old(self)@.toks), old(self)@.left(), 230int,
    {
        if matches!(self.peek_kind(), Some(TokenKind::Underscore)) {
            let span = self.current_span();
            self.bump();
            let value = self.make_expr(ExprKind::ident("_".to_owned()), span);
            return new_arg(None, value, true);
        }
        if matches!(self.peek_kind(), Some(TokenKind::Ident(_))) && matches!(
            self.peek_kind_at(1),
            Some(TokenKind::Colon)
        ) {
            let name = self.expect_ident("named argument name");
            self.bump();
            let value = self.parse_expr();
            return new_arg(Some(name), value, false);
        }
        let value = self.parse_expr();
        new_arg(None, value, false)
    }

    /// Whether the bracket here opens explicit type arguments rather than an index: it starts
    /// like a type annotation, and its closing bracket is followed by `(`.
    pub(crate) fn at_explicit_type_args(&self) -> (r: bool)
        requires
            sound(self@),
        ensures
            r == self@.explicit_type_args(),
    {
        if !self.at(&TokenKind::LBracket) {
            return false;
        }
        if !matches!(
            self.peek_kind_at(1),
            Some(TokenKind::Ident(_) | TokenKind::LParen | TokenKind::Void)
        ) {
            return false;
        }
        self.matching_close_followed_by(&TokenKind::LParen)
    }
}

pub(crate) fn any_placeholder(args: &Vec<Arg>) -> (r: bool)
    ensures
        r == has_placeholder(args_view(args@)),
{
    let mut i: usize = 0;
    while i < args.len()
        invariant
            i <= args@.len(),
            forall|j: int| 0 <= j < i ==> !(#[trigger] args_view(args@)[j]).is_placeholder,
        decreases args@.len() - i,
    {
        proof {
            lemma_arg_view(args@[i as int]);
        }
        if args[i].is_placeholder {
            assert(args_view(args@)[i as int].is_placeholder);
            return true;
        }
        i = i + 1;
    }
    false
}

} // verus!
