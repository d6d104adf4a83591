//! Match patterns. Patterns nest one level deep.

use super::grammar::{
    literal_from, pattern_from, sub_pattern_from, sub_patterns_from, sub_patterns_tail,
};
use super::state::opener;
use super::{sound, span_between, step, Parser};
use crate::ast::{sub_patterns_view, LiteralPat, Pattern, SubPattern};
use crate::lexer::{well_lexed, TokenKind};
use crate::text::join2;
use vstd::prelude::*;

verus! {

impl<'a> Parser<'a> {
    pub fn parse_pattern(&mut self) -> (r: Pattern)
        requires
            sound(old(self)@),
        ensures
            r@ == pattern_from(old(self)@).0,
            final(self)@ == pattern_from(old(self)@).1,
            step(old(self)@, final(self)@),
            step(old(self)@.bump(), final(self)@),
    {
        let start_span = self.current_span();
        if let Some(lit) = self.try_parse_literal_pattern() {
            return Pattern::Literal(lit, span_between(start_span, self.previous_span()));
        }
        match self.peek_kind() {
            Some(TokenKind::Underscore) => {
                self.bump();
                Pattern::Wildcard(start_span)
            },
            Some(TokenKind::LParen) => {
                self.bump();
                let elements = self.parse_sub_patterns();
                self.expect(&TokenKind::RParen, "`)`");
                Pattern::Tuple {
                    elements,
                    span: span_between(start_span, self.previous_span()),
                }
            },
            Some(TokenKind::Ident(_)) => {
                let name = self.expect_ident("pattern");
                if self.at(&TokenKind::LParen) {
                    self.bump();
                    let fields = self.parse_sub_patterns();
                    self.expect(&TokenKind::RParen, "`)`");
                    Pattern::Variant {
                        name,
                        fields,
                        span: span_between(start_span, self.previous_span()),
                    }
                } else {
                    // Whether a bare name is a unit variant or a new binding is settled later,
                    // from the type of the matched value.
                    Pattern::BareIdent(name, self.next_node_id(), start_span)
                }
            },
            _ => {
                self.unexpected(start_span, "expected a match pattern but none was found");
                self.bump();
                Pattern::Wildcard(start_span)
            },
        }
    }

    /// Sub-patterns separated by commas, up to the closing parenthesis.
    fn parse_sub_patterns(&mut self) -> (r: Vec<SubPattern>)
        requires
            sound(old(self)@),
        ensures
            sub_patterns_view(r@) == sub_patterns_from(old(self)@).0,
            final(self)@ == sub_patterns_from(old(self)@).1,
            step(old(self)@, final(self)@),
    {
        let ghost p0 = self@;
        let mut items: Vec<SubPattern> = Vec::new();
        if self.at(&TokenKind::RParen) {
            assert(sub_patterns_view(items@) =~= Seq::empty());
            return items;
        }
        let first = self.parse_sub_pattern();
        items.push(first);
        assert(sub_patterns_view(items@) =~= seq![first@]);
        while self.at_comma()
            invariant
                step(p0, self@),
                sub_patterns_tail(sub_patterns_view(items@), self@) == sub_patterns_from(p0),
            ensures
                step(p0, self@),
                (sub_patterns_view(items@), self@) == sub_patterns_from(p0),
            decreases self@.left(),
        {
            let ghost seen = sub_patterns_view(items@);
            self.bump();
            if self.at(&TokenKind::RParen) {
                break;
            }
            let item = self.parse_sub_pattern();
            items.push(item);
            assert(sub_patterns_view(items@) =~= seen.push(item@));
        }
        items
    }

    pub(crate) fn parse_sub_pattern(&mut self) -> (r: SubPattern)
        requires
            sound(old(self)@),
        ensures
            r@ == sub_pattern_from(old(self)@).0,
            final(self)@ == sub_pattern_from(old(self)@).1,
            step(old(self)@, final(self)@),
    {
        let start_span = self.current_span();
        if let Some(lit) = self.try_parse_literal_pattern() {
            return SubPattern::Literal(lit, span_between(start_span, self.previous_span()));
        }
        match self.peek_kind() {
            Some(TokenKind::Underscore) => {
                self.bump();
                SubPattern::Wildcard(start_span)
            },
            Some(TokenKind::Ident(_)) => {
                let name = self.expect_ident("pattern");
                if self.at(&TokenKind::LParen) || self.at(&TokenKind::LBracket) {
                    self.unexpected(
                        start_span,
                        "nesting enum/tuple patterns is forbidden (D-SYN-06)",
                    );
                    self.skip_matching_brackets();
                }
                SubPattern::BareIdent(name, self.next_node_id(), start_span)
            },
            Some(TokenKind::LParen) => {
                self.unexpected(
                    start_span,
                    "nesting enum/tuple patterns is forbidden (D-SYN-06)",
                );
                self.skip_matching_brackets();
                SubPattern::Wildcard(start_span)
            },
            _ => {
                self.unexpected(start_span, "expected a pattern but none was found");
                self.bump();
                SubPattern::Wildcard(start_span)
            },
        }
    }

    /// Skips the bracketed run that opens at the current position, at most to the end of the
    /// line.
    fn skip_matching_brackets(&mut self)
        requires
            sound(old(self)@),
            old(self)@.kind() matches Some(k) && opener(k),
        ensures
            final(self)@ == old(self)@.skip_brackets(0),
            step(old(self)@, final(self)@),
    {
        let ghost p0 = self@;
        let mut depth: usize = 0;
        let count: usize = self.token_count();
        loop
            invariant
                count == self@.toks.len(),
                step(p0, self@),
                0 <= p0.pos,
                p0 == old(self)@,
                p0.kind() matches Some(k) && opener(k),
                self@.skip_brackets(depth as int) == p0.skip_brackets(0),
                depth <= self@.pos - p0.pos,
                self@.pos == p0.pos ==> depth == 0,
                self@.pos > p0.pos ==> depth >= 1,
            decreases self@.left(),
        {
            match self.peek_kind() {
                Some(TokenKind::LParen) | Some(TokenKind::LBracket) | Some(TokenKind::LBrace) => {
                    depth = depth + 1;
                    self.bump();
                },
                Some(TokenKind::RParen) | Some(TokenKind::RBracket) | Some(TokenKind::RBrace) => {
                    self.bump();
                    depth = depth - 1;
                    if depth == 0 {
                        return;
                    }
                },
                None => return,
                Some(TokenKind::Eof) | Some(TokenKind::Newline) | Some(TokenKind::Dedent) => return,
                Some(_) => {
                    self.bump();
                },
            }
        }
    }

    fn try_parse_literal_pattern(&mut self) -> (r: Option<LiteralPat>)
        requires
            sound(old(self)@),
        ensures
            step(old(self)@, final(self)@),
            match r {
                Some(l) => literal_from(old(self)@) == Some((l@, final(self)@)) && step(
                    old(self)@.bump(),
                    final(self)@,
                ),
                None => literal_from(old(self)@) is None && final(self)@ == old(self)@,
            },
    {
        match self.peek_kind() {
            Some(TokenKind::IntLiteral(n)) => {
                self.bump();
                Some(LiteralPat::Int(*n))
            },
            Some(TokenKind::FloatLiteral(f)) => {
                self.bump();
                Some(LiteralPat::Float(f.clone()))
            },
            Some(TokenKind::StringLiteral(s)) => {
                self.bump();
                Some(LiteralPat::Str(s.clone()))
            },
            Some(TokenKind::True) => {
                self.bump();
                Some(LiteralPat::Bool(true))
            },
            Some(TokenKind::False) => {
                self.bump();
                Some(LiteralPat::Bool(false))
            },
            Some(TokenKind::Minus) => {
                match self.peek_kind_at(1) {
                    Some(TokenKind::IntLiteral(n)) => {
                        proof {
                            reveal(well_lexed);
                            assert(self@.toks[self@.pos + 1].kind is IntLiteral);
                        }
                        self.bump();
                        self.bump();
                        Some(LiteralPat::Int(-*n))
                    },
                    Some(TokenKind::FloatLiteral(f)) => {
                        self.bump();
                        self.bump();
                        Some(LiteralPat::Float(join2("-", f.as_str())))
                    },
                    _ => None,
                }
            },
            _ => None,
        }
    }
}

} // verus!
