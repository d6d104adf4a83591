//! Type annotations.

use super::grammar::{
    function_type_rest, idents_from, idents_tail, named_type_rest, opt_type_from, type_args_rest,
    type_from, types_from, types_tail, uses_from,
};
use super::{plain, sound, span_between, step, Parser};
use crate::ast::{opt_type_view, types_view, TypeAnn, TypeAnnKind};
use crate::diagnostics::Span;
use crate::lexer::TokenKind;
use crate::text::{same_text, texts};
use vstd::prelude::*;

verus! {

/// The annotation that stands in where none was found.
pub(crate) fn unnamed_type(span: Span) -> (r: TypeAnn)
    ensures
        r@ == super::grammar::unnamed_type(span),
{
    let r = TypeAnn { kind: TypeAnnKind::Named { name: "".to_owned(), args: Vec::new() }, span };
    assert(types_view(Seq::<TypeAnn>::empty()) =~= Seq::empty());
    assert(r.kind->Named_args@ =~= Seq::<TypeAnn>::empty());
    r
}

impl<'a> Parser<'a> {
    /// `void`, a name with its arguments, or a function type.
    pub fn parse_type_ann(&mut self) -> (r: TypeAnn)
        requires
            sound(old(self)@),
        ensures
            r@ == type_from(old(self)@).0,
            final(self)@ == type_from(old(self)@).1,
            step(old(self)@, final(self)@),
        decreases old(self)@.left(), 3int,
    {
        let start_span = self.current_span();
        if !self.depth_enter(start_span) {
            return unnamed_type(start_span);
        }
        let result = match self.peek_kind() {
            Some(TokenKind::Void) => {
                self.bump();
                TypeAnn { kind: TypeAnnKind::Void, span: start_span }
            },
            Some(TokenKind::LParen) => self.parse_function_type_ann(start_span),
            Some(TokenKind::Ident(_)) => self.parse_named_or_tuple_type_ann(start_span),
            _ => {
                self.unexpected(start_span, "expected a type annotation but did not find one");
                unnamed_type(start_span)
            },
        };
        self.depth_exit();
        result
    }

    /// `(T, ..) -> R uses {..}`.
    fn parse_function_type_ann(&mut self, start_span: Span) -> (r: TypeAnn)
        requires
            sound(old(self)@),
            old(self)@.at(TokenKind::LParen),
        ensures
            r@ == function_type_rest(start_span, old(self)@.bump()).0,
            final(self)@ == function_type_rest(start_span, old(self)@.bump()).1,
            step(old(self)@, final(self)@),
        decreases old(self)@.left(), 2int,
    {
        self.bump();
        let params = self.parse_types(&TokenKind::RParen);
        self.expect(&TokenKind::RParen, "`)`");
        self.expect(&TokenKind::Arrow, "`->`");
        let ret = self.parse_type_ann();
        let effects = self.parse_uses_clause();
        let end_span = self.previous_span();
        TypeAnn {
            kind: TypeAnnKind::Function { params, effects, ret: Box::new(ret) },
            span: span_between(start_span, end_span),
        }
    }

    /// A name and its arguments; `tuple` has a kind of its own.
    fn parse_named_or_tuple_type_ann(&mut self, start_span: Span) -> (r: TypeAnn)
        requires
            sound(old(self)@),
            old(self)@.kind() matches Some(TokenKind::Ident(_)),
        ensures
            r@ == named_type_rest(
                start_span,
                old(self)@.kind()->Some_0->Ident_0@,
                old(self)@.bump(),
            ).0,
            final(self)@ == named_type_rest(
                start_span,
                old(self)@.kind()->Some_0->Ident_0@,
                old(self)@.bump(),
            ).1,
            step(old(self)@, final(self)@),
        decreases old(self)@.left(), 2int,
    {
        let name = self.expect_ident("type name");
        let args: Vec<TypeAnn> = if self.at(&TokenKind::LBracket) {
            self.parse_type_arg_list()
        } else {
            Vec::new()
        };
        assert(args@.len() == 0 ==> types_view(args@) =~= Seq::empty());
        let end_span = self.previous_span();
        let span = span_between(start_span, end_span);
        if same_text(name.as_str(), "tuple") {
            TypeAnn { kind: TypeAnnKind::Tuple(args), span }
        } else {
            TypeAnn { kind: TypeAnnKind::Named { name, args }, span }
        }
    }

    /// `[T, ..]`.
    pub(crate) fn parse_type_arg_list(&mut self) -> (r: Vec<TypeAnn>)
        requires
            sound(old(self)@),
            old(self)@.at(TokenKind::LBracket),
        ensures
            types_view(r@) == type_args_rest(old(self)@.bump()).0,
            final(self)@ == type_args_rest(old(self)@.bump()).1,
            step(old(self)@, final(self)@),
            step(old(self)@.bump(), final(self)@),
        decreases old(self)@.left(), 1int,
    {
        self.bump();
        let args = self.parse_types(&TokenKind::RBracket);
        self.expect(&TokenKind::RBracket, "`]`");
        args
    }

    /// Type annotations separated by commas, up to `closing`.
    fn parse_types(&mut self, closing: &TokenKind) -> (r: Vec<TypeAnn>)
        requires
            sound(old(self)@),
            plain(*closing),
        ensures
            types_view(r@) == types_from(old(self)@, *closing).0,
            final(self)@ == types_from(old(self)@, *closing).1,
            step(old(self)@, final(self)@),
        decreases old(self)@.left(), 5int,
    {
        let ghost p0 = self@;
        let mut items: Vec<TypeAnn> = Vec::new();
        if self.at(closing) {
            assert(types_view(items@) =~= Seq::empty());
            return items;
        }
        let first = self.parse_type_ann();
        items.push(first);
        assert(types_view(items@) =~= seq![first@]);
        while self.at_comma()
            invariant
                p0 == old(self)@,
                sound(p0),
                plain(*closing),
                step(p0, self@),
                types_tail(types_view(items@), self@, *closing) == types_from(p0, *closing),
            ensures
                step(p0, self@),
                (types_view(items@), self@) == types_from(p0, *closing),
            decreases self@.left(),
        {
            let ghost seen = types_view(items@);
            self.bump();
            if self.at(closing) {
                break;
            }
            let item = self.parse_type_ann();
            items.push(item);
            assert(types_view(items@) =~= seen.push(item@));
        }
        items
    }

    /// `: T`, or nothing.
    pub(crate) fn parse_optional_type(&mut self) -> (r: Option<TypeAnn>)
        requires
            sound(old(self)@),
        ensures
            opt_type_view(r) == opt_type_from(old(self)@).0,
            final(self)@ == opt_type_from(old(self)@).1,
            step(old(self)@, final(self)@),
    {
        if self.at(&TokenKind::Colon) {
            self.bump();
            Some(self.parse_type_ann())
        } else {
            None
        }
    }

    /// `uses { name, .. }`, or nothing.
    pub(crate) fn parse_uses_clause(&mut self) -> (r: Vec<String>)
        requires
            sound(old(self)@),
        ensures
            texts(r@) == uses_from(old(self)@).0,
            final(self)@ == uses_from(old(self)@).1,
            step(old(self)@, final(self)@),
    {
        if !matches!(self.peek_kind(), Some(TokenKind::Uses)) {
            let none: Vec<String> = Vec::new();
            assert(texts(none@) =~= Seq::empty());
            return none;
        }
        self.bump();
        self.expect(&TokenKind::LBrace, "`{`");
        let effects = self.parse_idents(&TokenKind::RBrace, "effect name");
        self.expect(&TokenKind::RBrace, "`}`");
        effects
    }

    /// Identifiers separated by commas, up to `closing`.
    pub(crate) fn parse_idents(&mut self, closing: &TokenKind, what: &str) -> (r: Vec<String>)
        requires
            sound(old(self)@),
            plain(*closing),
        ensures
            texts(r@) == idents_from(old(self)@, *closing, what@).0,
            final(self)@ == idents_from(old(self)@, *closing, what@).1,
            step(old(self)@, final(self)@),
    {
        let ghost p0 = self@;
        let mut items: Vec<String> = Vec::new();
        if self.at(closing) {
            assert(texts(items@) =~= Seq::empty());
            return items;
        }
        let first = self.expect_ident(what);
        items.push(first);
        assert(texts(items@) =~= seq![first@]);
        while self.at_comma()
            invariant
                plain(*closing),
                step(p0, self@),
                idents_tail(texts(items@), self@, *closing, what@) == idents_from(
                    p0,
                    *closing,
                    what@,
                ),
            ensures
                step(p0, self@),
                (texts(items@), self@) == idents_from(p0, *closing, what@),
            decreases self@.left(),
        {
            let ghost seen = texts(items@);
            self.bump();
            if self.at(closing) {
                break;
            }
            let item = self.expect_ident(what);
            items.push(item);
            assert(texts(items@) =~= seen.push(item@));
        }
        items
    }
}

} // verus!
