//! Declarations: functions, structs and enums; and the items of a file.
//!
//! A constant at the top level of a module is an ordinary statement.

use super::grammar::{
    body_from, enum_from, function_from, function_params_from, generics_from, item_from,
    items_tail, members_tail, opt_comma, param_from, params_tail, self_param_from, struct_from,
    variant_field_from, variant_fields_from, variant_fields_tail, variant_from, variants_tail,
};
use super::ty_ann::unnamed_type;
use super::{sound, span_between, step, Parser};
use crate::ast::{
    functions_view, items_view, leading_lists_view, leading_view, opt_texts, params_view,
    types_view, variants_view, Decl, EnumDecl, EnumVariant, FunctionDecl, Item, LeadingComment,
    LeadingV, Param, SelfParam, StructDecl, TypeAnn,
};
use crate::lexer::TokenKind;
use crate::text::{opt_text, texts};
use vstd::prelude::*;

verus! {

/// Whether the body of a struct goes on, and with what.
enum Member {
    Field,
    Method,
    End,
    Unknown,
}

fn no_leading() -> (r: Vec<LeadingComment>)
    ensures
        leading_view(r@) == Seq::<LeadingV>::empty(),
{
    let r: Vec<LeadingComment> = Vec::new();
    assert(leading_view(r@) =~= Seq::empty());
    r
}

fn no_leading_lists(count: usize) -> (r: Vec<Vec<LeadingComment>>)
    ensures
        leading_lists_view(r@) == Seq::new(count as nat, |i: int| Seq::<LeadingV>::empty()),
{
    let mut r: Vec<Vec<LeadingComment>> = Vec::new();
    let mut i: usize = 0;
    while i < count
        invariant
            i <= count,
            r@.len() == i,
            forall|j: int| 0 <= j < i ==> leading_view(#[trigger] r@[j]@) == Seq::<LeadingV>::empty(),
        decreases count - i,
    {
        r.push(no_leading());
        i = i + 1;
    }
    assert(leading_lists_view(r@) =~= Seq::new(count as nat, |i: int| Seq::<LeadingV>::empty()));
    r
}

fn no_trailing(count: usize) -> (r: Vec<Option<String>>)
    ensures
        opt_texts(r@) == Seq::new(count as nat, |i: int| None::<Seq<char>>),
{
    let mut r: Vec<Option<String>> = Vec::new();
    let mut i: usize = 0;
    while i < count
        invariant
            i <= count,
            r@.len() == i,
            forall|j: int| 0 <= j < i ==> #[trigger] r@[j] == None::<String>,
        decreases count - i,
    {
        r.push(None);
        i = i + 1;
    }
    assert(opt_texts(r@) =~= Seq::new(count as nat, |i: int| None::<Seq<char>>));
    r
}

impl<'a> Parser<'a> {
    /// Every declaration and statement up to the end of the file.
    pub(crate) fn parse_items(&mut self) -> (r: Vec<Item>)
        requires
            sound(old(self)@),
        ensures
            (items_view(r@), final(self)@) == items_tail(Seq::empty(), old(self)@),
            step(old(self)@, final(self)@),
    {
        let ghost p0 = self@;
        let mut items: Vec<Item> = Vec::new();
        assert(items_view(items@) =~= Seq::empty());
        loop
            invariant_except_break
                step(p0, self@),
                items_tail(items_view(items@), self@) == items_tail(Seq::empty(), p0),
            ensures
                step(p0, self@),
                (items_view(items@), self@) == items_tail(Seq::empty(), p0),
            decreases self@.left(),
        {
            let ghost seen = items_view(items@);
            self.skip_blank_newlines();
            if matches!(
                self.peek_kind(),
                None | Some(TokenKind::Eof | TokenKind::Dedent)
            ) {
                break;
            }
            let item = self.parse_item();
            items.push(item);
            assert(items_view(items@) =~= seen.push(item@));
        }
        items
    }

    fn parse_item(&mut self) -> (r: Item)
        requires
            sound(old(self)@),
        ensures
            (r@, final(self)@) == item_from(old(self)@),
            step(old(self)@, final(self)@),
            step(old(self)@.bump(), final(self)@),
    {
        match self.peek_kind() {
            Some(TokenKind::Def) => {
                let decl = self.parse_function_decl();
                return Item::Decl(Decl::Function(decl));
            },
            Some(TokenKind::Struct) => {
                let decl = self.parse_struct_decl();
                return Item::Decl(Decl::Struct(decl));
            },
            Some(TokenKind::Enum) => {
                let decl = self.parse_enum_decl();
                return Item::Decl(Decl::Enum(decl));
            },
            _ => {
                let stmt = self.parse_stmt_or_skip();
                return Item::Stmt(stmt);
            },
        }
    }

    /// `def name[T](params): Ret uses {..}` and its body.
    pub fn parse_function_decl(&mut self) -> (r: FunctionDecl)
        requires
            sound(old(self)@),
        ensures
            (r@, final(self)@) == function_from(old(self)@),
            step(old(self)@, final(self)@),
            step(old(self)@.bump(), final(self)@),
    {
        let start_span = self.current_span();
        self.bump();
        let name = self.expect_ident("function name");
        let generics = self.parse_optional_generics();
        self.expect(&TokenKind::LParen, "`(`");
        let (self_param, params) = self.parse_params();
        self.expect(&TokenKind::RParen, "`)`");
        self.expect(&TokenKind::Colon, "`:` (return type annotation)");
        let ret = self.parse_type_ann();
        let effects = self.parse_uses_clause();
        let body = self.parse_block();
        let end_span = self.previous_span();
        FunctionDecl {
            id: self.next_node_id(),
            name,
            generics,
            self_param,
            params,
            ret,
            effects,
            body,
            leading_comments: no_leading(),
            doc_comment: None,
            span: span_between(start_span, end_span),
        }
    }

    /// `struct Name[T]` and its fields and methods.
    pub fn parse_struct_decl(&mut self) -> (r: StructDecl)
        requires
            sound(old(self)@),
        ensures
            (r@, final(self)@) == struct_from(old(self)@),
            step(old(self)@, final(self)@),
            step(old(self)@.bump(), final(self)@),
    {
        let start_span = self.current_span();
        self.bump();
        let name = self.expect_ident("struct name");
        let generics = self.parse_optional_generics();
        let (fields, methods) = self.parse_members();
        let end_span = self.previous_span();
        let field_count: usize = fields.len();
        StructDecl {
            id: self.next_node_id(),
            name,
            generics,
            fields,
            field_leading_comments: no_leading_lists(field_count),
            field_trailing_comments: no_trailing(field_count),
            methods,
            leading_comments: no_leading(),
            doc_comment: None,
            span: span_between(start_span, end_span),
        }
    }

    /// The body of a struct, if it has one.
    fn parse_members(&mut self) -> (r: (Vec<Param>, Vec<FunctionDecl>))
        requires
            sound(old(self)@),
        ensures
            ({
                let (has_body, p) = body_from(old(self)@);
                (params_view(r.0@), functions_view(r.1@), final(self)@) == if has_body {
                    members_tail(Seq::empty(), Seq::empty(), p)
                } else {
                    (Seq::empty(), Seq::empty(), p)
                }
            }),
            step(old(self)@, final(self)@),
    {
        let mut fields: Vec<Param> = Vec::new();
        let mut methods: Vec<FunctionDecl> = Vec::new();
        assert(params_view(fields@) =~= Seq::empty());
        assert(functions_view(methods@) =~= Seq::empty());
        if !self.enter_body_indent_if_present() {
            return (fields, methods);
        }
        let ghost p0 = self@;
        loop
            invariant_except_break
                step(p0, self@),
                members_tail(params_view(fields@), functions_view(methods@), self@)
                    == members_tail(Seq::empty(), Seq::empty(), p0),
            ensures
                step(p0, self@),
                (params_view(fields@), functions_view(methods@), self@) == members_tail(
                    Seq::empty(),
                    Seq::empty(),
                    p0,
                ),
            decreases self@.left(),
        {
            let ghost seen_fields = params_view(fields@);
            let ghost seen_methods = functions_view(methods@);
            self.skip_blank_newlines();
            match self.next_member() {
                Member::End => {
                    if matches!(self.peek_kind(), Some(TokenKind::Dedent)) {
                        self.bump();
                    }
                    break;
                },
                Member::Method => {
                    let method = self.parse_function_decl();
                    methods.push(method);
                    assert(functions_view(methods@) =~= seen_methods.push(method@));
                },
                Member::Field => {
                    let field = self.parse_param();
                    fields.push(field);
                    assert(params_view(fields@) =~= seen_fields.push(field@));
                },
                Member::Unknown => {
                    let span = self.current_span();
                    self.unexpected(span, "expected a struct field or method definition");
                    self.skip_to_sync_point();
                },
            }
        }
        (fields, methods)
    }

    fn next_member(&self) -> (r: Member)
        ensures
            match r {
                Member::Field => self@.kind() matches Some(TokenKind::Ident(_)),
                Member::Method => self@.at(TokenKind::Def),
                Member::End => self@.at_end() || self@.at(TokenKind::Dedent),
                Member::Unknown => !self@.at_end() && !self@.at(TokenKind::Dedent) && !self@.at(
                    TokenKind::Def,
                ) && !(self@.kind() matches Some(TokenKind::Ident(_))),
            },
    {
        match self.peek_kind() {
            None => Member::End,
            Some(TokenKind::Dedent) => Member::End,
            Some(TokenKind::Eof) => Member::End,
            Some(TokenKind::Def) => Member::Method,
            Some(TokenKind::Ident(_)) => Member::Field,
            Some(_) => Member::Unknown,
        }
    }

    /// `enum Name[T]` and its variants.
    pub fn parse_enum_decl(&mut self) -> (r: EnumDecl)
        requires
            sound(old(self)@),
        ensures
            (r@, final(self)@) == enum_from(old(self)@),
            step(old(self)@, final(self)@),
            step(old(self)@.bump(), final(self)@),
    {
        let start_span = self.current_span();
        self.bump();
        let name = self.expect_ident("enum name");
        let generics = self.parse_optional_generics();
        let variants = self.parse_variants();
        let end_span = self.previous_span();
        EnumDecl {
            id: self.next_node_id(),
            name,
            generics,
            variants,
            leading_comments: no_leading(),
            doc_comment: None,
            span: span_between(start_span, end_span),
        }
    }

    /// The body of an enum, if it has one.
    fn parse_variants(&mut self) -> (r: Vec<EnumVariant>)
        requires
            sound(old(self)@),
        ensures
            ({
                let (has_body, p) = body_from(old(self)@);
                (variants_view(r@), final(self)@) == if has_body {
                    variants_tail(Seq::empty(), p)
                } else {
                    (Seq::empty(), p)
                }
            }),
            step(old(self)@, final(self)@),
    {
        let mut variants: Vec<EnumVariant> = Vec::new();
        assert(variants_view(variants@) =~= Seq::empty());
        if !self.enter_body_indent_if_present() {
            return variants;
        }
        let ghost p0 = self@;
        loop
            invariant_except_break
                step(p0, self@),
                variants_tail(variants_view(variants@), self@) == variants_tail(Seq::empty(), p0),
            ensures
                step(p0, self@),
                (variants_view(variants@), self@) == variants_tail(Seq::empty(), p0),
            decreases self@.left(),
        {
            let ghost seen = variants_view(variants@);
            self.skip_blank_newlines();
            match self.peek_kind() {
                Some(TokenKind::Dedent) => {
                    self.bump();
                    break;
                },
                None => break,
                Some(TokenKind::Eof) => break,
                Some(TokenKind::Ident(_)) => {
                    let variant = self.parse_enum_variant();
                    variants.push(variant);
                    assert(variants_view(variants@) =~= seen.push(variant@));
                },
                Some(_) => {
                    let span = self.current_span();
                    self.unexpected(span, "expected an enum variant");
                    self.skip_to_sync_point();
                },
            }
        }
        variants
    }

    /// Enters the indented body of a declaration; false where there is none.
    fn enter_body_indent_if_present(&mut self) -> (r: bool)
        requires
            sound(old(self)@),
        ensures
            (r, final(self)@) == body_from(old(self)@),
            step(old(self)@, final(self)@),
    {
        if matches!(self.peek_kind(), Some(TokenKind::Newline)) {
            self.bump();
        }
        if matches!(self.peek_kind(), Some(TokenKind::Indent)) {
            self.bump();
            true
        } else {
            false
        }
    }

    /// `[T, ..]`, or nothing.
    fn parse_optional_generics(&mut self) -> (r: Vec<String>)
        requires
            sound(old(self)@),
        ensures
            (texts(r@), final(self)@) == generics_from(old(self)@),
            step(old(self)@, final(self)@),
    {
        if !self.at(&TokenKind::LBracket) {
            let none: Vec<String> = Vec::new();
            assert(texts(none@) =~= Seq::empty());
            return none;
        }
        self.bump();
        let names = self.parse_idents(&TokenKind::RBracket, "type parameter name");
        self.expect(&TokenKind::RBracket, "`]`");
        names
    }

    fn skip_optional_comma(&mut self)
        requires
            sound(old(self)@),
        ensures
            final(self)@ == opt_comma(old(self)@),
            step(old(self)@, final(self)@),
    {
        if self.at_comma() {
            self.bump();
        }
    }

    /// `self` or `var self` at the front of the parameters.
    fn parse_self_param(&mut self) -> (r: Option<SelfParam>)
        requires
            sound(old(self)@),
        ensures
            (r, final(self)@) == self_param_from(old(self)@),
            step(old(self)@, final(self)@),
    {
        let span = self.current_span();
        if matches!(self.peek_kind(), Some(TokenKind::Var)) && matches!(
            self.peek_kind_at(1),
            Some(TokenKind::KwSelf)
        ) {
            self.bump();
            self.bump();
            self.skip_optional_comma();
            return Some(SelfParam { mutable: true, span });
        }
        if matches!(self.peek_kind(), Some(TokenKind::KwSelf)) {
            self.bump();
            self.skip_optional_comma();
            return Some(SelfParam { mutable: false, span });
        }
        None
    }

    /// The parameters of a function, up to the closing parenthesis.
    fn parse_params(&mut self) -> (r: (Option<SelfParam>, Vec<Param>))
        requires
            sound(old(self)@),
        ensures
            (r.0, params_view(r.1@), final(self)@) == function_params_from(old(self)@),
            step(old(self)@, final(self)@),
    {
        let mut params: Vec<Param> = Vec::new();
        assert(params_view(params@) =~= Seq::empty());
        if self.at(&TokenKind::RParen) {
            return (None, params);
        }
        let self_param = self.parse_self_param();
        let ghost p0 = self@;
        while !matches!(
            self.peek_kind(),
            None | Some(TokenKind::Eof | TokenKind::RParen)
        )
            invariant_except_break
                step(p0, self@),
                params_tail(params_view(params@), self@) == params_tail(Seq::empty(), p0),
            ensures
                step(p0, self@),
                (params_view(params@), self@) == params_tail(Seq::empty(), p0),
            decreases self@.left(),
        {
            let ghost seen = params_view(params@);
            let param = self.parse_param();
            params.push(param);
            assert(params_view(params@) =~= seen.push(param@));
            if self.at_comma() {
                self.bump();
                if self.at(&TokenKind::RParen) {
                    break;
                }
            } else {
                break;
            }
        }
        (self_param, params)
    }

    /// `name: T`.
    fn parse_param(&mut self) -> (r: Param)
        requires
            sound(old(self)@),
        ensures
            (r@, final(self)@) == param_from(old(self)@),
            step(old(self)@, final(self)@),
            old(self)@.kind() matches Some(TokenKind::Ident(_)) ==> step(
                old(self)@.bump(),
                final(self)@,
            ),
    {
        let start_span = self.current_span();
        let name = self.expect_ident("parameter name/field name");
        let ty = if self.at(&TokenKind::Colon) {
            self.bump();
            self.parse_type_ann()
        } else {
            unnamed_type(self.previous_span())
        };
        let end_span = self.previous_span();
        Param { name, ty, span: span_between(start_span, end_span) }
    }

    /// `Name(field: T, ..)`.
    fn parse_enum_variant(&mut self) -> (r: EnumVariant)
        requires
            sound(old(self)@),
        ensures
            (r@, final(self)@) == variant_from(old(self)@),
            step(old(self)@, final(self)@),
            old(self)@.kind() matches Some(TokenKind::Ident(_)) ==> step(
                old(self)@.bump(),
                final(self)@,
            ),
    {
        let start_span = self.current_span();
        let name = self.expect_ident("variant name");
        let mut fields: Vec<TypeAnn> = Vec::new();
        let mut field_names: Vec<Option<String>> = Vec::new();
        assert(types_view(fields@) =~= Seq::empty());
        assert(opt_texts(field_names@) =~= Seq::empty());
        if self.at(&TokenKind::LParen) {
            self.bump();
            let (names, types) = self.parse_variant_fields();
            field_names = names;
            fields = types;
            self.expect(&TokenKind::RParen, "`)`");
        }
        let end_span = self.previous_span();
        EnumVariant {
            name,
            fields,
            field_names,
            leading_comments: no_leading(),
            trailing_comment: None,
            span: span_between(start_span, end_span),
        }
    }

    fn parse_variant_fields(&mut self) -> (r: (Vec<Option<String>>, Vec<TypeAnn>))
        requires
            sound(old(self)@),
        ensures
            (opt_texts(r.0@), types_view(r.1@), final(self)@) == variant_fields_from(old(self)@),
            step(old(self)@, final(self)@),
    {
        let ghost p0 = self@;
        let mut names: Vec<Option<String>> = Vec::new();
        let mut types: Vec<TypeAnn> = Vec::new();
        if self.at(&TokenKind::RParen) {
            assert(opt_texts(names@) =~= Seq::empty());
            assert(types_view(types@) =~= Seq::empty());
            return (names, types);
        }
        let (name, ty) = self.parse_variant_field_type();
        names.push(name);
        types.push(ty);
        assert(opt_texts(names@) =~= seq![opt_text(name)]);
        assert(types_view(types@) =~= seq![ty@]);
        while self.at_comma()
            invariant
                step(p0, self@),
                variant_fields_tail(opt_texts(names@), types_view(types@), self@)
                    == variant_fields_from(p0),
            ensures
                step(p0, self@),
                (opt_texts(names@), types_view(types@), self@) == variant_fields_from(p0),
            decreases self@.left(),
        {
            let ghost seen_names = opt_texts(names@);
            let ghost seen_types = types_view(types@);
            self.bump();
            if self.at(&TokenKind::RParen) {
                break;
            }
            let (name, ty) = self.parse_variant_field_type();
            names.push(name);
            types.push(ty);
            assert(opt_texts(names@) =~= seen_names.push(opt_text(name)));
            assert(types_view(types@) =~= seen_types.push(ty@));
        }
        (names, types)
    }

    /// `name: T` or `T`.
    fn parse_variant_field_type(&mut self) -> (r: (Option<String>, TypeAnn))
        requires
            sound(old(self)@),
        ensures
            (opt_text(r.0), r.1@, final(self)@) == variant_field_from(old(self)@),
            step(old(self)@, final(self)@),
    {
        if matches!(self.peek_kind(), Some(TokenKind::Ident(_))) && matches!(
            self.peek_kind_at(1),
            Some(TokenKind::Colon)
        ) {
            let name = self.expect_ident("field name");
            self.bump();
            let ty = self.parse_type_ann();
            return (Some(name), ty);
        }
        let ty = self.parse_type_ann();
        (None, ty)
    }
}

} // verus!
