//! The recursive descent parser.
//!
//! No parsing function fails: on a syntax error a diagnostic is recorded and parsing goes on
//! with a plausible value, after skipping to a safe point where that is needed. What each
//! function returns is stated by the grammar (`grammar`) over the parse state (`state`).

pub mod args;
pub mod comment_attach;
pub mod comment_laws;
pub mod comment_texts;
pub mod comments;
pub mod decl;
pub mod distinct;
pub mod expr;
pub mod grammar;
pub mod numbering;
pub mod pattern;
pub mod precedence;
pub mod sealed;
pub mod spelling;
pub mod state;
pub mod stmt;
pub mod ty_ann;

use crate::ast::{Module, NodeId};
use crate::diagnostics::{Diagnostic, DiagnosticBag, ErrorCode, FileId, Position, Span};
use crate::lexer::{well_lexed, Token, TokenKind};
use crate::text::join3;
use grammar::{initial, line_end, module_from};
use state::{between, close_followed, framed, opener, wrapped, PState, MAX_PARSE_DEPTH};
use vstd::prelude::*;

verus! {

/// The number that the next node gets, and the same number counted without going round.
struct Numbers {
    next: u32,
    count: Ghost<int>,
}

impl Numbers {
    #[verifier::type_invariant]
    spec fn well_formed(self) -> bool {
        self.next == wrapped(self.count@)
    }
}

/// A parse of one token stream.
pub struct Parser<'a> {
    tokens: &'a [Token],
    pos: usize,
    numbers: Numbers,
    /// How deeply expressions and type annotations are nested here.
    depth: u32,
    /// Set while the elements of `par` are parsed; a lambda clears it for its body.
    bare_question_forbidden: bool,
    file: FileId,
    diagnostics: DiagnosticBag,
}

/// The state lies within its tokens, and these are well lexed.
pub open spec fn sound(p: PState) -> bool {
    &&& 0 <= p.pos <= p.toks.len()
    &&& well_lexed(p.toks)
}

/// `p` is a sound later state of the parse that stood at `q`.
pub open spec fn step(q: PState, p: PState) -> bool {
    framed(q, p) && sound(p)
}

/// The kinds that `at` can test for.
pub open spec fn plain(k: TokenKind) -> bool {
    ||| k is LParen
    ||| k is RParen
    ||| k is LBracket
    ||| k is RBracket
    ||| k is LBrace
    ||| k is RBrace
    ||| k is Colon
    ||| k is Eq
    ||| k is Arrow
    ||| k is FatArrow
}

fn same_plain(a: &TokenKind, b: &TokenKind) -> (r: bool)
    requires
        plain(*b),
    ensures
        r == (*a == *b),
{
    match (a, b) {
        (TokenKind::LParen, TokenKind::LParen) => true,
        (TokenKind::RParen, TokenKind::RParen) => true,
        (TokenKind::LBracket, TokenKind::LBracket) => true,
        (TokenKind::RBracket, TokenKind::RBracket) => true,
        (TokenKind::LBrace, TokenKind::LBrace) => true,
        (TokenKind::RBrace, TokenKind::RBrace) => true,
        (TokenKind::Colon, TokenKind::Colon) => true,
        (TokenKind::Eq, TokenKind::Eq) => true,
        (TokenKind::Arrow, TokenKind::Arrow) => true,
        (TokenKind::FatArrow, TokenKind::FatArrow) => true,
        _ => false,
    }
}

/// From `start`'s start to `end`'s end.
pub fn span_between(start: Span, end: Span) -> (r: Span)
    ensures
        r == between(start, end),
{
    Span { file: start.file, start: start.start, end: end.end }
}

impl<'a> Parser<'a> {
    /// The mathematical state of this parse.
    pub closed spec fn view(&self) -> PState {
        PState {
            toks: self.tokens@,
            pos: self.pos as int,
            next_id: self.numbers.count@,
            depth: self.depth,
            no_question: self.bare_question_forbidden,
            file: self.file,
            diags: self.diagnostics@,
        }
    }

    pub fn new(tokens: &'a [Token], file: FileId) -> (r: Self)
        ensures
            r@ == initial(tokens@, file, 0),
    {
        Self::with_start_id(tokens, file, 0)
    }

    /// Like `new`, with node numbers from `start_id` on, so that the nodes of several parses
    /// can be kept apart.
    pub fn with_start_id(tokens: &'a [Token], file: FileId, start_id: u32) -> (r: Self)
        ensures
            r@ == initial(tokens@, file, start_id),
    {
        Parser {
            tokens,
            pos: 0,
            numbers: Numbers { next: start_id, count: Ghost(start_id as int) },
            depth: 0,
            bare_question_forbidden: false,
            file,
            diagnostics: DiagnosticBag::new(),
        }
    }

    fn next_node_id(&mut self) -> (r: NodeId)
        ensures
            r == old(self)@.id(),
            final(self)@ == old(self)@.numbered(),
    {
        proof {
            use_type_invariant(&self.numbers);
        }
        let id = NodeId(self.numbers.next);
        let next: u32 = self.numbers.next.wrapping_add(1);
        let ghost count = self.numbers.count@ + 1;
        self.numbers = Numbers { next, count: Ghost(count) };
        id
    }

    /// Enters one level of nesting; false, with a diagnostic, where that is too deep.
    fn depth_enter(&mut self, span: Span) -> (r: bool)
        ensures
            r == (old(self)@.depth < MAX_PARSE_DEPTH),
            r ==> final(self)@ == old(self)@.deeper(),
            !r ==> final(self)@ == old(self)@.too_deep(span),
    {
        if self.depth >= MAX_PARSE_DEPTH {
            self.push_diag(
                ErrorCode::UnexpectedToken,
                span,
                "expression nesting is too deep".to_owned(),
            );
            false
        } else {
            self.depth = self.depth + 1;
            true
        }
    }

    fn depth_exit(&mut self)
        requires
            old(self)@.depth > 0,
        ensures
            final(self)@ == old(self)@.at_depth((old(self)@.depth - 1) as u32),
    {
        self.depth = self.depth - 1;
    }

    fn question_forbidden(&self) -> (r: bool)
        ensures
            r == self@.no_question,
    {
        self.bare_question_forbidden
    }

    fn forbid_question(&mut self, forbidden: bool)
        ensures
            final(self)@ == old(self)@.forbidding(forbidden),
    {
        self.bare_question_forbidden = forbidden;
    }

    fn position(&self) -> (r: usize)
        requires
            sound(self@),
        ensures
            r == self@.pos,
    {
        self.pos
    }

    fn token_count(&self) -> (r: usize)
        ensures
            r == self@.toks.len(),
    {
        self.tokens.len()
    }

    /// Consumes one token, if there is one.
    fn bump(&mut self)
        requires
            sound(old(self)@),
        ensures
            final(self)@ == old(self)@.bump(),
            step(old(self)@, final(self)@),
    {
        if self.pos < self.tokens.len() {
            self.pos = self.pos + 1;
        }
    }

    /// What has been reported so far.
    pub fn diagnostics(&self) -> (r: &DiagnosticBag)
        ensures
            r@ == self@.diags,
    {
        &self.diagnostics
    }

    /// The kind of the token at the current position.
    pub fn peek_kind(&self) -> (r: Option<&'a TokenKind>)
        ensures
            match r {
                Some(k) => self@.kind() == Some(*k) && self@.pos < self@.toks.len(),
                None => self@.kind() is None,
            },
    {
        self.peek_kind_at(0)
    }

    /// The kind of the token `offset` places ahead.
    fn peek_kind_at(&self, offset: usize) -> (r: Option<&'a TokenKind>)
        ensures
            match r {
                Some(k) => self@.kind_at(offset as int) == Some(*k) && self@.pos + offset
                    < self@.toks.len(),
                None => self@.kind_at(offset as int) is None,
            },
    {
        let tokens: &'a [Token] = self.tokens;
        if self.pos < tokens.len() && offset < tokens.len() - self.pos {
            let i: usize = self.pos + offset;
            Some(&tokens[i].kind)
        } else {
            None
        }
    }

    fn at(&self, kind: &TokenKind) -> (r: bool)
        requires
            plain(*kind),
        ensures
            r == self@.at(*kind),
    {
        match self.peek_kind() {
            Some(k) => same_plain(k, kind),
            None => false,
        }
    }

    fn at_comma(&self) -> (r: bool)
        ensures
            r == self@.at(TokenKind::Comma),
    {
        matches!(self.peek_kind(), Some(TokenKind::Comma))
    }

    /// The span of the token at the current position; the start of the file past the end.
    fn current_span(&self) -> (r: Span)
        ensures
            r == self@.current_span(),
    {
        if self.pos < self.tokens.len() {
            self.tokens[self.pos].span
        } else {
            Span {
                file: self.file,
                start: Position { line: 1, col: 1 },
                end: Position { line: 1, col: 1 },
            }
        }
    }

    /// The span of the token consumed last.
    fn previous_span(&self) -> (r: Span)
        ensures
            r == self@.previous_span(),
    {
        if 1 <= self.pos && self.pos <= self.tokens.len() {
            self.tokens[self.pos - 1].span
        } else {
            self.current_span()
        }
    }

    fn skip_blank_newlines(&mut self)
        requires
            sound(old(self)@),
        ensures
            final(self)@ == old(self)@.newlines(),
            step(old(self)@, final(self)@),
            !final(self)@.at(TokenKind::Newline),
    {
        while matches!(self.peek_kind(), Some(TokenKind::Newline))
            invariant
                step(old(self)@, self@),
                self@.newlines() == old(self)@.newlines(),
            decreases self@.left(),
        {
            self.bump();
        }
    }

    fn push_diag(&mut self, code: ErrorCode, span: Span, message: String)
        ensures
            final(self)@ == old(self)@.report(code, span, message@),
    {
        self.diagnostics.push(Diagnostic { code, span, message });
    }

    fn unexpected(&mut self, span: Span, message: &str)
        ensures
            final(self)@ == old(self)@.unexpected(span, message@),
    {
        self.push_diag(ErrorCode::UnexpectedToken, span, message.to_owned());
    }

    /// Consumes a token of kind `kind`, or reports its absence.
    fn expect(&mut self, kind: &TokenKind, what: &str) -> (r: bool)
        requires
            plain(*kind),
            sound(old(self)@),
        ensures
            r == old(self)@.at(*kind),
            final(self)@ == old(self)@.expect(*kind, what@),
            step(old(self)@, final(self)@),
    {
        if self.at(kind) {
            self.bump();
            true
        } else {
            let span = self.current_span();
            let message = join3("expected ", what, " but did not find it");
            self.push_diag(ErrorCode::UnexpectedToken, span, message);
            false
        }
    }

    /// Consumes an identifier and returns its name; reports its absence and returns the empty
    /// name.
    fn expect_ident(&mut self, what: &str) -> (r: String)
        requires
            sound(old(self)@),
        ensures
            r@ == old(self)@.ident(what@).0,
            final(self)@ == old(self)@.ident(what@).1,
            step(old(self)@, final(self)@),
    {
        match self.peek_kind() {
            Some(TokenKind::Ident(name)) => {
                self.bump();
                name.clone()
            },
            _ => {
                let span = self.current_span();
                let message = join3("expected ", what, " (an identifier) but did not find it");
                self.push_diag(ErrorCode::UnexpectedToken, span, message);
                "".to_owned()
            },
        }
    }

    /// Whether an indented block starts here.
    fn is_indented_block_ahead(&self) -> (r: bool)
        ensures
            r == self@.indented_ahead(),
            r ==> self@.pos + 1 < self@.toks.len(),
    {
        matches!(self.peek_kind(), Some(TokenKind::Newline)) && matches!(
            self.peek_kind_at(1),
            Some(TokenKind::Indent)
        )
    }

    /// Whether a pattern can start here.
    fn at_pattern_start(&self) -> (r: bool)
        ensures
            r == self@.at_pattern_start(),
            r ==> self@.pos < self@.toks.len(),
    {
        matches!(
            self.peek_kind(),
            Some(
                TokenKind::IntLiteral(_)
                | TokenKind::FloatLiteral(_)
                | TokenKind::StringLiteral(_)
                | TokenKind::True
                | TokenKind::False
                | TokenKind::Underscore
                | TokenKind::Ident(_)
                | TokenKind::LParen
                | TokenKind::Minus
            )
        )
    }

    /// Skips to the dedent that ends the current block, or to the end.
    fn skip_to_sync_point(&mut self)
        requires
            sound(old(self)@),
        ensures
            final(self)@ == old(self)@.sync(0),
            step(old(self)@, final(self)@),
            !(old(self)@.at(TokenKind::Dedent) || old(self)@.at_end()) ==> final(self)@.pos
                > old(self)@.pos,
    {
        let count: usize = self.token_count();
        let mut depth: usize = 0;
        loop
            invariant
                count == self@.toks.len(),
                0 <= old(self)@.pos,
                step(old(self)@, self@),
                self@.sync(depth as nat) == old(self)@.sync(0),
                depth <= self@.pos - old(self)@.pos,
                self@.pos == old(self)@.pos ==> self@ == old(self)@ && depth == 0,
            decreases self@.left(),
        {
            match self.peek_kind() {
                None => return,
                Some(TokenKind::Eof) => return,
                Some(TokenKind::Dedent) => {
                    if depth == 0 {
                        return;
                    }
                    depth = depth - 1;
                    self.bump();
                },
                Some(TokenKind::Indent) => {
                    depth = depth + 1;
                    self.bump();
                },
                Some(_) => {
                    self.bump();
                },
            }
        }
    }

    /// Whether the bracket that closes the one at the current position is followed by a token
    /// of kind `expected`.
    fn matching_close_followed_by(&self, expected: &TokenKind) -> (r: bool)
        requires
            sound(self@),
            self@.kind() matches Some(k) && opener(k),
            plain(*expected),
        ensures
            r == close_followed(self@.toks, self@.pos, 0, *expected),
    {
        let tokens: &'a [Token] = self.tokens;
        let mut depth: usize = 0;
        let mut i: usize = self.pos;
        while i < tokens.len()
            invariant
                tokens@ == self@.toks,
                self@.pos <= i <= tokens@.len(),
                plain(*expected),
                self@.kind() matches Some(k) && opener(k),
                i == self@.pos ==> depth == 0,
                i > self@.pos ==> depth >= 1,
                depth <= i - self@.pos,
                close_followed(tokens@, i as int, depth as int, *expected) == close_followed(
                    self@.toks,
                    self@.pos,
                    0,
                    *expected,
                ),
            decreases tokens@.len() - i,
        {
            match &tokens[i].kind {
                TokenKind::LParen | TokenKind::LBracket | TokenKind::LBrace => {
                    depth = depth + 1;
                },
                TokenKind::RParen | TokenKind::RBracket | TokenKind::RBrace => {
                    if depth == 1 {
                        return i + 1 < tokens.len() && same_plain(&tokens[i + 1].kind, expected);
                    }
                    depth = depth - 1;
                },
                TokenKind::Eof => return false,
                _ => {},
            }
            i = i + 1;
        }
        false
    }
}

/// Parses one file's tokens into a module.
///
/// A file may start with the bare `module` directive; anything else on that line is reported.
pub fn parse_module(tokens: &[Token], file: FileId) -> (r: (Module, DiagnosticBag))
    requires
        well_lexed(tokens@),
    ensures
        r.0@ == module_from(tokens@, file, 0).0,
        r.1@ == module_from(tokens@, file, 0).1,
{
    let (module, diagnostics, _next_id) = parse_module_with_offset(tokens, file, 0);
    (module, diagnostics)
}

/// Like `parse_module`, with node numbers from `start_id` on; also returns the first number
/// that was not used.
pub fn parse_module_with_offset(tokens: &[Token], file: FileId, start_id: u32) -> (r: (
    Module,
    DiagnosticBag,
    u32,
))
    requires
        well_lexed(tokens@),
    ensures
        (r.0@, r.1@, r.2) == module_from(tokens@, file, start_id),
{
    let mut parser = Parser::with_start_id(tokens, file, start_id);
    let is_module_directive = if matches!(parser.peek_kind(), Some(TokenKind::Module)) {
        let directive_span = parser.current_span();
        parser.bump();
        let well_formed = matches!(
            parser.peek_kind(),
            Some(TokenKind::Newline | TokenKind::Eof)
        );
        if !well_formed {
            let bad_span = parser.current_span();
            parser.push_diag(
                ErrorCode::ModuleDirectiveMalformed,
                span_between(directive_span, bad_span),
                "a module directive must be the bare keyword with no name (D-LEX-08)".to_owned(),
            );
            let ghost p = parser@;
            while !matches!(
                parser.peek_kind(),
                None | Some(TokenKind::Newline | TokenKind::Eof)
            )
                invariant
                    step(p, parser@),
                    line_end(parser@) == line_end(p),
                decreases parser@.left(),
            {
                parser.bump();
            }
        }
        true
    } else {
        false
    };
    let items = parser.parse_items();
    let ghost view = parser@;
    let module = Module { file, is_module_directive, items, trailing_comments: Vec::new() };
    assert(module@.trailing_comments =~= Seq::empty());
    proof {
        use_type_invariant(&parser.numbers);
        reveal(module_from);
    }
    (module, parser.diagnostics, parser.numbers.next)
}

} // verus!
