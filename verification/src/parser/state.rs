//! The mathematical state of a parse, and the elementary steps on it.

use crate::ast::{ExprKindV, ExprV, NodeId};
use crate::diagnostics::{DiagnosticView, ErrorCode, FileId, Position, Span};
use crate::lexer::{Token, TokenKind};
use vstd::prelude::*;

verus! {

/// How deeply expressions and type annotations may nest.
pub const MAX_PARSE_DEPTH: u32 = 2000;

/// A count as a node number: numbers go round at the greatest one.
pub open spec fn wrapped(n: int) -> u32 {
    (n % 0x1_0000_0000) as u32
}

/// Where a parse stands: the tokens, the position in them, the next node number (counted without
/// going round), the nesting depth, whether a bare `?` is forbidden, and the diagnostics so far.
pub ghost struct PState {
    pub toks: Seq<Token>,
    pub pos: int,
    pub next_id: int,
    pub depth: u32,
    pub no_question: bool,
    pub file: FileId,
    pub diags: Seq<DiagnosticView>,
}

/// From `start`'s start to `end`'s end.
pub open spec fn between(start: Span, end: Span) -> Span {
    Span { file: start.file, start: start.start, end: end.end }
}

/// `p` is a later state of the same parse as `q`, at the same nesting.
pub open spec fn framed(q: PState, p: PState) -> bool {
    &&& p.toks == q.toks
    &&& p.pos >= q.pos
    &&& p.depth == q.depth
    &&& p.no_question == q.no_question
    &&& p.file == q.file
}

pub open spec fn opener(k: TokenKind) -> bool {
    k is LParen || k is LBracket || k is LBrace
}

pub open spec fn closer(k: TokenKind) -> bool {
    k is RParen || k is RBracket || k is RBrace
}

impl PState {
    /// Tokens not yet consumed.
    pub open spec fn left(self) -> nat {
        if self.pos < self.toks.len() {
            (self.toks.len() - self.pos) as nat
        } else {
            0
        }
    }

    /// This state, which never lies before `q`.
    pub open spec fn after(self, q: PState) -> PState {
        if framed(q, self) {
            self
        } else {
            PState { next_id: self.next_id, ..q }
        }
    }

    /// The kind of the token `k` places ahead.
    pub open spec fn kind_at(self, k: int) -> Option<TokenKind> {
        if 0 <= self.pos + k < self.toks.len() {
            Some(self.toks[self.pos + k].kind)
        } else {
            None
        }
    }

    /// The kind of the token at the current position.
    pub open spec fn kind(self) -> Option<TokenKind> {
        self.kind_at(0)
    }

    pub open spec fn at(self, k: TokenKind) -> bool {
        self.kind() == Some(k)
    }

    /// No token is left, or only the end marker.
    pub open spec fn at_end(self) -> bool {
        self.kind() is None || self.at(TokenKind::Eof)
    }

    /// Consumes one token, if there is one.
    pub open spec fn bump(self) -> PState {
        if 0 <= self.pos < self.toks.len() {
            PState { pos: self.pos + 1, ..self }
        } else {
            self
        }
    }

    /// The number that the next node gets.
    pub open spec fn id(self) -> NodeId {
        NodeId(wrapped(self.next_id))
    }

    /// Takes that number.
    pub open spec fn numbered(self) -> PState {
        PState { next_id: self.next_id + 1, ..self }
    }

    pub open spec fn report(self, code: ErrorCode, span: Span, message: Seq<char>) -> PState {
        PState { diags: self.diags.push(DiagnosticView { code, span, message }), ..self }
    }

    pub open spec fn unexpected(self, span: Span, message: Seq<char>) -> PState {
        self.report(ErrorCode::UnexpectedToken, span, message)
    }

    pub open spec fn deeper(self) -> PState {
        PState { depth: (self.depth + 1) as u32, ..self }
    }

    pub open spec fn at_depth(self, depth: u32) -> PState {
        PState { depth, ..self }
    }

    pub open spec fn forbidding(self, no_question: bool) -> PState {
        PState { no_question, ..self }
    }

    pub open spec fn too_deep(self, span: Span) -> PState {
        self.unexpected(span, "expression nesting is too deep"@)
    }

    /// The span of the token at the current position; the start of the file past the end.
    pub open spec fn current_span(self) -> Span {
        if 0 <= self.pos < self.toks.len() {
            self.toks[self.pos].span
        } else {
            Span {
                file: self.file,
                start: Position { line: 1, col: 1 },
                end: Position { line: 1, col: 1 },
            }
        }
    }

    /// The span of the token consumed last.
    pub open spec fn previous_span(self) -> Span {
        if 1 <= self.pos <= self.toks.len() {
            self.toks[self.pos - 1].span
        } else {
            self.current_span()
        }
    }

    /// Consumes a token of kind `k`, or reports its absence.
    pub open spec fn expect(self, k: TokenKind, what: Seq<char>) -> PState {
        if self.at(k) {
            self.bump()
        } else {
            self.unexpected(
                self.current_span(),
                "expected "@ + what + " but did not find it"@,
            )
        }
    }

    /// Consumes an identifier and gives its name, or reports its absence and gives the empty
    /// name.
    pub open spec fn ident(self, what: Seq<char>) -> (Seq<char>, PState) {
        match self.kind() {
            Some(TokenKind::Ident(name)) => (name@, self.bump()),
            _ => (
                ""@,
                self.unexpected(
                    self.current_span(),
                    "expected "@ + what + " (an identifier) but did not find it"@,
                ),
            ),
        }
    }

    /// Skips line ends.
    pub open spec fn newlines(self) -> PState
        decreases self.left(),
    {
        if self.at(TokenKind::Newline) {
            self.bump().newlines()
        } else {
            self
        }
    }

    /// Skips to the dedent that ends the block in which the state stands, `depth` indents
    /// further in, or to the end.
    pub open spec fn sync(self, depth: nat) -> PState
        decreases self.left(),
    {
        match self.kind() {
            None => self,
            Some(TokenKind::Eof) => self,
            Some(TokenKind::Dedent) => if depth == 0 {
                self
            } else {
                self.bump().sync((depth - 1) as nat)
            },
            Some(TokenKind::Indent) => self.bump().sync(depth + 1),
            Some(_) => self.bump().sync(depth),
        }
    }

    /// Skips a bracketed run, `depth` brackets further in; stops at the end of the line.
    pub open spec fn skip_brackets(self, depth: int) -> PState
        decreases self.left(),
    {
        match self.kind() {
            None => self,
            Some(k) => if opener(k) {
                self.bump().skip_brackets(depth + 1)
            } else if closer(k) {
                if depth - 1 <= 0 {
                    self.bump()
                } else {
                    self.bump().skip_brackets(depth - 1)
                }
            } else if k is Eof || k is Newline || k is Dedent {
                self
            } else {
                self.bump().skip_brackets(depth)
            },
        }
    }

    /// An indented block starts here: a line end, then an indent.
    pub open spec fn indented_ahead(self) -> bool {
        self.at(TokenKind::Newline) && self.kind_at(1) == Some(TokenKind::Indent)
    }

    /// A pattern can start here.
    pub open spec fn at_pattern_start(self) -> bool {
        match self.kind() {
            Some(k) => k is IntLiteral || k is FloatLiteral || k is StringLiteral || k is True
                || k is False || k is Underscore || k is Ident || k is LParen || k is Minus,
            None => false,
        }
    }

    /// A bracket at the current position opens explicit type arguments: it starts like a type
    /// annotation and its closing bracket is followed by `(`.
    pub open spec fn explicit_type_args(self) -> bool {
        &&& self.at(TokenKind::LBracket)
        &&& match self.kind_at(1) {
            Some(k) => k is Ident || k is LParen || k is Void,
            None => false,
        }
        &&& close_followed(self.toks, self.pos, 0, TokenKind::LParen)
    }
}

/// Whether the bracket that brings the depth back to zero, from token `i` on, is followed by a
/// token of kind `expected`.
pub open spec fn close_followed(toks: Seq<Token>, i: int, depth: int, expected: TokenKind) -> bool
    decreases toks.len() - i,
{
    if 0 <= i < toks.len() {
        let k = toks[i].kind;
        if opener(k) {
            close_followed(toks, i + 1, depth + 1, expected)
        } else if closer(k) {
            if depth - 1 == 0 {
                i + 1 < toks.len() && toks[i + 1].kind == expected
            } else {
                close_followed(toks, i + 1, depth - 1, expected)
            }
        } else if k is Eof {
            false
        } else {
            close_followed(toks, i + 1, depth, expected)
        }
    } else {
        false
    }
}

/// A numbered expression node.
pub open spec fn node(p: PState, kind: ExprKindV, span: Span) -> (ExprV, PState) {
    (ExprV { id: p.id(), kind, span }, p.numbered())
}

/// The dummy expression with which parsing goes on after an error.
pub open spec fn poison(p: PState, span: Span) -> (ExprV, PState) {
    node(p, ExprKindV::IntLit(0), span)
}

} // verus!
