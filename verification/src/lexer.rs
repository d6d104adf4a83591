//! Tokens and comments: what the parser reads.

use crate::diagnostics::Span;
use vstd::prelude::*;

verus! {

/// One token and where it stands.
#[derive(Debug)]
pub struct Token {
    pub kind: TokenKind,
    pub span: Span,
}

/// The kinds of tokens. A float literal carries its decimal spelling.
#[derive(Debug)]
pub enum TokenKind {
    IntLiteral(i64),
    FloatLiteral(String),
    StringLiteral(String),
    FString(Vec<FStringPart>),
    Ident(String),
    True,
    False,
    Underscore,
    LParen,
    RParen,
    LBracket,
    RBracket,
    LBrace,
    RBrace,
    Comma,
    Colon,
    Dot,
    Question,
    PipeOp,
    Or,
    And,
    Not,
    EqEq,
    NotEq,
    Lt,
    LtEq,
    Gt,
    GtEq,
    Plus,
    Minus,
    Star,
    Slash,
    Percent,
    Eq,
    Arrow,
    FatArrow,
    If,
    Else,
    Match,
    Par,
    Def,
    Struct,
    Enum,
    Var,
    Return,
    KwSelf,
    Void,
    Uses,
    Module,
    Newline,
    Indent,
    Dedent,
    Eof,
}

/// A piece of an f-string: literal text, or the tokens of an embedded expression.
#[derive(Debug)]
pub enum FStringPart {
    Text(String),
    Expr(Vec<Token>),
}

/// A comment, kept beside the token stream. `text` is what follows `#` or `##`.
#[derive(Clone, Debug, PartialEq, Eq)]
pub struct RawComment {
    pub text: String,
    pub span: Span,
    pub is_doc: bool,
    pub is_trailing: bool,
}

/// What a comment says.
pub ghost struct RawCommentView {
    pub text: Seq<char>,
    pub span: Span,
    pub is_doc: bool,
    pub is_trailing: bool,
}

impl RawComment {
    pub open spec fn view(&self) -> RawCommentView {
        RawCommentView {
            text: self.text@,
            span: self.span,
            is_doc: self.is_doc,
            is_trailing: self.is_trailing,
        }
    }
}

/// The token stream has the shape that lexing gives it: integer literals carry no sign, a
/// number right after a dot is a tuple index that fits 32 bits, and the same holds inside
/// f-strings.
#[verifier::opaque]
pub open spec fn well_lexed(toks: Seq<Token>) -> bool
    decreases toks,
{
    forall|i: int|
        0 <= i < toks.len() ==> {
            &&& #[trigger] toks[i].kind matches TokenKind::IntLiteral(n) ==> {
                &&& n >= 0
                &&& i > 0 && toks[i - 1].kind is Dot ==> n <= u32::MAX
            }
            &&& toks[i].kind matches TokenKind::FString(parts) ==> forall|j: int|
                0 <= j < parts@.len() ==> (#[trigger] parts@[j] matches FStringPart::Expr(sub)
                    ==> well_lexed(sub@))
        }
}

/// The number of tokens in a part of an f-string, at any depth.
pub open spec fn part_token_count(part: FStringPart) -> nat
    decreases part,
{
    match part {
        FStringPart::Text(_) => 0,
        FStringPart::Expr(sub) => token_count(sub@),
    }
}

/// The number of tokens in the parts of an f-string, at any depth.
pub open spec fn parts_token_count(parts: Seq<FStringPart>) -> nat
    decreases parts,
{
    if parts.len() == 0 {
        0
    } else {
        parts_token_count(parts.drop_last()) + part_token_count(parts.last())
    }
}

/// The number of tokens, those inside f-strings counted too.
pub open spec fn token_count(toks: Seq<Token>) -> nat
    decreases toks,
{
    if toks.len() == 0 {
        0
    } else {
        token_count(toks.drop_last()) + 1 + match toks.last().kind {
            TokenKind::FString(parts) => parts_token_count(parts@),
            _ => 0,
        }
    }
}

pub proof fn lemma_part_token_count(parts: Seq<FStringPart>, j: int)
    requires
        0 <= j < parts.len(),
    ensures
        part_token_count(parts[j]) <= parts_token_count(parts),
    decreases parts.len(),
{
    if j < parts.len() - 1 {
        lemma_part_token_count(parts.drop_last(), j);
    }
}

/// What an f-string embeds has fewer tokens than the stream that the f-string stands in.
pub proof fn lemma_embedded_token_count(toks: Seq<Token>, i: int, j: int)
    requires
        0 <= i < toks.len(),
        toks[i].kind is FString,
        0 <= j < toks[i].kind->FString_0@.len(),
    ensures
        part_token_count(toks[i].kind->FString_0@[j]) < token_count(toks),
    decreases toks.len(),
{
    if i < toks.len() - 1 {
        lemma_embedded_token_count(toks.drop_last(), i, j);
    } else {
        lemma_part_token_count(toks[i].kind->FString_0@, j);
    }
}

} // verus!
