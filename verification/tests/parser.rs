//! From source texts to syntax trees, comments and programs.

use yabumi::ast::{
    BinaryOp, Decl, EnumDecl, Expr, ExprKind, FStringSegment, FunctionDecl, Item, LiteralPat,
    MatchArmBody, Module, Pattern, PipeCallee, PipeStage, Stmt, StmtKind, StructDecl, SubPattern,
    TypeAnn, TypeAnnKind, UnaryOp,
};
use yabumi::diagnostics::{Diagnostic, DiagnosticBag, ErrorCode, FileId, Position, Span};
use yabumi::eval::env::Program;
use yabumi::eval::value::Value;
use yabumi::lexer::{FStringPart, RawComment, Token, TokenKind};
use yabumi::lsp::pos::Encoding;
use yabumi::lsp::query::{definition_span, expr_at, QueryKind, Resolutions};
use yabumi::lsp::server::parsed_for_formatting;
use yabumi::module_resolve::build_program_skeleton;
use yabumi::module_resolve::flat_namespace::register_flat_namespace;
use yabumi::module_resolve::module_grammar::{check_module_toplevel_grammar, module_level_const};
use yabumi::module_resolve::siblings::{discover_sibling_modules, Listed};
use yabumi::parser::comment_attach::attach_comments;
use yabumi::parser::{parse_module, parse_module_with_offset, Parser};
use yabumi::sources::SourceMap;
use yabumi::types::Ty;

// --- a small lexer, so that tests can be written as source texts ---

struct Lexing {
    chars: Vec<char>,
    at: usize,
    line: u32,
    col: u32,
    file: FileId,
    open: usize,
    tokens: Vec<Token>,
    comments: Vec<RawComment>,
    indents: Vec<usize>,
}

impl Lexing {
    fn here(&self) -> Position {
        Position { line: self.line, col: self.col }
    }

    fn peek(&self, ahead: usize) -> char {
        self.chars.get(self.at + ahead).copied().unwrap_or('\0')
    }

    fn step(&mut self) -> char {
        let c = self.peek(0);
        self.at += 1;
        if c == '\n' {
            self.line += 1;
            self.col = 1;
        } else {
            self.col += 1;
        }
        c
    }

    fn push(&mut self, kind: TokenKind, start: Position) {
        let span = Span { file: self.file, start, end: self.here() };
        self.tokens.push(Token { kind, span });
    }

    fn comment(&mut self, is_trailing: bool) {
        let start = self.here();
        self.step();
        let is_doc = self.peek(0) == '#';
        if is_doc {
            self.step();
        }
        let mut text = String::new();
        while self.at < self.chars.len() && self.peek(0) != '\n' {
            text.push(self.step());
        }
        let span = Span { file: self.file, start, end: self.here() };
        self.comments.push(RawComment { text, span, is_doc, is_trailing });
    }

    fn word(&mut self) -> TokenKind {
        let mut word = String::new();
        while self.peek(0).is_alphanumeric() || self.peek(0) == '_' {
            word.push(self.step());
        }
        match word.as_str() {
            "true" => TokenKind::True,
            "false" => TokenKind::False,
            "_" => TokenKind::Underscore,
            "or" => TokenKind::Or,
            "and" => TokenKind::And,
            "not" => TokenKind::Not,
            "if" => TokenKind::If,
            "else" => TokenKind::Else,
            "match" => TokenKind::Match,
            "par" => TokenKind::Par,
            "def" => TokenKind::Def,
            "struct" => TokenKind::Struct,
            "enum" => TokenKind::Enum,
            "var" => TokenKind::Var,
            "return" => TokenKind::Return,
            "self" => TokenKind::KwSelf,
            "void" => TokenKind::Void,
            "uses" => TokenKind::Uses,
            "module" => TokenKind::Module,
            _ => TokenKind::Ident(word),
        }
    }

    fn number(&mut self) -> TokenKind {
        let after_dot = matches!(self.tokens.last(), Some(Token { kind: TokenKind::Dot, .. }));
        let mut digits = String::new();
        while self.peek(0).is_ascii_digit() {
            digits.push(self.step());
        }
        if !after_dot && self.peek(0) == '.' && self.peek(1).is_ascii_digit() {
            digits.push(self.step());
            while self.peek(0).is_ascii_digit() {
                digits.push(self.step());
            }
            return TokenKind::FloatLiteral(digits);
        }
        match digits.parse::<i64>() {
            Ok(n) => TokenKind::IntLiteral(n),
            Err(_) => panic!("number too large: {digits}"),
        }
    }

    fn string(&mut self) -> String {
        self.step();
        let mut text = String::new();
        while self.peek(0) != '"' {
            let c = self.step();
            if c == '\\' {
                text.push(match self.step() {
                    'n' => '\n',
                    't' => '\t',
                    other => other,
                });
            } else {
                text.push(c);
            }
        }
        self.step();
        text
    }

    fn fstring(&mut self) -> TokenKind {
        self.step();
        self.step();
        let mut parts = Vec::new();
        let mut text = String::new();
        while self.peek(0) != '"' {
            if self.peek(0) == '{' {
                self.step();
                parts.push(FStringPart::Text(std::mem::take(&mut text)));
                let outer = std::mem::take(&mut self.tokens);
                while self.peek(0) != '}' {
                    self.token();
                }
                self.step();
                parts.push(FStringPart::Expr(std::mem::replace(&mut self.tokens, outer)));
            } else {
                text.push(self.step());
            }
        }
        self.step();
        parts.push(FStringPart::Text(text));
        TokenKind::FString(parts)
    }

    fn token(&mut self) {
        let start = self.here();
        let c = self.peek(0);
        if c == ' ' || (c == '\n' && self.open > 0) {
            self.step();
            return;
        }
        if c == '#' {
            let trailing = self.tokens.last().is_some_and(|t| t.span.end.line == self.line);
            self.comment(trailing);
            return;
        }
        if c == 'f' && self.peek(1) == '"' {
            let kind = self.fstring();
            self.push(kind, start);
            return;
        }
        if c.is_alphabetic() || c == '_' {
            let kind = self.word();
            self.push(kind, start);
            return;
        }
        if c.is_ascii_digit() {
            let kind = self.number();
            self.push(kind, start);
            return;
        }
        if c == '"' {
            let text = self.string();
            self.push(TokenKind::StringLiteral(text), start);
            return;
        }
        let two = match (c, self.peek(1)) {
            ('|', '>') => Some(TokenKind::PipeOp),
            ('=', '=') => Some(TokenKind::EqEq),
            ('!', '=') => Some(TokenKind::NotEq),
            ('<', '=') => Some(TokenKind::LtEq),
            ('>', '=') => Some(TokenKind::GtEq),
            ('-', '>') => Some(TokenKind::Arrow),
            ('=', '>') => Some(TokenKind::FatArrow),
            _ => None,
        };
        if let Some(kind) = two {
            self.step();
            self.step();
            self.push(kind, start);
            return;
        }
        self.step();
        let kind = match c {
            '(' => TokenKind::LParen,
            ')' => TokenKind::RParen,
            '[' => TokenKind::LBracket,
            ']' => TokenKind::RBracket,
            '{' => TokenKind::LBrace,
            '}' => TokenKind::RBrace,
            ',' => TokenKind::Comma,
            ':' => TokenKind::Colon,
            '.' => TokenKind::Dot,
            '?' => TokenKind::Question,
            '<' => TokenKind::Lt,
            '>' => TokenKind::Gt,
            '+' => TokenKind::Plus,
            '-' => TokenKind::Minus,
            '*' => TokenKind::Star,
            '/' => TokenKind::Slash,
            '%' => TokenKind::Percent,
            '=' => TokenKind::Eq,
            other => panic!("unexpected character {other:?}"),
        };
        match c {
            '(' | '[' | '{' => self.open += 1,
            ')' | ']' | '}' => self.open -= 1,
            _ => {}
        }
        self.push(kind, start);
    }

    /// The indentation of a line that holds code; comment lines and blank lines have none.
    fn line_start(&mut self) -> bool {
        let mut width = 0;
        while self.peek(width) == ' ' {
            width += 1;
        }
        match self.peek(width) {
            '\n' | '\0' | '#' => return false,
            _ => {}
        }
        for _ in 0..width {
            self.step();
        }
        let start = self.here();
        if width > *self.indents.last().unwrap_or(&0) {
            self.indents.push(width);
            self.push(TokenKind::Indent, start);
        }
        while width < *self.indents.last().unwrap_or(&0) {
            self.indents.pop();
            self.push(TokenKind::Dedent, start);
        }
        true
    }
}

fn lex(src: &str, file: FileId) -> (Vec<Token>, Vec<RawComment>) {
    let mut l = Lexing {
        chars: src.chars().collect(),
        at: 0,
        line: 1,
        col: 1,
        file,
        open: 0,
        tokens: Vec::new(),
        comments: Vec::new(),
        indents: vec![0],
    };
    let mut fresh = true;
    while l.at < l.chars.len() {
        if fresh {
            if l.line_start() {
                fresh = false;
                continue;
            }
            while l.peek(0) == ' ' {
                l.step();
            }
            if l.peek(0) == '#' {
                l.comment(false);
            }
            l.step();
            continue;
        }
        if l.peek(0) == '\n' && l.open == 0 {
            let start = l.here();
            l.push(TokenKind::Newline, start);
            l.step();
            fresh = true;
        } else {
            l.token();
        }
    }
    let end = l.here();
    while l.indents.len() > 1 {
        l.indents.pop();
        l.push(TokenKind::Dedent, end);
    }
    l.push(TokenKind::Eof, end);
    (l.tokens, l.comments)
}

fn lex_and_parse(src: &str) -> (Module, Vec<Diagnostic>) {
    let file = FileId(0);
    let (tokens, _comments) = lex(src, file);
    let (module, diagnostics) = parse_module(&tokens, file);
    (module, diagnostics.into_vec())
}

fn parse_clean(src: &str) -> Module {
    let (module, diags) = lex_and_parse(src);
    assert!(diags.is_empty(), "parse diagnostics: {diags:?}");
    module
}

fn has_code(diags: &[Diagnostic], code: ErrorCode) -> bool {
    diags.iter().any(|d| d.code == code)
}


// --- expressions ---

fn parse_one_expr(src: &str) -> Expr {
    let file = FileId(0);
    let (tokens, _comments) = lex(src, file);
    let mut parser = Parser::new(&tokens, file);
    let expr = parser.parse_expr();
    assert!(parser.diagnostics().is_empty(), "a parsing error occurred: {src:?}");
    assert!(
        matches!(parser.peek_kind(), Some(TokenKind::Newline | TokenKind::Eof)),
        "extra tokens remain after the expression (not fully consumed at the expected precedence): {src:?}"
    );
    expr
}

fn parse_diagnostics(src: &str) -> Vec<Diagnostic> {
    lex_and_parse(src).1
}

fn op_name(op: BinaryOp) -> &'static str {
    match op {
        BinaryOp::Add => "+",
        BinaryOp::Sub => "-",
        BinaryOp::Mul => "*",
        BinaryOp::Div => "/",
        BinaryOp::Mod => "%",
        BinaryOp::Lt => "<",
        BinaryOp::LtEq => "<=",
        BinaryOp::Gt => ">",
        BinaryOp::GtEq => ">=",
        BinaryOp::EqEq => "==",
        BinaryOp::NotEq => "!=",
        BinaryOp::And => "and",
        BinaryOp::Or => "or",
    }
}

fn as_binary(e: &Expr) -> (&'static str, &Expr, &Expr) {
    match &e.kind {
        ExprKind::Binary { op, lhs, rhs } => (op_name(*op), lhs, rhs),
        _ => panic!("expected a Binary expression"),
    }
}

fn as_unary(e: &Expr) -> (&'static str, &Expr) {
    match &e.kind {
        ExprKind::Unary { op, operand } => {
            let name = match op {
                UnaryOp::Neg => "-",
                UnaryOp::Not => "not",
            };
            (name, operand)
        }
        _ => panic!("expected a Unary expression"),
    }
}

fn is_int(e: &Expr, expected: i64) -> bool {
    matches!(e.kind, ExprKind::IntLit(n) if n == expected)
}

fn is_ident(e: &Expr, expected: &str) -> bool {
    matches!(&e.kind, ExprKind::Ident(n) if n == expected)
}

fn as_field_access(e: &Expr) -> (&Expr, &str) {
    match &e.kind {
        ExprKind::FieldAccess { target, field } => (target, field),
        _ => panic!("expected a FieldAccess expression"),
    }
}

fn as_index(e: &Expr) -> (&Expr, &Expr) {
    match &e.kind {
        ExprKind::Index { target, index } => (target, index),
        _ => panic!("expected an Index expression"),
    }
}

fn as_question(e: &Expr) -> &Expr {
    match &e.kind {
        ExprKind::Question { target } => target,
        _ => panic!("expected a Question expression"),
    }
}

fn as_call(e: &Expr) -> (&Expr, usize) {
    match &e.kind {
        ExprKind::Call { callee, args, .. } => (callee, args.len()),
        _ => panic!("expected a Call expression"),
    }
}

fn as_pipe(e: &Expr) -> (&Expr, &[PipeStage]) {
    match &e.kind {
        ExprKind::Pipe(p) => (&p.source, p.stages.as_slice()),
        _ => panic!("expected a Pipe expression"),
    }
}

fn pipe_stage_bare_name(stage: &PipeStage) -> &str {
    match &stage.callee {
        PipeCallee::Bare(e) => match &e.kind {
            ExprKind::Ident(n) => n,
            _ => panic!("expected a bare-name pipe destination"),
        },
        PipeCallee::WithArgs { .. } => panic!("expected Bare but got WithArgs"),
    }
}

#[test]
fn row1_postfix_field_after_call_left_to_right() {
    let e = parse_one_expr("f(x).y\n");
    let (target, field) = as_field_access(&e);
    assert_eq!(field, "y");
    let (_callee, argc) = as_call(target);
    assert_eq!(argc, 1);
}

#[test]
fn row1_postfix_index_left_to_right() {
    let e = parse_one_expr("a[0][1]\n");
    let (target, index) = as_index(&e);
    assert!(is_int(index, 1));
    let (inner_target, inner_index) = as_index(target);
    assert!(is_ident(inner_target, "a"));
    assert!(is_int(inner_index, 0));
}

#[test]
fn d_op_02_postfix_question_then_dot() {
    let e = parse_one_expr("f(x)?.y\n");
    let (target, field) = as_field_access(&e);
    assert_eq!(field, "y");
    let questioned = as_question(target);
    let (_callee, argc) = as_call(questioned);
    assert_eq!(argc, 1);
}

#[test]
fn row2_unary_neg_binds_tighter_than_postfix_operand_is_evaluated_first() {
    let e = parse_one_expr("-a[0]\n");
    let (op, operand) = as_unary(&e);
    assert_eq!(op, "-");
    let (target, index) = as_index(operand);
    assert!(is_ident(target, "a"));
    assert!(is_int(index, 0));
}

#[test]
fn row2_unary_neg_binds_tighter_than_row3_mul() {
    let e = parse_one_expr("-a * b\n");
    let (op, lhs, rhs) = as_binary(&e);
    assert_eq!(op, "*");
    assert!(is_ident(rhs, "b"));
    let (uop, uoperand) = as_unary(lhs);
    assert_eq!(uop, "-");
    assert!(is_ident(uoperand, "a"));
}

#[test]
fn row2_unary_not_binds_tighter_than_row5_comparison_risk_high_case() {
    let e = parse_one_expr("not 1 > 2\n");
    let (op, lhs, rhs) = as_binary(&e);
    assert_eq!(op, ">");
    assert!(is_int(rhs, 2));
    let (uop, uoperand) = as_unary(lhs);
    assert_eq!(uop, "not");
    assert!(is_int(uoperand, 1));
}

#[test]
fn row2_unary_right_recursion_double_negation() {
    let e = parse_one_expr("- -a\n");
    let (op1, inner1) = as_unary(&e);
    assert_eq!(op1, "-");
    let (op2, inner2) = as_unary(inner1);
    assert_eq!(op2, "-");
    assert!(is_ident(inner2, "a"));
}

#[test]
fn row3_mul_binds_tighter_than_row4_add_left_operand() {
    let e = parse_one_expr("1 + 2 * 3\n");
    let (op, lhs, rhs) = as_binary(&e);
    assert_eq!(op, "+");
    assert!(is_int(lhs, 1));
    let (inner_op, inner_lhs, inner_rhs) = as_binary(rhs);
    assert_eq!(inner_op, "*");
    assert!(is_int(inner_lhs, 2));
    assert!(is_int(inner_rhs, 3));
}

#[test]
fn row3_mul_binds_tighter_than_row4_add_right_operand() {
    let e = parse_one_expr("1 * 2 + 3\n");
    let (op, lhs, rhs) = as_binary(&e);
    assert_eq!(op, "+");
    assert!(is_int(rhs, 3));
    let (inner_op, inner_lhs, inner_rhs) = as_binary(lhs);
    assert_eq!(inner_op, "*");
    assert!(is_int(inner_lhs, 1));
    assert!(is_int(inner_rhs, 2));
}

#[test]
fn row3_div_is_left_associative() {
    let e = parse_one_expr("10 / 2 / 5\n");
    let (op, lhs, rhs) = as_binary(&e);
    assert_eq!(op, "/");
    assert!(is_int(rhs, 5));
    let (inner_op, inner_lhs, inner_rhs) = as_binary(lhs);
    assert_eq!(inner_op, "/");
    assert!(is_int(inner_lhs, 10));
    assert!(is_int(inner_rhs, 2));
}

#[test]
fn row4_sub_is_left_associative() {
    let e = parse_one_expr("1 - 2 - 3\n");
    let (op, lhs, rhs) = as_binary(&e);
    assert_eq!(op, "-");
    assert!(is_int(rhs, 3));
    let (inner_op, inner_lhs, inner_rhs) = as_binary(lhs);
    assert_eq!(inner_op, "-");
    assert!(is_int(inner_lhs, 1));
    assert!(is_int(inner_rhs, 2));
}

#[test]
fn row4_add_binds_tighter_than_row5_comparison() {
    let e = parse_one_expr("1 + 2 < 4\n");
    let (op, lhs, rhs) = as_binary(&e);
    assert_eq!(op, "<");
    assert!(is_int(rhs, 4));
    let (inner_op, inner_lhs, inner_rhs) = as_binary(lhs);
    assert_eq!(inner_op, "+");
    assert!(is_int(inner_lhs, 1));
    assert!(is_int(inner_rhs, 2));
}

#[test]
fn row5_chained_comparison_is_rejected() {
    let diags = parse_diagnostics("x = a < b < c\n");
    assert!(
        diags.iter().any(|d| d.code == ErrorCode::UnexpectedToken),
        "a chained comparison should produce E0502: {diags:?}"
    );
}

#[test]
fn row5_comparison_binds_tighter_than_row6_equality() {
    let e = parse_one_expr("1 < 2 == true\n");
    let (op, lhs, _rhs) = as_binary(&e);
    assert_eq!(op, "==");
    let (inner_op, inner_lhs, inner_rhs) = as_binary(lhs);
    assert_eq!(inner_op, "<");
    assert!(is_int(inner_lhs, 1));
    assert!(is_int(inner_rhs, 2));
}

#[test]
fn row6_equality_is_left_associative_chain_allowed() {
    let e = parse_one_expr("a == b != c\n");
    let (op, lhs, rhs) = as_binary(&e);
    assert_eq!(op, "!=");
    assert!(is_ident(rhs, "c"));
    let (inner_op, inner_lhs, inner_rhs) = as_binary(lhs);
    assert_eq!(inner_op, "==");
    assert!(is_ident(inner_lhs, "a"));
    assert!(is_ident(inner_rhs, "b"));
}

#[test]
fn row6_equality_binds_tighter_than_row7_and() {
    let e = parse_one_expr("1 == 1 and 2 == 2\n");
    let (op, lhs, rhs) = as_binary(&e);
    assert_eq!(op, "and");
    let (lop, _, _) = as_binary(lhs);
    assert_eq!(lop, "==");
    let (rop, _, _) = as_binary(rhs);
    assert_eq!(rop, "==");
}

#[test]
fn row7_and_is_left_associative() {
    let e = parse_one_expr("a and b and c\n");
    let (op, lhs, rhs) = as_binary(&e);
    assert_eq!(op, "and");
    assert!(is_ident(rhs, "c"));
    let (inner_op, inner_lhs, inner_rhs) = as_binary(lhs);
    assert_eq!(inner_op, "and");
    assert!(is_ident(inner_lhs, "a"));
    assert!(is_ident(inner_rhs, "b"));
}

#[test]
fn row7_and_binds_tighter_than_row8_or() {
    let e = parse_one_expr("a and b or c\n");
    let (op, lhs, rhs) = as_binary(&e);
    assert_eq!(op, "or");
    assert!(is_ident(rhs, "c"));
    let (inner_op, inner_lhs, inner_rhs) = as_binary(lhs);
    assert_eq!(inner_op, "and");
    assert!(is_ident(inner_lhs, "a"));
    assert!(is_ident(inner_rhs, "b"));
}

#[test]
fn row8_or_is_left_associative() {
    let e = parse_one_expr("a or b or c\n");
    let (op, lhs, rhs) = as_binary(&e);
    assert_eq!(op, "or");
    assert!(is_ident(rhs, "c"));
    let (inner_op, inner_lhs, inner_rhs) = as_binary(lhs);
    assert_eq!(inner_op, "or");
    assert!(is_ident(inner_lhs, "a"));
    assert!(is_ident(inner_rhs, "b"));
}

#[test]
fn row8_or_binds_tighter_than_row9_pipe() {
    let e = parse_one_expr("a or b |> f\n");
    let (source, stages) = as_pipe(&e);
    assert_eq!(stages.len(), 1);
    assert_eq!(pipe_stage_bare_name(&stages[0]), "f");
    let (op, lhs, rhs) = as_binary(source);
    assert_eq!(op, "or");
    assert!(is_ident(lhs, "a"));
    assert!(is_ident(rhs, "b"));
}

#[test]
fn row9_pipe_add_binds_before_pipe_spec_15_example() {
    let e = parse_one_expr("2 + 3 |> triple\n");
    let (source, stages) = as_pipe(&e);
    assert_eq!(stages.len(), 1);
    assert_eq!(pipe_stage_bare_name(&stages[0]), "triple");
    let (op, lhs, rhs) = as_binary(source);
    assert_eq!(op, "+");
    assert!(is_int(lhs, 2));
    assert!(is_int(rhs, 3));
}

#[test]
fn row9_pipe_is_left_associative_single_node_multi_stage() {
    let e = parse_one_expr("x |> f |> g\n");
    let (source, stages) = as_pipe(&e);
    assert!(is_ident(source, "x"));
    assert_eq!(stages.len(), 2);
    assert_eq!(pipe_stage_bare_name(&stages[0]), "f");
    assert_eq!(pipe_stage_bare_name(&stages[1]), "g");
}

#[test]
fn pipe_stage_postfix_question_is_a_stage_flag_not_a_question_expr() {
    let e = parse_one_expr("x |> f?\n");
    let (_source, stages) = as_pipe(&e);
    assert_eq!(stages.len(), 1);
    assert!(stages[0].question);
    assert_eq!(pipe_stage_bare_name(&stages[0]), "f");
}


// --- patterns ---

fn parse_pattern_diagnostics(src: &str) -> (Pattern, Vec<Diagnostic>) {
    let file = FileId(0);
    let (tokens, _comments) = lex(src, file);
    let mut parser = Parser::new(&tokens, file);
    let pattern = parser.parse_pattern();
    (pattern, parser.diagnostics().clone().into_vec())
}

fn parse_one_pattern(src: &str) -> Pattern {
    let (pattern, diags) = parse_pattern_diagnostics(src);
    assert!(diags.is_empty(), "a parse error occurred (unexpected): {src:?}");
    pattern
}

fn as_literal(p: &Pattern) -> &LiteralPat {
    match p {
        Pattern::Literal(lit, _) => lit,
        _ => panic!("expected a Literal pattern"),
    }
}

fn as_variant(p: &Pattern) -> (&str, &[SubPattern]) {
    match p {
        Pattern::Variant { name, fields, .. } => (name, fields.as_slice()),
        _ => panic!("expected a Variant pattern"),
    }
}

fn as_tuple_pattern(p: &Pattern) -> &[SubPattern] {
    match p {
        Pattern::Tuple { elements, .. } => elements.as_slice(),
        _ => panic!("expected a Tuple pattern"),
    }
}

fn sub_bare_ident_name(p: &SubPattern) -> &str {
    match p {
        SubPattern::BareIdent(name, ..) => name,
        _ => panic!("expected SubPattern::BareIdent"),
    }
}

#[test]
fn literal_int_pattern_parses_as_literal_int() {
    let p = parse_one_pattern("42\n");
    assert!(matches!(as_literal(&p), LiteralPat::Int(42)));
}

#[test]
fn negative_int_literal_pattern_folds_minus_into_the_literal() {
    let p = parse_one_pattern("-5\n");
    assert!(matches!(as_literal(&p), LiteralPat::Int(-5)));
}

#[test]
fn negative_float_literal_pattern_folds_minus_into_the_literal() {
    let p = parse_one_pattern("-1.5\n");
    match as_literal(&p) {
        LiteralPat::Float(f) => {
            assert!(f.parse::<f64>().is_ok_and(|x| (x - (-1.5)).abs() < f64::EPSILON));
        }
        _ => panic!("expected Float(-1.5)"),
    }
}

#[test]
fn str_and_bool_literal_patterns_parse_correctly() {
    let p = parse_one_pattern("\"go\"\n");
    match as_literal(&p) {
        LiteralPat::Str(s) => assert_eq!(s, "go"),
        _ => panic!("expected Str(\"go\")"),
    }
    let p = parse_one_pattern("true\n");
    assert!(matches!(as_literal(&p), LiteralPat::Bool(true)));
}

#[test]
fn wildcard_pattern_parses_as_wildcard() {
    let p = parse_one_pattern("_\n");
    assert!(matches!(p, Pattern::Wildcard(_)));
}

#[test]
fn bare_ident_pattern_defers_unit_variant_vs_binding_decision() {
    let p = parse_one_pattern("Red\n");
    assert!(matches!(p, Pattern::BareIdent(name, ..) if name == "Red"));
    let p = parse_one_pattern("x\n");
    assert!(matches!(p, Pattern::BareIdent(name, ..) if name == "x"));
}

#[test]
fn variant_pattern_captures_positional_sub_patterns_in_order() {
    let p = parse_one_pattern("Rect(w, h)\n");
    let (name, fields) = as_variant(&p);
    assert_eq!(name, "Rect");
    assert_eq!(fields.len(), 2);
    assert_eq!(sub_bare_ident_name(&fields[0]), "w");
    assert_eq!(sub_bare_ident_name(&fields[1]), "h");
}

#[test]
fn single_field_variant_pattern_captures_one_sub_pattern() {
    let p = parse_one_pattern("Circle(r)\n");
    let (name, fields) = as_variant(&p);
    assert_eq!(name, "Circle");
    assert_eq!(fields.len(), 1);
    assert_eq!(sub_bare_ident_name(&fields[0]), "r");
}

#[test]
fn tuple_pattern_captures_elements_in_order() {
    let p = parse_one_pattern("(a, b)\n");
    let elements = as_tuple_pattern(&p);
    assert_eq!(elements.len(), 2);
    assert_eq!(sub_bare_ident_name(&elements[0]), "a");
    assert_eq!(sub_bare_ident_name(&elements[1]), "b");
}

#[test]
fn variant_pattern_sub_fields_accept_literal_and_wildcard() {
    let p = parse_one_pattern("Pair(1, _)\n");
    let (name, fields) = as_variant(&p);
    assert_eq!(name, "Pair");
    assert_eq!(fields.len(), 2);
    assert!(matches!(
        &fields[0],
        SubPattern::Literal(LiteralPat::Int(1), _)
    ));
    assert!(matches!(&fields[1], SubPattern::Wildcard(_)));
}

#[test]
fn nested_variant_pattern_inside_variant_is_rejected() {
    let (p, diags) = parse_pattern_diagnostics("Some(Circle(r))\n");
    assert!(
        diags.iter().any(|d| d.code == ErrorCode::UnexpectedToken),
        "nesting enum/tuple patterns should produce E0502: {diags:?}"
    );
    let (name, fields) = as_variant(&p);
    assert_eq!(name, "Some");
    assert_eq!(fields.len(), 1);
}

#[test]
fn nested_tuple_pattern_inside_tuple_is_rejected() {
    let (_p, diags) = parse_pattern_diagnostics("((a, b), c)\n");
    assert!(
        diags.iter().any(|d| d.code == ErrorCode::UnexpectedToken),
        "nesting a tuple pattern inside a tuple destructure should produce E0502: {diags:?}"
    );
}


// --- type annotations ---

fn parse_one_type_ann(src: &str) -> TypeAnn {
    let file = FileId(0);
    let (tokens, _comments) = lex(src, file);
    let mut parser = Parser::new(&tokens, file);
    let ty = parser.parse_type_ann();
    assert!(
        parser.diagnostics().is_empty(),
        "a type annotation parse error occurred: {src:?}, diags={:?}",
        parser.diagnostics()
    );
    assert!(
        matches!(parser.peek_kind(), Some(TokenKind::Newline | TokenKind::Eof)),
        "leftover tokens remain after the type annotation: {src:?}"
    );
    ty
}

fn as_named(ty: &TypeAnn) -> (&str, &[TypeAnn]) {
    match &ty.kind {
        TypeAnnKind::Named { name, args } => (name, args.as_slice()),
        other => panic!("expected a Named type annotation but got something else: {other:?}"),
    }
}

fn as_tuple_type(ty: &TypeAnn) -> &[TypeAnn] {
    match &ty.kind {
        TypeAnnKind::Tuple(elems) => elems.as_slice(),
        other => panic!("expected a Tuple type annotation but got something else: {other:?}"),
    }
}

fn as_function(ty: &TypeAnn) -> (&[TypeAnn], &[String], &TypeAnn) {
    match &ty.kind {
        TypeAnnKind::Function {
            params,
            effects,
            ret,
        } => (params.as_slice(), effects.as_slice(), ret.as_ref()),
        other => {
            panic!("expected a Function type annotation but got something else: {other:?}")
        }
    }
}

#[test]
fn void_type_ann_parses_as_void_kind() {
    let ty = parse_one_type_ann("void\n");
    assert!(matches!(ty.kind, TypeAnnKind::Void));
}

#[test]
fn bare_primitive_named_type_ann_has_no_args() {
    let ty = parse_one_type_ann("int\n");
    let (name, args) = as_named(&ty);
    assert_eq!(name, "int");
    assert!(args.is_empty());
}

#[test]
fn generic_list_type_ann_carries_one_type_arg() {
    let ty = parse_one_type_ann("list[int]\n");
    let (name, args) = as_named(&ty);
    assert_eq!(name, "list");
    assert_eq!(args.len(), 1);
    let (inner_name, inner_args) = as_named(&args[0]);
    assert_eq!(inner_name, "int");
    assert!(inner_args.is_empty());
}

#[test]
fn dict_type_ann_carries_key_and_value_type_args_in_order() {
    let ty = parse_one_type_ann("dict[str, int]\n");
    let (name, args) = as_named(&ty);
    assert_eq!(name, "dict");
    assert_eq!(args.len(), 2);
    assert_eq!(as_named(&args[0]).0, "str");
    assert_eq!(as_named(&args[1]).0, "int");
}

#[test]
fn nested_list_of_list_type_ann_from_sample_nests_two_named_levels() {
    let ty = parse_one_type_ann("list[list[int]]\n");
    let (outer_name, outer_args) = as_named(&ty);
    assert_eq!(outer_name, "list");
    assert_eq!(outer_args.len(), 1);
    let (mid_name, mid_args) = as_named(&outer_args[0]);
    assert_eq!(mid_name, "list");
    assert_eq!(mid_args.len(), 1);
    assert_eq!(as_named(&mid_args[0]).0, "int");
}

#[test]
fn tuple_type_ann_uses_dedicated_tuple_kind_not_named() {
    let ty = parse_one_type_ann("tuple[int, str]\n");
    let elems = as_tuple_type(&ty);
    assert_eq!(elems.len(), 2);
    assert_eq!(as_named(&elems[0]).0, "int");
    assert_eq!(as_named(&elems[1]).0, "str");
}

#[test]
fn zero_param_function_type_ann_from_sample_has_empty_params() {
    let ty = parse_one_type_ann("() -> T\n");
    let (params, effects, ret) = as_function(&ty);
    assert!(params.is_empty());
    assert!(effects.is_empty());
    assert_eq!(as_named(ret).0, "T");
}

#[test]
fn function_type_ann_with_multiple_effects_preserves_order() {
    let ty = parse_one_type_ann("(str) -> Result[int, Error] uses {net, fs}\n");
    let (params, effects, ret) = as_function(&ty);
    assert_eq!(params.len(), 1);
    assert_eq!(as_named(&params[0]).0, "str");
    assert_eq!(
        effects.iter().map(String::as_str).collect::<Vec<_>>(),
        vec!["net", "fs"]
    );
    let (ret_name, ret_args) = as_named(ret);
    assert_eq!(ret_name, "Result");
    assert_eq!(ret_args.len(), 2);
    assert_eq!(as_named(&ret_args[0]).0, "int");
    assert_eq!(as_named(&ret_args[1]).0, "Error");
}


// --- declarations ---

fn parse_one_function_decl(src: &str) -> FunctionDecl {
    let file = FileId(0);
    let (tokens, _comments) = lex(src, file);
    let mut parser = Parser::new(&tokens, file);
    let decl = parser.parse_function_decl();
    assert!(
        parser.diagnostics().is_empty(),
        "a syntax error occurred (unexpected): {src:?}"
    );
    decl
}

fn parse_one_struct_decl(src: &str) -> StructDecl {
    let file = FileId(0);
    let (tokens, _comments) = lex(src, file);
    let mut parser = Parser::new(&tokens, file);
    let decl = parser.parse_struct_decl();
    assert!(
        parser.diagnostics().is_empty(),
        "a syntax error occurred (unexpected): {src:?}"
    );
    decl
}

fn parse_one_enum_decl(src: &str) -> EnumDecl {
    let file = FileId(0);
    let (tokens, _comments) = lex(src, file);
    let mut parser = Parser::new(&tokens, file);
    let decl = parser.parse_enum_decl();
    assert!(
        parser.diagnostics().is_empty(),
        "a syntax error occurred (unexpected): {src:?}"
    );
    decl
}

fn function_decl_diagnostics(src: &str) -> Vec<Diagnostic> {
    let file = FileId(0);
    let (tokens, _comments) = lex(src, file);
    let mut parser = Parser::new(&tokens, file);
    let _decl = parser.parse_function_decl();
    parser.diagnostics().clone().into_vec()
}

fn named_type(ty: &TypeAnn) -> &str {
    match &ty.kind {
        TypeAnnKind::Named { name, .. } => name,
        _ => panic!("expected a Named type annotation"),
    }
}

#[test]
fn function_decl_captures_name_generics_params_and_return_type() {
    let f = parse_one_function_decl("def add[T](x: T, y: T): T\n    return x\n");
    assert_eq!(f.name, "add");
    assert_eq!(
        f.generics.iter().map(String::as_str).collect::<Vec<_>>(),
        vec!["T"]
    );
    assert!(f.self_param.is_none());
    assert_eq!(f.params.len(), 2);
    assert_eq!(f.params[0].name, "x");
    assert_eq!(f.params[1].name, "y");
    assert_eq!(named_type(&f.ret), "T");
    assert!(f.effects.is_empty());
}

#[test]
fn function_decl_detects_immutable_self_param() {
    let f = parse_one_function_decl("def get(self): int\n    return self.value\n");
    let sp = f
        .self_param
        .as_ref()
        .unwrap_or_else(|| panic!("self_param is None"));
    assert!(!sp.mutable);
    assert!(f.params.is_empty());
}

#[test]
fn function_decl_detects_mutable_var_self_param() {
    let f = parse_one_function_decl("def bump(var self): void\n    self.n = self.n + 1\n");
    let sp = f
        .self_param
        .as_ref()
        .unwrap_or_else(|| panic!("self_param is None"));
    assert!(sp.mutable);
}

#[test]
fn function_decl_self_param_followed_by_regular_params() {
    let f = parse_one_function_decl("def add(self, n: int): int\n    return self.value + n\n");
    assert!(f.self_param.is_some());
    assert_eq!(f.params.len(), 1);
    assert_eq!(f.params[0].name, "n");
}

#[test]
fn function_decl_uses_clause_captures_effect_names_in_order() {
    let f =
        parse_one_function_decl("def fetch(url: str): str uses {net, fs}\n    return url\n");
    assert_eq!(
        f.effects.iter().map(String::as_str).collect::<Vec<_>>(),
        vec!["net", "fs"]
    );
}

#[test]
fn function_decl_default_argument_syntax_is_rejected_as_syntax_error() {
    let diags = function_decl_diagnostics("def f(x: int = 0): int\n    return x\n");
    assert!(
        diags.iter().any(|d| d.code == ErrorCode::UnexpectedToken),
        "default argument syntax should become E0502: {diags:?}"
    );
}

#[test]
fn function_decl_varargs_syntax_is_rejected_as_syntax_error() {
    let diags = function_decl_diagnostics("def f(*args): int\n    return 1\n");
    assert!(
        diags.iter().any(|d| d.code == ErrorCode::UnexpectedToken),
        "variadic argument syntax should become E0502: {diags:?}"
    );
}

#[test]
fn struct_decl_captures_fields_and_methods() {
    let s = parse_one_struct_decl(
        "struct Counter\n    value: int\n\n    def get(self): int\n        return self.value\n",
    );
    assert_eq!(s.name, "Counter");
    assert_eq!(s.fields.len(), 1);
    assert_eq!(s.fields[0].name, "value");
    assert_eq!(named_type(&s.fields[0].ty), "int");
    assert_eq!(s.methods.len(), 1);
    assert_eq!(s.methods[0].name, "get");
    assert!(s.methods[0].self_param.is_some());
}

#[test]
fn struct_decl_generics_are_captured_as_bare_names() {
    let s = parse_one_struct_decl("struct Pair[A, B]\n    first: A\n    second: B\n");
    assert_eq!(
        s.generics.iter().map(String::as_str).collect::<Vec<_>>(),
        vec!["A", "B"]
    );
    assert_eq!(s.fields.len(), 2);
}

#[test]
fn enum_decl_unit_variants_have_no_fields() {
    let e = parse_one_enum_decl("enum Color\n    Red\n    Green\n    Blue\n");
    assert_eq!(e.name, "Color");
    assert_eq!(e.variants.len(), 3);
    for variant in &e.variants {
        assert!(variant.fields.is_empty());
    }
    assert_eq!(e.variants[0].name, "Red");
    assert_eq!(e.variants[2].name, "Blue");
}

#[test]
fn enum_decl_variant_field_names_are_discarded_only_types_kept() {
    let e = parse_one_enum_decl(
        "enum Shape\n    Circle(radius: float)\n    Rect(w: float, h: float)\n",
    );
    assert_eq!(e.variants.len(), 2);
    assert_eq!(e.variants[0].name, "Circle");
    assert_eq!(e.variants[0].fields.len(), 1);
    assert_eq!(named_type(&e.variants[0].fields[0]), "float");
    assert_eq!(e.variants[1].name, "Rect");
    assert_eq!(e.variants[1].fields.len(), 2);
}

#[test]
fn enum_decl_variant_field_names_are_captured_alongside_types() {
    let e = parse_one_enum_decl(
        "enum Shape\n    Circle(radius: float)\n    Rect(w: float, h: float)\n    Origin(float)\n",
    );
    assert_eq!(
        e.variants[0]
            .field_names
            .iter()
            .map(|n| n.as_deref())
            .collect::<Vec<_>>(),
        vec![Some("radius")]
    );
    assert_eq!(
        e.variants[1]
            .field_names
            .iter()
            .map(|n| n.as_deref())
            .collect::<Vec<_>>(),
        vec![Some("w"), Some("h")]
    );
    assert_eq!(
        e.variants[2]
            .field_names
            .iter()
            .map(|n| n.as_deref())
            .collect::<Vec<_>>(),
        vec![None]
    );
}

#[test]
fn enum_decl_mixes_unit_and_fielded_variants() {
    let e = parse_one_enum_decl(
        "enum Shape\n    Circle(float)\n    Rect(float, float)\n    Point\n",
    );
    assert_eq!(e.variants.len(), 3);
    assert_eq!(e.variants[0].fields.len(), 1);
    assert_eq!(e.variants[1].fields.len(), 2);
    assert!(e.variants[2].fields.is_empty());
    assert_eq!(e.variants[2].name, "Point");
}


// --- comments ---

fn lex_parse_and_attach(src: &str) -> Module {
    let file = FileId(0);
    let (tokens, comments) = lex(src, file);
    let (mut module, parse_diag) = parse_module(&tokens, file);
    assert!(parse_diag.is_empty(), "parsing error: {src:?}");
    attach_comments(&mut module, comments);
    module
}

fn first_function(module: &Module) -> &FunctionDecl {
    match &module.items[0] {
        Item::Decl(Decl::Function(f)) => f,
        _ => panic!("expected the first Item to be Decl::Function"),
    }
}

#[test]
fn doc_comment_with_single_untagged_fence_attaches_to_function() {
    let src = "## Doubles n.\n##\n## ```\n## assert(f(2) == 4)\n## ```\ndef f(n: int): int\n    return n * 2\n";
    let module = lex_parse_and_attach(src);
    let f = first_function(&module);
    let Some(doc) = &f.doc_comment else {
        panic!("doc_comment was not attached");
    };
    assert_eq!(
        doc.prose_lines,
        vec!["Doubles n.".to_owned(), String::new()]
    );
    assert_eq!(doc.fences.len(), 1);
    assert_eq!(doc.fences[0].lang_tag, None);
    assert_eq!(doc.fences[0].raw_text, "assert(f(2) == 4)");
    assert_eq!(doc.fences[0].body_start_line, 4);
}

#[test]
fn doc_comment_language_tagged_fence_is_recorded_with_its_tag() {
    let src = "## Example output.\n##\n## ```json\n## {\"a\": 1}\n## ```\ndef f(): int\n    return 1\n";
    let module = lex_parse_and_attach(src);
    let f = first_function(&module);
    let Some(doc) = &f.doc_comment else {
        panic!("doc_comment was not attached");
    };
    assert_eq!(doc.fences.len(), 1);
    assert_eq!(doc.fences[0].lang_tag, Some("json".to_owned()));
    assert_eq!(doc.fences[0].raw_text, "{\"a\": 1}");
}

#[test]
fn doc_comment_multiple_fences_all_captured_in_order() {
    let src = &[
        "## Adds two ints.\n",
        "##\n",
        "## ```\n",
        "## assert(add(1, 2) == 3)\n",
        "## ```\n",
        "##\n",
        "## Example of the output format (not a test target since it's language-tagged).\n",
        "##\n",
        "## ```json\n",
        "## {\"a\": 1, \"b\": 2}\n",
        "## ```\n",
        "##\n",
        "## Also verify with a different addition pattern.\n",
        "##\n",
        "## ```\n",
        "## assert(add(10, 20) == 30)\n",
        "## ```\n",
        "def add(a: int, b: int): int\n",
        "    return a + b\n",
    ]
    .concat();
    let module = lex_parse_and_attach(src);
    let f = first_function(&module);
    let Some(doc) = &f.doc_comment else {
        panic!("doc_comment was not attached");
    };
    assert_eq!(doc.fences.len(), 3);
    assert_eq!(doc.fences[0].lang_tag, None);
    assert_eq!(doc.fences[0].raw_text, "assert(add(1, 2) == 3)");
    assert_eq!(doc.fences[1].lang_tag, Some("json".to_owned()));
    assert_eq!(doc.fences[2].lang_tag, None);
    assert_eq!(doc.fences[2].raw_text, "assert(add(10, 20) == 30)");
}

#[test]
fn generic_comments_attach_with_leading_space_stripped() {
    let src = "x = 1  # trailing note\n# leading note for y\ny = 2\n";
    let module = lex_parse_and_attach(src);
    let Item::Stmt(first) = &module.items[0] else {
        panic!("expected the first Item to be a statement");
    };
    assert_eq!(first.trailing_comment, Some("trailing note".to_owned()));
    let Item::Stmt(second) = &module.items[1] else {
        panic!("expected the second Item to be a statement");
    };
    assert_eq!(second.leading_comments.len(), 1);
    assert_eq!(second.leading_comments[0].text, "leading note for y");
    assert_eq!(second.leading_comments[0].line, 2);
}

#[test]
fn comment_inside_if_block_attaches_to_nested_statement() {
    let src = "y = if x > 0\n    # positive branch\n    1\nelse\n    2\n";
    let module = lex_parse_and_attach(src);
    let Item::Stmt(stmt) = &module.items[0] else {
        panic!("expected the first Item to be a statement");
    };
    let StmtKind::NameAssign { value, .. } = &stmt.kind else {
        panic!("expected NameAssign");
    };
    let ExprKind::If(if_expr) = &value.kind else {
        panic!("expected an If expression");
    };
    let inner = &if_expr.then_branch.stmts[0];
    assert_eq!(inner.leading_comments.len(), 1);
    assert_eq!(inner.leading_comments[0].text, "positive branch");
}

#[test]
fn struct_field_free_comment_does_not_panic_and_method_doc_still_attaches() {
    let src = &[
        "struct Counter\n",
        "    # This comment is not retained (known limitation)\n",
        "    value: int\n",
        "\n",
        "    ## Returns the value.\n",
        "    ##\n",
        "    ## ```\n",
        "    ## assert(true)\n",
        "    ## ```\n",
        "    def get(self): int\n",
        "        return self.value\n",
    ]
    .concat();
    let module = lex_parse_and_attach(src);
    let Item::Decl(Decl::Struct(s)) = &module.items[0] else {
        panic!("expected the first Item to be a struct");
    };
    assert_eq!(s.fields.len(), 1);
    let method = &s.methods[0];
    let Some(doc) = &method.doc_comment else {
        panic!("the method's doc_comment was not attached");
    };
    assert_eq!(doc.fences.len(), 1);
    assert_eq!(doc.fences[0].raw_text, "assert(true)");
}

#[test]
fn decl_level_leading_comment_is_no_longer_discarded() {
    let src = "# general comment\n## doc body\ndef f(): int\n    return 1\n";
    let module = lex_parse_and_attach(src);
    let f = first_function(&module);
    assert_eq!(f.leading_comments.len(), 1);
    assert_eq!(f.leading_comments[0].text, "general comment");
    assert!(f.doc_comment.is_some());
}

#[test]
fn decl_leading_comment_without_doc_comment_is_kept() {
    let src = "# note before struct\nstruct S\n    x: int\n";
    let module = lex_parse_and_attach(src);
    let Item::Decl(Decl::Struct(s)) = &module.items[0] else {
        panic!("expected the first Item to be a struct");
    };
    assert_eq!(s.leading_comments.len(), 1);
    assert_eq!(s.leading_comments[0].text, "note before struct");
}


// --- modules ---

#[test]
fn bare_module_directive_alone_is_well_formed() {
    let (module, diags) = lex_and_parse("module\n\ndef f(): int\n    return 1\n");
    assert!(diags.is_empty(), "{diags:?}");
    assert!(module.is_module_directive);
    assert_eq!(module.items.len(), 1);
}

#[test]
fn module_directive_with_trailing_content_is_e5001() {
    let (module, diags) = lex_and_parse("module foo\n");
    assert!(module.is_module_directive);
    assert!(
        diags
            .iter()
            .any(|d| d.code == ErrorCode::ModuleDirectiveMalformed),
        "`module foo` should report E5001: {diags:?}"
    );
}

#[test]
fn entry_file_without_module_directive_is_not_flagged() {
    let (module, diags) = lex_and_parse("x = 1 + 1\n");
    assert!(diags.is_empty(), "{diags:?}");
    assert!(!module.is_module_directive);
}

#[test]
fn par_literal_pipe_stage_bare_question_reports_e0502() {
    let src = "def f(s: str): Result[int, Error]\n    return s.parse_int()\n\nresults = par [\"1\" |> f?, f(\"2\")]\n";
    let (_module, diags) = lex_and_parse(src);
    assert!(
        diags.iter().any(|d| d.code == ErrorCode::UnexpectedToken),
        "a pipe stage's trailing `?` inside a `par[...]` branch should also become E0502: {diags:?}"
    );
}

#[test]
fn par_map_pipe_question_is_deferred_until_receiver_resolution() {
    let src = "def f(s: str): Result[int, Error]\n    return s.parse_int()\n\ninputs = [\"1\", \"2\"]\nresults = inputs.par_map((s) => s |> f?)\n";
    let (_module, diags) = lex_and_parse(src);
    assert!(
        !diags.iter().any(|d| d.code == ErrorCode::UnexpectedToken),
        "receiver resolution belongs to type checking: {diags:?}"
    );
}

#[test]
fn ordinary_pipe_stage_bare_question_outside_par_is_allowed() {
    let src =
        "def f(s: str): Result[int, Error]\n    return s.parse_int()\n\nresult = \"1\" |> f?\n";
    let (_module, diags) = lex_and_parse(src);
    assert!(
        !diags.iter().any(|d| d.code == ErrorCode::UnexpectedToken),
        "a pipe stage's trailing `?` outside of par/par_map/par_each is allowed: {diags:?}"
    );
}

#[test]
fn ordinary_map_lambda_bare_question_is_allowed() {
    let src = "def f(s: str): Result[int, Error]\n    return s.parse_int()\n\nresults = par [1, 2].map((x) => x)\nys = [\"1\"].map((s) => f(s)?)\n";
    let (_module, diags) = lex_and_parse(src);
    assert!(
        !diags.iter().any(|d| d.code == ErrorCode::UnexpectedToken),
        "a `?` inside a lambda passed to an ordinary .map is allowed: {diags:?}"
    );
}


// --- putting files together ---

#[test]
fn module_level_const_accepts_literal_and_collection_combinations() {
    let module = parse_clean(
        "module\n\n\
         a = 1\n\
         b = \"s\"\n\
         c = true\n\
         d = [1, 2, a]\n\
         e = {\"k\": a, \"j\": 2}\n\
         f = (1, 2,)\n\
         g = {1, 2, a}\n",
    );
    for item in &module.items {
        let Item::Stmt(stmt) = item else {
            panic!("expected something other than a declaration");
        };
        assert!(
            module_level_const(stmt).is_some(),
            "a combination of literals/collections/constant references should be allowed"
        );
    }
}

#[test]
fn module_level_const_rejects_function_call_rhs() {
    let module = parse_clean("module\n\nx = foo()\n");
    let Item::Stmt(stmt) = &module.items[0] else {
        panic!("expected Item::Stmt");
    };
    assert!(
        module_level_const(stmt).is_none(),
        "an expression that includes a function call is not allowed as a module-level constant"
    );
}

fn registered(sources: &[(&str, &str)]) -> (Program, Vec<Diagnostic>) {
    let mut map = SourceMap::new();
    let mut modules = Vec::new();
    for (path, src) in sources {
        let file = map.add((*path).to_owned(), (*src).to_owned());
        let (tokens, _comments) = lex(src, file);
        let (module, diags) = parse_module(&tokens, file);
        assert!(diags.is_empty(), "{:?}", diags.into_vec());
        modules.push(module);
    }
    let mut program = Program::new(map);
    let mut diagnostics = DiagnosticBag::new();
    register_flat_namespace(&modules, &mut program, &mut diagnostics);
    (program, diagnostics.into_vec())
}

fn skeleton(sources: &[(&str, &str)]) -> (Program, Vec<Diagnostic>) {
    let mut map = SourceMap::new();
    let mut modules = Vec::new();
    for (path, src) in sources {
        let file = map.add((*path).to_owned(), (*src).to_owned());
        let (tokens, _comments) = lex(src, file);
        let (module, diags) = parse_module(&tokens, file);
        assert!(diags.is_empty(), "{:?}", diags.into_vec());
        modules.push(module);
    }
    let mut diagnostics = DiagnosticBag::new();
    let program = build_program_skeleton(modules, map, &mut diagnostics);
    (program, diagnostics.into_vec())
}

#[test]
fn register_flat_namespace_resolves_const_to_const_reference_regardless_of_order() {
    let (program, diags) =
        registered(&[("mod_ref.ybm", "module\n\nderived = base\nbase = 7\n")]);
    assert!(diags.is_empty(), "{diags:?}");
    assert_eq!(program.consts.get("base"), Some(&Value::Int(7)));
    assert_eq!(program.consts.get("derived"), Some(&Value::Int(7)));
}

#[test]
fn duplicate_functions_across_files_are_reported_once() {
    let (_, diags) = registered(&[
        ("entry_main.ybm", "def format_greeting(): int\n    return 1\n"),
        ("mod_util.ybm", "module\n\ndef format_greeting(): int\n    return 2\n"),
    ]);
    assert_eq!(diags.len(), 1, "{diags:?}");
    assert_eq!(diags[0].code, ErrorCode::DuplicateName);
    assert!(diags[0].message.contains("format_greeting"), "{}", diags[0].message);
    assert!(diags[0].message.contains("also defined at"), "{}", diags[0].message);
}

#[test]
fn literal_module_constants_are_evaluated() {
    let (program, diags) = registered(&[(
        "mod_constants.ybm",
        "module\n\nmax_retries = 3\napp_name = \"yabumi-sample\"\nretry_delays_ms = [100, 200, 400]\n",
    )]);
    assert!(diags.is_empty(), "{diags:?}");
    assert_eq!(program.consts.get("max_retries"), Some(&Value::Int(3)));
    assert_eq!(program.consts.get("app_name"), Some(&Value::Str("yabumi-sample".to_owned())));
    assert_eq!(
        program.consts.get("retry_delays_ms"),
        Some(&Value::List(vec![Value::Int(100), Value::Int(200), Value::Int(400)]))
    );
}

#[test]
fn constants_have_the_same_values_in_any_order() {
    let lines = ["a = [b, c]\n", "b = (c)\n", "c = 2\n", "d = [d]\n"];
    for order in [[0, 1, 2, 3], [3, 2, 1, 0], [1, 3, 0, 2]] {
        let mut src = "module\n\n".to_owned();
        for i in order {
            src.push_str(lines[i]);
        }
        let (program, diags) = registered(&[("m.ybm", src.as_str())]);
        assert_eq!(diags.len(), 1, "{diags:?}");
        assert_eq!(diags[0].code, ErrorCode::UninferableType);
        assert_eq!(
            program.consts.get("a"),
            Some(&Value::List(vec![Value::Int(2), Value::Int(2)]))
        );
        assert_eq!(program.consts.get("b"), Some(&Value::Int(2)));
        assert_eq!(program.consts.get("c"), Some(&Value::Int(2)));
        assert_eq!(program.consts.get("d"), None);
    }
}

#[test]
fn constants_of_mixed_types_are_reported() {
    for (src, code) in [
        ("module\n\nx = [1, \"a\"]\n", ErrorCode::CollectionElementTypeMismatch),
        ("module\n\nx = {1.5}\n", ErrorCode::SetElementTypeNotAllowed),
        ("module\n\nx = {1.5: 1}\n", ErrorCode::DictKeyTypeNotAllowed),
        ("module\n\nx = []\n", ErrorCode::UninferableType),
    ] {
        let (_, diags) = registered(&[("m.ybm", src)]);
        assert!(has_code(&diags, code), "{src:?}: {diags:?}");
    }
}

#[test]
fn top_level_statements_of_modules_are_reported() {
    let module = parse_clean("module\n\ndef f(): int\n    return 1\n\nprint(\"hi\")\n");
    assert!(module.is_module_directive);
    assert_eq!(module.items.len(), 2);
    let mut diagnostics = DiagnosticBag::new();
    check_module_toplevel_grammar(&module, &mut diagnostics);
    let diags = diagnostics.into_vec();
    assert_eq!(diags.len(), 1, "{diags:?}");
    assert_eq!(diags[0].code, ErrorCode::ModuleTopLevelStatement);
}

#[test]
fn a_program_holds_the_declarations_of_all_files() {
    let (program, diags) = skeleton(&[
        ("entry.ybm", "x = area(1)\n"),
        (
            "mod_shapes.ybm",
            "module\n\nenum Shape\n    Circle(float)\n    Rect(float, float)\n\nstruct NamedShape\n    name: str\n\ndef area(n: int): int\n    return n\n",
        ),
    ]);
    assert!(diags.is_empty(), "{diags:?}");
    assert!(program.structs.contains_key("NamedShape"));
    assert!(program.functions.contains_key("area"));
    assert!(program.functions.contains_key("print"));
    match program.enums.get("Shape") {
        Some(shape) => {
            let names: Vec<&str> = shape.variants.iter().map(|v| v.name.as_str()).collect();
            assert_eq!(names, vec!["Circle", "Rect"]);
        }
        None => panic!("expected Shape"),
    }
}

#[test]
fn the_first_of_two_definitions_stays() {
    let (program, diags) = skeleton(&[
        ("a.ybm", "def f(x: int): int\n    return x\n"),
        ("b.ybm", "module\n\ndef f(): int\n    return 2\n"),
    ]);
    assert_eq!(diags.len(), 1, "{diags:?}");
    match program.functions.get("f") {
        Some(f) => assert_eq!(f.params.len(), 1),
        None => panic!("expected f"),
    }
}

fn listed(name: &str, is_file: bool, starts_with_module: bool) -> Listed {
    Listed { name: name.to_owned(), is_file, starts_with_module }
}

#[test]
fn sibling_modules_are_found_in_ascending_order() {
    let mut listing = vec![
        listed("mod_helpers.ybm", true, true),
        listed("entry_main.ybm", true, false),
        listed("mod_constants.ybm", true, true),
        listed("entry_other.ybm", true, false),
        listed("dir.ybm", false, true),
        listed("notes.txt", true, true),
        listed(".ybm", true, true),
        listed("ybm", true, true),
        listed("a.ybm.bak", true, true),
    ];
    let expected = ["mod_constants.ybm", "mod_helpers.ybm"];
    assert_eq!(discover_sibling_modules("entry_main.ybm", &listing), expected);
    listing.reverse();
    assert_eq!(discover_sibling_modules("entry_main.ybm", &listing), expected);
}

#[test]
fn an_entry_file_is_not_its_own_sibling() {
    let listing = vec![listed("entry_with_module_directive.ybm", true, true)];
    assert!(discover_sibling_modules("entry_with_module_directive.ybm", &listing).is_empty());
}

// --- statements and the rest of the grammar ---

fn first_stmt(module: &Module) -> &Stmt {
    match &module.items[0] {
        Item::Stmt(stmt) => stmt,
        Item::Decl(decl) => panic!("expected a statement, got {decl:?}"),
    }
}

#[test]
fn type_annotations_of_variables_nest() {
    let module = parse_clean("xs: list[list[int]] = [[], [1, 2]]\n");
    let StmtKind::NameAssign { ty: Some(ty), .. } = &first_stmt(&module).kind else {
        panic!("expected an annotated assignment")
    };
    let (outer, args) = as_named(ty);
    assert_eq!((outer, args.len()), ("list", 1));
    assert_eq!(as_named(&args[0]).0, "list");
}

#[test]
fn statements_of_each_kind_are_told_apart() {
    let src = "var n = 1\nn = 2\np.x = 3\nxs[0] = 4\n_ = f()\nf()\n";
    let module = parse_clean(src);
    let kinds: Vec<&str> = module
        .items
        .iter()
        .map(|item| match item {
            Item::Stmt(s) => match &s.kind {
                StmtKind::VarDecl { .. } => "var",
                StmtKind::NameAssign { .. } => "name",
                StmtKind::FieldAssign { .. } => "field",
                StmtKind::IndexAssign { .. } => "index",
                StmtKind::Discard(_) => "discard",
                StmtKind::ExprStmt(_) => "expr",
                StmtKind::Return(_) => "return",
            },
            Item::Decl(_) => "decl",
        })
        .collect();
    assert_eq!(kinds, vec!["var", "name", "field", "index", "discard", "expr"]);
}

#[test]
fn match_arms_hold_expressions_or_blocks() {
    let module = parse_clean("y = match x\n    1 => 2\n    _ =>\n        3\n");
    let StmtKind::NameAssign { value, .. } = &first_stmt(&module).kind else {
        panic!("expected an assignment")
    };
    let ExprKind::Match { arms, .. } = &value.kind else {
        panic!("expected a match, got {value:?}")
    };
    assert_eq!(arms.len(), 2);
    assert!(matches!(arms[0].body, MatchArmBody::Expr(_)));
    assert!(matches!(arms[1].body, MatchArmBody::Block(_)));
}

#[test]
fn collections_are_told_apart() {
    assert!(matches!(parse_one_expr("[1, 2]\n").kind, ExprKind::ListLit { .. }));
    assert!(matches!(parse_one_expr("{1, 2}\n").kind, ExprKind::SetLit { .. }));
    assert!(matches!(parse_one_expr("{1: 2}\n").kind, ExprKind::DictLit { .. }));
    assert!(matches!(parse_one_expr("{}\n").kind, ExprKind::DictLit { .. }));
    assert!(matches!(parse_one_expr("(1, 2)\n").kind, ExprKind::TupleLit { .. }));
    assert!(matches!(parse_one_expr("(1)\n").kind, ExprKind::Grouping(_)));
    assert!(matches!(parse_one_expr("(x) => x\n").kind, ExprKind::Lambda { .. }));
    assert!(matches!(parse_one_expr("par [f(), g()]\n").kind, ExprKind::Par { .. }));
    assert!(matches!(parse_one_expr("t.1\n").kind, ExprKind::TupleIndex { index: 1, .. }));
}

#[test]
fn fstrings_hold_texts_and_expressions() {
    let e = parse_one_expr("f\"a{x + 1}b\"\n");
    let ExprKind::FString(segments) = &e.kind else {
        panic!("expected an f-string")
    };
    assert_eq!(segments.len(), 3);
    assert!(matches!(&segments[0], FStringSegment::Text(t) if t == "a"));
    assert!(matches!(&segments[1], FStringSegment::Expr(x) if as_binary(x).0 == "+"));
    assert!(matches!(&segments[2], FStringSegment::Text(t) if t == "b"));
}

#[test]
fn pipes_with_arguments_want_a_placeholder() {
    let (_, diags) = lex_and_parse("y = x |> f(1)\n");
    assert!(has_code(&diags, ErrorCode::PipePlaceholderMissing), "{diags:?}");
    let (_, diags) = lex_and_parse("y = x |> f(_, 1)\n");
    assert!(diags.is_empty(), "{diags:?}");
}

#[test]
fn questions_are_refused_in_parallel_branches() {
    let (_, diags) = lex_and_parse("r = par [f()?, g()]\n");
    assert!(has_code(&diags, ErrorCode::UnexpectedToken), "{diags:?}");
}

#[test]
fn elif_is_refused() {
    let (_, diags) = lex_and_parse("y = if a\n    1\nelif b\n    2\nelse\n    3\n");
    assert!(has_code(&diags, ErrorCode::UnexpectedToken), "{diags:?}");
}

#[test]
fn node_numbers_start_where_they_are_told_to() {
    let file = FileId(0);
    let (tokens, _comments) = lex("x = 1 + 2\n", file);
    let (plain, _) = parse_module(&tokens, file);
    let (shifted, diags, next) = parse_module_with_offset(&tokens, file, 100);
    assert!(diags.is_empty());
    let id_of = |m: &Module| match &first_stmt(m).kind {
        StmtKind::NameAssign { value, .. } => value.id.0,
        other => panic!("expected an assignment, got {other:?}"),
    };
    assert_eq!(id_of(&shifted), id_of(&plain) + 100);
    let (_, _, next_plain) = parse_module_with_offset(&tokens, file, 0);
    assert_eq!(next, next_plain + 100);
}

/// The node numbers in a module, in the order in which it is printed.
fn numbers_in(module: &Module) -> Vec<u32> {
    let text = format!("{module:?}");
    text.split("NodeId(")
        .skip(1)
        .map(|rest| match rest.split(')').next().map(str::parse) {
            Some(Ok(n)) => n,
            other => panic!("expected a number, got {other:?}"),
        })
        .collect()
}

const MANY_NODES: &str = "struct P\n    x: int\n    def get(self): int\n        return self.x\n\
    enum E\n    A\n    B(int)\n\
    def f(a: int): int\n    var b = a + 1\n    p.x = b\n    xs[0] = f(b)\n    return b\n\
    y = match e\n    A => 1\n    B(n) => n * 2\n\
    z = [1, (2, 3), {\"k\": 4}]\n\
    if y\n    1\nelse\n    2\n";

#[test]
fn node_numbers_differ() {
    let file = FileId(0);
    let (tokens, _comments) = lex(MANY_NODES, file);
    for start in [0, 7] {
        let (module, _, next) = parse_module_with_offset(&tokens, file, start);
        let mut numbers = numbers_in(&module);
        assert!(numbers.len() > 20, "{numbers:?}");
        assert!(numbers.iter().all(|n| start <= *n && *n < next));
        let all = numbers.len();
        numbers.sort_unstable();
        numbers.dedup();
        assert_eq!(numbers.len(), all);
    }
}

#[test]
fn another_start_number_shifts_every_node() {
    let file = FileId(0);
    let (tokens, _comments) = lex(MANY_NODES, file);
    let (plain, diags, next) = parse_module_with_offset(&tokens, file, 0);
    let (shifted, shifted_diags, shifted_next) = parse_module_with_offset(&tokens, file, 1000);
    let raised: Vec<u32> = numbers_in(&plain).iter().map(|n| n + 1000).collect();
    assert_eq!(numbers_in(&shifted), raised);
    assert_eq!(shifted_next, next + 1000);
    assert_eq!(format!("{shifted_diags:?}"), format!("{diags:?}"));
}

#[test]
fn what_cannot_be_parsed_is_not_formatted() {
    let (tokens, comments) = lex("# a\nx = 1\n", FileId(0));
    assert!(parsed_for_formatting(&tokens, Vec::new(), false).is_none());
    let Some(module) = parsed_for_formatting(&tokens, comments, true) else {
        panic!("expected a module");
    };
    let texts: Vec<&str> =
        first_stmt(&module).leading_comments.iter().map(|c| c.text.as_str()).collect();
    assert_eq!(texts, vec!["a"]);
    let (broken, _) = lex("x = \n", FileId(0));
    assert!(parsed_for_formatting(&broken, Vec::new(), true).is_none());
}

#[test]
fn comments_at_the_end_stay_with_the_module() {
    let module = lex_parse_and_attach("x = 1\n# one\n# two\n");
    let texts: Vec<&str> = module.trailing_comments.iter().map(|c| c.text.as_str()).collect();
    assert_eq!(texts, vec!["one", "two"]);
}

#[test]
fn every_comment_is_attached_once() {
    let src = "# a\nx = 1  # b\n# c\ndef f(): int\n    # d\n    return 1  # e\n# g\n";
    let module = lex_parse_and_attach(src);
    let Item::Stmt(first) = &module.items[0] else {
        panic!("expected the first Item to be a statement");
    };
    let Item::Decl(Decl::Function(f)) = &module.items[1] else {
        panic!("expected the second Item to be a function");
    };
    let mut texts: Vec<String> = Vec::new();
    texts.extend(first.leading_comments.iter().map(|c| c.text.clone()));
    texts.extend(first.trailing_comment.clone());
    texts.extend(f.leading_comments.iter().map(|c| c.text.clone()));
    for stmt in &f.body.stmts {
        texts.extend(stmt.leading_comments.iter().map(|c| c.text.clone()));
        texts.extend(stmt.trailing_comment.clone());
    }
    texts.extend(module.trailing_comments.iter().map(|c| c.text.clone()));
    assert_eq!(texts, ["a", "b", "c", "d", "e", "g"]);
}

#[test]
fn only_assignments_to_names_have_documentation() {
    let module = lex_parse_and_attach("## about x\nx = 1\n## about nothing\nprint(x)\n");
    let Item::Stmt(first) = &module.items[0] else {
        panic!("expected the first Item to be a statement");
    };
    assert!(first.doc_comment.is_some());
    assert!(first.leading_comments.is_empty());
    let Item::Stmt(second) = &module.items[1] else {
        panic!("expected the second Item to be a statement");
    };
    assert!(second.doc_comment.is_none());
    assert_eq!(second.leading_comments.len(), 1);
    assert_eq!(second.leading_comments[0].text, "about nothing");
    assert_eq!(second.leading_comments[0].line, 3);
}

// --- what stands at a position ---

#[test]
fn the_innermost_expression_at_a_position_is_found() {
    let src = "def add(a: int, b: int): int\n    return a + b\n\nprint(add(1, 2))\n";
    let mut map = SourceMap::new();
    let file = map.add("entry.ybm".to_owned(), src.to_owned());
    let (tokens, _comments) = lex(src, file);
    let (module, diags) = parse_module(&tokens, file);
    assert!(diags.is_empty());
    let mut diagnostics = DiagnosticBag::new();
    let program = build_program_skeleton(vec![module], map, &mut diagnostics);
    let place = yabumi::lsp::pos::from_lsp_pos(src, 1, 11, Encoding::Utf16);
    let Some(found) = expr_at(&program, file, place) else {
        panic!("expected an expression")
    };
    assert!(matches!(found.kind, QueryKind::Ident));
    let def = Span {
        file,
        start: Position { line: 1, col: 9 },
        end: Position { line: 1, col: 10 },
    };
    let resolutions = Resolutions {
        ident_def: vec![(found.id, def)],
        expr_ty: vec![(found.id, Ty::Int)],
    };
    assert_eq!(definition_span(&program, &resolutions, &found), Some(def));
    assert!(expr_at(&program, file, Position { line: 3, col: 1 }).is_none());
}
