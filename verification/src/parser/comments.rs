//! Where comments go: what each node of the syntax tree gets from the queue of comments, and
//! what is left of the queue.

use crate::ast::{
    ArgV, ArmBodyV, ArmV, BlockV, CalleeV, DeclV, DocPart, DocV, ElseV, EnumV, ExprKindV, ExprV,
    FenceV, FunctionV, IfV, ItemV, LeadingV, ModuleV, ParamV, SegmentV, StageV, StmtKindV, StmtV,
    StructV, VariantV,
};
use crate::diagnostics::Span;
use crate::lexer::RawCommentView;
use crate::text::{starts_with, trimmed};
use vstd::prelude::*;

verus! {

/// A comment's text without the conventional space at its front.
pub open spec fn stripped(text: Seq<char>) -> Seq<char> {
    if text.len() > 0 && text[0] == ' ' {
        text.drop_first()
    } else {
        text
    }
}

/// How many comments at the front of the queue stand on lines before `line`.
pub open spec fn leading_count(q: Seq<RawCommentView>, line: u32) -> nat
    decreases q.len(),
{
    if q.len() > 0 && q[0].span.start.line < line {
        1 + leading_count(q.drop_first(), line)
    } else {
        0
    }
}

#[verifier::opaque]
pub open spec fn take_leading(q: Seq<RawCommentView>, line: u32) -> (
    Seq<RawCommentView>,
    Seq<RawCommentView>,
) {
    let n = leading_count(q, line) as int;
    (q.take(n), q.skip(n))
}

/// The trailing comment on `line`, if it is at the front of the queue.
#[verifier::opaque]
pub open spec fn take_trailing(q: Seq<RawCommentView>, line: u32) -> (
    Option<Seq<char>>,
    Seq<RawCommentView>,
) {
    if q.len() > 0 && q[0].is_trailing && q[0].span.start.line == line {
        (Some(stripped(q[0].text)), q.drop_first())
    } else {
        (None, q)
    }
}

pub open spec fn as_leading(raw: Seq<RawCommentView>) -> Seq<LeadingV> {
    Seq::new(
        raw.len(),
        |i: int| LeadingV { text: stripped(raw[i].text), line: raw[i].span.start.line },
    )
}

/// Where the run of documentation comments on consecutive lines starts that ends before `i`;
/// `next` is the line after the run, where it is not empty.
pub open spec fn doc_start(leading: Seq<RawCommentView>, i: int, next: Option<u32>) -> int
    decreases i,
{
    if i <= 0 {
        0
    } else {
        let c = leading[i - 1];
        if c.is_doc && (next matches Some(n) ==> c.span.start.line + 1 == n) {
            doc_start(leading, i - 1, Some(c.span.start.line))
        } else {
            i
        }
    }
}

/// The documentation comment at the end of some leading comments, and the others.
#[verifier::opaque]
pub open spec fn split_doc(leading: Seq<RawCommentView>) -> (Option<DocV>, Seq<LeadingV>) {
    let k = doc_start(leading, leading.len() as int, None);
    if k >= leading.len() {
        (None, as_leading(leading))
    } else {
        (Some(doc_of(leading.skip(k))), as_leading(leading.take(k)))
    }
}

/// What has been read of a documentation comment: the parts so far, and the fence that is
/// open, if one is.
pub ghost struct DocState {
    pub prose_lines: Seq<Seq<char>>,
    pub fences: Seq<FenceV>,
    pub parts: Seq<DocPart>,
    pub open: Option<FenceState>,
}

/// An open fence: its tag, the line of its body, the body so far, and where it opened.
pub ghost struct FenceState {
    pub tag: Option<Seq<char>>,
    pub body_start_line: u32,
    pub body: Seq<Seq<char>>,
    pub start: Span,
}

pub open spec fn drop_ticks(s: Seq<char>) -> Seq<char>
    decreases s.len(),
{
    if s.len() > 0 && s[0] == '`' {
        drop_ticks(s.drop_first())
    } else {
        s
    }
}

/// The language tag on the line that opens a fence.
pub open spec fn fence_tag(line: Seq<char>) -> Option<Seq<char>> {
    let tag = trimmed(drop_ticks(line));
    if tag.len() == 0 {
        None
    } else {
        Some(tag)
    }
}

/// Lines joined with line ends.
pub open spec fn joined(lines: Seq<Seq<char>>) -> Seq<char>
    decreases lines.len(),
{
    if lines.len() == 0 {
        Seq::empty()
    } else if lines.len() == 1 {
        lines[0]
    } else {
        joined(lines.drop_last()) + "\n"@ + lines.last()
    }
}

pub open spec fn is_fence_line(line: Seq<char>) -> bool {
    starts_with(trimmed(line), "```"@)
}

/// One more line of a documentation comment.
pub open spec fn doc_step(st: DocState, c: RawCommentView) -> DocState {
    let line = stripped(c.text);
    match st.open {
        Some(fence) => if is_fence_line(line) {
            DocState {
                prose_lines: st.prose_lines,
                fences: st.fences.push(
                    FenceV {
                        lang_tag: fence.tag,
                        body_start_line: fence.body_start_line,
                        raw_text: joined(fence.body),
                        span: Span {
                            file: fence.start.file,
                            start: fence.start.start,
                            end: c.span.end,
                        },
                    },
                ),
                parts: st.parts.push(DocPart::Fence(st.fences.len() as usize)),
                open: None,
            }
        } else {
            DocState { open: Some(FenceState { body: fence.body.push(line), ..fence }), ..st }
        },
        None => if is_fence_line(line) {
            DocState {
                open: Some(
                    FenceState {
                        tag: fence_tag(trimmed(line)),
                        body_start_line: (c.span.start.line + 1) as u32,
                        body: Seq::empty(),
                        start: c.span,
                    },
                ),
                ..st
            }
        } else {
            DocState {
                prose_lines: st.prose_lines.push(line),
                parts: st.parts.push(DocPart::Prose(st.prose_lines.len() as usize)),
                ..st
            }
        },
    }
}

/// The state after the first `n` lines.
pub open spec fn doc_fold(lines: Seq<RawCommentView>, n: int) -> DocState
    decreases n,
{
    if n <= 0 {
        DocState {
            prose_lines: Seq::empty(),
            fences: Seq::empty(),
            parts: Seq::empty(),
            open: None,
        }
    } else {
        doc_step(doc_fold(lines, n - 1), lines[n - 1])
    }
}

/// The documentation comment made of some lines. A fence that is never closed is dropped.
pub open spec fn doc_of(lines: Seq<RawCommentView>) -> DocV {
    let st = doc_fold(lines, lines.len() as int);
    DocV {
        prose_lines: st.prose_lines,
        fences: st.fences,
        parts: st.parts,
        span: Span {
            file: lines[0].span.file,
            start: lines[0].span.start,
            end: lines.last().span.end,
        },
    }
}

// ---------------------------------------------------------------------------
// Nodes
// ---------------------------------------------------------------------------

pub open spec fn attach_expr(e: ExprV, q: Seq<RawCommentView>) -> (ExprV, Seq<RawCommentView>)
    decreases e,
{
    let (kind, r) = attach_kind(e.kind, q);
    (ExprV { kind, ..e }, r)
}

pub open spec fn attach_exprs(s: Seq<ExprV>, q: Seq<RawCommentView>) -> (
    Seq<ExprV>,
    Seq<RawCommentView>,
)
    decreases s,
{
    if s.len() == 0 {
        (s, q)
    } else {
        let (init, r) = attach_exprs(s.drop_last(), q);
        let (last, t) = attach_expr(s.last(), r);
        (init.push(last), t)
    }
}

pub open spec fn attach_entries(s: Seq<(ExprV, ExprV)>, q: Seq<RawCommentView>) -> (
    Seq<(ExprV, ExprV)>,
    Seq<RawCommentView>,
)
    decreases s,
{
    if s.len() == 0 {
        (s, q)
    } else {
        let (init, r) = attach_entries(s.drop_last(), q);
        let (key, t) = attach_expr(s.last().0, r);
        let (value, u) = attach_expr(s.last().1, t);
        (init.push((key, value)), u)
    }
}

pub open spec fn attach_segments(s: Seq<SegmentV>, q: Seq<RawCommentView>) -> (
    Seq<SegmentV>,
    Seq<RawCommentView>,
)
    decreases s,
{
    if s.len() == 0 {
        (s, q)
    } else {
        let (init, r) = attach_segments(s.drop_last(), q);
        let (last, t) = attach_segment(s.last(), r);
        (init.push(last), t)
    }
}

pub open spec fn attach_segment(s: SegmentV, q: Seq<RawCommentView>) -> (
    SegmentV,
    Seq<RawCommentView>,
)
    decreases s,
{
    match s {
        SegmentV::Text(_) => (s, q),
        SegmentV::Expr(e) => {
            let (e2, r) = attach_expr(*e, q);
            (SegmentV::Expr(Box::new(e2)), r)
        },
    }
}

pub open spec fn attach_arg(a: ArgV, q: Seq<RawCommentView>) -> (ArgV, Seq<RawCommentView>)
    decreases a,
{
    let (value, r) = attach_expr(a.value, q);
    (ArgV { value, ..a }, r)
}

pub open spec fn attach_args(s: Seq<ArgV>, q: Seq<RawCommentView>) -> (
    Seq<ArgV>,
    Seq<RawCommentView>,
)
    decreases s,
{
    if s.len() == 0 {
        (s, q)
    } else {
        let (init, r) = attach_args(s.drop_last(), q);
        let (last, t) = attach_arg(s.last(), r);
        (init.push(last), t)
    }
}

pub open spec fn attach_callee(c: CalleeV, q: Seq<RawCommentView>) -> (
    CalleeV,
    Seq<RawCommentView>,
)
    decreases c,
{
    match c {
        CalleeV::Bare(e) => {
            let (e2, r) = attach_expr(e, q);
            (CalleeV::Bare(e2), r)
        },
        CalleeV::WithArgs { callee, args } => {
            let (e2, r) = attach_expr(*callee, q);
            let (args2, t) = attach_args(args, r);
            (CalleeV::WithArgs { callee: Box::new(e2), args: args2 }, t)
        },
    }
}

pub open spec fn attach_stage(s: StageV, q: Seq<RawCommentView>) -> (StageV, Seq<RawCommentView>)
    decreases s,
{
    let (callee, r) = attach_callee(s.callee, q);
    (StageV { callee, ..s }, r)
}

pub open spec fn attach_stages(s: Seq<StageV>, q: Seq<RawCommentView>) -> (
    Seq<StageV>,
    Seq<RawCommentView>,
)
    decreases s,
{
    if s.len() == 0 {
        (s, q)
    } else {
        let (init, r) = attach_stages(s.drop_last(), q);
        let (last, t) = attach_stage(s.last(), r);
        (init.push(last), t)
    }
}

/// Comments reach the statements and arms inside an expression.
pub open spec fn attach_kind(k: ExprKindV, q: Seq<RawCommentView>) -> (
    ExprKindV,
    Seq<RawCommentView>,
)
    decreases k,
{
    match k {
        ExprKindV::IntLit(_)
        | ExprKindV::FloatLit(_)
        | ExprKindV::BoolLit(_)
        | ExprKindV::StringLit(_)
        | ExprKindV::Ident(_) => (k, q),
        ExprKindV::FString(segments) => {
            let (s, r) = attach_segments(segments, q);
            (ExprKindV::FString(s), r)
        },
        ExprKindV::ListLit { elements, was_multiline } => {
            let (s, r) = attach_exprs(elements, q);
            (ExprKindV::ListLit { elements: s, was_multiline }, r)
        },
        ExprKindV::SetLit { elements, was_multiline } => {
            let (s, r) = attach_exprs(elements, q);
            (ExprKindV::SetLit { elements: s, was_multiline }, r)
        },
        ExprKindV::TupleLit { elements, was_multiline } => {
            let (s, r) = attach_exprs(elements, q);
            (ExprKindV::TupleLit { elements: s, was_multiline }, r)
        },
        ExprKindV::Par { kind, elements } => {
            let (s, r) = attach_exprs(elements, q);
            (ExprKindV::Par { kind, elements: s }, r)
        },
        ExprKindV::DictLit { entries, was_multiline } => {
            let (s, r) = attach_entries(entries, q);
            (ExprKindV::DictLit { entries: s, was_multiline }, r)
        },
        ExprKindV::Unary { op, operand } => {
            let (e, r) = attach_expr(*operand, q);
            (ExprKindV::Unary { op, operand: Box::new(e) }, r)
        },
        ExprKindV::Binary { op, lhs, rhs } => {
            let (a, r) = attach_expr(*lhs, q);
            let (b, t) = attach_expr(*rhs, r);
            (ExprKindV::Binary { op, lhs: Box::new(a), rhs: Box::new(b) }, t)
        },
        ExprKindV::Call { callee, type_args, args, was_multiline } => {
            let (c, r) = attach_expr(*callee, q);
            let (s, t) = attach_args(args, r);
            (ExprKindV::Call { callee: Box::new(c), type_args, args: s, was_multiline }, t)
        },
        ExprKindV::MethodCall { receiver, method, type_args, args, was_multiline } => {
            let (c, r) = attach_expr(*receiver, q);
            let (s, t) = attach_args(args, r);
            (
                ExprKindV::MethodCall {
                    receiver: Box::new(c),
                    method,
                    type_args,
                    args: s,
                    was_multiline,
                },
                t,
            )
        },
        ExprKindV::FieldAccess { target, field } => {
            let (e, r) = attach_expr(*target, q);
            (ExprKindV::FieldAccess { target: Box::new(e), field }, r)
        },
        ExprKindV::TupleIndex { target, index } => {
            let (e, r) = attach_expr(*target, q);
            (ExprKindV::TupleIndex { target: Box::new(e), index }, r)
        },
        ExprKindV::Index { target, index } => {
            let (a, r) = attach_expr(*target, q);
            let (b, t) = attach_expr(*index, r);
            (ExprKindV::Index { target: Box::new(a), index: Box::new(b) }, t)
        },
        ExprKindV::Question { target } => {
            let (e, r) = attach_expr(*target, q);
            (ExprKindV::Question { target: Box::new(e) }, r)
        },
        ExprKindV::Pipe { source, stages } => {
            let (e, r) = attach_expr(*source, q);
            let (s, t) = attach_stages(stages, r);
            (ExprKindV::Pipe { source: Box::new(e), stages: s }, t)
        },
        ExprKindV::Lambda { params, body } => {
            let (e, r) = attach_expr(*body, q);
            (ExprKindV::Lambda { params, body: Box::new(e) }, r)
        },
        ExprKindV::If(i) => {
            let (x, r) = attach_if(*i, q);
            (ExprKindV::If(Box::new(x)), r)
        },
        ExprKindV::Match { scrutinee, arms } => {
            let (e, r) = attach_expr(*scrutinee, q);
            let (s, t) = attach_arms(arms, r);
            (ExprKindV::Match { scrutinee: Box::new(e), arms: s }, t)
        },
        ExprKindV::Grouping(e) => {
            let (x, r) = attach_expr(*e, q);
            (ExprKindV::Grouping(Box::new(x)), r)
        },
    }
}

pub open spec fn attach_if(i: IfV, q: Seq<RawCommentView>) -> (IfV, Seq<RawCommentView>)
    decreases i,
{
    let (cond, r) = attach_expr(*i.cond, q);
    let (then_branch, t) = attach_block(i.then_branch, r);
    let (else_branch, u) = attach_else(i.else_branch, t);
    (IfV { cond: Box::new(cond), then_branch, else_branch, span: i.span }, u)
}

pub open spec fn attach_else(e: ElseV, q: Seq<RawCommentView>) -> (ElseV, Seq<RawCommentView>)
    decreases e,
{
    match e {
        ElseV::Block(b) => {
            let (b2, r) = attach_block(b, q);
            (ElseV::Block(b2), r)
        },
        ElseV::ElseIf(i) => {
            let (i2, r) = attach_if(*i, q);
            (ElseV::ElseIf(Box::new(i2)), r)
        },
    }
}

pub open spec fn attach_arm_body(b: ArmBodyV, q: Seq<RawCommentView>) -> (
    ArmBodyV,
    Seq<RawCommentView>,
)
    decreases b,
{
    match b {
        ArmBodyV::Expr(e) => {
            let (e2, r) = attach_expr(e, q);
            (ArmBodyV::Expr(e2), r)
        },
        ArmBodyV::Block(b) => {
            let (b2, r) = attach_block(b, q);
            (ArmBodyV::Block(b2), r)
        },
    }
}

/// An arm gets the comments before it and its trailing comment.
pub open spec fn attach_arm(a: ArmV, q: Seq<RawCommentView>) -> (ArmV, Seq<RawCommentView>)
    decreases a,
{
    let (leading, r) = take_leading(q, a.span.start.line);
    let (trailing_comment, t) = take_trailing(r, a.span.end.line);
    let (body, u) = attach_arm_body(a.body, t);
    (ArmV { body, leading_comments: as_leading(leading), trailing_comment, ..a }, u)
}

pub open spec fn attach_arms(s: Seq<ArmV>, q: Seq<RawCommentView>) -> (
    Seq<ArmV>,
    Seq<RawCommentView>,
)
    decreases s,
{
    if s.len() == 0 {
        (s, q)
    } else {
        let (init, r) = attach_arms(s.drop_last(), q);
        let (last, t) = attach_arm(s.last(), r);
        (init.push(last), t)
    }
}

pub open spec fn attach_block(b: BlockV, q: Seq<RawCommentView>) -> (BlockV, Seq<RawCommentView>)
    decreases b,
{
    let (stmts, r) = attach_stmts(b.stmts, q);
    (BlockV { stmts, ..b }, r)
}

pub open spec fn attach_stmts(s: Seq<StmtV>, q: Seq<RawCommentView>) -> (
    Seq<StmtV>,
    Seq<RawCommentView>,
)
    decreases s,
{
    if s.len() == 0 {
        (s, q)
    } else {
        let (init, r) = attach_stmts(s.drop_last(), q);
        let (last, t) = attach_stmt(s.last(), r);
        (init.push(last), t)
    }
}

/// A statement gets the comments before it and its trailing comment; what follows goes to the
/// statements inside it. An assignment to a name has the last run of documentation lines before
/// it as its documentation; other statements have none, and their lines are comments.
pub open spec fn attach_stmt(s: StmtV, q: Seq<RawCommentView>) -> (StmtV, Seq<RawCommentView>)
    decreases s,
{
    let (leading, r) = take_leading(q, s.span.start.line);
    let (doc_comment, leading_comments) = if s.kind is NameAssign {
        split_doc(leading)
    } else {
        (None, as_leading(leading))
    };
    let (trailing_comment, t) = take_trailing(r, s.span.end.line);
    let (kind, u) = attach_stmt_kind(s.kind, t);
    (StmtV { kind, span: s.span, doc_comment, leading_comments, trailing_comment }, u)
}

pub open spec fn attach_stmt_kind(k: StmtKindV, q: Seq<RawCommentView>) -> (
    StmtKindV,
    Seq<RawCommentView>,
)
    decreases k,
{
    match k {
        StmtKindV::VarDecl { name, ty, value } => {
            let (value, r) = attach_expr(value, q);
            (StmtKindV::VarDecl { name, ty, value }, r)
        },
        StmtKindV::NameAssign { name, ty, value } => {
            let (value, r) = attach_expr(value, q);
            (StmtKindV::NameAssign { name, ty, value }, r)
        },
        StmtKindV::FieldAssign { target, field, value } => {
            let (target, r) = attach_expr(target, q);
            let (value, t) = attach_expr(value, r);
            (StmtKindV::FieldAssign { target, field, value }, t)
        },
        StmtKindV::IndexAssign { target, index, value } => {
            let (target, r) = attach_expr(target, q);
            let (index, t) = attach_expr(index, r);
            let (value, u) = attach_expr(value, t);
            (StmtKindV::IndexAssign { target, index, value }, u)
        },
        StmtKindV::Discard(e) => {
            let (e, r) = attach_expr(e, q);
            (StmtKindV::Discard(e), r)
        },
        StmtKindV::ExprStmt(e) => {
            let (e, r) = attach_expr(e, q);
            (StmtKindV::ExprStmt(e), r)
        },
        StmtKindV::Return(Some(e)) => {
            let (e, r) = attach_expr(e, q);
            (StmtKindV::Return(Some(e)), r)
        },
        StmtKindV::Return(None) => (k, q),
    }
}

// ---------------------------------------------------------------------------
// Declarations and the module
// ---------------------------------------------------------------------------

pub open spec fn attach_function(f: FunctionV, q: Seq<RawCommentView>) -> (
    FunctionV,
    Seq<RawCommentView>,
) {
    let (leading, r) = take_leading(q, f.span.start.line);
    let (doc_comment, leading_comments) = split_doc(leading);
    let (body, t) = attach_block(f.body, r);
    (FunctionV { body, doc_comment, leading_comments, ..f }, t)
}

pub open spec fn attach_functions(s: Seq<FunctionV>, q: Seq<RawCommentView>) -> (
    Seq<FunctionV>,
    Seq<RawCommentView>,
)
    decreases s.len(),
{
    if s.len() == 0 {
        (s, q)
    } else {
        let (init, r) = attach_functions(s.drop_last(), q);
        let (last, t) = attach_function(s.last(), r);
        (init.push(last), t)
    }
}

/// The comments before each field, the trailing comment of each, and what is left.
pub open spec fn attach_fields(s: Seq<ParamV>, q: Seq<RawCommentView>) -> (
    Seq<Seq<LeadingV>>,
    Seq<Option<Seq<char>>>,
    Seq<RawCommentView>,
)
    decreases s.len(),
{
    if s.len() == 0 {
        (Seq::empty(), Seq::empty(), q)
    } else {
        let (leads, trails, r) = attach_fields(s.drop_last(), q);
        let (leading, t) = take_leading(r, s.last().span.start.line);
        let (trailing, u) = take_trailing(t, s.last().span.end.line);
        (leads.push(as_leading(leading)), trails.push(trailing), u)
    }
}

pub open spec fn attach_struct(s: StructV, q: Seq<RawCommentView>) -> (
    StructV,
    Seq<RawCommentView>,
) {
    let (leading, r) = take_leading(q, s.span.start.line);
    let (doc_comment, leading_comments) = split_doc(leading);
    let (field_leading_comments, field_trailing_comments, t) = attach_fields(s.fields, r);
    let (methods, u) = attach_functions(s.methods, t);
    (
        StructV {
            methods,
            doc_comment,
            leading_comments,
            field_leading_comments,
            field_trailing_comments,
            ..s
        },
        u,
    )
}

pub open spec fn attach_variants(s: Seq<VariantV>, q: Seq<RawCommentView>) -> (
    Seq<VariantV>,
    Seq<RawCommentView>,
)
    decreases s.len(),
{
    if s.len() == 0 {
        (s, q)
    } else {
        let (init, r) = attach_variants(s.drop_last(), q);
        let (last, t) = attach_variant(s.last(), r);
        (init.push(last), t)
    }
}

pub open spec fn attach_variant(v: VariantV, q: Seq<RawCommentView>) -> (
    VariantV,
    Seq<RawCommentView>,
) {
    let (leading, r) = take_leading(q, v.span.start.line);
    let (trailing_comment, t) = take_trailing(r, v.span.end.line);
    (VariantV { leading_comments: as_leading(leading), trailing_comment, ..v }, t)
}

pub open spec fn attach_enum(e: EnumV, q: Seq<RawCommentView>) -> (EnumV, Seq<RawCommentView>) {
    let (leading, r) = take_leading(q, e.span.start.line);
    let (doc_comment, leading_comments) = split_doc(leading);
    let (variants, t) = attach_variants(e.variants, r);
    (EnumV { variants, doc_comment, leading_comments, ..e }, t)
}

pub open spec fn attach_item(i: ItemV, q: Seq<RawCommentView>) -> (ItemV, Seq<RawCommentView>) {
    match i {
        ItemV::Decl(DeclV::Function(f)) => {
            let (f, r) = attach_function(f, q);
            (ItemV::Decl(DeclV::Function(f)), r)
        },
        ItemV::Decl(DeclV::Struct(s)) => {
            let (s, r) = attach_struct(s, q);
            (ItemV::Decl(DeclV::Struct(s)), r)
        },
        ItemV::Decl(DeclV::Enum(e)) => {
            let (e, r) = attach_enum(e, q);
            (ItemV::Decl(DeclV::Enum(e)), r)
        },
        ItemV::Stmt(s) => {
            let (s, r) = attach_stmt(s, q);
            (ItemV::Stmt(s), r)
        },
    }
}

pub open spec fn attach_items(s: Seq<ItemV>, q: Seq<RawCommentView>) -> (
    Seq<ItemV>,
    Seq<RawCommentView>,
)
    decreases s.len(),
{
    if s.len() == 0 {
        (s, q)
    } else {
        let (init, r) = attach_items(s.drop_last(), q);
        let (last, t) = attach_item(s.last(), r);
        (init.push(last), t)
    }
}

/// The module with its comments: those that no node takes follow the last item.
pub open spec fn attach_module(m: ModuleV, q: Seq<RawCommentView>) -> ModuleV {
    let (items, r) = attach_items(m.items, q);
    ModuleV { items, trailing_comments: as_leading(r), ..m }
}

} // verus!
