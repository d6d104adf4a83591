//! Attaches comments to the syntax tree by line number.
//!
//! Comments come in a queue in source order. Each node takes from the front of the queue the
//! comments on lines before it, then a trailing comment on its last line; what is inside the
//! node follows. A run of documentation lines right before a declaration or a statement is its
//! documentation. Comments between the elements of a literal or of an argument list go to the
//! next node.

use super::comments::{
    as_leading, attach_arg, attach_args, attach_arm, attach_arm_body, attach_arms, attach_block,
    attach_callee, attach_else, attach_entries, attach_enum, attach_expr, attach_exprs,
    attach_fields, attach_function, attach_functions, attach_if, attach_item, attach_items,
    attach_kind, attach_module, attach_segment, attach_segments, attach_stage, attach_stages,
    attach_stmt, attach_stmt_kind, attach_stmts, attach_struct, attach_variant, attach_variants,
    doc_fold, doc_of, doc_start, doc_step, drop_ticks, fence_tag, is_fence_line, joined,
    leading_count, split_doc, stripped, DocState, FenceState,
};
use crate::ast::{
    args_view, arms_view, entries_view, exprs_view, fences_view, functions_view, items_view,
    leading_lists_view, leading_view, lemma_arg_view, lemma_block_view, lemma_else_branch_view,
    lemma_expr_kind_view, lemma_expr_view, lemma_fstring_segment_view, lemma_if_expr_view,
    lemma_match_arm_body_view, lemma_match_arm_view, lemma_pipe_callee_view,
    lemma_pipe_stage_view, lemma_stmt_kind_view, lemma_stmt_view, opt_doc_view, opt_texts,
    params_view, segments_view, stages_view, stmts_view, variants_view, Arg, Block, Decl,
    DocComment, DocFence, DocPart, ElseBranch, EnumDecl, EnumVariant, Expr, ExprKind, FunctionDecl,
    FStringSegment, IfExpr, Item, LeadingComment, MatchArm, MatchArmBody, Module, Param,
    PipeCallee, PipeStage, Stmt, StmtKind, StructDecl,
};
use crate::diagnostics::Span;
use crate::lexer::{RawComment, RawCommentView};
use crate::text::{
    chars_of, opt_text, sub_text, text_starts_with, texts, trim,
};
use std::collections::VecDeque;
use vstd::prelude::*;
use vstd::string::*;

verus! {

/// What the comments of a queue say.
pub open spec fn comments_view(v: Seq<RawComment>) -> Seq<RawCommentView> {
    Seq::new(v.len(), |i: int| v[i].view())
}

/// Every comment has a line after it that can be numbered.
pub open spec fn lines_ok(q: Seq<RawCommentView>) -> bool {
    forall|i: int| 0 <= i < q.len() ==> (#[trigger] q[i]).span.start.line < u32::MAX
}

/// Two sequences that agree from `i` on agree from `i + 1` on, also where one of them has
/// changed at `i`.
proof fn lemma_skip_next<A>(w: Seq<A>, s: Seq<A>, v: Seq<A>, i: int)
    requires
        0 <= i < s.len(),
        w.len() == s.len(),
        w.skip(i) == s.skip(i),
        v == w.update(i, v[i]),
    ensures
        v.skip(i + 1) == s.skip(i + 1),
{
    assert forall|j: int| 0 <= j < s.len() - i - 1 implies #[trigger] v.skip(i + 1)[j]
        == s.skip(i + 1)[j] by {
        assert(w.skip(i)[j + 1] == s.skip(i)[j + 1]);
    }
    assert(v.skip(i + 1) =~= s.skip(i + 1));
}

/// Attaches `comments` to the nodes of `module`.
pub fn attach_comments(module: &mut Module, comments: Vec<RawComment>)
    requires
        lines_ok(comments_view(comments@)),
    ensures
        final(module)@ == attach_module(old(module)@, comments_view(comments@)),
{
    let mut queue = queue_of(comments);
    attach_to_items(&mut module.items, &mut queue);
    let rest = take_all(&mut queue);
    module.trailing_comments = to_leading_comments(&rest);
}

/// The comments as a queue.
fn queue_of(comments: Vec<RawComment>) -> (r: VecDeque<RawComment>)
    ensures
        comments_view(r@) == comments_view(comments@),
{
    let mut queue: VecDeque<RawComment> = VecDeque::new();
    let mut i: usize = 0;
    while i < comments.len()
        invariant
            i <= comments@.len(),
            queue@.len() == i,
            forall|j: int| 0 <= j < i ==> (#[trigger] queue@[j])@ == comments@[j]@,
        decreases comments@.len() - i,
    {
        queue.push_back(copy_comment(&comments[i]));
        i = i + 1;
    }
    assert(comments_view(queue@) =~= comments_view(comments@));
    queue
}

fn copy_comment(c: &RawComment) -> (r: RawComment)
    ensures
        r@ == c@,
{
    RawComment {
        text: c.text.clone(),
        span: c.span,
        is_doc: c.is_doc,
        is_trailing: c.is_trailing,
    }
}

/// Takes everything that is left in the queue.
fn take_all(queue: &mut VecDeque<RawComment>) -> (r: Vec<RawComment>)
    ensures
        comments_view(r@) == comments_view(old(queue)@),
{
    let mut taken: Vec<RawComment> = Vec::new();
    let ghost q0 = queue@;
    while queue.len() > 0
        invariant
            taken@ + queue@ =~= q0,
        decreases queue@.len(),
    {
        if let Some(c) = queue.pop_front() {
            taken.push(c);
        }
    }
    taken
}

/// Takes from the front of the queue the comments on lines before `before_line`.
fn take_leading_upto(queue: &mut VecDeque<RawComment>, before_line: u32) -> (r: Vec<RawComment>)
    requires
        lines_ok(comments_view(old(queue)@)),
    ensures
        (comments_view(r@), comments_view(final(queue)@)) == super::comments::take_leading(
            comments_view(old(queue)@),
            before_line,
        ),
        lines_ok(comments_view(r@)),
        lines_ok(comments_view(final(queue)@)),
{
    proof {
        reveal(super::comments::take_leading);
    }
    let mut taken: Vec<RawComment> = Vec::new();
    let ghost q0 = comments_view(queue@);
    while queue.len() > 0 && queue[0].span.start.line < before_line
        invariant
            lines_ok(q0),
            comments_view(taken@) + comments_view(queue@) =~= q0,
            leading_count(q0, before_line) == taken@.len() + leading_count(
                comments_view(queue@),
                before_line,
            ),
        decreases queue@.len(),
    {
        let ghost before = comments_view(queue@);
        if let Some(c) = queue.pop_front() {
            assert(before.drop_first() =~= comments_view(queue@));
            taken.push(c);
        }
    }
    proof {
        let n = leading_count(q0, before_line) as int;
        assert(leading_count(comments_view(queue@), before_line) == 0);
        assert(q0.take(n) =~= comments_view(taken@));
        assert(q0.skip(n) =~= comments_view(queue@));
        assert forall|i: int| 0 <= i < taken@.len() implies (#[trigger] comments_view(
            taken@,
        )[i]).span.start.line < u32::MAX by {
            assert(q0[i] == comments_view(taken@)[i]);
        }
        assert forall|i: int| 0 <= i < queue@.len() implies (#[trigger] comments_view(
            queue@,
        )[i]).span.start.line < u32::MAX by {
            assert(q0[taken@.len() + i] == comments_view(queue@)[i]);
        }
    }
    taken
}

/// Takes the trailing comment on `line`, if it is at the front of the queue.
fn take_trailing(queue: &mut VecDeque<RawComment>, line: u32) -> (r: Option<String>)
    requires
        lines_ok(comments_view(old(queue)@)),
    ensures
        (opt_text(r), comments_view(final(queue)@)) == super::comments::take_trailing(
            comments_view(old(queue)@),
            line,
        ),
        lines_ok(comments_view(final(queue)@)),
{
    proof {
        reveal(super::comments::take_trailing);
    }
    let ghost q0 = comments_view(queue@);
    if queue.len() > 0 && queue[0].is_trailing && queue[0].span.start.line == line {
        if let Some(c) = queue.pop_front() {
            assert(q0.drop_first() =~= comments_view(queue@));
            assert forall|i: int| 0 <= i < queue@.len() implies (#[trigger] comments_view(
                queue@,
            )[i]).span.start.line < u32::MAX by {
                assert(q0[i + 1] == comments_view(queue@)[i]);
            }
            return Some(strip_one_leading_space(c.text.as_str()));
        }
    }
    None
}

/// Comments as they are kept before a node.
fn to_leading_comments(raw: &[RawComment]) -> (r: Vec<LeadingComment>)
    ensures
        leading_view(r@) == as_leading(comments_view(raw@)),
{
    let mut r: Vec<LeadingComment> = Vec::new();
    let mut i: usize = 0;
    while i < raw.len()
        invariant
            i <= raw@.len(),
            r@.len() == i,
            forall|j: int|
                0 <= j < i ==> (#[trigger] r@[j])@ == as_leading(comments_view(raw@))[j],
        decreases raw@.len() - i,
    {
        r.push(
            LeadingComment {
                text: strip_one_leading_space(raw[i].text.as_str()),
                line: raw[i].span.start.line,
            },
        );
        i = i + 1;
    }
    assert(leading_view(r@) =~= as_leading(comments_view(raw@)));
    r
}

/// Splits the documentation run off the end of some leading comments.
fn split_doc_run(leading: Vec<RawComment>) -> (r: (Option<DocComment>, Vec<LeadingComment>))
    requires
        lines_ok(comments_view(leading@)),
    ensures
        (opt_doc_view(r.0), leading_view(r.1@)) == split_doc(comments_view(leading@)),
{
    proof {
        reveal(split_doc);
    }
    let ghost l = comments_view(leading@);
    let n: usize = leading.len();
    let mut split_at: usize = n;
    let mut next_line: Option<u32> = None;
    while split_at > 0
        invariant
            n == leading@.len(),
            l == comments_view(leading@),
            split_at <= n,
            doc_start(l, split_at as int, next_line) == doc_start(l, n as int, None),
        ensures
            split_at <= n,
            split_at == doc_start(l, n as int, None),
        decreases split_at,
    {
        let c = &leading[split_at - 1];
        assert(l[split_at - 1] == c@);
        if !c.is_doc {
            break;
        }
        if let Some(next) = next_line {
            if c.span.start.line as u64 + 1 != next as u64 {
                break;
            }
        }
        next_line = Some(c.span.start.line);
        split_at = split_at - 1;
    }
    if split_at >= n {
        return (None, to_leading_comments(&leading));
    }
    let mut leading = leading;
    let doc_lines = leading.split_off(split_at);
    assert(comments_view(doc_lines@) =~= l.skip(split_at as int));
    assert(comments_view(leading@) =~= l.take(split_at as int));
    assert forall|i: int| 0 <= i < doc_lines@.len() implies (#[trigger] comments_view(
        doc_lines@,
    )[i]).span.start.line < u32::MAX by {
        assert(l[split_at + i] == comments_view(doc_lines@)[i]);
    }
    (Some(build_doc_comment(&doc_lines)), to_leading_comments(&leading))
}

/// A fence that is open.
struct OpenFence {
    tag: Option<String>,
    body_start_line: u32,
    body: Vec<String>,
    start: Span,
}

spec fn open_view(o: Option<OpenFence>) -> Option<FenceState> {
    match o {
        Some(f) => Some(
            FenceState {
                tag: opt_text(f.tag),
                body_start_line: f.body_start_line,
                body: texts(f.body@),
                start: f.start,
            },
        ),
        None => None,
    }
}

/// Whether a line opens or closes a fence.
fn fence_line(line: &str) -> (r: bool)
    ensures
        r == is_fence_line(line@),
{
    let t = trim(line);
    text_starts_with(t.as_str(), "```")
}

/// The language tag on the line that opens a fence.
fn lang_tag(line: &str) -> (r: Option<String>)
    ensures
        opt_text(r) == fence_tag(line@),
{
    let v = chars_of(line);
    let n: usize = v.len();
    let mut i: usize = 0;
    assert(v@.subrange(0, n as int) =~= line@);
    while i < n && v[i] == '`'
        invariant
            n == v@.len(),
            i <= n,
            drop_ticks(v@.subrange(i as int, n as int)) == drop_ticks(line@),
        decreases n - i,
    {
        assert(v@.subrange(i as int, n as int).drop_first() =~= v@.subrange(i + 1, n as int));
        i = i + 1;
    }
    let rest = sub_text(&v, i, n);
    let tag = trim(rest.as_str());
    if tag.as_str().is_empty() {
        None
    } else {
        Some(tag)
    }
}

/// Lines joined with line ends.
fn join_lines(lines: &Vec<String>) -> (r: String)
    ensures
        r@ == joined(texts(lines@)),
{
    let ghost t = texts(lines@);
    let mut r = String::new();
    let mut i: usize = 0;
    assert(t.take(0) =~= Seq::empty());
    while i < lines.len()
        invariant
            i <= lines@.len(),
            t == texts(lines@),
            r@ == joined(t.take(i as int)),
        decreases lines@.len() - i,
    {
        assert(t.take(i + 1).drop_last() =~= t.take(i as int));
        if i > 0 {
            r.append("\n");
        }
        r.append(lines[i].as_str());
        assert(r@ =~= joined(t.take(i + 1)));
        i = i + 1;
    }
    assert(t.take(t.len() as int) =~= t);
    r
}

/// The documentation comment made of some lines.
fn build_doc_comment(doc_lines: &Vec<RawComment>) -> (r: DocComment)
    requires
        doc_lines@.len() > 0,
        lines_ok(comments_view(doc_lines@)),
    ensures
        r@ == doc_of(comments_view(doc_lines@)),
{
    let ghost l = comments_view(doc_lines@);
    let n: usize = doc_lines.len();
    let span = Span {
        file: doc_lines[0].span.file,
        start: doc_lines[0].span.start,
        end: doc_lines[n - 1].span.end,
    };
    assert(l[0] == doc_lines@[0]@);
    assert(l.last() == doc_lines@[n - 1]@);
    let mut prose_lines: Vec<String> = Vec::new();
    let mut fences: Vec<DocFence> = Vec::new();
    let mut parts: Vec<DocPart> = Vec::new();
    let mut open: Option<OpenFence> = None;
    let mut i: usize = 0;
    assert(texts(prose_lines@) =~= Seq::empty());
    assert(fences_view(fences@) =~= Seq::empty());
    assert(parts@ =~= Seq::empty());
    while i < n
        invariant
            n == doc_lines@.len(),
            l == comments_view(doc_lines@),
            lines_ok(l),
            i <= n,
            doc_fold(l, i as int) == (DocState {
                prose_lines: texts(prose_lines@),
                fences: fences_view(fences@),
                parts: parts@,
                open: open_view(open),
            }),
        decreases n - i,
    {
        let ghost before = doc_fold(l, i as int);
        let ghost seen_prose = texts(prose_lines@);
        let ghost seen_fences = fences_view(fences@);
        let c = &doc_lines[i];
        assert(l[i as int] == c@);
        let line = strip_one_leading_space(c.text.as_str());
        let at_fence = fence_line(line.as_str());
        match open {
            Some(fence) => {
                if at_fence {
                    parts.push(DocPart::Fence(fences.len()));
                    let closed = DocFence {
                        lang_tag: fence.tag,
                        body_start_line: fence.body_start_line,
                        raw_text: join_lines(&fence.body),
                        span: Span {
                            file: fence.start.file,
                            start: fence.start.start,
                            end: c.span.end,
                        },
                    };
                    fences.push(closed);
                    assert(fences_view(fences@) =~= seen_fences.push(closed@));
                    open = None;
                } else {
                    let mut fence = fence;
                    let ghost seen_body = texts(fence.body@);
                    fence.body.push(line);
                    assert(texts(fence.body@) =~= seen_body.push(line@));
                    open = Some(fence);
                }
            },
            None => {
                if at_fence {
                    let t = trim(line.as_str());
                    let body: Vec<String> = Vec::new();
                    assert(texts(body@) =~= Seq::empty());
                    open = Some(
                        OpenFence {
                            tag: lang_tag(t.as_str()),
                            body_start_line: c.span.start.line + 1,
                            body,
                            start: c.span,
                        },
                    );
                } else {
                    parts.push(DocPart::Prose(prose_lines.len()));
                    prose_lines.push(line);
                    assert(texts(prose_lines@) =~= seen_prose.push(line@));
                    open = None;
                }
            },
        }
        i = i + 1;
        assert(doc_fold(l, i as int) == doc_step(before, c@));
    }
    DocComment { prose_lines, fences, parts, span }
}

/// A comment's text without the conventional space at its front.
fn strip_one_leading_space(text: &str) -> (r: String)
    ensures
        r@ == stripped(text@),
{
    let v = chars_of(text);
    let n: usize = v.len();
    if n > 0 && v[0] == ' ' {
        assert(v@.subrange(1, n as int) =~= text@.drop_first());
        sub_text(&v, 1, n)
    } else {
        assert(v@.subrange(0, n as int) =~= text@);
        sub_text(&v, 0, n)
    }
}

/// Attaches comments to the items of a module.
fn attach_to_items(v: &mut Vec<Item>, queue: &mut VecDeque<RawComment>)
    requires
        lines_ok(comments_view(old(queue)@)),
    ensures
        (items_view(final(v)@), comments_view(final(queue)@)) == attach_items(
            items_view(old(v)@),
            comments_view(old(queue)@),
        ),
        lines_ok(comments_view(final(queue)@)),
{
    let ghost s = items_view(v@);
    let ghost q0 = comments_view(queue@);
    let n: usize = v.len();
    let mut i: usize = 0;
    assert(s.take(0) =~= Seq::empty());
    assert(items_view(v@).take(0) =~= Seq::empty());
    while i < n
        invariant
            s == items_view(old(v)@),
            q0 == comments_view(old(queue)@),
            n == v@.len(),
            n == s.len(),
            i <= n,
            attach_items(s.take(i as int), q0) == (items_view(v@).take(i as int), comments_view(queue@)),
            v@.len() == old(v)@.len(),
            v@.skip(i as int) == old(v)@.skip(i as int),
            lines_ok(comments_view(queue@)),
        decreases n - i,
    {
        let ghost done = items_view(v@).take(i as int);
        let ghost w = v@;
        proof {
            assert(v@.skip(i as int)[0] == old(v)@.skip(i as int)[0]);
            assert(items_view(v@)[i as int] == s[i as int]);
            assert(decreases_to!(*old(v) => old(v)@));
            assert(decreases_to!(old(v)@ => old(v)@[i as int]));
        }
        attach_to_item(&mut v[i], queue);
        proof {
            assert(s.take(i + 1).drop_last() =~= s.take(i as int));
            assert(s.take(i + 1).last() == s[i as int]);
            assert(items_view(v@).take(i + 1) =~= done.push(items_view(v@)[i as int]));
            assert(v@ =~= w.update(i as int, v@[i as int]));
            lemma_skip_next(w, old(v)@, v@, i as int);
        }
        i = i + 1;
    }
    assert(s.take(n as int) =~= s);
    assert(items_view(v@).take(n as int) =~= items_view(v@));
}

fn attach_to_item(item: &mut Item, queue: &mut VecDeque<RawComment>)
    requires
        lines_ok(comments_view(old(queue)@)),
    ensures
        (final(item)@, comments_view(final(queue)@)) == attach_item(
            old(item)@,
            comments_view(old(queue)@),
        ),
        lines_ok(comments_view(final(queue)@)),
{
    match item {
        Item::Decl(Decl::Function(f)) => attach_to_function(f, queue),
        Item::Decl(Decl::Struct(s)) => attach_to_struct(s, queue),
        Item::Decl(Decl::Enum(e)) => attach_to_enum(e, queue),
        Item::Stmt(stmt) => attach_to_stmt(stmt, queue),
    }
}

fn attach_to_function(f: &mut FunctionDecl, queue: &mut VecDeque<RawComment>)
    requires
        lines_ok(comments_view(old(queue)@)),
    ensures
        (final(f)@, comments_view(final(queue)@)) == attach_function(
            old(f)@,
            comments_view(old(queue)@),
        ),
        lines_ok(comments_view(final(queue)@)),
{
    let leading = take_leading_upto(queue, f.span.start.line);
    let (doc, generic) = split_doc_run(leading);
    f.leading_comments = generic;
    f.doc_comment = doc;
    attach_to_block(&mut f.body, queue);
}

/// Attaches comments to the methods of a struct.
fn attach_to_functions(v: &mut Vec<FunctionDecl>, queue: &mut VecDeque<RawComment>)
    requires
        lines_ok(comments_view(old(queue)@)),
    ensures
        (functions_view(final(v)@), comments_view(final(queue)@)) == attach_functions(
            functions_view(old(v)@),
            comments_view(old(queue)@),
        ),
        lines_ok(comments_view(final(queue)@)),
{
    let ghost s = functions_view(v@);
    let ghost q0 = comments_view(queue@);
    let n: usize = v.len();
    let mut i: usize = 0;
    assert(s.take(0) =~= Seq::empty());
    assert(functions_view(v@).take(0) =~= Seq::empty());
    while i < n
        invariant
            s == functions_view(old(v)@),
            q0 == comments_view(old(queue)@),
            n == v@.len(),
            n == s.len(),
            i <= n,
            attach_functions(s.take(i as int), q0) == (functions_view(v@).take(i as int), comments_view(queue@)),
            v@.len() == old(v)@.len(),
            v@.skip(i as int) == old(v)@.skip(i as int),
            lines_ok(comments_view(queue@)),
        decreases n - i,
    {
        let ghost done = functions_view(v@).take(i as int);
        let ghost w = v@;
        proof {
            assert(v@.skip(i as int)[0] == old(v)@.skip(i as int)[0]);
            assert(functions_view(v@)[i as int] == s[i as int]);
            assert(decreases_to!(*old(v) => old(v)@));
            assert(decreases_to!(old(v)@ => old(v)@[i as int]));
        }
        attach_to_function(&mut v[i], queue);
        proof {
            assert(s.take(i + 1).drop_last() =~= s.take(i as int));
            assert(s.take(i + 1).last() == s[i as int]);
            assert(functions_view(v@).take(i + 1) =~= done.push(functions_view(v@)[i as int]));
            assert(v@ =~= w.update(i as int, v@[i as int]));
            lemma_skip_next(w, old(v)@, v@, i as int);
        }
        i = i + 1;
    }
    assert(s.take(n as int) =~= s);
    assert(functions_view(v@).take(n as int) =~= functions_view(v@));
}

fn attach_to_struct(s: &mut StructDecl, queue: &mut VecDeque<RawComment>)
    requires
        lines_ok(comments_view(old(queue)@)),
    ensures
        (final(s)@, comments_view(final(queue)@)) == attach_struct(
            old(s)@,
            comments_view(old(queue)@),
        ),
        lines_ok(comments_view(final(queue)@)),
{
    let leading = take_leading_upto(queue, s.span.start.line);
    let (doc, generic) = split_doc_run(leading);
    s.leading_comments = generic;
    s.doc_comment = doc;
    let (leads, trails) = field_comments(&s.fields, queue);
    s.field_leading_comments = leads;
    s.field_trailing_comments = trails;
    attach_to_functions(&mut s.methods, queue);
}

/// The comments before each field and the trailing comment of each.
fn field_comments(fields: &Vec<Param>, queue: &mut VecDeque<RawComment>) -> (r: (
    Vec<Vec<LeadingComment>>,
    Vec<Option<String>>,
))
    requires
        lines_ok(comments_view(old(queue)@)),
    ensures
        (leading_lists_view(r.0@), opt_texts(r.1@), comments_view(final(queue)@)) == attach_fields(
            params_view(fields@),
            comments_view(old(queue)@),
        ),
        lines_ok(comments_view(final(queue)@)),
{
    let ghost s = params_view(fields@);
    let ghost q0 = comments_view(queue@);
    let mut leads: Vec<Vec<LeadingComment>> = Vec::new();
    let mut trails: Vec<Option<String>> = Vec::new();
    let mut i: usize = 0;
    assert(s.take(0) =~= Seq::empty());
    assert(leading_lists_view(leads@) =~= Seq::empty());
    assert(opt_texts(trails@) =~= Seq::empty());
    while i < fields.len()
        invariant
            s == params_view(fields@),
            i <= fields@.len(),
            attach_fields(s.take(i as int), q0) == (
                leading_lists_view(leads@),
                opt_texts(trails@),
                comments_view(queue@),
            ),
            lines_ok(comments_view(queue@)),
        decreases fields@.len() - i,
    {
        let ghost seen_leads = leading_lists_view(leads@);
        let ghost seen_trails = opt_texts(trails@);
        assert(s[i as int] == fields@[i as int]@);
        let taken = take_leading_upto(queue, fields[i].span.start.line);
        let lead = to_leading_comments(&taken);
        let trail = take_trailing(queue, fields[i].span.end.line);
        leads.push(lead);
        trails.push(trail);
        proof {
            assert(s.take(i + 1).drop_last() =~= s.take(i as int));
            assert(leading_lists_view(leads@) =~= seen_leads.push(leading_view(lead@)));
            assert(opt_texts(trails@) =~= seen_trails.push(opt_text(trail)));
        }
        i = i + 1;
    }
    assert(s.take(s.len() as int) =~= s);
    (leads, trails)
}

fn attach_to_enum(e: &mut EnumDecl, queue: &mut VecDeque<RawComment>)
    requires
        lines_ok(comments_view(old(queue)@)),
    ensures
        (final(e)@, comments_view(final(queue)@)) == attach_enum(
            old(e)@,
            comments_view(old(queue)@),
        ),
        lines_ok(comments_view(final(queue)@)),
{
    let leading = take_leading_upto(queue, e.span.start.line);
    let (doc, generic) = split_doc_run(leading);
    e.leading_comments = generic;
    e.doc_comment = doc;
    attach_to_variants(&mut e.variants, queue);
}

/// Attaches comments to the variants of an enum.
fn attach_to_variants(v: &mut Vec<EnumVariant>, queue: &mut VecDeque<RawComment>)
    requires
        lines_ok(comments_view(old(queue)@)),
    ensures
        (variants_view(final(v)@), comments_view(final(queue)@)) == attach_variants(
            variants_view(old(v)@),
            comments_view(old(queue)@),
        ),
        lines_ok(comments_view(final(queue)@)),
{
    let ghost s = variants_view(v@);
    let ghost q0 = comments_view(queue@);
    let n: usize = v.len();
    let mut i: usize = 0;
    assert(s.take(0) =~= Seq::empty());
    assert(variants_view(v@).take(0) =~= Seq::empty());
    while i < n
        invariant
            s == variants_view(old(v)@),
            q0 == comments_view(old(queue)@),
            n == v@.len(),
            n == s.len(),
            i <= n,
            attach_variants(s.take(i as int), q0) == (variants_view(v@).take(i as int), comments_view(queue@)),
            v@.len() == old(v)@.len(),
            v@.skip(i as int) == old(v)@.skip(i as int),
            lines_ok(comments_view(queue@)),
        decreases n - i,
    {
        let ghost done = variants_view(v@).take(i as int);
        let ghost w = v@;
        proof {
            assert(v@.skip(i as int)[0] == old(v)@.skip(i as int)[0]);
            assert(variants_view(v@)[i as int] == s[i as int]);
            assert(decreases_to!(*old(v) => old(v)@));
            assert(decreases_to!(old(v)@ => old(v)@[i as int]));
        }
        attach_to_variant(&mut v[i], queue);
        proof {
            assert(s.take(i + 1).drop_last() =~= s.take(i as int));
            assert(s.take(i + 1).last() == s[i as int]);
            assert(variants_view(v@).take(i + 1) =~= done.push(variants_view(v@)[i as int]));
            assert(v@ =~= w.update(i as int, v@[i as int]));
            lemma_skip_next(w, old(v)@, v@, i as int);
        }
        i = i + 1;
    }
    assert(s.take(n as int) =~= s);
    assert(variants_view(v@).take(n as int) =~= variants_view(v@));
}

fn attach_to_variant(variant: &mut EnumVariant, queue: &mut VecDeque<RawComment>)
    requires
        lines_ok(comments_view(old(queue)@)),
    ensures
        (final(variant)@, comments_view(final(queue)@)) == attach_variant(
            old(variant)@,
            comments_view(old(queue)@),
        ),
        lines_ok(comments_view(final(queue)@)),
{
    let leading = take_leading_upto(queue, variant.span.start.line);
    variant.leading_comments = to_leading_comments(&leading);
    variant.trailing_comment = take_trailing(queue, variant.span.end.line);
}

fn attach_to_stmt(stmt: &mut Stmt, queue: &mut VecDeque<RawComment>)
    requires
        lines_ok(comments_view(old(queue)@)),
    ensures
        (final(stmt)@, comments_view(final(queue)@)) == attach_stmt(
            old(stmt)@,
            comments_view(old(queue)@),
        ),
        lines_ok(comments_view(final(queue)@)),
    decreases *old(stmt),
{
    proof {
        lemma_stmt_view(*stmt);
    }
    let leading = take_leading_upto(queue, stmt.span.start.line);
    let named = match &stmt.kind {
        StmtKind::NameAssign { .. } => true,
        _ => false,
    };
    proof {
        lemma_stmt_kind_view(stmt.kind);
    }
    let (doc, generic) = if named {
        split_doc_run(leading)
    } else {
        (None, to_leading_comments(&leading))
    };
    stmt.doc_comment = doc;
    stmt.leading_comments = generic;
    stmt.trailing_comment = take_trailing(queue, stmt.span.end.line);
    attach_within_stmt(&mut stmt.kind, queue);
    proof {
        lemma_stmt_view(*stmt);
    }
}

fn attach_to_block(block: &mut Block, queue: &mut VecDeque<RawComment>)
    requires
        lines_ok(comments_view(old(queue)@)),
    ensures
        (final(block)@, comments_view(final(queue)@)) == attach_block(
            old(block)@,
            comments_view(old(queue)@),
        ),
        lines_ok(comments_view(final(queue)@)),
    decreases *old(block),
{
    proof {
        lemma_block_view(*block);
    }
    attach_to_stmts(&mut block.stmts, queue);
    proof {
        lemma_block_view(*block);
    }
}

/// Attaches comments to some statements.
fn attach_to_stmts(v: &mut Vec<Stmt>, queue: &mut VecDeque<RawComment>)
    requires
        lines_ok(comments_view(old(queue)@)),
    ensures
        (stmts_view(final(v)@), comments_view(final(queue)@)) == attach_stmts(
            stmts_view(old(v)@),
            comments_view(old(queue)@),
        ),
        lines_ok(comments_view(final(queue)@)),
    decreases *old(v),
{
    let ghost s = stmts_view(v@);
    let ghost q0 = comments_view(queue@);
    let n: usize = v.len();
    let mut i: usize = 0;
    assert(s.take(0) =~= Seq::empty());
    assert(stmts_view(v@).take(0) =~= Seq::empty());
    while i < n
        invariant
            s == stmts_view(old(v)@),
            q0 == comments_view(old(queue)@),
            n == v@.len(),
            n == s.len(),
            i <= n,
            attach_stmts(s.take(i as int), q0) == (stmts_view(v@).take(i as int), comments_view(queue@)),
            v@.len() == old(v)@.len(),
            v@.skip(i as int) == old(v)@.skip(i as int),
            lines_ok(comments_view(queue@)),
        decreases n - i,
    {
        let ghost done = stmts_view(v@).take(i as int);
        let ghost w = v@;
        proof {
            assert(v@.skip(i as int)[0] == old(v)@.skip(i as int)[0]);
            assert(stmts_view(v@)[i as int] == s[i as int]);
            assert(decreases_to!(*old(v) => old(v)@));
            assert(decreases_to!(old(v)@ => old(v)@[i as int]));
        }
        attach_to_stmt(&mut v[i], queue);
        proof {
            assert(s.take(i + 1).drop_last() =~= s.take(i as int));
            assert(s.take(i + 1).last() == s[i as int]);
            assert(stmts_view(v@).take(i + 1) =~= done.push(stmts_view(v@)[i as int]));
            assert(v@ =~= w.update(i as int, v@[i as int]));
            lemma_skip_next(w, old(v)@, v@, i as int);
        }
        i = i + 1;
    }
    assert(s.take(n as int) =~= s);
    assert(stmts_view(v@).take(n as int) =~= stmts_view(v@));
}

/// Attaches comments inside the expressions of a statement.
fn attach_within_stmt(kind: &mut StmtKind, queue: &mut VecDeque<RawComment>)
    requires
        lines_ok(comments_view(old(queue)@)),
    ensures
        (final(kind)@, comments_view(final(queue)@)) == attach_stmt_kind(
            old(kind)@,
            comments_view(old(queue)@),
        ),
        lines_ok(comments_view(final(queue)@)),
    decreases *old(kind),
{
    proof {
        lemma_stmt_kind_view(*kind);
    }
    match kind {
        StmtKind::VarDecl { name: _, ty: _, value } => attach_within_expr(value, queue),
        StmtKind::NameAssign { name: _, ty: _, value } => attach_within_expr(value, queue),
        StmtKind::FieldAssign { target, field: _, value } => {
            attach_within_expr(target, queue);
            attach_within_expr(value, queue);
        },
        StmtKind::IndexAssign { target, index, value } => {
            attach_within_expr(target, queue);
            attach_within_expr(index, queue);
            attach_within_expr(value, queue);
        },
        StmtKind::Discard(expr) => attach_within_expr(expr, queue),
        StmtKind::ExprStmt(expr) => attach_within_expr(expr, queue),
        StmtKind::Return(Some(expr)) => attach_within_expr(expr, queue),
        StmtKind::Return(None) => {},
    }
    proof {
        lemma_stmt_kind_view(*kind);
    }
}

/// Attaches comments to the statements and arms inside an expression.
fn attach_within_expr(expr: &mut Expr, queue: &mut VecDeque<RawComment>)
    requires
        lines_ok(comments_view(old(queue)@)),
    ensures
        (final(expr)@, comments_view(final(queue)@)) == attach_expr(
            old(expr)@,
            comments_view(old(queue)@),
        ),
        lines_ok(comments_view(final(queue)@)),
    decreases *old(expr),
{
    proof {
        lemma_expr_view(*expr);
    }
    attach_within_kind(&mut expr.kind, queue);
    proof {
        lemma_expr_view(*expr);
    }
}

fn attach_within_kind(kind: &mut ExprKind, queue: &mut VecDeque<RawComment>)
    requires
        lines_ok(comments_view(old(queue)@)),
    ensures
        (final(kind)@, comments_view(final(queue)@)) == attach_kind(
            old(kind)@,
            comments_view(old(queue)@),
        ),
        lines_ok(comments_view(final(queue)@)),
    decreases *old(kind),
{
    proof {
        lemma_expr_kind_view(*kind);
    }
    match kind {
        ExprKind::IntLit(_)
        | ExprKind::FloatLit(_)
        | ExprKind::BoolLit(_)
        | ExprKind::StringLit(_)
        | ExprKind::Ident(_) => {},
        ExprKind::FString(segments) => attach_within_segments(segments, queue),
        ExprKind::ListLit { elements, was_multiline: _ } => attach_within_exprs(elements, queue),
        ExprKind::SetLit { elements, was_multiline: _ } => attach_within_exprs(elements, queue),
        ExprKind::TupleLit { elements, was_multiline: _ } => attach_within_exprs(elements, queue),
        ExprKind::Par { kind: _, elements } => attach_within_exprs(elements, queue),
        ExprKind::DictLit { entries, was_multiline: _ } => attach_within_entries(entries, queue),
        ExprKind::Unary { op: _, operand } => attach_within_expr(operand, queue),
        ExprKind::Binary { op: _, lhs, rhs } => {
            attach_within_expr(lhs, queue);
            attach_within_expr(rhs, queue);
        },
        ExprKind::Call { callee, type_args: _, args, was_multiline: _ } => {
            attach_within_expr(callee, queue);
            attach_within_args(args, queue);
        },
        ExprKind::MethodCall { receiver, method: _, type_args: _, args, was_multiline: _ } => {
            attach_within_expr(receiver, queue);
            attach_within_args(args, queue);
        },
        ExprKind::FieldAccess { target, field: _ } => attach_within_expr(target, queue),
        ExprKind::TupleIndex { target, index: _ } => attach_within_expr(target, queue),
        ExprKind::Index { target, index } => {
            attach_within_expr(target, queue);
            attach_within_expr(index, queue);
        },
        ExprKind::Question { target } => attach_within_expr(target, queue),
        ExprKind::Pipe(pipe) => {
            attach_within_expr(&mut pipe.source, queue);
            attach_within_stages(&mut pipe.stages, queue);
        },
        ExprKind::Lambda { params: _, body } => attach_within_expr(body, queue),
        ExprKind::If(if_expr) => attach_within_if(if_expr, queue),
        ExprKind::Match { scrutinee, arms } => {
            attach_within_expr(scrutinee, queue);
            attach_to_match_arms(arms, queue);
        },
        ExprKind::Grouping(inner) => attach_within_expr(inner, queue),
    }
    proof {
        lemma_expr_kind_view(*kind);
    }
}

/// Attaches comments inside some expressions.
fn attach_within_exprs(v: &mut Vec<Expr>, queue: &mut VecDeque<RawComment>)
    requires
        lines_ok(comments_view(old(queue)@)),
    ensures
        (exprs_view(final(v)@), comments_view(final(queue)@)) == attach_exprs(
            exprs_view(old(v)@),
            comments_view(old(queue)@),
        ),
        lines_ok(comments_view(final(queue)@)),
    decreases *old(v),
{
    let ghost s = exprs_view(v@);
    let ghost q0 = comments_view(queue@);
    let n: usize = v.len();
    let mut i: usize = 0;
    assert(s.take(0) =~= Seq::empty());
    assert(exprs_view(v@).take(0) =~= Seq::empty());
    while i < n
        invariant
            s == exprs_view(old(v)@),
            q0 == comments_view(old(queue)@),
            n == v@.len(),
            n == s.len(),
            i <= n,
            attach_exprs(s.take(i as int), q0) == (exprs_view(v@).take(i as int), comments_view(queue@)),
            v@.len() == old(v)@.len(),
            v@.skip(i as int) == old(v)@.skip(i as int),
            lines_ok(comments_view(queue@)),
        decreases n - i,
    {
        let ghost done = exprs_view(v@).take(i as int);
        let ghost w = v@;
        proof {
            assert(v@.skip(i as int)[0] == old(v)@.skip(i as int)[0]);
            assert(exprs_view(v@)[i as int] == s[i as int]);
            assert(decreases_to!(*old(v) => old(v)@));
            assert(decreases_to!(old(v)@ => old(v)@[i as int]));
        }
        attach_within_expr(&mut v[i], queue);
        proof {
            assert(s.take(i + 1).drop_last() =~= s.take(i as int));
            assert(s.take(i + 1).last() == s[i as int]);
            assert(exprs_view(v@).take(i + 1) =~= done.push(exprs_view(v@)[i as int]));
            assert(v@ =~= w.update(i as int, v@[i as int]));
            lemma_skip_next(w, old(v)@, v@, i as int);
        }
        i = i + 1;
    }
    assert(s.take(n as int) =~= s);
    assert(exprs_view(v@).take(n as int) =~= exprs_view(v@));
}

/// Attaches comments inside the entries of a dictionary.
fn attach_within_entries(v: &mut Vec<(Expr, Expr)>, queue: &mut VecDeque<RawComment>)
    requires
        lines_ok(comments_view(old(queue)@)),
    ensures
        (entries_view(final(v)@), comments_view(final(queue)@)) == attach_entries(
            entries_view(old(v)@),
            comments_view(old(queue)@),
        ),
        lines_ok(comments_view(final(queue)@)),
    decreases *old(v),
{
    let ghost s = entries_view(v@);
    let ghost q0 = comments_view(queue@);
    let n: usize = v.len();
    let mut i: usize = 0;
    assert(s.take(0) =~= Seq::empty());
    assert(entries_view(v@).take(0) =~= Seq::empty());
    while i < n
        invariant
            s == entries_view(old(v)@),
            q0 == comments_view(old(queue)@),
            n == v@.len(),
            n == s.len(),
            i <= n,
            attach_entries(s.take(i as int), q0) == (entries_view(v@).take(i as int), comments_view(queue@)),
            v@.len() == old(v)@.len(),
            v@.skip(i as int) == old(v)@.skip(i as int),
            lines_ok(comments_view(queue@)),
        decreases n - i,
    {
        let ghost done = entries_view(v@).take(i as int);
        let ghost w = v@;
        proof {
            assert(v@.skip(i as int)[0] == old(v)@.skip(i as int)[0]);
            assert(entries_view(v@)[i as int] == s[i as int]);
            assert(decreases_to!(*old(v) => old(v)@));
            assert(decreases_to!(old(v)@ => old(v)@[i as int]));
        }
        let entry = &mut v[i];
        attach_within_expr(&mut entry.0, queue);
        attach_within_expr(&mut entry.1, queue);
        proof {
            assert(s.take(i + 1).drop_last() =~= s.take(i as int));
            assert(s.take(i + 1).last() == s[i as int]);
            assert(entries_view(v@).take(i + 1) =~= done.push(entries_view(v@)[i as int]));
            assert(v@ =~= w.update(i as int, v@[i as int]));
            lemma_skip_next(w, old(v)@, v@, i as int);
        }
        i = i + 1;
    }
    assert(s.take(n as int) =~= s);
    assert(entries_view(v@).take(n as int) =~= entries_view(v@));
}

/// Attaches comments inside the segments of an f-string.
fn attach_within_segments(v: &mut Vec<FStringSegment>, queue: &mut VecDeque<RawComment>)
    requires
        lines_ok(comments_view(old(queue)@)),
    ensures
        (segments_view(final(v)@), comments_view(final(queue)@)) == attach_segments(
            segments_view(old(v)@),
            comments_view(old(queue)@),
        ),
        lines_ok(comments_view(final(queue)@)),
    decreases *old(v),
{
    let ghost s = segments_view(v@);
    let ghost q0 = comments_view(queue@);
    let n: usize = v.len();
    let mut i: usize = 0;
    assert(s.take(0) =~= Seq::empty());
    assert(segments_view(v@).take(0) =~= Seq::empty());
    while i < n
        invariant
            s == segments_view(old(v)@),
            q0 == comments_view(old(queue)@),
            n == v@.len(),
            n == s.len(),
            i <= n,
            attach_segments(s.take(i as int), q0) == (segments_view(v@).take(i as int), comments_view(queue@)),
            v@.len() == old(v)@.len(),
            v@.skip(i as int) == old(v)@.skip(i as int),
            lines_ok(comments_view(queue@)),
        decreases n - i,
    {
        let ghost done = segments_view(v@).take(i as int);
        let ghost w = v@;
        proof {
            assert(v@.skip(i as int)[0] == old(v)@.skip(i as int)[0]);
            assert(segments_view(v@)[i as int] == s[i as int]);
            assert(decreases_to!(*old(v) => old(v)@));
            assert(decreases_to!(old(v)@ => old(v)@[i as int]));
        }
        attach_within_segment(&mut v[i], queue);
        proof {
            assert(s.take(i + 1).drop_last() =~= s.take(i as int));
            assert(s.take(i + 1).last() == s[i as int]);
            assert(segments_view(v@).take(i + 1) =~= done.push(segments_view(v@)[i as int]));
            assert(v@ =~= w.update(i as int, v@[i as int]));
            lemma_skip_next(w, old(v)@, v@, i as int);
        }
        i = i + 1;
    }
    assert(s.take(n as int) =~= s);
    assert(segments_view(v@).take(n as int) =~= segments_view(v@));
}

fn attach_within_segment(segment: &mut FStringSegment, queue: &mut VecDeque<RawComment>)
    requires
        lines_ok(comments_view(old(queue)@)),
    ensures
        (final(segment)@, comments_view(final(queue)@)) == attach_segment(
            old(segment)@,
            comments_view(old(queue)@),
        ),
        lines_ok(comments_view(final(queue)@)),
    decreases *old(segment),
{
    proof {
        lemma_fstring_segment_view(*segment);
    }
    match segment {
        FStringSegment::Text(_) => {},
        FStringSegment::Expr(e) => attach_within_expr(e, queue),
    }
    proof {
        lemma_fstring_segment_view(*segment);
    }
}

/// Attaches comments inside some arguments.
fn attach_within_args(v: &mut Vec<Arg>, queue: &mut VecDeque<RawComment>)
    requires
        lines_ok(comments_view(old(queue)@)),
    ensures
        (args_view(final(v)@), comments_view(final(queue)@)) == attach_args(
            args_view(old(v)@),
            comments_view(old(queue)@),
        ),
        lines_ok(comments_view(final(queue)@)),
    decreases *old(v),
{
    let ghost s = args_view(v@);
    let ghost q0 = comments_view(queue@);
    let n: usize = v.len();
    let mut i: usize = 0;
    assert(s.take(0) =~= Seq::empty());
    assert(args_view(v@).take(0) =~= Seq::empty());
    while i < n
        invariant
            s == args_view(old(v)@),
            q0 == comments_view(old(queue)@),
            n == v@.len(),
            n == s.len(),
            i <= n,
            attach_args(s.take(i as int), q0) == (args_view(v@).take(i as int), comments_view(queue@)),
            v@.len() == old(v)@.len(),
            v@.skip(i as int) == old(v)@.skip(i as int),
            lines_ok(comments_view(queue@)),
        decreases n - i,
    {
        let ghost done = args_view(v@).take(i as int);
        let ghost w = v@;
        proof {
            assert(v@.skip(i as int)[0] == old(v)@.skip(i as int)[0]);
            assert(args_view(v@)[i as int] == s[i as int]);
            assert(decreases_to!(*old(v) => old(v)@));
            assert(decreases_to!(old(v)@ => old(v)@[i as int]));
        }
        attach_within_arg(&mut v[i], queue);
        proof {
            assert(s.take(i + 1).drop_last() =~= s.take(i as int));
            assert(s.take(i + 1).last() == s[i as int]);
            assert(args_view(v@).take(i + 1) =~= done.push(args_view(v@)[i as int]));
            assert(v@ =~= w.update(i as int, v@[i as int]));
            lemma_skip_next(w, old(v)@, v@, i as int);
        }
        i = i + 1;
    }
    assert(s.take(n as int) =~= s);
    assert(args_view(v@).take(n as int) =~= args_view(v@));
}

fn attach_within_arg(arg: &mut Arg, queue: &mut VecDeque<RawComment>)
    requires
        lines_ok(comments_view(old(queue)@)),
    ensures
        (final(arg)@, comments_view(final(queue)@)) == attach_arg(
            old(arg)@,
            comments_view(old(queue)@),
        ),
        lines_ok(comments_view(final(queue)@)),
    decreases *old(arg),
{
    proof {
        lemma_arg_view(*arg);
    }
    attach_within_expr(&mut arg.value, queue);
    proof {
        lemma_arg_view(*arg);
    }
}

/// Attaches comments inside the stages of a pipe.
fn attach_within_stages(v: &mut Vec<PipeStage>, queue: &mut VecDeque<RawComment>)
    requires
        lines_ok(comments_view(old(queue)@)),
    ensures
        (stages_view(final(v)@), comments_view(final(queue)@)) == attach_stages(
            stages_view(old(v)@),
            comments_view(old(queue)@),
        ),
        lines_ok(comments_view(final(queue)@)),
    decreases *old(v),
{
    let ghost s = stages_view(v@);
    let ghost q0 = comments_view(queue@);
    let n: usize = v.len();
    let mut i: usize = 0;
    assert(s.take(0) =~= Seq::empty());
    assert(stages_view(v@).take(0) =~= Seq::empty());
    while i < n
        invariant
            s == stages_view(old(v)@),
            q0 == comments_view(old(queue)@),
            n == v@.len(),
            n == s.len(),
            i <= n,
            attach_stages(s.take(i as int), q0) == (stages_view(v@).take(i as int), comments_view(queue@)),
            v@.len() == old(v)@.len(),
            v@.skip(i as int) == old(v)@.skip(i as int),
            lines_ok(comments_view(queue@)),
        decreases n - i,
    {
        let ghost done = stages_view(v@).take(i as int);
        let ghost w = v@;
        proof {
            assert(v@.skip(i as int)[0] == old(v)@.skip(i as int)[0]);
            assert(stages_view(v@)[i as int] == s[i as int]);
            assert(decreases_to!(*old(v) => old(v)@));
            assert(decreases_to!(old(v)@ => old(v)@[i as int]));
        }
        attach_within_stage(&mut v[i], queue);
        proof {
            assert(s.take(i + 1).drop_last() =~= s.take(i as int));
            assert(s.take(i + 1).last() == s[i as int]);
            assert(stages_view(v@).take(i + 1) =~= done.push(stages_view(v@)[i as int]));
            assert(v@ =~= w.update(i as int, v@[i as int]));
            lemma_skip_next(w, old(v)@, v@, i as int);
        }
        i = i + 1;
    }
    assert(s.take(n as int) =~= s);
    assert(stages_view(v@).take(n as int) =~= stages_view(v@));
}

fn attach_within_stage(stage: &mut PipeStage, queue: &mut VecDeque<RawComment>)
    requires
        lines_ok(comments_view(old(queue)@)),
    ensures
        (final(stage)@, comments_view(final(queue)@)) == attach_stage(
            old(stage)@,
            comments_view(old(queue)@),
        ),
        lines_ok(comments_view(final(queue)@)),
    decreases *old(stage),
{
    proof {
        lemma_pipe_stage_view(*stage);
    }
    attach_within_callee(&mut stage.callee, queue);
    proof {
        lemma_pipe_stage_view(*stage);
    }
}

fn attach_within_callee(callee: &mut PipeCallee, queue: &mut VecDeque<RawComment>)
    requires
        lines_ok(comments_view(old(queue)@)),
    ensures
        (final(callee)@, comments_view(final(queue)@)) == attach_callee(
            old(callee)@,
            comments_view(old(queue)@),
        ),
        lines_ok(comments_view(final(queue)@)),
    decreases *old(callee),
{
    proof {
        lemma_pipe_callee_view(*callee);
    }
    match callee {
        PipeCallee::Bare(e) => attach_within_expr(e, queue),
        PipeCallee::WithArgs { callee, args } => {
            attach_within_expr(callee, queue);
            attach_within_args(args, queue);
        },
    }
    proof {
        lemma_pipe_callee_view(*callee);
    }
}

fn attach_within_if(if_expr: &mut IfExpr, queue: &mut VecDeque<RawComment>)
    requires
        lines_ok(comments_view(old(queue)@)),
    ensures
        (final(if_expr)@, comments_view(final(queue)@)) == attach_if(
            old(if_expr)@,
            comments_view(old(queue)@),
        ),
        lines_ok(comments_view(final(queue)@)),
    decreases *old(if_expr),
{
    proof {
        lemma_if_expr_view(*if_expr);
    }
    attach_within_expr(&mut if_expr.cond, queue);
    attach_to_block(&mut if_expr.then_branch, queue);
    attach_within_else(&mut if_expr.else_branch, queue);
    proof {
        lemma_if_expr_view(*if_expr);
    }
}

fn attach_within_else(branch: &mut ElseBranch, queue: &mut VecDeque<RawComment>)
    requires
        lines_ok(comments_view(old(queue)@)),
    ensures
        (final(branch)@, comments_view(final(queue)@)) == attach_else(
            old(branch)@,
            comments_view(old(queue)@),
        ),
        lines_ok(comments_view(final(queue)@)),
    decreases *old(branch),
{
    proof {
        lemma_else_branch_view(*branch);
    }
    match branch {
        ElseBranch::Block(block) => attach_to_block(block, queue),
        ElseBranch::ElseIf(inner_if) => attach_within_if(inner_if, queue),
    }
    proof {
        lemma_else_branch_view(*branch);
    }
}

/// Attaches comments to the arms of a match.
fn attach_to_match_arms(v: &mut Vec<MatchArm>, queue: &mut VecDeque<RawComment>)
    requires
        lines_ok(comments_view(old(queue)@)),
    ensures
        (arms_view(final(v)@), comments_view(final(queue)@)) == attach_arms(
            arms_view(old(v)@),
            comments_view(old(queue)@),
        ),
        lines_ok(comments_view(final(queue)@)),
    decreases *old(v),
{
    let ghost s = arms_view(v@);
    let ghost q0 = comments_view(queue@);
    let n: usize = v.len();
    let mut i: usize = 0;
    assert(s.take(0) =~= Seq::empty());
    assert(arms_view(v@).take(0) =~= Seq::empty());
    while i < n
        invariant
            s == arms_view(old(v)@),
            q0 == comments_view(old(queue)@),
            n == v@.len(),
            n == s.len(),
            i <= n,
            attach_arms(s.take(i as int), q0) == (arms_view(v@).take(i as int), comments_view(queue@)),
            v@.len() == old(v)@.len(),
            v@.skip(i as int) == old(v)@.skip(i as int),
            lines_ok(comments_view(queue@)),
        decreases n - i,
    {
        let ghost done = arms_view(v@).take(i as int);
        let ghost w = v@;
        proof {
            assert(v@.skip(i as int)[0] == old(v)@.skip(i as int)[0]);
            assert(arms_view(v@)[i as int] == s[i as int]);
            assert(decreases_to!(*old(v) => old(v)@));
            assert(decreases_to!(old(v)@ => old(v)@[i as int]));
        }
        attach_to_arm(&mut v[i], queue);
        proof {
            assert(s.take(i + 1).drop_last() =~= s.take(i as int));
            assert(s.take(i + 1).last() == s[i as int]);
            assert(arms_view(v@).take(i + 1) =~= done.push(arms_view(v@)[i as int]));
            assert(v@ =~= w.update(i as int, v@[i as int]));
            lemma_skip_next(w, old(v)@, v@, i as int);
        }
        i = i + 1;
    }
    assert(s.take(n as int) =~= s);
    assert(arms_view(v@).take(n as int) =~= arms_view(v@));
}

fn attach_to_arm(arm: &mut MatchArm, queue: &mut VecDeque<RawComment>)
    requires
        lines_ok(comments_view(old(queue)@)),
    ensures
        (final(arm)@, comments_view(final(queue)@)) == attach_arm(
            old(arm)@,
            comments_view(old(queue)@),
        ),
        lines_ok(comments_view(final(queue)@)),
    decreases *old(arm),
{
    proof {
        lemma_match_arm_view(*arm);
    }
    let leading = take_leading_upto(queue, arm.span.start.line);
    arm.leading_comments = to_leading_comments(&leading);
    arm.trailing_comment = take_trailing(queue, arm.span.end.line);
    attach_within_arm_body(&mut arm.body, queue);
    proof {
        lemma_match_arm_view(*arm);
    }
}

fn attach_within_arm_body(body: &mut MatchArmBody, queue: &mut VecDeque<RawComment>)
    requires
        lines_ok(comments_view(old(queue)@)),
    ensures
        (final(body)@, comments_view(final(queue)@)) == attach_arm_body(
            old(body)@,
            comments_view(old(queue)@),
        ),
        lines_ok(comments_view(final(queue)@)),
    decreases *old(body),
{
    proof {
        lemma_match_arm_body_view(*body);
    }
    match body {
        MatchArmBody::Expr(e) => attach_within_expr(e, queue),
        MatchArmBody::Block(block) => attach_to_block(block, queue),
    }
    proof {
        lemma_match_arm_body_view(*body);
    }
}

} // verus!
