//! What the server does with the calls that come in.
//!
//! The server keeps the open documents and what was found out about each of them. A call gives
//! the messages to send, and says whether the open documents have to be analysed anew. What an
//! analysis comes to is then handed in.

use super::json::{
    json_arr, json_null, json_str, jsons_view, obj_v, opt_json, pairs_view, Json, JsonV,
};
use super::message::{
    change_text, changed_text, choose_encoding, diagnostic_json, diagnostic_v, encoding_of,
    failure, failure_v, has_options, initialize_result, initialize_v, lsp_position, open_text,
    opened_text, options_given, owned_json, position_of, publication, publication_v, range_json,
    range_v, response, response_v, INVALID_PARAMS, METHOD_NOT_FOUND,
};
use super::pos::{
    document_end, end_of, from_lsp_pos, lsp_range, pos_of_lsp, span_to_range, Encoding,
};
use super::query::{
    defined_at, definition_span, expr_at, found_at, ty_of_from, ExprAtV, Place, Resolutions,
};
use super::uri::{opt_str, path_to_uri, uri_of_path};
use crate::ast::{Module, ModuleV, NodeId};
use crate::diagnostics::{FileId, Span};
use crate::eval::env::{Program, ProgramV};
use crate::lexer::{well_lexed, RawComment, RawCommentView, Token};
use crate::names::{
    distinct_names, find, lemma_find, lemma_mapped, lemma_put_lookup, lookup, mapped, put, without,
    NameMap,
};
use crate::parser::comment_attach::{attach_comments, comments_view, lines_ok};
use crate::parser::comments::attach_module;
use crate::parser::grammar::module_from;
use crate::parser::parse_module;
use crate::sources::{path_text, SourceMap};
use crate::stdlib::order::{text_le, text_not_after};
use crate::text::{join3, pieces_of, same_text, split_pieces, texts};
use crate::types::{ty_text, Ty};
use vstd::prelude::*;
use vstd::string::*;

verus! {

// ---------------------------------------------------------------------------
// What an analysis comes to
// ---------------------------------------------------------------------------

/// A problem that an analysis found. The number of its code tells warnings from errors.
#[derive(Debug)]
pub struct Finding {
    pub span: Span,
    pub number: u32,
    pub code: String,
    pub message: String,
}

pub ghost struct FindingV {
    pub span: Span,
    pub number: u32,
    pub code: Seq<char>,
    pub message: Seq<char>,
}

impl Finding {
    pub open spec fn view(&self) -> FindingV {
        FindingV {
            span: self.span,
            number: self.number,
            code: self.code@,
            message: self.message@,
        }
    }
}

pub open spec fn findings_view(v: Seq<Finding>) -> Seq<FindingV> {
    Seq::new(v.len(), |i: int| v[i].view())
}

/// What is known of a document: that it cannot be read, or its files with the problems in them
/// and, where the checks got so far, the program.
#[derive(Debug)]
pub enum Analysis {
    Io { path: String, code: String, message: String },
    Checked { sources: SourceMap, findings: Vec<Finding>, program: Option<(Program, Resolutions)> },
}

/// A program with what the checks found out.
pub ghost struct CheckedV {
    pub program: ProgramV,
    pub defs: Seq<(NodeId, Span)>,
    pub tys: Seq<(NodeId, Ty)>,
}

pub ghost enum AnalysisV {
    Io { path: Seq<char>, code: Seq<char>, message: Seq<char> },
    Checked {
        paths: Seq<Seq<char>>,
        texts: Seq<Seq<char>>,
        findings: Seq<FindingV>,
        program: Option<CheckedV>,
    },
}

pub open spec fn checked_view(o: Option<(Program, Resolutions)>) -> Option<CheckedV> {
    match o {
        Some(p) => Some(
            CheckedV { program: p.0@, defs: p.1.ident_def@, tys: p.1.expr_ty@ },
        ),
        None => None,
    }
}

impl Analysis {
    pub open spec fn view(&self) -> AnalysisV {
        match *self {
            Analysis::Io { path, code, message } => AnalysisV::Io {
                path: path@,
                code: code@,
                message: message@,
            },
            Analysis::Checked { sources, findings, program } => AnalysisV::Checked {
                paths: sources@.paths,
                texts: sources@.texts,
                findings: findings_view(findings@),
                program: checked_view(program),
            },
        }
    }
}

/// The files that an analysis is about.
pub open spec fn analysis_paths_of(a: AnalysisV) -> Seq<Seq<char>> {
    match a {
        AnalysisV::Io { path, code, message } => seq![path],
        AnalysisV::Checked { paths, texts, findings, program } => paths,
    }
}

fn analysis_paths(a: &Analysis) -> (r: Vec<String>)
    ensures
        texts(r@) == analysis_paths_of(a@),
{
    let mut out: Vec<String> = Vec::new();
    match a {
        Analysis::Io { path, .. } => {
            out.push(path.clone());
            assert(texts(out@) =~= seq![path@]);
        },
        Analysis::Checked { sources, .. } => {
            let n: usize = sources.len();
            let mut i: usize = 0;
            assert(texts(out@) =~= sources@.paths.take(0));
            while i < n
                invariant
                    n == sources@.paths.len(),
                    i <= n,
                    n <= u32::MAX,
                    texts(out@) == sources@.paths.take(i as int),
                decreases n - i,
            {
                let ghost seen = texts(out@);
                out.push(sources.path(FileId(i as u32)));
                assert(texts(out@) =~= seen.push(sources@.paths[i as int]));
                assert(texts(out@) =~= sources@.paths.take(i + 1));
                i = i + 1;
            }
            assert(sources@.paths.take(n as int) =~= sources@.paths);
        },
    }
    out
}

/// Codes of this range are warnings.
pub open spec fn severity_of(number: u32) -> i64 {
    if 4000 <= number < 5000 {
        2
    } else {
        1
    }
}

/// The problems of one file, from the `i`-th problem on.
pub open spec fn problems_from(
    findings: Seq<FindingV>,
    i: int,
    file: int,
    text: Seq<char>,
    encoding: Encoding,
    out: Seq<JsonV>,
) -> Seq<JsonV>
    decreases findings.len() - i,
{
    if !(0 <= i < findings.len()) {
        out
    } else {
        let f = findings[i];
        problems_from(
            findings,
            i + 1,
            file,
            text,
            encoding,
            if f.span.file.0 == file {
                out.push(
                    diagnostic_v(
                        lsp_range(text, f.span, encoding),
                        severity_of(f.number),
                        f.code,
                        f.message,
                    ),
                )
            } else {
                out
            },
        )
    }
}

/// The problems of a file that cannot be read.
pub open spec fn unreadable(path: Seq<char>, code: Seq<char>, message: Seq<char>) -> JsonV {
    diagnostic_v(((0, 0), (0, 1)), 1, code, path + ": "@ + message)
}

/// The messages that tell the problems of the files of an analysis.
pub open spec fn reports(a: AnalysisV, encoding: Encoding) -> Seq<JsonV> {
    match a {
        AnalysisV::Io { path, code, message } => seq![
            publication_v(path, seq![unreadable(path, code, message)]),
        ],
        AnalysisV::Checked { paths, texts, findings, program } => Seq::new(
            paths.len(),
            |i: int|
                publication_v(
                    paths[i],
                    problems_from(findings, 0, i, texts[i], encoding, Seq::empty()),
                ),
        ),
    }
}

fn problems(findings: &Vec<Finding>, file: u32, text: &str, encoding: Encoding) -> (r: Vec<Json>)
    ensures
        jsons_view(r@) == problems_from(
            findings_view(findings@),
            0,
            file as int,
            text@,
            encoding,
            Seq::empty(),
        ),
{
    let ghost fs = findings_view(findings@);
    let mut out: Vec<Json> = Vec::new();
    let mut i: usize = 0;
    assert(jsons_view(out@) =~= Seq::empty());
    while i < findings.len()
        invariant
            fs == findings_view(findings@),
            i <= findings@.len(),
            problems_from(fs, i as int, file as int, text@, encoding, jsons_view(out@))
                == problems_from(fs, 0, file as int, text@, encoding, Seq::empty()),
        decreases findings@.len() - i,
    {
        let ghost seen = jsons_view(out@);
        let f = &findings[i];
        assert(fs[i as int] == f@);
        if f.span.file.0 == file {
            let range = span_to_range(text, f.span, encoding);
            let severity: i64 = if 4000 <= f.number && f.number < 5000 {
                2
            } else {
                1
            };
            let j = diagnostic_json(range, severity, f.code.clone(), f.message.clone());
            out.push(j);
            assert(jsons_view(out@) =~= seen.push(j@));
        }
        i = i + 1;
    }
    out
}

fn report(a: &Analysis, encoding: Encoding, out: &mut Vec<Json>)
    ensures
        jsons_view(final(out)@) == jsons_view(old(out)@) + reports(a@, encoding),
{
    let ghost start = jsons_view(out@);
    match a {
        Analysis::Io { path, code, message } => {
            let text = join3(path.as_str(), ": ", message.as_str());
            let mut one: Vec<Json> = Vec::new();
            let d = diagnostic_json(((0, 0), (0, 1)), 1, code.clone(), text);
            one.push(d);
            assert(jsons_view(one@) =~= seq![unreadable(path@, code@, message@)]);
            let j = publication(path.as_str(), one);
            out.push(j);
            assert(jsons_view(out@) =~= start + reports(a@, encoding));
        },
        Analysis::Checked { sources, findings, .. } => {
            let n: usize = sources.len();
            let ghost all = reports(a@, encoding);
            let mut i: usize = 0;
            assert(jsons_view(out@) =~= start + all.take(0));
            while i < n
                invariant
                    n == sources@.paths.len(),
                    n == sources@.texts.len(),
                    i <= n,
                    n <= u32::MAX,
                    all.len() == n,
                    forall|k: int| 0 <= k < n ==> #[trigger] all[k] == publication_v(
                        sources@.paths[k],
                        problems_from(
                            findings_view(findings@),
                            0,
                            k,
                            sources@.texts[k],
                            encoding,
                            Seq::empty(),
                        ),
                    ),
                    jsons_view(out@) == start + all.take(i as int),
                decreases n - i,
            {
                let ghost seen = jsons_view(out@);
                let file = FileId(i as u32);
                let text = sources.text(file);
                let values = problems(findings, i as u32, text.as_str(), encoding);
                let path = sources.path(file);
                let j = publication(path.as_str(), values);
                assert(j@ == all[i as int]);
                out.push(j);
                assert(jsons_view(out@) =~= seen.push(all[i as int]));
                assert(jsons_view(out@) =~= start + all.take(i + 1));
                i = i + 1;
            }
            assert(all.take(n as int) =~= all);
        },
    }
}

// ---------------------------------------------------------------------------
// The state of the server
// ---------------------------------------------------------------------------

/// What the server knows between calls.
#[derive(Debug)]
pub struct ServerState {
    pub encoding: Encoding,
    pub docs: NameMap<String>,
    pub analyses: NameMap<Analysis>,
    pub shutdown_requested: bool,
}

pub ghost struct StateV {
    pub encoding: Encoding,
    pub docs: Seq<(Seq<char>, Seq<char>)>,
    pub analyses: Seq<(Seq<char>, AnalysisV)>,
    pub shutdown_requested: bool,
}

pub open spec fn doc_views(m: Seq<(Seq<char>, String)>) -> Seq<(Seq<char>, Seq<char>)> {
    mapped(m, |s: String| s.view())
}

pub open spec fn analysis_views(m: Seq<(Seq<char>, Analysis)>) -> Seq<(Seq<char>, AnalysisV)> {
    mapped(m, |a: Analysis| a.view())
}

impl ServerState {
    pub open spec fn view(&self) -> StateV {
        StateV {
            encoding: self.encoding,
            docs: doc_views(self.docs@),
            analyses: analysis_views(self.analyses@),
            shutdown_requested: self.shutdown_requested,
        }
    }

    /// Nothing is open.
    pub fn new() -> (r: ServerState)
        ensures
            r@ == (StateV {
                encoding: Encoding::Utf16,
                docs: Seq::empty(),
                analyses: Seq::empty(),
                shutdown_requested: false,
            }),
    {
        let r = ServerState {
            encoding: Encoding::Utf16,
            docs: NameMap::new(),
            analyses: NameMap::new(),
            shutdown_requested: false,
        };
        assert(r@.docs =~= Seq::empty());
        assert(r@.analyses =~= Seq::empty());
        r
    }
}

pub open spec fn known_paths(st: StateV, path: Seq<char>) -> Seq<Seq<char>> {
    match lookup(st.analyses, path) {
        Some(a) => analysis_paths_of(a),
        None => Seq::empty(),
    }
}

fn paths_known(state: &ServerState, path: &str) -> (r: Vec<String>)
    ensures
        texts(r@) == known_paths(state@, path@),
{
    proof {
        lemma_mapped(state.analyses@, |a: Analysis| a.view(), path@, arbitrary());
    }
    match state.analyses.get(path) {
        Some(a) => analysis_paths(a),
        None => {
            let none: Vec<String> = Vec::new();
            assert(texts(none@) =~= Seq::empty());
            none
        },
    }
}

/// The messages that withdraw the problems of those files, from the `i`-th on, that are no longer
/// among others.
pub open spec fn withdrawn_from(
    old_paths: Seq<Seq<char>>,
    i: int,
    new_paths: Seq<Seq<char>>,
    out: Seq<JsonV>,
) -> Seq<JsonV>
    decreases old_paths.len() - i,
{
    if !(0 <= i < old_paths.len()) {
        out
    } else {
        withdrawn_from(
            old_paths,
            i + 1,
            new_paths,
            if new_paths.contains(old_paths[i]) {
                out
            } else {
                out.push(publication_v(old_paths[i], Seq::empty()))
            },
        )
    }
}

fn has_path(paths: &Vec<String>, path: &str) -> (r: bool)
    ensures
        r == texts(paths@).contains(path@),
{
    let ghost ps = texts(paths@);
    let mut i: usize = 0;
    while i < paths.len()
        invariant
            ps == texts(paths@),
            i <= paths@.len(),
            forall|k: int| 0 <= k < i ==> #[trigger] ps[k] != path@,
        decreases paths@.len() - i,
    {
        assert(ps[i as int] == paths@[i as int]@);
        if same_text(paths[i].as_str(), path) {
            return true;
        }
        i = i + 1;
    }
    false
}

fn withdrawal(path: &str) -> (r: Json)
    ensures
        r@ == publication_v(path@, Seq::empty()),
{
    let none: Vec<Json> = Vec::new();
    assert(jsons_view(none@) =~= Seq::empty());
    publication(path, none)
}

/// The messages that follow an analysis of a document: the problems of files that it is no longer
/// about are withdrawn, and those of its files are told.
pub open spec fn analysis_messages(st: StateV, path: Seq<char>, a: AnalysisV) -> Seq<JsonV> {
    withdrawn_from(known_paths(st, path), 0, analysis_paths_of(a), Seq::empty()) + reports(
        a,
        st.encoding,
    )
}

/// Takes note of what an analysis of a document came to; gives the messages to send.
pub fn record(state: &mut ServerState, path: &str, analysis: Analysis) -> (r: Vec<Json>)
    ensures
        jsons_view(r@) == analysis_messages(old(state)@, path@, analysis@),
        final(state)@ == (StateV {
            analyses: put(old(state)@.analyses, path@, analysis@),
            ..old(state)@
        }),
{
    let old_paths = paths_known(state, path);
    let new_paths = analysis_paths(&analysis);
    let ghost olds = texts(old_paths@);
    let ghost news = texts(new_paths@);
    let mut out: Vec<Json> = Vec::new();
    let mut i: usize = 0;
    assert(jsons_view(out@) =~= Seq::empty());
    while i < old_paths.len()
        invariant
            olds == texts(old_paths@),
            news == texts(new_paths@),
            i <= old_paths@.len(),
            withdrawn_from(olds, i as int, news, jsons_view(out@)) == withdrawn_from(
                olds,
                0,
                news,
                Seq::empty(),
            ),
        decreases old_paths@.len() - i,
    {
        let ghost seen = jsons_view(out@);
        assert(olds[i as int] == old_paths@[i as int]@);
        if !has_path(&new_paths, old_paths[i].as_str()) {
            let j = withdrawal(old_paths[i].as_str());
            out.push(j);
            assert(jsons_view(out@) =~= seen.push(j@));
        }
        i = i + 1;
    }
    report(&analysis, state.encoding, &mut out);
    proof {
        lemma_mapped(state.analyses@, |a: Analysis| a.view(), path@, analysis);
    }
    state.analyses.insert(path.to_owned(), analysis);
    out
}

/// Some analysis is about a file.
pub open spec fn is_covered(analyses: Seq<(Seq<char>, AnalysisV)>, path: Seq<char>) -> bool {
    exists|i: int|
        0 <= i < analyses.len() && analysis_paths_of((#[trigger] analyses[i]).1).contains(path)
}

/// The messages that withdraw the problems of those files, from the `i`-th on, that no analysis is
/// about.
pub open spec fn stale_from(paths: Seq<Seq<char>>, i: int, st: StateV, out: Seq<JsonV>) -> Seq<JsonV>
    decreases paths.len() - i,
{
    if !(0 <= i < paths.len()) {
        out
    } else {
        stale_from(
            paths,
            i + 1,
            st,
            if is_covered(st.analyses, paths[i]) {
                out
            } else {
                out.push(publication_v(paths[i], Seq::empty()))
            },
        )
    }
}

fn covered(state: &ServerState, path: &str) -> (r: bool)
    ensures
        r == is_covered(state@.analyses, path@),
{
    let ghost all = analysis_views(state.analyses@);
    let n: usize = state.analyses.len();
    let mut i: usize = 0;
    while i < n
        invariant
            all == analysis_views(state.analyses@),
            n == all.len(),
            i <= n,
            forall|k: int| 0 <= k < i ==> !analysis_paths_of((#[trigger] all[k]).1).contains(path@),
        decreases n - i,
    {
        let a = state.analyses.item_at(i);
        assert(all[i as int].1 == a@);
        let paths = analysis_paths(a);
        if has_path(&paths, path) {
            return true;
        }
        i = i + 1;
    }
    false
}

/// Once the open documents have been analysed anew: the messages that withdraw the problems of
/// files that no analysis is about any more.
pub fn clear_stale(state: &ServerState, paths: &Vec<String>) -> (r: Vec<Json>)
    ensures
        jsons_view(r@) == stale_from(texts(paths@), 0, state@, Seq::empty()),
{
    let ghost ps = texts(paths@);
    let mut out: Vec<Json> = Vec::new();
    let mut i: usize = 0;
    assert(jsons_view(out@) =~= Seq::empty());
    while i < paths.len()
        invariant
            ps == texts(paths@),
            i <= paths@.len(),
            stale_from(ps, i as int, state@, jsons_view(out@)) == stale_from(
                ps,
                0,
                state@,
                Seq::empty(),
            ),
        decreases paths@.len() - i,
    {
        let ghost seen = jsons_view(out@);
        assert(ps[i as int] == paths@[i as int]@);
        if !covered(state, paths[i].as_str()) {
            let j = withdrawal(paths[i].as_str());
            out.push(j);
            assert(jsons_view(out@) =~= seen.push(j@));
        }
        i = i + 1;
    }
    out
}

// ---------------------------------------------------------------------------
// Paths in order
// ---------------------------------------------------------------------------

/// One path comes before another, part by part from the `i`-th on.
pub open spec fn parts_before(a: Seq<Seq<char>>, b: Seq<Seq<char>>, i: int) -> bool
    decreases a.len() - i,
{
    if !(0 <= i < a.len()) {
        i < b.len()
    } else if i >= b.len() {
        false
    } else if a[i] != b[i] {
        text_le(a[i], b[i])
    } else {
        parts_before(a, b, i + 1)
    }
}

pub open spec fn path_before(a: Seq<char>, b: Seq<char>) -> bool {
    parts_before(pieces_of(a, '/'), pieces_of(b, '/'), 0)
}

fn comes_before(a: &str, b: &str) -> (r: bool)
    ensures
        r == path_before(a@, b@),
{
    let x = split_pieces(a, '/');
    let y = split_pieces(b, '/');
    let ghost xs = texts(x@);
    let ghost ys = texts(y@);
    let mut i: usize = 0;
    while i < x.len() && i < y.len()
        invariant
            xs == texts(x@),
            ys == texts(y@),
            xs == pieces_of(a@, '/'),
            ys == pieces_of(b@, '/'),
            i <= x@.len(),
            i <= y@.len(),
            parts_before(xs, ys, i as int) == parts_before(xs, ys, 0),
        decreases x@.len() - i,
    {
        assert(xs[i as int] == x@[i as int]@ && ys[i as int] == y@[i as int]@);
        if !same_text(x[i].as_str(), y[i].as_str()) {
            return text_not_after(x[i].as_str(), y[i].as_str());
        }
        i = i + 1;
    }
    i >= x.len() && i < y.len()
}

/// Paths in order, with one more in its place from the `i`-th on, unless it is there.
pub open spec fn placed(paths: Seq<Seq<char>>, p: Seq<char>, i: int) -> Seq<Seq<char>>
    decreases paths.len() - i,
{
    if !(0 <= i < paths.len()) {
        paths.push(p)
    } else if paths[i] == p {
        paths
    } else if path_before(p, paths[i]) {
        paths.insert(i, p)
    } else {
        placed(paths, p, i + 1)
    }
}

/// Paths in order, with more of them in their places, from the `i`-th on.
pub open spec fn tidied(more: Seq<Seq<char>>, i: int, paths: Seq<Seq<char>>) -> Seq<Seq<char>>
    decreases more.len() - i,
{
    if 0 <= i < more.len() {
        tidied(more, i + 1, placed(paths, more[i], 0))
    } else {
        paths
    }
}

fn place(paths: &mut Vec<String>, p: &String)
    ensures
        texts(final(paths)@) == placed(texts(old(paths)@), p@, 0),
{
    let ghost ps = texts(paths@);
    let mut i: usize = 0;
    while i < paths.len()
        invariant
            ps == texts(paths@),
            ps == texts(old(paths)@),
            i <= paths@.len(),
            placed(ps, p@, i as int) == placed(ps, p@, 0),
        decreases paths@.len() - i,
    {
        assert(ps[i as int] == paths@[i as int]@);
        if same_text(paths[i].as_str(), p.as_str()) {
            return;
        }
        if comes_before(p.as_str(), paths[i].as_str()) {
            paths.insert(i, p.clone());
            assert(texts(paths@) =~= ps.insert(i as int, p@));
            return;
        }
        i = i + 1;
    }
    paths.push(p.clone());
    assert(texts(paths@) =~= ps.push(p@));
}

fn tidy(more: &Vec<String>) -> (r: Vec<String>)
    ensures
        texts(r@) == tidied(texts(more@), 0, Seq::empty()),
{
    let ghost ms = texts(more@);
    let mut out: Vec<String> = Vec::new();
    let mut i: usize = 0;
    assert(texts(out@) =~= Seq::empty());
    while i < more.len()
        invariant
            ms == texts(more@),
            i <= more@.len(),
            tidied(ms, i as int, texts(out@)) == tidied(ms, 0, Seq::empty()),
        decreases more@.len() - i,
    {
        assert(ms[i as int] == more@[i as int]@);
        place(&mut out, &more[i]);
        i = i + 1;
    }
    out
}

// ---------------------------------------------------------------------------
// Answers about a document
// ---------------------------------------------------------------------------

/// The first file of an analysis is the document itself.
pub open spec fn main_file() -> FileId {
    FileId(0)
}

/// What a document's analysis knows, where the checks got so far.
pub open spec fn checked_of(st: StateV, path: Seq<char>) -> Option<AnalysisV> {
    match lookup(st.analyses, path) {
        Some(a) => if a is Checked && a->program is Some {
            Some(a)
        } else {
            None
        },
        None => None,
    }
}

/// The expression at a position of a document.
pub open spec fn expression_of(a: AnalysisV, position: (u32, u32), encoding: Encoding) -> Option<
    ExprAtV,
> {
    let text = path_text(a->texts, main_file());
    found_at(
        a->program->Some_0.program,
        Place {
            file: main_file(),
            position: pos_of_lsp(text, position.0, position.1, encoding),
        },
    )
}

/// The answer to a question for the type of what stands at a position.
pub open spec fn hover_v(st: StateV, path: Seq<char>, position: (u32, u32)) -> JsonV {
    match checked_of(st, path) {
        None => JsonV::Null,
        Some(a) => match expression_of(a, position, st.encoding) {
            None => JsonV::Null,
            Some(e) => match ty_of_from(a->program->Some_0.tys, e.id, 0) {
                None => JsonV::Null,
                Some(t) => obj_v(
                    seq![
                        (
                            "contents"@,
                            obj_v(
                                seq![
                                    ("kind"@, JsonV::Str("markdown"@)),
                                    (
                                        "value"@,
                                        JsonV::Str("```yabumi\n"@ + ty_text(t) + "\n```"@),
                                    ),
                                ],
                            ),
                        ),
                        (
                            "range"@,
                            range_v(
                                lsp_range(
                                    path_text(a->texts, e.span.file),
                                    e.span,
                                    st.encoding,
                                ),
                            ),
                        ),
                    ],
                ),
            },
        },
    }
}

/// The answer to a question for the definition of what stands at a position.
pub open spec fn definition_v(st: StateV, path: Seq<char>, position: (u32, u32)) -> JsonV {
    match checked_of(st, path) {
        None => JsonV::Null,
        Some(a) => match expression_of(a, position, st.encoding) {
            None => JsonV::Null,
            Some(e) => match defined_at(
                a->program->Some_0.program,
                a->program->Some_0.defs,
                a->program->Some_0.tys,
                e,
            ) {
                None => JsonV::Null,
                Some(span) => obj_v(
                    seq![
                        ("uri"@, JsonV::Str(uri_of_path(path_text(a->paths, span.file)))),
                        (
                            "range"@,
                            range_v(
                                lsp_range(path_text(a->texts, span.file), span, st.encoding),
                            ),
                        ),
                    ],
                ),
            },
        },
    }
}

fn hover_result(state: &ServerState, path: &str, position: (u32, u32)) -> (r: Json)
    ensures
        r@ == hover_v(state@, path@, position),
{
    proof {
        lemma_mapped(state.analyses@, |a: Analysis| a.view(), path@, arbitrary());
    }
    if let Some(a) = state.analyses.get(path) {
        if let Analysis::Checked { sources, program, .. } = a {
            if let Some(checked) = program {
                let text = sources.text(FileId(0));
                let at = from_lsp_pos(text.as_str(), position.0, position.1, state.encoding);
                if let Some(e) = expr_at(&checked.0, FileId(0), at) {
                    if let Some(t) = checked.1.type_of(e.id) {
                        let ghost tv = t@;
                        let name = t.text();
                        let shown = join3("```yabumi\n", name.as_str(), "\n```");
                        let inner = vec![
                            ("kind", json_str("markdown".to_owned())),
                            ("value", json_str(shown)),
                        ];
                        assert(pairs_view(inner@) =~= seq![
                            ("kind"@, JsonV::Str("markdown"@)),
                            ("value"@, JsonV::Str("```yabumi\n"@ + ty_text(tv) + "\n```"@)),
                        ]);
                        let contents = Json::obj(inner);
                        let file_text = sources.text(e.span.file);
                        let range = span_to_range(file_text.as_str(), e.span, state.encoding);
                        let ghost wanted = seq![
                            ("contents"@, contents@),
                            ("range"@, range_v(range)),
                        ];
                        let pairs = vec![("contents", contents), ("range", range_json(range))];
                        assert(pairs_view(pairs@) =~= wanted);
                        return Json::obj(pairs);
                    }
                }
            }
        }
    }
    json_null()
}

fn definition_result(state: &ServerState, path: &str, position: (u32, u32)) -> (r: Json)
    ensures
        r@ == definition_v(state@, path@, position),
{
    proof {
        lemma_mapped(state.analyses@, |a: Analysis| a.view(), path@, arbitrary());
    }
    if let Some(a) = state.analyses.get(path) {
        if let Analysis::Checked { sources, program, .. } = a {
            if let Some(checked) = program {
                let text = sources.text(FileId(0));
                let at = from_lsp_pos(text.as_str(), position.0, position.1, state.encoding);
                if let Some(e) = expr_at(&checked.0, FileId(0), at) {
                    if let Some(span) = definition_span(&checked.0, &checked.1, &e) {
                        let file_path = sources.path(span.file);
                        let uri = path_to_uri(file_path.as_str());
                        let file_text = sources.text(span.file);
                        let range = span_to_range(file_text.as_str(), span, state.encoding);
                        let ghost wanted = seq![
                            ("uri"@, JsonV::Str(uri@)),
                            ("range"@, range_v(range)),
                        ];
                        let pairs = vec![("uri", json_str(uri)), ("range", range_json(range))];
                        assert(pairs_view(pairs@) =~= wanted);
                        return Json::obj(pairs);
                    }
                }
            }
        }
    }
    json_null()
}

/// The module that a text to format is, of its tokens and its comments: nothing where the text
/// could not be lexed or parsed without a diagnostic.
pub open spec fn formattable(
    tokens: Seq<Token>,
    comments: Seq<RawCommentView>,
    lexed_well: bool,
) -> Option<ModuleV> {
    let (module, diagnostics, _) = module_from(tokens, FileId(0), 0);
    if !lexed_well || diagnostics.len() > 0 {
        None
    } else {
        Some(attach_module(module, comments))
    }
}

/// The module to format, with its comments attached. `lexed_well` tells whether lexing reported
/// nothing.
pub fn parsed_for_formatting(
    tokens: &[Token],
    comments: Vec<RawComment>,
    lexed_well: bool,
) -> (r: Option<Module>)
    requires
        well_lexed(tokens@),
        lines_ok(comments_view(comments@)),
    ensures
        match r {
            Some(m) => formattable(tokens@, comments_view(comments@), lexed_well) == Some(m@),
            None => formattable(tokens@, comments_view(comments@), lexed_well) is None,
        },
{
    if !lexed_well {
        return None;
    }
    let (mut module, diagnostics) = parse_module(tokens, FileId(0));
    if diagnostics.has_any() {
        return None;
    }
    attach_comments(&mut module, comments);
    Some(module)
}

/// The answer to a call to format a document, whose text comes to `formatted` where it can be
/// read: one edit of the whole text, or none where there is nothing to do.
pub open spec fn formatting_v(st: StateV, path: Seq<char>, formatted: Option<Seq<char>>) -> JsonV {
    match lookup(st.docs, path) {
        None => JsonV::Null,
        Some(text) => match formatted {
            None => JsonV::Null,
            Some(t) => if t == text {
                JsonV::Arr(Seq::empty())
            } else {
                JsonV::Arr(
                    seq![
                        obj_v(
                            seq![
                                ("range"@, range_v(((0, 0), end_of(text, st.encoding)))),
                                ("newText"@, JsonV::Str(t)),
                            ],
                        ),
                    ],
                )
            },
        },
    }
}

fn formatting_result(state: &ServerState, path: &str, formatted: Option<String>) -> (r: Json)
    ensures
        r@ == formatting_v(state@, path@, opt_str(formatted)),
{
    proof {
        lemma_mapped(state.docs@, |s: String| s.view(), path@, arbitrary());
    }
    let text = match state.docs.get(path) {
        Some(text) => text,
        None => {
            return json_null();
        },
    };
    let new_text = match formatted {
        Some(t) => t,
        None => {
            return json_null();
        },
    };
    let mut edits: Vec<Json> = Vec::new();
    if same_text(new_text.as_str(), text.as_str()) {
        assert(jsons_view(edits@) =~= Seq::empty());
        return json_arr(edits);
    }
    let range = ((0u32, 0u32), document_end(text.as_str(), state.encoding));
    let ghost wanted = seq![("range"@, range_v(range)), ("newText"@, JsonV::Str(new_text@))];
    let pairs = vec![("range", range_json(range)), ("newText", json_str(new_text))];
    assert(pairs_view(pairs@) =~= wanted);
    let edit = Json::obj(pairs);
    edits.push(edit);
    assert(jsons_view(edits@) =~= seq![edit@]);
    json_arr(edits)
}

// ---------------------------------------------------------------------------
// Calls
// ---------------------------------------------------------------------------

/// What is to be done after a call: send some messages, analyse the open documents anew, and then
/// withdraw the problems of those files that no analysis is about.
#[derive(Debug)]
pub struct Step {
    pub send: Vec<Json>,
    pub reanalyze: bool,
    pub clear: Vec<String>,
}

pub ghost struct StepV {
    pub send: Seq<JsonV>,
    pub reanalyze: bool,
    pub clear: Seq<Seq<char>>,
}

impl Step {
    pub open spec fn view(&self) -> StepV {
        StepV {
            send: jsons_view(self.send@),
            reanalyze: self.reanalyze,
            clear: texts(self.clear@),
        }
    }
}

/// Nothing is to be done.
pub open spec fn idle_v() -> StepV {
    StepV { send: Seq::empty(), reanalyze: false, clear: Seq::empty() }
}

/// The open documents are to be analysed anew.
pub open spec fn anew_v() -> StepV {
    StepV { reanalyze: true, ..idle_v() }
}

/// A call with an id is answered.
pub open spec fn answer_v(id: Option<JsonV>, result: JsonV) -> StepV {
    match id {
        Some(id) => StepV { send: seq![response_v(id, result)], ..idle_v() },
        None => idle_v(),
    }
}

/// A call with an id is answered that it failed.
pub open spec fn refusal_v(id: Option<JsonV>, code: i64, message: Seq<char>) -> StepV {
    match id {
        Some(id) => StepV { send: seq![failure_v(id, code, message)], ..idle_v() },
        None => idle_v(),
    }
}

/// The methods that the server has.
#[derive(Clone, Copy, Debug, PartialEq, Eq, Structural)]
pub enum Method {
    Initialize,
    Ignored,
    Shutdown,
    DidOpen,
    DidChange,
    DidSave,
    DidClose,
    Hover,
    Definition,
    Formatting,
    Unknown,
}

/// The method that a name stands for.
pub open spec fn method_of(name: Seq<char>) -> Method {
    if name == "initialize"@ {
        Method::Initialize
    } else if name == "initialized"@ || name == "$/cancelRequest"@ {
        Method::Ignored
    } else if name == "shutdown"@ {
        Method::Shutdown
    } else if name == "textDocument/didOpen"@ {
        Method::DidOpen
    } else if name == "textDocument/didChange"@ {
        Method::DidChange
    } else if name == "textDocument/didSave"@ {
        Method::DidSave
    } else if name == "textDocument/didClose"@ {
        Method::DidClose
    } else if name == "textDocument/hover"@ {
        Method::Hover
    } else if name == "textDocument/definition"@ {
        Method::Definition
    } else if name == "textDocument/formatting"@ {
        Method::Formatting
    } else {
        Method::Unknown
    }
}

/// The method that a name stands for.
pub fn method_named(name: &str) -> (r: Method)
    ensures
        r == method_of(name@),
{
    if same_text(name, "initialize") {
        Method::Initialize
    } else if same_text(name, "initialized") || same_text(name, "$/cancelRequest") {
        Method::Ignored
    } else if same_text(name, "shutdown") {
        Method::Shutdown
    } else if same_text(name, "textDocument/didOpen") {
        Method::DidOpen
    } else if same_text(name, "textDocument/didChange") {
        Method::DidChange
    } else if same_text(name, "textDocument/didSave") {
        Method::DidSave
    } else if same_text(name, "textDocument/didClose") {
        Method::DidClose
    } else if same_text(name, "textDocument/hover") {
        Method::Hover
    } else if same_text(name, "textDocument/definition") {
        Method::Definition
    } else if same_text(name, "textDocument/formatting") {
        Method::Formatting
    } else {
        Method::Unknown
    }
}

/// What goes with a call: its parameters, its id, the path of the document it is about, and, for a
/// call to format, what the text of the document comes to.
pub ghost struct CallV {
    pub method: Method,
    pub params: Option<JsonV>,
    pub id: Option<JsonV>,
    pub path: Option<Seq<char>>,
    pub formatted: Option<Seq<char>>,
}

/// The state after a call.
pub open spec fn state_after(st: StateV, c: CallV) -> StateV {
    match c.method {
        Method::Initialize => match encoding_of(c.params) {
            Some(encoding) => StateV { encoding, ..st },
            None => st,
        },
        Method::Shutdown => StateV { shutdown_requested: true, ..st },
        Method::DidOpen => match (c.path, opened_text(c.params)) {
            (Some(path), Some(text)) => StateV { docs: put(st.docs, path, text), ..st },
            _ => st,
        },
        Method::DidChange => match (c.path, changed_text(c.params)) {
            (Some(path), Some(text)) => StateV { docs: put(st.docs, path, text), ..st },
            _ => st,
        },
        Method::DidClose => match c.path {
            Some(path) => StateV {
                docs: without(st.docs, path),
                analyses: without(st.analyses, path),
                ..st
            },
            None => st,
        },
        _ => st,
    }
}

/// What is to be done after a call.
pub open spec fn step_after(st: StateV, c: CallV, version: Seq<char>) -> StepV {
    match c.method {
        Method::Initialize => match encoding_of(c.params) {
            Some(encoding) => answer_v(c.id, initialize_v(encoding, version)),
            None => refusal_v(c.id, INVALID_PARAMS, "no supported position encoding"@),
        },
        Method::Ignored => idle_v(),
        Method::Shutdown => answer_v(c.id, JsonV::Null),
        Method::DidOpen => if c.path is Some && opened_text(c.params) is Some {
            anew_v()
        } else {
            idle_v()
        },
        Method::DidChange => if c.path is Some && changed_text(c.params) is Some {
            anew_v()
        } else {
            idle_v()
        },
        Method::DidSave => match c.path {
            Some(path) => if find(st.docs, path) is Some {
                anew_v()
            } else {
                idle_v()
            },
            None => idle_v(),
        },
        Method::DidClose => match c.path {
            Some(path) => StepV {
                clear: tidied(known_paths(st, path).push(path), 0, Seq::empty()),
                ..anew_v()
            },
            None => idle_v(),
        },
        Method::Hover => match (c.path, position_of(c.params)) {
            (Some(path), Some(position)) => answer_v(c.id, hover_v(st, path, position)),
            _ => refusal_v(c.id, INVALID_PARAMS, "invalid text document position"@),
        },
        Method::Definition => match (c.path, position_of(c.params)) {
            (Some(path), Some(position)) => answer_v(c.id, definition_v(st, path, position)),
            _ => refusal_v(c.id, INVALID_PARAMS, "invalid text document position"@),
        },
        Method::Formatting => if c.path is Some && has_options(c.params) {
            answer_v(c.id, formatting_v(st, c.path->Some_0, c.formatted))
        } else {
            refusal_v(c.id, INVALID_PARAMS, "invalid formatting parameters"@)
        },
        Method::Unknown => refusal_v(c.id, METHOD_NOT_FOUND, "method not found"@),
    }
}

fn idle() -> (r: Step)
    ensures
        r@ == idle_v(),
{
    let r = Step { send: Vec::new(), reanalyze: false, clear: Vec::new() };
    assert(r@.send =~= Seq::empty());
    assert(r@.clear =~= Seq::empty());
    r
}

fn anew() -> (r: Step)
    ensures
        r@ == anew_v(),
{
    let r = idle();
    Step { reanalyze: true, ..r }
}

fn sending(j: Json) -> (r: Step)
    ensures
        r@ == (StepV { send: seq![j@], ..idle_v() }),
{
    let mut r = idle();
    r.send.push(j);
    assert(r@.send =~= seq![j@]);
    r
}

fn answer(id: Option<Json>, result: Json) -> (r: Step)
    ensures
        r@ == answer_v(owned_json(id), result@),
{
    match id {
        Some(id) => sending(response(id, result)),
        None => idle(),
    }
}

fn refusal(id: Option<Json>, code: i64, message: &str) -> (r: Step)
    ensures
        r@ == refusal_v(owned_json(id), code, message@),
{
    match id {
        Some(id) => sending(failure(id, code, message)),
        None => idle(),
    }
}

/// A document has a text now.
fn put_doc(state: &mut ServerState, path: String, text: String)
    ensures
        final(state)@ == (StateV { docs: put(old(state)@.docs, path@, text@), ..old(state)@ }),
{
    proof {
        lemma_mapped(state.docs@, |s: String| s.view(), path@, text);
    }
    state.docs.insert(path, text);
}

/// Does what a call asks for. `path` is the path of the document that the call is about, links in
/// it followed; `formatted` is what the text of that document comes to when it is formatted, where
/// it can be read.
pub fn dispatch(
    state: &mut ServerState,
    method: &str,
    params: Option<&Json>,
    id: Option<Json>,
    path: Option<String>,
    formatted: Option<String>,
    version: &str,
) -> (r: Step)
    ensures
        ({
            let c = CallV {
                method: method_of(method@),
                params: opt_json(params),
                id: owned_json(id),
                path: opt_str(path),
                formatted: opt_str(formatted),
            };
            &&& final(state)@ == state_after(old(state)@, c)
            &&& r@ == step_after(old(state)@, c, version@)
        }),
{
    match method_named(method) {
        Method::Initialize => match choose_encoding(params) {
            Some(encoding) => {
                state.encoding = encoding;
                answer(id, initialize_result(encoding, version))
            },
            None => refusal(id, INVALID_PARAMS, "no supported position encoding"),
        },
        Method::Ignored => idle(),
        Method::Shutdown => {
            state.shutdown_requested = true;
            answer(id, json_null())
        },
        Method::DidOpen => match (path, open_text(params)) {
            (Some(path), Some(text)) => {
                put_doc(state, path, text);
                anew()
            },
            _ => idle(),
        },
        Method::DidChange => match (path, change_text(params)) {
            (Some(path), Some(text)) => {
                put_doc(state, path, text);
                anew()
            },
            _ => idle(),
        },
        Method::DidSave => match path {
            Some(path) => {
                proof {
                    lemma_mapped(state.docs@, |s: String| s.view(), path@, arbitrary());
                }
                if state.docs.contains_key(path.as_str()) {
                    anew()
                } else {
                    idle()
                }
            },
            None => idle(),
        },
        Method::DidClose => match path {
            Some(path) => close(state, path),
            None => idle(),
        },
        Method::Hover => match (path, lsp_position(params)) {
            (Some(path), Some(position)) => {
                let result = hover_result(state, path.as_str(), position);
                answer(id, result)
            },
            _ => refusal(id, INVALID_PARAMS, "invalid text document position"),
        },
        Method::Definition => match (path, lsp_position(params)) {
            (Some(path), Some(position)) => {
                let result = definition_result(state, path.as_str(), position);
                answer(id, result)
            },
            _ => refusal(id, INVALID_PARAMS, "invalid text document position"),
        },
        Method::Formatting => {
            if let Some(path) = path {
                if options_given(params) {
                    let result = formatting_result(state, path.as_str(), formatted);
                    return answer(id, result);
                }
            }
            refusal(id, INVALID_PARAMS, "invalid formatting parameters")
        },
        Method::Unknown => refusal(id, METHOD_NOT_FOUND, "method not found"),
    }
}

fn close(state: &mut ServerState, path: String) -> (r: Step)
    ensures
        final(state)@ == (StateV {
            docs: without(old(state)@.docs, path@),
            analyses: without(old(state)@.analyses, path@),
            ..old(state)@
        }),
        r@ == (StepV {
            clear: tidied(known_paths(old(state)@, path@).push(path@), 0, Seq::empty()),
            ..anew_v()
        }),
{
    let mut paths = paths_known(state, path.as_str());
    let ghost before = texts(paths@);
    paths.push(path.clone());
    assert(texts(paths@) =~= before.push(path@));
    proof {
        lemma_mapped(state.docs@, |s: String| s.view(), path@, arbitrary());
        lemma_mapped(state.analyses@, |a: Analysis| a.view(), path@, arbitrary());
    }
    state.docs.remove(path.as_str());
    state.analyses.remove(path.as_str());
    let clear = tidy(&paths);
    let r = anew();
    Step { clear, ..r }
}

/// Whether the server ends well: it was told to shut down before.
pub fn ends_well(state: &ServerState) -> (r: bool)
    ensures
        r == state@.shutdown_requested,
{
    state.shutdown_requested
}

// ---------------------------------------------------------------------------
// Laws
// ---------------------------------------------------------------------------

/// Every call with an id gets exactly one answer, unless it is ignored or tells of a document; a
/// call without an id gets none.
pub proof fn law_calls_with_an_id_are_answered_once(st: StateV, c: CallV, version: Seq<char>)
    ensures
        step_after(st, c, version).send.len() == if c.id is None || c.method is Ignored
            || c.method is DidOpen || c.method is DidChange || c.method is DidSave || c.method
            is DidClose {
            0int
        } else {
            1
        },
{
}

/// A method that the server does not have changes nothing and is refused.
pub proof fn law_unknown_methods_are_refused(st: StateV, c: CallV, version: Seq<char>)
    requires
        c.method is Unknown,
    ensures
        state_after(st, c) == st,
        step_after(st, c, version) == refusal_v(c.id, METHOD_NOT_FOUND, "method not found"@),
{
}

/// Only a call of `shutdown` lets the server end well, and no call takes that back.
pub proof fn law_only_shutdown_lets_the_server_end_well(st: StateV, c: CallV)
    ensures
        state_after(st, c).shutdown_requested == (st.shutdown_requested || c.method is Shutdown),
{
}

/// A document that was opened or changed has its new text, and one that was closed has none.
pub proof fn law_documents_follow_the_editor(st: StateV, c: CallV, path: Seq<char>)
    requires
        c.path == Some(path),
        distinct_names(st.docs),
    ensures
        c.method is DidOpen && opened_text(c.params) is Some ==> lookup(
            state_after(st, c).docs,
            path,
        ) == opened_text(c.params),
        c.method is DidChange && changed_text(c.params) is Some ==> lookup(
            state_after(st, c).docs,
            path,
        ) == changed_text(c.params),
        c.method is DidClose ==> lookup(state_after(st, c).docs, path) is None,
{
    if let Some(text) = opened_text(c.params) {
        lemma_put_lookup(st.docs, path, text, path);
    }
    if let Some(text) = changed_text(c.params) {
        lemma_put_lookup(st.docs, path, text, path);
    }
    lemma_lookup_without(st.docs, path);
}

proof fn lemma_lookup_without<T>(s: Seq<(Seq<char>, T)>, name: Seq<char>)
    requires
        distinct_names(s),
    ensures
        lookup(without(s, name), name) is None,
{
    let t = without(s, name);
    lemma_find(s, name, 0);
    lemma_find(t, name, 0);
    if let Some(i) = find(s, name) {
        if let Some(j) = find(t, name) {
            if j < i {
                assert(t[j] == s[j]);
            } else {
                assert(t[j] == s[j + 1]);
                assert(s[j + 1].0 == s[i].0);
            }
        }
    }
}

} // verus!
