//! What the server's answers tell.

use super::json::{member, obj_v, table_from, JsonV};
use super::message::{diagnostic_v, publication_v, range_v};
use super::pos::{lsp_range, Encoding};
use super::query::{defined_at, def_from, ty_of_from, ExprAtV, QueryKindV};
use super::query::{field_span_from, method_span_from};
use super::server::{
    definition_v, expression_of, hover_v, problems_from, reports, AnalysisV, CheckedV, FindingV,
    StateV,
};
use super::uri::uri_of_path;
use crate::ast::{FunctionV, NodeId, ParamV, StructV};
use crate::diagnostics::Span;
use crate::eval::env::ProgramV;
use crate::names::{lemma_put_lookup, lookup, put};
use crate::sources::path_text;
use crate::types::{ty_text, Ty, TyV};
use vstd::prelude::*;
use vstd::string::*;

verus! {

// ---------------------------------------------------------------------------
// Objects
// ---------------------------------------------------------------------------

/// No two members have the same name.
spec fn names_differ(v: Seq<(Seq<char>, JsonV)>) -> bool {
    forall|i: int, j: int| 0 <= i < j < v.len() ==> (#[trigger] v[i]).0 != (#[trigger] v[j]).0
}

proof fn lemma_table(v: Seq<(Seq<char>, JsonV)>, i: int, out: Seq<(Seq<char>, JsonV)>, k: int)
    requires
        names_differ(v),
        0 <= i <= v.len(),
        0 <= k < v.len(),
        k < i ==> lookup(out, v[k].0) == Some(v[k].1),
    ensures
        lookup(table_from(v, i, out), v[k].0) == Some(v[k].1),
    decreases v.len() - i,
{
    if i < v.len() {
        lemma_put_lookup(out, v[i].0, v[i].1, v[k].0);
        if k < i {
            assert(v[k].0 != v[i].0);
        }
        lemma_table(v, i + 1, put(out, v[i].0, v[i].1), k);
    }
}

/// An object has the members that it was made of.
proof fn lemma_member(v: Seq<(Seq<char>, JsonV)>, k: int)
    requires
        names_differ(v),
        0 <= k < v.len(),
    ensures
        member(obj_v(v), v[k].0) == Some(v[k].1),
{
    lemma_table(v, 0, Seq::empty(), k);
}

// ---------------------------------------------------------------------------
// Hover
// ---------------------------------------------------------------------------

/// The `k`-th entry is the first for `id`.
pub open spec fn first_for<T>(entries: Seq<(NodeId, T)>, id: NodeId, k: int) -> bool {
    &&& 0 <= k < entries.len()
    &&& entries[k].0 == id
    &&& forall|j: int| 0 <= j < k ==> (#[trigger] entries[j]).0 != id
}

proof fn lemma_ty_of(tys: Seq<(NodeId, Ty)>, id: NodeId, i: int)
    requires
        0 <= i <= tys.len(),
    ensures
        match ty_of_from(tys, id, i) {
            Some(t) => exists|k: int|
                i <= k < tys.len() && (#[trigger] tys[k]).0 == id && t == tys[k].1@ && forall|j: int|
                    i <= j < k ==> (#[trigger] tys[j]).0 != id,
            None => forall|k: int| i <= k < tys.len() ==> (#[trigger] tys[k]).0 != id,
        },
    decreases tys.len() - i,
{
    if i < tys.len() && tys[i].0 != id {
        lemma_ty_of(tys, id, i + 1);
        if let Some(t) = ty_of_from(tys, id, i) {
            let k = choose|k: int|
                i + 1 <= k < tys.len() && (#[trigger] tys[k]).0 == id && t == tys[k].1@ && forall|
                    j: int,
                |
                    i + 1 <= j < k ==> (#[trigger] tys[j]).0 != id;
            assert(tys[k].0 == id);
        }
    }
}

/// Where an expression is found at a position of a document, hovering shows the first type that
/// the checks found for it, and where it stands. Where none is found, or it has no type, the
/// answer is null.
pub proof fn law_hover_tells_the_type_of_the_expression(
    st: StateV,
    path: Seq<char>,
    position: (u32, u32),
    a: AnalysisV,
    c: CheckedV,
)
    requires
        lookup(st.analyses, path) == Some(a),
        a is Checked,
        a->program == Some(c),
    ensures
        match expression_of(a, position, st.encoding) {
            None => hover_v(st, path, position) is Null,
            Some(e) => {
                &&& forall|k: int| #[trigger]
                    first_for(c.tys, e.id, k) ==> {
                        let contents = member(hover_v(st, path, position), "contents"@);
                        &&& contents is Some
                        &&& member(contents->Some_0, "value"@) == Some(
                            JsonV::Str("```yabumi\n"@ + ty_text(c.tys[k].1@) + "\n```"@),
                        )
                        &&& member(hover_v(st, path, position), "range"@) == Some(
                            range_v(lsp_range(path_text(a->texts, e.span.file), e.span, st.encoding)),
                        )
                    }
                &&& (forall|k: int| 0 <= k < c.tys.len() ==> (#[trigger] c.tys[k]).0 != e.id)
                    ==> hover_v(st, path, position) is Null
            },
        },
{
    if let Some(e) = expression_of(a, position, st.encoding) {
        lemma_ty_of(c.tys, e.id, 0);
        if let Some(t) = ty_of_from(c.tys, e.id, 0) {
            let contents = seq![
                ("kind"@, JsonV::Str("markdown"@)),
                ("value"@, JsonV::Str("```yabumi\n"@ + ty_text(t) + "\n```"@)),
            ];
            let whole = seq![
                ("contents"@, obj_v(contents)),
                (
                    "range"@,
                    range_v(lsp_range(path_text(a->texts, e.span.file), e.span, st.encoding)),
                ),
            ];
            reveal_strlit("kind");
            reveal_strlit("value");
            reveal_strlit("contents");
            reveal_strlit("range");
            assert(names_differ(contents)) by {
                assert(contents[0].0.len() == 4 && contents[1].0.len() == 5);
            }
            assert(names_differ(whole)) by {
                assert(whole[0].0.len() == 8 && whole[1].0.len() == 5);
            }
            lemma_member(contents, 1);
            lemma_member(whole, 0);
            lemma_member(whole, 1);
            assert forall|k: int| #[trigger] first_for(c.tys, e.id, k) implies t == c.tys[k].1@ by {
                let n = choose|n: int|
                    0 <= n < c.tys.len() && (#[trigger] c.tys[n]).0 == e.id && t == c.tys[n].1@
                        && forall|j: int| 0 <= j < n ==> (#[trigger] c.tys[j]).0 != e.id;
                if n < k {
                    assert(c.tys[n].0 != e.id);
                } else if k < n {
                    assert(c.tys[k].0 != e.id);
                }
            }
        } else {
            assert forall|k: int| !#[trigger] first_for(c.tys, e.id, k) by {}
        }
    }
}

// ---------------------------------------------------------------------------
// Definitions
// ---------------------------------------------------------------------------

proof fn lemma_def(defs: Seq<(NodeId, Span)>, id: NodeId, i: int, k: int)
    requires
        0 <= i <= k,
        first_for(defs, id, k),
    ensures
        def_from(defs, id, i) == Some(defs[k].1),
    decreases defs.len() - i,
{
    if i < k {
        assert(defs[i].0 != id);
        lemma_def(defs, id, i + 1, k);
    }
}

proof fn lemma_ty(tys: Seq<(NodeId, Ty)>, id: NodeId, i: int, k: int)
    requires
        0 <= i <= k,
        first_for(tys, id, k),
    ensures
        ty_of_from(tys, id, i) == Some(tys[k].1@),
    decreases tys.len() - i,
{
    if i < k {
        assert(tys[i].0 != id);
        lemma_ty(tys, id, i + 1, k);
    }
}

/// The `k`-th method is the first of its name.
pub open spec fn first_method(ms: Seq<FunctionV>, name: Seq<char>, k: int) -> bool {
    &&& 0 <= k < ms.len()
    &&& ms[k].name == name
    &&& forall|j: int| 0 <= j < k ==> (#[trigger] ms[j]).name != name
}

/// The `k`-th field is the first of its name.
pub open spec fn first_field(fs: Seq<ParamV>, name: Seq<char>, k: int) -> bool {
    &&& 0 <= k < fs.len()
    &&& fs[k].name == name
    &&& forall|j: int| 0 <= j < k ==> (#[trigger] fs[j]).name != name
}

proof fn lemma_method(ms: Seq<FunctionV>, name: Seq<char>, i: int, k: int)
    requires
        0 <= i <= k,
        first_method(ms, name, k),
    ensures
        method_span_from(ms, name, i) == Some(ms[k].span),
    decreases ms.len() - i,
{
    if i < k {
        assert(ms[i].name != name);
        lemma_method(ms, name, i + 1, k);
    }
}

proof fn lemma_field(fs: Seq<ParamV>, name: Seq<char>, i: int, k: int)
    requires
        0 <= i <= k,
        first_field(fs, name, k),
    ensures
        field_span_from(fs, name, i) == Some(fs[k].span),
    decreases fs.len() - i,
{
    if i < k {
        assert(fs[i].name != name);
        lemma_field(fs, name, i + 1, k);
    }
}

/// A name is defined where the checks first found it defined. A method or a field is defined where
/// the struct that its receiver is an instance of declares the first one of that name.
pub proof fn law_definitions_are_found(
    p: ProgramV,
    defs: Seq<(NodeId, Span)>,
    tys: Seq<(NodeId, Ty)>,
    e: ExprAtV,
    t: int,
    s: StructV,
    k: int,
)
    ensures
        e.kind is Ident && first_for(defs, e.id, k) ==> defined_at(p, defs, tys, e) == Some(
            defs[k].1,
        ),
        e.kind is Ident && (forall|j: int| 0 <= j < defs.len() ==> (#[trigger] defs[j]).0 != e.id)
            ==> defined_at(p, defs, tys, e) is None,
        e.kind matches QueryKindV::Method { receiver, name } ==> (first_for(tys, receiver, t) && (
        tys[t].1@ matches TyV::Named { name: of, args } && lookup(p.structs, of) == Some(s))
            && first_method(s.methods, name, k) ==> defined_at(p, defs, tys, e) == Some(
            s.methods[k].span,
        )),
        e.kind matches QueryKindV::Field { receiver, name } ==> (first_for(tys, receiver, t) && (
        tys[t].1@ matches TyV::Named { name: of, args } && lookup(p.structs, of) == Some(s))
            && first_field(s.fields, name, k) ==> defined_at(p, defs, tys, e) == Some(
            s.fields[k].span,
        )),
        e.kind is Other ==> defined_at(p, defs, tys, e) is None,
{
    match e.kind {
        QueryKindV::Ident => {
            if first_for(defs, e.id, k) {
                lemma_def(defs, e.id, 0, k);
            }
            if forall|j: int| 0 <= j < defs.len() ==> (#[trigger] defs[j]).0 != e.id {
                lemma_no_def(defs, e.id, 0);
            }
        },
        QueryKindV::Method { receiver, name } => {
            if first_for(tys, receiver, t) {
                lemma_ty(tys, receiver, 0, t);
            }
            if first_method(s.methods, name, k) {
                lemma_method(s.methods, name, 0, k);
            }
        },
        QueryKindV::Field { receiver, name } => {
            if first_for(tys, receiver, t) {
                lemma_ty(tys, receiver, 0, t);
            }
            if first_field(s.fields, name, k) {
                lemma_field(s.fields, name, 0, k);
            }
        },
        QueryKindV::Other => {},
    }
}

proof fn lemma_no_def(defs: Seq<(NodeId, Span)>, id: NodeId, i: int)
    requires
        0 <= i,
        forall|j: int| i <= j < defs.len() ==> (#[trigger] defs[j]).0 != id,
    ensures
        def_from(defs, id, i) is None,
    decreases defs.len() - i,
{
    if i < defs.len() {
        assert(defs[i].0 != id);
        lemma_no_def(defs, id, i + 1);
    }
}

/// The answer to a question for a definition names the file and the place where it stands.
pub proof fn law_definition_answers_name_the_place(
    st: StateV,
    path: Seq<char>,
    position: (u32, u32),
    a: AnalysisV,
    c: CheckedV,
    e: ExprAtV,
    span: Span,
)
    requires
        lookup(st.analyses, path) == Some(a),
        a is Checked,
        a->program == Some(c),
        expression_of(a, position, st.encoding) == Some(e),
        defined_at(c.program, c.defs, c.tys, e) == Some(span),
    ensures
        member(definition_v(st, path, position), "uri"@) == Some(
            JsonV::Str(uri_of_path(path_text(a->paths, span.file))),
        ),
        member(definition_v(st, path, position), "range"@) == Some(
            range_v(lsp_range(path_text(a->texts, span.file), span, st.encoding)),
        ),
{
    let whole = seq![
        ("uri"@, JsonV::Str(uri_of_path(path_text(a->paths, span.file)))),
        ("range"@, range_v(lsp_range(path_text(a->texts, span.file), span, st.encoding))),
    ];
    reveal_strlit("uri");
    reveal_strlit("range");
    assert(names_differ(whole)) by {
        assert(whole[0].0.len() == 3 && whole[1].0.len() == 5);
    }
    lemma_member(whole, 0);
    lemma_member(whole, 1);
}

// ---------------------------------------------------------------------------
// Problems
// ---------------------------------------------------------------------------

/// A problem as it is told: where it stands, whether it is a warning or an error, its code and
/// its message.
pub open spec fn tells(j: JsonV, f: FindingV, text: Seq<char>, encoding: Encoding) -> bool {
    &&& member(j, "range"@) == Some(range_v(lsp_range(text, f.span, encoding)))
    &&& member(j, "severity"@) == Some(
        if 4000 <= f.number <= 4999 {
            JsonV::Int(2)
        } else {
            JsonV::Int(1)
        },
    )
    &&& member(j, "code"@) == Some(JsonV::Str(f.code))
    &&& member(j, "message"@) == Some(JsonV::Str(f.message))
}

proof fn lemma_tells(f: FindingV, text: Seq<char>, encoding: Encoding)
    ensures
        tells(
            diagnostic_v(
                lsp_range(text, f.span, encoding),
                super::server::severity_of(f.number),
                f.code,
                f.message,
            ),
            f,
            text,
            encoding,
        ),
{
    let range = lsp_range(text, f.span, encoding);
    let v = seq![
        ("range"@, range_v(range)),
        ("severity"@, JsonV::Int(super::server::severity_of(f.number))),
        ("code"@, JsonV::Str(f.code)),
        ("source"@, JsonV::Str("ybm"@)),
        ("message"@, JsonV::Str(f.message)),
    ];
    reveal_strlit("range");
    reveal_strlit("severity");
    reveal_strlit("code");
    reveal_strlit("source");
    reveal_strlit("message");
    assert(v[0].0.len() == 5 && v[1].0.len() == 8 && v[2].0.len() == 4 && v[3].0.len() == 6
        && v[4].0.len() == 7);
    assert(names_differ(v));
    lemma_member(v, 0);
    lemma_member(v, 1);
    lemma_member(v, 2);
    lemma_member(v, 4);
}

/// The problems of a file, in their order.
pub open spec fn of_file(findings: Seq<FindingV>, file: int) -> Seq<FindingV> {
    findings.filter(|f: FindingV| f.span.file.0 == file)
}

proof fn lemma_problems(
    findings: Seq<FindingV>,
    i: int,
    file: int,
    text: Seq<char>,
    encoding: Encoding,
    out: Seq<JsonV>,
)
    requires
        0 <= i <= findings.len(),
        told(out, of_file(findings.take(i), file), text, encoding),
    ensures
        told(
            problems_from(findings, i, file, text, encoding, out),
            of_file(findings, file),
            text,
            encoding,
        ),
    decreases findings.len() - i,
{
    if i < findings.len() {
        let f = findings[i];
        let more = findings.take(i + 1);
        assert(more.drop_last() =~= findings.take(i));
        assert(more.last() == f);
        reveal(Seq::filter);
        let next = if f.span.file.0 == file {
            lemma_tells(f, text, encoding);
            out.push(
                diagnostic_v(
                    lsp_range(text, f.span, encoding),
                    super::server::severity_of(f.number),
                    f.code,
                    f.message,
                ),
            )
        } else {
            out
        };
        lemma_problems(findings, i + 1, file, text, encoding, next);
    } else {
        assert(findings.take(i) =~= findings);
    }
}

/// Some messages tell some problems, one by one.
pub open spec fn told(
    out: Seq<JsonV>,
    findings: Seq<FindingV>,
    text: Seq<char>,
    encoding: Encoding,
) -> bool {
    out.len() == findings.len() && forall|k: int|
        0 <= k < out.len() ==> tells(#[trigger] out[k], findings[k], text, encoding)
}

/// Every file of an analysis is told its own problems, all of them and in their order, and no
/// others.
pub proof fn law_every_file_is_told_its_problems(
    findings: Seq<FindingV>,
    file: int,
    text: Seq<char>,
    encoding: Encoding,
)
    ensures
        told(
            problems_from(findings, 0, file, text, encoding, Seq::empty()),
            of_file(findings, file),
            text,
            encoding,
        ),
{
    assert(findings.take(0) =~= Seq::empty());
    reveal(Seq::filter);
    lemma_problems(findings, 0, file, text, encoding, Seq::empty());
}

/// Each file of an analysis has one message, which names the file and carries its problems.
pub proof fn law_each_file_has_one_message(
    paths: Seq<Seq<char>>,
    texts: Seq<Seq<char>>,
    findings: Seq<FindingV>,
    program: Option<CheckedV>,
    encoding: Encoding,
    i: int,
)
    requires
        0 <= i < paths.len(),
    ensures
        ({
            let out = reports(AnalysisV::Checked { paths, texts, findings, program }, encoding);
            let params = member(out[i], "params"@);
            &&& out.len() == paths.len()
            &&& params is Some
            &&& member(params->Some_0, "uri"@) == Some(JsonV::Str(uri_of_path(paths[i])))
            &&& member(params->Some_0, "diagnostics"@) == Some(
                JsonV::Arr(problems_from(findings, 0, i, texts[i], encoding, Seq::empty())),
            )
        }),
{
    let list = problems_from(findings, 0, i, texts[i], encoding, Seq::empty());
    let inner = seq![
        ("uri"@, JsonV::Str(uri_of_path(paths[i]))),
        ("diagnostics"@, JsonV::Arr(list)),
    ];
    let whole = seq![
        ("jsonrpc"@, JsonV::Str("2.0"@)),
        ("method"@, JsonV::Str("textDocument/publishDiagnostics"@)),
        ("params"@, obj_v(inner)),
    ];
    reveal_strlit("uri");
    reveal_strlit("diagnostics");
    reveal_strlit("jsonrpc");
    reveal_strlit("method");
    reveal_strlit("params");
    assert(names_differ(inner)) by {
        assert(inner[0].0.len() == 3 && inner[1].0.len() == 11);
    }
    assert(names_differ(whole)) by {
        assert(whole[0].0.len() == 7 && whole[1].0[0] == 'm' && whole[2].0[0] == 'p');
        assert(whole[1].0.len() == 6 && whole[2].0.len() == 6);
    }
    lemma_member(inner, 0);
    lemma_member(inner, 1);
    lemma_member(whole, 2);
    assert(publication_v(paths[i], list) == obj_v(whole));
}

} // verus!
