//! What editors say is understood.

use super::json::{member, JsonV};
use super::message::{
    changed_text, document_path_of, incoming_of, opened_text, position_of, IncomingV,
};
use super::uri::{law_address_of_a_path_names_it, uri_of_path};
use crate::names::{find_from, lookup};
use vstd::prelude::*;

verus! {

proof fn lemma_first(k: Seq<char>, v: JsonV, rest: Seq<(Seq<char>, JsonV)>)
    ensures
        member(JsonV::Obj(seq![(k, v)] + rest), k) == Some(v),
{
    let m = seq![(k, v)] + rest;
    assert(m[0] == (k, v));
    assert(find_from(m, k, 0) == Some(0int));
    assert(lookup(m, k) == Some(v));
}

proof fn lemma_later(k: Seq<char>, v: JsonV, rest: Seq<(Seq<char>, JsonV)>, other: Seq<char>)
    requires
        k != other,
    ensures
        member(JsonV::Obj(seq![(k, v)] + rest), other) == member(JsonV::Obj(rest), other),
{
    let m = seq![(k, v)] + rest;
    assert(m[0] == (k, v));
    lemma_find_later(m, rest, other, 0);
    assert(find_from(m, other, 0) == find_from(m, other, 1));
}

proof fn lemma_find_later(
    m: Seq<(Seq<char>, JsonV)>,
    rest: Seq<(Seq<char>, JsonV)>,
    name: Seq<char>,
    i: int,
)
    requires
        0 <= i <= rest.len(),
        m.len() == rest.len() + 1,
        forall|j: int| 0 <= j < rest.len() ==> #[trigger] m[j + 1] == rest[j],
    ensures
        match find_from(rest, name, i) {
            Some(j) => find_from(m, name, i + 1) == Some(j + 1) && 0 <= j < rest.len(),
            None => find_from(m, name, i + 1) is None,
        },
    decreases rest.len() - i,
{
    if i < rest.len() {
        assert(m[i + 1] == rest[i]);
        if rest[i].0 != name {
            lemma_find_later(m, rest, name, i + 1);
        }
    }
}

/// A request names its method and carries its parameters and its number, whatever else comes
/// with it.
pub proof fn law_requests_are_understood(
    method: Seq<char>,
    params: JsonV,
    id: JsonV,
    rest: Seq<(Seq<char>, JsonV)>,
)
    requires
        method != "exit"@,
    ensures
        incoming_of(
            JsonV::Obj(
                seq![("jsonrpc"@, JsonV::Str("2.0"@))] + (seq![("id"@, id)] + (seq![
                    ("method"@, JsonV::Str(method)),
                ] + (seq![("params"@, params)] + rest))),
            ),
        ) == (IncomingV::Call { method, params: Some(params), id: Some(id) }),
{
    reveal_strlit("jsonrpc");
    reveal_strlit("id");
    reveal_strlit("method");
    reveal_strlit("params");
    let d = seq![("params"@, params)] + rest;
    let c = seq![("method"@, JsonV::Str(method))] + d;
    let b = seq![("id"@, id)] + c;
    assert("id"@.len() == 2);
    assert("jsonrpc"@.len() == 7);
    assert("method"@.len() == 6);
    assert("params"@.len() == 6);
    assert("method"@[0] != "params"@[0]);
    lemma_first("jsonrpc"@, JsonV::Str("2.0"@), b);
    lemma_later("jsonrpc"@, JsonV::Str("2.0"@), b, "id"@);
    lemma_later("jsonrpc"@, JsonV::Str("2.0"@), b, "method"@);
    lemma_later("jsonrpc"@, JsonV::Str("2.0"@), b, "params"@);
    lemma_first("id"@, id, c);
    lemma_later("id"@, id, c, "method"@);
    lemma_later("id"@, id, c, "params"@);
    lemma_first("method"@, JsonV::Str(method), d);
    lemma_later("method"@, JsonV::Str(method), d, "params"@);
    lemma_first("params"@, params, rest);
}

/// A place in a document is its address, its line and its character, whatever else comes with
/// them.
pub proof fn law_places_are_understood(
    path: Seq<char>,
    line: u32,
    character: u32,
    of_document: Seq<(Seq<char>, JsonV)>,
    of_position: Seq<(Seq<char>, JsonV)>,
    rest: Seq<(Seq<char>, JsonV)>,
)
    requires
        path.len() > 0,
        path[0] == '/',
        !path.contains('\\'),
    ensures
        ({
            let document = JsonV::Obj(
                seq![("uri"@, JsonV::Str(uri_of_path(path)))] + of_document,
            );
            let position = JsonV::Obj(
                seq![("line"@, JsonV::Int(line as i64))] + (seq![
                    ("character"@, JsonV::Int(character as i64)),
                ] + of_position),
            );
            let params = JsonV::Obj(
                seq![("textDocument"@, document)] + (seq![("position"@, position)] + rest),
            );
            &&& document_path_of(Some(params), false) == Some(path)
            &&& position_of(Some(params)) == Some((line, character))
        }),
{
    let document = JsonV::Obj(seq![("uri"@, JsonV::Str(uri_of_path(path)))] + of_document);
    let after_line = seq![("character"@, JsonV::Int(character as i64))] + of_position;
    let position = JsonV::Obj(seq![("line"@, JsonV::Int(line as i64))] + after_line);
    let after_document = seq![("position"@, position)] + rest;
    reveal_strlit("textDocument");
    reveal_strlit("position");
    reveal_strlit("line");
    reveal_strlit("character");
    assert("textDocument"@.len() == 12);
    assert("position"@.len() == 8);
    assert("line"@.len() == 4);
    assert("character"@.len() == 9);
    lemma_first("uri"@, JsonV::Str(uri_of_path(path)), of_document);
    lemma_first("line"@, JsonV::Int(line as i64), after_line);
    lemma_later("line"@, JsonV::Int(line as i64), after_line, "character"@);
    lemma_first("character"@, JsonV::Int(character as i64), of_position);
    lemma_first("textDocument"@, document, after_document);
    lemma_later("textDocument"@, document, after_document, "position"@);
    lemma_first("position"@, position, rest);
    law_address_of_a_path_names_it(path);
}

/// A document that is opened has the text that comes with it, and one that is changed has the
/// text of the last change.
pub proof fn law_texts_are_understood(
    text: Seq<char>,
    of_document: Seq<(Seq<char>, JsonV)>,
    changes: Seq<JsonV>,
    of_change: Seq<(Seq<char>, JsonV)>,
    rest: Seq<(Seq<char>, JsonV)>,
)
    ensures
        ({
            let document = JsonV::Obj(seq![("text"@, JsonV::Str(text))] + of_document);
            let change = JsonV::Obj(seq![("text"@, JsonV::Str(text))] + of_change);
            let opened = JsonV::Obj(seq![("textDocument"@, document)] + rest);
            let changed = JsonV::Obj(
                seq![("contentChanges"@, JsonV::Arr(changes.push(change)))] + rest,
            );
            &&& opened_text(Some(opened)) == Some(text)
            &&& changed_text(Some(changed)) == Some(text)
        }),
{
    let document = JsonV::Obj(seq![("text"@, JsonV::Str(text))] + of_document);
    let change = JsonV::Obj(seq![("text"@, JsonV::Str(text))] + of_change);
    lemma_first("text"@, JsonV::Str(text), of_document);
    lemma_first("text"@, JsonV::Str(text), of_change);
    lemma_first("textDocument"@, document, rest);
    lemma_first("contentChanges"@, JsonV::Arr(changes.push(change)), rest);
    assert(changes.push(change).last() == change);
}

} // verus!
