//! The messages of the protocol: what comes in, and how answers are put.

use super::json::{
    json_arr, json_int, json_null, json_str, json_value, jsons_view, member, obj_v, opt_json,
    pairs_view, parse, Json, JsonV,
};
use super::pos::Encoding;
use super::uri::{opt_str, path_of_uri, path_to_uri, uri_of_path, uri_to_path};
use crate::numerals::{reading, steady};
use crate::stdlib::codec::json::Reading;
use crate::text::same_text;
use vstd::prelude::*;
use vstd::string::*;

verus! {

/// The body of a message is no JSON.
pub const PARSE_ERROR: i64 = -32700;

/// A message is no call.
pub const INVALID_REQUEST: i64 = -32600;

/// A call is of a method that the server does not have.
pub const METHOD_NOT_FOUND: i64 = -32601;

/// The parameters of a call are not those of its method.
pub const INVALID_PARAMS: i64 = -32602;

// ---------------------------------------------------------------------------
// Answers
// ---------------------------------------------------------------------------

/// An answer to a request.
pub open spec fn response_v(id: JsonV, result: JsonV) -> JsonV {
    obj_v(seq![("jsonrpc"@, JsonV::Str("2.0"@)), ("id"@, id), ("result"@, result)])
}

/// An answer that a request failed.
pub open spec fn failure_v(id: JsonV, code: i64, message: Seq<char>) -> JsonV {
    obj_v(
        seq![
            ("jsonrpc"@, JsonV::Str("2.0"@)),
            ("id"@, id),
            (
                "error"@,
                obj_v(seq![("code"@, JsonV::Int(code)), ("message"@, JsonV::Str(message))]),
            ),
        ],
    )
}

pub fn response(id: Json, result: Json) -> (r: Json)
    ensures
        r@ == response_v(id@, result@),
{
    let ghost wanted = seq![("jsonrpc"@, JsonV::Str("2.0"@)), ("id"@, id@), ("result"@, result@)];
    let pairs = vec![("jsonrpc", json_str("2.0".to_owned())), ("id", id), ("result", result)];
    assert(pairs_view(pairs@) =~= wanted);
    Json::obj(pairs)
}

pub fn failure(id: Json, code: i64, message: &str) -> (r: Json)
    ensures
        r@ == failure_v(id@, code, message@),
{
    let inner = vec![("code", json_int(code)), ("message", json_str(message.to_owned()))];
    assert(pairs_view(inner@) =~= seq![
        ("code"@, JsonV::Int(code)),
        ("message"@, JsonV::Str(message@)),
    ]);
    let error = Json::obj(inner);
    let ghost wanted = seq![("jsonrpc"@, JsonV::Str("2.0"@)), ("id"@, id@), ("error"@, error@)];
    let pairs = vec![("jsonrpc", json_str("2.0".to_owned())), ("id", id), ("error", error)];
    assert(pairs_view(pairs@) =~= wanted);
    Json::obj(pairs)
}

/// A position as the protocol writes it.
pub open spec fn position_v(p: (u32, u32)) -> JsonV {
    obj_v(seq![("line"@, JsonV::Int(p.0 as i64)), ("character"@, JsonV::Int(p.1 as i64))])
}

/// A range as the protocol writes it.
pub open spec fn range_v(r: ((u32, u32), (u32, u32))) -> JsonV {
    obj_v(seq![("start"@, position_v(r.0)), ("end"@, position_v(r.1))])
}

fn position_json(p: (u32, u32)) -> (r: Json)
    ensures
        r@ == position_v(p),
{
    let pairs = vec![("line", json_int(p.0 as i64)), ("character", json_int(p.1 as i64))];
    assert(pairs_view(pairs@) =~= seq![
        ("line"@, JsonV::Int(p.0 as i64)),
        ("character"@, JsonV::Int(p.1 as i64)),
    ]);
    Json::obj(pairs)
}

pub fn range_json(range: ((u32, u32), (u32, u32))) -> (r: Json)
    ensures
        r@ == range_v(range),
{
    let pairs = vec![("start", position_json(range.0)), ("end", position_json(range.1))];
    assert(pairs_view(pairs@) =~= seq![
        ("start"@, position_v(range.0)),
        ("end"@, position_v(range.1)),
    ]);
    Json::obj(pairs)
}

/// A problem as the protocol writes it.
pub open spec fn diagnostic_v(
    range: ((u32, u32), (u32, u32)),
    severity: i64,
    code: Seq<char>,
    message: Seq<char>,
) -> JsonV {
    obj_v(
        seq![
            ("range"@, range_v(range)),
            ("severity"@, JsonV::Int(severity)),
            ("code"@, JsonV::Str(code)),
            ("source"@, JsonV::Str("ybm"@)),
            ("message"@, JsonV::Str(message)),
        ],
    )
}

pub fn diagnostic_json(
    range: ((u32, u32), (u32, u32)),
    severity: i64,
    code: String,
    message: String,
) -> (r: Json)
    ensures
        r@ == diagnostic_v(range, severity, code@, message@),
{
    let ghost wanted = seq![
        ("range"@, range_v(range)),
        ("severity"@, JsonV::Int(severity)),
        ("code"@, JsonV::Str(code@)),
        ("source"@, JsonV::Str("ybm"@)),
        ("message"@, JsonV::Str(message@)),
    ];
    let pairs = vec![
        ("range", range_json(range)),
        ("severity", json_int(severity)),
        ("code", json_str(code)),
        ("source", json_str("ybm".to_owned())),
        ("message", json_str(message)),
    ];
    assert(pairs_view(pairs@) =~= wanted);
    Json::obj(pairs)
}

/// The message that tells the problems of a file.
pub open spec fn publication_v(path: Seq<char>, diagnostics: Seq<JsonV>) -> JsonV {
    obj_v(
        seq![
            ("jsonrpc"@, JsonV::Str("2.0"@)),
            ("method"@, JsonV::Str("textDocument/publishDiagnostics"@)),
            (
                "params"@,
                obj_v(
                    seq![
                        ("uri"@, JsonV::Str(uri_of_path(path))),
                        ("diagnostics"@, JsonV::Arr(diagnostics)),
                    ],
                ),
            ),
        ],
    )
}

pub fn publication(path: &str, diagnostics: Vec<Json>) -> (r: Json)
    ensures
        r@ == publication_v(path@, jsons_view(diagnostics@)),
{
    let ghost ds = jsons_view(diagnostics@);
    let inner = vec![
        ("uri", json_str(path_to_uri(path))),
        ("diagnostics", json_arr(diagnostics)),
    ];
    assert(pairs_view(inner@) =~= seq![
        ("uri"@, JsonV::Str(uri_of_path(path@))),
        ("diagnostics"@, JsonV::Arr(ds)),
    ]);
    let params = Json::obj(inner);
    let ghost wanted = seq![
        ("jsonrpc"@, JsonV::Str("2.0"@)),
        ("method"@, JsonV::Str("textDocument/publishDiagnostics"@)),
        ("params"@, params@),
    ];
    let pairs = vec![
        ("jsonrpc", json_str("2.0".to_owned())),
        ("method", json_str("textDocument/publishDiagnostics".to_owned())),
        ("params", params),
    ];
    assert(pairs_view(pairs@) =~= wanted);
    Json::obj(pairs)
}

pub open spec fn encoding_name(encoding: Encoding) -> Seq<char> {
    match encoding {
        Encoding::Utf16 => "utf-16"@,
        Encoding::Utf32 => "utf-32"@,
    }
}

/// What the server tells of itself.
pub open spec fn initialize_v(encoding: Encoding, version: Seq<char>) -> JsonV {
    obj_v(
        seq![
            (
                "capabilities"@,
                obj_v(
                    seq![
                        ("positionEncoding"@, JsonV::Str(encoding_name(encoding))),
                        ("textDocumentSync"@, JsonV::Int(1)),
                        ("hoverProvider"@, JsonV::Bool(true)),
                        ("definitionProvider"@, JsonV::Bool(true)),
                        ("documentFormattingProvider"@, JsonV::Bool(true)),
                    ],
                ),
            ),
            (
                "serverInfo"@,
                obj_v(
                    seq![("name"@, JsonV::Str("ybm"@)), ("version"@, JsonV::Str(version))],
                ),
            ),
        ],
    )
}

pub fn initialize_result(encoding: Encoding, version: &str) -> (r: Json)
    ensures
        r@ == initialize_v(encoding, version@),
{
    let name = match encoding {
        Encoding::Utf16 => "utf-16".to_owned(),
        Encoding::Utf32 => "utf-32".to_owned(),
    };
    let able = vec![
        ("positionEncoding", json_str(name)),
        ("textDocumentSync", json_int(1)),
        ("hoverProvider", super::json::json_bool(true)),
        ("definitionProvider", super::json::json_bool(true)),
        ("documentFormattingProvider", super::json::json_bool(true)),
    ];
    assert(pairs_view(able@) =~= seq![
        ("positionEncoding"@, JsonV::Str(encoding_name(encoding))),
        ("textDocumentSync"@, JsonV::Int(1)),
        ("hoverProvider"@, JsonV::Bool(true)),
        ("definitionProvider"@, JsonV::Bool(true)),
        ("documentFormattingProvider"@, JsonV::Bool(true)),
    ]);
    let info = vec![("name", json_str("ybm".to_owned())), ("version", json_str(version.to_owned()))];
    assert(pairs_view(info@) =~= seq![
        ("name"@, JsonV::Str("ybm"@)),
        ("version"@, JsonV::Str(version@)),
    ]);
    let capabilities = Json::obj(able);
    let server = Json::obj(info);
    let ghost wanted = seq![("capabilities"@, capabilities@), ("serverInfo"@, server@)];
    let pairs = vec![("capabilities", capabilities), ("serverInfo", server)];
    assert(pairs_view(pairs@) =~= wanted);
    Json::obj(pairs)
}

// ---------------------------------------------------------------------------
// What comes in
// ---------------------------------------------------------------------------

/// A message that came in.
#[derive(Debug)]
pub enum Incoming {
    /// It is no call, and is answered so.
    Refused(Json),
    /// The server is to end.
    Exit,
    /// A call of a method; one without an id wants no answer.
    Call { method: String, params: Option<Json>, id: Option<Json> },
}

pub ghost enum IncomingV {
    Refused(JsonV),
    Exit,
    Call { method: Seq<char>, params: Option<JsonV>, id: Option<JsonV> },
}

pub open spec fn owned_json(o: Option<Json>) -> Option<JsonV> {
    match o {
        Some(j) => Some(j@),
        None => None,
    }
}

impl Incoming {
    pub open spec fn view(&self) -> IncomingV {
        match *self {
            Incoming::Refused(j) => IncomingV::Refused(j@),
            Incoming::Exit => IncomingV::Exit,
            Incoming::Call { method, params, id } => IncomingV::Call {
                method: method@,
                params: owned_json(params),
                id: owned_json(id),
            },
        }
    }
}

pub open spec fn or_null(j: Option<JsonV>) -> JsonV {
    match j {
        Some(j) => j,
        None => JsonV::Null,
    }
}

/// What a value is as a message.
pub open spec fn incoming_of(j: JsonV) -> IncomingV {
    if !(j is Obj) {
        IncomingV::Refused(failure_v(JsonV::Null, INVALID_REQUEST, "invalid request"@))
    } else if member(j, "jsonrpc"@) != Some(JsonV::Str("2.0"@)) {
        IncomingV::Refused(failure_v(or_null(member(j, "id"@)), INVALID_REQUEST, "invalid request"@))
    } else {
        match member(j, "method"@) {
            Some(JsonV::Str(method)) => if method == "exit"@ {
                IncomingV::Exit
            } else {
                IncomingV::Call { method, params: member(j, "params"@), id: member(j, "id"@) }
            },
            _ => IncomingV::Refused(
                failure_v(or_null(member(j, "id"@)), INVALID_REQUEST, "invalid request"@),
            ),
        }
    }
}

/// What the body of a message is.
pub open spec fn body_means(read: Reading, body: Seq<char>) -> IncomingV {
    match json_value(read, body) {
        Ok(j) => incoming_of(j),
        Err(_) => IncomingV::Refused(failure_v(JsonV::Null, PARSE_ERROR, "parse error"@)),
    }
}

pub(crate) fn copy_opt(o: Option<&Json>) -> (r: Option<Json>)
    ensures
        owned_json(r) == opt_json(o),
{
    match o {
        Some(j) => Some(j.copy()),
        None => None,
    }
}

pub(crate) fn is_text(o: Option<&Json>, text: &str) -> (r: bool)
    ensures
        r == (opt_json(o) == Some(JsonV::Str(text@))),
{
    match o {
        Some(j) => match j.as_str() {
            Some(s) => same_text(s, text),
            None => false,
        },
        None => false,
    }
}

/// What a value is as a message.
pub fn classify(message: &Json) -> (r: Incoming)
    ensures
        r@ == incoming_of(message@),
{
    if message.as_obj().is_none() {
        return Incoming::Refused(failure(json_null(), INVALID_REQUEST, "invalid request"));
    }
    let id = copy_opt(message.get("id"));
    if !is_text(message.get("jsonrpc"), "2.0") {
        let id = match id {
            Some(j) => j,
            None => json_null(),
        };
        return Incoming::Refused(failure(id, INVALID_REQUEST, "invalid request"));
    }
    if let Some(j) = message.get("method") {
        if let Some(method) = j.as_str() {
            if same_text(method, "exit") {
                return Incoming::Exit;
            }
            return Incoming::Call {
                method: method.to_owned(),
                params: copy_opt(message.get("params")),
                id,
            };
        }
    }
    let id = match id {
        Some(j) => j,
        None => json_null(),
    };
    Incoming::Refused(failure(id, INVALID_REQUEST, "invalid request"))
}

/// Reads the body of a message. Floats are read with `read`, from what the text has to their
/// spelling.
pub fn read_body<F: Fn(String) -> Option<String>>(body: &str, read: &F) -> (r: Incoming)
    requires
        steady(*read),
    ensures
        r@ == body_means(reading(*read), body@),
{
    match parse(body, read) {
        Ok(j) => classify(&j),
        Err(_) => Incoming::Refused(failure(json_null(), PARSE_ERROR, "parse error")),
    }
}

// ---------------------------------------------------------------------------
// Parameters
// ---------------------------------------------------------------------------

/// The value under some names, each inside the one before.
pub open spec fn inner(j: Option<JsonV>, key: Seq<char>) -> Option<JsonV> {
    match j {
        Some(j) => member(j, key),
        None => None,
    }
}

pub(crate) fn get_in<'a>(o: Option<&'a Json>, key: &str) -> (r: Option<&'a Json>)
    ensures
        opt_json(r) == inner(opt_json(o), key@),
{
    match o {
        Some(j) => j.get(key),
        None => None,
    }
}

/// The path of the document that a call is about, before links in it are followed.
pub open spec fn document_path_of(params: Option<JsonV>, windows: bool) -> Option<Seq<char>> {
    match inner(inner(params, "textDocument"@), "uri"@) {
        Some(JsonV::Str(uri)) => path_of_uri(uri, windows),
        _ => None,
    }
}

/// The path of the document that a call is about, before links in it are followed.
pub fn document_path(params: Option<&Json>, windows: bool) -> (r: Option<String>)
    ensures
        opt_str(r) == document_path_of(opt_json(params), windows),
{
    match get_in(get_in(params, "textDocument"), "uri") {
        Some(j) => match j.as_str() {
            Some(uri) => uri_to_path(uri, windows),
            None => None,
        },
        None => None,
    }
}

pub open spec fn as_u32(j: Option<JsonV>) -> Option<u32> {
    match j {
        Some(JsonV::Int(n)) => if 0 <= n <= u32::MAX {
            Some(n as u32)
        } else {
            None
        },
        _ => None,
    }
}

/// The position that a call is about.
pub open spec fn position_of(params: Option<JsonV>) -> Option<(u32, u32)> {
    let p = inner(params, "position"@);
    match (as_u32(inner(p, "line"@)), as_u32(inner(p, "character"@))) {
        (Some(line), Some(character)) => Some((line, character)),
        _ => None,
    }
}

fn small(o: Option<&Json>) -> (r: Option<u32>)
    ensures
        r == as_u32(opt_json(o)),
{
    match o {
        Some(j) => match j.as_i64() {
            Some(n) => {
                if 0 <= n && n <= u32::MAX as i64 {
                    Some(n as u32)
                } else {
                    None
                }
            },
            None => None,
        },
        None => None,
    }
}

pub fn lsp_position(params: Option<&Json>) -> (r: Option<(u32, u32)>)
    ensures
        r == position_of(opt_json(params)),
{
    let p = get_in(params, "position");
    match (small(get_in(p, "line")), small(get_in(p, "character"))) {
        (Some(line), Some(character)) => Some((line, character)),
        _ => None,
    }
}

/// Some value is a text.
pub open spec fn some_text(items: Seq<JsonV>, text: Seq<char>) -> bool {
    exists|i: int| 0 <= i < items.len() && #[trigger] items[i] == JsonV::Str(text)
}

/// The encoding that the client's list allows: the one that counts characters if it is there, the
/// usual one if that is, and the usual one without a list.
pub open spec fn encoding_of(params: Option<JsonV>) -> Option<Encoding> {
    match inner(inner(inner(params, "capabilities"@), "general"@), "positionEncodings"@) {
        Some(JsonV::Arr(items)) => if some_text(items, "utf-32"@) {
            Some(Encoding::Utf32)
        } else if some_text(items, "utf-16"@) {
            Some(Encoding::Utf16)
        } else {
            None
        },
        _ => Some(Encoding::Utf16),
    }
}

fn has_text(items: &Vec<Json>, text: &str) -> (r: bool)
    ensures
        r == some_text(jsons_view(items@), text@),
{
    let ghost js = jsons_view(items@);
    let mut i: usize = 0;
    while i < items.len()
        invariant
            js == jsons_view(items@),
            i <= items@.len(),
            forall|k: int| 0 <= k < i ==> #[trigger] js[k] != JsonV::Str(text@),
        decreases items@.len() - i,
    {
        assert(js[i as int] == items@[i as int]@);
        if is_text(Some(&items[i]), text) {
            return true;
        }
        i = i + 1;
    }
    false
}

pub fn choose_encoding(params: Option<&Json>) -> (r: Option<Encoding>)
    ensures
        r == encoding_of(opt_json(params)),
{
    let list = get_in(get_in(get_in(params, "capabilities"), "general"), "positionEncodings");
    match list {
        Some(j) => match j.as_arr() {
            Some(items) => {
                if has_text(items, "utf-32") {
                    Some(Encoding::Utf32)
                } else if has_text(items, "utf-16") {
                    Some(Encoding::Utf16)
                } else {
                    None
                }
            },
            None => Some(Encoding::Utf16),
        },
        None => Some(Encoding::Utf16),
    }
}

pub open spec fn text_in(j: Option<JsonV>) -> Option<Seq<char>> {
    match j {
        Some(JsonV::Str(s)) => Some(s),
        _ => None,
    }
}

fn owned_text(o: Option<&Json>) -> (r: Option<String>)
    ensures
        opt_str(r) == text_in(opt_json(o)),
{
    match o {
        Some(j) => match j.as_str() {
            Some(s) => Some(s.to_owned()),
            None => None,
        },
        None => None,
    }
}

/// The text of a document that was opened.
pub open spec fn opened_text(params: Option<JsonV>) -> Option<Seq<char>> {
    text_in(inner(inner(params, "textDocument"@), "text"@))
}

pub fn open_text(params: Option<&Json>) -> (r: Option<String>)
    ensures
        opt_str(r) == opened_text(opt_json(params)),
{
    owned_text(get_in(get_in(params, "textDocument"), "text"))
}

/// The text of a document after its last change.
pub open spec fn changed_text(params: Option<JsonV>) -> Option<Seq<char>> {
    match inner(params, "contentChanges"@) {
        Some(JsonV::Arr(items)) => if items.len() == 0 {
            None
        } else {
            text_in(member(items.last(), "text"@))
        },
        _ => None,
    }
}

pub fn change_text(params: Option<&Json>) -> (r: Option<String>)
    ensures
        opt_str(r) == changed_text(opt_json(params)),
{
    if let Some(j) = get_in(params, "contentChanges") {
        if let Some(items) = j.as_arr() {
            let n: usize = items.len();
            if n > 0 {
                assert(jsons_view(items@)[n - 1] == items@[n - 1]@);
                return owned_text(items[n - 1].get("text"));
            }
        }
    }
    None
}

/// A call to format has options.
pub open spec fn has_options(params: Option<JsonV>) -> bool {
    inner(params, "options"@) matches Some(j) && j is Obj
}

pub fn options_given(params: Option<&Json>) -> (r: bool)
    ensures
        r == has_options(opt_json(params)),
{
    match get_in(params, "options") {
        Some(j) => j.as_obj().is_some(),
        None => false,
    }
}

} // verus!
