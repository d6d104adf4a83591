//! The language server: positions, addresses, framing, values and calls.

use yabumi::ast::NodeId;
use yabumi::diagnostics::{FileId, Position, Span};
use yabumi::lsp::json::{parse, Json};
use yabumi::lsp::message::{document_path, read_body, Incoming};
use yabumi::lsp::pos::{document_end, from_lsp_pos, span_to_range, to_lsp_pos, Encoding};
use yabumi::lsp::query::Resolutions;
use yabumi::lsp::server::{
    clear_stale, dispatch, ends_well, record, Analysis, Finding, ServerState,
};
use yabumi::lsp::transport::{
    read_message, write_message, Headers, TransportError, Wanted, MAX_MESSAGE_SIZE,
};
use yabumi::lsp::uri::{path_to_uri, uri_to_path};
use yabumi::names::NameMap;
use yabumi::sources::SourceMap;

fn read(s: String) -> Option<String> {
    s.parse::<f64>().ok().map(|x| x.to_string())
}

fn parsed(text: &str) -> Result<Json, String> {
    parse(text, &read)
}

fn must<T>(result: Result<T, String>) -> T {
    match result {
        Ok(value) => value,
        Err(error) => panic!("expected JSON to parse: {error}"),
    }
}

fn same(a: &Json, b: &Json) -> bool {
    match (a, b) {
        (Json::Null, Json::Null) => true,
        (Json::Bool(x), Json::Bool(y)) => x == y,
        (Json::Int(x), Json::Int(y)) => x == y,
        (Json::Float(x), Json::Float(y)) => x == y,
        (Json::Str(x), Json::Str(y)) => x == y,
        (Json::Arr(x), Json::Arr(y)) => {
            x.len() == y.len() && x.iter().zip(y.iter()).all(|(p, q)| same(p, q))
        }
        (Json::Obj(x), Json::Obj(y)) => {
            x.len() == y.len()
                && (0..x.len()).all(|i| match y.get(x.name_at(i)) {
                    Some(v) => same(x.item_at(i), v),
                    None => false,
                })
        }
        _ => false,
    }
}

// --- positions ---

#[test]
fn converts_emoji_columns_for_utf16_and_utf32() {
    let text = "\u{1f600}\u{65e5}\u{672c}\n";
    assert_eq!(to_lsp_pos(text, Position { line: 1, col: 2 }, Encoding::Utf16), (0, 2));
    assert_eq!(to_lsp_pos(text, Position { line: 1, col: 2 }, Encoding::Utf32), (0, 1));
    assert_eq!(from_lsp_pos(text, 0, 2, Encoding::Utf16), Position { line: 1, col: 2 });
    assert_eq!(from_lsp_pos(text, 0, 1, Encoding::Utf32), Position { line: 1, col: 2 });
}

#[test]
fn clamps_positions_to_the_available_line_and_column() {
    let text = "abc\ndef";
    assert_eq!(to_lsp_pos(text, Position { line: 9, col: 99 }, Encoding::Utf16), (1, 3));
    assert_eq!(from_lsp_pos(text, 9, 99, Encoding::Utf16), Position { line: 2, col: 4 });
}

#[test]
fn converts_span_endpoints() {
    let span = Span {
        file: FileId(0),
        start: Position { line: 1, col: 1 },
        end: Position { line: 1, col: 3 },
    };
    assert_eq!(span_to_range("\u{65e5}\u{672c}", span, Encoding::Utf16), ((0, 0), (0, 2)));
}

#[test]
fn positions_survive_a_trip_through_the_protocol() {
    let text = "a\u{1f600}b\r\n\nxyz";
    for encoding in [Encoding::Utf16, Encoding::Utf32] {
        for (line, last) in [(1u32, 4u32), (2, 1), (3, 4)] {
            for col in 1..=last {
                let pos = Position { line, col };
                let (l, c) = to_lsp_pos(text, pos, encoding);
                assert_eq!(from_lsp_pos(text, l, c, encoding), pos);
            }
        }
    }
}

#[test]
fn document_end_is_behind_the_last_character() {
    assert_eq!(document_end("x   =  5", Encoding::Utf16), (0, 8));
    assert_eq!(document_end("a\n\u{1f600}", Encoding::Utf16), (1, 2));
    assert_eq!(document_end("a\n\u{1f600}", Encoding::Utf32), (1, 1));
    assert_eq!(document_end("a\r\n", Encoding::Utf16), (1, 0));
}

#[test]
fn position_inside_a_surrogate_pair_is_before_the_character() {
    assert_eq!(
        from_lsp_pos("\u{1f600}b", 0, 1, Encoding::Utf16),
        Position { line: 1, col: 1 }
    );
}

// --- addresses ---

fn path_string(uri: &str) -> String {
    match uri_to_path(uri, false) {
        Some(path) => path,
        None => panic!("expected a file URI: {uri}"),
    }
}

#[test]
fn converts_utf8_file_uri() {
    assert_eq!(
        path_string("file:///tmp/a%20b/%E6%97%A5%E6%9C%AC"),
        "/tmp/a b/\u{65e5}\u{672c}"
    );
    assert_eq!(
        path_to_uri("/tmp/a b/\u{65e5}\u{672c}"),
        "file:///tmp/a%20b/%E6%97%A5%E6%9C%AC"
    );
}

#[test]
fn rejects_non_file_and_invalid_percent_sequences() {
    assert_eq!(uri_to_path("https://example.test/a", false), None);
    assert_eq!(uri_to_path("file:///tmp/%zz", false), None);
    assert_eq!(uri_to_path("file://relative/path", false), None);
}

#[test]
fn keeps_windows_drive_uri_shape() {
    assert_eq!(path_to_uri("C:\\Users\\name"), "file:///C:/Users/name");
    assert_eq!(
        uri_to_path("file:///C:/Users/name", true),
        Some("C:\\Users\\name".to_owned())
    );
    assert_eq!(path_string("file:///C:/Users/name"), "/C:/Users/name");
}

#[test]
fn windows_drive_paths_lose_their_slash() {
    assert_eq!(
        uri_to_path("file:///C:/Users/name", true),
        Some("C:\\Users\\name".to_owned())
    );
    assert_eq!(uri_to_path("file:///tmp/x", true), Some("/tmp/x".to_owned()));
}

#[test]
fn bytes_that_are_no_text_make_no_path() {
    assert_eq!(uri_to_path("file:///tmp/%FF", false), None);
    assert_eq!(uri_to_path("file:///tmp/%4", false), None);
}

#[test]
fn the_address_of_a_path_names_it() {
    for path in ["/", "/a%b", "/x y/\u{e9}~-._/Z9", "/tmp/#?&"] {
        assert_eq!(uri_to_path(&path_to_uri(path), false), Some(path.to_owned()));
    }
}

#[test]
fn the_address_of_a_drive_path_names_it() {
    for path in ["C:\\", "c:\\Users\\a b\\\u{e9}", "Z:\\x:y\\%41"] {
        assert_eq!(uri_to_path(&path_to_uri(path), true), Some(path.to_owned()));
    }
}

// --- framing ---

#[test]
fn header_lines_tell_what_is_read_next() {
    let mut headers = Headers::new();
    assert_eq!(headers.take(Vec::new()), Ok(Wanted::Nothing));
    assert_eq!(headers.take(b"X: y\r\n".to_vec()), Ok(Wanted::Line));
    assert_eq!(headers.take(Vec::new()), Err(TransportError::HeadersEnded));
    assert_eq!(headers.take(b"\r\n".to_vec()), Err(TransportError::MissingLength));
    assert_eq!(headers.take(b"content-length: 7\r\n".to_vec()), Ok(Wanted::Line));
    assert_eq!(headers.take(b"\r\n".to_vec()), Ok(Wanted::Body(7)));
}

#[test]
fn frames_utf8_message_round_trip() {
    let body = "{\"text\":\"\u{65e5}\u{672c}\u{8a9e}\"}";
    let mut wire = Vec::new();
    write_message(&mut wire, body);
    let first = read_message(&wire, 0);
    let end = wire.len();
    assert_eq!(first, Ok(Some((body.to_owned(), end))));
    assert_eq!(read_message(&wire, end), Ok(None));
}

#[test]
fn rejects_missing_or_invalid_content_length() {
    let missing = b"X-Test: yes\r\n\r\n{}".to_vec();
    assert!(read_message(&missing, 0).is_err());
    let invalid = b"Content-Length: nope\r\n\r\n{}".to_vec();
    assert!(read_message(&invalid, 0).is_err());
}

#[test]
fn rejects_oversized_messages_before_allocation() {
    let header = format!("Content-Length: {}\r\n\r\n", MAX_MESSAGE_SIZE + 1);
    let wire = header.into_bytes();
    assert!(read_message(&wire, 0).is_err());
}

#[test]
fn framed_bytes_are_headers_and_body() {
    let mut wire = Vec::new();
    write_message(&mut wire, "\u{e9}");
    assert_eq!(wire, b"Content-Length: 2\r\n\r\n\xC3\xA9".to_vec());
}

#[test]
fn each_transport_failure_is_told_apart() {
    let cases: Vec<(&[u8], TransportError)> = vec![
        (b"Content-Length: 2\r\n", TransportError::HeadersEnded),
        (b"\xFF: 1\r\n\r\n", TransportError::HeaderNotUtf8),
        (b"Content-Length: 2\n\r\n{}", TransportError::HeaderNotTerminated),
        (b"Content-Length 2\r\n\r\n{}", TransportError::HeaderWithoutColon),
        (b"Content-Length: -2\r\n\r\n{}", TransportError::InvalidLength),
        (b"A: b\r\n\r\n", TransportError::MissingLength),
        (b"Content-Length: 67108865\r\n\r\n", TransportError::TooLarge),
        (b"Content-Length: 3\r\n\r\n{}", TransportError::BodyEnded),
        (b"Content-Length: 1\r\n\r\n\xFF", TransportError::BodyNotUtf8),
    ];
    for (wire, error) in cases {
        assert_eq!(read_message(&wire.to_vec(), 0), Err(error));
        assert!(!error.message().is_empty());
    }
    assert_eq!(TransportError::MissingLength.message(), "LSP message is missing Content-Length");
}

#[test]
fn header_names_ignore_case_and_the_last_length_counts() {
    let wire = b"content-LENGTH : 9\r\nContent-Length: +2\r\nX: y\r\n\r\n{}rest".to_vec();
    assert_eq!(read_message(&wire, 0), Ok(Some(("{}".to_owned(), wire.len() - 4))));
}

#[test]
fn messages_follow_one_another() {
    let mut wire = Vec::new();
    write_message(&mut wire, "one");
    let middle = wire.len();
    write_message(&mut wire, "two");
    assert_eq!(read_message(&wire, 0), Ok(Some(("one".to_owned(), middle))));
    assert_eq!(read_message(&wire, middle), Ok(Some(("two".to_owned(), wire.len()))));
}

// --- values ---

#[test]
fn round_trips_protocol_values() {
    let value = Json::obj(vec![
        ("ok", Json::Bool(true)),
        ("items", Json::Arr(vec![Json::Int(3), Json::Float("2.5".to_owned())])),
        ("none", Json::Null),
    ]);
    let back = must(parsed(&value.text()));
    assert!(same(&back, &value));
    assert_eq!(value.text(), "{\"ok\":true,\"items\":[3,2.5],\"none\":null}");
}

#[test]
fn escapes_and_decodes_strings() {
    let value = Json::Str("quote \" slash \\ newline\n tab\t control\u{1f}".to_owned());
    let encoded = value.text();
    assert_eq!(
        encoded,
        "\"quote \\\" slash \\\\ newline\\n tab\\t control\\u001f\""
    );
    assert!(same(&must(parsed(&encoded)), &value));
    assert!(same(&must(parsed("\"\u{1f600}\"")), &Json::Str("\u{1f600}".to_owned())));
}

#[test]
fn preserves_integral_float_values_when_serializing() {
    let value = Json::Float("1".to_owned());
    assert_eq!(value.text(), "1.0");
    assert!(same(&must(parsed(&value.text())), &value));
}

#[test]
fn rejects_invalid_protocol_values() {
    assert!(parsed("1e999").is_err());
    assert!(parsed("{").is_err());
    assert_eq!(
        parsed("1e999").err(),
        Some("JSON: number is outside the finite range".to_owned())
    );
}

#[test]
fn members_are_looked_up_by_name_and_later_ones_win() {
    let value = Json::obj(vec![("a", Json::Int(1)), ("b", Json::Null), ("a", Json::Int(2))]);
    assert_eq!(value.get("a").and_then(Json::as_i64), Some(2));
    assert!(value.get("c").is_none());
    assert_eq!(value.text(), "{\"a\":2,\"b\":null}");
    assert!(same(&value.copy(), &value));
    assert!(Json::Int(1).get("a").is_none());
    assert!(Json::Int(1).as_str().is_none());
}

// --- calls ---

fn request(id: i64, method: &str, params: Json) -> Json {
    Json::obj(vec![
        ("jsonrpc", Json::Str("2.0".to_owned())),
        ("id", Json::Int(id)),
        ("method", Json::Str(method.to_owned())),
        ("params", params),
    ])
}

fn notification(method: &str, params: Json) -> Json {
    Json::obj(vec![
        ("jsonrpc", Json::Str("2.0".to_owned())),
        ("method", Json::Str(method.to_owned())),
        ("params", params),
    ])
}

fn initialize_params() -> Json {
    Json::obj(vec![(
        "capabilities",
        Json::obj(vec![(
            "general",
            Json::obj(vec![(
                "positionEncodings",
                Json::Arr(vec![Json::Str("utf-16".to_owned())]),
            )]),
        )]),
    )])
}

/// Runs the server on an input; a document is analysed as a file without problems, after the
/// files that `siblings` gives.
fn run(input: Vec<u8>, problems: &[(&str, u32)]) -> (bool, Vec<Json>) {
    let mut state = ServerState::new();
    let mut out = Vec::new();
    let mut at = 0usize;
    loop {
        let body = match read_message(&input, at) {
            Ok(Some((body, next))) => {
                at = next;
                body
            }
            Ok(None) => return (true, out),
            Err(_) => return (false, out),
        };
        match read_body(&body, &read) {
            Incoming::Refused(reply) => out.push(reply),
            Incoming::Exit => return (ends_well(&state), out),
            Incoming::Call { method, params, id } => {
                let path = document_path(params.as_ref(), false);
                let formatted = Some("x = 5\n".to_owned());
                let step = dispatch(
                    &mut state,
                    &method,
                    params.as_ref(),
                    id,
                    path,
                    formatted,
                    "0.1.0",
                );
                out.extend(step.send);
                if step.reanalyze {
                    let paths: Vec<String> =
                        (0..state.docs.len()).map(|i| state.docs.name_at(i).to_owned()).collect();
                    for path in paths {
                        let mut sources = SourceMap::new();
                        sources.add(path.clone(), "x = 5\nx = 6\n".to_owned());
                        let mut findings = Vec::new();
                        for (name, number) in problems {
                            let file = if *name == path {
                                FileId(0)
                            } else {
                                sources.add((*name).to_owned(), "module\n".to_owned())
                            };
                            findings.push(Finding {
                                span: Span {
                                    file,
                                    start: Position { line: 2, col: 1 },
                                    end: Position { line: 2, col: 2 },
                                },
                                number: *number,
                                code: format!("E{number}"),
                                message: "reassigned".to_owned(),
                            });
                        }
                        let analysis = Analysis::Checked { sources, findings, program: None };
                        out.extend(record(&mut state, &path, analysis));
                    }
                }
                out.extend(clear_stale(&state, &step.clear));
            }
        }
    }
}

fn run_messages(messages: &[Json]) -> (bool, Vec<Json>) {
    let mut input = Vec::new();
    for message in messages {
        write_message(&mut input, &message.text());
    }
    run(input, &[])
}

fn code_of(response: &Json) -> Option<i64> {
    response.get("error").and_then(|e| e.get("code")).and_then(Json::as_i64)
}

fn did_open(uri: &str, text: &str) -> Json {
    notification(
        "textDocument/didOpen",
        Json::obj(vec![(
            "textDocument",
            Json::obj(vec![
                ("uri", Json::Str(uri.to_owned())),
                ("languageId", Json::Str("yabumi".to_owned())),
                ("version", Json::Int(1)),
                ("text", Json::Str(text.to_owned())),
            ]),
        )]),
    )
}

fn did_close(uri: &str) -> Json {
    notification(
        "textDocument/didClose",
        Json::obj(vec![(
            "textDocument",
            Json::obj(vec![("uri", Json::Str(uri.to_owned()))]),
        )]),
    )
}

fn formatting_params(uri: &str) -> Json {
    Json::obj(vec![
        (
            "textDocument",
            Json::obj(vec![("uri", Json::Str(uri.to_owned()))]),
        ),
        ("options", Json::obj(Vec::new())),
    ])
}

#[test]
fn initialize_advertises_hover_and_shutdown_exits_successfully() {
    let messages = [
        request(1, "initialize", initialize_params()),
        notification("initialized", Json::Null),
        request(2, "shutdown", Json::Null),
        notification("exit", Json::Null),
    ];
    let (exit, responses) = run_messages(&messages);
    assert!(exit);
    let hover = responses[0]
        .get("result")
        .and_then(|r| r.get("capabilities"))
        .and_then(|c| c.get("hoverProvider"));
    assert!(matches!(hover, Some(Json::Bool(true))));
}

#[test]
fn rejects_non_json_rpc_2_requests() {
    let invalid = Json::obj(vec![
        ("jsonrpc", Json::Str("1.0".to_owned())),
        ("id", Json::Int(1)),
        ("method", Json::Str("shutdown".to_owned())),
    ]);
    let messages = [
        invalid,
        request(2, "shutdown", Json::Null),
        notification("exit", Json::Null),
    ];
    let (exit, responses) = run_messages(&messages);
    assert!(exit);
    assert_eq!(code_of(&responses[0]), Some(-32600));
    assert!(matches!(responses[1].get("result"), Some(Json::Null)));
}

#[test]
fn rejects_unsupported_position_encoding() {
    let params = Json::obj(vec![(
        "capabilities",
        Json::obj(vec![(
            "general",
            Json::obj(vec![(
                "positionEncodings",
                Json::Arr(vec![Json::Str("utf-8".to_owned())]),
            )]),
        )]),
    )]);
    let messages = [
        request(1, "initialize", params),
        request(2, "shutdown", Json::Null),
        notification("exit", Json::Null),
    ];
    let (exit, responses) = run_messages(&messages);
    assert!(exit);
    assert_eq!(code_of(&responses[0]), Some(-32602));
}

#[test]
fn rejects_malformed_feature_request_parameters() {
    let messages = [
        request(1, "textDocument/hover", Json::Null),
        request(
            2,
            "textDocument/formatting",
            Json::obj(vec![(
                "textDocument",
                Json::obj(vec![("uri", Json::Str("file:///tmp/open.ybm".to_owned()))]),
            )]),
        ),
        request(3, "shutdown", Json::Null),
        notification("exit", Json::Null),
    ];
    let (exit, responses) = run_messages(&messages);
    assert!(exit);
    for response in responses.iter().take(2) {
        assert_eq!(code_of(response), Some(-32602));
    }
}

#[test]
fn malformed_request_gets_parse_error_and_server_continues() {
    let mut input = Vec::new();
    write_message(&mut input, "{");
    let shutdown = request(1, "shutdown", Json::Null).text();
    write_message(&mut input, &shutdown);
    write_message(
        &mut input,
        &Json::obj(vec![("method", Json::Str("exit".to_owned()))]).text(),
    );
    let (exit, responses) = run(input, &[]);
    assert!(exit);
    assert!(!responses.is_empty());
    assert_eq!(code_of(&responses[0]), Some(-32700));
}

#[test]
fn formats_open_document_with_one_full_text_edit() {
    let uri = "file:///tmp/open.ybm";
    let messages = [
        request(1, "initialize", initialize_params()),
        did_open(uri, "x   =  5"),
        request(2, "textDocument/formatting", formatting_params(uri)),
        request(3, "shutdown", Json::Null),
        notification("exit", Json::Null),
    ];
    let (exit, responses) = run_messages(&messages);
    assert!(exit);
    let edit = responses[2].get("result").and_then(Json::as_arr).and_then(|edits| edits.first());
    let edit = match edit {
        Some(edit) => edit,
        None => panic!("expected an edit"),
    };
    assert_eq!(edit.get("newText").and_then(Json::as_str), Some("x = 5\n"));
    let end = edit.get("range").and_then(|r| r.get("end")).map(Json::text);
    assert_eq!(end.as_deref(), Some("{\"line\":0,\"character\":8}"));
}

#[test]
fn formatting_what_is_formatted_gives_no_edit() {
    let uri = "file:///tmp/open.ybm";
    let messages = [
        did_open(uri, "x = 5\n"),
        request(2, "textDocument/formatting", formatting_params(uri)),
        request(3, "textDocument/formatting", formatting_params("file:///tmp/closed.ybm")),
    ];
    let (_, responses) = run_messages(&messages);
    assert_eq!(responses[1].get("result").map(Json::text).as_deref(), Some("[]"));
    assert!(matches!(responses[2].get("result"), Some(Json::Null)));
}

#[test]
fn publishes_problems_with_ranges_and_severities() {
    let mut input = Vec::new();
    write_message(&mut input, &did_open("file:///tmp/a.ybm", "x = 5\nx = 6\n").text());
    let (_, responses) = run(input, &[("/tmp/a.ybm", 3001), ("/tmp/b.ybm", 4002)]);
    assert_eq!(responses.len(), 2);
    let first = responses[0].get("params").map(Json::text);
    assert_eq!(
        first.as_deref(),
        Some(
            "{\"uri\":\"file:///tmp/a.ybm\",\"diagnostics\":[{\"range\":{\"start\":{\"line\":1,\
             \"character\":0},\"end\":{\"line\":1,\"character\":1}},\"severity\":1,\
             \"code\":\"E3001\",\"source\":\"ybm\",\"message\":\"reassigned\"}]}"
        )
    );
    let severity = responses[1]
        .get("params")
        .and_then(|p| p.get("diagnostics"))
        .and_then(Json::as_arr)
        .and_then(|d| d.first())
        .and_then(|d| d.get("severity"))
        .and_then(Json::as_i64);
    assert_eq!(severity, Some(2));
}

#[test]
fn clears_sibling_problems_when_their_only_open_root_closes() {
    let mut input = Vec::new();
    let uri = "file:///tmp/entry.ybm";
    write_message(&mut input, &did_open(uri, "print(1)\n").text());
    write_message(&mut input, &did_close(uri).text());
    let (exit, responses) = run(input, &[("/tmp/mod_bad.ybm", 3001)]);
    assert!(exit);
    let published: Vec<(String, usize)> = responses
        .iter()
        .map(|m| {
            let params = m.get("params");
            let uri = params.and_then(|p| p.get("uri")).and_then(Json::as_str);
            let count = params.and_then(|p| p.get("diagnostics")).and_then(Json::as_arr);
            (uri.unwrap_or("").to_owned(), count.map_or(99, Vec::len))
        })
        .collect();
    assert_eq!(
        published,
        vec![
            ("file:///tmp/entry.ybm".to_owned(), 0),
            ("file:///tmp/mod_bad.ybm".to_owned(), 1),
            ("file:///tmp/entry.ybm".to_owned(), 0),
            ("file:///tmp/mod_bad.ybm".to_owned(), 0),
        ]
    );
}

#[test]
fn unreadable_documents_are_told() {
    let mut state = ServerState::new();
    let messages = record(
        &mut state,
        "/tmp/a.ybm",
        Analysis::Io {
            path: "/tmp/a.ybm".to_owned(),
            code: "E5001".to_owned(),
            message: "gone".to_owned(),
        },
    );
    assert_eq!(messages.len(), 1);
    assert!(messages[0].text().contains("\"message\":\"/tmp/a.ybm: gone\""));
}

#[test]
fn unknown_methods_are_refused_and_notifications_are_not_answered() {
    let messages = [
        request(1, "textDocument/rename", Json::Null),
        notification("textDocument/rename", Json::Null),
        notification("shutdown", Json::Null),
    ];
    let (exit, responses) = run_messages(&messages);
    assert!(exit);
    assert_eq!(responses.len(), 1);
    assert_eq!(code_of(&responses[0]), Some(-32601));
}

#[test]
fn exit_without_shutdown_is_a_failure() {
    let (exit, _) = run_messages(&[notification("exit", Json::Null)]);
    assert!(!exit);
}

#[test]
fn utf32_is_preferred() {
    let params = Json::obj(vec![(
        "capabilities",
        Json::obj(vec![(
            "general",
            Json::obj(vec![(
                "positionEncodings",
                Json::Arr(vec![
                    Json::Str("utf-16".to_owned()),
                    Json::Str("utf-32".to_owned()),
                ]),
            )]),
        )]),
    )]);
    let (_, responses) = run_messages(&[request(1, "initialize", params)]);
    let encoding = responses[0]
        .get("result")
        .and_then(|r| r.get("capabilities"))
        .and_then(|c| c.get("positionEncoding"))
        .and_then(Json::as_str);
    assert_eq!(encoding, Some("utf-32"));
}

#[test]
fn resolutions_know_identifiers_and_types() {
    let span = Span {
        file: FileId(0),
        start: Position { line: 1, col: 1 },
        end: Position { line: 1, col: 2 },
    };
    let found = Resolutions {
        ident_def: vec![(NodeId(3), span)],
        expr_ty: vec![(NodeId(3), yabumi::types::Ty::Int)],
    };
    assert_eq!(found.definition(NodeId(3)), Some(span));
    assert_eq!(found.definition(NodeId(4)), None);
    assert_eq!(found.type_of(NodeId(3)).map(yabumi::types::Ty::text).as_deref(), Some("int"));
}

#[test]
fn names_are_kept_in_the_order_of_insertion() {
    let mut m: NameMap<i64> = NameMap::new();
    m.insert("b".to_owned(), 1);
    m.insert("a".to_owned(), 2);
    m.insert("b".to_owned(), 3);
    m.insert_new("a".to_owned(), 9);
    assert_eq!(m.len(), 2);
    assert_eq!((m.name_at(0), *m.item_at(0)), ("b", 3));
    assert_eq!((m.name_at(1), *m.item_at(1)), ("a", 2));
    m.remove("b");
    assert_eq!(m.len(), 1);
    assert!(!m.contains_key("b"));
    assert_eq!(m.get("a"), Some(&2));
}
