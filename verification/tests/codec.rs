//! Texts in JSON, YAML, TOML and CSV.

use yabumi::ast::{NodeId, Param, StructDecl, TypeAnn, TypeAnnKind};
use yabumi::diagnostics::{FileId, Position, Span};
use yabumi::eval::env::Program;
use yabumi::eval::keys::MapKey;
use yabumi::eval::value::{Dict, StructInstance, Value};
use yabumi::sources::SourceMap;
use yabumi::stdlib::codec::dynamic::{
    dyn_bool, dyn_dict, dyn_float, dyn_int, dyn_list, dyn_null, dyn_str, dyn_variant,
};
use yabumi::stdlib::codec::lift::to_dynamic;
use yabumi::stdlib::codec::lower::lower;
use yabumi::stdlib::codec::toml::is_valid_root_type;
use yabumi::stdlib::codec::{csv, decode, encode, json, toml, yaml};
use yabumi::stdlib::prelude::install;
use yabumi::stdlib::{none_value, some_value, NamespaceId};
use yabumi::types::Ty;

fn read(s: String) -> Option<String> {
    s.parse::<f64>().ok().map(|x| x.to_string())
}

fn must<T, E: std::fmt::Debug>(r: Result<T, E>) -> T {
    match r {
        Ok(v) => v,
        Err(e) => panic!("expected Ok, got Err: {e:?}"),
    }
}

fn text(s: &str) -> Value {
    Value::Str(s.to_owned())
}

fn variant<'a>(v: &'a Value, name: &str) -> &'a [Value] {
    match dyn_variant(v) {
        Some((n, fields)) if n == name => fields,
        other => panic!("expected variant {name}, got {other:?}"),
    }
}

fn dict_of(v: &Value) -> &Dict {
    match variant(v, "Dict").first() {
        Some(Value::Dict(map)) => map,
        other => panic!("expected dict, got {other:?}"),
    }
}

fn list_of(v: &Value) -> &Vec<Value> {
    match variant(v, "List").first() {
        Some(Value::List(items)) => items,
        other => panic!("expected list, got {other:?}"),
    }
}

fn dict_get<'a>(map: &'a Dict, key: &str) -> &'a Value {
    match map.get(&MapKey::Str(key.to_owned())) {
        Some(v) => v,
        None => panic!("missing key {key}"),
    }
}

fn close_to(v: Option<&Value>, x: f64) -> bool {
    match v {
        Some(Value::Float(s)) => s.parse::<f64>().is_ok_and(|f| (f - x).abs() < 1e-9),
        _ => false,
    }
}

// --- JSON ---

fn from_json(s: &str) -> Result<Value, String> {
    json::parse_to_dynamic(s, &read)
}

#[test]
fn parses_null_bool_and_numbers() {
    assert!(matches!(dyn_variant(&must(from_json("null"))), Some(("Null", _))));
    assert!(matches!(
        variant(&must(from_json("true")), "Bool").first(),
        Some(Value::Bool(true))
    ));
    assert!(matches!(
        variant(&must(from_json("false")), "Bool").first(),
        Some(Value::Bool(false))
    ));
    assert!(matches!(variant(&must(from_json("42")), "Int").first(), Some(Value::Int(42))));
    assert!(matches!(variant(&must(from_json("-7")), "Int").first(), Some(Value::Int(-7))));
}

#[test]
fn distinguishes_int_from_float() {
    assert!(close_to(variant(&must(from_json("2.75")), "Float").first(), 2.75));
    assert!(close_to(variant(&must(from_json("1e3")), "Float").first(), 1000.0));
    assert!(matches!(variant(&must(from_json("30")), "Int").first(), Some(Value::Int(30))));
}

#[test]
fn parses_nested_object_and_array() {
    let v = must(from_json(r#"{"a": [1, 2, {"b": "c"}], "d": null}"#));
    let map = dict_of(&v);
    assert_eq!(list_of(dict_get(map, "a")).len(), 3);
    assert!(matches!(dyn_variant(dict_get(map, "d")), Some(("Null", _))));
}

#[test]
fn parses_escapes_including_unicode() {
    for input in ["\"a\\n\\t\\\"\\\\\u{e9}\"", "\"a\\n\\t\\\"\\\\\\u00e9\""] {
        let v = must(from_json(input));
        let Some(Value::Str(s)) = variant(&v, "Str").first() else {
            panic!("expected str");
        };
        assert_eq!(s, "a\n\t\"\\\u{e9}");
    }
}

#[test]
fn parses_surrogate_pair_escape() {
    for input in ["\"\\ud83d\\ude00\"", "\"\u{1f600}\""] {
        let v = must(from_json(input));
        let Some(Value::Str(s)) = variant(&v, "Str").first() else {
            panic!("expected str");
        };
        assert_eq!(s, "\u{1f600}");
    }
}

#[test]
fn parses_empty_array_and_object() {
    assert!(matches!(dyn_variant(&must(from_json("[]"))), Some(("List", _))));
    assert!(matches!(dyn_variant(&must(from_json("{}"))), Some(("Dict", _))));
}

#[test]
fn rejects_invalid_input() {
    assert!(from_json("").is_err());
    assert!(from_json("{").is_err());
    assert!(from_json("[1, 2").is_err());
    assert!(from_json(r#"{"a": }"#).is_err());
    assert!(from_json("truex").is_err());
    assert!(from_json(r#""unterminated"#).is_err());
    assert!(from_json("1 2").is_err());
}

#[test]
fn round_trips_through_encode_decode() {
    let original = r#"{"age":30,"name":"alice","scores":[1,2.5,true,null]}"#;
    let v1 = must(from_json(original));
    let text = json::dynamic_to_string(&v1);
    let v2 = must(from_json(&text));
    assert_eq!(v1, v2);
    assert_eq!(text, original);
}

#[test]
fn encodes_float_with_decimal_point() {
    assert_eq!(json::dynamic_to_string(&dyn_float("1".to_owned())), "1.0");
    assert_eq!(json::dynamic_to_string(&dyn_float("3.5".to_owned())), "3.5");
}

#[test]
fn every_kind_of_json_value_reads_back() {
    let mut d = Dict::new();
    d.insert(MapKey::Str("k\u{1}\"\\".to_owned()), dyn_list(vec![dyn_null(), dyn_bool(true)]));
    let v = dyn_list(vec![
        dyn_dict(d),
        dyn_int(i64::MIN),
        dyn_str("\u{7f}\n\u{1f600}".to_owned()),
        dyn_float("-0.5".to_owned()),
    ]);
    assert_eq!(must(from_json(&json::dynamic_to_string(&v))), v);
}

#[test]
fn later_members_replace_earlier_ones() {
    let v = must(from_json(r#"{"a":1,"b":2,"a":3}"#));
    assert_eq!(json::dynamic_to_string(&v), r#"{"a":3,"b":2}"#);
}

// --- TOML ---

fn from_toml(s: &str) -> Result<Value, String> {
    toml::parse_to_dynamic(s, &read)
}

#[test]
fn parses_flat_key_values() {
    let v = must(from_toml("name = \"carol\"\nage = 40\nactive = true\nscore = 3.5\n"));
    let map = dict_of(&v);
    assert!(matches!(
        variant(dict_get(map, "name"), "Str").first(),
        Some(Value::Str(s)) if s == "carol"
    ));
    assert!(matches!(variant(dict_get(map, "age"), "Int").first(), Some(Value::Int(40))));
    assert!(matches!(
        variant(dict_get(map, "active"), "Bool").first(),
        Some(Value::Bool(true))
    ));
    assert!(close_to(variant(dict_get(map, "score"), "Float").first(), 3.5));
}

#[test]
fn parses_table_headers() {
    let v = must(from_toml("[user]\nname = \"alice\"\nage = 30\n\n[other]\nk = 1\n"));
    let user_map = dict_of(dict_get(dict_of(&v), "user"));
    assert!(matches!(
        variant(dict_get(user_map, "name"), "Str").first(),
        Some(Value::Str(s)) if s == "alice"
    ));
}

#[test]
fn parses_dotted_table_headers() {
    let v = must(from_toml("[a.b]\nc = 1\n"));
    let b_map = dict_of(dict_get(dict_of(dict_get(dict_of(&v), "a")), "b"));
    assert!(matches!(variant(dict_get(b_map, "c"), "Int").first(), Some(Value::Int(1))));
}

#[test]
fn parses_array_of_tables() {
    let v = must(from_toml("[[fruit]]\nname = \"apple\"\n\n[[fruit]]\nname = \"banana\"\n"));
    let items = list_of(dict_get(dict_of(&v), "fruit"));
    assert_eq!(items.len(), 2);
    assert!(matches!(
        variant(dict_get(dict_of(&items[0]), "name"), "Str").first(),
        Some(Value::Str(s)) if s == "apple"
    ));
}

#[test]
fn parses_inline_table_and_array() {
    let v = must(from_toml("point = { x = 1, y = 2 }\nnums = [1, 2, 3]\n"));
    let map = dict_of(&v);
    let point_map = dict_of(dict_get(map, "point"));
    assert!(matches!(variant(dict_get(point_map, "x"), "Int").first(), Some(Value::Int(1))));
    assert_eq!(list_of(dict_get(map, "nums")).len(), 3);
}

#[test]
fn parses_multiline_array() {
    let v = must(from_toml("nums = [\n  1,\n  2,\n  3,\n]\n"));
    assert_eq!(list_of(dict_get(dict_of(&v), "nums")).len(), 3);
}

#[test]
fn rejects_datetime_literals() {
    assert!(from_toml("d = 1979-05-27T07:32:00Z\n").is_err());
}

#[test]
fn rejects_malformed_input() {
    assert!(from_toml("key value\n").is_err());
    assert!(from_toml("nums = [1, 2\n").is_err());
    assert!(from_toml("a = \"\"\"multi\nline\"\"\"\n").is_err());
}

#[test]
fn root_type_constraint_accepts_dict_and_struct_rejects_others() {
    assert!(is_valid_root_type(&Ty::Dict(Box::new(Ty::Str), Box::new(Ty::Int))));
    assert!(is_valid_root_type(&Ty::Named { name: "User".to_owned(), args: vec![] }));
    assert!(!is_valid_root_type(&Ty::List(Box::new(Ty::Int))));
    assert!(!is_valid_root_type(&Ty::SetOf(Box::new(Ty::Int))));
    assert!(!is_valid_root_type(&Ty::Int));
}

#[test]
fn lists_are_no_root_whatever_they_hold() {
    let table = Ty::Dict(Box::new(Ty::Str), Box::new(Ty::Int));
    assert!(!is_valid_root_type(&Ty::List(Box::new(table))));
    let user = Ty::Named { name: "User".to_owned(), args: vec![] };
    assert!(!is_valid_root_type(&Ty::List(Box::new(user))));
    assert!(!is_valid_root_type(&Ty::Dict(Box::new(Ty::Int), Box::new(Ty::Int))));
}

#[test]
fn escaped_quotes_end_no_string() {
    let v = must(from_toml("a = \"x\\\"[y\"\nb = [\"p\\\", q\", 2]\nc = \"d\\\\\" # e\n"));
    let map = dict_of(&v);
    assert_eq!(variant(dict_get(map, "a"), "Str"), [text("x\"[y")]);
    assert_eq!(
        list_of(dict_get(map, "b")),
        &vec![dyn_str("p\", q".to_owned()), dyn_int(2)]
    );
    assert_eq!(variant(dict_get(map, "c"), "Str"), [text("d\\")]);
    let w = must(from_yaml("- \"a\\\": b\"\n- k: \"v\\\" # w\"\n"));
    assert_eq!(variant(&list_of(&w)[0], "Str"), [text("a\": b")]);
    assert_eq!(variant(dict_get(dict_of(&list_of(&w)[1]), "k"), "Str"), [text("v\" # w")]);
}

#[test]
fn every_entry_of_a_table_is_one_line() {
    let mut inner = Dict::new();
    inner.insert(MapKey::Str("gone".to_owned()), dyn_null());
    inner.insert(MapKey::Str("kept".to_owned()), dyn_list(vec![dyn_null(), dyn_int(1)]));
    let mut d = Dict::new();
    d.insert(MapKey::Str("a".to_owned()), dyn_str("x\ny".to_owned()));
    d.insert(MapKey::Str("none".to_owned()), dyn_null());
    d.insert(MapKey::Str("two\nlines".to_owned()), dyn_dict(inner));
    assert_eq!(
        toml::dynamic_to_string(&dyn_dict(d)),
        "a = \"x\\ny\"\n\"two\\nlines\" = { kept = [\"\", 1] }\n"
    );
}

#[test]
fn round_trips_flat_table() {
    let original = must(from_toml("name = \"dana\"\nage = 33\n"));
    let text = toml::dynamic_to_string(&original);
    let decoded = must(from_toml(&text));
    assert_eq!(original, decoded);
}

#[test]
fn round_trips_nested_via_inline_encoding() {
    let original = must(from_toml("[user]\nname = \"alice\"\nage = 30\n"));
    let text = toml::dynamic_to_string(&original);
    let decoded = must(from_toml(&text));
    assert_eq!(original, decoded);
}

#[test]
fn every_kind_of_toml_value_reads_back() {
    let mut inner = Dict::new();
    inner.insert(MapKey::Str("two words".to_owned()), dyn_list(vec![dyn_bool(false), dyn_int(-7)]));
    let mut d = Dict::new();
    d.insert(MapKey::Str("smallest".to_owned()), dyn_int(i64::MIN));
    d.insert(MapKey::Str("year".to_owned()), dyn_int(-1979));
    d.insert(MapKey::Str("ratio".to_owned()), dyn_float("-0.5".to_owned()));
    d.insert(MapKey::Str("note".to_owned()), dyn_str("a\n# [b] = 'c', \\".to_owned()));
    d.insert(MapKey::Str("inner".to_owned()), dyn_dict(inner));
    let v = dyn_dict(d);
    assert_eq!(must(from_toml(&toml::dynamic_to_string(&v))), v);
}

#[test]
fn toml_has_no_null() {
    let mut d = Dict::new();
    d.insert(MapKey::Str("k".to_owned()), dyn_null());
    let v = dyn_dict(d);
    let back = from_toml(&toml::dynamic_to_string(&v));
    assert_ne!(back, Ok(v));
}

#[test]
fn only_four_digits_and_a_dash_start_a_date() {
    assert!(from_toml("d = 1979-05\n").is_err());
    assert_eq!(variant(dict_get(dict_of(&must(from_toml("d = 19790\n"))), "d"), "Int"), [
        Value::Int(19790),
    ]);
    assert_eq!(
        from_toml("d = 1979-05\n"),
        Err("TOML: datetime literals are not supported: 1979-05".to_owned()),
    );
}

// --- YAML ---

fn from_yaml(s: &str) -> Result<Value, String> {
    yaml::parse_to_dynamic(s, &read)
}

#[test]
fn parses_flat_block_mapping_with_scalar_inference() {
    let v = must(from_yaml("name: bob\nage: 25\nactive: true\nscore: 3.5\nnote: ~\n"));
    let map = dict_of(&v);
    assert!(matches!(
        variant(dict_get(map, "name"), "Str").first(),
        Some(Value::Str(s)) if s == "bob"
    ));
    assert!(matches!(variant(dict_get(map, "age"), "Int").first(), Some(Value::Int(25))));
    assert!(matches!(
        variant(dict_get(map, "active"), "Bool").first(),
        Some(Value::Bool(true))
    ));
    assert!(close_to(variant(dict_get(map, "score"), "Float").first(), 3.5));
    assert!(matches!(dyn_variant(dict_get(map, "note")), Some(("Null", _))));
}

#[test]
fn parses_nested_mapping_by_indentation() {
    let v = must(from_yaml("user:\n  name: alice\n  age: 30\ncount: 1\n"));
    let user_map = dict_of(dict_get(dict_of(&v), "user"));
    assert!(matches!(
        variant(dict_get(user_map, "name"), "Str").first(),
        Some(Value::Str(s)) if s == "alice"
    ));
}

#[test]
fn parses_block_sequence_of_scalars() {
    let v = must(from_yaml("- 1\n- 2\n- 3\n"));
    let items = list_of(&v);
    assert_eq!(items.len(), 3);
    assert!(matches!(variant(&items[0], "Int").first(), Some(Value::Int(1))));
}

#[test]
fn parses_sequence_of_inline_mappings() {
    let v = must(from_yaml("- name: alice\n  age: 30\n- name: bob\n  age: 25\n"));
    let items = list_of(&v);
    assert_eq!(items.len(), 2);
    assert!(matches!(
        variant(dict_get(dict_of(&items[0]), "name"), "Str").first(),
        Some(Value::Str(s)) if s == "alice"
    ));
}

#[test]
fn parses_quoted_strings() {
    let v = must(from_yaml("key: \"hello world\"\n"));
    assert!(matches!(
        variant(dict_get(dict_of(&v), "key"), "Str").first(),
        Some(Value::Str(s)) if s == "hello world"
    ));
}

#[test]
fn rejects_anchors_aliases_and_multi_document() {
    assert!(from_yaml("key: &anchor value\n").is_err());
    assert!(from_yaml("key: *anchor\n").is_err());
    assert!(from_yaml("---\nkey: value\n").is_err());
    assert!(from_yaml("key: value\n---\nkey2: value2\n").is_err());
    assert!(from_yaml("...\n").is_err());
}

#[test]
fn rejects_flow_style_and_tabs() {
    assert!(from_yaml("key: {a: 1}\n").is_err());
    assert!(from_yaml("key: [1, 2]\n").is_err());
    assert!(from_yaml("\tkey: value\n").is_err());
}

#[test]
fn rejects_top_level_json_object_and_array() {
    assert!(from_yaml(r#"{"a": 1}"#).is_err());
    assert!(from_yaml(r#"{"a": 1, "b": 2}"#).is_err());
    assert!(from_yaml("[1, 2, 3]").is_err());
}

#[test]
fn rejects_flow_style_as_sequence_item() {
    assert!(from_yaml("- {a: 1}\n").is_err());
    assert!(from_yaml("- [1, 2]\n").is_err());
}

#[test]
fn round_trips_struct_like_mapping() {
    let original = must(from_yaml("name: dana\nage: 33\n"));
    let text = yaml::dynamic_to_string(&original);
    let decoded = must(from_yaml(&text));
    assert_eq!(original, decoded);
}

#[test]
fn round_trips_nested_structure() {
    let original = must(from_yaml(
        "user:\n  name: alice\n  tags:\n    - a\n    - b\ncount: 2\n",
    ));
    let text = yaml::dynamic_to_string(&original);
    let decoded = must(from_yaml(&text));
    assert_eq!(original, decoded);
}

#[test]
fn encode_quotes_ambiguous_strings() {
    let v = dyn_str("42".to_owned());
    let text = yaml::dynamic_to_string(&v);
    assert_eq!(text.trim(), "\"42\"");
    let decoded = must(from_yaml(&text));
    assert!(matches!(dyn_variant(&decoded), Some(("Str", _))));
}

#[test]
fn every_kind_of_yaml_value_reads_back() {
    let mut inner = Dict::new();
    inner.insert(MapKey::Str("a: b".to_owned()), dyn_list(vec![dyn_bool(false), dyn_int(-7)]));
    inner.insert(MapKey::Str("plain".to_owned()), dyn_str("x: y # z\n\"q\"".to_owned()));
    let mut d = Dict::new();
    d.insert(MapKey::Str("smallest".to_owned()), dyn_int(i64::MIN));
    d.insert(MapKey::Str("ratio".to_owned()), dyn_float("-0.5".to_owned()));
    d.insert(MapKey::Str("word".to_owned()), dyn_str("true".to_owned()));
    d.insert(MapKey::Str("nothing".to_owned()), dyn_null());
    d.insert(MapKey::Str("inner".to_owned()), dyn_dict(inner));
    let list = dyn_list(vec![
        dyn_dict(d),
        dyn_list(vec![dyn_str("".to_owned()), dyn_str("- dash".to_owned())]),
        dyn_str("...".to_owned()),
    ]);
    assert_eq!(must(from_yaml(&yaml::dynamic_to_string(&list))), list);
    let alone = dyn_str("two\nlines".to_owned());
    assert_eq!(must(from_yaml(&yaml::dynamic_to_string(&alone))), alone);
}

#[test]
fn what_yaml_cannot_hold_does_not_read_back() {
    let empty = dyn_list(vec![]);
    assert_eq!(yaml::dynamic_to_string(&empty), "[]\n");
    assert_eq!(from_yaml("[]\n"), Err("YAML: flow style is not supported".to_owned()));
    let mut d = Dict::new();
    d.insert(MapKey::Str("it's".to_owned()), dyn_int(1));
    let open = dyn_dict(d);
    assert_ne!(from_yaml(&yaml::dynamic_to_string(&open)), Ok(open));
}

#[test]
fn every_text_reads_back_from_yaml() {
    for x in ["...", "---", "a: b", "\"", "a\": b", "'", "it's: so", "#", "\\", ""] {
        let v = dyn_str(x.to_owned());
        assert_eq!(must(from_yaml(&yaml::dynamic_to_string(&v))), v, "{x:?}");
        let list = dyn_list(vec![v]);
        assert_eq!(must(from_yaml(&yaml::dynamic_to_string(&list))), list, "{x:?}");
    }
}

#[test]
fn every_text_reads_back_from_toml() {
    for x in ["\"", "x\"[y", "a, b\"", "#", "\\\"", "'", "= {", ""] {
        let mut d = Dict::new();
        d.insert(MapKey::Str("k".to_owned()), dyn_list(vec![dyn_str(x.to_owned()), dyn_int(1)]));
        let v = dyn_dict(d);
        assert_eq!(must(from_toml(&toml::dynamic_to_string(&v))), v, "{x:?}");
    }
}

#[test]
fn rows_of_fields_read_back() {
    let rows = vec![vec!["a,b".to_owned(), String::new()], vec!["\"q\"\r\n".to_owned()]];
    let mut s = String::new();
    for row in &rows {
        let fields: Vec<String> = row.iter().map(|f| csv::escape_csv_field(f)).collect();
        s.push_str(&fields.join(","));
        s.push('\n');
    }
    assert_eq!(csv::parse_csv_rows(&s), Ok(rows));
}

// --- CSV ---

fn dummy_span() -> Span {
    Span {
        file: FileId(0),
        start: Position { line: 0, col: 0 },
        end: Position { line: 0, col: 0 },
    }
}

fn field(name: &str, ty: &str) -> Param {
    Param {
        name: name.to_owned(),
        ty: TypeAnn {
            kind: TypeAnnKind::Named { name: ty.to_owned(), args: vec![] },
            span: dummy_span(),
        },
        span: dummy_span(),
    }
}

fn user_struct() -> StructDecl {
    StructDecl {
        id: NodeId(0),
        name: "User".to_owned(),
        generics: vec![],
        fields: vec![field("name", "str"), field("age", "int")],
        field_leading_comments: vec![vec![], vec![]],
        field_trailing_comments: vec![None, None],
        methods: vec![],
        leading_comments: vec![],
        doc_comment: None,
        span: dummy_span(),
    }
}

fn user(name: &str, age: i64) -> Value {
    Value::Struct(StructInstance {
        ty_name: "User".to_owned(),
        fields: vec![text(name), Value::Int(age)],
    })
}

fn result_ok_list(v: &Value) -> &Vec<Value> {
    match v {
        Value::Enum(e) if e.variant_name == "Ok" => match e.fields.first() {
            Some(Value::List(rows)) => rows,
            other => panic!("expected list, got {other:?}"),
        },
        other => panic!("expected Ok(..), got {other:?}"),
    }
}

fn result_is_err(v: &Value) -> bool {
    matches!(v, Value::Enum(e) if e.variant_name == "Err")
}

fn struct_fields(v: &Value) -> &Vec<Value> {
    match v {
        Value::Struct(s) => &s.fields,
        other => panic!("expected struct, got {other:?}"),
    }
}

#[test]
fn decodes_typed_rows_matching_header_by_name() {
    let result = csv::decode("name,age\nalice,30\nbob,25\n", &user_struct(), &read);
    let rows = result_ok_list(&result);
    assert_eq!(rows.len(), 2);
    let first = struct_fields(&rows[0]);
    assert_eq!(first[0], text("alice"));
    assert_eq!(first[1], Value::Int(30));
}

#[test]
fn decode_ignores_extra_header_columns() {
    let result = csv::decode("name,age,extra\nalice,30,ignored\n", &user_struct(), &read);
    assert!(!result_is_err(&result));
}

#[test]
fn decode_errors_on_missing_header_field() {
    let result = csv::decode("name\nalice\n", &user_struct(), &read);
    assert!(result_is_err(&result));
}

#[test]
fn decode_errors_on_field_count_mismatch() {
    let result = csv::decode("name,age\nalice,30,extra\n", &user_struct(), &read);
    assert!(result_is_err(&result));
}

#[test]
fn decode_handles_quoted_fields_with_commas_and_newlines() {
    let result = csv::decode(
        "name,age\n\"doe, jane\",30\n\"multi\nline\",25\n",
        &user_struct(),
        &read,
    );
    let rows = result_ok_list(&result);
    assert_eq!(rows.len(), 2);
    assert_eq!(struct_fields(&rows[0])[0], text("doe, jane"));
    assert_eq!(struct_fields(&rows[1])[0], text("multi\nline"));
}

#[test]
fn encodes_header_and_rows() {
    let rows = vec![user("alice", 30), user("bob", 25)];
    let text = csv::encode(&rows, &user_struct());
    assert!(text.contains("name,age"));
    assert!(text.contains("alice,30"));
    assert!(text.contains("bob,25"));
}

#[test]
fn encode_quotes_fields_needing_escaping() {
    let rows = vec![user("doe, jane", 1)];
    let text = csv::encode(&rows, &user_struct());
    assert!(text.contains("\"doe, jane\","));
}

#[test]
fn decode_rows_dynamic_uses_str_cells() {
    let result = csv::decode_rows("name,age\nalice,30\nbob,25\n");
    let rows = result_ok_list(&result);
    assert_eq!(rows.len(), 2);
    let Value::Dict(map) = &rows[0] else {
        panic!("expected dict");
    };
    assert!(matches!(dyn_variant(dict_get(map, "name")), Some(("Str", _))));
    match dyn_variant(dict_get(map, "age")) {
        Some(("Str", fields)) => assert_eq!(fields.first(), Some(&text("30"))),
        other => panic!("expected Str variant, got {other:?}"),
    }
}

#[test]
fn decode_rows_errors_on_missing_header() {
    assert!(result_is_err(&csv::decode_rows("")));
}

#[test]
fn decode_rows_errors_on_field_count_mismatch() {
    assert!(result_is_err(&csv::decode_rows("a,b\n1,2,3\n")));
}

#[test]
fn round_trips_decode_then_encode_then_decode() {
    let decl = user_struct();
    let original = "name,age\nalice,30\nbob,25\n";
    let decoded1 = csv::decode(original, &decl, &read);
    let rows = result_ok_list(&decoded1);
    let text = csv::encode(rows, &decl);
    let decoded2 = csv::decode(&text, &decl, &read);
    let rows2 = result_ok_list(&decoded2);
    assert_eq!(rows.as_slice(), rows2.as_slice());
}

#[test]
fn rows_with_quotes_and_line_ends_read_back() {
    let decl = user_struct();
    let rows = vec![user("a \"quoted\"\r\nname, with all", -1), user("", 0)];
    let text = csv::encode(&rows, &decl);
    assert_eq!(result_ok_list(&csv::decode(&text, &decl, &read)), &rows);
}

#[test]
fn cells_that_do_not_fit_are_refused() {
    assert!(result_is_err(&csv::decode("name,age\nalice,x\n", &user_struct(), &read)));
    assert!(result_is_err(&csv::decode("name,age\n\"alice,30\n", &user_struct(), &read)));
}

// --- all formats ---

fn test_program() -> Program {
    Program::new(SourceMap::new())
}

fn dyn_value_ty() -> Ty {
    Ty::Named { name: "Value".to_owned(), args: vec![] }
}

fn sample_dict() -> Value {
    let mut map = Dict::new();
    map.insert(MapKey::Str("name".to_owned()), text("alice"));
    map.insert(MapKey::Str("age".to_owned()), Value::Int(30));
    Value::Dict(map)
}

fn unwrap_str(v: &Value) -> &str {
    match v {
        Value::Str(s) => s,
        other => panic!("expected Value::Str, got {other:?}"),
    }
}

fn expect_ok(v: &Value) -> &Value {
    match v {
        Value::Enum(e) if e.variant_name == "Ok" => &e.fields[0],
        other => panic!("expected Ok(..), got {other:?}"),
    }
}

fn expect_err(v: &Value) {
    assert!(result_is_err(v), "expected Err(..), got {v:?}");
}

#[test]
fn encode_uses_the_format_actually_requested() {
    let program = test_program();
    let value = sample_dict();

    let json_out = encode(NamespaceId::Json, &value, &program);
    let yaml_out = encode(NamespaceId::Yaml, &value, &program);
    let toml_out = encode(NamespaceId::Toml, &value, &program);

    let json_text = unwrap_str(&json_out);
    let yaml_text = unwrap_str(&yaml_out);
    let toml_text = unwrap_str(&toml_out);

    assert_eq!(json_text, r#"{"name":"alice","age":30}"#);
    assert_eq!(yaml_text, "name: alice\nage: 30\n");
    assert_eq!(toml_text, "name = \"alice\"\nage = 30\n");

    assert_ne!(yaml_text, json_text);
    assert_ne!(toml_text, json_text);
    assert_ne!(yaml_text, toml_text);
}

#[test]
fn decode_round_trips_each_format_through_its_own_codec() {
    let program = test_program();
    let target = dyn_value_ty();

    for ns in [NamespaceId::Json, NamespaceId::Yaml, NamespaceId::Toml] {
        let encoded = encode(ns, &sample_dict(), &program);
        let decoded = decode(ns, &target, unwrap_str(&encoded), &program, &read);
        let map = dict_of(expect_ok(&decoded));
        assert!(
            matches!(
                dyn_variant(dict_get(map, "name")),
                Some(("Str", f)) if matches!(f.first(), Some(Value::Str(s)) if s == "alice")
            ),
            "{ns:?}: name mismatch"
        );
        assert!(
            matches!(
                dyn_variant(dict_get(map, "age")),
                Some(("Int", f)) if matches!(f.first(), Some(Value::Int(30)))
            ),
            "{ns:?}: age mismatch"
        );
    }
}

#[test]
fn yaml_decode_rejects_json_flow_style_object() {
    let program = test_program();
    let target = dyn_value_ty();
    expect_err(&decode(NamespaceId::Yaml, &target, r#"{"a": 1}"#, &program, &read));
    expect_err(&decode(NamespaceId::Yaml, &target, "[1, 2, 3]", &program, &read));
}

#[test]
fn json_decode_accepts_the_same_flow_style_object() {
    let program = test_program();
    let target = dyn_value_ty();
    let decoded = decode(NamespaceId::Json, &target, r#"{"a": 1}"#, &program, &read);
    assert!(matches!(dyn_variant(expect_ok(&decoded)), Some(("Dict", _))));
}

fn lowered(target: &Ty, source: &str) -> Result<Value, Value> {
    let mut program = test_program();
    program.structs.insert("User".to_owned(), user_struct());
    install(&mut program);
    lower(target, &must(from_json(source)), &program, &read)
}

#[test]
fn dynamic_values_are_lowered_to_types() {
    let user_ty = Ty::Named { name: "User".to_owned(), args: vec![] };
    assert_eq!(lowered(&user_ty, r#"{"age":30,"name":"al"}"#), Ok(user("al", 30)));
    assert!(lowered(&user_ty, r#"{"name":"al"}"#).is_err());
    assert_eq!(
        lowered(&Ty::List(Box::new(Ty::Float)), "[1,2.5]"),
        Ok(Value::List(vec![Value::Float("1".to_owned()), Value::Float("2.5".to_owned())]))
    );
    assert!(lowered(&Ty::Int, "2.5").is_err());
    assert_eq!(lowered(&Ty::Bool, "true"), Ok(Value::Bool(true)));
}

#[test]
fn lists_of_structs_are_lifted_and_lowered() {
    let mut program = test_program();
    program.structs.insert("User".to_owned(), user_struct());
    let users = Value::List(vec![user("a", 1), user("b", 2)]);
    let dynamic = to_dynamic(&users, &program);
    assert_eq!(
        json::dynamic_to_string(&dynamic),
        r#"[{"name":"a","age":1},{"name":"b","age":2}]"#
    );
    let ty = Ty::List(Box::new(Ty::Named { name: "User".to_owned(), args: vec![] }));
    assert_eq!(lower(&ty, &dynamic, &program, &read), Ok(users));
}

#[test]
fn values_of_a_type_survive_every_format() {
    let mut program = test_program();
    program.structs.insert("User".to_owned(), user_struct());
    let user_ty = Ty::Named { name: "User".to_owned(), args: vec![] };
    let maybe_ty = Ty::Named { name: "Option".to_owned(), args: vec![Ty::Int] };
    let pair_ty = Ty::Tuple(vec![Ty::List(Box::new(user_ty)), maybe_ty]);
    let ty = Ty::Dict(Box::new(Ty::Str), Box::new(pair_ty));
    let mut d = Dict::new();
    let users = Value::List(vec![user("a b", 1), user("true", -2)]);
    d.insert(MapKey::Str("first".to_owned()), Value::Tuple(vec![users, some_value(Value::Int(3))]));
    let value = Value::Dict(d);
    for ns in [NamespaceId::Json, NamespaceId::Yaml, NamespaceId::Toml] {
        let encoded = encode(ns, &value, &program);
        let decoded = decode(ns, &ty, unwrap_str(&encoded), &program, &read);
        assert_eq!(expect_ok(&decoded), &value, "{:?}", unwrap_str(&encoded));
    }
}

#[test]
fn sets_survive_and_nested_options_do_not() {
    let program = test_program();
    let set_ty = Ty::SetOf(Box::new(Ty::Tuple(vec![Ty::Int, Ty::Str])));
    let set = must(lowered(&set_ty, r#"[[1,"a"],[2,"b"]]"#));
    assert_eq!(lower(&set_ty, &to_dynamic(&set, &program), &program, &read), Ok(set));
    let inner = Ty::Named { name: "Option".to_owned(), args: vec![Ty::Int] };
    let outer = Ty::Named { name: "Option".to_owned(), args: vec![inner] };
    let nested = some_value(none_value());
    let back = lower(&outer, &to_dynamic(&nested, &program), &program, &read);
    assert_eq!(back, Ok(none_value()));
}

// --- escapes, keys and floats that need care ---

#[test]
fn unicode_escapes_take_four_hexadecimal_digits() {
    assert_eq!(from_json("\"\\u+041\""), Err("JSON: invalid \\u escape '+041'".to_owned()));
    assert_eq!(from_json("\"\\u004g\""), Err("JSON: invalid \\u escape '004g'".to_owned()));
    assert_eq!(from_json("\"\\u0041\""), Ok(dyn_str("A".to_owned())));
    for escape in ["\\u41", "\\u", "\\u+041", "\\u004", "\\u004g"] {
        assert_eq!(
            from_toml(&format!("a = \"{escape}\"\n")),
            Err("TOML: invalid \\u escape".to_owned())
        );
        assert_eq!(
            from_yaml(&format!("\"{escape}\"\n")),
            Err("YAML: invalid \\u escape".to_owned())
        );
    }
    assert_eq!(from_yaml("\"\\u00411\"\n"), Ok(dyn_str("A1".to_owned())));
}

#[test]
fn keys_are_no_tags_anchors_or_flow_collections() {
    for text in ["!!str a: 1\n", "a: 1\n!b c: 2\n", "- !x a: 1\n"] {
        assert_eq!(from_yaml(text), Err("YAML: tags are not supported".to_owned()));
    }
    for text in ["&x a: 1\n", "*x : 1\n", "a:\n  &y b: 1\n"] {
        assert_eq!(from_yaml(text), Err("YAML: anchors/aliases are not supported".to_owned()));
    }
    for text in ["{a: 1}\n", "a: 1\n{b: 2}\n", "a: 1\n[b]: 2\n"] {
        assert_eq!(from_yaml(text), Err("YAML: flow style is not supported".to_owned()));
    }
    let quoted = must(from_yaml("\"!a\": 1\n'&b': 2\n"));
    let map = dict_of(&quoted);
    assert_eq!(dict_get(map, "!a"), &dyn_int(1));
    assert_eq!(dict_get(map, "&b"), &dyn_int(2));
}

#[test]
fn floats_are_written_in_their_shortest_form() {
    for (x, written) in [
        (1e20, "1e20"),
        (-1.5e300, "-1.5e300"),
        (1e16, "1e16"),
        (1e15, "1000000000000000.0"),
        (1.5e-7, "1.5e-7"),
        (0.0001, "0.0001"),
        (0.0, "0.0"),
        (-0.0, "-0.0"),
        (3.0, "3.0"),
        (2.75, "2.75"),
        (f64::NAN, "0.0"),
        (f64::INFINITY, "0.0"),
    ] {
        let value = dyn_float(x.to_string());
        assert_eq!(json::dynamic_to_string(&value), written);
        assert_eq!(yaml::dynamic_to_string(&value), format!("{written}\n"));
        let mut table = Dict::new();
        table.insert(MapKey::Str("x".to_owned()), value.copy());
        let table = dyn_dict(table);
        assert_eq!(toml::dynamic_to_string(&table), format!("x = {written}\n"));
        if x.is_finite() {
            assert_eq!(from_json(written), Ok(value.copy()));
            assert_eq!(from_yaml(written), Ok(value.copy()));
            assert_eq!(from_toml(&format!("x = {written}\n")), Ok(table));
        }
    }
}
