//! The standard library on values: math, random numbers, results and options, strings,
//! collections and the values that the outside world comes to.

use indexmap::IndexSet;
use std::collections::BTreeSet;
use std::path::Path;

use yabumi::diagnostics::{ErrorCode, FileId, Position, Span};
use yabumi::eval::env::Program;
use yabumi::eval::keys::MapKey;
use yabumi::eval::value::{Dict, EnumInstance, StructInstance, Value};
use yabumi::eval::Abort;
use yabumi::sources::SourceMap;
use yabumi::stdlib::builtins::{assert_bare, assert_with_message, display_primitive};
use yabumi::stdlib::collections::{
    dict_all, dict_any, dict_clear, dict_contains_key, dict_each, dict_entries, dict_filter,
    dict_find, dict_fold, dict_get, dict_insert, dict_keys, dict_len, dict_map, dict_remove,
    dict_values, list_all, list_any, list_chain, list_clear, list_contains, list_each,
    list_enumerate, list_extend, list_filter, list_find, list_first, list_flat_map, list_fold,
    list_get, list_insert, list_is_empty, list_join, list_last, list_len, list_map, list_pop,
    list_push, list_remove, list_rev, list_skip, list_slice, list_sort_by, list_sum, list_take,
    list_to_set, list_zip, set_all, set_any, set_clear, set_contains, set_difference, set_each,
    set_filter, set_find, set_fold, set_insert, set_intersection, set_len, set_map, set_remove,
    set_sum, set_to_list, set_union, tuple_index,
};
use yabumi::stdlib::envns::{args, script_args, stdin_value, EnvOverlay};
use yabumi::stdlib::fs::{bytes_value, exists_value, list, read_bytes};
use yabumi::stdlib::http::{net_error, request_options, response_to_value};
use yabumi::stdlib::math::{
    abs_float, abs_int, checked_add, checked_div, checked_mod, checked_mul, checked_sub,
    max_float, max_int, min_float, min_int,
};
use yabumi::stdlib::order::compare_sort_keys;
use yabumi::stdlib::prelude::{install, is_builtin_function};
use yabumi::stdlib::primitives::{
    float_from_int, float_to_str, format_float, int_from_float, int_to_str, str_bytes, str_chars,
    str_contains, str_ends_with, str_find, str_from_value, str_get, str_is_empty, str_len,
    str_parse_float, str_parse_int, str_repeat, str_replace, str_slice, str_split,
    str_starts_with, str_to_lower, str_to_str, str_to_upper, str_trim, str_trim_end,
    str_trim_start,
};
use yabumi::stdlib::proc::{arg_texts, output_value, spawn_failure};
use yabumi::stdlib::rand::{bool_, choice, float_numerator, int_, seed_of, shuffle, Prng};
use yabumi::stdlib::regexns::{captures, find, find_all, is_match, replace, replace_all};
use yabumi::stdlib::result_option::{
    is_err, is_none, is_ok, is_some, option_and_then, option_filter, option_map, option_ok_or,
    option_unwrap, option_unwrap_or, option_unwrap_or_else, result_and_then, result_err,
    result_map, result_map_err, result_ok, result_unwrap, result_unwrap_or,
    result_unwrap_or_else,
};
use yabumi::stdlib::{
    builtins, err_value, error_value, fs, none_value, ok_value, option_value, some_value,
    strs_value,
};

fn dummy_span() -> Span {
    Span {
        file: FileId(0),
        start: Position { line: 1, col: 1 },
        end: Position { line: 1, col: 1 },
    }
}

fn text(s: &str) -> Value {
    Value::Str(s.to_owned())
}

/// A floating-point number as the library holds it: by its spelling.
fn float(x: f64) -> Value {
    Value::Float(x.to_string())
}

fn spelled(x: f64) -> String {
    x.to_string()
}

fn read(s: String) -> Option<String> {
    s.parse::<f64>().ok().map(|x| x.to_string())
}

fn plus(a: String, b: String) -> String {
    match (a.parse::<f64>(), b.parse::<f64>()) {
        (Ok(x), Ok(y)) => (x + y).to_string(),
        _ => panic!("expected two numbers"),
    }
}

fn truncated(x: f64) -> Option<i64> {
    let t = x.trunc();
    if t.is_finite() && (-9_223_372_036_854_775_808.0..9_223_372_036_854_775_808.0).contains(&t) {
        Some(t as i64)
    } else {
        None
    }
}

fn ints(items: &[i64]) -> Vec<Value> {
    items.iter().map(|n| Value::Int(*n)).collect()
}

fn list_items(v: Value) -> Vec<Value> {
    match v {
        Value::List(items) => items,
        other => panic!("expected list, got {other:?}"),
    }
}

fn enum_of(v: Value) -> EnumInstance {
    match v {
        Value::Enum(inst) => inst,
        other => panic!("expected an enum value, got {other:?}"),
    }
}

fn must(r: Result<Value, Abort>) -> Value {
    match r {
        Ok(v) => v,
        Err(abort) => panic!("unexpected abort {abort:?}"),
    }
}

fn unused(_: Vec<Value>) -> Result<Value, Abort> {
    panic!("the function must not be called")
}

fn the_int(v: &Value) -> i64 {
    match v {
        Value::Int(n) => *n,
        other => panic!("expected int, got {other:?}"),
    }
}

// --- shapes ---

#[test]
fn some_none_round_trip_variant_shape() {
    let inst = enum_of(some_value(Value::Int(1)));
    assert_eq!(inst.ty_name, "Option");
    assert_eq!(inst.variant_name, "Some");
    assert_eq!(inst.variant_index, 0);
    assert_eq!(inst.fields, vec![Value::Int(1)]);

    let inst = enum_of(none_value());
    assert_eq!(inst.variant_name, "None");
    assert_eq!(inst.variant_index, 1);
    assert!(inst.fields.is_empty());
}

#[test]
fn ok_err_round_trip_variant_shape() {
    let inst = enum_of(ok_value(Value::Int(1)));
    assert_eq!(inst.ty_name, "Result");
    assert_eq!(inst.variant_name, "Ok");
    assert_eq!(inst.variant_index, 0);

    let inst = enum_of(err_value(Value::Int(2)));
    assert_eq!(inst.variant_name, "Err");
    assert_eq!(inst.variant_index, 1);
}

#[test]
fn error_value_has_kind_message_none_cause() {
    let Value::Struct(inst) = error_value("decode", "bad input".to_owned()) else {
        panic!("error_value must build a Struct")
    };
    assert_eq!(inst.ty_name, "Error");
    assert_eq!(inst.fields[0], text("decode"));
    assert_eq!(inst.fields[1], text("bad input"));
    let Value::Enum(cause) = &inst.fields[2] else {
        panic!("Error.cause must be an Option")
    };
    assert_eq!(cause.variant_name, "None");
}

#[test]
fn options_become_values() {
    assert_eq!(option_value(Some(Value::Int(1))), some_value(Value::Int(1)));
    assert_eq!(option_value(None), none_value());
    assert_eq!(
        strs_value(&vec!["a".to_owned(), "b".to_owned()]),
        Value::List(vec![text("a"), text("b")])
    );
}

// --- tables of method names ---

fn method_name_set(names: &[&'static str]) -> BTreeSet<&'static str> {
    names.iter().copied().collect()
}

#[test]
fn str_type_table_matches_implementation() {
    let type_check_str = method_name_set(&[
        "len", "count", "get", "bytes", "trim", "trim_start", "trim_end", "to_upper", "to_lower",
        "to_str", "contains", "starts_with", "ends_with", "replace", "repeat", "is_empty", "find",
        "slice", "parse_int", "parse_float", "map", "filter", "fold", "find_by", "any", "all",
        "enumerate", "zip", "rev", "chars", "take", "skip", "flat_map", "sort_by", "split",
        "chain",
    ]);
    let implemented_str_direct = method_name_set(&[
        "len", "count", "get", "bytes", "trim", "trim_start", "trim_end", "to_upper", "to_lower",
        "to_str", "contains", "starts_with", "ends_with", "replace", "repeat", "is_empty", "find",
        "slice", "parse_int", "parse_float", "split",
    ]);
    let str_delegated_to_list_generic = method_name_set(&[
        "map", "filter", "fold", "find_by", "any", "all", "enumerate", "zip", "rev", "chars",
        "take", "skip", "flat_map", "sort_by", "chain",
    ]);
    let implemented_str: BTreeSet<&str> =
        implemented_str_direct.union(&str_delegated_to_list_generic).copied().collect();
    assert_eq!(
        type_check_str, implemented_str,
        "str: type-check table vs implemented methods differ"
    );
}

#[test]
fn list_type_table_matches_implementation() {
    let type_check_list = method_name_set(&[
        "map", "par_map", "filter", "fold", "find", "any", "all", "count", "len", "sum",
        "enumerate", "zip", "rev", "take", "skip", "flat_map", "sort_by", "chain", "get",
        "is_empty", "contains", "first", "last", "join", "slice", "to_set", "each", "par_each",
        "push", "pop", "insert", "remove", "extend", "clear", "shuffle",
    ]);
    let implemented_list_collections = method_name_set(&[
        "map", "filter", "fold", "find", "any", "all", "count", "len", "sum", "enumerate", "zip",
        "rev", "take", "skip", "flat_map", "sort_by", "chain", "get", "is_empty", "contains",
        "first", "last", "join", "slice", "to_set", "each", "push", "pop", "insert", "remove",
        "extend", "clear",
    ]);
    let list_implemented_elsewhere = method_name_set(&["par_map", "par_each", "shuffle"]);
    let implemented_list: BTreeSet<&str> =
        implemented_list_collections.union(&list_implemented_elsewhere).copied().collect();
    assert_eq!(
        type_check_list, implemented_list,
        "list: type-check table vs implemented methods differ"
    );
}

#[test]
fn dict_type_table_matches_implementation() {
    let type_check_dict = method_name_set(&[
        "get", "contains_key", "keys", "values", "entries", "len", "is_empty", "map", "filter",
        "any", "all", "find", "fold", "each", "insert", "remove", "clear",
    ]);
    let implemented_dict_collections = method_name_set(&[
        "get", "contains_key", "keys", "values", "entries", "len", "map", "filter", "any", "all",
        "find", "fold", "each", "insert", "remove", "clear",
    ]);
    let dict_implemented_elsewhere = method_name_set(&["is_empty"]);
    let implemented_dict: BTreeSet<&str> =
        implemented_dict_collections.union(&dict_implemented_elsewhere).copied().collect();
    assert_eq!(
        type_check_dict, implemented_dict,
        "dict: type-check table vs implemented methods differ"
    );
}

#[test]
fn set_type_table_matches_implementation() {
    let type_check_set = method_name_set(&[
        "contains", "len", "count", "is_empty", "union", "intersection", "difference", "to_list",
        "map", "filter", "any", "all", "find", "fold", "sum", "each", "insert", "remove", "clear",
    ]);
    let implemented_set_collections = method_name_set(&[
        "contains", "len", "union", "intersection", "difference", "to_list", "map", "filter",
        "any", "all", "find", "fold", "sum", "each", "insert", "remove", "clear",
    ]);
    let set_implemented_elsewhere = method_name_set(&["count", "is_empty"]);
    let implemented_set: BTreeSet<&str> =
        implemented_set_collections.union(&set_implemented_elsewhere).copied().collect();
    assert_eq!(
        type_check_set, implemented_set,
        "set: type-check table vs implemented methods differ"
    );
}

#[test]
fn result_type_table_matches_implementation() {
    let type_check_result = method_name_set(&[
        "is_ok", "is_err", "ok", "err", "unwrap", "unwrap_or", "unwrap_or_else", "map", "map_err",
        "and_then",
    ]);
    let implemented_result = method_name_set(&[
        "is_ok", "is_err", "ok", "err", "unwrap", "unwrap_or", "unwrap_or_else", "map", "map_err",
        "and_then",
    ]);
    assert_eq!(
        type_check_result, implemented_result,
        "Result: type-check table vs implemented methods differ"
    );
}

#[test]
fn option_type_table_matches_implementation() {
    let type_check_option = method_name_set(&[
        "is_some", "is_none", "unwrap", "unwrap_or", "unwrap_or_else", "map", "and_then",
        "filter", "ok_or",
    ]);
    let implemented_option = method_name_set(&[
        "is_some", "is_none", "unwrap", "unwrap_or", "unwrap_or_else", "map", "and_then",
        "filter", "ok_or",
    ]);
    assert_eq!(
        type_check_option, implemented_option,
        "Option: type-check table vs implemented methods differ"
    );
}

// --- math ---

#[test]
fn checked_div_handles_zero_and_min_over_neg_one() {
    assert_eq!(checked_div(10, 0), none_value());
    assert_eq!(checked_div(i64::MIN, -1), none_value());
    assert_eq!(checked_div(10, 2), some_value(Value::Int(5)));
}

#[test]
fn checked_mod_handles_zero() {
    assert_eq!(checked_mod(10, 0), none_value());
    assert_eq!(checked_mod(-7, 3), some_value(Value::Int(-1)));
}

#[test]
fn checked_add_sub_mul_detect_overflow() {
    assert_eq!(checked_add(i64::MAX, 1), none_value());
    assert_eq!(checked_sub(i64::MIN, 1), none_value());
    assert_eq!(checked_mul(i64::MAX, 2), none_value());
    assert_eq!(checked_add(1, 2), some_value(Value::Int(3)));
}

#[test]
fn abs_int_does_not_panic_on_i64_min() {
    assert_eq!(abs_int(i64::MIN), Value::Int(i64::MIN));
    assert_eq!(abs_int(-5), Value::Int(5));
}

#[test]
fn division_rounds_toward_zero() {
    for (a, b) in [(7i64, 2i64), (-7, 2), (7, -2), (-7, -2), (i64::MIN, 3), (i64::MAX, -4)] {
        assert_eq!(checked_div(a, b), some_value(Value::Int(a / b)));
        assert_eq!(checked_mod(a, b), some_value(Value::Int(a % b)));
    }
    assert_eq!(checked_mod(i64::MIN, -1), none_value());
}

#[test]
fn smaller_and_larger_are_told_apart() {
    assert_eq!(min_int(3, -4), Value::Int(-4));
    assert_eq!(max_int(3, -4), Value::Int(3));
    assert_eq!(abs_float("-2.5"), float(2.5));
    assert_eq!(abs_float("2.5"), float(2.5));
    assert_eq!(min_float("-2.5", "1"), float(-2.5));
    assert_eq!(max_float("-2.5", "1"), float(1.0));
    assert_eq!(max_float("NaN", "1"), float(1.0));
    assert_eq!(min_float("1", "NaN"), float(1.0));
    assert_eq!(min_float("inf", "-inf"), Value::Float("-inf".to_owned()));
    assert_eq!(max_float("0.00001", "9.5"), float(9.5));
}

#[test]
fn subtraction_takes_an_addition_back() {
    let sum = enum_of(checked_add(40, -2));
    assert_eq!(checked_sub(the_int(&sum.fields[0]), -2), some_value(Value::Int(40)));
}

// --- random numbers ---

fn some_prng() -> Prng {
    Prng::from_seed(seed_of(1, 2, 3, 4))
}

#[test]
fn int_degenerate_half_open_interval_is_always_the_lower_bound() {
    let mut p = some_prng();
    for _ in 0..20 {
        assert_eq!(int_(&mut p, 5, 6), Value::Int(5));
    }
}

#[test]
fn int_inverted_range_falls_back_to_lo() {
    let mut p = some_prng();
    assert_eq!(int_(&mut p, 10, 10), Value::Int(10));
    assert_eq!(int_(&mut p, 10, 5), Value::Int(10));
}

#[test]
fn int_stays_within_half_open_bounds() {
    let mut p = some_prng();
    for _ in 0..200 {
        let n = the_int(&int_(&mut p, 0, 10));
        assert!((0..10).contains(&n));
    }
    for _ in 0..200 {
        let n = the_int(&int_(&mut p, i64::MIN, i64::MAX));
        assert!(n < i64::MAX);
    }
}

#[test]
fn float_stays_within_zero_one_half_open_interval() {
    let mut p = some_prng();
    for _ in 0..200 {
        let x = float_numerator(&mut p) as f64 / 9_007_199_254_740_992.0;
        assert!((0.0..1.0).contains(&x));
    }
}

#[test]
fn bool_is_true_or_false() {
    let Value::Bool(_) = bool_(&mut some_prng()) else {
        panic!("expected bool")
    };
}

#[test]
fn choice_on_empty_list_is_none() {
    let inst = enum_of(choice(&mut some_prng(), &[]));
    assert_eq!(inst.variant_name, "None");
}

#[test]
fn choice_on_single_element_list_always_returns_that_element() {
    let mut p = some_prng();
    let xs = [Value::Int(42)];
    for _ in 0..20 {
        let inst = enum_of(choice(&mut p, &xs));
        assert_eq!(inst.variant_name, "Some");
        assert_eq!(inst.fields[0], Value::Int(42));
    }
}

#[test]
fn shuffle_on_single_element_list_cannot_change_order() {
    let mut xs = vec![Value::Int(42)];
    shuffle(&mut some_prng(), &mut xs);
    assert_eq!(xs, vec![Value::Int(42)]);
}

#[test]
fn shuffle_preserves_the_multiset_of_elements() {
    let original = ints(&[1, 2, 3, 4, 5]);
    let mut xs = ints(&[1, 2, 3, 4, 5]);
    shuffle(&mut some_prng(), &mut xs);
    let mut after = xs;
    let mut before = original;
    after.sort_by_key(the_int);
    before.sort_by_key(the_int);
    assert_eq!(after, before);
}

#[test]
fn shuffle_on_empty_list_does_not_panic() {
    let mut xs: Vec<Value> = vec![];
    shuffle(&mut some_prng(), &mut xs);
    assert!(xs.is_empty());
}

#[test]
fn same_seed_gives_the_same_numbers() {
    let mut a = Prng::from_seed(7);
    let mut b = Prng::from_seed(7);
    let mut seen = BTreeSet::new();
    for _ in 0..50 {
        let n = a.next_u64();
        assert_eq!(n, b.next_u64());
        seen.insert(n);
    }
    assert_eq!(seen.len(), 50);
}

// --- results and options ---

#[test]
fn result_predicates_and_accessors() {
    let ok = enum_of(ok_value(Value::Int(1)));
    let err = enum_of(err_value(Value::Int(2)));
    assert_eq!(is_ok(&ok), Value::Bool(true));
    assert_eq!(is_err(&ok), Value::Bool(false));
    assert_eq!(is_ok(&err), Value::Bool(false));
    assert_eq!(is_err(&err), Value::Bool(true));
    assert_eq!(result_ok(&ok), some_value(Value::Int(1)));
    assert_eq!(result_ok(&err), none_value());
    assert_eq!(result_err(&err), some_value(Value::Int(2)));
    assert_eq!(result_unwrap_or(&ok, Value::Int(9)), Value::Int(1));
    assert_eq!(result_unwrap_or(&err, Value::Int(9)), Value::Int(9));
}

#[test]
fn result_unwrap_succeeds_on_ok_and_panics_on_err() {
    let ok = enum_of(ok_value(Value::Int(1)));
    assert_eq!(must(result_unwrap(&ok, dummy_span())), Value::Int(1));

    let inner_error = error_value("decode", "boom".to_owned());
    let err = enum_of(err_value(inner_error));
    assert!(result_unwrap(&err, dummy_span()).is_err());
    match result_unwrap(&err, dummy_span()) {
        Err(abort) => {
            assert_eq!(abort.0.code, ErrorCode::UnwrapFailed);
            assert!(abort.0.message.contains("boom"));
        }
        Ok(_) => panic!("expected an abort"),
    }
}

#[test]
fn result_map_and_and_then_pass_through_err_without_calling_f() {
    let err = enum_of(err_value(Value::Int(2)));
    assert_eq!(must(result_map(&err, unused)), err_value(Value::Int(2)));
    assert_eq!(must(result_and_then(&err, unused)), err_value(Value::Int(2)));
}

#[test]
fn option_predicates_and_accessors() {
    let some = enum_of(some_value(Value::Int(1)));
    let none = enum_of(none_value());
    assert_eq!(is_some(&some), Value::Bool(true));
    assert_eq!(is_none(&some), Value::Bool(false));
    assert_eq!(is_some(&none), Value::Bool(false));
    assert_eq!(is_none(&none), Value::Bool(true));
    assert_eq!(option_unwrap_or(&some, Value::Int(9)), Value::Int(1));
    assert_eq!(option_unwrap_or(&none, Value::Int(9)), Value::Int(9));
    assert_eq!(option_ok_or(&some, Value::Int(0)), ok_value(Value::Int(1)));
    assert_eq!(option_ok_or(&none, Value::Int(0)), err_value(Value::Int(0)));
}

#[test]
fn option_unwrap_succeeds_on_some_and_panics_on_none() {
    let some = enum_of(some_value(Value::Int(1)));
    assert_eq!(must(option_unwrap(&some, dummy_span())), Value::Int(1));
    let none = enum_of(none_value());
    assert!(option_unwrap(&none, dummy_span()).is_err());
}

#[test]
fn option_map_and_filter_pass_through_none_without_calling_f() {
    let none = enum_of(none_value());
    assert_eq!(must(option_map(&none, unused)), none_value());
    assert_eq!(must(option_filter(&none, unused)), none_value());
}

#[test]
fn option_unwrap_or_else_skips_call_on_some() {
    let some = enum_of(some_value(Value::Int(7)));
    assert_eq!(must(option_unwrap_or_else(&some, unused)), Value::Int(7));
}

fn twice(args: Vec<Value>) -> Result<Value, Abort> {
    Ok(Value::Int(the_int(&args[0]) * 2))
}

fn over_two(args: Vec<Value>) -> Result<Value, Abort> {
    Ok(Value::Bool(the_int(&args[0]) > 2))
}

#[test]
fn functions_are_called_on_what_is_held() {
    let ok = enum_of(ok_value(Value::Int(3)));
    let err = enum_of(err_value(Value::Int(4)));
    let some = enum_of(some_value(Value::Int(5)));
    let none = enum_of(none_value());
    assert_eq!(must(result_map(&ok, twice)), ok_value(Value::Int(6)));
    assert_eq!(must(result_map_err(&err, twice)), err_value(Value::Int(8)));
    assert_eq!(must(result_map_err(&ok, unused)), ok_value(Value::Int(3)));
    assert_eq!(must(result_and_then(&ok, |a| Ok(err_value(twice(a)?)))), err_value(Value::Int(6)));
    assert_eq!(must(result_unwrap_or_else(&ok, unused)), Value::Int(3));
    assert_eq!(must(result_unwrap_or_else(&err, twice)), Value::Int(8));
    assert_eq!(must(option_map(&some, twice)), some_value(Value::Int(10)));
    assert_eq!(must(option_and_then(&some, |_| Ok(none_value()))), none_value());
    assert_eq!(must(option_and_then(&none, unused)), none_value());
    assert_eq!(must(option_filter(&some, over_two)), some_value(Value::Int(5)));
    assert_eq!(must(option_filter(&some, |_| Ok(Value::Bool(false)))), none_value());
    assert_eq!(must(option_unwrap_or_else(&none, |_| Ok(Value::Int(1)))), Value::Int(1));
    assert_eq!(result_err(&ok), none_value());
}

// --- numbers and strings ---

#[test]
fn int_from_float_truncates_toward_zero() {
    assert_eq!(must(int_from_float(truncated(3.9), dummy_span())), Value::Int(3));
    assert_eq!(must(int_from_float(truncated(-3.9), dummy_span())), Value::Int(-3));
}

#[test]
fn int_from_float_panics_on_overflow() {
    assert!(int_from_float(truncated(1e300), dummy_span()).is_err());
    assert!(int_from_float(truncated(f64::NAN), dummy_span()).is_err());
    match int_from_float(None, dummy_span()) {
        Err(abort) => assert_eq!(abort.0.code, ErrorCode::IntegerOverflow),
        Ok(_) => panic!("expected an abort"),
    }
}

#[test]
fn float_from_int_always_succeeds() {
    assert_eq!(float_from_int(0, &read), float(0.0));
    assert_eq!(float_from_int(-5, &read), float(-5.0));
    assert_eq!(float_from_int(i64::MAX, &read), float(i64::MAX as f64));
}

#[test]
fn format_float_always_has_decimal_point_in_plain_range() {
    assert_eq!(format_float(&spelled(1.0)), "1.0");
    assert_eq!(format_float(&spelled(2.5)), "2.5");
    assert_eq!(format_float(&spelled(-2.0)), "-2.0");
}

#[test]
fn format_float_switches_to_scientific_for_extreme_magnitudes() {
    assert_eq!(format_float(&spelled(1e20)), "1e20");
}

#[test]
fn format_float_round_trips_via_parse() {
    for x in [0.0, 1.0, -1.0, 2.5, 1e20, 1e-10, 123_456.789] {
        let s = format_float(&spelled(x));
        let Ok(parsed) = s.parse::<f64>() else {
            panic!("format_float must produce a parseable string, got {s}")
        };
        assert_eq!(parsed, x, "round-trip failed for {x} -> {s}");
    }
}

#[test]
fn small_and_large_floats_are_written_as_rust_writes_them() {
    for x in [1e-7, 1.5e-300, 2.25e30, -1e16, 1e15, 0.00001, 0.0001, 123.0, f64::MAX] {
        let s = format_float(&spelled(x));
        assert_eq!(s.parse::<f64>().ok(), Some(x), "{x} -> {s}");
    }
    assert_eq!(format_float("NaN"), "nan");
    assert_eq!(format_float("inf"), "inf");
    assert_eq!(format_float(&spelled(1e-10)), "1e-10");
}

#[test]
fn str_len_counts_unicode_scalar_values_not_bytes() {
    assert_eq!(str_len("h\u{e9}llo"), Value::Int(5));
}

#[test]
fn str_get_returns_option() {
    let some = enum_of(str_get("abc", 1));
    assert_eq!(some.variant_name, "Some");
    assert_eq!(some.fields[0], text("b"));
    let none = enum_of(str_get("abc", 10));
    assert_eq!(none.variant_name, "None");
    assert_eq!(str_get("abc", -1), none_value());
}

#[test]
fn str_chars_splits_into_single_char_strings() {
    assert_eq!(list_items(str_chars("ab")), vec![text("a"), text("b")]);
}

#[test]
fn str_bytes_returns_utf8_bytes() {
    assert_eq!(list_items(str_bytes("A")), vec![Value::Int(65)]);
    assert_eq!(str_bytes("\u{e9}"), Value::List(ints(&[195, 169])));
}

#[test]
fn str_split_splits_by_separator() {
    assert_eq!(list_items(str_split("a,b,c", ",")).len(), 3);
    assert_eq!(str_split("a,b,,", ","), Value::List(vec![
        text("a"), text("b"), text(""), text("")
    ]));
    assert_eq!(str_split("", ","), Value::List(vec![text("")]));
    assert_eq!(str_split("ab", ""), Value::List(vec![
        text(""), text("a"), text("b"), text("")
    ]));
}

#[test]
fn str_find_returns_char_index_not_byte_index() {
    let some = enum_of(str_find("h\u{e9}llo", "llo"));
    assert_eq!(some.fields[0], Value::Int(2));
    assert_eq!(str_find("abc", "z"), none_value());
    assert_eq!(str_find("abc", ""), some_value(Value::Int(0)));
}

#[test]
fn str_slice_uses_char_indices_and_panics_out_of_range() {
    assert_eq!(must(str_slice("h\u{e9}llo", 1, 3, dummy_span())), text("\u{e9}l"));
    assert!(str_slice("abc", 0, 10, dummy_span()).is_err());
    assert!(str_slice("abc", 2, 1, dummy_span()).is_err());
    assert!(str_slice("abc", -1, 1, dummy_span()).is_err());
}

#[test]
fn str_parse_int_and_float_round_trip() {
    assert_eq!(str_parse_int("42"), ok_value(Value::Int(42)));
    assert!(matches!(str_parse_int("not a number"), Value::Enum(e) if e.variant_name == "Err"));
    assert_eq!(str_parse_float("3.5", &read), ok_value(float(3.5)));
    assert!(matches!(str_parse_float("x", &read), Value::Enum(e) if e.variant_name == "Err"));
}

#[test]
fn integers_read_back() {
    for n in [0, 7, -7, i64::MAX, i64::MIN] {
        let Value::Str(s) = int_to_str(n) else { panic!("expected str") };
        assert_eq!(s, n.to_string());
        assert_eq!(str_parse_int(&s), ok_value(Value::Int(n)));
    }
    assert!(matches!(str_parse_int("9223372036854775808"), Value::Enum(e)
        if e.variant_name == "Err"));
}

#[test]
fn strings_are_trimmed_and_searched() {
    assert_eq!(str_trim(" \t\u{3000}a b\n"), text("a b"));
    assert_eq!(str_trim_start("  a "), text("a "));
    assert_eq!(str_trim_end("  a "), text("  a"));
    assert_eq!(str_to_upper("stra\u{df}e"), text("STRASSE"));
    assert_eq!(str_to_lower("\u{c4}B"), text("\u{e4}b"));
    assert_eq!(str_is_empty(""), Value::Bool(true));
    assert_eq!(str_is_empty("a"), Value::Bool(false));
    assert_eq!(str_to_str("a"), text("a"));
    assert_eq!(str_contains("hello", "ell"), Value::Bool(true));
    assert_eq!(str_contains("hello", "elo"), Value::Bool(false));
    assert_eq!(str_starts_with("hello", "he"), Value::Bool(true));
    assert_eq!(str_starts_with("hello", "lo"), Value::Bool(false));
    assert_eq!(str_ends_with("hello", "lo"), Value::Bool(true));
    assert_eq!(str_ends_with("hello", "he"), Value::Bool(false));
    assert_eq!(str_replace("aXbXc", "X", "--"), text("a--b--c"));
    assert_eq!(str_replace("aaa", "aa", "b"), text("ba"));
    assert_eq!(str_replace("ab", "", "-"), text("-a-b-"));
    assert_eq!(str_repeat("ab", 3), text("ababab"));
    assert_eq!(str_repeat("ab", -3), text(""));
    assert_eq!(str_from_value(&Value::Int(3)), text("3"));
    assert_eq!(str_from_value(&Value::Bool(true)), text("true"));
    assert_eq!(str_from_value(&float(2.0)), text("2.0"));
    assert_eq!(float_to_str("2"), text("2.0"));
}

// --- builtins ---

#[test]
fn format_float_appends_point_zero_for_whole_numbers() {
    assert_eq!(builtins::format_float(&spelled(3.0)), "3.0");
    assert_eq!(builtins::format_float(&spelled(-3.0)), "-3.0");
}

#[test]
fn format_float_keeps_existing_fraction() {
    assert_eq!(builtins::format_float(&spelled(3.5)), "3.5");
    assert_eq!(builtins::format_float(&spelled(1.5)), "1.5");
}

#[test]
fn assert_bare_ok_when_true() {
    let result = assert_bare(true, "x == 1", dummy_span());
    assert!(matches!(result, Ok(Value::Void)));
}

#[test]
fn assert_bare_aborts_with_source_text_when_false() {
    match assert_bare(false, "x == 1", dummy_span()) {
        Err(abort) => {
            assert_eq!(abort.0.code, ErrorCode::AssertFailed);
            assert!(abort.0.message.contains("x == 1"));
        }
        Ok(_) => panic!("a false condition should produce an Abort"),
    }
}

#[test]
fn assert_with_message_aborts_with_custom_message() {
    match assert_with_message(false, "custom message", dummy_span()) {
        Err(abort) => {
            assert_eq!(abort.0.code, ErrorCode::AssertFailed);
            assert!(abort.0.message.contains("custom message"));
        }
        Ok(_) => panic!("a false condition should produce an Abort"),
    }
    assert!(assert_with_message(true, "custom message", dummy_span()).is_ok());
}

#[test]
fn primitives_are_displayed() {
    assert_eq!(display_primitive(&Value::Int(-3)), "-3");
    assert_eq!(display_primitive(&float(3.0)), "3.0");
    assert_eq!(display_primitive(&Value::Bool(false)), "false");
    assert_eq!(display_primitive(&text("a\"b")), "a\"b");
}

// --- the environment, files, processes, requests ---

#[test]
fn get_missing_key_is_none() {
    let overlay = EnvOverlay::new();
    let inst = enum_of(overlay.get("YABUMI_TEST_ENVNS_UNSET_KEY_XYZ", None));
    assert_eq!(inst.variant_name, "None");
}

#[test]
fn set_then_get_round_trips() {
    let key = "YABUMI_TEST_ENVNS_ROUNDTRIP_KEY";
    let mut overlay = EnvOverlay::new();
    overlay.set(key, "sample-value");
    let inst = enum_of(overlay.get(key, Some("outer".to_owned())));
    assert_eq!(inst.variant_name, "Some");
    assert_eq!(inst.fields[0], text("sample-value"));
    assert_eq!(overlay.get("other", Some("outer".to_owned())), some_value(text("outer")));
    overlay.set(key, "later");
    assert_eq!(overlay.len(), 1);
    assert_eq!(overlay.entry(0), (key.to_owned(), "later".to_owned()));
}

#[test]
fn script_args_follow_each_cli_shape() {
    fn argv(items: &[&str]) -> Vec<String> {
        items.iter().map(|item| (*item).to_owned()).collect()
    }

    assert_eq!(script_args(argv(&["ybm", "entry_main.ybm", "foo", "bar"])), ["foo", "bar"]);
    assert_eq!(script_args(argv(&["ybm", "entry_main.ybm", "--check"])), ["--check"]);
    assert_eq!(
        script_args(argv(&["ybm", "check", "--apply", "entry_main.ybm", "foo"])),
        ["foo"]
    );
    assert_eq!(
        script_args(argv(&["ybm", "check", "entry_main.ybm", "foo", "--apply"])),
        ["foo"]
    );
    assert_eq!(script_args(argv(&["ybm", "test", "entry_main.ybm", "--check"])), ["--check"]);
    assert_eq!(args(argv(&["ybm", "e.ybm", "a"])), Value::List(vec![text("a")]));
}

#[test]
fn standard_input_is_a_result() {
    assert_eq!(stdin_value(Ok("abc".to_owned())), ok_value(text("abc")));
    let inst = enum_of(stdin_value(Err("closed".to_owned())));
    assert_eq!(inst.variant_name, "Err");
}

#[test]
fn exists_false_for_missing_path() {
    let found = Path::new("/does/not/exist/at/all/yabumi").exists();
    assert_eq!(exists_value(found), Value::Bool(false));
    assert_eq!(exists_value(Path::new("/").exists()), Value::Bool(true));
}

#[test]
fn file_results_are_values() {
    assert_eq!(fs::read(Ok("hello".to_owned())), ok_value(text("hello")));
    let inst = enum_of(fs::read(Err("gone".to_owned())));
    assert_eq!(inst.variant_name, "Err");
    let Value::Struct(err) = &inst.fields[0] else { panic!("expected Error") };
    assert_eq!(err.fields[0], text("fs"));
    assert_eq!(err.fields[1], text("gone"));
    assert_eq!(fs::write(None), none_value());
    assert_eq!(enum_of(fs::write(Some("full".to_owned()))).variant_name, "Some");
    assert_eq!(bytes_value(b"AB"), Value::List(ints(&[65, 66])));
    assert_eq!(read_bytes(Ok(vec![65, 66])), ok_value(Value::List(ints(&[65, 66]))));
    assert_eq!(
        list(Ok(vec!["b".to_owned(), "a".to_owned()])),
        ok_value(Value::List(vec![text("b"), text("a")]))
    );
}

#[test]
fn process_outcomes_are_values() {
    let inst = enum_of(output_value("hello\n".to_owned(), String::new(), Some(0)));
    assert_eq!(inst.variant_name, "Ok");
    let Value::Struct(out) = &inst.fields[0] else { panic!("expected ProcOutput") };
    assert_eq!(out.ty_name, "ProcOutput");
    assert_eq!(out.fields, vec![text("hello\n"), text(""), Value::Int(0)]);
    let killed = enum_of(output_value(String::new(), String::new(), None));
    let Value::Struct(out) = &killed.fields[0] else { panic!("expected ProcOutput") };
    assert_eq!(out.fields[2], Value::Int(-1));
    let failed = enum_of(spawn_failure("/definitely/not/a/real/binary/yabumi", "no such file"));
    assert_eq!(failed.variant_name, "Err");
    let Value::Struct(err) = &failed.fields[0] else { panic!("expected Error") };
    assert_eq!(err.fields[0], text("proc"));
    assert_eq!(arg_texts(&[text("echo"), text("hi")]), ["echo", "hi"]);
}

#[test]
fn get_connection_refused_is_err_with_net_kind() {
    let failure = match ureq::get("http://127.0.0.1:1").call() {
        Ok(_) => panic!("expected no answer"),
        Err(e) => e.to_string(),
    };
    let inst = enum_of(err_value(net_error(failure)));
    assert_eq!(inst.variant_name, "Err");
    let Value::Struct(err) = &inst.fields[0] else { panic!("expected Error") };
    assert_eq!(err.fields[0], text("net"));
}

#[test]
fn responses_are_values() {
    let headers = vec![
        ("content-type".to_owned(), "text/plain".to_owned()),
        ("x".to_owned(), "1".to_owned()),
        ("x".to_owned(), "2".to_owned()),
    ];
    let inst = enum_of(response_to_value(404, &headers, Ok("hello".to_owned())));
    assert_eq!(inst.variant_name, "Ok");
    let Value::Struct(resp) = &inst.fields[0] else { panic!("expected Response") };
    assert_eq!(resp.fields[0], Value::Int(404));
    assert_eq!(resp.fields[2], text("hello"));
    let Value::Dict(d) = &resp.fields[1] else { panic!("expected a dictionary") };
    assert_eq!(d.len(), 2);
    assert_eq!(d.get(&MapKey::Str("x".to_owned())), Some(&text("2")));
    let broken = enum_of(response_to_value(200, &headers, Err("cut off".to_owned())));
    assert_eq!(broken.variant_name, "Err");
}

#[test]
fn request_options_are_read() {
    let mut headers = Dict::new();
    headers.insert(MapKey::Str("X-Test".to_owned()), text("v"));
    let options = Value::Struct(StructInstance {
        ty_name: "HttpOptions".to_owned(),
        fields: vec![Value::Dict(headers), Value::Int(3000)],
    });
    assert_eq!(request_options(&options), (vec![("X-Test".to_owned(), "v".to_owned())], 3000));
}

// --- regular expressions ---

fn assert_ok(v: Value) -> Value {
    let mut inst = enum_of(v);
    assert_eq!(inst.variant_name, "Ok");
    inst.fields.remove(0)
}

fn assert_err_kind(v: Value, kind: &str) {
    let inst = enum_of(v);
    assert_eq!(inst.variant_name, "Err");
    let Value::Struct(err) = &inst.fields[0] else {
        panic!("expected Error struct")
    };
    assert_eq!(err.fields[0], text(kind));
}

#[test]
fn is_match_true_and_false() {
    assert_eq!(assert_ok(is_match(r"\d+", "abc123")), Value::Bool(true));
    assert_eq!(assert_ok(is_match(r"^\d+$", "abc123")), Value::Bool(false));
}

#[test]
fn invalid_pattern_is_err_with_regex_kind() {
    assert_err_kind(is_match("(", "abc"), "regex");
}

#[test]
fn every_operation_refuses_an_invalid_pattern() {
    assert_err_kind(find("(", "abc"), "regex");
    assert_err_kind(find_all("(", "abc"), "regex");
    assert_err_kind(replace("(", "abc", ""), "regex");
    assert_err_kind(replace_all("(", "abc", ""), "regex");
    assert_err_kind(captures("(", "abc"), "regex");
}

#[test]
fn find_returns_first_match() {
    let opt = enum_of(assert_ok(find(r"\d+", "a12b34")));
    assert_eq!(opt.variant_name, "Some");
    assert_eq!(opt.fields[0], text("12"));
    assert_eq!(assert_ok(find(r"\d+", "ab")), none_value());
}

#[test]
fn searches_for_matches_agree() {
    for (pattern, text) in [(r"\d+", "a12b34"), (r"\d+", "none"), ("x*", "abc"), ("", "")] {
        let found = is_match(pattern, text);
        let first = find(pattern, text);
        let items = list_items(assert_ok(find_all(pattern, text)));
        if assert_ok(found) == Value::Bool(true) {
            assert_eq!(assert_ok(first), some_value(items[0].copy()));
        } else {
            assert_eq!(assert_ok(first), none_value());
            assert!(items.is_empty());
        }
    }
}

#[test]
fn find_all_returns_all_matches() {
    let items = list_items(assert_ok(find_all(r"\d+", "a12b34")));
    assert_eq!(items, vec![text("12"), text("34")]);
}

#[test]
fn replace_replaces_first_only() {
    assert_eq!(assert_ok(replace(r"\d", "a1b2", "X")), text("aXb2"));
}

#[test]
fn replace_all_replaces_every_match() {
    assert_eq!(assert_ok(replace_all(r"\d", "a1b2", "X")), text("aXbX"));
}

#[test]
fn captures_index_zero_is_whole_match() {
    let opt = enum_of(assert_ok(captures(r"(\d+)-(\d+)", "12-34")));
    let Value::List(items) = &opt.fields[0] else {
        panic!("expected list")
    };
    assert_eq!(items, &vec![text("12-34"), text("12"), text("34")]);
    let opt = enum_of(assert_ok(captures(r"(a)|(b)", "b")));
    assert_eq!(opt.fields[0], Value::List(vec![text("b"), text(""), text("b")]));
}

// --- lists ---

#[test]
fn list_enumerate_pairs_index_with_value() {
    let xs = vec![text("a"), text("b")];
    assert_eq!(
        list_items(list_enumerate(&xs)),
        vec![
            Value::Tuple(vec![Value::Int(0), text("a")]),
            Value::Tuple(vec![Value::Int(1), text("b")]),
        ]
    );
}

#[test]
fn list_zip_stops_at_shorter_length() {
    let items = list_items(list_zip(&ints(&[1, 2, 3]), &ints(&[9, 8])));
    assert_eq!(items.len(), 2);
    assert_eq!(items[1], Value::Tuple(ints(&[2, 8])));
}

#[test]
fn list_rev_reverses_order() {
    let items = list_items(list_rev(&ints(&[1, 2, 3])));
    assert_eq!(items, ints(&[3, 2, 1]));
    assert_eq!(list_items(list_rev(&items)), ints(&[1, 2, 3]));
}

#[test]
fn list_take_negative_n_is_empty() {
    assert!(list_items(list_take(&ints(&[1, 2]), -1)).is_empty());
}

#[test]
fn list_chain_concatenates() {
    assert_eq!(list_items(list_chain(&ints(&[1]), &ints(&[2]))), ints(&[1, 2]));
}

#[test]
fn list_get_out_of_range_and_negative_are_none() {
    let xs = ints(&[1]);
    assert_eq!(list_get(&xs, 0), some_value(Value::Int(1)));
    assert_eq!(list_get(&xs, 1), none_value());
    assert_eq!(list_get(&xs, -1), none_value());
}

#[test]
fn list_join_concatenates_strings_with_separator() {
    assert_eq!(list_join(&[text("a"), text("b")], ", "), text("a, b"));
}

#[test]
fn list_slice_panics_out_of_range_and_on_reversed_bounds() {
    let xs = ints(&[1, 2, 3]);
    assert_eq!(must(list_slice(&xs, 1, 3, dummy_span())), Value::List(ints(&[2, 3])));
    assert!(list_slice(&xs, 0, 10, dummy_span()).is_err());
    assert!(list_slice(&xs, 2, 1, dummy_span()).is_err());
}

#[test]
fn list_sum_preserves_numeric_type_and_checks_overflow() {
    assert_eq!(
        list_sum(&ints(&[1, 2, 3]), false, dummy_span(), plus).ok(),
        Some(Value::Int(6))
    );
    assert_eq!(
        list_sum(&[float(1.5), float(2.5)], true, dummy_span(), plus).ok(),
        Some(float(4.0))
    );
    assert_eq!(list_sum(&[], true, dummy_span(), plus).ok(), Some(float(0.0)));
    assert_eq!(list_sum(&[], false, dummy_span(), plus).ok(), Some(Value::Int(0)));
    assert!(list_sum(&ints(&[i64::MAX, 1]), false, dummy_span(), plus).is_err());
}

#[test]
fn list_to_set_deduplicates() {
    let Value::SetOf(s) = list_to_set(&ints(&[1, 1, 2])) else {
        panic!("expected set")
    };
    assert_eq!(s.len(), 2);
}

#[test]
fn compare_sort_keys_orders_int_float_str() {
    assert_eq!(
        compare_sort_keys(&Value::Int(1), &Value::Int(2)),
        std::cmp::Ordering::Less
    );
    assert_eq!(compare_sort_keys(&text("a"), &text("b")), std::cmp::Ordering::Less);
    assert_eq!(compare_sort_keys(&float(-1.5), &float(-2.5)), std::cmp::Ordering::Greater);
    assert_eq!(compare_sort_keys(&float(10.0), &float(9.5)), std::cmp::Ordering::Greater);
    assert_eq!(compare_sort_keys(&text("b"), &text("b")), std::cmp::Ordering::Equal);
}

#[test]
fn list_functions_call_what_they_are_given() {
    let xs = ints(&[3, 1, 2]);
    assert_eq!(must(list_map(&xs, twice)), Value::List(ints(&[6, 2, 4])));
    assert_eq!(must(list_filter(&xs, over_two)), Value::List(ints(&[3])));
    assert_eq!(must(list_find(&xs, over_two)), some_value(Value::Int(3)));
    assert_eq!(must(list_any(&xs, over_two)), Value::Bool(true));
    assert_eq!(must(list_all(&xs, over_two)), Value::Bool(false));
    assert_eq!(
        must(list_fold(&xs, Value::Int(100), |a| {
            Ok(Value::Int(the_int(&a[0]) - the_int(&a[1])))
        })),
        Value::Int(94)
    );
    assert_eq!(
        must(list_flat_map(&xs, |a| Ok(Value::List(vec![a[0].copy(), a[0].copy()])))),
        Value::List(ints(&[3, 3, 1, 1, 2, 2]))
    );
    assert_eq!(must(list_each(&xs, |_| Ok(Value::Void))), Value::Void);
    assert!(list_map(&xs, |_| Err(Abort(yabumi::diagnostics::Diagnostic {
        code: ErrorCode::AssertFailed,
        span: dummy_span(),
        message: "stop".to_owned(),
    })))
    .is_err());
}

#[test]
fn sorting_is_stable_and_ascending() {
    let xs: Vec<Value> = [(2, "a"), (1, "b"), (2, "c"), (1, "d")]
        .iter()
        .map(|(n, s)| Value::Tuple(vec![Value::Int(*n), text(s)]))
        .collect();
    let sorted = must(list_sort_by(&xs, |a| match &a[0] {
        Value::Tuple(t) => Ok(t[0].copy()),
        other => panic!("expected a tuple, got {other:?}"),
    }));
    let names: Vec<Value> = list_items(sorted)
        .iter()
        .map(|v| match v {
            Value::Tuple(t) => t[1].copy(),
            other => panic!("expected a tuple, got {other:?}"),
        })
        .collect();
    assert_eq!(names, vec![text("b"), text("d"), text("a"), text("c")]);
}

#[test]
fn floats_are_sorted_by_what_they_amount_to() {
    let xs: Vec<Value> = ["inf", "10.0", "-0.0", "9.5", "-inf", "-2.5", "0.0000001"]
        .iter()
        .map(|x| Value::Float((*x).to_owned()))
        .collect();
    let sorted = list_items(must(list_sort_by(&xs, |a| Ok(a[0].copy()))));
    let expected: Vec<Value> = ["-inf", "-2.5", "-0.0", "0.0000001", "9.5", "10.0", "inf"]
        .iter()
        .map(|x| Value::Float((*x).to_owned()))
        .collect();
    assert_eq!(sorted, expected);
}

#[test]
fn lists_change_in_place() {
    let mut xs = ints(&[1]);
    list_push(&mut xs, Value::Int(2));
    list_extend(&mut xs, &ints(&[3, 4]));
    assert_eq!(xs, ints(&[1, 2, 3, 4]));
    assert_eq!(must(list_insert(&mut xs, 1, Value::Int(9), dummy_span())), Value::Void);
    assert_eq!(xs, ints(&[1, 9, 2, 3, 4]));
    assert_eq!(must(list_remove(&mut xs, 1, dummy_span())), Value::Int(9));
    assert_eq!(xs, ints(&[1, 2, 3, 4]));
    assert!(list_insert(&mut xs, 5, Value::Int(9), dummy_span()).is_err());
    assert!(list_remove(&mut xs, -1, dummy_span()).is_err());
    assert_eq!(list_pop(&mut xs), some_value(Value::Int(4)));
    list_clear(&mut xs);
    assert_eq!(list_pop(&mut xs), none_value());
    assert_eq!(list_is_empty(&xs), Value::Bool(true));
}

#[test]
fn lists_are_read() {
    let xs = ints(&[1, 2, 3]);
    assert_eq!(list_len(&xs), Value::Int(3));
    assert_eq!(list_is_empty(&xs), Value::Bool(false));
    assert_eq!(list_contains(&xs, &Value::Int(2)), Value::Bool(true));
    assert_eq!(list_contains(&xs, &Value::Int(4)), Value::Bool(false));
    assert_eq!(list_first(&xs), some_value(Value::Int(1)));
    assert_eq!(list_last(&xs), some_value(Value::Int(3)));
    assert_eq!(list_first(&[]), none_value());
    assert_eq!(list_take(&xs, 2), Value::List(ints(&[1, 2])));
    assert_eq!(list_skip(&xs, 2), Value::List(ints(&[3])));
    assert_eq!(list_skip(&xs, -2), Value::List(ints(&[1, 2, 3])));
    assert_eq!(list_take(&xs, 9), Value::List(ints(&[1, 2, 3])));
}

// --- dictionaries ---

fn key(s: &str) -> MapKey {
    MapKey::Str(s.to_owned())
}

fn abc() -> Dict {
    let mut d = Dict::new();
    d.insert(key("a"), Value::Int(1));
    d.insert(key("b"), Value::Int(2));
    d.insert(key("c"), Value::Int(3));
    d
}

#[test]
fn dict_basic_readonly_methods() {
    let mut m = Dict::new();
    m.insert(key("a"), Value::Int(1));
    m.insert(key("b"), Value::Int(2));
    assert_eq!(dict_get(&m, &key("a")), some_value(Value::Int(1)));
    assert_eq!(dict_get(&m, &key("z")), none_value());
    assert_eq!(list_items(dict_keys(&m)), vec![text("a"), text("b")]);
    assert_eq!(list_items(dict_values(&m)), ints(&[1, 2]));
    assert_eq!(list_items(dict_entries(&m)).len(), 2);
}

#[test]
fn dict_insert_returns_old_value_and_remove_shift_removes() {
    let mut m = Dict::new();
    assert_eq!(dict_insert(&mut m, key("a"), Value::Int(1)), none_value());
    assert_eq!(dict_insert(&mut m, key("a"), Value::Int(2)), some_value(Value::Int(1)));
    assert_eq!(dict_remove(&mut m, &key("a")), some_value(Value::Int(2)));
    assert_eq!(dict_remove(&mut m, &key("a")), none_value());
    assert_eq!(m.len(), 0);
}

#[test]
fn dictionaries_remember_the_order_of_insertion() {
    let mut d = abc();
    dict_remove(&mut d, &key("a"));
    assert_eq!(list_items(dict_keys(&d)), vec![text("b"), text("c")]);
    dict_insert(&mut d, key("a"), Value::Int(9));
    assert_eq!(list_items(dict_keys(&d)), vec![text("b"), text("c"), text("a")]);
    assert_eq!(dict_len(&d), Value::Int(3));
    assert_eq!(dict_contains_key(&d, &key("a")), Value::Bool(true));
    dict_clear(&mut d);
    assert_eq!(dict_len(&d), Value::Int(0));
}

fn second(args: &[Value]) -> i64 {
    match &args[0] {
        Value::Tuple(t) => the_int(&t[1]),
        other => panic!("expected a pair, got {other:?}"),
    }
}

#[test]
fn dict_functions_call_what_they_are_given() {
    let d = abc();
    let mapped = must(dict_map(&d, |p| Ok(Value::Int(second(&p) * 10))));
    assert_eq!(mapped, Value::List(ints(&[10, 20, 30])));
    let filtered = must(dict_filter(&d, |p| Ok(Value::Bool(second(&p) > 1))));
    let Value::Dict(filtered) = filtered else { panic!("expected dict") };
    assert_eq!(list_items(dict_keys(&filtered)), vec![text("b"), text("c")]);
    assert_eq!(must(dict_any(&d, |p| Ok(Value::Bool(second(&p) == 2)))), Value::Bool(true));
    assert_eq!(must(dict_all(&d, |p| Ok(Value::Bool(second(&p) > 0)))), Value::Bool(true));
    assert_eq!(
        must(dict_find(&d, |p| Ok(Value::Bool(second(&p) == 2)))),
        some_value(Value::Tuple(vec![text("b"), Value::Int(2)]))
    );
    let summed = must(dict_fold(&d, Value::Int(0), |p| {
        Ok(Value::Int(the_int(&p[0]) + second(&p[1..])))
    }));
    assert_eq!(summed, Value::Int(6));
    assert_eq!(must(dict_each(&d, |_| Ok(Value::Void))), Value::Void);
}

// --- sets ---

fn int_set(items: &[i64]) -> IndexSet<MapKey> {
    items.iter().map(|n| MapKey::Int(*n)).collect()
}

fn set_ints(v: Value) -> Vec<i64> {
    match v {
        Value::SetOf(s) => s
            .iter()
            .map(|k| match k {
                MapKey::Int(n) => *n,
                other => panic!("expected an integer, got {other:?}"),
            })
            .collect(),
        other => panic!("expected set, got {other:?}"),
    }
}

#[test]
fn set_union_intersection_difference_preserve_self_order() {
    let lhs = int_set(&[1, 2]);
    let rhs = int_set(&[2, 3]);
    assert_eq!(set_ints(set_union(&lhs, &rhs)), vec![1, 2, 3]);
    assert_eq!(set_ints(set_intersection(&lhs, &rhs)), vec![2]);
    assert_eq!(set_ints(set_difference(&lhs, &rhs)), vec![1]);
}

#[test]
fn set_insert_remove_report_whether_they_changed_membership() {
    let mut s: IndexSet<MapKey> = IndexSet::new();
    assert_eq!(set_insert(&mut s, MapKey::Int(1)), Value::Bool(true));
    assert_eq!(set_insert(&mut s, MapKey::Int(1)), Value::Bool(false));
    assert_eq!(set_remove(&mut s, &MapKey::Int(1)), Value::Bool(true));
    assert_eq!(set_remove(&mut s, &MapKey::Int(1)), Value::Bool(false));
}

#[test]
fn set_to_list_and_sum() {
    let s = int_set(&[3, 4]);
    assert_eq!(list_items(set_to_list(&s)), ints(&[3, 4]));
    assert_eq!(set_sum(&s, dummy_span()).ok(), Some(Value::Int(7)));
    assert!(set_sum(&int_set(&[i64::MAX, 1]), dummy_span()).is_err());
}

#[test]
fn removing_from_a_set_keeps_the_order() {
    let mut s = int_set(&[1, 2, 3, 4]);
    set_remove(&mut s, &MapKey::Int(2));
    assert_eq!(list_items(set_to_list(&s)), ints(&[1, 3, 4]));
    assert_eq!(set_contains(&s, &MapKey::Int(3)), Value::Bool(true));
    assert_eq!(set_contains(&s, &MapKey::Int(2)), Value::Bool(false));
    assert_eq!(set_len(&s), Value::Int(3));
    set_clear(&mut s);
    assert_eq!(set_len(&s), Value::Int(0));
}

#[test]
fn set_functions_call_what_they_are_given() {
    let s = int_set(&[1, 2, 3, 4, 5]);
    assert_eq!(must(set_map(&s, twice)), Value::List(ints(&[2, 4, 6, 8, 10])));
    let even = must(set_filter(&s, |a| Ok(Value::Bool(the_int(&a[0]) % 2 == 0))));
    assert_eq!(set_ints(even), vec![2, 4]);
    assert_eq!(must(set_any(&s, over_two)), Value::Bool(true));
    assert_eq!(must(set_all(&s, over_two)), Value::Bool(false));
    assert_eq!(must(set_find(&s, over_two)), some_value(Value::Int(3)));
    let folded = must(set_fold(&s, Value::Int(0), |a| {
        Ok(Value::Int(the_int(&a[0]) + the_int(&a[1])))
    }));
    assert_eq!(folded, Value::Int(15));
    assert_eq!(must(set_each(&s, |_| Ok(Value::Void))), Value::Void);
}

#[test]
fn tuple_index_reads_positional_field() {
    let t = vec![Value::Int(1), text("x")];
    assert_eq!(tuple_index(&t, 0), Value::Int(1));
    assert_eq!(tuple_index(&t, 1), text("x"));
}

#[test]
fn keys_and_values_turn_into_each_other() {
    let k = MapKey::Tuple(vec![MapKey::Int(1), MapKey::Bool(true), key("x")]);
    let v = k.to_value();
    assert_eq!(v, Value::Tuple(vec![Value::Int(1), Value::Bool(true), text("x")]));
    assert_eq!(MapKey::try_from_value(&v), Some(k));
    assert_eq!(MapKey::try_from_value(&Value::Void), None);
}

// --- the prelude ---

fn fresh_program() -> Program {
    let mut sources = SourceMap::new();
    sources.add("entry.ybm".to_owned(), String::new());
    Program::new(sources)
}

#[test]
fn install_registers_result_option_value_enums() {
    let mut program = fresh_program();
    install(&mut program);
    let Some(result) = program.enums.get("Result") else {
        panic!("Result must be registered")
    };
    assert_eq!(result.variants.len(), 2);
    let Some(option) = program.enums.get("Option") else {
        panic!("Option must be registered")
    };
    assert_eq!(option.variants.len(), 2);
    let Some(value) = program.enums.get("Value") else {
        panic!("Value must be registered")
    };
    assert_eq!(value.variants.len(), 7);
}

#[test]
fn install_registers_error_and_http_proc_structs() {
    let mut program = fresh_program();
    install(&mut program);
    let Some(error) = program.structs.get("Error") else {
        panic!("Error must be registered")
    };
    assert_eq!(error.fields.len(), 3);
    let Some(response) = program.structs.get("Response") else {
        panic!("Response must be registered")
    };
    assert_eq!(response.fields.len(), 3);
    let Some(http_options) = program.structs.get("HttpOptions") else {
        panic!("HttpOptions must be registered")
    };
    assert_eq!(http_options.fields.len(), 2);
    let Some(proc_output) = program.structs.get("ProcOutput") else {
        panic!("ProcOutput must be registered")
    };
    assert_eq!(proc_output.fields.len(), 3);
}

#[test]
fn install_registers_flat_namespace_builtin_function_names() {
    let mut program = fresh_program();
    install(&mut program);
    for name in ["int", "float", "str", "print", "eprint", "assert", "set"] {
        assert!(
            program.functions.contains_key(name),
            "expected {name} to be pre-registered for E1001 collision detection"
        );
        match program.functions.get(name) {
            Some(declaration) => assert!(is_builtin_function(declaration)),
            None => panic!("{name} must be registered"),
        }
    }
}
