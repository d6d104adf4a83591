//! Methods of `Result` and `Option`.
//!
//! A method that takes a function of the program takes it as a Rust function from arguments to
//! a result; an abort of the function is passed on as it is.

use super::collections::{call1, callable, came_to, outcome, returns_bool};
use super::{err_v, err_value, none_v, none_value, ok_v, ok_value, some_v, some_value};
use crate::diagnostics::{DiagnosticView, Span};
use crate::eval::value::{
    bool_value, copy_values, lemma_value_view, values_view, EnumInstance, Value, ValueV,
};
use crate::eval::{unwrap_failed, unwrap_failed_view, Abort};
use crate::text::{join2, same_text};
use vstd::prelude::*;
use vstd::string::*;

verus! {

/// An instance is of a variant.
pub open spec fn is_of(e: EnumInstance, name: Seq<char>) -> bool {
    e.variant_name@ == name
}

/// What a variant holds.
pub open spec fn held(e: EnumInstance) -> ValueV {
    values_view(e.fields@)[0]
}

/// The message that an error value carries: the second field of its struct.
pub open spec fn message_in(v: ValueV) -> Seq<char> {
    match v {
        ValueV::Struct { ty_name, fields } => match fields[1] {
            ValueV::Str(s) if fields.len() >= 2 => s,
            _ => Seq::empty(),
        },
        _ => Seq::empty(),
    }
}

fn error_message_of(v: &Value) -> (r: String)
    ensures
        r@ == message_in(v@),
{
    proof {
        lemma_value_view(*v);
    }
    if let Value::Struct(s) = v {
        if s.fields.len() >= 2 {
            proof {
                lemma_value_view(s.fields@[1]);
            }
            if let Value::Str(text) = &s.fields[1] {
                return text.clone();
            }
        }
    }
    let none = String::new();
    assert(none@ =~= Seq::empty());
    none
}

fn is_variant(e: &EnumInstance, name: &str) -> (r: bool)
    ensures
        r == is_of(*e, name@),
{
    same_text(e.variant_name.as_str(), name)
}

/// The same instance, as a value.
fn passthrough(e: &EnumInstance) -> (r: Value)
    ensures
        r@ == e@,
{
    let r = Value::Enum(
        EnumInstance {
            ty_name: e.ty_name.clone(),
            variant_index: e.variant_index,
            variant_name: e.variant_name.clone(),
            fields: copy_values(&e.fields),
        },
    );
    proof {
        lemma_value_view(r);
    }
    r
}

fn content(e: &EnumInstance) -> (r: Value)
    requires
        e.fields@.len() > 0,
    ensures
        r@ == held(*e),
{
    e.fields[0].copy()
}

/// A call whose value is then wrapped.
pub open spec fn wrapped(
    c: Result<ValueV, DiagnosticView>,
    wrap: spec_fn(ValueV) -> ValueV,
) -> Result<ValueV, DiagnosticView> {
    match c {
        Ok(v) => Ok(wrap(v)),
        Err(a) => Err(a),
    }
}

// ---------------------------------------------------------------------------
// Result
// ---------------------------------------------------------------------------

/// `is_ok`: whether the value is `Ok`.
pub fn is_ok(self_: &EnumInstance) -> (r: Value)
    ensures
        r@ == ValueV::Bool(is_of(*self_, "Ok"@)),
{
    bool_value(is_variant(self_, "Ok"))
}

/// `is_err`: whether the value is `Err`.
pub fn is_err(self_: &EnumInstance) -> (r: Value)
    ensures
        r@ == ValueV::Bool(is_of(*self_, "Err"@)),
{
    bool_value(is_variant(self_, "Err"))
}

/// `ok`: what `Ok` holds, as an option.
pub fn result_ok(self_: &EnumInstance) -> (r: Value)
    requires
        is_of(*self_, "Ok"@) ==> self_.fields@.len() > 0,
    ensures
        r@ == (if is_of(*self_, "Ok"@) {
            some_v(held(*self_))
        } else {
            none_v()
        }),
{
    if is_variant(self_, "Ok") {
        some_value(content(self_))
    } else {
        none_value()
    }
}

/// `err`: what `Err` holds, as an option.
pub fn result_err(self_: &EnumInstance) -> (r: Value)
    requires
        is_of(*self_, "Err"@) ==> self_.fields@.len() > 0,
    ensures
        r@ == (if is_of(*self_, "Err"@) {
            some_v(held(*self_))
        } else {
            none_v()
        }),
{
    if is_variant(self_, "Err") {
        some_value(content(self_))
    } else {
        none_value()
    }
}

/// `unwrap`: what `Ok` holds; on `Err` the run is aborted with the message of the error.
pub fn result_unwrap(self_: &EnumInstance, span: Span) -> (r: Result<Value, Abort>)
    requires
        self_.fields@.len() > 0,
    ensures
        outcome(r) == (if is_of(*self_, "Ok"@) {
            Ok::<ValueV, DiagnosticView>(held(*self_))
        } else {
            Err(
                unwrap_failed_view(
                    span,
                    "called unwrap() on an Err value: "@ + message_in(held(*self_)),
                ),
            )
        }),
{
    if is_variant(self_, "Ok") {
        Ok(content(self_))
    } else {
        let message = error_message_of(&self_.fields[0]);
        let text = join2("called unwrap() on an Err value: ", message.as_str());
        Err(unwrap_failed(span, text.as_str()))
    }
}

/// `unwrap_or`: what the value holds, or the default.
pub fn result_unwrap_or(self_: &EnumInstance, default: Value) -> (r: Value)
    requires
        is_of(*self_, "Ok"@) ==> self_.fields@.len() > 0,
    ensures
        r@ == (if is_of(*self_, "Ok"@) {
            held(*self_)
        } else {
            default@
        }),
{
    if is_variant(self_, "Ok") {
        content(self_)
    } else {
        default
    }
}

/// `unwrap_or_else`: what `Ok` holds, or what the function makes of the error.
pub fn result_unwrap_or_else<F: Fn(Vec<Value>) -> Result<Value, Abort>>(
    self_: &EnumInstance,
    f: F,
) -> (r: Result<Value, Abort>)
    requires
        callable(f),
        self_.fields@.len() > 0,
    ensures
        if is_of(*self_, "Ok"@) {
            outcome(r) == Ok::<ValueV, DiagnosticView>(held(*self_))
        } else {
            came_to(f, seq![held(*self_)], outcome(r))
        },
{
    if is_variant(self_, "Ok") {
        Ok(content(self_))
    } else {
        call1(&f, &self_.fields[0])
    }
}

/// `map`: `Ok` of what the function makes of what `Ok` holds; another value stays as it is.
pub fn result_map<F: Fn(Vec<Value>) -> Result<Value, Abort>>(self_: &EnumInstance, f: F) -> (r: Result<
    Value,
    Abort,
>)
    requires
        callable(f),
        is_of(*self_, "Ok"@) ==> self_.fields@.len() > 0,
    ensures
        if is_of(*self_, "Ok"@) {
            exists|c: Result<ValueV, DiagnosticView>| #[trigger]
                came_to(f, seq![held(*self_)], c) && outcome(r) == wrapped(
                    c,
                    |v: ValueV| ok_v(v),
                )
        } else {
            outcome(r) == Ok::<ValueV, DiagnosticView>(self_@)
        },
{
    if is_variant(self_, "Ok") {
        let c = call1(&f, &self_.fields[0]);
        let ghost came = outcome(c);
        assert(came_to(f, seq![held(*self_)], came));
        match c {
            Ok(v) => Ok(ok_value(v)),
            Err(a) => Err(a),
        }
    } else {
        Ok(passthrough(self_))
    }
}

/// `map_err`: `Err` of what the function makes of the error; another value stays as it is.
pub fn result_map_err<F: Fn(Vec<Value>) -> Result<Value, Abort>>(self_: &EnumInstance, f: F) -> (r: Result<
    Value,
    Abort,
>)
    requires
        callable(f),
        is_of(*self_, "Err"@) ==> self_.fields@.len() > 0,
    ensures
        if is_of(*self_, "Err"@) {
            exists|c: Result<ValueV, DiagnosticView>| #[trigger]
                came_to(f, seq![held(*self_)], c) && outcome(r) == wrapped(
                    c,
                    |v: ValueV| err_v(v),
                )
        } else {
            outcome(r) == Ok::<ValueV, DiagnosticView>(self_@)
        },
{
    if is_variant(self_, "Err") {
        let c = call1(&f, &self_.fields[0]);
        let ghost came = outcome(c);
        assert(came_to(f, seq![held(*self_)], came));
        match c {
            Ok(v) => Ok(err_value(v)),
            Err(a) => Err(a),
        }
    } else {
        Ok(passthrough(self_))
    }
}

/// `and_then`: what the function makes of what the value holds; another value stays as it is.
pub fn result_and_then<F: Fn(Vec<Value>) -> Result<Value, Abort>>(self_: &EnumInstance, f: F) -> (r: Result<
    Value,
    Abort,
>)
    requires
        callable(f),
        is_of(*self_, "Ok"@) ==> self_.fields@.len() > 0,
    ensures
        if is_of(*self_, "Ok"@) {
            came_to(f, seq![held(*self_)], outcome(r))
        } else {
            outcome(r) == Ok::<ValueV, DiagnosticView>(self_@)
        },
{
    if is_variant(self_, "Ok") {
        call1(&f, &self_.fields[0])
    } else {
        Ok(passthrough(self_))
    }
}

// ---------------------------------------------------------------------------
// Option
// ---------------------------------------------------------------------------

/// `is_some`: whether the value is `Some`.
pub fn is_some(self_: &EnumInstance) -> (r: Value)
    ensures
        r@ == ValueV::Bool(is_of(*self_, "Some"@)),
{
    bool_value(is_variant(self_, "Some"))
}

/// `is_none`: whether the value is `None`.
pub fn is_none(self_: &EnumInstance) -> (r: Value)
    ensures
        r@ == ValueV::Bool(is_of(*self_, "None"@)),
{
    bool_value(is_variant(self_, "None"))
}

/// `unwrap`: what `Some` holds; on `None` the run is aborted.
pub fn option_unwrap(self_: &EnumInstance, span: Span) -> (r: Result<Value, Abort>)
    requires
        is_of(*self_, "Some"@) ==> self_.fields@.len() > 0,
    ensures
        outcome(r) == (if is_of(*self_, "Some"@) {
            Ok::<ValueV, DiagnosticView>(held(*self_))
        } else {
            Err(unwrap_failed_view(span, "called unwrap() on a None value"@))
        }),
{
    if is_variant(self_, "Some") {
        Ok(content(self_))
    } else {
        Err(unwrap_failed(span, "called unwrap() on a None value"))
    }
}

/// `unwrap_or`: what the value holds, or the default.
pub fn option_unwrap_or(self_: &EnumInstance, default: Value) -> (r: Value)
    requires
        is_of(*self_, "Some"@) ==> self_.fields@.len() > 0,
    ensures
        r@ == (if is_of(*self_, "Some"@) {
            held(*self_)
        } else {
            default@
        }),
{
    if is_variant(self_, "Some") {
        content(self_)
    } else {
        default
    }
}

/// `unwrap_or_else`: what `Some` holds, or what the function gives without arguments.
pub fn option_unwrap_or_else<F: Fn(Vec<Value>) -> Result<Value, Abort>>(
    self_: &EnumInstance,
    f: F,
) -> (r: Result<Value, Abort>)
    requires
        callable(f),
        is_of(*self_, "Some"@) ==> self_.fields@.len() > 0,
    ensures
        if is_of(*self_, "Some"@) {
            outcome(r) == Ok::<ValueV, DiagnosticView>(held(*self_))
        } else {
            came_to(f, Seq::empty(), outcome(r))
        },
{
    if is_variant(self_, "Some") {
        Ok(content(self_))
    } else {
        let args: Vec<Value> = Vec::new();
        assert(values_view(args@) =~= Seq::empty());
        let r = f(args);
        assert(call_ensures(f, (args,), r));
        r
    }
}

/// `map`: `Some` of what the function makes of what `Some` holds; `None` stays as it is.
pub fn option_map<F: Fn(Vec<Value>) -> Result<Value, Abort>>(self_: &EnumInstance, f: F) -> (r: Result<
    Value,
    Abort,
>)
    requires
        callable(f),
        is_of(*self_, "Some"@) ==> self_.fields@.len() > 0,
    ensures
        if is_of(*self_, "Some"@) {
            exists|c: Result<ValueV, DiagnosticView>| #[trigger]
                came_to(f, seq![held(*self_)], c) && outcome(r) == wrapped(
                    c,
                    |v: ValueV| some_v(v),
                )
        } else {
            outcome(r) == Ok::<ValueV, DiagnosticView>(self_@)
        },
{
    if is_variant(self_, "Some") {
        let c = call1(&f, &self_.fields[0]);
        let ghost came = outcome(c);
        assert(came_to(f, seq![held(*self_)], came));
        match c {
            Ok(v) => Ok(some_value(v)),
            Err(a) => Err(a),
        }
    } else {
        Ok(passthrough(self_))
    }
}

/// `and_then`: what the function makes of what the value holds; another value stays as it is.
pub fn option_and_then<F: Fn(Vec<Value>) -> Result<Value, Abort>>(self_: &EnumInstance, f: F) -> (r: Result<
    Value,
    Abort,
>)
    requires
        callable(f),
        is_of(*self_, "Some"@) ==> self_.fields@.len() > 0,
    ensures
        if is_of(*self_, "Some"@) {
            came_to(f, seq![held(*self_)], outcome(r))
        } else {
            outcome(r) == Ok::<ValueV, DiagnosticView>(self_@)
        },
{
    if is_variant(self_, "Some") {
        call1(&f, &self_.fields[0])
    } else {
        Ok(passthrough(self_))
    }
}

/// What `filter` makes of an answer.
pub open spec fn sifted(
    c: Result<ValueV, DiagnosticView>,
    kept: ValueV,
) -> Result<ValueV, DiagnosticView> {
    match c {
        Ok(v) => Ok(
            if v == ValueV::Bool(true) {
                kept
            } else {
                none_v()
            },
        ),
        Err(a) => Err(a),
    }
}

/// `filter`: the value itself where the function answers true of what `Some` holds, and `None`
/// otherwise.
pub fn option_filter<F: Fn(Vec<Value>) -> Result<Value, Abort>>(self_: &EnumInstance, f: F) -> (r:
    Result<Value, Abort>)
    requires
        callable(f),
        returns_bool(f),
        is_of(*self_, "Some"@) ==> self_.fields@.len() > 0,
    ensures
        if is_of(*self_, "Some"@) {
            exists|c: Result<ValueV, DiagnosticView>| #[trigger]
                came_to(f, seq![held(*self_)], c) && outcome(r) == sifted(c, self_@)
        } else {
            outcome(r) == Ok::<ValueV, DiagnosticView>(none_v())
        },
{
    if !is_variant(self_, "Some") {
        return Ok(none_value());
    }
    let c = call1(&f, &self_.fields[0]);
    let ghost came = outcome(c);
    assert(came_to(f, seq![held(*self_)], came));
    match c {
        Ok(v) => {
            proof {
                lemma_value_view(v);
            }
            match v {
                Value::Bool(true) => Ok(passthrough(self_)),
                _ => Ok(none_value()),
            }
        },
        Err(a) => Err(a),
    }
}

/// `ok_or`: `Ok` of what `Some` holds, or `Err` of the error.
pub fn option_ok_or(self_: &EnumInstance, err: Value) -> (r: Value)
    requires
        is_of(*self_, "Some"@) ==> self_.fields@.len() > 0,
    ensures
        r@ == (if is_of(*self_, "Some"@) {
            ok_v(held(*self_))
        } else {
            err_v(err@)
        }),
{
    if is_variant(self_, "Some") {
        ok_value(content(self_))
    } else {
        err_value(err)
    }
}

} // verus!
