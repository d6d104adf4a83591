//! The standard library of the language, and the builders of the values that it shares.

pub mod builtins;
pub mod codec;
pub mod collections;
pub mod collections_laws;
pub mod envns;
pub mod float_laws;
pub mod fs;
pub mod http;
pub mod list_laws;
pub mod math;
pub mod order;
pub mod order_laws;
pub mod prelude;
pub mod primitives;
pub mod proc;
pub mod rand;
pub mod regexns;
pub mod result_option;

use crate::eval::value::{
    enum_value, list_value, str_value, struct_value, values_view, Value, ValueV,
};
use crate::text::texts;
use vstd::prelude::*;

verus! {

/// The namespaces that hold functions of the standard library.
#[derive(Clone, Copy, Debug, PartialEq, Eq, Hash, Structural)]
pub enum NamespaceId {
    Fs,
    Http,
    Env,
    Proc,
    Time,
    Rand,
    Regex,
    Math,
    Json,
    Csv,
    Yaml,
    Toml,
}

/// Names a function of the standard library that is used as a value.
#[derive(Clone, Copy, Debug, PartialEq, Eq, Hash)]
pub struct BuiltinFnId {
    pub namespace: Option<NamespaceId>,
    pub name: &'static str,
}

pub open spec fn some_v(v: ValueV) -> ValueV {
    ValueV::Enum {
        ty_name: "Option"@,
        variant_index: 0,
        variant_name: "Some"@,
        fields: seq![v],
    }
}

pub open spec fn none_v() -> ValueV {
    ValueV::Enum {
        ty_name: "Option"@,
        variant_index: 1,
        variant_name: "None"@,
        fields: Seq::empty(),
    }
}

pub open spec fn ok_v(v: ValueV) -> ValueV {
    ValueV::Enum { ty_name: "Result"@, variant_index: 0, variant_name: "Ok"@, fields: seq![v] }
}

pub open spec fn err_v(v: ValueV) -> ValueV {
    ValueV::Enum { ty_name: "Result"@, variant_index: 1, variant_name: "Err"@, fields: seq![v] }
}

/// An `Error` with no cause.
pub open spec fn error_v(kind: Seq<char>, message: Seq<char>) -> ValueV {
    ValueV::Struct {
        ty_name: "Error"@,
        fields: seq![ValueV::Str(kind), ValueV::Str(message), none_v()],
    }
}

/// `Some(v)` where there is a value, `None` where there is none.
pub open spec fn option_v(o: Option<ValueV>) -> ValueV {
    match o {
        Some(v) => some_v(v),
        None => none_v(),
    }
}

/// `Some(v)`.
pub fn some_value(v: Value) -> (r: Value)
    ensures
        r@ == some_v(v@),
{
    let fields = vec![v];
    assert(values_view(fields@) =~= seq![v@]);
    enum_value("Option", 0, "Some", fields)
}

/// `None`.
pub fn none_value() -> (r: Value)
    ensures
        r@ == none_v(),
{
    let fields: Vec<Value> = Vec::new();
    assert(values_view(fields@) =~= Seq::empty());
    enum_value("Option", 1, "None", fields)
}

/// `Ok(v)`.
pub fn ok_value(v: Value) -> (r: Value)
    ensures
        r@ == ok_v(v@),
{
    let fields = vec![v];
    assert(values_view(fields@) =~= seq![v@]);
    enum_value("Result", 0, "Ok", fields)
}

/// `Err(v)`.
pub fn err_value(v: Value) -> (r: Value)
    ensures
        r@ == err_v(v@),
{
    let fields = vec![v];
    assert(values_view(fields@) =~= seq![v@]);
    enum_value("Result", 1, "Err", fields)
}

/// `Error(kind, message, None)`.
pub fn error_value(kind: &str, message: String) -> (r: Value)
    ensures
        r@ == error_v(kind@, message@),
{
    let k = str_value(kind.to_owned());
    let m = str_value(message);
    let c = none_value();
    let fields = vec![k, m, c];
    assert(values_view(fields@) =~= seq![k@, m@, c@]);
    struct_value("Error", fields)
}

/// `Some(v)` where there is a value, `None` where there is none.
pub fn option_value(o: Option<Value>) -> (r: Value)
    ensures
        r@ == option_v(crate::eval::value::opt_value_view(o)),
{
    match o {
        Some(v) => some_value(v),
        None => none_value(),
    }
}

/// Texts as a list of values.
pub open spec fn strs_v(items: Seq<Seq<char>>) -> ValueV {
    ValueV::List(Seq::new(items.len(), |i: int| ValueV::Str(items[i])))
}

/// A list of texts.
pub fn strs_value(items: &Vec<String>) -> (r: Value)
    ensures
        r@ == strs_v(texts(items@)),
{
    let mut out: Vec<Value> = Vec::new();
    let mut i: usize = 0;
    while i < items.len()
        invariant
            i <= items@.len(),
            out@.len() == i,
            forall|j: int| 0 <= j < i ==> (#[trigger] out@[j])@ == ValueV::Str(items@[j]@),
        decreases items@.len() - i,
    {
        let v = str_value(items[i].clone());
        out.push(v);
        i = i + 1;
    }
    assert(values_view(out@) =~= strs_v(texts(items@))->List_0);
    list_value(out)
}

} // verus!
