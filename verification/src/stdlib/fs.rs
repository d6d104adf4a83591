//! The `fs` namespace: what the program sees of an operation on files.
//!
//! An operation gives what it read, or the message of its failure.

use super::{
    err_v, err_value, error_v, error_value, ok_v, ok_value, option_v, option_value, strs_v,
    strs_value,
};
use crate::eval::value::{
    bool_value, int_value, list_value, str_value, values_view, Value, ValueV,
};
use crate::text::texts;
use vstd::prelude::*;
use vstd::string::*;

verus! {

/// The error that a failure is answered with.
pub open spec fn fs_error_v(message: Seq<char>) -> ValueV {
    error_v("fs"@, message)
}

fn fs_error(message: String) -> (r: Value)
    ensures
        r@ == fs_error_v(message@),
{
    error_value("fs", message)
}

/// `read`: the text of a file.
pub fn read(result: Result<String, String>) -> (r: Value)
    ensures
        r@ == (match result {
            Ok(text) => ok_v(ValueV::Str(text@)),
            Err(m) => err_v(fs_error_v(m@)),
        }),
{
    match result {
        Ok(text) => ok_value(str_value(text)),
        Err(m) => err_value(fs_error(m)),
    }
}

/// Bytes as a list of integers.
pub open spec fn bytes_v(bytes: Seq<u8>) -> ValueV {
    ValueV::List(Seq::new(bytes.len(), |i: int| ValueV::Int(bytes[i] as i64)))
}

/// Bytes as a list of integers.
pub fn bytes_value(bytes: &[u8]) -> (r: Value)
    ensures
        r@ == bytes_v(bytes@),
{
    let mut out: Vec<Value> = Vec::new();
    let mut i: usize = 0;
    while i < bytes.len()
        invariant
            i <= bytes@.len(),
            out@.len() == i,
            forall|j: int| 0 <= j < i ==> (#[trigger] out@[j])@ == ValueV::Int(bytes@[j] as i64),
        decreases bytes@.len() - i,
    {
        out.push(int_value(bytes[i] as i64));
        i = i + 1;
    }
    assert(values_view(out@) =~= bytes_v(bytes@)->List_0);
    list_value(out)
}

/// `read_bytes`: the bytes of a file.
pub fn read_bytes(result: Result<Vec<u8>, String>) -> (r: Value)
    ensures
        r@ == (match result {
            Ok(bytes) => ok_v(bytes_v(bytes@)),
            Err(m) => err_v(fs_error_v(m@)),
        }),
{
    match result {
        Ok(bytes) => ok_value(bytes_value(&bytes)),
        Err(m) => err_value(fs_error(m)),
    }
}

/// `write`, `append` and `remove`: nothing, or the error.
pub fn write(failure: Option<String>) -> (r: Value)
    ensures
        r@ == option_v(
            match failure {
                Some(m) => Some(fs_error_v(m@)),
                None => None,
            },
        ),
{
    match failure {
        Some(m) => option_value(Some(fs_error(m))),
        None => option_value(None),
    }
}

/// `list`: the paths of the entries of a directory.
pub fn list(result: Result<Vec<String>, String>) -> (r: Value)
    ensures
        r@ == (match result {
            Ok(names) => ok_v(strs_v(texts(names@))),
            Err(m) => err_v(fs_error_v(m@)),
        }),
{
    match result {
        Ok(names) => ok_value(strs_value(&names)),
        Err(m) => err_value(fs_error(m)),
    }
}

/// `exists`: whether there is something at a path.
pub fn exists_value(found: bool) -> (r: Value)
    ensures
        r@ == ValueV::Bool(found),
{
    bool_value(found)
}

} // verus!
