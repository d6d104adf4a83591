//! `print`, `eprint` and `assert`.

use super::collections::outcome;
use super::codec::dynamic::has_char;
use crate::diagnostics::{DiagnosticView, Span};
use crate::eval::value::{lemma_value_view, void_value, Value, ValueV};
use crate::eval::{assert_failed, assert_failed_view, Abort};
use crate::numerals::is_digit;
use crate::text::{chars_of, int_text, int_to_text, join2};
use vstd::prelude::*;
use vstd::string::*;

verus! {

/// Only digits and signs.
pub open spec fn is_whole(x: Seq<char>) -> bool {
    forall|i: int| 0 <= i < x.len() ==> is_digit(#[trigger] x[i]) || x[i] == '-'
}

/// How a float is shown: whole numbers have a fraction, too.
pub open spec fn shown_float(x: Seq<char>) -> Seq<char> {
    if !x.contains('.') && !x.contains('e') && !x.contains('E') && is_whole(x) {
        x + ".0"@
    } else {
        x
    }
}

/// How a float with the spelling `x` is shown.
pub fn format_float(x: &str) -> (r: String)
    ensures
        r@ == shown_float(x@),
{
    if has_char(x, '.') || has_char(x, 'e') || has_char(x, 'E') {
        return x.to_owned();
    }
    let v = chars_of(x);
    let mut i: usize = 0;
    while i < v.len()
        invariant
            v@ == x@,
            i <= v@.len(),
            forall|j: int| 0 <= j < i ==> is_digit(#[trigger] v@[j]) || v@[j] == '-',
        decreases v@.len() - i,
    {
        let c = v[i];
        if !(('0' <= c && c <= '9') || c == '-') {
            assert(!(is_digit(x@[i as int]) || x@[i as int] == '-'));
            return x.to_owned();
        }
        i = i + 1;
    }
    join2(x, ".0")
}

/// A value that can be printed.
pub open spec fn is_printable(v: ValueV) -> bool {
    v is Str || v is Int || v is Float || v is Bool
}

/// How a value is printed.
pub open spec fn shown(v: ValueV) -> Seq<char> {
    match v {
        ValueV::Str(s) => s,
        ValueV::Int(n) => int_text(n as int),
        ValueV::Float(x) => shown_float(x),
        ValueV::Bool(b) => if b {
            "true"@
        } else {
            "false"@
        },
        _ => Seq::empty(),
    }
}

/// The line that `print` and `eprint` write for a value, without its end.
pub fn display_primitive(value: &Value) -> (r: String)
    requires
        is_printable(value@),
    ensures
        r@ == shown(value@),
{
    proof {
        lemma_value_view(*value);
    }
    match value {
        Value::Str(s) => s.clone(),
        Value::Int(n) => int_to_text(*n),
        Value::Float(x) => format_float(x.as_str()),
        Value::Bool(b) => {
            if *b {
                "true".to_owned()
            } else {
                "false".to_owned()
            }
        },
        _ => String::new(),
    }
}

/// What an assertion comes to: nothing, or the end of the run with a message.
pub open spec fn asserted(cond: bool, message: Seq<char>, span: Span) -> Result<
    ValueV,
    DiagnosticView,
> {
    if cond {
        Ok(ValueV::Void)
    } else {
        Err(assert_failed_view(span, message))
    }
}

/// `assert`: aborts the run where the condition fails, with the source text of the condition.
pub fn assert_bare(cond: bool, source_text: &str, span: Span) -> (r: Result<Value, Abort>)
    ensures
        outcome(r) == asserted(cond, source_text@, span),
{
    if cond {
        Ok(void_value())
    } else {
        Err(assert_failed(span, source_text))
    }
}

/// `assert` with a message: aborts the run where the condition fails, with that message.
pub fn assert_with_message(cond: bool, msg: &str, span: Span) -> (r: Result<Value, Abort>)
    ensures
        outcome(r) == asserted(cond, msg@, span),
{
    if cond {
        Ok(void_value())
    } else {
        Err(assert_failed(span, msg))
    }
}

} // verus!
