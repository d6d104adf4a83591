//! Runtime values, and how a run is aborted.

pub mod env;
pub mod keys;
pub mod value;

use crate::diagnostics::{Diagnostic, DiagnosticView, ErrorCode, Span};
use crate::text::join2;
use vstd::prelude::*;

verus! {

/// The end of a run, with the diagnostic that explains it.
#[derive(Clone, Debug, PartialEq, Eq)]
pub struct Abort(pub Diagnostic);

impl Abort {
    pub open spec fn view(&self) -> DiagnosticView {
        self.0.view()
    }
}

fn abort(code: ErrorCode, span: Span, message: String) -> (r: Abort)
    ensures
        r@ == (DiagnosticView { code, span, message: message@ }),
{
    Abort(Diagnostic { code, span, message })
}

/// What an access outside a collection is answered.
pub open spec fn out_of_range_view(span: Span, what: Seq<char>) -> DiagnosticView {
    DiagnosticView { code: ErrorCode::IndexOutOfRange, span, message: what + " out of range"@ }
}

pub fn out_of_range(span: Span, what: &str) -> (r: Abort)
    ensures
        r@ == out_of_range_view(span, what@),
{
    abort(ErrorCode::IndexOutOfRange, span, join2(what, " out of range"))
}

/// What an integer overflow is answered.
pub open spec fn overflow_view(span: Span) -> DiagnosticView {
    DiagnosticView { code: ErrorCode::IntegerOverflow, span, message: "integer overflow"@ }
}

pub fn overflow(span: Span) -> (r: Abort)
    ensures
        r@ == overflow_view(span),
{
    abort(ErrorCode::IntegerOverflow, span, "integer overflow".to_owned())
}

/// What an `unwrap` of nothing is answered.
pub open spec fn unwrap_failed_view(span: Span, message: Seq<char>) -> DiagnosticView {
    DiagnosticView { code: ErrorCode::UnwrapFailed, span, message }
}

pub fn unwrap_failed(span: Span, message: &str) -> (r: Abort)
    ensures
        r@ == unwrap_failed_view(span, message@),
{
    abort(ErrorCode::UnwrapFailed, span, message.to_owned())
}

/// What a failed assertion is answered.
pub open spec fn assert_failed_view(span: Span, message: Seq<char>) -> DiagnosticView {
    DiagnosticView { code: ErrorCode::AssertFailed, span, message: "assertion failed: "@ + message }
}

pub fn assert_failed(span: Span, message: &str) -> (r: Abort)
    ensures
        r@ == assert_failed_view(span, message@),
{
    abort(ErrorCode::AssertFailed, span, join2("assertion failed: ", message))
}

} // verus!
