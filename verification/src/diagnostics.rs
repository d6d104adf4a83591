//! Source positions and the diagnostics that the phases report.

use vstd::prelude::*;

verus! {

/// Identifies one source file.
#[derive(Clone, Copy, Debug, PartialEq, Eq, Hash, Structural)]
pub struct FileId(pub u32);

/// A position in a source file; lines and columns count from one.
#[derive(Clone, Copy, Debug, PartialEq, Eq, Hash, Structural)]
pub struct Position {
    pub line: u32,
    pub col: u32,
}

/// A half-open range of one source file.
#[derive(Clone, Copy, Debug, PartialEq, Eq, Hash, Structural)]
pub struct Span {
    pub file: FileId,
    pub start: Position,
    pub end: Position,
}

/// What a diagnostic complains about.
#[derive(Clone, Copy, Debug, PartialEq, Eq, Hash, Structural)]
pub enum ErrorCode {
    /// General syntax error.
    UnexpectedToken,
    /// A pipe destination with arguments lacks a placeholder.
    PipePlaceholderMissing,
    /// A `module` directive is followed by more than a line end.
    ModuleDirectiveMalformed,
    /// A module file holds an executable statement at top level.
    ModuleTopLevelStatement,
    /// A name is defined twice in the flat namespace.
    DuplicateName,
    /// The type of a constant cannot be inferred.
    UninferableType,
    /// A set holds elements that cannot be keys.
    SetElementTypeNotAllowed,
    /// A dictionary has keys that cannot be keys.
    DictKeyTypeNotAllowed,
    /// The elements of a collection have different types.
    CollectionElementTypeMismatch,
    /// An index or a bound lies outside a collection.
    IndexOutOfRange,
    /// An arithmetic result does not fit its type.
    IntegerOverflow,
    /// `unwrap` of a value that holds nothing.
    UnwrapFailed,
    /// An assertion does not hold.
    AssertFailed,
}

/// One reported problem.
#[derive(Clone, Debug, PartialEq, Eq)]
pub struct Diagnostic {
    pub code: ErrorCode,
    pub span: Span,
    pub message: String,
}

/// What a diagnostic says.
pub ghost struct DiagnosticView {
    pub code: ErrorCode,
    pub span: Span,
    pub message: Seq<char>,
}

impl Diagnostic {
    pub open spec fn view(&self) -> DiagnosticView {
        DiagnosticView { code: self.code, span: self.span, message: self.message@ }
    }
}

/// The views of a sequence of diagnostics.
pub open spec fn diagnostics_view(v: Seq<Diagnostic>) -> Seq<DiagnosticView> {
    Seq::new(v.len(), |i: int| v[i].view())
}

/// Diagnostics in the order in which they were reported.
#[derive(Clone, Debug, PartialEq, Eq)]
pub struct DiagnosticBag {
    items: Vec<Diagnostic>,
}

impl DiagnosticBag {
    pub closed spec fn view(&self) -> Seq<DiagnosticView> {
        diagnostics_view(self.items@)
    }

    pub fn new() -> (r: DiagnosticBag)
        ensures
            r@ == Seq::<DiagnosticView>::empty(),
    {
        let r = DiagnosticBag { items: Vec::new() };
        assert(r@ =~= Seq::<DiagnosticView>::empty());
        r
    }

    pub fn push(&mut self, diagnostic: Diagnostic)
        ensures
            final(self)@ == old(self)@.push(diagnostic@),
    {
        self.items.push(diagnostic);
        assert(self@ =~= old(self)@.push(diagnostic@));
    }

    pub fn is_empty(&self) -> (r: bool)
        ensures
            r == (self@.len() == 0),
    {
        self.items.len() == 0
    }

    pub fn has_any(&self) -> (r: bool)
        ensures
            r == (self@.len() > 0),
    {
        self.items.len() > 0
    }

    pub fn into_vec(self) -> (r: Vec<Diagnostic>)
        ensures
            diagnostics_view(r@) == self@,
    {
        self.items
    }
}

} // verus!
