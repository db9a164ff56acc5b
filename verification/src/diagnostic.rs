//! Diagnostics of the Robine language tools.

use vstd::prelude::*;

verus! {

/// A byte range of a source text.
#[derive(Clone, Copy, Debug, Default, PartialEq, Eq, Structural)]
pub struct Span {
    pub start: usize,
    pub end: usize,
}

impl Span {
    /// The range `start..end`.
    pub fn new(start: usize, end: usize) -> (s: Span)
        ensures
            s == (Span { start, end }),
    {
        Span { start, end }
    }

    /// The empty range at the start of the text.
    pub fn empty() -> (s: Span)
        ensures
            s == (Span { start: 0, end: 0 }),
    {
        Span { start: 0, end: 0 }
    }

    /// Whether a cursor at `offset` touches this range (its end included).
    pub open spec fn spec_contains(self, offset: usize) -> bool {
        self.start <= offset && offset <= self.end
    }

    /// Whether a cursor at `offset` touches this range (its end included).
    pub fn contains(&self, offset: usize) -> (r: bool)
        ensures
            r == self.spec_contains(offset),
    {
        self.start <= offset && offset <= self.end
    }
}

/// How serious a diagnostic is.
#[derive(Clone, Copy, Debug, PartialEq, Eq, Structural)]
pub enum DiagnosticSeverity {
    Error,
    Warning,
}

/// A finding of the language tools: a stable `RBN` code, a message and the
/// byte range it is about.
#[derive(Debug, PartialEq, Eq)]
pub struct Diagnostic {
    pub code: &'static str,
    pub message: String,
    pub span: Span,
    pub severity: DiagnosticSeverity,
}

/// The value of a [`Diagnostic`].
pub struct DiagnosticV {
    pub code: Seq<char>,
    pub message: Seq<char>,
    pub span: Span,
    pub severity: DiagnosticSeverity,
}

impl View for Diagnostic {
    type V = DiagnosticV;

    open spec fn view(&self) -> DiagnosticV {
        DiagnosticV { code: self.code@, message: self.message@, span: self.span, severity: self.severity }
    }
}

/// An error value.
pub open spec fn err_v(code: Seq<char>, message: Seq<char>, span: Span) -> DiagnosticV {
    DiagnosticV { code, message, span, severity: DiagnosticSeverity::Error }
}

/// The values of a sequence of diagnostics.
pub open spec fn diagnostics_view(ds: Seq<Diagnostic>) -> Seq<DiagnosticV> {
    Seq::new(ds.len(), |i: int| ds[i]@)
}

impl Diagnostic {
    /// An error diagnostic.
    pub fn error(code: &'static str, message: String, span: Span) -> (d: Diagnostic)
        ensures
            d@ == err_v(code@, message@, span),
    {
        Diagnostic { code, message, span, severity: DiagnosticSeverity::Error }
    }

    /// A copy of this diagnostic.
    pub fn duplicate(&self) -> (d: Diagnostic)
        ensures
            d@ == self@,
    {
        Diagnostic { code: self.code, message: self.message.clone(), span: self.span, severity: self.severity }
    }
}

/// A copy of some diagnostics.
pub fn duplicate_all(ds: &Vec<Diagnostic>) -> (r: Vec<Diagnostic>)
    ensures
        diagnostics_view(r@) == diagnostics_view(ds@),
{
    let mut r: Vec<Diagnostic> = Vec::new();
    let mut i: usize = 0;
    while i < ds.len()
        invariant
            i <= ds@.len(),
            r@.len() == i,
            forall|j: int| 0 <= j < i ==> #[trigger] r@[j]@ == ds@[j]@,
        decreases ds@.len() - i,
    {
        r.push(ds[i].duplicate());
        i = i + 1;
    }
    assert(diagnostics_view(r@) =~= diagnostics_view(ds@));
    r
}

} // verus!
