//! Diagnostics reported by the parser: a severity, a message and a source span.

use vstd::prelude::*;

verus! {

/// How serious a diagnostic is.
#[derive(Debug, Clone, Copy, PartialEq, Eq, Structural)]
pub enum Severity {
    Error,
    Warning,
}

/// A region of the source text.
#[derive(Debug, Clone, Copy, PartialEq, Eq, Structural)]
pub struct Span {
    /// 1-based line number.
    pub line: usize,
    /// 1-based column number.
    pub column: usize,
    /// Length in characters, at least 1.
    pub len: usize,
}

/// The larger of `n` and 1.
pub open spec fn at_least_one(n: usize) -> usize {
    if n < 1 {
        1
    } else {
        n
    }
}

impl Span {
    /// Whether line, column and length are all at least 1.
    pub open spec fn well_formed(&self) -> bool {
        self.line >= 1 && self.column >= 1 && self.len >= 1
    }

    /// The span at `line`, `column` of length `len`, each raised to 1 where it is 0.
    pub fn new(line: usize, column: usize, len: usize) -> (r: Span)
        ensures
            r.line == at_least_one(line),
            r.column == at_least_one(column),
            r.len == at_least_one(len),
            r.well_formed(),
    {
        Span {
            line: if line < 1 { 1 } else { line },
            column: if column < 1 { 1 } else { column },
            len: if len < 1 { 1 } else { len },
        }
    }
}

/// A message about a place in the source.
#[derive(Debug, PartialEq, Eq)]
pub struct Diagnostic {
    pub severity: Severity,
    pub message: String,
    pub span: Span,
}

/// What a diagnostic is.
pub struct DiagnosticView {
    pub severity: Severity,
    pub message: Seq<char>,
    pub span: Span,
}

impl View for Diagnostic {
    type V = DiagnosticView;

    open spec fn view(&self) -> DiagnosticView {
        DiagnosticView { severity: self.severity, message: self.message@, span: self.span }
    }
}

/// The views of a list of diagnostics.
pub open spec fn diagnostics_model(items: Seq<Diagnostic>) -> Seq<DiagnosticView> {
    Seq::new(items.len(), |i: int| items[i]@)
}

impl Clone for Diagnostic {
    fn clone(&self) -> (r: Diagnostic)
        ensures
            r@ == self@,
    {
        Diagnostic { severity: self.severity, message: self.message.clone(), span: self.span }
    }
}

impl Diagnostic {
    /// An error with the given message and span.
    pub fn error(message: String, span: Span) -> (r: Diagnostic)
        ensures
            r.severity == Severity::Error,
            r.message == message,
            r.span == span,
    {
        Diagnostic { severity: Severity::Error, message, span }
    }

    /// A warning with the given message and span.
    pub fn warning(message: String, span: Span) -> (r: Diagnostic)
        ensures
            r.severity == Severity::Warning,
            r.message == message,
            r.span == span,
    {
        Diagnostic { severity: Severity::Warning, message, span }
    }
}

} // verus!
