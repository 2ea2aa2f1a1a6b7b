//! The diagnostic record that lint rules produce.
//!
//! Every rule reports its findings as [`Lint`] values: a stable rule name, a
//! severity, a human-readable description and, where the finding points at a
//! place in the source, the byte range of that place.

use vstd::prelude::*;

verus! {

/// How serious a finding is.
#[derive(Debug, Clone, Copy, PartialEq, Eq, Structural)]
pub enum Severity {
    /// A non-critical issue that may require attention.
    Warning,
    /// A serious issue that could lead to incorrect behavior.
    Error,
}

/// A half-open range of byte offsets into the analyzed source.
#[derive(Debug, Clone, Copy, PartialEq, Eq, Structural)]
pub struct Span {
    start: u32,
    end: u32,
}

impl Span {
    /// The offset of the first byte of the range.
    pub closed spec fn spec_start(&self) -> u32 {
        self.start
    }

    /// The offset one past the last byte of the range.
    pub closed spec fn spec_end(&self) -> u32 {
        self.end
    }

    /// Builds the span that covers the bytes from `start` up to, but not
    /// including, `end`.
    pub fn from_range(start: u32, end: u32) -> (span: Span)
        ensures
            span.start() == start,
            span.end() == end,
    {
        Span { start, end }
    }

    /// The offset of the first byte of the range.
    #[verifier::when_used_as_spec(spec_start)]
    pub fn start(&self) -> (s: u32)
        ensures
            s == self.start(),
    {
        self.start
    }

    /// The offset one past the last byte of the range.
    #[verifier::when_used_as_spec(spec_end)]
    pub fn end(&self) -> (e: u32)
        ensures
            e == self.end(),
    {
        self.end
    }
}

/// One diagnostic finding.
#[derive(Debug, Clone, PartialEq)]
pub struct Lint {
    /// Stable identifier of the rule that produced the finding.
    pub name: &'static str,
    /// Severity level of the finding.
    pub severity: Severity,
    /// Human-readable description of the issue.
    pub description: String,
    /// Where in the source the finding applies, if anywhere.
    pub span: Option<Span>,
}

/// The mathematical content of a [`Lint`]: its texts as character sequences.
pub struct LintView {
    pub name: Seq<char>,
    pub severity: Severity,
    pub description: Seq<char>,
    pub span: Option<Span>,
}

impl View for Lint {
    type V = LintView;

    open spec fn view(&self) -> LintView {
        LintView {
            name: self.name@,
            severity: self.severity,
            description: self.description@,
            span: self.span,
        }
    }
}

/// The views of a sequence of lints, in the same order.
pub open spec fn lint_views(lints: Seq<Lint>) -> Seq<LintView> {
    lints.map_values(|lint: Lint| lint@)
}

} // verus!
