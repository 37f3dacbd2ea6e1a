//! Diagnostics and the fail-soft result type shared by every pass: a pass
//! either aborts on a fatal problem or returns a usable result together with
//! the issues it recorded along the way.

use vstd::prelude::*;
use vstd::string::StringExecFns;
use crate::ast::Span;

verus! {

/// How bad a diagnostic is: `Fatal` aborts the whole compilation, `Error` is
/// recorded and compilation continues best-effort, `Note` annotates an error.
#[derive(Clone, Copy, Debug, PartialEq, Eq, Structural)]
pub enum Severity {
    Fatal,
    Error,
    Note,
}

/// One reported issue: a severity, a primary location and message, and for
/// duplicate reports the location and message of the previous definition.
#[derive(Clone, Debug, PartialEq, Eq)]
pub struct Diagnostic {
    pub severity: Severity,
    pub span: Span,
    pub message: String,
    pub previous: Option<(Span, String)>,
}

impl Diagnostic {
    pub fn error(span: Span, message: String) -> (d: Diagnostic)
        ensures
            d == (Diagnostic { severity: Severity::Error, span, message, previous: None }),
    {
        Diagnostic { severity: Severity::Error, span, message, previous: None }
    }

    pub fn fatal(span: Span, message: String) -> (d: Diagnostic)
        ensures
            d == (Diagnostic { severity: Severity::Fatal, span, message, previous: None }),
    {
        Diagnostic { severity: Severity::Fatal, span, message, previous: None }
    }
}

/// The outcome of a non-aborting pass: `Value` is a clean result, `Fake` is a
/// best-effort result whose problems were recorded in the diagnostics sink.
#[derive(Clone, Debug, PartialEq, Eq)]
pub enum Partial<T> {
    Value(T),
    Fake(T),
}

impl<T> Partial<T> {
    /// The carried result, clean or degraded.
    pub open spec fn spec_get(self) -> T {
        match self {
            Partial::Value(v) => v,
            Partial::Fake(v) => v,
        }
    }

    pub fn get(self) -> (r: T)
        ensures
            r == self.spec_get(),
    {
        match self {
            Partial::Value(v) => v,
            Partial::Fake(v) => v,
        }
    }
}

/// The three parts laid end to end.
pub fn concat3(a: &str, b: &str, c: &str) -> (r: String)
    ensures
        r@ == a@ + b@ + c@,
{
    let mut r = a.to_owned();
    r.append(b);
    r.append(c);
    r
}

} // verus!
