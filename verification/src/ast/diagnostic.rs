//! Diagnostics shared by the command line and the language server.

use vstd::prelude::*;

use crate::ast::span::Span;

verus! {

/// How serious a diagnostic is.
#[derive(Debug, Clone, Copy, PartialEq, Eq, Structural)]
pub enum Severity {
    Error,
    Warning,
    Info,
    Hint,
}

/// A diagnostic raised by the lexer, the parser or the code generator.
#[derive(Debug, PartialEq, Eq)]
pub struct Diagnostic {
    pub span: Span,
    pub severity: Severity,
    pub message: String,
    /// An optional error code such as `"E0042"`.
    pub code: Option<String>,
}

impl Diagnostic {
    pub fn new(span: Span, severity: Severity, message: String) -> (d: Diagnostic)
        ensures
            d.span == span,
            d.severity == severity,
            d.message@ == message@,
            d.code is None,
    {
        Diagnostic { span, severity, message, code: None }
    }

    pub fn with_code(self, code: String) -> (d: Diagnostic)
        ensures
            d.span == self.span,
            d.severity == self.severity,
            d.message == self.message,
            d.code == Some(code),
    {
        Diagnostic { span: self.span, severity: self.severity, message: self.message, code: Some(code) }
    }
}

impl Clone for Diagnostic {
    fn clone(&self) -> (r: Self)
        ensures
            r == *self,
    {
        let code = match &self.code {
            Some(c) => Some(c.clone()),
            None => None,
        };
        Diagnostic { span: self.span, severity: self.severity, message: self.message.clone(), code }
    }
}

} // verus!
