//! Identifiers as written in the source.

use vstd::prelude::*;

use crate::ast::span::Span;

verus! {

/// An identifier (variable, constant, routine or program name) with the
/// spelling the source used.
#[derive(Debug, PartialEq, Eq)]
pub struct Identifier {
    pub name: String,
    pub span: Span,
}

impl Identifier {
    pub fn new(name: String, span: Span) -> (r: Identifier)
        ensures
            r.name@ == name@,
            r.span == span,
    {
        Identifier { name, span }
    }
}

impl Clone for Identifier {
    fn clone(&self) -> (r: Self)
        ensures
            r == *self,
    {
        Identifier { name: self.name.clone(), span: self.span }
    }
}

} // verus!
