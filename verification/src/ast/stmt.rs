//! Statement nodes.

use vstd::prelude::*;

use crate::ast::expr::{Expr, Literal};
use crate::ast::ident::Identifier;
use crate::ast::span::Span;

verus! {

/// Statements between `BEGIN` and `END`.
#[derive(Debug, PartialEq)]
pub struct Block {
    pub statements: Vec<Statement>,
    pub span: Span,
}

/// The direction of a `FOR` loop.
#[derive(Debug, Clone, Copy, PartialEq, Eq, Structural)]
pub enum ForDirection {
    To,
    DownTo,
}

/// One branch `label, label: statement` of a `CASE` statement.
#[derive(Debug, PartialEq)]
pub struct CaseBranch {
    pub labels: Vec<Literal>,
    pub body: Statement,
    pub span: Span,
}

/// A statement.
#[derive(Debug, PartialEq)]
pub enum Statement {
    /// `designator := value`; the target may be a variable, an array
    /// element, a record field or a dereferenced pointer.
    Assignment { target: Expr, value: Expr, span: Span },
    If {
        cond: Expr,
        then_branch: Box<Statement>,
        else_branch: Option<Box<Statement>>,
        span: Span,
    },
    While { cond: Expr, body: Box<Statement>, span: Span },
    For {
        var: Identifier,
        start: Expr,
        end: Expr,
        direction: ForDirection,
        body: Box<Statement>,
        span: Span,
    },
    Repeat { body: Vec<Statement>, until_cond: Expr, span: Span },
    Case {
        selector: Expr,
        branches: Vec<CaseBranch>,
        otherwise: Option<Box<Statement>>,
        span: Span,
    },
    Compound(Block),
    ProcCall { name: Identifier, args: Vec<Expr>, span: Span },
    /// UCSD extension: a compiler directive `(*$I file*)` in statement
    /// position.
    CompilerDirective { name: String, args: String, span: Span },
}

impl Statement {
    pub open spec fn spec_span(&self) -> Span {
        match self {
            Statement::Assignment { span, .. } => *span,
            Statement::If { span, .. } => *span,
            Statement::While { span, .. } => *span,
            Statement::For { span, .. } => *span,
            Statement::Repeat { span, .. } => *span,
            Statement::Case { span, .. } => *span,
            Statement::Compound(block) => block.span,
            Statement::ProcCall { span, .. } => *span,
            Statement::CompilerDirective { span, .. } => *span,
        }
    }

    pub fn span(&self) -> (s: Span)
        ensures
            s == self.spec_span(),
    {
        match self {
            Statement::Assignment { span, .. } => *span,
            Statement::If { span, .. } => *span,
            Statement::While { span, .. } => *span,
            Statement::For { span, .. } => *span,
            Statement::Repeat { span, .. } => *span,
            Statement::Case { span, .. } => *span,
            Statement::Compound(block) => block.span,
            Statement::ProcCall { span, .. } => *span,
            Statement::CompilerDirective { span, .. } => *span,
        }
    }
}

} // verus!
