//! Expression nodes.

use vstd::prelude::*;

use crate::ast::ident::Identifier;
use crate::ast::span::Span;

verus! {

/// An expression.
///
/// A real literal keeps the characters the source wrote (for example
/// `"2.5e10"`); its numeric value is the caller's business.
#[derive(Debug, PartialEq)]
pub enum Expr {
    IntLiteral(i64, Span),
    /// UCSD extension: a `$FF` hexadecimal literal, kept apart from decimal
    /// literals so that a dialect check can tell them apart.
    HexIntLiteral(i64, Span),
    RealLiteral(String, Span),
    StringLiteral(String, Span),
    BoolLiteral(bool, Span),
    NilLiteral(Span),
    Identifier(Identifier),
    BinaryOp { op: BinOp, lhs: Box<Expr>, rhs: Box<Expr>, span: Span },
    UnaryOp { op: UnOp, operand: Box<Expr>, span: Span },
    Paren(Box<Expr>, Span),
    /// `name(args)`. A call written without parentheses parses as
    /// [`Expr::Identifier`].
    FuncCall { name: Identifier, args: Vec<Expr>, span: Span },
    /// `array[index]`; `a[i, j]` nests as `a[i][j]`.
    IndexAccess { array: Box<Expr>, index: Box<Expr>, span: Span },
    /// `record.field`.
    FieldAccess { record: Box<Expr>, field: Identifier, span: Span },
    /// `pointer^`.
    Deref { pointer: Box<Expr>, span: Span },
}

impl Expr {
    pub open spec fn spec_span(&self) -> Span {
        match self {
            Expr::IntLiteral(_, span) => *span,
            Expr::HexIntLiteral(_, span) => *span,
            Expr::RealLiteral(_, span) => *span,
            Expr::StringLiteral(_, span) => *span,
            Expr::BoolLiteral(_, span) => *span,
            Expr::NilLiteral(span) => *span,
            Expr::Identifier(ident) => ident.span,
            Expr::BinaryOp { span, .. } => *span,
            Expr::UnaryOp { span, .. } => *span,
            Expr::Paren(_, span) => *span,
            Expr::FuncCall { span, .. } => *span,
            Expr::IndexAccess { span, .. } => *span,
            Expr::FieldAccess { span, .. } => *span,
            Expr::Deref { span, .. } => *span,
        }
    }

    /// The source range the expression covers.
    pub fn span(&self) -> (s: Span)
        ensures
            s == self.spec_span(),
    {
        match self {
            Expr::IntLiteral(_, span) => *span,
            Expr::HexIntLiteral(_, span) => *span,
            Expr::RealLiteral(_, span) => *span,
            Expr::StringLiteral(_, span) => *span,
            Expr::BoolLiteral(_, span) => *span,
            Expr::NilLiteral(span) => *span,
            Expr::Identifier(ident) => ident.span,
            Expr::BinaryOp { span, .. } => *span,
            Expr::UnaryOp { span, .. } => *span,
            Expr::Paren(_, span) => *span,
            Expr::FuncCall { span, .. } => *span,
            Expr::IndexAccess { span, .. } => *span,
            Expr::FieldAccess { span, .. } => *span,
            Expr::Deref { span, .. } => *span,
        }
    }

    /// The expression a literal stands for: each literal becomes the
    /// expression variant of the same kind, value and span.
    pub fn from_literal(lit: Literal) -> (e: Expr)
        ensures
            e == Expr::spec_from_literal(lit),
    {
        match lit {
            Literal::Int(v, span) => Expr::IntLiteral(v, span),
            Literal::Real(v, span) => Expr::RealLiteral(v, span),
            Literal::Str(v, span) => Expr::StringLiteral(v, span),
            Literal::Bool(v, span) => Expr::BoolLiteral(v, span),
        }
    }

    pub open spec fn spec_from_literal(lit: Literal) -> Expr {
        match lit {
            Literal::Int(v, span) => Expr::IntLiteral(v, span),
            Literal::Real(v, span) => Expr::RealLiteral(v, span),
            Literal::Str(v, span) => Expr::StringLiteral(v, span),
            Literal::Bool(v, span) => Expr::BoolLiteral(v, span),
        }
    }
}

/// Binary operators.
#[derive(Debug, Clone, Copy, PartialEq, Eq, Structural)]
pub enum BinOp {
    Add,
    Sub,
    Mul,
    /// Real division `/`.
    Div,
    /// Integer division `DIV`.
    IntDiv,
    Mod,
    Eq,
    NotEq,
    Lt,
    Gt,
    LtEq,
    GtEq,
    And,
    Or,
}

/// Unary operators.
#[derive(Debug, Clone, Copy, PartialEq, Eq, Structural)]
pub enum UnOp {
    Neg,
    Not,
}

/// A literal value: the right-hand side of a `CONST` declaration, a `CASE`
/// label or an array bound. A real literal keeps its source characters.
#[derive(Debug, PartialEq)]
pub enum Literal {
    Int(i64, Span),
    Real(String, Span),
    Str(String, Span),
    Bool(bool, Span),
}

impl Literal {
    pub open spec fn spec_span(&self) -> Span {
        match self {
            Literal::Int(_, span) => *span,
            Literal::Real(_, span) => *span,
            Literal::Str(_, span) => *span,
            Literal::Bool(_, span) => *span,
        }
    }

    pub fn span(&self) -> (s: Span)
        ensures
            s == self.spec_span(),
    {
        match self {
            Literal::Int(_, span) => *span,
            Literal::Real(_, span) => *span,
            Literal::Str(_, span) => *span,
            Literal::Bool(_, span) => *span,
        }
    }
}

impl Clone for Literal {
    fn clone(&self) -> (r: Self)
        ensures
            r == *self,
    {
        match self {
            Literal::Int(v, span) => Literal::Int(*v, *span),
            Literal::Real(v, span) => Literal::Real(v.clone(), *span),
            Literal::Str(v, span) => Literal::Str(v.clone(), *span),
            Literal::Bool(v, span) => Literal::Bool(*v, *span),
        }
    }
}

} // verus!
