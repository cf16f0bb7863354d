//! Source positions, identifiers, diagnostics and the syntax tree.

pub mod decl;
pub mod diagnostic;
pub mod dialect;
pub mod expr;
pub mod ident;
pub mod span;
pub mod stmt;

pub use decl::{
    CompilationUnit, ConstDecl, FieldDecl, FuncDecl, FuncSignature, ImplementationSection,
    InterfaceSection, ParamDecl, ProcDecl, ProcSignature, Program, TypeDecl, TypeExpr, Unit,
    VarDecl,
};
pub use diagnostic::{Diagnostic, Severity};
pub use dialect::Dialect;
pub use expr::{BinOp, Expr, Literal, UnOp};
pub use ident::Identifier;
pub use span::Span;
pub use stmt::{Block, CaseBranch, ForDirection, Statement};
