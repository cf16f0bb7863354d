//! Declaration nodes: programs, units, constants, types, variables and
//! routines.

use vstd::prelude::*;

use crate::ast::expr::Literal;
use crate::ast::ident::Identifier;
use crate::ast::span::Span;
use crate::ast::stmt::Block;
use crate::parser::model::{fields_model, type_model};

verus! {

/// A source file holds either a `PROGRAM` or a `UNIT`.
#[derive(Debug, PartialEq)]
pub enum CompilationUnit {
    Program(Program),
    Unit(Unit),
}

/// `PROGRAM name; ... BEGIN ... END.`
#[derive(Debug, PartialEq)]
pub struct Program {
    pub name: Identifier,
    /// UCSD extension: the unit names of a `USES` clause (not resolved).
    pub uses: Vec<Identifier>,
    pub const_decls: Vec<ConstDecl>,
    /// `TYPE` declarations in source order.
    pub type_decls: Vec<TypeDecl>,
    pub var_decls: Vec<VarDecl>,
    pub proc_decls: Vec<ProcDecl>,
    pub func_decls: Vec<FuncDecl>,
    pub body: Block,
    pub span: Span,
}

/// UCSD extension: `UNIT name; INTERFACE ... IMPLEMENTATION ... END.`
#[derive(Debug, PartialEq)]
pub struct Unit {
    pub name: Identifier,
    pub interface: InterfaceSection,
    pub implementation: ImplementationSection,
    pub span: Span,
}

/// The `INTERFACE` part of a unit: declarations and routine signatures.
#[derive(Debug, Clone, PartialEq)]
pub struct InterfaceSection {
    pub uses: Vec<Identifier>,
    pub const_decls: Vec<ConstDecl>,
    pub type_decls: Vec<TypeDecl>,
    pub var_decls: Vec<VarDecl>,
    pub proc_signatures: Vec<ProcSignature>,
    pub func_signatures: Vec<FuncSignature>,
    pub span: Span,
}

/// The `IMPLEMENTATION` part of a unit: routine bodies.
#[derive(Debug, PartialEq)]
pub struct ImplementationSection {
    pub proc_decls: Vec<ProcDecl>,
    pub func_decls: Vec<FuncDecl>,
    pub span: Span,
}

/// `PROCEDURE name(params);` without a body.
#[derive(Debug, Clone, PartialEq)]
pub struct ProcSignature {
    pub name: Identifier,
    pub params: Vec<ParamDecl>,
    pub span: Span,
}

/// `FUNCTION name(params): type;` without a body.
#[derive(Debug, Clone, PartialEq)]
pub struct FuncSignature {
    pub name: Identifier,
    pub params: Vec<ParamDecl>,
    pub return_type: TypeExpr,
    pub span: Span,
}

/// One group `x, y: INTEGER;` of a `VAR` section.
#[derive(Debug, Clone, PartialEq)]
pub struct VarDecl {
    pub names: Vec<Identifier>,
    pub ty: TypeExpr,
    pub span: Span,
}

/// One `name = literal;` of a `CONST` section.
#[derive(Debug, Clone, PartialEq)]
pub struct ConstDecl {
    pub name: Identifier,
    pub value: Literal,
    pub span: Span,
}

/// One `Name = type;` of a `TYPE` section.
#[derive(Debug, Clone, PartialEq)]
pub struct TypeDecl {
    pub name: Identifier,
    pub ty: TypeExpr,
    pub span: Span,
}

/// One field group `a, b: INTEGER` of a `RECORD`.
#[derive(Debug, Clone, PartialEq)]
pub struct FieldDecl {
    pub names: Vec<Identifier>,
    pub ty: TypeExpr,
    pub span: Span,
}

/// `PROCEDURE name(params); [VAR ...] BEGIN ... END;`
#[derive(Debug, PartialEq)]
pub struct ProcDecl {
    pub name: Identifier,
    pub params: Vec<ParamDecl>,
    pub var_decls: Vec<VarDecl>,
    pub body: Block,
    pub span: Span,
}

/// `FUNCTION name(params): type; [VAR ...] BEGIN ... END;`
#[derive(Debug, PartialEq)]
pub struct FuncDecl {
    pub name: Identifier,
    pub params: Vec<ParamDecl>,
    pub return_type: TypeExpr,
    pub var_decls: Vec<VarDecl>,
    pub body: Block,
    pub span: Span,
}

/// One formal parameter; a group `a, b: T` yields one per name.
#[derive(Debug, Clone, PartialEq)]
pub struct ParamDecl {
    pub name: Identifier,
    pub ty: TypeExpr,
    /// `VAR` (by reference) parameter.
    pub by_ref: bool,
    pub span: Span,
}

/// A type. `ARRAY [1..10, 1..20] OF T` is represented as nested arrays.
#[derive(Debug, PartialEq)]
pub enum TypeExpr {
    Integer(Span),
    Real(Span),
    Boolean(Span),
    Char(Span),
    /// UCSD extension: `STRING[n]` with maximum length `n`.
    StringN(usize, Span),
    /// A reference to a type declared in a `TYPE` section (not resolved).
    Named(Identifier),
    Array { index_type: Box<TypeExpr>, element_type: Box<TypeExpr>, packed: bool, span: Span },
    /// `low..high`, used as an array index type.
    Subrange { low: Literal, high: Literal, span: Span },
    Record { fields: Vec<FieldDecl>, packed: bool, span: Span },
    /// `^T`.
    Pointer(Box<TypeExpr>, Span),
}

impl Clone for TypeExpr {
    fn clone(&self) -> (r: Self)
        ensures
            r.spec_span() == self.spec_span(),
    {
        clone_type(self)
    }
}

/// A deep copy of a type; the copy covers the same source range.
pub fn clone_type(t: &TypeExpr) -> (r: TypeExpr)
    ensures
        r.spec_span() == t.spec_span(),
        !(t is Record || t is Array || t is Pointer) ==> r == *t,
        type_model(r) == type_model(*t),
    decreases t, 1nat,
{
    match t {
        TypeExpr::Integer(span) => TypeExpr::Integer(*span),
        TypeExpr::Real(span) => TypeExpr::Real(*span),
        TypeExpr::Boolean(span) => TypeExpr::Boolean(*span),
        TypeExpr::Char(span) => TypeExpr::Char(*span),
        TypeExpr::StringN(n, span) => TypeExpr::StringN(*n, *span),
        TypeExpr::Named(ident) => TypeExpr::Named(ident.clone()),
        TypeExpr::Array { index_type, element_type, packed, span } => TypeExpr::Array {
            index_type: Box::new(clone_type(index_type)),
            element_type: Box::new(clone_type(element_type)),
            packed: *packed,
            span: *span,
        },
        TypeExpr::Subrange { low, high, span } => TypeExpr::Subrange {
            low: low.clone(),
            high: high.clone(),
            span: *span,
        },
        TypeExpr::Record { fields, packed, span } => TypeExpr::Record {
            fields: clone_fields(Ghost(t), fields),
            packed: *packed,
            span: *span,
        },
        TypeExpr::Pointer(inner, span) => TypeExpr::Pointer(Box::new(clone_type(inner)), *span),
    }
}

/// A deep copy of the fields of a record type; each copied field covers
/// the same source range.
fn clone_fields(Ghost(owner): Ghost<&TypeExpr>, fields: &Vec<FieldDecl>) -> (r: Vec<FieldDecl>)
    requires
        owner matches TypeExpr::Record { fields: f, .. } && f@ == fields@,
    ensures
        r@.len() == fields@.len(),
        forall|k: int| 0 <= k < fields@.len() ==> r@[k].span == fields@[k].span,
        fields_model(r@) == fields_model(fields@),
    decreases owner, 0nat,
{
    let mut copied: Vec<FieldDecl> = Vec::new();
    let mut i: usize = 0;
    proof {
        assert(fields@.take(0) =~= Seq::<FieldDecl>::empty());
    }
    while i < fields.len()
        invariant
            owner matches TypeExpr::Record { fields: f, .. } && f@ == fields@,
            i <= fields.len(),
            copied@.len() == i,
            forall|k: int| 0 <= k < i ==> copied@[k].span == fields@[k].span,
            fields_model(copied@) == fields_model(fields@.take(i as int)),
        decreases fields.len() - i,
    {
        let f = &fields[i];
        proof {
            assert(decreases_to!(owner => fields@[i as int].ty));
        }
        let ty = clone_type(&f.ty);
        let ghost before = copied@;
        copied.push(FieldDecl { names: clone_identifiers(&f.names), ty, span: f.span });
        proof {
            assert(copied@.drop_last() =~= before);
            assert(fields@.take(i + 1).drop_last() =~= fields@.take(i as int));
            assert(fields@.take(i + 1).last() == fields@[i as int]);
        }
        i += 1;
    }
    proof {
        assert(fields@.take(i as int) =~= fields@);
    }
    copied
}

/// A copy of a list of identifiers.
pub fn clone_identifiers(names: &Vec<Identifier>) -> (r: Vec<Identifier>)
    ensures
        r@ == names@,
{
    let mut r: Vec<Identifier> = Vec::new();
    let mut i: usize = 0;
    while i < names.len()
        invariant
            i <= names.len(),
            r@.len() == i,
            forall|k: int| 0 <= k < i ==> r@[k] == names@[k],
        decreases names.len() - i,
    {
        r.push(names[i].clone());
        i += 1;
    }
    proof {
        assert(r@ =~= names@);
    }
    r
}

impl TypeExpr {
    pub open spec fn spec_span(&self) -> Span {
        match self {
            TypeExpr::Integer(span) => *span,
            TypeExpr::Real(span) => *span,
            TypeExpr::Boolean(span) => *span,
            TypeExpr::Char(span) => *span,
            TypeExpr::StringN(_, span) => *span,
            TypeExpr::Named(ident) => ident.span,
            TypeExpr::Array { span, .. } => *span,
            TypeExpr::Subrange { span, .. } => *span,
            TypeExpr::Record { span, .. } => *span,
            TypeExpr::Pointer(_, span) => *span,
        }
    }

    pub fn span(&self) -> (s: Span)
        ensures
            s == self.spec_span(),
    {
        match self {
            TypeExpr::Integer(span) => *span,
            TypeExpr::Real(span) => *span,
            TypeExpr::Boolean(span) => *span,
            TypeExpr::Char(span) => *span,
            TypeExpr::StringN(_, span) => *span,
            TypeExpr::Named(ident) => ident.span,
            TypeExpr::Array { span, .. } => *span,
            TypeExpr::Subrange { span, .. } => *span,
            TypeExpr::Record { span, .. } => *span,
            TypeExpr::Pointer(_, span) => *span,
        }
    }
}

} // verus!
