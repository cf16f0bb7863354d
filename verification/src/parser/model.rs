//! The syntax tree as mathematical values: texts as character sequences,
//! lists as sequences. The grammar in `grammar` speaks of these.

use vstd::prelude::*;

use crate::ast::{
    BinOp, Block, CaseBranch, CompilationUnit, ConstDecl, Diagnostic, Expr, FieldDecl, ForDirection, FuncDecl,
    FuncSignature, Identifier, ImplementationSection, InterfaceSection, Literal, ParamDecl, ProcDecl,
    ProcSignature, Program, Severity, Span, Statement, TypeDecl, TypeExpr, UnOp, Unit, VarDecl,
};

verus! {

/// An identifier: its spelling and where it stands.
pub struct IdentModel {
    pub name: Seq<char>,
    pub span: Span,
}

pub open spec fn ident_model(i: Identifier) -> IdentModel {
    IdentModel { name: i.name@, span: i.span }
}

/// An expression.
pub enum ExprModel {
    IntLit(i64, Span),
    HexIntLit(i64, Span),
    RealLit(Seq<char>, Span),
    StrLit(Seq<char>, Span),
    BoolLit(bool, Span),
    NilLit(Span),
    Ident(IdentModel),
    Binary { op: BinOp, lhs: Box<ExprModel>, rhs: Box<ExprModel>, span: Span },
    Unary { op: UnOp, operand: Box<ExprModel>, span: Span },
    Paren(Box<ExprModel>, Span),
    Call { name: IdentModel, args: Seq<ExprModel>, span: Span },
    Index { array: Box<ExprModel>, index: Box<ExprModel>, span: Span },
    Field { record: Box<ExprModel>, field: IdentModel, span: Span },
    Deref { pointer: Box<ExprModel>, span: Span },
}

impl ExprModel {
    pub open spec fn span(self) -> Span {
        match self {
            ExprModel::IntLit(_, span) => span,
            ExprModel::HexIntLit(_, span) => span,
            ExprModel::RealLit(_, span) => span,
            ExprModel::StrLit(_, span) => span,
            ExprModel::BoolLit(_, span) => span,
            ExprModel::NilLit(span) => span,
            ExprModel::Ident(i) => i.span,
            ExprModel::Binary { span, .. } => span,
            ExprModel::Unary { span, .. } => span,
            ExprModel::Paren(_, span) => span,
            ExprModel::Call { span, .. } => span,
            ExprModel::Index { span, .. } => span,
            ExprModel::Field { span, .. } => span,
            ExprModel::Deref { span, .. } => span,
        }
    }
}

/// The model of an expression.
pub open spec fn expr_model(e: Expr) -> ExprModel
    decreases e, 1nat,
{
    match e {
        Expr::IntLiteral(v, span) => ExprModel::IntLit(v, span),
        Expr::HexIntLiteral(v, span) => ExprModel::HexIntLit(v, span),
        Expr::RealLiteral(t, span) => ExprModel::RealLit(t@, span),
        Expr::StringLiteral(t, span) => ExprModel::StrLit(t@, span),
        Expr::BoolLiteral(b, span) => ExprModel::BoolLit(b, span),
        Expr::NilLiteral(span) => ExprModel::NilLit(span),
        Expr::Identifier(i) => ExprModel::Ident(ident_model(i)),
        Expr::BinaryOp { op, lhs, rhs, span } => ExprModel::Binary {
            op,
            lhs: Box::new(expr_model(*lhs)),
            rhs: Box::new(expr_model(*rhs)),
            span,
        },
        Expr::UnaryOp { op, operand, span } => ExprModel::Unary { op, operand: Box::new(expr_model(*operand)), span },
        Expr::Paren(inner, span) => ExprModel::Paren(Box::new(expr_model(*inner)), span),
        Expr::FuncCall { name, args, span } => ExprModel::Call {
            name: ident_model(name),
            args: exprs_model(args@),
            span,
        },
        Expr::IndexAccess { array, index, span } => ExprModel::Index {
            array: Box::new(expr_model(*array)),
            index: Box::new(expr_model(*index)),
            span,
        },
        Expr::FieldAccess { record, field, span } => ExprModel::Field {
            record: Box::new(expr_model(*record)),
            field: ident_model(field),
            span,
        },
        Expr::Deref { pointer, span } => ExprModel::Deref { pointer: Box::new(expr_model(*pointer)), span },
    }
}

/// The models of a list of expressions.
pub open spec fn exprs_model(es: Seq<Expr>) -> Seq<ExprModel>
    decreases es, 0nat,
{
    if es.len() == 0 {
        Seq::empty()
    } else {
        exprs_model(es.drop_last()).push(expr_model(es.last()))
    }
}

/// A diagnostic the parser reports: an error with a message and no code.
pub struct DiagModel {
    pub span: Span,
    pub message: Seq<char>,
}

pub open spec fn diag_is(d: Diagnostic, m: DiagModel) -> bool {
    &&& d.span == m.span
    &&& d.message@ == m.message
    &&& d.severity == Severity::Error
    &&& d.code is None
}

/// `new` is `old` followed by diagnostics as `added` describes them.
pub open spec fn diags_extend(new: Seq<Diagnostic>, old: Seq<Diagnostic>, added: Seq<DiagModel>) -> bool {
    &&& new.len() == old.len() + added.len()
    &&& forall|k: int| 0 <= k < old.len() ==> new[k] == old[k]
    &&& forall|k: int| old.len() <= k < new.len() ==> diag_is(#[trigger] new[k], added[k - old.len()])
}


/// An expression's model covers the same span.
pub proof fn lemma_model_span(e: Expr)
    ensures
        expr_model(e).span() == e.spec_span(),
{
}

/// Reporting nothing keeps the diagnostics.
pub proof fn lemma_diags_extend_none(a: Seq<Diagnostic>)
    ensures
        diags_extend(a, a, Seq::empty()),
{
}

/// Diagnostics added in two steps.
pub proof fn lemma_diags_extend_trans(
    a: Seq<Diagnostic>,
    b: Seq<Diagnostic>,
    c: Seq<Diagnostic>,
    x: Seq<DiagModel>,
    y: Seq<DiagModel>,
)
    requires
        diags_extend(b, a, x),
        diags_extend(c, b, y),
    ensures
        diags_extend(c, a, x + y),
{
    assert forall|k: int| a.len() <= k < c.len() implies diag_is(#[trigger] c[k], (x + y)[k - a.len()]) by {
        if k < b.len() {
            assert(c[k] == b[k]);
            assert(diag_is(b[k], x[k - a.len()]));
        } else {
            assert(diag_is(c[k], y[k - b.len()]));
        }
    }
}


/// The models of a list of identifiers.
pub open spec fn idents_model(ids: Seq<Identifier>) -> Seq<IdentModel> {
    ids.map_values(|i: Identifier| ident_model(i))
}

/// A literal of a constant declaration, a `CASE` label or an array bound.
pub enum LitModel {
    Int(i64, Span),
    Real(Seq<char>, Span),
    Str(Seq<char>, Span),
    Bool(bool, Span),
}

impl LitModel {
    pub open spec fn span(self) -> Span {
        match self {
            LitModel::Int(_, span) => span,
            LitModel::Real(_, span) => span,
            LitModel::Str(_, span) => span,
            LitModel::Bool(_, span) => span,
        }
    }
}

pub open spec fn lit_model(l: Literal) -> LitModel {
    match l {
        Literal::Int(v, span) => LitModel::Int(v, span),
        Literal::Real(t, span) => LitModel::Real(t@, span),
        Literal::Str(t, span) => LitModel::Str(t@, span),
        Literal::Bool(b, span) => LitModel::Bool(b, span),
    }
}

pub open spec fn lits_model(ls: Seq<Literal>) -> Seq<LitModel> {
    ls.map_values(|l: Literal| lit_model(l))
}

/// A type.
pub enum TypeModel {
    Integer(Span),
    Real(Span),
    Boolean(Span),
    Char(Span),
    StringN(usize, Span),
    Named(IdentModel),
    Array { index_type: Box<TypeModel>, element_type: Box<TypeModel>, packed: bool, span: Span },
    Subrange { low: LitModel, high: LitModel, span: Span },
    Record { fields: Seq<FieldModel>, packed: bool, span: Span },
    Pointer(Box<TypeModel>, Span),
}

/// A field group `a, b: T` of a record.
pub struct FieldModel {
    pub names: Seq<IdentModel>,
    pub ty: TypeModel,
    pub span: Span,
}

impl TypeModel {
    pub open spec fn span(self) -> Span {
        match self {
            TypeModel::Integer(span) => span,
            TypeModel::Real(span) => span,
            TypeModel::Boolean(span) => span,
            TypeModel::Char(span) => span,
            TypeModel::StringN(_, span) => span,
            TypeModel::Named(i) => i.span,
            TypeModel::Array { span, .. } => span,
            TypeModel::Subrange { span, .. } => span,
            TypeModel::Record { span, .. } => span,
            TypeModel::Pointer(_, span) => span,
        }
    }
}

pub open spec fn type_model(t: TypeExpr) -> TypeModel
    decreases t, 1nat,
{
    match t {
        TypeExpr::Integer(span) => TypeModel::Integer(span),
        TypeExpr::Real(span) => TypeModel::Real(span),
        TypeExpr::Boolean(span) => TypeModel::Boolean(span),
        TypeExpr::Char(span) => TypeModel::Char(span),
        TypeExpr::StringN(n, span) => TypeModel::StringN(n, span),
        TypeExpr::Named(i) => TypeModel::Named(ident_model(i)),
        TypeExpr::Array { index_type, element_type, packed, span } => TypeModel::Array {
            index_type: Box::new(type_model(*index_type)),
            element_type: Box::new(type_model(*element_type)),
            packed,
            span,
        },
        TypeExpr::Subrange { low, high, span } => TypeModel::Subrange { low: lit_model(low), high: lit_model(high), span },
        TypeExpr::Record { fields, packed, span } => TypeModel::Record { fields: fields_model(fields@), packed, span },
        TypeExpr::Pointer(inner, span) => TypeModel::Pointer(Box::new(type_model(*inner)), span),
    }
}

pub open spec fn fields_model(fs: Seq<FieldDecl>) -> Seq<FieldModel>
    decreases fs, 0nat,
{
    if fs.len() == 0 {
        Seq::empty()
    } else {
        fields_model(fs.drop_last()).push(
            FieldModel { names: idents_model(fs.last().names@), ty: type_model(fs.last().ty), span: fs.last().span },
        )
    }
}

/// A type's model covers the same span.
pub proof fn lemma_type_model_span(t: TypeExpr)
    ensures
        type_model(t).span() == t.spec_span(),
{
}

/// A statement.
pub enum StmtModel {
    Assignment { target: ExprModel, value: ExprModel, span: Span },
    If { cond: ExprModel, then_branch: Box<StmtModel>, else_branch: Option<Box<StmtModel>>, span: Span },
    While { cond: ExprModel, body: Box<StmtModel>, span: Span },
    For {
        var: IdentModel,
        start: ExprModel,
        end: ExprModel,
        direction: ForDirection,
        body: Box<StmtModel>,
        span: Span,
    },
    Repeat { body: Seq<StmtModel>, until_cond: ExprModel, span: Span },
    Case { selector: ExprModel, branches: Seq<BranchModel>, otherwise: Option<Box<StmtModel>>, span: Span },
    Compound(BlockModel),
    ProcCall { name: IdentModel, args: Seq<ExprModel>, span: Span },
    Directive { name: Seq<char>, args: Seq<char>, span: Span },
}

/// Statements between `BEGIN` and `END`.
pub struct BlockModel {
    pub statements: Seq<StmtModel>,
    pub span: Span,
}

/// One branch of a `CASE` statement.
pub struct BranchModel {
    pub labels: Seq<LitModel>,
    pub body: StmtModel,
    pub span: Span,
}

impl StmtModel {
    pub open spec fn span(self) -> Span {
        match self {
            StmtModel::Assignment { span, .. } => span,
            StmtModel::If { span, .. } => span,
            StmtModel::While { span, .. } => span,
            StmtModel::For { span, .. } => span,
            StmtModel::Repeat { span, .. } => span,
            StmtModel::Case { span, .. } => span,
            StmtModel::Compound(b) => b.span,
            StmtModel::ProcCall { span, .. } => span,
            StmtModel::Directive { span, .. } => span,
        }
    }
}

pub open spec fn stmt_model(s: Statement) -> StmtModel
    decreases s, 2nat,
{
    match s {
        Statement::Assignment { target, value, span } => StmtModel::Assignment {
            target: expr_model(target),
            value: expr_model(value),
            span,
        },
        Statement::If { cond, then_branch, else_branch, span } => StmtModel::If {
            cond: expr_model(cond),
            then_branch: Box::new(stmt_model(*then_branch)),
            else_branch: match else_branch {
                Some(e) => Some(Box::new(stmt_model(*e))),
                None => None,
            },
            span,
        },
        Statement::While { cond, body, span } => StmtModel::While {
            cond: expr_model(cond),
            body: Box::new(stmt_model(*body)),
            span,
        },
        Statement::For { var, start, end, direction, body, span } => StmtModel::For {
            var: ident_model(var),
            start: expr_model(start),
            end: expr_model(end),
            direction,
            body: Box::new(stmt_model(*body)),
            span,
        },
        Statement::Repeat { body, until_cond, span } => StmtModel::Repeat {
            body: stmts_model(body@),
            until_cond: expr_model(until_cond),
            span,
        },
        Statement::Case { selector, branches, otherwise, span } => StmtModel::Case {
            selector: expr_model(selector),
            branches: branches_model(branches@),
            otherwise: match otherwise {
                Some(o) => Some(Box::new(stmt_model(*o))),
                None => None,
            },
            span,
        },
        Statement::Compound(block) => StmtModel::Compound(
            BlockModel { statements: stmts_model(block.statements@), span: block.span },
        ),
        Statement::ProcCall { name, args, span } => StmtModel::ProcCall {
            name: ident_model(name),
            args: exprs_model(args@),
            span,
        },
        Statement::CompilerDirective { name, args, span } => StmtModel::Directive { name: name@, args: args@, span },
    }
}

pub open spec fn stmts_model(ss: Seq<Statement>) -> Seq<StmtModel>
    decreases ss, 1nat,
{
    if ss.len() == 0 {
        Seq::empty()
    } else {
        stmts_model(ss.drop_last()).push(stmt_model(ss.last()))
    }
}

pub open spec fn branches_model(bs: Seq<CaseBranch>) -> Seq<BranchModel>
    decreases bs, 1nat,
{
    if bs.len() == 0 {
        Seq::empty()
    } else {
        branches_model(bs.drop_last()).push(
            BranchModel {
                labels: lits_model(bs.last().labels@),
                body: stmt_model(bs.last().body),
                span: bs.last().span,
            },
        )
    }
}

pub open spec fn block_model(b: Block) -> BlockModel {
    BlockModel { statements: stmts_model(b.statements@), span: b.span }
}

/// A statement's model covers the same span.
pub proof fn lemma_stmt_model_span(s: Statement)
    ensures
        stmt_model(s).span() == s.spec_span(),
{
}

/// The models of a list, grown by one.
pub proof fn lemma_stmts_model_push(ss: Seq<Statement>, s: Statement)
    ensures
        stmts_model(ss.push(s)) == stmts_model(ss).push(stmt_model(s)),
{
    assert(ss.push(s).drop_last() =~= ss);
}

/// One `name = literal;` of a `CONST` section.
pub struct ConstModel {
    pub name: IdentModel,
    pub value: LitModel,
    pub span: Span,
}

/// One group `a, b: T;` of a `VAR` section.
pub struct VarModel {
    pub names: Seq<IdentModel>,
    pub ty: TypeModel,
    pub span: Span,
}

/// One `Name = T;` of a `TYPE` section.
pub struct TypeDeclModel {
    pub name: IdentModel,
    pub ty: TypeModel,
    pub span: Span,
}

/// One formal parameter.
pub struct ParamModel {
    pub name: IdentModel,
    pub ty: TypeModel,
    pub by_ref: bool,
    pub span: Span,
}

/// `PROCEDURE name(params);` without a body.
pub struct ProcSigModel {
    pub name: IdentModel,
    pub params: Seq<ParamModel>,
    pub span: Span,
}

/// `FUNCTION name(params): T;` without a body.
pub struct FuncSigModel {
    pub name: IdentModel,
    pub params: Seq<ParamModel>,
    pub return_type: TypeModel,
    pub span: Span,
}

/// A procedure with its body.
pub struct ProcModel {
    pub name: IdentModel,
    pub params: Seq<ParamModel>,
    pub var_decls: Seq<VarModel>,
    pub body: BlockModel,
    pub span: Span,
}

/// A function with its body.
pub struct FuncModel {
    pub name: IdentModel,
    pub params: Seq<ParamModel>,
    pub return_type: TypeModel,
    pub var_decls: Seq<VarModel>,
    pub body: BlockModel,
    pub span: Span,
}

/// The declarations of a program, each kind in source order.
#[verifier::ext_equal]
pub struct ProgDeclsModel {
    pub uses: Seq<IdentModel>,
    pub consts: Seq<ConstModel>,
    pub types: Seq<TypeDeclModel>,
    pub vars: Seq<VarModel>,
    pub procs: Seq<ProcModel>,
    pub funcs: Seq<FuncModel>,
}

/// A program.
pub struct ProgramModel {
    pub name: IdentModel,
    pub decls: ProgDeclsModel,
    pub body: BlockModel,
    pub span: Span,
}

/// The declarations and signatures of a unit's `INTERFACE`, each kind in
/// source order.
#[verifier::ext_equal]
pub struct IfaceDeclsModel {
    pub uses: Seq<IdentModel>,
    pub consts: Seq<ConstModel>,
    pub types: Seq<TypeDeclModel>,
    pub vars: Seq<VarModel>,
    pub proc_sigs: Seq<ProcSigModel>,
    pub func_sigs: Seq<FuncSigModel>,
}

/// The `INTERFACE` part of a unit.
pub struct InterfaceModel {
    pub decls: IfaceDeclsModel,
    pub span: Span,
}

/// The `IMPLEMENTATION` part of a unit.
pub struct ImplModel {
    pub procs: Seq<ProcModel>,
    pub funcs: Seq<FuncModel>,
    pub span: Span,
}

/// A unit.
pub struct UnitModel {
    pub name: IdentModel,
    pub interface: InterfaceModel,
    pub implementation: ImplModel,
    pub span: Span,
}

/// A source file: a program or a unit.
pub enum CompUnitModel {
    Program(ProgramModel),
    Unit(UnitModel),
}

pub open spec fn const_model(c: ConstDecl) -> ConstModel {
    ConstModel { name: ident_model(c.name), value: lit_model(c.value), span: c.span }
}

pub open spec fn consts_model(cs: Seq<ConstDecl>) -> Seq<ConstModel> {
    cs.map_values(|c: ConstDecl| const_model(c))
}

pub open spec fn var_model(v: VarDecl) -> VarModel {
    VarModel { names: idents_model(v.names@), ty: type_model(v.ty), span: v.span }
}

pub open spec fn vars_model(vs: Seq<VarDecl>) -> Seq<VarModel> {
    vs.map_values(|v: VarDecl| var_model(v))
}

pub open spec fn type_decl_model(t: TypeDecl) -> TypeDeclModel {
    TypeDeclModel { name: ident_model(t.name), ty: type_model(t.ty), span: t.span }
}

pub open spec fn type_decls_model(ts: Seq<TypeDecl>) -> Seq<TypeDeclModel> {
    ts.map_values(|t: TypeDecl| type_decl_model(t))
}

pub open spec fn param_model(p: ParamDecl) -> ParamModel {
    ParamModel { name: ident_model(p.name), ty: type_model(p.ty), by_ref: p.by_ref, span: p.span }
}

pub open spec fn params_model(ps: Seq<ParamDecl>) -> Seq<ParamModel> {
    ps.map_values(|p: ParamDecl| param_model(p))
}

pub open spec fn proc_sig_model(s: ProcSignature) -> ProcSigModel {
    ProcSigModel { name: ident_model(s.name), params: params_model(s.params@), span: s.span }
}

pub open spec fn func_sig_model(s: FuncSignature) -> FuncSigModel {
    FuncSigModel {
        name: ident_model(s.name),
        params: params_model(s.params@),
        return_type: type_model(s.return_type),
        span: s.span,
    }
}

pub open spec fn proc_model(d: ProcDecl) -> ProcModel {
    ProcModel {
        name: ident_model(d.name),
        params: params_model(d.params@),
        var_decls: vars_model(d.var_decls@),
        body: block_model(d.body),
        span: d.span,
    }
}

pub open spec fn func_model(d: FuncDecl) -> FuncModel {
    FuncModel {
        name: ident_model(d.name),
        params: params_model(d.params@),
        return_type: type_model(d.return_type),
        var_decls: vars_model(d.var_decls@),
        body: block_model(d.body),
        span: d.span,
    }
}

pub open spec fn procs_model(ds: Seq<ProcDecl>) -> Seq<ProcModel> {
    ds.map_values(|d: ProcDecl| proc_model(d))
}

pub open spec fn funcs_model(ds: Seq<FuncDecl>) -> Seq<FuncModel> {
    ds.map_values(|d: FuncDecl| func_model(d))
}

pub open spec fn proc_sigs_model(ss: Seq<ProcSignature>) -> Seq<ProcSigModel> {
    ss.map_values(|s: ProcSignature| proc_sig_model(s))
}

pub open spec fn func_sigs_model(ss: Seq<FuncSignature>) -> Seq<FuncSigModel> {
    ss.map_values(|s: FuncSignature| func_sig_model(s))
}

pub open spec fn program_model(p: Program) -> ProgramModel {
    ProgramModel {
        name: ident_model(p.name),
        decls: ProgDeclsModel {
            uses: idents_model(p.uses@),
            consts: consts_model(p.const_decls@),
            types: type_decls_model(p.type_decls@),
            vars: vars_model(p.var_decls@),
            procs: procs_model(p.proc_decls@),
            funcs: funcs_model(p.func_decls@),
        },
        body: block_model(p.body),
        span: p.span,
    }
}

pub open spec fn interface_model(i: InterfaceSection) -> InterfaceModel {
    InterfaceModel {
        decls: IfaceDeclsModel {
            uses: idents_model(i.uses@),
            consts: consts_model(i.const_decls@),
            types: type_decls_model(i.type_decls@),
            vars: vars_model(i.var_decls@),
            proc_sigs: proc_sigs_model(i.proc_signatures@),
            func_sigs: func_sigs_model(i.func_signatures@),
        },
        span: i.span,
    }
}

pub open spec fn impl_model(i: ImplementationSection) -> ImplModel {
    ImplModel {
        procs: procs_model(i.proc_decls@),
        funcs: funcs_model(i.func_decls@),
        span: i.span,
    }
}

pub open spec fn unit_model(u: Unit) -> UnitModel {
    UnitModel {
        name: ident_model(u.name),
        interface: interface_model(u.interface),
        implementation: impl_model(u.implementation),
        span: u.span,
    }
}

pub open spec fn comp_unit_model(c: CompilationUnit) -> CompUnitModel {
    match c {
        CompilationUnit::Program(p) => CompUnitModel::Program(program_model(p)),
        CompilationUnit::Unit(u) => CompUnitModel::Unit(unit_model(u)),
    }
}

pub open spec fn opt_program_model(o: Option<Program>) -> Option<ProgramModel> {
    match o {
        Some(p) => Some(program_model(p)),
        None => None,
    }
}

pub open spec fn opt_unit_model(o: Option<Unit>) -> Option<UnitModel> {
    match o {
        Some(u) => Some(unit_model(u)),
        None => None,
    }
}

pub open spec fn opt_comp_unit_model(o: Option<CompilationUnit>) -> Option<CompUnitModel> {
    match o {
        Some(c) => Some(comp_unit_model(c)),
        None => None,
    }
}

} // verus!
