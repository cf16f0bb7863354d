//! What the parser makes of declaration sections, routines and whole
//! source files, in the terms of `grammar`: a function from a position in
//! the tokens to the tree read there, the position after it and the
//! diagnostics reported on the way.

use vstd::prelude::*;

use crate::ast::Span;
use crate::lexer::token::{Token, TokenTag};
use crate::parser::describe::describe_text;
use crate::parser::grammar::{
    compound_s, const_literal_s, expect_s, expect_span_s, expected_diag, ident_list_s, identifier_s,
    max_u32, next_pos, prev_span, span_at, tag_at, type_s, within, Parsed,
};
use crate::parser::model::{
    BlockModel, CompUnitModel, ConstModel, DiagModel, FuncModel, FuncSigModel, IdentModel,
    IfaceDeclsModel, ImplModel, InterfaceModel, ParamModel, ProcModel, ProcSigModel, ProgDeclsModel,
    ProgramModel, TypeDeclModel, TypeModel, UnitModel, VarModel,
};

verus! {

/// `USES a, b, ...;`, at the `USES`: the unit names.
pub open spec fn uses_s(ts: Seq<Token>, p: int) -> Parsed<Seq<IdentModel>> {
    let names = ident_list_s(ts, next_pos(ts, p), "unit name"@);
    let semi = expect_s(ts, names.pos, TokenTag::Semicolon, "';'"@);
    Parsed { value: names.value, pos: semi.pos, diags: names.diags + semi.diags }
}

/// The declarations `name = literal;` of a `CONST` section, for as long
/// as a name comes.
pub open spec fn consts_s(ts: Seq<Token>, p: int) -> Parsed<Seq<ConstModel>>
    decreases ts.len() - p,
{
    if within(ts, p) && tag_at(ts, p) == TokenTag::Identifier {
        let name = identifier_s(ts, p, "constant name"@);
        let eq = expect_s(ts, name.pos, TokenTag::Eq, "'='"@);
        let v = const_literal_s(ts, eq.pos);
        let semi = expect_s(ts, v.pos, TokenTag::Semicolon, "';'"@);
        let d = ConstModel {
            name: name.value,
            value: v.value,
            span: Span { start: name.value.span.start, end: v.value.span().end },
        };
        let here = name.diags + eq.diags + v.diags + semi.diags;
        if p < semi.pos < ts.len() {
            let rest = consts_s(ts, semi.pos);
            Parsed { value: seq![d] + rest.value, pos: rest.pos, diags: here + rest.diags }
        } else {
            Parsed { value: seq![d], pos: semi.pos, diags: here }
        }
    } else {
        Parsed { value: Seq::empty(), pos: p, diags: Seq::empty() }
    }
}

/// The groups `a, b: T;` of a `VAR` section (or of a routine's `VAR`
/// section), for as long as a name comes; `what` names the names.
pub open spec fn var_groups_s(ts: Seq<Token>, p: int, what: Seq<char>) -> Parsed<Seq<VarModel>>
    decreases ts.len() - p,
{
    if within(ts, p) && tag_at(ts, p) == TokenTag::Identifier {
        let names = ident_list_s(ts, p, what);
        let colon = expect_s(ts, names.pos, TokenTag::Colon, "':'"@);
        let ty = type_s(ts, colon.pos);
        let semi = expect_s(ts, ty.pos, TokenTag::Semicolon, "';'"@);
        let d = VarModel {
            names: names.value,
            ty: ty.value,
            span: Span { start: span_at(ts, p).start, end: ty.value.span().end },
        };
        let here = names.diags + colon.diags + ty.diags + semi.diags;
        if p < semi.pos < ts.len() {
            let rest = var_groups_s(ts, semi.pos, what);
            Parsed { value: seq![d] + rest.value, pos: rest.pos, diags: here + rest.diags }
        } else {
            Parsed { value: seq![d], pos: semi.pos, diags: here }
        }
    } else {
        Parsed { value: Seq::empty(), pos: p, diags: Seq::empty() }
    }
}

/// The declarations `Name = T;` of a `TYPE` section, for as long as a
/// name comes.
pub open spec fn types_s(ts: Seq<Token>, p: int) -> Parsed<Seq<TypeDeclModel>>
    decreases ts.len() - p,
{
    if within(ts, p) && tag_at(ts, p) == TokenTag::Identifier {
        let name = identifier_s(ts, p, "type name"@);
        let eq = expect_s(ts, name.pos, TokenTag::Eq, "'='"@);
        let ty = type_s(ts, eq.pos);
        let semi = expect_s(ts, ty.pos, TokenTag::Semicolon, "';'"@);
        let d = TypeDeclModel {
            name: name.value,
            ty: ty.value,
            span: Span { start: name.value.span.start, end: ty.value.span().end },
        };
        let here = name.diags + eq.diags + ty.diags + semi.diags;
        if p < semi.pos < ts.len() {
            let rest = types_s(ts, semi.pos);
            Parsed { value: seq![d] + rest.value, pos: rest.pos, diags: here + rest.diags }
        } else {
            Parsed { value: seq![d], pos: semi.pos, diags: here }
        }
    } else {
        Parsed { value: Seq::empty(), pos: p, diags: Seq::empty() }
    }
}

/// The parameters of a group `a, b: T`: one per name, each spanning from
/// its name to the end of the type.
pub open spec fn group_params(names: Seq<IdentModel>, ty: TypeModel, by_ref: bool) -> Seq<ParamModel> {
    names.map_values(
        |n: IdentModel| ParamModel { name: n, ty, by_ref, span: Span { start: n.span.start, end: ty.span().end } },
    )
}

/// The parameter groups `[VAR] a, b: T` separated by `;`, inside the
/// parentheses.
pub open spec fn param_groups_s(ts: Seq<Token>, p: int) -> Parsed<Seq<ParamModel>>
    decreases ts.len() - p,
{
    let by_ref = tag_at(ts, p) == TokenTag::Var;
    let names = ident_list_s(ts, if by_ref { next_pos(ts, p) } else { p }, "parameter name"@);
    let colon = expect_s(ts, names.pos, TokenTag::Colon, "':'"@);
    let ty = type_s(ts, colon.pos);
    let ps = group_params(names.value, ty.value, by_ref);
    let here = names.diags + colon.diags + ty.diags;
    let q = next_pos(ts, ty.pos);
    if within(ts, p) && tag_at(ts, ty.pos) == TokenTag::Semicolon && p < q < ts.len() {
        let rest = param_groups_s(ts, q);
        Parsed { value: ps + rest.value, pos: rest.pos, diags: here + rest.diags }
    } else {
        Parsed { value: ps, pos: ty.pos, diags: here }
    }
}

/// The formal parameters `(a, b: T; VAR c: U)` of a routine, one per name;
/// none without parentheses.
pub open spec fn param_list_s(ts: Seq<Token>, p: int) -> Parsed<Seq<ParamModel>> {
    let q = next_pos(ts, p);
    if tag_at(ts, p) != TokenTag::LParen {
        Parsed { value: Seq::empty(), pos: p, diags: Seq::empty() }
    } else if tag_at(ts, q) == TokenTag::RParen {
        Parsed { value: Seq::empty(), pos: next_pos(ts, q), diags: Seq::empty() }
    } else {
        let g = param_groups_s(ts, q);
        let close = expect_s(ts, g.pos, TokenTag::RParen, "')'"@);
        Parsed { value: g.value, pos: close.pos, diags: g.diags + close.diags }
    }
}

/// The body `BEGIN ... END` of a routine or program; without `BEGIN` it
/// is reported and an empty block stands in.
pub open spec fn body_s(ts: Seq<Token>, p: int) -> Parsed<BlockModel> {
    if tag_at(ts, p) == TokenTag::Begin {
        compound_s(ts, p)
    } else {
        Parsed {
            value: BlockModel { statements: Seq::empty(), span: span_at(ts, p) },
            pos: p,
            diags: seq![expected_diag(ts, p, "'BEGIN'"@)],
        }
    }
}

/// The declaration sections that the body of a routine cannot hold.
pub open spec fn is_unsupported_local_section(t: TokenTag) -> bool {
    t == TokenTag::Const || t == TokenTag::Type || t == TokenTag::Procedure || t == TokenTag::Function
        || t == TokenTag::Label
}

/// Where skipping an unsupported section stops.
pub open spec fn ends_skipped_section(t: TokenTag) -> bool {
    t == TokenTag::Eof || t == TokenTag::Begin || t == TokenTag::End || t == TokenTag::Const || t
        == TokenTag::Var
}

/// The position after skipping a section this parser does not read: at
/// the end of input, `BEGIN`, `END`, `CONST` or `VAR`.
pub open spec fn skip_section_pos(ts: Seq<Token>, p: int) -> int
    decreases ts.len() - p,
{
    let q = next_pos(ts, p);
    if !within(ts, p) || ends_skipped_section(tag_at(ts, p)) || !(p < q < ts.len()) {
        p
    } else {
        skip_section_pos(ts, q)
    }
}

/// The declarations in the body of a routine: `VAR` sections; the other
/// sections are reported and skipped.
pub open spec fn local_decls_s(ts: Seq<Token>, p: int) -> Parsed<Seq<VarModel>>
    decreases ts.len() - p,
{
    let t = tag_at(ts, p);
    let q = next_pos(ts, p);
    if within(ts, p) && t == TokenTag::Var {
        let vs = var_groups_s(ts, q, "variable name"@);
        if p < vs.pos < ts.len() {
            let rest = local_decls_s(ts, vs.pos);
            Parsed { value: vs.value + rest.value, pos: rest.pos, diags: vs.diags + rest.diags }
        } else {
            vs
        }
    } else if within(ts, p) && is_unsupported_local_section(t) {
        let d = DiagModel {
            span: span_at(ts, p),
            message: describe_text(ts[p].kind.model())
                + " declarations are not supported inside a PROCEDURE/FUNCTION body yet (only VAR sections are supported)"@,
        };
        let r = skip_section_pos(ts, q);
        if p < r < ts.len() {
            let rest = local_decls_s(ts, r);
            Parsed { value: rest.value, pos: rest.pos, diags: seq![d] + rest.diags }
        } else {
            Parsed { value: Seq::empty(), pos: r, diags: seq![d] }
        }
    } else {
        Parsed { value: Seq::empty(), pos: p, diags: Seq::empty() }
    }
}

/// `PROCEDURE name(params);` without a body, at the `PROCEDURE`.
pub open spec fn proc_sig_s(ts: Seq<Token>, p: int) -> Parsed<ProcSigModel> {
    let name = identifier_s(ts, next_pos(ts, p), "procedure name"@);
    let params = param_list_s(ts, name.pos);
    let semi = expect_s(ts, params.pos, TokenTag::Semicolon, "';'"@);
    Parsed {
        value: ProcSigModel {
            name: name.value,
            params: params.value,
            span: Span { start: span_at(ts, p).start, end: prev_span(ts, semi.pos).end },
        },
        pos: semi.pos,
        diags: name.diags + params.diags + semi.diags,
    }
}

/// `FUNCTION name(params): T;` without a body, at the `FUNCTION`.
pub open spec fn func_sig_s(ts: Seq<Token>, p: int) -> Parsed<FuncSigModel> {
    let name = identifier_s(ts, next_pos(ts, p), "function name"@);
    let params = param_list_s(ts, name.pos);
    let colon = expect_s(ts, params.pos, TokenTag::Colon, "':'"@);
    let ty = type_s(ts, colon.pos);
    let semi = expect_s(ts, ty.pos, TokenTag::Semicolon, "';'"@);
    Parsed {
        value: FuncSigModel {
            name: name.value,
            params: params.value,
            return_type: ty.value,
            span: Span { start: span_at(ts, p).start, end: prev_span(ts, semi.pos).end },
        },
        pos: semi.pos,
        diags: name.diags + params.diags + colon.diags + ty.diags + semi.diags,
    }
}

/// `PROCEDURE name(params); [VAR ...] BEGIN ... END;`, at the
/// `PROCEDURE`.
#[verifier::opaque]
pub open spec fn proc_decl_s(ts: Seq<Token>, p: int) -> Parsed<ProcModel> {
    let name = identifier_s(ts, next_pos(ts, p), "procedure name"@);
    let params = param_list_s(ts, name.pos);
    let semi = expect_s(ts, params.pos, TokenTag::Semicolon, "';'"@);
    let locals = local_decls_s(ts, semi.pos);
    let body = body_s(ts, locals.pos);
    let last = expect_s(ts, body.pos, TokenTag::Semicolon, "';'"@);
    Parsed {
        value: ProcModel {
            name: name.value,
            params: params.value,
            var_decls: locals.value,
            body: body.value,
            span: Span { start: span_at(ts, p).start, end: prev_span(ts, last.pos).end },
        },
        pos: last.pos,
        diags: name.diags + params.diags + semi.diags + locals.diags + body.diags + last.diags,
    }
}

/// `FUNCTION name(params): T; [VAR ...] BEGIN ... END;`, at the
/// `FUNCTION`.
#[verifier::opaque]
pub open spec fn func_decl_s(ts: Seq<Token>, p: int) -> Parsed<FuncModel> {
    let name = identifier_s(ts, next_pos(ts, p), "function name"@);
    let params = param_list_s(ts, name.pos);
    let colon = expect_s(ts, params.pos, TokenTag::Colon, "':'"@);
    let ty = type_s(ts, colon.pos);
    let semi = expect_s(ts, ty.pos, TokenTag::Semicolon, "';'"@);
    let locals = local_decls_s(ts, semi.pos);
    let body = body_s(ts, locals.pos);
    let last = expect_s(ts, body.pos, TokenTag::Semicolon, "';'"@);
    Parsed {
        value: FuncModel {
            name: name.value,
            params: params.value,
            return_type: ty.value,
            var_decls: locals.value,
            body: body.value,
            span: Span { start: span_at(ts, p).start, end: prev_span(ts, last.pos).end },
        },
        pos: last.pos,
        diags: name.diags + params.diags + colon.diags + ty.diags + semi.diags + locals.diags + body.diags
            + last.diags,
    }
}

/// No declarations at all.
pub open spec fn no_prog_decls() -> ProgDeclsModel {
    ProgDeclsModel {
        uses: Seq::empty(),
        consts: Seq::empty(),
        types: Seq::empty(),
        vars: Seq::empty(),
        procs: Seq::empty(),
        funcs: Seq::empty(),
    }
}

/// The declarations of `a` followed by those of `b`, kind by kind.
pub open spec fn prog_decls_join(a: ProgDeclsModel, b: ProgDeclsModel) -> ProgDeclsModel {
    ProgDeclsModel {
        uses: a.uses + b.uses,
        consts: a.consts + b.consts,
        types: a.types + b.types,
        vars: a.vars + b.vars,
        procs: a.procs + b.procs,
        funcs: a.funcs + b.funcs,
    }
}

/// One declaration section or routine of a program at `p`; where none
/// begins, nothing, at `p`. `LABEL` and `UNIT` are reported and skipped.
pub open spec fn prog_section_s(ts: Seq<Token>, p: int) -> Parsed<ProgDeclsModel> {
    let t = tag_at(ts, p);
    let none = no_prog_decls();
    if t == TokenTag::Uses {
        let u = uses_s(ts, p);
        Parsed { value: ProgDeclsModel { uses: u.value, ..none }, pos: u.pos, diags: u.diags }
    } else if t == TokenTag::Const {
        let c = consts_s(ts, next_pos(ts, p));
        Parsed { value: ProgDeclsModel { consts: c.value, ..none }, pos: c.pos, diags: c.diags }
    } else if t == TokenTag::Type {
        let c = types_s(ts, next_pos(ts, p));
        Parsed { value: ProgDeclsModel { types: c.value, ..none }, pos: c.pos, diags: c.diags }
    } else if t == TokenTag::Var {
        let c = var_groups_s(ts, next_pos(ts, p), "variable name"@);
        Parsed { value: ProgDeclsModel { vars: c.value, ..none }, pos: c.pos, diags: c.diags }
    } else if t == TokenTag::Procedure {
        let d = proc_decl_s(ts, p);
        Parsed { value: ProgDeclsModel { procs: seq![d.value], ..none }, pos: d.pos, diags: d.diags }
    } else if t == TokenTag::Function {
        let d = func_decl_s(ts, p);
        Parsed { value: ProgDeclsModel { funcs: seq![d.value], ..none }, pos: d.pos, diags: d.diags }
    } else if t == TokenTag::Label || t == TokenTag::Unit {
        Parsed {
            value: none,
            pos: skip_section_pos(ts, p),
            diags: seq![
                DiagModel {
                    span: span_at(ts, p),
                    message: describe_text(ts[p].kind.model()) + " declarations are not supported by this parser yet"@,
                },
            ],
        }
    } else {
        Parsed { value: none, pos: p, diags: Seq::empty() }
    }
}

/// The declaration sections and routines of a program, in any order, up
/// to the first token that begins none.
pub open spec fn prog_decls_s(ts: Seq<Token>, p: int) -> Parsed<ProgDeclsModel>
    decreases ts.len() - p,
{
    let one = prog_section_s(ts, p);
    if within(ts, p) && p < one.pos < ts.len() {
        let rest = prog_decls_s(ts, one.pos);
        Parsed { value: prog_decls_join(one.value, rest.value), pos: rest.pos, diags: one.diags + rest.diags }
    } else {
        Parsed { value: no_prog_decls(), pos: p, diags: Seq::empty() }
    }
}

/// `PROGRAM name; declarations BEGIN ... END.`; at the end of input,
/// nothing and a diagnostic.
pub open spec fn program_s(ts: Seq<Token>, p: int) -> Parsed<Option<ProgramModel>> {
    if tag_at(ts, p) == TokenTag::Eof {
        Parsed {
            value: None,
            pos: p,
            diags: seq![DiagModel { span: span_at(ts, p), message: "expected 'PROGRAM', found end of input"@ }],
        }
    } else {
        let start = span_at(ts, p);
        let kw = expect_s(ts, p, TokenTag::Program, "'PROGRAM'"@);
        let name = identifier_s(ts, kw.pos, "program name"@);
        let semi = expect_s(ts, name.pos, TokenTag::Semicolon, "';'"@);
        let decls = prog_decls_s(ts, semi.pos);
        let body = body_s(ts, decls.pos);
        let dot = expect_s(ts, body.pos, TokenTag::Dot, "'.'"@);
        Parsed {
            value: Some(
                ProgramModel {
                    name: name.value,
                    decls: decls.value,
                    body: body.value,
                    span: Span { start: start.start, end: max_u32(prev_span(ts, dot.pos).end, start.end) },
                },
            ),
            pos: dot.pos,
            diags: kw.diags + name.diags + semi.diags + decls.diags + body.diags + dot.diags,
        }
    }
}

/// No interface declarations at all.
pub open spec fn no_iface_decls() -> IfaceDeclsModel {
    IfaceDeclsModel {
        uses: Seq::empty(),
        consts: Seq::empty(),
        types: Seq::empty(),
        vars: Seq::empty(),
        proc_sigs: Seq::empty(),
        func_sigs: Seq::empty(),
    }
}

/// The interface declarations of `a` followed by those of `b`, kind by
/// kind.
pub open spec fn iface_decls_join(a: IfaceDeclsModel, b: IfaceDeclsModel) -> IfaceDeclsModel {
    IfaceDeclsModel {
        uses: a.uses + b.uses,
        consts: a.consts + b.consts,
        types: a.types + b.types,
        vars: a.vars + b.vars,
        proc_sigs: a.proc_sigs + b.proc_sigs,
        func_sigs: a.func_sigs + b.func_sigs,
    }
}

/// One section or routine signature of an `INTERFACE` at `p`; where none
/// begins, nothing, at `p`.
pub open spec fn iface_section_s(ts: Seq<Token>, p: int) -> Parsed<IfaceDeclsModel> {
    let t = tag_at(ts, p);
    let none = no_iface_decls();
    if t == TokenTag::Uses {
        let u = uses_s(ts, p);
        Parsed { value: IfaceDeclsModel { uses: u.value, ..none }, pos: u.pos, diags: u.diags }
    } else if t == TokenTag::Const {
        let c = consts_s(ts, next_pos(ts, p));
        Parsed { value: IfaceDeclsModel { consts: c.value, ..none }, pos: c.pos, diags: c.diags }
    } else if t == TokenTag::Type {
        let c = types_s(ts, next_pos(ts, p));
        Parsed { value: IfaceDeclsModel { types: c.value, ..none }, pos: c.pos, diags: c.diags }
    } else if t == TokenTag::Var {
        let c = var_groups_s(ts, next_pos(ts, p), "variable name"@);
        Parsed { value: IfaceDeclsModel { vars: c.value, ..none }, pos: c.pos, diags: c.diags }
    } else if t == TokenTag::Procedure {
        let d = proc_sig_s(ts, p);
        Parsed { value: IfaceDeclsModel { proc_sigs: seq![d.value], ..none }, pos: d.pos, diags: d.diags }
    } else if t == TokenTag::Function {
        let d = func_sig_s(ts, p);
        Parsed { value: IfaceDeclsModel { func_sigs: seq![d.value], ..none }, pos: d.pos, diags: d.diags }
    } else {
        Parsed { value: none, pos: p, diags: Seq::empty() }
    }
}

/// The sections and signatures of an `INTERFACE`, in any order.
pub open spec fn iface_decls_s(ts: Seq<Token>, p: int) -> Parsed<IfaceDeclsModel>
    decreases ts.len() - p,
{
    let one = iface_section_s(ts, p);
    if within(ts, p) && p < one.pos < ts.len() {
        let rest = iface_decls_s(ts, one.pos);
        Parsed { value: iface_decls_join(one.value, rest.value), pos: rest.pos, diags: one.diags + rest.diags }
    } else {
        Parsed { value: no_iface_decls(), pos: p, diags: Seq::empty() }
    }
}

/// `INTERFACE` and its declarations, at `p`.
pub open spec fn interface_s(ts: Seq<Token>, p: int) -> Parsed<InterfaceModel> {
    let start = span_at(ts, p);
    let kw = expect_s(ts, p, TokenTag::Interface, "'INTERFACE'"@);
    let decls = iface_decls_s(ts, kw.pos);
    Parsed {
        value: InterfaceModel {
            decls: decls.value,
            span: Span { start: start.start, end: max_u32(prev_span(ts, decls.pos).end, start.end) },
        },
        pos: decls.pos,
        diags: kw.diags + decls.diags,
    }
}

/// The routines of an `IMPLEMENTATION`, up to the first token that
/// begins none.
pub open spec fn impl_decls_s(ts: Seq<Token>, p: int) -> Parsed<(Seq<ProcModel>, Seq<FuncModel>)>
    decreases ts.len() - p,
{
    let t = tag_at(ts, p);
    if within(ts, p) && t == TokenTag::Procedure {
        let d = proc_decl_s(ts, p);
        if p < d.pos < ts.len() {
            let rest = impl_decls_s(ts, d.pos);
            Parsed { value: (seq![d.value] + rest.value.0, rest.value.1), pos: rest.pos, diags: d.diags + rest.diags }
        } else {
            Parsed { value: (seq![d.value], Seq::empty()), pos: d.pos, diags: d.diags }
        }
    } else if within(ts, p) && t == TokenTag::Function {
        let d = func_decl_s(ts, p);
        if p < d.pos < ts.len() {
            let rest = impl_decls_s(ts, d.pos);
            Parsed { value: (rest.value.0, seq![d.value] + rest.value.1), pos: rest.pos, diags: d.diags + rest.diags }
        } else {
            Parsed { value: (Seq::empty(), seq![d.value]), pos: d.pos, diags: d.diags }
        }
    } else {
        Parsed { value: (Seq::empty(), Seq::empty()), pos: p, diags: Seq::empty() }
    }
}

/// `IMPLEMENTATION` and its routines, at `p`.
pub open spec fn implementation_s(ts: Seq<Token>, p: int) -> Parsed<ImplModel> {
    let start = span_at(ts, p);
    let kw = expect_s(ts, p, TokenTag::Implementation, "'IMPLEMENTATION'"@);
    let decls = impl_decls_s(ts, kw.pos);
    Parsed {
        value: ImplModel {
            procs: decls.value.0,
            funcs: decls.value.1,
            span: Span { start: start.start, end: max_u32(prev_span(ts, decls.pos).end, start.end) },
        },
        pos: decls.pos,
        diags: kw.diags + decls.diags,
    }
}

/// `UNIT name; INTERFACE ... IMPLEMENTATION ... END.`; at the end of
/// input, nothing and a diagnostic.
pub open spec fn unit_s(ts: Seq<Token>, p: int) -> Parsed<Option<UnitModel>> {
    if tag_at(ts, p) == TokenTag::Eof {
        Parsed {
            value: None,
            pos: p,
            diags: seq![DiagModel { span: span_at(ts, p), message: "expected 'UNIT', found end of input"@ }],
        }
    } else {
        let start = span_at(ts, p);
        let kw = expect_s(ts, p, TokenTag::Unit, "'UNIT'"@);
        let name = identifier_s(ts, kw.pos, "unit name"@);
        let semi = expect_s(ts, name.pos, TokenTag::Semicolon, "';'"@);
        let iface = interface_s(ts, semi.pos);
        let imp = implementation_s(ts, iface.pos);
        let close = expect_span_s(ts, imp.pos, TokenTag::End, "'END'"@);
        let dot = expect_s(ts, close.pos, TokenTag::Dot, "'.'"@);
        Parsed {
            value: Some(
                UnitModel {
                    name: name.value,
                    interface: iface.value,
                    implementation: imp.value,
                    span: Span { start: start.start, end: max_u32(close.value.end, start.end) },
                },
            ),
            pos: dot.pos,
            diags: kw.diags + name.diags + semi.diags + iface.diags + imp.diags + close.diags + dot.diags,
        }
    }
}

/// A whole source file: a unit where it starts with `UNIT`, else a
/// program.
pub open spec fn comp_unit_s(ts: Seq<Token>, p: int) -> Parsed<Option<CompUnitModel>> {
    if tag_at(ts, p) == TokenTag::Unit {
        let u = unit_s(ts, p);
        Parsed {
            value: match u.value {
                Some(m) => Some(CompUnitModel::Unit(m)),
                None => None,
            },
            pos: u.pos,
            diags: u.diags,
        }
    } else {
        let g = program_s(ts, p);
        Parsed {
            value: match g.value {
                Some(m) => Some(CompUnitModel::Program(m)),
                None => None,
            },
            pos: g.pos,
            diags: g.diags,
        }
    }
}

} // verus!
