//! Compilation units: programs and (UCSD) units.

use vstd::prelude::*;

use crate::ast::{
    CompilationUnit, ConstDecl, Diagnostic, FuncDecl, FuncSignature, Identifier,
    ImplementationSection, InterfaceSection, ProcDecl, ProcSignature, Program, Span, TypeDecl, Unit,
    VarDecl,
};
use crate::lexer::token::{Token, TokenTag};
use crate::parser::decl_grammar::{
    comp_unit_s, consts_s, func_decl_s, func_sig_s, iface_decls_join, iface_decls_s, iface_section_s,
    impl_decls_s, implementation_s, interface_s, no_iface_decls, no_prog_decls, proc_decl_s, proc_sig_s,
    prog_decls_join, prog_decls_s, prog_section_s, program_s, skip_section_pos, types_s, unit_s, uses_s,
    var_groups_s,
};
use crate::parser::describe::describe;
use crate::parser::grammar::{expect_s, expect_span_s, identifier_s, next_pos, within, Parsed};
use crate::parser::model::{
    consts_model, diags_extend, func_model, func_sig_model, func_sigs_model, funcs_model, idents_model,
    impl_model, interface_model, lemma_diags_extend_none, lemma_diags_extend_trans, opt_comp_unit_model,
    opt_program_model, opt_unit_model, proc_model, proc_sig_model, proc_sigs_model, procs_model,
    type_decls_model, vars_model, DiagModel, FuncModel, IfaceDeclsModel, ProcModel, ProgDeclsModel,
};
use crate::parser::parser::Parser;
use crate::strings::push_str;

verus! {

/// The declarations of a program gathered so far.
pub open spec fn prog_acc(
    uses: Seq<Identifier>,
    consts: Seq<ConstDecl>,
    types: Seq<TypeDecl>,
    vars: Seq<VarDecl>,
    procs: Seq<ProcDecl>,
    funcs: Seq<FuncDecl>,
) -> ProgDeclsModel {
    ProgDeclsModel {
        uses: idents_model(uses),
        consts: consts_model(consts),
        types: type_decls_model(types),
        vars: vars_model(vars),
        procs: procs_model(procs),
        funcs: funcs_model(funcs),
    }
}

/// The declarations and signatures of an interface gathered so far.
pub open spec fn iface_acc(
    uses: Seq<Identifier>,
    consts: Seq<ConstDecl>,
    types: Seq<TypeDecl>,
    vars: Seq<VarDecl>,
    proc_sigs: Seq<ProcSignature>,
    func_sigs: Seq<FuncSignature>,
) -> IfaceDeclsModel {
    IfaceDeclsModel {
        uses: idents_model(uses),
        consts: consts_model(consts),
        types: type_decls_model(types),
        vars: vars_model(vars),
        proc_sigs: proc_sigs_model(proc_sigs),
        func_sigs: func_sigs_model(func_sigs),
    }
}

/// Joining program declarations is associative, with nothing as unit.
proof fn lemma_prog_join(a: ProgDeclsModel, b: ProgDeclsModel, c: ProgDeclsModel)
    ensures
        prog_decls_join(prog_decls_join(a, b), c) == prog_decls_join(a, prog_decls_join(b, c)),
        prog_decls_join(a, no_prog_decls()) == a,
{
    assert((a.uses + b.uses) + c.uses =~= a.uses + (b.uses + c.uses));
    assert((a.consts + b.consts) + c.consts =~= a.consts + (b.consts + c.consts));
    assert((a.types + b.types) + c.types =~= a.types + (b.types + c.types));
    assert((a.vars + b.vars) + c.vars =~= a.vars + (b.vars + c.vars));
    assert((a.procs + b.procs) + c.procs =~= a.procs + (b.procs + c.procs));
    assert((a.funcs + b.funcs) + c.funcs =~= a.funcs + (b.funcs + c.funcs));
    assert(a.uses + Seq::empty() =~= a.uses);
    assert(a.consts + Seq::empty() =~= a.consts);
    assert(a.types + Seq::empty() =~= a.types);
    assert(a.vars + Seq::empty() =~= a.vars);
    assert(a.procs + Seq::empty() =~= a.procs);
    assert(a.funcs + Seq::empty() =~= a.funcs);
}

/// Joining interface declarations is associative, with nothing as unit.
proof fn lemma_iface_join(a: IfaceDeclsModel, b: IfaceDeclsModel, c: IfaceDeclsModel)
    ensures
        iface_decls_join(iface_decls_join(a, b), c) == iface_decls_join(a, iface_decls_join(b, c)),
        iface_decls_join(a, no_iface_decls()) == a,
{
    assert((a.uses + b.uses) + c.uses =~= a.uses + (b.uses + c.uses));
    assert((a.consts + b.consts) + c.consts =~= a.consts + (b.consts + c.consts));
    assert((a.types + b.types) + c.types =~= a.types + (b.types + c.types));
    assert((a.vars + b.vars) + c.vars =~= a.vars + (b.vars + c.vars));
    assert((a.proc_sigs + b.proc_sigs) + c.proc_sigs =~= a.proc_sigs + (b.proc_sigs + c.proc_sigs));
    assert((a.func_sigs + b.func_sigs) + c.func_sigs =~= a.func_sigs + (b.func_sigs + c.func_sigs));
    assert(a.uses + Seq::empty() =~= a.uses);
    assert(a.consts + Seq::empty() =~= a.consts);
    assert(a.types + Seq::empty() =~= a.types);
    assert(a.vars + Seq::empty() =~= a.vars);
    assert(a.proc_sigs + Seq::empty() =~= a.proc_sigs);
    assert(a.func_sigs + Seq::empty() =~= a.func_sigs);
}

/// One more section of a program read: what was gathered, joined with it,
/// joined with the rest, is still the whole.
proof fn lemma_prog_advance(ts: Seq<Token>, pa: int, cur: ProgDeclsModel, acc: Seq<DiagModel>, total: Parsed<ProgDeclsModel>)
    requires
        within(ts, pa),
        pa < prog_section_s(ts, pa).pos < ts.len(),
        prog_decls_join(cur, prog_decls_s(ts, pa).value) == total.value,
        prog_decls_s(ts, pa).pos == total.pos,
        acc + prog_decls_s(ts, pa).diags == total.diags,
    ensures
        ({
            let one = prog_section_s(ts, pa);
            let rest = prog_decls_s(ts, one.pos);
            &&& prog_decls_join(prog_decls_join(cur, one.value), rest.value) == total.value
            &&& rest.pos == total.pos
            &&& (acc + one.diags) + rest.diags == total.diags
        }),
{
    let one = prog_section_s(ts, pa);
    let rest = prog_decls_s(ts, one.pos);
    lemma_prog_join(cur, one.value, rest.value);
    assert(acc + (one.diags + rest.diags) =~= (acc + one.diags) + rest.diags);
}

/// One more section of an interface read.
proof fn lemma_iface_advance(ts: Seq<Token>, pa: int, cur: IfaceDeclsModel, acc: Seq<DiagModel>, total: Parsed<IfaceDeclsModel>)
    requires
        within(ts, pa),
        pa < iface_section_s(ts, pa).pos < ts.len(),
        iface_decls_join(cur, iface_decls_s(ts, pa).value) == total.value,
        iface_decls_s(ts, pa).pos == total.pos,
        acc + iface_decls_s(ts, pa).diags == total.diags,
    ensures
        ({
            let one = iface_section_s(ts, pa);
            let rest = iface_decls_s(ts, one.pos);
            &&& iface_decls_join(iface_decls_join(cur, one.value), rest.value) == total.value
            &&& rest.pos == total.pos
            &&& (acc + one.diags) + rest.diags == total.diags
        }),
{
    let one = iface_section_s(ts, pa);
    let rest = iface_decls_s(ts, one.pos);
    lemma_iface_join(cur, one.value, rest.value);
    assert(acc + (one.diags + rest.diags) =~= (acc + one.diags) + rest.diags);
}

/// Skipping a section never moves back.
proof fn lemma_skip_section_pos(ts: Seq<Token>, p: int)
    ensures
        skip_section_pos(ts, p) >= p,
    decreases ts.len() - p,
{
    let q = next_pos(ts, p);
    if within(ts, p) && p < q < ts.len() {
        lemma_skip_section_pos(ts, q);
    }
}

impl Parser {
    /// Hands out the diagnostics gathered so far, leaving none.
    fn take_diagnostics(&mut self) -> (r: Vec<Diagnostic>)
        requires
            old(self).wf(),
        ensures
            final(self).wf(),
            final(self).token_list() == old(self).token_list(),
            final(self).position() == old(self).position(),
            final(self).diags().len() == 0,
            r@ == old(self).diags(),
    {
        let mut taken: Vec<Diagnostic> = Vec::new();
        std::mem::swap(&mut taken, &mut self.diagnostics);
        taken
    }

    /// A whole source file: a unit when it starts with `UNIT`, else a
    /// program.
    pub fn parse_compilation_unit(&mut self) -> (r: (Option<CompilationUnit>, Vec<Diagnostic>))
        requires
            old(self).wf(),
        ensures
            final(self).wf(),
            final(self).token_list() == old(self).token_list(),
            final(self).position() == comp_unit_s(old(self).token_list(), old(self).position()).pos,
            final(self).diags().len() == 0,
            opt_comp_unit_model(r.0) == comp_unit_s(old(self).token_list(), old(self).position()).value,
            diags_extend(r.1@, old(self).diags(), comp_unit_s(old(self).token_list(), old(self).position()).diags),
            r.0 is None <==> old(self).cur() == TokenTag::Eof,
            r.0 matches Some(CompilationUnit::Unit(_)) <==> old(self).cur() == TokenTag::Unit,
            r.1@.subrange(0, old(self).diags().len() as int) == old(self).diags(),
            old(self).cur() == TokenTag::Eof ==> r.1@.len() == old(self).diags().len() + 1,
    {
        if self.check(TokenTag::Unit) {
            let (unit, diags) = self.parse_unit();
            match unit {
                Some(u) => (Some(CompilationUnit::Unit(u)), diags),
                None => (None, diags),
            }
        } else {
            let (program, diags) = self.parse_program();
            match program {
                Some(p) => (Some(CompilationUnit::Program(p)), diags),
                None => (None, diags),
            }
        }
    }

    /// `PROGRAM name; declarations BEGIN ... END.` Syntax errors are
    /// reported and parsing goes on, so a program comes back whenever the
    /// input holds anything at all; `None` only for an input that holds
    /// no token. The diagnostics come back with it.
    pub fn parse_program(&mut self) -> (r: (Option<Program>, Vec<Diagnostic>))
        requires
            old(self).wf(),
        ensures
            final(self).wf(),
            final(self).token_list() == old(self).token_list(),
            final(self).position() == program_s(old(self).token_list(), old(self).position()).pos,
            final(self).diags().len() == 0,
            opt_program_model(r.0) == program_s(old(self).token_list(), old(self).position()).value,
            diags_extend(r.1@, old(self).diags(), program_s(old(self).token_list(), old(self).position()).diags),
            r.0 is None <==> old(self).cur() == TokenTag::Eof,
            r.1@.subrange(0, old(self).diags().len() as int) == old(self).diags(),
            old(self).cur() == TokenTag::Eof ==> r.1@.len() == old(self).diags().len() + 1
                && r.1@.last().span == old(self).token_list()[old(self).position()].span,
    {
        let ghost ts = self.tokens@;
        let ghost s0 = *self;
        if self.is_eof() {
            let span = self.peek_span();
            self.error(span, "expected 'PROGRAM', found end of input".to_owned());
            let diags = self.take_diagnostics();
            proof {
                assert(diags@.subrange(0, s0.diagnostics@.len() as int) =~= s0.diagnostics@);
            }
            return (None, diags);
        }
        let start = self.peek_span();
        self.expect(TokenTag::Program, "'PROGRAM'");
        let ghost s1 = *self;
        let name = self.parse_identifier("program name");
        let ghost s2 = *self;
        self.expect(TokenTag::Semicolon, "';'");
        let ghost s3 = *self;
        let mut uses: Vec<Identifier> = Vec::new();
        let mut const_decls: Vec<ConstDecl> = Vec::new();
        let mut type_decls: Vec<TypeDecl> = Vec::new();
        let mut var_decls: Vec<VarDecl> = Vec::new();
        let mut proc_decls: Vec<ProcDecl> = Vec::new();
        let mut func_decls: Vec<FuncDecl> = Vec::new();
        let ghost total = prog_decls_s(ts, s3.pos as int);
        let ghost mut acc: Seq<DiagModel> = Seq::empty();
        proof {
            lemma_diags_extend_none(s3.diagnostics@);
            assert(prog_acc(uses@, const_decls@, type_decls@, var_decls@, proc_decls@, func_decls@) == no_prog_decls());
            assert(prog_decls_join(no_prog_decls(), total.value) == total.value) by {
                let z = no_prog_decls();
                let v = total.value;
                assert(z.uses + v.uses =~= v.uses);
                assert(z.consts + v.consts =~= v.consts);
                assert(z.types + v.types =~= v.types);
                assert(z.vars + v.vars =~= v.vars);
                assert(z.procs + v.procs =~= v.procs);
                assert(z.funcs + v.funcs =~= v.funcs);
            }
            assert(acc + total.diags =~= total.diags);
        }
        loop
            invariant_except_break
                prog_decls_join(
                    prog_acc(uses@, const_decls@, type_decls@, var_decls@, proc_decls@, func_decls@),
                    prog_decls_s(ts, self.pos as int).value,
                ) == total.value,
                prog_decls_s(ts, self.pos as int).pos == total.pos,
                acc + prog_decls_s(ts, self.pos as int).diags == total.diags,
            invariant
                self.steps(s3),
                ts == self.tokens@,
                total == prog_decls_s(ts, s3.pos as int),
                diags_extend(self.diagnostics@, s3.diagnostics@, acc),
            ensures
                self.steps(s3),
                diags_extend(self.diagnostics@, s3.diagnostics@, acc),
                prog_acc(uses@, const_decls@, type_decls@, var_decls@, proc_decls@, func_decls@) == total.value,
                self.pos == total.pos,
                acc == total.diags,
            decreases self.remaining(),
        {
            let ghost sa = *self;
            let ghost pa = sa.pos as int;
            let ghost cur = prog_acc(uses@, const_decls@, type_decls@, var_decls@, proc_decls@, func_decls@);
            let ghost one = prog_section_s(ts, pa);
            let t = self.peek_tag();
            if t == TokenTag::Uses {
                let mut v = self.parse_uses_clause();
                let ghost (before, added) = (uses@, v@);
                uses.append(&mut v);
                proof {
                    assert(idents_model(uses@) =~= idents_model(before) + idents_model(added));
                    assert(prog_acc(uses@, const_decls@, type_decls@, var_decls@, proc_decls@, func_decls@)
                        =~= prog_decls_join(cur, one.value));
                }
            } else if t == TokenTag::Const {
                let mut v = self.parse_const_section();
                let ghost (before, added) = (const_decls@, v@);
                const_decls.append(&mut v);
                proof {
                    assert(consts_model(const_decls@) =~= consts_model(before) + consts_model(added));
                    assert(prog_acc(uses@, const_decls@, type_decls@, var_decls@, proc_decls@, func_decls@)
                        =~= prog_decls_join(cur, one.value));
                }
            } else if t == TokenTag::Type {
                let mut v = self.parse_type_section();
                let ghost (before, added) = (type_decls@, v@);
                type_decls.append(&mut v);
                proof {
                    assert(type_decls_model(type_decls@) =~= type_decls_model(before) + type_decls_model(added));
                    assert(prog_acc(uses@, const_decls@, type_decls@, var_decls@, proc_decls@, func_decls@)
                        =~= prog_decls_join(cur, one.value));
                }
            } else if t == TokenTag::Var {
                let mut v = self.parse_var_section();
                let ghost (before, added) = (var_decls@, v@);
                var_decls.append(&mut v);
                proof {
                    assert(vars_model(var_decls@) =~= vars_model(before) + vars_model(added));
                    assert(prog_acc(uses@, const_decls@, type_decls@, var_decls@, proc_decls@, func_decls@)
                        =~= prog_decls_join(cur, one.value));
                }
            } else if t == TokenTag::Procedure {
                let d = self.parse_proc_decl();
                let ghost before = proc_decls@;
                let ghost m = proc_model(d);
                proc_decls.push(d);
                proof {
                    assert(procs_model(proc_decls@) =~= procs_model(before) + seq![m]);
                    assert(prog_acc(uses@, const_decls@, type_decls@, var_decls@, proc_decls@, func_decls@)
                        =~= prog_decls_join(cur, one.value));
                }
            } else if t == TokenTag::Function {
                let d = self.parse_func_decl();
                let ghost before = func_decls@;
                let ghost m = func_model(d);
                func_decls.push(d);
                proof {
                    assert(funcs_model(func_decls@) =~= funcs_model(before) + seq![m]);
                    assert(prog_acc(uses@, const_decls@, type_decls@, var_decls@, proc_decls@, func_decls@)
                        =~= prog_decls_join(cur, one.value));
                }
            } else if t == TokenTag::Label || t == TokenTag::Unit {
                let span = self.peek_span();
                let mut m = describe(self.peek());
                push_str(&mut m, " declarations are not supported by this parser yet");
                self.error(span, m);
                let ghost sb = *self;
                self.skip_unsupported_section();
                proof {
                    reveal_with_fuel(skip_section_pos, 2);
                    lemma_skip_section_pos(ts, next_pos(ts, pa));
                    lemma_diags_extend_none(sb.diagnostics@);
                    lemma_diags_extend_trans(sa.diagnostics@, sb.diagnostics@, self.diagnostics@, one.diags, Seq::empty());
                    assert(one.diags + Seq::<DiagModel>::empty() =~= one.diags);
                    assert(prog_acc(uses@, const_decls@, type_decls@, var_decls@, proc_decls@, func_decls@)
                        =~= prog_decls_join(cur, one.value));
                }
            } else {
                proof {
                    lemma_prog_join(cur, no_prog_decls(), no_prog_decls());
                    assert(acc + Seq::<DiagModel>::empty() =~= acc);
                }
                break;
            }
            proof {
                lemma_prog_advance(ts, pa, cur, acc, total);
                lemma_diags_extend_trans(s3.diagnostics@, sa.diagnostics@, self.diagnostics@, acc, one.diags);
                acc = acc + one.diags;
            }
        }
        let ghost s4 = *self;
        let body = self.parse_subprogram_body();
        let ghost s5 = *self;
        self.expect(TokenTag::Dot, "'.'");
        let last = self.previous_span().end;
        let end = if last > start.end {
            last
        } else {
            start.end
        };
        let program = Program {
            name,
            uses,
            const_decls,
            type_decls,
            var_decls,
            proc_decls,
            func_decls,
            body,
            span: Span::new(start.start, end),
        };
        let ghost s6 = *self;
        proof {
            let kw = expect_s(ts, s0.pos as int, TokenTag::Program, "'PROGRAM'"@);
            let n = identifier_s(ts, s1.pos as int, "program name"@);
            let semi = expect_s(ts, s2.pos as int, TokenTag::Semicolon, "';'"@);
            let b = crate::parser::decl_grammar::body_s(ts, s4.pos as int);
            let dot = expect_s(ts, s5.pos as int, TokenTag::Dot, "'.'"@);
            lemma_diags_extend_trans(s0.diagnostics@, s1.diagnostics@, s2.diagnostics@, kw.diags, n.diags);
            lemma_diags_extend_trans(s0.diagnostics@, s2.diagnostics@, s3.diagnostics@, kw.diags + n.diags, semi.diags);
            lemma_diags_extend_trans(
                s0.diagnostics@,
                s3.diagnostics@,
                s4.diagnostics@,
                kw.diags + n.diags + semi.diags,
                total.diags,
            );
            lemma_diags_extend_trans(
                s0.diagnostics@,
                s4.diagnostics@,
                s5.diagnostics@,
                kw.diags + n.diags + semi.diags + total.diags,
                b.diags,
            );
            lemma_diags_extend_trans(
                s0.diagnostics@,
                s5.diagnostics@,
                s6.diagnostics@,
                kw.diags + n.diags + semi.diags + total.diags + b.diags,
                dot.diags,
            );
        }
        let diags = self.take_diagnostics();
        proof {
            assert(diags@.subrange(0, s0.diagnostics@.len() as int) =~= s0.diagnostics@);
        }
        (Some(program), diags)
    }

    /// UCSD extension: `UNIT name; INTERFACE ... IMPLEMENTATION ... END.`
    fn parse_unit(&mut self) -> (r: (Option<Unit>, Vec<Diagnostic>))
        requires
            old(self).wf(),
        ensures
            final(self).wf(),
            final(self).token_list() == old(self).token_list(),
            final(self).position() == unit_s(old(self).token_list(), old(self).position()).pos,
            final(self).diags().len() == 0,
            opt_unit_model(r.0) == unit_s(old(self).token_list(), old(self).position()).value,
            diags_extend(r.1@, old(self).diags(), unit_s(old(self).token_list(), old(self).position()).diags),
            r.0 is None <==> old(self).cur() == TokenTag::Eof,
            r.1@.subrange(0, old(self).diags().len() as int) == old(self).diags(),
            old(self).cur() == TokenTag::Eof ==> r.1@.len() == old(self).diags().len() + 1,
    {
        let ghost ts = self.tokens@;
        let ghost s0 = *self;
        if self.is_eof() {
            let span = self.peek_span();
            self.error(span, "expected 'UNIT', found end of input".to_owned());
            let diags = self.take_diagnostics();
            proof {
                assert(diags@.subrange(0, s0.diagnostics@.len() as int) =~= s0.diagnostics@);
            }
            return (None, diags);
        }
        let start = self.peek_span();
        self.expect(TokenTag::Unit, "'UNIT'");
        let ghost s1 = *self;
        let name = self.parse_identifier("unit name");
        let ghost s2 = *self;
        self.expect(TokenTag::Semicolon, "';'");
        let ghost s3 = *self;
        let interface = self.parse_interface_section();
        let ghost s4 = *self;
        let implementation = self.parse_implementation_section();
        let ghost s5 = *self;
        let end_span = self.expect_and_span(TokenTag::End, "'END'");
        let ghost s6 = *self;
        self.expect(TokenTag::Dot, "'.'");
        let end = if end_span.end > start.end {
            end_span.end
        } else {
            start.end
        };
        let unit = Unit { name, interface, implementation, span: Span::new(start.start, end) };
        let ghost s7 = *self;
        proof {
            let kw = expect_s(ts, s0.pos as int, TokenTag::Unit, "'UNIT'"@);
            let n = identifier_s(ts, s1.pos as int, "unit name"@);
            let semi = expect_s(ts, s2.pos as int, TokenTag::Semicolon, "';'"@);
            let i = interface_s(ts, s3.pos as int);
            let m = implementation_s(ts, s4.pos as int);
            let close = expect_span_s(ts, s5.pos as int, TokenTag::End, "'END'"@);
            let dot = expect_s(ts, s6.pos as int, TokenTag::Dot, "'.'"@);
            let d1 = kw.diags + n.diags;
            let d2 = d1 + semi.diags;
            let d3 = d2 + i.diags;
            let d4 = d3 + m.diags;
            let d5 = d4 + close.diags;
            lemma_diags_extend_trans(s0.diagnostics@, s1.diagnostics@, s2.diagnostics@, kw.diags, n.diags);
            lemma_diags_extend_trans(s0.diagnostics@, s2.diagnostics@, s3.diagnostics@, d1, semi.diags);
            lemma_diags_extend_trans(s0.diagnostics@, s3.diagnostics@, s4.diagnostics@, d2, i.diags);
            lemma_diags_extend_trans(s0.diagnostics@, s4.diagnostics@, s5.diagnostics@, d3, m.diags);
            lemma_diags_extend_trans(s0.diagnostics@, s5.diagnostics@, s6.diagnostics@, d4, close.diags);
            lemma_diags_extend_trans(s0.diagnostics@, s6.diagnostics@, s7.diagnostics@, d5, dot.diags);
        }
        let diags = self.take_diagnostics();
        proof {
            assert(diags@.subrange(0, s0.diagnostics@.len() as int) =~= s0.diagnostics@);
        }
        (Some(unit), diags)
    }

    /// `INTERFACE` followed by `USES`, `CONST`, `TYPE` and `VAR` sections
    /// and routine signatures, in any order.
    fn parse_interface_section(&mut self) -> (r: InterfaceSection)
        requires
            old(self).wf(),
        ensures
            final(self).moved(*old(self), interface_s(old(self).token_list(), old(self).position())),
            interface_model(r) == interface_s(old(self).token_list(), old(self).position()).value,
    {
        let ghost ts = self.tokens@;
        let ghost s0 = *self;
        let start = self.peek_span();
        self.expect(TokenTag::Interface, "'INTERFACE'");
        let ghost s1 = *self;
        let mut uses: Vec<Identifier> = Vec::new();
        let mut const_decls: Vec<ConstDecl> = Vec::new();
        let mut type_decls: Vec<TypeDecl> = Vec::new();
        let mut var_decls: Vec<VarDecl> = Vec::new();
        let mut proc_signatures: Vec<ProcSignature> = Vec::new();
        let mut func_signatures: Vec<FuncSignature> = Vec::new();
        let ghost total = iface_decls_s(ts, s1.pos as int);
        let ghost mut acc: Seq<DiagModel> = Seq::empty();
        proof {
            lemma_diags_extend_none(s1.diagnostics@);
            assert(iface_acc(uses@, const_decls@, type_decls@, var_decls@, proc_signatures@, func_signatures@)
                == no_iface_decls());
            assert(iface_decls_join(no_iface_decls(), total.value) == total.value) by {
                let z = no_iface_decls();
                let v = total.value;
                assert(z.uses + v.uses =~= v.uses);
                assert(z.consts + v.consts =~= v.consts);
                assert(z.types + v.types =~= v.types);
                assert(z.vars + v.vars =~= v.vars);
                assert(z.proc_sigs + v.proc_sigs =~= v.proc_sigs);
                assert(z.func_sigs + v.func_sigs =~= v.func_sigs);
            }
            assert(acc + total.diags =~= total.diags);
        }
        loop
            invariant_except_break
                iface_decls_join(
                    iface_acc(uses@, const_decls@, type_decls@, var_decls@, proc_signatures@, func_signatures@),
                    iface_decls_s(ts, self.pos as int).value,
                ) == total.value,
                iface_decls_s(ts, self.pos as int).pos == total.pos,
                acc + iface_decls_s(ts, self.pos as int).diags == total.diags,
            invariant
                self.steps(s1),
                ts == self.tokens@,
                total == iface_decls_s(ts, s1.pos as int),
                diags_extend(self.diagnostics@, s1.diagnostics@, acc),
            ensures
                self.steps(s1),
                diags_extend(self.diagnostics@, s1.diagnostics@, acc),
                iface_acc(uses@, const_decls@, type_decls@, var_decls@, proc_signatures@, func_signatures@)
                    == total.value,
                self.pos == total.pos,
                acc == total.diags,
            decreases self.remaining(),
        {
            let ghost sa = *self;
            let ghost pa = sa.pos as int;
            let ghost cur = iface_acc(uses@, const_decls@, type_decls@, var_decls@, proc_signatures@, func_signatures@);
            let ghost one = iface_section_s(ts, pa);
            let t = self.peek_tag();
            if t == TokenTag::Uses {
                let mut v = self.parse_uses_clause();
                let ghost (before, added) = (uses@, v@);
                uses.append(&mut v);
                proof {
                    assert(idents_model(uses@) =~= idents_model(before) + idents_model(added));
                    assert(iface_acc(uses@, const_decls@, type_decls@, var_decls@, proc_signatures@, func_signatures@)
                        =~= iface_decls_join(cur, one.value));
                }
            } else if t == TokenTag::Const {
                let mut v = self.parse_const_section();
                let ghost (before, added) = (const_decls@, v@);
                const_decls.append(&mut v);
                proof {
                    assert(consts_model(const_decls@) =~= consts_model(before) + consts_model(added));
                    assert(iface_acc(uses@, const_decls@, type_decls@, var_decls@, proc_signatures@, func_signatures@)
                        =~= iface_decls_join(cur, one.value));
                }
            } else if t == TokenTag::Type {
                let mut v = self.parse_type_section();
                let ghost (before, added) = (type_decls@, v@);
                type_decls.append(&mut v);
                proof {
                    assert(type_decls_model(type_decls@) =~= type_decls_model(before) + type_decls_model(added));
                    assert(iface_acc(uses@, const_decls@, type_decls@, var_decls@, proc_signatures@, func_signatures@)
                        =~= iface_decls_join(cur, one.value));
                }
            } else if t == TokenTag::Var {
                let mut v = self.parse_var_section();
                let ghost (before, added) = (var_decls@, v@);
                var_decls.append(&mut v);
                proof {
                    assert(vars_model(var_decls@) =~= vars_model(before) + vars_model(added));
                    assert(iface_acc(uses@, const_decls@, type_decls@, var_decls@, proc_signatures@, func_signatures@)
                        =~= iface_decls_join(cur, one.value));
                }
            } else if t == TokenTag::Procedure {
                let s = self.parse_proc_signature();
                let ghost before = proc_signatures@;
                let ghost m = proc_sig_model(s);
                proc_signatures.push(s);
                proof {
                    assert(proc_sigs_model(proc_signatures@) =~= proc_sigs_model(before) + seq![m]);
                    assert(iface_acc(uses@, const_decls@, type_decls@, var_decls@, proc_signatures@, func_signatures@)
                        =~= iface_decls_join(cur, one.value));
                }
            } else if t == TokenTag::Function {
                let s = self.parse_func_signature();
                let ghost before = func_signatures@;
                let ghost m = func_sig_model(s);
                func_signatures.push(s);
                proof {
                    assert(func_sigs_model(func_signatures@) =~= func_sigs_model(before) + seq![m]);
                    assert(iface_acc(uses@, const_decls@, type_decls@, var_decls@, proc_signatures@, func_signatures@)
                        =~= iface_decls_join(cur, one.value));
                }
            } else {
                proof {
                    lemma_iface_join(cur, no_iface_decls(), no_iface_decls());
                    assert(acc + Seq::<DiagModel>::empty() =~= acc);
                }
                break;
            }
            proof {
                lemma_iface_advance(ts, pa, cur, acc, total);
                lemma_diags_extend_trans(s1.diagnostics@, sa.diagnostics@, self.diagnostics@, acc, one.diags);
                acc = acc + one.diags;
            }
        }
        let last = self.previous_span().end;
        let end = if last > start.end {
            last
        } else {
            start.end
        };
        proof {
            let kw = expect_s(ts, s0.pos as int, TokenTag::Interface, "'INTERFACE'"@);
            lemma_diags_extend_trans(s0.diagnostics@, s1.diagnostics@, self.diagnostics@, kw.diags, acc);
        }
        InterfaceSection {
            uses,
            const_decls,
            type_decls,
            var_decls,
            proc_signatures,
            func_signatures,
            span: Span::new(start.start, end),
        }
    }

    /// `IMPLEMENTATION` followed by routine declarations.
    fn parse_implementation_section(&mut self) -> (r: ImplementationSection)
        requires
            old(self).wf(),
        ensures
            final(self).moved(*old(self), implementation_s(old(self).token_list(), old(self).position())),
            impl_model(r) == implementation_s(old(self).token_list(), old(self).position()).value,
    {
        let ghost ts = self.tokens@;
        let ghost s0 = *self;
        let start = self.peek_span();
        self.expect(TokenTag::Implementation, "'IMPLEMENTATION'");
        let ghost s1 = *self;
        let mut proc_decls: Vec<ProcDecl> = Vec::new();
        let mut func_decls: Vec<FuncDecl> = Vec::new();
        let ghost total = impl_decls_s(ts, s1.pos as int);
        let ghost mut acc: Seq<DiagModel> = Seq::empty();
        proof {
            lemma_diags_extend_none(s1.diagnostics@);
            assert(procs_model(proc_decls@) + total.value.0 =~= total.value.0);
            assert(funcs_model(func_decls@) + total.value.1 =~= total.value.1);
            assert(acc + total.diags =~= total.diags);
        }
        loop
            invariant_except_break
                procs_model(proc_decls@) + impl_decls_s(ts, self.pos as int).value.0 == total.value.0,
                funcs_model(func_decls@) + impl_decls_s(ts, self.pos as int).value.1 == total.value.1,
                impl_decls_s(ts, self.pos as int).pos == total.pos,
                acc + impl_decls_s(ts, self.pos as int).diags == total.diags,
            invariant
                self.steps(s1),
                ts == self.tokens@,
                total == impl_decls_s(ts, s1.pos as int),
                diags_extend(self.diagnostics@, s1.diagnostics@, acc),
            ensures
                self.steps(s1),
                diags_extend(self.diagnostics@, s1.diagnostics@, acc),
                procs_model(proc_decls@) == total.value.0,
                funcs_model(func_decls@) == total.value.1,
                self.pos == total.pos,
                acc == total.diags,
            decreases self.remaining(),
        {
            let ghost sa = *self;
            let ghost pa = sa.pos as int;
            let t = self.peek_tag();
            if t == TokenTag::Procedure {
                let d = self.parse_proc_decl();
                let ghost before = proc_decls@;
                let ghost m = proc_model(d);
                proc_decls.push(d);
                proof {
                    let dd = proc_decl_s(ts, pa);
                    let rest = impl_decls_s(ts, self.pos as int);
                    assert(procs_model(proc_decls@) =~= procs_model(before) + seq![m]);
                    assert(procs_model(before) + (seq![m] + rest.value.0) =~= procs_model(proc_decls@) + rest.value.0);
                    lemma_diags_extend_trans(s1.diagnostics@, sa.diagnostics@, self.diagnostics@, acc, dd.diags);
                    assert(acc + (dd.diags + rest.diags) =~= (acc + dd.diags) + rest.diags);
                    acc = acc + dd.diags;
                }
            } else if t == TokenTag::Function {
                let d = self.parse_func_decl();
                let ghost before = func_decls@;
                let ghost m = func_model(d);
                func_decls.push(d);
                proof {
                    let dd = func_decl_s(ts, pa);
                    let rest = impl_decls_s(ts, self.pos as int);
                    assert(funcs_model(func_decls@) =~= funcs_model(before) + seq![m]);
                    assert(funcs_model(before) + (seq![m] + rest.value.1) =~= funcs_model(func_decls@) + rest.value.1);
                    lemma_diags_extend_trans(s1.diagnostics@, sa.diagnostics@, self.diagnostics@, acc, dd.diags);
                    assert(acc + (dd.diags + rest.diags) =~= (acc + dd.diags) + rest.diags);
                    acc = acc + dd.diags;
                }
            } else {
                proof {
                    assert(procs_model(proc_decls@) + Seq::<ProcModel>::empty() =~= procs_model(proc_decls@));
                    assert(funcs_model(func_decls@) + Seq::<FuncModel>::empty() =~= funcs_model(func_decls@));
                    assert(acc + Seq::<DiagModel>::empty() =~= acc);
                }
                break;
            }
        }
        let last = self.previous_span().end;
        let end = if last > start.end {
            last
        } else {
            start.end
        };
        proof {
            let kw = expect_s(ts, s0.pos as int, TokenTag::Implementation, "'IMPLEMENTATION'"@);
            lemma_diags_extend_trans(s0.diagnostics@, s1.diagnostics@, self.diagnostics@, kw.diags, acc);
        }
        ImplementationSection { proc_decls, func_decls, span: Span::new(start.start, end) }
    }
}

} // verus!
