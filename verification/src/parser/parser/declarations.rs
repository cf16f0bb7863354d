//! Declaration sections and routines.

use vstd::prelude::*;

use crate::ast::decl::clone_type;
use crate::ast::{
    Block, ConstDecl, FuncDecl, FuncSignature, Identifier, ParamDecl, ProcDecl, ProcSignature, Span,
    TypeDecl, VarDecl,
};
use crate::lexer::token::TokenTag;
use crate::parser::decl_grammar::{
    body_s, consts_s, func_decl_s, func_sig_s, group_params, is_unsupported_local_section,
    local_decls_s, param_groups_s, param_list_s, proc_decl_s, proc_sig_s, skip_section_pos, types_s,
    uses_s, var_groups_s,
};
use crate::parser::describe::describe;
use crate::parser::grammar::{
    const_literal_s, expect_s, expected_diag, ident_list_s, identifier_s, next_pos, span_at, type_s,
    Parsed,
};
use crate::parser::model::{
    block_model, const_model, consts_model, diags_extend, func_model, func_sig_model, ident_model,
    idents_model, lemma_diags_extend_none, lemma_diags_extend_trans, lemma_type_model_span, lit_model,
    params_model, param_model, proc_model, proc_sig_model, type_decl_model, type_decls_model,
    type_model, var_model, vars_model, ConstModel, DiagModel, ParamModel, TypeDeclModel, VarModel,
};
use crate::parser::parser::Parser;
use crate::strings::push_str;

verus! {

impl Parser {
    /// `USES a, b, ...;` (UCSD): the unit names.
    pub(crate) fn parse_uses_clause(&mut self) -> (r: Vec<Identifier>)
        requires
            old(self).wf(),
            old(self).cur() == TokenTag::Uses,
        ensures
            final(self).moved(*old(self), uses_s(old(self).token_list(), old(self).position())),
            idents_model(r@) == uses_s(old(self).token_list(), old(self).position()).value,
            final(self).position() > old(self).position(),
    {
        let ghost ts = self.tokens@;
        let ghost s0 = *self;
        self.advance();
        let ghost s1 = *self;
        let names = self.parse_ident_list("unit name");
        let ghost s2 = *self;
        self.expect(TokenTag::Semicolon, "';'");
        proof {
            let n = ident_list_s(ts, s1.pos as int, "unit name"@);
            let e = expect_s(ts, s2.pos as int, TokenTag::Semicolon, "';'"@);
            lemma_diags_extend_none(s0.diagnostics@);
            lemma_diags_extend_trans(s0.diagnostics@, s1.diagnostics@, s2.diagnostics@, Seq::empty(), n.diags);
            lemma_diags_extend_trans(s0.diagnostics@, s2.diagnostics@, self.diagnostics@, Seq::empty() + n.diags, e.diags);
            assert(Seq::<DiagModel>::empty() + n.diags + e.diags =~= n.diags + e.diags);
        }
        names
    }

    /// `CONST name = literal; ...`.
    pub(crate) fn parse_const_section(&mut self) -> (r: Vec<ConstDecl>)
        requires
            old(self).wf(),
            old(self).cur() == TokenTag::Const,
        ensures
            final(self).moved(*old(self), consts_s(old(self).token_list(), next_pos(old(self).token_list(), old(self).position()))),
            consts_model(r@) == consts_s(old(self).token_list(), next_pos(old(self).token_list(), old(self).position())).value,
            final(self).position() > old(self).position(),
    {
        let ghost ts = self.tokens@;
        let ghost s0 = *self;
        self.advance();
        let ghost s1 = *self;
        let ghost total = consts_s(ts, s1.pos as int);
        let ghost mut acc: Seq<DiagModel> = Seq::empty();
        let mut decls: Vec<ConstDecl> = Vec::new();
        proof {
            lemma_diags_extend_none(s0.diagnostics@);
            assert(consts_model(decls@) + total.value =~= total.value);
            assert(acc + total.diags =~= total.diags);
        }
        while self.check(TokenTag::Identifier)
            invariant
                self.steps(s1),
                s1.steps(s0),
                ts == self.tokens@,
                total == consts_s(ts, s1.pos as int),
                diags_extend(self.diagnostics@, s0.diagnostics@, acc),
                consts_model(decls@) + consts_s(ts, self.pos as int).value == total.value,
                consts_s(ts, self.pos as int).pos == total.pos,
                acc + consts_s(ts, self.pos as int).diags == total.diags,
            decreases self.remaining(),
        {
            let ghost sa = *self;
            let name = self.parse_identifier("constant name");
            let ghost sb = *self;
            self.expect(TokenTag::Eq, "'='");
            let ghost sc = *self;
            let value = self.parse_const_literal();
            let ghost sd = *self;
            self.expect(TokenTag::Semicolon, "';'");
            let span = Span::new(name.span.start, value.span().end);
            let ghost before = decls@;
            decls.push(ConstDecl { name, value, span });
            proof {
                let n = identifier_s(ts, sa.pos as int, "constant name"@);
                let e = expect_s(ts, sb.pos as int, TokenTag::Eq, "'='"@);
                let v = const_literal_s(ts, sc.pos as int);
                let m = expect_s(ts, sd.pos as int, TokenTag::Semicolon, "';'"@);
                let here = n.diags + e.diags + v.diags + m.diags;
                let rest = consts_s(ts, self.pos as int);
                assert(consts_s(ts, sa.pos as int) == Parsed {
                    value: seq![const_model(decls@.last())] + rest.value,
                    pos: rest.pos,
                    diags: here + rest.diags,
                });
                assert(consts_model(decls@) =~= consts_model(before).push(const_model(decls@.last())));
                assert(consts_model(before) + (seq![const_model(decls@.last())] + rest.value) =~= consts_model(decls@)
                    + rest.value);
                lemma_diags_extend_trans(s0.diagnostics@, sa.diagnostics@, sb.diagnostics@, acc, n.diags);
                lemma_diags_extend_trans(s0.diagnostics@, sb.diagnostics@, sc.diagnostics@, acc + n.diags, e.diags);
                lemma_diags_extend_trans(s0.diagnostics@, sc.diagnostics@, sd.diagnostics@, acc + n.diags + e.diags, v.diags);
                lemma_diags_extend_trans(
                    s0.diagnostics@,
                    sd.diagnostics@,
                    self.diagnostics@,
                    acc + n.diags + e.diags + v.diags,
                    m.diags,
                );
                assert(acc + n.diags + e.diags + v.diags + m.diags =~= acc + here);
                assert(acc + (here + rest.diags) =~= (acc + here) + rest.diags);
                acc = acc + here;
            }
        }
        proof {
            assert(consts_model(decls@) + Seq::<ConstModel>::empty() =~= consts_model(decls@));
            assert(acc + Seq::<DiagModel>::empty() =~= acc);
        }
        decls
    }

    /// Groups `a, b: T;` for as long as a name comes.
    fn parse_var_groups(&mut self, what: &str) -> (r: Vec<VarDecl>)
        requires
            old(self).wf(),
        ensures
            final(self).moved(*old(self), var_groups_s(old(self).token_list(), old(self).position(), what@)),
            vars_model(r@) == var_groups_s(old(self).token_list(), old(self).position(), what@).value,
    {
        let ghost ts = self.tokens@;
        let ghost s0 = *self;
        let ghost total = var_groups_s(ts, s0.pos as int, what@);
        let ghost mut acc: Seq<DiagModel> = Seq::empty();
        let mut decls: Vec<VarDecl> = Vec::new();
        proof {
            lemma_diags_extend_none(s0.diagnostics@);
            assert(vars_model(decls@) + total.value =~= total.value);
            assert(acc + total.diags =~= total.diags);
        }
        while self.check(TokenTag::Identifier)
            invariant
                self.steps(s0),
                ts == self.tokens@,
                total == var_groups_s(ts, s0.pos as int, what@),
                diags_extend(self.diagnostics@, s0.diagnostics@, acc),
                vars_model(decls@) + var_groups_s(ts, self.pos as int, what@).value == total.value,
                var_groups_s(ts, self.pos as int, what@).pos == total.pos,
                acc + var_groups_s(ts, self.pos as int, what@).diags == total.diags,
            decreases self.remaining(),
        {
            let ghost sa = *self;
            let start = self.peek_span();
            let names = self.parse_ident_list(what);
            let ghost sb = *self;
            self.expect(TokenTag::Colon, "':'");
            let ghost sc = *self;
            let ty = self.parse_type();
            let ghost sd = *self;
            self.expect(TokenTag::Semicolon, "';'");
            proof {
                lemma_type_model_span(ty);
            }
            let span = Span::new(start.start, ty.span().end);
            let ghost before = decls@;
            decls.push(VarDecl { names, ty, span });
            proof {
                let n = ident_list_s(ts, sa.pos as int, what@);
                let c = expect_s(ts, sb.pos as int, TokenTag::Colon, "':'"@);
                let t = type_s(ts, sc.pos as int);
                let m = expect_s(ts, sd.pos as int, TokenTag::Semicolon, "';'"@);
                let here = n.diags + c.diags + t.diags + m.diags;
                let rest = var_groups_s(ts, self.pos as int, what@);
                assert(var_groups_s(ts, sa.pos as int, what@) == Parsed {
                    value: seq![var_model(decls@.last())] + rest.value,
                    pos: rest.pos,
                    diags: here + rest.diags,
                });
                assert(vars_model(decls@) =~= vars_model(before).push(var_model(decls@.last())));
                assert(vars_model(before) + (seq![var_model(decls@.last())] + rest.value) =~= vars_model(decls@)
                    + rest.value);
                lemma_diags_extend_trans(s0.diagnostics@, sa.diagnostics@, sb.diagnostics@, acc, n.diags);
                lemma_diags_extend_trans(s0.diagnostics@, sb.diagnostics@, sc.diagnostics@, acc + n.diags, c.diags);
                lemma_diags_extend_trans(s0.diagnostics@, sc.diagnostics@, sd.diagnostics@, acc + n.diags + c.diags, t.diags);
                lemma_diags_extend_trans(
                    s0.diagnostics@,
                    sd.diagnostics@,
                    self.diagnostics@,
                    acc + n.diags + c.diags + t.diags,
                    m.diags,
                );
                assert(acc + n.diags + c.diags + t.diags + m.diags =~= acc + here);
                assert(acc + (here + rest.diags) =~= (acc + here) + rest.diags);
                acc = acc + here;
            }
        }
        proof {
            assert(vars_model(decls@) + Seq::<VarModel>::empty() =~= vars_model(decls@));
            assert(acc + Seq::<DiagModel>::empty() =~= acc);
        }
        decls
    }

    /// `VAR a, b: T; ...`.
    pub(crate) fn parse_var_section(&mut self) -> (r: Vec<VarDecl>)
        requires
            old(self).wf(),
            old(self).cur() == TokenTag::Var,
        ensures
            final(self).moved(
                *old(self),
                var_groups_s(old(self).token_list(), next_pos(old(self).token_list(), old(self).position()), "variable name"@),
            ),
            vars_model(r@) == var_groups_s(
                old(self).token_list(),
                next_pos(old(self).token_list(), old(self).position()),
                "variable name"@,
            ).value,
            final(self).position() > old(self).position(),
    {
        let ghost s0 = *self;
        self.advance();
        let ghost s1 = *self;
        let r = self.parse_var_groups("variable name");
        proof {
            lemma_diags_extend_none(s0.diagnostics@);
            let g = var_groups_s(s0.tokens@, s1.pos as int, "variable name"@);
            lemma_diags_extend_trans(s0.diagnostics@, s1.diagnostics@, self.diagnostics@, Seq::empty(), g.diags);
            assert(Seq::<DiagModel>::empty() + g.diags =~= g.diags);
        }
        r
    }

    /// `TYPE Name = T; ...`, in source order.
    pub(crate) fn parse_type_section(&mut self) -> (r: Vec<TypeDecl>)
        requires
            old(self).wf(),
            old(self).cur() == TokenTag::Type,
        ensures
            final(self).moved(*old(self), types_s(old(self).token_list(), next_pos(old(self).token_list(), old(self).position()))),
            type_decls_model(r@) == types_s(old(self).token_list(), next_pos(old(self).token_list(), old(self).position())).value,
            final(self).position() > old(self).position(),
    {
        let ghost ts = self.tokens@;
        let ghost s0 = *self;
        self.advance();
        let ghost s1 = *self;
        let ghost total = types_s(ts, s1.pos as int);
        let ghost mut acc: Seq<DiagModel> = Seq::empty();
        let mut decls: Vec<TypeDecl> = Vec::new();
        proof {
            lemma_diags_extend_none(s0.diagnostics@);
            assert(type_decls_model(decls@) + total.value =~= total.value);
            assert(acc + total.diags =~= total.diags);
        }
        while self.check(TokenTag::Identifier)
            invariant
                self.steps(s1),
                s1.steps(s0),
                ts == self.tokens@,
                total == types_s(ts, s1.pos as int),
                diags_extend(self.diagnostics@, s0.diagnostics@, acc),
                type_decls_model(decls@) + types_s(ts, self.pos as int).value == total.value,
                types_s(ts, self.pos as int).pos == total.pos,
                acc + types_s(ts, self.pos as int).diags == total.diags,
            decreases self.remaining(),
        {
            let ghost sa = *self;
            let name = self.parse_identifier("type name");
            let ghost sb = *self;
            self.expect(TokenTag::Eq, "'='");
            let ghost sc = *self;
            let ty = self.parse_type();
            let ghost sd = *self;
            self.expect(TokenTag::Semicolon, "';'");
            proof {
                lemma_type_model_span(ty);
            }
            let span = Span::new(name.span.start, ty.span().end);
            let ghost before = decls@;
            decls.push(TypeDecl { name, ty, span });
            proof {
                let n = identifier_s(ts, sa.pos as int, "type name"@);
                let e = expect_s(ts, sb.pos as int, TokenTag::Eq, "'='"@);
                let t = type_s(ts, sc.pos as int);
                let m = expect_s(ts, sd.pos as int, TokenTag::Semicolon, "';'"@);
                let here = n.diags + e.diags + t.diags + m.diags;
                let rest = types_s(ts, self.pos as int);
                assert(types_s(ts, sa.pos as int) == Parsed {
                    value: seq![type_decl_model(decls@.last())] + rest.value,
                    pos: rest.pos,
                    diags: here + rest.diags,
                });
                assert(type_decls_model(decls@) =~= type_decls_model(before).push(type_decl_model(decls@.last())));
                assert(type_decls_model(before) + (seq![type_decl_model(decls@.last())] + rest.value)
                    =~= type_decls_model(decls@) + rest.value);
                lemma_diags_extend_trans(s0.diagnostics@, sa.diagnostics@, sb.diagnostics@, acc, n.diags);
                lemma_diags_extend_trans(s0.diagnostics@, sb.diagnostics@, sc.diagnostics@, acc + n.diags, e.diags);
                lemma_diags_extend_trans(s0.diagnostics@, sc.diagnostics@, sd.diagnostics@, acc + n.diags + e.diags, t.diags);
                lemma_diags_extend_trans(
                    s0.diagnostics@,
                    sd.diagnostics@,
                    self.diagnostics@,
                    acc + n.diags + e.diags + t.diags,
                    m.diags,
                );
                assert(acc + n.diags + e.diags + t.diags + m.diags =~= acc + here);
                assert(acc + (here + rest.diags) =~= (acc + here) + rest.diags);
                acc = acc + here;
            }
        }
        proof {
            assert(type_decls_model(decls@) + Seq::<TypeDeclModel>::empty() =~= type_decls_model(decls@));
            assert(acc + Seq::<DiagModel>::empty() =~= acc);
        }
        decls
    }
}

impl Parser {
    /// The formal parameters `(a, b: T; VAR c: U)`, one per name; none
    /// without parentheses.
    fn parse_param_list(&mut self) -> (r: Vec<ParamDecl>)
        requires
            old(self).wf(),
        ensures
            final(self).moved(*old(self), param_list_s(old(self).token_list(), old(self).position())),
            params_model(r@) == param_list_s(old(self).token_list(), old(self).position()).value,
    {
        let ghost ts = self.tokens@;
        let ghost s0 = *self;
        let mut params: Vec<ParamDecl> = Vec::new();
        proof {
            lemma_diags_extend_none(s0.diagnostics@);
            assert(params_model(params@) =~= Seq::<ParamModel>::empty());
        }
        if !self.check(TokenTag::LParen) {
            return params;
        }
        self.advance();
        if self.check(TokenTag::RParen) {
            self.advance();
            return params;
        }
        let ghost s1 = *self;
        let ghost total = param_groups_s(ts, s1.pos as int);
        let ghost mut acc: Seq<DiagModel> = Seq::empty();
        proof {
            assert(params_model(params@) + total.value =~= total.value);
            assert(acc + total.diags =~= total.diags);
        }
        loop
            invariant_except_break
                params_model(params@) + param_groups_s(ts, self.pos as int).value == total.value,
                param_groups_s(ts, self.pos as int).pos == total.pos,
                acc + param_groups_s(ts, self.pos as int).diags == total.diags,
            invariant
                self.steps(s1),
                s1.steps(s0),
                ts == self.tokens@,
                total == param_groups_s(ts, s1.pos as int),
                diags_extend(self.diagnostics@, s0.diagnostics@, acc),
            ensures
                self.steps(s1),
                diags_extend(self.diagnostics@, s0.diagnostics@, acc),
                params_model(params@) == total.value,
                self.pos == total.pos,
                acc == total.diags,
            decreases self.remaining(),
        {
            let ghost sa = *self;
            let by_ref = self.eat(TokenTag::Var);
            let ghost sb = *self;
            let names = self.parse_ident_list("parameter name");
            let ghost sc = *self;
            self.expect(TokenTag::Colon, "':'");
            let ghost sd = *self;
            let ty = self.parse_type();
            let ghost se = *self;
            proof {
                lemma_type_model_span(ty);
            }
            let ty_end = ty.span().end;
            let ghost base = params@;
            let ghost group = group_params(idents_model(names@), type_model(ty), by_ref);
            let mut i: usize = 0;
            proof {
                assert(params_model(params@) == params_model(base) + group.take(0));
            }
            while i < names.len()
                invariant
                    i <= names@.len(),
                    group == group_params(idents_model(names@), type_model(ty), by_ref),
                    ty_end == type_model(ty).span().end,
                    params_model(params@) == params_model(base) + group.take(i as int),
                decreases names@.len() - i,
            {
                let name = names[i].clone();
                let span = Span::new(name.span.start, ty_end);
                let ghost before = params@;
                params.push(ParamDecl { name, ty: clone_type(&ty), by_ref, span });
                proof {
                    assert(params_model(params@) =~= params_model(before).push(param_model(params@.last())));
                    assert(param_model(params@.last()) == group[i as int]);
                    assert(group.take(i + 1) =~= group.take(i as int).push(group[i as int]));
                    assert(params_model(base) + group.take(i + 1) =~= (params_model(base) + group.take(i as int)).push(
                        group[i as int],
                    ));
                }
                i = i + 1;
            }
            proof {
                assert(group.take(i as int) =~= group);
                let n = ident_list_s(ts, sb.pos as int, "parameter name"@);
                let c = expect_s(ts, sc.pos as int, TokenTag::Colon, "':'"@);
                let t = type_s(ts, sd.pos as int);
                let here = n.diags + c.diags + t.diags;
                lemma_diags_extend_none(sa.diagnostics@);
                lemma_diags_extend_trans(s0.diagnostics@, sb.diagnostics@, sc.diagnostics@, acc, n.diags);
                lemma_diags_extend_trans(s0.diagnostics@, sc.diagnostics@, sd.diagnostics@, acc + n.diags, c.diags);
                lemma_diags_extend_trans(s0.diagnostics@, sd.diagnostics@, se.diagnostics@, acc + n.diags + c.diags, t.diags);
                assert(acc + n.diags + c.diags + t.diags =~= acc + here);
            }
            if self.check(TokenTag::Semicolon) {
                self.advance();
                proof {
                    let n = ident_list_s(ts, sb.pos as int, "parameter name"@);
                    let c = expect_s(ts, sc.pos as int, TokenTag::Colon, "':'"@);
                    let t = type_s(ts, sd.pos as int);
                    let here = n.diags + c.diags + t.diags;
                    let rest = param_groups_s(ts, self.pos as int);
                    assert(param_groups_s(ts, sa.pos as int) == Parsed {
                        value: group + rest.value,
                        pos: rest.pos,
                        diags: here + rest.diags,
                    });
                    assert(params_model(base) + (group + rest.value) =~= params_model(params@) + rest.value);
                    assert(acc + (here + rest.diags) =~= (acc + here) + rest.diags);
                    acc = acc + here;
                }
            } else {
                proof {
                    let n = ident_list_s(ts, sb.pos as int, "parameter name"@);
                    let c = expect_s(ts, sc.pos as int, TokenTag::Colon, "':'"@);
                    let t = type_s(ts, sd.pos as int);
                    let here = n.diags + c.diags + t.diags;
                    assert(param_groups_s(ts, sa.pos as int) == Parsed { value: group, pos: se.pos as int, diags: here });
                    acc = acc + here;
                }
                break;
            }
        }
        let ghost s2 = *self;
        self.expect(TokenTag::RParen, "')'");
        proof {
            let e = expect_s(ts, s2.pos as int, TokenTag::RParen, "')'"@);
            lemma_diags_extend_trans(s0.diagnostics@, s2.diagnostics@, self.diagnostics@, acc, e.diags);
        }
        params
    }

    /// The body of a routine or program: `BEGIN ... END`. Without `BEGIN`
    /// it is reported and an empty block stands in.
    pub(crate) fn parse_subprogram_body(&mut self) -> (b: Block)
        requires
            old(self).wf(),
        ensures
            final(self).moved(*old(self), body_s(old(self).token_list(), old(self).position())),
            block_model(b) == body_s(old(self).token_list(), old(self).position()).value,
    {
        if self.check(TokenTag::Begin) {
            self.parse_compound_statement()
        } else {
            let span = self.peek_span();
            self.error_expected("'BEGIN'");
            Block { statements: Vec::new(), span }
        }
    }

    /// Skips a declaration section this parser does not read, up to the
    /// end of input, `BEGIN`, `END`, `CONST` or `VAR`.
    pub(crate) fn skip_unsupported_section(&mut self)
        requires
            old(self).wf(),
        ensures
            final(self).steps(*old(self)),
            final(self).diags() == old(self).diags(),
            final(self).position() == skip_section_pos(old(self).token_list(), old(self).position()),
    {
        loop
            invariant
                self.steps(*old(self)),
                self.diagnostics == old(self).diagnostics,
                skip_section_pos(self.tokens@, self.pos as int) == skip_section_pos(
                    old(self).tokens@,
                    old(self).pos as int,
                ),
            ensures
                self.steps(*old(self)),
                self.diagnostics == old(self).diagnostics,
                self.pos == skip_section_pos(old(self).tokens@, old(self).pos as int),
            decreases self.remaining(),
        {
            let t = self.peek_tag();
            if t == TokenTag::Eof || t == TokenTag::Begin || t == TokenTag::End || t == TokenTag::Const
                || t == TokenTag::Var {
                break;
            }
            self.advance();
        }
    }

    /// The declarations in the body of a routine: `VAR` sections only.
    /// `CONST`, `TYPE`, `LABEL` and nested routines are reported and
    /// skipped.
    fn parse_local_declarations(&mut self) -> (r: Vec<VarDecl>)
        requires
            old(self).wf(),
        ensures
            final(self).moved(*old(self), local_decls_s(old(self).token_list(), old(self).position())),
            vars_model(r@) == local_decls_s(old(self).token_list(), old(self).position()).value,
    {
        let ghost ts = self.tokens@;
        let ghost s0 = *self;
        let ghost total = local_decls_s(ts, s0.pos as int);
        let ghost mut acc: Seq<DiagModel> = Seq::empty();
        let mut var_decls: Vec<VarDecl> = Vec::new();
        proof {
            lemma_diags_extend_none(s0.diagnostics@);
            assert(vars_model(var_decls@) + total.value =~= total.value);
            assert(acc + total.diags =~= total.diags);
        }
        loop
            invariant_except_break
                vars_model(var_decls@) + local_decls_s(ts, self.pos as int).value == total.value,
                local_decls_s(ts, self.pos as int).pos == total.pos,
                acc + local_decls_s(ts, self.pos as int).diags == total.diags,
            invariant
                self.steps(s0),
                s0 == *old(self),
                ts == self.tokens@,
                total == local_decls_s(ts, s0.pos as int),
                diags_extend(self.diagnostics@, s0.diagnostics@, acc),
            ensures
                self.steps(s0),
                diags_extend(self.diagnostics@, s0.diagnostics@, acc),
                vars_model(var_decls@) == total.value,
                self.pos == total.pos,
                acc == total.diags,
            decreases self.remaining(),
        {
            let ghost sa = *self;
            let t = self.peek_tag();
            if t == TokenTag::Var {
                let mut decls = self.parse_var_section();
                let ghost before = var_decls@;
                let ghost added = decls@;
                var_decls.append(&mut decls);
                proof {
                    let vs = var_groups_s(ts, next_pos(ts, sa.pos as int), "variable name"@);
                    let rest = local_decls_s(ts, self.pos as int);
                    assert(local_decls_s(ts, sa.pos as int) == Parsed {
                        value: vs.value + rest.value,
                        pos: rest.pos,
                        diags: vs.diags + rest.diags,
                    });
                    assert(vars_model(var_decls@) =~= vars_model(before) + vars_model(added));
                    assert(vars_model(before) + (vs.value + rest.value) =~= vars_model(var_decls@) + rest.value);
                    lemma_diags_extend_trans(s0.diagnostics@, sa.diagnostics@, self.diagnostics@, acc, vs.diags);
                    assert(acc + (vs.diags + rest.diags) =~= (acc + vs.diags) + rest.diags);
                    acc = acc + vs.diags;
                }
            } else if t == TokenTag::Const || t == TokenTag::Type || t == TokenTag::Procedure || t
                == TokenTag::Function || t == TokenTag::Label {
                let span = self.peek_span();
                let mut m = describe(self.peek());
                push_str(
                    &mut m,
                    " declarations are not supported inside a PROCEDURE/FUNCTION body yet (only VAR sections are supported)",
                );
                self.error(span, m);
                let ghost sb = *self;
                self.advance();
                let ghost sc = *self;
                self.skip_unsupported_section();
                proof {
                    let d = seq![DiagModel { span, message: m@ }];
                    let rest = local_decls_s(ts, self.pos as int);
                    assert(local_decls_s(ts, sa.pos as int) == Parsed {
                        value: rest.value,
                        pos: rest.pos,
                        diags: d + rest.diags,
                    });
                    lemma_diags_extend_trans(s0.diagnostics@, sa.diagnostics@, sb.diagnostics@, acc, d);
                    lemma_diags_extend_none(sb.diagnostics@);
                    lemma_diags_extend_trans(s0.diagnostics@, sb.diagnostics@, sc.diagnostics@, acc + d, Seq::empty());
                    lemma_diags_extend_none(sc.diagnostics@);
                    lemma_diags_extend_trans(s0.diagnostics@, sc.diagnostics@, self.diagnostics@, acc + d + Seq::empty(), Seq::empty());
                    assert(acc + d + Seq::<DiagModel>::empty() + Seq::<DiagModel>::empty() =~= acc + d);
                    assert(acc + (d + rest.diags) =~= (acc + d) + rest.diags);
                    acc = acc + d;
                }
            } else {
                proof {
                    assert(vars_model(var_decls@) + Seq::<VarModel>::empty() =~= vars_model(var_decls@));
                    assert(acc + Seq::<DiagModel>::empty() =~= acc);
                }
                break;
            }
        }
        var_decls
    }
}

impl Parser {
    /// `PROCEDURE name(params);` without a body (in an `INTERFACE`).
    pub(crate) fn parse_proc_signature(&mut self) -> (r: ProcSignature)
        requires
            old(self).wf(),
            old(self).cur() == TokenTag::Procedure,
        ensures
            final(self).moved(*old(self), proc_sig_s(old(self).token_list(), old(self).position())),
            proc_sig_model(r) == proc_sig_s(old(self).token_list(), old(self).position()).value,
            final(self).position() > old(self).position(),
    {
        let ghost ts = self.tokens@;
        let ghost s0 = *self;
        let start = self.peek_span();
        self.advance();
        let ghost s1 = *self;
        let name = self.parse_identifier("procedure name");
        let ghost s2 = *self;
        let params = self.parse_param_list();
        let ghost s3 = *self;
        self.expect(TokenTag::Semicolon, "';'");
        let end = self.previous_span().end;
        proof {
            let n = identifier_s(ts, s1.pos as int, "procedure name"@);
            let pl = param_list_s(ts, s2.pos as int);
            let e = expect_s(ts, s3.pos as int, TokenTag::Semicolon, "';'"@);
            lemma_diags_extend_none(s0.diagnostics@);
            lemma_diags_extend_trans(s0.diagnostics@, s1.diagnostics@, s2.diagnostics@, Seq::empty(), n.diags);
            lemma_diags_extend_trans(s0.diagnostics@, s2.diagnostics@, s3.diagnostics@, Seq::empty() + n.diags, pl.diags);
            lemma_diags_extend_trans(s0.diagnostics@, s3.diagnostics@, self.diagnostics@, Seq::empty() + n.diags + pl.diags, e.diags);
            assert(Seq::<DiagModel>::empty() + n.diags + pl.diags + e.diags =~= n.diags + pl.diags + e.diags);
        }
        ProcSignature { name, params, span: Span::new(start.start, end) }
    }

    /// `FUNCTION name(params): T;` without a body (in an `INTERFACE`).
    pub(crate) fn parse_func_signature(&mut self) -> (r: FuncSignature)
        requires
            old(self).wf(),
            old(self).cur() == TokenTag::Function,
        ensures
            final(self).moved(*old(self), func_sig_s(old(self).token_list(), old(self).position())),
            func_sig_model(r) == func_sig_s(old(self).token_list(), old(self).position()).value,
            final(self).position() > old(self).position(),
    {
        let ghost ts = self.tokens@;
        let ghost s0 = *self;
        let start = self.peek_span();
        self.advance();
        let ghost s1 = *self;
        let name = self.parse_identifier("function name");
        let ghost s2 = *self;
        let params = self.parse_param_list();
        let ghost s3 = *self;
        self.expect(TokenTag::Colon, "':'");
        let ghost s4 = *self;
        let return_type = self.parse_type();
        let ghost s5 = *self;
        self.expect(TokenTag::Semicolon, "';'");
        let end = self.previous_span().end;
        proof {
            let n = identifier_s(ts, s1.pos as int, "function name"@);
            let pl = param_list_s(ts, s2.pos as int);
            let c = expect_s(ts, s3.pos as int, TokenTag::Colon, "':'"@);
            let t = type_s(ts, s4.pos as int);
            let e = expect_s(ts, s5.pos as int, TokenTag::Semicolon, "';'"@);
            lemma_diags_extend_none(s0.diagnostics@);
            lemma_diags_extend_trans(s0.diagnostics@, s1.diagnostics@, s2.diagnostics@, Seq::empty(), n.diags);
            lemma_diags_extend_trans(s0.diagnostics@, s2.diagnostics@, s3.diagnostics@, Seq::empty() + n.diags, pl.diags);
            lemma_diags_extend_trans(s0.diagnostics@, s3.diagnostics@, s4.diagnostics@, Seq::empty() + n.diags + pl.diags, c.diags);
            lemma_diags_extend_trans(
                s0.diagnostics@,
                s4.diagnostics@,
                s5.diagnostics@,
                Seq::empty() + n.diags + pl.diags + c.diags,
                t.diags,
            );
            lemma_diags_extend_trans(
                s0.diagnostics@,
                s5.diagnostics@,
                self.diagnostics@,
                Seq::empty() + n.diags + pl.diags + c.diags + t.diags,
                e.diags,
            );
            assert(Seq::<DiagModel>::empty() + n.diags + pl.diags + c.diags + t.diags + e.diags =~= n.diags + pl.diags
                + c.diags + t.diags + e.diags);
        }
        FuncSignature { name, params, return_type, span: Span::new(start.start, end) }
    }

    /// `PROCEDURE name(params); [VAR ...] BEGIN ... END;`.
    pub(crate) fn parse_proc_decl(&mut self) -> (r: ProcDecl)
        requires
            old(self).wf(),
            old(self).cur() == TokenTag::Procedure,
        ensures
            final(self).moved(*old(self), proc_decl_s(old(self).token_list(), old(self).position())),
            proc_model(r) == proc_decl_s(old(self).token_list(), old(self).position()).value,
            final(self).position() > old(self).position(),
    {
        let ghost ts = self.tokens@;
        let ghost s0 = *self;
        let start = self.peek_span();
        self.advance();
        let ghost s1 = *self;
        let name = self.parse_identifier("procedure name");
        let ghost s2 = *self;
        let params = self.parse_param_list();
        let ghost s3 = *self;
        self.expect(TokenTag::Semicolon, "';'");
        let ghost s4 = *self;
        let var_decls = self.parse_local_declarations();
        let ghost s5 = *self;
        let body = self.parse_subprogram_body();
        let ghost s6 = *self;
        self.expect(TokenTag::Semicolon, "';'");
        let end = self.previous_span().end;
        proof {
            reveal(proc_decl_s);
            let n = identifier_s(ts, s1.pos as int, "procedure name"@);
            let pl = param_list_s(ts, s2.pos as int);
            let e = expect_s(ts, s3.pos as int, TokenTag::Semicolon, "';'"@);
            let l = local_decls_s(ts, s4.pos as int);
            let b = body_s(ts, s5.pos as int);
            let f = expect_s(ts, s6.pos as int, TokenTag::Semicolon, "';'"@);
            lemma_diags_extend_none(s0.diagnostics@);
            lemma_diags_extend_trans(s0.diagnostics@, s1.diagnostics@, s2.diagnostics@, Seq::empty(), n.diags);
            lemma_diags_extend_trans(s0.diagnostics@, s2.diagnostics@, s3.diagnostics@, Seq::empty() + n.diags, pl.diags);
            lemma_diags_extend_trans(s0.diagnostics@, s3.diagnostics@, s4.diagnostics@, Seq::empty() + n.diags + pl.diags, e.diags);
            lemma_diags_extend_trans(
                s0.diagnostics@,
                s4.diagnostics@,
                s5.diagnostics@,
                Seq::empty() + n.diags + pl.diags + e.diags,
                l.diags,
            );
            lemma_diags_extend_trans(
                s0.diagnostics@,
                s5.diagnostics@,
                s6.diagnostics@,
                Seq::empty() + n.diags + pl.diags + e.diags + l.diags,
                b.diags,
            );
            lemma_diags_extend_trans(
                s0.diagnostics@,
                s6.diagnostics@,
                self.diagnostics@,
                Seq::empty() + n.diags + pl.diags + e.diags + l.diags + b.diags,
                f.diags,
            );
            assert(Seq::<DiagModel>::empty() + n.diags + pl.diags + e.diags + l.diags + b.diags + f.diags =~= n.diags
                + pl.diags + e.diags + l.diags + b.diags + f.diags);
        }
        ProcDecl { name, params, var_decls, body, span: Span::new(start.start, end) }
    }

    /// `FUNCTION name(params): T; [VAR ...] BEGIN ... END;`.
    pub(crate) fn parse_func_decl(&mut self) -> (r: FuncDecl)
        requires
            old(self).wf(),
            old(self).cur() == TokenTag::Function,
        ensures
            final(self).moved(*old(self), func_decl_s(old(self).token_list(), old(self).position())),
            func_model(r) == func_decl_s(old(self).token_list(), old(self).position()).value,
            final(self).position() > old(self).position(),
    {
        let ghost ts = self.tokens@;
        let ghost s0 = *self;
        let start = self.peek_span();
        self.advance();
        let ghost s1 = *self;
        let name = self.parse_identifier("function name");
        let ghost s2 = *self;
        let params = self.parse_param_list();
        let ghost s3 = *self;
        self.expect(TokenTag::Colon, "':'");
        let ghost s4 = *self;
        let return_type = self.parse_type();
        let ghost s5 = *self;
        self.expect(TokenTag::Semicolon, "';'");
        let ghost s6 = *self;
        let var_decls = self.parse_local_declarations();
        let ghost s7 = *self;
        let body = self.parse_subprogram_body();
        let ghost s8 = *self;
        self.expect(TokenTag::Semicolon, "';'");
        let end = self.previous_span().end;
        proof {
            reveal(func_decl_s);
            let n = identifier_s(ts, s1.pos as int, "function name"@);
            let pl = param_list_s(ts, s2.pos as int);
            let c = expect_s(ts, s3.pos as int, TokenTag::Colon, "':'"@);
            let t = type_s(ts, s4.pos as int);
            let e = expect_s(ts, s5.pos as int, TokenTag::Semicolon, "';'"@);
            let l = local_decls_s(ts, s6.pos as int);
            let b = body_s(ts, s7.pos as int);
            let f = expect_s(ts, s8.pos as int, TokenTag::Semicolon, "';'"@);
            let d1 = n.diags + pl.diags;
            let d2 = d1 + c.diags;
            let d3 = d2 + t.diags;
            let d4 = d3 + e.diags;
            let d5 = d4 + l.diags;
            let d6 = d5 + b.diags;
            lemma_diags_extend_none(s0.diagnostics@);
            lemma_diags_extend_trans(s0.diagnostics@, s1.diagnostics@, s2.diagnostics@, Seq::empty(), n.diags);
            assert(Seq::<DiagModel>::empty() + n.diags =~= n.diags);
            lemma_diags_extend_trans(s0.diagnostics@, s2.diagnostics@, s3.diagnostics@, n.diags, pl.diags);
            lemma_diags_extend_trans(s0.diagnostics@, s3.diagnostics@, s4.diagnostics@, d1, c.diags);
            lemma_diags_extend_trans(s0.diagnostics@, s4.diagnostics@, s5.diagnostics@, d2, t.diags);
            lemma_diags_extend_trans(s0.diagnostics@, s5.diagnostics@, s6.diagnostics@, d3, e.diags);
            lemma_diags_extend_trans(s0.diagnostics@, s6.diagnostics@, s7.diagnostics@, d4, l.diags);
            lemma_diags_extend_trans(s0.diagnostics@, s7.diagnostics@, s8.diagnostics@, d5, b.diags);
            lemma_diags_extend_trans(s0.diagnostics@, s8.diagnostics@, self.diagnostics@, d6, f.diags);
        }
        FuncDecl { name, params, return_type, var_decls, body, span: Span::new(start.start, end) }
    }
}

} // verus!
