//! Source text to a syntax tree and its diagnostics.

use vstd::prelude::*;

use crate::ast::{CompilationUnit, Diagnostic, Dialect, Program, Unit};
use crate::driver::sort::{lemma_sort_by_start, sort_by_start, sort_diagnostics, sorted_by_start};
use crate::lexer::chars::utf8_len;
use crate::lexer::laws::lemma_tokens_are_ordered_and_end_with_eof;
use crate::lexer::lexer::{extends, tokens_agree};
use crate::lexer::spec::lex_from;
use crate::lexer::{Lexer, Token, TokenTag};
use crate::parser::decl_grammar::comp_unit_s;
use crate::parser::model::{diags_extend, program_model, unit_model, CompUnitModel};
use crate::parser::Parser;

verus! {

/// How to compile: the dialect, and the path the source came from, for
/// showing in messages (none for an unsaved buffer).
pub struct CompileOptions {
    pub dialect: Dialect,
    pub source_path: Option<String>,
}

impl CompileOptions {
    pub fn new(dialect: Dialect) -> (o: CompileOptions)
        ensures
            o.dialect == dialect,
            o.source_path is None,
    {
        CompileOptions { dialect, source_path: None }
    }

    pub fn with_source_path(self, path: String) -> (o: CompileOptions)
        ensures
            o.dialect == self.dialect,
            o.source_path matches Some(p) && p@ == path@,
    {
        CompileOptions { dialect: self.dialect, source_path: Some(path) }
    }
}

impl Default for CompileOptions {
    fn default() -> (o: CompileOptions)
        ensures
            o.dialect == Dialect::Iso7185,
            o.source_path is None,
    {
        CompileOptions::new(Dialect::Iso7185)
    }
}

/// What `compile` gives: a program or a unit, whichever the source holds
/// (neither when it holds no token), and every diagnostic in source
/// order.
pub struct CompileResult {
    pub program: Option<Program>,
    pub unit: Option<Unit>,
    pub diagnostics: Vec<Diagnostic>,
}

/// The kind of the first token of `source`.
pub open spec fn first_token(source: Seq<char>) -> TokenTag {
    lex_from(source, 0).0[0].kind.tag
}

/// Whether `ds` begins with diagnostics that agree with those the lexer
/// reports on `source`.
pub open spec fn starts_with_lexer_diagnostics(ds: Seq<Diagnostic>, source: Seq<char>) -> bool {
    let lexed = lex_from(source, 0).1;
    &&& lexed.len() <= ds.len()
    &&& extends(ds.take(lexed.len() as int), Seq::empty(), source, lexed)
}

/// Whether `program` and `unit` are what the parser reads from the tokens
/// `ts`, with `parse_diags` the diagnostics it reports.
pub open spec fn parsed_as(ts: Seq<Token>, parse_diags: Seq<Diagnostic>, program: Option<Program>, unit: Option<Unit>) -> bool {
    let c = comp_unit_s(ts, 0);
    &&& diags_extend(parse_diags, Seq::empty(), c.diags)
    &&& match c.value {
        Some(CompUnitModel::Program(m)) => program matches Some(p) && program_model(p) == m && unit is None,
        Some(CompUnitModel::Unit(m)) => unit matches Some(u) && unit_model(u) == m && program is None,
        None => program is None && unit is None,
    }
}

/// Whether `ds`, `program` and `unit` are what lexing and then parsing
/// `source` give: `ds` holds the lexer's diagnostics, then the parser's,
/// and the tree is what the parser reads from tokens that agree with the
/// lexer's.
pub open spec fn compiled_from(ds: Seq<Diagnostic>, source: Seq<char>, program: Option<Program>, unit: Option<Unit>) -> bool {
    let n = lex_from(source, 0).1.len();
    &&& starts_with_lexer_diagnostics(ds, source)
    &&& exists|ts: Seq<Token>| #![auto] tokens_agree(ts, source, lex_from(source, 0).0) && parsed_as(ts, ds.skip(n as int), program, unit)
}

/// The diagnostics of semantic analysis that count: those given, when the
/// parser built a tree; none when it built nothing (there was nothing to
/// analyse).
pub open spec fn analysed(program: Option<Program>, unit: Option<Unit>, semantic: Seq<Diagnostic>) -> Seq<Diagnostic> {
    if program is Some || unit is Some {
        semantic
    } else {
        Seq::empty()
    }
}

/// `semantic` added after `ds` when `keep`.
fn append_if(ds: &mut Vec<Diagnostic>, semantic: Vec<Diagnostic>, keep: bool)
    ensures
        final(ds)@ == old(ds)@ + (if keep { semantic@ } else { Seq::empty() }),
{
    if keep {
        let mut semantic = semantic;
        ds.append(&mut semantic);
    } else {
        assert(old(ds)@ + Seq::<Diagnostic>::empty() =~= old(ds)@);
    }
}

/// Lexes and parses `source` as one compilation unit. Errors do not stop
/// either phase. This library does not run semantic analysis (type and
/// dialect checks against `options.dialect`): `semantic` holds what such an
/// analysis reported on this source's tree, and is kept when a tree was
/// built. All the diagnostics come back sorted by where they start, those
/// at the same offset in the order lexer, parser, `semantic`.
pub fn compile(source: &str, options: &CompileOptions, semantic: Vec<Diagnostic>) -> (r: CompileResult)
    requires
        utf8_len(source@) <= u32::MAX,
    ensures
        (r.program is Some || r.unit is Some) <==> first_token(source@) != TokenTag::Eof,
        r.unit is Some <==> first_token(source@) == TokenTag::Unit,
        !(r.program is Some && r.unit is Some),
        exists|ds: Seq<Diagnostic>| #![auto]
            compiled_from(ds, source@, r.program, r.unit)
                && r.diagnostics@ == sort_by_start(ds + analysed(r.program, r.unit, semantic@)),
        sorted_by_start(r.diagnostics@),
{
    let (program, unit, mut diagnostics) = lex_and_parse(source);
    let ghost all = diagnostics@;
    let keep = program.is_some() || unit.is_some();
    append_if(&mut diagnostics, semantic, keep);
    let ghost merged = diagnostics@;
    let diagnostics = sort_diagnostics(diagnostics);
    proof {
        lemma_sort_by_start(merged);
        assert(compiled_from(all, source@, program, unit));
    }
    CompileResult { program, unit, diagnostics }
}

/// The tree of `source` and the diagnostics of lexing it and then parsing
/// it, in that order.
fn lex_and_parse(source: &str) -> (r: (Option<Program>, Option<Unit>, Vec<Diagnostic>))
    requires
        utf8_len(source@) <= u32::MAX,
    ensures
        (r.0 is Some || r.1 is Some) <==> first_token(source@) != TokenTag::Eof,
        r.1 is Some <==> first_token(source@) == TokenTag::Unit,
        !(r.0 is Some && r.1 is Some),
        compiled_from(r.2@, source@, r.0, r.1),
{
    let mut lexer = Lexer::new(source);
    let (tokens, lex_diags) = lexer.tokenize();
    proof {
        lemma_tokens_are_ordered_and_end_with_eof(source@, 0);
        assert(tokens@.last().kind.spec_tag() == TokenTag::Eof) by {
            assert(tokens_agree(tokens@, source@, lex_from(source@, 0).0));
            let n = tokens@.len() - 1;
            assert(tokens@[n].kind.model() == lex_from(source@, 0).0[n].kind);
        }
        assert(tokens@[0].kind.model() == lex_from(source@, 0).0[0].kind);
    }
    let mut diagnostics = lex_diags;
    let ghost lexed = diagnostics@;
    let ghost ts = tokens@;
    let mut parser = Parser::new(tokens);
    proof {
        assert(parser.diags() =~= Seq::<Diagnostic>::empty());
    }
    let (compilation_unit, mut parse_diags) = parser.parse_compilation_unit();
    let ghost parsed = parse_diags@;
    diagnostics.append(&mut parse_diags);
    let ghost all = diagnostics@;
    proof {
        assert(all.take(lexed.len() as int) =~= lexed);
        assert(all.skip(lexed.len() as int) =~= parsed);
        assert(starts_with_lexer_diagnostics(all, source@));
    }
    let mut program: Option<Program> = None;
    let mut unit: Option<Unit> = None;
    match compilation_unit {
        Some(CompilationUnit::Program(p)) => {
            program = Some(p);
        },
        Some(CompilationUnit::Unit(u)) => {
            unit = Some(u);
        },
        None => {},
    }
    proof {
        assert(tokens_agree(ts, source@, lex_from(source@, 0).0));
        assert(parsed_as(ts, all.skip(lexed.len() as int), program, unit));
        assert(compiled_from(all, source@, program, unit));
    }
    (program, unit, diagnostics)
}

} // verus!
