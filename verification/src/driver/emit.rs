//! Compilation carried on to p-code.

use vstd::prelude::*;

use crate::ast::{Diagnostic, Program, Severity, Unit};
use crate::driver::compile::{analysed, compile, compiled_from, first_token, CompileOptions, CompileResult};
use crate::driver::sort::{lemma_sort_by_start, sort_by_start, sort_diagnostics, sorted_by_start};
use crate::lexer::chars::utf8_len;
use crate::lexer::TokenTag;
use crate::pcode::codegen::{decl_errors, errors_are, CodeGenerator};
use crate::pcode::gen_spec::{entries, final_state, fits, main_base, program_code, program_ok, resolve_all, routine_metas};
use crate::pcode::ir::PCodeModule;
use crate::pcode::opcode::CodeAddress;
use crate::pcode::limits::program_fits;
use crate::pcode::text::pool_view;

verus! {

/// What `compile_to_pcode` gives: the syntax tree and diagnostics of
/// `compile`, with those of code generation, and the p-code when it was
/// generated.
pub struct PCodeEmitResult {
    pub program: Option<Program>,
    pub unit: Option<Unit>,
    /// Every diagnostic, sorted by where it starts.
    pub diagnostics: Vec<Diagnostic>,
    /// Only when there was no error and the source is a program.
    pub pcode: Option<PCodeModule>,
}

/// Whether some diagnostic is an error.
pub open spec fn has_error(ds: Seq<Diagnostic>) -> bool {
    exists|i: int| 0 <= i < ds.len() && (#[trigger] ds[i]).severity == Severity::Error
}

/// What the code generator promises of the module it makes for `p`.
pub open spec fn module_of(p: Program, m: PCodeModule) -> bool {
    &&& m.instructions@ == resolve_all(program_code(p), entries(p))
    &&& m.global_data_words == final_state(p).temp
    &&& m.entry == CodeAddress(main_base(p) as u32)
    &&& pool_view(m.string_pool@) == final_state(p).pool
    &&& main_base(p) <= u32::MAX ==> m.routines@ == routine_metas(p)
}

/// The error reported for a unit, for which no code is generated.
pub open spec fn is_unit_diagnostic(d: Diagnostic, u: Unit) -> bool {
    &&& d.span == u.span
    &&& d.severity == Severity::Error
    &&& d.message@ == "p-code generation for UNIT compilation units is out of scope for this step's minimal codegen (only PROGRAM is supported)"@
    &&& d.code is None
}

/// The error reported for a program whose data does not fit the 16-bit
/// addresses of the p-machine.
pub open spec fn is_too_large_diagnostic(d: Diagnostic, p: Program) -> bool {
    &&& d.span == p.span
    &&& d.severity == Severity::Error
    &&& d.message@ == "the program's data does not fit in the p-machine's 16-bit address space"@
    &&& d.code is None
}

/// Code generation after `compile` gave `program`, `unit` and `diags`:
/// none where there is an error already; for a program, the module, or
/// the code generator's errors; for a unit, an error.
pub open spec fn emits(program: Option<Program>, unit: Option<Unit>, diags: Seq<Diagnostic>, r: PCodeEmitResult) -> bool {
    &&& r.program == program
    &&& r.unit == unit
    &&& if has_error(diags) {
        r.pcode is None && r.diagnostics@ == sort_by_start(diags)
    } else {
        match program {
            Some(p) => if !fits(p) {
                &&& r.pcode is None
                &&& r.diagnostics@.len() == diags.len() + 1
                &&& exists|d: Diagnostic| #![auto]
                    is_too_large_diagnostic(d, p) && r.diagnostics@ == sort_by_start(diags.push(d))
            } else if program_ok(p) {
                &&& r.pcode matches Some(m) && module_of(p, m)
                &&& r.diagnostics@ == sort_by_start(diags)
            } else {
                &&& r.pcode is None
                &&& exists|gen: Seq<Diagnostic>| #![auto]
                    gen.len() > 0 && (forall|i: int| 0 <= i < gen.len() ==> (#[trigger] gen[i]).severity == Severity::Error)
                        && gen.len() >= decl_errors(p).len() && errors_are(gen.take(decl_errors(p).len() as int), decl_errors(p))
                        && r.diagnostics@ == sort_by_start(diags + gen)
            },
            None => match unit {
                Some(u) => {
                    &&& r.pcode is None
                    &&& exists|d: Diagnostic| #![auto]
                        is_unit_diagnostic(d, u) && r.diagnostics@ == sort_by_start(diags.push(d))
                },
                None => r.pcode is None && r.diagnostics@ == sort_by_start(diags),
            },
        }
    }
}

fn any_error(ds: &Vec<Diagnostic>) -> (r: bool)
    ensures
        r == has_error(ds@),
{
    let mut i: usize = 0;
    while i < ds.len()
        invariant
            i <= ds.len(),
            forall|k: int| 0 <= k < i ==> (#[trigger] ds@[k]).severity != Severity::Error,
        decreases ds.len() - i,
    {
        if matches!(ds[i].severity, Severity::Error) {
            return true;
        }
        i = i + 1;
    }
    false
}

/// The process exit status for a compilation that reported
/// `diagnostics`: 1 when one of them is an error, 0 otherwise.
pub fn exit_code_for(diagnostics: &Vec<Diagnostic>) -> (r: u8)
    ensures
        r == (if has_error(diagnostics@) { 1u8 } else { 0u8 }),
{
    if any_error(diagnostics) {
        1
    } else {
        0
    }
}

/// Generates p-code for the result of `compile`, unless it holds an error
/// already; only a program gets code.
pub fn emit_pcode(result: CompileResult) -> (r: PCodeEmitResult)
    ensures
        emits(result.program, result.unit, result.diagnostics@, r),
        sorted_by_start(r.diagnostics@),
        r.pcode is None && (result.program is Some || result.unit is Some) ==> has_error(r.diagnostics@),
{
    let CompileResult { program, unit, diagnostics } = result;
    let ghost diags = diagnostics@;
    let mut diagnostics = diagnostics;
    let mut pcode: Option<PCodeModule> = None;
    if !any_error(&diagnostics) {
        match &program {
            Some(p) => {
                if !program_fits(p) {
                    let d = Diagnostic::new(
                        p.span,
                        Severity::Error,
                        "the program's data does not fit in the p-machine's 16-bit address space".to_owned(),
                    );
                    let ghost dd = d;
                    diagnostics.push(d);
                    assert(is_too_large_diagnostic(dd, *p));
                    assert(diagnostics@ == diags.push(dd));
                } else {
                    let mut generator = CodeGenerator::new();
                    match generator.generate(p) {
                        Ok(module) => {
                            pcode = Some(module);
                        },
                        Err(gen_diags) => {
                            let mut gen_diags = gen_diags;
                            let ghost gen = gen_diags@;
                            diagnostics.append(&mut gen_diags);
                            assert(diagnostics@ == diags + gen);
                            assert(diagnostics@[diags.len() as int] == gen[0]);
                        },
                    }
                }
            },
            None => match &unit {
                Some(u) => {
                    let d = Diagnostic::new(
                        u.span,
                        Severity::Error,
                        "p-code generation for UNIT compilation units is out of scope for this step's minimal codegen (only PROGRAM is supported)".to_owned(),
                    );
                    let ghost dd = d;
                    diagnostics.push(d);
                    assert(is_unit_diagnostic(dd, *u));
                    assert(diagnostics@ == diags.push(dd));
                },
                None => {},
            },
        }
    }
    let ghost before = diagnostics@;
    let diagnostics = sort_diagnostics(diagnostics);
    proof {
        lemma_sort_by_start(before);
        if has_error(before) && !has_error(diagnostics@) {
            lemma_no_error_kept(diagnostics@, before);
        }
    }
    PCodeEmitResult { program, unit, diagnostics, pcode }
}

/// `compile` (with `semantic` the diagnostics of a semantic analysis of
/// the source's tree, which this library does not run), then code
/// generation for a program that compiled without error.
pub fn compile_to_pcode(source: &str, options: &CompileOptions, semantic: Vec<Diagnostic>) -> (r: PCodeEmitResult)
    requires
        utf8_len(source@) <= u32::MAX,
    ensures
        (r.program is Some || r.unit is Some) <==> first_token(source@) != TokenTag::Eof,
        r.unit is Some <==> first_token(source@) == TokenTag::Unit,
        exists|ds: Seq<Diagnostic>| #![auto]
            compiled_from(ds, source@, r.program, r.unit)
                && emits(r.program, r.unit, sort_by_start(ds + analysed(r.program, r.unit, semantic@)), r),
        r.pcode matches Some(m) ==> r.program matches Some(p) && module_of(p, m),
        r.pcode is Some ==> !has_error(r.diagnostics@),
        r.pcode is None && first_token(source@) != TokenTag::Eof ==> has_error(r.diagnostics@),
        sorted_by_start(r.diagnostics@),
{
    let ghost sem = semantic@;
    let result = compile(source, options, semantic);
    let ghost ds = choose|ds: Seq<Diagnostic>| #![auto]
        compiled_from(ds, source@, result.program, result.unit)
            && result.diagnostics@ == sort_by_start(ds + analysed(result.program, result.unit, sem));
    let r = emit_pcode(result);
    proof {
        if r.pcode is Some {
            lemma_sort_by_start(result.diagnostics@);
            lemma_no_error_kept(result.diagnostics@, sort_by_start(result.diagnostics@));
        }
    }
    r
}

/// Sorting keeps every diagnostic, so it adds no error.
proof fn lemma_no_error_kept(a: Seq<Diagnostic>, b: Seq<Diagnostic>)
    requires
        !has_error(a),
        a.to_multiset() == b.to_multiset(),
    ensures
        !has_error(b),
{
    broadcast use vstd::seq_lib::group_to_multiset_ensures;

    if has_error(b) {
        let i = choose|i: int| 0 <= i < b.len() && (#[trigger] b[i]).severity == Severity::Error;
        assert(b.to_multiset().count(b[i]) > 0);
        assert(a.contains(b[i]));
    }
}

} // verus!
