//! Compilation carried on to a run of the p-code on the p-machine.

use vstd::prelude::*;

use crate::ast::{Diagnostic, Program};
use crate::driver::compile::{analysed, compiled_from, first_token, CompileOptions};
use crate::lexer::TokenTag;
use crate::driver::emit::{compile_to_pcode, emits, has_error, module_of, PCodeEmitResult};
use crate::driver::sort::sort_by_start;
use crate::lexer::chars::utf8_len;
use crate::pcode::ir::PCodeModule;
use crate::pmachine::error::RuntimeError;
use crate::pmachine::machine::{run_spec, Image, MachineState, PMachine, StepOutcome};

verus! {

/// What `run` gives.
pub struct RunResult {
    /// The diagnostics of compilation and code generation.
    pub diagnostics: Vec<Diagnostic>,
    /// Whether p-code was generated and run.
    pub executed: bool,
    /// The error that stopped the run (division by zero and the like);
    /// `None` when it halted normally or did not run.
    pub runtime_error: Option<RuntimeError>,
    /// The global data area when the run ended; empty when it did not
    /// run.
    pub globals: Vec<i16>,
    /// What the program printed with `WriteLn`.
    pub output: String,
}

/// The machine's view of a module.
pub open spec fn module_image(m: PCodeModule) -> Image {
    Image {
        code: m.instructions@,
        routines: m.routines@,
        pool: m.string_pool@.map_values(|s: String| s@),
        global_data_words: m.global_data_words,
    }
}

/// The machine loaded with a module: zeroed globals, no frame, at the
/// entry.
pub open spec fn initial_state(m: PCodeModule) -> MachineState {
    MachineState {
        stack: Seq::new(m.global_data_words as nat, |i: int| 0i16),
        frames: Seq::empty(),
        mp: None,
        ipc: m.entry.0 as int,
        curproc: 0,
        halted: false,
        output: Seq::empty(),
        floor: m.global_data_words as nat,
    }
}

/// Where running a module ends (the machine runs at most `u64::MAX`
/// instructions).
pub open spec fn module_run(m: PCodeModule) -> StepOutcome {
    run_spec(module_image(m), initial_state(m), u64::MAX as nat)
}

/// What a run of `m` gives: its error, the global data area, and what it
/// printed.
pub open spec fn run_outcome(m: PCodeModule, error: Option<RuntimeError>, globals: Seq<i16>, output: Seq<char>) -> bool {
    let end = module_run(m);
    &&& match error {
        None => end.error is None,
        Some(e) => end.error == Some(e@),
    }
    &&& globals == end.state.stack.take(m.global_data_words as int)
    &&& globals.len() == m.global_data_words
    &&& output == end.state.output
}

/// Runs a module from its entry until it halts or fails.
pub fn execute(pcode: PCodeModule) -> (r: (Option<RuntimeError>, Vec<i16>, String))
    ensures
        run_outcome(pcode, r.0, r.1@, r.2@),
{
    let ghost m = pcode;
    let mut vm = PMachine::new(pcode);
    proof {
        assert(vm.state().frames =~= Seq::<crate::pmachine::machine::FrameRecord>::empty());
        assert(vm.state().output =~= Seq::<char>::empty());
        assert(vm.state() == initial_state(m));
        assert(vm.image() == module_image(m));
    }
    let runtime_error = match vm.run() {
        Ok(()) => None,
        Err(e) => Some(e),
    };
    let globals = vstd::slice::slice_to_vec(vm.globals());
    let output = vm.take_output();
    (runtime_error, globals, output)
}

/// `compile_to_pcode` (with `semantic` as there), then, when p-code came
/// of it, a run of it on the p-machine.
pub fn run(source: &str, options: &CompileOptions, semantic: Vec<Diagnostic>) -> (r: RunResult)
    requires
        utf8_len(source@) <= u32::MAX,
    ensures
        r.executed ==> !has_error(r.diagnostics@),
        !r.executed && first_token(source@) != TokenTag::Eof ==> has_error(r.diagnostics@),
        r.executed ==> exists|p: Program, m: PCodeModule| #![auto]
            module_of(p, m) && run_outcome(m, r.runtime_error, r.globals@, r.output@),
        !r.executed ==> r.runtime_error is None && r.globals@.len() == 0 && r.output@.len() == 0,
        exists|ds: Seq<Diagnostic>, e: PCodeEmitResult| #![auto]
            compiled_from(ds, source@, e.program, e.unit)
                && emits(e.program, e.unit, sort_by_start(ds + analysed(e.program, e.unit, semantic@)), e)
                && r.diagnostics@ == e.diagnostics@ && (r.executed <==> e.pcode is Some) && (e.pcode matches Some(m)
                ==> run_outcome(m, r.runtime_error, r.globals@, r.output@)),
{
    let ghost sem = semantic@;
    let emitted = compile_to_pcode(source, options, semantic);
    let ghost e = emitted;
    let ghost ds = choose|ds: Seq<Diagnostic>| #![auto]
        compiled_from(ds, source@, e.program, e.unit)
            && emits(e.program, e.unit, sort_by_start(ds + analysed(e.program, e.unit, sem)), e);
    let diagnostics = emitted.diagnostics;
    match emitted.pcode {
        Some(m) => {
            let ghost gm = m;
            let (runtime_error, globals, output) = execute(m);
            proof {
                let p = emitted.program->0;
                assert(module_of(p, gm));
            }
            RunResult { diagnostics, executed: true, runtime_error, globals, output }
        },
        None => RunResult {
            diagnostics,
            executed: false,
            runtime_error: None,
            globals: Vec::new(),
            output: String::new(),
        },
    }
}

} // verus!
