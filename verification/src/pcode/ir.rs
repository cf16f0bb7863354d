//! The instruction stream produced by the code generator.

use vstd::prelude::*;

use crate::ast::Span;
use crate::pcode::opcode::{CodeAddress, Opcode};

verus! {

/// One p-code instruction.
#[derive(Debug, Clone, Copy, PartialEq, Eq)]
pub struct Instruction {
    pub opcode: Opcode,
    /// The source range the instruction was generated from.
    pub span: Span,
}

/// What a call instruction needs to know about its callee: the layout of
/// its activation record. The counterpart of the p-System's procedure
/// dictionary.
#[derive(Debug, Clone, Copy, PartialEq, Eq)]
pub struct RoutineMeta {
    /// Index of the routine's first instruction.
    pub entry: CodeAddress,
    /// Number of parameter words the caller pushes.
    pub param_count: u16,
    /// Words of local variables and temporaries.
    pub data_size: u16,
    /// Whether a return-value word follows the parameters.
    pub is_func: bool,
}

/// The p-code generated from one `PROGRAM`.
#[derive(Debug, Clone, Default, PartialEq, Eq)]
pub struct PCodeModule {
    pub instructions: Vec<Instruction>,
    /// Words of global data: the program's variables and the code
    /// generator's temporaries.
    pub global_data_words: u16,
    /// One entry per `PROCEDURE`/`FUNCTION`, sorted by entry address.
    pub routines: Vec<RoutineMeta>,
    /// Index of the first instruction of the program body.
    pub entry: CodeAddress,
    /// String constants printed by `WriteLn('...')`.
    pub string_pool: Vec<String>,
}

} // verus!
