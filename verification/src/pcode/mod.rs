//! p-code: the instruction set, the module produced by the code
//! generator, its text form, and the code generator itself.

pub mod builtin;
pub mod codegen;
pub mod gen_spec;
pub mod ir;
pub mod laws;
pub mod limits;
pub mod opcode;
pub mod text;

pub use builtin::{
    BUILTIN_WRITELN_BOOL, BUILTIN_WRITELN_INT, BUILTIN_WRITELN_NONE, BUILTIN_WRITELN_STRING,
    BUILTIN_WRITELN_STRVAR, KERNEL_SEGMENT,
};
pub use ir::{Instruction, PCodeModule, RoutineMeta};
pub use opcode::{Address, CodeAddress, ConfirmedOp, Level, Opcode, UnconfirmedOp};
