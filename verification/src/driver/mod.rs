//! The pipeline that the command-line tool and the language server share:
//! source text to diagnostics and a syntax tree, to p-code, to a run on the
//! p-machine; and positions in the source.

pub mod sort;
pub mod source_loc;
pub mod compile;
pub mod emit;
pub mod run;
