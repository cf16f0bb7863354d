//! WASD Pascal: a UCSD-flavoured Pascal front end, p-code generator and
//! p-machine interpreter.

pub mod ast;
pub mod driver;
pub mod lexer;
pub mod lsp;
pub mod parser;
pub mod pcode;
pub mod pmachine;
pub mod strings;

use vstd::prelude::*;

verus! {

} // verus!
