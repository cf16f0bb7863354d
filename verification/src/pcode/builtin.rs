//! Procedure numbers of the simplified KERNEL calls that implement
//! `WriteLn`.
//!
//! `WriteLn` is compiled to `CXG KERNEL_SEGMENT, proc`. The value to print
//! (if any) is pushed first; the procedure number says how to print it.
//! These numbers are this project's own, not those of the p-System's
//! `UNITWRITE` routine.

use vstd::prelude::*;

verus! {

/// The segment number of the KERNEL unit.
pub const KERNEL_SEGMENT: u8 = 1;

/// `WriteLn(integer)`: pops a word and prints it in decimal.
pub const BUILTIN_WRITELN_INT: u8 = 1;

/// `WriteLn(boolean)`: pops a word and prints `true` (non-zero) or `false`.
pub const BUILTIN_WRITELN_BOOL: u8 = 2;

/// `WriteLn` without arguments: prints only a newline.
pub const BUILTIN_WRITELN_NONE: u8 = 3;

/// `WriteLn('literal')`: pops an index into the module's string pool and
/// prints that string.
pub const BUILTIN_WRITELN_STRING: u8 = 4;

/// `WriteLn(s)` for a `STRING[n]` variable: pops the variable's address;
/// the word there is the length, the following words are character codes.
pub const BUILTIN_WRITELN_STRVAR: u8 = 5;

} // verus!
