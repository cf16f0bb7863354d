//! The parser: tokens to a syntax tree.
//!
//! There is one parser whatever the dialect: the UCSD extensions (`UNIT`,
//! `INTERFACE`, `IMPLEMENTATION`, `STRING[n]`, `OTHERWISE`, hexadecimal
//! literals, compiler directives) always parse; rejecting them by dialect
//! is not the parser's business.

pub mod decl_grammar;
pub mod describe;
pub mod grammar;
pub mod model;
pub mod parser;

pub use parser::Parser;
