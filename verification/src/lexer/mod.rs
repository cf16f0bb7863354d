//! The lexer: source text to tokens.
//!
//! Every token is recognised whatever the dialect; dialect violations are
//! not the lexer's business.

pub mod chars;
pub mod laws;
pub mod lexer;
pub mod spec;
pub mod token;

pub use lexer::Lexer;
pub use token::{Token, TokenKind, TokenTag};
