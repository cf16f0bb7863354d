//! The Pascal dialect a compilation is checked against.

use vstd::prelude::*;

verus! {

/// The Pascal dialect. ISO 7185 is the default; the UCSD extensions
/// (units, `STRING[n]`, `OTHERWISE`, `$FF` literals, compiler directives)
/// are opted into. The lexer and parser accept every construct whatever
/// the dialect.
#[derive(Debug, Clone, Copy, PartialEq, Eq, Structural, Default)]
pub enum Dialect {
    #[default]
    Iso7185,
    Ucsd,
}

} // verus!
