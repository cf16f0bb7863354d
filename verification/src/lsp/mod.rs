//! What the language server computes on its own: positions in the
//! protocol's terms.

pub mod position;
