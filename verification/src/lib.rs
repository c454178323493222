//! Mutants of Rust source text: for each target that a strategy finds in the
//! syntax tree of a source, copies of the source with that one target
//! replaced.

pub mod struct_crusher;
pub mod syntax;
pub mod text;
pub mod typename_crusher;
pub mod walker;
