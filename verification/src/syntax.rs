//! Concrete syntax: text positions, character streams and syntax trees.

pub mod bibtex;
pub mod builder;
pub mod cst;
pub mod latex;
pub mod offset;
pub mod text;
