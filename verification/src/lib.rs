//! A source-to-source code generator: translates a syntax tree for a small,
//! statically-typed, C-family language subset into source text for a
//! dynamically-typed scripting language with keyword-delimited blocks.
//!
//! `ast` holds the tree the generator consumes; `trans` is the mathematical
//! model of the translation (exact output text, or the rejection error, per
//! node); `gen` is the generator itself, proved against that model; `digits`
//! renders integer literals; `laws` states the translation's properties as
//! theorems.

pub mod ast;
pub mod digits;
pub mod gen;
pub mod laws;
pub mod trans;
