//! A front end for a typed dialect of Lua: lexing, parsing, name resolution
//! and lowering into a high-level intermediate representation.

pub mod hir;
pub mod name_resolution;
pub mod parser;
pub mod utils;
