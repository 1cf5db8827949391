//! A compiler for bullet-pattern documents: it turns a generic attributed
//! element tree into an arena-backed syntax tree with named template tables
//! and a pool of pre-compiled numeric expressions, ready for repeated
//! evaluation by an execution engine.

pub mod arena;
pub mod docspec;
pub mod elem;
pub mod laws;
pub mod errors;
pub mod lit;
pub mod parse;
pub mod pool;
pub mod strutil;
pub mod table;
pub mod tags;
pub mod tree;
