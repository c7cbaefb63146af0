//! A compiler front end and intermediate representation for a small
//! expression language with compile-time evaluation.

pub mod arena;
pub mod ast;
pub mod frontend;
pub mod ir;
pub mod text;
pub mod backend;
pub mod runtime;
