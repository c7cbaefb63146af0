//! The parser: from tokens to the syntax tree.

pub mod grammar;
pub mod parser;
