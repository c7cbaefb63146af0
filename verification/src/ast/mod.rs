//! Source locations, the lexer, and the syntax tree.

pub mod location;

pub use location::{Location, LocationV, Position};
pub mod chars;
pub mod lexer;
pub mod lookahead_token_iterator;
pub mod ast;
pub mod inspect;
