//! A recursive-descent grammar for a small C-like language: it turns a stream of
//! lexed tokens into a syntax tree, with node identities, spans and diagnostics.

pub mod ast;
pub mod grammar;
pub mod identity;
pub mod laws;
pub mod literal;
pub mod parser;
pub mod token;

pub use ast::{File, ParserState};
pub use grammar::Error;
pub use parser::{parse, parse_with};
