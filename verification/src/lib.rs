//! The front end of a small imperative language: a scanner that cuts source
//! text into tokens, a parser that builds a syntax tree from them, and an
//! unwriter that writes the tree back as source text.

pub mod ast;
pub mod block_laws;
pub mod diagnostic;
pub mod dump;
pub mod grammar;
pub mod laws;
pub mod lex;
pub mod parser;
pub mod unwriter;
