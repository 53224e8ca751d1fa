//! A lexical scanner that turns source text into span-tagged tokens.
pub mod token;
pub mod grammar;
pub mod lexer;
pub mod laws;
