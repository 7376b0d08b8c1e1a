//! Front end of a small statically typed imperative language: a tokenizer that
//! turns source bytes into tokens, and a single-pass recursive-descent parser
//! that turns tokens into a syntax tree while resolving every identifier to a
//! declaration made earlier in the same pass.

pub mod atoms;
pub mod grammar;
pub mod lexer;
pub mod parser;
pub mod references;
pub mod text;
