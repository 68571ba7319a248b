//! Front end of a compiler for a small subset of C: source text is matched
//! against the grammar into a concrete syntax tree, which is then folded
//! into an abstract syntax tree of functions that return an integer
//! expression.

pub mod agreement;
pub mod ast;
pub mod builder;
pub mod cst;
pub mod error;
pub mod grammar;
pub mod lexer;
pub mod literal;
pub mod operator;
pub mod parser;
mod text;
