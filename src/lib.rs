//! A small expression language: a lexer, a recursive-descent parser with
//! right-leaning sums and products, and an evaluator over a variable table
//! that persists from line to line.

pub mod chars;
pub mod interpreter;
pub mod laws;
pub mod lex;
pub mod parser;
pub mod stack;
pub mod value;
