//! Front end for a small expression-oriented language: a character tokenizer
//! and a recursive-descent parser that build an abstract syntax tree.

pub mod lexer;
pub mod ast;
pub mod parser;
