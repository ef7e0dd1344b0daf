//! The front end of a small expression language: a scanner from source text
//! to tokens and a recursive-descent parser from tokens to a syntax tree.

pub mod ast;
pub mod fault;
pub mod interpreter;
pub mod lexical;
pub mod lexical_laws;
pub mod number;
pub mod parser;
pub mod scanner;
pub mod text;
pub mod token;
