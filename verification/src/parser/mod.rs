//! Parsing: from a token sequence to a syntax tree, or to the first fault.

pub mod grammar;
pub mod laws;
pub mod recursive_descent;

use crate::ast::Node;
use crate::fault::Fault;
use crate::parser::grammar::parse_tokens;
use crate::token::{token_views, Token};
use vstd::prelude::*;
use vstd::string::StringExecFns;

verus! {

/// A fault in a token sequence: the line it stands on and what is wrong there.
#[derive(Debug)]
pub struct Error {
    pub line_number: i32,
    pub message: String,
}

impl View for Error {
    type V = Fault;

    open spec fn view(&self) -> Fault {
        Fault { line: self.line_number as int, message: self.message@ }
    }
}

impl Error {
    pub fn new(line_number: i32, message: &str) -> (error: Error)
        ensures
            error@ == (Fault { line: line_number as int, message: message@ }),
    {
        Error { line_number, message: String::from_str(message) }
    }
}

/// What a call of `parse` hands back, as contracts speak of it.
pub open spec fn parsed(result: Result<Node, Error>) -> Result<crate::ast::NodeView, Fault> {
    match result {
        Ok(node) => Ok(node@),
        Err(error) => Err(error@),
    }
}

/// A parser of token sequences. Whatever the method, it finds the one tree
/// that the grammar gives the tokens, or the grammar's first fault.
pub trait Parse<'a> {
    fn parse(&mut self, tokens: &'a [Token]) -> (result: Result<Node, Error>)
        ensures
            parsed(result) == parse_tokens(token_views(tokens@)),
    ;
}

} // verus!
