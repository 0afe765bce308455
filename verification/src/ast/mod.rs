//! From the text of a program to its syntax tree.

pub mod grammar;
pub mod lexer;
pub mod parser;

use crate::error::{SyntaxError, SyntaxFailure};
use parser::{ASTNode, Node};
use vstd::prelude::*;

verus! {

/// The program that a text stands for: the tree of its tokens.
pub open spec fn program_of(text: Seq<char>) -> Result<Seq<Node>, SyntaxFailure> {
    match lexer::scan(text, 0, Seq::empty()) {
        Ok(tokens) => grammar::program(tokens),
        Err(failure) => Err(failure),
    }
}

/// Parses the text of a program.
pub fn parse(input: &str) -> (outcome: Result<Vec<ASTNode>, SyntaxError>)
    ensures
        parser::program_outcome(outcome) == program_of(input@),
{
    match lexer::tokenize(input) {
        Ok(tokens) => parser::parse(tokens),
        Err(error) => Err(error),
    }
}

} // verus!
