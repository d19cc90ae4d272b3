//! Errors of the reader's own operations.

use vstd::prelude::*;

verus! {

/// String reader error.
#[derive(Debug, Copy, Clone, PartialEq, Eq, Structural)]
pub enum ParseError {
    /// The operation needed a character and none was left.
    EmptyInput,
    /// The input did not start with what was expected.
    NoMatch,
}

impl ParseError {
    /// A short description of the error.
    pub fn message(&self) -> (r: &'static str)
        ensures
            *self == ParseError::EmptyInput ==> r@ == "input is empty"@,
            *self == ParseError::NoMatch ==> r@ == "the input does not match"@,
    {
        match self {
            ParseError::EmptyInput => "input is empty",
            ParseError::NoMatch => "the input does not match",
        }
    }
}

} // verus!
