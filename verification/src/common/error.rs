//! Errors, each with the place in the source where it was found.

use vstd::prelude::*;

use crate::common::token::{Location, TokenType};
use crate::common::types::NEWTypes;

verus! {

/// What is wrong.
#[derive(PartialEq, Debug)]
pub enum ErrorKind {
    IntegerOverflow(NEWTypes),
    DivideByZero,
    NegativeShift,
    InvalidBinary(TokenType, NEWTypes, NEWTypes),
    InvalidUnary(TokenType, NEWTypes, &'static str),
    InvalidComp(TokenType, NEWTypes, NEWTypes),
    InvalidConstCast(NEWTypes, NEWTypes),
    TypeMismatch(NEWTypes, NEWTypes),
    NotIntegerConstant(&'static str),
    UndeclaredSymbol(String),
    Regular(&'static str),
}

/// An error and the line and column where it was found.
#[derive(PartialEq, Debug)]
pub struct Error {
    pub kind: ErrorKind,
    pub line_index: i32,
    pub column: i32,
    pub line_string: String,
}

/// The error of kind `kind` at the place where `place` stands.
pub open spec fn error_at<L: Location>(place: L, kind: ErrorKind) -> Error {
    Error {
        kind,
        line_index: place.line_of(),
        column: place.column_of(),
        line_string: place.text_of(),
    }
}

impl Error {
    pub fn new<L: Location>(place: &L, kind: ErrorKind) -> (error: Self)
        ensures
            error == error_at(*place, kind),
    {
        Error {
            kind,
            line_index: place.line_index(),
            column: place.column(),
            line_string: place.line_string(),
        }
    }
}

} // verus!
