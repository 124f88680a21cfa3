//! Error kinds for the interpreter's public surface.
//!
//! The pipeline itself reports structured errors ([`crate::parser::ParseError`],
//! [`crate::interpreter::EvalError`]); this module folds them into one
//! descriptive enum for callers that only want a message.

use vstd::prelude::*;
use vstd::string::*;

use crate::interpreter::EvalError;
use crate::parser::ParseError;

verus! {

/// An interpreter error with a descriptive message.
#[derive(Debug, PartialEq)]
pub enum Error {
    /// A parse failure.
    Syntax(String),
    /// An operation applied to values whose kinds do not admit it.
    Type(String),
    /// Any other evaluation failure.
    Runtime(String),
}

/// The message text for a parse failure.
pub open spec fn parse_msg(e: ParseError) -> Seq<char> {
    match e {
        ParseError::ExpectedIdentifier => "Expected identifier after 'let'"@,
        ParseError::ExpectedEquals => "Expected '=' after identifier in let statement"@,
        ParseError::ExpectedCloseParen => "Expected ')'"@,
        ParseError::ExpectedExpression(_) => "Expected expression"@,
    }
}

/// The message text for an evaluation failure.
pub open spec fn eval_msg(e: EvalError) -> Seq<char> {
    match e {
        EvalError::UndefinedVariable(n) => "Undefined variable: "@ + n@,
        EvalError::InvalidOperation => "Invalid operation"@,
        EvalError::DivisionByZero => "Division by zero"@,
        EvalError::Overflow => "Number out of range"@,
    }
}

impl ParseError {
    /// A descriptive message for this parse failure.
    pub fn message(&self) -> (r: String)
        ensures
            r@ == parse_msg(*self),
    {
        match self {
            ParseError::ExpectedIdentifier => String::from_str("Expected identifier after 'let'"),
            ParseError::ExpectedEquals => String::from_str(
                "Expected '=' after identifier in let statement",
            ),
            ParseError::ExpectedCloseParen => String::from_str("Expected ')'"),
            ParseError::ExpectedExpression(_) => String::from_str("Expected expression"),
        }
    }
}

impl EvalError {
    /// A descriptive message for this evaluation failure; an undefined
    /// variable is named.
    pub fn message(&self) -> (r: String)
        ensures
            r@ == eval_msg(*self),
    {
        match self {
            EvalError::UndefinedVariable(n) => String::from_str("Undefined variable: ").concat(
                n.as_str(),
            ),
            EvalError::InvalidOperation => String::from_str("Invalid operation"),
            EvalError::DivisionByZero => String::from_str("Division by zero"),
            EvalError::Overflow => String::from_str("Number out of range"),
        }
    }
}

impl Error {
    /// Wraps a parse failure as a syntax error.
    pub fn from_parse(e: &ParseError) -> (r: Error)
        ensures
            r matches Error::Syntax(m) && m@ == parse_msg(*e),
    {
        Error::Syntax(e.message())
    }

    /// Wraps an evaluation failure: an operand-kind mismatch is a type
    /// error, anything else a runtime error.
    pub fn from_eval(e: &EvalError) -> (r: Error)
        ensures
            match e {
                EvalError::InvalidOperation => r matches Error::Type(m) && m@ == eval_msg(*e),
                _ => r matches Error::Runtime(m) && m@ == eval_msg(*e),
            },
    {
        match e {
            EvalError::InvalidOperation => Error::Type(e.message()),
            _ => Error::Runtime(e.message()),
        }
    }

    /// The message carried by this error.
    pub fn message(&self) -> (r: String)
        ensures
            r@ == match self {
                Error::Syntax(m) => m@,
                Error::Type(m) => m@,
                Error::Runtime(m) => m@,
            },
    {
        match self {
            Error::Syntax(m) => m.clone(),
            Error::Type(m) => m.clone(),
            Error::Runtime(m) => m.clone(),
        }
    }
}

} // verus!
