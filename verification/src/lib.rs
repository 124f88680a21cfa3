//! A tree-walking interpreter for a small expression/statement language:
//! `let` bindings, numeric and string literals, identifiers, and
//! left-associative binary arithmetic with the usual precedence.
//!
//! The pipeline has three stages, each verified against a specification-level
//! model of its behaviour:
//! - [`lexer`]: turns source characters into tokens on demand;
//! - [`parser`]: recursive descent with precedence climbing, building an AST;
//! - [`interpreter`]: walks one statement at a time over a mutable
//!   variable environment.
//!
//! Numbers are exact rationals ([`number::Q`]); see that module for the
//! arithmetic and overflow policy.
#![verifier::loop_isolation(false)]

pub mod error;
pub mod interpreter;
pub mod laws;
pub mod lexer;
pub mod parser;
pub mod number;

pub use error::Error;
