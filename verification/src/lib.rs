//! An arithmetic expression evaluator front end.
//!
//! The crate turns a flat expression string such as `"2+7*4^2-5"` into a
//! straight-line reduction program: the numeric literals of the expression,
//! in order, followed by the binary operations that a fixed-order, tiered
//! reduction (exponent first, then multiply/divide, then add/subtract, each
//! tier left to right) performs on them.  Callers execute that program over
//! 64-bit floating point values; everything up to that final arithmetic is
//! verified here.

use vstd::prelude::*;

pub mod program;
pub mod reduce;
pub mod token;
pub mod tokenizer;

pub use program::Program;
pub use program::compile;
pub use reduce::Step;
pub use reduce::Tier;
pub use reduce::process_pass;
pub use token::CalculationError;
pub use token::CalculationErrorKind;
pub use token::Operator;
pub use token::Token;
pub use tokenizer::tokenize;

verus! {

} // verus!
