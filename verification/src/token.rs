//! Tokens of an arithmetic expression, and the errors that reading one can
//! raise.

use vstd::prelude::*;

verus! {

/// One of the five binary operators an expression may use.
#[derive(Clone, Copy, Debug, PartialEq, Eq, Structural)]
pub enum Operator {
    Add,
    Multiply,
    Divide,
    Subtract,
    Exponent,
}

/// A token of a (possibly partly reduced) expression.
///
/// A `Number` token does not carry its numeric value: it carries the index of
/// a value slot.  Slots below the literal count name the numeric literals of
/// the expression, in the order the tokenizer read them; slots above name the
/// results of reduction steps.  Keeping numbers symbolic lets every stage up
/// to the final floating-point arithmetic be verified exactly.
#[derive(Clone, Copy, Debug, PartialEq, Eq, Structural)]
pub enum Token {
    Number(usize),
    Operator(Operator),
}

/// Why an expression string was rejected.
#[derive(Clone, Copy, Debug, PartialEq, Eq, Structural)]
pub enum CalculationErrorKind {
    /// A character that is not a digit, a decimal point, whitespace or an
    /// operator.  Carries the first such character.
    InvalidCharacter(char),
    /// A numeric literal that standard decimal parsing would reject: an
    /// empty one (as after a leading or doubled operator) or one with more
    /// than one decimal point or no digit at all.
    MalformedNumber,
    /// The expression ended where a number was still owed: it ends with an
    /// operator.
    UnexpectedEndOfInput,
    /// The expression holds no token at all (empty or only whitespace).
    EmptyExpression,
}

/// The error an expression string can be rejected with.
#[derive(Clone, Copy, Debug, PartialEq, Eq, Structural)]
pub struct CalculationError {
    pub kind: CalculationErrorKind,
}

/// The characters `+ - * / ^` stand for operators.
pub open spec fn spec_operator_of_char(c: char) -> Option<Operator> {
    match c {
        '+' => Some(Operator::Add),
        '-' => Some(Operator::Subtract),
        '*' => Some(Operator::Multiply),
        '/' => Some(Operator::Divide),
        '^' => Some(Operator::Exponent),
        _ => None,
    }
}

/// An ASCII decimal digit.
pub open spec fn spec_is_digit(c: char) -> bool {
    '0' <= c && c <= '9'
}

/// ASCII whitespace: space, tab, newline, form feed or carriage return.
pub open spec fn spec_is_whitespace(c: char) -> bool {
    c == ' ' || c == '\t' || c == '\n' || c == '\x0c' || c == '\r'
}

/// Which operator, if any, a character stands for.
pub fn operator_of_char(c: char) -> (r: Option<Operator>)
    ensures
        r == spec_operator_of_char(c),
{
    match c {
        '+' => Some(Operator::Add),
        '-' => Some(Operator::Subtract),
        '*' => Some(Operator::Multiply),
        '/' => Some(Operator::Divide),
        '^' => Some(Operator::Exponent),
        _ => None,
    }
}

/// Whether a character is an ASCII decimal digit.
pub fn is_digit(c: char) -> (r: bool)
    ensures
        r == spec_is_digit(c),
{
    '0' <= c && c <= '9'
}

/// Whether a character is ASCII whitespace.
pub fn is_whitespace(c: char) -> (r: bool)
    ensures
        r == spec_is_whitespace(c),
{
    c == ' ' || c == '\t' || c == '\n' || c == '\x0c' || c == '\r'
}

} // verus!
