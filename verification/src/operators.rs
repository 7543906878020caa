//! The closed set of combination modes an assignment statement can carry.
//! The engine only tags an action with its operator; merging the value into
//! the variable store is the consumer's concern.

use vstd::prelude::*;
use crate::strutil::str_eq;

verus! {

/// The combination modes, written in a statement as the token that ends the
/// key list: `=`, `+=`, `-=`, `*=`, `/=`, `//=`, `**=`, `++=`, `::=`, `\\=`.
#[derive(Debug, PartialEq, Eq, Clone, Copy)]
pub enum Operator {
    Equal,
    Add,
    Subtract,
    Multiply,
    Divide,
    IntegerDivide,
    Exponent,
    Concatenate,
    ConcatenateHead,
    Filter,
}

/// The operator written as `t`, or `None` for a token outside the set.
pub open spec fn spec_operator(t: Seq<char>) -> Option<Operator> {
    if t == "="@ {
        Some(Operator::Equal)
    } else if t == "+="@ {
        Some(Operator::Add)
    } else if t == "-="@ {
        Some(Operator::Subtract)
    } else if t == "*="@ {
        Some(Operator::Multiply)
    } else if t == "/="@ {
        Some(Operator::Divide)
    } else if t == "//="@ {
        Some(Operator::IntegerDivide)
    } else if t == "**="@ {
        Some(Operator::Exponent)
    } else if t == "++="@ {
        Some(Operator::Concatenate)
    } else if t == "::="@ {
        Some(Operator::ConcatenateHead)
    } else if t == "\\\\="@ {
        Some(Operator::Filter)
    } else {
        None
    }
}

/// Reads an operator token.
pub fn parse_operator(t: &str) -> (r: Option<Operator>)
    ensures
        match r {
            Some(op) => spec_operator(t@) == Some(op),
            None => spec_operator(t@) is None,
        },
{
    if str_eq(t, "=") {
        Some(Operator::Equal)
    } else if str_eq(t, "+=") {
        Some(Operator::Add)
    } else if str_eq(t, "-=") {
        Some(Operator::Subtract)
    } else if str_eq(t, "*=") {
        Some(Operator::Multiply)
    } else if str_eq(t, "/=") {
        Some(Operator::Divide)
    } else if str_eq(t, "//=") {
        Some(Operator::IntegerDivide)
    } else if str_eq(t, "**=") {
        Some(Operator::Exponent)
    } else if str_eq(t, "++=") {
        Some(Operator::Concatenate)
    } else if str_eq(t, "::=") {
        Some(Operator::ConcatenateHead)
    } else if str_eq(t, "\\\\=") {
        Some(Operator::Filter)
    } else {
        None
    }
}

} // verus!
