//! Evaluation of plain-text arithmetic expressions by exhaustive rewriting.
//!
//! An expression is reduced one operator at a time: the leftmost occurrence
//! of the operator is located, its value is substituted for it, and the
//! search starts again until nothing is left to rewrite. The operators are
//! taken in a fixed order, which is what gives them their precedence.
//!
//! The library works on text alone. Where the value of an operator is
//! needed it hands out the operands as number literals and takes the value
//! back as a number rendered with ten decimals; the arithmetic itself is the
//! caller's.

pub mod calculator;
pub mod evaluator;
pub mod patterns;
pub mod utils;

pub use crate::calculator::Calculator;
pub use crate::evaluator::{EvaluationError, Evaluator, Operator};
pub use crate::patterns::Patterns;
pub use crate::utils::extractor::{extract_regex_captures, try_extract_regex_captures};
pub use crate::utils::formatters::{format_and_trim, format_signed_and_trim, DECIMALS};
pub use crate::utils::parser::parse_value;

use vstd::prelude::*;

verus! {

/// The whole calculator: every operator, brackets first.
pub struct Calculate;

impl Calculator for Calculate {
    open spec fn order() -> Seq<Operator> {
        seq![
            Operator::Parenthesis,
            Operator::Exponential,
            Operator::Division,
            Operator::Multiplication,
            Operator::Subtraction,
            Operator::Addition,
        ]
    }

    fn evaluators() -> Vec<Operator> {
        vec![
            Operator::Parenthesis,
            Operator::Exponential,
            Operator::Division,
            Operator::Multiplication,
            Operator::Subtraction,
            Operator::Addition,
        ]
    }
}

/// A bracketed group. What stands between its brackets is evaluated by a
/// calculator of its own, which knows every operator but the brackets.
pub struct Parenthesis;

impl Calculator for Parenthesis {
    open spec fn order() -> Seq<Operator> {
        seq![
            Operator::Exponential,
            Operator::Division,
            Operator::Multiplication,
            Operator::Subtraction,
            Operator::Addition,
        ]
    }

    fn evaluators() -> Vec<Operator> {
        vec![
            Operator::Exponential,
            Operator::Division,
            Operator::Multiplication,
            Operator::Subtraction,
            Operator::Addition,
        ]
    }
}

impl Evaluator<1> for Parenthesis {
    open spec fn kind() -> Operator {
        Operator::Parenthesis
    }

    fn operator() -> Operator {
        Operator::Parenthesis
    }
}

/// Raising to a power.
pub struct Exponential;

impl Evaluator<2> for Exponential {
    open spec fn kind() -> Operator {
        Operator::Exponential
    }

    fn operator() -> Operator {
        Operator::Exponential
    }
}

/// Division.
pub struct Division;

impl Evaluator<2> for Division {
    open spec fn kind() -> Operator {
        Operator::Division
    }

    fn operator() -> Operator {
        Operator::Division
    }
}

/// Multiplication.
pub struct Multiplication;

impl Evaluator<2> for Multiplication {
    open spec fn kind() -> Operator {
        Operator::Multiplication
    }

    fn operator() -> Operator {
        Operator::Multiplication
    }
}

/// Subtraction.
pub struct Subtraction;

impl Evaluator<2> for Subtraction {
    open spec fn kind() -> Operator {
        Operator::Subtraction
    }

    fn operator() -> Operator {
        Operator::Subtraction
    }
}

/// Addition.
pub struct Addition;

impl Evaluator<2> for Addition {
    open spec fn kind() -> Operator {
        Operator::Addition
    }

    fn operator() -> Operator {
        Operator::Addition
    }
}

} // verus!
