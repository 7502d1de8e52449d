//! The operators and what each of them brings to a rewrite: the pattern
//! that finds it, the number of its operands, and the form in which its
//! value is put back.

use crate::patterns::{is_pattern_of, Patterns};
use crate::utils::extractor::{extract_regex_captures, is_extraction};
use crate::utils::formatters::{format_and_trim, format_signed_and_trim, signed, trimmed};
use regex::Regex;
use vstd::prelude::*;

verus! {

/// Why an evaluation stopped without a value.
#[derive(Debug, PartialEq, Eq)]
pub enum EvaluationError {
    /// The token could not be read as a number.
    ParseError(String),
    /// An operator failed without a token to blame.
    UnknownError,
}

/// What an error says, with its token as plain text.
pub enum Failure {
    ParseError(Seq<char>),
    UnknownError,
}

impl View for EvaluationError {
    type V = Failure;

    open spec fn view(&self) -> Failure {
        match self {
            EvaluationError::ParseError(token) => Failure::ParseError(token@),
            EvaluationError::UnknownError => Failure::UnknownError,
        }
    }
}

/// The operators, in no particular order. Each stands for one rewriting
/// rule: where it occurs, how many operands it takes, how its value is put
/// back into the text.
#[derive(Debug, Clone, Copy, PartialEq, Eq, Structural)]
pub enum Operator {
    Parenthesis,
    Exponential,
    Division,
    Multiplication,
    Subtraction,
    Addition,
}

impl Operator {
    /// The number of operands.
    pub open spec fn arity(self) -> nat {
        match self {
            Operator::Parenthesis => 1,
            _ => 2,
        }
    }

    /// The number of operands, as a machine integer.
    pub fn operands(self) -> (r: usize)
        ensures
            r == self.arity(),
    {
        match self {
            Operator::Parenthesis => 1,
            _ => 2,
        }
    }

    /// Whether the operator's value is put back with its sign shown.
    pub open spec fn shows_sign(self) -> bool {
        self != Operator::Parenthesis
    }
}

/// The canonical text as which an operator's value is put back: with its
/// sign shown for the binary operators, plain for a bracketed group.
pub open spec fn rendering(operator: Operator, rendered: Seq<char>) -> Seq<char> {
    if operator.shows_sign() {
        signed(rendered)
    } else {
        trimmed(rendered)
    }
}

/// One rewriting rule with `N` operands.
pub trait Evaluator<const N: usize> {
    /// The operator that the rule rewrites.
    spec fn kind() -> Operator;

    /// The operator that the rule rewrites.
    fn operator() -> (r: Operator)
        ensures
            r == Self::kind(),
    ;

    /// The compiled pattern that finds the operator.
    fn regex(table: &Patterns) -> (r: &Regex)
        ensures
            *r == table.pattern(Self::kind()),
            is_pattern_of(*r, Self::kind()),
    {
        table.get(Self::operator())
    }

    /// The leftmost occurrence of the operator in `input`: its span and the
    /// text of its operands.
    fn extractor<'a>(input: &'a str, table: &Patterns) -> (r: Option<(usize, usize, [&'a str; N])>)
        requires
            N == Self::kind().arity(),
        ensures
            is_extraction(r, table.pattern(Self::kind()), input@),
    {
        extract_regex_captures::<N>(input, Self::regex(table))
    }

    /// The canonical text of a value that was rendered with a fixed count
    /// of decimals, as this operator puts it back.
    fn formatter(rendered: &str) -> (r: String)
        ensures
            r@ == rendering(Self::kind(), rendered@),
    {
        match Self::operator() {
            Operator::Parenthesis => format_and_trim(rendered),
            _ => format_signed_and_trim(rendered),
        }
    }
}

} // verus!
