//! The compiled patterns that locate operator occurrences, and what the
//! library takes on trust about the pattern engine.

use crate::evaluator::Operator;
use crate::utils::text::is_span;
use regex::Regex;
use vstd::prelude::*;
use vstd::string::*;

verus! {

/// A compiled pattern of the `regex` crate. Nothing inside it is visible to
/// the proofs.
#[verifier::external_type_specification]
#[verifier::external_body]
pub struct ExRegex(regex::Regex);

/// What the engine makes of a pattern text: the compiled pattern, or `None`
/// where it refuses the text.
pub uninterp spec fn compiled(source: Seq<char>) -> Option<Regex>;

/// The number of groups that the engine counts on in every match of a
/// pattern, the whole match counted as one of them; `None` where it counts
/// on no number. A match has at least that many groups that took part; it
/// has more where a group inside a repetition was entered in one round and
/// another group in the next.
pub uninterp spec fn static_group_count(pattern: Regex) -> Option<usize>;

/// The byte spans of the groups of the leftmost match of a pattern in a
/// text, in the order of the groups and with the whole match first; a group
/// that took no part in the match has no span. `None` where the pattern
/// matches nowhere in the text.
pub uninterp spec fn leftmost_captures(pattern: Regex, haystack: Seq<char>) -> Option<
    Seq<Option<(usize, usize)>>,
>;

/// The spans of the groups that took part in a match, in their order.
pub open spec fn participants(groups: Seq<Option<(usize, usize)>>) -> Seq<(usize, usize)>
    decreases groups.len(),
{
    if groups.len() == 0 {
        seq![]
    } else {
        match groups.last() {
            Some(span) => participants(groups.drop_last()).push(span),
            None => participants(groups.drop_last()),
        }
    }
}

/// What every report of a match has: the whole match comes first and has a
/// span; each span lies in the text and cuts no character; each group is a
/// part of the whole match; and where the engine counts on a number of
/// groups, at least that many took part.
pub open spec fn is_match_report(
    groups: Seq<Option<(usize, usize)>>,
    haystack: Seq<char>,
    fixed: Option<usize>,
) -> bool {
    &&& groups.len() > 0
    &&& groups[0] is Some
    &&& forall|i: int|
        0 <= i < groups.len() ==> (#[trigger] groups[i] matches Some(span) ==> {
            &&& is_span(haystack, span.0 as int, span.1 as int)
            &&& groups[0].unwrap().0 <= span.0
            &&& span.1 <= groups[0].unwrap().1
        })
    &&& fixed matches Some(count) ==> participants(groups).len() >= count
}

/// Calls `Regex::new`, whose result is named `compiled`; the engine's
/// reason for refusing a text is dropped.
#[verifier::external_body]
pub(crate) fn compile(source: &str) -> (r: Option<Regex>)
    ensures
        r == compiled(source@),
{
    Regex::new(source).ok()
}

/// Calls `Regex::static_captures_len`, whose result is named
/// `static_group_count`.
#[verifier::external_body]
pub(crate) fn fixed_group_count(pattern: &Regex) -> (r: Option<usize>)
    ensures
        r == static_group_count(*pattern),
{
    pattern.static_captures_len()
}

/// Calls `Regex::captures` and copies out the span of each group, in the
/// order in which `Captures::iter` gives them. The result is named
/// `leftmost_captures`. Of every match the contract claims what
/// `is_match_report` says, which the engine documents: the whole match is
/// the first group and always there, offsets lie in the text on character
/// boundaries with the start not behind the end, groups are parts of the
/// match, and a match has at least the groups that the engine counts on.
#[verifier::external_body]
pub(crate) fn capture_spans(pattern: &Regex, haystack: &str) -> (r: Option<
    Vec<Option<(usize, usize)>>,
>)
    ensures
        r is Some <==> leftmost_captures(*pattern, haystack@) is Some,
        r matches Some(groups) ==> {
            &&& leftmost_captures(*pattern, haystack@) == Some(groups@)
            &&& is_match_report(groups@, haystack@, static_group_count(*pattern))
        },
{
    let found = pattern.captures(haystack)?;
    Some(found.iter().map(|group| group.map(|m| (m.start(), m.end()))).collect())
}

/// What a number looks like inside an expression: an optional sign, then
/// digits with an optional point and exponent, or `inf`, or `NaN`.
pub const NUMERIC_VALUE: &'static str = r"(?:-|\+)?(?:\d*\.?\d+(?:e(?:-|\+)?\d+)?|inf|NaN)";

/// A group in round brackets with no bracket inside it, and the blanks
/// around it. Its one capture is what stands between the brackets.
pub const PARENTHESIS: &'static str = r"\s*\(([^()]+)\)\s*";

/// The pattern text of a binary operator: two numbers with the operator's
/// symbol between them, blanks allowed everywhere. Each number is a capture.
pub open spec fn binary_source(symbol: Seq<char>) -> Seq<char> {
    r"\s*("@ + NUMERIC_VALUE@ + r")\s*"@ + symbol + r"\s*("@ + NUMERIC_VALUE@ + r")\s*"@
}

/// The operator's symbol as the pattern language writes it.
pub open spec fn symbol(operator: Operator) -> Seq<char> {
    match operator {
        Operator::Parenthesis => Seq::empty(),
        Operator::Exponential => r"\^"@,
        Operator::Division => r"\/"@,
        Operator::Multiplication => r"\*"@,
        Operator::Subtraction => r"-"@,
        Operator::Addition => r"\+"@,
    }
}

/// The pattern text by which an operator's occurrences are found.
pub open spec fn source(operator: Operator) -> Seq<char> {
    match operator {
        Operator::Parenthesis => PARENTHESIS@,
        _ => binary_source(symbol(operator)),
    }
}

fn binary_pattern_text(symbol: &str) -> (r: String)
    ensures
        r@ == binary_source(symbol@),
{
    let mut text = String::from_str(r"\s*(");
    text.append(NUMERIC_VALUE);
    text.append(r")\s*");
    text.append(symbol);
    text.append(r"\s*(");
    text.append(NUMERIC_VALUE);
    text.append(r")\s*");
    text
}

/// Whether a compiled pattern is the one that finds an operator: built from
/// the operator's pattern text, and counted on by the engine for one group
/// for each operand.
pub open spec fn is_pattern_of(pattern: Regex, operator: Operator) -> bool {
    &&& compiled(source(operator)) == Some(pattern)
    &&& static_group_count(pattern) matches Some(count) && count == operator.arity() + 1
}

/// Whether the engine offers a pattern that finds an operator: it compiles
/// the operator's pattern text and finds one group for each operand in it.
pub open spec fn is_available(operator: Operator) -> bool {
    compiled(source(operator)) matches Some(pattern) && is_pattern_of(pattern, operator)
}

fn pattern_source(operator: Operator) -> (r: String)
    ensures
        r@ == source(operator),
{
    match operator {
        Operator::Parenthesis => String::from_str(PARENTHESIS),
        Operator::Exponential => binary_pattern_text(r"\^"),
        Operator::Division => binary_pattern_text(r"\/"),
        Operator::Multiplication => binary_pattern_text(r"\*"),
        Operator::Subtraction => binary_pattern_text(r"-"),
        Operator::Addition => binary_pattern_text(r"\+"),
    }
}

/// Compiles the pattern of one operator, and refuses it unless the engine
/// reports the number of groups that the operator's arity asks for.
fn build(operator: Operator) -> (r: Option<Regex>)
    ensures
        r is Some <==> is_available(operator),
        r matches Some(pattern) ==> is_pattern_of(pattern, operator),
{
    let text: String = pattern_source(operator);
    match compile(text.as_str()) {
        Some(pattern) => {
            match fixed_group_count(&pattern) {
                Some(count) => {
                    if count == operator.operands() + 1 {
                        Some(pattern)
                    } else {
                        None
                    }
                },
                None => None,
            }
        },
        None => None,
    }
}

/// The table of the six compiled patterns, made once and then only read.
pub struct Patterns {
    parenthesis: Regex,
    exponential: Regex,
    division: Regex,
    multiplication: Regex,
    subtraction: Regex,
    addition: Regex,
}

impl Patterns {
    /// The compiled pattern that the table holds for an operator.
    pub closed spec fn pattern(&self, operator: Operator) -> Regex {
        match operator {
            Operator::Parenthesis => self.parenthesis,
            Operator::Exponential => self.exponential,
            Operator::Division => self.division,
            Operator::Multiplication => self.multiplication,
            Operator::Subtraction => self.subtraction,
            Operator::Addition => self.addition,
        }
    }

    /// Whether the table holds, for each operator, the pattern that finds
    /// it. Every table does.
    #[verifier::type_invariant]
    pub open spec fn is_complete(&self) -> bool {
        forall|operator: Operator| is_pattern_of(#[trigger] self.pattern(operator), operator)
    }

    /// Compiles the six patterns. `None` where the pattern engine refuses
    /// one of them or finds another number of groups in it than the
    /// operator has operands.
    pub fn new() -> (r: Option<Patterns>)
        ensures
            r is Some <==> forall|operator: Operator| is_available(operator),
            r matches Some(table) ==> table.is_complete(),
    {
        let Some(parenthesis) = build(Operator::Parenthesis) else {
            return None;
        };
        let Some(exponential) = build(Operator::Exponential) else {
            return None;
        };
        let Some(division) = build(Operator::Division) else {
            return None;
        };
        let Some(multiplication) = build(Operator::Multiplication) else {
            return None;
        };
        let Some(subtraction) = build(Operator::Subtraction) else {
            return None;
        };
        let Some(addition) = build(Operator::Addition) else {
            return None;
        };
        Some(
            Patterns { parenthesis, exponential, division, multiplication, subtraction, addition },
        )
    }

    /// The compiled pattern of an operator.
    pub fn get(&self, operator: Operator) -> (r: &Regex)
        ensures
            *r == self.pattern(operator),
            is_pattern_of(*r, operator),
    {
        proof {
            use_type_invariant(self);
            assert(is_pattern_of(self.pattern(operator), operator));
        }
        match operator {
            Operator::Parenthesis => &self.parenthesis,
            Operator::Exponential => &self.exponential,
            Operator::Division => &self.division,
            Operator::Multiplication => &self.multiplication,
            Operator::Subtraction => &self.subtraction,
            Operator::Addition => &self.addition,
        }
    }
}

} // verus!
