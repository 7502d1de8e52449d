//! The order of the operators, and the evaluation of an expression as a
//! machine that stops wherever it needs the value of an operator.
//!
//! The machine does the searching, the checking of operands and the
//! substituting. Its caller computes each value that it asks for and hands
//! it back, rendered with a fixed count of decimals, until the evaluation is
//! over.

use crate::evaluator::{rendering, EvaluationError, Evaluator, Failure, Operator};
use crate::patterns::{leftmost_captures, participants, Patterns};
use crate::utils::parser::{is_number, is_number_token, parse_value};
use crate::utils::text::{is_span, replaced, slice, splice};
use crate::{Addition, Calculate, Division, Exponential, Multiplication, Parenthesis, Subtraction};
use vstd::prelude::*;
use vstd::string::*;

verus! {

/// A calculator: the operators that it knows, in the order in which it
/// rewrites them. One operator is rewritten until it occurs no more before
/// the next is looked for; that order is all there is to precedence.
pub trait Calculator {
    /// The operators in the order of their precedence, highest first.
    spec fn order() -> Seq<Operator>;

    /// The operators in the order of their precedence, highest first.
    fn evaluators() -> (r: Vec<Operator>)
        ensures
            r@ == Self::order(),
    ;

    /// Reads what is left when no operator occurs any more: a number
    /// literal is handed back, anything else is refused as it stands.
    fn parser(input: String) -> (r: Result<String, EvaluationError>)
        ensures
            is_number(input@) ==> r == Ok::<String, EvaluationError>(input),
            !is_number(input@) ==> r == Err::<String, EvaluationError>(
                EvaluationError::ParseError(input),
            ),
    {
        parse_value(input)
    }
}

/// Whether an operator occurs in a text.
pub open spec fn occurs(table: Patterns, operator: Operator, text: Seq<char>) -> bool {
    leftmost_captures(table.pattern(operator), text) is Some
}

/// The spans of the leftmost occurrence of an operator in a text: that of
/// the occurrence itself, then that of each operand.
pub open spec fn spans(table: Patterns, operator: Operator, text: Seq<char>) -> Seq<
    (usize, usize),
> {
    participants(leftmost_captures(table.pattern(operator), text).unwrap())
}

/// The operands of the leftmost occurrence of an operator in a text.
pub open spec fn operands(table: Patterns, operator: Operator, text: Seq<char>) -> Seq<
    Seq<char>,
> {
    Seq::new(
        operator.arity(),
        |i: int|
            slice(
                text,
                spans(table, operator, text)[i + 1].0 as int,
                spans(table, operator, text)[i + 1].1 as int,
            ),
    )
}

/// The texts that a vector of strings holds.
pub open spec fn texts(strings: Seq<String>) -> Seq<Seq<char>> {
    Seq::new(strings.len(), |i: int| strings[i]@)
}

/// An occurrence of an operator in a text: the bytes that it takes up, and
/// its operands.
pub struct Occurrence {
    pub start: usize,
    pub end: usize,
    pub operands: Vec<String>,
}

impl Occurrence {
    /// Whether this is the leftmost occurrence of `operator` in `text`,
    /// with its operands, each of them a part of the occurrence.
    pub open spec fn is_leftmost(self, table: Patterns, operator: Operator, text: Seq<char>) -> bool {
        &&& occurs(table, operator, text)
        &&& (self.start, self.end) == spans(table, operator, text)[0]
        &&& is_span(text, self.start as int, self.end as int)
        &&& texts(self.operands@) == operands(table, operator, text)
        &&& forall|i: int|
            0 <= i < spans(table, operator, text).len() ==> {
                &&& self.start <= (#[trigger] spans(table, operator, text)[i]).0
                &&& spans(table, operator, text)[i].0 <= spans(table, operator, text)[i].1
                &&& spans(table, operator, text)[i].1 <= self.end
            }
    }
}

/// The occurrence with its operands as strings of their own.
fn occurrence<const N: usize>(found: Option<(usize, usize, [&str; N])>) -> (r: Option<Occurrence>)
    ensures
        r is Some <==> found is Some,
        (r, found) matches (Some(o), Some((start, end, captures))) ==> {
            &&& o.start == start
            &&& o.end == end
            &&& o.operands@.len() == N
            &&& forall|i: int| 0 <= i < N ==> (#[trigger] o.operands@[i])@ == captures[i]@
        },
{
    match found {
        Some((start, end, captures)) => {
            let mut operands: Vec<String> = Vec::new();
            let mut i: usize = 0;
            while i < N
                invariant
                    i <= N,
                    operands@.len() == i,
                    forall|k: int| 0 <= k < i ==> (#[trigger] operands@[k])@ == captures[k]@,
                decreases N - i,
            {
                operands.push(String::from_str(captures[i]));
                i += 1;
            }
            Some(Occurrence { start, end, operands })
        },
        None => None,
    }
}

/// Looks for the leftmost occurrence of an operator in a text.
pub fn locate(operator: Operator, text: &str, table: &Patterns) -> (r: Option<Occurrence>)
    ensures
        r is Some <==> occurs(*table, operator, text@),
        r matches Some(o) ==> o.is_leftmost(*table, operator, text@),
{
    let r = match operator {
        Operator::Parenthesis => occurrence(Parenthesis::extractor(text, table)),
        Operator::Exponential => occurrence(Exponential::extractor(text, table)),
        Operator::Division => occurrence(Division::extractor(text, table)),
        Operator::Multiplication => occurrence(Multiplication::extractor(text, table)),
        Operator::Subtraction => occurrence(Subtraction::extractor(text, table)),
        Operator::Addition => occurrence(Addition::extractor(text, table)),
    };
    proof {
        if r is Some {
            assert(texts(r.unwrap().operands@) =~= operands(*table, operator, text@));
        }
    }
    r
}

/// The canonical text of an operator's value, given the value rendered with
/// a fixed count of decimals.
pub fn render(operator: Operator, rendered: &str) -> (r: String)
    ensures
        r@ == rendering(operator, rendered@),
{
    match operator {
        Operator::Parenthesis => Parenthesis::formatter(rendered),
        Operator::Exponential => Exponential::formatter(rendered),
        Operator::Division => Division::formatter(rendered),
        Operator::Multiplication => Multiplication::formatter(rendered),
        Operator::Subtraction => Subtraction::formatter(rendered),
        Operator::Addition => Addition::formatter(rendered),
    }
}

/// The first stage at or behind `from` whose operator occurs in the text;
/// the number of stages where none does.
pub open spec fn next_stage(table: Patterns, order: Seq<Operator>, text: Seq<char>, from: int) -> int
    decreases order.len() - from,
{
    if from < 0 || from >= order.len() {
        order.len() as int
    } else if occurs(table, order[from], text) {
        from
    } else {
        next_stage(table, order, text, from + 1)
    }
}

/// The first of the operands that is no number literal.
pub open spec fn first_malformed(operands: Seq<Seq<char>>) -> Option<Seq<char>>
    decreases operands.len(),
{
    if operands.len() == 0 {
        None
    } else if !is_number(operands[0]) {
        Some(operands[0])
    } else {
        first_malformed(operands.drop_first())
    }
}

/// A bracketed group that is being evaluated: the bytes that it takes up
/// in the expression, what is left of its inside, and how far the inside
/// has been rewritten.
pub struct GroupModel {
    pub start: int,
    pub end: int,
    pub text: Seq<char>,
    pub stage: int,
}

/// An evaluation in progress: what is left of the expression, how far it
/// has been rewritten, and the bracketed group at work, if any.
pub struct Model {
    pub text: Seq<char>,
    pub stage: int,
    pub group: Option<GroupModel>,
}

/// A value that the evaluation waits for: that of `operator` on
/// `operands`, to be put in place of the bytes `start..end`.
pub struct Request {
    pub operator: Operator,
    pub start: int,
    pub end: int,
    pub operands: Seq<Seq<char>>,
}

/// Where an evaluation has got to when it stops.
pub enum Outcome {
    /// It waits for a value.
    Suspended(Model, Request),
    /// Nothing is left to rewrite, and what is left is a number literal.
    Finished(Seq<char>),
    /// It has failed.
    Failed(Failure),
}

/// The request for the value of the leftmost occurrence of `operator` in
/// `text`, or the failure on the first operand that is no number literal.
pub open spec fn request(table: Patterns, operator: Operator, text: Seq<char>, then: Model) -> Outcome {
    let found = operands(table, operator, text);
    match first_malformed(found) {
        Some(token) => Outcome::Failed(Failure::ParseError(token)),
        None => Outcome::Suspended(
            then,
            Request {
                operator,
                start: spans(table, operator, text)[0].0 as int,
                end: spans(table, operator, text)[0].1 as int,
                operands: found,
            },
        ),
    }
}

/// What is left to do once every operator has gone from a text: the text
/// is the result if it is a number literal, and the offending token if not.
pub open spec fn residue(text: Seq<char>) -> Outcome {
    if is_number(text) {
        Outcome::Finished(text)
    } else {
        Outcome::Failed(Failure::ParseError(text))
    }
}

/// The next stop of an evaluation that is at work on a bracketed group:
/// the next occurrence of an operator inside the group, or, when none is
/// left there, the value of the group itself.
pub open spec fn step_group(table: Patterns, outer: Seq<char>, group: GroupModel) -> Outcome {
    let order = Parenthesis::order();
    let stage = next_stage(table, order, group.text, group.stage);
    let then = Model {
        text: outer,
        stage: 0,
        group: Some(GroupModel { stage, ..group }),
    };
    if stage >= order.len() {
        if is_number(group.text) {
            Outcome::Suspended(
                then,
                Request {
                    operator: Operator::Parenthesis,
                    start: group.start,
                    end: group.end,
                    operands: seq![group.text],
                },
            )
        } else {
            Outcome::Failed(Failure::ParseError(group.text))
        }
    } else {
        request(table, order[stage], group.text, then)
    }
}

/// The leftmost innermost bracketed group of a text, with its inside still
/// to be rewritten.
pub open spec fn opened_group(table: Patterns, text: Seq<char>) -> GroupModel {
    GroupModel {
        start: spans(table, Operator::Parenthesis, text)[0].0 as int,
        end: spans(table, Operator::Parenthesis, text)[0].1 as int,
        text: operands(table, Operator::Parenthesis, text)[0],
        stage: 0,
    }
}

/// The next stop of an evaluation.
pub open spec fn step(table: Patterns, model: Model) -> Outcome {
    match model.group {
        Some(group) => step_group(table, model.text, group),
        None => {
            let order = Calculate::order();
            let stage = next_stage(table, order, model.text, model.stage);
            if stage >= order.len() {
                residue(model.text)
            } else if order[stage] == Operator::Parenthesis {
                step_group(table, model.text, opened_group(table, model.text))
            } else {
                request(table, order[stage], model.text, Model { stage, ..model })
            }
        },
    }
}

/// The evaluation after the value that it waited for has come: the
/// canonical text of the value stands in place of the occurrence. A group
/// whose value has come is done with.
pub open spec fn resumed(model: Model, request: Request, rendered: Seq<char>) -> Model {
    let value = rendering(request.operator, rendered);
    if request.operator == Operator::Parenthesis {
        Model { text: replaced(model.text, request.start, request.end, value), stage: 0, group: None }
    } else {
        match model.group {
            Some(group) => Model {
                group: Some(
                    GroupModel {
                        text: replaced(group.text, request.start, request.end, value),
                        ..group
                    },
                ),
                ..model
            },
            None => Model {
                text: replaced(model.text, request.start, request.end, value),
                ..model
            },
        }
    }
}

struct Group {
    start: usize,
    end: usize,
    text: String,
    stage: usize,
}

/// An evaluation that is ready to go on.
pub struct Evaluation {
    text: String,
    stage: usize,
    group: Option<Group>,
}

impl View for Evaluation {
    type V = Model;

    closed spec fn view(&self) -> Model {
        Model {
            text: self.text@,
            stage: self.stage as int,
            group: match self.group {
                Some(group) => Some(
                    GroupModel {
                        start: group.start as int,
                        end: group.end as int,
                        text: group.text@,
                        stage: group.stage as int,
                    },
                ),
                None => None,
            },
        }
    }
}

/// An evaluation that waits for the value of an operator.
pub struct Suspended {
    evaluation: Evaluation,
    operator: Operator,
    start: usize,
    end: usize,
    operands: Vec<String>,
}

/// Where an evaluation has got to when it stops.
pub enum Progress {
    /// It waits for a value.
    Suspended(Suspended),
    /// Nothing is left to rewrite, and what is left is a number literal.
    Finished(String),
    /// It has failed.
    Failed(EvaluationError),
}

impl View for Progress {
    type V = Outcome;

    open spec fn view(&self) -> Outcome {
        match self {
            Progress::Suspended(suspended) => Outcome::Suspended(
                suspended.model(),
                suspended.request(),
            ),
            Progress::Finished(text) => Outcome::Finished(text@),
            Progress::Failed(error) => Outcome::Failed(error@),
        }
    }
}

fn first_invalid(operands: &Vec<String>) -> (r: Option<usize>)
    ensures
        match first_malformed(texts(operands@)) {
            Some(token) => r matches Some(i) && i < operands@.len() && operands@[i as int]@
                == token,
            None => r is None,
        },
{
    let mut i: usize = 0;
    proof {
        assert(texts(operands@).skip(0) =~= texts(operands@));
    }
    while i < operands.len()
        invariant
            i <= operands@.len(),
            first_malformed(texts(operands@)) == first_malformed(texts(operands@).skip(i as int)),
        decreases operands@.len() - i,
    {
        proof {
            let rest = texts(operands@).skip(i as int);
            assert(rest[0] == operands@[i as int]@);
            assert(rest.drop_first() =~= texts(operands@).skip(i as int + 1));
        }
        if !is_number_token(operands[i].as_str()) {
            return Some(i);
        }
        i += 1;
    }
    None
}

fn scan(order: &Vec<Operator>, text: &str, from: usize, table: &Patterns) -> (r: (
    usize,
    Option<Occurrence>,
))
    requires
        from <= order@.len(),
    ensures
        r.0 == next_stage(*table, order@, text@, from as int),
        from <= r.0 <= order@.len(),
        r.1 is Some <==> r.0 < order@.len(),
        r.1 matches Some(found) ==> found.is_leftmost(*table, order@[r.0 as int], text@),
{
    let mut stage: usize = from;
    while stage < order.len()
        invariant
            from <= stage <= order@.len(),
            next_stage(*table, order@, text@, from as int) == next_stage(
                *table,
                order@,
                text@,
                stage as int,
            ),
        decreases order@.len() - stage,
    {
        let found = locate(order[stage], text, table);
        if found.is_some() {
            return (stage, found);
        }
        stage += 1;
    }
    (stage, None)
}

impl Evaluation {
    #[verifier::type_invariant]
    spec fn well_formed(&self) -> bool {
        &&& self.stage <= Calculate::order().len()
        &&& self.group matches Some(group) ==> {
            &&& self.stage == 0
            &&& group.stage <= Parenthesis::order().len()
            &&& is_span(self.text@, group.start as int, group.end as int)
        }
    }

    /// The evaluation of `input`, with everything still to do.
    pub fn new(input: String) -> (r: Evaluation)
        ensures
            r@ == (Model { text: input@, stage: 0, group: None }),
    {
        Evaluation { text: input, stage: 0, group: None }
    }

    /// Rewrites nothing and looks for the next thing to rewrite: takes the
    /// operators in their order, from the one that was last at work, until
    /// one of them occurs. The evaluation then waits for that occurrence's
    /// value, unless an operand of it is no number literal. Where no
    /// operator occurs any more the evaluation is over.
    pub fn advance(self, table: &Patterns) -> (r: Progress)
        ensures
            r@ == step(*table, self@),
    {
        proof {
            use_type_invariant(&self);
        }
        let Evaluation { text, stage, group } = self;
        match group {
            Some(group) => Self::advance_group(text, group, table),
            None => {
                let order = Calculate::evaluators();
                let (stage, found) = scan(&order, text.as_str(), stage, table);
                match found {
                    None => match Calculate::parser(text) {
                        Ok(literal) => Progress::Finished(literal),
                        Err(error) => Progress::Failed(error),
                    },
                    Some(found) => {
                        if stage == 0 {
                            let Occurrence { start, end, mut operands } = found;
                            let inside = operands.remove(0);
                            Self::advance_group(
                                text,
                                Group { start, end, text: inside, stage: 0 },
                                table,
                            )
                        } else {
                            let then = Evaluation { text, stage, group: None };
                            Self::pending(order[stage], found, then, Ghost(*table))
                        }
                    },
                }
            },
        }
    }

    fn advance_group(outer: String, group: Group, table: &Patterns) -> (r: Progress)
        requires
            group.stage <= Parenthesis::order().len(),
            is_span(outer@, group.start as int, group.end as int),
        ensures
            r@ == step_group(
                *table,
                outer@,
                GroupModel {
                    start: group.start as int,
                    end: group.end as int,
                    text: group.text@,
                    stage: group.stage as int,
                },
            ),
    {
        let order = Parenthesis::evaluators();
        let Group { start, end, text, stage } = group;
        let (stage, found) = scan(&order, text.as_str(), stage, table);
        match found {
            None => match <Parenthesis as Calculator>::parser(text) {
                Ok(text) => {
                    let mut operands: Vec<String> = Vec::new();
                    operands.push(String::from_str(text.as_str()));
                    let then = Evaluation {
                        text: outer,
                        stage: 0,
                        group: Some(Group { start, end, text, stage }),
                    };
                    let suspended = Suspended {
                        evaluation: then,
                        operator: Operator::Parenthesis,
                        start,
                        end,
                        operands,
                    };
                    proof {
                        assert(suspended.request().operands =~= seq![text@]);
                    }
                    Progress::Suspended(suspended)
                },
                Err(error) => Progress::Failed(error),
            },
            Some(found) => {
                let then = Evaluation {
                    text: outer,
                    stage: 0,
                    group: Some(Group { start, end, text, stage }),
                };
                Self::pending(order[stage], found, then, Ghost(*table))
            },
        }
    }

    /// The text that is being rewritten: the inside of the group at work,
    /// or the expression itself.
    spec fn active(&self) -> Seq<char> {
        match self.group {
            Some(group) => group.text@,
            None => self.text@,
        }
    }

    fn pending(operator: Operator, found: Occurrence, then: Evaluation, table: Ghost<Patterns>) -> (r:
        Progress)
        requires
            operator != Operator::Parenthesis,
            found.is_leftmost(table@, operator, then.active()),
        ensures
            r@ == request(table@, operator, then.active(), then@),
    {
        let Occurrence { start, end, operands } = found;
        match first_invalid(&operands) {
            Some(i) => Progress::Failed(
                EvaluationError::ParseError(String::from_str(operands[i].as_str())),
            ),
            None => Progress::Suspended(
                Suspended { evaluation: then, operator, start, end, operands },
            ),
        }
    }
}

impl Suspended {
    #[verifier::type_invariant]
    spec fn well_formed(&self) -> bool {
        if self.operator == Operator::Parenthesis {
            self.evaluation.group matches Some(group) && group.start == self.start && group.end
                == self.end
        } else {
            is_span(self.evaluation.active(), self.start as int, self.end as int)
        }
    }

    /// The evaluation that waits.
    pub closed spec fn model(&self) -> Model {
        self.evaluation@
    }

    /// The value that it waits for.
    pub closed spec fn request(&self) -> Request {
        Request {
            operator: self.operator,
            start: self.start as int,
            end: self.end as int,
            operands: texts(self.operands@),
        }
    }

    /// The operator whose value is asked for.
    pub fn operator(&self) -> (r: Operator)
        ensures
            r == self.request().operator,
    {
        self.operator
    }

    /// The operands of which the value is asked for, each a number literal.
    pub fn operands(&self) -> (r: &Vec<String>)
        ensures
            texts(r@) == self.request().operands,
    {
        &self.operands
    }

    /// Takes the value that the evaluation waited for, rendered with a
    /// fixed count of decimals, and puts its canonical text in place of the
    /// occurrence.
    pub fn resume(self, rendered: &str) -> (r: Evaluation)
        ensures
            r@ == resumed(self.model(), self.request(), rendered@),
    {
        proof {
            use_type_invariant(&self);
            use_type_invariant(&self.evaluation);
        }
        let Suspended { evaluation, operator, start, end, operands: _ } = self;
        let Evaluation { text, stage, group } = evaluation;
        let value: String = render(operator, rendered);
        match operator {
            Operator::Parenthesis => {
                let text = splice(text.as_str(), start, end, value.as_str());
                Evaluation { text, stage: 0, group: None }
            },
            _ => match group {
                Some(group) => {
                    let Group { start: from, end: to, text: inside, stage: inner } = group;
                    let inside = splice(inside.as_str(), start, end, value.as_str());
                    Evaluation {
                        text,
                        stage,
                        group: Some(Group { start: from, end: to, text: inside, stage: inner }),
                    }
                },
                None => {
                    let text = splice(text.as_str(), start, end, value.as_str());
                    Evaluation { text, stage, group: None }
                },
            },
        }
    }
}

/// A bracketed group is evaluated with every operator but the brackets, in
/// the same order: what stands inside a group never opens another.
pub proof fn lemma_group_order()
    ensures
        Parenthesis::order() =~= Calculate::order().skip(1),
        !Parenthesis::order().contains(Operator::Parenthesis),
{
}

/// An operator is exhausted before the next is looked for: none of the
/// operators between the stage that the search starts at and the stage
/// that it stops at occurs in the text, and the one that it stops at does.
pub proof fn lemma_next_stage(table: Patterns, order: Seq<Operator>, text: Seq<char>, from: int)
    requires
        0 <= from <= order.len(),
    ensures
        from <= next_stage(table, order, text, from) <= order.len(),
        forall|stage: int|
            from <= stage < next_stage(table, order, text, from) ==> !occurs(
                table,
                #[trigger] order[stage],
                text,
            ),
        next_stage(table, order, text, from) < order.len() ==> occurs(
            table,
            order[next_stage(table, order, text, from)],
            text,
        ),
    decreases order.len() - from,
{
    if from < order.len() && !occurs(table, order[from], text) {
        lemma_next_stage(table, order, text, from + 1);
    }
}

/// Where no operand is malformed, each is a number literal.
pub proof fn lemma_first_malformed(operands: Seq<Seq<char>>)
    ensures
        match first_malformed(operands) {
            Some(token) => !is_number(token) && operands.contains(token),
            None => forall|i: int| 0 <= i < operands.len() ==> is_number(#[trigger] operands[i]),
        },
    decreases operands.len(),
{
    if operands.len() > 0 {
        if is_number(operands[0]) {
            let rest = operands.drop_first();
            lemma_first_malformed(rest);
            match first_malformed(rest) {
                Some(token) => {
                    let i = choose|i: int| 0 <= i < rest.len() && rest[i] == token;
                    assert(operands[i + 1] == token);
                },
                None => {
                    assert forall|i: int| 0 <= i < operands.len() implies is_number(
                        #[trigger] operands[i],
                    ) by {
                        if i > 0 {
                            assert(rest[i - 1] == operands[i]);
                        }
                    }
                },
            }
        } else {
            assert(operands[0] == operands[0]);
        }
    }
}

/// Whether a stop is one that an evaluation can make: a request with as
/// many operands as its operator takes, each a number literal; a failure
/// on a token that is no number literal; or a result that is one.
pub open spec fn is_sound_stop(outcome: Outcome) -> bool {
    match outcome {
        Outcome::Suspended(_, request) => {
            &&& request.operands.len() == request.operator.arity()
            &&& forall|i: int|
                0 <= i < request.operands.len() ==> is_number(#[trigger] request.operands[i])
        },
        Outcome::Failed(failure) => failure matches Failure::ParseError(token) && !is_number(token),
        Outcome::Finished(text) => is_number(text),
    }
}

proof fn lemma_request_is_sound(table: Patterns, operator: Operator, text: Seq<char>, then: Model)
    ensures
        is_sound_stop(request(table, operator, text, then)),
{
    lemma_first_malformed(operands(table, operator, text));
}

proof fn lemma_step_group_is_sound(table: Patterns, outer: Seq<char>, group: GroupModel)
    ensures
        is_sound_stop(step_group(table, outer, group)),
        !(step_group(table, outer, group) is Finished),
{
    let order = Parenthesis::order();
    let stage = next_stage(table, order, group.text, group.stage);
    let then = Model { text: outer, stage: 0, group: Some(GroupModel { stage, ..group }) };
    if stage >= order.len() {
        let only = seq![group.text];
        assert(only.len() == 1 && only[0] == group.text);
    } else {
        lemma_request_is_sound(table, order[stage], group.text, then);
    }
}

/// The stops of an evaluation: each is sound, and the evaluation is over
/// only where no group is at work and no stage is left.
proof fn lemma_step_cases(table: Patterns, model: Model)
    ensures
        is_sound_stop(step(table, model)),
        step(table, model) is Finished ==> {
            &&& model.group is None
            &&& step(table, model) == residue(model.text)
            &&& next_stage(table, Calculate::order(), model.text, model.stage)
                >= Calculate::order().len()
        },
{
    let order = Calculate::order();
    match model.group {
        Some(group) => {
            lemma_step_group_is_sound(table, model.text, group);
        },
        None => {
            let stage = next_stage(table, order, model.text, model.stage);
            if stage >= order.len() {
            } else if order[stage] == Operator::Parenthesis {
                lemma_step_group_is_sound(table, model.text, opened_group(table, model.text));
            } else {
                lemma_request_is_sound(
                    table,
                    order[stage],
                    model.text,
                    Model { stage, ..model },
                );
            }
        },
    }
}

/// Every stop of an evaluation is sound. What it asks for can be computed:
/// the operator gets as many operands as it takes, and each of them is a
/// number literal. It fails on a token that is no number literal, and on
/// nothing else.
pub proof fn lemma_step_is_sound(table: Patterns, model: Model)
    ensures
        is_sound_stop(step(table, model)),
{
    lemma_step_cases(table, model);
}

/// An evaluation is over only when nothing is left to rewrite: its result
/// is the whole of the text, in which no operator from the stage at work
/// onwards occurs.
pub proof fn lemma_result_is_the_residue(table: Patterns, model: Model)
    requires
        0 <= model.stage <= Calculate::order().len(),
    ensures
        step(table, model) matches Outcome::Finished(text) ==> {
            &&& model.group is None
            &&& text == model.text
            &&& forall|stage: int|
                model.stage <= stage < Calculate::order().len() ==> !occurs(
                    table,
                    #[trigger] Calculate::order()[stage],
                    text,
                )
        },
{
    lemma_step_cases(table, model);
    lemma_next_stage(table, Calculate::order(), model.text, model.stage);
}

} // verus!
