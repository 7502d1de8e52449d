//! Finding the leftmost match of a pattern, with the text of its groups.

use crate::patterns::{
    capture_spans, fixed_group_count, is_match_report, leftmost_captures, participants,
    static_group_count,
};
use crate::utils::text::{is_span, slice, substring};
use regex::Regex;
use vstd::array::*;
use vstd::prelude::*;

verus! {

/// The groups that took part among the first `upto` are the first of those
/// that took part at all.
pub proof fn lemma_participants_prefix(groups: Seq<Option<(usize, usize)>>, upto: int)
    requires
        0 <= upto <= groups.len(),
    ensures
        participants(groups.take(upto)).len() <= participants(groups).len(),
        participants(groups.take(upto)) =~= participants(groups).take(
            participants(groups.take(upto)).len() as int,
        ),
    decreases groups.len() - upto,
{
    if upto == groups.len() {
        assert(groups.take(upto) =~= groups);
    } else {
        lemma_participants_prefix(groups, upto + 1);
        assert(groups.take(upto + 1).drop_last() =~= groups.take(upto));
    }
}

/// Where the first group took part, it is the first of those that did.
pub proof fn lemma_whole_match_is_first(groups: Seq<Option<(usize, usize)>>)
    requires
        groups.len() > 0,
        groups[0] is Some,
    ensures
        participants(groups).len() > 0,
        participants(groups)[0] == groups[0].unwrap(),
{
    lemma_participants_prefix(groups, 1);
    let first = groups.take(1);
    assert(first.drop_last() =~= Seq::<Option<(usize, usize)>>::empty());
    assert(first.last() == groups[0]);
    assert(participants(first.drop_last()).len() == 0);
    assert(participants(first) =~= seq![groups[0].unwrap()]);
    assert(participants(groups).take(1)[0] == participants(groups)[0]);
}

/// Each of the groups that took part stands among the groups of the match.
pub proof fn lemma_participants_are_groups(groups: Seq<Option<(usize, usize)>>, at: int)
    requires
        0 <= at < participants(groups).len(),
    ensures
        groups.contains(Some(participants(groups)[at])),
    decreases groups.len(),
{
    let rest = groups.drop_last();
    if groups.last() is Some && at == participants(rest).len() {
        assert(groups[groups.len() - 1] == Some(participants(groups)[at]));
    } else {
        lemma_participants_are_groups(rest, at);
        let i = choose|i: int| 0 <= i < rest.len() && rest[i] == Some(participants(groups)[at]);
        assert(groups[i] == rest[i]);
    }
}

/// Whether the engine counts on `count` groups in every match of a pattern,
/// the whole match not counted.
pub open spec fn has_groups(pattern: Regex, count: usize) -> bool {
    static_group_count(pattern) matches Some(fixed) && fixed == count + 1
}

/// Whether `found` is what a search for `pattern` in `input` gives: the
/// span of the leftmost match and the text of the first `N` of its groups
/// that took part, each of them a part of the match; or `None` where the
/// pattern matches nowhere.
pub open spec fn is_extraction<const N: usize>(
    found: Option<(usize, usize, [&str; N])>,
    pattern: Regex,
    input: Seq<char>,
) -> bool {
    &&& found is Some <==> leftmost_captures(pattern, input) is Some
    &&& found matches Some((start, end, captures)) ==> {
        let spans = participants(leftmost_captures(pattern, input).unwrap());
        &&& spans.len() >= N + 1
        &&& (start, end) == spans[0]
        &&& is_span(input, start as int, end as int)
        &&& forall|i: int|
            0 <= i < N ==> (#[trigger] captures[i])@ == slice(
                input,
                spans[i + 1].0 as int,
                spans[i + 1].1 as int,
            )
        &&& forall|i: int|
            0 <= i < spans.len() ==> {
                &&& start <= (#[trigger] spans[i]).0
                &&& spans[i].0 <= spans[i].1
                &&& spans[i].1 <= end
            }
    }
}

/// The leftmost match of `pattern` in `input`: where it starts, where it
/// ends, and the text of its groups. `None` where the pattern matches
/// nowhere.
///
/// The engine must count on exactly `N` groups in every match. Where a
/// match has more that took part, the first `N` of them are given.
pub fn extract_regex_captures<'a, const N: usize>(input: &'a str, pattern: &Regex) -> (r: Option<
    (usize, usize, [&'a str; N]),
>)
    requires
        has_groups(*pattern, N),
    ensures
        is_extraction(r, *pattern, input@),
{
    let Some(groups) = capture_spans(pattern, input) else {
        return None;
    };
    let ghost spans = participants(groups@);
    let mut captures: [&'a str; N] = array_fill_for_copy_types("");
    let mut whole: (usize, usize) = (0, 0);
    let mut taken: usize = 0;
    let mut i: usize = 0;
    while i < groups.len() && taken <= N
        invariant
            i <= groups.len(),
            is_match_report(groups@, input@, static_group_count(*pattern)),
            has_groups(*pattern, N),
            spans == participants(groups@),
            taken == participants(groups@.take(i as int)).len(),
            taken <= N + 1,
            taken <= spans.len(),
            taken > 0 ==> whole == spans[0] && is_span(input@, whole.0 as int, whole.1 as int),
            forall|k: int|
                0 <= k < taken - 1 ==> (#[trigger] captures[k])@ == slice(
                    input@,
                    spans[k + 1].0 as int,
                    spans[k + 1].1 as int,
                ),
        decreases groups.len() - i,
    {
        proof {
            lemma_participants_prefix(groups@, i as int + 1);
            assert(groups@.take(i as int + 1).drop_last() =~= groups@.take(i as int));
        }
        match groups[i] {
            Some((start, end)) => {
                proof {
                    let before = participants(groups@.take(i as int));
                    let after = participants(groups@.take(i as int + 1));
                    assert(groups@.take(i as int + 1).last() == groups@[i as int]);
                    assert(after == before.push((start, end)));
                    assert(after[taken as int] == (start, end));
                    assert(spans.take(after.len() as int)[taken as int] == spans[taken as int]);
                    assert(is_span(input@, start as int, end as int));
                }
                if taken == 0 {
                    whole = (start, end);
                } else {
                    captures[taken - 1] = substring(input, start, end);
                }
                taken += 1;
            },
            None => {},
        }
        i += 1;
    }
    proof {
        lemma_participants_prefix(groups@, i as int);
        if i == groups.len() {
            assert(groups@.take(i as int) =~= groups@);
        }
        assert(taken == N + 1);
        lemma_whole_match_is_first(groups@);
        assert forall|k: int| 0 <= k < spans.len() implies {
            &&& whole.0 <= (#[trigger] spans[k]).0
            &&& spans[k].0 <= spans[k].1
            &&& spans[k].1 <= whole.1
        } by {
            lemma_participants_are_groups(groups@, k);
            let at = choose|at: int| 0 <= at < groups@.len() && groups@[at] == Some(spans[k]);
            assert(groups@[at] matches Some(span) && span == spans[k]);
        }
    }
    Some((whole.0, whole.1, captures))
}

/// The same search for a caller that does not know how many groups the
/// pattern has: it asks the engine, and searches only where the engine
/// counts on exactly `N` groups in every match. `None` where it counts on
/// another number, or on none.
pub fn try_extract_regex_captures<'a, const N: usize>(input: &'a str, pattern: &Regex) -> (r:
    Option<Option<(usize, usize, [&'a str; N])>>)
    ensures
        r is Some <==> has_groups(*pattern, N),
        r matches Some(found) ==> is_extraction(found, *pattern, input@),
{
    match fixed_group_count(pattern) {
        Some(fixed) => {
            if N < usize::MAX && fixed == N + 1 {
                Some(extract_regex_captures::<N>(input, pattern))
            } else {
                None
            }
        },
        None => None,
    }
}

} // verus!
