//! A failed step hands back the match it was given, and a successful one
//! never ends before the match it started from.

use vstd::prelude::*;
use vstd::utf8::encode_utf8;

use super::alternation::{lemma_max_len, lemma_split_max_len, max_len, spec_alternation_from, split_alternatives};
use super::bounds_law::lemma_greedy_steps;
use super::capturing_group::spec_group;
use super::one_or_more_quantifier::spec_one_or_more;
use super::pattern::{lemma_next_matcher, pattern_rest, spec_next_matcher, spec_pattern};
use super::repetition::{lemma_steps_sum_nonneg, spec_attempt, spec_backtrack, spec_greedy, steps_sum};
use super::zero_or_more_quantifier::spec_zero_or_more;
use super::zero_or_one_quantifier::spec_zero_or_one;
use super::{
    advanced, closed_count, lemma_chars_within_bytes, quantified_weight, spec_matcher,  weight, Capture,
    MatchView, Quantifier, SpecMatcher, SpecOutcome,
};

verus! {

/// A failure holds `m` itself; a success ends at or after `m`'s offset.
pub open spec fn keeps_progress(m: MatchView, r: SpecOutcome) -> bool {
    match r {
        Ok(Err(q)) => q == m,
        Ok(Ok(q)) => q.offset >= m.offset,
        Err(_) => true,
    }
}

/// A matcher that fails hands back the match it was given; one that
/// succeeds never moves it back.
pub proof fn lemma_matcher_keeps_progress(mt: SpecMatcher, line: Seq<char>, m: MatchView)
    requires
        encode_utf8(line).len() <= usize::MAX,
    ensures
        keeps_progress(m, spec_matcher(mt, line, m)),
    decreases weight(mt), 4nat, 0nat,
{
    lemma_chars_within_bytes(line);
    match mt {
        SpecMatcher::Group { idx, inner_scope, rest_of_outer_scope } => {
            lemma_split_max_len(inner_scope);
            lemma_alternation_keeps_progress(
                split_alternatives(inner_scope),
                0,
                rest_of_outer_scope,
                Some(idx),
                line,
                m,
            );
            assert(spec_matcher(mt, line, m) == spec_group(idx, inner_scope, rest_of_outer_scope, line, m));
        },
        SpecMatcher::Quantified {
            quantifier,
            inner,
            rest_of_inner_scope,
            group_idx,
            rest_of_outer_scope,
        } => match quantifier {
            Quantifier::OneOrMore => lemma_one_or_more_keeps_progress(
                *inner,
                rest_of_inner_scope,
                group_idx,
                rest_of_outer_scope,
                line,
                m,
            ),
            Quantifier::ZeroOrOne => {
                lemma_matcher_keeps_progress(*inner, line, m);
                if let Ok(Ok(sub)) = spec_matcher(*inner, line, m) {
                    lemma_attempt_keeps_progress(rest_of_inner_scope, group_idx, rest_of_outer_scope, line, sub);
                }
            },
            Quantifier::ZeroOrMore => lemma_zero_or_more_keeps_progress(
                *inner,
                rest_of_inner_scope,
                group_idx,
                rest_of_outer_scope,
                line,
                m,
            ),
        },
        _ => {},
    }
}

/// Trying alternatives hands back the match it was given when all fail,
/// and never moves it back.
pub proof fn lemma_alternation_keeps_progress(
    subs: Seq<Seq<char>>,
    i: int,
    outer: Seq<char>,
    group_idx: Option<usize>,
    line: Seq<char>,
    m: MatchView,
)
    requires
        encode_utf8(line).len() <= usize::MAX,
    ensures
        keeps_progress(m, spec_alternation_from(subs, i, outer, group_idx, line, m)),
    decreases max_len(subs) + outer.len(), 6nat, subs.len() - i,
{
    if 0 <= i < subs.len() {
        lemma_max_len(subs, i);
        lemma_pattern_keeps_progress(subs[i], outer, group_idx, line, m);
        lemma_alternation_keeps_progress(subs, i + 1, outer, group_idx, line, m);
    }
}

/// A pattern that fails hands back the match it was given; one that
/// matches never moves it back.
pub proof fn lemma_pattern_keeps_progress(
    regex: Seq<char>,
    outer: Seq<char>,
    group_idx: Option<usize>,
    line: Seq<char>,
    m: MatchView,
)
    requires
        encode_utf8(line).len() <= usize::MAX,
    ensures
        keeps_progress(m, spec_pattern(regex, outer, group_idx, line, m)),
    decreases regex.len() + outer.len(), 5nat, 0nat,
{
    let adj_idx: int = match group_idx {
        Some(g) => g + 1,
        None => 0,
    };
    let next_group_idx = adj_idx + closed_count(m.captures);
    if next_group_idx <= usize::MAX {
        lemma_next_matcher(regex, outer, group_idx, next_group_idx as usize);
        if let Ok(Some((first_matcher, is_in_group))) = spec_next_matcher(
            regex,
            outer,
            group_idx,
            next_group_idx as usize,
        ) {
            let m1 = if is_in_group {
                MatchView {
                    offset: m.offset,
                    captures: m.captures.push(Capture { start: m.offset, end: None }),
                }
            } else {
                m
            };
            lemma_matcher_keeps_progress(first_matcher, line, m1);
            if let Ok(Ok(first_match)) = spec_matcher(first_matcher, line, m1) {
                if let Some(rest) = pattern_rest(regex, first_matcher) {
                    lemma_pattern_keeps_progress(
                        rest, outer, group_idx, line, first_match);
                }
            }
        }
    }
}

pub proof fn lemma_attempt_keeps_progress(
    rest_of_inner_scope: Seq<char>,
    group_idx: Option<usize>,
    rest_of_outer_scope: Seq<char>,
    line: Seq<char>,
    m: MatchView,
)
    requires
        encode_utf8(line).len() <= usize::MAX,
    ensures
        spec_attempt(rest_of_inner_scope, group_idx, rest_of_outer_scope, line, m) matches Ok(r)
            ==> match r {
            Ok(q) => q.offset == m.offset,
            Err(q) => q.offset == m.offset,
        },
    decreases rest_of_inner_scope.len() + rest_of_outer_scope.len(), 7nat, 0nat,
{
}

pub proof fn lemma_backtrack_keeps_progress(
    rest_of_inner_scope: Seq<char>,
    group_idx: Option<usize>,
    rest_of_outer_scope: Seq<char>,
    line: Seq<char>,
    m: MatchView,
    incs: Seq<usize>,
)
    requires
        encode_utf8(line).len() <= usize::MAX,
        steps_sum(incs) <= m.offset,
    ensures
        spec_backtrack(rest_of_inner_scope, group_idx, rest_of_outer_scope, line, m, incs) matches Ok(r)
            ==> match r {
            Ok(q) => q.offset >= m.offset - steps_sum(incs),
            Err(q) => q.offset == m.offset - steps_sum(incs),
        },
    decreases incs.len(),
{
    if incs.len() > 0 {
        lemma_attempt_keeps_progress(rest_of_inner_scope, group_idx, rest_of_outer_scope, line, m);
        lemma_steps_sum_nonneg(incs.drop_last());
        lemma_steps_sum_nonneg(incs);
        if let Ok(Err(same)) = spec_attempt(rest_of_inner_scope, group_idx, rest_of_outer_scope, line, m) {
            lemma_backtrack_keeps_progress(
                rest_of_inner_scope,
                group_idx,
                rest_of_outer_scope,
                line,
                advanced(same, -(incs.last() as int)),
                incs.drop_last(),
            );
        }
    }
}

pub proof fn lemma_greedy_keeps_progress(inner: SpecMatcher, line: Seq<char>, m: MatchView, incs: Seq<usize>)
    requires
        encode_utf8(line).len() <= usize::MAX,
    ensures
        spec_greedy(inner, line, m, incs) matches Ok((mx, _)) ==> mx.offset >= m.offset,
    decreases usize::MAX - m.offset,
{
    if let Ok(Ok(ext)) = spec_matcher(inner, line, m) {
        if ext.offset > m.offset {
            lemma_greedy_keeps_progress(inner, line, ext, incs.push((ext.offset - m.offset) as usize));
        }
    }
}

proof fn lemma_one_or_more_keeps_progress(
    inner: SpecMatcher,
    rest_of_inner_scope: Seq<char>,
    group_idx: Option<usize>,
    rest_of_outer_scope: Seq<char>,
    line: Seq<char>,
    m: MatchView,
)
    requires
        encode_utf8(line).len() <= usize::MAX,
    ensures
        keeps_progress(
            m,
            spec_one_or_more(inner, rest_of_inner_scope, group_idx, rest_of_outer_scope, line, m),
        ),
    decreases quantified_weight(inner, rest_of_inner_scope, rest_of_outer_scope), 3nat, 0nat,
{
    lemma_matcher_keeps_progress(inner, line, m);
    if let Ok(Ok(first)) = spec_matcher(inner, line, m) {
        let incs = seq![(first.offset - m.offset) as usize];
        assert(incs.drop_last() =~= Seq::<usize>::empty());
        assert(steps_sum(Seq::<usize>::empty()) == 0);
        lemma_greedy_steps(inner, line, first, incs);
        lemma_greedy_keeps_progress(inner, line, first, incs);
        if let Ok((max, incs2)) = spec_greedy(inner, line, first, incs) {
            lemma_backtrack_keeps_progress(rest_of_inner_scope, group_idx, rest_of_outer_scope, line, max, incs2);
        }
    }
}

proof fn lemma_zero_or_more_keeps_progress(
    inner: SpecMatcher,
    rest_of_inner_scope: Seq<char>,
    group_idx: Option<usize>,
    rest_of_outer_scope: Seq<char>,
    line: Seq<char>,
    m: MatchView,
)
    requires
        encode_utf8(line).len() <= usize::MAX,
    ensures
        keeps_progress(
            m,
            spec_zero_or_more(inner, rest_of_inner_scope, group_idx, rest_of_outer_scope, line, m),
        ),
    decreases quantified_weight(inner, rest_of_inner_scope, rest_of_outer_scope), 3nat, 0nat,
{
    let incs = Seq::<usize>::empty();
    assert(steps_sum(incs) == 0);
    lemma_greedy_steps(inner, line, m, incs);
    lemma_greedy_keeps_progress(inner, line, m, incs);
    if let Ok((max, incs2)) = spec_greedy(inner, line, m, incs) {
        lemma_backtrack_keeps_progress(rest_of_inner_scope, group_idx, rest_of_outer_scope, line, max, incs2);
        if let Ok(Err(same)) = spec_backtrack(rest_of_inner_scope, group_idx, rest_of_outer_scope, line, max, incs2) {
            lemma_attempt_keeps_progress(rest_of_inner_scope, group_idx, rest_of_outer_scope, line, same);
        }
    }
}

} // verus!
