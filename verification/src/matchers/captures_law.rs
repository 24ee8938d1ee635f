//! No step of the engine drops a capture that was there when it started.
//!
//! This is why putting a match back with `rollback` (which needs at least
//! as many captures as it cuts to) always applies where the engine does it.

use vstd::prelude::*;

use super::alternation::{lemma_max_len, lemma_split_max_len, max_len, spec_alternation_from, split_alternatives};
use super::capturing_group::spec_group;
use super::one_or_more_quantifier::spec_one_or_more;
use super::pattern::{lemma_next_matcher, pattern_rest, spec_next_matcher, spec_pattern};
use super::repetition::{spec_attempt, spec_backtrack, spec_greedy};
use super::zero_or_more_quantifier::spec_zero_or_more;
use super::zero_or_one_quantifier::spec_zero_or_one;
use super::{
    advanced, closed_count, quantified_weight, spec_matcher,  weight, Capture,
    MatchView, Quantifier, SpecMatcher, SpecOutcome,
};

verus! {

/// What came back holds at least as many captures as `m` did.
pub open spec fn keeps_captures(m: MatchView, r: SpecOutcome) -> bool {
    match r {
        Ok(Ok(x)) => x.captures.len() >= m.captures.len(),
        Ok(Err(x)) => x.captures.len() >= m.captures.len(),
        Err(_) => true,
    }
}

/// A matcher never drops captures, whether it matches or not.
pub proof fn lemma_matcher_keeps_captures(mt: SpecMatcher, line: Seq<char>, m: MatchView)
    ensures
        keeps_captures(m, spec_matcher(mt, line, m)),
    decreases weight(mt), 4nat, 0nat,
{
    match mt {
        SpecMatcher::Group { idx, inner_scope, rest_of_outer_scope } => {
            lemma_group_keeps_captures(idx, inner_scope, rest_of_outer_scope, line, m);
        },
        SpecMatcher::Quantified {
            quantifier,
            inner,
            rest_of_inner_scope,
            group_idx,
            rest_of_outer_scope,
        } => match quantifier {
            Quantifier::OneOrMore => lemma_one_or_more_keeps_captures(
                *inner,
                rest_of_inner_scope,
                group_idx,
                rest_of_outer_scope,
                line,
                m,
            ),
            Quantifier::ZeroOrOne => lemma_zero_or_one_keeps_captures(
                *inner,
                rest_of_inner_scope,
                group_idx,
                rest_of_outer_scope,
                line,
                m,
            ),
            Quantifier::ZeroOrMore => lemma_zero_or_more_keeps_captures(
                *inner,
                rest_of_inner_scope,
                group_idx,
                rest_of_outer_scope,
                line,
                m,
            ),
        },
        _ => {},
    }
}

proof fn lemma_group_keeps_captures(
    idx: usize,
    inner_scope: Seq<char>,
    rest_of_outer_scope: Seq<char>,
    line: Seq<char>,
    m: MatchView,
)
    ensures
        keeps_captures(m, spec_group(idx, inner_scope, rest_of_outer_scope, line, m)),
    decreases inner_scope.len() + rest_of_outer_scope.len() + 1, 3nat, 0nat,
{
    lemma_split_max_len(inner_scope);
    lemma_alternation_keeps_captures(
        split_alternatives(inner_scope),
        0,
        rest_of_outer_scope,
        Some(idx),
        line,
        m,
    );
}

/// Trying alternatives never drops captures.
pub proof fn lemma_alternation_keeps_captures(
    subs: Seq<Seq<char>>,
    i: int,
    outer: Seq<char>,
    group_idx: Option<usize>,
    line: Seq<char>,
    m: MatchView,
)
    ensures
        keeps_captures(m, spec_alternation_from(subs, i, outer, group_idx, line, m)),
    decreases max_len(subs) + outer.len(), 6nat, subs.len() - i,
{
    if 0 <= i < subs.len() {
        lemma_max_len(subs, i);
        lemma_pattern_keeps_captures(subs[i], outer, group_idx, line, m);
        match spec_pattern(subs[i], outer, group_idx, line, m) {
            Ok(Err(pm)) => {
                lemma_alternation_keeps_captures(subs, i + 1, outer, group_idx, line, pm);
            },
            _ => {},
        }
    }
}

/// Matching a pattern never drops captures.
pub proof fn lemma_pattern_keeps_captures(
    regex: Seq<char>,
    outer: Seq<char>,
    group_idx: Option<usize>,
    line: Seq<char>,
    m: MatchView,
)
    ensures
        keeps_captures(m, spec_pattern(regex, outer, group_idx, line, m)),
    decreases regex.len() + outer.len(), 5nat, 0nat,
{
    let adj_idx: int = match group_idx {
        Some(g) => g + 1,
        None => 0,
    };
    let next_group_idx = adj_idx + closed_count(m.captures);
    if next_group_idx <= usize::MAX {
        lemma_next_matcher(regex, outer, group_idx, next_group_idx as usize);
        match spec_next_matcher(regex, outer, group_idx, next_group_idx as usize) {
            Ok(Some((first_matcher, is_in_group))) => {
                let m1 = if is_in_group {
                    MatchView {
                        offset: m.offset,
                        captures: m.captures.push(Capture { start: m.offset, end: None }),
                    }
                } else {
                    m
                };
                lemma_matcher_keeps_captures(first_matcher, line, m1);
                match spec_matcher(first_matcher, line, m1) {
                    Ok(Ok(first_match)) => {
                        if let Some(rest) = pattern_rest(regex, first_matcher) {
                    lemma_pattern_keeps_captures(
                        rest,
                                outer,
                                group_idx,
                                line,
                                first_match,
                            );
                        }
                    },
                    _ => {},
                }
            },
            _ => {},
        }
    }
}

proof fn lemma_attempt_keeps_captures(
    rest_of_inner_scope: Seq<char>,
    group_idx: Option<usize>,
    rest_of_outer_scope: Seq<char>,
    line: Seq<char>,
    m: MatchView,
)
    ensures
        keeps_captures(m, spec_attempt(rest_of_inner_scope, group_idx, rest_of_outer_scope, line, m)),
    decreases rest_of_inner_scope.len() + rest_of_outer_scope.len(), 7nat, 0nat,
{
    lemma_split_max_len(rest_of_inner_scope);
    let subs = split_alternatives(rest_of_inner_scope);
    lemma_alternation_keeps_captures(subs, 0, rest_of_outer_scope, group_idx, line, m);
    match spec_alternation_from(subs, 0, rest_of_outer_scope, group_idx, line, m) {
        Ok(Ok(inner_match)) => {
            let inner_match2 = match group_idx {
                Some(g) => MatchView {
                    offset: inner_match.offset,
                    captures: super::inserted_at(inner_match.captures, g, inner_match.offset),
                },
                None => inner_match,
            };
            lemma_pattern_keeps_captures(rest_of_outer_scope, Seq::empty(), None, line, inner_match2);
        },
        _ => {},
    }
}

proof fn lemma_greedy_keeps_captures(inner: SpecMatcher, line: Seq<char>, m: MatchView, incs: Seq<usize>)
    ensures
        spec_greedy(inner, line, m, incs) matches Ok((mx, _)) ==> mx.captures.len()
            >= m.captures.len(),
    decreases weight(inner) + 1, 2nat, usize::MAX - m.offset,
{
    lemma_matcher_keeps_captures(inner, line, m);
    match spec_matcher(inner, line, m) {
        Ok(Ok(ext)) => {
            if ext.offset > m.offset {
                lemma_greedy_keeps_captures(
                    inner,
                    line,
                    ext,
                    incs.push((ext.offset - m.offset) as usize),
                );
            }
        },
        _ => {},
    }
}

proof fn lemma_backtrack_keeps_captures(
    rest_of_inner_scope: Seq<char>,
    group_idx: Option<usize>,
    rest_of_outer_scope: Seq<char>,
    line: Seq<char>,
    m: MatchView,
    incs: Seq<usize>,
)
    ensures
        keeps_captures(
            m,
            spec_backtrack(rest_of_inner_scope, group_idx, rest_of_outer_scope, line, m, incs),
        ),
    decreases rest_of_inner_scope.len() + rest_of_outer_scope.len() + 1, 2nat, incs.len(),
{
    if incs.len() > 0 {
        lemma_attempt_keeps_captures(rest_of_inner_scope, group_idx, rest_of_outer_scope, line, m);
        match spec_attempt(rest_of_inner_scope, group_idx, rest_of_outer_scope, line, m) {
            Ok(Err(same)) => {
                lemma_backtrack_keeps_captures(
                    rest_of_inner_scope,
                    group_idx,
                    rest_of_outer_scope,
                    line,
                    advanced(same, -(incs.last() as int)),
                    incs.drop_last(),
                );
            },
            _ => {},
        }
    }
}

proof fn lemma_one_or_more_keeps_captures(
    inner: SpecMatcher,
    rest_of_inner_scope: Seq<char>,
    group_idx: Option<usize>,
    rest_of_outer_scope: Seq<char>,
    line: Seq<char>,
    m: MatchView,
)
    ensures
        keeps_captures(
            m,
            spec_one_or_more(inner, rest_of_inner_scope, group_idx, rest_of_outer_scope, line, m),
        ),
    decreases quantified_weight(inner, rest_of_inner_scope, rest_of_outer_scope), 3nat, 0nat,
{
    lemma_matcher_keeps_captures(inner, line, m);
    match spec_matcher(inner, line, m) {
        Ok(Ok(first)) => {
            lemma_greedy_keeps_captures(inner, line, first, seq![(first.offset - m.offset) as usize]);
            match spec_greedy(inner, line, first, seq![(first.offset - m.offset) as usize]) {
                Ok((max, incs)) => {
                    lemma_backtrack_keeps_captures(
                        rest_of_inner_scope,
                        group_idx,
                        rest_of_outer_scope,
                        line,
                        max,
                        incs,
                    );
                },
                _ => {},
            }
        },
        _ => {},
    }
}

proof fn lemma_zero_or_one_keeps_captures(
    inner: SpecMatcher,
    rest_of_inner_scope: Seq<char>,
    group_idx: Option<usize>,
    rest_of_outer_scope: Seq<char>,
    line: Seq<char>,
    m: MatchView,
)
    ensures
        keeps_captures(
            m,
            spec_zero_or_one(inner, rest_of_inner_scope, group_idx, rest_of_outer_scope, line, m),
        ),
    decreases quantified_weight(inner, rest_of_inner_scope, rest_of_outer_scope), 3nat, 0nat,
{
    lemma_matcher_keeps_captures(inner, line, m);
    match spec_matcher(inner, line, m) {
        Ok(Ok(sub)) => {
            lemma_attempt_keeps_captures(rest_of_inner_scope, group_idx, rest_of_outer_scope, line, sub);
        },
        _ => {},
    }
}

proof fn lemma_zero_or_more_keeps_captures(
    inner: SpecMatcher,
    rest_of_inner_scope: Seq<char>,
    group_idx: Option<usize>,
    rest_of_outer_scope: Seq<char>,
    line: Seq<char>,
    m: MatchView,
)
    ensures
        keeps_captures(
            m,
            spec_zero_or_more(inner, rest_of_inner_scope, group_idx, rest_of_outer_scope, line, m),
        ),
    decreases quantified_weight(inner, rest_of_inner_scope, rest_of_outer_scope), 3nat, 0nat,
{
    lemma_greedy_keeps_captures(inner, line, m, Seq::empty());
    match spec_greedy(inner, line, m, Seq::empty()) {
        Ok((max, incs)) => {
            lemma_backtrack_keeps_captures(
                rest_of_inner_scope,
                group_idx,
                rest_of_outer_scope,
                line,
                max,
                incs,
            );
            match spec_backtrack(rest_of_inner_scope, group_idx, rest_of_outer_scope, line, max, incs) {
                Ok(Err(same)) => {
                    lemma_attempt_keeps_captures(
                        rest_of_inner_scope,
                        group_idx,
                        rest_of_outer_scope,
                        line,
                        same,
                    );
                },
                _ => {},
            }
        },
        _ => {},
    }
}

} // verus!
