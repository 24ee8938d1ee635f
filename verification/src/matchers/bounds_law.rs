//! The engine never moves a match past the end of the line: the offset it
//! reaches, and the start and end of every capture, stay within the line's
//! bytes.

use vstd::prelude::*;
use vstd::utf8::encode_utf8;

use super::alternation::{lemma_max_len, lemma_split_max_len, max_len, spec_alternation_from, split_alternatives};
use super::capturing_group::spec_group;
use super::one_or_more_quantifier::spec_one_or_more;
use super::progress_law::lemma_matcher_keeps_progress;
use super::pattern::{lemma_next_matcher, pattern_rest, spec_next_matcher, spec_pattern};
use super::repetition::{lemma_steps_sum_nonneg, spec_attempt, spec_backtrack, spec_greedy, steps_sum};
use super::zero_or_more_quantifier::spec_zero_or_more;
use super::zero_or_one_quantifier::spec_zero_or_one;
use super::{
    advanced, closed_count, lemma_chars_within_bytes, inserted_at, lemma_inserted_at, quantified_weight, spec_matcher,
     weight, Capture, MatchView, Quantifier, SpecMatcher, SpecOutcome,
};

verus! {

/// The capture lies within a line of `len` bytes.
pub open spec fn capture_within(len: nat, c: Capture) -> bool {
    &&& c.start <= len
    &&& c.end matches Some(e) ==> e <= len
}

/// The match's offset and all its captures lie within a line of `len`
/// bytes.
pub open spec fn match_within(len: nat, m: MatchView) -> bool {
    &&& m.offset <= len
    &&& forall|i: int| 0 <= i < m.captures.len() ==> capture_within(len, #[trigger] m.captures[i])
}

/// Whatever match came back lies within a line of `len` bytes.
pub open spec fn outcome_within(len: nat, r: SpecOutcome) -> bool {
    match r {
        Ok(Ok(x)) => match_within(len, x),
        Ok(Err(x)) => match_within(len, x),
        Err(_) => true,
    }
}

proof fn lemma_inserted_within(len: nat, m: MatchView, idx: usize, offset: usize)
    requires
        match_within(len, m),
        offset <= len,
    ensures
        match_within(len, MatchView { offset: m.offset, captures: inserted_at(m.captures, idx, offset) }),
{
    lemma_inserted_at(m.captures, idx, offset);
    let caps = inserted_at(m.captures, idx, offset);
    assert forall|i: int| 0 <= i < caps.len() implies capture_within(len, #[trigger] caps[i]) by {
        if i != idx && i < m.captures.len() {
            assert(caps[i] == m.captures[i]);
        }
    }
}

proof fn lemma_restored_within(len: nat, m: MatchView, offset: usize, n: int)
    requires
        match_within(len, m),
        offset <= len,
        n >= 0,
    ensures
        match_within(len, super::restored(m, offset, n)),
{
    let r = super::restored(m, offset, n);
    assert forall|i: int| 0 <= i < r.captures.len() implies capture_within(len, #[trigger] r.captures[i]) by {
        assert(r.captures[i] == m.captures[i]);
    }
}

/// Repeating a class keeps the offset reached, less the steps taken, as it
/// was.
pub proof fn lemma_greedy_steps(inner: SpecMatcher, line: Seq<char>, m: MatchView, incs: Seq<usize>)
    ensures
        spec_greedy(inner, line, m, incs) matches Ok((mx, incs2)) ==> mx.offset - steps_sum(incs2)
            == m.offset - steps_sum(incs),
    decreases usize::MAX - m.offset,
{
    match spec_matcher(inner, line, m) {
        Ok(Ok(ext)) => {
            if ext.offset > m.offset {
                let incs2 = incs.push((ext.offset - m.offset) as usize);
                assert(incs2.drop_last() == incs);
                lemma_greedy_steps(inner, line, ext, incs2);
            }
        },
        _ => {},
    }
}

proof fn lemma_pushed_within(len: nat, m: MatchView)
    requires
        match_within(len, m),
    ensures
        match_within(
            len,
            MatchView { offset: m.offset, captures: m.captures.push(Capture { start: m.offset, end: None }) },
        ),
{
    let caps = m.captures.push(Capture { start: m.offset, end: None });
    assert forall|i: int| 0 <= i < caps.len() implies capture_within(len, #[trigger] caps[i]) by {
        if i < m.captures.len() {
            assert(caps[i] == m.captures[i]);
        }
    }
}

/// A matcher never takes a match past the end of the line.
pub proof fn lemma_matcher_within_line(mt: SpecMatcher, line: Seq<char>, m: MatchView)
    requires
        encode_utf8(line).len() <= usize::MAX,
        match_within(encode_utf8(line).len(), m),
    ensures
        outcome_within(encode_utf8(line).len(), spec_matcher(mt, line, m)),
    decreases weight(mt), 4nat, 0nat,
{
    lemma_chars_within_bytes(line);
    match mt {
        SpecMatcher::Group { idx, inner_scope, rest_of_outer_scope } => {
            lemma_group_within_line(idx, inner_scope, rest_of_outer_scope, line, m);
        },
        SpecMatcher::Quantified {
            quantifier,
            inner,
            rest_of_inner_scope,
            group_idx,
            rest_of_outer_scope,
        } => match quantifier {
            Quantifier::OneOrMore => lemma_one_or_more_within_line(
                *inner,
                rest_of_inner_scope,
                group_idx,
                rest_of_outer_scope,
                line,
                m,
            ),
            Quantifier::ZeroOrOne => lemma_zero_or_one_within_line(
                *inner,
                rest_of_inner_scope,
                group_idx,
                rest_of_outer_scope,
                line,
                m,
            ),
            Quantifier::ZeroOrMore => lemma_zero_or_more_within_line(
                *inner,
                rest_of_inner_scope,
                group_idx,
                rest_of_outer_scope,
                line,
                m,
            ),
        },
        _ => {},
    }
}

proof fn lemma_group_within_line(
    idx: usize,
    inner_scope: Seq<char>,
    rest_of_outer_scope: Seq<char>,
    line: Seq<char>,
    m: MatchView,
)
    requires
        encode_utf8(line).len() <= usize::MAX,
        match_within(encode_utf8(line).len(), m),
    ensures
        outcome_within(encode_utf8(line).len(), spec_group(idx, inner_scope, rest_of_outer_scope, line, m)),
    decreases inner_scope.len() + rest_of_outer_scope.len() + 1, 3nat, 0nat,
{
    lemma_split_max_len(inner_scope);
    let subs = split_alternatives(inner_scope);
    lemma_alternation_within_line(subs, 0, rest_of_outer_scope, Some(idx), line, m);
    match spec_alternation_from(subs, 0, rest_of_outer_scope, Some(idx), line, m) {
        Ok(Ok(gm)) => {
            lemma_inserted_within(encode_utf8(line).len(), gm, idx, gm.offset);
        },
        _ => {},
    }
}

/// Trying alternatives never takes a match past the end of the line.
pub proof fn lemma_alternation_within_line(
    subs: Seq<Seq<char>>,
    i: int,
    outer: Seq<char>,
    group_idx: Option<usize>,
    line: Seq<char>,
    m: MatchView,
)
    requires
        encode_utf8(line).len() <= usize::MAX,
        match_within(encode_utf8(line).len(), m),
    ensures
        outcome_within(encode_utf8(line).len(), spec_alternation_from(subs, i, outer, group_idx, line, m)),
    decreases max_len(subs) + outer.len(), 6nat, subs.len() - i,
{
    if 0 <= i < subs.len() {
        lemma_max_len(subs, i);
        lemma_pattern_within_line(subs[i], outer, group_idx, line, m);
        match spec_pattern(subs[i], outer, group_idx, line, m) {
            Ok(Err(pm)) => {
                lemma_alternation_within_line(subs, i + 1, outer, group_idx, line, pm);
            },
            _ => {},
        }
    }
}

/// Matching a pattern never takes a match past the end of the line.
pub proof fn lemma_pattern_within_line(
    regex: Seq<char>,
    outer: Seq<char>,
    group_idx: Option<usize>,
    line: Seq<char>,
    m: MatchView,
)
    requires
        encode_utf8(line).len() <= usize::MAX,
        match_within(encode_utf8(line).len(), m),
    ensures
        outcome_within(encode_utf8(line).len(), spec_pattern(regex, outer, group_idx, line, m)),
    decreases regex.len() + outer.len(), 5nat, 0nat,
{
    let adj_idx: int = match group_idx {
        Some(g) => g + 1,
        None => 0,
    };
    let next_group_idx = adj_idx + closed_count(m.captures);
    if next_group_idx <= usize::MAX {
        lemma_next_matcher(regex, outer, group_idx, next_group_idx as usize);
        match spec_next_matcher(regex, outer, group_idx, next_group_idx as usize) {
            Ok(Some((first_matcher, is_in_group))) => {
                let m1 = if is_in_group {
                    MatchView {
                        offset: m.offset,
                        captures: m.captures.push(Capture { start: m.offset, end: None }),
                    }
                } else {
                    m
                };
                lemma_pushed_within(encode_utf8(line).len(), m);
                lemma_matcher_within_line(first_matcher, line, m1);
                match spec_matcher(first_matcher, line, m1) {
                    Ok(Ok(first_match)) => {
                        if let Some(rest) = pattern_rest(regex, first_matcher) {
                    lemma_pattern_within_line(
                        rest,
                                outer,
                                group_idx,
                                line,
                                first_match,
                            );
                        }
                    },
                    _ => {},
                }
            },
            _ => {},
        }
    }
}

proof fn lemma_attempt_within_line(
    rest_of_inner_scope: Seq<char>,
    group_idx: Option<usize>,
    rest_of_outer_scope: Seq<char>,
    line: Seq<char>,
    m: MatchView,
)
    requires
        encode_utf8(line).len() <= usize::MAX,
        match_within(encode_utf8(line).len(), m),
    ensures
        outcome_within(
            encode_utf8(line).len(),
            spec_attempt(rest_of_inner_scope, group_idx, rest_of_outer_scope, line, m),
        ),
        spec_attempt(rest_of_inner_scope, group_idx, rest_of_outer_scope, line, m) matches Ok(
            Err(same),
        ) ==> same.offset == m.offset,
    decreases rest_of_inner_scope.len() + rest_of_outer_scope.len(), 7nat, 0nat,
{
    lemma_split_max_len(rest_of_inner_scope);
    let subs = split_alternatives(rest_of_inner_scope);
    let n = m.captures.len() as int;
    lemma_alternation_within_line(subs, 0, rest_of_outer_scope, group_idx, line, m);
    match spec_alternation_from(subs, 0, rest_of_outer_scope, group_idx, line, m) {
        Ok(Err(same)) => {
            lemma_restored_within(encode_utf8(line).len(), same, m.offset, n);
        },
        Ok(Ok(inner_match)) => {
            let inner_match2 = match group_idx {
                Some(g) => MatchView {
                    offset: inner_match.offset,
                    captures: inserted_at(inner_match.captures, g, inner_match.offset),
                },
                None => inner_match,
            };
            if let Some(g) = group_idx {
                lemma_inserted_within(encode_utf8(line).len(), inner_match, g, inner_match.offset);
            }
            lemma_pattern_within_line(rest_of_outer_scope, Seq::empty(), None, line, inner_match2);
            match spec_pattern(rest_of_outer_scope, Seq::empty(), None, line, inner_match2) {
                Ok(Err(same)) => {
                    lemma_restored_within(encode_utf8(line).len(), same, m.offset, n);
                },
                Ok(Ok(outer_match)) => {
                    lemma_restored_within(encode_utf8(line).len(), outer_match, m.offset, n);
                },
                _ => {},
            }
        },
        _ => {},
    }
}

proof fn lemma_greedy_within_line(inner: SpecMatcher, line: Seq<char>, m: MatchView, incs: Seq<usize>)
    requires
        encode_utf8(line).len() <= usize::MAX,
        match_within(encode_utf8(line).len(), m),
    ensures
        spec_greedy(inner, line, m, incs) matches Ok((mx, _)) ==> match_within(encode_utf8(line).len(), mx),
    decreases weight(inner) + 1, 2nat, usize::MAX - m.offset,
{
    lemma_matcher_within_line(inner, line, m);
    match spec_matcher(inner, line, m) {
        Ok(Err(mm)) => {
            lemma_restored_within(encode_utf8(line).len(), mm, m.offset, m.captures.len() as int);
        },
        Ok(Ok(ext)) => {
            if ext.offset > m.offset {
                lemma_greedy_within_line(inner, line, ext, incs.push((ext.offset - m.offset) as usize));
            }
        },
        _ => {},
    }
}

proof fn lemma_backtrack_within_line(
    rest_of_inner_scope: Seq<char>,
    group_idx: Option<usize>,
    rest_of_outer_scope: Seq<char>,
    line: Seq<char>,
    m: MatchView,
    incs: Seq<usize>,
)
    requires
        encode_utf8(line).len() <= usize::MAX,
        match_within(encode_utf8(line).len(), m),
        steps_sum(incs) <= m.offset,
    ensures
        outcome_within(
            encode_utf8(line).len(),
            spec_backtrack(rest_of_inner_scope, group_idx, rest_of_outer_scope, line, m, incs),
        ),
    decreases rest_of_inner_scope.len() + rest_of_outer_scope.len() + 1, 2nat, incs.len(),
{
    if incs.len() > 0 {
        lemma_attempt_within_line(rest_of_inner_scope, group_idx, rest_of_outer_scope, line, m);
        match spec_attempt(rest_of_inner_scope, group_idx, rest_of_outer_scope, line, m) {
            Ok(Err(same)) => {
                lemma_steps_sum_nonneg(incs.drop_last());
                let back = advanced(same, -(incs.last() as int));
                assert(back.captures == same.captures);
                lemma_backtrack_within_line(
                    rest_of_inner_scope,
                    group_idx,
                    rest_of_outer_scope,
                    line,
                    back,
                    incs.drop_last(),
                );
            },
            _ => {},
        }
    }
}

proof fn lemma_one_or_more_within_line(
    inner: SpecMatcher,
    rest_of_inner_scope: Seq<char>,
    group_idx: Option<usize>,
    rest_of_outer_scope: Seq<char>,
    line: Seq<char>,
    m: MatchView,
)
    requires
        encode_utf8(line).len() <= usize::MAX,
        match_within(encode_utf8(line).len(), m),
    ensures
        outcome_within(
            encode_utf8(line).len(),
            spec_one_or_more(inner, rest_of_inner_scope, group_idx, rest_of_outer_scope, line, m),
        ),
    decreases quantified_weight(inner, rest_of_inner_scope, rest_of_outer_scope), 3nat, 0nat,
{
    lemma_matcher_within_line(inner, line, m);
    match spec_matcher(inner, line, m) {
        Ok(Ok(first)) => {
            lemma_matcher_keeps_progress(inner, line, m);
            let incs = seq![(first.offset - m.offset) as usize];
            assert(incs.drop_last() =~= Seq::<usize>::empty());
            assert(steps_sum(Seq::<usize>::empty()) == 0);
            assert(steps_sum(incs) == first.offset - m.offset);
            lemma_greedy_within_line(inner, line, first, incs);
            lemma_greedy_steps(inner, line, first, incs);
            match spec_greedy(inner, line, first, incs) {
                Ok((max, incs2)) => {
                    lemma_backtrack_within_line(
                        rest_of_inner_scope,
                        group_idx,
                        rest_of_outer_scope,
                        line,
                        max,
                        incs2,
                    );
                },
                _ => {},
            }
        },
        _ => {},
    }
}

proof fn lemma_zero_or_one_within_line(
    inner: SpecMatcher,
    rest_of_inner_scope: Seq<char>,
    group_idx: Option<usize>,
    rest_of_outer_scope: Seq<char>,
    line: Seq<char>,
    m: MatchView,
)
    requires
        encode_utf8(line).len() <= usize::MAX,
        match_within(encode_utf8(line).len(), m),
    ensures
        outcome_within(
            encode_utf8(line).len(),
            spec_zero_or_one(inner, rest_of_inner_scope, group_idx, rest_of_outer_scope, line, m),
        ),
    decreases quantified_weight(inner, rest_of_inner_scope, rest_of_outer_scope), 3nat, 0nat,
{
    lemma_matcher_within_line(inner, line, m);
    match spec_matcher(inner, line, m) {
        Ok(Err(pm)) => {
            lemma_restored_within(encode_utf8(line).len(), pm, m.offset, m.captures.len() as int);
        },
        Ok(Ok(sub)) => {
            lemma_attempt_within_line(rest_of_inner_scope, group_idx, rest_of_outer_scope, line, sub);
        },
        _ => {},
    }
}

proof fn lemma_zero_or_more_within_line(
    inner: SpecMatcher,
    rest_of_inner_scope: Seq<char>,
    group_idx: Option<usize>,
    rest_of_outer_scope: Seq<char>,
    line: Seq<char>,
    m: MatchView,
)
    requires
        encode_utf8(line).len() <= usize::MAX,
        match_within(encode_utf8(line).len(), m),
    ensures
        outcome_within(
            encode_utf8(line).len(),
            spec_zero_or_more(inner, rest_of_inner_scope, group_idx, rest_of_outer_scope, line, m),
        ),
    decreases quantified_weight(inner, rest_of_inner_scope, rest_of_outer_scope), 3nat, 0nat,
{
    let incs = Seq::<usize>::empty();
    assert(steps_sum(incs) == 0);
    lemma_greedy_within_line(inner, line, m, incs);
    lemma_greedy_steps(inner, line, m, incs);
    match spec_greedy(inner, line, m, incs) {
        Ok((max, incs2)) => {
            lemma_backtrack_within_line(
                rest_of_inner_scope,
                group_idx,
                rest_of_outer_scope,
                line,
                max,
                incs2,
            );
            match spec_backtrack(rest_of_inner_scope, group_idx, rest_of_outer_scope, line, max, incs2) {
                Ok(Err(same)) => {
                    lemma_attempt_within_line(
                        rest_of_inner_scope,
                        group_idx,
                        rest_of_outer_scope,
                        line,
                        same,
                    );
                },
                _ => {},
            }
        },
        _ => {},
    }
}

} // verus!
