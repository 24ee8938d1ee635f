//! The steps that the repetition operators `+`, `?` and `*` share.

use vstd::prelude::*;

use super::alternation::{lemma_split_max_len, spec_alternation_from, split_alternatives};
use super::alternation::Alternation;
use super::captures_law::{
    lemma_alternation_keeps_captures, lemma_matcher_keeps_captures, lemma_pattern_keeps_captures,
};
use super::pattern::{spec_pattern, Pattern};
use super::{
    advanced, inserted_at, outcome_view, restored, spec_matcher, weight, AnyMatcher, InsertAt, Match,
    MatchError, MatchResult, MatchView, SpecMatcher, SpecOutcome,
};

verus! {

/// Applying `inner` again and again from `m` for as long as it matches.
/// `incs` collects how far each step moved. Ends with the last match that
/// was reached and the steps taken; a step that does not move forward is an
/// error (steps never move back).
pub open spec fn spec_greedy(inner: SpecMatcher, line: Seq<char>, m: MatchView, incs: Seq<usize>) -> Result<
    (MatchView, Seq<usize>),
    MatchError,
>
    decreases weight(inner) + 1, 2nat, usize::MAX - m.offset,
{
    match spec_matcher(inner, line, m) {
        Err(e) => Err(e),
        Ok(Err(_)) => Ok((m, incs)),
        Ok(Ok(ext)) => if ext.offset <= m.offset {
            Err(MatchError::EndlessRepetition)
        } else {
            spec_greedy(inner, line, ext, incs.push((ext.offset - m.offset) as usize))
        },
    }
}

/// Matching what follows a repetition at the match's offset: the
/// alternatives of `rest_of_inner_scope` and then `rest_of_outer_scope`.
/// Either way the match is put back at its offset and captures count; `Ok`
/// means all of the rest matched.
pub open spec fn spec_attempt(
    rest_of_inner_scope: Seq<char>,
    group_idx: Option<usize>,
    rest_of_outer_scope: Seq<char>,
    line: Seq<char>,
    m: MatchView,
) -> SpecOutcome
    decreases rest_of_inner_scope.len() + rest_of_outer_scope.len(), 7nat, 0nat,
{
    proof {
        lemma_split_max_len(rest_of_inner_scope);
    }
    let len = m.captures.len() as int;
    match spec_alternation_from(
        split_alternatives(rest_of_inner_scope),
        0,
        rest_of_outer_scope,
        group_idx,
        line,
        m,
    ) {
        Err(e) => Err(e),
        Ok(Err(_)) => Ok(Err(m)),
        Ok(Ok(inner_match)) => {
            let inner_match = match group_idx {
                Some(g) => MatchView {
                    offset: inner_match.offset,
                    captures: inserted_at(inner_match.captures, g, inner_match.offset),
                },
                None => inner_match,
            };
            match spec_pattern(rest_of_outer_scope, Seq::empty(), None, line, inner_match) {
                Err(e) => Err(e),
                Ok(Err(_)) => Ok(Err(restored(inner_match, m.offset, len))),
                Ok(Ok(outer_match)) => Ok(Ok(restored(outer_match, m.offset, len))),
            }
        },
    }
}

/// Backing off a repetition one step at a time, from the longest: each
/// position is tried with [`spec_attempt`], and then the match moves back
/// by the last step in `incs`.
pub open spec fn spec_backtrack(
    rest_of_inner_scope: Seq<char>,
    group_idx: Option<usize>,
    rest_of_outer_scope: Seq<char>,
    line: Seq<char>,
    m: MatchView,
    incs: Seq<usize>,
) -> SpecOutcome
    decreases rest_of_inner_scope.len() + rest_of_outer_scope.len() + 1, 2nat, incs.len(),
{
    if incs.len() == 0 {
        Ok(Err(m))
    } else {
        match spec_attempt(rest_of_inner_scope, group_idx, rest_of_outer_scope, line, m) {
            Err(e) => Err(e),
            Ok(Ok(found)) => Ok(Ok(found)),
            Ok(Err(same)) => spec_backtrack(
                rest_of_inner_scope,
                group_idx,
                rest_of_outer_scope,
                line,
                advanced(same, -(incs.last() as int)),
                incs.drop_last(),
            ),
        }
    }
}

/// The sum of the steps in `incs`.
pub open spec fn steps_sum(incs: Seq<usize>) -> int
    decreases incs.len(),
{
    if incs.len() == 0 {
        0
    } else {
        steps_sum(incs.drop_last()) + incs.last()
    }
}

pub proof fn lemma_steps_sum_nonneg(incs: Seq<usize>)
    ensures
        steps_sum(incs) >= 0,
    decreases incs.len(),
{
    if incs.len() > 0 {
        lemma_steps_sum_nonneg(incs.drop_last());
    }
}

/// The mathematical value of what [`greedy`] returns.
pub open spec fn greedy_view(r: Result<(Match, Vec<usize>), MatchError>) -> Result<(MatchView, Seq<usize>), MatchError> {
    match r {
        Ok((m, incs)) => Ok((m@, incs@)),
        Err(e) => Err(e),
    }
}

/// Applies `inner` from `m` for as long as it matches, recording each step
/// in `incs`; see [`spec_greedy`]. The offset reached, less the steps taken,
/// stays what it was.
pub(crate) fn greedy(inner: &AnyMatcher, input_line: &str, m: Match, incs: Vec<usize>) -> (r: Result<(Match, Vec<usize>), MatchError>)
    ensures
        greedy_view(r) == spec_greedy(inner@, input_line@, m@, incs@),
        r matches Ok((mx, incs2)) ==> mx.offset - steps_sum(incs2@) == m.offset - steps_sum(incs@),
        r matches Ok((mx, _)) ==> mx.offset >= m.offset,
    decreases weight(inner@) + 1, 2nat, 0nat,
{
    let ghost m0 = m@;
    let ghost incs0 = incs@;
    let mut whole_match = m;
    let mut increments = incs;
    loop
        invariant
            m0 == m@,
            incs0 == incs@,
            spec_greedy(inner@, input_line@, whole_match@, increments@) == spec_greedy(
                inner@,
                input_line@,
                m0,
                incs0,
            ),
            whole_match.offset - steps_sum(increments@) == m0.offset - steps_sum(incs0),
            whole_match.offset >= m0.offset,
        decreases usize::MAX - whole_match.offset,
    {
        let old_offset = whole_match.offset;
        let old_captures = whole_match.captures.len();
        let ghost current = whole_match@;
        match inner.extend(input_line, whole_match) {
            Err(e) => {
                return Err(e);
            },
            Ok(Err(max_match)) => {
                let max_match = max_match.rollback(old_offset, old_captures);
                assert(max_match@.captures =~= current.captures);
                return Ok((max_match, increments));
            },
            Ok(Ok(extended_match)) => {
                if extended_match.offset <= old_offset {
                    return Err(MatchError::EndlessRepetition);
                }
                let ghost before = increments@;
                increments.push(extended_match.offset - old_offset);
                assert(increments@.drop_last() == before);
                whole_match = extended_match;
            },
        }
    }
}

/// Matches what follows a repetition at the match's offset; see
/// [`spec_attempt`].
pub(crate) fn attempt(
    rest_of_inner_scope: &str,
    group_idx: Option<usize>,
    rest_of_outer_scope: &str,
    input_line: &str,
    m: Match,
) -> (r: Result<MatchResult, MatchError>)
    ensures
        outcome_view(r) == spec_attempt(
            rest_of_inner_scope@,
            group_idx,
            rest_of_outer_scope@,
            input_line@,
            m@,
        ),
        r matches Ok(Err(same)) ==> same.offset == m.offset,
        r matches Ok(Ok(found)) ==> found.offset == m.offset,
    decreases rest_of_inner_scope@.len() + rest_of_outer_scope@.len(), 7nat, 0nat,
{
    proof {
        lemma_split_max_len(rest_of_inner_scope@);
    }
    let max_match_offset = m.offset;
    let max_match_captures = m.captures.len();
    let inner_matcher = Alternation::new(rest_of_inner_scope, rest_of_outer_scope, group_idx);
    proof {
        lemma_alternation_keeps_captures(
            split_alternatives(rest_of_inner_scope@),
            0,
            rest_of_outer_scope@,
            group_idx,
            input_line@,
            m@,
        );
    }
    match inner_matcher.extend(input_line, m) {
        Err(e) => Err(e),
        Ok(Err(same_match)) => {
            let same_match = same_match.rollback(max_match_offset, max_match_captures);
            assert(same_match@.captures =~= m@.captures);
            Ok(Err(same_match))
        },
        Ok(Ok(inner_match)) => {
            let mut inner_match = inner_match;
            if let Some(group_idx) = group_idx {
                let offset = inner_match.offset;
                inner_match.captures.insert_at(group_idx, offset);
            }
            let outer_matcher = Pattern::new(rest_of_outer_scope, "", None);
            proof {
                assert(""@.len() == 0) by {
                    reveal_strlit("");
                }
                assert(""@ == Seq::<char>::empty()) by {
                    reveal_strlit("");
                }
            }
            proof {
                lemma_pattern_keeps_captures(rest_of_outer_scope@, Seq::empty(), None, input_line@, inner_match@);
            }
            match outer_matcher.extend(input_line, inner_match) {
                Err(e) => Err(e),
                Ok(Err(same_match)) => Ok(Err(same_match.rollback(max_match_offset, max_match_captures))),
                Ok(Ok(outer_match)) => Ok(Ok(outer_match.rollback(max_match_offset, max_match_captures))),
            }
        },
    }
}

/// Backs off a repetition step by step, trying what follows at each
/// position; see [`spec_backtrack`].
pub(crate) fn backtrack(
    rest_of_inner_scope: &str,
    group_idx: Option<usize>,
    rest_of_outer_scope: &str,
    input_line: &str,
    m: Match,
    incs: Vec<usize>,
) -> (r: Result<MatchResult, MatchError>)
    requires
        steps_sum(incs@) <= m.offset,
    ensures
        outcome_view(r) == spec_backtrack(
            rest_of_inner_scope@,
            group_idx,
            rest_of_outer_scope@,
            input_line@,
            m@,
            incs@,
        ),
        r matches Ok(Ok(found)) ==> found.offset >= m.offset - steps_sum(incs@),
        r matches Ok(Err(same)) ==> same.offset == m.offset - steps_sum(incs@),
    decreases rest_of_inner_scope@.len() + rest_of_outer_scope@.len() + 1, 2nat, 0nat,
{
    let ghost m0 = m@;
    let ghost incs0 = incs@;
    let mut max_match = m;
    let mut increments = incs;
    while increments.len() > 0
        invariant
            m0 == m@,
            incs0 == incs@,
            steps_sum(increments@) <= max_match.offset,
            max_match.offset - steps_sum(increments@) == m0.offset - steps_sum(incs0),
            spec_backtrack(
                rest_of_inner_scope@,
                group_idx,
                rest_of_outer_scope@,
                input_line@,
                max_match@,
                increments@,
            ) == spec_backtrack(
                rest_of_inner_scope@,
                group_idx,
                rest_of_outer_scope@,
                input_line@,
                m0,
                incs0,
            ),
        decreases increments.len(),
    {
        let ghost before = increments@;
        let past_increment = match increments.pop() {
            Some(i) => i,
            None => 0,
        };
        assert(increments@ == before.drop_last());
        proof {
            lemma_steps_sum_nonneg(increments@);
        }
        match attempt(rest_of_inner_scope, group_idx, rest_of_outer_scope, input_line, max_match) {
            Err(e) => {
                return Err(e);
            },
            Ok(Ok(final_match)) => {
                return Ok(Ok(final_match));
            },
            Ok(Err(same_match)) => {
                let mut same_match = same_match;
                same_match.sub_assign(past_increment);
                max_match = same_match;
            },
        }
    }
    assert(steps_sum(increments@) == 0);
    Ok(Err(max_match))
}

} // verus!
