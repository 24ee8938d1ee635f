use vstd::prelude::*;

use super::repetition::{backtrack, greedy, spec_backtrack, spec_greedy, steps_sum};
use super::{
    copy_match, outcome_view, quantified_weight, spec_matcher, spec_matcher_byte_len, AnyMatcher, Match, MatchError,
    MatchResult, MatchView, Matcher, SpecMatcher, SpecOutcome,
};

verus! {

/// `+`: `inner` as often as it matches, at least once; then backing off,
/// down to one repetition, until what follows matches. When no position
/// lets it match, `m` is handed back.
pub open spec fn spec_one_or_more(
    inner: SpecMatcher,
    rest_of_inner_scope: Seq<char>,
    group_idx: Option<usize>,
    rest_of_outer_scope: Seq<char>,
    line: Seq<char>,
    m: MatchView,
) -> SpecOutcome
    decreases quantified_weight(inner, rest_of_inner_scope, rest_of_outer_scope), 3nat, 0nat,
{
    match spec_matcher(inner, line, m) {
        Err(e) => Err(e),
        Ok(Err(_)) => Ok(Err(m)),
        Ok(Ok(first)) => match spec_greedy(inner, line, first, seq![(first.offset - m.offset) as usize]) {
            Err(e) => Err(e),
            Ok((max, incs)) => match spec_backtrack(
                rest_of_inner_scope,
                group_idx,
                rest_of_outer_scope,
                line,
                max,
                incs,
            ) {
                Err(e) => Err(e),
                Ok(Ok(found)) => Ok(Ok(found)),
                Ok(Err(_)) => Ok(Err(m)),
            },
        },
    }
}

/// `c+`: the class `inner_matcher` repeated, followed by the rest of its
/// pattern and of the patterns around it.
pub struct OneOrMoreQuantifer<'outer> {
    pub inner_matcher: Box<AnyMatcher<'outer>>,
    pub rest_of_inner_scope: &'outer str,
    pub group_idx: Option<usize>,
    pub rest_of_outer_scope: &'outer str,
}

impl<'outer> OneOrMoreQuantifer<'outer> {
    pub(crate) fn extend(&self, input_line: &str, previous_match: Match) -> (r: Result<MatchResult, MatchError>)
        ensures
            outcome_view(r) == spec_one_or_more(
                self.inner_matcher@,
                self.rest_of_inner_scope@,
                self.group_idx,
                self.rest_of_outer_scope@,
                input_line@,
                previous_match@,
            ),
            r matches Ok(Err(q)) ==> q@ == previous_match@,
            r matches Ok(Ok(q)) ==> q.offset >= previous_match.offset,
        decreases quantified_weight(
            self.inner_matcher@,
            self.rest_of_inner_scope@,
            self.rest_of_outer_scope@,
        ),
        3nat,
        0nat,
    {
        let saved = copy_match(&previous_match);
        let previous_offset = previous_match.offset;
        let first_submatch = match self.inner_matcher.extend(input_line, previous_match) {
            Err(e) => {
                return Err(e);
            },
            Ok(Err(mm)) => {
                return Ok(Err(mm));
            },
            Ok(Ok(first)) => first,
        };
        let first_increment = first_submatch.offset - previous_offset;
        let mut increments: Vec<usize> = Vec::new();
        increments.push(first_increment);
        assert(increments@ == seq![first_increment]);
        assert(steps_sum(increments@) == first_increment) by {
            assert(increments@.drop_last() =~= Seq::<usize>::empty());
            assert(steps_sum(Seq::<usize>::empty()) == 0);
        }
        match greedy(&self.inner_matcher, input_line, first_submatch, increments) {
            Err(e) => Err(e),
            Ok((max_match, increments)) => {
                match backtrack(
                    self.rest_of_inner_scope,
                    self.group_idx,
                    self.rest_of_outer_scope,
                    input_line,
                    max_match,
                    increments,
                ) {
                    Err(e) => Err(e),
                    Ok(Ok(found)) => Ok(Ok(found)),
                    Ok(Err(_)) => Ok(Err(saved)),
                }
            },
        }
    }
}

impl<'outer> Matcher for OneOrMoreQuantifer<'outer> {
    open spec fn spec_len(&self) -> nat {
        spec_matcher_byte_len(self.inner_matcher@) + 1
    }

    open spec fn spec_extend_from(&self, input_line: Seq<char>, previous_match: MatchView) -> SpecOutcome {
        spec_one_or_more(
            self.inner_matcher@,
            self.rest_of_inner_scope@,
            self.group_idx,
            self.rest_of_outer_scope@,
            input_line,
            previous_match,
        )
    }

    fn len(&self) -> (n: usize) {
        self.inner_matcher.len() + 1
    }

    fn extend_from(&self, input_line: &str, previous_match: Match) -> (r: Result<MatchResult, MatchError>) {
        self.extend(input_line, previous_match)
    }
}

} // verus!
