use vstd::prelude::*;

use super::captures_law::lemma_matcher_keeps_captures;
use super::repetition::{attempt, spec_attempt};
use super::{
    outcome_view, quantified_weight, restored, spec_matcher, spec_matcher_byte_len, AnyMatcher, Match,
    MatchError, MatchResult, MatchView, Matcher, SpecMatcher, SpecOutcome,
};

verus! {

/// `?`: `inner` once if it matches, else nothing. Never fails to match; what
/// follows is only tried for its effect on the captures that stay.
pub open spec fn spec_zero_or_one(
    inner: SpecMatcher,
    rest_of_inner_scope: Seq<char>,
    group_idx: Option<usize>,
    rest_of_outer_scope: Seq<char>,
    line: Seq<char>,
    m: MatchView,
) -> SpecOutcome
    decreases quantified_weight(inner, rest_of_inner_scope, rest_of_outer_scope), 3nat, 0nat,
{
    match spec_matcher(inner, line, m) {
        Err(e) => Err(e),
        Ok(Err(_)) => Ok(Ok(m)),
        Ok(Ok(sub)) => match spec_attempt(rest_of_inner_scope, group_idx, rest_of_outer_scope, line, sub) {
            Err(e) => Err(e),
            Ok(Ok(found)) => Ok(Ok(found)),
            Ok(Err(same)) => Ok(Ok(same)),
        },
    }
}

/// `?` never fails to match: unless an error stops it, it ends either where
/// it started, or where one match of its class ends.
pub proof fn lemma_zero_or_one_never_fails(
    inner: SpecMatcher,
    rest_of_inner_scope: Seq<char>,
    group_idx: Option<usize>,
    rest_of_outer_scope: Seq<char>,
    line: Seq<char>,
    m: MatchView,
)
    ensures
        ({
            let r = spec_zero_or_one(inner, rest_of_inner_scope, group_idx, rest_of_outer_scope, line, m);
            r is Ok ==> {
                &&& r->Ok_0 is Ok
                &&& ({
                    let x = r->Ok_0->Ok_0;
                    ||| x.offset == m.offset
                    ||| (spec_matcher(inner, line, m) matches Ok(Ok(sub)) && x.offset == sub.offset)
                })
            }
        }),
{
}

/// `c?`: the class `matcher` once or not at all, followed by the rest of
/// its pattern and of the patterns around it.
pub struct ZeroOrOneQuantifier<'outer> {
    pub matcher: Box<AnyMatcher<'outer>>,
    pub rest_of_inner_scope: &'outer str,
    pub group_idx: Option<usize>,
    pub rest_of_outer_scope: &'outer str,
}

impl<'outer> ZeroOrOneQuantifier<'outer> {
    pub(crate) fn extend(&self, input_line: &str, previous_match: Match) -> (r: Result<MatchResult, MatchError>)
        ensures
            outcome_view(r) == spec_zero_or_one(
                self.matcher@,
                self.rest_of_inner_scope@,
                self.group_idx,
                self.rest_of_outer_scope@,
                input_line@,
                previous_match@,
            ),
            r matches Ok(Err(q)) ==> q@ == previous_match@,
            r matches Ok(Ok(q)) ==> q.offset >= previous_match.offset,
        decreases quantified_weight(self.matcher@, self.rest_of_inner_scope@, self.rest_of_outer_scope@),
            3nat,
            0nat,
    {
        let previous_match_offset = previous_match.offset;
        let previous_match_captures = previous_match.captures.len();
        proof {
            lemma_matcher_keeps_captures(self.matcher@, input_line@, previous_match@);
        }
        let submatch = match self.matcher.extend(input_line, previous_match) {
            Err(e) => {
                return Err(e);
            },
            Ok(Err(kept)) => {
                let kept = kept.rollback(previous_match_offset, previous_match_captures);
                assert(kept@.captures =~= previous_match@.captures);
                return Ok(Ok(kept));
            },
            Ok(Ok(submatch)) => submatch,
        };
        match attempt(
            self.rest_of_inner_scope,
            self.group_idx,
            self.rest_of_outer_scope,
            input_line,
            submatch,
        ) {
            Err(e) => Err(e),
            Ok(Ok(found)) => Ok(Ok(found)),
            Ok(Err(same)) => Ok(Ok(same)),
        }
    }
}

impl<'outer> Matcher for ZeroOrOneQuantifier<'outer> {
    open spec fn spec_len(&self) -> nat {
        spec_matcher_byte_len(self.matcher@) + 1
    }

    open spec fn spec_extend_from(&self, input_line: Seq<char>, previous_match: MatchView) -> SpecOutcome {
        spec_zero_or_one(
            self.matcher@,
            self.rest_of_inner_scope@,
            self.group_idx,
            self.rest_of_outer_scope@,
            input_line,
            previous_match,
        )
    }

    fn len(&self) -> (n: usize) {
        self.matcher.len() + 1
    }

    fn extend_from(&self, input_line: &str, previous_match: Match) -> (r: Result<MatchResult, MatchError>) {
        self.extend(input_line, previous_match)
    }
}

} // verus!
