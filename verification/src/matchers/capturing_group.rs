use vstd::prelude::*;
use vstd::utf8::encode_utf8;

use super::alternation::{lemma_split_max_len, spec_alternation_from, split_alternatives, Alternation};
use super::{
    inserted_at, outcome_view, InsertAt, Match, MatchError, MatchResult, MatchView, Matcher,
    SpecOutcome,
};

verus! {

/// `( .. )`: the alternatives of `inner_scope`, followed by
/// `rest_of_outer_scope`; on success the group's end is recorded as the end
/// of capture `idx`.
pub open spec fn spec_group(
    idx: usize,
    inner_scope: Seq<char>,
    rest_of_outer_scope: Seq<char>,
    line: Seq<char>,
    m: MatchView,
) -> SpecOutcome
    decreases inner_scope.len() + rest_of_outer_scope.len() + 1, 3nat, 0nat,
{
    proof {
        lemma_split_max_len(inner_scope);
    }
    match spec_alternation_from(
        split_alternatives(inner_scope),
        0,
        rest_of_outer_scope,
        Some(idx),
        line,
        m,
    ) {
        Err(e) => Err(e),
        Ok(Err(_)) => Ok(Err(m)),
        Ok(Ok(gm)) => Ok(
            Ok(MatchView { offset: gm.offset, captures: inserted_at(gm.captures, idx, gm.offset) }),
        ),
    }
}

/// `( .. )`: a capturing group, the `idx`-th capture of the pattern.
pub struct CapturingGroupCharacterClass<'outer> {
    idx: usize,
    inner_scope: &'outer str,
    rest_of_outer_scope: &'outer str,
}

impl<'regex> CapturingGroupCharacterClass<'regex> {
    pub fn new(idx: usize, inner_regex: &'regex str, rest_of_outer_scope: &'regex str) -> (g: Self)
        ensures
            g.idx() == idx,
            g.inner_scope() == inner_regex@,
            g.rest_of_outer_scope() == rest_of_outer_scope@,
    {
        Self { inner_scope: inner_regex, rest_of_outer_scope, idx }
    }

    /// The index of the capture the group fills.
    pub closed spec fn idx(&self) -> usize {
        self.idx
    }

    /// The pattern between the parentheses.
    pub closed spec fn inner_scope(&self) -> Seq<char> {
        self.inner_scope@
    }

    /// The rest of the pattern after the closing parenthesis.
    pub closed spec fn rest_of_outer_scope(&self) -> Seq<char> {
        self.rest_of_outer_scope@
    }

    pub(crate) fn extend(&self, input_line: &str, previous_match: Match) -> (r: Result<MatchResult, MatchError>)
        ensures
            outcome_view(r) == spec_group(
                self.idx(),
                self.inner_scope(),
                self.rest_of_outer_scope(),
                input_line@,
                previous_match@,
            ),
            r matches Ok(Err(q)) ==> q@ == previous_match@,
            r matches Ok(Ok(q)) ==> q.offset >= previous_match.offset,
        decreases self.inner_scope().len() + self.rest_of_outer_scope().len() + 1, 3nat, 0nat,
    {
        proof {
            lemma_split_max_len(self.inner_scope@);
        }
        let group_matcher = Alternation::new(self.inner_scope, self.rest_of_outer_scope, Some(self.idx));
        match group_matcher.extend(input_line, previous_match) {
            Err(e) => Err(e),
            Ok(Err(mm)) => Ok(Err(mm)),
            Ok(Ok(group_match)) => {
                let mut group_match = group_match;
                let offset = group_match.offset;
                group_match.captures.insert_at(self.idx, offset);
                Ok(Ok(group_match))
            },
        }
    }
}

impl<'regex> Matcher for CapturingGroupCharacterClass<'regex> {
    /// The byte length of the group's text, the parentheses included.
    open spec fn spec_len(&self) -> nat {
        encode_utf8(self.inner_scope()).len() + 2
    }

    open spec fn spec_extend_from(&self, input_line: Seq<char>, previous_match: MatchView) -> SpecOutcome {
        spec_group(self.idx(), self.inner_scope(), self.rest_of_outer_scope(), input_line, previous_match)
    }

    fn len(&self) -> (n: usize) {
        self.inner_scope.len() + 2
    }

    fn extend_from(&self, input_line: &str, previous_match: Match) -> (r: Result<MatchResult, MatchError>) {
        self.extend(input_line, previous_match)
    }
}

} // verus!
