use vstd::prelude::*;

use super::{Match, MatchError, MatchResult, MatchView, Matcher, SpecOutcome};

verus! {

/// `^`: the start of the line.
pub struct StartOfLineCharacterClass;

/// Succeeds, consuming nothing, at offset 0 only.
pub open spec fn spec_start_of_line(m: MatchView) -> SpecOutcome {
    if m.offset == 0 {
        Ok(Ok(m))
    } else {
        Ok(Err(m))
    }
}

impl Matcher for StartOfLineCharacterClass {
    open spec fn spec_len(&self) -> nat {
        1
    }

    open spec fn spec_extend_from(&self, input_line: Seq<char>, previous_match: MatchView) -> SpecOutcome {
        spec_start_of_line(previous_match)
    }

    fn len(&self) -> (n: usize) {
        1
    }

    fn extend_from(&self, _input_line: &str, previous_match: Match) -> (r: Result<MatchResult, MatchError>) {
        if previous_match.offset == 0 {
            return Ok(Ok(previous_match));
        }
        Ok(Err(previous_match))
    }
}

} // verus!
