use vstd::prelude::*;

use super::{advanced, char_at, Match, MatchError, MatchResult, MatchView, Matcher, SpecOutcome};

verus! {

/// `.`: any one character but a line feed.
pub struct WildcardCharacterClass;

/// One step over any character but `'\n'` at the match's offset.
pub open spec fn spec_wildcard(line: Seq<char>, m: MatchView) -> SpecOutcome {
    if m.offset < line.len() && line[m.offset as int] != '\n' {
        Ok(Ok(advanced(m, 1)))
    } else {
        Ok(Err(m))
    }
}

impl Matcher for WildcardCharacterClass {
    open spec fn spec_len(&self) -> nat {
        1
    }

    open spec fn spec_extend_from(&self, input_line: Seq<char>, previous_match: MatchView) -> SpecOutcome {
        spec_wildcard(input_line, previous_match)
    }

    fn len(&self) -> (n: usize) {
        1
    }

    fn extend_from(&self, input_line: &str, previous_match: Match) -> (r: Result<MatchResult, MatchError>) {
        match char_at(input_line, previous_match.offset) {
            None => Ok(Err(previous_match)),
            Some(c) => {
                if c == '\n' {
                    Ok(Err(previous_match))
                } else {
                    Ok(Ok(previous_match.add(1)))
                }
            },
        }
    }
}

} // verus!
