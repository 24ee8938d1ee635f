use vstd::prelude::*;

use super::{advanced, char_at, Match, MatchError, MatchResult, MatchView, Matcher, SpecOutcome};

verus! {

/// `\w`: one ASCII letter or digit.
pub struct AlphanumericCharacterClass;

pub open spec fn is_ascii_alphanumeric(c: char) -> bool {
    ('0' <= c <= '9') || ('a' <= c <= 'z') || ('A' <= c <= 'Z')
}

/// One step over an ASCII letter or digit at the match's offset.
pub open spec fn spec_alphanumeric(line: Seq<char>, m: MatchView) -> SpecOutcome {
    if m.offset < line.len() && is_ascii_alphanumeric(line[m.offset as int]) {
        Ok(Ok(advanced(m, 1)))
    } else {
        Ok(Err(m))
    }
}

impl Matcher for AlphanumericCharacterClass {
    open spec fn spec_len(&self) -> nat {
        2
    }

    open spec fn spec_extend_from(&self, input_line: Seq<char>, previous_match: MatchView) -> SpecOutcome {
        spec_alphanumeric(input_line, previous_match)
    }

    fn len(&self) -> (n: usize) {
        2
    }

    fn extend_from(&self, input_line: &str, previous_match: Match) -> (r: Result<MatchResult, MatchError>) {
        match char_at(input_line, previous_match.offset) {
            Some(c) => {
                if ('0' <= c && c <= '9') || ('a' <= c && c <= 'z') || ('A' <= c && c <= 'Z') {
                    Ok(Ok(previous_match.add(1)))
                } else {
                    Ok(Err(previous_match))
                }
            },
            None => Ok(Err(previous_match)),
        }
    }
}

} // verus!
