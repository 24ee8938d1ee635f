use vstd::prelude::*;

use super::{advanced, char_at, Match, MatchError, MatchResult, MatchView, Matcher, SpecOutcome};

verus! {

/// `\d`: one ASCII digit.
pub struct DigitCharacterClass;

pub open spec fn is_ascii_digit(c: char) -> bool {
    '0' <= c <= '9'
}

/// One step over an ASCII digit at the match's offset.
pub open spec fn spec_digit(line: Seq<char>, m: MatchView) -> SpecOutcome {
    if m.offset < line.len() && is_ascii_digit(line[m.offset as int]) {
        Ok(Ok(advanced(m, 1)))
    } else {
        Ok(Err(m))
    }
}

impl Matcher for DigitCharacterClass {
    open spec fn spec_len(&self) -> nat {
        2
    }

    open spec fn spec_extend_from(&self, input_line: Seq<char>, previous_match: MatchView) -> SpecOutcome {
        spec_digit(input_line, previous_match)
    }

    fn len(&self) -> (n: usize) {
        2
    }

    fn extend_from(&self, input_line: &str, previous_match: Match) -> (r: Result<MatchResult, MatchError>) {
        match char_at(input_line, previous_match.offset) {
            Some(c) => {
                if '0' <= c && c <= '9' {
                    Ok(Ok(previous_match.add(1)))
                } else {
                    Ok(Err(previous_match))
                }
            },
            None => Ok(Err(previous_match)),
        }
    }
}

} // verus!
