use vstd::prelude::*;

use vstd::utf8::{encode_utf8, is_char_boundary};

use super::literal::{spec_literal_bytes, LiteralSubstringCharacterClass};
use super::{str_get, Match, MatchError, MatchResult, MatchView, Matcher, SpecOutcome};

verus! {

/// `\1` to `\9`: the text that capture `idx` (counted from 0) matched.
pub struct Backref {
    idx: usize,
}

impl Backref {
    pub fn new(idx: usize) -> (b: Backref)
        ensures
            b.idx() == idx,
    {
        Backref { idx }
    }

    pub closed spec fn idx(&self) -> usize {
        self.idx
    }
}

/// The bytes of capture `idx` (its start and end taken as byte positions)
/// matched again at the match's offset; errors when that capture does not
/// exist, is not closed, or does not span a slice of the line.
pub open spec fn spec_backref(idx: usize, line: Seq<char>, m: MatchView) -> SpecOutcome {
    let b = encode_utf8(line);
    if idx >= m.captures.len() {
        Err(MatchError::BackrefOutOfRange)
    } else {
        let c = m.captures[idx as int];
        match c.end {
            None => Err(MatchError::UnclosedCapture),
            Some(end) => if c.start <= end && end <= b.len() && is_char_boundary(b, c.start as int)
                && is_char_boundary(b, end as int) {
                spec_literal_bytes(b.subrange(c.start as int, end as int), line, m)
            } else {
                Err(MatchError::CaptureOutOfLine)
            },
        }
    }
}

impl Matcher for Backref {
    /// A backslash and one digit.
    open spec fn spec_len(&self) -> nat {
        2
    }

    open spec fn spec_extend_from(&self, input_line: Seq<char>, previous_match: MatchView) -> SpecOutcome {
        spec_backref(self.idx(), input_line, previous_match)
    }

    fn len(&self) -> (n: usize) {
        2
    }

    fn extend_from(&self, input_line: &str, previous_match: Match) -> (r: Result<MatchResult, MatchError>) {
        if self.idx >= previous_match.captures.len() {
            return Err(MatchError::BackrefOutOfRange);
        }
        let range = previous_match.captures[self.idx];
        let end = match range.end {
            Some(end) => end,
            None => {
                return Err(MatchError::UnclosedCapture);
            },
        };
        match str_get(input_line, range.start, end) {
            None => Err(MatchError::CaptureOutOfLine),
            Some(substring) => LiteralSubstringCharacterClass(substring).extend_from(input_line, previous_match),
        }
    }
}

} // verus!
