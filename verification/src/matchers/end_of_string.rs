use vstd::prelude::*;

use vstd::utf8::{encode_utf8, is_char_boundary};

use super::{Match, MatchError, MatchResult, MatchView, Matcher, SpecOutcome};

verus! {

/// `$`: the end of the line, where a final line feed still counts as the end.
pub struct EndOfLineCharacterClass;

/// Succeeds, consuming nothing, when the bytes of the line left from the
/// match's offset, taken as a byte position, are none or a single line feed
/// starting at a character boundary.
pub open spec fn spec_end_of_line(line: Seq<char>, m: MatchView) -> SpecOutcome {
    let b = encode_utf8(line);
    if m.offset == b.len() || (m.offset + 1 == b.len() && is_char_boundary(b, m.offset as int)
        && b[m.offset as int] == 10u8) {
        Ok(Ok(m))
    } else {
        Ok(Err(m))
    }
}

impl Matcher for EndOfLineCharacterClass {
    open spec fn spec_len(&self) -> nat {
        1
    }

    open spec fn spec_extend_from(&self, input_line: Seq<char>, previous_match: MatchView) -> SpecOutcome {
        spec_end_of_line(input_line, previous_match)
    }

    fn len(&self) -> (n: usize) {
        1
    }

    fn extend_from(&self, input_line: &str, previous_match: Match) -> (r: Result<MatchResult, MatchError>) {
        let bytes = input_line.as_bytes();
        let len = bytes.len();
        let offset = previous_match.offset;
        let at_end = if offset == len {
            true
        } else if offset < len && offset + 1 == len {
            input_line.is_char_boundary(offset) && bytes[offset] == 10u8
        } else {
            false
        };
        if at_end {
            Ok(Ok(previous_match))
        } else {
            Ok(Err(previous_match))
        }
    }
}

} // verus!
