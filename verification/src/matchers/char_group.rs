use itertools::Itertools;
use vstd::prelude::*;
use vstd::utf8::encode_utf8;

use super::{advanced, char_at, Match, MatchError, MatchResult, MatchView, Matcher, SpecOutcome};

verus! {

/// `[abc]` (positive) or `[^abc]` (negative): one character that is, or is
/// not, among `chars`.
pub struct CharGroupCharacterClass<'group> {
    pub chars: &'group str,
    pub is_positive: bool,
}

/// Whether `c` occurs in `s`.
///
/// Calls `Itertools::contains` on the `chars()` iterator of `s`, which
/// itertools implements as `any(|x| x == c)`: true exactly when some
/// character of `s` equals `c`.
#[verifier::external_body]
fn str_contains(s: &str, c: char) -> (r: bool)
    ensures
        r == s@.contains(c),
{
    s.chars().contains(&c)
}

/// One step over a character whose membership in `chars` is `is_positive`.
pub open spec fn spec_char_group(chars: Seq<char>, is_positive: bool, line: Seq<char>, m: MatchView) -> SpecOutcome {
    if m.offset < line.len() && chars.contains(line[m.offset as int]) == is_positive {
        Ok(Ok(advanced(m, 1)))
    } else {
        Ok(Err(m))
    }
}

impl<'group> Matcher for CharGroupCharacterClass<'group> {
    /// The byte length of the group's text: its characters, the brackets,
    /// and the caret of a negative group.
    open spec fn spec_len(&self) -> nat {
        if self.is_positive {
            encode_utf8(self.chars@).len() + 2
        } else {
            encode_utf8(self.chars@).len() + 3
        }
    }

    open spec fn spec_extend_from(&self, input_line: Seq<char>, previous_match: MatchView) -> SpecOutcome {
        spec_char_group(self.chars@, self.is_positive, input_line, previous_match)
    }

    fn len(&self) -> (n: usize) {
        if self.is_positive {
            self.chars.len() + 2
        } else {
            self.chars.len() + 3
        }
    }

    fn extend_from(&self, input_line: &str, previous_match: Match) -> (r: Result<MatchResult, MatchError>) {
        match char_at(input_line, previous_match.offset) {
            Some(c) => {
                if str_contains(self.chars, c) == self.is_positive {
                    return Ok(Ok(previous_match.add(1)));
                }
                Ok(Err(previous_match))
            },
            None => Ok(Err(previous_match)),
        }
    }
}

} // verus!
