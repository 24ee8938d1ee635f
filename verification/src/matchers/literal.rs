use vstd::prelude::*;

use vstd::utf8::{encode_utf8, is_char_boundary};

use super::{
    advanced, char_at, Match, MatchError, MatchResult, MatchView, Matcher, SpecOutcome,
};

verus! {

/// A character that matches itself.
pub struct LiteralCharCharacterClass(pub char);

/// One step over the character `c` at the match's offset.
pub open spec fn spec_literal_char(c: char, line: Seq<char>, m: MatchView) -> SpecOutcome {
    if m.offset < line.len() && line[m.offset as int] == c {
        Ok(Ok(advanced(m, 1)))
    } else {
        Ok(Err(m))
    }
}

impl Matcher for LiteralCharCharacterClass {
    open spec fn spec_len(&self) -> nat {
        1
    }

    open spec fn spec_extend_from(&self, input_line: Seq<char>, previous_match: MatchView) -> SpecOutcome {
        spec_literal_char(self.0, input_line, previous_match)
    }

    fn len(&self) -> (n: usize) {
        1
    }

    fn extend_from(&self, input_line: &str, previous_match: Match) -> (r: Result<MatchResult, MatchError>) {
        let c = char_at(input_line, previous_match.offset);
        if c == Some(self.0) {
            return Ok(Ok(previous_match.add(1)));
        }
        Ok(Err(previous_match))
    }
}

/// A fixed string that matches itself.
pub struct LiteralSubstringCharacterClass<'substring>(pub &'substring str);

/// The bytes of `line`, from byte position `offset` on, are a slice that
/// begins with `sub`: `offset` is a character boundary and `sub` follows.
pub open spec fn holds_bytes_at(line: Seq<u8>, offset: int, sub: Seq<u8>) -> bool {
    &&& 0 <= offset <= line.len()
    &&& is_char_boundary(line, offset)
    &&& offset + sub.len() <= line.len()
    &&& line.subrange(offset, offset + sub.len()) == sub
}

/// A step over the bytes `sub` at the match's offset, taken as a byte
/// position in the line; the match moves by the byte length of `sub`.
pub open spec fn spec_literal_bytes(sub: Seq<u8>, line: Seq<char>, m: MatchView) -> SpecOutcome {
    if holds_bytes_at(encode_utf8(line), m.offset as int, sub) {
        Ok(Ok(advanced(m, sub.len() as int)))
    } else {
        Ok(Err(m))
    }
}

/// Whether the bytes of `line` hold `sub` at byte position `offset`, which
/// must be a character boundary.
fn holds_at(line: &str, offset: usize, sub: &[u8]) -> (b: bool)
    ensures
        b == holds_bytes_at(encode_utf8(line@), offset as int, sub@),
        encode_utf8(line@).len() <= usize::MAX,
{
    let bytes = line.as_bytes();
    let n = bytes.len();
    let k = sub.len();
    if offset > n || !line.is_char_boundary(offset) || k > n - offset {
        assert(offset <= n && is_char_boundary(bytes@, offset as int) ==> offset + k > n);
        return false;
    }
    let mut i: usize = 0;
    while i < k
        invariant
            i <= k,
            k == sub@.len(),
            n == bytes@.len(),
            bytes@ == encode_utf8(line@),
            offset + k <= n,
            forall|j: int| 0 <= j < i ==> bytes@[offset + j] == sub@[j],
        decreases k - i,
    {
        if bytes[offset + i] != sub[i] {
            assert(bytes@.subrange(offset as int, offset + k)[i as int] != sub@[i as int]);
            return false;
        }
        i = i + 1;
    }
    assert(bytes@.subrange(offset as int, offset + k) =~= sub@);
    true
}

impl<'substring> Matcher for LiteralSubstringCharacterClass<'substring> {
    /// The byte length of the string.
    open spec fn spec_len(&self) -> nat {
        encode_utf8(self.0@).len()
    }

    open spec fn spec_extend_from(&self, input_line: Seq<char>, previous_match: MatchView) -> SpecOutcome {
        spec_literal_bytes(encode_utf8(self.0@), input_line, previous_match)
    }

    fn len(&self) -> (n: usize) {
        self.0.len()
    }

    fn extend_from(&self, input_line: &str, previous_match: Match) -> (r: Result<MatchResult, MatchError>) {
        let sub = self.0.as_bytes();
        if holds_at(input_line, previous_match.offset, sub) {
            let n = sub.len();
            return Ok(Ok(previous_match.add(n)));
        }
        Ok(Err(previous_match))
    }
}

} // verus!
