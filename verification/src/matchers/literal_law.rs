//! A pattern made of plain characters matches like the literal text it
//! spells.

use vstd::prelude::*;
use vstd::utf8::{
    encode_utf8, encode_utf8_decode_utf8, encode_utf8_valid_utf8, is_ascii_chars,
    is_ascii_chars_encode_utf8, is_ascii_chars_nat_bound, is_char_boundary_iff_not_is_continuation_byte,
    is_char_boundary_start_end_of_seq,
};

use super::literal::{holds_bytes_at, spec_literal_bytes};
use super::literal::spec_literal_char;
use super::pattern::{pattern_rest, spec_first_class, spec_next_matcher, spec_pattern};
use super::{advanced, closed_count, spec_matcher, MatchView, SpecMatcher};
use crate::utils::{byte_index, byte_index_from, byte_position};

verus! {

/// A character that the pattern syntax gives a meaning of its own.
pub open spec fn is_operator(c: char) -> bool {
    c == '\\' || c == '(' || c == ')' || c == '[' || c == ']' || c == '.' || c == '^' || c == '$'
        || c == '+' || c == '?' || c == '*'
}

/// A pattern that holds no operator character.
pub open spec fn is_plain_literal(s: Seq<char>) -> bool {
    forall|i: int| 0 <= i < s.len() ==> !is_operator(#[trigger] s[i])
}

/// On ASCII text, finding the bytes of `sub` at byte `off` of `line` is
/// finding `sub` itself at char position `off`.
proof fn lemma_ascii_holds(line: Seq<char>, off: int, sub: Seq<char>)
    requires
        is_ascii_chars(line),
        is_ascii_chars(sub),
    ensures
        holds_bytes_at(encode_utf8(line), off, encode_utf8(sub)) <==> (0 <= off && off + sub.len()
            <= line.len() && line.subrange(off, off + sub.len()) == sub),
{
    is_ascii_chars_encode_utf8(line);
    is_ascii_chars_encode_utf8(sub);
    is_ascii_chars_nat_bound(line);
    if 0 <= off && off + sub.len() <= line.len() {
        let t = line.subrange(off, off + sub.len());
        assert(is_ascii_chars(t));
        is_ascii_chars_encode_utf8(t);
        assert(encode_utf8(t) =~= encode_utf8(line).subrange(off, off + sub.len()));
        encode_utf8_decode_utf8(t);
        encode_utf8_decode_utf8(sub);
        encode_utf8_valid_utf8(line);
        if off < line.len() {
            is_char_boundary_iff_not_is_continuation_byte(encode_utf8(line), off);
            assert((line[off] as nat) < 128);
            assert(encode_utf8(line)[off] < 128);
        } else {
            is_char_boundary_start_end_of_seq(encode_utf8(line));
        }
    }
}

/// A pattern of plain ASCII characters, run over an ASCII line, gives what
/// matching its text as a literal string gives: the match moved past the
/// text when the line holds it at the match's offset, and the match handed
/// back otherwise. Left out are the inputs on which the pattern cannot
/// number the next capture within `usize`.
pub proof fn lemma_plain_pattern_matches_like_literal(
    s: Seq<char>,
    outer: Seq<char>,
    group_idx: Option<usize>,
    line: Seq<char>,
    p: MatchView,
)
    requires
        s.len() > 0,
        is_plain_literal(s),
        is_ascii_chars(s),
        is_ascii_chars(line),
        line.len() <= usize::MAX,
        (match group_idx {
            Some(g) => g + 1,
            None => 0int,
        }) + closed_count(p.captures) <= usize::MAX,
    ensures
        spec_pattern(s, outer, group_idx, line, p) == spec_literal_bytes(encode_utf8(s), line, p),
    decreases s.len(),
{
    let c = s[0];
    assert(!is_operator(c));
    let adj_idx: int = match group_idx {
        Some(g) => g + 1,
        None => 0,
    };
    let ngi = (adj_idx + closed_count(p.captures)) as usize;
    assert(spec_first_class(s, ngi) == Ok::<(SpecMatcher, bool), super::MatchError>((SpecMatcher::Literal(c), false)));
    if s.len() > 1 {
        assert(!is_operator(s[1]));
    }
    assert(spec_next_matcher(s, outer, group_idx, ngi) == Ok::<
        Option<(SpecMatcher, bool)>,
        super::MatchError,
    >(Some((SpecMatcher::Literal(c), false))));
    assert(s.take(0) =~= Seq::<char>::empty());
    assert(is_ascii_chars(s.take(1)));
    is_ascii_chars_encode_utf8(s.take(1));
    assert(byte_position(s, 0) == 0);
    assert(byte_position(s, 1) == 1);
    assert(byte_index_from(s, 1, 1) == Some(1int));
    assert(byte_index(s, 1) == Some(1int));
    is_ascii_chars_encode_utf8(s);
    lemma_ascii_holds(line, p.offset as int, s);
    assert(spec_matcher(SpecMatcher::Literal(c), line, p) == spec_literal_char(c, line, p));
    assert(pattern_rest(s, SpecMatcher::Literal(c)) == (if s.len() > 1 {
        Some(s.skip(1))
    } else {
        None::<Seq<char>>
    }));
    if s.len() > 1 {
        let rest = s.skip(1);
        assert(is_plain_literal(rest)) by {
            assert forall|i: int| 0 <= i < rest.len() implies !is_operator(#[trigger] rest[i]) by {
                assert(rest[i] == s[i + 1]);
            }
        }
        assert(is_ascii_chars(rest));
        is_ascii_chars_encode_utf8(rest);
        if p.offset < line.len() && line[p.offset as int] == c {
            let q = advanced(p, 1);
            lemma_plain_pattern_matches_like_literal(rest, outer, group_idx, line, q);
            lemma_ascii_holds(line, q.offset as int, rest);
            let off = p.offset as int;
            if off + s.len() <= line.len() {
                assert(line.subrange(off, off + s.len()) =~= seq![c] + line.subrange(off + 1, off + s.len()));
                assert(s =~= seq![c] + rest);
                if line.subrange(off, off + s.len()) == s {
                    assert(line.subrange(off + 1, off + s.len()) =~= rest);
                } else {
                    assert(line.subrange(off + 1, off + s.len()) != rest);
                }
            }
        } else {
            if p.offset as int + s.len() <= line.len() {
                assert(line.subrange(p.offset as int, p.offset + s.len())[0] == line[p.offset as int]);
            }
        }
    } else {
        if p.offset as int + s.len() <= line.len() {
            assert(line.subrange(p.offset as int, p.offset + s.len())[0] == line[p.offset as int]);
            if p.offset < line.len() && line[p.offset as int] == c {
                assert(line.subrange(p.offset as int, p.offset + s.len()) =~= s);
            }
        }
    }
}

} // verus!
