//! What the one-character classes and the anchors accept, stated by
//! character codes and line bytes, and how the classes relate.

use vstd::prelude::*;
use vstd::utf8::{encode_utf8, encode_utf8_valid_utf8, is_char_boundary_iff_not_is_continuation_byte};

use super::alphanumeric::spec_alphanumeric;
use super::digit::spec_digit;
use super::end_of_string::spec_end_of_line;
use super::start_of_string::spec_start_of_line;
use super::wildcard::spec_wildcard;
use super::{MatchView, SpecOutcome};

verus! {

/// A class that reads one character either steps past it, keeping the
/// captures, or hands back the match it was given.
pub open spec fn steps_or_keeps(m: MatchView, r: SpecOutcome) -> bool {
    match r {
        Ok(Ok(q)) => q.offset == m.offset + 1 && q.captures == m.captures,
        Ok(Err(q)) => q == m,
        Err(_) => false,
    }
}

/// The character at the match's offset has a code within `lo..=hi`.
pub open spec fn code_at_in(line: Seq<char>, m: MatchView, lo: int, hi: int) -> bool {
    m.offset < line.len() && lo <= (line[m.offset as int] as int) <= hi
}

/// `\d` accepts exactly the ten characters with codes 48 (`0`) to 57
/// (`9`), the digit `0` included, and steps one character past it.
pub proof fn lemma_digit_accepts_ascii_digits(line: Seq<char>, m: MatchView)
    requires
        line.len() <= usize::MAX,
    ensures
        steps_or_keeps(m, spec_digit(line, m)),
        spec_digit(line, m) is Ok && (spec_digit(line, m)->Ok_0 is Ok <==> code_at_in(line, m, 48, 57)),
{
}

/// `\w` accepts exactly the ASCII digits (codes 48 to 57), capital letters
/// (65 to 90) and small letters (97 to 122), and steps one character past.
pub proof fn lemma_alphanumeric_accepts_ascii_letters_and_digits(line: Seq<char>, m: MatchView)
    requires
        line.len() <= usize::MAX,
    ensures
        steps_or_keeps(m, spec_alphanumeric(line, m)),
        spec_alphanumeric(line, m) is Ok && (spec_alphanumeric(line, m)->Ok_0 is Ok <==> (code_at_in(
            line,
            m,
            48,
            57,
        ) || code_at_in(line, m, 65, 90) || code_at_in(line, m, 97, 122))),
{
}

/// `.` accepts every character but the line feed (code 10), and steps one
/// character past it.
pub proof fn lemma_wildcard_accepts_all_but_line_feed(line: Seq<char>, m: MatchView)
    requires
        line.len() <= usize::MAX,
    ensures
        steps_or_keeps(m, spec_wildcard(line, m)),
        spec_wildcard(line, m) is Ok && (spec_wildcard(line, m)->Ok_0 is Ok <==> (m.offset < line.len()
            && (line[m.offset as int] as int) != 10)),
{
}

/// Every character `\d` accepts, `\w` and `.` accept too, with the same
/// result.
pub proof fn lemma_digit_within_alphanumeric_and_wildcard(line: Seq<char>, m: MatchView)
    ensures
        spec_digit(line, m) matches Ok(Ok(q)) ==> spec_alphanumeric(line, m) == spec_digit(line, m)
            && spec_wildcard(line, m) == spec_digit(line, m),
{
}

/// `^` succeeds, consuming nothing, exactly at offset 0.
pub proof fn lemma_start_of_line_only_at_zero(line: Seq<char>, m: MatchView)
    ensures
        spec_start_of_line(m) == (if m.offset == 0 {
            Ok::<Result<MatchView, MatchView>, super::MatchError>(Ok(m))
        } else {
            Ok(Err(m))
        }),
{
}

/// `$` succeeds, consuming nothing, at every offset from which the bytes
/// left of the line are none or a single line feed (byte 10), offset 0
/// included; everywhere else it hands back the match.
pub proof fn lemma_end_of_line_before_final_line_feed(line: Seq<char>, m: MatchView)
    ensures
        spec_end_of_line(line, m) == (if m.offset <= encode_utf8(line).len() && (encode_utf8(line).skip(
            m.offset as int,
        ) =~= Seq::<u8>::empty() || encode_utf8(line).skip(m.offset as int) =~= seq![10u8]) {
            Ok::<Result<MatchView, MatchView>, super::MatchError>(Ok(m))
        } else {
            Ok(Err(m))
        }),
{
    let b = encode_utf8(line);
    encode_utf8_valid_utf8(line);
    if m.offset < b.len() {
        is_char_boundary_iff_not_is_continuation_byte(b, m.offset as int);
        if m.offset + 1 == b.len() {
            assert(b.skip(m.offset as int)[0] == b[m.offset as int]);
            if b[m.offset as int] == 10u8 {
                assert(b.skip(m.offset as int) =~= seq![10u8]);
            }
        } else {
            assert(b.skip(m.offset as int).len() >= 2);
        }
    }
}

} // verus!
