//! Locating the bracket that closes an opening one in a pattern.

use itertools::Itertools;
use vstd::prelude::*;
use vstd::utf8::encode_utf8;

verus! {

/// The characters of `line` from char position `start` on.
///
/// Calls `Itertools::get` with the range `start..` on the `chars()` iterator,
/// which itertools implements as `skip(start)`, and collects the result.
#[verifier::external_body]
fn chars_from(line: &str, start: usize) -> (r: Vec<char>)
    ensures
        r@ == (if start <= line@.len() { line@.skip(start as int) } else { Seq::<char>::empty() }),
{
    line.chars().get(start..).collect()
}

/// The byte position in `s` at which its character at char position `i`
/// begins (the byte length of `s` when `i` is its char length).
pub open spec fn byte_position(s: Seq<char>, i: int) -> int {
    encode_utf8(s.take(i)).len() as int
}

/// Scanning `s` from char position `i` on: the first char position at or
/// after `i`, up to and including the end, at which byte position `k` falls.
pub open spec fn byte_index_from(s: Seq<char>, k: int, i: int) -> Option<int>
    decreases s.len() + 1 - i,
{
    if i < 0 || i > s.len() {
        None
    } else if byte_position(s, i) == k {
        Some(i)
    } else {
        byte_index_from(s, k, i + 1)
    }
}

/// The char position of `s` (its end included) at which byte position `k`
/// falls; `None` when `k` is not a character boundary of `s`.
pub open spec fn byte_index(s: Seq<char>, k: int) -> Option<int> {
    byte_index_from(s, k, 0)
}

proof fn lemma_byte_index_from(s: Seq<char>, k: int, i: int)
    ensures
        byte_index_from(s, k, i) matches Some(j) ==> 0 <= i <= j <= s.len() && byte_position(s, j) == k,
    decreases s.len() + 1 - i,
{
    if 0 <= i <= s.len() && byte_position(s, i) != k {
        lemma_byte_index_from(s, k, i + 1);
    }
}

/// What [`byte_index`] finds is a char position of `s` at which byte `k`
/// falls, and it is not the start unless `k` is 0.
pub proof fn lemma_byte_index(s: Seq<char>, k: int)
    ensures
        byte_index(s, k) matches Some(j) ==> 0 <= j <= s.len() && byte_position(s, j) == k && (k
            >= 1 ==> j >= 1),
{
    lemma_byte_index_from(s, k, 0);
    assert(s.take(0) =~= Seq::<char>::empty());
    assert(byte_position(s, 0) == 0);
}

/// The characters of `line` from char position `start` on, each with the
/// byte position at which it begins.
///
/// Calls `Itertools::get` with the range `start..` on the `char_indices()`
/// iterator, which itertools implements as `skip(start)`, and collects the
/// result; std documents `char_indices` as yielding each character with its
/// byte position.
#[verifier::external_body]
fn char_indices_from(line: &str, start: usize) -> (r: Vec<(usize, char)>)
    ensures
        r@.len() == (if start <= line@.len() { line@.len() - start } else { 0 }),
        forall|i: int|
            0 <= i < r@.len() ==> (#[trigger] r@[i]).1 == line@[start + i] && r@[i].0 as int
                == byte_position(line@, start + i),
{
    line.char_indices().get(start..).collect()
}

/// Scanning `s` from position `i` with `depth` unclosed `open` brackets:
/// the position of the `close` that balances them all, if any.
pub open spec fn scan_closing(s: Seq<char>, i: int, depth: nat, open: char, close: char) -> Option<int>
    decreases s.len() - i,
{
    if i < 0 || i >= s.len() {
        None
    } else if s[i] == open {
        scan_closing(s, i + 1, depth + 1, open, close)
    } else if s[i] == close {
        if depth > 0 {
            scan_closing(s, i + 1, (depth - 1) as nat, open, close)
        } else {
            Some(i)
        }
    } else {
        scan_closing(s, i + 1, depth, open, close)
    }
}

/// The position of the `close` that matches the `open` at position `start`
/// of `s`; `None` when there is no `open` there or it is never closed.
pub open spec fn matching_close(s: Seq<char>, start: int, open: char, close: char) -> Option<int> {
    if 0 <= start < s.len() && s[start] == open {
        scan_closing(s, start + 1, 0, open, close)
    } else {
        None
    }
}

/// What [`scan_closing`] finds lies at or after where it started, before
/// the end, and is a `close`.
pub proof fn lemma_scan_closing(s: Seq<char>, i: int, depth: nat, open: char, close: char)
    ensures
        scan_closing(s, i, depth, open, close) matches Some(j) ==> i <= j < s.len() && s[j] == close,
    decreases s.len() - i,
{
    if 0 <= i < s.len() {
        if s[i] == open {
            lemma_scan_closing(s, i + 1, depth + 1, open, close);
        } else if s[i] == close {
            if depth > 0 {
                lemma_scan_closing(s, i + 1, (depth - 1) as nat, open, close);
            }
        } else {
            lemma_scan_closing(s, i + 1, depth, open, close);
        }
    }
}

/// The closing bracket found lies after the opening one, and is one.
pub proof fn lemma_matching_close(s: Seq<char>, start: int, open: char, close: char)
    ensures
        matching_close(s, start, open, close) matches Some(j) ==> 0 <= start < j < s.len() && s[j]
            == close,
{
    lemma_scan_closing(s, start + 1, 0, open, close);
}

pub open spec fn as_usize(o: Option<int>) -> Option<usize> {
    match o {
        Some(i) => Some(i as usize),
        None => None,
    }
}

/// The char position of `s` (its end included) at which byte position `k`
/// falls, if `k` is a character boundary of `s`.
pub(crate) fn byte_index_of(s: &str, k: usize) -> (r: Option<usize>)
    ensures
        r == as_usize(byte_index(s@, k as int)),
{
    let v = char_indices_from(s, 0);
    let n = v.len();
    let mut j: usize = 0;
    while j < n
        invariant
            j <= n,
            n == s@.len(),
            n == v@.len(),
            forall|i: int|
                0 <= i < v@.len() ==> (#[trigger] v@[i]).1 == s@[0 + i] && v@[i].0 as int
                    == byte_position(s@, 0 + i),
            byte_index_from(s@, k as int, j as int) == byte_index(s@, k as int),
        decreases n - j,
    {
        let (pos, _) = v[j];
        assert(pos as int == byte_position(s@, j as int));
        if pos == k {
            return Some(j);
        }
        j = j + 1;
    }
    let total = s.as_bytes().len();
    assert(s@.take(n as int) =~= s@);
    if total == k {
        Some(n)
    } else {
        assert(byte_index_from(s@, k as int, n + 1) == None::<int>);
        None
    }
}

/// The char position of the `close` that matches the `open` at char
/// position `open_idx` of `line`.
pub(crate) fn find_matching(line: &str, open_idx: usize, open: char, close: char) -> (r: Option<usize>)
    ensures
        r == as_usize(matching_close(line@, open_idx as int, open, close)),
{
    let line_len = line.unicode_len();
    let chars = chars_from(line, open_idx);
    if chars.len() == 0 || chars[0] != open {
        return None;
    }
    let mut innestation: usize = 0;
    let mut i: usize = 1;
    while i < chars.len()
        invariant
            1 <= i <= chars.len(),
            innestation < i,
            open_idx < line_len,
            line_len == line@.len(),
            chars@ == line@.skip(open_idx as int),
            chars.len() == line_len - open_idx,
            line@[open_idx as int] == open,
            scan_closing(line@, open_idx + i, innestation as nat, open, close)
                == scan_closing(line@, open_idx + 1, 0, open, close),
        decreases chars.len() - i,
    {
        let c = chars[i];
        assert(c == line@[open_idx + i]);
        if c == open {
            innestation = innestation + 1;
        } else if c == close && innestation > 0 {
            innestation = innestation - 1;
        } else if c == close && innestation == 0 {
            return Some(open_idx + i);
        }
        i = i + 1;
    }
    None
}

/// The byte position of what [`matching_close`] finds, if anything.
pub open spec fn matching_close_byte(s: Seq<char>, start: int, open: char, close: char) -> Option<usize> {
    match matching_close(s, start, open, close) {
        Some(j) => Some(byte_position(s, j) as usize),
        None => None,
    }
}

/// The byte position of the `close` that matches the `open` at char
/// position `open_idx` of `line`.
fn find_matching_byte(line: &str, open_idx: usize, open: char, close: char) -> (r: Option<usize>)
    ensures
        r == matching_close_byte(line@, open_idx as int, open, close),
{
    let chars = char_indices_from(line, open_idx);
    if chars.len() == 0 || chars[0].1 != open {
        return None;
    }
    let ghost line_len = line@.len();
    let mut innestation: usize = 0;
    let mut i: usize = 1;
    while i < chars.len()
        invariant
            1 <= i <= chars.len(),
            innestation < i,
            open_idx < line_len,
            line_len == line@.len(),
            chars.len() == line_len - open_idx,
            forall|k: int|
                0 <= k < chars@.len() ==> (#[trigger] chars@[k]).1 == line@[open_idx + k] && chars@[k].0 as int
                    == byte_position(line@, open_idx + k),
            line@[open_idx as int] == open,
            scan_closing(line@, open_idx + i, innestation as nat, open, close)
                == scan_closing(line@, open_idx + 1, 0, open, close),
        decreases chars.len() - i,
    {
        let (idx, c) = chars[i];
        assert(c == line@[open_idx + i]);
        if c == open {
            innestation = innestation + 1;
        } else if c == close && innestation > 0 {
            innestation = innestation - 1;
        } else if c == close && innestation == 0 {
            return Some(idx);
        }
        i = i + 1;
    }
    None
}

/// The byte position of the `)` that closes the `(` at char position
/// `open_paren_idx`, counting the parentheses nested in between; `None`
/// when there is no `(` at that position or it is never closed.
pub fn find_matching_paren(line: &str, open_paren_idx: usize) -> (r: Option<usize>)
    ensures
        r == matching_close_byte(line@, open_paren_idx as int, '(', ')'),
{
    find_matching_byte(line, open_paren_idx, '(', ')')
}

/// The byte position of the `]` that closes the `[` at char position
/// `open_bracket_idx`, counting the brackets nested in between; `None` when
/// there is no `[` at that position or it is never closed.
pub fn find_matching_bracket(line: &str, open_bracket_idx: usize) -> (r: Option<usize>)
    ensures
        r == matching_close_byte(line@, open_bracket_idx as int, '[', ']'),
{
    find_matching_byte(line, open_bracket_idx, '[', ']')
}

} // verus!
