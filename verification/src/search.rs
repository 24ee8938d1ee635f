//! Searching a line for the first position at which a pattern matches.

use vstd::prelude::*;
use vstd::utf8::{encode_utf8, is_char_boundary};

use crate::matchers::alternation::{spec_alternation_from, split_alternatives, Alternation};
use crate::matchers::bounds_law::{lemma_alternation_within_line, match_within};
use crate::matchers::progress_law::lemma_alternation_keeps_progress;
use crate::matchers::{str_get, Match, MatchError, MatchView};

verus! {

/// What matching `pattern` from position `offset` of `line` gives, with
/// no captures yet.
#[verifier::opaque]
pub open spec fn spec_match_at(pattern: Seq<char>, line: Seq<char>, offset: nat) -> Result<
    Result<MatchView, MatchView>,
    MatchError,
> {
    spec_alternation_from(
        split_alternatives(pattern),
        0,
        Seq::empty(),
        None,
        line,
        MatchView { offset: offset as usize, captures: Seq::empty() },
    )
}

/// Trying `pattern` at each byte position of `line` from `offset` on: the
/// first position where it matches, with its match; `None` when it matches
/// nowhere; the error of the first position where matching fails with one.
pub open spec fn spec_search(pattern: Seq<char>, line: Seq<char>, offset: nat) -> Result<
    Option<(usize, MatchView)>,
    MatchError,
>
    decreases encode_utf8(line).len() - offset,
{
    if offset >= encode_utf8(line).len() {
        Ok(None)
    } else {
        match spec_match_at(pattern, line, offset) {
            Err(e) => Err(e),
            Ok(Ok(m)) => Ok(Some((offset as usize, m))),
            Ok(Err(_)) => spec_search(pattern, line, offset + 1),
        }
    }
}

proof fn lemma_search_from(pattern: Seq<char>, line: Seq<char>, start: nat)
    requires
        encode_utf8(line).len() <= usize::MAX,
    ensures
        spec_search(pattern, line, start) matches Ok(Some((o, m))) ==> {
            &&& start <= o < encode_utf8(line).len()
            &&& spec_match_at(pattern, line, o as nat) == Ok::<Result<MatchView, MatchView>, MatchError>(Ok(m))
            &&& forall|p: nat| start <= p < o ==> #[trigger] spec_match_at(pattern, line, p) is Ok
                && spec_match_at(pattern, line, p)->Ok_0 is Err
        },
        spec_search(pattern, line, start) is Ok && spec_search(pattern, line, start)->Ok_0 is None
            ==> forall|p: nat| start <= p < encode_utf8(line).len() ==> #[trigger] spec_match_at(pattern, line, p) is Ok
            && spec_match_at(pattern, line, p)->Ok_0 is Err,
        spec_search(pattern, line, start) matches Err(e) ==> exists|o: nat|
            {
                &&& start <= o < encode_utf8(line).len()
                &&& spec_match_at(pattern, line, o) == Err::<Result<MatchView, MatchView>, MatchError>(e)
                &&& forall|p: nat| start <= p < o ==> #[trigger] spec_match_at(pattern, line, p) is Ok
                    && spec_match_at(pattern, line, p)->Ok_0 is Err
            },
    decreases encode_utf8(line).len() - start,
{
    if start < encode_utf8(line).len() {
        lemma_search_from(pattern, line, start + 1);
        match spec_match_at(pattern, line, start) {
            Ok(Err(_)) => {
                if let Err(e) = spec_search(pattern, line, start + 1) {
                    let o = choose|o: nat|
                        {
                            &&& start + 1 <= o < encode_utf8(line).len()
                            &&& spec_match_at(pattern, line, o) == Err::<Result<MatchView, MatchView>, MatchError>(e)
                            &&& forall|p: nat| start + 1 <= p < o ==> #[trigger] spec_match_at(pattern, line, p) is Ok
                                && spec_match_at(pattern, line, p)->Ok_0 is Err
                        };
                    assert(forall|p: nat| start <= p < o ==> #[trigger] spec_match_at(pattern, line, p) is Ok
                                && spec_match_at(pattern, line, p)->Ok_0 is Err);
                }
            },
            Err(e) => {
                assert(forall|p: nat| start <= p < start ==> #[trigger] spec_match_at(pattern, line, p) is Ok
                            && spec_match_at(pattern, line, p)->Ok_0 is Err);
            },
            _ => {},
        }
    }
}

/// [`regex_match`] finds the leftmost match: the position it gives is one
/// at which the pattern matches, with the match it gives, and the pattern
/// fails to match at every position before it. When it finds none, the
/// pattern fails at every position of the line; when it returns an error,
/// that error comes from the first position at which the pattern does not
/// simply fail.
pub proof fn lemma_regex_match_is_leftmost(pattern: Seq<char>, line: Seq<char>)
    requires
        encode_utf8(line).len() <= usize::MAX,
    ensures
        spec_search(pattern, line, 0) matches Ok(Some((o, m))) ==> {
            &&& o < encode_utf8(line).len()
            &&& spec_match_at(pattern, line, o as nat) == Ok::<Result<MatchView, MatchView>, MatchError>(Ok(m))
            &&& forall|p: nat| p < o ==> #[trigger] spec_match_at(pattern, line, p) is Ok
                && spec_match_at(pattern, line, p)->Ok_0 is Err
        },
        spec_search(pattern, line, 0) is Ok && spec_search(pattern, line, 0)->Ok_0 is None
            ==> forall|p: nat| p < encode_utf8(line).len() ==> #[trigger] spec_match_at(pattern, line, p) is Ok
            && spec_match_at(pattern, line, p)->Ok_0 is Err,
        spec_search(pattern, line, 0) matches Err(e) ==> exists|o: nat|
            {
                &&& o < encode_utf8(line).len()
                &&& spec_match_at(pattern, line, o) == Err::<Result<MatchView, MatchView>, MatchError>(e)
                &&& forall|p: nat| p < o ==> #[trigger] spec_match_at(pattern, line, p) is Ok
                    && spec_match_at(pattern, line, p)->Ok_0 is Err
            },
{
    lemma_search_from(pattern, line, 0);
}

/// The match [`regex_match`] finds lies within the line: it starts at a
/// position of the line, it ends no earlier than it starts, and the offset
/// it ends at and the start and end of each of its captures are positions
/// of the line or its very end.
pub proof fn lemma_regex_match_within_line(pattern: Seq<char>, line: Seq<char>)
    requires
        encode_utf8(line).len() <= usize::MAX,
    ensures
        spec_search(pattern, line, 0) matches Ok(Some((o, m))) ==> o < encode_utf8(line).len() && o
            <= m.offset && match_within(encode_utf8(line).len(), m),
{
    lemma_regex_match_is_leftmost(pattern, line);
    if let Ok(Some((o, m))) = spec_search(pattern, line, 0) {
        reveal(spec_match_at);
        let start = MatchView { offset: o, captures: Seq::empty() };
        lemma_alternation_within_line(split_alternatives(pattern), 0, Seq::empty(), None, line, start);
        lemma_alternation_keeps_progress(split_alternatives(pattern), 0, Seq::empty(), None, line, start);
    }
}

/// The mathematical value of what [`regex_match`] returns.
pub open spec fn search_view(r: Result<Option<(usize, Match)>, MatchError>) -> Result<
    Option<(usize, MatchView)>,
    MatchError,
> {
    match r {
        Ok(Some((offset, m))) => Ok(Some((offset, m@))),
        Ok(None) => Ok(None),
        Err(e) => Err(e),
    }
}

/// The first byte position of `line` at which `pattern` matches, with the
/// match found there (its offset is where the matched text ends).
pub fn regex_match(pattern: &str, line: &str) -> (r: Result<Option<(usize, Match)>, MatchError>)
    ensures
        search_view(r) == spec_search(pattern@, line@, 0),
{
    let line_len = line.as_bytes().len();
    let mut offset: usize = 0;
    while offset < line_len
        invariant
            offset <= line_len,
            line_len == encode_utf8(line@).len(),
            spec_search(pattern@, line@, offset as nat) == spec_search(pattern@, line@, 0),
        decreases line_len - offset,
    {
        let matcher = Alternation::new(pattern, "", None);
        proof {
            reveal_strlit("");
            assert(""@ =~= Seq::<char>::empty());
        }
        let this_match = Match::new(offset);
        proof {
            reveal(spec_match_at);
        }
        match matcher.extend(line, this_match) {
            Err(e) => {
                return Err(e);
            },
            Ok(Ok(this_match)) => {
                return Ok(Some((offset, this_match)));
            },
            Ok(Err(_)) => {},
        }
        offset = offset + 1;
    }
    Ok(None)
}

/// The text of `line` between byte positions `start` and `end`; `None`
/// when that is no slice of the line.
pub fn matched_text<'a>(line: &'a str, start: usize, end: usize) -> (r: Option<&'a str>)
    ensures
        r is Some <==> (start <= end <= encode_utf8(line@).len() && is_char_boundary(
            encode_utf8(line@),
            start as int,
        ) && is_char_boundary(encode_utf8(line@), end as int)),
        r matches Some(t) ==> encode_utf8(t@) == encode_utf8(line@).subrange(start as int, end as int),
{
    str_get(line, start, end)
}

} // verus!
