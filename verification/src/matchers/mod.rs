//! Matchers of a backtracking regular expression engine, and the match
//! state they thread through each other.
//!
//! An offset into the input line is read two ways: the single-character
//! classes take the character at that char position, while `$`, literal
//! text and back-references take it as a byte position into the line's
//! UTF-8 bytes; captures record offsets. The two agree on ASCII lines.
//! The lengths that matchers report count the bytes of their pattern text,
//! and the parser moves on through the pattern by those lengths.

use vstd::prelude::*;
use vstd::utf8::{encode_utf8, is_char_boundary};

pub mod alphanumeric;
pub mod alternation;
pub mod alternation_law;
pub mod backref;
pub mod bounds_law;
pub mod captures_law;
pub mod capturing_group;
pub mod char_group;
pub mod classes_law;
pub mod digit;
pub mod end_of_string;
pub mod literal;
pub mod literal_law;
pub mod one_or_more_quantifier;
pub mod pattern;
pub mod progress_law;
pub mod repetition;
pub mod repetition_law;
pub mod start_of_string;
pub mod wildcard;
pub mod zero_or_more_quantifier;
pub mod zero_or_one_quantifier;

use self::alphanumeric::{spec_alphanumeric, AlphanumericCharacterClass};
use self::backref::{spec_backref, Backref};
use self::capturing_group::{spec_group, CapturingGroupCharacterClass};
use self::char_group::{spec_char_group, CharGroupCharacterClass};
use self::digit::{spec_digit, DigitCharacterClass};
use self::end_of_string::{spec_end_of_line, EndOfLineCharacterClass};
use self::literal::{spec_literal_char, LiteralCharCharacterClass};
use self::one_or_more_quantifier::{spec_one_or_more, OneOrMoreQuantifer};
use self::start_of_string::{spec_start_of_line, StartOfLineCharacterClass};
use self::wildcard::{spec_wildcard, WildcardCharacterClass};
use self::zero_or_more_quantifier::{spec_zero_or_more, ZeroOrMoreQuantifier};
use self::zero_or_one_quantifier::{spec_zero_or_one, ZeroOrOneQuantifier};

verus! {

/// One capturing group's span in the input line. `end` is `None` while the
/// group is still open.
#[derive(Clone, Copy, Debug)]
pub struct Capture {
    pub start: usize,
    pub end: Option<usize>,
}

impl Capture {
    /// The capture that padding inserts: starts at 0, not closed.
    pub open spec fn spec_default() -> Capture {
        Capture { start: 0, end: None }
    }
}

impl Default for Capture {
    fn default() -> (c: Capture)
        ensures
            c == Capture::spec_default(),
    {
        Capture { start: 0, end: None }
    }
}

/// The state of a match in progress: the offset reached in the input line
/// and the captures recorded so far.
#[derive(Debug)]
pub struct Match {
    pub offset: usize,
    pub captures: Vec<Capture>,
}

/// The mathematical value of a [`Match`].
pub struct MatchView {
    pub offset: usize,
    pub captures: Seq<Capture>,
}

impl View for Match {
    type V = MatchView;

    open spec fn view(&self) -> MatchView {
        MatchView { offset: self.offset, captures: self.captures@ }
    }
}

impl Default for Match {
    fn default() -> (m: Match)
        ensures
            m@ == (MatchView { offset: 0, captures: Seq::empty() }),
    {
        Match { offset: 0, captures: Vec::new() }
    }
}

/// Why a pattern cannot be run to completion. Each variant stands for a
/// point at which the engine gives up on the pattern or the input.
#[derive(Clone, Copy, Debug, PartialEq, Eq, Structural)]
pub enum MatchError {
    /// The pattern ends with a lone backslash.
    UnterminatedEscape,
    /// A backslash is followed by a character that is no known escape.
    UnrecognizedEscape,
    /// A `(` without its `)`, a `[` without its `]`, or a leading `)`.
    UnterminatedCapturingGroup,
    /// A `[` at the very end of the pattern, or a leading `]`.
    UnterminatedGroup,
    /// A back-reference names a capture that does not exist yet.
    BackrefOutOfRange,
    /// A back-reference names a capture that is not closed yet.
    UnclosedCapture,
    /// A back-reference names a capture whose span is not a slice of the line.
    CaptureOutOfLine,
    /// An index or offset computation leaves the range of `usize`.
    ArithmeticOverflow,
    /// A repetition matched without consuming input, so it would repeat forever.
    EndlessRepetition,
}

/// `Ok` holds the extended match, `Err` the match to try the next
/// alternative with.
pub type MatchResult = Result<Match, Match>;

/// The mathematical value of what a matcher returns.
pub type SpecOutcome = Result<Result<MatchView, MatchView>, MatchError>;

/// The mathematical value of what a matcher returns.
pub open spec fn outcome_view(r: Result<MatchResult, MatchError>) -> SpecOutcome {
    match r {
        Ok(Ok(m)) => Ok(Ok(m@)),
        Ok(Err(m)) => Ok(Err(m@)),
        Err(e) => Err(e),
    }
}

/// The match moved `n` positions further.
pub open spec fn advanced(m: MatchView, n: int) -> MatchView {
    MatchView { offset: (m.offset + n) as usize, captures: m.captures }
}

/// The match put back at `offset`, with its captures cut to `len` entries
/// (kept as they are when there are fewer).
pub open spec fn restored(m: MatchView, offset: usize, len: int) -> MatchView {
    MatchView {
        offset,
        captures: if len <= m.captures.len() { m.captures.take(len) } else { m.captures },
    }
}

/// The captures after recording `offset` as the end of capture `idx`,
/// padding with default captures up to `idx` first.
pub open spec fn inserted_at(caps: Seq<Capture>, idx: usize, offset: usize) -> Seq<Capture> {
    let padded = if idx >= caps.len() {
        caps + Seq::new((idx + 1 - caps.len()) as nat, |i: int| Capture::spec_default())
    } else {
        caps
    };
    padded.update(idx as int, Capture { start: padded[idx as int].start, end: Some(offset) })
}

/// Recording the end of capture `idx` makes it exist and closes it at
/// `offset`, keeping its start; every other capture stays as it was, and
/// any added before it are default ones.
pub proof fn lemma_inserted_at(caps: Seq<Capture>, idx: usize, offset: usize)
    ensures
        inserted_at(caps, idx, offset).len() == if idx < caps.len() {
            caps.len() as int
        } else {
            idx + 1
        },
        inserted_at(caps, idx, offset)[idx as int].end == Some(offset),
        inserted_at(caps, idx, offset)[idx as int].start == if idx < caps.len() {
            caps[idx as int].start
        } else {
            0
        },
        forall|j: int|
            0 <= j < inserted_at(caps, idx, offset).len() && j != idx ==> #[trigger] inserted_at(
                caps,
                idx,
                offset,
            )[j] == if j < caps.len() {
                caps[j]
            } else {
                Capture::spec_default()
            },
{
}

/// A string has no more characters than bytes.
pub proof fn lemma_chars_within_bytes(s: Seq<char>)
    ensures
        s.len() <= encode_utf8(s).len(),
    decreases s.len(),
{
    if s.len() > 0 {
        lemma_chars_within_bytes(s.drop_first());
        assert(encode_utf8(s) == vstd::utf8::encode_scalar(s[0] as u32) + encode_utf8(s.drop_first()));
        assert(vstd::utf8::encode_scalar(s[0] as u32).len() >= 1);
    }
}

/// The number of closed captures.
pub open spec fn closed_count(caps: Seq<Capture>) -> nat
    decreases caps.len(),
{
    if caps.len() == 0 {
        0
    } else {
        closed_count(caps.drop_last()) + if caps.last().end is Some { 1nat } else { 0nat }
    }
}

/// The bytes of `s` from byte `start` to byte `end`, when both are
/// character boundaries and `start <= end <= ` the byte length.
///
/// Calls `str::get` with the range `start..end`, which std documents as
/// returning the subslice exactly where indexing with that range would not
/// panic: both ends on character boundaries, in order, and within the string.
#[verifier::external_body]
pub(crate) fn str_get(s: &str, start: usize, end: usize) -> (r: Option<&str>)
    ensures
        r is Some <==> (start <= end <= encode_utf8(s@).len() && is_char_boundary(
            encode_utf8(s@),
            start as int,
        ) && is_char_boundary(encode_utf8(s@), end as int)),
        r matches Some(t) ==> encode_utf8(t@) == encode_utf8(s@).subrange(start as int, end as int),
{
    s.get(start..end)
}

/// The character at char position `i` of `line`, if there is one.
pub(crate) fn char_at(line: &str, i: usize) -> (c: Option<char>)
    ensures
        c == (if i < line@.len() { Some(line@[i as int]) } else { None::<char> }),
        line@.len() <= usize::MAX,
{
    if i < line.unicode_len() {
        Some(line.get_char(i))
    } else {
        None
    }
}

/// A pattern element that extends a match over an input line.
pub trait Matcher {
    /// The length the matcher reports: the byte length of the pattern text
    /// it stands for, except that a character class (a literal character,
    /// escaped or not, `.`, `^` or `$`) reports 1 and a class written with
    /// a backslash and a letter or digit reports 2.
    spec fn spec_len(&self) -> nat;

    /// What [`Matcher::extend_from`] returns.
    spec fn spec_extend_from(&self, input_line: Seq<char>, previous_match: MatchView) -> SpecOutcome;

    fn len(&self) -> (n: usize)
        requires
            self.spec_len() <= usize::MAX,
        ensures
            n == self.spec_len(),
    ;

    /// Tries to extend `previous_match` over `input_line`.
    /// A failure hands back `previous_match` as it was; a success never
    /// ends before it.
    fn extend_from(&self, input_line: &str, previous_match: Match) -> (r: Result<MatchResult, MatchError>)
        ensures
            outcome_view(r) == self.spec_extend_from(input_line@, previous_match@),
            r matches Ok(Err(q)) ==> q@ == previous_match@,
            r matches Ok(Ok(q)) ==> q.offset >= previous_match.offset,
    ;
}

/// The three repetition operators.
#[derive(Clone, Copy, Debug, PartialEq, Eq, Structural)]
pub enum Quantifier {
    /// `+`
    OneOrMore,
    /// `?`
    ZeroOrOne,
    /// `*`
    ZeroOrMore,
}

/// The mathematical value of a matcher built from a pattern.
pub enum SpecMatcher {
    Digit,
    Alphanumeric,
    Literal(char),
    CharGroup { chars: Seq<char>, is_positive: bool },
    Wildcard,
    StartOfLine,
    EndOfLine,
    Backref(usize),
    Group { idx: usize, inner_scope: Seq<char>, rest_of_outer_scope: Seq<char> },
    Quantified {
        quantifier: Quantifier,
        inner: Box<SpecMatcher>,
        rest_of_inner_scope: Seq<char>,
        group_idx: Option<usize>,
        rest_of_outer_scope: Seq<char>,
    },
}

/// A size that every call a matcher makes into the rest of the pattern
/// goes down from; it measures the recursion of the engine.
pub open spec fn weight(mt: SpecMatcher) -> nat
    decreases mt,
{
    match mt {
        SpecMatcher::Group { inner_scope, rest_of_outer_scope, .. } => inner_scope.len()
            + rest_of_outer_scope.len() + 1,
        SpecMatcher::Quantified { inner, rest_of_inner_scope, rest_of_outer_scope, .. } => {
            let w = weight(*inner) + 1;
            let r = rest_of_inner_scope.len() + rest_of_outer_scope.len() + 1;
            if w >= r {
                w
            } else {
                r
            }
        },
        _ => 1,
    }
}

/// The weight of a quantified matcher: more than its inner matcher's, and
/// more than the length of what follows it.
pub open spec fn quantified_weight(
    inner: SpecMatcher,
    rest_of_inner_scope: Seq<char>,
    rest_of_outer_scope: Seq<char>,
) -> nat {
    let w = weight(inner) + 1;
    let r = rest_of_inner_scope.len() + rest_of_outer_scope.len() + 1;
    if w >= r {
        w
    } else {
        r
    }
}

/// The length a matcher reports, as [`Matcher::spec_len`] says.
pub open spec fn spec_matcher_byte_len(mt: SpecMatcher) -> nat
    decreases mt,
{
    match mt {
        SpecMatcher::Digit => 2,
        SpecMatcher::Alphanumeric => 2,
        SpecMatcher::Literal(_) => 1,
        SpecMatcher::CharGroup { chars, is_positive } => if is_positive {
            encode_utf8(chars).len() + 2
        } else {
            encode_utf8(chars).len() + 3
        },
        SpecMatcher::Wildcard => 1,
        SpecMatcher::StartOfLine => 1,
        SpecMatcher::EndOfLine => 1,
        SpecMatcher::Backref(_) => 2,
        SpecMatcher::Group { inner_scope, .. } => encode_utf8(inner_scope).len() + 2,
        SpecMatcher::Quantified { inner, .. } => spec_matcher_byte_len(*inner) + 1,
    }
}

/// What a matcher does to a match over `line`.
pub open spec fn spec_matcher(mt: SpecMatcher, line: Seq<char>, m: MatchView) -> SpecOutcome
    decreases weight(mt), 4nat, 0nat,
{
    match mt {
        SpecMatcher::Digit => spec_digit(line, m),
        SpecMatcher::Alphanumeric => spec_alphanumeric(line, m),
        SpecMatcher::Literal(c) => spec_literal_char(c, line, m),
        SpecMatcher::CharGroup { chars, is_positive } => spec_char_group(chars, is_positive, line, m),
        SpecMatcher::Wildcard => spec_wildcard(line, m),
        SpecMatcher::StartOfLine => spec_start_of_line(m),
        SpecMatcher::EndOfLine => spec_end_of_line(line, m),
        SpecMatcher::Backref(idx) => spec_backref(idx, line, m),
        SpecMatcher::Group { idx, inner_scope, rest_of_outer_scope } => spec_group(
            idx,
            inner_scope,
            rest_of_outer_scope,
            line,
            m,
        ),
        SpecMatcher::Quantified {
            quantifier,
            inner,
            rest_of_inner_scope,
            group_idx,
            rest_of_outer_scope,
        } => match quantifier {
            Quantifier::OneOrMore => spec_one_or_more(
                *inner,
                rest_of_inner_scope,
                group_idx,
                rest_of_outer_scope,
                line,
                m,
            ),
            Quantifier::ZeroOrOne => spec_zero_or_one(
                *inner,
                rest_of_inner_scope,
                group_idx,
                rest_of_outer_scope,
                line,
                m,
            ),
            Quantifier::ZeroOrMore => spec_zero_or_more(
                *inner,
                rest_of_inner_scope,
                group_idx,
                rest_of_outer_scope,
                line,
                m,
            ),
        },
    }
}

/// Any of the matchers that a pattern is made of.
pub enum AnyMatcher<'pattern> {
    Digit(DigitCharacterClass),
    Alphanumeric(AlphanumericCharacterClass),
    Literal(LiteralCharCharacterClass),
    CharGroup(CharGroupCharacterClass<'pattern>),
    Wildcard(WildcardCharacterClass),
    StartOfLine(StartOfLineCharacterClass),
    EndOfLine(EndOfLineCharacterClass),
    Backref(Backref),
    Group(CapturingGroupCharacterClass<'pattern>),
    OneOrMore(OneOrMoreQuantifer<'pattern>),
    ZeroOrOne(ZeroOrOneQuantifier<'pattern>),
    ZeroOrMore(ZeroOrMoreQuantifier<'pattern>),
}

/// The mathematical value of a matcher.
pub open spec fn matcher_view(m: AnyMatcher) -> SpecMatcher
    decreases m,
{
    match m {
        AnyMatcher::Digit(_) => SpecMatcher::Digit,
        AnyMatcher::Alphanumeric(_) => SpecMatcher::Alphanumeric,
        AnyMatcher::Literal(l) => SpecMatcher::Literal(l.0),
        AnyMatcher::CharGroup(g) => SpecMatcher::CharGroup { chars: g.chars@, is_positive: g.is_positive },
        AnyMatcher::Wildcard(_) => SpecMatcher::Wildcard,
        AnyMatcher::StartOfLine(_) => SpecMatcher::StartOfLine,
        AnyMatcher::EndOfLine(_) => SpecMatcher::EndOfLine,
        AnyMatcher::Backref(b) => SpecMatcher::Backref(b.idx()),
        AnyMatcher::Group(g) => SpecMatcher::Group {
            idx: g.idx(),
            inner_scope: g.inner_scope(),
            rest_of_outer_scope: g.rest_of_outer_scope(),
        },
        AnyMatcher::OneOrMore(q) => SpecMatcher::Quantified {
            quantifier: Quantifier::OneOrMore,
            inner: Box::new(matcher_view(*q.inner_matcher)),
            rest_of_inner_scope: q.rest_of_inner_scope@,
            group_idx: q.group_idx,
            rest_of_outer_scope: q.rest_of_outer_scope@,
        },
        AnyMatcher::ZeroOrOne(q) => SpecMatcher::Quantified {
            quantifier: Quantifier::ZeroOrOne,
            inner: Box::new(matcher_view(*q.matcher)),
            rest_of_inner_scope: q.rest_of_inner_scope@,
            group_idx: q.group_idx,
            rest_of_outer_scope: q.rest_of_outer_scope@,
        },
        AnyMatcher::ZeroOrMore(q) => SpecMatcher::Quantified {
            quantifier: Quantifier::ZeroOrMore,
            inner: Box::new(matcher_view(*q.inner_matcher)),
            rest_of_inner_scope: q.rest_of_inner_scope@,
            group_idx: q.group_idx,
            rest_of_outer_scope: q.rest_of_outer_scope@,
        },
    }
}

impl<'pattern> View for AnyMatcher<'pattern> {
    type V = SpecMatcher;

    open spec fn view(&self) -> SpecMatcher {
        matcher_view(*self)
    }
}

impl<'pattern> AnyMatcher<'pattern> {
    /// The length the matcher reports (see [`Matcher::spec_len`]).
    pub fn len(&self) -> (n: usize)
        requires
            spec_matcher_byte_len(self@) <= usize::MAX,
        ensures
            n == spec_matcher_byte_len(self@),
        decreases self,
    {
        match self {
            AnyMatcher::Digit(m) => m.len(),
            AnyMatcher::Alphanumeric(m) => m.len(),
            AnyMatcher::Literal(m) => m.len(),
            AnyMatcher::CharGroup(m) => m.len(),
            AnyMatcher::Wildcard(m) => m.len(),
            AnyMatcher::StartOfLine(m) => m.len(),
            AnyMatcher::EndOfLine(m) => m.len(),
            AnyMatcher::Backref(m) => m.len(),
            AnyMatcher::Group(m) => m.len(),
            AnyMatcher::OneOrMore(q) => q.inner_matcher.len() + 1,
            AnyMatcher::ZeroOrOne(q) => q.matcher.len() + 1,
            AnyMatcher::ZeroOrMore(q) => q.inner_matcher.len() + 1,
        }
    }

    /// Tries to extend `previous_match` over `input_line` with this matcher.
    pub fn extend(&self, input_line: &str, previous_match: Match) -> (r: Result<MatchResult, MatchError>)
        ensures
            outcome_view(r) == spec_matcher(self@, input_line@, previous_match@),
            r matches Ok(Err(q)) ==> q@ == previous_match@,
        r matches Ok(Ok(q)) ==> q.offset >= previous_match.offset,
        decreases weight(self@), 4nat, 0nat,
    {
        match self {
            AnyMatcher::Digit(m) => m.extend_from(input_line, previous_match),
            AnyMatcher::Alphanumeric(m) => m.extend_from(input_line, previous_match),
            AnyMatcher::Literal(m) => m.extend_from(input_line, previous_match),
            AnyMatcher::CharGroup(m) => m.extend_from(input_line, previous_match),
            AnyMatcher::Wildcard(m) => m.extend_from(input_line, previous_match),
            AnyMatcher::StartOfLine(m) => m.extend_from(input_line, previous_match),
            AnyMatcher::EndOfLine(m) => m.extend_from(input_line, previous_match),
            AnyMatcher::Backref(m) => m.extend_from(input_line, previous_match),
            AnyMatcher::Group(m) => m.extend(input_line, previous_match),
            AnyMatcher::OneOrMore(q) => q.extend(input_line, previous_match),
            AnyMatcher::ZeroOrOne(q) => q.extend(input_line, previous_match),
            AnyMatcher::ZeroOrMore(q) => q.extend(input_line, previous_match),
        }
    }
}

impl<'pattern> Matcher for AnyMatcher<'pattern> {
    open spec fn spec_len(&self) -> nat {
        spec_matcher_byte_len(self@)
    }

    open spec fn spec_extend_from(&self, input_line: Seq<char>, previous_match: MatchView) -> SpecOutcome {
        spec_matcher(self@, input_line, previous_match)
    }

    fn len(&self) -> (n: usize) {
        AnyMatcher::len(self)
    }

    fn extend_from(&self, input_line: &str, previous_match: Match) -> (r: Result<MatchResult, MatchError>) {
        self.extend(input_line, previous_match)
    }
}

/// Recording the end of a capture at a given index.
pub trait InsertAt<T: Default> {
    fn insert_at(&mut self, idx: usize, item: T);
}

impl InsertAt<usize> for Vec<Capture> {
    /// Records `offset` as the end of capture `idx`; captures that do not
    /// exist yet up to `idx` are added as default ones first.
    fn insert_at(&mut self, idx: usize, offset: usize)
        ensures
            final(self)@ == inserted_at(old(self)@, idx, offset),
    {
        let ghost caps0 = self@;
        if idx >= self.len() {
            while self.len() <= idx
                invariant
                    caps0.len() <= self.len() <= idx + 1,
                    idx >= caps0.len(),
                    self@ == caps0 + Seq::new(
                        (self.len() - caps0.len()) as nat,
                        |i: int| Capture::spec_default(),
                    ),
                decreases idx + 1 - self.len(),
            {
                self.push(Capture::default());
            }
        }
        let start = self[idx].start;
        self.set(idx, Capture { start, end: Some(offset) });
        assert(self@ == inserted_at(caps0, idx, offset));
    }
}

/// A copy of `m`.
pub(crate) fn copy_match(m: &Match) -> (r: Match)
    ensures
        r@ == m@,
{
    let mut captures: Vec<Capture> = Vec::new();
    let mut i: usize = 0;
    while i < m.captures.len()
        invariant
            i <= m.captures.len(),
            captures@ == m.captures@.take(i as int),
        decreases m.captures.len() - i,
    {
        captures.push(m.captures[i]);
        assert(captures@ =~= m.captures@.take(i + 1));
        i = i + 1;
    }
    assert(captures@ =~= m.captures@);
    Match { offset: m.offset, captures }
}

impl Match {
    /// A match at `offset` with no captures.
    pub fn new(offset: usize) -> (m: Match)
        ensures
            m@ == (MatchView { offset, captures: Seq::empty() }),
    {
        Match { offset, captures: Vec::new() }
    }

    /// Puts the match back at `previous_offset` and drops the captures from
    /// index `previous_captures_len` on.
    pub fn rollback(self, previous_offset: usize, previous_captures_len: usize) -> (m: Match)
        requires
            previous_captures_len <= self.captures.len(),
        ensures
            m@.offset == previous_offset,
            m@.captures == self@.captures.take(previous_captures_len as int),
            m@ == restored(self@, previous_offset, previous_captures_len as int),
    {
        let mut s = self;
        s.offset = previous_offset;
        s.captures.truncate(previous_captures_len);
        s
    }

    /// The match moved `rhs` positions further.
    pub fn add(self, rhs: usize) -> (m: Match)
        requires
            self.offset + rhs <= usize::MAX,
        ensures
            m@ == advanced(self@, rhs as int),
    {
        let mut s = self;
        s.offset = s.offset + rhs;
        s
    }

    /// Moves the match `rhs` positions further.
    pub fn add_assign(&mut self, rhs: usize)
        requires
            old(self).offset + rhs <= usize::MAX,
        ensures
            final(self)@ == advanced(old(self)@, rhs as int),
    {
        self.offset = self.offset + rhs;
    }

    /// The match moved `rhs` positions back.
    pub fn sub(self, rhs: usize) -> (m: Match)
        requires
            rhs <= self.offset,
        ensures
            m@ == advanced(self@, -rhs),
    {
        let mut s = self;
        s.offset = s.offset - rhs;
        s
    }

    /// Moves the match `rhs` positions back.
    pub fn sub_assign(&mut self, rhs: usize)
        requires
            rhs <= old(self).offset,
        ensures
            final(self)@ == advanced(old(self)@, -rhs),
    {
        self.offset = self.offset - rhs;
    }

    /// Appends another match: the offsets add up and its captures follow
    /// this match's captures.
    pub fn add_assign_match(&mut self, rhs: Match)
        requires
            old(self).offset + rhs.offset <= usize::MAX,
        ensures
            final(self)@.offset == old(self)@.offset + rhs.offset,
            final(self)@.captures == old(self)@.captures + rhs@.captures,
    {
        let mut rhs = rhs;
        self.offset = self.offset + rhs.offset;
        self.captures.append(&mut rhs.captures);
    }

    /// This match with another one appended, as [`Match::add_assign_match`].
    pub fn add_match(self, rhs: Match) -> (m: Match)
        requires
            self.offset + rhs.offset <= usize::MAX,
        ensures
            m@.offset == self@.offset + rhs.offset,
            m@.captures == self@.captures + rhs@.captures,
    {
        let mut s = self;
        s.add_assign_match(rhs);
        s
    }
}

} // verus!
