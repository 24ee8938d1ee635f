use vstd::prelude::*;
use vstd::utf8::encode_utf8;

use super::alphanumeric::AlphanumericCharacterClass;
use super::backref::Backref;
use super::capturing_group::CapturingGroupCharacterClass;
use super::char_group::CharGroupCharacterClass;
use super::digit::DigitCharacterClass;
use super::end_of_string::EndOfLineCharacterClass;
use super::literal::LiteralCharCharacterClass;
use super::one_or_more_quantifier::OneOrMoreQuantifer;
use super::start_of_string::StartOfLineCharacterClass;
use super::wildcard::WildcardCharacterClass;
use super::zero_or_more_quantifier::ZeroOrMoreQuantifier;
use super::zero_or_one_quantifier::ZeroOrOneQuantifier;
use super::{
    closed_count, copy_match, lemma_chars_within_bytes, outcome_view, spec_matcher, spec_matcher_byte_len,
    weight, AnyMatcher, Capture, Match,
    MatchError, MatchResult, MatchView, Matcher, Quantifier, SpecMatcher, SpecOutcome,
};
use super::alternation::lemma_encode_concat;
use crate::utils::{
    byte_index, byte_index_of, find_matching, lemma_byte_index, lemma_matching_close, lemma_scan_closing,
    matching_close,
};

verus! {

/// The matcher for `\c`, if `c` is a known escape: `\d`, `\w`, a backslash
/// or operator character standing for itself, or `\1` to `\9`.
pub open spec fn escape_class(c: char) -> Option<SpecMatcher> {
    if c == 'd' {
        Some(SpecMatcher::Digit)
    } else if c == 'w' {
        Some(SpecMatcher::Alphanumeric)
    } else if c == '\\' || c == '?' || c == '^' || c == '+' || c == '.' || c == '*' || c == '['
        || c == ']' || c == '(' || c == ')' || c == '|' {
        Some(SpecMatcher::Literal(c))
    } else if '1' <= c <= '9' {
        Some(SpecMatcher::Backref((c as u32 - '1' as u32) as usize))
    } else {
        None
    }
}

/// The quantifier that `c` stands for, if any.
pub open spec fn quantifier_of(c: char) -> Option<Quantifier> {
    if c == '+' {
        Some(Quantifier::OneOrMore)
    } else if c == '?' {
        Some(Quantifier::ZeroOrOne)
    } else if c == '*' {
        Some(Quantifier::ZeroOrMore)
    } else {
        None
    }
}

/// The class at the start of `regex` (which is not empty), and whether it
/// is a capturing group.
pub open spec fn spec_first_class(regex: Seq<char>, next_group_idx: usize) -> Result<
    (SpecMatcher, bool),
    MatchError,
> {
    let c = regex[0];
    if c == '\\' {
        if regex.len() < 2 {
            Err(MatchError::UnterminatedEscape)
        } else {
            match escape_class(regex[1]) {
                Some(mt) => Ok((mt, false)),
                None => Err(MatchError::UnrecognizedEscape),
            }
        }
    } else if c == '(' {
        match matching_close(regex, 0, '(', ')') {
            None => Err(MatchError::UnterminatedCapturingGroup),
            Some(end) => Ok(
                (
                    SpecMatcher::Group {
                        idx: next_group_idx,
                        inner_scope: regex.subrange(1, end),
                        rest_of_outer_scope: regex.skip(end + 1),
                    },
                    true,
                ),
            ),
        }
    } else if c == '[' {
        if regex.len() < 2 {
            Err(MatchError::UnterminatedGroup)
        } else {
            let is_positive = regex[1] != '^';
            let group_start: int = if is_positive {
                1
            } else {
                2
            };
            match matching_close(regex, 0, '[', ']') {
                None => Err(MatchError::UnterminatedCapturingGroup),
                Some(end) => Ok(
                    (
                        SpecMatcher::CharGroup {
                            chars: regex.subrange(group_start, end),
                            is_positive,
                        },
                        false,
                    ),
                ),
            }
        }
    } else if c == '.' {
        Ok((SpecMatcher::Wildcard, false))
    } else if c == '^' {
        Ok((SpecMatcher::StartOfLine, false))
    } else if c == '$' {
        Ok((SpecMatcher::EndOfLine, false))
    } else if c == ')' {
        Err(MatchError::UnterminatedCapturingGroup)
    } else if c == ']' {
        Err(MatchError::UnterminatedGroup)
    } else {
        Ok((SpecMatcher::Literal(c), false))
    }
}

/// The pattern text after a quantifier that follows a class whose reported
/// length is `class_len` bytes: the rest of `regex` from byte
/// `class_len + 1` on, or nothing when that is no character boundary.
pub open spec fn rest_after_quantifier(regex: Seq<char>, class_len: nat) -> Seq<char> {
    match byte_index(regex, class_len + 1 as int) {
        Some(i) => regex.skip(i),
        None => Seq::empty(),
    }
}

/// `class` with the quantifier that follows it in `regex`, if one does:
/// the quantifier is looked up at the char position given by the length
/// the class reports (its byte length), as the pattern's own code does.
pub open spec fn spec_quantified(
    class: SpecMatcher,
    regex: Seq<char>,
    outer: Seq<char>,
    group_idx: Option<usize>,
) -> SpecMatcher {
    let class_len = spec_matcher_byte_len(class);
    if class_len < regex.len() && quantifier_of(regex[class_len as int]) is Some {
        SpecMatcher::Quantified {
            quantifier: quantifier_of(regex[class_len as int])->0,
            inner: Box::new(class),
            rest_of_inner_scope: rest_after_quantifier(regex, class_len),
            group_idx,
            rest_of_outer_scope: outer,
        }
    } else {
        class
    }
}

/// The matcher for the start of `regex`, and whether it is a capturing
/// group; `None` for an empty pattern.
pub open spec fn spec_next_matcher(
    regex: Seq<char>,
    outer: Seq<char>,
    group_idx: Option<usize>,
    next_group_idx: usize,
) -> Result<Option<(SpecMatcher, bool)>, MatchError> {
    if regex.len() == 0 {
        Ok(None)
    } else {
        match spec_first_class(regex, next_group_idx) {
            Err(e) => Err(e),
            Ok((class, is_in_group)) => Ok(
                Some((spec_quantified(class, regex, outer, group_idx), is_in_group)),
            ),
        }
    }
}

/// What is left of `regex` after its first matcher `mt`: the rest of the
/// pattern from the byte position given by the length `mt` reports; `None`
/// when that is no character boundary or nothing is left.
pub open spec fn pattern_rest(regex: Seq<char>, mt: SpecMatcher) -> Option<Seq<char>> {
    match byte_index(regex, spec_matcher_byte_len(mt) as int) {
        Some(i) => if i < regex.len() {
            Some(regex.skip(i))
        } else {
            None
        },
        None => None,
    }
}

/// A slice of a string takes no more bytes than the string less one byte
/// for each character around the slice.
proof fn lemma_slice_bytes(s: Seq<char>, a: int, b: int)
    requires
        0 <= a <= b <= s.len(),
    ensures
        a + encode_utf8(s.subrange(a, b)).len() + (s.len() - b) <= encode_utf8(s).len(),
{
    assert(s =~= s.take(a) + s.subrange(a, b) + s.skip(b));
    lemma_encode_concat(s.take(a) + s.subrange(a, b), s.skip(b));
    lemma_encode_concat(s.take(a), s.subrange(a, b));
    lemma_chars_within_bytes(s.take(a));
    lemma_chars_within_bytes(s.skip(b));
}

/// The first class of a pattern reports at least one and at most all of
/// the pattern's bytes, and weighs no more than the pattern.
pub proof fn lemma_first_class(regex: Seq<char>, next_group_idx: usize)
    requires
        regex.len() > 0,
    ensures
        spec_first_class(regex, next_group_idx) matches Ok((class, _)) ==> {
            &&& 1 <= spec_matcher_byte_len(class) <= encode_utf8(regex).len()
            &&& weight(class) + 1 <= regex.len() || weight(class) == 1
            &&& weight(class) <= regex.len()
        },
{
    lemma_matching_close(regex, 0, '(', ')');
    lemma_matching_close(regex, 0, '[', ']');
    lemma_chars_within_bytes(regex);
    if let Ok((class, _)) = spec_first_class(regex, next_group_idx) {
        match class {
            SpecMatcher::Group { inner_scope, .. } => {
                let end = matching_close(regex, 0, '(', ')')->0;
                lemma_slice_bytes(regex, 1, end);
            },
            SpecMatcher::CharGroup { chars, is_positive } => {
                let end = matching_close(regex, 0, '[', ']')->0;
                if is_positive {
                    lemma_slice_bytes(regex, 1, end);
                } else {
                    lemma_scan_closing(regex, 2, 0, '[', ']');
                    lemma_slice_bytes(regex, 2, end);
                }
            },
            _ => {},
        }
    }
}

/// The matcher a pattern starts with reports at least one and at most all
/// of the pattern's bytes, weighs no more than the pattern and what follows
/// it, and leaves a shorter pattern behind.
pub proof fn lemma_next_matcher(
    regex: Seq<char>,
    outer: Seq<char>,
    group_idx: Option<usize>,
    next_group_idx: usize,
)
    ensures
        spec_next_matcher(regex, outer, group_idx, next_group_idx) matches Ok(Some((mt, _))) ==> {
            &&& 1 <= spec_matcher_byte_len(mt) <= encode_utf8(regex).len()
            &&& weight(mt) <= regex.len() + outer.len()
            &&& pattern_rest(regex, mt) matches Some(r) ==> r.len() < regex.len()
        },
{
    if regex.len() > 0 {
        lemma_first_class(regex, next_group_idx);
        lemma_chars_within_bytes(regex);
        if let Ok((class, _)) = spec_first_class(regex, next_group_idx) {
            let class_len = spec_matcher_byte_len(class);
            lemma_byte_index(regex, class_len + 1 as int);
            let mt = spec_quantified(class, regex, outer, group_idx);
            lemma_byte_index(regex, spec_matcher_byte_len(mt) as int);
        }
    }
}

/// Matching `regex`, then `outer`'s share of what follows the repetitions in
/// it, class by class from the match `m`. `group_idx` is the capture that the
/// pattern belongs to, if it is inside a group. On failure the match `m` it
/// started from is handed back.
pub open spec fn spec_pattern(
    regex: Seq<char>,
    outer: Seq<char>,
    group_idx: Option<usize>,
    line: Seq<char>,
    m: MatchView,
) -> SpecOutcome
    decreases regex.len() + outer.len(), 5nat, 0nat,
{
    let adj_idx: int = match group_idx {
        Some(g) => g + 1,
        None => 0,
    };
    let next_group_idx = adj_idx + closed_count(m.captures);
    if next_group_idx > usize::MAX {
        Err(MatchError::ArithmeticOverflow)
    } else {
        proof {
            lemma_next_matcher(regex, outer, group_idx, next_group_idx as usize);
        }
        match spec_next_matcher(regex, outer, group_idx, next_group_idx as usize) {
            Err(e) => Err(e),
            Ok(None) => Ok(Ok(m)),
            Ok(Some((first_matcher, is_in_group))) => {
                let m1 = if is_in_group {
                    MatchView {
                        offset: m.offset,
                        captures: m.captures.push(Capture { start: m.offset, end: None }),
                    }
                } else {
                    m
                };
                match spec_matcher(first_matcher, line, m1) {
                    Err(e) => Err(e),
                    Ok(Err(_)) => Ok(Err(m)),
                    Ok(Ok(first_match)) => match pattern_rest(regex, first_matcher) {
                        None => Ok(Ok(first_match)),
                        Some(rest) => match spec_pattern(rest, outer, group_idx, line, first_match) {
                            Err(e) => Err(e),
                            Ok(Err(_)) => Ok(Err(m)),
                            Ok(Ok(rest_match)) => Ok(Ok(rest_match)),
                        },
                    },
                }
            },
        }
    }
}

/// The number of closed captures in `captures`.
fn count_closed(captures: &Vec<Capture>) -> (n: usize)
    ensures
        n == closed_count(captures@),
{
    let mut n: usize = 0;
    let mut i: usize = 0;
    while i < captures.len()
        invariant
            i <= captures.len(),
            n <= i,
            n == closed_count(captures@.take(i as int)),
        decreases captures.len() - i,
    {
        assert(captures@.take(i + 1).drop_last() =~= captures@.take(i as int));
        if captures[i].end.is_some() {
            n = n + 1;
        }
        i = i + 1;
    }
    assert(captures@.take(captures.len() as int) =~= captures@);
    n
}

/// The mathematical value of what [`Pattern::next_matcher`] returns.
pub open spec fn next_matcher_view<'a>(r: Result<Option<(AnyMatcher<'a>, bool)>, MatchError>) -> Result<
    Option<(SpecMatcher, bool)>,
    MatchError,
> {
    match r {
        Ok(Some((m, g))) => Ok(Some((m@, g))),
        Ok(None) => Ok(None),
        Err(e) => Err(e),
    }
}

/// A sequence of classes, each possibly quantified, matched one after the
/// other.
#[derive(PartialEq, Eq, Debug)]
pub struct Pattern<'regex> {
    regex: &'regex str,
    rest_of_outer_scope: &'regex str,
    group_idx: Option<usize>,
}

impl<'regex> Pattern<'regex> {
    pub fn new(regex: &'regex str, rest_of_outer_scope: &'regex str, group_idx: Option<usize>) -> (p: Self)
        ensures
            p.regex() == regex@,
            p.rest_of_outer_scope() == rest_of_outer_scope@,
            p.group_idx() == group_idx,
    {
        Self { regex, rest_of_outer_scope, group_idx }
    }

    /// The pattern itself.
    pub closed spec fn regex(&self) -> Seq<char> {
        self.regex@
    }

    /// What follows the repetitions that enclose the pattern.
    pub closed spec fn rest_of_outer_scope(&self) -> Seq<char> {
        self.rest_of_outer_scope@
    }

    /// The capture the pattern is inside of, if any.
    pub closed spec fn group_idx(&self) -> Option<usize> {
        self.group_idx
    }

    /// The matcher for the start of the pattern, and whether it is a
    /// capturing group (which then gets index `next_group_idx`).
    pub fn next_matcher(&self, next_group_idx: usize) -> (r: Result<Option<(AnyMatcher<'regex>, bool)>, MatchError>)
        ensures
            next_matcher_view(r) == spec_next_matcher(
                self.regex(),
                self.rest_of_outer_scope(),
                self.group_idx(),
                next_group_idx,
            ),
    {
        let n = self.regex.unicode_len();
        if n == 0 {
            return Ok(None);
        }
        let n_bytes = self.regex.as_bytes().len();
        proof {
            lemma_first_class(self.regex@, next_group_idx);
            lemma_chars_within_bytes(self.regex@);
        }
        let next_char = self.regex.get_char(0);
        let mut is_in_group = false;
        let next_matcher: AnyMatcher<'regex> = if next_char == '\\' {
            if n < 2 {
                return Err(MatchError::UnterminatedEscape);
            }
            let escaped = self.regex.get_char(1);
            if escaped == 'd' {
                AnyMatcher::Digit(DigitCharacterClass)
            } else if escaped == 'w' {
                AnyMatcher::Alphanumeric(AlphanumericCharacterClass)
            } else if escaped == '\\' || escaped == '?' || escaped == '^' || escaped == '+' || escaped
                == '.' || escaped == '*' || escaped == '[' || escaped == ']' || escaped == '('
                || escaped == ')' || escaped == '|' {
                AnyMatcher::Literal(LiteralCharCharacterClass(escaped))
            } else if '1' <= escaped && escaped <= '9' {
                let backref_idx = (escaped as u32 - '1' as u32) as usize;
                AnyMatcher::Backref(Backref::new(backref_idx))
            } else {
                return Err(MatchError::UnrecognizedEscape);
            }
        } else if next_char == '(' {
            let group_end_idx = match find_matching(self.regex, 0, '(', ')') {
                Some(i) => i,
                None => {
                    return Err(MatchError::UnterminatedCapturingGroup);
                },
            };
            proof {
                lemma_matching_close(self.regex@, 0, '(', ')');
            }
            is_in_group = true;
            let inner_scope = self.regex.substring_char(1, group_end_idx);
            let rest_of_outer_scope = self.regex.substring_char(group_end_idx + 1, n);
            AnyMatcher::Group(CapturingGroupCharacterClass::new(next_group_idx, inner_scope, rest_of_outer_scope))
        } else if next_char == '[' {
            if n < 2 {
                return Err(MatchError::UnterminatedGroup);
            }
            let is_positive = self.regex.get_char(1) != '^';
            let group_start: usize = if is_positive {
                1
            } else {
                2
            };
            let group_end = match find_matching(self.regex, 0, '[', ']') {
                Some(i) => i,
                None => {
                    return Err(MatchError::UnterminatedCapturingGroup);
                },
            };
            proof {
                lemma_matching_close(self.regex@, 0, '[', ']');
            }
            let group_chars = self.regex.substring_char(group_start, group_end);
            AnyMatcher::CharGroup(CharGroupCharacterClass { chars: group_chars, is_positive })
        } else if next_char == '.' {
            AnyMatcher::Wildcard(WildcardCharacterClass)
        } else if next_char == '^' {
            AnyMatcher::StartOfLine(StartOfLineCharacterClass)
        } else if next_char == '$' {
            AnyMatcher::EndOfLine(EndOfLineCharacterClass)
        } else if next_char == ')' {
            return Err(MatchError::UnterminatedCapturingGroup);
        } else if next_char == ']' {
            return Err(MatchError::UnterminatedGroup);
        } else {
            AnyMatcher::Literal(LiteralCharCharacterClass(next_char))
        };
        assert(spec_first_class(self.regex@, next_group_idx) == Ok::<(SpecMatcher, bool), MatchError>((next_matcher@, is_in_group)));
        let class_len = next_matcher.len();
        if class_len < n {
            let quantifier_symbol = self.regex.get_char(class_len);
            if quantifier_symbol == '+' || quantifier_symbol == '?' || quantifier_symbol == '*' {
                proof {
                    lemma_byte_index(self.regex@, class_len + 1);
                    reveal_strlit("");
                    assert(""@ =~= Seq::<char>::empty());
                }
                let rest_of_regex = match byte_index_of(self.regex, class_len + 1) {
                    Some(i) => self.regex.substring_char(i, n),
                    None => "",
                };
                assert(rest_of_regex@ =~= rest_after_quantifier(self.regex@, class_len as nat));
                let quantified = if quantifier_symbol == '+' {
                    AnyMatcher::OneOrMore(
                        OneOrMoreQuantifer {
                            inner_matcher: Box::new(next_matcher),
                            rest_of_inner_scope: rest_of_regex,
                            group_idx: self.group_idx,
                            rest_of_outer_scope: self.rest_of_outer_scope,
                        },
                    )
                } else if quantifier_symbol == '?' {
                    AnyMatcher::ZeroOrOne(
                        ZeroOrOneQuantifier {
                            matcher: Box::new(next_matcher),
                            rest_of_inner_scope: rest_of_regex,
                            group_idx: self.group_idx,
                            rest_of_outer_scope: self.rest_of_outer_scope,
                        },
                    )
                } else {
                    AnyMatcher::ZeroOrMore(
                        ZeroOrMoreQuantifier {
                            inner_matcher: Box::new(next_matcher),
                            rest_of_inner_scope: rest_of_regex,
                            group_idx: self.group_idx,
                            rest_of_outer_scope: self.rest_of_outer_scope,
                        },
                    )
                };
                return Ok(Some((quantified, is_in_group)));
            }
        }
        Ok(Some((next_matcher, is_in_group)))
    }

    pub(crate) fn extend(&self, input_line: &str, previous_match: Match) -> (r: Result<MatchResult, MatchError>)
        ensures
            outcome_view(r) == spec_pattern(
                self.regex(),
                self.rest_of_outer_scope(),
                self.group_idx(),
                input_line@,
                previous_match@,
            ),
            r matches Ok(Err(q)) ==> q@ == previous_match@,
            r matches Ok(Ok(q)) ==> q.offset >= previous_match.offset,
        decreases self.regex().len() + self.rest_of_outer_scope().len(), 5nat, 0nat,
    {
        let saved = copy_match(&previous_match);
        let mut previous_match = previous_match;
        let regex_len = self.regex.unicode_len();
        let n_bytes = self.regex.as_bytes().len();
        let adj_idx: usize = match self.group_idx {
            Some(group_idx) => {
                if group_idx == usize::MAX {
                    return Err(MatchError::ArithmeticOverflow);
                }
                group_idx + 1
            },
            None => 0,
        };
        let closed_captures = count_closed(&previous_match.captures);
        if adj_idx > usize::MAX - closed_captures {
            return Err(MatchError::ArithmeticOverflow);
        }
        let next_group_idx = adj_idx + closed_captures;
        proof {
            lemma_next_matcher(self.regex@, self.rest_of_outer_scope@, self.group_idx, next_group_idx);
        }
        let first_matcher = match self.next_matcher(next_group_idx) {
            Err(e) => {
                return Err(e);
            },
            Ok(None) => {
                return Ok(Ok(previous_match));
            },
            Ok(Some(first)) => first,
        };
        let (first_matcher, is_in_group) = first_matcher;
        if is_in_group {
            let start = previous_match.offset;
            previous_match.captures.push(Capture { start, end: None });
        }
        let first_match = match first_matcher.extend(input_line, previous_match) {
            Err(e) => {
                return Err(e);
            },
            Ok(Err(_)) => {
                return Ok(Err(saved));
            },
            Ok(Ok(first_match)) => first_match,
        };
        let len = first_matcher.len();
        let rest_start = match byte_index_of(self.regex, len) {
            Some(i) => i,
            None => regex_len,
        };
        proof {
            lemma_byte_index(self.regex@, len as int);
        }
        if rest_start >= regex_len {
            Ok(Ok(first_match))
        } else {
            let rest_of_pattern = self.regex.substring_char(rest_start, regex_len);
            assert(rest_of_pattern@ =~= self.regex@.skip(rest_start as int));
            match Pattern::new(rest_of_pattern, self.rest_of_outer_scope, self.group_idx).extend(
                input_line,
                first_match,
            ) {
                Err(e) => Err(e),
                Ok(Err(_)) => Ok(Err(saved)),
                Ok(Ok(rest_match)) => Ok(Ok(rest_match)),
            }
        }
    }
}

impl<'regex> Matcher for Pattern<'regex> {
    /// The byte length of the pattern.
    open spec fn spec_len(&self) -> nat {
        encode_utf8(self.regex()).len()
    }

    open spec fn spec_extend_from(&self, input_line: Seq<char>, previous_match: MatchView) -> SpecOutcome {
        spec_pattern(self.regex(), self.rest_of_outer_scope(), self.group_idx(), input_line, previous_match)
    }

    fn len(&self) -> (n: usize) {
        self.regex.len()
    }

    fn extend_from(&self, input_line: &str, previous_match: Match) -> (r: Result<MatchResult, MatchError>) {
        self.extend(input_line, previous_match)
    }
}

} // verus!
