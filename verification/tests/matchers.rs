use grep_engine::matchers::alphanumeric::AlphanumericCharacterClass;
use grep_engine::matchers::alternation::Alternation;
use grep_engine::matchers::backref::Backref;
use grep_engine::matchers::capturing_group::CapturingGroupCharacterClass;
use grep_engine::matchers::char_group::CharGroupCharacterClass;
use grep_engine::matchers::digit::DigitCharacterClass;
use grep_engine::matchers::end_of_string::EndOfLineCharacterClass;
use grep_engine::matchers::literal::{LiteralCharCharacterClass, LiteralSubstringCharacterClass};
use grep_engine::matchers::one_or_more_quantifier::OneOrMoreQuantifer;
use grep_engine::matchers::pattern::Pattern;
use grep_engine::matchers::start_of_string::StartOfLineCharacterClass;
use grep_engine::matchers::wildcard::WildcardCharacterClass;
use grep_engine::matchers::zero_or_more_quantifier::ZeroOrMoreQuantifier;
use grep_engine::matchers::zero_or_one_quantifier::ZeroOrOneQuantifier;
use grep_engine::matchers::{AnyMatcher, Capture, InsertAt, Match, MatchError, Matcher};

/// `Some(offset)` for an extended match, `None` for a kept one.
fn step<M: Matcher>(matcher: &M, line: &str, offset: usize) -> Option<usize> {
    match matcher.extend_from(line, Match::new(offset)).unwrap() {
        Ok(m) => Some(m.offset),
        Err(_) => None,
    }
}

/// The offset of the match handed on to the next alternative.
fn kept_offset<M: Matcher>(matcher: &M, line: &str, offset: usize) -> usize {
    matcher.extend_from(line, Match::new(offset)).unwrap().unwrap_err().offset
}

fn closed(start: usize, end: usize) -> Capture {
    Capture { start, end: Some(end) }
}

#[test]
fn digit_matcher() {
    assert_eq!(step(&DigitCharacterClass, "a1", 1), Some(2));
    assert_eq!(step(&DigitCharacterClass, "a1", 0), None);
    assert_eq!(step(&DigitCharacterClass, "a1", 2), None);
    assert_eq!(DigitCharacterClass.len(), 2);
}

#[test]
fn alphanumeric_matcher() {
    assert_eq!(step(&AlphanumericCharacterClass, "_Z", 1), Some(2));
    assert_eq!(step(&AlphanumericCharacterClass, "_Z", 0), None);
    assert_eq!(step(&AlphanumericCharacterClass, "9", 0), Some(1));
    assert_eq!(AlphanumericCharacterClass.len(), 2);
}

#[test]
fn wildcard_matcher() {
    assert_eq!(step(&WildcardCharacterClass, "a\n", 0), Some(1));
    assert_eq!(step(&WildcardCharacterClass, "a\n", 1), None);
    assert_eq!(step(&WildcardCharacterClass, "a\n", 2), None);
    assert_eq!(WildcardCharacterClass.len(), 1);
}

#[test]
fn start_of_line_matcher() {
    assert_eq!(step(&StartOfLineCharacterClass, "ab", 0), Some(0));
    assert_eq!(step(&StartOfLineCharacterClass, "ab", 1), None);
    assert_eq!(StartOfLineCharacterClass.len(), 1);
}

#[test]
fn end_of_line_matcher() {
    assert_eq!(step(&EndOfLineCharacterClass, "ab\n", 2), Some(2));
    assert_eq!(step(&EndOfLineCharacterClass, "ab\n", 3), Some(3));
    assert_eq!(step(&EndOfLineCharacterClass, "ab\n", 1), None);
    assert_eq!(step(&EndOfLineCharacterClass, "ab", 4), None);
    assert_eq!(EndOfLineCharacterClass.len(), 1);
}

#[test]
fn literal_char_matcher() {
    let l = LiteralCharCharacterClass('x');
    assert_eq!(step(&l, "axb", 1), Some(2));
    assert_eq!(step(&l, "axb", 0), None);
    assert_eq!(l.len(), 1);
}

#[test]
fn literal_substring_matcher() {
    let l = LiteralSubstringCharacterClass("cat");
    assert_eq!(step(&l, "a cat", 2), Some(5));
    assert_eq!(step(&l, "a ca", 2), None);
    assert_eq!(step(&l, "a cat", 9), None);
    assert_eq!(l.len(), 3);
    assert_eq!(step(&LiteralSubstringCharacterClass(""), "ab", 2), Some(2));
}

#[test]
fn char_group_matcher() {
    let positive = CharGroupCharacterClass { chars: "abc", is_positive: true };
    let negative = CharGroupCharacterClass { chars: "abc", is_positive: false };
    assert_eq!(step(&positive, "xb", 1), Some(2));
    assert_eq!(step(&positive, "xb", 0), None);
    assert_eq!(step(&negative, "xb", 0), Some(1));
    assert_eq!(step(&negative, "xb", 1), None);
    assert_eq!(step(&negative, "xb", 2), None);
    assert_eq!(positive.len(), 5);
    assert_eq!(negative.len(), 6);
}

#[test]
fn backref_matcher() {
    let b = Backref::new(0);
    let m = Match { offset: 3, captures: vec![closed(0, 3)] };
    assert_eq!(b.extend_from("catcat", m).unwrap().unwrap().offset, 6);
    let m = Match { offset: 3, captures: vec![closed(0, 3)] };
    assert_eq!(b.extend_from("catdog", m).unwrap().unwrap_err().offset, 3);
    assert_eq!(b.len(), 2);
}

#[test]
fn backref_matcher_errors() {
    let m = Match { offset: 0, captures: vec![] };
    assert_eq!(Backref::new(0).extend_from("a", m).unwrap_err(), MatchError::BackrefOutOfRange);
    let m = Match { offset: 0, captures: vec![Capture { start: 0, end: None }] };
    assert_eq!(Backref::new(0).extend_from("a", m).unwrap_err(), MatchError::UnclosedCapture);
    let m = Match { offset: 0, captures: vec![closed(0, 5)] };
    assert_eq!(Backref::new(0).extend_from("a", m).unwrap_err(), MatchError::CaptureOutOfLine);
    let m = Match { offset: 0, captures: vec![closed(2, 1)] };
    assert_eq!(Backref::new(0).extend_from("abc", m).unwrap_err(), MatchError::CaptureOutOfLine);
}

#[test]
fn capturing_group_matcher() {
    let g = CapturingGroupCharacterClass::new(0, "a|b", "c");
    let m = Match { offset: 1, captures: vec![Capture { start: 1, end: None }] };
    let r = g.extend_from("xbc", m).unwrap().unwrap();
    assert_eq!(r.offset, 2);
    assert_eq!(r.captures.len(), 1);
    assert_eq!(r.captures[0].end, Some(2));
    assert_eq!(g.len(), 5);
}

#[test]
fn pattern_matcher() {
    let p = Pattern::new("ab", "", None);
    assert_eq!(step(&p, "xab", 1), Some(3));
    assert_eq!(step(&p, "xab", 0), None);
    assert_eq!(p.len(), 2);
}

#[test]
fn pattern_next_matcher() {
    match Pattern::new("a+b", "", None).next_matcher(0).unwrap() {
        Some((AnyMatcher::OneOrMore(q), false)) => {
            assert_eq!(q.rest_of_inner_scope, "b");
            assert_eq!(q.inner_matcher.len(), 1);
        },
        _ => panic!("expected a one-or-more quantifier"),
    }
    match Pattern::new("(ab)c", "", None).next_matcher(4).unwrap() {
        Some((AnyMatcher::Group(g), true)) => assert_eq!(g.len(), 4),
        _ => panic!("expected a capturing group"),
    }
    match Pattern::new("[^ab]?", "x", Some(1)).next_matcher(0).unwrap() {
        Some((AnyMatcher::ZeroOrOne(q), false)) => {
            assert_eq!(q.rest_of_inner_scope, "");
            assert_eq!(q.rest_of_outer_scope, "x");
            assert_eq!(q.group_idx, Some(1));
            assert_eq!(q.matcher.len(), 5);
        },
        _ => panic!("expected a zero-or-one quantifier"),
    }
    match Pattern::new("\\3*", "", None).next_matcher(0).unwrap() {
        Some((AnyMatcher::ZeroOrMore(q), false)) => assert_eq!(q.inner_matcher.len(), 2),
        _ => panic!("expected a zero-or-more quantifier"),
    }
    assert!(Pattern::new("", "", None).next_matcher(0).unwrap().is_none());
    assert!(matches!(Pattern::new("\\", "", None).next_matcher(0), Err(MatchError::UnterminatedEscape)));
    match Pattern::new("\\9", "", None).next_matcher(0).unwrap() {
        Some((AnyMatcher::Backref(b), false)) => {
            assert_eq!(b.len(), 2);
            let m = Match { offset: 0, captures: vec![closed(0, 1); 8] };
            assert!(matches!(b.extend_from("aa", m), Err(MatchError::BackrefOutOfRange)));
            let m = Match { offset: 1, captures: vec![closed(0, 1); 9] };
            assert_eq!(b.extend_from("aa", m).unwrap().unwrap().offset, 2);
        },
        _ => panic!("expected a back-reference"),
    }
    assert!(matches!(Pattern::new(")", "", None).next_matcher(0), Err(MatchError::UnterminatedCapturingGroup)));
    assert!(matches!(Pattern::new("]", "", None).next_matcher(0), Err(MatchError::UnterminatedGroup)));
}

#[test]
fn alternation_matcher() {
    let a = Alternation::new("cat|dog", "", None);
    assert_eq!(step(&a, "a dog", 2), Some(5));
    assert_eq!(step(&a, "a cow", 2), None);
    // A failed alternative hands back the match it was given, so the next
    // one starts from the same place.
    assert_eq!(kept_offset(&a, "a cow", 2), 2);
    assert_eq!(step(&Alternation::new("ac|ad", "", None), "ad", 0), Some(2));
    assert_eq!(kept_offset(&DigitCharacterClass, "a", 0), 0);
    assert_eq!(a.len(), 7);
    assert_eq!(Alternation::new("a|b(c|d)|e", "", None).len(), 10);
    assert_eq!(Alternation::new("", "", None).len(), 0);
    assert_eq!(Alternation::new("a\\|b", "", None).len(), 4);
}

#[test]
fn match_offset_arithmetic() {
    let m = Match::new(2);
    assert_eq!(m.offset, 2);
    assert!(m.captures.is_empty());
    let m = m.add(3);
    assert_eq!(m.offset, 5);
    let mut m = m.sub(4);
    assert_eq!(m.offset, 1);
    m.add_assign(2);
    assert_eq!(m.offset, 3);
    m.sub_assign(3);
    assert_eq!(m.offset, 0);
    assert_eq!(Match::default().offset, 0);
}

#[test]
fn match_concatenation() {
    let a = Match { offset: 2, captures: vec![closed(0, 1)] };
    let b = Match { offset: 3, captures: vec![closed(1, 2), closed(2, 3)] };
    let mut c = a.add_match(b);
    assert_eq!(c.offset, 5);
    assert_eq!(c.captures.len(), 3);
    assert_eq!(c.captures[2].start, 2);
    c.add_assign_match(Match::new(1));
    assert_eq!(c.offset, 6);
    assert_eq!(c.captures.len(), 3);
}

#[test]
fn match_rollback() {
    let m = Match { offset: 7, captures: vec![closed(0, 1), closed(1, 2), closed(2, 3)] };
    let m = m.rollback(4, 1);
    assert_eq!(m.offset, 4);
    assert_eq!(m.captures.len(), 1);
    assert_eq!(m.captures[0].end, Some(1));
}

#[test]
fn insert_at_existing_capture() {
    let mut caps = vec![Capture { start: 2, end: None }];
    caps.insert_at(0, 5);
    assert_eq!(caps.len(), 1);
    assert_eq!(caps[0].start, 2);
    assert_eq!(caps[0].end, Some(5));
}

#[test]
fn insert_at_pads_with_default_captures() {
    let mut caps = vec![Capture { start: 2, end: None }];
    caps.insert_at(2, 4);
    assert_eq!(caps.len(), 3);
    assert_eq!(caps[0].end, None);
    assert_eq!(caps[1].start, 0);
    assert_eq!(caps[1].end, None);
    assert_eq!(caps[2].start, 0);
    assert_eq!(caps[2].end, Some(4));
}

fn literal(c: char) -> Box<AnyMatcher<'static>> {
    Box::new(AnyMatcher::Literal(LiteralCharCharacterClass(c)))
}

#[test]
fn zero_or_one_quantifier_never_fails() {
    let q = ZeroOrOneQuantifier { matcher: literal('a'), rest_of_inner_scope: "b", group_idx: None, rest_of_outer_scope: "" };
    assert_eq!(step(&q, "xab", 1), Some(2));
    assert_eq!(step(&q, "xcb", 1), Some(1));
    assert_eq!(step(&q, "xac", 1), Some(2));
    assert_eq!(q.len(), 2);
}

#[test]
fn one_or_more_quantifier() {
    let q = OneOrMoreQuantifer { inner_matcher: literal('a'), rest_of_inner_scope: "b", group_idx: None, rest_of_outer_scope: "" };
    // Ends where the repetition ends, once what follows it has been seen to match.
    assert_eq!(step(&q, "aaab", 0), Some(3));
    assert_eq!(step(&q, "aaac", 0), None);
    // When no repetition count lets the rest match, the match it was given
    // is handed back.
    assert_eq!(kept_offset(&q, "xaac", 1), 1);
    assert_eq!(kept_offset(&q, "xb", 1), 1);
    assert_eq!(q.len(), 2);
}

#[test]
fn zero_or_more_quantifier() {
    let q = ZeroOrMoreQuantifier { inner_matcher: literal('a'), rest_of_inner_scope: "b", group_idx: None, rest_of_outer_scope: "" };
    assert_eq!(step(&q, "aaab", 0), Some(3));
    assert_eq!(step(&q, "xb", 1), Some(1));
    assert_eq!(step(&q, "xc", 1), None);
    assert_eq!(kept_offset(&q, "xaac", 1), 1);
    assert_eq!(q.len(), 2);
}

#[test]
fn quantifier_records_group_end() {
    let q = OneOrMoreQuantifer { inner_matcher: literal('a'), rest_of_inner_scope: "", group_idx: Some(0), rest_of_outer_scope: "b" };
    let m = Match { offset: 0, captures: vec![Capture { start: 0, end: None }] };
    let r = q.extend_from("aab", m).unwrap().unwrap();
    assert_eq!(r.offset, 2);
    assert_eq!(r.captures.len(), 1);
    assert_eq!(r.captures[0].end, Some(2));
}

#[test]
fn failed_pattern_hands_back_its_match() {
    let p = Pattern::new("ac", "", None);
    assert_eq!(kept_offset(&p, "ad", 0), 0);
    let m = Match { offset: 0, captures: vec![closed(0, 0)] };
    let r = p.extend_from("ad", m).unwrap().unwrap_err();
    assert_eq!(r.offset, 0);
    assert_eq!(r.captures.len(), 1);
}

#[test]
fn lengths_count_bytes() {
    assert_eq!(Pattern::new("é", "", None).len(), 2);
    assert_eq!(Pattern::new("a(b)", "", None).len(), 4);
    assert_eq!(CharGroupCharacterClass { chars: "é", is_positive: true }.len(), 4);
    assert_eq!(CharGroupCharacterClass { chars: "é", is_positive: false }.len(), 5);
    assert_eq!(CapturingGroupCharacterClass::new(0, "é", "").len(), 4);
    assert_eq!(LiteralSubstringCharacterClass("é").len(), 2);
    assert_eq!(Alternation::new("é|a", "", None).len(), 4);
}

#[test]
fn literal_text_uses_byte_positions() {
    let l = LiteralSubstringCharacterClass("é");
    assert_eq!(step(&l, "xé", 1), Some(3));
    assert_eq!(step(&l, "éé", 1), None);
    assert_eq!(step(&l, "éé", 2), Some(4));
}

#[test]
fn end_of_line_uses_byte_positions() {
    assert_eq!(step(&EndOfLineCharacterClass, "é", 2), Some(2));
    assert_eq!(step(&EndOfLineCharacterClass, "é", 1), None);
    assert_eq!(step(&EndOfLineCharacterClass, "é\n", 2), Some(2));
}

#[test]
fn parser_moves_by_reported_byte_lengths() {
    // `[é]` reports 4 bytes, so the quantifier is looked up at char
    // position 4 (`x`): the class stays bare, and `+` is read next.
    match Pattern::new("[é]+x", "", None).next_matcher(0).unwrap() {
        Some((AnyMatcher::CharGroup(g), false)) => assert_eq!(g.len(), 4),
        _ => panic!("expected a bare character group"),
    }
    assert_eq!(step(&Pattern::new("[é]+x", "", None), "é+x", 0), Some(3));
    assert_eq!(step(&Pattern::new("[é]+x", "", None), "ééx", 0), None);
    // A literal `é` reports 1, and byte 1 is no character boundary of
    // `éa`, so the rest of the pattern is dropped.
    assert_eq!(step(&Pattern::new("éa", "", None), "éb", 0), Some(1));
}

#[test]
fn plain_pattern_matches_like_its_literal_text() {
    let p = Pattern::new("cat", "", None);
    let l = LiteralSubstringCharacterClass("cat");
    for (line, offset) in [("a cat", 2), ("a cat", 0), ("a ca", 2), ("cat", 0), ("cat", 3), ("", 0)] {
        assert_eq!(step(&p, line, offset), step(&l, line, offset));
    }
    assert_eq!(step(&p, "a cat", 2), Some(5));
    assert_eq!(kept_offset(&p, "a cow", 2), 2);
}
