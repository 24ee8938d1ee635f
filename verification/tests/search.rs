use grep_engine::matchers::{Capture, MatchError};
use grep_engine::search::{matched_text, regex_match};

fn matched(pattern: &str, line: &str) -> Option<(usize, usize)> {
    regex_match(pattern, line).unwrap().map(|(start, m)| (start, m.offset))
}

fn captures(pattern: &str, line: &str) -> Vec<(usize, Option<usize>)> {
    let (_, m) = regex_match(pattern, line).unwrap().unwrap();
    m.captures.iter().map(|c| (c.start, c.end)).collect()
}

fn error(pattern: &str, line: &str) -> MatchError {
    match regex_match(pattern, line) {
        Err(e) => e,
        Ok(_) => panic!("expected an error"),
    }
}

#[test]
fn literal_character() {
    assert_eq!(matched("d", "dog"), Some((0, 1)));
    assert_eq!(matched("g", "dog"), Some((2, 3)));
    assert_eq!(matched("f", "dog"), None);
}

#[test]
fn digit_class() {
    assert_eq!(matched("\\d", "apple123"), Some((5, 6)));
    assert_eq!(matched("\\d", "apple"), None);
}

#[test]
fn alphanumeric_class() {
    assert_eq!(matched("\\w", "alpha-num3ric"), Some((0, 1)));
    assert_eq!(matched("\\w", "$!?"), None);
    assert_eq!(matched("\\w", "-_Z"), Some((2, 3)));
}

#[test]
fn positive_char_group() {
    assert_eq!(matched("[abcd]", "a"), Some((0, 1)));
    assert_eq!(matched("[abc]", "xxb"), Some((2, 3)));
    assert_eq!(matched("[abc]", "xyz"), None);
}

#[test]
fn negative_char_group() {
    assert_eq!(matched("[^xyz]", "apple"), Some((0, 1)));
    assert_eq!(matched("[^anb]", "banana"), None);
}

#[test]
fn combined_classes() {
    assert_eq!(matched("\\d apple", "1 apple"), Some((0, 7)));
    assert_eq!(matched("\\d\\d\\d apples", "sally has 124 apples"), Some((10, 20)));
    assert_eq!(matched("\\d\\d\\d apples", "sally has 12 apples"), None);
}

#[test]
fn start_anchor() {
    assert_eq!(matched("^log", "log"), Some((0, 3)));
    assert_eq!(matched("^log", "slog"), None);
}

#[test]
fn end_anchor() {
    assert_eq!(matched("dog$", "dog"), Some((0, 3)));
    assert_eq!(matched("dog$", "hotdog\n"), Some((3, 6)));
    assert_eq!(matched("dog$", "dogs"), None);
}

#[test]
fn one_or_more() {
    assert_eq!(matched("a+", "caats"), Some((1, 3)));
    assert_eq!(matched("ca+t", "caaats"), Some((0, 5)));
    assert_eq!(matched("ca+t", "ct"), None);
}

#[test]
fn zero_or_one() {
    assert_eq!(matched("ca?t", "act"), Some((1, 3)));
    assert_eq!(matched("ca?t", "cat"), Some((0, 3)));
    assert_eq!(matched("ca?t", "cag"), None);
}

#[test]
fn zero_or_more() {
    assert_eq!(matched("ca*t", "ct"), Some((0, 2)));
    assert_eq!(matched("ca*t", "caaat"), Some((0, 5)));
    assert_eq!(matched("ca*t", "cab"), None);
}

#[test]
fn wildcard() {
    assert_eq!(matched("d.g", "dog"), Some((0, 3)));
    assert_eq!(matched("d.g", "d\ng"), None);
}

#[test]
fn alternation_group() {
    assert_eq!(matched("(cat|dog)", "dog"), Some((0, 3)));
    assert_eq!(captures("(cat|dog)", "dog"), vec![(0, Some(3))]);
    assert_eq!(matched("a (cat|dog)", "a cow"), None);
}

#[test]
fn top_level_alternation_with_empty_alternative() {
    assert_eq!(matched("a|", "b"), Some((0, 0)));
}

#[test]
fn backreference() {
    assert_eq!(matched("(cat) and \\1", "cat and cat"), Some((0, 11)));
    assert_eq!(matched("(cat) and \\1", "cat and dog"), None);
    assert_eq!(captures("(cat) and \\1", "cat and cat"), vec![(0, Some(3))]);
}

#[test]
fn backreference_to_repetition() {
    assert_eq!(matched("(\\w+) and \\1", "cat and cat"), Some((0, 11)));
    assert_eq!(captures("(\\w+) and \\1", "cat and cat"), vec![(0, Some(3))]);
}

#[test]
fn escaped_operator_is_followed_by_its_own_character() {
    // An escaped operator stands for one pattern character, so the operator
    // character after the backslash is read again as a class of its own.
    assert_eq!(matched("\\.", "a.b"), Some((1, 3)));
    assert_eq!(matched("\\.", "a."), None);
}

#[test]
fn empty_pattern_matches_at_start() {
    assert_eq!(matched("", "abc"), Some((0, 0)));
}

#[test]
fn empty_line_never_matches() {
    assert_eq!(regex_match("", "").unwrap().is_none(), true);
    assert_eq!(regex_match("(", "").unwrap().is_none(), true);
}

#[test]
fn malformed_patterns() {
    assert_eq!(error("a\\", "a"), MatchError::UnterminatedEscape);
    assert_eq!(error("\\9", "a"), MatchError::BackrefOutOfRange);
    assert_eq!(error("\\q", "a"), MatchError::UnrecognizedEscape);
    assert_eq!(error("(ab", "ab"), MatchError::UnterminatedCapturingGroup);
    assert_eq!(error(")", "a"), MatchError::UnterminatedCapturingGroup);
    assert_eq!(error("[ab", "a"), MatchError::UnterminatedCapturingGroup);
    assert_eq!(error("[", "a"), MatchError::UnterminatedGroup);
    assert_eq!(error("]", "a"), MatchError::UnterminatedGroup);
}

#[test]
fn backreference_errors() {
    assert_eq!(error("\\1", "a"), MatchError::BackrefOutOfRange);
    assert_eq!(error("(a\\1)", "aa"), MatchError::UnclosedCapture);
}

#[test]
fn empty_repetition_is_refused() {
    assert_eq!(error("(a?)+", "b"), MatchError::EndlessRepetition);
}

#[test]
fn failed_alternative_is_retried_from_the_same_place() {
    assert_eq!(matched("ac|ad", "ad"), Some((0, 2)));
    assert_eq!(matched("x(a+b|y)", "yxac"), None);
    assert_eq!(matched("x(a+b|y)", "yxy"), Some((1, 3)));
    assert_eq!(captures("x(a+b|y)", "yxy"), vec![(2, Some(3))]);
}

#[test]
fn ninth_backreference() {
    let pattern = "(a)(b)(c)(d)(e)(f)(g)(h)(i)\\9";
    assert_eq!(matched(pattern, "abcdefghii"), Some((0, 10)));
    assert_eq!(matched(pattern, "abcdefghia"), None);
}

#[test]
fn backreference_outside_the_slices_of_the_line() {
    assert_eq!(error("(é)\\1", "éé"), MatchError::CaptureOutOfLine);
}

#[test]
fn search_moves_by_bytes() {
    // The search tries each byte position, and a single character is read
    // at the char position of the same number.
    assert_eq!(matched("b", "éb"), Some((1, 2)));
    assert_eq!(matched("$", "é\n"), Some((2, 2)));
    assert_eq!(matched("é", "aé"), Some((1, 2)));
}

#[test]
fn capture_default() {
    let c = Capture::default();
    assert_eq!(c.start, 0);
    assert_eq!(c.end, None);
}


#[test]
fn matched_text_slices() {
    assert_eq!(matched_text("a dog", 2, 5), Some("dog"));
    assert_eq!(matched_text("a dog", 5, 5), Some(""));
    assert_eq!(matched_text("a dog", 3, 2), None);
    assert_eq!(matched_text("a dog", 2, 6), None);
    assert_eq!(matched_text("é!", 0, 1), None);
    assert_eq!(matched_text("é!", 0, 2), Some("é"));
}

#[test]
fn leftmost_match() {
    assert_eq!(matched("a", "banana"), Some((1, 2)));
    assert_eq!(matched("an", "banana"), Some((1, 3)));
}

#[test]
fn nested_groups_keep_their_captures() {
    assert_eq!(matched("((a)b)", "ab"), Some((0, 2)));
    assert_eq!(captures("((a)b)", "ab"), vec![(0, Some(2)), (0, Some(1))]);
}

#[test]
fn match_ends_within_the_line() {
    let line = "hotdog\n";
    let (start, m) = regex_match("dog$", line).unwrap().unwrap();
    assert_eq!(start, 3);
    assert!(m.offset <= line.len());
    assert_eq!(matched_text(line, start, m.offset), Some("dog"));
}

#[test]
fn capture_of_a_backed_off_repetition_keeps_its_greedy_end() {
    assert_eq!(matched("(aa)+a", "aaaa"), Some((0, 3)));
    assert_eq!(captures("(aa)+a", "aaaa"), vec![(0, Some(4))]);
}

#[test]
fn multibyte_class_followed_by_plus() {
    assert_eq!(matched("[é]+x", "é+x"), Some((0, 3)));
}
