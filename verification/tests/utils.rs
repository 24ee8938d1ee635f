use grep_engine::utils::{find_matching_bracket, find_matching_paren};

#[test]
fn matching_paren_counts_nesting() {
    assert_eq!(find_matching_paren("(a(b)c)d", 0), Some(6));
    assert_eq!(find_matching_paren("(a(b)c)d", 2), Some(4));
}

#[test]
fn matching_paren_from_inside_the_line() {
    assert_eq!(find_matching_paren("a(b)", 1), Some(3));
    assert_eq!(find_matching_paren("a(b)", 0), None);
}

#[test]
fn matching_paren_missing() {
    assert_eq!(find_matching_paren("(ab", 0), None);
    assert_eq!(find_matching_paren("(ab)", 9), None);
    assert_eq!(find_matching_paren("", 0), None);
}

#[test]
fn matching_bracket() {
    assert_eq!(find_matching_bracket("[a[b]]c", 0), Some(5));
    assert_eq!(find_matching_bracket("[^abc]", 0), Some(5));
    assert_eq!(find_matching_bracket("x[]", 1), Some(2));
    assert_eq!(find_matching_bracket("[ab", 0), None);
    assert_eq!(find_matching_bracket("(a)", 0), None);
}

#[test]
fn matching_positions_are_bytes() {
    assert_eq!(find_matching_paren("é(a)", 1), Some(4));
    assert_eq!(find_matching_bracket("[é]", 0), Some(3));
}
