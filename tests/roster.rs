use tfpugs_stats::roster::roster_contains;

#[test]
fn token_is_member() {
    assert!(roster_contains("41,42,43", "42"));
    assert!(roster_contains("42", "42"));
}

#[test]
fn part_of_an_identifier_is_no_member() {
    assert!(!roster_contains("142", "42"));
    assert!(!roster_contains("421,1420", "42"));
    assert!(!roster_contains("4", "42"));
}

#[test]
fn blanks_around_tokens_are_trimmed() {
    assert!(roster_contains(" 41 , 42 ,43", "42"));
    assert!(roster_contains("41,\t42\n", "42"));
    assert!(roster_contains("41,\u{3000}42\u{a0}", "42"));
    assert!(!roster_contains("41,4 2", "42"));
}

#[test]
fn empty_pieces_are_tokens() {
    assert!(roster_contains("41,,42", ""));
    assert!(roster_contains("", ""));
    assert!(!roster_contains("", "42"));
    assert!(!roster_contains("41,42", ""));
}

#[test]
fn membership_is_case_sensitive() {
    assert!(roster_contains("abc,def", "def"));
    assert!(!roster_contains("abc,DEF", "def"));
}
