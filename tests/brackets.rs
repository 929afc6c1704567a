use bf_interp::brackets::{resolve_brackets, BracketError};

fn chars(s: &str) -> Vec<char> {
    s.chars().collect()
}

#[test]
fn empty_program_has_empty_table() {
    assert_eq!(resolve_brackets(&chars("")), Ok(vec![]));
}

#[test]
fn simple_pair() {
    let t = resolve_brackets(&chars("[]")).unwrap();
    assert_eq!(t[0], 1);
    assert_eq!(t[1], 0);
}

#[test]
fn nested_and_sequential_pairs() {
    let t = resolve_brackets(&chars("a[b[c]d][]")).unwrap();
    assert_eq!(t.len(), 10);
    assert_eq!(t[1], 7);
    assert_eq!(t[7], 1);
    assert_eq!(t[3], 5);
    assert_eq!(t[5], 3);
    assert_eq!(t[8], 9);
    assert_eq!(t[9], 8);
}

#[test]
fn lone_close_is_rejected() {
    assert_eq!(resolve_brackets(&chars("]")), Err(BracketError::UnmatchedClose(0)));
}

#[test]
fn lone_open_is_rejected() {
    assert_eq!(resolve_brackets(&chars("[")), Err(BracketError::UnclosedOpen));
}

#[test]
fn first_unmatched_close_is_reported() {
    assert_eq!(resolve_brackets(&chars("[]+]]")), Err(BracketError::UnmatchedClose(3)));
}

#[test]
fn close_before_open_is_rejected() {
    assert_eq!(resolve_brackets(&chars("][")), Err(BracketError::UnmatchedClose(0)));
}

#[test]
fn unclosed_after_pairs_is_rejected() {
    assert_eq!(resolve_brackets(&chars("[[]")), Err(BracketError::UnclosedOpen));
}
