use confsolve::user_reply::{parse, UserReply};
use confsolve::user_reply::UserReply::{
    TakeFile, MoveToTrash, ShowDiff, ShowDiffWith, ShowDiffBetween, Skip, Quit, Help,
};

fn test_str(input: &str, reply: Option<UserReply>) {
    println!("test: {}", input);
    assert_eq!(parse(&input.to_string(), 12), reply);
}

#[test]
fn user_reply_tests() {
    test_str("t", None);
    test_str("t1", Some(TakeFile(1)));
    test_str(" t1", Some(TakeFile(1)));
    test_str(" t  1", Some(TakeFile(1)));
    test_str(" t  1  ", Some(TakeFile(1)));
    test_str(" t  1  2", None);
    test_str("d12", Some(ShowDiffWith(12)));
    test_str("d13", None);
    test_str("d", None);
    test_str("d1 2", Some(ShowDiffBetween(1, 2)));
    test_str("d1    2", Some(ShowDiffBetween(1, 2)));
    test_str("d  1  2", Some(ShowDiffBetween(1, 2)));
    test_str("D  1  2", Some(ShowDiffBetween(1, 2)));
    test_str("  m  ", Some(MoveToTrash));
    test_str("m  ", Some(MoveToTrash));
    test_str("M  ", Some(MoveToTrash));
    test_str("M  1", None);
    test_str("s", Some(Skip));
    test_str("q", Some(Quit));
    test_str("qq", None);
    test_str("h", Some(Help));
    test_str("?", Some(Help));
}

#[test]
fn show_diff_needs_exactly_one_conflicting_file() {
    assert_eq!(parse(&"d".to_string(), 1), Some(ShowDiff));
    assert_eq!(parse(&"d".to_string(), 2), None);
}

#[test]
fn unicode_whitespace_is_skipped_like_ascii_whitespace() {
    assert_eq!(parse(&"\u{000B}m".to_string(), 5), Some(MoveToTrash));
    assert_eq!(parse(&"\u{000C}s\u{000C}".to_string(), 5), Some(Skip));
    assert_eq!(parse(&"\u{00A0}t\u{00A0}1".to_string(), 12), Some(TakeFile(1)));
    assert_eq!(parse(&"\u{2003}d\u{2003}1\u{2003}2\u{2003}".to_string(), 12),
        Some(ShowDiffBetween(1, 2)));
    assert_eq!(parse(&"q\u{0085}".to_string(), 5), Some(Quit));
}

#[test]
fn empty_input_and_empty_conflicts_are_invalid() {
    assert_eq!(parse(&"".to_string(), 12), None);
    assert_eq!(parse(&"t1".to_string(), 0), None);
}
