use confsolve::paths::{numbered_path, path_join, split_spaces, file_name_split};

#[test]
fn path_join_inserts_exactly_one_separator() {
    assert_eq!(path_join("a/b", "c"), "a/b/c");
    assert_eq!(path_join("a/b/", "c"), "a/b/c");
    assert_eq!(path_join("", "c"), "c");
    assert_eq!(path_join("/", "c"), "/c");
}

#[test]
fn file_name_split_points_after_the_last_separator() {
    assert_eq!(file_name_split("a/b/c.txt"), 4);
    assert_eq!(file_name_split("c.txt"), 0);
    assert_eq!(file_name_split("a/"), 2);
    assert_eq!(file_name_split(""), 0);
}

#[test]
fn numbered_path_appends_dash_and_number() {
    assert_eq!(numbered_path("t/file.txt", 2), "t/file.txt-2");
    assert_eq!(numbered_path("t/file.txt", 9999), "t/file.txt-9999");
    assert_eq!(numbered_path("x", 0), "x-0");
}

#[test]
fn split_spaces_splits_on_every_single_space() {
    assert_eq!(split_spaces("gvimdiff -f"), vec!["gvimdiff".to_string(), "-f".to_string()]);
    assert_eq!(split_spaces("meld"), vec!["meld".to_string()]);
    assert_eq!(
        split_spaces("a  b "),
        vec!["a".to_string(), "".to_string(), "b".to_string(), "".to_string()]
    );
    assert_eq!(split_spaces(""), vec!["".to_string()]);
}
