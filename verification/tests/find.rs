use confsolve::file_conflict::{find, ConflictType};

#[test]
fn grouping_by_inferred_original_name() {
    let files: Vec<String> = vec![
        "dir/a (conflicting version 1 from one)".to_string(),
        "dir/a (conflicting version 2 from two)".to_string(),
        "dir/b (conflicting version 3 from one)".to_string(),
    ];
    let confs = find(ConflictType::Wuala, &files);

    assert_eq!(confs.len(), 2);

    assert_eq!(confs[0].original_path, "dir/a");
    assert_eq!(confs[0].conflicting_files.len(), 2);
    assert_eq!(confs[0].conflicting_files[0].path, files[0]);
    assert_eq!(confs[0].conflicting_files[0].details, "Version 1 from one");
    assert_eq!(confs[0].conflicting_files[1].path, files[1]);
    assert_eq!(confs[0].conflicting_files[1].details, "Version 2 from two");

    assert_eq!(confs[1].original_path, "dir/b");
    assert_eq!(confs[1].conflicting_files.len(), 1);
    assert_eq!(confs[1].conflicting_files[0].path, files[2]);
    assert_eq!(confs[1].conflicting_files[0].details, "Version 3 from one");
}

#[test]
fn grouping_keeps_the_directory_and_appends_extensions() {
    let files: Vec<String> = vec![
        "x/y/a_original (blub's conflicted copy 2011-04-30).txt".to_string(),
    ];
    let confs = find(ConflictType::Dropbox, &files);
    assert_eq!(confs.len(), 1);
    assert_eq!(confs[0].original_path, "x/y/a_original.txt");
    assert_eq!(confs[0].conflicting_files[0].details, "Version 2011-04-30 from blub");
}

#[test]
fn grouping_passes_over_files_that_match_no_grammar() {
    let files: Vec<String> = vec![
        "dir/plain.txt".to_string(),
        "dir/".to_string(),
        "a (conflicting version 7).md".to_string(),
    ];
    let confs = find(ConflictType::Wuala, &files);
    assert_eq!(confs.len(), 1);
    assert_eq!(confs[0].original_path, "a.md");
    assert_eq!(confs[0].conflicting_files[0].details, "Version 7 from ");
}

#[test]
fn grouping_with_wrong_matcher_finds_nothing() {
    let files: Vec<String> = vec![
        "dir/a (conflicting version 1 from one)".to_string(),
    ];
    let confs = find(ConflictType::Dropbox, &files);
    assert_eq!(confs.len(), 0);
}
