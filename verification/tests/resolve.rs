use confsolve::file_conflict::types::{Conflict, ConflictingFile};
use confsolve::resolve::{step, FileOp, StepResult};
use confsolve::user_reply::{parse, UserReply};

fn three_file_conflict() -> Conflict {
    Conflict {
        original_path: "dir/orig.txt".to_string(),
        conflicting_files: vec![
            ConflictingFile {
                details: "Version 1 from one".to_string(),
                path: "dir/orig (conflicting version 1 from one).txt".to_string(),
            },
            ConflictingFile {
                details: "Version 2 from two".to_string(),
                path: "dir/orig (conflicting version 2 from two).txt".to_string(),
            },
            ConflictingFile {
                details: "Version 3 from three".to_string(),
                path: "dir/orig (conflicting version 3 from three).txt".to_string(),
            },
        ],
    }
}

#[test]
fn take_file_trashes_the_others_and_replaces_the_original() {
    let conf = three_file_conflict();
    let reply = parse(&"t2".to_string(), conf.conflicting_files.len());
    assert_eq!(reply, Some(UserReply::TakeFile(2)));

    let r = step(&conf, &reply.unwrap());
    assert_eq!(
        r,
        StepResult::Execute(vec![
            FileOp::Trash("dir/orig (conflicting version 1 from one).txt".to_string()),
            FileOp::Trash("dir/orig (conflicting version 3 from three).txt".to_string()),
            FileOp::Trash("dir/orig.txt".to_string()),
            FileOp::Replace {
                from: "dir/orig (conflicting version 2 from two).txt".to_string(),
                to: "dir/orig.txt".to_string(),
            },
        ])
    );
}

#[test]
fn move_to_trash_trashes_every_conflicting_file() {
    let conf = three_file_conflict();
    let r = step(&conf, &UserReply::MoveToTrash);
    assert_eq!(
        r,
        StepResult::Execute(vec![
            FileOp::Trash("dir/orig (conflicting version 1 from one).txt".to_string()),
            FileOp::Trash("dir/orig (conflicting version 2 from two).txt".to_string()),
            FileOp::Trash("dir/orig (conflicting version 3 from three).txt".to_string()),
        ])
    );
}

#[test]
fn diff_skip_quit_and_help_touch_nothing() {
    let conf = three_file_conflict();
    assert_eq!(
        step(&conf, &UserReply::ShowDiffWith(3)),
        StepResult::Diff(
            "dir/orig.txt".to_string(),
            "dir/orig (conflicting version 3 from three).txt".to_string(),
        )
    );
    assert_eq!(
        step(&conf, &UserReply::ShowDiffBetween(1, 2)),
        StepResult::Diff(
            "dir/orig (conflicting version 1 from one).txt".to_string(),
            "dir/orig (conflicting version 2 from two).txt".to_string(),
        )
    );
    assert_eq!(step(&conf, &UserReply::Skip), StepResult::Settled);
    assert_eq!(step(&conf, &UserReply::Quit), StepResult::QuitRun);
    assert_eq!(step(&conf, &UserReply::Help), StepResult::ShowHelp);
}
