//! The decision core of the interactive resolution loop: which file
//! operations each decoded command asks for, and whether the conflict is
//! then settled. The surrounding program performs the operations and reads
//! the next line of input.

use vstd::prelude::*;
use crate::file_conflict::types::{Conflict, ConflictView, ConflictingFileView};
use crate::user_reply::{UserReply, spec_valid_file_num};

verus! {

/// One file operation for the surrounding program to perform.
#[derive(PartialEq, Debug)]
pub enum FileOp {
    /// Move the file at this path into the trash directory.
    Trash(String),
    /// Replace the content at `to` with the content of the file at `from`,
    /// removing `from`.
    Replace { from: String, to: String },
}

/// The mathematical image of a `FileOp`.
#[verifier::ext_equal]
pub ghost enum FileOpView {
    Trash(Seq<char>),
    Replace { from: Seq<char>, to: Seq<char> },
}

impl View for FileOp {
    type V = FileOpView;

    open spec fn view(&self) -> FileOpView {
        match self {
            FileOp::Trash(p) => FileOpView::Trash(p@),
            FileOp::Replace { from, to } => FileOpView::Replace { from: from@, to: to@ },
        }
    }
}

/// What a decoded command asks the resolution loop to do next.
#[derive(PartialEq, Debug)]
pub enum StepResult {
    /// Perform these operations in order; the conflict is then settled.
    Execute(Vec<FileOp>),
    /// Show the difference between these two files, then ask again.
    Diff(String, String),
    /// Print the usage text, then ask again.
    ShowHelp,
    /// Leave every file untouched; the conflict is settled.
    Settled,
    /// Stop the whole run.
    QuitRun,
}

/// Every conflicting file moved to the trash, in order, except the one at
/// `keep_ix` (no file is kept when `keep_ix` lies outside the list).
pub open spec fn spec_trash_except(files: Seq<ConflictingFileView>, keep_ix: int) -> Seq<
    FileOpView,
>
    decreases files.len(),
{
    if files.len() == 0 {
        Seq::empty()
    } else {
        let rest = spec_trash_except(files.drop_last(), keep_ix);
        if files.len() - 1 == keep_ix {
            rest
        } else {
            rest.push(FileOpView::Trash(files.last().path))
        }
    }
}

/// The operations that taking file `n` asks for: trash every other
/// conflicting file, trash the original, then let the chosen file's content
/// replace the original's.
pub open spec fn spec_take_file_ops(conf: ConflictView, n: int) -> Seq<FileOpView> {
    spec_trash_except(conf.conflicting_files, n - 1) + seq![
        FileOpView::Trash(conf.original_path),
        FileOpView::Replace { from: conf.conflicting_files[n - 1].path, to: conf.original_path },
    ]
}

/// Whether `reply` can be executed against `num` conflicting files: every
/// file number it carries is a valid 1-based index, and showing a diff
/// without one requires at least one conflicting file.
pub open spec fn spec_valid_reply(reply: UserReply, num: nat) -> bool {
    match reply {
        UserReply::TakeFile(n) => spec_valid_file_num(n as nat, num),
        UserReply::ShowDiff => num >= 1,
        UserReply::ShowDiffWith(n) => spec_valid_file_num(n as nat, num),
        UserReply::ShowDiffBetween(n1, n2) => spec_valid_file_num(n1 as nat, num)
            && spec_valid_file_num(n2 as nat, num),
        _ => true,
    }
}

/// Decides what `reply` asks for on `conf`. Nothing is touched here: the
/// caller performs the returned operations.
pub fn step(conf: &Conflict, reply: &UserReply) -> (r: StepResult)
    requires
        spec_valid_reply(*reply, conf@.conflicting_files.len()),
    ensures
        match *reply {
            UserReply::TakeFile(n) => (r matches StepResult::Execute(ops) && ops@.map_values(
                |o: FileOp| o@,
            ) == spec_take_file_ops(conf@, n as int)),
            UserReply::MoveToTrash => (r matches StepResult::Execute(ops) && ops@.map_values(
                |o: FileOp| o@,
            ) == spec_trash_except(conf@.conflicting_files, -1)),
            UserReply::ShowDiff => (r matches StepResult::Diff(a, b) && a@ == conf@.original_path
                && b@ == conf@.conflicting_files[0].path),
            UserReply::ShowDiffWith(n) => (r matches StepResult::Diff(a, b) && a@
                == conf@.original_path && b@ == conf@.conflicting_files[n - 1].path),
            UserReply::ShowDiffBetween(n1, n2) => (r matches StepResult::Diff(a, b) && a@
                == conf@.conflicting_files[n1 - 1].path && b@ == conf@.conflicting_files[n2
                - 1].path),
            UserReply::Skip => r is Settled,
            UserReply::Quit => r is QuitRun,
            UserReply::Help => r is ShowHelp,
        },
{
    match reply {
        UserReply::TakeFile(n) => {
            let keep = *n - 1;
            let mut ops = trash_all_except(&conf.conflicting_files, Some(keep));
            ops.push(FileOp::Trash(conf.original_path.clone()));
            ops.push(
                FileOp::Replace {
                    from: conf.conflicting_files[keep].path.clone(),
                    to: conf.original_path.clone(),
                },
            );
            proof {
                assert(ops@.map_values(|o: FileOp| o@) =~~= spec_take_file_ops(
                    conf@,
                    *n as int,
                ));
            }
            StepResult::Execute(ops)
        },
        UserReply::MoveToTrash => {
            let ops = trash_all_except(&conf.conflicting_files, None);
            StepResult::Execute(ops)
        },
        UserReply::ShowDiff => StepResult::Diff(
            conf.original_path.clone(),
            conf.conflicting_files[0].path.clone(),
        ),
        UserReply::ShowDiffWith(n) => StepResult::Diff(
            conf.original_path.clone(),
            conf.conflicting_files[*n - 1].path.clone(),
        ),
        UserReply::ShowDiffBetween(n1, n2) => StepResult::Diff(
            conf.conflicting_files[*n1 - 1].path.clone(),
            conf.conflicting_files[*n2 - 1].path.clone(),
        ),
        UserReply::Skip => StepResult::Settled,
        UserReply::Quit => StepResult::QuitRun,
        UserReply::Help => StepResult::ShowHelp,
    }
}

/// Trash operations for every conflicting file but the one at `keep`.
fn trash_all_except(files: &Vec<crate::file_conflict::types::ConflictingFile>, keep: Option<
    usize,
>) -> (ops: Vec<FileOp>)
    ensures
        ops@.map_values(|o: FileOp| o@) == spec_trash_except(
            files@.map_values(|f: crate::file_conflict::types::ConflictingFile| f@),
            match keep {
                Some(k) => k as int,
                None => -1,
            },
        ),
{
    let ghost fs = files@.map_values(|f: crate::file_conflict::types::ConflictingFile| f@);
    let ghost keep_ix: int = match keep {
        Some(k) => k as int,
        None => -1,
    };
    let mut ops: Vec<FileOp> = Vec::new();
    proof {
        assert(ops@.map_values(|o: FileOp| o@) =~= spec_trash_except(fs.take(0), keep_ix));
    }
    let mut i: usize = 0;
    while i < files.len()
        invariant
            0 <= i <= files@.len(),
            fs == files@.map_values(|f: crate::file_conflict::types::ConflictingFile| f@),
            keep_ix == match keep {
                Some(k) => k as int,
                None => -1,
            },
            ops@.map_values(|o: FileOp| o@) == spec_trash_except(fs.take(i as int), keep_ix),
        decreases files@.len() - i,
    {
        let skip_this = match keep {
            Some(k) => i == k,
            None => false,
        };
        if !skip_this {
            ops.push(FileOp::Trash(files[i].path.clone()));
        }
        proof {
            assert(fs.take(i + 1).drop_last() =~= fs.take(i as int));
            assert(fs.take(i + 1).last() == fs[i as int]);
            assert(ops@.map_values(|o: FileOp| o@) =~~= spec_trash_except(
                fs.take(i + 1),
                keep_ix,
            ));
        }
        i = i + 1;
    }
    proof {
        assert(fs.take(files@.len() as int) =~= fs);
    }
    ops
}

} // verus!
