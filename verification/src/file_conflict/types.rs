//! The data carried through conflict detection and resolution.

use vstd::prelude::*;

verus! {

/// The kind of conflicts to search for and to resolve.
#[derive(Clone, Copy, PartialEq, Eq, Structural, Debug)]
pub enum ConflictType {
    Wuala,
    Dropbox,
}

/// The file name of the original file, without the details of the conflict.
pub type OrigFileName = String;

/// Description of the details of the conflict.
pub type Details = String;

/// The tail a conflict-shaped name carries for an extension: a dot and the
/// extension itself, or nothing.
pub open spec fn spec_ext_part(ext: Option<Seq<char>>) -> Seq<char> {
    match ext {
        Some(e) => "."@ + e,
        None => Seq::<char>::empty(),
    }
}

/// The details and the path of one conflicting file.
#[derive(Clone)]
pub struct ConflictingFile {
    pub details: String,
    pub path: String,
}

/// The mathematical image of a `ConflictingFile`.
#[verifier::ext_equal]
pub ghost struct ConflictingFileView {
    pub details: Seq<char>,
    pub path: Seq<char>,
}

impl View for ConflictingFile {
    type V = ConflictingFileView;

    open spec fn view(&self) -> ConflictingFileView {
        ConflictingFileView { details: self.details@, path: self.path@ }
    }
}

/// One conflict with all of its conflicting files.
pub struct Conflict {
    pub original_path: String,
    pub conflicting_files: Vec<ConflictingFile>,
}

/// The mathematical image of a `Conflict`.
#[verifier::ext_equal]
pub ghost struct ConflictView {
    pub original_path: Seq<char>,
    pub conflicting_files: Seq<ConflictingFileView>,
}

impl View for Conflict {
    type V = ConflictView;

    open spec fn view(&self) -> ConflictView {
        ConflictView {
            original_path: self.original_path@,
            conflicting_files: self.conflicting_files@.map_values(|f: ConflictingFile| f@),
        }
    }
}

} // verus!
