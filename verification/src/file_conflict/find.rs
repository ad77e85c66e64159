//! Groups candidate file paths into conflicts: every candidate whose file
//! name a matcher decodes is put into the bucket of its inferred original
//! path.

use vstd::prelude::*;
use vstd::string::StrSliceExecFns;
use crate::paths::{file_name_ix, file_name_of, dir_of, with_file_name, file_name_split};
use super::types::{Conflict, ConflictView, ConflictingFile, ConflictingFileView, ConflictType};
use super::{dropbox, wuala};

verus! {

/// What the chosen matcher decodes a file name to.
pub open spec fn spec_matcher(t: ConflictType, s: Seq<char>) -> Option<(Seq<char>, Seq<char>)> {
    match t {
        ConflictType::Wuala => wuala::spec_parse(s),
        ConflictType::Dropbox => dropbox::spec_parse(s),
    }
}

/// The first group keyed by `orig`, or the number of groups when none is.
pub open spec fn group_ix(groups: Seq<ConflictView>, orig: Seq<char>) -> int
    decreases groups.len(),
{
    if groups.len() == 0 {
        0
    } else if groups[0].original_path == orig {
        0
    } else {
        1 + group_ix(groups.skip(1), orig)
    }
}

/// The group index is the unique `n` with no group keyed `orig` before it
/// which either is past every group or names a group keyed `orig`.
pub proof fn lemma_group_ix_unique(groups: Seq<ConflictView>, orig: Seq<char>, n: int)
    requires
        0 <= n <= groups.len(),
        forall|k: int| 0 <= k < n ==> (#[trigger] groups[k]).original_path != orig,
        n < groups.len() ==> groups[n].original_path == orig,
    ensures
        n == group_ix(groups, orig),
    decreases groups.len(),
{
    if groups.len() != 0 && groups[0].original_path != orig {
        assert(n != 0);
        assert forall|k: int| 0 <= k < n - 1 implies (#[trigger] groups.skip(1)[k]).original_path
            != orig by {
            assert(groups.skip(1)[k] == groups[k + 1]);
        }
        if n - 1 < groups.skip(1).len() {
            assert(groups.skip(1)[n - 1] == groups[n]);
        }
        lemma_group_ix_unique(groups.skip(1), orig, n - 1);
    }
}

/// One conflicting file added to the groups: appended to the first group
/// sharing its inferred original path, or opening a new group at the end.
pub open spec fn spec_insert(
    groups: Seq<ConflictView>,
    orig: Seq<char>,
    cf: ConflictingFileView,
) -> Seq<ConflictView> {
    let ix = group_ix(groups, orig);
    if ix < groups.len() {
        groups.update(
            ix,
            ConflictView {
                original_path: groups[ix].original_path,
                conflicting_files: groups[ix].conflicting_files.push(cf),
            },
        )
    } else {
        groups.push(ConflictView { original_path: orig, conflicting_files: seq![cf] })
    }
}

/// The groups built from the candidate paths in order: each candidate whose
/// file name the matcher decodes joins the group of its inferred original
/// path; the others are passed over.
pub open spec fn spec_find(t: ConflictType, files: Seq<Seq<char>>) -> Seq<ConflictView>
    decreases files.len(),
{
    if files.len() == 0 {
        Seq::empty()
    } else {
        let prev = spec_find(t, files.drop_last());
        let f = files.last();
        match spec_matcher(t, file_name_of(f)) {
            Some(p) => spec_insert(
                prev,
                with_file_name(f, p.0),
                ConflictingFileView { details: p.1, path: f },
            ),
            None => prev,
        }
    }
}

/// A well-formed member of a group keyed `orig`: a candidate whose file
/// name the matcher decodes, filed under its inferred original path with
/// the decoded details; its path differs from the original path and keeps
/// its directory.
pub open spec fn member_wf(t: ConflictType, orig: Seq<char>, cf: ConflictingFileView) -> bool {
    &&& spec_matcher(t, file_name_of(cf.path)) matches Some(p) && with_file_name(cf.path, p.0)
        == orig && cf.details == p.1
    &&& cf.path != orig
    &&& dir_of(cf.path) == dir_of(orig)
}

/// A well-formed group: it holds at least one conflicting file, and each of
/// its members is well-formed under the group's key.
pub open spec fn group_wf(t: ConflictType, g: ConflictView) -> bool {
    &&& g.conflicting_files.len() >= 1
    &&& forall|j: int|
        0 <= j < g.conflicting_files.len() ==> member_wf(
            t,
            g.original_path,
            #[trigger] g.conflicting_files[j],
        )
}

/// What `lemma_parse_name_shape` gives, for whichever matcher `t` names.
proof fn lemma_matcher_name_shape(t: ConflictType, s: Seq<char>)
    ensures
        spec_matcher(t, s) matches Some(p) ==> p.0.len() < s.len(),
        spec_matcher(t, s) matches Some(p) ==> forall|i: int|
            0 <= i < p.0.len() ==> exists|j: int| 0 <= j < s.len() && s[j] == #[trigger] p.0[i],
{
    match t {
        ConflictType::Wuala => wuala::lemma_parse_name_shape(s),
        ConflictType::Dropbox => dropbox::lemma_parse_name_shape(s),
    }
}

/// Every group that grouping emits is well-formed: it is non-empty, all of
/// its members decode to the group's inferred original path, and none of
/// them is the original file itself.
pub proof fn lemma_find_groups_wf(t: ConflictType, files: Seq<Seq<char>>)
    ensures
        forall|i: int|
            0 <= i < spec_find(t, files).len() ==> group_wf(t, #[trigger] spec_find(t, files)[i]),
    decreases files.len(),
{
    if files.len() != 0 {
        lemma_find_groups_wf(t, files.drop_last());
        let prev = spec_find(t, files.drop_last());
        let f = files.last();
        match spec_matcher(t, file_name_of(f)) {
            Some(p) => {
                let orig = with_file_name(f, p.0);
                let cf = ConflictingFileView { details: p.1, path: f };

                // the added member is well-formed: its decoded name is
                // shorter than its file name and free of separators, so the
                // inferred original path differs and keeps the directory
                let name = file_name_of(f);
                crate::paths::lemma_file_name_ix_props(f);
                lemma_matcher_name_shape(t, name);
                assert forall|i: int| 0 <= i < name.len() implies #[trigger] name[i] != '/' by {
                    assert(name[i] == f[file_name_ix(f) + i]);
                }
                assert forall|i: int| 0 <= i < p.0.len() implies #[trigger] p.0[i] != '/' by {
                    let j = choose|j: int| 0 <= j < name.len() && name[j] == p.0[i];
                    assert(name[j] != '/');
                }
                crate::paths::lemma_with_file_name_ix(f, p.0);
                assert(member_wf(t, orig, cf)) by {
                    assert(orig.len() == file_name_ix(f) + p.0.len());
                    assert(f.len() == file_name_ix(f) + name.len());
                    assert(p.0.len() < name.len());
                }

                let ix = group_ix(prev, orig);
                lemma_group_ix_le(prev, orig);
                assert forall|i: int| 0 <= i < spec_find(t, files).len() implies group_wf(
                    t,
                    #[trigger] spec_find(t, files)[i],
                ) by {
                    if ix < prev.len() {
                        lemma_group_ix_finds(prev, orig);
                        if i == ix {
                            let g0 = prev[ix];
                            let g = spec_find(t, files)[i];
                            assert(g.original_path == g0.original_path);
                            assert(g.conflicting_files == g0.conflicting_files.push(cf));
                            assert forall|j: int| 0 <= j < g.conflicting_files.len()
                                implies member_wf(
                                t,
                                g.original_path,
                                #[trigger] g.conflicting_files[j],
                            ) by {
                                if j < g0.conflicting_files.len() {
                                    assert(g.conflicting_files[j] == g0.conflicting_files[j]);
                                    assert(member_wf(
                                        t,
                                        g0.original_path,
                                        g0.conflicting_files[j],
                                    ));
                                } else {
                                    assert(g.conflicting_files[j] == cf);
                                }
                            }
                        } else {
                            assert(spec_find(t, files)[i] == prev[i]);
                        }
                    } else {
                        if i < prev.len() {
                            assert(spec_find(t, files)[i] == prev[i]);
                        } else {
                            assert(spec_find(t, files)[i] == ConflictView {
                                original_path: orig,
                                conflicting_files: seq![cf],
                            });
                            assert(spec_find(t, files)[i].conflicting_files[0] == cf);
                        }
                    }
                }
            },
            None => {},
        }
    }
}

/// The group index never runs past the groups.
proof fn lemma_group_ix_le(groups: Seq<ConflictView>, orig: Seq<char>)
    ensures
        0 <= group_ix(groups, orig) <= groups.len(),
    decreases groups.len(),
{
    if groups.len() != 0 && groups[0].original_path != orig {
        lemma_group_ix_le(groups.skip(1), orig);
    }
}

/// When the group index lands inside the groups, it names one keyed `orig`.
proof fn lemma_group_ix_finds(groups: Seq<ConflictView>, orig: Seq<char>)
    ensures
        group_ix(groups, orig) < groups.len() ==> groups[group_ix(groups, orig)].original_path
            == orig,
    decreases groups.len(),
{
    if groups.len() != 0 && groups[0].original_path != orig {
        lemma_group_ix_finds(groups.skip(1), orig);
        lemma_group_ix_le(groups.skip(1), orig);
        if group_ix(groups, orig) < groups.len() {
            assert(groups.skip(1)[group_ix(groups.skip(1), orig)]
                == groups[group_ix(groups, orig)]);
        }
    }
}

/// Applies the matcher for `conf_type` to one file name.
fn apply_matcher(conf_type: ConflictType, file_name: &str) -> (r: Option<(String, String)>)
    ensures
        ({
            let o = spec_matcher(conf_type, file_name@);
            match r {
                Some(p) => o == Some((p.0@, p.1@)),
                None => o is None,
            }
        }),
{
    match conf_type {
        ConflictType::Wuala => wuala::parse(file_name),
        ConflictType::Dropbox => dropbox::parse(file_name),
    }
}

/// Finds all conflicts of type `conf_type` among the candidate file paths
/// `files`, grouped by inferred original path.
pub fn find(conf_type: ConflictType, files: &Vec<String>) -> (confs: Vec<Conflict>)
    ensures
        confs@.map_values(|c: Conflict| c@) == spec_find(conf_type, files.deep_view()),
{
    let mut confs: Vec<Conflict> = Vec::new();
    let ghost fs = files.deep_view();
    proof {
        assert(confs@.map_values(|c: Conflict| c@) =~= spec_find(conf_type, fs.take(0)));
    }
    let mut i: usize = 0;
    while i < files.len()
        invariant
            0 <= i <= files.len(),
            fs == files.deep_view(),
            fs.len() == files@.len(),
            forall|k: int| 0 <= k < files@.len() ==> fs[k] == files@[k]@,
            confs@.map_values(|c: Conflict| c@) == spec_find(conf_type, fs.take(i as int)),
        decreases files.len() - i,
    {
        let ghost prev = confs@.map_values(|c: Conflict| c@);
        let file = &files[i];
        let ix = file_name_split(file.as_str());
        let flen = file.as_str().unicode_len();
        let name = file.as_str().substring_char(ix, flen);
        proof {
            assert(name@ =~= file_name_of(file@));
        }
        match apply_matcher(conf_type, name) {
            None => {},
            Some(p) => {
                let (orig_name, details) = p;
                let dir = file.as_str().substring_char(0, ix);
                let orig = dir.to_owned().concat(orig_name.as_str());
                proof {
                    assert(orig@ =~= with_file_name(file@, orig_name@));
                }
                let cf = ConflictingFile { details, path: file.clone() };
                let mut j: usize = 0;
                loop
                    invariant
                        0 <= j <= confs@.len(),
                        forall|k: int|
                            0 <= k < j ==> (#[trigger] confs@[k])@.original_path != orig@,
                    ensures
                        0 <= j <= confs@.len(),
                        forall|k: int|
                            0 <= k < j ==> (#[trigger] confs@[k])@.original_path != orig@,
                        j < confs@.len() ==> confs@[j as int]@.original_path == orig@,
                    decreases confs@.len() - j,
                {
                    if j == confs.len() {
                        break;
                    }
                    if confs[j].original_path == orig {
                        break;
                    }
                    j = j + 1;
                }
                proof {
                    assert forall|k: int| 0 <= k < j implies (#[trigger] prev[k]).original_path
                        != orig@ by {
                        assert(prev[k] == confs@[k]@);
                    }
                    if j < confs@.len() {
                        assert(prev[j as int] == confs@[j as int]@);
                    }
                    lemma_group_ix_unique(prev, orig@, j as int);
                }
                if j < confs.len() {
                    let mut c = confs.remove(j);
                    c.conflicting_files.push(cf);
                    confs.insert(j, c);
                    proof {
                        assert(confs@.map_values(|c: Conflict| c@) =~~= spec_insert(
                            prev,
                            orig@,
                            cf@,
                        ));
                    }
                } else {
                    let mut group: Vec<ConflictingFile> = Vec::new();
                    group.push(cf);
                    confs.push(Conflict { original_path: orig, conflicting_files: group });
                    proof {
                        assert(confs@.map_values(|c: Conflict| c@) =~~= spec_insert(
                            prev,
                            orig@,
                            cf@,
                        ));
                    }
                }
            },
        }
        proof {
            assert(fs.take(i + 1).drop_last() =~= fs.take(i as int));
            assert(fs.take(i + 1).last() == file@);
        }
        i = i + 1;
    }
    proof {
        assert(fs.take(files@.len() as int) =~= fs);
    }
    confs
}

} // verus!
