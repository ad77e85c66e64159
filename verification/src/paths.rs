//! Plain-string path arithmetic: file-name component, directory prefix,
//! joining with a separator.

use vstd::prelude::*;
use vstd::string::StrSliceExecFns;
use crate::parser::Parser;
use crate::text::{scan_not, lemma_scan_not_unique, lemma_scan_not_props};
use crate::digits::{dec_str, usize_to_string};

verus! {

/// The offset at which the file-name component of `p` begins: just after
/// the last separator, or 0 when `p` has none.
pub open spec fn file_name_ix(p: Seq<char>) -> int
    decreases p.len(),
{
    if p.len() == 0 {
        0
    } else if p.last() == '/' {
        p.len() as int
    } else {
        file_name_ix(p.drop_last())
    }
}

/// The file-name component of `p`: everything after the last separator.
pub open spec fn file_name_of(p: Seq<char>) -> Seq<char> {
    p.skip(file_name_ix(p))
}

/// The directory prefix of `p`, separator included: everything up to the
/// file-name component.
pub open spec fn dir_of(p: Seq<char>) -> Seq<char> {
    p.take(file_name_ix(p))
}

/// `p` with its file-name component replaced by `name`.
pub open spec fn with_file_name(p: Seq<char>, name: Seq<char>) -> Seq<char> {
    dir_of(p) + name
}

/// The file-name offset is the unique `i` with no separator at or after it
/// and a separator just before it (unless it is 0).
pub proof fn lemma_file_name_ix_unique(p: Seq<char>, i: int)
    requires
        0 <= i <= p.len(),
        forall|j: int| i <= j < p.len() ==> p[j] != '/',
        i > 0 ==> p[i - 1] == '/',
    ensures
        i == file_name_ix(p),
    decreases p.len(),
{
    if p.len() == 0 {
    } else if p.last() == '/' {
        assert(i == p.len());
    } else {
        assert(i < p.len());
        lemma_file_name_ix_unique(p.drop_last(), i);
    }
}

/// The file-name offset lies inside `p`, nothing from it on is a separator,
/// and it is 0 or sits just after a separator.
pub proof fn lemma_file_name_ix_props(p: Seq<char>)
    ensures
        0 <= file_name_ix(p) <= p.len(),
        forall|j: int| file_name_ix(p) <= j < p.len() ==> p[j] != '/',
        file_name_ix(p) > 0 ==> p[file_name_ix(p) - 1] == '/',
    decreases p.len(),
{
    if p.len() == 0 {
    } else if p.last() == '/' {
    } else {
        lemma_file_name_ix_props(p.drop_last());
        assert forall|j: int| file_name_ix(p) <= j < p.len() implies p[j] != '/' by {
            if j < p.len() - 1 {
                assert(p.drop_last()[j] == p[j]);
            }
        }
        if file_name_ix(p) > 0 {
            assert(p.drop_last()[file_name_ix(p) - 1] == p[file_name_ix(p) - 1]);
        }
    }
}

/// Replacing the file-name component by a separator-free `name` keeps the
/// split point: the new path has the same directory prefix and `name` as
/// its file-name component.
pub proof fn lemma_with_file_name_ix(p: Seq<char>, name: Seq<char>)
    requires
        forall|i: int| 0 <= i < name.len() ==> name[i] != '/',
    ensures
        file_name_ix(with_file_name(p, name)) == file_name_ix(p),
        dir_of(with_file_name(p, name)) == dir_of(p),
        file_name_of(with_file_name(p, name)) == name,
{
    lemma_file_name_ix_props(p);
    let q = with_file_name(p, name);
    let ix = file_name_ix(p);
    assert forall|j: int| ix <= j < q.len() implies q[j] != '/' by {
        assert(q[j] == name[j - ix]);
    }
    if ix > 0 {
        assert(q[ix - 1] == p[ix - 1]);
    }
    lemma_file_name_ix_unique(q, ix);
    assert(dir_of(q) =~= dir_of(p));
    assert(file_name_of(q) =~= name);
}

/// The character offset at which the file-name component of `p` begins.
pub fn file_name_split(p: &str) -> (ix: usize)
    ensures
        ix == file_name_ix(p@),
        0 <= ix <= p@.len(),
{
    let n = p.unicode_len();
    let mut i: usize = n;
    loop
        invariant
            0 <= i <= n,
            n == p@.len(),
            forall|j: int| i <= j < p@.len() ==> p@[j] != '/',
        ensures
            0 <= i <= n,
            forall|j: int| i <= j < p@.len() ==> p@[j] != '/',
            i > 0 ==> p@[i - 1] == '/',
        decreases i,
    {
        if i == 0 {
            break;
        }
        if p.get_char(i - 1) == '/' {
            break;
        }
        i = i - 1;
    }
    proof {
        lemma_file_name_ix_unique(p@, i as int);
    }
    i
}

/// What joining `name` onto the directory `dir` yields: `name` alone when
/// `dir` is empty, otherwise `dir` and `name` with exactly one separator
/// between them.
pub open spec fn spec_path_join(dir: Seq<char>, name: Seq<char>) -> Seq<char> {
    if dir.len() == 0 {
        name
    } else if dir.last() == '/' {
        dir + name
    } else {
        dir + seq!['/'] + name
    }
}

/// Joins `name` onto the directory `dir`.
pub fn path_join(dir: &str, name: &str) -> (r: String)
    ensures
        r@ == spec_path_join(dir@, name@),
{
    proof {
        reveal_strlit("/");
    }
    let n = dir.unicode_len();
    if n == 0 {
        return name.to_owned();
    }
    let mut r = dir.to_owned();
    if dir.get_char(n - 1) != '/' {
        r.append("/");
        proof {
            assert(r@ =~= dir@ + seq!['/']);
        }
    }
    r.append(name);
    proof {
        assert(r@ =~= spec_path_join(dir@, name@));
    }
    r
}

/// `p` with a dash and the decimal rendering of `i` appended, the shape of
/// the alternative names tried when a file name is already taken.
pub fn numbered_path(path: &str, i: usize) -> (r: String)
    ensures
        r@ == path@ + "-"@ + dec_str(i as nat),
{
    let mut r = path.to_owned();
    r.append("-");
    let digits = usize_to_string(i);
    r.append(digits.as_str());
    r
}

/// The pieces of `s` between its spaces, in order: every space separates
/// two pieces, so doubled spaces and spaces at either end yield empty
/// pieces, and the empty string yields one empty piece.
pub open spec fn spec_split_spaces(s: Seq<char>) -> Seq<Seq<char>>
    decreases s.len(),
    via spec_split_spaces_decreases
{
    let n = scan_not(s, ' ') as int;
    if n == s.len() {
        seq![s]
    } else {
        seq![s.take(n)] + spec_split_spaces(s.skip(n + 1))
    }
}

#[via_fn]
proof fn spec_split_spaces_decreases(s: Seq<char>) {
    lemma_scan_not_props(s, ' ');
}

/// Splits `s` on every single space.
pub fn split_spaces(s: &str) -> (parts: Vec<String>)
    ensures
        parts.deep_view() == spec_split_spaces(s@),
{
    proof {
        reveal_strlit(" ");
    }
    let mut parser = Parser::new(s);
    let mut parts: Vec<String> = Vec::new();
    loop
        invariant_except_break
            spec_split_spaces(s@) == parts.deep_view() + spec_split_spaces(parser.remaining()),
        invariant
            parser.wf(),
        ensures
            spec_split_spaces(s@) == parts.deep_view(),
        decreases parser.remaining().len(),
    {
        proof {
            reveal_strlit(" ");
        }
        let ghost rem = parser.remaining();
        let piece = parser.take_while(
            (|c: char| -> (b: bool)
                ensures
                    b == (c != ' '),
                { c != ' ' }),
        );
        proof {
            lemma_scan_not_unique(rem, ' ', piece@.len() as int);
        }
        parts.push(piece);
        proof {
            assert(parts@.drop_last().map_values(|p: String| p.deep_view()) =~= parts@
                .map_values(|p: String| p.deep_view()).drop_last());
            assert(parts.deep_view() =~= parts@.drop_last().map_values(
                |p: String| p.deep_view(),
            ).push(rem.take(scan_not(rem, ' ') as int)));
        }
        if parser.eof() {
            proof {
                assert(scan_not(rem, ' ') == rem.len());
                assert(rem.take(scan_not(rem, ' ') as int) =~= rem);
                assert(spec_split_spaces(rem) == seq![rem]);
                assert(spec_split_spaces(s@) =~~= parts.deep_view());
            }
            break;
        }
        let ghost n = scan_not(rem, ' ') as int;
        proof {
            lemma_scan_not_props(rem, ' ');
            assert(rem[n] == ' ');
            assert(rem.skip(n).take(1) =~= " "@);
        }
        let skipped = parser.skip(" ");
        proof {
            assert(skipped is Ok);
            assert(parser.remaining() =~= rem.skip(n + 1));
            assert(spec_split_spaces(s@) =~~= parts.deep_view() + spec_split_spaces(
                parser.remaining(),
            ));
        }
    }
    parts
}

} // verus!
