//! Parses a file conflict encoded in the file name in the form
//!
//!    `<base_name> (<host>'s conflicted copy <date>).txt`
//!
//! e.g. `x_original (blub's conflicted copy 2011-04-30).txt` yields
//! `Some(("x_original.txt", "Version 2011-04-30 from blub"))`.

use vstd::prelude::*;
use vstd::string::StrSliceExecFns;
use crate::parser::{Parser, ParseError, skip_err_msg, starts_with};
use crate::text::{scan_not, drop_trailing_space, lemma_scan_not_unique};
use super::types::{OrigFileName, Details};

verus! {

/// What parsing yields: the original file name and the conflict details, or
/// the message of the parsing step that failed.
pub open spec fn spec_parse_full(s: Seq<char>) -> Result<(Seq<char>, Seq<char>), Seq<char>> {
    let base = drop_trailing_space(s.take(scan_not(s, '(') as int));
    let s1 = s.skip(scan_not(s, '(') as int);
    if !starts_with(s1, "("@) {
        Err(skip_err_msg("("@))
    } else {
        let s2 = s1.skip("("@.len() as int);
        let host = s2.take(scan_not(s2, '\'') as int);
        let s3 = s2.skip(scan_not(s2, '\'') as int);
        if !starts_with(s3, "'s conflicted copy "@) {
            Err(skip_err_msg("'s conflicted copy "@))
        } else {
            let s4 = s3.skip("'s conflicted copy "@.len() as int);
            let date = s4.take(scan_not(s4, ')') as int);
            let s5 = s4.skip(scan_not(s4, ')') as int);
            if !starts_with(s5, ")"@) {
                Err(skip_err_msg(")"@))
            } else {
                let ext = s5.skip(")"@.len() as int);
                Ok((base + ext, "Version "@ + date + " from "@ + host))
            }
        }
    }
}

/// `spec_parse_full` with the failure collapsed to `None`: a file name that
/// does not follow the grammar is expected and no error.
pub open spec fn spec_parse(s: Seq<char>) -> Option<(Seq<char>, Seq<char>)> {
    match spec_parse_full(s) {
        Ok(p) => Some(p),
        Err(_) => None,
    }
}

/// A host-stamped conflict name built from its parts.
pub open spec fn spec_conflict_name(
    base: Seq<char>,
    host: Seq<char>,
    date: Seq<char>,
    ext: Option<Seq<char>>,
) -> Seq<char> {
    base + " ("@ + host + "'s conflicted copy "@ + date + ")"@ + super::types::spec_ext_part(ext)
}

/// Parsing is a pure function of the file name: equal inputs parse to equal
/// results, however often they are parsed.
pub proof fn lemma_parse_pure(s1: Seq<char>, s2: Seq<char>)
    requires
        s1 == s2,
    ensures
        spec_parse(s1) == spec_parse(s2),
{
}

/// Round trip: a name built from any `base` without `(`, `host` without
/// `'`, `date` without `)` and optional extension parses back to exactly
/// the original name (extension appended) and the details naming the date
/// and the host.
pub proof fn lemma_round_trip(
    base: Seq<char>,
    host: Seq<char>,
    date: Seq<char>,
    ext: Option<Seq<char>>,
)
    requires
        forall|i: int| 0 <= i < base.len() ==> base[i] != '(',
        forall|i: int| 0 <= i < host.len() ==> host[i] != '\'',
        forall|i: int| 0 <= i < date.len() ==> date[i] != ')',
    ensures
        spec_parse(spec_conflict_name(base, host, date, ext)) == Some(
            (
                base + super::types::spec_ext_part(ext),
                "Version "@ + date + " from "@ + host,
            ),
        ),
{
    reveal_strlit(" (");
    reveal_strlit("(");
    reveal_strlit("'s conflicted copy ");
    reveal_strlit(")");
    reveal_strlit(".");
    let mid = "'s conflicted copy "@;
    let extp = super::types::spec_ext_part(ext);
    let s = spec_conflict_name(base, host, date, ext);
    let b1 = base.len() as int;

    assert forall|i: int| 0 <= i < b1 + 1 implies s[i] != '(' by {
        if i < b1 {
            assert(s[i] == base[i]);
        } else {
            assert(s[i] == " ("@[0]);
        }
    }
    assert(s[b1 + 1] == " ("@[1]);
    lemma_scan_not_unique(s, '(', b1 + 1);
    assert(s.take(b1 + 1) =~= base.push(' '));
    assert(drop_trailing_space(s.take(b1 + 1)) =~= base);

    let s1 = s.skip(b1 + 1);
    assert(s1 =~= "("@ + host + mid + date + ")"@ + extp);
    assert(s1.take(1) =~= "("@);

    let s2 = s1.skip(1);
    assert(s2 =~= host + mid + date + ")"@ + extp);
    assert(s2[host.len() as int] == mid[0]);
    lemma_scan_not_unique(s2, '\'', host.len() as int);
    assert(s2.take(host.len() as int) =~= host);

    let s3 = s2.skip(host.len() as int);
    assert(s3 =~= mid + date + ")"@ + extp);
    assert(s3.take(mid.len() as int) =~= mid);

    let s4 = s3.skip(mid.len() as int);
    assert(s4 =~= date + ")"@ + extp);
    assert(s4.len() > date.len() && s4[date.len() as int] == ')');
    lemma_scan_not_unique(s4, ')', date.len() as int);
    assert(s4.take(date.len() as int) =~= date);

    let s5 = s4.skip(date.len() as int);
    assert(s5 =~= ")"@ + extp);
    assert(s5.take(1) =~= ")"@);
    assert(s5.skip(1) =~= extp);

    assert(spec_parse_full(s) == Ok::<(Seq<char>, Seq<char>), Seq<char>>(
        (base + extp, "Version "@ + date + " from "@ + host),
    ));
}

/// A decoded original name is strictly shorter than the file name it was
/// decoded from, and made of that name's characters alone.
pub proof fn lemma_parse_name_shape(s: Seq<char>)
    ensures
        spec_parse(s) matches Some(p) ==> p.0.len() < s.len(),
        spec_parse(s) matches Some(p) ==> forall|i: int|
            0 <= i < p.0.len() ==> exists|j: int| 0 <= j < s.len() && s[j] == #[trigger] p.0[i],
{
    reveal_strlit("(");
    reveal_strlit("'s conflicted copy ");
    reveal_strlit(")");
    if spec_parse(s) is Some {
        let mid = "'s conflicted copy "@;
        let n0 = scan_not(s, '(') as int;
        crate::text::lemma_scan_not_props(s, '(');
        let base = drop_trailing_space(s.take(n0));
        let s1 = s.skip(n0);
        let s2 = s1.skip(1);
        assert(s2 =~= s.skip(n0 + 1));
        let n1 = scan_not(s2, '\'') as int;
        crate::text::lemma_scan_not_props(s2, '\'');
        let s3 = s2.skip(n1);
        assert(s3 =~= s.skip(n0 + 1 + n1));
        let s4 = s3.skip(mid.len() as int);
        assert(s4 =~= s.skip(n0 + 1 + n1 + mid.len()));
        let n2 = scan_not(s4, ')') as int;
        crate::text::lemma_scan_not_props(s4, ')');
        let s5 = s4.skip(n2);
        assert(s5 =~= s.skip(n0 + 1 + n1 + mid.len() + n2));
        let off = n0 + 1 + n1 + mid.len() + n2 + 1;
        let ext = s5.skip(1);
        assert(ext =~= s.skip(off));

        assert(base.len() <= n0);
        assert(ext.len() == s.len() - off);
        assert((base + ext).len() < s.len());
        assert forall|i: int| 0 <= i < (base + ext).len() implies exists|j: int|
            0 <= j < s.len() && s[j] == #[trigger] (base + ext)[i] by {
            if i < base.len() {
                assert(s[i] == (base + ext)[i]);
            } else {
                assert(s[off + (i - base.len())] == (base + ext)[i]);
            }
        }
        assert(spec_parse(s) matches Some(p) && p.0 == base + ext);
    }
}

pub fn parse(file_name: &str) -> (r: Option<(OrigFileName, Details)>)
    ensures
        ({
            let o = spec_parse(file_name@);
            match r {
                Some(p) => o == Some((p.0@, p.1@)),
                None => o is None,
            }
        }),
{
    match parse_internal(file_name) {
        Ok(p) => Some(p),
        Err(_) => None,
    }
}

pub fn parse_internal(file_name: &str) -> (r: Result<(OrigFileName, Details), ParseError>)
    ensures
        ({
            let sr = spec_parse_full(file_name@);
            match r {
                Ok(p) => sr == Ok::<(Seq<char>, Seq<char>), Seq<char>>((p.0@, p.1@)),
                Err(e) => sr == Err::<(Seq<char>, Seq<char>), Seq<char>>(e@),
            }
        }),
{
    proof {
        reveal_strlit("(");
        reveal_strlit("'s conflicted copy ");
        reveal_strlit(")");
    }
    let ghost s = file_name@;
    let mut parser = Parser::new(file_name);

    let base_raw = parser.take_while(
        (|c: char| -> (b: bool)
            ensures
                b == (c != '('),
            { c != '(' }),
    );
    proof {
        lemma_scan_not_unique(s, '(', base_raw@.len() as int);
    }

    // drops the single space before the '(', if one is there
    let bl = base_raw.as_str().unicode_len();
    let mut base_name = if bl > 0 && base_raw.as_str().get_char(bl - 1) == ' ' {
        base_raw.as_str().substring_char(0, bl - 1).to_owned()
    } else {
        base_raw
    };
    proof {
        assert(base_name@ =~= drop_trailing_space(s.take(scan_not(s, '(') as int)));
    }

    let ghost s1 = s.skip(scan_not(s, '(') as int);
    match parser.skip("(") {
        Err(e) => {
            return Err(e);
        },
        Ok(_) => {},
    }

    let ghost s2 = s1.skip("("@.len() as int);
    let host = parser.take_while(
        (|c: char| -> (b: bool)
            ensures
                b == (c != '\''),
            { c != '\'' }),
    );
    proof {
        lemma_scan_not_unique(s2, '\'', host@.len() as int);
    }

    let ghost s3 = s2.skip(scan_not(s2, '\'') as int);
    match parser.skip("'s conflicted copy ") {
        Err(e) => {
            return Err(e);
        },
        Ok(_) => {},
    }

    let ghost s4 = s3.skip("'s conflicted copy "@.len() as int);
    let date = parser.take_while(
        (|c: char| -> (b: bool)
            ensures
                b == (c != ')'),
            { c != ')' }),
    );
    proof {
        lemma_scan_not_unique(s4, ')', date@.len() as int);
    }

    let ghost s5 = s4.skip(scan_not(s4, ')') as int);
    match parser.skip(")") {
        Err(e) => {
            return Err(e);
        },
        Ok(_) => {},
    }

    let ghost ext = s5.skip(")"@.len() as int);
    if !parser.eof() {
        let extension = parser.take_till_eof();
        base_name.append(extension.as_str());
    }
    proof {
        assert(base_name@ =~= drop_trailing_space(s.take(scan_not(s, '(') as int)) + ext);
    }

    let mut details = String::from_str("Version ");
    details.append(date.as_str());
    details.append(" from ");
    details.append(host.as_str());
    proof {
        assert(details@ =~= "Version "@ + date@ + " from "@ + host@);
    }

    Ok((base_name, details))
}

} // verus!
