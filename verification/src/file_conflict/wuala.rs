//! Parses a file conflict encoded in the file name in the form
//!
//!    `<base_name> (conflicting version <version> from <host>).<extension>`
//!
//! where the `from <host>` clause is optional and `host` may be empty;
//! e.g. `x_original (conflicting version 5 from blub).txt` yields
//! `Some(("x_original.txt", "Version 5 from blub"))`.

use vstd::prelude::*;
use vstd::string::StrSliceExecFns;
use crate::parser::{Parser, ParseError, skip_err_msg, starts_with};
use crate::text::{scan_not, drop_trailing_space, digit_run_len, lemma_scan_not_unique};
use crate::digits::{dec_str, digits_val, usize_to_string};
use super::types::{OrigFileName, Details};

verus! {

/// What parsing yields: the original file name and the conflict details, or
/// the message of the parsing step that failed.
pub open spec fn spec_parse_full(s: Seq<char>) -> Result<(Seq<char>, Seq<char>), Seq<char>> {
    let base = drop_trailing_space(s.take(scan_not(s, '(') as int));
    let s1 = s.skip(scan_not(s, '(') as int);
    if !starts_with(s1, "(conflicting version "@) {
        Err(skip_err_msg("(conflicting version "@))
    } else {
        let s2 = s1.skip("(conflicting version "@.len() as int);
        let vn = digit_run_len(s2) as int;
        if vn == 0 || digits_val(s2.take(vn)) > usize::MAX {
            Err("Couldn't take uint!"@)
        } else {
            let version = digits_val(s2.take(vn));
            let s3 = s2.skip(vn);
            let s4 = if starts_with(s3, " from "@) {
                s3.skip(" from "@.len() as int)
            } else if starts_with(s3, " from"@) {
                s3.skip(" from"@.len() as int)
            } else {
                s3
            };
            let host = s4.take(scan_not(s4, ')') as int);
            let s5 = s4.skip(scan_not(s4, ')') as int);
            if !starts_with(s5, ")"@) {
                Err(skip_err_msg(")"@))
            } else {
                let ext = s5.skip(")"@.len() as int);
                Ok((base + ext, "Version "@ + dec_str(version) + " from "@ + host))
            }
        }
    }
}

/// `spec_parse_full` with the failure collapsed to `None`: a file name that
/// does not follow the grammar is expected and no error.
pub open spec fn spec_parse(s: Seq<char>) -> Option<(Seq<char>, Seq<char>)> {
    match spec_parse_full(s) {
        Ok(p) => Some(p),
        Err(_) => None,
    }
}

/// A numbered-version conflict name built from its parts, with the `from`
/// clause and the host.
pub open spec fn spec_conflict_name(
    base: Seq<char>,
    version: nat,
    host: Seq<char>,
    ext: Option<Seq<char>>,
) -> Seq<char> {
    base + " (conflicting version "@ + dec_str(version) + " from "@ + host + ")"@
        + super::types::spec_ext_part(ext)
}

/// A numbered-version conflict name without the `from` clause.
pub open spec fn spec_conflict_name_bare(
    base: Seq<char>,
    version: nat,
    ext: Option<Seq<char>>,
) -> Seq<char> {
    base + " (conflicting version "@ + dec_str(version) + ")"@ + super::types::spec_ext_part(ext)
}

/// Parsing is a pure function of the file name: equal inputs parse to equal
/// results, however often they are parsed.
pub proof fn lemma_parse_pure(s1: Seq<char>, s2: Seq<char>)
    requires
        s1 == s2,
    ensures
        spec_parse(s1) == spec_parse(s2),
{
}

/// For a name of the shape `<base> (conflicting version <digits><tail>`,
/// parsing takes `base` up to the space before the parenthesis, the literal,
/// and the maximal digit run, and stands just before `tail`.
proof fn lemma_parse_prefix(base: Seq<char>, version: nat, tail: Seq<char>)
    requires
        forall|i: int| 0 <= i < base.len() ==> base[i] != '(',
        version <= usize::MAX,
        tail.len() > 0,
        !crate::text::is_digit_char(tail[0]),
    ensures
        ({
            let s = base + " (conflicting version "@ + dec_str(version) + tail;
            let s1 = s.skip(scan_not(s, '(') as int);
            let s2 = s1.skip("(conflicting version "@.len() as int);
            &&& drop_trailing_space(s.take(scan_not(s, '(') as int)) == base
            &&& starts_with(s1, "(conflicting version "@)
            &&& digit_run_len(s2) == dec_str(version).len()
            &&& digits_val(s2.take(digit_run_len(s2) as int)) == version
            &&& s2.skip(digit_run_len(s2) as int) == tail
        }),
{
    reveal_strlit(" (conflicting version ");
    reveal_strlit("(conflicting version ");
    let lit = "(conflicting version "@;
    let s = base + " (conflicting version "@ + dec_str(version) + tail;
    let b1 = base.len() as int;
    crate::digits::lemma_dec_str_val(version);
    let dl = dec_str(version).len() as int;

    assert forall|i: int| 0 <= i < b1 + 1 implies s[i] != '(' by {
        if i < b1 {
            assert(s[i] == base[i]);
        } else {
            assert(s[i] == " (conflicting version "@[0]);
        }
    }
    assert(s[b1 + 1] == " (conflicting version "@[1]);
    lemma_scan_not_unique(s, '(', b1 + 1);
    assert(s.take(b1 + 1) =~= base.push(' '));
    assert(drop_trailing_space(s.take(b1 + 1)) =~= base);

    let s1 = s.skip(b1 + 1);
    assert(s1 =~= lit + dec_str(version) + tail);
    assert(s1.take(lit.len() as int) =~= lit);

    let s2 = s1.skip(lit.len() as int);
    assert(s2 =~= dec_str(version) + tail);
    assert forall|i: int| 0 <= i < dl implies crate::text::is_digit_char(s2[i]) by {
        assert(s2[i] == dec_str(version)[i]);
    }
    assert(s2[dl] == tail[0]);
    crate::text::lemma_digit_run_unique(s2, dl);
    assert(s2.take(dl) =~= dec_str(version));
    assert(s2.skip(dl) =~= tail);
}

/// Round trip with the `from` clause: a name built from any `base` without
/// `(`, `version`, `host` without `)` (the empty host included) and
/// optional extension parses back to exactly the original name and the
/// details naming the version and the host.
pub proof fn lemma_round_trip(
    base: Seq<char>,
    version: usize,
    host: Seq<char>,
    ext: Option<Seq<char>>,
)
    requires
        forall|i: int| 0 <= i < base.len() ==> base[i] != '(',
        forall|i: int| 0 <= i < host.len() ==> host[i] != ')',
    ensures
        spec_parse(spec_conflict_name(base, version as nat, host, ext)) == Some(
            (
                base + super::types::spec_ext_part(ext),
                "Version "@ + dec_str(version as nat) + " from "@ + host,
            ),
        ),
{
    reveal_strlit(" from ");
    reveal_strlit(" from");
    reveal_strlit(")");
    let extp = super::types::spec_ext_part(ext);
    let tail = " from "@ + host + ")"@ + extp;
    assert(!crate::text::is_digit_char(tail[0])) by {
        assert(tail[0] == " from "@[0]);
    }
    lemma_parse_prefix(base, version as nat, tail);
    assert(spec_conflict_name(base, version as nat, host, ext) =~= base
        + " (conflicting version "@ + dec_str(version as nat) + tail);

    assert(tail.take(" from "@.len() as int) =~= " from "@);
    let s4 = tail.skip(" from "@.len() as int);
    assert(s4 =~= host + ")"@ + extp);
    assert(s4[host.len() as int] == ')');
    lemma_scan_not_unique(s4, ')', host.len() as int);
    assert(s4.take(host.len() as int) =~= host);
    let s5 = s4.skip(host.len() as int);
    assert(s5 =~= ")"@ + extp);
    assert(s5.take(1) =~= ")"@);
    assert(s5.skip(1) =~= extp);

    assert(spec_parse_full(spec_conflict_name(base, version as nat, host, ext))
        == Ok::<(Seq<char>, Seq<char>), Seq<char>>(
        (base + extp, "Version "@ + dec_str(version as nat) + " from "@ + host),
    ));
}

/// A numbered-version conflict name whose `from` keyword carries no host
/// and no trailing space.
pub open spec fn spec_conflict_name_short_from(
    base: Seq<char>,
    version: nat,
    ext: Option<Seq<char>>,
) -> Seq<char> {
    base + " (conflicting version "@ + dec_str(version) + " from"@ + ")"@
        + super::types::spec_ext_part(ext)
}

/// Round trip with the `from` keyword but no trailing space: the host then
/// reads as empty, and the details still name it after `from`.
pub proof fn lemma_round_trip_short_from(base: Seq<char>, version: usize, ext: Option<Seq<char>>)
    requires
        forall|i: int| 0 <= i < base.len() ==> base[i] != '(',
    ensures
        spec_parse(spec_conflict_name_short_from(base, version as nat, ext)) == Some(
            (
                base + super::types::spec_ext_part(ext),
                "Version "@ + dec_str(version as nat) + " from "@,
            ),
        ),
{
    reveal_strlit(" from ");
    reveal_strlit(" from");
    reveal_strlit(")");
    let extp = super::types::spec_ext_part(ext);
    let tail = " from"@ + ")"@ + extp;
    assert(!crate::text::is_digit_char(tail[0])) by {
        assert(tail[0] == " from"@[0]);
    }
    lemma_parse_prefix(base, version as nat, tail);
    assert(spec_conflict_name_short_from(base, version as nat, ext) =~= base
        + " (conflicting version "@ + dec_str(version as nat) + tail);

    assert(!starts_with(tail, " from "@)) by {
        if starts_with(tail, " from "@) {
            assert(tail.take(" from "@.len() as int)[5] == " from "@[5]);
            assert(tail[5] == ')');
        }
    }
    assert(starts_with(tail, " from"@)) by {
        assert(tail.take(" from"@.len() as int) =~= " from"@);
    }
    let s4 = tail.skip(" from"@.len() as int);
    assert(s4 =~= ")"@ + extp);
    assert(s4[0] == ')');
    lemma_scan_not_unique(s4, ')', 0);
    assert(s4.take(0) =~= Seq::<char>::empty());
    assert(s4.skip(0) =~= s4);
    assert(s4.take(1) =~= ")"@);
    assert(s4.skip(1) =~= extp);

    assert("Version "@ + dec_str(version as nat) + " from "@ + Seq::<char>::empty()
        =~= "Version "@ + dec_str(version as nat) + " from "@);
    assert(spec_parse_full(spec_conflict_name_short_from(base, version as nat, ext))
        == Ok::<(Seq<char>, Seq<char>), Seq<char>>(
        (base + extp, "Version "@ + dec_str(version as nat) + " from "@),
    ));
}

/// Round trip without the `from` clause: the host then reads as empty, and
/// the details still name it after `from`.
pub proof fn lemma_round_trip_bare(base: Seq<char>, version: usize, ext: Option<Seq<char>>)
    requires
        forall|i: int| 0 <= i < base.len() ==> base[i] != '(',
    ensures
        spec_parse(spec_conflict_name_bare(base, version as nat, ext)) == Some(
            (
                base + super::types::spec_ext_part(ext),
                "Version "@ + dec_str(version as nat) + " from "@,
            ),
        ),
{
    reveal_strlit(" from ");
    reveal_strlit(" from");
    reveal_strlit(")");
    let extp = super::types::spec_ext_part(ext);
    let tail = ")"@ + extp;
    assert(!crate::text::is_digit_char(tail[0])) by {
        assert(tail[0] == ")"@[0]);
    }
    lemma_parse_prefix(base, version as nat, tail);
    assert(spec_conflict_name_bare(base, version as nat, ext) =~= base
        + " (conflicting version "@ + dec_str(version as nat) + tail);

    assert(!starts_with(tail, " from "@)) by {
        if starts_with(tail, " from "@) {
            assert(tail.take(" from "@.len() as int)[0] == " from "@[0]);
        }
    }
    assert(!starts_with(tail, " from"@)) by {
        if starts_with(tail, " from"@) {
            assert(tail.take(" from"@.len() as int)[0] == " from"@[0]);
        }
    }
    assert(tail[0] == ')');
    lemma_scan_not_unique(tail, ')', 0);
    assert(tail.take(0) =~= Seq::<char>::empty());
    assert(tail.skip(0) =~= tail);
    assert(tail.take(1) =~= ")"@);
    assert(tail.skip(1) =~= extp);

    assert("Version "@ + dec_str(version as nat) + " from "@ + Seq::<char>::empty()
        =~= "Version "@ + dec_str(version as nat) + " from "@);
    assert(spec_parse_full(spec_conflict_name_bare(base, version as nat, ext))
        == Ok::<(Seq<char>, Seq<char>), Seq<char>>(
        (base + extp, "Version "@ + dec_str(version as nat) + " from "@),
    ));
}

/// A decoded original name is strictly shorter than the file name it was
/// decoded from, and made of that name's characters alone.
pub proof fn lemma_parse_name_shape(s: Seq<char>)
    ensures
        spec_parse(s) matches Some(p) ==> p.0.len() < s.len(),
        spec_parse(s) matches Some(p) ==> forall|i: int|
            0 <= i < p.0.len() ==> exists|j: int| 0 <= j < s.len() && s[j] == #[trigger] p.0[i],
{
    reveal_strlit("(conflicting version ");
    reveal_strlit(" from ");
    reveal_strlit(" from");
    reveal_strlit(")");
    if spec_parse(s) is Some {
        let lit = "(conflicting version "@;
        let n0 = scan_not(s, '(') as int;
        crate::text::lemma_scan_not_props(s, '(');
        let base = drop_trailing_space(s.take(n0));
        let s1 = s.skip(n0);
        let s2 = s1.skip(lit.len() as int);
        assert(s2 =~= s.skip(n0 + lit.len()));
        let vn = digit_run_len(s2) as int;
        crate::text::lemma_digit_run_props(s2);
        let s3 = s2.skip(vn);
        assert(s3 =~= s.skip(n0 + lit.len() + vn));
        let k: int = if starts_with(s3, " from "@) {
            " from "@.len() as int
        } else if starts_with(s3, " from"@) {
            " from"@.len() as int
        } else {
            0
        };
        let s4 = s3.skip(k);
        assert(s4 =~= s.skip(n0 + lit.len() + vn + k));
        let nh = scan_not(s4, ')') as int;
        crate::text::lemma_scan_not_props(s4, ')');
        let s5 = s4.skip(nh);
        assert(s5 =~= s.skip(n0 + lit.len() + vn + k + nh));
        let off = n0 + lit.len() + vn + k + nh + 1;
        let ext = s5.skip(1);
        assert(ext =~= s.skip(off));

        assert(base.len() <= n0);
        assert(vn >= 1);
        assert(ext.len() == s.len() - off);
        assert((base + ext).len() < s.len());
        assert forall|i: int| 0 <= i < (base + ext).len() implies exists|j: int|
            0 <= j < s.len() && s[j] == #[trigger] (base + ext)[i] by {
            if i < base.len() {
                assert(s[i] == (base + ext)[i]);
            } else {
                assert(s[off + (i - base.len())] == (base + ext)[i]);
            }
        }
        assert(spec_parse(s) matches Some(p) && p.0 == base + ext);
    }
}

pub fn parse(file_name: &str) -> (r: Option<(OrigFileName, Details)>)
    ensures
        ({
            let o = spec_parse(file_name@);
            match r {
                Some(p) => o == Some((p.0@, p.1@)),
                None => o is None,
            }
        }),
{
    match parse_internal(file_name) {
        Ok(p) => Some(p),
        Err(_) => None,
    }
}

pub fn parse_internal(file_name: &str) -> (r: Result<(OrigFileName, Details), ParseError>)
    ensures
        ({
            let sr = spec_parse_full(file_name@);
            match r {
                Ok(p) => sr == Ok::<(Seq<char>, Seq<char>), Seq<char>>((p.0@, p.1@)),
                Err(e) => sr == Err::<(Seq<char>, Seq<char>), Seq<char>>(e@),
            }
        }),
{
    proof {
        reveal_strlit("(conflicting version ");
        reveal_strlit(" from ");
        reveal_strlit(" from");
        reveal_strlit(")");
    }
    let ghost s = file_name@;
    let mut parser = Parser::new(file_name);

    let base_raw = parser.take_while(
        (|c: char| -> (b: bool)
            ensures
                b == (c != '('),
            { c != '(' }),
    );
    proof {
        lemma_scan_not_unique(s, '(', base_raw@.len() as int);
    }

    // drops the single space before the '(', if one is there
    let bl = base_raw.as_str().unicode_len();
    let mut base_name = if bl > 0 && base_raw.as_str().get_char(bl - 1) == ' ' {
        base_raw.as_str().substring_char(0, bl - 1).to_owned()
    } else {
        base_raw
    };
    proof {
        assert(base_name@ =~= drop_trailing_space(s.take(scan_not(s, '(') as int)));
    }

    let ghost s1 = s.skip(scan_not(s, '(') as int);
    match parser.skip("(conflicting version ") {
        Err(e) => {
            return Err(e);
        },
        Ok(_) => {},
    }

    let ghost s2 = s1.skip("(conflicting version "@.len() as int);
    let version = match parser.take_uint() {
        Err(e) => {
            return Err(e);
        },
        Ok(v) => v,
    };

    let ghost s3 = s2.skip(digit_run_len(s2) as int);
    if parser.skip(" from ").is_err() {
        let _ = parser.skip(" from");
    }

    let ghost s4 = if starts_with(s3, " from "@) {
        s3.skip(" from "@.len() as int)
    } else if starts_with(s3, " from"@) {
        s3.skip(" from"@.len() as int)
    } else {
        s3
    };
    let host = parser.take_while(
        (|c: char| -> (b: bool)
            ensures
                b == (c != ')'),
            { c != ')' }),
    );
    proof {
        lemma_scan_not_unique(s4, ')', host@.len() as int);
    }

    let ghost s5 = s4.skip(scan_not(s4, ')') as int);
    match parser.skip(")") {
        Err(e) => {
            return Err(e);
        },
        Ok(_) => {},
    }

    let ghost ext = s5.skip(")"@.len() as int);
    if !parser.eof() {
        let extension = parser.take_till_eof();
        base_name.append(extension.as_str());
    }
    proof {
        assert(base_name@ =~= drop_trailing_space(s.take(scan_not(s, '(') as int)) + ext);
    }

    let version_str = usize_to_string(version);
    let mut details = String::from_str("Version ");
    details.append(version_str.as_str());
    details.append(" from ");
    details.append(host.as_str());
    proof {
        assert(details@ =~= "Version "@ + dec_str(version as nat) + " from "@ + host@);
    }

    Ok((base_name, details))
}

} // verus!
