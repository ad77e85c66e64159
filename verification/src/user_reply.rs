//! Decodes one line of interactive user input into a typed command,
//! validated against the number of conflicting files of the current
//! conflict.

use vstd::prelude::*;
use vstd::string::StrSliceExecFns;
use crate::parser::Parser;
use crate::text::{lower_char, to_lower, ws_run_len, digit_run_len, is_ws_char, is_digit_char};
use crate::text::{lemma_ws_run_props, lemma_digit_run_props};
use crate::digits::digits_val;

verus! {

/// A 1-based index into a conflict's list of conflicting files.
pub type FileNum = usize;

/// One decoded command of the interactive resolution protocol.
#[derive(Clone, Copy, PartialEq, Eq, Structural, Debug)]
pub enum UserReply {
    TakeFile(FileNum),
    MoveToTrash,
    ShowDiff,
    ShowDiffWith(FileNum),
    ShowDiffBetween(FileNum, FileNum),
    Skip,
    Quit,
    Help,
}

/// Whether `n` is a valid 1-based index into `num` conflicting files.
pub open spec fn spec_valid_file_num(n: nat, num: nat) -> bool {
    1 <= n && n <= num
}

/// The numbers collected from `s`: repeatedly skip whitespace and read a
/// maximal digit run, stopping at the end, at the first non-digit or at a
/// run too large for `usize`.
pub open spec fn spec_take_uints(s: Seq<char>) -> Seq<nat>
    decreases s.len(),
    via spec_take_uints_decreases
{
    if s.len() == 0 {
        Seq::empty()
    } else {
        let s1 = s.skip(ws_run_len(s) as int);
        let n = digit_run_len(s1) as int;
        if n == 0 || digits_val(s1.take(n)) > usize::MAX {
            Seq::empty()
        } else {
            seq![digits_val(s1.take(n))] + spec_take_uints(s1.skip(n))
        }
    }
}

#[via_fn]
proof fn spec_take_uints_decreases(s: Seq<char>) {
    lemma_ws_run_props(s);
    lemma_digit_run_props(s.skip(ws_run_len(s) as int));
}

/// Where collecting the numbers leaves the input: past the collected runs
/// and the whitespace between them, just before whatever stopped the
/// collection.
pub open spec fn spec_take_uints_rest(s: Seq<char>) -> Seq<char>
    decreases s.len(),
    via spec_take_uints_rest_decreases
{
    if s.len() == 0 {
        s
    } else {
        let s1 = s.skip(ws_run_len(s) as int);
        let n = digit_run_len(s1) as int;
        if n == 0 || digits_val(s1.take(n)) > usize::MAX {
            s1
        } else {
            spec_take_uints_rest(s1.skip(n))
        }
    }
}

#[via_fn]
proof fn spec_take_uints_rest_decreases(s: Seq<char>) {
    lemma_ws_run_props(s);
    lemma_digit_run_props(s.skip(ws_run_len(s) as int));
}

/// What one line of input decodes to, given `num` conflicting files.
pub open spec fn spec_parse(input: Seq<char>, num: nat) -> Option<UserReply> {
    if input.len() == 0 || num == 0 {
        None
    } else {
        let r1 = input.skip(ws_run_len(input) as int);
        if r1.len() == 0 {
            None
        } else {
            let c = lower_char(r1[0]);
            let r2 = r1.skip(1);
            let r3 = r2.skip(ws_run_len(r2) as int);
            let nothing_left = r3.len() == 0;
            let uints = spec_take_uints(r3);
            if c == 't' {
                if uints.len() == 1 && spec_valid_file_num(uints[0], num) {
                    Some(UserReply::TakeFile(uints[0] as usize))
                } else {
                    None
                }
            } else if c == 'd' {
                if uints.len() == 0 && num == 1 {
                    Some(UserReply::ShowDiff)
                } else if uints.len() == 1 && spec_valid_file_num(uints[0], num) {
                    Some(UserReply::ShowDiffWith(uints[0] as usize))
                } else if uints.len() == 2 && spec_valid_file_num(uints[0], num)
                    && spec_valid_file_num(uints[1], num) {
                    Some(UserReply::ShowDiffBetween(uints[0] as usize, uints[1] as usize))
                } else {
                    None
                }
            } else if c == 'm' && nothing_left {
                Some(UserReply::MoveToTrash)
            } else if c == 's' && nothing_left {
                Some(UserReply::Skip)
            } else if c == 'q' && nothing_left {
                Some(UserReply::Quit)
            } else if (c == 'h' || c == '?') && nothing_left {
                Some(UserReply::Help)
            } else {
                None
            }
        }
    }
}

fn valid_file_num(file_num: usize, num_confs: usize) -> (b: bool)
    ensures
        b == spec_valid_file_num(file_num as nat, num_confs as nat),
{
    file_num > 0 && file_num <= num_confs
}

fn take_uints(parser: &mut Parser) -> (uints: Vec<usize>)
    requires
        old(parser).wf(),
    ensures
        final(parser).wf(),
        final(parser).saved() == old(parser).saved(),
        uints@.map_values(|u: usize| u as nat) == spec_take_uints(old(parser).remaining()),
        final(parser).remaining() == spec_take_uints_rest(old(parser).remaining()),
{
    let ghost rem0 = old(parser).remaining();
    let mut uints: Vec<usize> = Vec::new();
    loop
        invariant
            parser.wf(),
            parser.saved() == old(parser).saved(),
            spec_take_uints(rem0) == uints@.map_values(|u: usize| u as nat) + spec_take_uints(
                parser.remaining(),
            ),
            spec_take_uints_rest(rem0) == spec_take_uints_rest(parser.remaining()),
        ensures
            parser.wf(),
            parser.saved() == old(parser).saved(),
            spec_take_uints(rem0) == uints@.map_values(|u: usize| u as nat) + spec_take_uints(
                parser.remaining(),
            ),
            spec_take_uints(parser.remaining()).len() == 0,
            spec_take_uints_rest(rem0) == parser.remaining(),
        decreases parser.remaining().len(),
    {
        proof {
            assert(uints@.map_values(|u: usize| u as nat) + Seq::<nat>::empty() =~= uints@
                .map_values(|u: usize| u as nat));
        }
        if parser.eof() {
            break;
        }
        let ghost rem_it = parser.remaining();
        parser.skip_whitespace();
        match parser.take_uint() {
            Err(_) => {
                proof {
                    let s1 = rem_it.skip(ws_run_len(rem_it) as int);
                    lemma_ws_run_props(rem_it);
                    assert(spec_take_uints(rem_it) =~= Seq::<nat>::empty());
                    assert(spec_take_uints_rest(rem_it) =~= s1);
                    if s1.len() > 0 {
                        assert(!is_ws_char(s1[0]));
                        assert(s1.skip(ws_run_len(s1) as int) =~= s1);
                    }
                    assert(spec_take_uints(s1) =~= Seq::<nat>::empty());
                    assert(uints@.map_values(|u: usize| u as nat) + spec_take_uints(s1)
                        =~= uints@.map_values(|u: usize| u as nat));
                }
                break;
            },
            Ok(v) => {
                let ghost s1 = rem_it.skip(ws_run_len(rem_it) as int);
                let ghost n = digit_run_len(s1) as int;
                uints.push(v);
                proof {
                    lemma_ws_run_props(rem_it);
                    lemma_digit_run_props(s1);
                    assert(spec_take_uints(rem_it) =~= seq![digits_val(s1.take(n))]
                        + spec_take_uints(s1.skip(n)));
                    assert(uints@.map_values(|u: usize| u as nat) =~= uints@.drop_last()
                        .map_values(|u: usize| u as nat).push(v as nat));
                    assert(spec_take_uints(rem0) =~= uints@.map_values(|u: usize| u as nat)
                        + spec_take_uints(parser.remaining()));
                }
            },
        }
    }
    proof {
        assert(spec_take_uints(rem0) =~= uints@.map_values(|u: usize| u as nat));
    }
    uints
}

/// Decodes `input` against a conflict with `num_conf_files` conflicting
/// files; `None` stands for input that matches no recognized shape.
pub fn parse(input: &String, num_conf_files: usize) -> (r: Option<UserReply>)
    ensures
        r == spec_parse(input@, num_conf_files as nat),
{
    if input.as_str().is_empty() || num_conf_files == 0 {
        return None;
    }

    let mut parser = Parser::new(input.as_str());
    parser.skip_whitespace();
    let c_raw = match parser.take_char() {
        Err(_) => {
            return None;
        },
        Ok(c) => c,
    };
    let c = to_lower(c_raw);
    parser.skip_whitespace();
    let nothing_left = parser.eof();
    let uints = take_uints(&mut parser);

    if c == 't' {
        if uints.len() == 1 && valid_file_num(uints[0], num_conf_files) {
            Some(UserReply::TakeFile(uints[0]))
        } else {
            None
        }
    } else if c == 'd' {
        if uints.len() == 0 && num_conf_files == 1 {
            Some(UserReply::ShowDiff)
        } else if uints.len() == 1 && valid_file_num(uints[0], num_conf_files) {
            Some(UserReply::ShowDiffWith(uints[0]))
        } else if uints.len() == 2 && valid_file_num(uints[0], num_conf_files)
            && valid_file_num(uints[1], num_conf_files) {
            Some(UserReply::ShowDiffBetween(uints[0], uints[1]))
        } else {
            None
        }
    } else if c == 'm' && nothing_left {
        Some(UserReply::MoveToTrash)
    } else if c == 's' && nothing_left {
        Some(UserReply::Skip)
    } else if c == 'q' && nothing_left {
        Some(UserReply::Quit)
    } else if (c == 'h' || c == '?') && nothing_left {
        Some(UserReply::Help)
    } else {
        None
    }
}

} // verus!
