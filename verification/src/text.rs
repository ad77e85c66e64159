//! Character classes and prefix-scanning used by the backtracking parser.

use vstd::prelude::*;

verus! {

/// The characters treated as whitespace when skipping blanks: Unicode's
/// White_Space set, the set that `char::is_whitespace` accepts (tab through
/// carriage return, space, next line, no-break space, ogham space mark, the
/// typographic spaces, the line and paragraph separators, the narrow and
/// medium mathematical spaces, and the ideographic space).
pub open spec fn is_ws_char(c: char) -> bool {
    ||| (9 <= (c as u32) && (c as u32) <= 13)
    ||| (c as u32) == 32
    ||| (c as u32) == 0x85
    ||| (c as u32) == 0xA0
    ||| (c as u32) == 0x1680
    ||| (0x2000 <= (c as u32) && (c as u32) <= 0x200A)
    ||| (c as u32) == 0x2028
    ||| (c as u32) == 0x2029
    ||| (c as u32) == 0x202F
    ||| (c as u32) == 0x205F
    ||| (c as u32) == 0x3000
}

/// Whether `c` is a decimal digit.
pub open spec fn is_digit_char(c: char) -> bool {
    48 <= (c as u32) && (c as u32) <= 57
}

/// The numeric value of a decimal digit character.
pub open spec fn digit_val(c: char) -> nat
    recommends
        is_digit_char(c),
{
    ((c as u32) - 48) as nat
}

/// ASCII lower-casing of a single character; everything else is unchanged.
pub open spec fn lower_char(c: char) -> char {
    if 65 <= (c as u32) && (c as u32) <= 90 {
        (((c as u32) + 32) as u8) as char
    } else {
        c
    }
}

pub fn is_ws(c: char) -> (b: bool)
    ensures
        b == is_ws_char(c),
{
    let u = c as u32;
    (9 <= u && u <= 13) || u == 32 || u == 0x85 || u == 0xA0 || u == 0x1680 || (0x2000 <= u && u
        <= 0x200A) || u == 0x2028 || u == 0x2029 || u == 0x202F || u == 0x205F || u == 0x3000
}

pub fn is_digit(c: char) -> (b: bool)
    ensures
        b == is_digit_char(c),
{
    let u = c as u32;
    48 <= u && u <= 57
}

pub fn to_lower(c: char) -> (r: char)
    ensures
        r == lower_char(c),
{
    let u = c as u32;
    if 65 <= u && u <= 90 {
        ((u + 32) as u8) as char
    } else {
        c
    }
}

/// `s` without one trailing space: the final character is dropped exactly
/// when it is a space.
pub open spec fn drop_trailing_space(s: Seq<char>) -> Seq<char> {
    if s.len() > 0 && s.last() == ' ' {
        s.drop_last()
    } else {
        s
    }
}

/// Length of the longest prefix of `s` made of characters other than `stop`.
pub open spec fn scan_not(s: Seq<char>, stop: char) -> nat
    decreases s.len(),
{
    if s.len() == 0 {
        0
    } else if s[0] == stop {
        0
    } else {
        1 + scan_not(s.skip(1), stop)
    }
}

/// Length of the longest prefix of `s` made of decimal digits.
pub open spec fn digit_run_len(s: Seq<char>) -> nat
    decreases s.len(),
{
    if s.len() == 0 {
        0
    } else if !is_digit_char(s[0]) {
        0
    } else {
        1 + digit_run_len(s.skip(1))
    }
}

/// Length of the longest prefix of `s` made of whitespace.
pub open spec fn ws_run_len(s: Seq<char>) -> nat
    decreases s.len(),
{
    if s.len() == 0 {
        0
    } else if !is_ws_char(s[0]) {
        0
    } else {
        1 + ws_run_len(s.skip(1))
    }
}

/// The scan to `stop` ends at the unique `n` with no `stop` before it which
/// is either the whole of `s` or sits just before a `stop`.
pub proof fn lemma_scan_not_unique(s: Seq<char>, stop: char, n: int)
    requires
        0 <= n <= s.len(),
        forall|i: int| 0 <= i < n ==> s[i] != stop,
        n < s.len() ==> s[n] == stop,
    ensures
        n == scan_not(s, stop),
    decreases s.len(),
{
    if s.len() != 0 && s[0] != stop {
        assert(n != 0);
        assert forall|i: int| 0 <= i < n - 1 implies s.skip(1)[i] != stop by {
            assert(s.skip(1)[i] == s[i + 1]);
        }
        if n - 1 < s.skip(1).len() {
            assert(s.skip(1)[n - 1] == s[n]);
        }
        lemma_scan_not_unique(s.skip(1), stop, n - 1);
    }
}

/// The scan to `stop` never sees a `stop` before its end, and stops either
/// at the end of `s` or exactly on a `stop`.
pub proof fn lemma_scan_not_props(s: Seq<char>, stop: char)
    ensures
        scan_not(s, stop) <= s.len(),
        forall|i: int| 0 <= i < scan_not(s, stop) ==> s[i] != stop,
        scan_not(s, stop) < s.len() ==> s[scan_not(s, stop) as int] == stop,
    decreases s.len(),
{
    if s.len() != 0 && s[0] != stop {
        lemma_scan_not_props(s.skip(1), stop);
        assert forall|i: int| 0 <= i < scan_not(s, stop) implies s[i] != stop by {
            if i > 0 {
                assert(s.skip(1)[i - 1] == s[i]);
            }
        }
        if scan_not(s, stop) < s.len() {
            assert(s.skip(1)[scan_not(s.skip(1), stop) as int]
                == s[scan_not(s, stop) as int]);
        }
    }
}

/// The digit run ends at the unique `n` with only digits before it which is
/// either the whole of `s` or sits just before a non-digit.
pub proof fn lemma_digit_run_unique(s: Seq<char>, n: int)
    requires
        0 <= n <= s.len(),
        forall|i: int| 0 <= i < n ==> is_digit_char(s[i]),
        n < s.len() ==> !is_digit_char(s[n]),
    ensures
        n == digit_run_len(s),
    decreases s.len(),
{
    if s.len() != 0 && is_digit_char(s[0]) {
        assert(n != 0);
        assert forall|i: int| 0 <= i < n - 1 implies is_digit_char(s.skip(1)[i]) by {
            assert(s.skip(1)[i] == s[i + 1]);
        }
        if n - 1 < s.skip(1).len() {
            assert(s.skip(1)[n - 1] == s[n]);
        }
        lemma_digit_run_unique(s.skip(1), n - 1);
    }
}

/// The digit run sees only digits before its end, and stops either at the
/// end of `s` or exactly on a non-digit.
pub proof fn lemma_digit_run_props(s: Seq<char>)
    ensures
        digit_run_len(s) <= s.len(),
        forall|i: int| 0 <= i < digit_run_len(s) ==> is_digit_char(s[i]),
        digit_run_len(s) < s.len() ==> !is_digit_char(s[digit_run_len(s) as int]),
    decreases s.len(),
{
    if s.len() != 0 && is_digit_char(s[0]) {
        lemma_digit_run_props(s.skip(1));
        assert forall|i: int| 0 <= i < digit_run_len(s) implies is_digit_char(s[i]) by {
            if i > 0 {
                assert(s.skip(1)[i - 1] == s[i]);
            }
        }
        if digit_run_len(s) < s.len() {
            assert(s.skip(1)[digit_run_len(s.skip(1)) as int]
                == s[digit_run_len(s) as int]);
        }
    }
}

/// The whitespace run ends at the unique `n` with only whitespace before it
/// which is either the whole of `s` or sits just before a non-blank.
pub proof fn lemma_ws_run_unique(s: Seq<char>, n: int)
    requires
        0 <= n <= s.len(),
        forall|i: int| 0 <= i < n ==> is_ws_char(s[i]),
        n < s.len() ==> !is_ws_char(s[n]),
    ensures
        n == ws_run_len(s),
    decreases s.len(),
{
    if s.len() != 0 && is_ws_char(s[0]) {
        assert(n != 0);
        assert forall|i: int| 0 <= i < n - 1 implies is_ws_char(s.skip(1)[i]) by {
            assert(s.skip(1)[i] == s[i + 1]);
        }
        if n - 1 < s.skip(1).len() {
            assert(s.skip(1)[n - 1] == s[n]);
        }
        lemma_ws_run_unique(s.skip(1), n - 1);
    }
}

/// The whitespace run sees only whitespace before its end, and stops either
/// at the end of `s` or exactly on a non-blank.
pub proof fn lemma_ws_run_props(s: Seq<char>)
    ensures
        ws_run_len(s) <= s.len(),
        forall|i: int| 0 <= i < ws_run_len(s) ==> is_ws_char(s[i]),
        ws_run_len(s) < s.len() ==> !is_ws_char(s[ws_run_len(s) as int]),
    decreases s.len(),
{
    if s.len() != 0 && is_ws_char(s[0]) {
        lemma_ws_run_props(s.skip(1));
        assert forall|i: int| 0 <= i < ws_run_len(s) implies is_ws_char(s[i]) by {
            if i > 0 {
                assert(s.skip(1)[i - 1] == s[i]);
            }
        }
        if ws_run_len(s) < s.len() {
            assert(s.skip(1)[ws_run_len(s.skip(1)) as int] == s[ws_run_len(s) as int]);
        }
    }
}

} // verus!
