//! The backtracking text parser built on `Stream`: every operation that can
//! consume part of its input before failing restores the offset it started
//! from when it fails.

use vstd::prelude::*;
use crate::stream::Stream;
use crate::text::{is_ws, is_ws_char, is_digit_char, ws_run_len, digit_run_len};
use crate::text::{lemma_ws_run_unique, lemma_digit_run_unique};
use crate::digits::digits_val;

verus! {

/// A recoverable, local parse failure; carries a human-readable message.
pub type ParseError = String;

/// The message with which skipping the literal `lit` fails.
pub open spec fn skip_err_msg(lit: Seq<char>) -> Seq<char> {
    "Couldn't skip str '"@ + lit + "'!"@
}

/// Whether `s` begins with `lit`, character for character.
pub open spec fn starts_with(s: Seq<char>, lit: Seq<char>) -> bool {
    s.len() >= lit.len() && s.take(lit.len() as int) == lit
}

/// A backtrackable character-position parser over a text buffer.
pub struct Parser<'a> {
    strm: Stream<'a>,
}

impl<'a> Parser<'a> {
    /// What is left of the input from the current offset on.
    pub closed spec fn remaining(&self) -> Seq<char> {
        self.strm.remaining()
    }

    /// The saved offsets of the underlying stream.
    pub closed spec fn saved(&self) -> Seq<int> {
        self.strm.saved()
    }

    /// The whole input, as a sequence of characters.
    pub closed spec fn full(&self) -> Seq<char> {
        self.strm.full()
    }

    /// The current offset, counted in characters.
    pub closed spec fn pos(&self) -> int {
        self.strm.pos()
    }

    pub closed spec fn wf(&self) -> bool {
        self.strm.wf()
    }

    pub fn new(input: &'a str) -> (p: Parser<'a>)
        ensures
            p.wf(),
            p.remaining() == input@,
            p.saved() == Seq::<int>::empty(),
    {
        Parser { strm: Stream::new(input) }
    }

    pub fn eof(&self) -> (b: bool)
        requires
            self.wf(),
        ensures
            b == (self.remaining().len() == 0),
    {
        self.strm.eof()
    }

    /// The not yet consumed part of the input.
    pub fn unconsumed(&self) -> (r: String)
        requires
            self.wf(),
        ensures
            r@ == self.remaining(),
    {
        self.strm.unconsumed()
    }

    /// Skips the literal `lit`. Fails if `lit` is empty or if the input at
    /// the current offset does not carry all of `lit`, character for
    /// character; on failure the offset is left exactly where it was.
    pub fn skip(&mut self, lit: &str) -> (r: Result<(), ParseError>)
        requires
            old(self).wf(),
        ensures
            final(self).wf(),
            final(self).saved() == old(self).saved(),
            r is Ok <==> lit@.len() > 0 && starts_with(old(self).remaining(), lit@),
            r is Ok ==> final(self).remaining() == old(self).remaining().skip(lit@.len() as int),
            r is Err ==> final(self).remaining() == old(self).remaining(),
            r matches Err(e) ==> e@ == if lit@.len() == 0 {
                "Couldn't skip empty str!"@
            } else {
                skip_err_msg(lit@)
            },
    {
        let mut lit_strm = Stream::new(lit);
        if lit_strm.eof() {
            return Err("Couldn't skip empty str!".to_owned());
        }

        let ghost full0 = self.strm.full();
        let ghost pos0 = self.strm.pos();
        let ghost saved0 = self.strm.saved();
        let ghost rem0 = self.remaining();
        proof {
            self.strm.wf_facts();
        }
        self.strm.push_pos();
        let mut matched = true;
        loop
            invariant_except_break
                matched,
                lit_strm.pos() == self.strm.pos() - pos0,
                0 <= lit_strm.pos() <= lit@.len(),
                lit_strm.pos() <= rem0.len(),
                rem0.take(lit_strm.pos()) == lit@.take(lit_strm.pos()),
            invariant
                self.wf(),
                lit_strm.wf(),
                lit_strm.full() == lit@,
                lit_strm.saved() == Seq::<int>::empty(),
                self.strm.full() == full0,
                self.strm.saved() == saved0.push(pos0),
                rem0 == full0.skip(pos0),
                0 <= pos0 <= full0.len(),
            ensures
                self.wf(),
                lit_strm.full() == lit@,
                self.strm.full() == full0,
                self.strm.saved() == saved0.push(pos0),
                matched ==> {
                    &&& rem0.len() >= lit@.len()
                    &&& rem0.take(lit@.len() as int) == lit@
                    &&& self.strm.pos() == pos0 + lit@.len()
                },
                !matched ==> !(rem0.len() >= lit@.len() && rem0.take(lit@.len() as int)
                    == lit@),
            decreases lit@.len() - lit_strm.pos(),
        {
            let ghost i = lit_strm.pos();
            if lit_strm.eof() {
                proof {
                    assert(rem0.take(lit@.len() as int) =~= lit@);
                }
                break;
            }
            if self.strm.eof() {
                matched = false;
                proof {
                    assert(self.remaining() =~= rem0.skip(i));
                    assert(rem0.len() == i);
                }
                break;
            }
            let c_in = self.strm.next_char_or_fail();
            let c_lit = lit_strm.next_char_or_fail();
            proof {
                assert(rem0[i] == full0[pos0 + i]);
                assert(rem0[i] == c_in);
                assert(lit@[i] == c_lit);
            }
            if c_in != c_lit {
                matched = false;
                proof {
                    if rem0.len() >= lit@.len() && rem0.take(lit@.len() as int) == lit@ {
                        assert(rem0.take(lit@.len() as int)[i] == rem0[i]);
                    }
                }
                break;
            }
            proof {
                assert(rem0.take(i + 1) =~= rem0.take(i).push(rem0[i]));
                assert(lit@.take(i + 1) =~= lit@.take(i).push(lit@[i]));
            }
        }

        if matched {
            self.strm.pop_pos();
            proof {
                assert(saved0.push(pos0).drop_last() =~= saved0);
                assert(final(self).remaining() =~= old(self).remaining().skip(
                    lit@.len() as int));
            }
            Ok(())
        } else {
            self.strm.pop_and_reset_pos();
            proof {
                assert(saved0.push(pos0).drop_last() =~= saved0);
                assert(saved0.push(pos0).last() == pos0);
                assert(final(self).remaining() =~= old(self).remaining());
            }
            let mut msg = String::from_str("Couldn't skip str '");
            msg.append(lit);
            msg.append("'!");
            Err(msg)
        }
    }

    /// Greedily consumes characters while `test` accepts them.
    pub fn skip_while<F: Fn(char) -> bool>(&mut self, test: F)
        requires
            old(self).wf(),
            forall|c: char| #[trigger] call_requires(test, (c,)),
        ensures
            final(self).wf(),
            final(self).saved() == old(self).saved(),
            final(self).full() == old(self).full(),
            ({
                let n = old(self).remaining().len() - final(self).remaining().len();
                &&& 0 <= n <= old(self).remaining().len()
                &&& final(self).pos() == old(self).pos() + n
                &&& final(self).remaining() == old(self).remaining().skip(n as int)
                &&& forall|i: int|
                    0 <= i < n ==> call_ensures(test, (old(self).remaining()[i],), true)
                &&& n < old(self).remaining().len() ==> call_ensures(
                    test,
                    (old(self).remaining()[n as int],),
                    false,
                )
            }),
    {
        let ghost full0 = self.strm.full();
        let ghost pos0 = self.strm.pos();
        let ghost saved0 = self.strm.saved();
        let ghost rem0 = self.remaining();
        proof {
            self.strm.wf_facts();
        }
        loop
            invariant
                self.wf(),
                forall|c: char| #[trigger] call_requires(test, (c,)),
                self.strm.full() == full0,
                self.strm.saved() == saved0,
                rem0 == full0.skip(pos0),
                0 <= pos0 <= self.strm.pos() <= full0.len(),
                forall|i: int|
                    0 <= i < self.strm.pos() - pos0 ==> call_ensures(test, (rem0[i],), true),
            ensures
                self.wf(),
                self.strm.full() == full0,
                self.strm.saved() == saved0,
                0 <= pos0 <= self.strm.pos() <= full0.len(),
                forall|i: int|
                    0 <= i < self.strm.pos() - pos0 ==> call_ensures(test, (rem0[i],), true),
                self.strm.pos() - pos0 < rem0.len() ==> call_ensures(
                    test,
                    (rem0[self.strm.pos() - pos0],),
                    false,
                ),
            decreases full0.len() - self.strm.pos(),
        {
            let ghost i = self.strm.pos() - pos0;
            if self.strm.eof() {
                proof {
                    assert(self.remaining() =~= rem0.skip(i));
                }
                break;
            }
            self.strm.push_pos();
            let c = self.strm.next_char_or_fail();
            proof {
                assert(rem0[i] == full0[pos0 + i]);
                assert(rem0[i] == c);
            }
            if test(c) {
                self.strm.pop_pos();
                proof {
                    assert(self.strm.saved() =~= saved0);
                }
            } else {
                self.strm.pop_and_reset_pos();
                proof {
                    assert(self.strm.saved() =~= saved0);
                    assert(saved0.push(i + pos0 + 1).last() == i + pos0 + 1);
                }
                break;
            }
        }
        proof {
            assert(final(self).remaining() =~= rem0.skip(self.strm.pos() - pos0));
            assert(final(self).remaining().len() == rem0.len() - (self.strm.pos() - pos0));
        }
    }

    /// Consumes whitespace.
    pub fn skip_whitespace(&mut self)
        requires
            old(self).wf(),
        ensures
            final(self).wf(),
            final(self).saved() == old(self).saved(),
            final(self).remaining() == old(self).remaining().skip(
                ws_run_len(old(self).remaining()) as int,
            ),
    {
        let ghost rem0 = self.remaining();
        self.skip_while(
            (|c: char| -> (b: bool)
                ensures
                    b == is_ws_char(c),
                { is_ws(c) }),
        );
        proof {
            let n = rem0.len() - self.remaining().len();
            lemma_ws_run_unique(rem0, n as int);
        }
    }

    /// Greedily takes characters while `test` accepts them; never fails, and
    /// returns the consumed prefix (possibly empty).
    pub fn take_while<F: Fn(char) -> bool>(&mut self, test: F) -> (r: String)
        requires
            old(self).wf(),
            forall|c: char| #[trigger] call_requires(test, (c,)),
        ensures
            final(self).wf(),
            final(self).saved() == old(self).saved(),
            r@.len() <= old(self).remaining().len(),
            r@ == old(self).remaining().take(r@.len() as int),
            final(self).remaining() == old(self).remaining().skip(r@.len() as int),
            forall|i: int| 0 <= i < r@.len() ==> call_ensures(test, (old(self).remaining()[i],), true),
            r@.len() < old(self).remaining().len() ==> call_ensures(
                test,
                (old(self).remaining()[r@.len() as int],),
                false,
            ),
    {
        let ghost rem0 = self.remaining();
        proof {
            self.strm.wf_facts();
        }
        let start = self.strm.offset();
        self.skip_while(test);
        let end = self.strm.offset();
        proof {
            self.strm.wf_facts();
        }
        let r = self.strm.take_range(start, end);
        proof {
            assert(r@.len() == end - start);
            assert(r@ =~= rem0.take(r@.len() as int));
        }
        r
    }

    /// Takes the maximal run of decimal digits and reads it as a number.
    /// Fails, leaving the offset unchanged, if there is no digit at the
    /// current offset or if the run's value does not fit in `usize`.
    pub fn take_uint(&mut self) -> (r: Result<usize, ParseError>)
        requires
            old(self).wf(),
        ensures
            final(self).wf(),
            final(self).saved() == old(self).saved(),
            ({
                let rem = old(self).remaining();
                let n = digit_run_len(rem) as int;
                &&& (r is Ok <==> n > 0 && digits_val(rem.take(n)) <= usize::MAX)
                &&& (r matches Ok(v) ==> v == digits_val(rem.take(n)) && final(self).remaining()
                    == rem.skip(n))
                &&& (r matches Err(e) ==> final(self).remaining() == rem && e@
                    == "Couldn't take uint!"@)
            }),
    {
        let ghost full0 = self.strm.full();
        let ghost pos0 = self.strm.pos();
        let ghost saved0 = self.strm.saved();
        let ghost rem0 = self.remaining();
        let start = self.strm.offset();
        proof {
            self.strm.wf_facts();
        }
        self.strm.push_pos();
        let mut val: usize = 0;
        let mut over = false;
        loop
            invariant
                self.wf(),
                self.strm.full() == full0,
                self.strm.saved() == saved0.push(pos0),
                rem0 == full0.skip(pos0),
                0 <= pos0 <= self.strm.pos() <= full0.len(),
                forall|i: int| 0 <= i < self.strm.pos() - pos0 ==> is_digit_char(rem0[i]),
                !over ==> val == digits_val(rem0.take(self.strm.pos() - pos0)),
                over ==> digits_val(rem0.take(self.strm.pos() - pos0)) > usize::MAX,
            ensures
                self.wf(),
                self.strm.full() == full0,
                self.strm.saved() == saved0.push(pos0),
                self.strm.pos() - pos0 == digit_run_len(rem0),
                !over ==> val == digits_val(rem0.take(self.strm.pos() - pos0)),
                over ==> digits_val(rem0.take(self.strm.pos() - pos0)) > usize::MAX,
            decreases full0.len() - self.strm.pos(),
        {
            let ghost i = self.strm.pos() - pos0;
            if self.strm.eof() {
                proof {
                    assert(self.remaining() =~= rem0.skip(i));
                    assert(rem0.len() == i);
                    lemma_digit_run_unique(rem0, i);
                }
                break;
            }
            self.strm.push_pos();
            let c = self.strm.next_char_or_fail();
            proof {
                assert(rem0[i] == full0[pos0 + i]);
                assert(rem0[i] == c);
            }
            if !crate::text::is_digit(c) {
                self.strm.pop_and_reset_pos();
                proof {
                    assert(self.strm.saved() =~= saved0.push(pos0));
                    assert(saved0.push(pos0).push(i + pos0 + 1).last() == i + pos0 + 1);
                    lemma_digit_run_unique(rem0, i);
                }
                break;
            }
            self.strm.pop_pos();
            proof {
                assert(self.strm.saved() =~= saved0.push(pos0));
                assert(rem0.take(i + 1) =~= rem0.take(i).push(rem0[i]));
                crate::digits::lemma_digits_val_push(rem0.take(i), rem0[i]);
            }
            let d = (c as u32 - 48) as usize;
            if over || val > (usize::MAX - d) / 10 {
                proof {
                    if !over {
                        lemma_mul10_bound(val as nat, d as nat, usize::MAX as nat);
                    }
                }
                over = true;
            } else {
                proof {
                    lemma_mul10_bound(val as nat, d as nat, usize::MAX as nat);
                }
                val = val * 10 + d;
            }
        }

        let end = self.strm.offset();
        if end == start || over {
            self.strm.pop_and_reset_pos();
            proof {
                assert(saved0.push(pos0).drop_last() =~= saved0);
                assert(saved0.push(pos0).last() == pos0);
                assert(final(self).remaining() =~= old(self).remaining());
            }
            Err(String::from_str("Couldn't take uint!"))
        } else {
            self.strm.pop_pos();
            proof {
                assert(saved0.push(pos0).drop_last() =~= saved0);
                assert(final(self).remaining() =~= old(self).remaining().skip(
                    digit_run_len(old(self).remaining()) as int));
            }
            Ok(val)
        }
    }

    /// Takes one character. Fails only at the end of the input.
    pub fn take_char(&mut self) -> (r: Result<char, ParseError>)
        requires
            old(self).wf(),
        ensures
            final(self).wf(),
            final(self).saved() == old(self).saved(),
            old(self).remaining().len() == 0 ==> (r matches Err(e) && final(self).remaining()
                == old(self).remaining() && e@ == "Couldn't take char!"@),
            old(self).remaining().len() > 0 ==> (r matches Ok(c) && c == old(self).remaining()[0]
                && final(self).remaining() == old(self).remaining().skip(1)),
    {
        if self.strm.eof() {
            return Err(String::from_str("Couldn't take char!"));
        }
        Ok(self.strm.next_char_or_fail())
    }

    /// Consumes and returns everything up to the end of the input.
    pub fn take_till_eof(&mut self) -> (r: String)
        requires
            old(self).wf(),
        ensures
            final(self).wf(),
            final(self).saved() == old(self).saved(),
            r@ == old(self).remaining(),
            final(self).remaining().len() == 0,
    {
        let ghost full0 = self.strm.full();
        let ghost saved0 = self.strm.saved();
        let r = self.strm.unconsumed();
        loop
            invariant
                self.wf(),
                self.strm.full() == full0,
                self.strm.saved() == saved0,
            ensures
                self.wf(),
                self.strm.full() == full0,
                self.strm.saved() == saved0,
                self.remaining().len() == 0,
            decreases self.remaining().len(),
        {
            if self.strm.eof() {
                break;
            }
            let _ = self.strm.next_char_or_fail();
        }
        r
    }
}

/// For a digit value `d` and a bound `m`, appending `d` to a number `v`
/// oversteps `m` exactly when `v` exceeds `(m - d) / 10`.
proof fn lemma_mul10_bound(v: nat, d: nat, m: nat)
    requires
        d <= m,
    ensures
        v * 10 + d > m <==> v > (m - d) / 10,
{
    let q = ((m - d) / 10) as nat;
    vstd::arithmetic::div_mod::lemma_fundamental_div_mod((m - d) as int, 10);
    if v > q {
        assert(v * 10 >= (q + 1) * 10) by (nonlinear_arith)
            requires
                v >= q + 1,
        ;
    } else {
        assert(v * 10 <= q * 10) by (nonlinear_arith)
            requires
                v <= q,
        ;
    }
}

} // verus!
