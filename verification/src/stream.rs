//! A backtrackable character stream: a position in a borrowed text plus a
//! stack of saved positions.

use vstd::prelude::*;
use vstd::string::StrSliceExecFns;

verus! {

/// A character-position abstraction over a text buffer. Saved positions form
/// a stack, so that a failed multi-character match can restore the exact
/// offset it started from.
pub struct Stream<'a> {
    input: &'a str,
    len_chars: usize,
    pos: usize,
    pos_stack: Vec<usize>,
}

impl<'a> Stream<'a> {
    /// The whole text under the stream, as a sequence of characters.
    pub closed spec fn full(&self) -> Seq<char> {
        self.input@
    }

    /// The current offset, counted in characters.
    pub closed spec fn pos(&self) -> int {
        self.pos as int
    }

    /// The saved offsets, oldest first.
    pub closed spec fn saved(&self) -> Seq<int> {
        self.pos_stack@.map_values(|p: usize| p as int)
    }

    /// What is left of the text from the current offset on.
    pub open spec fn remaining(&self) -> Seq<char> {
        self.full().skip(self.pos())
    }

    /// The offset and every saved offset lie inside the text.
    pub closed spec fn wf(&self) -> bool {
        &&& self.pos <= self.input@.len()
        &&& self.len_chars == self.input@.len()
        &&& forall|i: int|
            0 <= i < self.pos_stack@.len() ==> #[trigger] self.pos_stack@[i] <= self.input@.len()
    }

    /// The bounds that well-formedness places on the offsets.
    pub proof fn wf_facts(&self)
        requires
            self.wf(),
        ensures
            0 <= self.pos() <= self.full().len(),
            forall|i: int|
                0 <= i < self.saved().len() ==> 0 <= #[trigger] self.saved()[i]
                    <= self.full().len(),
    {
    }

    pub fn new(input: &'a str) -> (s: Stream<'a>)
        ensures
            s.wf(),
            s.full() == input@,
            s.pos() == 0,
            s.saved() == Seq::<int>::empty(),
            s.remaining() == input@,
    {
        let len_chars = input.unicode_len();
        let s = Stream { input, len_chars, pos: 0, pos_stack: Vec::new() };
        proof {
            assert(s.saved() =~= Seq::<int>::empty());
            assert(s.remaining() =~= input@);
        }
        s
    }

    pub fn eof(&self) -> (b: bool)
        requires
            self.wf(),
        ensures
            b == (self.remaining().len() == 0),
    {
        self.pos >= self.len_chars
    }

    /// Returns the character at the current offset and advances past it.
    pub fn next_char_or_fail(&mut self) -> (c: char)
        requires
            old(self).wf(),
            old(self).remaining().len() > 0,
        ensures
            final(self).wf(),
            c == old(self).remaining()[0],
            final(self).full() == old(self).full(),
            final(self).pos() == old(self).pos() + 1,
            final(self).saved() == old(self).saved(),
            final(self).remaining() == old(self).remaining().skip(1),
    {
        let c = self.input.get_char(self.pos);
        self.pos = self.pos + 1;
        proof {
            assert(final(self).remaining() =~= old(self).remaining().skip(1));
        }
        c
    }

    /// Saves the current offset on the stack.
    pub fn push_pos(&mut self)
        requires
            old(self).wf(),
        ensures
            final(self).wf(),
            final(self).full() == old(self).full(),
            final(self).pos() == old(self).pos(),
            final(self).remaining() == old(self).remaining(),
            final(self).saved() == old(self).saved().push(old(self).pos()),
    {
        let p = self.pos;
        self.pos_stack.push(p);
        proof {
            assert(final(self).saved() =~= old(self).saved().push(old(self).pos()));
        }
    }

    /// Discards the most recently saved offset, accepting the progress made
    /// since it was saved. Without one saved, does nothing.
    pub fn pop_pos(&mut self)
        requires
            old(self).wf(),
        ensures
            final(self).wf(),
            final(self).full() == old(self).full(),
            final(self).pos() == old(self).pos(),
            final(self).remaining() == old(self).remaining(),
            final(self).saved() == if old(self).saved().len() > 0 {
                old(self).saved().drop_last()
            } else {
                old(self).saved()
            },
    {
        let _ = self.pos_stack.pop();
        proof {
            if old(self).saved().len() > 0 {
                assert(final(self).saved() =~= old(self).saved().drop_last());
            } else {
                assert(final(self).saved() =~= old(self).saved());
            }
        }
    }

    /// Takes the most recently saved offset off the stack and goes back to
    /// it, undoing the progress made since it was saved. Without one saved,
    /// does nothing.
    pub fn pop_and_reset_pos(&mut self)
        requires
            old(self).wf(),
        ensures
            final(self).wf(),
            final(self).full() == old(self).full(),
            old(self).saved().len() > 0 ==> {
                &&& final(self).pos() == old(self).saved().last()
                &&& final(self).saved() == old(self).saved().drop_last()
            },
            old(self).saved().len() == 0 ==> {
                &&& final(self).pos() == old(self).pos()
                &&& final(self).saved() == old(self).saved()
            },
    {
        if let Some(p) = self.pos_stack.pop() {
            self.pos = p;
        }
        proof {
            if old(self).saved().len() > 0 {
                assert(final(self).saved() =~= old(self).saved().drop_last());
            } else {
                assert(final(self).saved() =~= old(self).saved());
            }
        }
    }

    /// The current offset, for later slicing with `take_range`.
    pub fn offset(&self) -> (p: usize)
        ensures
            p == self.pos(),
    {
        self.pos
    }

    /// The characters of the text between two offsets, as an owned string.
    pub fn take_range(&self, from: usize, to: usize) -> (r: String)
        requires
            self.wf(),
            from <= to <= self.full().len(),
        ensures
            r@ == self.full().subrange(from as int, to as int),
    {
        let sub = self.input.substring_char(from, to);
        sub.to_owned()
    }

    /// The not yet consumed part of the text, as an owned string.
    pub fn unconsumed(&self) -> (r: String)
        requires
            self.wf(),
        ensures
            r@ == self.remaining(),
    {
        let sub = self.input.substring_char(self.pos, self.len_chars);
        sub.to_owned()
    }
}

} // verus!
