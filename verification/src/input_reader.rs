//! The buffered input source that feeds `Read` operations.
//!
//! The interpreter core is pure: a driver supplies lines of input text up
//! front (or between runs), and execution consumes the buffered characters
//! one by one. A `Read` that finds the buffer exhausted surfaces a fault
//! instead of blocking.

use vstd::prelude::*;
use vstd::string::StrSliceExecFns;

verus! {

/// Holds input text and hands its characters out one by one, as their
/// code points.
pub struct InputReader {
    ch: Vec<char>,
    pos: usize,
}

impl InputReader {
    /// The buffered characters.
    pub closed spec fn spec_chars(&self) -> Seq<char> {
        self.ch@
    }

    /// How many of them were consumed already.
    pub closed spec fn spec_pos(&self) -> int {
        self.pos as int
    }

    pub open spec fn well_formed(&self) -> bool {
        0 <= self.spec_pos() <= self.spec_chars().len()
    }

    /// Constructs an empty input reader.
    pub fn new() -> (r: InputReader)
        ensures
            r.well_formed(),
            r.spec_chars() == Seq::<char>::empty(),
            r.spec_pos() == 0,
    {
        InputReader { ch: Vec::new(), pos: 0 }
    }

    /// Whether a character is left to consume.
    pub fn has_next(&self) -> (r: bool)
        ensures
            r == (self.spec_pos() < self.spec_chars().len()),
    {
        self.pos < self.ch.len()
    }

    /// Returns the next character's code point, consuming it.
    pub fn next(&mut self) -> (r: i32)
        requires
            old(self).well_formed(),
            old(self).spec_pos() < old(self).spec_chars().len(),
        ensures
            final(self).well_formed(),
            final(self).spec_chars() == old(self).spec_chars(),
            final(self).spec_pos() == old(self).spec_pos() + 1,
            r == old(self).spec_chars()[old(self).spec_pos()] as u32 as i32,
    {
        let n = self.ch.len();
        let c = self.ch[self.pos];
        self.pos = self.pos + 1;
        proof {
            vstd::utf8::char_is_scalar(c);
            assert(c as u32 <= 0x10FFFFu32);
        }
        let u: u32 = c as u32;
        u as i32
    }

    /// Appends a line of text to the buffer.
    pub fn supply(&mut self, s: &str)
        requires
            old(self).well_formed(),
        ensures
            final(self).well_formed(),
            final(self).spec_chars() == old(self).spec_chars() + s@,
            final(self).spec_pos() == old(self).spec_pos(),
    {
        let n = s.unicode_len();
        let mut i: usize = 0;
        while i < n
            invariant
                i <= n,
                n == s@.len(),
                self.pos == old(self).pos,
                self.ch@ == old(self).ch@ + s@.take(i as int),
            decreases n - i,
        {
            self.ch.push(s.get_char(i));
            i = i + 1;
            proof {
                assert(self.ch@ =~= old(self).ch@ + s@.take(i as int));
            }
        }
        proof {
            assert(self.ch@ =~= old(self).ch@ + s@);
        }
    }
}

} // verus!
