//! A consumable source-text reader: filters the raw text down to the
//! language's instruction characters and hands them out with peek/next.

use vstd::prelude::*;
use vstd::string::StrSliceExecFns;

verus! {

/// The language's instruction characters.
pub open spec fn is_instruction_char(c: char) -> bool {
    c == '>' || c == '<' || c == '-' || c == '+' || c == '.' || c == ','
    || c == '~' || c == '!' || c == '/' || c == '\\' || c == '|'
    || c == '[' || c == ']' || c == '#' || c == '@' || c == '&'
    || c == '^' || c == '?'
}

/// What remains of a source text after filtering: exactly its instruction
/// characters, in order.
pub open spec fn filter_src(s: Seq<char>) -> Seq<char> {
    s.filter(|c: char| is_instruction_char(c))
}

/// Decides whether `c` is an instruction character.
pub fn instruction_char(c: char) -> (r: bool)
    ensures
        r == is_instruction_char(c),
{
    c == '>' || c == '<' || c == '-' || c == '+' || c == '.' || c == ','
    || c == '~' || c == '!' || c == '/' || c == '\\' || c == '|'
    || c == '[' || c == ']' || c == '#' || c == '@' || c == '&'
    || c == '^' || c == '?'
}

/// A forward-only cursor over the instruction characters of one source
/// text.
#[derive(Debug)]
pub struct Reader {
    ch: Vec<char>,
    pos: usize,
}

impl Reader {
    /// The kept characters.
    pub closed spec fn spec_chars(&self) -> Seq<char> {
        self.ch@
    }

    /// How many of them were consumed.
    pub closed spec fn spec_pos(&self) -> int {
        self.pos as int
    }

    pub open spec fn well_formed(&self) -> bool {
        0 <= self.spec_pos() <= self.spec_chars().len()
    }

    /// What is left to consume.
    pub open spec fn remaining(&self) -> int {
        self.spec_chars().len() - self.spec_pos()
    }

    /// Creates a reader over the instruction characters of `s`; everything
    /// else is dropped.
    #[verifier::loop_isolation(false)]
    pub fn from_string(s: String) -> (r: Reader)
        ensures
            r.well_formed(),
            r.spec_chars() == filter_src(s@),
            r.spec_pos() == 0,
    {
        let str_ref = s.as_str();
        let n = str_ref.unicode_len();
        let mut kept: Vec<char> = Vec::new();
        let mut i: usize = 0;
        proof {
            reveal(Seq::filter);
            assert(s@.take(0) =~= Seq::<char>::empty());
        }
        while i < n
            invariant
                i <= n,
                kept@ == filter_src(s@.take(i as int)),
            decreases n - i,
        {
            let c = str_ref.get_char(i);
            proof {
                reveal(Seq::filter);
                assert(s@.take(i + 1).drop_last() =~= s@.take(i as int));
                assert(s@.take(i + 1).last() == c);
            }
            if instruction_char(c) {
                kept.push(c);
            }
            i = i + 1;
        }
        proof {
            assert(s@.take(n as int) =~= s@);
        }
        Reader { ch: kept, pos: 0 }
    }

    /// The cursor's position among the kept characters.
    pub(crate) fn position(&self) -> (p: usize)
        ensures
            p as int == self.spec_pos(),
    {
        self.pos
    }

    /// The next character, without consuming it.
    pub fn peek(&self) -> (c: char)
        requires
            self.well_formed(),
            self.remaining() > 0,
        ensures
            c == self.spec_chars()[self.spec_pos()],
    {
        self.ch[self.pos]
    }

    /// Whether a character is left.
    pub fn has_next(&self) -> (r: bool)
        ensures
            r == (self.spec_pos() < self.spec_chars().len()),
    {
        self.pos < self.ch.len()
    }

    /// The next character, consuming it.
    pub fn next(&mut self) -> (c: char)
        requires
            old(self).well_formed(),
            old(self).remaining() > 0,
        ensures
            final(self).well_formed(),
            final(self).spec_chars() == old(self).spec_chars(),
            final(self).spec_pos() == old(self).spec_pos() + 1,
            c == old(self).spec_chars()[old(self).spec_pos()],
    {
        let n = self.ch.len();
        let c = self.ch[self.pos];
        self.pos = self.pos + 1;
        c
    }
}

} // verus!
