//! Helpers for an interactive driver: a consumable character cursor over
//! one typed line, the `:`-command parser, and the balance scanner that
//! decides whether a typed expression is complete.

use vstd::prelude::*;
use vstd::string::StrSliceExecFns;

verus! {

/// A consumable cursor over the characters of one line.
#[derive(Debug)]
pub struct CmdChars {
    chs: Vec<char>,
    pos: usize,
}

impl CmdChars {
    /// The line's characters.
    pub closed spec fn spec_chars(&self) -> Seq<char> {
        self.chs@
    }

    /// The cursor; it may run past the end.
    pub closed spec fn spec_pos(&self) -> int {
        self.pos as int
    }

    /// Creates a new cursor over the characters of `s`.
    #[verifier::loop_isolation(false)]
    pub fn new(s: String) -> (r: CmdChars)
        ensures
            r.spec_chars() == s@,
            r.spec_pos() == 0,
    {
        let str_ref = s.as_str();
        let n = str_ref.unicode_len();
        let mut chs: Vec<char> = Vec::new();
        let mut i: usize = 0;
        while i < n
            invariant
                i <= n,
                n == s@.len(),
                chs@ == s@.take(i as int),
            decreases n - i,
        {
            chs.push(str_ref.get_char(i));
            i = i + 1;
            proof {
                assert(chs@ =~= s@.take(i as int));
            }
        }
        proof {
            assert(s@.take(n as int) =~= s@);
        }
        CmdChars { chs, pos: 0 }
    }

    /// The character under the cursor, or `None` past the end.
    pub fn peek(&self) -> (r: Option<char>)
        ensures
            r == if self.spec_pos() < self.spec_chars().len() {
                Some(self.spec_chars()[self.spec_pos()])
            } else {
                None::<char>
            },
    {
        if self.pos >= self.chs.len() {
            return None;
        }
        Some(self.chs[self.pos])
    }

    /// Advances the cursor without returning anything; it may step past
    /// the end.
    pub fn next(&mut self)
        requires
            old(self).spec_pos() < usize::MAX,
        ensures
            final(self).spec_chars() == old(self).spec_chars(),
            final(self).spec_pos() == old(self).spec_pos() + 1,
    {
        self.pos = self.pos + 1
    }

    /// Replaces the whole line with a new one, rewinding the cursor.
    pub fn push(&mut self, s: String)
        ensures
            final(self).spec_chars() == s@,
            final(self).spec_pos() == 0,
    {
        let fresh = CmdChars::new(s);
        self.chs = fresh.chs;
        self.pos = 0;
    }
}

/// A `:`-prefixed command typed at the interactive prompt.
#[derive(Debug)]
pub enum SpecialCmd {
    /// toggle timing
    Time,
    /// start saving typed expressions to the named file
    File(Vec<char>),
    /// stop saving
    SaveFile,
    /// compile and run the named files
    Load(Vec<Vec<char>>),
    /// not understood
    Error,
    /// show the help text
    Help,
    /// leave the interpreter
    Quit,
}

/// One whitespace-terminated word starting at `p`: its characters and the
/// position after its terminator (or the end).
pub open spec fn read_word(s: Seq<char>, p: int) -> (Seq<char>, int)
    decreases s.len() - p,
{
    if p < 0 || p >= s.len() {
        (Seq::empty(), p)
    } else if s[p] == ' ' || s[p] == '\n' {
        (Seq::empty(), p + 1)
    } else {
        let (w, q) = read_word(s, p + 1);
        (seq![s[p]] + w, q)
    }
}

proof fn lemma_read_word_pos(s: Seq<char>, p: int)
    requires
        0 <= p <= s.len(),
    ensures
        p <= read_word(s, p).1 <= s.len(),
        p < s.len() ==> p < read_word(s, p).1,
    decreases s.len() - p,
{
    if 0 <= p < s.len() && s[p] != ' ' && s[p] != '\n' {
        lemma_read_word_pos(s, p + 1);
    }
}

/// The words from `p` up to a newline or the end.
pub open spec fn read_words(s: Seq<char>, p: int) -> Seq<Seq<char>>
    decreases s.len() - p,
{
    if p < 0 || p >= s.len() || s[p] == '\n' {
        Seq::empty()
    } else {
        let (w, q) = read_word(s, p);
        let q2 = if q <= p || q > s.len() { p + 1 } else { q };
        seq![w] + read_words(s, q2)
    }
}

/// The rest of the line from `p` up to a newline or the end.
pub open spec fn line_rest(s: Seq<char>, p: int) -> Seq<char>
    decreases s.len() - p,
{
    if p < 0 || p >= s.len() || s[p] == '\n' {
        Seq::empty()
    } else {
        seq![s[p]] + line_rest(s, p + 1)
    }
}

/// Whether the cursor still stands on this line, before its newline.
fn more_on_line(chs: &CmdChars) -> (r: bool)
    ensures
        r == (chs.spec_pos() < chs.spec_chars().len()
            && chs.spec_chars()[chs.spec_pos()] != '\n'),
{
    match chs.peek() {
        Some(c) => c != '\n',
        None => false,
    }
}

/// Reads the word at the cursor, consuming its terminator.
#[verifier::loop_isolation(false)]
fn word_at(chs: &mut CmdChars) -> (w: Vec<char>)
    requires
        old(chs).spec_pos() >= 0,
        old(chs).spec_chars().len() < usize::MAX,
    ensures
        final(chs).spec_chars() == old(chs).spec_chars(),
        (w@, final(chs).spec_pos())
            == read_word(old(chs).spec_chars(), old(chs).spec_pos()),
    decreases old(chs).spec_chars().len() - old(chs).spec_pos(),
{
    let mut w: Vec<char> = Vec::new();
    match chs.peek() {
        None => {
            w
        },
        Some(c) => {
            chs.next();
            if c == ' ' || c == '\n' {
                w
            } else {
                let mut rest = word_at(chs);
                w.push(c);
                w.append(&mut rest);
                proof {
                    let (rw, rq) = read_word(old(chs).spec_chars(),
                        old(chs).spec_pos() + 1);
                    assert(w@ =~= seq![c] + rw);
                }
                w
            }
        },
    }
}

/// Parses the `:`-command under the cursor (on the `:` itself): `:q`
/// quits, `:h` shows help, `:t` toggles timing, `:s [file]` toggles
/// saving, `:l files...` loads files; anything else is an error.
#[verifier::loop_isolation(false)]
pub fn special_command(chs: &mut CmdChars) -> (r: SpecialCmd)
    requires
        old(chs).spec_pos() >= 0,
        old(chs).spec_chars().len() < usize::MAX - 1,
        old(chs).spec_pos() <= old(chs).spec_chars().len(),
    ensures
        ({
            let s = old(chs).spec_chars();
            let p = old(chs).spec_pos();
            &&& (p + 1 >= s.len() ==> r is Error)
            &&& (p + 1 < s.len() ==> {
                let c = s[p + 1];
                &&& (c == 't' ==> r is Time)
                &&& (c == 'q' ==> r is Quit)
                &&& (c == 'h' ==> r is Help)
                &&& (c == 'l' ==> (r matches SpecialCmd::Load(files)
                    && files.deep_view() == read_words(s, p + 3)))
                &&& (c == 's' ==> (if p + 3 >= s.len() {
                    r is SaveFile
                } else {
                    (r matches SpecialCmd::File(f) && f@ == line_rest(s, p + 3))
                }))
                &&& (c != 't' && c != 'q' && c != 'h' && c != 'l' && c != 's'
                    ==> r is Error)
            })
        }),
{
    let ghost s = old(chs).spec_chars();
    let ghost p = old(chs).spec_pos();
    chs.next();
    match chs.peek() {
        Some('l') => {
            chs.next();
            chs.next();
            let mut files: Vec<Vec<char>> = Vec::new();
            while more_on_line(chs)
                invariant
                    chs.spec_chars() == s,
                    p + 3 <= chs.spec_pos(),
                    read_words(s, p + 3)
                        == files.deep_view() + read_words(s, chs.spec_pos()),
                decreases s.len() - chs.spec_pos(),
            {
                let ghost q = chs.spec_pos();
                proof {
                    lemma_read_word_pos(s, q);
                }
                let w = word_at(chs);
                files.push(w);
                proof {
                    let (rw, rq) = read_word(s, q);
                    let q2 = if rq <= q || rq > s.len() { q + 1 } else { rq };
                    assert(q2 == chs.spec_pos());
                    assert(files.deep_view()
                        =~~= files.deep_view().drop_last().push(rw));
                    assert(files.deep_view().drop_last() + (seq![rw]
                        + read_words(s, chs.spec_pos()))
                        =~~= files.deep_view() + read_words(s, chs.spec_pos()));
                }
            }
            proof {
                assert(read_words(s, chs.spec_pos()) =~= Seq::<Seq<char>>::empty());
                assert(files.deep_view() + Seq::<Seq<char>>::empty()
                    =~= files.deep_view());
            }
            SpecialCmd::Load(files)
        },
        Some('t') => SpecialCmd::Time,
        Some('s') => {
            chs.next();
            chs.next();
            if matches!(chs.peek(), None) {
                return SpecialCmd::SaveFile;
            }
            let mut file: Vec<char> = Vec::new();
            while more_on_line(chs)
                invariant
                    chs.spec_chars() == s,
                    p + 3 <= chs.spec_pos(),
                    line_rest(s, p + 3) == file@ + line_rest(s, chs.spec_pos()),
                decreases s.len() - chs.spec_pos(),
            {
                let c = match chs.peek() {
                    Some(c) => c,
                    None => {
                        proof {
                            assert(false);
                        }
                        ' '
                    },
                };
                file.push(c);
                chs.next();
                proof {
                    assert(file@.drop_last() + (seq![c] + line_rest(s, chs.spec_pos()))
                        =~= file@ + line_rest(s, chs.spec_pos()));
                }
            }
            proof {
                assert(line_rest(s, chs.spec_pos()) =~= Seq::<char>::empty());
                assert(file@ + Seq::<char>::empty() =~= file@);
            }
            SpecialCmd::File(file)
        },
        Some('q') => SpecialCmd::Quit,
        Some('h') => SpecialCmd::Help,
        _ => SpecialCmd::Error,
    }
}

/// Whether a typed expression is syntactically complete: every `[` has
/// its `]`, every opened `~` its closer, or an error a driver should
/// report at once.
pub enum SequenceStatus {
    /// balanced: the expression can be compiled
    Complete,
    /// inside an open loop or function: the driver should read more input
    NeedMore,
    /// a `]` closed a loop that was never opened
    UnbalancedClose,
    /// a `~` closed a function while loops were still open
    FunWithOpenLoops,
    /// a `~` opened a function inside a loop
    FunInsideLoop,
}

/// The balance scan over `s` from `p`, with `loops` open loops and
/// `fun` telling whether a function is open.
pub open spec fn scan_spec(s: Seq<char>, p: int, loops: int, fun: bool) -> SequenceStatus
    decreases s.len() - p,
{
    if p < 0 || p >= s.len() {
        if loops == 0 && !fun {
            SequenceStatus::Complete
        } else {
            SequenceStatus::NeedMore
        }
    } else if s[p] == '[' {
        scan_spec(s, p + 1, loops + 1, fun)
    } else if s[p] == ']' {
        if loops == 0 {
            SequenceStatus::UnbalancedClose
        } else {
            scan_spec(s, p + 1, loops - 1, fun)
        }
    } else if s[p] == '~' {
        if fun {
            if loops > 0 {
                SequenceStatus::FunWithOpenLoops
            } else {
                scan_spec(s, p + 1, loops, false)
            }
        } else {
            if loops > 0 {
                SequenceStatus::FunInsideLoop
            } else {
                scan_spec(s, p + 1, loops, true)
            }
        }
    } else {
        scan_spec(s, p + 1, loops, fun)
    }
}

/// Scans a typed expression and reports whether it is complete, needs
/// more input, or is already in error.
#[verifier::loop_isolation(false)]
pub fn scan_sequence(s: &str) -> (r: SequenceStatus)
    requires
        s@.len() < 0x8000_0000_0000_0000,
    ensures
        r == scan_spec(s@, 0, 0, false),
{
    let n = s.unicode_len();
    let mut loops: i64 = 0;
    let mut fun = false;
    let mut i: usize = 0;
    while i < n
        invariant
            i <= n,
            n == s@.len(),
            0 <= loops <= i,
            scan_spec(s@, 0, 0, false)
                == scan_spec(s@, i as int, loops as int, fun),
        decreases n - i,
    {
        let c = s.get_char(i);
        if c == '[' {
            loops = loops + 1;
        } else if c == ']' {
            if loops == 0 {
                return SequenceStatus::UnbalancedClose;
            }
            loops = loops - 1;
        } else if c == '~' {
            if fun {
                if loops > 0 {
                    return SequenceStatus::FunWithOpenLoops;
                }
                fun = false;
            } else {
                if loops > 0 {
                    return SequenceStatus::FunInsideLoop;
                }
                fun = true;
            }
        }
        i = i + 1;
    }
    if loops == 0 && !fun {
        SequenceStatus::Complete
    } else {
        SequenceStatus::NeedMore
    }
}

} // verus!
