//! The dispatcher: a recursive-descent parser turning filtered source
//! characters into operations, loop bodies and staged function bodies.
//!
//! The grammar is stated once, as the spec functions [`parse_one`],
//! [`parse_loop`], [`parse_fun`] and [`parse_unit`]; the executable parser
//! is proved to follow them exactly.

use vstd::prelude::*;
use vstd::wrapping::i32_specs::signed_crop;
use crate::reader::Reader;
use crate::operation::{Operation, OpView, op_view, ops_view, lemma_ops_view_index,
    lemma_ops_view_push, lemma_ops_view_drop_last};
use crate::optimiser::{loop_opt, loop_optimiser};
use crate::function::FunctionHolder;

verus! {

broadcast use lemma_ops_view_index, lemma_ops_view_push, lemma_ops_view_drop_last;

/// A parse error: each variant is one of the ways a compile unit can be
/// rejected.
#[derive(Clone, Copy, Debug, PartialEq, Eq, Structural)]
pub enum ParseError {
    /// `]` with no matching `[`
    StrayClose,
    /// `\` with no preceding `/` call
    StrayBackslash,
    /// a function declared inside a loop
    FunInLoop,
    /// a function declared inside a function
    FunInFun,
    /// the input ended inside a loop
    UnterminatedLoop,
    /// the input ended inside a function
    UnterminatedFun,
    /// a character that the reader should have filtered out
    Unrecognized,
}

/// The exact text the interpreter reports for each parse error.
pub open spec fn spec_message(e: ParseError) -> Seq<char> {
    match e {
        ParseError::StrayClose => "Found ']' without matching '['"@,
        ParseError::StrayBackslash => "Found '\\' without '/' function call"@,
        ParseError::FunInLoop => "Error: functions cannot be declared in loops"@,
        ParseError::FunInFun => "Error: Function inside a function: HOW????"@,
        ParseError::UnterminatedLoop => "Error: loop has no end point"@,
        ParseError::UnterminatedFun => "Error: function has no end point"@,
        ParseError::Unrecognized => "Unidentified character passed filtering"@,
    }
}

impl ParseError {
    /// The message the interpreter reports for this error.
    pub fn message(&self) -> (r: &'static str)
        ensures
            r@ == spec_message(*self),
    {
        match self {
            ParseError::StrayClose => "Found ']' without matching '['",
            ParseError::StrayBackslash => "Found '\\' without '/' function call",
            ParseError::FunInLoop => "Error: functions cannot be declared in loops",
            ParseError::FunInFun => "Error: Function inside a function: HOW????",
            ParseError::UnterminatedLoop => "Error: loop has no end point",
            ParseError::UnterminatedFun => "Error: function has no end point",
            ParseError::Unrecognized => "Unidentified character passed filtering",
        }
    }
}

/// What one dispatch step found.
pub enum Dispatcher {
    /// a simple operation
    Op(Operation),
    /// a function was defined (and staged); no operation is emitted
    Fun,
    /// the input is exhausted
    Empty,
    /// the unit is in error
    Error(ParseError),
}

/// The end of the run of identical characters starting at `p`: the first
/// position past `p` holding a different character, or the input's end.
pub open spec fn run_end(s: Seq<char>, p: int) -> int
    decreases s.len() - p,
{
    if p < 0 || p >= s.len() {
        p
    } else if p + 1 < s.len() && s[p + 1] == s[p] {
        run_end(s, p + 1)
    } else {
        p + 1
    }
}

proof fn lemma_run_end(s: Seq<char>, p: int)
    requires
        0 <= p < s.len(),
    ensures
        p < run_end(s, p) <= s.len(),
        forall|k: int| p <= k < run_end(s, p) ==> s[k] == s[p],
        run_end(s, p) < s.len() ==> s[run_end(s, p)] != s[p],
    decreases s.len() - p,
{
    if p + 1 < s.len() && s[p + 1] == s[p] {
        lemma_run_end(s, p + 1);
    }
}

/// One parse step: an operation, a staged function body, an error, or the
/// end of input.
pub enum ParseStep {
    POp(OpView, int),
    PFun(Seq<OpView>, int),
    PErr(ParseError),
    PEnd,
}

/// A parsed loop or function body: its operations and the position after
/// the closing character, or an error.
pub enum BodyStep {
    BOps(Seq<OpView>, int),
    BErr(ParseError),
}

/// Guards the spec recursion: a parse step always advances and stays
/// inside the input, so this is the identity on the positions that
/// actually occur.
pub open spec fn adv(s: Seq<char>, q: int, q2: int) -> int {
    if q2 <= q || q2 > s.len() {
        q + 1
    } else {
        q2
    }
}

/// Parses one logical unit at position `p`, with `funs` functions
/// (committed plus staged) currently known.
pub open spec fn parse_one(s: Seq<char>, p: int, funs: int) -> ParseStep
    decreases s.len() - p, 0int,
{
    if p < 0 || p >= s.len() {
        ParseStep::PEnd
    } else {
        let e = run_end(s, p);
        let n = signed_crop(e - p);
        match s[p] {
            '>' => ParseStep::POp(OpView::Move(n), e),
            '<' => ParseStep::POp(OpView::Move((0i32).wrapping_sub(n)), e),
            '+' => ParseStep::POp(OpView::Add(n), e),
            '-' => ParseStep::POp(OpView::Add((0i32).wrapping_sub(n)), e),
            '.' => ParseStep::POp(OpView::Write, p + 1),
            ',' => ParseStep::POp(OpView::Read, p + 1),
            '!' => if n > 1 {
                ParseStep::POp(OpView::Assign(signed_crop(funs)), e)
            } else {
                ParseStep::POp(OpView::InsFuns, e)
            },
            '/' => if p + 1 < s.len() && s[p + 1] == '\\' {
                let e2 = run_end(s, p + 1);
                ParseStep::POp(OpView::CallFSep((e2 - (p + 1)) as usize), e2)
            } else {
                ParseStep::POp(OpView::CallFSep(0), p + 1)
            },
            '|' => ParseStep::POp(OpView::CallFun, p + 1),
            ']' => ParseStep::PErr(ParseError::StrayClose),
            '\\' => ParseStep::PErr(ParseError::StrayBackslash),
            '[' => match parse_loop(s, p + 1, funs) {
                BodyStep::BOps(body, q) => ParseStep::POp(loop_opt(body), q),
                BodyStep::BErr(err) => ParseStep::PErr(err),
            },
            '~' => match parse_fun(s, p + 1, funs) {
                BodyStep::BOps(body, q) => ParseStep::PFun(body, q),
                BodyStep::BErr(err) => ParseStep::PErr(err),
            },
            '#' => ParseStep::POp(OpView::Debug, e),
            '@' => ParseStep::POp(OpView::PeekStack, e),
            '&' => ParseStep::POp(OpView::PushStack, p + 1),
            '^' => ParseStep::POp(OpView::PopStack(1), p + 1),
            '?' => ParseStep::POp(OpView::StackLen, e),
            _ => ParseStep::PErr(ParseError::Unrecognized),
        }
    }
}

/// Parses a loop body up to its `]`; a `~` inside is an error.
pub open spec fn parse_loop(s: Seq<char>, q: int, funs: int) -> BodyStep
    decreases s.len() - q, 1int,
{
    if q < 0 || q >= s.len() {
        BodyStep::BErr(ParseError::UnterminatedLoop)
    } else if s[q] == ']' {
        BodyStep::BOps(Seq::empty(), q + 1)
    } else if s[q] == '~' {
        BodyStep::BErr(ParseError::FunInLoop)
    } else {
        match parse_one(s, q, funs) {
            ParseStep::POp(op, q2) => match parse_loop(s, adv(s, q, q2), funs) {
                BodyStep::BOps(rest, e) => BodyStep::BOps(seq![op] + rest, e),
                BodyStep::BErr(err) => BodyStep::BErr(err),
            },
            ParseStep::PFun(_, _) => BodyStep::BErr(ParseError::FunInLoop),
            ParseStep::PErr(err) => BodyStep::BErr(err),
            ParseStep::PEnd => BodyStep::BErr(ParseError::UnterminatedLoop),
        }
    }
}

/// Parses a function body up to its closing `~`; a nested definition is
/// an error.
pub open spec fn parse_fun(s: Seq<char>, q: int, funs: int) -> BodyStep
    decreases s.len() - q, 1int,
{
    if q < 0 || q >= s.len() {
        BodyStep::BErr(ParseError::UnterminatedFun)
    } else if s[q] == '~' {
        BodyStep::BOps(Seq::empty(), q + 1)
    } else {
        match parse_one(s, q, funs) {
            ParseStep::POp(op, q2) => match parse_fun(s, adv(s, q, q2), funs) {
                BodyStep::BOps(rest, e) => BodyStep::BOps(seq![op] + rest, e),
                BodyStep::BErr(err) => BodyStep::BErr(err),
            },
            ParseStep::PFun(_, _) => BodyStep::BErr(ParseError::FunInFun),
            ParseStep::PErr(err) => BodyStep::BErr(err),
            ParseStep::PEnd => BodyStep::BErr(ParseError::UnterminatedFun),
        }
    }
}

/// A whole compile unit: the operations found and the function bodies
/// staged, in order, or the first error.
pub enum UnitOutcome {
    UOk(Seq<OpView>, Seq<Seq<OpView>>),
    UErr(ParseError),
}

/// Parses a whole unit from position `p` with `funs` functions known.
pub open spec fn parse_unit(s: Seq<char>, p: int, funs: int) -> UnitOutcome
    decreases s.len() - p, 3int,
{
    if p < 0 || p >= s.len() {
        UnitOutcome::UOk(Seq::empty(), Seq::empty())
    } else {
        match parse_one(s, p, funs) {
            ParseStep::POp(op, q) => match parse_unit(s, adv(s, p, q), funs) {
                UnitOutcome::UOk(ops, bodies) => UnitOutcome::UOk(seq![op] + ops, bodies),
                UnitOutcome::UErr(err) => UnitOutcome::UErr(err),
            },
            ParseStep::PFun(body, q) => match parse_unit(s, adv(s, p, q), funs + 1) {
                UnitOutcome::UOk(ops, bodies) => UnitOutcome::UOk(ops, seq![body] + bodies),
                UnitOutcome::UErr(err) => UnitOutcome::UErr(err),
            },
            ParseStep::PErr(err) => UnitOutcome::UErr(err),
            ParseStep::PEnd => UnitOutcome::UOk(Seq::empty(), Seq::empty()),
        }
    }
}

/// Every parse step lands inside the input and strictly advances.
pub proof fn lemma_parse_pos(s: Seq<char>, p: int, funs: int)
    requires
        0 <= p < s.len(),
    ensures
        parse_one(s, p, funs) matches ParseStep::POp(_, q) ==> p < q <= s.len(),
        parse_one(s, p, funs) matches ParseStep::PFun(_, q) ==> p < q <= s.len(),
    decreases s.len() - p, 0int,
{
    lemma_run_end(s, p);
    if s[p] == '[' {
        lemma_body_pos(s, p + 1, funs, true);
    } else if s[p] == '~' {
        lemma_body_pos(s, p + 1, funs, false);
    } else if s[p] == '/' {
        if p + 1 < s.len() && s[p + 1] == '\\' {
            lemma_run_end(s, p + 1);
        }
    }
}

/// Every parsed body ends inside the input, past its opening position.
pub proof fn lemma_body_pos(s: Seq<char>, q: int, funs: int, in_loop: bool)
    requires
        0 <= q,
    ensures
        in_loop ==> (parse_loop(s, q, funs) matches BodyStep::BOps(_, e)
            ==> q < e <= s.len()),
        !in_loop ==> (parse_fun(s, q, funs) matches BodyStep::BOps(_, e)
            ==> q < e <= s.len()),
    decreases s.len() - q, 1int,
{
    if q < s.len() {
        let closer = if in_loop { ']' } else { '~' };
        if s[q] == closer {
        } else if in_loop && s[q] == '~' {
        } else {
            lemma_parse_pos(s, q, funs);
            match parse_one(s, q, funs) {
                ParseStep::POp(_, q2) => {
                    lemma_body_pos(s, adv(s, q, q2), funs, in_loop);
                },
                _ => {},
            }
        }
    }
}

/// How a body step extends already-collected operations.
pub open spec fn body_combine(pre: Seq<OpView>, rest: BodyStep) -> BodyStep {
    match rest {
        BodyStep::BOps(o, e) => BodyStep::BOps(pre + o, e),
        BodyStep::BErr(err) => BodyStep::BErr(err),
    }
}

/// What one dispatch step must have done, given the grammar's verdict.
pub open spec fn dispatch_post(
    r: Dispatcher, step: ParseStep,
    rd0: Reader, rd1: Reader,
    fh0: FunctionHolder, fh1: FunctionHolder,
) -> bool {
    match step {
        ParseStep::POp(opv, q) => r matches Dispatcher::Op(op) && op_view(op) == opv
            && rd1.spec_pos() == q && fh1 == fh0,
        ParseStep::PFun(body, q) => r is Fun && rd1.spec_pos() == q
            && fh1.spec_funs() == fh0.spec_funs()
            && fh1.spec_temp().len() == fh0.spec_temp().len() + 1
            && fh1.spec_temp().drop_last() == fh0.spec_temp()
            && ops_view(fh1.spec_temp().last().spec_ops()) == body,
        ParseStep::PErr(e) => r == Dispatcher::Error(e) && fh1 == fh0,
        ParseStep::PEnd => r is Empty && rd1 == rd0 && fh1 == fh0,
    }
}

/// Consumes the maximal run of identical characters at the cursor and
/// returns its exact length.
#[verifier::loop_isolation(false)]
fn run_count(rd: &mut Reader) -> (n: usize)
    requires
        old(rd).well_formed(),
        old(rd).remaining() > 0,
    ensures
        final(rd).well_formed(),
        final(rd).spec_chars() == old(rd).spec_chars(),
        final(rd).spec_pos() == run_end(old(rd).spec_chars(), old(rd).spec_pos()),
        n == final(rd).spec_pos() - old(rd).spec_pos(),
{
    let ghost s = old(rd).spec_chars();
    let ghost p0 = old(rd).spec_pos();
    let ghost re = run_end(s, p0);
    proof {
        lemma_run_end(s, p0);
    }
    let start = rd.position();
    let ch = rd.peek();
    while rd.has_next() && rd.peek() == ch
        invariant
            rd.well_formed(),
            rd.spec_chars() == s,
            p0 <= rd.spec_pos() <= re,
            ch == s[p0],
        decreases s.len() - rd.spec_pos(),
    {
        rd.next();
    }
    proof {
        if rd.spec_pos() < re {
            assert(s[rd.spec_pos()] == s[p0]);
            assert(false);
        }
    }
    let end = rd.position();
    end - start
}

/// Collapses a run of identical characters into its count, cropped to
/// `i32` as a cell-sized counter holds it.
pub fn amalgamate(rd: &mut Reader) -> (r: i32)
    requires
        old(rd).well_formed(),
        old(rd).remaining() > 0,
    ensures
        final(rd).well_formed(),
        final(rd).spec_chars() == old(rd).spec_chars(),
        final(rd).spec_pos() == run_end(old(rd).spec_chars(), old(rd).spec_pos()),
        r == signed_crop(run_end(old(rd).spec_chars(), old(rd).spec_pos())
            - old(rd).spec_pos()),
{
    let n = run_count(rd);
    crate::operation::usize_to_i32(n)
}

/// Parses the next logical unit and returns the corresponding operation,
/// a function-definition notice, the end of input, or an error.
pub fn dispatch(rd: &mut Reader, fh: &mut FunctionHolder) -> (r: Dispatcher)
    requires
        old(rd).well_formed(),
    ensures
        final(rd).well_formed(),
        final(rd).spec_chars() == old(rd).spec_chars(),
        old(rd).spec_pos() <= final(rd).spec_pos() <= old(rd).spec_chars().len(),
        (r is Op || r is Fun) ==> final(rd).spec_pos() > old(rd).spec_pos(),
        (old(rd).remaining() > 0
            && (old(rd).spec_chars()[old(rd).spec_pos()] == ']'
                || old(rd).spec_chars()[old(rd).spec_pos()] == '\\'))
            ==> final(rd).spec_pos() == old(rd).spec_pos() + 1,
        dispatch_post(r,
            parse_one(old(rd).spec_chars(), old(rd).spec_pos(), old(fh).spec_total()),
            *old(rd), *final(rd), *old(fh), *final(fh)),
    decreases old(rd).remaining(), 0int,
{
    let ghost s = old(rd).spec_chars();
    let ghost p = old(rd).spec_pos();
    let ghost funs = old(fh).spec_total();
    if !rd.has_next() {
        return Dispatcher::Empty;
    }
    proof {
        lemma_run_end(s, p);
        lemma_parse_pos(s, p, funs);
    }
    let c = rd.peek();
    match c {
        '>' => Dispatcher::Op(Operation::Move(amalgamate(rd))),
        '<' => {
            let a = amalgamate(rd);
            Dispatcher::Op(Operation::Move((0i32).wrapping_sub(a)))
        },
        '+' => Dispatcher::Op(Operation::Add(amalgamate(rd))),
        '-' => {
            let a = amalgamate(rd);
            Dispatcher::Op(Operation::Add((0i32).wrapping_sub(a)))
        },
        '.' => {
            rd.next();
            Dispatcher::Op(Operation::Write)
        },
        ',' => {
            rd.next();
            Dispatcher::Op(Operation::Read)
        },
        '!' => {
            let n = amalgamate(rd);
            if n > 1 {
                Dispatcher::Op(Operation::Assign(fh.curr_funs()))
            } else {
                Dispatcher::Op(Operation::InsFuns)
            }
        },
        '/' => {
            rd.next();
            if !rd.has_next() {
                return Dispatcher::Op(Operation::CallFSep(0));
            }
            let c2 = rd.peek();
            if c2 == '\\' {
                let k = run_count(rd);
                Dispatcher::Op(Operation::CallFSep(k))
            } else {
                Dispatcher::Op(Operation::CallFSep(0))
            }
        },
        '|' => {
            rd.next();
            Dispatcher::Op(Operation::CallFun)
        },
        ']' => {
            rd.next();
            Dispatcher::Error(ParseError::StrayClose)
        },
        '\\' => {
            rd.next();
            Dispatcher::Error(ParseError::StrayBackslash)
        },
        '[' => {
            rd.next();
            create_loop(rd, fh)
        },
        '~' => {
            rd.next();
            create_fun(rd, fh)
        },
        '#' => {
            let _run: i32 = amalgamate(rd);
            Dispatcher::Op(Operation::Debug)
        },
        '@' => {
            let _run: i32 = amalgamate(rd);
            Dispatcher::Op(Operation::PeekStack)
        },
        '&' => {
            rd.next();
            Dispatcher::Op(Operation::PushStack)
        },
        '^' => {
            rd.next();
            Dispatcher::Op(Operation::PopStack(1))
        },
        '?' => {
            let _run: i32 = amalgamate(rd);
            Dispatcher::Op(Operation::StackLen)
        },
        _ => {
            Dispatcher::Error(ParseError::Unrecognized)
        },
    }
}

/// Parses a loop body up to its matching `]` and hands the body to the
/// loop optimiser.
#[verifier::loop_isolation(false)]
fn create_loop(rd: &mut Reader, fh: &mut FunctionHolder) -> (r: Dispatcher)
    requires
        old(rd).well_formed(),
    ensures
        final(rd).well_formed(),
        final(rd).spec_chars() == old(rd).spec_chars(),
        old(rd).spec_pos() <= final(rd).spec_pos() <= old(rd).spec_chars().len(),
        match parse_loop(old(rd).spec_chars(), old(rd).spec_pos(), old(fh).spec_total()) {
            BodyStep::BOps(body, e) => (r matches Dispatcher::Op(op)
                && op_view(op) == loop_opt(body)
                && final(rd).spec_pos() == e
                && *final(fh) == *old(fh)),
            BodyStep::BErr(err) => r == Dispatcher::Error(err) && *final(fh) == *old(fh),
        },
    decreases old(rd).remaining(), 1int,
{
    let ghost s = old(rd).spec_chars();
    let ghost q0 = old(rd).spec_pos();
    let ghost funs = old(fh).spec_total();
    let mut ops: Vec<Operation> = Vec::new();
    while rd.has_next() && rd.peek() != ']'
        invariant
            rd.well_formed(),
            rd.spec_chars() == s,
            q0 <= rd.spec_pos() <= s.len(),
            *fh == *old(fh),
            parse_loop(s, q0, funs)
                == body_combine(ops_view(ops@), parse_loop(s, rd.spec_pos(), funs)),
        decreases rd.remaining(),
    {
        if rd.peek() == '~' {
            return Dispatcher::Error(ParseError::FunInLoop);
        }
        let ghost q = rd.spec_pos();
        proof {
            lemma_parse_pos(s, q, funs);
        }
        match dispatch(rd, fh) {
            Dispatcher::Op(op) => {
                let ghost body_rest = parse_loop(s, rd.spec_pos(), funs);
                proof {
                    let step = parse_one(s, q, funs);
                    let q2 = step->POp_1;
                    assert(adv(s, q, q2) == q2);
                    assert(ops_view(ops@.push(op)) =~= ops_view(ops@) + seq![op_view(op)]);
                    assert(parse_loop(s, q0, funs) == body_combine(
                        ops_view(ops@) + seq![op_view(op)], body_rest)) by {
                        match body_rest {
                            BodyStep::BOps(rest, e) => {
                                assert((ops_view(ops@) + seq![op_view(op)]) + rest
                                    =~= ops_view(ops@) + (seq![op_view(op)] + rest));
                            },
                            BodyStep::BErr(_) => {},
                        }
                    }
                }
                ops.push(op);
            },
            Dispatcher::Fun => {
                proof {
                    assert(false);
                }
                return Dispatcher::Error(ParseError::FunInLoop);
            },
            Dispatcher::Error(e) => {
                return Dispatcher::Error(e);
            },
            Dispatcher::Empty => {
                proof {
                    assert(false);
                }
                return Dispatcher::Error(ParseError::UnterminatedLoop);
            },
        }
    }
    if !rd.has_next() {
        return Dispatcher::Error(ParseError::UnterminatedLoop);
    }
    rd.next();
    proof {
        assert(ops_view(ops@) + Seq::<OpView>::empty() =~= ops_view(ops@));
    }
    Dispatcher::Op(loop_optimiser(ops))
}

/// Parses a function body up to its closing `~` and stages it.
#[verifier::loop_isolation(false)]
fn create_fun(rd: &mut Reader, fh: &mut FunctionHolder) -> (r: Dispatcher)
    requires
        old(rd).well_formed(),
    ensures
        final(rd).well_formed(),
        final(rd).spec_chars() == old(rd).spec_chars(),
        old(rd).spec_pos() <= final(rd).spec_pos() <= old(rd).spec_chars().len(),
        match parse_fun(old(rd).spec_chars(), old(rd).spec_pos(), old(fh).spec_total()) {
            BodyStep::BOps(body, e) => (r is Fun
                && final(rd).spec_pos() == e
                && final(fh).spec_funs() == old(fh).spec_funs()
                && final(fh).spec_temp().len() == old(fh).spec_temp().len() + 1
                && final(fh).spec_temp().drop_last() == old(fh).spec_temp()
                && ops_view(final(fh).spec_temp().last().spec_ops()) == body),
            BodyStep::BErr(err) => r == Dispatcher::Error(err) && *final(fh) == *old(fh),
        },
    decreases old(rd).remaining(), 1int,
{
    let ghost s = old(rd).spec_chars();
    let ghost q0 = old(rd).spec_pos();
    let ghost funs = old(fh).spec_total();
    let mut ops: Vec<Operation> = Vec::new();
    while rd.has_next() && rd.peek() != '~'
        invariant
            rd.well_formed(),
            rd.spec_chars() == s,
            q0 <= rd.spec_pos() <= s.len(),
            *fh == *old(fh),
            parse_fun(s, q0, funs)
                == body_combine(ops_view(ops@), parse_fun(s, rd.spec_pos(), funs)),
        decreases rd.remaining(),
    {
        let ghost q = rd.spec_pos();
        proof {
            lemma_parse_pos(s, q, funs);
        }
        match dispatch(rd, fh) {
            Dispatcher::Op(op) => {
                let ghost body_rest = parse_fun(s, rd.spec_pos(), funs);
                proof {
                    let step = parse_one(s, q, funs);
                    let q2 = step->POp_1;
                    assert(adv(s, q, q2) == q2);
                    assert(ops_view(ops@.push(op)) =~= ops_view(ops@) + seq![op_view(op)]);
                    assert(parse_fun(s, q0, funs) == body_combine(
                        ops_view(ops@) + seq![op_view(op)], body_rest)) by {
                        match body_rest {
                            BodyStep::BOps(rest, e) => {
                                assert((ops_view(ops@) + seq![op_view(op)]) + rest
                                    =~= ops_view(ops@) + (seq![op_view(op)] + rest));
                            },
                            BodyStep::BErr(_) => {},
                        }
                    }
                }
                ops.push(op);
            },
            Dispatcher::Fun => {
                proof {
                    assert(false);
                }
                return Dispatcher::Error(ParseError::FunInFun);
            },
            Dispatcher::Error(e) => {
                return Dispatcher::Error(e);
            },
            Dispatcher::Empty => {
                proof {
                    assert(false);
                }
                return Dispatcher::Error(ParseError::UnterminatedFun);
            },
        }
    }
    if !rd.has_next() {
        return Dispatcher::Error(ParseError::UnterminatedFun);
    }
    rd.next();
    proof {
        assert(ops_view(ops@) + Seq::<OpView>::empty() =~= ops_view(ops@));
    }
    fh.add_temp(ops);
    Dispatcher::Fun
}

} // verus!
