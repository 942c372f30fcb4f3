//! A complete mathematical machine for the interpreter: a fuel-indexed
//! big-step interpreter over operation views, covering the tape (logical
//! cells and physical layout, including growth and its cap), the
//! auxiliary stack, input, output and the diagnostic log. The executable
//! engine is proved to agree with it outcome for outcome.

use vstd::prelude::*;
use vstd::wrapping::i32_specs::signed_crop;
use crate::operation::{OpView, Fault, low_byte};
use crate::stack_handler::sum_top;
use crate::array_handler::{ArrayHandler, TAPE_CAP, tape_grow};
use crate::exec_io::{ExecIo, DebugSnapshot};
use crate::semantics::total_cells;

verus! {

broadcast use vstd::seq::axiom_seq_index_decreases, vstd::seq::axiom_seq_subrange_decreases;

/// One diagnostic record: the cursor's logical address, the stack, and
/// the committed function count at the moment of recording.
pub struct LogEntry {
    pub pointer: int,
    pub stack: Seq<i32>,
    pub functions: int,
}

/// The whole machine state: logical cells and cursor, the physical tape
/// layout (length, cursor index, displacement), the stack, the input
/// characters and how many were consumed, the output bytes, and the log.
pub struct MState {
    pub cells: Map<int, i32>,
    pub cur: int,
    pub tlen: int,
    pub tpos: int,
    pub tdisp: int,
    pub stack: Seq<i32>,
    pub input: Seq<char>,
    pub inpos: int,
    pub output: Seq<u8>,
    pub log: Seq<LogEntry>,
}

/// What one step of the machine produced: a final state with the fuel
/// left, or a fault with the state at the fault.
pub enum StepOutcome {
    SDone(MState, nat),
    SFault(MState, Fault),
}

/// Remaining fuel never exceeds what was supplied; this guard makes that
/// structural for the recursion (it is the identity on real outcomes).
pub open spec fn capped(rem: nat, cap: nat) -> nat {
    if rem <= cap {
        rem
    } else {
        cap
    }
}

/// A scan: shift the cursor by `off` (growing the tape) while the cell
/// under it is nonzero, one unit of fuel per shift.
pub open spec fn skip_steps(off: int, ms: MState, fuel: nat) -> StepOutcome
    decreases fuel,
{
    if ms.cells[ms.cur] == 0 {
        StepOutcome::SDone(ms, fuel)
    } else if fuel == 0 {
        StepOutcome::SFault(ms, Fault::StepLimit)
    } else {
        let (l2, p2, d2, ok) = tape_grow(ms.tlen, ms.tpos, ms.tdisp, off);
        let ms1 = MState { tlen: l2, tpos: p2, tdisp: d2, ..ms };
        if !ok {
            StepOutcome::SFault(ms1, Fault::TapeLimit)
        } else {
            skip_steps(off,
                MState { cur: ms.cur + off, tpos: p2 + off, ..ms1 },
                (fuel - 1) as nat)
        }
    }
}

/// A multiply-and-clear table applied entry by entry, growing the tape
/// for each target; `false` means a growth was refused partway.
pub open spec fn moveto_steps(ps: Seq<(i32, i32)>, ms: MState, v: i32) -> (MState, bool)
    decreases ps.len(),
{
    if ps.len() == 0 {
        (ms, true)
    } else {
        let (l2, p2, d2, ok) = tape_grow(ms.tlen, ms.tpos, ms.tdisp, ps[0].0 as int);
        let ms1 = MState { tlen: l2, tpos: p2, tdisp: d2, ..ms };
        if !ok {
            (ms1, false)
        } else {
            let a = ms.cur + ps[0].0;
            moveto_steps(ps.drop_first(),
                MState {
                    cells: ms1.cells.insert(a,
                        ms1.cells[a].wrapping_add(v.wrapping_mul(ps[0].1))),
                    ..ms1
                }, v)
        }
    }
}

/// The fresh cells of an isolated call frame: the caller's `args + 1`
/// cells from its cursor at addresses 0 through `args`, zero elsewhere.
pub open spec fn frame_cells(ms: MState, args: int) -> Map<int, i32> {
    Map::total(|a: int| if 0 <= a <= args { ms.cells[ms.cur + a] } else { 0i32 })
}

/// Returning from an isolated frame: the caller keeps its own tape; the
/// stack, input, output and log carry over from the frame.
pub open spec fn unframed(caller: MState, inner: MState) -> MState {
    MState {
        stack: inner.stack,
        input: inner.input,
        inpos: inner.inpos,
        output: inner.output,
        log: inner.log,
        ..caller
    }
}

/// Runs one operation against the machine.
pub open spec fn run_op(op: OpView, fb: Seq<Seq<OpView>>, ms: MState, fuel: nat) -> StepOutcome
    decreases fuel, op, 0int,
{
    match op {
        OpView::Add(i) => StepOutcome::SDone(
            MState {
                cells: ms.cells.insert(ms.cur, ms.cells[ms.cur].wrapping_add(i)),
                ..ms
            }, fuel),
        OpView::Move(i) => {
            let (l2, p2, d2, ok) = tape_grow(ms.tlen, ms.tpos, ms.tdisp, i as int);
            let ms1 = MState { tlen: l2, tpos: p2, tdisp: d2, ..ms };
            if !ok {
                StepOutcome::SFault(ms1, Fault::TapeLimit)
            } else {
                StepOutcome::SDone(
                    MState { cur: ms.cur + i, tpos: p2 + i, ..ms1 }, fuel)
            }
        },
        OpView::MoveTo(ps) => {
            let v = ms.cells[ms.cur];
            if v == 0 {
                StepOutcome::SDone(ms, fuel)
            } else {
                let ms0 = MState { cells: ms.cells.insert(ms.cur, 0), ..ms };
                let (ms1, ok) = moveto_steps(ps, ms0, v);
                if ok {
                    StepOutcome::SDone(ms1, fuel)
                } else {
                    StepOutcome::SFault(ms1, Fault::TapeLimit)
                }
            }
        },
        OpView::SkipMove(i) => skip_steps(i as int, ms, fuel),
        OpView::Assign(i) => StepOutcome::SDone(
            MState { cells: ms.cells.insert(ms.cur, i), ..ms }, fuel),
        OpView::Read => {
            if ms.inpos < ms.input.len() {
                StepOutcome::SDone(
                    MState {
                        cells: ms.cells.insert(ms.cur,
                            ms.input[ms.inpos] as u32 as i32),
                        inpos: ms.inpos + 1,
                        ..ms
                    }, fuel)
            } else {
                StepOutcome::SFault(ms, Fault::InputExhausted)
            }
        },
        OpView::Write => StepOutcome::SDone(
            MState { output: ms.output.push(low_byte(ms.cells[ms.cur])), ..ms }, fuel),
        OpView::While(b) => run_while(b, fb, ms, fuel),
        OpView::InsFuns => StepOutcome::SDone(
            MState { cells: ms.cells.insert(ms.cur, signed_crop(fb.len() as int)), ..ms },
            fuel),
        OpView::CallFun => {
            if fuel == 0 {
                StepOutcome::SFault(ms, Fault::StepLimit)
            } else {
                run_call(fb, ms, (fuel - 1) as nat)
            }
        },
        OpView::CallFSep(args) => {
            if fuel == 0 {
                StepOutcome::SFault(ms, Fault::StepLimit)
            } else {
                run_call_separate(args, fb, ms, (fuel - 1) as nat)
            }
        },
        OpView::Debug => StepOutcome::SDone(
            MState {
                log: ms.log.push(LogEntry {
                    pointer: ms.cur,
                    stack: ms.stack,
                    functions: fb.len() as int,
                }),
                ..ms
            }, fuel),
        OpView::PeekStack => {
            if ms.stack.len() == 0 {
                StepOutcome::SFault(ms, Fault::StackUnderflow)
            } else {
                StepOutcome::SDone(
                    MState {
                        cells: ms.cells.insert(ms.cur,
                            ms.cells[ms.cur].wrapping_add(ms.stack.last())),
                        ..ms
                    }, fuel)
            }
        },
        OpView::PopStack(n) => {
            if ms.stack.len() < n {
                StepOutcome::SFault(ms, Fault::StackUnderflow)
            } else {
                StepOutcome::SDone(
                    MState {
                        cells: ms.cells.insert(ms.cur,
                            ms.cells[ms.cur].wrapping_add(sum_top(ms.stack, n as nat))),
                        stack: ms.stack.take(ms.stack.len() - n),
                        ..ms
                    }, fuel)
            }
        },
        OpView::PushStack => StepOutcome::SDone(
            MState { stack: ms.stack.push(ms.cells[ms.cur]), ..ms }, fuel),
        OpView::StackLen => StepOutcome::SDone(
            MState {
                cells: ms.cells.insert(ms.cur, signed_crop(ms.stack.len() as int)),
                ..ms
            }, fuel),
        OpView::EmptyOp => StepOutcome::SDone(ms, fuel),
    }
}

/// Runs a sequence of operations in order, stopping at the first fault.
pub open spec fn run_seq(ops: Seq<OpView>, fb: Seq<Seq<OpView>>, ms: MState, fuel: nat) -> StepOutcome
    decreases fuel, ops, 1int,
{
    if ops.len() == 0 {
        StepOutcome::SDone(ms, fuel)
    } else {
        match run_op(ops[0], fb, ms, fuel) {
            StepOutcome::SDone(ms2, rem) => run_seq(ops.drop_first(), fb, ms2,
                capped(rem, fuel)),
            StepOutcome::SFault(ms2, f) => StepOutcome::SFault(ms2, f),
        }
    }
}

/// Runs a loop: while the cell at the cursor is nonzero, spend one unit
/// of fuel and run the body once.
pub open spec fn run_while(b: Seq<OpView>, fb: Seq<Seq<OpView>>, ms: MState, fuel: nat) -> StepOutcome
    decreases fuel, b, 2int,
{
    if ms.cells[ms.cur] == 0 {
        StepOutcome::SDone(ms, fuel)
    } else if fuel == 0 {
        StepOutcome::SFault(ms, Fault::StepLimit)
    } else {
        match run_seq(b, fb, ms, (fuel - 1) as nat) {
            StepOutcome::SDone(ms2, rem) => run_while(b, fb, ms2,
                capped(rem, (fuel - 1) as nat)),
            StepOutcome::SFault(ms2, f) => StepOutcome::SFault(ms2, f),
        }
    }
}

/// Calls the committed function indexed by the cell at the cursor, on the
/// same tape: a bad index faults; the dispatch and the entry each spend
/// one unit of fuel.
pub open spec fn run_call(fb: Seq<Seq<OpView>>, ms: MState, fuel: nat) -> StepOutcome
    decreases fuel, fb, 4int,
{
    let n = ms.cells[ms.cur];
    if n < 0 || n >= fb.len() {
        StepOutcome::SFault(ms, Fault::FunctionIndex)
    } else if fuel == 0 {
        StepOutcome::SFault(ms, Fault::StepLimit)
    } else {
        run_body(fb[n as int], fb, ms, (fuel - 1) as nat)
    }
}

/// Entering a committed body: one unit of fuel for the entry, then the
/// body in order.
pub open spec fn run_body(body: Seq<OpView>, fb: Seq<Seq<OpView>>, ms: MState, fuel: nat) -> StepOutcome
    decreases fuel, fb, 3int,
{
    if fuel == 0 {
        StepOutcome::SFault(ms, Fault::StepLimit)
    } else {
        run_seq(body, fb, ms, (fuel - 1) as nat)
    }
}

/// Entering a committed body on a fresh isolated frame: one unit of fuel
/// for the entry; the caller's tape grows to cover the `args + 1` cells
/// being copied out; the frame is `2 * (args + 1)` cells seeded from the
/// caller's cursor; afterwards the frame is discarded and only stack,
/// input, output and log carry back.
pub open spec fn run_body_separate(
    body: Seq<OpView>, args: usize, fb: Seq<Seq<OpView>>, ms: MState, fuel: nat,
) -> StepOutcome
    decreases fuel, fb, 3int,
{
    if fuel == 0 {
        StepOutcome::SFault(ms, Fault::StepLimit)
    } else {
        let (cl, cp, cd, cok) = tape_grow(ms.tlen, ms.tpos, ms.tdisp, args as int);
        let msc = MState { tlen: cl, tpos: cp, tdisp: cd, ..ms };
        if !cok {
            StepOutcome::SFault(msc, Fault::TapeLimit)
        } else {
            let frame = MState {
                cells: frame_cells(ms, args as int),
                cur: 0,
                tlen: 2 * (args + 1),
                tpos: 0,
                tdisp: 0,
                ..ms
            };
            match run_seq(body, fb, frame, (fuel - 1) as nat) {
                StepOutcome::SDone(msb, rem) => StepOutcome::SDone(unframed(msc, msb),
                    capped(rem, (fuel - 1) as nat)),
                StepOutcome::SFault(msb, f) => StepOutcome::SFault(unframed(msc, msb), f),
            }
        }
    }
}

/// Calls the committed function indexed by the cell at the cursor on a
/// fresh isolated frame; a bad index faults, an oversized argument count
/// hits the machine cap.
pub open spec fn run_call_separate(args: usize, fb: Seq<Seq<OpView>>, ms: MState, fuel: nat) -> StepOutcome
    decreases fuel, fb, 4int,
{
    let n = ms.cells[ms.cur];
    if n < 0 || n >= fb.len() {
        StepOutcome::SFault(ms, Fault::FunctionIndex)
    } else if fuel == 0 {
        StepOutcome::SFault(ms, Fault::StepLimit)
    } else if args > TAPE_CAP / 2 - 1 {
        StepOutcome::SFault(ms, Fault::TapeLimit)
    } else {
        run_body_separate(fb[n as int], args, fb, ms, (fuel - 1) as nat)
    }
}

/// The machine's view of the executable log: each snapshot's pointer,
/// stack and function count (the cell dump is diagnostic rendering).
pub open spec fn log_view(dl: Seq<DebugSnapshot>) -> Seq<LogEntry> {
    Seq::new(dl.len(), |i: int| LogEntry {
        pointer: dl[i].pointer as int,
        stack: dl[i].stack@,
        functions: dl[i].functions as int,
    })
}

/// The machine state a tape, stack and I/O context denote.
pub open spec fn mstate_of(ah: ArrayHandler, stack: Seq<i32>, io: ExecIo) -> MState {
    MState {
        cells: Map::total(|a: int| ah.cell(a)),
        cur: ah.addr(),
        tlen: ah.spec_cells().len() as int,
        tpos: ah.spec_pos(),
        tdisp: ah.spec_displacement(),
        stack: stack,
        input: io.input.spec_chars(),
        inpos: io.input.spec_pos(),
        output: io.output@,
        log: log_view(io.debug_log@),
    }
}

/// A tape, stack and I/O context carry exactly the machine state `ms`.
pub open spec fn agrees(ah: ArrayHandler, stack: Seq<i32>, io: ExecIo, ms: MState) -> bool {
    &&& ms.cur == ah.addr()
    &&& ms.tlen == ah.spec_cells().len()
    &&& ms.tpos == ah.spec_pos()
    &&& ms.tdisp == ah.spec_displacement()
    &&& total_cells(ms.cells)
    &&& (forall|a: int| #[trigger] ms.cells[a] == ah.cell(a))
    &&& ms.stack == stack
    &&& ms.input == io.input.spec_chars()
    &&& ms.inpos == io.input.spec_pos()
    &&& ms.output == io.output@
    &&& ms.log == log_view(io.debug_log@)
}

/// A state that agrees with a tape, stack and context is the one they
/// denote.
pub proof fn lemma_agrees_is(ah: ArrayHandler, stack: Seq<i32>, io: ExecIo, ms: MState)
    requires
        agrees(ah, stack, io, ms),
    ensures
        ms == mstate_of(ah, stack, io),
{
    assert(ms.cells =~= mstate_of(ah, stack, io).cells);
}

/// The executable outcome matches the machine's: the same result and the
/// same final state (with the fuel left on success).
pub open spec fn exec_matches(
    r: Result<u64, Fault>, out: StepOutcome,
    ah: ArrayHandler, stack: Seq<i32>, io: ExecIo,
) -> bool {
    match out {
        StepOutcome::SDone(ms, rem) => r == Ok::<u64, Fault>(rem as u64)
            && agrees(ah, stack, io, ms),
        StepOutcome::SFault(ms, f) => r == Err::<u64, Fault>(f)
            && agrees(ah, stack, io, ms),
    }
}

/// The state a tape, stack and context denote agrees with them.
pub proof fn lemma_mstate_agrees(ah: ArrayHandler, stack: Seq<i32>, io: ExecIo)
    ensures
        agrees(ah, stack, io, mstate_of(ah, stack, io)),
{
}

/// Growth never changes the cursor's logical address.
pub proof fn lemma_grow_addr(len: int, pos: int, disp: int, offset: int)
    ensures
        ({
            let (l2, p2, d2, ok) = tape_grow(len, pos, disp, offset);
            p2 - d2 == pos - disp
        }),
{
    if !(0 <= pos + offset < len) && pos + offset < 0 {
        lemma_grow_left_addr(len, pos, disp, offset);
    }
}

proof fn lemma_grow_left_addr(len: int, pos: int, disp: int, offset: int)
    ensures
        ({
            let (l2, p2, d2, ok) = crate::array_handler::grow_left(len, pos, disp, offset);
            p2 - d2 == pos - disp
        }),
    decreases (if len >= 1 && pos + offset < 0 { 0 - (pos + offset) } else { 0int }),
{
    if len >= 1 && pos + offset < 0 && len <= TAPE_CAP / 2 {
        lemma_grow_left_addr(2 * len, pos + len, disp + len, offset);
    }
}

/// The tape-level scan and the machine-level scan agree, given agreeing
/// cells and layout.
pub proof fn lemma_skip_bridge(
    a0: ArrayHandler, ms: MState, off: int, len: int, pos: int, disp: int, fuel: nat,
)
    requires
        ms.cur == pos - disp,
        ms.tlen == len,
        ms.tpos == pos,
        ms.tdisp == disp,
        forall|a: int| #[trigger] ms.cells[a] == a0.cell(a),
    ensures
        ({
            let (l2, p2, d2, f, rem) = crate::array_handler::skip_run(
                a0, len, pos, disp, off, fuel);
            let out = MState { cur: p2 - d2, tlen: l2, tpos: p2, tdisp: d2, ..ms };
            skip_steps(off, ms, fuel) == match f {
                Option::None => StepOutcome::SDone(out, rem),
                Option::Some(ff) => StepOutcome::SFault(out, ff),
            }
        }),
    decreases fuel,
{
    assert(ms.cells[ms.cur] == a0.cell(pos - disp));
    if a0.cell(pos - disp) == 0 {
        assert(MState { cur: pos - disp, tlen: len, tpos: pos, tdisp: disp, ..ms } == ms);
    } else if fuel == 0 {
        assert(MState { cur: pos - disp, tlen: len, tpos: pos, tdisp: disp, ..ms } == ms);
    } else {
        let (l2, p2, d2, ok) = tape_grow(len, pos, disp, off);
        lemma_grow_addr(len, pos, disp, off);
        if !ok {
        } else {
            lemma_skip_bridge(a0,
                MState { cur: (pos - disp) + off, tlen: l2, tpos: p2 + off, tdisp: d2, ..ms },
                off, l2, p2 + off, d2, (fuel - 1) as nat);
        }
    }
}

/// The machine never returns more fuel than it was given.
pub proof fn lemma_skip_fuel(off: int, ms: MState, fuel: nat)
    ensures
        skip_steps(off, ms, fuel) matches StepOutcome::SDone(_, rem) ==> rem <= fuel,
    decreases fuel,
{
    if ms.cells[ms.cur] != 0 && fuel > 0 {
        let (l2, p2, d2, ok) = tape_grow(ms.tlen, ms.tpos, ms.tdisp, off);
        if ok {
            let ms1 = MState { tlen: l2, tpos: p2, tdisp: d2, ..ms };
            lemma_skip_fuel(off, MState { cur: ms.cur + off, tpos: p2 + off, ..ms1 },
                (fuel - 1) as nat);
        }
    }
}

/// The machine never returns more fuel than it was given.
pub proof fn lemma_run_fuel_op(op: OpView, fb: Seq<Seq<OpView>>, ms: MState, fuel: nat)
    ensures
        run_op(op, fb, ms, fuel) matches StepOutcome::SDone(_, rem) ==> rem <= fuel,
    decreases fuel, op, 0int,
{
    match op {
        OpView::SkipMove(i) => {
            lemma_skip_fuel(i as int, ms, fuel);
        },
        OpView::While(b) => {
            lemma_run_fuel_while(b, fb, ms, fuel);
        },
        OpView::CallFun => {
            if fuel > 0 {
                lemma_run_fuel_call(fb, ms, (fuel - 1) as nat);
            }
        },
        OpView::CallFSep(args) => {
            if fuel > 0 {
                lemma_run_fuel_call_separate(args, fb, ms, (fuel - 1) as nat);
            }
        },
        _ => {},
    }
}

/// The machine never returns more fuel than it was given.
pub proof fn lemma_run_fuel_seq(ops: Seq<OpView>, fb: Seq<Seq<OpView>>, ms: MState, fuel: nat)
    ensures
        run_seq(ops, fb, ms, fuel) matches StepOutcome::SDone(_, rem) ==> rem <= fuel,
    decreases fuel, ops, 1int,
{
    if ops.len() > 0 {
        match run_op(ops[0], fb, ms, fuel) {
            StepOutcome::SDone(ms2, rem) => {
                lemma_run_fuel_seq(ops.drop_first(), fb, ms2, capped(rem, fuel));
            },
            StepOutcome::SFault(_, _) => {},
        }
    }
}

/// The machine never returns more fuel than it was given.
pub proof fn lemma_run_fuel_while(b: Seq<OpView>, fb: Seq<Seq<OpView>>, ms: MState, fuel: nat)
    ensures
        run_while(b, fb, ms, fuel) matches StepOutcome::SDone(_, rem) ==> rem <= fuel,
    decreases fuel, b, 2int,
{
    if ms.cells[ms.cur] != 0 && fuel > 0 {
        match run_seq(b, fb, ms, (fuel - 1) as nat) {
            StepOutcome::SDone(ms2, rem) => {
                lemma_run_fuel_while(b, fb, ms2, capped(rem, (fuel - 1) as nat));
            },
            StepOutcome::SFault(_, _) => {},
        }
    }
}

/// The machine never returns more fuel than it was given.
pub proof fn lemma_run_fuel_body(body: Seq<OpView>, fb: Seq<Seq<OpView>>, ms: MState, fuel: nat)
    ensures
        run_body(body, fb, ms, fuel) matches StepOutcome::SDone(_, rem) ==> rem <= fuel,
    decreases fuel, fb, 3int,
{
    if fuel > 0 {
        lemma_run_fuel_seq(body, fb, ms, (fuel - 1) as nat);
    }
}

/// The machine never returns more fuel than it was given.
pub proof fn lemma_run_fuel_call(fb: Seq<Seq<OpView>>, ms: MState, fuel: nat)
    ensures
        run_call(fb, ms, fuel) matches StepOutcome::SDone(_, rem) ==> rem <= fuel,
    decreases fuel, fb, 4int,
{
    let n = ms.cells[ms.cur];
    if 0 <= n < fb.len() && fuel > 0 {
        lemma_run_fuel_body(fb[n as int], fb, ms, (fuel - 1) as nat);
    }
}

/// The machine never returns more fuel than it was given.
pub proof fn lemma_run_fuel_call_separate(args: usize, fb: Seq<Seq<OpView>>, ms: MState, fuel: nat)
    ensures
        run_call_separate(args, fb, ms, fuel) matches StepOutcome::SDone(_, rem)
            ==> rem <= fuel,
    decreases fuel, fb, 4int,
{
}

} // verus!
