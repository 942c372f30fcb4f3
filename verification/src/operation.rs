//! The instruction type -- a tagged union, recursive through loop bodies --
//! and the engine that executes it.
//!
//! Execution is total: every loop iteration and every function call spends
//! one unit of a caller-supplied step budget (`fuel`), and a run whose
//! budget is exhausted surfaces [`Fault::StepLimit`]. A driver that wants
//! the language's unbounded semantics supplies a budget it can never spend.

use vstd::prelude::*;
use crate::array_handler::{ArrayHandler, same_cells};
use crate::stack_handler::{StackHandler, sum_top};
use crate::exec_io::ExecIo;
use crate::function::{FunctionHolder, bodies_view, lemma_bodies_view_index};
use crate::machine::{MState, StepOutcome, LogEntry, run_op, run_seq, run_while,
    capped, mstate_of, agrees, exec_matches, lemma_mstate_agrees,
    lemma_agrees_is, lemma_skip_bridge, log_view, moveto_steps};
use vstd::wrapping::i32_specs::signed_crop;

verus! {

broadcast use vstd::std_specs::vec::axiom_vec_decreases_to_view, vstd::seq::axiom_seq_index_decreases, vstd::seq::axiom_seq_subrange_decreases;

/// All the kinds of operations the interpreter executes.
#[derive(Debug)]
pub enum Operation {
    /// Add x to the cell at the cursor
    Add(i32),
    /// Move the cursor by x cells
    Move(i32),
    /// Zero the cell at the cursor, then for each `(offset, multiplier)`
    /// add `value * multiplier` to the cell at that relative offset
    MoveTo(Vec<(i32, i32)>),
    /// Shift the cursor by x repeatedly while the cell at the cursor is nonzero
    SkipMove(i32),
    /// Set the cell at the cursor to x
    Assign(i32),
    /// Read the next input character into the cell at the cursor
    Read,
    /// Write the low byte of the cell at the cursor to the output
    Write,
    /// Run the body repeatedly while the cell at the cursor is nonzero
    While(Vec<Operation>),
    /// Set the cell at the cursor to the number of committed functions
    InsFuns,
    /// Call the function indexed by the cell at the cursor, on the same tape
    CallFun,
    /// Call the function indexed by the cell at the cursor on a fresh tape,
    /// seeded with x+1 argument cells copied from the caller's cursor
    CallFSep(usize),
    /// Record a diagnostic snapshot
    Debug,
    /// Add the number at the top of the stack to the cell at the cursor
    PeekStack,
    /// Pop x numbers from the stack and add their sum to the cell at the cursor
    PopStack(usize),
    /// Push the cell at the cursor onto the stack
    PushStack,
    /// Set the cell at the cursor to the length of the stack
    StackLen,
    /// Does nothing; removed during optimisation, never executed
    EmptyOp,
}

/// The mathematical shape of an [`Operation`]: loop bodies become `Seq`s.
pub enum OpView {
    Add(i32),
    Move(i32),
    MoveTo(Seq<(i32, i32)>),
    SkipMove(i32),
    Assign(i32),
    Read,
    Write,
    While(Seq<OpView>),
    InsFuns,
    CallFun,
    CallFSep(usize),
    Debug,
    PeekStack,
    PopStack(usize),
    PushStack,
    StackLen,
    EmptyOp,
}

/// The view of one operation.
pub open spec fn op_view(op: Operation) -> OpView
    decreases op,
{
    match op {
        Operation::Add(i) => OpView::Add(i),
        Operation::Move(i) => OpView::Move(i),
        Operation::MoveTo(ps) => OpView::MoveTo(ps@),
        Operation::SkipMove(i) => OpView::SkipMove(i),
        Operation::Assign(i) => OpView::Assign(i),
        Operation::Read => OpView::Read,
        Operation::Write => OpView::Write,
        Operation::While(ops) => OpView::While(ops_view(ops@)),
        Operation::InsFuns => OpView::InsFuns,
        Operation::CallFun => OpView::CallFun,
        Operation::CallFSep(n) => OpView::CallFSep(n),
        Operation::Debug => OpView::Debug,
        Operation::PeekStack => OpView::PeekStack,
        Operation::PopStack(n) => OpView::PopStack(n),
        Operation::PushStack => OpView::PushStack,
        Operation::StackLen => OpView::StackLen,
        Operation::EmptyOp => OpView::EmptyOp,
    }
}

/// The view of an operation sequence, element by element.
pub open spec fn ops_view(s: Seq<Operation>) -> Seq<OpView>
    decreases s,
{
    if s.len() == 0 {
        Seq::empty()
    } else {
        ops_view(s.drop_last()).push(op_view(s.last()))
    }
}

/// `ops_view` looked at pointwise.
pub broadcast proof fn lemma_ops_view_index(s: Seq<Operation>)
    ensures
        (#[trigger] ops_view(s)).len() == s.len(),
        forall|i: int| 0 <= i < s.len() ==> ops_view(s)[i] == op_view(s[i]),
    decreases s.len(),
{
    if s.len() > 0 {
        lemma_ops_view_index(s.drop_last());
    }
}

/// `ops_view` commutes with `push`.
pub broadcast proof fn lemma_ops_view_push(s: Seq<Operation>, x: Operation)
    ensures
        #[trigger] ops_view(s.push(x)) == ops_view(s).push(op_view(x)),
{
    lemma_ops_view_index(s);
    lemma_ops_view_index(s.push(x));
    assert(ops_view(s.push(x)) =~= ops_view(s).push(op_view(x)));
}

/// `ops_view` commutes with `drop_last`.
pub broadcast proof fn lemma_ops_view_drop_last(s: Seq<Operation>)
    requires
        s.len() > 0,
    ensures
        #[trigger] ops_view(s.drop_last()) == ops_view(s).drop_last(),
{
    lemma_ops_view_index(s);
    lemma_ops_view_index(s.drop_last());
    assert(ops_view(s.drop_last()) =~= ops_view(s).drop_last());
}

/// A run-time fault. The language treats these as fatal: a driver that
/// wants that fail-fast behaviour aborts the process when one surfaces.
#[derive(Clone, Copy, Debug, PartialEq, Eq, Structural)]
pub enum Fault {
    /// Popping or peeking an empty auxiliary stack
    StackUnderflow,
    /// A function call whose index is not less than the committed count
    FunctionIndex,
    /// The tape refused to grow past its machine limit
    TapeLimit,
    /// A read operation found no input left
    InputExhausted,
    /// The caller-supplied step budget ran out
    StepLimit,
}

/// Crops a reduced unsigned value to `i32` exactly as a narrowing cast
/// would.
pub fn crop_u64_to_i32(m: u64) -> (r: i32)
    requires
        m < 0x1_0000_0000,
    ensures
        r == signed_crop(m as int),
{
    if m >= 0x8000_0000 {
        ((m as i64) - 0x1_0000_0000i64) as i32
    } else {
        m as i32
    }
}

/// Crops an unsigned count to `i32` exactly as a narrowing cast would.
pub fn usize_to_i32(n: usize) -> (r: i32)
    ensures
        r == signed_crop(n as int),
{
    crop_u64_to_i32((n as u64) % 0x1_0000_0000)
}

/// The low byte of a cell, as written by the output operation.
pub open spec fn low_byte(v: i32) -> u8 {
    ((v as int) % 256) as u8
}

/// Extracts the low byte of a cell.
pub fn byte_of_cell(v: i32) -> (b: u8)
    ensures
        b == low_byte(v),
{
    let m: i64 = (v as i64) % 256;
    if m < 0 {
        (m + 256) as u8
    } else {
        m as u8
    }
}

/// The tape's cells and cursor are unchanged (though it may have grown).
pub open spec fn tape_unchanged(a: ArrayHandler, b: ArrayHandler) -> bool {
    same_cells(a, b) && b.addr() == a.addr()
}

/// Only the cell at the cursor may differ; the cursor itself is unchanged.
pub open spec fn only_cursor_cell(a: ArrayHandler, b: ArrayHandler) -> bool {
    b.addr() == a.addr()
    && forall|x: int| x != a.addr() ==> #[trigger] b.cell(x) == a.cell(x)
}

/// The I/O context is untouched.
pub open spec fn io_same(a: ExecIo, b: ExecIo) -> bool {
    b.input == a.input && b.output@ == a.output@ && b.debug_log@ == a.debug_log@
}

/// Nothing observable changed.
pub open spec fn unchanged_all(
    a0: ArrayHandler, a1: ArrayHandler,
    s0: Seq<i32>, s1: Seq<i32>,
    io0: ExecIo, io1: ExecIo,
) -> bool {
    tape_unchanged(a0, a1) && s1 == s0 && io_same(io0, io1)
}

/// Some entry among the first `k` of `ps` carries offset `d`.
pub open spec fn offset_in_prefix(ps: Seq<(i32, i32)>, k: int, d: int) -> bool {
    exists|t: int| 0 <= t < k && (#[trigger] ps[t]).0 == d
}

/// The offsets of a multiply-and-clear table are nonzero and distinct, as
/// the loop optimiser produces them.
pub open spec fn moveto_points_wf(ps: Seq<(i32, i32)>) -> bool {
    (forall|j: int| 0 <= j < ps.len() ==> (#[trigger] ps[j]).0 != 0)
    && (forall|j: int, k: int| 0 <= j < k < ps.len() ==> ps[j].0 != ps[k].0)
}

/// The effect of a multiply-and-clear on a tape whose cursor cell held
/// `v != 0`: the cursor cell is zeroed, each listed offset gains
/// `v * multiplier` (wrapping), and every other cell is untouched.
pub open spec fn moveto_effect(
    a0: ArrayHandler, a1: ArrayHandler, ps: Seq<(i32, i32)>, v: i32,
) -> bool {
    a1.cur_cell() == 0
    && (forall|j: int| 0 <= j < ps.len()
        ==> #[trigger] a1.cell(a0.addr() + ps[j].0)
            == a0.cell(a0.addr() + ps[j].0).wrapping_add(v.wrapping_mul(ps[j].1)))
    && (forall|x: int| x != a0.addr() && !offset_in_prefix(ps, ps.len() as int, x - a0.addr())
        ==> #[trigger] a1.cell(x) == a0.cell(x))
}

/// Every listed offset already lies on the allocated tape, so a
/// multiply-and-clear cannot need growth.
pub open spec fn moveto_in_range(a0: ArrayHandler, ps: Seq<(i32, i32)>) -> bool {
    forall|j: int| 0 <= j < ps.len()
        ==> 0 <= a0.spec_pos() + (#[trigger] ps[j]).0 < a0.spec_cells().len()
}

/// What executing one operation does, stated over the tape, the stack, the
/// I/O context, the committed function count, and the step budget.
pub open spec fn execute_post(
    op: Operation,
    a0: ArrayHandler, a1: ArrayHandler,
    s0: Seq<i32>, s1: Seq<i32>,
    io0: ExecIo, io1: ExecIo,
    nfuns: int,
    fuel: u64,
    r: Result<u64, Fault>,
) -> bool {
    match op {
        Operation::Add(i) => r == Ok::<u64, Fault>(fuel) && only_cursor_cell(a0, a1)
            && a1.cur_cell() == a0.cur_cell().wrapping_add(i)
            && s1 == s0 && io_same(io0, io1),
        Operation::Assign(i) => r == Ok::<u64, Fault>(fuel) && only_cursor_cell(a0, a1)
            && a1.cur_cell() == i
            && s1 == s0 && io_same(io0, io1),
        Operation::Move(i) => s1 == s0 && io_same(io0, io1) && same_cells(a0, a1)
            && ((r == Ok::<u64, Fault>(fuel) && a1.addr() == a0.addr() + i)
                || (r == Err::<u64, Fault>(Fault::TapeLimit) && a1.addr() == a0.addr()))
            && (a0.reach_guaranteed(i as int) ==> r == Ok::<u64, Fault>(fuel)),
        Operation::MoveTo(ps) => s1 == s0 && io_same(io0, io1)
            && a1.addr() == a0.addr()
            && (r == Ok::<u64, Fault>(fuel) || r == Err::<u64, Fault>(Fault::TapeLimit))
            && (a0.cur_cell() == 0 ==> r == Ok::<u64, Fault>(fuel) && same_cells(a0, a1))
            && (a0.cur_cell() != 0 && moveto_points_wf(ps@) && r == Ok::<u64, Fault>(fuel)
                ==> moveto_effect(a0, a1, ps@, a0.cur_cell()))
            && (moveto_in_range(a0, ps@) ==> r == Ok::<u64, Fault>(fuel)),
        Operation::SkipMove(i) => s1 == s0 && io_same(io0, io1) && same_cells(a0, a1)
            && (exists|k: nat| a1.addr() == a0.addr() + #[trigger] (k * i))
            && (r matches Ok(rem) ==> rem <= fuel && a1.cur_cell() == 0)
            && (r matches Err(f) ==> f == Fault::TapeLimit || f == Fault::StepLimit),
        Operation::Read => s1 == s0
            && io1.output@ == io0.output@ && io1.debug_log@ == io0.debug_log@
            && if io0.input.spec_pos() < io0.input.spec_chars().len() {
                r == Ok::<u64, Fault>(fuel) && only_cursor_cell(a0, a1)
                && a1.cur_cell()
                    == io0.input.spec_chars()[io0.input.spec_pos()] as u32 as i32
                && io1.input.spec_chars() == io0.input.spec_chars()
                && io1.input.spec_pos() == io0.input.spec_pos() + 1
            } else {
                r == Err::<u64, Fault>(Fault::InputExhausted)
                && tape_unchanged(a0, a1) && io1.input == io0.input
            },
        Operation::Write => r == Ok::<u64, Fault>(fuel) && tape_unchanged(a0, a1)
            && s1 == s0 && io1.input == io0.input && io1.debug_log@ == io0.debug_log@
            && io1.output@ == io0.output@.push(low_byte(a0.cur_cell())),
        Operation::While(_) => r matches Ok(rem) ==> rem <= fuel && a1.cur_cell() == 0,
        Operation::InsFuns => r == Ok::<u64, Fault>(fuel) && only_cursor_cell(a0, a1)
            && a1.cur_cell() == signed_crop(nfuns)
            && s1 == s0 && io_same(io0, io1),
        Operation::CallFun => {
            &&& (fuel == 0 ==> r == Err::<u64, Fault>(Fault::StepLimit)
                && unchanged_all(a0, a1, s0, s1, io0, io1))
            &&& (fuel > 0 && (a0.cur_cell() < 0 || a0.cur_cell() >= nfuns)
                ==> r == Err::<u64, Fault>(Fault::FunctionIndex)
                    && unchanged_all(a0, a1, s0, s1, io0, io1))
        },
        Operation::CallFSep(args) => {
            &&& same_cells(a0, a1)
            &&& a1.addr() == a0.addr()
            &&& (fuel == 0 ==> r == Err::<u64, Fault>(Fault::StepLimit)
                && unchanged_all(a0, a1, s0, s1, io0, io1))
            &&& (fuel > 0 && (a0.cur_cell() < 0 || a0.cur_cell() >= nfuns)
                ==> r == Err::<u64, Fault>(Fault::FunctionIndex)
                    && unchanged_all(a0, a1, s0, s1, io0, io1))
        },
        Operation::Debug => r == Ok::<u64, Fault>(fuel) && tape_unchanged(a0, a1)
            && s1 == s0 && io1.input == io0.input && io1.output@ == io0.output@
            && io1.debug_log@.len() == io0.debug_log@.len() + 1
            && io1.debug_log@.drop_last() == io0.debug_log@
            && io1.debug_log@.last().pointer == a0.addr()
            && io1.debug_log@.last().stack@ == s0
            && io1.debug_log@.last().functions == nfuns,
        Operation::PeekStack => {
            &&& (s0.len() == 0 ==> r == Err::<u64, Fault>(Fault::StackUnderflow)
                && unchanged_all(a0, a1, s0, s1, io0, io1))
            &&& (s0.len() > 0 ==> r == Ok::<u64, Fault>(fuel)
                && only_cursor_cell(a0, a1)
                && a1.cur_cell() == a0.cur_cell().wrapping_add(s0.last())
                && s1 == s0 && io_same(io0, io1))
        },
        Operation::PopStack(n) => {
            &&& (s0.len() < n ==> r == Err::<u64, Fault>(Fault::StackUnderflow)
                && unchanged_all(a0, a1, s0, s1, io0, io1))
            &&& (s0.len() >= n ==> r == Ok::<u64, Fault>(fuel)
                && only_cursor_cell(a0, a1)
                && a1.cur_cell() == a0.cur_cell().wrapping_add(sum_top(s0, n as nat))
                && s1 == s0.take(s0.len() - n) && io_same(io0, io1))
        },
        Operation::PushStack => r == Ok::<u64, Fault>(fuel) && tape_unchanged(a0, a1)
            && s1 == s0.push(a0.cur_cell()) && io_same(io0, io1),
        Operation::StackLen => r == Ok::<u64, Fault>(fuel) && only_cursor_cell(a0, a1)
            && a1.cur_cell() == signed_crop(s0.len() as int)
            && s1 == s0 && io_same(io0, io1),
        Operation::EmptyOp => r == Ok::<u64, Fault>(fuel)
            && unchanged_all(a0, a1, s0, s1, io0, io1),
    }
}

/// Executes a sequence of operations in order, threading the step budget;
/// stops at the first fault. The outcome and final state are exactly the
/// machine's [`run_seq`].
#[verifier::loop_isolation(false)]
pub fn execute_seq(
    ops: &Vec<Operation>,
    ah: &mut ArrayHandler,
    fh: &FunctionHolder,
    st: &mut StackHandler,
    io: &mut ExecIo,
    fuel: u64,
) -> (r: Result<u64, Fault>)
    requires
        old(ah).well_formed(),
        old(io).well_formed(),
    ensures
        final(ah).well_formed(),
        final(io).well_formed(),
        r matches Ok(rem) ==> rem <= fuel,
        exec_matches(r,
            run_seq(ops_view(ops@), bodies_view(fh.spec_funs()),
                mstate_of(*old(ah), old(st)@, *old(io)), fuel as nat),
            *final(ah), final(st)@, *final(io)),
    decreases fuel, *ops,
{
    let ghost fb = bodies_view(fh.spec_funs());
    proof {
        lemma_bodies_view_index(fh.spec_funs());
    }
    let ghost vall = ops_view(ops@);
    let ghost full = run_seq(vall, fb, mstate_of(*old(ah), old(st)@, *old(io)), fuel as nat);
    proof {
        assert(vall.skip(0) =~= vall);
    }
    let mut rem: u64 = fuel;
    let mut i: usize = 0;
    while i < ops.len()
        invariant
            i <= ops@.len(),
            rem <= fuel,
            ah.well_formed(),
            io.well_formed(),
            full == run_seq(vall.skip(i as int), fb,
                mstate_of(*ah, st@, *io), rem as nat),
        decreases ops@.len() - i,
    {
        proof {
            assert(decreases_to!(*ops => ops@[i as int]));
        }
        let ghost pre = mstate_of(*ah, st@, *io);
        let ghost suffix = vall.skip(i as int);
        proof {
            lemma_ops_view_index(ops@);
            assert(suffix[0] == op_view(ops@[i as int]));
            assert(suffix.drop_first() =~= vall.skip(i as int + 1));
        }
        match ops[i].execute(ah, fh, st, io, rem) {
            Ok(r2) => {
                proof {
                    crate::machine::lemma_run_fuel_op(op_view(ops@[i as int]), fb, pre,
                        rem as nat);
                    let out = run_op(op_view(ops@[i as int]), fb, pre, rem as nat);
                    match out {
                        StepOutcome::SDone(ms2, rr) => {
                            lemma_agrees_is(*ah, st@, *io, ms2);
                            assert(rr <= rem as nat);
                            assert(capped(rr, rem as nat) == rr);
                        },
                        StepOutcome::SFault(_, _) => {
                            assert(false);
                        },
                    }
                }
                rem = r2;
            },
            Err(f) => {
                return Err(f);
            },
        }
        i = i + 1;
    }
    proof {
        lemma_ops_view_index(ops@);
        assert(vall.skip(ops@.len() as int) =~= Seq::<OpView>::empty());
        lemma_mstate_agrees(*ah, st@, *io);
    }
    Ok(rem)
}

impl Operation {
    /// Executes this operation against the tape, function table, stack and
    /// I/O context, spending from the step budget. The outcome and final
    /// state are exactly the machine's [`run_op`].
    #[verifier::loop_isolation(false)]
    pub fn execute(
        &self,
        ah: &mut ArrayHandler,
        fh: &FunctionHolder,
        st: &mut StackHandler,
        io: &mut ExecIo,
        fuel: u64,
    ) -> (r: Result<u64, Fault>)
        requires
            old(ah).well_formed(),
            old(io).well_formed(),
        ensures
            final(ah).well_formed(),
            final(io).well_formed(),
            r matches Ok(rem) ==> rem <= fuel,
            execute_post(*self, *old(ah), *final(ah), old(st)@, final(st)@,
                *old(io), *final(io), fh.spec_funs().len() as int, fuel, r),
            exec_matches(r,
                run_op(op_view(*self), bodies_view(fh.spec_funs()),
                    mstate_of(*old(ah), old(st)@, *old(io)), fuel as nat),
                *final(ah), final(st)@, *final(io)),
        decreases fuel, *self,
    {
        let ghost ms0 = mstate_of(*old(ah), old(st)@, *old(io));
        let ghost fb = bodies_view(fh.spec_funs());
        proof {
            lemma_bodies_view_index(fh.spec_funs());
        }
        match self {
            Operation::Add(i) => {
                ah.add(*i);
                proof {
                    let target = ms0.cells.insert(ms0.cur,
                        ms0.cells[ms0.cur].wrapping_add(*i));
                    assert forall|a: int| #[trigger] target[a] == ah.cell(a) by {
                        if a != ms0.cur {
                            assert(ms0.cells[a] == old(ah).cell(a));
                        }
                    }
                }
                Ok(fuel)
            },
            Operation::Move(i) => {
                if ah.move_r(*i) {
                    proof {
                        assert forall|a: int| #[trigger] ms0.cells[a] == ah.cell(a) by {
                            assert(old(ah).cell(a) == ah.cell(a));
                        }
                    }
                    Ok(fuel)
                } else {
                    proof {
                        assert forall|a: int| #[trigger] ms0.cells[a] == ah.cell(a) by {
                            assert(old(ah).cell(a) == ah.cell(a));
                        }
                    }
                    Err(Fault::TapeLimit)
                }
            },
            Operation::Assign(i) => {
                ah.set(*i);
                proof {
                    let target = ms0.cells.insert(ms0.cur, *i);
                    assert forall|a: int| #[trigger] target[a] == ah.cell(a) by {
                        if a != ms0.cur {
                            assert(ms0.cells[a] == old(ah).cell(a));
                        }
                    }
                }
                Ok(fuel)
            },
            Operation::While(ops) => {
                let ghost bv = ops_view(ops@);
                let mut rem: u64 = fuel;
                while ah.get() != 0
                    invariant
                        rem <= fuel,
                        ah.well_formed(),
                        io.well_formed(),
                        run_while(bv, fb, ms0, fuel as nat)
                            == run_while(bv, fb, mstate_of(*ah, st@, *io), rem as nat),
                    decreases rem,
                {
                    let ghost pre = mstate_of(*ah, st@, *io);
                    proof {
                        assert(pre.cells[pre.cur] == ah.cur_cell());
                    }
                    if rem == 0 {
                        return Err(Fault::StepLimit);
                    }
                    rem = rem - 1;
                    match execute_seq(ops, ah, fh, st, io, rem) {
                        Ok(r2) => {
                            proof {
                                crate::machine::lemma_run_fuel_seq(bv, fb, pre, rem as nat);
                                let out = run_seq(bv, fb, pre, rem as nat);
                                match out {
                                    StepOutcome::SDone(ms2, rr) => {
                                        lemma_agrees_is(*ah, st@, *io, ms2);
                                        assert(rr <= rem as nat);
                                        assert(capped(rr, rem as nat) == rr);
                                    },
                                    StepOutcome::SFault(_, _) => {
                                        assert(false);
                                    },
                                }
                            }
                            rem = r2;
                        },
                        Err(f) => {
                            return Err(f);
                        },
                    }
                }
                proof {
                    lemma_mstate_agrees(*ah, st@, *io);
                    assert(mstate_of(*ah, st@, *io).cells[mstate_of(*ah, st@, *io).cur]
                        == ah.cur_cell());
                }
                Ok(rem)
            },
            Operation::InsFuns => {
                ah.set(usize_to_i32(fh.no_functions()));
                proof {
                    let target = ms0.cells.insert(ms0.cur, signed_crop(fb.len() as int));
                    assert forall|a: int| #[trigger] target[a] == ah.cell(a) by {
                        if a != ms0.cur {
                            assert(ms0.cells[a] == old(ah).cell(a));
                        }
                    }
                }
                Ok(fuel)
            },
            Operation::CallFun => {
                if fuel == 0 {
                    proof {
                        lemma_mstate_agrees(*old(ah), old(st)@, *old(io));
                    }
                    return Err(Fault::StepLimit);
                }
                fh.execute(ah, st, io, fuel - 1)
            },
            Operation::CallFSep(args) => {
                if fuel == 0 {
                    proof {
                        lemma_mstate_agrees(*old(ah), old(st)@, *old(io));
                    }
                    return Err(Fault::StepLimit);
                }
                fh.execute_separate(ah, *args, st, io, fuel - 1)
            },
            Operation::Read => {
                if !io.input.has_next() {
                    proof {
                        lemma_mstate_agrees(*old(ah), old(st)@, *old(io));
                    }
                    return Err(Fault::InputExhausted);
                }
                ah.read(&mut io.input);
                proof {
                    let target = ms0.cells.insert(ms0.cur,
                        ms0.input[ms0.inpos] as u32 as i32);
                    assert forall|a: int| #[trigger] target[a] == ah.cell(a) by {
                        if a != ms0.cur {
                            assert(ms0.cells[a] == old(ah).cell(a));
                        }
                    }
                }
                Ok(fuel)
            },
            Operation::Write => {
                let v = ah.get();
                let b = byte_of_cell(v);
                io.output.push(b);
                proof {
                    assert(ms0.cells[ms0.cur] == old(ah).cur_cell());
                    assert forall|a: int| #[trigger] ms0.cells[a] == ah.cell(a) by {
                        assert(old(ah).cell(a) == ah.cell(a));
                    }
                }
                Ok(fuel)
            },
            Operation::Debug => {
                let stack_copy = st.contents();
                let snap = ah.debug(fh.no_functions(), stack_copy);
                io.debug_log.push(snap);
                proof {
                    assert(io.debug_log@.drop_last() =~= old(io).debug_log@);
                    let entry = LogEntry {
                        pointer: ms0.cur,
                        stack: ms0.stack,
                        functions: fb.len() as int,
                    };
                    assert(log_view(io.debug_log@) =~= ms0.log.push(entry));
                    assert forall|a: int| #[trigger] ms0.cells[a] == ah.cell(a) by {
                        assert(old(ah).cell(a) == ah.cell(a));
                    }
                }
                Ok(fuel)
            },
            Operation::MoveTo(places) => {
                let val = ah.get();
                if val == 0 {
                    proof {
                        lemma_mstate_agrees(*old(ah), old(st)@, *old(io));
                    }
                    return Ok(fuel);
                }
                ah.set(0);
                let ghost a0 = *old(ah);
                let ghost msz = MState { cells: ms0.cells.insert(ms0.cur, 0i32), ..ms0 };
                proof {
                    assert forall|a: int| #[trigger] msz.cells[a] == ah.cell(a) by {
                        if a != ms0.cur {
                            assert(ms0.cells[a] == old(ah).cell(a));
                        }
                    }
                    lemma_agrees_is(*ah, st@, *io, msz);
                    assert(places@.skip(0) =~= places@);
                }
                let mut j: usize = 0;
                while j < places.len()
                    invariant
                        j <= places@.len(),
                        val == a0.cur_cell(),
                        val != 0,
                        ah.well_formed(),
                        io.well_formed(),
                        *io == *old(io),
                        ah.addr() == a0.addr(),
                        moveto_steps(places@, msz, val)
                            == moveto_steps(places@.skip(j as int),
                                mstate_of(*ah, st@, *io), val),
                        moveto_in_range(a0, places@)
                            ==> ah.spec_pos() == a0.spec_pos()
                                && ah.spec_displacement() == a0.spec_displacement()
                                && ah.spec_cells().len() == a0.spec_cells().len(),
                        moveto_points_wf(places@) ==> {
                            &&& ah.cur_cell() == 0
                            &&& forall|t: int| 0 <= t < j
                                ==> #[trigger] ah.cell(a0.addr() + places@[t].0)
                                    == a0.cell(a0.addr() + places@[t].0)
                                        .wrapping_add(val.wrapping_mul(places@[t].1))
                            &&& forall|x: int| x != a0.addr()
                                && !offset_in_prefix(places@, j as int, x - a0.addr())
                                ==> #[trigger] ah.cell(x) == a0.cell(x)
                        },
                    decreases places@.len() - j,
                {
                    let ghost pre = mstate_of(*ah, st@, *io);
                    let ghost suffix = places@.skip(j as int);
                    proof {
                        assert(suffix[0] == places@[j as int]);
                        assert(suffix.drop_first() =~= places@.skip(j as int + 1));
                    }
                    let (p, m) = places[j];
                    let w = val.wrapping_mul(m);
                    if !ah.add_at(p, w) {
                        proof {
                            assert forall|a: int| #[trigger] pre.cells[a] == ah.cell(a) by {
                            }
                        }
                        return Err(Fault::TapeLimit);
                    }
                    proof {
                        let (l2, p2, d2, okk) = crate::array_handler::tape_grow(
                            pre.tlen, pre.tpos, pre.tdisp, p as int);
                        let ms1 = MState { tlen: l2, tpos: p2, tdisp: d2, ..pre };
                        let aa = pre.cur + p;
                        let stepped = MState {
                            cells: ms1.cells.insert(aa,
                                ms1.cells[aa].wrapping_add(w)),
                            ..ms1
                        };
                        assert forall|a: int| #[trigger] stepped.cells[a] == ah.cell(a) by {
                            if a != aa {
                            }
                        }
                        lemma_agrees_is(*ah, st@, *io, stepped);
                    }
                    j = j + 1;
                }
                proof {
                    assert(places@.skip(places@.len() as int) =~= Seq::<(i32, i32)>::empty());
                    lemma_mstate_agrees(*ah, st@, *io);
                }
                Ok(fuel)
            },
            Operation::EmptyOp => {
                proof {
                    lemma_mstate_agrees(*old(ah), old(st)@, *old(io));
                }
                Ok(fuel)
            },
            Operation::SkipMove(i) => {
                let r = ah.skip_move(*i, fuel);
                proof {
                    lemma_skip_bridge(*old(ah), ms0, *i as int,
                        old(ah).spec_cells().len() as int, old(ah).spec_pos(),
                        old(ah).spec_displacement(), fuel as nat);
                    let (l2, p2, d2, f, remn) = crate::array_handler::skip_run(
                        *old(ah), old(ah).spec_cells().len() as int, old(ah).spec_pos(),
                        old(ah).spec_displacement(), *i as int, fuel as nat);
                    let out = MState { cur: p2 - d2, tlen: l2, tpos: p2, tdisp: d2, ..ms0 };
                    assert forall|a: int| #[trigger] out.cells[a] == ah.cell(a) by {
                        assert(old(ah).cell(a) == ah.cell(a));
                    }
                }
                r
            },
            Operation::PeekStack => {
                if st.len() == 0 {
                    proof {
                        lemma_mstate_agrees(*old(ah), old(st)@, *old(io));
                    }
                    return Err(Fault::StackUnderflow);
                }
                ah.add(st.peek());
                proof {
                    let target = ms0.cells.insert(ms0.cur,
                        ms0.cells[ms0.cur].wrapping_add(ms0.stack.last()));
                    assert forall|a: int| #[trigger] target[a] == ah.cell(a) by {
                        if a != ms0.cur {
                            assert(ms0.cells[a] == old(ah).cell(a));
                        }
                    }
                }
                Ok(fuel)
            },
            Operation::PopStack(n) => {
                if st.len() < *n {
                    proof {
                        lemma_mstate_agrees(*old(ah), old(st)@, *old(io));
                    }
                    return Err(Fault::StackUnderflow);
                }
                let d = st.pop(*n);
                ah.add(d);
                proof {
                    let target = ms0.cells.insert(ms0.cur,
                        ms0.cells[ms0.cur].wrapping_add(sum_top(ms0.stack, *n as nat)));
                    assert forall|a: int| #[trigger] target[a] == ah.cell(a) by {
                        if a != ms0.cur {
                            assert(ms0.cells[a] == old(ah).cell(a));
                        }
                    }
                }
                Ok(fuel)
            },
            Operation::PushStack => {
                st.push(ah.get());
                proof {
                    assert(ms0.cells[ms0.cur] == old(ah).cur_cell());
                    assert forall|a: int| #[trigger] ms0.cells[a] == ah.cell(a) by {
                        assert(old(ah).cell(a) == ah.cell(a));
                    }
                }
                Ok(fuel)
            },
            Operation::StackLen => {
                ah.set(usize_to_i32(st.len()));
                proof {
                    let target = ms0.cells.insert(ms0.cur,
                        signed_crop(ms0.stack.len() as int));
                    assert forall|a: int| #[trigger] target[a] == ah.cell(a) by {
                        if a != ms0.cur {
                            assert(ms0.cells[a] == old(ah).cell(a));
                        }
                    }
                }
                Ok(fuel)
            },
        }
    }
}

} // verus!
