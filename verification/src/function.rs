//! The function table: committed callable bodies plus a staging area for
//! bodies parsed during the current, not-yet-validated compile unit.

use vstd::prelude::*;
use crate::operation::{Operation, OpView, ops_view, Fault, execute_seq};
use crate::array_handler::{ArrayHandler, same_cells, TAPE_CAP, tape_grow};
use crate::stack_handler::StackHandler;
use crate::exec_io::ExecIo;
use crate::machine::{MState, StepOutcome, run_seq, run_body, run_body_separate, run_call,
    run_call_separate, capped, mstate_of, agrees, exec_matches, lemma_mstate_agrees,
    lemma_agrees_is, frame_cells, unframed};

verus! {

/// One callable body: a sequence of operations.
pub struct Function {
    ops: Vec<Operation>,
}

/// The views of a sequence of function bodies.
pub open spec fn bodies_view(fs: Seq<Function>) -> Seq<Seq<OpView>>
    decreases fs.len(),
{
    if fs.len() == 0 {
        Seq::empty()
    } else {
        bodies_view(fs.drop_last()).push(ops_view(fs.last().spec_ops()))
    }
}

/// `bodies_view` looked at pointwise.
pub broadcast proof fn lemma_bodies_view_index(fs: Seq<Function>)
    ensures
        (#[trigger] bodies_view(fs)).len() == fs.len(),
        forall|i: int| 0 <= i < fs.len()
            ==> bodies_view(fs)[i] == ops_view(fs[i].spec_ops()),
    decreases fs.len(),
{
    if fs.len() > 0 {
        lemma_bodies_view_index(fs.drop_last());
    }
}

impl Function {
    /// The body's operations.
    pub closed spec fn spec_ops(&self) -> Seq<Operation> {
        self.ops@
    }

    /// Executes the body against the given tape.
    pub fn execute(
        &self,
        ah: &mut ArrayHandler,
        fh: &FunctionHolder,
        st: &mut StackHandler,
        io: &mut ExecIo,
        fuel: u64,
    ) -> (r: Result<u64, Fault>)
        requires
            old(ah).well_formed(),
            old(io).well_formed(),
        ensures
            final(ah).well_formed(),
            final(io).well_formed(),
            r matches Ok(rem) ==> rem <= fuel,
            exec_matches(r,
                run_body(ops_view(self.spec_ops()), bodies_view(fh.spec_funs()),
                    mstate_of(*old(ah), old(st)@, *old(io)), fuel as nat),
                *final(ah), final(st)@, *final(io)),
        decreases fuel, *self,
    {
        if fuel == 0 {
            proof {
                lemma_mstate_agrees(*old(ah), old(st)@, *old(io));
            }
            return Err(Fault::StepLimit);
        }
        execute_seq(&self.ops, ah, fh, st, io, fuel - 1)
    }

    /// Executes the body against a fresh, isolated tape seeded with
    /// `args + 1` cells copied from the caller's cursor. The caller's tape
    /// may grow but its cells and cursor are untouched; results can only
    /// come back through the shared stack or the output.
    pub fn execute_separate(
        &self,
        ah: &mut ArrayHandler,
        args: usize,
        fh: &FunctionHolder,
        st: &mut StackHandler,
        io: &mut ExecIo,
        fuel: u64,
    ) -> (r: Result<u64, Fault>)
        requires
            old(ah).well_formed(),
            old(io).well_formed(),
            args <= TAPE_CAP / 2 - 1,
        ensures
            final(ah).well_formed(),
            final(io).well_formed(),
            same_cells(*old(ah), *final(ah)),
            final(ah).addr() == old(ah).addr(),
            r matches Ok(rem) ==> rem <= fuel,
            exec_matches(r,
                run_body_separate(ops_view(self.spec_ops()), args,
                    bodies_view(fh.spec_funs()),
                    mstate_of(*old(ah), old(st)@, *old(io)), fuel as nat),
                *final(ah), final(st)@, *final(io)),
        decreases fuel, *self,
    {
        let ghost ms0 = mstate_of(*old(ah), old(st)@, *old(io));
        let ghost fb = bodies_view(fh.spec_funs());
        if fuel == 0 {
            proof {
                lemma_mstate_agrees(*old(ah), old(st)@, *old(io));
            }
            return Err(Fault::StepLimit);
        }
        let mut ah2 = ArrayHandler::new((args + 1) * 2, false);
        let ghost pre2 = ah2;
        if !ah2.set_more(ah, args) {
            proof {
                let (cl, cp, cd, cok) = tape_grow(ms0.tlen, ms0.tpos, ms0.tdisp,
                    args as int);
                let msc = MState { tlen: cl, tpos: cp, tdisp: cd, ..ms0 };
                assert forall|a: int| #[trigger] msc.cells[a] == ah.cell(a) by {
                    assert(old(ah).cell(a) == ah.cell(a));
                }
                assert(agrees(*ah, st@, *io, msc));
            }
            return Err(Fault::TapeLimit);
        }
        let ghost frame = MState {
            cells: frame_cells(ms0, args as int),
            cur: 0,
            tlen: 2 * (args + 1),
            tpos: 0,
            tdisp: 0,
            ..ms0
        };
        proof {
            assert forall|a: int| #[trigger] frame.cells[a] == ah2.cell(a) by {
                if 0 <= a <= args {
                    assert(ms0.cells[ms0.cur + a] == old(ah).cell(old(ah).addr() + a));
                    assert(ah2.cell(pre2.addr() + a)
                        == old(ah).cell(old(ah).addr() + a));
                    assert(pre2.addr() == 0);
                } else {
                    assert(!(pre2.addr() <= a <= pre2.addr() + args));
                    assert(ah2.cell(a) == pre2.cell(a));
                    assert(pre2.cell(a) == 0i32);
                }
            }
            assert(agrees(ah2, st@, *io, frame));
            lemma_agrees_is(ah2, st@, *io, frame);
        }
        let ghost msc = MState {
            tlen: tape_grow(ms0.tlen, ms0.tpos, ms0.tdisp, args as int).0,
            tpos: tape_grow(ms0.tlen, ms0.tpos, ms0.tdisp, args as int).1,
            tdisp: tape_grow(ms0.tlen, ms0.tpos, ms0.tdisp, args as int).2,
            ..ms0
        };
        let r = execute_seq(&self.ops, &mut ah2, fh, st, io, fuel - 1);
        proof {
            crate::machine::lemma_run_fuel_seq(ops_view(self.spec_ops()), fb, frame,
                (fuel - 1) as nat);
            let out = run_seq(ops_view(self.spec_ops()), fb, frame, (fuel - 1) as nat);
            match out {
                StepOutcome::SDone(msb, rr) => {
                    assert(rr <= (fuel - 1) as nat);
                    assert(capped(rr, (fuel - 1) as nat) == rr);
                    assert forall|a: int| #[trigger] unframed(msc, msb).cells[a]
                        == ah.cell(a) by {
                        assert(ms0.cells[a] == old(ah).cell(a));
                        assert(old(ah).cell(a) == ah.cell(a));
                    }
                    assert(agrees(*ah, st@, *io, unframed(msc, msb)));
                },
                StepOutcome::SFault(msb, f) => {
                    assert forall|a: int| #[trigger] unframed(msc, msb).cells[a]
                        == ah.cell(a) by {
                        assert(ms0.cells[a] == old(ah).cell(a));
                        assert(old(ah).cell(a) == ah.cell(a));
                    }
                    assert(agrees(*ah, st@, *io, unframed(msc, msb)));
                },
            }
        }
        r
    }
}

/// The table of functions: committed ones, callable by index, and staged
/// ones awaiting the end of the current compile unit.
pub struct FunctionHolder {
    funs: Vec<Function>,
    temp: Vec<Function>,
}

impl FunctionHolder {
    /// The committed functions, in index order.
    pub closed spec fn spec_funs(&self) -> Seq<Function> {
        self.funs@
    }

    /// The staged functions, oldest first.
    pub closed spec fn spec_temp(&self) -> Seq<Function> {
        self.temp@
    }

    /// The number of committed plus staged functions.
    pub open spec fn spec_total(&self) -> int {
        self.spec_funs().len() + self.spec_temp().len() as int
    }

    /// Creates an empty table.
    pub fn new() -> (r: FunctionHolder)
        ensures
            r.spec_funs() == Seq::<Function>::empty(),
            r.spec_temp() == Seq::<Function>::empty(),
    {
        FunctionHolder { funs: Vec::new(), temp: Vec::new() }
    }

    /// Stages a new function body.
    pub fn add_temp(&mut self, ops: Vec<Operation>)
        ensures
            final(self).spec_funs() == old(self).spec_funs(),
            final(self).spec_temp().len() == old(self).spec_temp().len() + 1,
            final(self).spec_temp().drop_last() == old(self).spec_temp(),
            final(self).spec_temp().last().spec_ops() == ops@,
    {
        let ghost gops = ops@;
        self.temp.push(Function { ops });
        proof {
            assert(self.temp@.drop_last() =~= old(self).temp@);
        }
    }

    /// Commits every staged function, in staging order. Called only after
    /// a whole compile unit has parsed without error.
    pub fn push_funs(&mut self)
        ensures
            final(self).spec_funs() == old(self).spec_funs() + old(self).spec_temp(),
            final(self).spec_temp() == Seq::<Function>::empty(),
    {
        self.funs.append(&mut self.temp);
    }

    /// Drops every staged function. Called on a parse error.
    pub fn discard_funs(&mut self)
        ensures
            final(self).spec_funs() == old(self).spec_funs(),
            final(self).spec_temp() == Seq::<Function>::empty(),
    {
        self.temp.clear();
    }

    /// The number of committed functions.
    pub fn no_functions(&self) -> (r: usize)
        ensures
            r == self.spec_funs().len(),
    {
        self.funs.len()
    }

    /// The number of committed plus staged functions, cropped to `i32` as
    /// the tape's cells are.
    pub fn curr_funs(&self) -> (r: i32)
        ensures
            r == vstd::wrapping::i32_specs::signed_crop(
                (self.spec_funs().len() + self.spec_temp().len()) as int),
    {
        let a = self.funs.len();
        let b = self.temp.len();
        let m: u64 = ((a as u64) % 0x1_0000_0000 + (b as u64) % 0x1_0000_0000)
            % 0x1_0000_0000;
        proof {
            vstd::arithmetic::div_mod::lemma_add_mod_noop(
                a as int, b as int, 0x1_0000_0000);
        }
        crate::operation::crop_u64_to_i32(m)
    }

    /// Executes the committed function whose index is the tape's current
    /// cell, against the same tape; faults if the index is out of range.
    pub fn execute(
        &self,
        ah: &mut ArrayHandler,
        st: &mut StackHandler,
        io: &mut ExecIo,
        fuel: u64,
    ) -> (r: Result<u64, Fault>)
        requires
            old(ah).well_formed(),
            old(io).well_formed(),
        ensures
            final(ah).well_formed(),
            final(io).well_formed(),
            r matches Ok(rem) ==> rem <= fuel,
            (old(ah).cur_cell() < 0 || old(ah).cur_cell() >= self.spec_funs().len())
                ==> r == Err::<u64, Fault>(Fault::FunctionIndex)
                    && *final(ah) == *old(ah)
                    && final(st)@ == old(st)@
                    && *final(io) == *old(io),
            exec_matches(r,
                run_call(bodies_view(self.spec_funs()),
                    mstate_of(*old(ah), old(st)@, *old(io)), fuel as nat),
                *final(ah), final(st)@, *final(io)),
        decreases fuel, *self,
    {
        proof {
            lemma_bodies_view_index(self.spec_funs());
            lemma_mstate_agrees(*old(ah), old(st)@, *old(io));
        }
        let n = ah.get();
        if n < 0 {
            return Err(Fault::FunctionIndex);
        }
        let nn = n as usize;
        if nn >= self.funs.len() {
            return Err(Fault::FunctionIndex);
        }
        if fuel == 0 {
            return Err(Fault::StepLimit);
        }
        self.funs[nn].execute(ah, self, st, io, fuel - 1)
    }

    /// Executes the committed function whose index is the tape's current
    /// cell on a fresh isolated tape with `args + 1` argument cells;
    /// faults if the index is out of range.
    pub fn execute_separate(
        &self,
        ah: &mut ArrayHandler,
        args: usize,
        st: &mut StackHandler,
        io: &mut ExecIo,
        fuel: u64,
    ) -> (r: Result<u64, Fault>)
        requires
            old(ah).well_formed(),
            old(io).well_formed(),
        ensures
            final(ah).well_formed(),
            final(io).well_formed(),
            same_cells(*old(ah), *final(ah)),
            final(ah).addr() == old(ah).addr(),
            r matches Ok(rem) ==> rem <= fuel,
            (old(ah).cur_cell() < 0 || old(ah).cur_cell() >= self.spec_funs().len())
                ==> r == Err::<u64, Fault>(Fault::FunctionIndex)
                    && *final(ah) == *old(ah)
                    && final(st)@ == old(st)@
                    && *final(io) == *old(io),
            exec_matches(r,
                run_call_separate(args, bodies_view(self.spec_funs()),
                    mstate_of(*old(ah), old(st)@, *old(io)), fuel as nat),
                *final(ah), final(st)@, *final(io)),
        decreases fuel, *self,
    {
        proof {
            lemma_bodies_view_index(self.spec_funs());
            lemma_mstate_agrees(*old(ah), old(st)@, *old(io));
        }
        let n = ah.get();
        if n < 0 {
            return Err(Fault::FunctionIndex);
        }
        let nn = n as usize;
        if nn >= self.funs.len() {
            return Err(Fault::FunctionIndex);
        }
        if fuel == 0 {
            return Err(Fault::StepLimit);
        }
        if args > TAPE_CAP / 2 - 1 {
            return Err(Fault::TapeLimit);
        }
        self.funs[nn].execute_separate(ah, args, self, st, io, fuel - 1)
    }
}

} // verus!
