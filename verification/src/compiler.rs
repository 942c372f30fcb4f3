//! The compiler: parses a whole unit, optimises it, commits or discards
//! it atomically, and later executes the committed queue.

use vstd::prelude::*;
use crate::reader::{Reader, filter_src};
use crate::dispatcher::{dispatch, Dispatcher, ParseError, parse_one, parse_unit,
    ParseStep, UnitOutcome, adv, lemma_parse_pos};
use crate::operation::{Operation, OpView, op_view, ops_view, execute_seq, Fault,
    lemma_ops_view_index, lemma_ops_view_push, lemma_ops_view_drop_last};
use crate::optimiser::{optimise_code, peephole};
use crate::array_handler::ArrayHandler;
use crate::function::{Function, FunctionHolder, bodies_view, lemma_bodies_view_index};
use crate::stack_handler::StackHandler;
use crate::exec_io::ExecIo;

verus! {

broadcast use lemma_ops_view_index, lemma_ops_view_push, lemma_ops_view_drop_last, lemma_bodies_view_index;

/// How a unit outcome extends already-collected operations and bodies.
pub open spec fn unit_combine(
    pre_ops: Seq<OpView>, pre_bodies: Seq<Seq<OpView>>, rest: UnitOutcome,
) -> UnitOutcome {
    match rest {
        UnitOutcome::UOk(o, b) => UnitOutcome::UOk(pre_ops + o, pre_bodies + b),
        UnitOutcome::UErr(err) => UnitOutcome::UErr(err),
    }
}

/// Owns the tape, the function table, the auxiliary stack, the committed
/// operation queue and the queue being built by the current compile
/// attempt.
pub struct Compiler {
    ops: Vec<Operation>,
    temp: Vec<Operation>,
    ah: ArrayHandler,
    fh: FunctionHolder,
    st: StackHandler,
}

impl Compiler {
    /// The committed, not-yet-executed operation queue.
    pub closed spec fn spec_ops(&self) -> Seq<Operation> {
        self.ops@
    }

    /// The committed function bodies.
    pub closed spec fn spec_funs(&self) -> Seq<Function> {
        self.fh.spec_funs()
    }

    /// The tape.
    pub closed spec fn spec_tape(&self) -> ArrayHandler {
        self.ah
    }

    /// The auxiliary stack.
    pub closed spec fn spec_stack(&self) -> Seq<i32> {
        self.st@
    }

    /// Between compile attempts nothing is staged or pending, and the
    /// tape is intact.
    pub open spec fn well_formed(&self) -> bool {
        self.spec_tape().well_formed() && self.inv_clean()
    }

    /// Nothing staged, nothing pending.
    pub closed spec fn inv_clean(&self) -> bool {
        self.fh.spec_temp().len() == 0 && self.temp@.len() == 0
    }

    /// Creates a compiler with a fresh 1024-cell tape (cursor in the
    /// middle, so logical addresses -512 through 511 are reachable without
    /// growth), no functions, an empty stack and an empty queue.
    pub fn new() -> (r: Compiler)
        ensures
            r.well_formed(),
            r.spec_ops().len() == 0,
            r.spec_funs().len() == 0,
            r.spec_stack().len() == 0,
            forall|a: int| r.spec_tape().cell(a) == 0i32,
            r.spec_tape().addr() == 0,
            r.spec_tape().spec_cells().len() == 1024,
            r.spec_tape().spec_pos() == 512,
            r.spec_tape().spec_displacement() == 512,
    {
        Compiler {
            ops: Vec::new(),
            temp: Vec::new(),
            ah: ArrayHandler::new(1024, true),
            fh: FunctionHolder::new(),
            st: StackHandler::new(),
        }
    }

    /// Compiles one unit of source text. On success the parsed operations
    /// are peephole-merged and appended to the queue, and the functions
    /// defined in the unit are committed in order. On any parse error
    /// nothing changes at all: the queue, the function table, the tape
    /// and the stack are exactly as before.
    #[verifier::loop_isolation(false)]
    pub fn compile_string(&mut self, s: String) -> (r: Result<(), ParseError>)
        requires
            old(self).well_formed(),
        ensures
            final(self).well_formed(),
            final(self).spec_tape() == old(self).spec_tape(),
            final(self).spec_stack() == old(self).spec_stack(),
            match parse_unit(filter_src(s@), 0, old(self).spec_funs().len() as int) {
                UnitOutcome::UOk(opvs, bodies) => {
                    &&& r == Ok::<(), ParseError>(())
                    &&& ops_view(final(self).spec_ops())
                        == ops_view(old(self).spec_ops()) + peephole(opvs)
                    &&& bodies_view(final(self).spec_funs())
                        == bodies_view(old(self).spec_funs()) + bodies
                },
                UnitOutcome::UErr(err) => {
                    &&& r == Err::<(), ParseError>(err)
                    &&& final(self).spec_ops() == old(self).spec_ops()
                    &&& final(self).spec_funs() == old(self).spec_funs()
                },
            },
    {
        let ghost src = filter_src(s@);
        let ghost funs0 = old(self).spec_funs().len() as int;
        let mut reader = Reader::from_string(s);
        loop
            invariant
                reader.well_formed(),
                reader.spec_chars() == src,
                0 <= reader.spec_pos() <= src.len(),
                self.ah == old(self).ah,
                self.st == old(self).st,
                self.ops@ == old(self).ops@,
                self.fh.spec_funs() == old(self).fh.spec_funs(),
                self.fh.spec_total() == funs0 + self.fh.spec_temp().len(),
                parse_unit(src, 0, funs0) == unit_combine(
                    ops_view(self.temp@),
                    bodies_view(self.fh.spec_temp()),
                    parse_unit(src, reader.spec_pos(), self.fh.spec_total())),
            decreases src.len() - reader.spec_pos() + 1,
        {
            let ghost q = reader.spec_pos();
            let ghost funs = self.fh.spec_total();
            proof {
                if q < src.len() {
                    lemma_parse_pos(src, q, funs);
                }
            }
            match dispatch(&mut reader, &mut self.fh) {
                Dispatcher::Op(op) => {
                    let ghost unit_rest = parse_unit(src, reader.spec_pos(), funs);
                    proof {
                        let step = parse_one(src, q, funs);
                        let q2 = step->POp_1;
                        assert(adv(src, q, q2) == q2);
                        assert(ops_view(self.temp@.push(op))
                            =~= ops_view(self.temp@) + seq![op_view(op)]);
                        assert(parse_unit(src, 0, funs0) == unit_combine(
                            ops_view(self.temp@) + seq![op_view(op)],
                            bodies_view(self.fh.spec_temp()), unit_rest)) by {
                            match unit_rest {
                                UnitOutcome::UOk(o, b) => {
                                    assert((ops_view(self.temp@) + seq![op_view(op)]) + o
                                        =~= ops_view(self.temp@) + (seq![op_view(op)] + o));
                                },
                                UnitOutcome::UErr(_) => {},
                            }
                        }
                    }
                    self.temp.push(op);
                },
                Dispatcher::Fun => {
                    let ghost unit_rest = parse_unit(src, reader.spec_pos(),
                        self.fh.spec_total());
                    proof {
                        let step = parse_one(src, q, funs);
                        let q2 = step->PFun_1;
                        let body = step->PFun_0;
                        assert(adv(src, q, q2) == q2);
                        assert(bodies_view(self.fh.spec_temp()).drop_last()
                            == bodies_view(self.fh.spec_temp().drop_last()));
                        assert(bodies_view(self.fh.spec_temp())
                            =~= bodies_view(self.fh.spec_temp().drop_last()).push(body));
                        assert(parse_unit(src, 0, funs0) == unit_combine(
                            ops_view(self.temp@),
                            bodies_view(self.fh.spec_temp().drop_last()) + seq![body],
                            unit_rest)) by {
                            match unit_rest {
                                UnitOutcome::UOk(o, b) => {
                                    assert((bodies_view(self.fh.spec_temp().drop_last())
                                        + seq![body]) + b
                                        =~= bodies_view(self.fh.spec_temp().drop_last())
                                            + (seq![body] + b));
                                },
                                UnitOutcome::UErr(_) => {},
                            }
                        }
                        assert(bodies_view(self.fh.spec_temp().drop_last()) + seq![body]
                            =~= bodies_view(self.fh.spec_temp()));
                    }
                },
                Dispatcher::Empty => {
                    break;
                },
                Dispatcher::Error(e) => {
                    self.fh.discard_funs();
                    self.temp.clear();
                    return Err(e);
                },
            }
        }
        let ghost committed0 = self.fh.spec_funs();
        let ghost staged = self.fh.spec_temp();
        self.fh.push_funs();
        proof {
            lemma_bodies_view_concat(committed0, staged);
        }
        let ghost pending = self.temp@;
        let ghost fh1 = self.fh;
        let mut unit: Vec<Operation> = Vec::new();
        while self.temp.len() > 0
            invariant
                unit@ + self.temp@ == pending,
                self.ah == old(self).ah,
                self.st == old(self).st,
                self.ops@ == old(self).ops@,
                self.fh == fh1,
            decreases self.temp@.len(),
        {
            unit.push(self.temp.remove(0));
            proof {
                assert(unit@ + self.temp@ =~= pending);
            }
        }
        proof {
            assert(unit@ =~= pending);
        }
        let mut optimised = optimise_code(unit);
        let ghost merged = ops_view(optimised@);
        let ghost ops0 = self.ops@;
        while optimised.len() > 0
            invariant
                ops_view(self.ops@) + ops_view(optimised@) == ops_view(ops0) + merged,
                self.ah == old(self).ah,
                self.st == old(self).st,
                self.temp@.len() == 0,
                self.fh == fh1,
            decreases optimised@.len(),
        {
            let ghost before_ops = self.ops@;
            let ghost before_opt = optimised@;
            self.ops.push(optimised.remove(0));
            proof {
                assert(before_opt =~= seq![before_opt[0]] + before_opt.drop_first());
                lemma_ops_view_concat_ops(seq![before_opt[0]], before_opt.drop_first());
                lemma_ops_view_concat_ops(before_ops, seq![before_opt[0]]);
                assert(self.ops@ =~= before_ops + seq![before_opt[0]]);
                assert(ops_view(self.ops@) + ops_view(optimised@)
                    =~= ops_view(ops0) + merged);
            }
        }
        proof {
            assert(ops_view(self.ops@) + Seq::<OpView>::empty() =~= ops_view(self.ops@));
            lemma_ops_view_concat_ops(ops0, pending);
        }
        Ok(())
    }

    /// Runs every operation in the committed queue, in order, against the
    /// owned tape, function table and stack, spending from the step
    /// budget; then clears the queue.
    pub fn execute(&mut self, io: &mut ExecIo, fuel: u64) -> (r: Result<u64, Fault>)
        requires
            old(self).well_formed(),
            old(io).well_formed(),
        ensures
            final(self).well_formed(),
            final(io).well_formed(),
            final(self).spec_ops().len() == 0,
            final(self).spec_funs() == old(self).spec_funs(),
            r matches Ok(rem) ==> rem <= fuel,
            crate::machine::exec_matches(r,
                crate::machine::run_seq(ops_view(old(self).spec_ops()),
                    bodies_view(old(self).spec_funs()),
                    crate::machine::mstate_of(old(self).spec_tape(),
                        old(self).spec_stack(), *old(io)),
                    fuel as nat),
                final(self).spec_tape(), final(self).spec_stack(), *final(io)),
    {
        let r = execute_seq(&self.ops, &mut self.ah, &self.fh, &mut self.st, io, fuel);
        self.ops = Vec::new();
        r
    }

    /// The number of committed functions, for observation.
    pub fn functions(&self) -> (r: usize)
        ensures
            r == self.spec_funs().len(),
    {
        self.fh.no_functions()
    }

    /// The number of values on the auxiliary stack, for observation.
    pub fn stack_len(&self) -> (r: usize)
        ensures
            r == self.spec_stack().len(),
    {
        self.st.len()
    }

    /// The committed queue, for observation.
    pub fn ready_ops(&self) -> (r: &Vec<Operation>)
        ensures
            r@ == self.spec_ops(),
    {
        &self.ops
    }

    /// The tape's cell at the cursor, for observation.
    pub fn current_cell(&self) -> (r: i32)
        requires
            self.well_formed(),
        ensures
            r == self.spec_tape().cur_cell(),
    {
        self.ah.get()
    }

    /// The tape's cell at the given offset from the cursor, for
    /// observation.
    pub fn cell_at(&self, offset: i32) -> (r: i32)
        requires
            self.well_formed(),
        ensures
            r == self.spec_tape().cell(self.spec_tape().addr() + offset),
    {
        self.ah.get_at(offset)
    }
}

/// `ops_view` distributes over concatenation.
pub proof fn lemma_ops_view_concat_ops(a: Seq<Operation>, b: Seq<Operation>)
    ensures
        ops_view(a + b) == ops_view(a) + ops_view(b),
{
    lemma_ops_view_index(a);
    lemma_ops_view_index(b);
    lemma_ops_view_index(a + b);
    assert(ops_view(a + b) =~= ops_view(a) + ops_view(b));
}

/// `bodies_view` distributes over concatenation.
pub proof fn lemma_bodies_view_concat(a: Seq<Function>, b: Seq<Function>)
    ensures
        bodies_view(a + b) == bodies_view(a) + bodies_view(b),
{
    lemma_bodies_view_index(a);
    lemma_bodies_view_index(b);
    lemma_bodies_view_index(a + b);
    assert(bodies_view(a + b) =~= bodies_view(a) + bodies_view(b));
}

} // verus!
