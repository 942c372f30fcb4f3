//! The two-stage optimiser: a local peephole merge over flat operation
//! sequences, and a whole-loop pattern recogniser that collapses the
//! common loop idioms (clear, scan, multiply-and-clear) into single
//! operations.

use vstd::prelude::*;
use crate::operation::{
    Operation, OpView, op_view, ops_view,
    lemma_ops_view_index, lemma_ops_view_push, lemma_ops_view_drop_last,
};

verus! {

broadcast use lemma_ops_view_index, lemma_ops_view_push, lemma_ops_view_drop_last;

/// One left-to-right step of the peephole merge: how the next operation
/// combines with the last one already emitted.
pub open spec fn reduce_step(acc: Seq<OpView>, op: OpView) -> Seq<OpView> {
    if op is EmptyOp {
        acc
    } else if acc.len() == 0 {
        acc.push(op)
    } else {
        match op {
            OpView::Add(i) => match acc.last() {
                OpView::Add(j) => {
                    let s = j.wrapping_add(i);
                    if s == 0 {
                        acc.drop_last()
                    } else {
                        acc.drop_last().push(OpView::Add(s))
                    }
                },
                OpView::Assign(j) => acc.drop_last().push(OpView::Assign(j.wrapping_add(i))),
                _ => acc.push(op),
            },
            OpView::Move(i) => match acc.last() {
                OpView::Move(j) => {
                    let s = j.wrapping_add(i);
                    if s == 0 {
                        acc.drop_last()
                    } else {
                        acc.drop_last().push(OpView::Move(s))
                    }
                },
                _ => acc.push(op),
            },
            OpView::Assign(_) | OpView::Read | OpView::StackLen => {
                if overwritable(acc.last()) {
                    acc.drop_last().push(op)
                } else {
                    acc.push(op)
                }
            },
            OpView::While(_) => {
                if zero_starts(acc.last()) {
                    acc
                } else {
                    acc.push(op)
                }
            },
            OpView::PopStack(i) => match acc.last() {
                OpView::PopStack(j) => acc.drop_last().push(OpView::PopStack(j.wrapping_add(i))),
                _ => acc.push(op),
            },
            _ => acc.push(op),
        }
    }
}

/// Operations whose only effect is on the cell at the cursor, so a
/// following write to that cell makes them dead.
pub open spec fn overwritable(op: OpView) -> bool {
    op is Add || op is Assign || op is PeekStack || op is StackLen
}

/// Operations after which the cell at the cursor is provably zero, so a
/// loop starting there can never run.
pub open spec fn zero_starts(op: OpView) -> bool {
    op is While || op == OpView::Assign(0i32) || op is MoveTo || op is SkipMove
}

/// The whole peephole pass: fold `reduce_step` over the sequence.
pub open spec fn peephole(ops: Seq<OpView>) -> Seq<OpView>
    decreases ops.len(),
{
    if ops.len() == 0 {
        Seq::empty()
    } else {
        reduce_step(peephole(ops.drop_last()), ops.last())
    }
}

/// Every operation is an `Add` or a `Move`.
pub open spec fn all_add_move(ops: Seq<OpView>) -> bool {
    forall|k: int| 0 <= k < ops.len() ==> (#[trigger] ops[k]) is Add || ops[k] is Move
}

/// The wrapped net displacement of the first `k` operations.
pub open spec fn net_move(ops: Seq<OpView>, k: int) -> i32
    decreases k,
{
    if k <= 0 {
        0i32
    } else {
        match ops[k - 1] {
            OpView::Move(j) => net_move(ops, k - 1).wrapping_add(j),
            _ => net_move(ops, k - 1),
        }
    }
}

/// The wrapped sum of the `Add` amounts applied while the running
/// displacement is zero, over the first `k` operations.
pub open spec fn zero_point_diff(ops: Seq<OpView>, k: int) -> i32
    decreases k,
{
    if k <= 0 {
        0i32
    } else {
        match ops[k - 1] {
            OpView::Add(j) => if net_move(ops, k - 1) == 0 {
                zero_point_diff(ops, k - 1).wrapping_add(j)
            } else {
                zero_point_diff(ops, k - 1)
            },
            _ => zero_point_diff(ops, k - 1),
        }
    }
}

/// The "transfer" shape: only `Add`/`Move`, the pointer returns to its
/// start, and the start cell loses exactly one per pass.
pub open spec fn is_transfer(ops: Seq<OpView>) -> bool {
    all_add_move(ops)
    && net_move(ops, ops.len() as int) == 0
    && zero_point_diff(ops, ops.len() as int) == -1
}

/// The first index of `ps` carrying offset `off`, or the length if none.
pub open spec fn find_off(ps: Seq<(i32, i32)>, off: i32) -> int
    decreases ps.len(),
{
    if ps.len() == 0 {
        0
    } else if ps[0].0 == off {
        0
    } else {
        1 + find_off(ps.drop_first(), off)
    }
}

/// Accumulates amount `amt` at offset `off` in the table: adds into an
/// existing entry, or appends a new one.
pub open spec fn add_point(ps: Seq<(i32, i32)>, off: i32, amt: i32) -> Seq<(i32, i32)> {
    let t = find_off(ps, off);
    if t < ps.len() {
        ps.update(t, (off, ps[t].1.wrapping_add(amt)))
    } else {
        ps.push((off, amt))
    }
}

/// The multiply-and-clear table of a transfer body: for each nonzero
/// offset visited, the wrapped sum of the `Add` amounts applied there, in
/// first-visit order; built from the first `k` operations.
pub open spec fn transfer_points(ops: Seq<OpView>, k: int) -> Seq<(i32, i32)>
    decreases k,
{
    if k <= 0 {
        Seq::empty()
    } else {
        let prev = transfer_points(ops, k - 1);
        match ops[k - 1] {
            OpView::Add(j) => if net_move(ops, k - 1) != 0 {
                add_point(prev, net_move(ops, k - 1), j)
            } else {
                prev
            },
            _ => prev,
        }
    }
}

/// What the loop optimiser turns a (peephole-merged) loop body into.
pub open spec fn loop_opt(body: Seq<OpView>) -> OpView {
    let o = peephole(body);
    if o.len() == 0 {
        OpView::EmptyOp
    } else if o.len() == 1 && (o[0] == OpView::Add(1i32) || o[0] == OpView::Add(-1i32)) {
        OpView::Assign(0)
    } else if o.len() == 1 && o[0] == OpView::Assign(0i32) {
        OpView::Assign(0)
    } else if o.len() == 1 && o[0] is Move {
        OpView::SkipMove(o[0]->Move_0)
    } else if is_transfer(o) {
        OpView::MoveTo(transfer_points(o, o.len() as int))
    } else {
        OpView::While(o)
    }
}

/// Merges one more operation into an already-reduced sequence, comparing
/// it only against the last one emitted.
pub fn reduce_top(ops: &mut Vec<Operation>, op: Operation)
    ensures
        ops_view(final(ops)@) == reduce_step(ops_view(old(ops)@), op_view(op)),
{
    if matches!(op, Operation::EmptyOp) {
        return;
    }
    if ops.len() == 0 {
        ops.push(op);
        return;
    }
    let last_idx = ops.len() - 1;
    match op {
        Operation::Add(i) => {
            let j_add: Option<i32> = match &ops[last_idx] {
                Operation::Add(j) => Some(*j),
                _ => None,
            };
            let j_set: Option<i32> = match &ops[last_idx] {
                Operation::Assign(j) => Some(*j),
                _ => None,
            };
            if let Some(j) = j_add {
                ops.pop();
                let s = j.wrapping_add(i);
                if s != 0 {
                    ops.push(Operation::Add(s));
                }
            } else if let Some(j) = j_set {
                ops.pop();
                ops.push(Operation::Assign(j.wrapping_add(i)));
            } else {
                ops.push(Operation::Add(i));
            }
        },
        Operation::Move(i) => {
            let j_move: Option<i32> = match &ops[last_idx] {
                Operation::Move(j) => Some(*j),
                _ => None,
            };
            if let Some(j) = j_move {
                ops.pop();
                let s = j.wrapping_add(i);
                if s != 0 {
                    ops.push(Operation::Move(s));
                }
            } else {
                ops.push(Operation::Move(i));
            }
        },
        Operation::Assign(_) | Operation::Read | Operation::StackLen => {
            let over = matches!(&ops[last_idx],
                Operation::Add(_) | Operation::Assign(_)
                | Operation::PeekStack | Operation::StackLen);
            if over {
                ops.pop();
            }
            ops.push(op);
        },
        Operation::While(_) => {
            let dead = matches!(&ops[last_idx],
                Operation::While(_) | Operation::Assign(0)
                | Operation::MoveTo(_) | Operation::SkipMove(_));
            if !dead {
                ops.push(op);
            }
        },
        Operation::PopStack(i) => {
            let j_pop: Option<usize> = match &ops[last_idx] {
                Operation::PopStack(j) => Some(*j),
                _ => None,
            };
            if let Some(j) = j_pop {
                ops.pop();
                ops.push(Operation::PopStack(j.wrapping_add(i)));
            } else {
                ops.push(Operation::PopStack(i));
            }
        },
        x => {
            ops.push(x);
        },
    }
}

/// Runs the peephole merge left to right over a whole sequence.
pub fn optimise_code(ops: Vec<Operation>) -> (r: Vec<Operation>)
    ensures
        ops_view(r@) == peephole(ops_view(ops@)),
{
    let ghost orig = ops@;
    let mut rest = ops;
    let mut optimised: Vec<Operation> = Vec::new();
    while rest.len() > 0
        invariant
            orig == orig.take(orig.len() - rest@.len()) + rest@,
            ops_view(optimised@)
                == peephole(ops_view(orig.take(orig.len() - rest@.len()))),
        decreases rest@.len(),
    {
        let ghost done = orig.take(orig.len() - rest@.len());
        let op = rest.remove(0);
        proof {
            assert(orig.take(orig.len() - rest@.len()) =~= done.push(op));
            assert(ops_view(done.push(op)).drop_last() =~= ops_view(done));
            assert(ops_view(done.push(op)).last() == op_view(op));
        }
        reduce_top(&mut optimised, op);
        proof {
            assert(orig =~= orig.take(orig.len() - rest@.len()) + rest@);
        }
    }
    proof {
        assert(orig.take(orig.len() as int) =~= orig);
    }
    optimised
}

/// `find_off` is the first index carrying `off`, or the length.
pub proof fn lemma_find_off(ps: Seq<(i32, i32)>, off: i32)
    ensures
        0 <= find_off(ps, off) <= ps.len(),
        find_off(ps, off) < ps.len() ==> ps[find_off(ps, off)].0 == off,
        forall|k: int| 0 <= k < find_off(ps, off) ==> (#[trigger] ps[k]).0 != off,
    decreases ps.len(),
{
    if ps.len() > 0 && ps[0].0 != off {
        lemma_find_off(ps.drop_first(), off);
        assert forall|k: int| 0 <= k < find_off(ps, off)
            implies (#[trigger] ps[k]).0 != off by {
            if k > 0 {
                assert(ps.drop_first()[k - 1] == ps[k]);
            }
        }
    }
}

/// Accumulates `amt` at offset `off` in the table.
#[verifier::loop_isolation(false)]
fn add_point_exec(ps: &mut Vec<(i32, i32)>, off: i32, amt: i32)
    ensures
        final(ps)@ == add_point(old(ps)@, off, amt),
{
    proof {
        lemma_find_off(old(ps)@, off);
    }
    let mut t: usize = 0;
    while t < ps.len()
        invariant
            t <= ps@.len(),
            *ps == *old(ps),
            forall|k: int| 0 <= k < t ==> (#[trigger] ps@[k]).0 != off,
        decreases ps@.len() - t,
    {
        if ps[t].0 == off {
            proof {
                let f = find_off(ps@, off);
                if f < t {
                    assert(ps@[f].0 != off);
                }
                if f > t {
                    assert(ps@[t as int].0 != off);
                }
                assert(f == t);
            }
            let cur = ps[t].1;
            ps.set(t, (off, cur.wrapping_add(amt)));
            return;
        }
        t = t + 1;
    }
    proof {
        assert(find_off(ps@, off) == ps@.len());
    }
    ps.push((off, amt));
}

/// Tests whether a loop body fits the multiply-and-clear ("transfer")
/// shape.
#[verifier::loop_isolation(false)]
pub fn move_and_add(ops: &Vec<Operation>) -> (r: bool)
    ensures
        r == is_transfer(ops_view(ops@)),
{
    let ghost v = ops_view(ops@);
    let mut total_move: i32 = 0;
    let mut point_diff: i32 = 0;
    let mut i: usize = 0;
    while i < ops.len()
        invariant
            i <= ops@.len(),
            total_move == net_move(v, i as int),
            point_diff == zero_point_diff(v, i as int),
            forall|k: int| 0 <= k < i ==> (#[trigger] v[k]) is Add || v[k] is Move,
        decreases ops@.len() - i,
    {
        let ghost gi = i as int;
        proof {
            lemma_ops_view_index(ops@);
            assert(v[gi] == op_view(ops@[gi]));
        }
        match &ops[i] {
            Operation::Add(j) => {
                proof {
                    assert(ops@[gi] matches Operation::Add(x) && x == *j);
                }
                if total_move == 0 {
                    point_diff = point_diff.wrapping_add(*j);
                }
            },
            Operation::Move(j) => {
                proof {
                    assert(ops@[gi] matches Operation::Move(x) && x == *j);
                }
                total_move = total_move.wrapping_add(*j);
            },
            _ => {
                proof {
                    assert(!(v[gi] is Add || v[gi] is Move));
                }
                return false;
            },
        }
        i = i + 1;
    }
    total_move == 0 && point_diff == -1
}

/// Rewrites a (raw) loop body into a single operation: an empty loop
/// disappears, a clear loop becomes an assignment of zero, a lone move
/// becomes a scan, a transfer body becomes a multiply-and-clear table,
/// and anything else stays a loop around the merged body.
#[verifier::loop_isolation(false)]
pub fn loop_optimiser(ops: Vec<Operation>) -> (r: Operation)
    ensures
        op_view(r) == loop_opt(ops_view(ops@)),
{
    let optimised = optimise_code(ops);
    let ghost o = ops_view(optimised@);
    if optimised.len() == 0 {
        return Operation::EmptyOp;
    }
    if optimised.len() == 1 {
        match &optimised[0] {
            Operation::Add(i) => {
                if *i == 1 || *i == -1 {
                    return Operation::Assign(0);
                }
            },
            Operation::Assign(i) => {
                if *i == 0 {
                    return Operation::Assign(0);
                }
            },
            Operation::Move(i) => {
                return Operation::SkipMove(*i);
            },
            _ => {},
        }
    }
    if move_and_add(&optimised) {
        let mut points: Vec<(i32, i32)> = Vec::new();
        let mut curr: i32 = 0;
        let mut idx: usize = 0;
        while idx < optimised.len()
            invariant
                idx <= optimised@.len(),
                curr == net_move(o, idx as int),
                points@ == transfer_points(o, idx as int),
            decreases optimised@.len() - idx,
        {
            let ghost gi = idx as int;
            proof {
                lemma_ops_view_index(optimised@);
                assert(o[gi] == op_view(optimised@[gi]));
                assert(o[gi] is Add || o[gi] is Move);
            }
            match &optimised[idx] {
                Operation::Add(j) => {
                    if curr != 0 {
                        add_point_exec(&mut points, curr, *j);
                    }
                },
                Operation::Move(j) => {
                    curr = curr.wrapping_add(*j);
                },
                _ => {
                    proof {
                        assert(false);
                    }
                },
            }
            idx = idx + 1;
        }
        return Operation::MoveTo(points);
    }
    Operation::While(optimised)
}

/// The clear-loop idioms: a loop body that only adds one or subtracts
/// one becomes a direct assignment of zero, which the engine's contract
/// for assignment then runs to a zero cell whatever value was there.
pub proof fn theorem_clear_loop(body: Seq<OpView>)
    requires
        body == seq![OpView::Add(1i32)] || body == seq![OpView::Add(-1i32)],
    ensures
        loop_opt(body) == OpView::Assign(0i32),
{
    assert(body.drop_last() =~= Seq::<OpView>::empty());
    assert(peephole(body.drop_last()) == Seq::<OpView>::empty());
    assert(peephole(body) =~= seq![body[0]]);
}

/// The next operation would combine with (or be dropped against) the
/// previous one, rather than being pushed as it stands.
pub open spec fn pair_merges(prev: OpView, op: OpView) -> bool {
    match op {
        OpView::EmptyOp => true,
        OpView::Add(_) => prev is Add || prev is Assign,
        OpView::Move(_) => prev is Move,
        OpView::Assign(_) | OpView::Read | OpView::StackLen => overwritable(prev),
        OpView::While(_) => zero_starts(prev),
        OpView::PopStack(_) => prev is PopStack,
        _ => false,
    }
}

/// No adjacent pair combines and nothing is inert.
pub open spec fn irreducible(s: Seq<OpView>) -> bool {
    (forall|i: int| 0 <= i < s.len() ==> !((#[trigger] s[i]) is EmptyOp))
    && (forall|i: int| 1 <= i < s.len() ==> !pair_merges(s[i - 1], #[trigger] s[i]))
}

/// Neither stack-reading operation occurs.
pub open spec fn no_stack_reads(s: Seq<OpView>) -> bool {
    forall|i: int| 0 <= i < s.len()
        ==> !((#[trigger] s[i]) is PeekStack) && !(s[i] is StackLen)
}

/// When nothing combines, a step is a plain push.
proof fn lemma_reduce_plain(acc: Seq<OpView>, op: OpView)
    requires
        acc.len() > 0,
        !(op is EmptyOp),
        !pair_merges(acc.last(), op),
    ensures
        reduce_step(acc, op) == acc.push(op),
{
}

/// A step keeps the emitted sequence irreducible and free of stack
/// reads, provided the new operation reads no stack either.
proof fn lemma_reduce_keeps(acc: Seq<OpView>, op: OpView)
    requires
        irreducible(acc),
        no_stack_reads(acc),
        !(op is PeekStack),
        !(op is StackLen),
    ensures
        irreducible(reduce_step(acc, op)),
        no_stack_reads(reduce_step(acc, op)),
    decreases acc.len(),
{
    let r = reduce_step(acc, op);
    if op is EmptyOp {
    } else if acc.len() == 0 {
    } else {
        let last = acc.last();
        let below_ok = acc.len() >= 2 ==> !pair_merges(acc[acc.len() - 2], last);
        assert(below_ok);
        match op {
            OpView::Add(i) => {
                if last is Add || last is Assign {
                    assert forall|k: int| 1 <= k < r.len()
                        implies !pair_merges(r[k - 1], #[trigger] r[k]) by {
                        if k < acc.len() - 1 {
                            assert(r[k] == acc[k]);
                            assert(r[k - 1] == acc[k - 1]);
                        }
                    }
                }
            },
            OpView::Move(i) => {
                if last is Move {
                    assert forall|k: int| 1 <= k < r.len()
                        implies !pair_merges(r[k - 1], #[trigger] r[k]) by {
                        if k < acc.len() - 1 {
                            assert(r[k] == acc[k]);
                            assert(r[k - 1] == acc[k - 1]);
                        }
                    }
                }
            },
            OpView::Assign(_) | OpView::Read => {
                if overwritable(last) {
                    assert(last is Add || last is Assign);
                    assert forall|k: int| 1 <= k < r.len()
                        implies !pair_merges(r[k - 1], #[trigger] r[k]) by {
                        if k < acc.len() - 1 {
                            assert(r[k] == acc[k]);
                            assert(r[k - 1] == acc[k - 1]);
                        }
                    }
                }
            },
            OpView::PopStack(_) => {
                if last is PopStack {
                    assert forall|k: int| 1 <= k < r.len()
                        implies !pair_merges(r[k - 1], #[trigger] r[k]) by {
                        if k < acc.len() - 1 {
                            assert(r[k] == acc[k]);
                            assert(r[k - 1] == acc[k - 1]);
                        }
                    }
                }
            },
            _ => {},
        }
    }
}

/// The peephole pass emits an irreducible sequence when its input reads
/// no stack.
proof fn lemma_peephole_irreducible(ops: Seq<OpView>)
    requires
        no_stack_reads(ops),
    ensures
        irreducible(peephole(ops)),
        no_stack_reads(peephole(ops)),
    decreases ops.len(),
{
    if ops.len() > 0 {
        assert(no_stack_reads(ops.drop_last())) by {
            assert(forall|i: int| 0 <= i < ops.len() - 1
                ==> #[trigger] ops.drop_last()[i] == ops[i]);
        }
        lemma_peephole_irreducible(ops.drop_last());
        lemma_reduce_keeps(peephole(ops.drop_last()), ops.last());
    }
}

/// An irreducible sequence is a fixed point of the peephole pass.
proof fn lemma_peephole_fixed(s: Seq<OpView>)
    requires
        irreducible(s),
    ensures
        peephole(s) == s,
    decreases s.len(),
{
    if s.len() > 0 {
        assert(irreducible(s.drop_last())) by {
            assert(forall|i: int| 0 <= i < s.len() - 1
                ==> #[trigger] s.drop_last()[i] == s[i]);
        }
        lemma_peephole_fixed(s.drop_last());
        if s.len() == 1 {
            assert(peephole(s) =~= s);
        } else {
            assert(!pair_merges(s[s.len() - 2], s.last()));
            assert(s.drop_last().last() == s[s.len() - 2]);
            lemma_reduce_plain(s.drop_last(), s.last());
            assert(s.drop_last().push(s.last()) =~= s);
        }
    }
}

/// Re-running the peephole merge over its own output changes nothing:
/// one left-to-right pass reaches a fixed point. This holds of every
/// sequence free of the two stack-reading operations; with them a later
/// overwrite can expose one more merge.
pub proof fn theorem_peephole_idempotent(ops: Seq<OpView>)
    requires
        no_stack_reads(ops),
    ensures
        peephole(peephole(ops)) == peephole(ops),
{
    lemma_peephole_irreducible(ops);
    lemma_peephole_fixed(peephole(ops));
}

} // verus!
