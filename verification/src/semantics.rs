//! A mathematical model of executing flat `Add`/`Move` bodies on an
//! unbounded tape, and the equivalence theorems for the loop optimiser's
//! rewrites: a clear loop really clears, and a transfer body run to
//! completion really equals its multiply-and-clear table.

use vstd::prelude::*;
use vstd::wrapping::i32_specs::signed_crop;
use crate::operation::{OpView, moveto_points_wf, moveto_effect, offset_in_prefix};
use crate::array_handler::ArrayHandler;
use crate::optimiser::{
    is_transfer, all_add_move, net_move, peephole, reduce_step,
    zero_point_diff, transfer_points, add_point, find_off, lemma_find_off,
};

verus! {

/// A tape model: every address holds a cell.
pub open spec fn total_cells(m: Map<int, i32>) -> bool {
    forall|a: int| m.dom().contains(a)
}

/// Runs `ops[j..]` on the model: `Add` wraps into the cell at the cursor,
/// `Move` shifts the cursor; anything else is inert (transfer bodies hold
/// nothing else).
pub open spec fn apply_from(
    ops: Seq<OpView>, j: int, cells: Map<int, i32>, cur: int,
) -> (Map<int, i32>, int)
    decreases ops.len() - j,
{
    if j < 0 || j >= ops.len() {
        (cells, cur)
    } else {
        match ops[j] {
            OpView::Add(x) => apply_from(
                ops, j + 1, cells.insert(cur, cells[cur].wrapping_add(x)), cur),
            OpView::Move(x) => apply_from(ops, j + 1, cells, cur + x),
            _ => apply_from(ops, j + 1, cells, cur),
        }
    }
}

/// One whole pass of a loop body.
pub open spec fn apply_flat(
    ops: Seq<OpView>, cells: Map<int, i32>, cur: int,
) -> (Map<int, i32>, int) {
    apply_from(ops, 0, cells, cur)
}

/// `k` passes of a loop body.
pub open spec fn iter_body(
    ops: Seq<OpView>, cells: Map<int, i32>, cur: int, k: nat,
) -> (Map<int, i32>, int)
    decreases k,
{
    if k == 0 {
        (cells, cur)
    } else {
        let (c1, p1) = apply_flat(ops, cells, cur);
        iter_body(ops, c1, p1, (k - 1) as nat)
    }
}

/// The effect of a multiply-and-clear table on the model, entry by entry.
pub open spec fn moveto_fold(
    ps: Seq<(i32, i32)>, cells: Map<int, i32>, cur: int, v: i32,
) -> Map<int, i32>
    decreases ps.len(),
{
    if ps.len() == 0 {
        cells
    } else {
        let a = cur + ps[0].0;
        moveto_fold(ps.drop_first(),
            cells.insert(a, cells[a].wrapping_add(v.wrapping_mul(ps[0].1))), cur, v)
    }
}

/// Running a multiply-and-clear on the model: read the cursor cell once;
/// if zero do nothing, else zero it and fold the table.
pub open spec fn apply_moveto(
    ps: Seq<(i32, i32)>, cells: Map<int, i32>, cur: int,
) -> Map<int, i32> {
    let v = cells[cur];
    if v == 0 {
        cells
    } else {
        moveto_fold(ps, cells.insert(cur, 0), cur, v)
    }
}

/// The exact (unwrapped) net displacement of the first `k` operations.
pub open spec fn net_move_exact(ops: Seq<OpView>, k: int) -> int
    decreases k,
{
    if k <= 0 {
        0
    } else {
        match ops[k - 1] {
            OpView::Move(x) => net_move_exact(ops, k - 1) + x,
            _ => net_move_exact(ops, k - 1),
        }
    }
}

/// The running displacement never differs from its wrapped tracking, so
/// the shape test's arithmetic is exact.
pub open spec fn no_move_wrap(ops: Seq<OpView>) -> bool {
    forall|k: int| 0 <= k <= ops.len()
        ==> net_move_exact(ops, k) == #[trigger] net_move(ops, k) as int
}

/// The exact sum of the `Add` amounts applied at displacement `d` by
/// `ops[j..]`.
pub open spec fn added_at(ops: Seq<OpView>, j: int, d: int) -> int
    decreases ops.len() - j,
{
    if j < 0 || j >= ops.len() {
        0
    } else {
        match ops[j] {
            OpView::Add(x) => if net_move_exact(ops, j) == d {
                added_at(ops, j + 1, d) + x
            } else {
                added_at(ops, j + 1, d)
            },
            _ => added_at(ops, j + 1, d),
        }
    }
}

/// The Euclidean residue of `t` modulo two to the thirty-second.
proof fn lemma_residue(t: int)
    ensures
        0 <= t <= 0xFFFF_FFFF ==> t % 0x1_0000_0000 == t,
        -0x1_0000_0000 <= t < 0 ==> t % 0x1_0000_0000 == t + 0x1_0000_0000,
{
    let r = 0x1_0000_0000int;
    if 0 <= t <= 0xFFFF_FFFF {
        vstd::arithmetic::div_mod::lemma_small_mod(t as nat, r as nat);
    } else if -r <= t < 0 {
        vstd::arithmetic::div_mod::lemma_mod_multiples_vanish(1, t, r);
        vstd::arithmetic::div_mod::lemma_small_mod((t + r) as nat, r as nat);
        assert((r * 1 + t) % r == t % r);
        assert(r * 1 + t == t + r);
    }
}

/// Wrapping addition is cropped exact addition.
pub proof fn lemma_wrap_add_crop(x: i32, y: i32)
    ensures
        x.wrapping_add(y) == signed_crop(x + y),
{
    lemma_residue(x + y);
}

/// Cropping absorbs an inner crop of a summand.
pub proof fn lemma_crop_absorb(a: int, b: int)
    ensures
        signed_crop(a + signed_crop(b)) == signed_crop(a + b),
{
    let r = 0x1_0000_0000int;
    let c = signed_crop(b) as int;
    vstd::arithmetic::div_mod::lemma_add_mod_noop(a, b, r);
    vstd::arithmetic::div_mod::lemma_add_mod_noop(a, c, r);
    vstd::arithmetic::div_mod::lemma_mod_twice(b, r);
    if c == b % r {
        assert(c % r == b % r);
    } else {
        assert(c == b % r - r);
        vstd::arithmetic::div_mod::lemma_mod_multiples_vanish(1, c, r);
        assert((r * 1 + c) % r == c % r);
        assert(r * 1 + c == b % r);
        assert(c % r == b % r);
    }
    assert(((a % r) + (c % r)) % r == ((a % r) + (b % r)) % r);
    assert((a + c) % r == (a + b) % r);
}

/// Cropping a value already in range is the identity.
pub proof fn lemma_crop_id(v: i32)
    ensures
        signed_crop(v as int) == v,
{
    lemma_residue(v as int);
}

/// Cropping ignores whole multiples of two to the thirty-second.
proof fn lemma_crop_multiple(x: int, t: int)
    ensures
        signed_crop(x + t * 0x1_0000_0000) == signed_crop(x),
{
    let r = 0x1_0000_0000int;
    vstd::arithmetic::div_mod::lemma_mod_multiples_vanish(t, x, r);
    assert(r * t == t * r) by (nonlinear_arith);
}

/// One pass over the tail of an `Add`/`Move` body: the cursor lands at
/// the body's exact net displacement, and each cell gains the wrapped sum
/// of the amounts added at its offset.
pub proof fn lemma_pass(ops: Seq<OpView>, j: int, cells: Map<int, i32>, cur0: int)
    requires
        all_add_move(ops),
        total_cells(cells),
        0 <= j <= ops.len(),
    ensures
        ({
            let (c2, p2) = apply_from(ops, j, cells, cur0 + net_move_exact(ops, j));
            &&& p2 == cur0 + net_move_exact(ops, ops.len() as int)
            &&& total_cells(c2)
            &&& forall|a: int| #[trigger] c2[a]
                == signed_crop(cells[a] + added_at(ops, j, a - cur0))
        }),
    decreases ops.len() - j,
{
    let p = cur0 + net_move_exact(ops, j);
    if j == ops.len() {
        assert forall|a: int| #[trigger] cells[a]
            == signed_crop(cells[a] + added_at(ops, j, a - cur0)) by {
            lemma_crop_id(cells[a]);
        }
    } else {
        assert(ops[j] is Add || ops[j] is Move);
        match ops[j] {
            OpView::Add(x) => {
                let c1 = cells.insert(p, cells[p].wrapping_add(x));
                lemma_pass(ops, j + 1, c1, cur0);
                let (c2, p2) = apply_from(ops, j + 1, c1, cur0 + net_move_exact(ops, j + 1));
                assert(net_move_exact(ops, j + 1) == net_move_exact(ops, j));
                assert forall|a: int| #[trigger] c2[a]
                    == signed_crop(cells[a] + added_at(ops, j, a - cur0)) by {
                    if a == p {
                        lemma_wrap_add_crop(cells[p], x);
                        assert(c1[a] == signed_crop(cells[p] + x));
                        lemma_crop_absorb(added_at(ops, j + 1, a - cur0), cells[p] + x);
                        assert(added_at(ops, j, a - cur0)
                            == added_at(ops, j + 1, a - cur0) + x);
                    } else {
                        assert(c1[a] == cells[a]);
                        assert(added_at(ops, j, a - cur0)
                            == added_at(ops, j + 1, a - cur0));
                    }
                }
            },
            OpView::Move(x) => {
                lemma_pass(ops, j + 1, cells, cur0);
                assert(net_move_exact(ops, j + 1) == net_move_exact(ops, j) + x);
            },
            _ => {},
        }
    }
}

/// `k` passes of a body whose pointer returns exactly to its start: the
/// cursor is unmoved and each cell gains `k` times its per-pass sum.
pub proof fn lemma_iter(ops: Seq<OpView>, cells: Map<int, i32>, cur: int, k: nat)
    requires
        all_add_move(ops),
        total_cells(cells),
        net_move_exact(ops, ops.len() as int) == 0,
    ensures
        ({
            let (ck, pk) = iter_body(ops, cells, cur, k);
            &&& pk == cur
            &&& total_cells(ck)
            &&& forall|a: int| #[trigger] ck[a]
                == signed_crop(cells[a] + k * added_at(ops, 0, a - cur))
        }),
    decreases k,
{
    if k == 0 {
        assert forall|a: int| #[trigger] cells[a]
            == signed_crop(cells[a] + k * added_at(ops, 0, a - cur)) by {
            assert(k * added_at(ops, 0, a - cur) == 0) by (nonlinear_arith)
                requires k == 0;
            lemma_crop_id(cells[a]);
        }
    } else {
        lemma_pass(ops, 0, cells, cur);
        let (c1, p1) = apply_flat(ops, cells, cur);
        assert(p1 == cur);
        lemma_iter(ops, c1, cur, (k - 1) as nat);
        let (ck, pk) = iter_body(ops, c1, cur, (k - 1) as nat);
        assert forall|a: int| #[trigger] ck[a]
            == signed_crop(cells[a] + k * added_at(ops, 0, a - cur)) by {
            let s = added_at(ops, 0, a - cur);
            assert(c1[a] == signed_crop(cells[a] + s));
            assert(ck[a] == signed_crop(c1[a] + (k - 1) * s));
            lemma_crop_absorb((k - 1) * s, cells[a] + s);
            assert(cells[a] + s + (k - 1) * s == cells[a] + k * s) by (nonlinear_arith);
        }
    }
}

/// The exact sum of the `Add` amounts applied at displacement `d` by the
/// first `k` operations.
pub open spec fn added_before(ops: Seq<OpView>, k: int, d: int) -> int
    decreases k,
{
    if k <= 0 {
        0
    } else {
        let prev = added_before(ops, k - 1, d);
        match ops[k - 1] {
            OpView::Add(x) => if net_move_exact(ops, k - 1) == d {
                prev + x
            } else {
                prev
            },
            _ => prev,
        }
    }
}

/// Prefix and suffix sums complement each other.
proof fn lemma_added_split(ops: Seq<OpView>, j: int, d: int)
    requires
        0 <= j <= ops.len(),
    ensures
        added_at(ops, j, d)
            == added_before(ops, ops.len() as int, d) - added_before(ops, j, d),
    decreases ops.len() - j,
{
    if j < ops.len() {
        lemma_added_split(ops, j + 1, d);
    }
}

/// The shape test's wrapped zero-point sum is the crop of the exact sum
/// at displacement zero.
proof fn lemma_zpd_bridge(ops: Seq<OpView>, k: int)
    requires
        no_move_wrap(ops),
        0 <= k <= ops.len(),
    ensures
        zero_point_diff(ops, k) == signed_crop(added_before(ops, k, 0)),
    decreases k,
{
    if k == 0 {
        lemma_crop_id(0);
    } else {
        lemma_zpd_bridge(ops, k - 1);
        match ops[k - 1] {
            OpView::Add(x) => {
                assert(net_move(ops, k - 1) as int == net_move_exact(ops, k - 1));
                if net_move(ops, k - 1) == 0 {
                    lemma_wrap_add_crop(zero_point_diff(ops, k - 1), x);
                    lemma_crop_absorb(x as int, added_before(ops, k - 1, 0));
                    assert(added_before(ops, k - 1, 0) + x
                        == x + added_before(ops, k - 1, 0));
                }
            },
            _ => {},
        }
    }
}

/// No amount is ever added at a displacement outside the range the
/// wrapped tracking can reach.
proof fn lemma_added_outside(ops: Seq<OpView>, j: int, d: int)
    requires
        no_move_wrap(ops),
        0 <= j <= ops.len(),
        d > i32::MAX || d < i32::MIN,
    ensures
        added_at(ops, j, d) == 0,
    decreases ops.len() - j,
{
    if j < ops.len() {
        lemma_added_outside(ops, j + 1, d);
        assert(net_move_exact(ops, j) == net_move(ops, j) as int);
    }
}

/// Whether the table carries an entry for offset `d`.
pub open spec fn has_off(t: Seq<(i32, i32)>, d: i32) -> bool {
    exists|i: int| 0 <= i < t.len() && (#[trigger] t[i]).0 == d
}

/// The multiply-and-clear table is sound and complete: its offsets are
/// nonzero and distinct, each entry carries the cropped exact sum at its
/// offset, and a nonzero offset missing from the table received nothing.
proof fn lemma_table(ops: Seq<OpView>, k: int)
    requires
        all_add_move(ops),
        no_move_wrap(ops),
        0 <= k <= ops.len(),
    ensures
        ({
            let t = transfer_points(ops, k);
            &&& forall|i: int| 0 <= i < t.len() ==> (#[trigger] t[i]).0 != 0
            &&& forall|i: int, i2: int| 0 <= i < i2 < t.len()
                ==> t[i].0 != t[i2].0
            &&& forall|i: int| 0 <= i < t.len() ==> (#[trigger] t[i]).1
                == signed_crop(added_before(ops, k, t[i].0 as int))
            &&& forall|d: i32| d != 0 && !has_off(t, d)
                ==> added_before(ops, k, d as int) == 0
        }),
    decreases k,
{
    if k > 0 {
        lemma_table(ops, k - 1);
        let tp = transfer_points(ops, k - 1);
        let t = transfer_points(ops, k);
        match ops[k - 1] {
            OpView::Add(x) => {
                let d0 = net_move(ops, k - 1);
                assert(d0 as int == net_move_exact(ops, k - 1));
                if d0 != 0 {
                    lemma_find_off(tp, d0);
                    let f = find_off(tp, d0);
                    assert(t == add_point(tp, d0, x));
                    if f < tp.len() {
                        assert(t == tp.update(f, (d0, tp[f].1.wrapping_add(x))));
                        assert forall|i: int| 0 <= i < t.len()
                            implies (#[trigger] t[i]).1
                                == signed_crop(added_before(ops, k, t[i].0 as int)) by {
                            if i == f {
                                lemma_wrap_add_crop(tp[f].1, x);
                                lemma_crop_absorb(x as int, added_before(ops, k - 1, d0 as int));
                                assert(added_before(ops, k, d0 as int)
                                    == added_before(ops, k - 1, d0 as int) + x);
                                assert(added_before(ops, k - 1, d0 as int) + x
                                    == x + added_before(ops, k - 1, d0 as int));
                            } else {
                                assert(t[i] == tp[i]);
                                assert(t[i].0 != d0);
                                assert(added_before(ops, k, t[i].0 as int)
                                    == added_before(ops, k - 1, t[i].0 as int));
                            }
                        }
                        assert forall|d: i32| d != 0 && !has_off(t, d)
                            implies added_before(ops, k, d as int) == 0 by {
                            assert(!has_off(tp, d)) by {
                                if has_off(tp, d) {
                                    let i = choose|i: int| 0 <= i < tp.len()
                                        && (#[trigger] tp[i]).0 == d;
                                    assert(t[i].0 == d);
                                }
                            }
                            assert(d != d0) by {
                                if d == d0 {
                                    assert(t[f].0 == d0);
                                }
                            }
                        }
                    } else {
                        assert(t == tp.push((d0, x)));
                        assert(!has_off(tp, d0)) by {
                            if has_off(tp, d0) {
                                let i = choose|i: int| 0 <= i < tp.len()
                                    && (#[trigger] tp[i]).0 == d0;
                                assert(tp[i].0 != d0);
                            }
                        }
                        assert(added_before(ops, k - 1, d0 as int) == 0);
                        assert forall|i: int| 0 <= i < t.len()
                            implies (#[trigger] t[i]).1
                                == signed_crop(added_before(ops, k, t[i].0 as int)) by {
                            if i == t.len() - 1 {
                                assert(added_before(ops, k, d0 as int) == x);
                                lemma_crop_id(x);
                            } else {
                                assert(t[i] == tp[i]);
                                assert(t[i].0 != d0);
                            }
                        }
                        assert forall|d: i32| d != 0 && !has_off(t, d)
                            implies added_before(ops, k, d as int) == 0 by {
                            assert(!has_off(tp, d)) by {
                                if has_off(tp, d) {
                                    let i = choose|i: int| 0 <= i < tp.len()
                                        && (#[trigger] tp[i]).0 == d;
                                    assert(t[i].0 == d);
                                }
                            }
                            assert(d != d0) by {
                                if d == d0 {
                                    assert(t[t.len() - 1].0 == d0);
                                }
                            }
                        }
                    }
                } else {
                    assert forall|d: i32| d != 0 && !has_off(t, d)
                        implies added_before(ops, k, d as int) == 0 by {
                        assert(d as int != d0 as int);
                    }
                }
            },
            _ => {
                assert forall|i: int| 0 <= i < t.len()
                    implies (#[trigger] t[i]).1
                        == signed_crop(added_before(ops, k, t[i].0 as int)) by {
                    assert(added_before(ops, k, t[i].0 as int)
                        == added_before(ops, k - 1, t[i].0 as int));
                }
            },
        }
    }
}

/// The loop optimiser's multiply-and-clear table is well formed: its
/// offsets are nonzero and pairwise distinct, so the executable engine's
/// exact effect clause applies to every table the optimiser emits.
pub proof fn theorem_transfer_points_wf(ops: Seq<OpView>)
    requires
        all_add_move(ops),
        no_move_wrap(ops),
    ensures
        crate::operation::moveto_points_wf(transfer_points(ops, ops.len() as int)),
{
    lemma_table(ops, ops.len() as int);
}

/// Folding a table with distinct nonzero offsets touches exactly the
/// listed cells, each once.
proof fn lemma_fold(ps: Seq<(i32, i32)>, cells: Map<int, i32>, cur: int, v: i32)
    requires
        total_cells(cells),
        forall|i: int| 0 <= i < ps.len() ==> (#[trigger] ps[i]).0 != 0,
        forall|i: int, i2: int| 0 <= i < i2 < ps.len() ==> ps[i].0 != ps[i2].0,
    ensures
        ({
            let m = moveto_fold(ps, cells, cur, v);
            &&& total_cells(m)
            &&& forall|i: int| 0 <= i < ps.len()
                ==> m[cur + (#[trigger] ps[i]).0]
                    == cells[cur + ps[i].0].wrapping_add(v.wrapping_mul(ps[i].1))
            &&& forall|a: int| !(exists|i: int| 0 <= i < ps.len()
                    && cur + (#[trigger] ps[i]).0 == a)
                ==> #[trigger] m[a] == cells[a]
        }),
    decreases ps.len(),
{
    if ps.len() > 0 {
        let a0 = cur + ps[0].0;
        let c1 = cells.insert(a0, cells[a0].wrapping_add(v.wrapping_mul(ps[0].1)));
        let rest = ps.drop_first();
        assert(forall|i: int| 0 <= i < rest.len()
            ==> #[trigger] rest[i] == ps[i + 1]);
        lemma_fold(rest, c1, cur, v);
        let m = moveto_fold(ps, cells, cur, v);
        assert(m == moveto_fold(rest, c1, cur, v));
        assert forall|i: int| 0 <= i < ps.len()
            implies m[cur + (#[trigger] ps[i]).0]
                == cells[cur + ps[i].0].wrapping_add(v.wrapping_mul(ps[i].1)) by {
            if i == 0 {
                assert(!(exists|i2: int| 0 <= i2 < rest.len()
                    && cur + (#[trigger] rest[i2]).0 == a0)) by {
                    if exists|i2: int| 0 <= i2 < rest.len()
                        && cur + (#[trigger] rest[i2]).0 == a0 {
                        let i2 = choose|i2: int| 0 <= i2 < rest.len()
                            && cur + (#[trigger] rest[i2]).0 == a0;
                        assert(ps[0].0 != ps[i2 + 1].0);
                    }
                }
                assert(m[a0] == c1[a0]);
            } else {
                assert(rest[i - 1] == ps[i]);
                assert(c1[cur + ps[i].0] == cells[cur + ps[i].0]);
            }
        }
        assert forall|a: int| !(exists|i: int| 0 <= i < ps.len()
                && cur + (#[trigger] ps[i]).0 == a)
            implies #[trigger] m[a] == cells[a] by {
            assert(a != a0);
            assert(!(exists|i2: int| 0 <= i2 < rest.len()
                && cur + (#[trigger] rest[i2]).0 == a)) by {
                if exists|i2: int| 0 <= i2 < rest.len()
                    && cur + (#[trigger] rest[i2]).0 == a {
                    let i2 = choose|i2: int| 0 <= i2 < rest.len()
                        && cur + (#[trigger] rest[i2]).0 == a;
                    assert(cur + ps[i2 + 1].0 == a);
                }
            }
            assert(c1[a] == cells[a]);
        }
    }
}

/// Cropping commutes with multiplying by a cropped factor.
proof fn lemma_crop_mul_absorb(v: int, s: int)
    ensures
        signed_crop(v * signed_crop(s)) == signed_crop(v * s),
{
    let r = 0x1_0000_0000int;
    let c = signed_crop(s) as int;
    if c == s % r {
        let t = s / r;
        assert(s == r * t + c) by {
            vstd::arithmetic::div_mod::lemma_fundamental_div_mod(s, r);
        }
        assert(v * s == v * c + (v * t) * r) by (nonlinear_arith)
            requires s == r * t + c;
        lemma_crop_multiple(v * c, v * t);
    } else {
        assert(c == s % r - r);
        let t = s / r;
        assert(s == r * t + (c + r)) by {
            vstd::arithmetic::div_mod::lemma_fundamental_div_mod(s, r);
        }
        assert(v * s == v * c + (v * t + v) * r) by (nonlinear_arith)
            requires s == r * t + c + r;
        lemma_crop_multiple(v * c, v * t + v);
    }
}

/// Running a transfer-shaped loop body to completion from a nonnegative
/// starting value equals running its multiply-and-clear table once: the
/// cursor returns to its start, the loop runs exactly `v` passes (the
/// start cell reads `v - k` after `k` passes, reaching zero only at the
/// end), and the final cells agree exactly.
pub proof fn theorem_transfer_equivalence(
    body: Seq<OpView>, cells: Map<int, i32>, cur: int, v: i32,
)
    requires
        is_transfer(body),
        no_move_wrap(body),
        total_cells(cells),
        cells[cur] == v,
        v >= 0,
    ensures
        iter_body(body, cells, cur, v as nat).1 == cur,
        forall|k: nat| k <= v ==> #[trigger] iter_body(body, cells, cur, k).0[cur]
            == v - k,
        iter_body(body, cells, cur, v as nat).0
            == apply_moveto(transfer_points(body, body.len() as int), cells, cur),
{
    let len = body.len() as int;
    let s0 = added_at(body, 0, 0);
    lemma_zpd_bridge(body, len);
    lemma_added_split(body, 0, 0);
    assert(signed_crop(s0) == -1);
    lemma_iter(body, cells, cur, v as nat);
    // the start cell counts down: after k passes it reads v - k
    assert forall|k: nat| k <= v implies #[trigger] iter_body(body, cells, cur, k).0[cur]
        == v - k by {
        lemma_iter(body, cells, cur, k);
        lemma_crop_mul_absorb(k as int, s0);
        assert(k * (-1int) == -(k as int)) by (nonlinear_arith);
        assert(iter_body(body, cells, cur, k).0[cur]
            == signed_crop(cells[cur] + k * s0));
        lemma_crop_absorb(cells[cur] as int, k * s0);
        assert(signed_crop(k * s0) == signed_crop(k * (-1int))) by {
            lemma_crop_mul_absorb(k as int, s0);
            lemma_crop_mul_absorb(k as int, -1int);
            lemma_crop_id(-1i32);
        }
        lemma_crop_absorb(cells[cur] as int, k * (-1int));
        lemma_residue(v - k);
    }
    let t = transfer_points(body, len);
    lemma_table(body, len);
    let (cv, pv) = iter_body(body, cells, cur, v as nat);
    if v == 0 {
        assert(cv =~= apply_moveto(t, cells, cur));
    } else {
        let c0 = cells.insert(cur, 0);
        lemma_fold(t, c0, cur, v);
        let m = moveto_fold(t, c0, cur, v);
        assert(apply_moveto(t, cells, cur) == m);
        assert forall|a: int| #[trigger] cv[a] == m[a] by {
            let d = a - cur;
            assert(cv[a] == signed_crop(cells[a] + v * added_at(body, 0, d)));
            if a == cur {
                assert(cv[a] == 0);
                assert(!(exists|i: int| 0 <= i < t.len()
                    && cur + (#[trigger] t[i]).0 == a)) by {
                    if exists|i: int| 0 <= i < t.len()
                        && cur + (#[trigger] t[i]).0 == a {
                        let i = choose|i: int| 0 <= i < t.len()
                            && cur + (#[trigger] t[i]).0 == a;
                        assert(t[i].0 != 0);
                    }
                }
                assert(m[a] == c0[a]);
            } else if exists|i: int| 0 <= i < t.len()
                && cur + (#[trigger] t[i]).0 == a {
                let i = choose|i: int| 0 <= i < t.len()
                    && cur + (#[trigger] t[i]).0 == a;
                let doff = t[i].0;
                lemma_added_split(body, 0, doff as int);
                assert(m[a] == c0[a].wrapping_add(v.wrapping_mul(t[i].1)));
                assert(c0[a] == cells[a]);
                lemma_wrap_add_crop(cells[a], v.wrapping_mul(t[i].1));
                assert(v.wrapping_mul(t[i].1) == signed_crop(v * t[i].1));
                assert(t[i].1 == signed_crop(added_at(body, 0, doff as int)));
                lemma_crop_mul_absorb(v as int, added_at(body, 0, doff as int));
                lemma_crop_absorb(cells[a] as int,
                    v * added_at(body, 0, doff as int));
                lemma_crop_absorb(cells[a] as int,
                    signed_crop(v * added_at(body, 0, doff as int)) as int);
            } else {
                assert(m[a] == c0[a]);
                assert(c0[a] == cells[a]);
                if i32::MIN <= d <= i32::MAX {
                    assert(!has_off(t, d as i32)) by {
                        if has_off(t, d as i32) {
                            let i = choose|i: int| 0 <= i < t.len()
                                && (#[trigger] t[i]).0 == d as i32;
                            assert(cur + t[i].0 == a);
                        }
                    }
                    lemma_added_split(body, 0, d);
                    assert(added_at(body, 0, d) == 0);
                } else {
                    lemma_added_outside(body, 0, d);
                }
                assert(v * 0int == 0) by (nonlinear_arith);
                lemma_crop_id(cells[a]);
            }
        }
        assert(cv =~= m);
    }
}

/// The engine's multiply-and-clear postcondition coincides with the
/// model's: a tape that satisfies the executable contract holds exactly
/// the cells the model predicts.
pub proof fn lemma_moveto_effect_models(
    a0: ArrayHandler, a1: ArrayHandler, ps: Seq<(i32, i32)>, cells: Map<int, i32>,
)
    requires
        moveto_points_wf(ps),
        a0.cur_cell() != 0,
        a1.addr() == a0.addr(),
        moveto_effect(a0, a1, ps, a0.cur_cell()),
        total_cells(cells),
        forall|x: int| #[trigger] cells[x] == a0.cell(x),
    ensures
        forall|x: int| #[trigger] a1.cell(x) == apply_moveto(ps, cells, a0.addr())[x],
{
    let cur = a0.addr();
    let v = cells[cur];
    let c0 = cells.insert(cur, 0);
    assert forall|i: int, i2: int| 0 <= i < i2 < ps.len()
        implies ps[i].0 != ps[i2].0 by {}
    lemma_fold(ps, c0, cur, v);
    let m = moveto_fold(ps, c0, cur, v);
    assert(apply_moveto(ps, cells, cur) == m);
    assert forall|x: int| #[trigger] a1.cell(x) == m[x] by {
        let d = x - cur;
        if x == cur {
            assert(!(exists|i: int| 0 <= i < ps.len()
                && cur + (#[trigger] ps[i]).0 == x)) by {
                if exists|i: int| 0 <= i < ps.len()
                    && cur + (#[trigger] ps[i]).0 == x {
                    let i = choose|i: int| 0 <= i < ps.len()
                        && cur + (#[trigger] ps[i]).0 == x;
                    assert(ps[i].0 != 0);
                }
            }
            assert(m[x] == c0[x]);
            assert(a1.cell(x) == 0);
        } else if exists|i: int| 0 <= i < ps.len()
            && cur + (#[trigger] ps[i]).0 == x {
            let i = choose|i: int| 0 <= i < ps.len()
                && cur + (#[trigger] ps[i]).0 == x;
            assert(m[x] == c0[x].wrapping_add(v.wrapping_mul(ps[i].1)));
            assert(c0[x] == cells[x]);
            assert(a1.cell(cur + ps[i].0)
                == a0.cell(cur + ps[i].0).wrapping_add(v.wrapping_mul(ps[i].1)));
        } else {
            assert(m[x] == c0[x]);
            assert(!offset_in_prefix(ps, ps.len() as int, d)) by {
                if offset_in_prefix(ps, ps.len() as int, d) {
                    let i = choose|i: int| 0 <= i < ps.len()
                        && (#[trigger] ps[i]).0 == d;
                    assert(cur + ps[i].0 == x);
                }
            }
            assert(a1.cell(x) == a0.cell(x));
        }
    }
}

/// One operation applied to the model.
pub open spec fn apply_op(op: OpView, cells: Map<int, i32>, cur: int) -> (Map<int, i32>, int) {
    match op {
        OpView::Add(x) => (cells.insert(cur, cells[cur].wrapping_add(x)), cur),
        OpView::Move(x) => (cells, cur + x),
        _ => (cells, cur),
    }
}

/// Applying a sequence with one more operation at its end applies the
/// sequence, then the operation.
proof fn lemma_apply_push(s: Seq<OpView>, x: OpView, j: int, cells: Map<int, i32>, cur: int)
    requires
        0 <= j <= s.len(),
    ensures
        ({
            let (c1, p1) = apply_from(s, j, cells, cur);
            apply_from(s.push(x), j, cells, cur) == apply_op(x, c1, p1)
        }),
    decreases s.len() - j,
{
    if j == s.len() {
        let t = s.push(x);
        assert(t[j] == x);
        match x {
            OpView::Add(y) => {
                assert(apply_from(t, j + 1,
                    cells.insert(cur, cells[cur].wrapping_add(y)), cur)
                    == (cells.insert(cur, cells[cur].wrapping_add(y)), cur));
            },
            OpView::Move(y) => {
                assert(apply_from(t, j + 1, cells, cur + y) == (cells, cur + y));
            },
            _ => {
                assert(apply_from(t, j + 1, cells, cur) == (cells, cur));
            },
        }
    } else {
        assert(s.push(x)[j] == s[j]);
        match s[j] {
            OpView::Add(y) => {
                lemma_apply_push(s, x, j + 1,
                    cells.insert(cur, cells[cur].wrapping_add(y)), cur);
            },
            OpView::Move(y) => {
                lemma_apply_push(s, x, j + 1, cells, cur + y);
            },
            _ => {
                lemma_apply_push(s, x, j + 1, cells, cur);
            },
        }
    }
}

/// Applying operations keeps the model total.
proof fn lemma_apply_total(s: Seq<OpView>, j: int, cells: Map<int, i32>, cur: int)
    requires
        0 <= j <= s.len(),
        total_cells(cells),
    ensures
        total_cells(apply_from(s, j, cells, cur).0),
    decreases s.len() - j,
{
    if j < s.len() {
        match s[j] {
            OpView::Add(y) => {
                lemma_apply_total(s, j + 1,
                    cells.insert(cur, cells[cur].wrapping_add(y)), cur);
            },
            OpView::Move(y) => {
                lemma_apply_total(s, j + 1, cells, cur + y);
            },
            _ => {
                lemma_apply_total(s, j + 1, cells, cur);
            },
        }
    }
}

/// The peephole merge keeps a body inside the `Add`/`Move` fragment.
proof fn lemma_peephole_add_move(ops: Seq<OpView>)
    requires
        all_add_move(ops),
    ensures
        all_add_move(peephole(ops)),
    decreases ops.len(),
{
    if ops.len() > 0 {
        assert(all_add_move(ops.drop_last())) by {
            assert(forall|k: int| 0 <= k < ops.len() - 1
                ==> #[trigger] ops.drop_last()[k] == ops[k]);
        }
        lemma_peephole_add_move(ops.drop_last());
        let acc = peephole(ops.drop_last());
        let last = ops.last();
        assert(last is Add || last is Move);
        let r = reduce_step(acc, last);
        assert forall|k: int| 0 <= k < r.len()
            implies (#[trigger] r[k]) is Add || r[k] is Move by {
        }
    }
}

/// No merged pair of moves wraps while the peephole pass folds `ops`.
pub open spec fn merge_no_wrap(ops: Seq<OpView>) -> bool
    decreases ops.len(),
{
    if ops.len() == 0 {
        true
    } else {
        merge_no_wrap(ops.drop_last()) && {
            let acc = peephole(ops.drop_last());
            match ops.last() {
                OpView::Move(i) => acc.len() == 0 || !(acc.last() is Move)
                    || (i32::MIN <= acc.last()->Move_0 + i <= i32::MAX),
                _ => true,
            }
        }
    }
}

/// The peephole merge preserves one pass of an `Add`/`Move` body on the
/// model exactly, provided no merged pair of moves wraps. (A merged pair
/// that wraps is unfaithful: the raw pair shifts the cursor exactly,
/// the merged move by the wrapped sum.)
pub proof fn theorem_peephole_sound_flat(ops: Seq<OpView>, cells: Map<int, i32>, cur: int)
    requires
        all_add_move(ops),
        merge_no_wrap(ops),
        total_cells(cells),
    ensures
        apply_flat(peephole(ops), cells, cur) == apply_flat(ops, cells, cur),
    decreases ops.len(),
{
    if ops.len() > 0 {
        let init = ops.drop_last();
        let last = ops.last();
        assert(all_add_move(init)) by {
            assert(forall|k: int| 0 <= k < ops.len() - 1
                ==> #[trigger] init[k] == ops[k]);
        }
        theorem_peephole_sound_flat(init, cells, cur);
        lemma_peephole_add_move(init);
        assert(ops =~= init.push(last));
        lemma_apply_push(init, last, 0, cells, cur);
        let (ci, pi) = apply_flat(init, cells, cur);
        assert(apply_flat(ops, cells, cur) == apply_op(last, ci, pi));
        let acc = peephole(init);
        let (ca, pa) = apply_flat(acc, cells, cur);
        assert(ca == ci && pa == pi);
        let r = reduce_step(acc, last);
        if acc.len() == 0 {
            assert(acc =~= Seq::<OpView>::empty());
            assert(r =~= Seq::<OpView>::empty().push(last));
            lemma_apply_push(Seq::<OpView>::empty(), last, 0, cells, cur);
        } else {
            let prev = acc.last();
            assert(prev is Add || prev is Move);
            assert(acc =~= acc.drop_last().push(prev));
            lemma_apply_push(acc.drop_last(), prev, 0, cells, cur);
            let (cb, pb) = apply_flat(acc.drop_last(), cells, cur);
            lemma_apply_total(acc.drop_last(), 0, cells, cur);
            assert(apply_flat(acc, cells, cur) == apply_op(prev, cb, pb));
            match last {
                OpView::Add(i) => {
                    match prev {
                        OpView::Add(j) => {
                            let su = j.wrapping_add(i);
                            lemma_wrap_add_crop(j, i);
                            lemma_wrap_add_crop(cb[pb], j);
                            lemma_wrap_add_crop(cb[pb].wrapping_add(j), i);
                            lemma_crop_absorb(i as int, cb[pb] + j);
                            lemma_wrap_add_crop(cb[pb], su);
                            lemma_crop_absorb(cb[pb] as int, j + i);
                            assert(cb[pb] + j + i == i + (cb[pb] + j));
                            if su == 0 {
                                assert(r == acc.drop_last());
                                assert(signed_crop(j + i) == 0);
                                let t = (j + i) / 0x1_0000_0000;
                                assert(j + i == 0x1_0000_0000 * t + signed_crop(j + i)) by {
                                    vstd::arithmetic::div_mod::lemma_fundamental_div_mod(
                                        j + i, 0x1_0000_0000);
                                    if signed_crop(j + i) == (j + i) % 0x1_0000_0000 {
                                    } else {
                                        assert(false);
                                    }
                                }
                                lemma_crop_multiple(cb[pb] as int, t);
                                assert(cb[pb] + j + i == cb[pb] + t * 0x1_0000_0000);
                                lemma_crop_id(cb[pb]);
                                assert(apply_op(last, ca, pa).0
                                    =~= cb.insert(pb, cb[pb]));
                                assert(cb.insert(pb, cb[pb]) =~= cb);
                            } else {
                                assert(r == acc.drop_last().push(OpView::Add(su)));
                                lemma_apply_push(acc.drop_last(), OpView::Add(su),
                                    0, cells, cur);
                                assert(apply_op(last, ca, pa).0
                                    =~= apply_op(OpView::Add(su), cb, pb).0);
                            }
                        },
                        _ => {
                            assert(r == acc.push(last));
                            lemma_apply_push(acc, last, 0, cells, cur);
                        },
                    }
                },
                OpView::Move(i) => {
                    match prev {
                        OpView::Move(j) => {
                            let su = j.wrapping_add(i);
                            lemma_wrap_add_crop(j, i);
                            assert(i32::MIN <= j + i <= i32::MAX);
                            lemma_residue(j + i);
                            assert(su == j + i);
                            if su == 0 {
                                assert(r == acc.drop_last());
                            } else {
                                assert(r == acc.drop_last().push(OpView::Move(su)));
                                lemma_apply_push(acc.drop_last(), OpView::Move(su),
                                    0, cells, cur);
                            }
                        },
                        _ => {
                            assert(r == acc.push(last));
                            lemma_apply_push(acc, last, 0, cells, cur);
                        },
                    }
                },
                _ => {},
            }
        }
    } else {
        assert(peephole(ops) =~= ops);
    }
}

/// The peephole merge preserves any number of passes of an `Add`/`Move`
/// loop body on the model: merging a loop body never changes what
/// iterating the loop computes.
pub proof fn theorem_peephole_sound_loop(
    ops: Seq<OpView>, cells: Map<int, i32>, cur: int, k: nat,
)
    requires
        all_add_move(ops),
        merge_no_wrap(ops),
        total_cells(cells),
    ensures
        iter_body(peephole(ops), cells, cur, k) == iter_body(ops, cells, cur, k),
    decreases k,
{
    if k > 0 {
        theorem_peephole_sound_flat(ops, cells, cur);
        lemma_pass(ops, 0, cells, cur);
        let (c1, p1) = apply_flat(ops, cells, cur);
        theorem_peephole_sound_loop(ops, c1, p1, (k - 1) as nat);
    }
}

} // verus!
