//! The tape: a growable, bidirectionally-indexable sequence of cells.
//!
//! Physically the tape is a vector `arr` with a cursor `pos` and a
//! `displacement`; the logical address of physical index `i` is
//! `i - displacement`. Growth doubles the vector on either side and, when
//! growing toward negative addresses, re-bases `pos` and `displacement` so
//! that every logical address keeps its value.

use vstd::prelude::*;
use vstd::pervasive::VecAdditionalExecFns;
use crate::operation::Fault;
use crate::input_reader::InputReader;
use crate::exec_io::DebugSnapshot;

verus! {

/// The tape never grows past this many cells: a machine limit (the cells
/// alone would then occupy 4 GiB).
pub const TAPE_CAP: usize = 0x4000_0000;

/// Resizable array of cells with a cursor and 'negative' logical addresses.
pub struct ArrayHandler {
    arr: Vec<i32>,
    pos: usize,
    displacement: usize,
}

/// The physical result of growing rightward until `target` is an
/// allocated index: the length doubles while `target` lies past the end,
/// refusing once a doubling would pass the machine cap.
pub open spec fn grow_right(len: int, target: int) -> (int, bool)
    decreases (if 1 <= len <= target { target + 1 - len } else { 0int }),
{
    if len < 1 {
        (len, false)
    } else if target < len {
        (len, true)
    } else if len > TAPE_CAP / 2 {
        (len, false)
    } else {
        grow_right(2 * len, target)
    }
}

/// The physical result of growing leftward until `pos + offset` is
/// nonnegative: each doubling shifts `pos` and `disp` up by the old
/// length, refusing once a doubling would pass the machine cap.
pub open spec fn grow_left(len: int, pos: int, disp: int, offset: int) -> (int, int, int, bool)
    decreases (if len >= 1 && pos + offset < 0 { 0 - (pos + offset) } else { 0int }),
{
    if len < 1 {
        (len, pos, disp, false)
    } else if pos + offset >= 0 {
        (len, pos, disp, true)
    } else if len > TAPE_CAP / 2 {
        (len, pos, disp, false)
    } else {
        grow_left(2 * len, pos + len, disp + len, offset)
    }
}

/// The whole growth policy, as `holds` performs it: nothing when the
/// index is already allocated, else doubling on the needed side.
pub open spec fn tape_grow(len: int, pos: int, disp: int, offset: int) -> (int, int, int, bool) {
    if 0 <= pos + offset < len {
        (len, pos, disp, true)
    } else if pos + offset >= 0 {
        let (l2, ok) = grow_right(len, pos + offset);
        (l2, pos, disp, ok)
    } else {
        grow_left(len, pos, disp, offset)
    }
}

/// The exact course of a scan: from the given physical layout, shift by
/// `offset` (growing as needed) while the cell under the cursor of `a0`
/// is nonzero, spending one unit of fuel per shift. Returns the final
/// layout, the fault if one arose, and the remaining fuel. The scan stops
/// at the first zero cell on the ray.
pub open spec fn skip_run(
    a0: ArrayHandler, len: int, pos: int, disp: int, offset: int, fuel: nat,
) -> (int, int, int, Option<Fault>, nat)
    decreases fuel,
{
    if a0.cell(pos - disp) == 0 {
        (len, pos, disp, None::<Fault>, fuel)
    } else if fuel == 0 {
        (len, pos, disp, Some(Fault::StepLimit), 0nat)
    } else {
        let (l2, p2, d2, ok) = tape_grow(len, pos, disp, offset);
        if !ok {
            (l2, p2, d2, Some(Fault::TapeLimit), (fuel - 1) as nat)
        } else {
            skip_run(a0, l2, p2 + offset, d2, offset, (fuel - 1) as nat)
        }
    }
}

/// Two tapes hold the same value at every logical address.
pub open spec fn same_cells(a: ArrayHandler, b: ArrayHandler) -> bool {
    forall|x: int| #![trigger a.cell(x)] #![trigger b.cell(x)] a.cell(x) == b.cell(x)
}

/// A vector of `n` zeroed cells.
fn zeroed(n: usize) -> (v: Vec<i32>)
    ensures
        v@.len() == n,
        forall|i: int| 0 <= i < n ==> v@[i] == 0i32,
{
    let mut v: Vec<i32> = Vec::new();
    while v.len() < n
        invariant
            v@.len() <= n,
            forall|i: int| 0 <= i < v@.len() ==> v@[i] == 0i32,
        decreases n - v@.len(),
    {
        v.push(0);
    }
    v
}

impl ArrayHandler {
    /// The physical cells.
    pub closed spec fn spec_cells(&self) -> Seq<i32> {
        self.arr@
    }

    /// The physical cursor index.
    pub closed spec fn spec_pos(&self) -> int {
        self.pos as int
    }

    /// The physical index of logical address 0.
    pub closed spec fn spec_displacement(&self) -> int {
        self.displacement as int
    }

    /// Structural invariant: the cursor is in bounds and the tape is
    /// nonempty and under the machine cap.
    pub open spec fn well_formed(&self) -> bool {
        &&& 1 <= self.spec_cells().len() <= TAPE_CAP
        &&& 0 <= self.spec_pos() < self.spec_cells().len()
        &&& 0 <= self.spec_displacement() <= self.spec_cells().len()
    }

    /// The cursor's logical address.
    pub open spec fn addr(&self) -> int {
        self.spec_pos() - self.spec_displacement()
    }

    /// The value at logical address `a`; every address outside the
    /// allocated range holds zero.
    pub open spec fn cell(&self, a: int) -> i32 {
        if 0 <= a + self.spec_displacement() < self.spec_cells().len() {
            self.spec_cells()[a + self.spec_displacement()]
        } else {
            0i32
        }
    }

    /// The value at the cursor.
    pub open spec fn cur_cell(&self) -> i32 {
        self.cell(self.addr())
    }

    /// Growth toward physical index `pos + offset` is sure to succeed:
    /// either the index is already allocated, or the tape and the target
    /// are both far below the machine cap.
    pub open spec fn reach_guaranteed(&self, offset: int) -> bool {
        ||| 0 <= self.spec_pos() + offset < self.spec_cells().len()
        ||| (self.spec_cells().len() <= TAPE_CAP as int / 4
            && -(TAPE_CAP as int / 4) <= self.spec_pos() + offset <= TAPE_CAP as int / 2)
    }

    /// Creates a tape of `capacity` zeroed cells. With `mid_array` the
    /// cursor starts in the middle, so moving left needs no growth; either
    /// way the cursor's logical address starts at 0.
    pub fn new(capacity: usize, mid_array: bool) -> (r: ArrayHandler)
        requires
            1 <= capacity <= TAPE_CAP,
        ensures
            r.well_formed(),
            r.spec_cells().len() == capacity,
            r.spec_pos() == if mid_array { capacity as int / 2 } else { 0int },
            r.spec_displacement() == r.spec_pos(),
            r.addr() == 0,
            forall|a: int| r.cell(a) == 0i32,
    {
        let arr = zeroed(capacity);
        if mid_array {
            ArrayHandler { arr, pos: capacity / 2, displacement: capacity / 2 }
        } else {
            ArrayHandler { arr, pos: 0, displacement: 0 }
        }
    }

    /// Doubles the tape to the right: existing cells keep their physical
    /// index, so every logical address is unchanged.
    fn resize_right(&mut self)
        requires
            old(self).well_formed(),
            old(self).spec_cells().len() <= TAPE_CAP / 2,
        ensures
            final(self).well_formed(),
            final(self).spec_cells().len() == 2 * old(self).spec_cells().len(),
            final(self).spec_pos() == old(self).spec_pos(),
            final(self).spec_displacement() == old(self).spec_displacement(),
            same_cells(*old(self), *final(self)),
    {
        let n = self.arr.len();
        let m = n * 2;
        while self.arr.len() < m
            invariant
                n <= self.arr@.len() <= m,
                self.pos == old(self).pos,
                self.displacement == old(self).displacement,
                forall|i: int| 0 <= i < n ==> self.arr@[i] == old(self).arr@[i],
                forall|i: int| n <= i < self.arr@.len() ==> self.arr@[i] == 0i32,
            decreases m - self.arr@.len(),
        {
            self.arr.push(0);
        }
        proof {
            assert forall|x: int|
                old(self).cell(x) == final(self).cell(x) by {
                let d = old(self).spec_displacement();
                if 0 <= x + d < n {
                } else if n <= x + d < m {
                    assert(final(self).cell(x) == 0i32);
                } else {
                }
            }
        }
    }

    /// Doubles the tape to the left: existing cells shift up by the old
    /// length, and `pos` and `displacement` shift with them, so every
    /// logical address is unchanged.
    fn resize_left(&mut self)
        requires
            old(self).well_formed(),
            old(self).spec_cells().len() <= TAPE_CAP / 2,
        ensures
            final(self).well_formed(),
            final(self).spec_cells().len() == 2 * old(self).spec_cells().len(),
            final(self).spec_pos() == old(self).spec_pos() + old(self).spec_cells().len(),
            final(self).spec_displacement() == old(self).spec_displacement()
                + old(self).spec_cells().len(),
            same_cells(*old(self), *final(self)),
    {
        let n = self.arr.len();
        let mut aux = zeroed(n);
        aux.append(&mut self.arr);
        self.arr = aux;
        self.pos = self.pos + n;
        self.displacement = self.displacement + n;
        proof {
            assert forall|x: int|
                old(self).cell(x) == final(self).cell(x) by {
                let d = old(self).spec_displacement();
                if 0 <= x + d < n {
                    assert(final(self).spec_cells()[x + d + n] == old(self).spec_cells()[x + d]);
                } else if -n <= x + d < 0 {
                    assert(final(self).spec_cells()[x + d + n] == 0i32);
                } else {
                }
            }
        }
    }

    /// Grows the tape until physical index `pos + offset` is allocated,
    /// doubling on the needed side; refuses (returning `false`) only when
    /// a doubling would pass the machine cap. The physical outcome is
    /// exactly [`tape_grow`] of the starting layout.
    pub fn holds(&mut self, offset: i32) -> (ok: bool)
        requires
            old(self).well_formed(),
        ensures
            final(self).well_formed(),
            same_cells(*old(self), *final(self)),
            final(self).addr() == old(self).addr(),
            old(self).spec_cells().len() <= final(self).spec_cells().len(),
            ok ==> 0 <= final(self).spec_pos() + offset < final(self).spec_cells().len(),
            (0 <= old(self).spec_pos() + offset < old(self).spec_cells().len())
                ==> (ok && *final(self) == *old(self)),
            old(self).reach_guaranteed(offset as int) ==> ok,
            (final(self).spec_cells().len() as int, final(self).spec_pos(),
                final(self).spec_displacement(), ok)
                == tape_grow(old(self).spec_cells().len() as int, old(self).spec_pos(),
                    old(self).spec_displacement(), offset as int),
            !ok ==> final(self).spec_cells().len() > TAPE_CAP / 2,
    {
        let target: i64 = self.pos as i64 + offset as i64;
        if 0 <= target && target < self.arr.len() as i64 {
            return true;
        }
        if target >= 0 {
            while (self.arr.len() as i64) <= target
                invariant
                    self.well_formed(),
                    target == self.spec_pos() + offset,
                    target >= 0,
                    self.spec_pos() == old(self).spec_pos(),
                    self.spec_displacement() == old(self).spec_displacement(),
                    old(self).spec_cells().len() <= self.spec_cells().len(),
                    same_cells(*old(self), *self),
                    grow_right(old(self).spec_cells().len() as int, target as int)
                        == grow_right(self.spec_cells().len() as int, target as int),
                decreases (if self.spec_cells().len() <= target { target + 1 - self.spec_cells().len() } else { 0int }),
            {
                if self.arr.len() > TAPE_CAP / 2 {
                    return false;
                }
                self.resize_right();
            }
        } else {
            while (self.pos as i64) + (offset as i64) < 0
                invariant
                    self.well_formed(),
                    self.spec_pos() - old(self).spec_pos()
                        == self.spec_cells().len() - old(self).spec_cells().len(),
                    old(self).spec_cells().len() <= self.spec_cells().len(),
                    same_cells(*old(self), *self),
                    self.addr() == old(self).addr(),
                    grow_left(old(self).spec_cells().len() as int, old(self).spec_pos(),
                        old(self).spec_displacement(), offset as int)
                        == grow_left(self.spec_cells().len() as int, self.spec_pos(),
                            self.spec_displacement(), offset as int),
                decreases (if self.spec_pos() + offset < 0 { 0 - (self.spec_pos() + offset) } else { 0int }),
            {
                if self.arr.len() > TAPE_CAP / 2 {
                    return false;
                }
                self.resize_left();
            }
        }
        true
    }

    /// Adds `i` (wrapping) to the cell at the cursor.
    pub fn add(&mut self, i: i32)
        requires
            old(self).well_formed(),
        ensures
            final(self).well_formed(),
            final(self).spec_pos() == old(self).spec_pos(),
            final(self).spec_displacement() == old(self).spec_displacement(),
            final(self).spec_cells().len() == old(self).spec_cells().len(),
            final(self).addr() == old(self).addr(),
            final(self).cur_cell() == old(self).cur_cell().wrapping_add(i),
            forall|x: int| x != old(self).addr()
                ==> final(self).cell(x) == old(self).cell(x),
    {
        let v = self.arr[self.pos];
        self.arr.set(self.pos, v.wrapping_add(i));
    }

    /// Sets the cell at the cursor to `i`.
    pub fn set(&mut self, i: i32)
        requires
            old(self).well_formed(),
        ensures
            final(self).well_formed(),
            final(self).spec_pos() == old(self).spec_pos(),
            final(self).spec_displacement() == old(self).spec_displacement(),
            final(self).spec_cells().len() == old(self).spec_cells().len(),
            final(self).addr() == old(self).addr(),
            final(self).cur_cell() == i,
            forall|x: int| x != old(self).addr()
                ==> final(self).cell(x) == old(self).cell(x),
    {
        self.arr.set(self.pos, i);
    }

    /// The value at the cursor.
    pub fn get(&self) -> (r: i32)
        requires
            self.well_formed(),
        ensures
            r == self.cur_cell(),
    {
        self.arr[self.pos]
    }

    /// Adds `val` (wrapping) to the cell `pos` away from the cursor,
    /// growing the tape as needed.
    pub fn add_at(&mut self, pos: i32, val: i32) -> (ok: bool)
        requires
            old(self).well_formed(),
        ensures
            final(self).well_formed(),
            final(self).addr() == old(self).addr(),
            old(self).spec_cells().len() <= final(self).spec_cells().len(),
            ok ==> final(self).cell(old(self).addr() + pos)
                == old(self).cell(old(self).addr() + pos).wrapping_add(val),
            ok ==> forall|x: int| x != old(self).addr() + pos
                ==> final(self).cell(x) == old(self).cell(x),
            !ok ==> same_cells(*old(self), *final(self)),
            old(self).reach_guaranteed(pos as int) ==> ok,
            (0 <= old(self).spec_pos() + pos < old(self).spec_cells().len())
                ==> (ok && final(self).spec_pos() == old(self).spec_pos()
                    && final(self).spec_displacement() == old(self).spec_displacement()
                    && final(self).spec_cells().len() == old(self).spec_cells().len()),
            !ok ==> final(self).spec_cells().len() > TAPE_CAP / 2,
            ({
                let (l2, p2, d2, okk) = tape_grow(old(self).spec_cells().len() as int,
                    old(self).spec_pos(), old(self).spec_displacement(), pos as int);
                &&& ok == okk
                &&& final(self).spec_cells().len() == l2
                &&& final(self).spec_pos() == p2
                &&& final(self).spec_displacement() == d2
            }),
    {
        if !self.holds(pos) {
            return false;
        }
        let t: i64 = self.pos as i64 + pos as i64;
        let idx: usize = t as usize;
        let v = self.arr[idx];
        self.arr.set(idx, v.wrapping_add(val));
        proof {
            let a = old(self).addr() + pos;
            assert(final(self).cell(a) == old(self).cell(a).wrapping_add(val));
        }
        true
    }

    /// Moves the cursor by `i` cells (left when negative), growing the
    /// tape as needed; the cells are untouched.
    pub fn move_r(&mut self, i: i32) -> (ok: bool)
        requires
            old(self).well_formed(),
        ensures
            final(self).well_formed(),
            same_cells(*old(self), *final(self)),
            old(self).spec_cells().len() <= final(self).spec_cells().len(),
            ok ==> final(self).addr() == old(self).addr() + i,
            !ok ==> final(self).addr() == old(self).addr(),
            old(self).reach_guaranteed(i as int) ==> ok,
            !ok ==> final(self).spec_cells().len() > TAPE_CAP / 2,
            ({
                let (l2, p2, d2, okk) = tape_grow(old(self).spec_cells().len() as int,
                    old(self).spec_pos(), old(self).spec_displacement(), i as int);
                &&& ok == okk
                &&& final(self).spec_cells().len() == l2
                &&& final(self).spec_displacement() == d2
                &&& final(self).spec_pos() == if okk { p2 + i } else { p2 }
            }),
    {
        if !self.holds(i) {
            return false;
        }
        let t: i64 = self.pos as i64 + i as i64;
        self.pos = t as usize;
        true
    }

    /// Copies `args + 1` consecutive cells starting at `ah`'s cursor into
    /// this tape starting at its own cursor, growing both as needed.
    pub fn set_more(&mut self, ah: &mut ArrayHandler, args: usize) -> (ok: bool)
        requires
            old(self).well_formed(),
            old(ah).well_formed(),
            args < 0x8000_0000,
        ensures
            final(self).well_formed(),
            final(ah).well_formed(),
            same_cells(*old(ah), *final(ah)),
            final(ah).addr() == old(ah).addr(),
            final(self).addr() == old(self).addr(),
            ok ==> forall|k: int| 0 <= k <= args
                ==> #[trigger] final(self).cell(old(self).addr() + k)
                    == old(ah).cell(old(ah).addr() + k),
            ok ==> forall|x: int|
                !(old(self).addr() <= x <= old(self).addr() + args)
                ==> final(self).cell(x) == old(self).cell(x),
            !ok ==> same_cells(*old(self), *final(self)),
            (old(self).reach_guaranteed(args as int)
                && old(ah).reach_guaranteed(args as int)) ==> ok,
            (!ok && 0 <= old(self).spec_pos() + args < old(self).spec_cells().len())
                ==> final(ah).spec_cells().len() > TAPE_CAP / 2,
            ({
                let (sl, sp, sd, ok1) = tape_grow(old(self).spec_cells().len() as int,
                    old(self).spec_pos(), old(self).spec_displacement(), args as int);
                &&& final(self).spec_cells().len() == sl
                &&& final(self).spec_pos() == sp
                &&& final(self).spec_displacement() == sd
                &&& (ok1 ==> {
                    let (al, ap, ad, ok2) = tape_grow(old(ah).spec_cells().len() as int,
                        old(ah).spec_pos(), old(ah).spec_displacement(), args as int);
                    &&& final(ah).spec_cells().len() == al
                    &&& final(ah).spec_pos() == ap
                    &&& final(ah).spec_displacement() == ad
                    &&& ok == (ok1 && ok2)
                })
                &&& (!ok1 ==> !ok && *final(ah) == *old(ah))
            }),
    {
        if !self.holds(args as i32) {
            return false;
        }
        if !ah.holds(args as i32) {
            return false;
        }
        let ghost smid = *self;
        let ghost amid = *ah;
        let mut k: usize = 0;
        while k <= args
            invariant
                k <= args + 1,
                args < 0x8000_0000,
                *ah == amid,
                amid.well_formed(),
                0 <= amid.spec_pos() + args < amid.spec_cells().len(),
                self.well_formed(),
                self.spec_pos() == smid.spec_pos(),
                self.spec_displacement() == smid.spec_displacement(),
                self.spec_cells().len() == smid.spec_cells().len(),
                0 <= smid.spec_pos() + args < smid.spec_cells().len(),
                forall|j: int| 0 <= j < k
                    ==> #[trigger] self.spec_cells()[self.spec_pos() + j]
                        == amid.spec_cells()[amid.spec_pos() + j],
                forall|i: int| 0 <= i < self.spec_cells().len()
                    && !(self.spec_pos() <= i < self.spec_pos() + k)
                    ==> self.spec_cells()[i] == smid.spec_cells()[i],
            decreases args + 1 - k,
        {
            let v = ah.arr[ah.pos + k];
            self.arr.set(self.pos + k, v);
            k = k + 1;
        }
        proof {
            assert forall|j: int| 0 <= j <= args
                implies #[trigger] self.cell(old(self).addr() + j)
                    == old(ah).cell(old(ah).addr() + j) by {
                assert(self.cell(old(self).addr() + j)
                    == self.spec_cells()[self.spec_pos() + j]);
                assert(amid.cell(amid.addr() + j)
                    == amid.spec_cells()[amid.spec_pos() + j]);
            }
            assert forall|x: int|
                !(old(self).addr() <= x <= old(self).addr() + args)
                implies self.cell(x) == old(self).cell(x) by {
                assert(smid.cell(x) == old(self).cell(x));
            }
        }
        true
    }

    /// Shifts the cursor by `offset` repeatedly while the cell at the
    /// cursor is nonzero, spending one unit of `fuel` per shift. The cells
    /// are untouched; only the cursor moves, along the ray of multiples of
    /// `offset`, stopping at the first zero cell it meets; the outcome is
    /// exactly [`skip_run`] of the starting state.
    #[verifier::loop_isolation(false)]
    pub fn skip_move(&mut self, offset: i32, fuel: u64) -> (r: Result<u64, Fault>)
        requires
            old(self).well_formed(),
        ensures
            final(self).well_formed(),
            same_cells(*old(self), *final(self)),
            exists|k: nat| final(self).addr() == old(self).addr() + #[trigger] (k * offset),
            r matches Ok(rem) ==> rem <= fuel && final(self).cur_cell() == 0,
            r matches Err(f) ==> f == Fault::TapeLimit || f == Fault::StepLimit,
            r == Err::<u64, Fault>(Fault::TapeLimit)
                ==> final(self).spec_cells().len() > TAPE_CAP / 2,
            ({
                let (l2, p2, d2, f, rem) = skip_run(*old(self),
                    old(self).spec_cells().len() as int, old(self).spec_pos(),
                    old(self).spec_displacement(), offset as int, fuel as nat);
                &&& final(self).spec_cells().len() == l2
                &&& final(self).spec_pos() == p2
                &&& final(self).spec_displacement() == d2
                &&& r == match f {
                    Option::None => Ok::<u64, Fault>(rem as u64),
                    Option::Some(ff) => Err::<u64, Fault>(ff),
                }
            }),
    {
        let ghost a0 = *old(self);
        let ghost full = skip_run(a0, a0.spec_cells().len() as int, a0.spec_pos(),
            a0.spec_displacement(), offset as int, fuel as nat);
        let mut rem: u64 = fuel;
        let ghost mut gk: nat = 0;
        proof {
            assert(self.addr() == old(self).addr() + gk * offset);
        }
        while self.get() != 0
            invariant
                self.well_formed(),
                same_cells(*old(self), *self),
                rem <= fuel,
                self.addr() == old(self).addr() + gk * offset,
                full == skip_run(a0, self.spec_cells().len() as int, self.spec_pos(),
                    self.spec_displacement(), offset as int, rem as nat),
            decreases rem,
        {
            proof {
                assert(a0.cell(self.spec_pos() - self.spec_displacement())
                    == self.cur_cell());
            }
            if rem == 0 {
                return Err(Fault::StepLimit);
            }
            rem = rem - 1;
            if !self.holds(offset) {
                return Err(Fault::TapeLimit);
            }
            let t: i64 = self.pos as i64 + offset as i64;
            self.pos = t as usize;
            proof {
                assert((gk + 1) * offset == gk * offset + offset) by (nonlinear_arith);
                gk = gk + 1;
            }
        }
        proof {
            assert(a0.cell(self.spec_pos() - self.spec_displacement())
                == self.cur_cell());
        }
        Ok(rem)
    }

    /// Overwrites the cell at the cursor with the next input character's
    /// code point, consuming it.
    pub fn read(&mut self, input: &mut InputReader)
        requires
            old(self).well_formed(),
            old(input).well_formed(),
            old(input).spec_pos() < old(input).spec_chars().len(),
        ensures
            final(self).well_formed(),
            final(input).well_formed(),
            final(input).spec_chars() == old(input).spec_chars(),
            final(input).spec_pos() == old(input).spec_pos() + 1,
            final(self).spec_pos() == old(self).spec_pos(),
            final(self).spec_displacement() == old(self).spec_displacement(),
            final(self).spec_cells().len() == old(self).spec_cells().len(),
            final(self).addr() == old(self).addr(),
            final(self).cur_cell()
                == old(input).spec_chars()[old(input).spec_pos()] as u32 as i32,
            forall|x: int| x != old(self).addr()
                ==> final(self).cell(x) == old(self).cell(x),
    {
        let v = input.next();
        self.set(v);
    }

    /// Builds a diagnostic snapshot: every nonzero cell with its logical
    /// address in tape order, the cursor's logical address, and the given
    /// stack contents and committed function count.
    pub fn debug(&self, funs: usize, stack: Vec<i32>) -> (d: DebugSnapshot)
        requires
            self.well_formed(),
        ensures
            d.pointer == self.addr(),
            d.stack@ == stack@,
            d.functions == funs,
            forall|j: int| 0 <= j < d.cells@.len()
                ==> (#[trigger] d.cells@[j]).1 == self.cell(d.cells@[j].0 as int)
                    && d.cells@[j].1 != 0i32,
    {
        let mut cells: Vec<(i64, i32)> = Vec::new();
        let mut i: usize = 0;
        while i < self.arr.len()
            invariant
                self.well_formed(),
                i <= self.arr@.len(),
                forall|j: int| 0 <= j < cells@.len()
                    ==> (#[trigger] cells@[j]).1 == self.cell(cells@[j].0 as int)
                        && cells@[j].1 != 0i32,
            decreases self.arr@.len() - i,
        {
            let v = self.arr[i];
            if v != 0 {
                let a: i64 = (i as i64) - (self.displacement as i64);
                proof {
                    assert(self.cell(a as int) == v);
                }
                cells.push((a, v));
            }
            i = i + 1;
        }
        let pt: i64 = (self.pos as i64) - (self.displacement as i64);
        DebugSnapshot { cells, pointer: pt, stack, functions: funs }
    }

    /// The value at logical offset `offset` from the cursor, without
    /// growing the tape: addresses outside the allocation hold zero.
    pub fn get_at(&self, offset: i32) -> (r: i32)
        requires
            self.well_formed(),
        ensures
            r == self.cell(self.addr() + offset),
    {
        let t: i64 = self.pos as i64 + offset as i64;
        if t < 0 || t >= self.arr.len() as i64 {
            0
        } else {
            self.arr[t as usize]
        }
    }

    /// A copy of the physical cells, for observation.
    pub fn cells(&self) -> (v: Vec<i32>)
        ensures
            v@ == self.spec_cells(),
    {
        let mut v: Vec<i32> = Vec::new();
        let mut i: usize = 0;
        while i < self.arr.len()
            invariant
                i <= self.arr@.len(),
                v@ == self.arr@.take(i as int),
            decreases self.arr@.len() - i,
        {
            v.push(self.arr[i]);
            i = i + 1;
            proof {
                assert(v@ =~= self.arr@.take(i as int));
            }
        }
        proof {
            assert(v@ =~= self.spec_cells());
        }
        v
    }

    /// The physical cursor index, for observation.
    pub fn pos(&self) -> (p: usize)
        ensures
            p == self.spec_pos(),
    {
        self.pos
    }

    /// The number of allocated cells, for observation.
    pub fn capacity(&self) -> (c: usize)
        ensures
            c == self.spec_cells().len(),
    {
        self.arr.len()
    }
}

} // verus!
