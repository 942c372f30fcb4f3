//! The auxiliary integer stack shared across a whole run.

use vstd::prelude::*;

verus! {

/// A LIFO stack of 32-bit integers.
pub struct StackHandler {
    stk: Vec<i32>,
}

/// The wrapped sum of the top `n` values of `s`, added in pop order:
/// the topmost value first.
pub open spec fn sum_top(s: Seq<i32>, n: nat) -> i32
    decreases n,
{
    if n == 0 {
        0i32
    } else {
        sum_top(s, (n - 1) as nat).wrapping_add(s[s.len() - n])
    }
}

impl View for StackHandler {
    type V = Seq<i32>;

    closed spec fn view(&self) -> Seq<i32> {
        self.stk@
    }
}

impl StackHandler {
    /// Creates a new, empty stack.
    pub fn new() -> (r: StackHandler)
        ensures
            r@ == Seq::<i32>::empty(),
    {
        StackHandler { stk: Vec::new() }
    }

    /// Returns the top of the stack without popping it.
    pub fn peek(&self) -> (r: i32)
        requires
            self@.len() > 0,
        ensures
            r == self@.last(),
    {
        self.stk[self.stk.len() - 1]
    }

    /// Pops the top `i` values and returns their wrapped sum.
    pub fn pop(&mut self, i: usize) -> (r: i32)
        requires
            i <= old(self)@.len(),
        ensures
            r == sum_top(old(self)@, i as nat),
            final(self)@ == old(self)@.take(old(self)@.len() - i),
    {
        let mut diff: i32 = 0;
        let mut k: usize = 0;
        while k < i
            invariant
                k <= i <= old(self)@.len(),
                self@ == old(self)@.take(old(self)@.len() - k),
                diff == sum_top(old(self)@, k as nat),
            decreases i - k,
        {
            let ghost prev = self@;
            let top = match self.stk.pop() {
                Some(v) => v,
                None => {
                    proof {
                        assert(false);
                    }
                    0
                },
            };
            diff = diff.wrapping_add(top);
            k = k + 1;
            proof {
                assert(self@ =~= old(self)@.take(old(self)@.len() - k));
                assert(top == old(self)@[old(self)@.len() - k]);
            }
        }
        diff
    }

    /// Pushes a value onto the stack.
    pub fn push(&mut self, el: i32)
        ensures
            final(self)@ == old(self)@.push(el),
    {
        self.stk.push(el);
    }

    /// A copy of the stack's values, bottom first, for observation.
    pub fn contents(&self) -> (v: Vec<i32>)
        ensures
            v@ == self@,
    {
        let mut v: Vec<i32> = Vec::new();
        let mut i: usize = 0;
        while i < self.stk.len()
            invariant
                i <= self.stk@.len(),
                v@ == self.stk@.take(i as int),
            decreases self.stk@.len() - i,
        {
            v.push(self.stk[i]);
            i = i + 1;
            proof {
                assert(v@ =~= self.stk@.take(i as int));
            }
        }
        proof {
            assert(v@ =~= self@);
        }
        v
    }

    /// Returns the number of values on the stack.
    pub fn len(&self) -> (r: usize)
        ensures
            r == self@.len(),
    {
        self.stk.len()
    }
}

} // verus!
