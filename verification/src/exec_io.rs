//! The explicit input/output context threaded through execution.
//!
//! Every observable effect of a run is a plain value in this context --
//! no process-wide state -- so the whole engine stays pure and checkable.

use vstd::prelude::*;
use crate::input_reader::InputReader;

verus! {

/// One diagnostic snapshot, recorded by the debug operation: every nonzero
/// cell with its logical address, the cursor's logical address, the
/// auxiliary stack's contents, and the committed function count.
pub struct DebugSnapshot {
    /// `(logical address, value)` for each nonzero cell, in tape order
    pub cells: Vec<(i64, i32)>,
    /// the cursor's logical address
    pub pointer: i64,
    /// the auxiliary stack, bottom first
    pub stack: Vec<i32>,
    /// the number of committed functions
    pub functions: usize,
}

/// Everything a run reads from or writes to the outside world: buffered
/// input characters, output bytes, and diagnostic snapshots.
pub struct ExecIo {
    /// characters waiting to be read
    pub input: InputReader,
    /// bytes written so far
    pub output: Vec<u8>,
    /// diagnostic snapshots recorded so far
    pub debug_log: Vec<DebugSnapshot>,
}

impl ExecIo {
    pub open spec fn well_formed(&self) -> bool {
        self.input.well_formed()
    }

    /// An I/O context with the given input text and nothing written yet.
    pub fn new() -> (r: ExecIo)
        ensures
            r.well_formed(),
            r.input.spec_chars() == Seq::<char>::empty(),
            r.input.spec_pos() == 0,
            r.output@ == Seq::<u8>::empty(),
            r.debug_log@.len() == 0,
    {
        ExecIo { input: InputReader::new(), output: Vec::new(), debug_log: Vec::new() }
    }
}

} // verus!
