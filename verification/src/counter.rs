//! A monotonically increasing numeric generator that wraps before exceeding
//! 52 bits of magnitude, so every generated value round-trips losslessly
//! through a double-precision floating-point representation of the host.

use vstd::prelude::*;

verus! {

/// The largest identifier a [`Counter`] hands out before wrapping around.
pub const MAX_ID: u64 = 0x10000000000000u64;

/// A wraparound-safe monotonic generator. Values start at 1, strictly
/// increase, and wrap back to 1 after reaching [`MAX_ID`].
#[derive(Debug, Clone, Copy, PartialEq, Eq, Structural)]
pub struct Counter {
    pub next_value: u64,
}

impl Counter {
    /// Every value this counter will hand out stays within 52 bits.
    pub open spec fn wf(&self) -> bool {
        1 <= self.next_value <= MAX_ID
    }

    pub fn new() -> (r: Counter)
        ensures
            r.wf(),
            r.next_value == 1,
    {
        Counter { next_value: 1 }
    }

    /// Return the next identifier and advance. Successive results strictly
    /// increase until the counter wraps around at `MAX_ID`, and never exceed
    /// `MAX_ID` in magnitude.
    pub fn next(&mut self) -> (r: u64)
        requires
            old(self).wf(),
        ensures
            final(self).wf(),
            r == old(self).next_value,
            1 <= r <= MAX_ID,
            final(self).next_value == if r == MAX_ID {
                1u64
            } else {
                (r + 1) as u64
            },
    {
        let r = self.next_value;
        if r == MAX_ID {
            self.next_value = 1;
        } else {
            self.next_value = r + 1;
        }
        r
    }
}

impl Default for Counter {
    /// A fresh counter, identical to [`Counter::new`].
    fn default() -> (r: Counter)
        ensures
            r.wf(),
            r.next_value == 1,
    {
        Counter::new()
    }
}

} // verus!
