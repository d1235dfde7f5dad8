//! Lines of response: immutable coincidence-event records.

use vstd::prelude::*;

use crate::fov::{COORD_LIMIT, V3};
use crate::image::FIXED_ONE;

verus! {

/// Largest admissible event time magnitude, in time units.
pub const TIME_LIMIT: i64 = 16777216;

/// Largest admissible additive correction: 2^32 in fixed-point, i.e. a
/// correction ratio of at most 2^12.
pub const CORRECTION_LIMIT: u64 = 4294967296;

/// One line of response: the segment between two coincident detector hits,
/// their hit times, and a multiplicative correction ratio (fixed point,
/// [`FIXED_ONE`] meaning one).  A value type, immutable once created.
#[derive(Clone, Copy, Debug, PartialEq, Eq, Structural)]
pub struct Lor {
    pub p1: V3,
    pub p2: V3,
    pub t1: i64,
    pub t2: i64,
    pub additive_correction: u64,
}

impl Lor {
    /// Coordinates, times and correction all within the library's limits.
    pub open spec fn wf(self) -> bool {
        &&& -COORD_LIMIT <= self.p1.x <= COORD_LIMIT
        &&& -COORD_LIMIT <= self.p1.y <= COORD_LIMIT
        &&& -COORD_LIMIT <= self.p1.z <= COORD_LIMIT
        &&& -COORD_LIMIT <= self.p2.x <= COORD_LIMIT
        &&& -COORD_LIMIT <= self.p2.y <= COORD_LIMIT
        &&& -COORD_LIMIT <= self.p2.z <= COORD_LIMIT
        &&& -TIME_LIMIT <= self.t1 <= TIME_LIMIT
        &&& -TIME_LIMIT <= self.t2 <= TIME_LIMIT
        &&& self.additive_correction <= CORRECTION_LIMIT
    }

    /// The time difference `t2 - t1`.
    pub open spec fn spec_dt(self) -> int {
        self.t2 - self.t1
    }

    /// A line of response with the default correction ratio of one.
    pub fn new(t1: i64, t2: i64, p1: V3, p2: V3) -> (r: Lor)
        requires
            -TIME_LIMIT <= t1 <= TIME_LIMIT,
            -TIME_LIMIT <= t2 <= TIME_LIMIT,
        ensures
            r == (Lor { p1, p2, t1, t2, additive_correction: FIXED_ONE }),
            -COORD_LIMIT <= p1.x <= COORD_LIMIT && -COORD_LIMIT <= p1.y <= COORD_LIMIT
                && -COORD_LIMIT <= p1.z <= COORD_LIMIT && -COORD_LIMIT <= p2.x <= COORD_LIMIT
                && -COORD_LIMIT <= p2.y <= COORD_LIMIT && -COORD_LIMIT <= p2.z <= COORD_LIMIT
                ==> r.wf(),
    {
        Lor { p1, p2, t1, t2, additive_correction: FIXED_ONE }
    }

    /// The same line of response with another correction ratio.
    pub fn with_additive_correction(self, additive_correction: u64) -> (r: Lor)
        requires
            additive_correction <= CORRECTION_LIMIT,
        ensures
            r == (Lor { additive_correction, ..self }),
            self.wf() ==> r.wf(),
    {
        Lor { additive_correction, ..self }
    }

    /// The time difference `t2 - t1`.
    pub fn dt(&self) -> (r: i64)
        requires
            self.wf(),
        ensures
            r == self.spec_dt(),
    {
        self.t2 - self.t1
    }
}

} // verus!
