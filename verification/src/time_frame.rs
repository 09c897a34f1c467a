use vstd::prelude::*;

use crate::date::Date;

verus! {

/// A span of calendar days, inclusive on both ends.  A frame is ordered when
/// its start does not lie after its end; scoring rejects unordered frames.
#[derive(Clone, Copy, PartialEq, Eq, Structural, Debug)]
pub struct TimeFrame {
    pub start: Date,
    pub end: Date,
}

impl TimeFrame {
    /// Both bounds are real calendar dates.
    pub open spec fn dates_valid(self) -> bool {
        self.start.valid() && self.end.valid()
    }

    /// The frame holds at least one day.
    pub open spec fn ordered(self) -> bool {
        self.start.idx() <= self.end.idx()
    }

    pub fn new(start: Date, end: Date) -> (r: TimeFrame)
        ensures
            r == (TimeFrame { start, end }),
    {
        TimeFrame { start, end }
    }
}

} // verus!
