use vstd::prelude::*;

use crate::date::Date;
use crate::task_data::TaskData;

verus! {

/// One task together with the dates on which it was marked done.  The dates
/// may repeat and may lie outside any window they are later scored against.
#[derive(Debug)]
pub struct TaskPerformanceData {
    pub task: TaskData,
    pub timestamps: Vec<Date>,
}

impl TaskPerformanceData {
    /// Every recorded date is a real calendar date.
    pub open spec fn wf(self) -> bool {
        forall|j: int| 0 <= j < self.timestamps@.len() ==> (#[trigger] self.timestamps@[j]).valid()
    }
}

} // verus!
