use vstd::prelude::*;

use crate::time_frame::TimeFrame;

verus! {

/// A challenge as its creator states it: a name and the span it runs over.
#[derive(Clone, Debug)]
pub struct ChallengeData {
    pub name: String,
    pub time_frame: TimeFrame,
}

} // verus!
