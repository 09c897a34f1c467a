use vstd::prelude::*;

use crate::period::Period;

verus! {

/// A recurring obligation: do something `count` times per `period`.
#[derive(Clone, Debug)]
pub struct TaskData {
    pub name: String,
    pub count: u32,
    pub period: Period,
}

} // verus!
