use vstd::prelude::*;

use crate::challenge::Challenge;
use crate::user_performance_data::UserPerformanceData;

verus! {

/// Everything needed for one challenge's update message: the challenge, the
/// chat it reports to, and every subscriber's scoring data.
#[derive(Debug)]
pub struct ChallengePerformanceData {
    pub chat_id: i64,
    pub challenge: Challenge,
    pub user_performance: Vec<UserPerformanceData>,
}

} // verus!
