use vstd::prelude::*;

use crate::challenge_data::ChallengeData;

verus! {

/// A stored challenge: its row id and its data.
#[derive(Clone, Debug)]
pub struct Challenge {
    pub id: i64,
    pub data: ChallengeData,
}

} // verus!
