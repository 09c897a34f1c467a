use vstd::prelude::*;

verus! {

/// The ways a scoring request can be refused.  Scoring itself has no other
/// failure mode: given a supported period and an ordered time frame it
/// always produces a fraction.
#[derive(Clone, Copy, PartialEq, Eq, Structural, Debug)]
pub enum ScoreError {
    /// The time frame's start lies after its end.
    InvalidTimeFrame,
    /// The task's period has no scoring rule (daily and one-time tasks).
    UnsupportedPeriod,
    /// A period specifier string names no period.
    UnknownPeriod,
    /// A date fell outside the years this crate's calendar covers.
    DateOutOfRange,
}

} // verus!
