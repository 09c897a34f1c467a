use vstd::prelude::*;

use crate::score_error::ScoreError;

verus! {

/// The recurrence unit a task's target count is measured against.  Scoring
/// is defined for `Week` and `Month` only; `Day` and `OneTime` exist in the
/// task vocabulary but have no scoring rule.
#[derive(Clone, Copy, PartialEq, Eq, Structural, Debug)]
pub enum Period {
    Day,
    Week,
    Month,
    OneTime,
}

/// The one-letter code a period is stored under.
pub open spec fn period_code(p: Period) -> Seq<char> {
    match p {
        Period::Day => "d"@,
        Period::Week => "w"@,
        Period::Month => "m"@,
        Period::OneTime => "o"@,
    }
}

/// Which period, if any, a specifier string names.
pub open spec fn parsed_period(s: Seq<char>) -> Option<Period> {
    if s == "d"@ || s == "day"@ {
        Some(Period::Day)
    } else if s == "w"@ || s == "week"@ {
        Some(Period::Week)
    } else if s == "m"@ || s == "month"@ {
        Some(Period::Month)
    } else if s == "o"@ || s == "once"@ || s == "onetime"@ {
        Some(Period::OneTime)
    } else {
        None
    }
}

impl Period {
    /// The specifier accepted by `from_str`, in its one-letter form.
    pub fn to_string(&self) -> (r: String)
        ensures
            r@ == period_code(*self),
    {
        match self {
            Period::Day => "d".to_owned(),
            Period::Week => "w".to_owned(),
            Period::Month => "m".to_owned(),
            Period::OneTime => "o".to_owned(),
        }
    }

    /// Parses a period specifier; every period is named by its one-letter
    /// code or its full word.
    pub fn from_str(s: &str) -> (r: Result<Period, ScoreError>)
        ensures
            r == match parsed_period(s@) {
                Some(p) => Ok::<Period, ScoreError>(p),
                None => Err::<Period, ScoreError>(ScoreError::UnknownPeriod),
            },
    {
        let t: String = s.to_owned();
        if t == "d".to_owned() || t == "day".to_owned() {
            Ok(Period::Day)
        } else if t == "w".to_owned() || t == "week".to_owned() {
            Ok(Period::Week)
        } else if t == "m".to_owned() || t == "month".to_owned() {
            Ok(Period::Month)
        } else if t == "o".to_owned() || t == "once".to_owned() || t == "onetime".to_owned() {
            Ok(Period::OneTime)
        } else {
            Err(ScoreError::UnknownPeriod)
        }
    }
}

} // verus!
