use vstd::prelude::*;

use crate::date::days_in_month;

verus! {

/// Today's date according to the system clock, as plain year, month and day
/// values.
///
/// Relies on chrono's `Local::now` and the `Datelike` accessors `year`,
/// `month` and `day`: chrono returns a real calendar date, so the month is 1
/// through 12 and the day fits the month; the year may lie far outside this
/// crate's supported range, so callers must range-check it.
#[verifier::external_body]
pub fn today_ymd() -> (r: (i64, u32, u32))
    ensures
        1 <= r.1 <= 12,
        1 <= r.2 <= days_in_month(r.0 as int, r.1 as int),
{
    let today = chrono::Local::now().date_naive();
    (chrono::Datelike::year(&today) as i64, chrono::Datelike::month(&today), chrono::Datelike::day(
        &today,
    ))
}

} // verus!
