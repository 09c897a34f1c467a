use vstd::prelude::*;

verus! {

// Calendar dates in the proleptic Gregorian calendar, modelled as plain
// year/month/day values.  The supported range is year 1 through year 9999;
// every date in it is mapped to a day index: the number of days since
// January 1 of year 1, which falls on a Monday.
/// Highest year a `Date` may carry.
pub const MAX_YEAR: u32 = 9999;

/// A year is a leap year in the proleptic Gregorian calendar.
pub open spec fn is_leap_year(y: int) -> bool {
    y % 4 == 0 && (y % 100 != 0 || y % 400 == 0)
}

/// Number of days in a year.
pub open spec fn days_in_year(y: int) -> int {
    if is_leap_year(y) {
        366
    } else {
        365
    }
}

/// Number of days in month `m` (1 through 12) of year `y`.
pub open spec fn days_in_month(y: int, m: int) -> int {
    if m == 2 {
        if is_leap_year(y) {
            29
        } else {
            28
        }
    } else if m == 4 || m == 6 || m == 9 || m == 11 {
        30
    } else {
        31
    }
}

/// Days in all years before year `y`, counting from year 1.
pub open spec fn days_before_year(y: int) -> int
    decreases y,
{
    if y <= 1 {
        0
    } else {
        days_before_year(y - 1) + days_in_year(y - 1)
    }
}

/// Days in all months of year `y` before month `m`.
pub open spec fn days_before_month(y: int, m: int) -> int
    decreases m,
{
    if m <= 1 {
        0
    } else {
        days_before_month(y, m - 1) + days_in_month(y, m - 1)
    }
}

/// The day index of the calendar day `y`-`m`-`d`: days since year 1, January 1.
pub open spec fn day_index_of(y: int, m: int, d: int) -> int {
    days_before_year(y) + days_before_month(y, m) + (d - 1)
}

/// Day index of the last date the calendar model can represent.
pub open spec fn max_day_index() -> int {
    day_index_of(MAX_YEAR as int, 12, 31)
}

/// `y`-`m`-`d` names a real calendar day in the supported range.
pub open spec fn valid_ymd(y: int, m: int, d: int) -> bool {
    &&& 1 <= y <= MAX_YEAR
    &&& 1 <= m <= 12
    &&& 1 <= d <= days_in_month(y, m)
}

proof fn lemma_days_before_year_bounds(y: int)
    requires
        1 <= y,
    ensures
        365 * (y - 1) <= days_before_year(y) <= 366 * (y - 1),
    decreases y,
{
    if y > 1 {
        lemma_days_before_year_bounds(y - 1);
    }
}

proof fn lemma_days_before_month_bounds(y: int, m: int)
    requires
        1 <= m <= 13,
    ensures
        0 <= days_before_month(y, m) <= 366,
        m <= 12 ==> days_before_month(y, m) + days_in_month(y, m) <= 366,
{
    reveal_with_fuel(days_before_month, 14);
}

/// The months of a year account for all of its days.
pub proof fn lemma_months_sum_to_year(y: int)
    ensures
        days_before_month(y, 13) == days_in_year(y),
{
    reveal_with_fuel(days_before_month, 14);
}

proof fn lemma_days_before_year_monotone(y1: int, y2: int)
    requires
        1 <= y1 <= y2,
    ensures
        days_before_year(y1) <= days_before_year(y2),
    decreases y2,
{
    if y1 < y2 {
        lemma_days_before_year_monotone(y1, y2 - 1);
    }
}

proof fn lemma_days_before_month_monotone(y: int, m1: int, m2: int)
    requires
        1 <= m1 <= m2 <= 13,
    ensures
        days_before_month(y, m1) <= days_before_month(y, m2),
    decreases m2,
{
    if m1 < m2 {
        lemma_days_before_month_monotone(y, m1, m2 - 1);
    }
}

/// Every valid date's index lies between the calendar's first and last day.
pub proof fn lemma_idx_in_range(d: Date)
    requires
        d.valid(),
    ensures
        0 <= d.idx() <= max_day_index(),
{
    lemma_days_before_year_bounds(d.year as int);
    lemma_days_before_month_bounds(d.year as int, d.month as int);
    lemma_days_before_month_monotone(d.year as int, d.month as int + 1, 13);
    lemma_months_sum_to_year(d.year as int);
    lemma_days_before_month_bounds(MAX_YEAR as int, 12);
    if d.year < MAX_YEAR {
        lemma_days_before_year_monotone(d.year as int + 1, MAX_YEAR as int);
    }
}

/// A coarse numeric bound on the calendar's last day index.
pub proof fn lemma_max_day_index_bound()
    ensures
        max_day_index() < 3700000,
{
    lemma_days_before_year_bounds(MAX_YEAR as int);
    lemma_days_before_month_bounds(MAX_YEAR as int, 12);
}

/// A calendar date: year, month and day of month.
#[derive(Clone, Copy, PartialEq, Eq, Structural, Debug)]
pub struct Date {
    pub year: u32,
    pub month: u32,
    pub day: u32,
}

impl Date {
    /// The fields name a real calendar day in the supported range.
    pub open spec fn valid(self) -> bool {
        valid_ymd(self.year as int, self.month as int, self.day as int)
    }

    /// Days since year 1, January 1 (a Monday).
    pub open spec fn idx(self) -> int {
        day_index_of(self.year as int, self.month as int, self.day as int)
    }

    /// The date is the last one the calendar model can represent.
    pub open spec fn is_calendar_end(self) -> bool {
        self.year == MAX_YEAR && self.month == 12 && self.day == 31
    }

    /// Builds the date `year`-`month`-`day` if it names a real calendar day
    /// in the supported range, `None` otherwise.
    pub fn from_ymd(year: u32, month: u32, day: u32) -> (r: Option<Date>)
        ensures
            valid_ymd(year as int, month as int, day as int) <==> (r matches Some(d)
                && d == (Date { year, month, day })),
            r is Some ==> r.unwrap().valid(),
    {
        if 1 <= year && year <= MAX_YEAR && 1 <= month && month <= 12 && 1 <= day && day
            <= month_length(year, month) {
            Some(Date { year, month, day })
        } else {
            None
        }
    }
}

/// The day index of the calendar's last representable date.
pub fn calendar_end_index() -> (r: u32)
    ensures
        r as int == max_day_index(),
{
    let end: Date = Date { year: MAX_YEAR, month: 12, day: 31 };
    end.day_index()
}

/// Executable leap-year test.
pub fn leap_year(y: u32) -> (r: bool)
    ensures
        r == is_leap_year(y as int),
{
    y % 4 == 0 && (y % 100 != 0 || y % 400 == 0)
}

/// Executable month length.
pub fn month_length(y: u32, m: u32) -> (r: u32)
    ensures
        r as int == days_in_month(y as int, m as int),
{
    if m == 2 {
        if leap_year(y) {
            29
        } else {
            28
        }
    } else if m == 4 || m == 6 || m == 9 || m == 11 {
        30
    } else {
        31
    }
}

impl Date {
    /// Computes the day index of this date.
    pub fn day_index(&self) -> (r: u32)
        requires
            self.valid(),
        ensures
            r as int == self.idx(),
            self.idx() <= max_day_index(),
            r < 3700000,
    {
        proof {
            lemma_days_before_year_bounds(self.year as int);
            lemma_days_before_month_bounds(self.year as int, self.month as int);
            lemma_idx_in_range(*self);
            lemma_max_day_index_bound();
        }
        let mut acc: u32 = 0;
        let mut y: u32 = 1;
        while y < self.year
            invariant
                1 <= y <= self.year <= MAX_YEAR,
                acc as int == days_before_year(y as int),
                acc as int <= 366 * (y - 1),
            decreases self.year - y,
        {
            acc = acc + if leap_year(y) {
                366
            } else {
                365
            };
            y = y + 1;
        }
        let mut m: u32 = 1;
        while m < self.month
            invariant
                1 <= m <= self.month,
                self.valid(),
                acc as int == days_before_year(self.year as int) + days_before_month(
                    self.year as int,
                    m as int,
                ),
                acc as int <= 366 * (self.year - 1) + 366,
            decreases self.month - m,
        {
            proof {
                lemma_days_before_year_bounds(self.year as int);
                lemma_days_before_month_bounds(self.year as int, (m + 1) as int);
            }
            acc = acc + month_length(self.year, m);
            m = m + 1;
        }
        acc + (self.day - 1)
    }

    /// The day after this one.
    pub fn next_day(&self) -> (r: Date)
        requires
            self.valid(),
            !self.is_calendar_end(),
        ensures
            r.valid(),
            r.idx() == self.idx() + 1,
            self.day < days_in_month(self.year as int, self.month as int) ==> r == (Date {
                year: self.year,
                month: self.month,
                day: (self.day + 1) as u32,
            }),
            self.day == days_in_month(self.year as int, self.month as int) && self.month < 12
                ==> r == (Date { year: self.year, month: (self.month + 1) as u32, day: 1u32 }),
            self.day == days_in_month(self.year as int, self.month as int) && self.month == 12
                ==> r == (Date { year: (self.year + 1) as u32, month: 1u32, day: 1u32 }),
    {
        if self.day < month_length(self.year, self.month) {
            Date { year: self.year, month: self.month, day: self.day + 1 }
        } else if self.month < 12 {
            Date { year: self.year, month: self.month + 1, day: 1 }
        } else {
            proof {
                lemma_months_sum_to_year(self.year as int);
            }
            Date { year: self.year + 1, month: 1, day: 1 }
        }
    }

    /// The day before this one.
    pub fn prev_day(&self) -> (r: Date)
        requires
            self.valid(),
            self.idx() > 0,
        ensures
            r.valid(),
            r.idx() == self.idx() - 1,
    {
        if self.day > 1 {
            Date { year: self.year, month: self.month, day: self.day - 1 }
        } else if self.month > 1 {
            Date {
                year: self.year,
                month: self.month - 1,
                day: month_length(self.year, self.month - 1),
            }
        } else {
            proof {
                if self.year == 1 {
                    assert(self.idx() == 0);
                }
                lemma_months_sum_to_year(self.year - 1);
                lemma_days_before_year_bounds(self.year as int);
            }
            Date { year: self.year - 1, month: 12, day: 31 }
        }
    }

    /// Weekday number counted from Monday: Monday is 1, Sunday is 7.
    pub fn number_from_monday(&self) -> (r: u32)
        requires
            self.valid(),
        ensures
            r as int == self.idx() % 7 + 1,
    {
        self.day_index() % 7 + 1
    }

    /// The date `k` days after this one.
    pub fn add_days(&self, k: u32) -> (r: Date)
        requires
            self.valid(),
            self.idx() + k <= max_day_index(),
        ensures
            r.valid(),
            r.idx() == self.idx() + k,
    {
        let mut cur: Date = *self;
        let mut i: u32 = 0;
        while i < k
            invariant
                i <= k,
                cur.valid(),
                cur.idx() == self.idx() + i,
                self.idx() + k <= max_day_index(),
            decreases k - i,
        {
            proof {
                if cur.is_calendar_end() {
                    assert(cur.idx() == max_day_index());
                }
            }
            cur = cur.next_day();
            i = i + 1;
        }
        cur
    }

    /// The date `k` days before this one.
    pub fn sub_days(&self, k: u32) -> (r: Date)
        requires
            self.valid(),
            k <= self.idx(),
        ensures
            r.valid(),
            r.idx() == self.idx() - k,
    {
        let mut cur: Date = *self;
        let mut i: u32 = 0;
        while i < k
            invariant
                i <= k,
                cur.valid(),
                cur.idx() == self.idx() - i,
                k <= self.idx(),
            decreases k - i,
        {
            cur = cur.prev_day();
            i = i + 1;
        }
        cur
    }

    /// This date is on or before `other`.
    pub fn on_or_before(&self, other: &Date) -> (r: bool)
        requires
            self.valid(),
            other.valid(),
        ensures
            r == (self.idx() <= other.idx()),
    {
        self.day_index() <= other.day_index()
    }
}

} // verus!
