use vstd::prelude::*;

use crate::period::Period;
use crate::score_error::ScoreError;
use crate::task_data::TaskData;
use crate::time_frame::TimeFrame;

use crate::date::{
    day_index_of, days_before_year, days_in_month, days_in_year, lemma_months_sum_to_year,
    max_day_index, Date,
};

verus! {

// ---------------------------------------------------------------------------
// Day ranges
//
// All reasoning below happens on day indices (see `crate::date`).  A window
// `[s, e]` is split into calendar-aligned segments `[a, b]`, and every
// segment is weighed by how many of its days fall inside the window.
// ---------------------------------------------------------------------------
/// Number of days of `[a, b]` that also lie in `[s, e]`.
pub open spec fn clipped_days(a: int, b: int, s: int, e: int) -> int {
    let lo = if a >= s {
        a
    } else {
        s
    };
    let hi = if b <= e {
        b
    } else {
        e
    };
    if lo <= hi {
        hi - lo + 1
    } else {
        0
    }
}

/// Number of days of `[s, e]` that lie strictly before day `c`.
spec fn covered_before(c: int, s: int, e: int) -> int {
    if c <= s {
        0
    } else if c <= e {
        c - s
    } else {
        e - s + 1
    }
}

/// How many of the dates fall inside `[lo, hi]`; duplicates each count.
pub open spec fn count_in_range(dates: Seq<Date>, lo: int, hi: int) -> int
    decreases dates.len(),
{
    if dates.len() == 0 {
        0
    } else {
        count_in_range(dates.drop_last(), lo, hi) + if lo <= dates.last().idx() <= hi {
            1int
        } else {
            0int
        }
    }
}

/// Sum of the clipped day counts of a segment sequence.
pub open spec fn total_clipped(segs: Seq<(Date, Date, usize)>) -> int
    decreases segs.len(),
{
    if segs.len() == 0 {
        0
    } else {
        total_clipped(segs.drop_last()) + segs.last().2
    }
}

// ---------------------------------------------------------------------------
// Weekly segmentation
// ---------------------------------------------------------------------------
/// Day index of the Monday on or before day `d`.  Day 0 is a Monday, so this
/// is `d` rounded down to a multiple of seven.
pub open spec fn monday_on_or_before(d: int) -> int {
    d - d % 7
}

/// Day index of the `i`-th Monday of a window starting on day `s`.
pub open spec fn week_start(s: int, i: int) -> int {
    monday_on_or_before(s) + 7 * i
}

/// How many Monday-aligned weeks overlap the window `[s, e]`.
pub open spec fn week_count(s: int, e: int) -> int {
    (e - monday_on_or_before(s)) / 7 + 1
}

/// The `i`-th weekly segment of the window `[s, e]`: a full week from Monday
/// through Sunday, with the count of its days that fall inside the window.
pub open spec fn week_segment_ok(seg: (Date, Date, usize), s: int, e: int, i: int) -> bool {
    &&& seg.0.valid()
    &&& seg.1.valid()
    &&& seg.0.idx() == week_start(s, i)
    &&& seg.1.idx() == week_start(s, i) + 6
    &&& seg.2 as int == clipped_days(week_start(s, i), week_start(s, i) + 6, s, e)
}

// ---------------------------------------------------------------------------
// Monthly segmentation
//
// Months are numbered linearly: month `m` of year `y` is month number
// `12 y + m - 1`, so consecutive month numbers name consecutive calendar
// months across year ends.
// ---------------------------------------------------------------------------
/// The linear month number of the month a date falls in.
pub open spec fn month_number(d: Date) -> int {
    12 * (d.year as int) + d.month - 1
}

/// Day index of the first day of linear month `ym`.
pub open spec fn month_start_index(ym: int) -> int {
    day_index_of(ym / 12, ym % 12 + 1, 1)
}

/// Length in days of linear month `ym`.
pub open spec fn month_length_of(ym: int) -> int {
    days_in_month(ym / 12, ym % 12 + 1)
}

/// How many calendar months overlap a window running from `sd` through `ed`.
pub open spec fn month_count(sd: Date, ed: Date) -> int {
    month_number(ed) - month_number(sd) + 1
}

/// The `i`-th monthly segment of the window from `sd` through `ed`: a full
/// calendar month, with the count of its days that fall inside the window.
pub open spec fn month_segment_ok(seg: (Date, Date, usize), sd: Date, ed: Date, i: int) -> bool {
    let ym = month_number(sd) + i;
    &&& seg.0.valid()
    &&& seg.1.valid()
    &&& seg.0.day == 1
    &&& month_number(seg.0) == ym
    &&& seg.0.idx() == month_start_index(ym)
    &&& seg.1.year == seg.0.year
    &&& seg.1.month == seg.0.month
    &&& seg.1.idx() == month_start_index(ym) + month_length_of(ym) - 1
    &&& seg.2 as int == clipped_days(
        month_start_index(ym),
        month_start_index(ym) + month_length_of(ym) - 1,
        sd.idx(),
        ed.idx(),
    )
}

/// Consecutive linear months are contiguous: each starts right after the
/// previous one ends.
proof fn lemma_month_start_step(ym: int)
    requires
        12 <= ym,
    ensures
        month_start_index(ym + 1) == month_start_index(ym) + month_length_of(ym),
{
    let y = ym / 12;
    let m = ym % 12 + 1;
    if m < 12 {
        assert((ym + 1) / 12 == y && (ym + 1) % 12 == m);
    } else {
        assert((ym + 1) / 12 == y + 1 && (ym + 1) % 12 == 0);
        lemma_months_sum_to_year(y);
        assert(days_before_year(y + 1) == days_before_year(y) + days_in_year(y));
    }
}

/// Month start indices grow with the month number; a later month starts at
/// or after the end of an earlier one.
proof fn lemma_month_start_monotone(ym1: int, ym2: int)
    requires
        12 <= ym1 <= ym2,
    ensures
        month_start_index(ym1) <= month_start_index(ym2),
        ym1 < ym2 ==> month_start_index(ym1) + month_length_of(ym1) <= month_start_index(ym2),
    decreases ym2 - ym1,
{
    if ym1 < ym2 {
        lemma_month_start_step(ym2 - 1);
        lemma_month_start_monotone(ym1, ym2 - 1);
    }
}

/// Every valid date lies inside its own month's day range.
proof fn lemma_date_in_its_month(d: Date)
    requires
        d.valid(),
    ensures
        month_number(d) / 12 == d.year as int,
        month_number(d) % 12 == d.month - 1,
        month_start_index(month_number(d)) == d.idx() - (d.day - 1),
        month_length_of(month_number(d)) == days_in_month(d.year as int, d.month as int),
        month_start_index(month_number(d)) <= d.idx() <= month_start_index(month_number(d))
            + month_length_of(month_number(d)) - 1,
{
    assert((12 * (d.year as int) + d.month - 1) / 12 == d.year as int && (12 * (d.year as int)
        + d.month - 1) % 12 == d.month - 1);
}

/// Two months that both contain a day are the same month.
proof fn lemma_month_containing_unique(ym1: int, ym2: int, x: int)
    requires
        12 <= ym1,
        12 <= ym2,
        month_start_index(ym1) <= x <= month_start_index(ym1) + month_length_of(ym1) - 1,
        month_start_index(ym2) <= x <= month_start_index(ym2) + month_length_of(ym2) - 1,
    ensures
        ym1 == ym2,
{
    if ym1 < ym2 {
        lemma_month_start_monotone(ym1, ym2);
    }
    if ym2 < ym1 {
        lemma_month_start_monotone(ym2, ym1);
    }
}

/// A week that contains the window's last day is the window's last week.
proof fn lemma_week_count_from_bounds(s: int, e: int, n: int)
    requires
        0 <= n,
        week_start(s, n) <= e <= week_start(s, n) + 6,
    ensures
        week_count(s, e) == n + 1,
{
    assert(7 * n <= e - monday_on_or_before(s) <= 7 * n + 6);
    assert((7 * n + (e - monday_on_or_before(s) - 7 * n)) / 7 == n);
}

/// Counts how many of `days` fall inside the closed range from `start_date`
/// through `end_date`.  Duplicates each count toward the total.
pub fn count_days_in_range(days: &[Date], start_date: &Date, end_date: &Date) -> (r: usize)
    requires
        forall|i: int| 0 <= i < days@.len() ==> (#[trigger] days@[i]).valid(),
        start_date.valid(),
        end_date.valid(),
    ensures
        r as int == count_in_range(days@, start_date.idx(), end_date.idx()),
{
    let s: u32 = start_date.day_index();
    let e: u32 = end_date.day_index();
    let mut n: usize = 0;
    let mut i: usize = 0;
    while i < days.len()
        invariant
            i <= days@.len(),
            n <= i,
            forall|j: int| 0 <= j < days@.len() ==> (#[trigger] days@[j]).valid(),
            start_date.valid(),
            end_date.valid(),
            s as int == start_date.idx(),
            e as int == end_date.idx(),
            n as int == count_in_range(days@.take(i as int), start_date.idx(), end_date.idx()),
        decreases days@.len() - i,
    {
        let d: u32 = days[i].day_index();
        proof {
            assert(days@.take(i + 1).drop_last() =~= days@.take(i as int));
            assert(days@.take(i + 1).last() == days@[i as int]);
        }
        if s <= d && d <= e {
            n = n + 1;
        }
        i = i + 1;
    }
    proof {
        assert(days@.take(days@.len() as int) =~= days@);
    }
    n
}

/// Number of days of the week starting at `monday_of_week` that fall inside
/// the window from `start_date` through `end_date`.
pub fn get_week_day_count(monday_of_week: &Date, start_date: &Date, end_date: &Date) -> (r: usize)
    requires
        monday_of_week.valid(),
        start_date.valid(),
        end_date.valid(),
        monday_of_week.idx() % 7 == 0,
    ensures
        r as int == clipped_days(
            monday_of_week.idx(),
            monday_of_week.idx() + 6,
            start_date.idx(),
            end_date.idx(),
        ),
{
    let m: u32 = monday_of_week.day_index();
    let s: u32 = start_date.day_index();
    let e: u32 = end_date.day_index();
    let lo: u32 = if m >= s {
        m
    } else {
        s
    };
    let hi: u32 = if m + 6 <= e {
        m + 6
    } else {
        e
    };
    if lo <= hi {
        (hi - lo + 1) as usize
    } else {
        0
    }
}

/// Number of days of the month starting at `first_of_month` that fall inside
/// the window from `start_date` through `end_date`.
pub fn get_month_day_count(first_of_month: &Date, start_date: &Date, end_date: &Date) -> (r:
    usize)
    requires
        first_of_month.valid(),
        start_date.valid(),
        end_date.valid(),
        first_of_month.day == 1,
    ensures
        r as int == clipped_days(
            first_of_month.idx(),
            first_of_month.idx() + days_in_month(
                first_of_month.year as int,
                first_of_month.month as int,
            ) - 1,
            start_date.idx(),
            end_date.idx(),
        ),
{
    let m: u32 = first_of_month.day_index();
    let len: u32 = crate::date::month_length(first_of_month.year, first_of_month.month);
    let s: u32 = start_date.day_index();
    let e: u32 = end_date.day_index();
    let lo: u32 = if m >= s {
        m
    } else {
        s
    };
    let hi: u32 = if m + (len - 1) <= e {
        m + (len - 1)
    } else {
        e
    };
    if lo <= hi {
        (hi - lo + 1) as usize
    } else {
        0
    }
}

/// The Sunday that ends the week of the given Monday.
pub fn end_of_week(monday_of_week: &Date) -> (r: Date)
    requires
        monday_of_week.valid(),
        monday_of_week.idx() + 6 <= max_day_index(),
    ensures
        r.valid(),
        r.idx() == monday_of_week.idx() + 6,
{
    monday_of_week.add_days(6)
}

/// The last day of the month that `day_in_month` falls in.
pub fn end_of_month(day_in_month: &Date) -> (r: Date)
    requires
        day_in_month.valid(),
    ensures
        r.valid(),
        r.year == day_in_month.year,
        r.month == day_in_month.month,
        r.day as int == days_in_month(day_in_month.year as int, day_in_month.month as int),
        r.idx() == day_in_month.idx() + days_in_month(
            day_in_month.year as int,
            day_in_month.month as int,
        ) - day_in_month.day,
{
    Date {
        year: day_in_month.year,
        month: day_in_month.month,
        day: crate::date::month_length(day_in_month.year, day_in_month.month),
    }
}

/// Splits the window from `start_date` through `end_date` into Monday-aligned
/// calendar weeks.  Each entry holds the week's Monday, its Sunday, and how
/// many of its seven days fall inside the window.  The weeks are contiguous,
/// they cover the window, and their clipped day counts sum to the window's
/// length.
#[verifier::spinoff_prover]
#[verifier::rlimit(100)]
pub fn get_week_day_counts(start_date: &Date, end_date: &Date) -> (r: Vec<(Date, Date, usize)>)
    requires
        start_date.valid(),
        end_date.valid(),
        start_date.idx() <= end_date.idx(),
        end_date.idx() + 6 <= max_day_index(),
    ensures
        r@.len() >= 1,
        r@.len() == week_count(start_date.idx(), end_date.idx()),
        forall|i: int|
            0 <= i < r@.len() ==> week_segment_ok(
                #[trigger] r@[i],
                start_date.idx(),
                end_date.idx(),
                i,
            ),
        forall|i: int| 1 <= i < r@.len() ==> (#[trigger] r@[i]).0.idx() == r@[i - 1].1.idx() + 1,
        total_clipped(r@) == end_date.idx() - start_date.idx() + 1,
{
    let ghost s: int = start_date.idx();
    let ghost e: int = end_date.idx();
    let offset: u32 = start_date.day_index() % 7;
    let mut cur: Date = start_date.sub_days(offset);
    let mut result: Vec<(Date, Date, usize)> = Vec::new();
    let e_index: u32 = end_date.day_index();
    loop
        invariant_except_break
            start_date.valid(),
            end_date.valid(),
            s == start_date.idx(),
            e == end_date.idx(),
            s <= e,
            e + 6 <= max_day_index(),
            e_index as int == e,
            cur.valid(),
            cur.idx() == week_start(s, result@.len() as int),
            cur.idx() <= e,
            forall|i: int| 0 <= i < result@.len() ==> week_segment_ok(#[trigger] result@[i], s, e, i),
            forall|i: int|
                1 <= i < result@.len() ==> (#[trigger] result@[i]).0.idx() == result@[i - 1].1.idx()
                    + 1,
            total_clipped(result@) == covered_before(cur.idx(), s, e),
        ensures
            result@.len() >= 1,
            result@.len() == week_count(s, e),
            forall|i: int| 0 <= i < result@.len() ==> week_segment_ok(#[trigger] result@[i], s, e, i),
            forall|i: int|
                1 <= i < result@.len() ==> (#[trigger] result@[i]).0.idx() == result@[i - 1].1.idx()
                    + 1,
            total_clipped(result@) == e - s + 1,
        decreases e + 7 - cur.idx(),
    {
        let week_end: Date = cur.add_days(6);
        let clip: usize = get_week_day_count(&cur, start_date, end_date);
        proof {
            assert(result@.push((cur, week_end, clip)).drop_last() =~= result@);
        }
        result.push((cur, week_end, clip));
        if e_index <= week_end.day_index() {
            proof {
                lemma_week_count_from_bounds(s, e, result@.len() - 1);
            }
            break ;
        }
        cur = week_end.next_day();
    }
    result
}

/// Splits the window from `start_date` through `end_date` into full calendar
/// months.  Each entry holds the month's first day, its last day, and how
/// many of its days fall inside the window.  The months are contiguous, they
/// cover the window, and their clipped day counts sum to the window's length.
#[verifier::rlimit(60)]
pub fn get_month_day_counts(start_date: &Date, end_date: &Date) -> (r: Vec<(Date, Date, usize)>)
    requires
        start_date.valid(),
        end_date.valid(),
        start_date.idx() <= end_date.idx(),
    ensures
        r@.len() >= 1,
        r@.len() == month_count(*start_date, *end_date),
        forall|i: int|
            0 <= i < r@.len() ==> month_segment_ok(#[trigger] r@[i], *start_date, *end_date, i),
        forall|i: int| 1 <= i < r@.len() ==> (#[trigger] r@[i]).0.idx() == r@[i - 1].1.idx() + 1,
        total_clipped(r@) == end_date.idx() - start_date.idx() + 1,
{
    let ghost s: int = start_date.idx();
    let ghost e: int = end_date.idx();
    let ghost ym0: int = month_number(*start_date);
    proof {
        lemma_date_in_its_month(*start_date);
        lemma_date_in_its_month(*end_date);
    }
    let mut cur: Date = Date { year: start_date.year, month: start_date.month, day: 1 };
    let e_index: u32 = end_date.day_index();
    let mut result: Vec<(Date, Date, usize)> = Vec::new();
    loop
        invariant_except_break
            start_date.valid(),
            end_date.valid(),
            s == start_date.idx(),
            e == end_date.idx(),
            s <= e,
            e_index as int == e,
            ym0 == month_number(*start_date),
            cur.valid(),
            cur.day == 1,
            month_number(cur) == ym0 + result@.len(),
            cur.idx() == month_start_index(month_number(cur)),
            cur.idx() <= e,
            result@.len() > 0 ==> cur.idx() == result@[result@.len() - 1].1.idx() + 1,
            forall|i: int|
                0 <= i < result@.len() ==> month_segment_ok(
                    #[trigger] result@[i],
                    *start_date,
                    *end_date,
                    i,
                ),
            forall|i: int|
                1 <= i < result@.len() ==> (#[trigger] result@[i]).0.idx() == result@[i - 1].1.idx()
                    + 1,
            total_clipped(result@) == covered_before(cur.idx(), s, e),
        ensures
            result@.len() >= 1,
            result@.len() == month_count(*start_date, *end_date),
            forall|i: int|
                0 <= i < result@.len() ==> month_segment_ok(
                    #[trigger] result@[i],
                    *start_date,
                    *end_date,
                    i,
                ),
            forall|i: int|
                1 <= i < result@.len() ==> (#[trigger] result@[i]).0.idx() == result@[i - 1].1.idx()
                    + 1,
            total_clipped(result@) == e - s + 1,
        decreases e - cur.idx(),
    {
        let ghost ym: int = month_number(cur);
        proof {
            lemma_date_in_its_month(cur);
        }
        let m_end: Date = end_of_month(&cur);
        let clip: usize = get_month_day_count(&cur, start_date, end_date);
        proof {
            assert(result@.push((cur, m_end, clip)).drop_last() =~= result@);
        }
        result.push((cur, m_end, clip));
        if e_index <= m_end.day_index() {
            proof {
                lemma_date_in_its_month(*end_date);
                lemma_month_containing_unique(ym, month_number(*end_date), e);
            }
            break ;
        }
        proof {
            if m_end.is_calendar_end() {
                crate::date::lemma_idx_in_range(*end_date);
            }
            lemma_month_start_step(ym);
        }
        cur = m_end.next_day();
    }
    result
}

// ---------------------------------------------------------------------------
// Scoring
//
// Every segment yields an exact fraction: the completions counted in it,
// capped at the target, over the prorated obligation.  A zero obligation is
// trivially met and counts as one.  A task's score is the arithmetic mean of
// its segment fractions, kept exact as a numerator and a denominator.
// ---------------------------------------------------------------------------
/// What one calendar segment contributed: `done` completions (already capped
/// at the target) against an obligation of `expected`.  An obligation of
/// zero is trivially met and the segment counts as a full one.
#[derive(Clone, Copy, PartialEq, Eq, Structural, Debug)]
pub struct SegmentScore {
    pub done: u32,
    pub expected: u32,
}

/// A task's completion fraction over one window, as the exact list of its
/// segment outcomes.  Its value is the mean of the segment fractions, held
/// exactly in `num` and `den`.
#[derive(Clone, PartialEq, Eq, Debug)]
pub struct Fraction {
    pub segments: Vec<SegmentScore>,
}

/// Numerator of one segment's fraction.
pub open spec fn segment_num(seg: SegmentScore) -> int {
    if seg.expected == 0 {
        1
    } else {
        seg.done as int
    }
}

/// Denominator of one segment's fraction; always at least one.
pub open spec fn segment_den(seg: SegmentScore) -> int {
    if seg.expected == 0 {
        1
    } else {
        seg.expected as int
    }
}

/// Numerator of the exact sum of the segment fractions.
pub open spec fn segments_sum_num(segs: Seq<SegmentScore>) -> int
    decreases segs.len(),
{
    if segs.len() == 0 {
        0
    } else {
        segments_sum_num(segs.drop_last()) * segment_den(segs.last()) + segment_num(segs.last())
            * segments_sum_den(segs.drop_last())
    }
}

/// Denominator of the exact sum of the segment fractions.
pub open spec fn segments_sum_den(segs: Seq<SegmentScore>) -> int
    decreases segs.len(),
{
    if segs.len() == 0 {
        1
    } else {
        segments_sum_den(segs.drop_last()) * segment_den(segs.last())
    }
}

pub proof fn lemma_sum_den_positive(segs: Seq<SegmentScore>)
    ensures
        segments_sum_den(segs) >= 1,
    decreases segs.len(),
{
    if segs.len() > 0 {
        lemma_sum_den_positive(segs.drop_last());
        let a = segments_sum_den(segs.drop_last());
        let b = segment_den(segs.last());
        assert(a * b >= 1) by (nonlinear_arith)
            requires
                a >= 1,
                b >= 1,
        ;
    }
}

impl Fraction {
    /// Exact numerator of the mean of the segment fractions.  An empty
    /// segment list means nothing was owed, and the value is one.
    pub open spec fn num(self) -> int {
        if self.segments@.len() == 0 {
            1
        } else {
            segments_sum_num(self.segments@)
        }
    }

    /// Exact denominator of the mean of the segment fractions; positive.
    pub open spec fn den(self) -> int {
        if self.segments@.len() == 0 {
            1
        } else {
            segments_sum_den(self.segments@) * self.segments@.len()
        }
    }

    /// The fraction's exact value is one.
    pub open spec fn is_one(self) -> bool {
        self.num() == self.den()
    }
}

/// A fraction's exact denominator is positive, so its value is always
/// defined.
pub proof fn lemma_fraction_den_positive(f: Fraction)
    ensures
        f.den() >= 1,
{
    if f.segments@.len() > 0 {
        lemma_sum_den_positive(f.segments@);
        let d = segments_sum_den(f.segments@);
        let n = f.segments@.len() as int;
        assert(d * n >= 1) by (nonlinear_arith)
            requires
                d >= 1,
                n >= 1,
        ;
    }
}

/// The number of completions counted in `[a, b]`, capped at `count`.
pub open spec fn capped_count(count: int, stamps: Seq<Date>, a: int, b: int) -> int {
    let done = count_in_range(stamps, a, b);
    if done <= count {
        done
    } else {
        count
    }
}

/// The outcome owed to the `i`-th weekly segment of window `[s, e]`: counted
/// completions capped at the target, and the target prorated by the share of
/// the week that lies inside the window, rounded down.
pub open spec fn week_score_ok(
    seg: SegmentScore,
    count: int,
    stamps: Seq<Date>,
    s: int,
    e: int,
    i: int,
) -> bool {
    let a = week_start(s, i);
    &&& seg.done as int == capped_count(count, stamps, a, a + 6)
    &&& seg.expected as int == count * clipped_days(a, a + 6, s, e) / 7
}

/// The outcome owed to the `i`-th monthly segment of the window from `sd`
/// through `ed`; the target is prorated against the full month's length.
pub open spec fn month_score_ok(
    seg: SegmentScore,
    count: int,
    stamps: Seq<Date>,
    sd: Date,
    ed: Date,
    i: int,
) -> bool {
    let ym = month_number(sd) + i;
    let a = month_start_index(ym);
    let b = month_start_index(ym) + month_length_of(ym) - 1;
    &&& seg.done as int == capped_count(count, stamps, a, b)
    &&& seg.expected as int == count * clipped_days(a, b, sd.idx(), ed.idx()) / month_length_of(ym)
}

/// Scores one weekly task over the window from `start_date` through
/// `end_date`: one `SegmentScore` per Monday-aligned week.
pub fn get_done_fraction_weekly(
    count: u32,
    done_timestamps: &[Date],
    start_date: &Date,
    end_date: &Date,
) -> (r: Fraction)
    requires
        start_date.valid(),
        end_date.valid(),
        start_date.idx() <= end_date.idx(),
        end_date.idx() + 6 <= max_day_index(),
        forall|i: int| 0 <= i < done_timestamps@.len() ==> (#[trigger] done_timestamps@[i]).valid(),
    ensures
        r.segments@.len() == week_count(start_date.idx(), end_date.idx()),
        forall|i: int|
            0 <= i < r.segments@.len() ==> week_score_ok(
                #[trigger] r.segments@[i],
                count as int,
                done_timestamps@,
                start_date.idx(),
                end_date.idx(),
                i,
            ),
{
    let ghost s: int = start_date.idx();
    let ghost e: int = end_date.idx();
    let week_day_counts: Vec<(Date, Date, usize)> = get_week_day_counts(start_date, end_date);
    let mut fractions: Vec<SegmentScore> = Vec::new();
    let mut i: usize = 0;
    while i < week_day_counts.len()
        invariant
            start_date.valid(),
            end_date.valid(),
            s == start_date.idx(),
            e == end_date.idx(),
            s <= e,
            forall|j: int|
                0 <= j < done_timestamps@.len() ==> (#[trigger] done_timestamps@[j]).valid(),
            week_day_counts@.len() == week_count(s, e),
            forall|j: int|
                0 <= j < week_day_counts@.len() ==> week_segment_ok(
                    #[trigger] week_day_counts@[j],
                    s,
                    e,
                    j,
                ),
            i <= week_day_counts@.len(),
            fractions@.len() == i,
            forall|j: int|
                0 <= j < i ==> week_score_ok(
                    #[trigger] fractions@[j],
                    count as int,
                    done_timestamps@,
                    s,
                    e,
                    j,
                ),
        decreases week_day_counts@.len() - i,
    {
        let seg: (Date, Date, usize) = week_day_counts[i];
        let done_count: usize = count_days_in_range(done_timestamps, &seg.0, &seg.1);
        let done: u32 = if done_count >= count as usize {
            count
        } else {
            done_count as u32
        };
        proof {
            assert(seg.2 <= 7);
            vstd::arithmetic::mul::lemma_mul_is_commutative(count as int, seg.2 as int);
            vstd::arithmetic::mul::lemma_mul_inequality(seg.2 as int, 7, count as int);
            vstd::arithmetic::mul::lemma_mul_is_commutative(7, count as int);
            vstd::arithmetic::div_mod::lemma_div_is_ordered(
                (seg.2 as int) * (count as int),
                7 * (count as int),
                7,
            );
            vstd::arithmetic::div_mod::lemma_div_multiples_vanish(count as int, 7);
        }
        let expected: u32 = ((count as u64) * (seg.2 as u64) / 7) as u32;
        fractions.push(SegmentScore { done, expected });
        i = i + 1;
    }
    Fraction { segments: fractions }
}

/// Scores one monthly task over the window from `start_date` through
/// `end_date`: one `SegmentScore` per calendar month.
pub fn get_done_fraction_monthly(
    count: u32,
    done_timestamps: &[Date],
    start_date: &Date,
    end_date: &Date,
) -> (r: Fraction)
    requires
        start_date.valid(),
        end_date.valid(),
        start_date.idx() <= end_date.idx(),
        forall|i: int| 0 <= i < done_timestamps@.len() ==> (#[trigger] done_timestamps@[i]).valid(),
    ensures
        r.segments@.len() == month_count(*start_date, *end_date),
        forall|i: int|
            0 <= i < r.segments@.len() ==> month_score_ok(
                #[trigger] r.segments@[i],
                count as int,
                done_timestamps@,
                *start_date,
                *end_date,
                i,
            ),
{
    let ghost s: int = start_date.idx();
    let ghost e: int = end_date.idx();
    let month_day_counts: Vec<(Date, Date, usize)> = get_month_day_counts(start_date, end_date);
    let mut fractions: Vec<SegmentScore> = Vec::new();
    let mut i: usize = 0;
    while i < month_day_counts.len()
        invariant
            start_date.valid(),
            end_date.valid(),
            s == start_date.idx(),
            e == end_date.idx(),
            s <= e,
            forall|j: int|
                0 <= j < done_timestamps@.len() ==> (#[trigger] done_timestamps@[j]).valid(),
            month_day_counts@.len() == month_count(*start_date, *end_date),
            forall|j: int|
                0 <= j < month_day_counts@.len() ==> month_segment_ok(
                    #[trigger] month_day_counts@[j],
                    *start_date,
                    *end_date,
                    j,
                ),
            i <= month_day_counts@.len(),
            fractions@.len() == i,
            forall|j: int|
                0 <= j < i ==> month_score_ok(
                    #[trigger] fractions@[j],
                    count as int,
                    done_timestamps@,
                    *start_date,
                    *end_date,
                    j,
                ),
        decreases month_day_counts@.len() - i,
    {
        let seg: (Date, Date, usize) = month_day_counts[i];
        let done_count: usize = count_days_in_range(done_timestamps, &seg.0, &seg.1);
        let done: u32 = if done_count >= count as usize {
            count
        } else {
            done_count as u32
        };
        let total_days_in_month: u32 = crate::date::month_length(seg.0.year, seg.0.month);
        proof {
            let ghost ym = month_number(*start_date) + i;
            assert(month_length_of(ym) == days_in_month(seg.0.year as int, seg.0.month as int))
                by {
                lemma_date_in_its_month(seg.0);
            };
            assert(seg.2 as int <= month_length_of(ym));
            vstd::arithmetic::mul::lemma_mul_is_commutative(count as int, seg.2 as int);
            vstd::arithmetic::mul::lemma_mul_inequality(
                seg.2 as int,
                month_length_of(ym),
                count as int,
            );
            vstd::arithmetic::mul::lemma_mul_is_commutative(month_length_of(ym), count as int);
            vstd::arithmetic::mul::lemma_mul_inequality(month_length_of(ym), 31, count as int);
            vstd::arithmetic::div_mod::lemma_div_is_ordered(
                (seg.2 as int) * (count as int),
                month_length_of(ym) * (count as int),
                month_length_of(ym),
            );
            vstd::arithmetic::div_mod::lemma_div_multiples_vanish(
                count as int,
                month_length_of(ym),
            );
        }
        let expected: u32 = ((count as u64) * (seg.2 as u64) / (total_days_in_month as u64))
            as u32;
        fractions.push(SegmentScore { done, expected });
        i = i + 1;
    }
    Fraction { segments: fractions }
}

/// Why a scoring request is refused, if it is: the period is checked first,
/// then the window's order.
pub open spec fn score_request_error(period: Period, tf: TimeFrame) -> Option<ScoreError> {
    if period == Period::Day || period == Period::OneTime {
        Some(ScoreError::UnsupportedPeriod)
    } else if !tf.ordered() {
        Some(ScoreError::InvalidTimeFrame)
    } else {
        None
    }
}

/// The fraction `f` is exactly the score the period's rule assigns to a task
/// with target `task.count` and completions `stamps` over the window `tf`.
pub open spec fn done_fraction_ok(
    f: Fraction,
    task: TaskData,
    stamps: Seq<Date>,
    tf: TimeFrame,
) -> bool {
    if task.period == Period::Week {
        &&& f.segments@.len() == week_count(tf.start.idx(), tf.end.idx())
        &&& forall|i: int|
            0 <= i < f.segments@.len() ==> week_score_ok(
                #[trigger] f.segments@[i],
                task.count as int,
                stamps,
                tf.start.idx(),
                tf.end.idx(),
                i,
            )
    } else if task.period == Period::Month {
        &&& f.segments@.len() == month_count(tf.start, tf.end)
        &&& forall|i: int|
            0 <= i < f.segments@.len() ==> month_score_ok(
                #[trigger] f.segments@[i],
                task.count as int,
                stamps,
                tf.start,
                tf.end,
                i,
            )
    } else {
        false
    }
}

/// Scores one task over one window: the mean completion fraction across the
/// window's calendar segments, as an exact `Fraction`.  Tasks with a daily
/// or one-time period are refused, as is a window whose start lies after its
/// end.  A weekly window must end at least six days before the calendar
/// model's last day, so that its last week's Sunday exists; callers can test
/// that with `day_index` against `calendar_end_index`.
pub fn get_done_fraction(task: &TaskData, done_timestamps: &[Date], time_frame: &TimeFrame) -> (r:
    Result<Fraction, ScoreError>)
    requires
        time_frame.dates_valid(),
        forall|i: int| 0 <= i < done_timestamps@.len() ==> (#[trigger] done_timestamps@[i]).valid(),
        task.period == Period::Week ==> time_frame.end.idx() + 6 <= max_day_index(),
    ensures
        score_request_error(task.period, *time_frame) matches Some(er) ==> r == Err::<
            Fraction,
            ScoreError,
        >(er),
        score_request_error(task.period, *time_frame) is None ==> (r matches Ok(f)
            && done_fraction_ok(f, *task, done_timestamps@, *time_frame)),
{
    match task.period {
        Period::Week => {
            if !time_frame.start.on_or_before(&time_frame.end) {
                Err(ScoreError::InvalidTimeFrame)
            } else {
                Ok(
                    get_done_fraction_weekly(
                        task.count,
                        done_timestamps,
                        &time_frame.start,
                        &time_frame.end,
                    ),
                )
            }
        },
        Period::Month => {
            if !time_frame.start.on_or_before(&time_frame.end) {
                Err(ScoreError::InvalidTimeFrame)
            } else {
                Ok(
                    get_done_fraction_monthly(
                        task.count,
                        done_timestamps,
                        &time_frame.start,
                        &time_frame.end,
                    ),
                )
            }
        },
        Period::Day => Err(ScoreError::UnsupportedPeriod),
        Period::OneTime => Err(ScoreError::UnsupportedPeriod),
    }
}

// ---------------------------------------------------------------------------
// Laws
// ---------------------------------------------------------------------------
proof fn lemma_trivial_segments_sum(segs: Seq<SegmentScore>)
    requires
        forall|i: int| 0 <= i < segs.len() ==> (#[trigger] segs[i]).expected == 0,
    ensures
        segments_sum_num(segs) == segs.len(),
        segments_sum_den(segs) == 1,
    decreases segs.len(),
{
    if segs.len() > 0 {
        lemma_trivial_segments_sum(segs.drop_last());
    }
}

/// A task with a target count of zero owes nothing: every segment's prorated
/// obligation is zero, every segment is trivially met, and the score is
/// exactly one, whatever the completion dates.
pub proof fn lemma_zero_target_scores_one(
    f: Fraction,
    task: TaskData,
    stamps: Seq<Date>,
    tf: TimeFrame,
)
    requires
        task.count == 0,
        done_fraction_ok(f, task, stamps, tf),
    ensures
        f.is_one(),
{
    assert forall|i: int| 0 <= i < f.segments@.len() implies (#[trigger] f.segments@[i]).expected
        == 0 by {
        if task.period == Period::Week {
            assert(week_score_ok(f.segments@[i], task.count as int, stamps, tf.start.idx(),
                tf.end.idx(), i));
        } else {
            assert(month_score_ok(f.segments@[i], task.count as int, stamps, tf.start, tf.end, i));
        }
    }
    lemma_trivial_segments_sum(f.segments@);
}

proof fn lemma_count_in_range_concat(s: Seq<Date>, t: Seq<Date>, lo: int, hi: int)
    ensures
        count_in_range(s + t, lo, hi) == count_in_range(s, lo, hi) + count_in_range(t, lo, hi),
    decreases t.len(),
{
    if t.len() == 0 {
        assert(s + t =~= s);
    } else {
        assert((s + t).drop_last() =~= s + t.drop_last());
        assert((s + t).last() == t.last());
        lemma_count_in_range_concat(s, t.drop_last(), lo, hi);
    }
}

proof fn lemma_count_outside_zero(t: Seq<Date>, lo: int, hi: int)
    requires
        forall|j: int| 0 <= j < t.len() ==> ((#[trigger] t[j]).idx() < lo || t[j].idx() > hi),
    ensures
        count_in_range(t, lo, hi) == 0,
    decreases t.len(),
{
    if t.len() > 0 {
        lemma_count_outside_zero(t.drop_last(), lo, hi);
    }
}

/// First day covered by any segment of the window: the Monday or the first
/// of the month that the window's start falls in.
pub open spec fn segments_first_day(period: Period, tf: TimeFrame) -> int {
    if period == Period::Week {
        monday_on_or_before(tf.start.idx())
    } else {
        month_start_index(month_number(tf.start))
    }
}

/// Last day covered by any segment of the window: the Sunday or the last day
/// of the month that the window's end falls in.
pub open spec fn segments_last_day(period: Period, tf: TimeFrame) -> int {
    if period == Period::Week {
        week_start(tf.start.idx(), week_count(tf.start.idx(), tf.end.idx()) - 1) + 6
    } else {
        month_start_index(month_number(tf.end)) + month_length_of(month_number(tf.end)) - 1
    }
}

/// Completion dates that fall outside every segment of the window leave the
/// score untouched: scoring the same task over the same window with those
/// dates added yields the same segment outcomes and the same exact value.
pub proof fn lemma_outside_completions_ignored(
    f1: Fraction,
    f2: Fraction,
    task: TaskData,
    stamps: Seq<Date>,
    extra: Seq<Date>,
    tf: TimeFrame,
)
    requires
        tf.dates_valid(),
        tf.ordered(),
        done_fraction_ok(f1, task, stamps, tf),
        done_fraction_ok(f2, task, stamps + extra, tf),
        forall|j: int|
            0 <= j < extra.len() ==> ((#[trigger] extra[j]).idx() < segments_first_day(
                task.period,
                tf,
            ) || extra[j].idx() > segments_last_day(task.period, tf)),
    ensures
        f1.segments@ == f2.segments@,
        f1.num() == f2.num(),
        f1.den() == f2.den(),
{
    let s = tf.start.idx();
    let e = tf.end.idx();
    assert forall|i: int| 0 <= i < f1.segments@.len() implies f1.segments@[i] == f2.segments@[i]
        by {
        if task.period == Period::Week {
            assert(week_score_ok(f1.segments@[i], task.count as int, stamps, s, e, i));
            assert(week_score_ok(f2.segments@[i], task.count as int, stamps + extra, s, e, i));
            let a = week_start(s, i);
            lemma_count_in_range_concat(stamps, extra, a, a + 6);
            lemma_count_outside_zero(extra, a, a + 6);
        } else {
            assert(month_score_ok(f1.segments@[i], task.count as int, stamps, tf.start, tf.end,
                i));
            assert(month_score_ok(f2.segments@[i], task.count as int, stamps + extra, tf.start,
                tf.end, i));
            let ym0 = month_number(tf.start);
            let yme = month_number(tf.end);
            let ym = ym0 + i;
            let a = month_start_index(ym);
            let b = month_start_index(ym) + month_length_of(ym) - 1;
            lemma_month_start_monotone(ym0, ym);
            if ym < yme {
                lemma_month_start_monotone(ym, yme);
            }
            lemma_count_in_range_concat(stamps, extra, a, b);
            lemma_count_outside_zero(extra, a, b);
        }
    }
    assert(f1.segments@ =~= f2.segments@);
}

} // verus!
