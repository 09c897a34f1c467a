use deshittify::date::Date;
use deshittify::period::Period;
use deshittify::task_data::TaskData;
use deshittify::task_handling::{
    end_of_month, end_of_week, get_done_fraction, get_month_day_count, get_week_day_count,
    get_week_day_counts, Fraction,
};
use deshittify::time_frame::TimeFrame;

fn date(year: u32, month: u32, day: u32) -> Date {
    Date::from_ymd(year, month, day).unwrap()
}

fn fraction_value(fraction: &Fraction) -> f64 {
    if fraction.segments.is_empty() {
        return 1.0;
    }
    let mut sum = 0.0;
    for seg in fraction.segments.iter() {
        if seg.expected == 0 {
            sum += 1.0;
        } else {
            sum += seg.done as f64 / seg.expected as f64;
        }
    }
    sum / fraction.segments.len() as f64
}

fn score(period: Period, count: u32, timestamps: &[Date], start: &Date, end: &Date) -> f64 {
    let task = TaskData {
        name: "task".to_string(),
        count,
        period,
    };
    let time_frame = TimeFrame::new(*start, *end);
    let fraction = get_done_fraction(&task, timestamps, &time_frame).unwrap();
    fraction_value(&fraction)
}

#[test]
fn weekly() {
    let start_date = date(1970, 01, 01);
    let end_date = date(1970, 01, 10);
    let timestamps = &[start_date, end_date];
    let percentage = score(Period::Week, 7, timestamps, &start_date, &end_date);
    assert_eq!(percentage, (1.0 / 4.0 + 1.0 / 6.0) / 2.0);
    let timestamps = &[
        date(1970, 01, 01),
        date(1970, 01, 02),
        date(1970, 01, 03),
        date(1970, 01, 04),
    ];
    let percentage = score(Period::Week, 7, timestamps, &start_date, &end_date);
    assert_eq!(percentage, (4.0 / 4.0 + 0.0 / 6.0) / 2.0);
    let timestamps = &[
        date(1970, 01, 01),
        date(1970, 01, 02),
        date(1970, 01, 03),
        date(1970, 01, 05),
    ];
    let percentage = score(Period::Week, 7, timestamps, &start_date, &end_date);
    assert_eq!(percentage, (3.0 / 4.0 + 1.0 / 6.0) / 2.0);
    let timestamps = &[
        date(1970, 12, 01),
        date(1970, 12, 02),
        date(1970, 12, 03),
        date(1970, 12, 05),
    ];
    let percentage = score(Period::Week, 7, timestamps, &start_date, &end_date);
    assert_eq!(percentage, 0.0);
    // Once per week with two broken weeks means it never has to be done
    let timestamps = &[
        date(1970, 01, 01),
        date(1970, 01, 02),
        date(1970, 01, 03),
        date(1970, 01, 04),
    ];
    let percentage = score(Period::Week, 1, timestamps, &start_date, &end_date);
    assert_eq!(percentage, (1.0 + 1.0) / 2.0);
}

#[test]
fn monthly() {
    let start_date = date(1970, 01, 01);
    let end_date = date(1970, 04, 30);
    let timestamps = &[date(1970, 01, 01), date(1970, 02, 01)];
    let percentage = score(Period::Month, 1, timestamps, &start_date, &end_date);
    assert_eq!(percentage, (1.0 / 1.0 + 1.0 / 1.0 + 2.0 * 0.0 / 1.0) / 4.0);
    let timestamps = &[
        date(1970, 01, 01),
        date(1970, 01, 02),
        date(1970, 01, 03),
        date(1970, 01, 04),
    ];
    let percentage = score(Period::Month, 1, timestamps, &start_date, &end_date);
    assert_eq!(percentage, (1.0 / 1.0 + 3.0 * 0.0 / 1.0) / 4.0);
}

#[test]
fn test_get_week_day_counts() {
    let start_date = date(1970, 01, 01);
    let end_date = date(1970, 01, 20);
    let week_day_counts = get_week_day_counts(&start_date, &end_date);
    let mut week_day_counts_iter = week_day_counts.iter();
    assert_eq!(
        week_day_counts_iter.next().unwrap(),
        &(date(1969, 12, 29), date(1970, 01, 04), 4)
    );
    assert_eq!(
        week_day_counts_iter.next().unwrap(),
        &(date(1970, 01, 05), date(1970, 01, 11), 7)
    );
    assert_eq!(
        week_day_counts_iter.next().unwrap(),
        &(date(1970, 01, 12), date(1970, 01, 18), 7)
    );
    assert_eq!(
        week_day_counts_iter.next().unwrap(),
        &(date(1970, 01, 19), date(1970, 01, 25), 2)
    );
}

#[test]
fn test_get_week_day_count() {
    let monday = date(1970, 01, 19);
    assert_eq!(
        get_week_day_count(&monday, &date(1970, 01, 01), &date(1970, 01, 31)),
        7
    );
    assert_eq!(
        get_week_day_count(&monday, &date(1970, 01, 15), &date(1970, 01, 21)),
        3
    );
    assert_eq!(
        get_week_day_count(&monday, &date(1970, 01, 19), &date(1970, 01, 19)),
        1
    );
}

#[test]
fn test_get_month_day_count() {
    let first = date(1970, 01, 01);
    assert_eq!(
        get_month_day_count(&first, &date(1969, 12, 01), &date(1970, 01, 31)),
        31
    );
    assert_eq!(
        get_month_day_count(&first, &date(1970, 01, 01), &date(1970, 01, 15)),
        15
    );
    assert_eq!(
        get_month_day_count(&first, &date(1970, 01, 07), &date(1970, 01, 15)),
        9
    );
}

#[test]
fn week_and_month_ends() {
    assert_eq!(end_of_week(&date(1970, 01, 19)), date(1970, 01, 25));
    assert_eq!(end_of_month(&date(1970, 02, 15)), date(1970, 02, 28));
    assert_eq!(end_of_month(&date(1972, 02, 01)), date(1972, 02, 29));
    assert_eq!(end_of_month(&date(1970, 12, 31)), date(1970, 12, 31));
}

#[test]
fn segment_clip_counts_cover_the_window() {
    let start_date = date(1970, 01, 01);
    let end_date = date(1970, 01, 20);
    let week_day_counts = get_week_day_counts(&start_date, &end_date);
    let total: usize = week_day_counts.iter().map(|seg| seg.2).sum();
    assert_eq!(total, 20);
    let month_day_counts =
        deshittify::task_handling::get_month_day_counts(&date(1970, 01, 15), &date(1970, 04, 10));
    let total: usize = month_day_counts.iter().map(|seg| seg.2).sum();
    assert_eq!(total, 17 + 28 + 31 + 10);
    assert_eq!(month_day_counts.len(), 4);
}

#[test]
fn zero_target_always_scores_one() {
    let start_date = date(1970, 01, 01);
    let end_date = date(1970, 01, 10);
    let timestamps = &[date(1970, 01, 02), date(1970, 01, 02), date(1970, 12, 24)];
    assert_eq!(
        score(Period::Week, 0, timestamps, &start_date, &end_date),
        1.0
    );
    assert_eq!(
        score(Period::Month, 0, timestamps, &start_date, &end_date),
        1.0
    );
    assert_eq!(score(Period::Week, 0, &[], &start_date, &end_date), 1.0);
}

#[test]
fn completions_outside_segments_change_nothing() {
    let start_date = date(1970, 01, 01);
    let end_date = date(1970, 01, 10);
    // Weekly segments reach from 1969-12-29 through 1970-01-11; these lie
    // just outside on both sides.
    let inside = vec![date(1970, 01, 02), date(1970, 01, 06)];
    let mut padded = inside.clone();
    padded.push(date(1969, 12, 28));
    padded.push(date(1970, 01, 12));
    assert_eq!(
        score(Period::Week, 3, &inside, &start_date, &end_date),
        score(Period::Week, 3, &padded, &start_date, &end_date)
    );
    // Monthly segments reach from 1970-01-01 through 1970-01-31.
    let mut padded = inside.clone();
    padded.push(date(1969, 12, 31));
    padded.push(date(1970, 02, 01));
    assert_eq!(
        score(Period::Month, 3, &inside, &start_date, &end_date),
        score(Period::Month, 3, &padded, &start_date, &end_date)
    );
}

#[test]
fn single_day_window_yields_one_segment() {
    let day = date(1970, 01, 07);
    let weeks = get_week_day_counts(&day, &day);
    assert_eq!(weeks.len(), 1);
    assert_eq!(weeks[0], (date(1970, 01, 05), date(1970, 01, 11), 1));
    let months = deshittify::task_handling::get_month_day_counts(&day, &day);
    assert_eq!(months.len(), 1);
    assert_eq!(months[0], (date(1970, 01, 01), date(1970, 01, 31), 1));
}

#[test]
fn overachieving_is_capped_per_segment() {
    let start_date = date(1970, 01, 05);
    let end_date = date(1970, 01, 11);
    // Target 2 in one full week, done 5 times: capped at 2 of 2.
    let timestamps = &[
        date(1970, 01, 05),
        date(1970, 01, 06),
        date(1970, 01, 07),
        date(1970, 01, 08),
        date(1970, 01, 09),
    ];
    assert_eq!(
        score(Period::Week, 2, timestamps, &start_date, &end_date),
        1.0
    );
}

#[test]
fn unsupported_periods_are_refused() {
    let task = TaskData {
        name: "task".to_string(),
        count: 1,
        period: Period::Day,
    };
    let frame = TimeFrame::new(date(1970, 01, 01), date(1970, 01, 10));
    assert_eq!(
        get_done_fraction(&task, &[], &frame),
        Err(deshittify::score_error::ScoreError::UnsupportedPeriod)
    );
    let task = TaskData {
        name: "task".to_string(),
        count: 1,
        period: Period::OneTime,
    };
    assert_eq!(
        get_done_fraction(&task, &[], &frame),
        Err(deshittify::score_error::ScoreError::UnsupportedPeriod)
    );
}

#[test]
fn backwards_window_is_refused() {
    let task = TaskData {
        name: "task".to_string(),
        count: 1,
        period: Period::Week,
    };
    let frame = TimeFrame::new(date(1970, 01, 10), date(1970, 01, 01));
    assert_eq!(
        get_done_fraction(&task, &[], &frame),
        Err(deshittify::score_error::ScoreError::InvalidTimeFrame)
    );
    let task = TaskData {
        name: "task".to_string(),
        count: 1,
        period: Period::Month,
    };
    assert_eq!(
        get_done_fraction(&task, &[], &frame),
        Err(deshittify::score_error::ScoreError::InvalidTimeFrame)
    );
}
