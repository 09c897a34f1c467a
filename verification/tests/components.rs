use deshittify::challenge_data::ChallengeData;
use deshittify::date::Date;
use deshittify::period::Period;
use deshittify::score_error::ScoreError;
use deshittify::task_data::TaskData;
use deshittify::task_handling::{count_days_in_range, Fraction};
use deshittify::task_performance_data::TaskPerformanceData;
use deshittify::time_frame::TimeFrame;
use deshittify::user::UserData;
use deshittify::user_performance_data::{recent_time_frame, UserPerformanceData};

fn date(year: u32, month: u32, day: u32) -> Date {
    Date::from_ymd(year, month, day).unwrap()
}

fn fraction_value(fraction: &Fraction) -> f64 {
    if fraction.segments.is_empty() {
        return 1.0;
    }
    let mut sum = 0.0;
    for seg in fraction.segments.iter() {
        if seg.expected == 0 {
            sum += 1.0;
        } else {
            sum += seg.done as f64 / seg.expected as f64;
        }
    }
    sum / fraction.segments.len() as f64
}

fn average_value(fractions: &[Fraction]) -> f64 {
    if fractions.is_empty() {
        1.0
    } else {
        fractions.iter().map(fraction_value).sum::<f64>() / fractions.len() as f64
    }
}

fn performance(tasks: Vec<TaskPerformanceData>) -> UserPerformanceData {
    UserPerformanceData {
        user: UserData {
            user_id: 1,
            name: "someone".to_string(),
        },
        task_performance: tasks,
    }
}

#[test]
fn period_round_trips_through_its_code() {
    for period in [Period::Day, Period::Week, Period::Month, Period::OneTime] {
        let code = period.to_string();
        assert_eq!(Period::from_str(&code), Ok(period));
    }
    assert_eq!(Period::Day.to_string(), "d");
    assert_eq!(Period::Week.to_string(), "w");
    assert_eq!(Period::Month.to_string(), "m");
    assert_eq!(Period::OneTime.to_string(), "o");
}

#[test]
fn period_parses_full_words() {
    assert_eq!(Period::from_str("day"), Ok(Period::Day));
    assert_eq!(Period::from_str("week"), Ok(Period::Week));
    assert_eq!(Period::from_str("month"), Ok(Period::Month));
    assert_eq!(Period::from_str("once"), Ok(Period::OneTime));
    assert_eq!(Period::from_str("onetime"), Ok(Period::OneTime));
    assert_eq!(Period::from_str("fortnight"), Err(ScoreError::UnknownPeriod));
    assert_eq!(Period::from_str(""), Err(ScoreError::UnknownPeriod));
}

#[test]
fn from_ymd_accepts_only_real_dates() {
    assert!(Date::from_ymd(1970, 2, 28).is_some());
    assert_eq!(Date::from_ymd(1970, 2, 29), None);
    assert!(Date::from_ymd(1972, 2, 29).is_some());
    assert_eq!(Date::from_ymd(1900, 2, 29), None);
    assert!(Date::from_ymd(2000, 2, 29).is_some());
    assert_eq!(Date::from_ymd(1970, 4, 31), None);
    assert_eq!(Date::from_ymd(1970, 0, 1), None);
    assert_eq!(Date::from_ymd(1970, 13, 1), None);
    assert_eq!(Date::from_ymd(1970, 1, 0), None);
    assert_eq!(Date::from_ymd(0, 1, 1), None);
    assert_eq!(Date::from_ymd(10000, 1, 1), None);
    assert!(Date::from_ymd(9999, 12, 31).is_some());
}

#[test]
fn weekdays_count_from_monday() {
    // 1970-01-01 was a Thursday; the Monday before it is 1969-12-29.
    assert_eq!(date(1970, 1, 1).number_from_monday(), 4);
    assert_eq!(date(1969, 12, 29).number_from_monday(), 1);
    assert_eq!(date(1970, 1, 4).number_from_monday(), 7);
}

#[test]
fn day_stepping_crosses_month_and_year_ends() {
    assert_eq!(date(1970, 1, 31).next_day(), date(1970, 2, 1));
    assert_eq!(date(1969, 12, 31).next_day(), date(1970, 1, 1));
    assert_eq!(date(1972, 2, 28).next_day(), date(1972, 2, 29));
    assert_eq!(date(1970, 3, 1).prev_day(), date(1970, 2, 28));
    assert_eq!(date(1970, 1, 1).prev_day(), date(1969, 12, 31));
    assert_eq!(date(1970, 1, 10).sub_days(9), date(1970, 1, 1));
    assert_eq!(date(1970, 1, 1).add_days(30), date(1970, 1, 31));
}

#[test]
fn time_frame_keeps_its_bounds() {
    let frame = TimeFrame::new(date(1970, 1, 1), date(1970, 1, 10));
    assert_eq!(frame.start, date(1970, 1, 1));
    assert_eq!(frame.end, date(1970, 1, 10));
}

#[test]
fn counting_tolerates_duplicates_and_strays() {
    let days = [
        date(1970, 1, 2),
        date(1970, 1, 2),
        date(1969, 5, 1),
        date(1971, 1, 2),
    ];
    assert_eq!(
        count_days_in_range(&days, &date(1970, 1, 1), &date(1970, 1, 10)),
        2
    );
    assert_eq!(
        count_days_in_range(&[], &date(1970, 1, 1), &date(1970, 1, 10)),
        0
    );
}

#[test]
fn no_tasks_average_to_one() {
    let user = performance(vec![]);
    let challenge = ChallengeData {
        name: "challenge".to_string(),
        time_frame: TimeFrame::new(date(1970, 1, 1), date(1970, 1, 10)),
    };
    let fractions = user.get_all_time_average(&challenge).unwrap();
    assert_eq!(fractions.len(), 0);
    assert_eq!(average_value(&fractions), 1.0);
}

#[test]
fn averages_are_unweighted_means_over_tasks() {
    let frame = TimeFrame::new(date(1970, 1, 1), date(1970, 1, 10));
    let user = performance(vec![
        TaskPerformanceData {
            task: TaskData {
                name: "run".to_string(),
                count: 7,
                period: Period::Week,
            },
            timestamps: vec![date(1970, 1, 1), date(1970, 1, 10)],
        },
        TaskPerformanceData {
            task: TaskData {
                name: "read".to_string(),
                count: 0,
                period: Period::Month,
            },
            timestamps: vec![],
        },
    ]);
    let fractions = user.get_average_fraction_for_timeframe(&frame).unwrap();
    assert_eq!(fractions.len(), 2);
    let expected = ((1.0 / 4.0 + 1.0 / 6.0) / 2.0 + 1.0) / 2.0;
    assert_eq!(average_value(&fractions), expected);
}

#[test]
fn first_failing_task_decides_the_error() {
    let frame = TimeFrame::new(date(1970, 1, 1), date(1970, 1, 10));
    let user = performance(vec![
        TaskPerformanceData {
            task: TaskData {
                name: "stretch".to_string(),
                count: 1,
                period: Period::Week,
            },
            timestamps: vec![],
        },
        TaskPerformanceData {
            task: TaskData {
                name: "floss".to_string(),
                count: 1,
                period: Period::Day,
            },
            timestamps: vec![],
        },
    ]);
    assert_eq!(
        user.get_average_fraction_for_timeframe(&frame),
        Err(ScoreError::UnsupportedPeriod)
    );
    let backwards = TimeFrame::new(date(1970, 1, 10), date(1970, 1, 1));
    assert_eq!(
        user.get_average_fraction_for_timeframe(&backwards),
        Err(ScoreError::InvalidTimeFrame)
    );
}

#[test]
fn recent_window_is_eight_days_ending_yesterday() {
    let frame = recent_time_frame(&date(2020, 1, 20));
    assert_eq!(frame.start, date(2020, 1, 12));
    assert_eq!(frame.end, date(2020, 1, 19));
    // Crossing a year end.
    let frame = recent_time_frame(&date(1970, 1, 3));
    assert_eq!(frame.start, date(1969, 12, 26));
    assert_eq!(frame.end, date(1970, 1, 2));
}

#[test]
fn weekly_average_reads_the_clock() {
    // Whatever today is, the rolling window exists and a task with no
    // completions in it scores zero per owed segment or trivially one.
    let user = performance(vec![TaskPerformanceData {
        task: TaskData {
            name: "write".to_string(),
            count: 0,
            period: Period::Week,
        },
        timestamps: vec![],
    }]);
    let fractions = user.get_weekly_average().unwrap();
    assert_eq!(fractions.len(), 1);
    assert_eq!(fraction_value(&fractions[0]), 1.0);
    let empty = performance(vec![]);
    assert_eq!(average_value(&empty.get_weekly_average().unwrap()), 1.0);
}
