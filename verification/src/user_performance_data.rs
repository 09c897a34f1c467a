use vstd::prelude::*;

use crate::challenge_data::ChallengeData;
use crate::clock::today_ymd;
use crate::date::{calendar_end_index, max_day_index, Date, MAX_YEAR};
use crate::period::Period;
use crate::score_error::ScoreError;
use crate::task_handling::{done_fraction_ok, get_done_fraction, score_request_error, Fraction};
use crate::task_performance_data::TaskPerformanceData;
use crate::time_frame::TimeFrame;
use crate::user::UserData;

verus! {

/// A user's tasks and completions for one challenge, ready to be scored.
#[derive(Debug)]
pub struct UserPerformanceData {
    pub user: UserData,
    pub task_performance: Vec<TaskPerformanceData>,
}

/// The error scoring would report for the first task it cannot score, in
/// task order; `None` when every task can be scored over the window.
pub open spec fn first_task_error(tasks: Seq<TaskPerformanceData>, tf: TimeFrame) -> Option<
    ScoreError,
>
    decreases tasks.len(),
{
    if tasks.len() == 0 {
        None
    } else if score_request_error(tasks[0].task.period, tf) is Some {
        score_request_error(tasks[0].task.period, tf)
    } else {
        first_task_error(tasks.drop_first(), tf)
    }
}

/// Numerator of the exact sum of the per-task fraction values.
pub open spec fn fractions_sum_num(fr: Seq<Fraction>) -> int
    decreases fr.len(),
{
    if fr.len() == 0 {
        0
    } else {
        fractions_sum_num(fr.drop_last()) * fr.last().den() + fr.last().num()
            * fractions_sum_den(fr.drop_last())
    }
}

/// Denominator of the exact sum of the per-task fraction values.
pub open spec fn fractions_sum_den(fr: Seq<Fraction>) -> int
    decreases fr.len(),
{
    if fr.len() == 0 {
        1
    } else {
        fractions_sum_den(fr.drop_last()) * fr.last().den()
    }
}

/// Exact numerator of a user's average over their tasks.  No tasks means
/// nothing was left undone: the average is one.
pub open spec fn average_num(fr: Seq<Fraction>) -> int {
    if fr.len() == 0 {
        1
    } else {
        fractions_sum_num(fr)
    }
}

/// Exact denominator of a user's average over their tasks.
pub open spec fn average_den(fr: Seq<Fraction>) -> int {
    if fr.len() == 0 {
        1
    } else {
        fractions_sum_den(fr) * fr.len()
    }
}

proof fn lemma_first_error_from(tasks: Seq<TaskPerformanceData>, tf: TimeFrame, i: int)
    requires
        0 <= i <= tasks.len(),
        forall|j: int|
            0 <= j < i ==> score_request_error((#[trigger] tasks[j]).task.period, tf) is None,
    ensures
        first_task_error(tasks, tf) == first_task_error(tasks.skip(i), tf),
    decreases i,
{
    if i > 0 {
        assert(tasks.skip(0) =~= tasks);
        lemma_first_error_from(tasks, tf, i - 1);
        assert(tasks.skip(i - 1).drop_first() =~= tasks.skip(i));
        assert(tasks.skip(i - 1)[0] == tasks[i - 1]);
    } else {
        assert(tasks.skip(0) =~= tasks);
    }
}

proof fn lemma_first_error_none(tasks: Seq<TaskPerformanceData>, tf: TimeFrame)
    requires
        first_task_error(tasks, tf) is None,
    ensures
        forall|i: int|
            0 <= i < tasks.len() ==> score_request_error(
                (#[trigger] tasks[i]).task.period,
                tf,
            ) is None,
    decreases tasks.len(),
{
    if tasks.len() > 0 {
        lemma_first_error_none(tasks.drop_first(), tf);
        assert forall|i: int|
            0 <= i < tasks.len() implies score_request_error(
            (#[trigger] tasks[i]).task.period,
            tf,
        ) is None by {
            if i > 0 {
                assert(tasks.drop_first()[i - 1] == tasks[i]);
            }
        }
    }
}

proof fn lemma_first_error_when_ordered(tasks: Seq<TaskPerformanceData>, tf: TimeFrame)
    requires
        tf.ordered(),
        first_task_error(tasks, tf) is Some,
    ensures
        first_task_error(tasks, tf) == Some(ScoreError::UnsupportedPeriod),
    decreases tasks.len(),
{
    if tasks.len() > 0 && score_request_error(tasks[0].task.period, tf) is None {
        lemma_first_error_when_ordered(tasks.drop_first(), tf);
    }
}

/// The fractions score the tasks, one each and in order, over one shared
/// eight-day window.
pub open spec fn scored_over_eight_days(
    v: Seq<Fraction>,
    tasks: Seq<TaskPerformanceData>,
    tf: TimeFrame,
) -> bool {
    &&& tf.dates_valid()
    &&& tf.ordered()
    &&& tf.end.idx() == tf.start.idx() + 7
    &&& v.len() == tasks.len()
    &&& forall|i: int|
        0 <= i < v.len() ==> done_fraction_ok(
            #[trigger] v[i],
            tasks[i].task,
            tasks[i].timestamps@,
            tf,
        )
}

/// The recent rolling window: the eight days ending yesterday.  Today is
/// still in progress and is left out.
pub fn recent_time_frame(today: &Date) -> (r: TimeFrame)
    requires
        today.valid(),
        today.idx() >= 8,
    ensures
        r.dates_valid(),
        r.ordered(),
        r.start.idx() == today.idx() - 8,
        r.end.idx() == today.idx() - 1,
{
    TimeFrame { start: today.sub_days(8), end: today.sub_days(1) }
}

impl UserPerformanceData {
    /// Every task's recorded dates are real calendar dates.
    pub open spec fn wf(self) -> bool {
        forall|i: int|
            0 <= i < self.task_performance@.len() ==> (#[trigger] self.task_performance@[i]).wf()
    }

    /// Scores every task over the given window and hands back one exact
    /// fraction per task, in task order.  The first task that cannot be
    /// scored decides the error.  A user with no tasks averages to one.
    pub fn get_average_fraction_for_timeframe(&self, time_frame: &TimeFrame) -> (r: Result<
        Vec<Fraction>,
        ScoreError,
    >)
        requires
            self.wf(),
            time_frame.dates_valid(),
            forall|i: int|
                0 <= i < self.task_performance@.len() && (#[trigger] self.task_performance@[i]).task.period
                    == Period::Week ==> time_frame.end.idx() + 6 <= max_day_index(),
        ensures
            first_task_error(self.task_performance@, *time_frame) matches Some(er) ==> r == Err::<
                Vec<Fraction>,
                ScoreError,
            >(er),
            first_task_error(self.task_performance@, *time_frame) is None ==> (r matches Ok(v)
                && v@.len() == self.task_performance@.len() && forall|i: int|
                0 <= i < v@.len() ==> done_fraction_ok(
                    #[trigger] v@[i],
                    self.task_performance@[i].task,
                    self.task_performance@[i].timestamps@,
                    *time_frame,
                )),
            self.task_performance@.len() == 0 ==> (r matches Ok(v) && v@.len() == 0 && average_num(
                v@,
            ) == average_den(v@)),
    {
        let ghost tasks: Seq<TaskPerformanceData> = self.task_performance@;
        let mut result: Vec<Fraction> = Vec::new();
        let mut i: usize = 0;
        while i < self.task_performance.len()
            invariant
                self.wf(),
                time_frame.dates_valid(),
                forall|j: int|
                    0 <= j < self.task_performance@.len() && (
                    #[trigger] self.task_performance@[j]).task.period == Period::Week
                        ==> time_frame.end.idx() + 6 <= max_day_index(),
                tasks == self.task_performance@,
                i <= tasks.len(),
                result@.len() == i,
                forall|j: int|
                    0 <= j < i ==> score_request_error(
                        (#[trigger] tasks[j]).task.period,
                        *time_frame,
                    ) is None,
                forall|j: int|
                    0 <= j < i ==> done_fraction_ok(
                        #[trigger] result@[j],
                        tasks[j].task,
                        tasks[j].timestamps@,
                        *time_frame,
                    ),
            decreases tasks.len() - i,
        {
            let tp: &TaskPerformanceData = &self.task_performance[i];
            let scored: Result<Fraction, ScoreError> = get_done_fraction(
                &tp.task,
                tp.timestamps.as_slice(),
                time_frame,
            );
            match scored {
                Ok(f) => {
                    result.push(f);
                },
                Err(er) => {
                    proof {
                        lemma_first_error_from(tasks, *time_frame, i as int);
                        assert(tasks.skip(i as int)[0] == tasks[i as int]);
                    }
                    return Err(er);
                },
            }
            i = i + 1;
        }
        proof {
            lemma_first_error_from(tasks, *time_frame, tasks.len() as int);
            assert(tasks.skip(tasks.len() as int) =~= Seq::<TaskPerformanceData>::empty());
        }
        Ok(result)
    }

    /// Mean completion fraction over the challenge's whole window, one exact
    /// fraction per task.  With no tasks the average is exactly one.
    pub fn get_all_time_average(&self, challenge: &ChallengeData) -> (r: Result<
        Vec<Fraction>,
        ScoreError,
    >)
        requires
            self.wf(),
            challenge.time_frame.dates_valid(),
            forall|i: int|
                0 <= i < self.task_performance@.len() && (#[trigger] self.task_performance@[i]).task.period
                    == Period::Week ==> challenge.time_frame.end.idx() + 6 <= max_day_index(),
        ensures
            first_task_error(self.task_performance@, challenge.time_frame) matches Some(er) ==> r
                == Err::<Vec<Fraction>, ScoreError>(er),
            first_task_error(self.task_performance@, challenge.time_frame) is None ==> (
            r matches Ok(v) && v@.len() == self.task_performance@.len() && forall|i: int|
                0 <= i < v@.len() ==> done_fraction_ok(
                    #[trigger] v@[i],
                    self.task_performance@[i].task,
                    self.task_performance@[i].timestamps@,
                    challenge.time_frame,
                )),
            self.task_performance@.len() == 0 ==> (r matches Ok(v) && v@.len() == 0 && average_num(
                v@,
            ) == average_den(v@)),
    {
        self.get_average_fraction_for_timeframe(&challenge.time_frame)
    }

    /// Scores every task over the eight days ending yesterday, by the system
    /// clock.  Reports `DateOutOfRange` when the clock's date does not leave
    /// room for that window inside the supported calendar.
    pub fn get_weekly_average(&self) -> (r: Result<Vec<Fraction>, ScoreError>)
        requires
            self.wf(),
        ensures
            r matches Ok(v) ==> v@.len() == self.task_performance@.len(),
            r matches Ok(v) ==> exists|tf: TimeFrame|
                #[trigger] scored_over_eight_days(v@, self.task_performance@, tf),
            r matches Ok(v) ==> forall|i: int|
                0 <= i < self.task_performance@.len() ==> ((
                #[trigger] self.task_performance@[i]).task.period == Period::Week
                    || self.task_performance@[i].task.period == Period::Month),
            r matches Err(er) ==> (er == ScoreError::DateOutOfRange
                || er == ScoreError::UnsupportedPeriod),
    {
        let (y, m, d): (i64, u32, u32) = today_ymd();
        if y < 1 || y > MAX_YEAR as i64 {
            return Err(ScoreError::DateOutOfRange);
        }
        let today: Date = Date { year: y as u32, month: m, day: d };
        let today_index: u32 = today.day_index();
        if today_index < 8 {
            return Err(ScoreError::DateOutOfRange);
        }
        if today_index + 5 > calendar_end_index() {
            return Err(ScoreError::DateOutOfRange);
        }
        let time_frame: TimeFrame = recent_time_frame(&today);
        let r: Result<Vec<Fraction>, ScoreError> = self.get_average_fraction_for_timeframe(
            &time_frame,
        );
        proof {
            if first_task_error(self.task_performance@, time_frame) is Some {
                lemma_first_error_when_ordered(self.task_performance@, time_frame);
            } else {
                lemma_first_error_none(self.task_performance@, time_frame);
            }
        }
        if let Ok(v) = &r {
            proof {
                assert(scored_over_eight_days(v@, self.task_performance@, time_frame));
            }
        }
        r
    }
}

} // verus!
