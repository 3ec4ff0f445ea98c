//! How the daemon proceeds: it plans a run, sleeps until the run, submits the log of the day,
//! gives notice of it, and plans the next run.
use vstd::prelude::*;

use crate::api::result_summary;
use crate::date::{day_text, Date, Moment, TimeOfDay, Ymd};
use crate::failure::Failure;
use crate::json::Json;
use crate::notify::{failure_notice, success_notice, tells_failure, tells_success, Notice};
use crate::schedule::{
    is_plan, lasts_until, may_be_shown, plan_run, run_at, seconds_until, LocalTimes, PlannedRun,
};

verus! {

/// What the daemon does.
pub enum DaemonState {
    /// It wants to know the time, to plan the next run.
    Plan,
    /// It sleeps before a run, and then wants to know the time.
    Sleep(PlannedRun),
    /// It submits the log of a day.
    Submit(Date),
    /// It sends a notice.
    Notify(Notice),
    /// It has stopped.
    Stopped(Failure),
}

/// What came of what the daemon does.
pub enum DaemonEvent {
    /// The time.
    Clock(Moment),
    /// A log was submitted; the hours are given as they are to be shown.
    Submitted { result: Json, workhour: String },
    /// A log could not be submitted, with the message of the error.
    Failed(String),
    /// A notice was sent, or could not be sent.
    Sent,
}

impl DaemonState {
    /// Whether the run that the daemon waits for, if there is one, starts with a second.
    pub open spec fn starts_second(self) -> bool {
        self matches DaemonState::Sleep(run) ==> run.at.nanos == 0
    }
}

impl DaemonEvent {
    /// Whether the time that the event brings, if it brings one, has nanoseconds of one second.
    pub open spec fn keeps_time(self) -> bool {
        self matches DaemonEvent::Clock(now) ==> now.instant.nanos < 1_000_000_000
    }
}

/// Whether a plan leads the daemon to a state.
pub open spec fn plan_leads(
    now: Moment,
    next_day: Option<Date>,
    today: LocalTimes,
    tomorrow: LocalTimes,
    after: DaemonState,
) -> bool {
    match after {
        DaemonState::Sleep(run) => is_plan(now, next_day, today, tomorrow, Ok(run)),
        DaemonState::Stopped(e) => is_plan(now, next_day, today, tomorrow, Err(e)),
        _ => false,
    }
}

/// Whether an event leads the daemon from one state to another. It submits only when the run
/// that it waits for has come, and sleeps again if it woke before. A log that cannot be
/// submitted does not stop it.
pub open spec fn daemon_step(
    before: DaemonState,
    event: DaemonEvent,
    schedule: TimeOfDay,
    after: DaemonState,
) -> bool {
    match before {
        DaemonState::Plan => match event {
            DaemonEvent::Clock(now) => exists|
                next_day: Option<Date>,
                today: LocalTimes,
                tomorrow: LocalTimes,
            | #[trigger]
                may_be_shown(now.date@, schedule, next_day, today, tomorrow) && plan_leads(
                    now,
                    next_day,
                    today,
                    tomorrow,
                    after,
                ),
            _ => after == before,
        },
        DaemonState::Sleep(run) => match event {
            DaemonEvent::Clock(now) => if now.instant.before(run.at) {
                &&& after matches DaemonState::Sleep(again)
                &&& again.day == run.day
                &&& again.at == run.at
                &&& lasts_until(now.instant, again.sleep_seconds as int, run.at)
            } else {
                after == DaemonState::Submit(now.date)
            },
            _ => after == before,
        },
        DaemonState::Submit(date) => match event {
            DaemonEvent::Submitted { result, workhour } => after matches DaemonState::Notify(n)
                && tells_success(n, result@, workhour@),
            DaemonEvent::Failed(error) => after matches DaemonState::Notify(n) && tells_failure(
                n,
                date@,
                error@,
            ),
            _ => after == before,
        },
        DaemonState::Notify(_) => match event {
            DaemonEvent::Sent => after is Plan,
            _ => after == before,
        },
        DaemonState::Stopped(_) => after == before,
    }
}

impl DaemonState {
    /// Takes the daemon one step further.
    pub fn advance(self, event: DaemonEvent, schedule: TimeOfDay) -> (r: DaemonState)
        requires
            schedule.valid(),
            self.starts_second(),
            event.keeps_time(),
        ensures
            daemon_step(self, event, schedule, r),
            r.starts_second(),
    {
        match self {
            DaemonState::Plan => match event {
                DaemonEvent::Clock(now) => match plan_run(&now, schedule) {
                    Ok(run) => DaemonState::Sleep(run),
                    Err(e) => DaemonState::Stopped(e),
                },
                _ => DaemonState::Plan,
            },
            DaemonState::Sleep(run) => match event {
                DaemonEvent::Clock(now) => if now.instant.is_before(&run.at) {
                    let sleep_seconds = seconds_until(&now.instant, &run.at);
                    DaemonState::Sleep(PlannedRun { day: run.day, at: run.at, sleep_seconds })
                } else {
                    DaemonState::Submit(now.date)
                },
                _ => DaemonState::Sleep(run),
            },
            DaemonState::Submit(date) => match event {
                DaemonEvent::Submitted { result, workhour } => DaemonState::Notify(
                    success_notice(&result, workhour.as_str()),
                ),
                DaemonEvent::Failed(error) => DaemonState::Notify(
                    failure_notice(&date, error.as_str()),
                ),
                _ => DaemonState::Submit(date),
            },
            DaemonState::Notify(notice) => match event {
                DaemonEvent::Sent => DaemonState::Plan,
                _ => DaemonState::Notify(notice),
            },
            DaemonState::Stopped(e) => DaemonState::Stopped(e),
        }
    }
}

// ---------------------------------------------------------------------------
// What holds of the daemon
// ---------------------------------------------------------------------------
/// Whether the daemon passes through states, from its start, as events come in.
pub open spec fn daemon_run(
    states: Seq<DaemonState>,
    events: Seq<DaemonEvent>,
    schedule: TimeOfDay,
) -> bool {
    &&& states.len() == events.len() + 1
    &&& states[0] is Plan
    &&& forall|i: int|
        0 <= i < events.len() ==> daemon_step(
            #[trigger] states[i],
            events[i],
            schedule,
            states[i + 1],
        )
}

/// Whether a submission begins with the step from a state to the next.
pub open spec fn begins_submission(states: Seq<DaemonState>, i: int) -> bool {
    !(states[i] is Submit) && states[i + 1] is Submit
}

/// The run for which a submission begins.
pub open spec fn run_of(states: Seq<DaemonState>, i: int) -> PlannedRun {
    states[i]->Sleep_0
}

/// Whether the clock is never set back.
pub open spec fn clock_goes_on(events: Seq<DaemonEvent>) -> bool {
    forall|i: int, j: int|
        0 <= i < j < events.len() && (#[trigger] events[i]) is Clock && (#[trigger] events[j]) is Clock
            ==> !events[j]->Clock_0.instant.before(events[i]->Clock_0.instant)
}

/// A submission begins only when the daemon waits for a run, and not before the time of the run.
pub proof fn submission_begins_at_its_time(
    states: Seq<DaemonState>,
    events: Seq<DaemonEvent>,
    schedule: TimeOfDay,
    i: int,
)
    requires
        daemon_run(states, events, schedule),
        0 <= i < events.len(),
        begins_submission(states, i),
    ensures
        states[i] matches DaemonState::Sleep(run) && (events[i] matches DaemonEvent::Clock(now)
            && !now.instant.before(run.at) && states[i + 1] == DaemonState::Submit(now.date)),
{
    assert(daemon_step(states[i], events[i], schedule, states[i + 1]));
}

/// A run that was planned is kept until its submission begins.
pub proof fn planned_run_is_kept(
    before: DaemonState,
    event: DaemonEvent,
    schedule: TimeOfDay,
    after: DaemonState,
)
    requires
        daemon_step(before, event, schedule, after),
        before is Sleep,
    ensures
        after is Submit || (after is Sleep && after->Sleep_0.day == before->Sleep_0.day
            && after->Sleep_0.at == before->Sleep_0.at),
{
}

/// Every submission, whether it succeeds or fails, is followed by one notice, and the daemon then
/// plans the next run. It stops only where there is no next run.
pub proof fn daemon_gives_notice_and_goes_on(
    before: DaemonState,
    event: DaemonEvent,
    schedule: TimeOfDay,
    after: DaemonState,
)
    requires
        daemon_step(before, event, schedule, after),
        after != before,
    ensures
        before is Submit ==> after is Notify,
        after is Notify ==> before is Submit,
        before is Notify ==> after is Plan,
        after is Stopped ==> before is Plan && after->Stopped_0 is NoNextRun,
{
}

/// What the daemon tells of a log: that it was submitted, with what was done, or that it was not,
/// with the day of the log and the error.
pub proof fn daemon_tells_what_came(
    date: Date,
    event: DaemonEvent,
    schedule: TimeOfDay,
    after: DaemonState,
)
    requires
        daemon_step(DaemonState::Submit(date), event, schedule, after),
    ensures
        match event {
            DaemonEvent::Submitted { result, workhour } => {
                &&& after matches DaemonState::Notify(n)
                &&& n.title@ == "autohour 提交成功"@
                &&& n.body@ == result_summary(result@, workhour@)
            },
            DaemonEvent::Failed(error) => {
                &&& after matches DaemonState::Notify(n)
                &&& n.title@ == "autohour 提交失败"@
                &&& n.body@ == "日期: "@ + day_text(date@) + "\n错误: "@ + error@
            },
            _ => after == DaemonState::Submit(date),
        },
{
}

/// What the daemon does when it knows the time. Without a run it plans one that is to come, and
/// when the run has come it submits the log of the day that it is then.
pub proof fn daemon_waits_for_its_run(
    before: DaemonState,
    now: Moment,
    schedule: TimeOfDay,
    after: DaemonState,
)
    requires
        daemon_step(before, DaemonEvent::Clock(now), schedule, after),
    ensures
        before is Plan ==> (after matches DaemonState::Sleep(run) && now.instant.before(run.at))
            || (after matches DaemonState::Stopped(e) && e is NoNextRun),
        before matches DaemonState::Sleep(run) ==> (now.instant.before(run.at) ==> after is Sleep)
            && (!now.instant.before(run.at) ==> after == DaemonState::Submit(now.date)),
{
}

/// Where a submission has begun, every run that the daemon waits for later comes later.
proof fn later_runs_come_later(
    states: Seq<DaemonState>,
    events: Seq<DaemonEvent>,
    schedule: TimeOfDay,
    i: int,
    k: int,
)
    requires
        daemon_run(states, events, schedule),
        clock_goes_on(events),
        0 <= i < k <= events.len(),
        begins_submission(states, i),
    ensures
        states[k] matches DaemonState::Sleep(run) ==> run_of(states, i).at.before(run.at),
    decreases k,
{
    submission_begins_at_its_time(states, events, schedule, i);
    if k > i + 1 {
        later_runs_come_later(states, events, schedule, i, k - 1);
        assert(daemon_step(states[k - 1], events[k - 1], schedule, states[k]));
        if states[k - 1] is Plan && states[k] is Sleep {
            assert(events[k - 1] is Clock);
            assert(events[i] is Clock);
            assert(!events[k - 1]->Clock_0.instant.before(events[i]->Clock_0.instant));
        }
    }
}

/// Where the clock is never set back, the runs for which submissions begin come one after
/// another.
pub proof fn runs_follow_one_another(
    states: Seq<DaemonState>,
    events: Seq<DaemonEvent>,
    schedule: TimeOfDay,
    i: int,
    j: int,
)
    requires
        daemon_run(states, events, schedule),
        clock_goes_on(events),
        0 <= i < j < events.len(),
        begins_submission(states, i),
        begins_submission(states, j),
    ensures
        run_of(states, i).at.before(run_of(states, j).at),
{
    submission_begins_at_its_time(states, events, schedule, j);
    later_runs_come_later(states, events, schedule, i, j);
}

/// Whether all runs were planned by the same clocks: `zone` says when they show the scheduled time
/// on a day.
pub open spec fn planned_by(zone: spec_fn(Ymd) -> LocalTimes, states: Seq<DaemonState>) -> bool {
    forall|k: int|
        0 <= k < states.len() - 1 && (#[trigger] states[k]) is Plan && states[k + 1] is Sleep
            ==> run_at(zone(states[k + 1]->Sleep_0.day@)) == Some(states[k + 1]->Sleep_0.at)
}

proof fn runs_are_planned_by(
    states: Seq<DaemonState>,
    events: Seq<DaemonEvent>,
    schedule: TimeOfDay,
    zone: spec_fn(Ymd) -> LocalTimes,
    k: int,
)
    requires
        daemon_run(states, events, schedule),
        planned_by(zone, states),
        0 <= k <= events.len(),
    ensures
        states[k] matches DaemonState::Sleep(run) ==> run_at(zone(run.day@)) == Some(run.at),
    decreases k,
{
    if k > 0 {
        runs_are_planned_by(states, events, schedule, zone, k - 1);
        assert(daemon_step(states[k - 1], events[k - 1], schedule, states[k]));
    }
}

/// Where the clock is never set back and its time zone does not change, at most one submission
/// begins for each scheduled day.
pub proof fn one_submission_for_each_day(
    states: Seq<DaemonState>,
    events: Seq<DaemonEvent>,
    schedule: TimeOfDay,
    zone: spec_fn(Ymd) -> LocalTimes,
    i: int,
    j: int,
)
    requires
        daemon_run(states, events, schedule),
        clock_goes_on(events),
        planned_by(zone, states),
        0 <= i < j < events.len(),
        begins_submission(states, i),
        begins_submission(states, j),
    ensures
        run_of(states, i).day@ != run_of(states, j).day@,
{
    submission_begins_at_its_time(states, events, schedule, i);
    submission_begins_at_its_time(states, events, schedule, j);
    runs_follow_one_another(states, events, schedule, i, j);
    runs_are_planned_by(states, events, schedule, zone, i);
    runs_are_planned_by(states, events, schedule, zone, j);
}

} // verus!
