//! When the daemon runs next.
use vstd::prelude::*;

use crate::date::{midnight, Date, Moment, TimeOfDay, Timestamp, Ymd};
use crate::failure::Failure;

verus! {

impl Timestamp {
    /// The nanoseconds since the start of 1970.
    pub open spec fn total(self) -> int {
        self.seconds * 1_000_000_000 + self.nanos
    }

    /// Whether this instant comes before another.
    pub open spec fn before(self, other: Timestamp) -> bool {
        self.seconds < other.seconds || (self.seconds == other.seconds && self.nanos < other.nanos)
    }

    /// Tells whether this instant comes before another.
    pub fn is_before(&self, other: &Timestamp) -> (r: bool)
        ensures
            r == self.before(*other),
    {
        self.seconds < other.seconds || (self.seconds == other.seconds && self.nanos < other.nanos)
    }
}

/// The instants at which clocks at this place show a date and time: none where the clocks are
/// set forward past it, two where they are set back to it.
pub enum LocalTimes {
    Skipped,
    Once(Timestamp),
    Twice(Timestamp, Timestamp),
}

/// Whether an instant lies within a day of the instant at which clocks in UTC show a date and
/// time, with no part of a second.
pub open spec fn near(day: Ymd, time: TimeOfDay, t: Timestamp) -> bool {
    &&& -86400 < t.seconds - (midnight(day) + time.hour * 3600 + time.minute * 60) < 86400
    &&& t.nanos == 0
}

/// Whether all instants lie near a date and time.
pub open spec fn all_near(day: Ymd, time: TimeOfDay, times: LocalTimes) -> bool {
    match times {
        LocalTimes::Skipped => true,
        LocalTimes::Once(t) => near(day, time, t),
        LocalTimes::Twice(t, u) => near(day, time, t) && near(day, time, u),
    }
}

/// `chrono::TimeZone::from_local_datetime` of `chrono::Local` finds the instants at which clocks
/// at this place show a date and time. Which they are depends on the time zone of the machine;
/// they differ from UTC by less than a day.
#[verifier::external_body]
fn local_times(year: i32, month: u32, day: u32, time: TimeOfDay) -> (r: LocalTimes)
    requires
        (Ymd { year: year as int, month: month as int, day: day as int }).valid(),
        time.valid(),
    ensures
        all_near(Ymd { year: year as int, month: month as int, day: day as int }, time, r),
{
    let date = chrono::NaiveDate::from_ymd_opt(year, month, day).unwrap();
    let shown = date.and_hms_opt(time.hour, time.minute, 0).unwrap();
    let stamp = |t: chrono::DateTime<chrono::Local>| Timestamp {
        seconds: t.timestamp(),
        nanos: t.timestamp_subsec_nanos(),
    };
    match chrono::TimeZone::from_local_datetime(&chrono::Local, &shown) {
        chrono::LocalResult::None => LocalTimes::Skipped,
        chrono::LocalResult::Single(t) => LocalTimes::Once(stamp(t)),
        chrono::LocalResult::Ambiguous(t, u) => LocalTimes::Twice(stamp(t), stamp(u)),
    }
}

/// The instant of a run: where clocks show its time twice, the one that is named first.
pub open spec fn run_at(times: LocalTimes) -> Option<Timestamp> {
    match times {
        LocalTimes::Skipped => None,
        LocalTimes::Once(t) => Some(t),
        LocalTimes::Twice(t, _) => Some(t),
    }
}

/// Whether a run is still to come.
pub open spec fn is_due(now: Timestamp, times: LocalTimes) -> bool {
    run_at(times) matches Some(t) && now.before(t)
}

/// Whether `r` is the next run: that of today if it is still to come, and else that of tomorrow.
pub open spec fn is_next_run(
    now: Timestamp,
    today: LocalTimes,
    tomorrow: LocalTimes,
    r: Result<Timestamp, Failure>,
) -> bool {
    if is_due(now, today) {
        r matches Ok(t) && run_at(today) == Some(t)
    } else if is_due(now, tomorrow) {
        r matches Ok(t) && run_at(tomorrow) == Some(t)
    } else {
        r matches Err(e) && e is NoNextRun
    }
}

fn due_run(now: &Timestamp, times: &LocalTimes) -> (r: Option<Timestamp>)
    ensures
        match r {
            Some(t) => is_due(*now, *times) && run_at(*times) == Some(t),
            None => !is_due(*now, *times),
        },
{
    let run = match times {
        LocalTimes::Skipped => None,
        LocalTimes::Once(t) => Some(*t),
        LocalTimes::Twice(t, _) => Some(*t),
    };
    match run {
        Some(t) => if now.is_before(&t) {
            Some(t)
        } else {
            None
        },
        None => None,
    }
}

/// Chooses the next run, given when clocks show its time today and tomorrow.
pub fn choose_run(now: &Timestamp, today: &LocalTimes, tomorrow: &LocalTimes) -> (r: Result<
    Timestamp,
    Failure,
>)
    ensures
        is_next_run(*now, *today, *tomorrow, r),
{
    match due_run(now, today) {
        Some(t) => Ok(t),
        None => match due_run(now, tomorrow) {
            Some(t) => Ok(t),
            None => Err(Failure::NoNextRun),
        },
    }
}

/// When clocks at this place show a time on a date.
fn times_on(date: &Date, time: TimeOfDay) -> (r: LocalTimes)
    requires
        time.valid(),
    ensures
        all_near(date@, time, r),
{
    proof {
        use_type_invariant(date);
    }
    local_times(date.year(), date.month(), date.day(), time)
}

/// Whether clocks may show a time at these instants on a date and on the next day, if there is
/// one.
pub open spec fn may_be_shown(
    date: Ymd,
    time: TimeOfDay,
    next_day: Option<Date>,
    today: LocalTimes,
    tomorrow: LocalTimes,
) -> bool {
    &&& all_near(date, time, today)
    &&& match next_day {
        Some(next) => next@.number() == date.number() + 1 && all_near(next@, time, tomorrow),
        None => {
            &&& tomorrow is Skipped
            &&& forall|d: Ymd| #[trigger] d.valid() ==> d.number() != date.number() + 1
        },
    }
}

/// When clocks at this place show a time on a date and on the next day.
fn times_from(date: &Date, time: TimeOfDay) -> (r: (Option<Date>, LocalTimes, LocalTimes))
    requires
        time.valid(),
    ensures
        may_be_shown(date@, time, r.0, r.1, r.2),
{
    let today = times_on(date, time);
    match date.later(1) {
        Some(next) => (Some(next), today, times_on(&next, time)),
        None => (None, today, LocalTimes::Skipped),
    }
}

/// Finds the next run after a moment.
pub fn next_run_after(now: &Moment, schedule_time: TimeOfDay) -> (r: Result<Timestamp, Failure>)
    requires
        schedule_time.valid(),
    ensures
        exists|next_day: Option<Date>, today: LocalTimes, tomorrow: LocalTimes| #[trigger]
            may_be_shown(now.date@, schedule_time, next_day, today, tomorrow) && is_next_run(
                now.instant,
                today,
                tomorrow,
                r,
            ),
{
    let (next_day, today, tomorrow) = times_from(&now.date, schedule_time);
    assert(may_be_shown(now.date@, schedule_time, next_day, today, tomorrow));
    choose_run(&now.instant, &today, &tomorrow)
}

/// The next run comes after the moment for which it was sought.
pub proof fn next_run_is_to_come(
    now: Timestamp,
    today: LocalTimes,
    tomorrow: LocalTimes,
    run: Timestamp,
)
    requires
        is_next_run(now, today, tomorrow, Ok(run)),
    ensures
        now.before(run),
{
}

/// A run of today that is still to come is not put off.
pub proof fn run_of_today_comes_first(
    now: Timestamp,
    today: LocalTimes,
    tomorrow: LocalTimes,
    run: Timestamp,
)
    requires
        run_at(today) == Some(run),
        now.before(run),
    ensures
        forall|r: Result<Timestamp, Failure>| #[trigger]
            is_next_run(now, today, tomorrow, r) ==> r == Ok::<_, Failure>(run),
{
}

/// When the next run is: where clocks show its time today and that is still to come, then; where
/// not, at the time of tomorrow. Of two instants with the same time the first counts. There is no
/// next run only where neither day has one to come.
pub proof fn next_run_is_today_or_tomorrow(
    now: Timestamp,
    today: LocalTimes,
    tomorrow: LocalTimes,
    r: Result<Timestamp, Failure>,
    t: Timestamp,
    u: Timestamp,
)
    requires
        is_next_run(now, today, tomorrow, r),
    ensures
        (today == LocalTimes::Once(t) || today == LocalTimes::Twice(t, u)) && now.total()
            < t.total() && t.nanos < 1_000_000_000 && now.nanos < 1_000_000_000 ==> r == Ok::<
            _,
            Failure,
        >(t),
        (today is Skipped || (today matches LocalTimes::Once(x) && !now.before(x)) || (
        today matches LocalTimes::Twice(x, _) && !now.before(x))) && (tomorrow == LocalTimes::Once(
            t,
        ) || tomorrow == LocalTimes::Twice(t, u)) && now.before(t) ==> r == Ok::<_, Failure>(t),
        today is Skipped && tomorrow is Skipped ==> r is Err,
        r matches Ok(x) ==> now.before(x) && (run_at(today) == Some(x) || run_at(tomorrow) == Some(
            x,
        )),
        r is Err ==> (run_at(today) matches Some(x) ==> !now.before(x)) && (run_at(
            tomorrow,
        ) matches Some(x) ==> !now.before(x)),
{
}

/// Instants come in the order of the nanoseconds that have passed.
pub proof fn instants_are_ordered_by_time(a: Timestamp, b: Timestamp)
    requires
        a.nanos < 1_000_000_000,
        b.nanos < 1_000_000_000,
    ensures
        a.before(b) <==> a.seconds * 1_000_000_000 + a.nanos < b.seconds * 1_000_000_000 + b.nanos,
        a.total() == a.seconds * 1_000_000_000 + a.nanos,
{
}

/// Whether sleeping some whole seconds from an instant on lasts until another, and less than a
/// second longer.
pub open spec fn lasts_until(now: Timestamp, seconds: int, next: Timestamp) -> bool {
    next.total() <= now.total() + seconds * 1_000_000_000 < next.total() + 1_000_000_000
}

/// The whole seconds that a sleep has to last from one instant until a later one.
pub fn seconds_until(now: &Timestamp, next: &Timestamp) -> (r: u64)
    requires
        now.before(*next),
        now.nanos < 1_000_000_000,
        next.nanos < 1_000_000_000,
        next.total() - now.total() <= u64::MAX * 1_000_000_000,
    ensures
        lasts_until(*now, r as int, *next),
{
    let whole = (next.seconds as i128 - now.seconds as i128) as u64;
    if now.nanos < next.nanos {
        whole + 1
    } else {
        whole
    }
}

/// A run that lies ahead: the day for which it is scheduled, its instant, and for how many
/// seconds the daemon sleeps before it.
pub struct PlannedRun {
    pub day: Date,
    pub at: Timestamp,
    pub sleep_seconds: u64,
}

/// Whether `r` is the plan for the next run, given when clocks show its time: that of today if it
/// is still to come, and else that of tomorrow.
pub open spec fn is_plan(
    now: Moment,
    next_day: Option<Date>,
    today: LocalTimes,
    tomorrow: LocalTimes,
    r: Result<PlannedRun, Failure>,
) -> bool {
    match r {
        Ok(run) => {
            &&& is_next_run(now.instant, today, tomorrow, Ok(run.at))
            &&& if is_due(now.instant, today) {
                run.day == now.date
            } else {
                next_day == Some(run.day)
            }
            &&& lasts_until(now.instant, run.sleep_seconds as int, run.at)
        },
        Err(e) => is_next_run(now.instant, today, tomorrow, Err(e)),
    }
}

/// Whether the runs among some instants start with a second.
pub open spec fn starts_second(times: LocalTimes) -> bool {
    run_at(times) matches Some(t) ==> t.nanos == 0
}

/// Chooses the plan for the next run, given when clocks show its time today and on the next day,
/// if there is one.
pub fn choose_plan(
    now: &Moment,
    next_day: Option<Date>,
    today: &LocalTimes,
    tomorrow: &LocalTimes,
) -> (r: Result<PlannedRun, Failure>)
    requires
        now.instant.nanos < 1_000_000_000,
        starts_second(*today),
        starts_second(*tomorrow),
        next_day is None ==> tomorrow is Skipped,
    ensures
        is_plan(*now, next_day, *today, *tomorrow, r),
{
    if let Some(at) = due_run(&now.instant, today) {
        let sleep_seconds = seconds_until(&now.instant, &at);
        return Ok(PlannedRun { day: now.date, at, sleep_seconds });
    }
    if let Some(day) = next_day {
        if let Some(at) = due_run(&now.instant, tomorrow) {
            let sleep_seconds = seconds_until(&now.instant, &at);
            return Ok(PlannedRun { day, at, sleep_seconds });
        }
    }
    Err(Failure::NoNextRun)
}

/// Plans the next run after a moment.
pub fn plan_run(now: &Moment, schedule_time: TimeOfDay) -> (r: Result<PlannedRun, Failure>)
    requires
        schedule_time.valid(),
        now.instant.nanos < 1_000_000_000,
    ensures
        exists|next_day: Option<Date>, today: LocalTimes, tomorrow: LocalTimes| #[trigger]
            may_be_shown(now.date@, schedule_time, next_day, today, tomorrow) && is_plan(
                *now,
                next_day,
                today,
                tomorrow,
                r,
            ),
{
    let (next_day, today, tomorrow) = times_from(&now.date, schedule_time);
    assert(may_be_shown(now.date@, schedule_time, next_day, today, tomorrow));
    choose_plan(now, next_day, &today, &tomorrow)
}

/// A planned run is the next run, and is for today where it is at the time of today, and else for
/// the next day.
pub proof fn plan_is_for_its_day(
    now: Moment,
    next_day: Option<Date>,
    today: LocalTimes,
    tomorrow: LocalTimes,
    run: PlannedRun,
    t: Timestamp,
)
    requires
        is_plan(now, next_day, today, tomorrow, Ok(run)),
    ensures
        now.instant.before(run.at),
        run_at(today) == Some(t) && now.instant.before(t) ==> run.at == t && run.day == now.date,
        !(run_at(today) matches Some(x) && now.instant.before(x)) ==> run_at(tomorrow) == Some(
            run.at,
        ) && next_day == Some(run.day),
{
}

/// The sleep before a run does not end before the run.
pub proof fn sleep_lasts_until_the_run(
    now: Moment,
    next_day: Option<Date>,
    today: LocalTimes,
    tomorrow: LocalTimes,
    run: PlannedRun,
)
    requires
        is_plan(now, next_day, today, tomorrow, Ok(run)),
    ensures
        run.at.total() <= now.instant.total() + run.sleep_seconds * 1_000_000_000,
        now.instant.total() + run.sleep_seconds * 1_000_000_000 < run.at.total() + 1_000_000_000,
{
}

} // verus!
