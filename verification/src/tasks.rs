//! What the program is asked to do: enter hours, submit a log, and find the reports that are
//! missing. Each task is a state that names the action to take next; what came of the action
//! leads to the next state.
use vstd::prelude::*;

use crate::api::{
    belongs_to, books, daily_number, daily_of, daily_outcome, daily_request, entries_of,
    entry_number, field_integer, fields_book_their_entry, hours_go_to_the_entry_of_their_project,
    is_accepted, man_hour_fields, man_hour_outcome, man_hour_payload, man_hour_planned,
    month_payload, outcome_holds_the_reply, outcome_of, owned, plan_daily, plan_man_hour,
    read_snapshot, refusal_text, report_carries_its_log, reports, snapshot_payload, submission,
    submission_holds_both_outcomes, submission_of, DAILY_REPORT_API_URL, GET_HOUR_DAILY_URL,
    MAN_HOUR_API_URL, ManHour, ManHourPlan, Request, RequestView,
};
use crate::date::{day_text, time_token, token_of, Date, Ymd};
use crate::failure::Failure;
use crate::flow::{
    actions_left, exchange_step, holds_accepted, login_step, request_comes_to_an_end,
    request_holds_accepted, request_saves_before_it_ends, session_actions_left, session_at,
    session_comes_to_an_end, session_step, stage_at, wants_login, Action, ActionView, Event,
    Exchange, LoginState, SessionState, Stage,
};
use crate::holidays::{
    calendar_read, configuration_settles_workdays, configured, holiday_calendar, stretch_of,
    HolidayCalendar, HolidayConfig,
};
use crate::hours::{denotes_half_hours, is_in_half_hours};
use crate::json::{carries, carries_at, number_json, Json, JsonView};
use crate::log::ParsedLog;
use crate::login::{opt_text, Account};
use crate::missing::{
    calendar_is_needed_for_other_days, due_days_are_missing, month_read, needs_calendar,
    read_month, sort_missing_days, validate_year_month, wants_calendar, MissingDailyResult,
};
use crate::session::session_cookie_of;

verus! {

// ---------------------------------------------------------------------------
// Entering hours
// ---------------------------------------------------------------------------
/// How far an entry of hours has come.
pub enum EntryStage {
    Session(SessionState),
    Send(Exchange),
    Finished(Result<Json, Failure>),
}

/// An entry of hours on its way.
pub struct EntryTask {
    pub entry: ManHour,
    pub stage: EntryStage,
}

/// Why an entry of hours cannot be made, if it cannot: its month is none, its day is in no month,
/// or its hours are no multiple of one half.
pub open spec fn entry_refusal(entry: ManHour) -> Option<Failure> {
    if !(1 <= entry.month <= 12) {
        Some(Failure::MonthRange)
    } else if !(1 <= entry.day <= 31) {
        Some(Failure::DayRange)
    } else if !denotes_half_hours(entry.workhour@) {
        Some(Failure::WorkhourIncrement)
    } else {
        None
    }
}

/// The request that creates an entry of hours.
pub open spec fn entry_request(entry: ManHour) -> RequestView {
    RequestView { url: MAN_HOUR_API_URL@, payload: JsonView::Object(man_hour_fields(entry)) }
}

/// Whether an entry of hours goes on like this when its session has come to a state.
pub open spec fn entry_after_session(
    entry: ManHour,
    session: SessionState,
    after: EntryStage,
) -> bool {
    match session {
        SessionState::Finished(Ok(_)) => after matches EntryStage::Send(x) && x.asks(
            entry_request(entry),
        ),
        SessionState::Finished(Err(e)) => after == EntryStage::Finished(Err(e)),
        _ => after == EntryStage::Session(session),
    }
}

/// Where an entry of hours stands when its request has come to a state.
pub open spec fn entry_at(exchange: Exchange) -> EntryStage {
    match exchange.stage {
        Stage::Finished(r) => EntryStage::Finished(r),
        _ => EntryStage::Send(exchange),
    }
}

/// Whether an event leads an entry of hours from one state to another.
pub open spec fn entry_step(
    account: Account,
    before: EntryTask,
    event: Event,
    after: EntryTask,
) -> bool {
    &&& after.entry == before.entry
    &&& match before.stage {
        EntryStage::Session(s) => exists|next: SessionState| #[trigger]
            session_step(account, s, event, next) && entry_after_session(
                before.entry,
                next,
                after.stage,
            ),
        EntryStage::Send(x) => exists|next: Exchange| #[trigger]
            exchange_step(account, x, event, next) && after.stage == entry_at(next),
        EntryStage::Finished(_) => after.stage == before.stage,
    }
}

impl EntryTask {
    /// What is done next.
    pub open spec fn pending(self) -> ActionView {
        match self.stage {
            EntryStage::Session(s) => s.pending(),
            EntryStage::Send(x) => x.pending(),
            EntryStage::Finished(_) => ActionView::Nothing,
        }
    }

    /// An entry of hours that is to be made.
    pub fn new(entry: ManHour) -> (r: Result<EntryTask, Failure>)
        ensures
            match r {
                Ok(task) => {
                    &&& entry_refusal(entry) is None
                    &&& task.entry == entry
                    &&& task.stage == EntryStage::Session(SessionState::Check)
                },
                Err(e) => entry_refusal(entry) == Some(e),
            },
    {
        if entry.month < 1 || entry.month > 12 {
            return Err(Failure::MonthRange);
        }
        if entry.day < 1 || entry.day > 31 {
            return Err(Failure::DayRange);
        }
        if !is_in_half_hours(entry.workhour.as_str()) {
            return Err(Failure::WorkhourIncrement);
        }
        Ok(EntryTask { entry, stage: EntryStage::Session(SessionState::Check) })
    }

    /// Gives what is done next.
    pub fn action(&self) -> (r: Action)
        ensures
            r@ == self.pending(),
    {
        match &self.stage {
            EntryStage::Session(s) => s.action(),
            EntryStage::Send(x) => x.action(),
            EntryStage::Finished(_) => Action::Nothing,
        }
    }

    /// Goes one step further.
    pub fn advance(self, account: &Account, event: Event) -> (r: EntryTask)
        ensures
            entry_step(*account, self, event, r),
    {
        let stage = match self.stage {
            EntryStage::Session(s) => {
                let next = s.advance(account, event);
                assert(session_step(*account, s, event, next));
                match next {
                    SessionState::Finished(Ok(_)) => {
                        let payload = man_hour_payload(&self.entry);
                        EntryStage::Send(Exchange::new(Request { url: MAN_HOUR_API_URL, payload }))
                    },
                    SessionState::Finished(Err(e)) => EntryStage::Finished(Err(e)),
                    other => EntryStage::Session(other),
                }
            },
            EntryStage::Send(x) => {
                let next = x.advance(account, event);
                assert(exchange_step(*account, x, event, next));
                match next.stage {
                    Stage::Finished(r) => EntryStage::Finished(r),
                    stage => EntryStage::Send(Exchange { request: next.request, stage }),
                }
            },
            EntryStage::Finished(r) => EntryStage::Finished(r),
        };
        EntryTask { entry: self.entry, stage }
    }
}

/// How many actions an entry of hours takes at most before it ends.
pub open spec fn entry_actions_left(stage: EntryStage) -> nat {
    match stage {
        EntryStage::Session(s) => session_actions_left(s) + 13,
        EntryStage::Send(x) => actions_left(x.stage),
        EntryStage::Finished(_) => 0,
    }
}

/// Every answered action brings an entry of hours nearer to its end.
pub proof fn entry_comes_to_an_end(
    account: Account,
    before: EntryTask,
    event: Event,
    after: EntryTask,
)
    requires
        entry_step(account, before, event, after),
        before.pending().answered_by(event),
    ensures
        entry_actions_left(after.stage) < entry_actions_left(before.stage),
{
    match before.stage {
        EntryStage::Session(s) => {
            let next = choose|next: SessionState| #[trigger]
                session_step(account, s, event, next) && entry_after_session(
                    before.entry,
                    next,
                    after.stage,
                );
            session_comes_to_an_end(account, s, event, next);
        },
        EntryStage::Send(x) => {
            let next = choose|next: Exchange| #[trigger]
                exchange_step(account, x, event, next) && after.stage == entry_at(next);
            request_comes_to_an_end(account, x, event, next);
        },
        EntryStage::Finished(_) => {},
    }
}

/// Whether an address is that for new entries of hours.
pub open spec fn adds_hours(url: Seq<char>) -> bool {
    url == "https://weeksystem.linker.cc/api/Index/addManHour"@
}

/// Whether an address is that for entries of hours that are changed.
pub open spec fn edits_hours(url: Seq<char>) -> bool {
    url == "https://weeksystem.linker.cc/api/Index/editMyhour"@
}

/// Whether an address is one for reports, new or changed.
pub open spec fn takes_reports(url: Seq<char>) -> bool {
    ||| url == "https://weeksystem.linker.cc/api/Index/addDaily"@
    ||| url == "https://weeksystem.linker.cc/api/Index/updateDaily"@
}

/// Whether an address is that at which the server is asked what it has of a day.
pub open spec fn tells_of_a_day(url: Seq<char>) -> bool {
    url == "https://weeksystem.linker.cc/api/index/getHourDailyByTime"@
}

/// Whether an address is that at which the server is asked for the reports of a month.
pub open spec fn tells_of_a_month(url: Seq<char>) -> bool {
    url == "https://weeksystem.linker.cc/api/datareport/daily"@
}

/// The addresses of the server differ, and none of them is that of the probe.
proof fn addresses_differ(url: Seq<char>)
    ensures
        ({
            let probe = "https://weeksystem.linker.cc/api/Index/getProjectListByAdmin"@;
            &&& adds_hours(url) || edits_hours(url) || takes_reports(url) || tells_of_a_day(url)
                || tells_of_a_month(url) ==> url != probe
            &&& !(adds_hours(url) && edits_hours(url))
            &&& adds_hours(url) || edits_hours(url) ==> !takes_reports(url) && !tells_of_a_day(url)
                && !tells_of_a_month(url)
            &&& takes_reports(url) ==> !tells_of_a_day(url) && !tells_of_a_month(url)
            &&& tells_of_a_day(url) ==> !tells_of_a_month(url)
        }),
{
    reveal_strlit("https://weeksystem.linker.cc/api/Index/addManHour");
    reveal_strlit("https://weeksystem.linker.cc/api/Index/editMyhour");
    reveal_strlit("https://weeksystem.linker.cc/api/Index/getProjectListByAdmin");
    reveal_strlit("https://weeksystem.linker.cc/api/index/getHourDailyByTime");
    reveal_strlit("https://weeksystem.linker.cc/api/Index/addDaily");
    reveal_strlit("https://weeksystem.linker.cc/api/Index/updateDaily");
    reveal_strlit("https://weeksystem.linker.cc/api/datareport/daily");
    assert("https://weeksystem.linker.cc/api/Index/addManHour"@.len() == 49);
    assert("https://weeksystem.linker.cc/api/Index/editMyhour"@.len() == 49);
    assert("https://weeksystem.linker.cc/api/Index/getProjectListByAdmin"@.len() == 60);
    assert("https://weeksystem.linker.cc/api/index/getHourDailyByTime"@.len() == 57);
    assert("https://weeksystem.linker.cc/api/Index/addDaily"@.len() == 47);
    assert("https://weeksystem.linker.cc/api/Index/updateDaily"@.len() == 50);
    assert("https://weeksystem.linker.cc/api/datareport/daily"@.len() == 49);
    assert("https://weeksystem.linker.cc/api/Index/addManHour"@[39] == 'a');
    assert("https://weeksystem.linker.cc/api/Index/editMyhour"@[39] == 'e');
    assert("https://weeksystem.linker.cc/api/datareport/daily"@[33] == 'd');
    assert("https://weeksystem.linker.cc/api/Index/addManHour"@[33] == 'I');
    assert("https://weeksystem.linker.cc/api/Index/editMyhour"@[33] == 'I');
}

/// The request that a login sends is the probe.
proof fn login_posts_the_probe(login: LoginState)
    ensures
        login.pending() matches ActionView::Post(request) ==> request.url
            == "https://weeksystem.linker.cc/api/Index/getProjectListByAdmin"@,
{
}

/// Whether an event is what makes a session: cookies with a session cookie among them, or that
/// the cookies of a login were saved.
pub open spec fn makes_session(pending: ActionView, event: Event) -> bool {
    ||| pending is ReadCookies && (event matches Event::Cookies { header, stored }
        && session_cookie_of(opt_text(header), stored@) is Some)
    ||| pending is SaveCookies && event is Done
}

proof fn session_comes_from_cookies(
    account: Account,
    before: SessionState,
    event: Event,
    after: SessionState,
)
    requires
        session_step(account, before, event, after),
        !(before.pending() is Nothing),
    ensures
        after matches SessionState::Finished(Ok(_)) ==> makes_session(before.pending(), event),
        event is Failed ==> !(after matches SessionState::Finished(Ok(_))),
        after matches SessionState::Finished(Err(e)) ==> (event matches Event::Failed(m) ==> e
            == Failure::Outside(m)),
{
    if let SessionState::Login(login) = before {
        let next = choose|next: LoginState| #[trigger]
            login_step(account, login, event, next) && after == session_at(next);
        assert(login_step(account, login, event, next));
    }
}

/// Whether an entry of hours passes through states, from its start, as events come in.
pub open spec fn entry_run(account: Account, states: Seq<EntryTask>, events: Seq<Event>) -> bool {
    &&& states.len() == events.len() + 1
    &&& states[0].stage == EntryStage::Session(SessionState::Check)
    &&& forall|i: int|
        0 <= i < events.len() ==> entry_step(
            account,
            #[trigger] states[i],
            events[i],
            states[i + 1],
        )
}

/// Whether a request is the one that enters hours as they were given.
pub open spec fn enters(request: RequestView, entry: ManHour) -> bool {
    &&& adds_hours(request.url)
    &&& books(
        request.payload,
        Ymd { year: entry.year as int, month: entry.month as int, day: entry.day as int },
        entry.workhour@,
        entry.project_id,
        entry.remark@,
        entry.out_work@,
    )
}

/// Whether the server carried out the request for an entry of hours in a step of its run, with
/// this reply.
pub open spec fn entered_at(
    states: Seq<EntryTask>,
    events: Seq<Event>,
    i: int,
    entry: ManHour,
    reply: Json,
) -> bool {
    &&& 0 <= i < events.len()
    &&& states[i].pending() matches ActionView::Post(request)
    &&& enters(request, entry)
    &&& events[i] == Event::Reply(reply)
    &&& is_accepted(reply@)
}

/// Whether the reply that an entry of hours holds, if it holds one, came for its request.
spec fn entry_holds(states: Seq<EntryTask>, events: Seq<Event>, n: int) -> bool {
    let entry = states[0].entry;
    &&& states[n].entry == entry
    &&& match states[n].stage {
        EntryStage::Session(_) => true,
        EntryStage::Send(x) => {
            &&& enters(x.request@, entry)
            &&& match x.stage {
                Stage::Keep { reply, .. } => exists|i: int| #[trigger]
                    entered_at(states, events, i, entry, reply) && i < n,
                Stage::Finished(_) => false,
                _ => true,
            }
        },
        EntryStage::Finished(Ok(reply)) => exists|i: int| #[trigger]
            entered_at(states, events, i, entry, reply) && i < n,
        EntryStage::Finished(Err(_)) => true,
    }
}

#[verifier::rlimit(40)]
proof fn entry_goes_its_way(account: Account, states: Seq<EntryTask>, events: Seq<Event>, n: int)
    requires
        entry_run(account, states, events),
        0 <= n <= events.len(),
    ensures
        entry_holds(states, events, n),
    decreases n,
{
    if n > 0 {
        entry_goes_its_way(account, states, events, n - 1);
        let before = states[n - 1];
        let event = events[n - 1];
        let after = states[n];
        let entry = states[0].entry;
        assert(entry_step(account, before, event, after));
        match before.stage {
            EntryStage::Session(s) => {
                fields_book_their_entry(entry, 0);
            },
            EntryStage::Send(x) => {
                let next = choose|next: Exchange| #[trigger]
                    exchange_step(account, x, event, next) && after.stage == entry_at(next);
                match x.stage {
                    Stage::Ask { retry } => {
                        if let Event::Reply(reply) = event {
                            if is_accepted(reply@) {
                                assert(entered_at(states, events, n - 1, entry, reply));
                            }
                        }
                    },
                    Stage::Keep { reply, .. } => {
                        let i = choose|i: int| #[trigger]
                            entered_at(states, events, i, entry, reply) && i < n - 1;
                        assert(entered_at(states, events, i, entry, reply));
                    },
                    Stage::Login(login) => {
                        let step = choose|step: LoginState| #[trigger]
                            login_step(account, login, event, step) && next.stage == stage_at(step);
                    },
                    Stage::Finished(_) => {},
                }
            },
            EntryStage::Finished(Ok(reply)) => {
                let i = choose|i: int| #[trigger]
                    entered_at(states, events, i, entry, reply) && i < n - 1;
                assert(entered_at(states, events, i, entry, reply));
            },
            EntryStage::Finished(Err(_)) => {},
        }
    }
}

/// An entry of hours ends well only with the reply of the server to the request that enters the
/// hours as they were given, and only where that reply says that the request was carried out.
pub proof fn entry_ends_well_only_where_it_was_made(
    account: Account,
    states: Seq<EntryTask>,
    events: Seq<Event>,
    reply: Json,
)
    requires
        entry_run(account, states, events),
        states.last().stage == EntryStage::Finished(Ok(reply)),
    ensures
        exists|i: int| #[trigger] entered_at(states, events, i, states[0].entry, reply),
        is_accepted(reply@),
{
    entry_goes_its_way(account, states, events, events.len() as int);
}

/// An entry of hours that is refused fails. A reply that refuses the request and asks for no login
/// ends the entry with what the reply says, and a failure outside ends it with its message.
pub proof fn refused_entry_fails(
    account: Account,
    states: Seq<EntryTask>,
    events: Seq<Event>,
    n: int,
    request: RequestView,
)
    requires
        entry_run(account, states, events),
        0 <= n < events.len(),
        states[n].pending() == ActionView::Post(request),
        adds_hours(request.url),
    ensures
        enters(request, states[0].entry),
        events[n] matches Event::Reply(reply) ==> !is_accepted(reply@) && !wants_login(reply@) ==> (
        states[n + 1].stage matches EntryStage::Finished(Err(Failure::Refused(t))) && t@
            == refusal_text(reply@)),
        events[n] matches Event::Reply(reply) ==> is_accepted(reply@) ==> states[n + 1].pending()
            == ActionView::SaveCookies,
        events[n] matches Event::Failed(m) ==> m@ != "AUTH_REQUIRED"@ ==> states[n + 1].stage
            == EntryStage::Finished(Err(Failure::Outside(m))),
{
    entry_goes_its_way(account, states, events, n);
    assert(entry_step(account, states[n], events[n], states[n + 1]));
    addresses_differ(request.url);
    match states[n].stage {
        EntryStage::Session(SessionState::Login(login)) => {
            login_posts_the_probe(login);
        },
        EntryStage::Send(x) => {
            if let Stage::Login(login) = x.stage {
                login_posts_the_probe(login);
            }
        },
        _ => {},
    }
}

/// Hours are entered only with a session, and where the session fails the entry fails with it.
pub proof fn entry_begins_with_a_session(
    account: Account,
    before: EntryTask,
    event: Event,
    after: EntryTask,
)
    requires
        entry_step(account, before, event, after),
        before.stage is Session,
        !(before.pending() is Nothing),
    ensures
        after.stage is Send ==> makes_session(before.pending(), event),
        !(after.stage matches EntryStage::Finished(Ok(_))),
        after.stage matches EntryStage::Finished(Err(e)) ==> (event matches Event::Failed(m) ==> e
            == Failure::Outside(m)),
{
    let s = before.stage->Session_0;
    let next = choose|next: SessionState| #[trigger]
        session_step(account, s, event, next) && entry_after_session(
            before.entry,
            next,
            after.stage,
        );
    session_comes_from_cookies(account, s, event, next);
}

/// An entry of hours hands on what came: it ends as its session fails or as its request ends, and
/// goes on with its request otherwise.
pub proof fn entry_hands_on_what_came(
    account: Account,
    before: EntryTask,
    event: Event,
    after: EntryTask,
)
    requires
        entry_step(account, before, event, after),
    ensures
        after.entry == before.entry,
        before.stage matches EntryStage::Session(s) ==> (after.stage matches EntryStage::Finished(r)
            ==> (r matches Err(e) && session_step(
            account,
            s,
            event,
            SessionState::Finished(Err(e)),
        ))),
        before.stage matches EntryStage::Send(x) ==> match after.stage {
            EntryStage::Finished(r) => exchange_step(
                account,
                x,
                event,
                Exchange { request: x.request, stage: Stage::Finished(r) },
            ),
            EntryStage::Send(next) => exchange_step(account, x, event, next) && !(
            next.stage is Finished),
            EntryStage::Session(_) => false,
        },
        before.stage is Finished ==> after.stage == before.stage,
{
    match before.stage {
        EntryStage::Session(s) => {
            let next = choose|next: SessionState| #[trigger]
                session_step(account, s, event, next) && entry_after_session(
                    before.entry,
                    next,
                    after.stage,
                );
        },
        EntryStage::Send(x) => {
            let next = choose|next: Exchange| #[trigger]
                exchange_step(account, x, event, next) && after.stage == entry_at(next);
            if let Stage::Finished(r) = next.stage {
                assert(next == Exchange { request: x.request, stage: Stage::Finished(r) });
            }
        },
        EntryStage::Finished(_) => {},
    }
}

/// Which entries of hours are refused before anything is sent.
pub proof fn entry_is_refused_for_a_reason(entry: ManHour)
    ensures
        entry.month < 1 || entry.month > 12 <==> entry_refusal(entry) == Some(Failure::MonthRange),
        1 <= entry.month <= 12 && (entry.day < 1 || entry.day > 31) <==> entry_refusal(entry)
            == Some(Failure::DayRange),
        entry_refusal(entry) is None <==> 1 <= entry.month <= 12 && 1 <= entry.day <= 31
            && denotes_half_hours(entry.workhour@),
{
}

// ---------------------------------------------------------------------------
// Submitting a log
// ---------------------------------------------------------------------------
/// What is submitted.
pub struct Submission {
    pub log: ParsedLog,
    pub project_id: i64,
    pub out_work: String,
}

/// How far a submission has come.
pub enum SubmitStage {
    /// A session is wanted.
    Session(SessionState),
    /// The server is asked what it has of the day.
    Query(Exchange),
    /// The hours are sent; `entry_id` is the number of the entry that is changed.
    Hours { entry_id: Option<i64>, exchange: Exchange },
    /// The hours are entered; the server is asked once more what it has of the day.
    QueryAgain { man_hour: Json, exchange: Exchange },
    /// The report is sent; `daily_id` is the number of the report that is changed.
    Report { man_hour: Json, daily_id: Json, exchange: Exchange },
    /// The end.
    Finished(Result<Json, Failure>),
}

/// A submission on its way.
pub struct SubmitTask {
    pub submission: Submission,
    pub stage: SubmitStage,
}

/// The request for what the server has of a day.
pub open spec fn query_request(token: Seq<char>) -> RequestView {
    RequestView {
        url: GET_HOUR_DAILY_URL@,
        payload: JsonView::Object(seq![("time"@, JsonView::Text(token))]),
    }
}

/// The entry of hours that a log makes.
pub open spec fn hours_of(s: Submission, year: i32, month: u32, day: u32) -> ManHour {
    ManHour {
        year,
        month,
        day,
        workhour: s.log.workhour,
        project_id: s.project_id,
        remark: s.log.work_record,
        out_work: s.out_work,
    }
}

/// Whether a plan is the right one for the hours of a log, given the entries that the server has.
pub open spec fn hours_planned(
    s: Submission,
    entries: Seq<JsonView>,
    r: Result<ManHourPlan, Failure>,
) -> bool {
    let d = s.log.target_date@;
    man_hour_planned(
        entries,
        s.log.target_date,
        hours_of(s, d.year as i32, d.month as u32, d.day as u32),
        r,
    )
}

/// Whether a submission goes on like this when its session has come to a state.
pub open spec fn submit_after_session(
    s: Submission,
    today: Ymd,
    session: SessionState,
    after: SubmitStage,
) -> bool {
    match session {
        SessionState::Finished(Ok(_)) => match token_of(s.log.target_date@, today) {
            Some(token) => after matches SubmitStage::Query(x) && x.asks(query_request(token)),
            None => after matches SubmitStage::Finished(Err(e)) && e is TimeToken,
        },
        SessionState::Finished(Err(e)) => after == SubmitStage::Finished(Err(e)),
        _ => after == SubmitStage::Session(session),
    }
}

/// Whether a submission goes on like this when its first query has come to a state.
pub open spec fn submit_after_query(s: Submission, query: Exchange, after: SubmitStage) -> bool {
    match query.stage {
        Stage::Finished(Ok(reply)) => match after {
            SubmitStage::Hours { entry_id, exchange } => {
                &&& hours_planned(
                    s,
                    entries_of(reply@),
                    Ok(ManHourPlan { entry_id, request: exchange.request }),
                )
                &&& exchange.stage == (Stage::Ask { retry: true })
            },
            SubmitStage::Finished(Err(e)) => hours_planned(s, entries_of(reply@), Err(e)),
            _ => false,
        },
        Stage::Finished(Err(e)) => after == SubmitStage::Finished(Err(e)),
        _ => after == SubmitStage::Query(query),
    }
}

/// Whether a submission goes on like this when the request for its hours has come to a state.
pub open spec fn submit_after_hours(
    s: Submission,
    today: Ymd,
    entry_id: Option<i64>,
    hours: Exchange,
    after: SubmitStage,
) -> bool {
    match hours.stage {
        Stage::Finished(Ok(reply)) => match token_of(s.log.target_date@, today) {
            Some(token) => {
                &&& after matches SubmitStage::QueryAgain { man_hour, exchange }
                &&& man_hour@ == outcome_of("entry_id"@, entry_number(entry_id), reply@)
                &&& exchange.asks(query_request(token))
            },
            None => after matches SubmitStage::Finished(Err(e)) && e is TimeToken,
        },
        Stage::Finished(Err(e)) => after == SubmitStage::Finished(Err(e)),
        _ => after == (SubmitStage::Hours { entry_id, exchange: hours }),
    }
}

/// Whether a submission goes on like this when its second query has come to a state.
pub open spec fn submit_after_second_query(
    s: Submission,
    today: Ymd,
    man_hour: Json,
    query: Exchange,
    after: SubmitStage,
) -> bool {
    match query.stage {
        Stage::Finished(Ok(reply)) => match token_of(s.log.target_date@, today) {
            Some(token) => {
                &&& after matches SubmitStage::Report { man_hour: m, daily_id, exchange }
                &&& m == man_hour
                &&& daily_id@ == daily_number(daily_of(reply@))
                &&& exchange.asks(daily_request(daily_of(reply@), s.log, token))
            },
            None => after matches SubmitStage::Finished(Err(e)) && e is TimeToken,
        },
        Stage::Finished(Err(e)) => after == SubmitStage::Finished(Err(e)),
        _ => after == (SubmitStage::QueryAgain { man_hour, exchange: query }),
    }
}

/// Whether a submission goes on like this when the request for its report has come to a state.
pub open spec fn submit_after_report(
    s: Submission,
    man_hour: Json,
    daily_id: Json,
    report: Exchange,
    after: SubmitStage,
) -> bool {
    match report.stage {
        Stage::Finished(Ok(reply)) => {
            &&& after matches SubmitStage::Finished(Ok(done))
            &&& done@ == submission_of(
                s.log,
                s.project_id as int,
                man_hour@,
                outcome_of("daily_id"@, daily_id@, reply@),
            )
        },
        Stage::Finished(Err(e)) => after == SubmitStage::Finished(Err(e)),
        _ => after == (SubmitStage::Report { man_hour, daily_id, exchange: report }),
    }
}

/// Whether an event, on a day, leads a submission from one state to another.
pub open spec fn submit_step(
    account: Account,
    before: SubmitTask,
    event: Event,
    today: Ymd,
    after: SubmitTask,
) -> bool {
    let s = before.submission;
    &&& after.submission == s
    &&& match before.stage {
        SubmitStage::Session(session) => exists|next: SessionState| #[trigger]
            session_step(account, session, event, next) && submit_after_session(
                s,
                today,
                next,
                after.stage,
            ),
        SubmitStage::Query(x) => exists|next: Exchange| #[trigger]
            exchange_step(account, x, event, next) && submit_after_query(s, next, after.stage),
        SubmitStage::Hours { entry_id, exchange } => exists|next: Exchange| #[trigger]
            exchange_step(account, exchange, event, next) && submit_after_hours(
                s,
                today,
                entry_id,
                next,
                after.stage,
            ),
        SubmitStage::QueryAgain { man_hour, exchange } => exists|next: Exchange| #[trigger]
            exchange_step(account, exchange, event, next) && submit_after_second_query(
                s,
                today,
                man_hour,
                next,
                after.stage,
            ),
        SubmitStage::Report { man_hour, daily_id, exchange } => exists|next: Exchange| #[trigger]
            exchange_step(account, exchange, event, next) && submit_after_report(
                s,
                man_hour,
                daily_id,
                next,
                after.stage,
            ),
        SubmitStage::Finished(_) => after.stage == before.stage,
    }
}

/// The request for what the server has of the day of a log.
fn ask_for_day(log: &ParsedLog, today: Date) -> (r: Result<Exchange, Failure>)
    ensures
        match token_of(log.target_date@, today@) {
            Some(token) => r matches Ok(x) && x.asks(query_request(token)),
            None => r matches Err(e) && e is TimeToken,
        },
{
    match time_token(log.target_date, today) {
        Ok(token) => {
            let payload = snapshot_payload(token);
            Ok(Exchange::new(Request { url: GET_HOUR_DAILY_URL, payload }))
        },
        Err(e) => Err(e),
    }
}

fn plan_hours(s: &Submission, reply: &Json) -> (r: Result<ManHourPlan, Failure>)
    ensures
        hours_planned(*s, entries_of(reply@), r),
{
    let snapshot = read_snapshot(reply);
    let date = s.log.target_date;
    let entry = ManHour {
        year: date.year(),
        month: date.month(),
        day: date.day(),
        workhour: s.log.workhour.clone(),
        project_id: s.project_id,
        remark: s.log.work_record.clone(),
        out_work: s.out_work.clone(),
    };
    let r = plan_man_hour(&snapshot.workhour, date, &entry);
    proof {
        let d = date@;
        let wanted = hours_of(*s, d.year as i32, d.month as u32, d.day as u32);
        assert(man_hour_fields(entry) =~= man_hour_fields(wanted));
    }
    r
}

impl SubmitTask {
    /// What is done next.
    pub open spec fn pending(self) -> ActionView {
        match self.stage {
            SubmitStage::Session(s) => s.pending(),
            SubmitStage::Query(x) => x.pending(),
            SubmitStage::Hours { exchange, .. } => exchange.pending(),
            SubmitStage::QueryAgain { exchange, .. } => exchange.pending(),
            SubmitStage::Report { exchange, .. } => exchange.pending(),
            SubmitStage::Finished(_) => ActionView::Nothing,
        }
    }

    /// A submission that is to be made.
    pub fn new(submission: Submission) -> (r: SubmitTask)
        ensures
            r.submission == submission,
            r.stage == SubmitStage::Session(SessionState::Check),
    {
        SubmitTask { submission, stage: SubmitStage::Session(SessionState::Check) }
    }

    /// Gives what is done next.
    pub fn action(&self) -> (r: Action)
        ensures
            r@ == self.pending(),
    {
        match &self.stage {
            SubmitStage::Session(s) => s.action(),
            SubmitStage::Query(x) => x.action(),
            SubmitStage::Hours { exchange, .. } => exchange.action(),
            SubmitStage::QueryAgain { exchange, .. } => exchange.action(),
            SubmitStage::Report { exchange, .. } => exchange.action(),
            SubmitStage::Finished(_) => Action::Nothing,
        }
    }

    /// Goes one step further.
    pub fn advance(self, account: &Account, event: Event, today: Date) -> (r: SubmitTask)
        ensures
            submit_step(*account, self, event, today@, r),
    {
        let s = self.submission;
        let stage = match self.stage {
            SubmitStage::Session(session) => {
                let next = session.advance(account, event);
                assert(session_step(*account, session, event, next));
                match next {
                    SessionState::Finished(Ok(_)) => match ask_for_day(&s.log, today) {
                        Ok(x) => SubmitStage::Query(x),
                        Err(e) => SubmitStage::Finished(Err(e)),
                    },
                    SessionState::Finished(Err(e)) => SubmitStage::Finished(Err(e)),
                    other => SubmitStage::Session(other),
                }
            },
            SubmitStage::Query(x) => {
                let next = x.advance(account, event);
                assert(exchange_step(*account, x, event, next));
                match next.stage {
                    Stage::Finished(Ok(reply)) => match plan_hours(&s, &reply) {
                        Ok(plan) => SubmitStage::Hours {
                            entry_id: plan.entry_id,
                            exchange: Exchange::new(plan.request),
                        },
                        Err(e) => SubmitStage::Finished(Err(e)),
                    },
                    Stage::Finished(Err(e)) => SubmitStage::Finished(Err(e)),
                    stage => SubmitStage::Query(Exchange { request: next.request, stage }),
                }
            },
            SubmitStage::Hours { entry_id, exchange } => {
                let next = exchange.advance(account, event);
                assert(exchange_step(*account, exchange, event, next));
                match next.stage {
                    Stage::Finished(Ok(reply)) => match ask_for_day(&s.log, today) {
                        Ok(x) => SubmitStage::QueryAgain {
                            man_hour: man_hour_outcome(entry_id, reply),
                            exchange: x,
                        },
                        Err(e) => SubmitStage::Finished(Err(e)),
                    },
                    Stage::Finished(Err(e)) => SubmitStage::Finished(Err(e)),
                    stage => SubmitStage::Hours {
                        entry_id,
                        exchange: Exchange { request: next.request, stage },
                    },
                }
            },
            SubmitStage::QueryAgain { man_hour, exchange } => {
                let next = exchange.advance(account, event);
                assert(exchange_step(*account, exchange, event, next));
                match next.stage {
                    Stage::Finished(Ok(reply)) => {
                        let snapshot = read_snapshot(&reply);
                        assert(owned(snapshot.daily) == daily_of(reply@));
                        match plan_daily(&snapshot.daily, &s.log, today) {
                            Ok(plan) => SubmitStage::Report {
                                man_hour,
                                daily_id: plan.daily_id,
                                exchange: Exchange::new(plan.request),
                            },
                            Err(e) => SubmitStage::Finished(Err(e)),
                        }
                    },
                    Stage::Finished(Err(e)) => SubmitStage::Finished(Err(e)),
                    stage => SubmitStage::QueryAgain {
                        man_hour,
                        exchange: Exchange { request: next.request, stage },
                    },
                }
            },
            SubmitStage::Report { man_hour, daily_id, exchange } => {
                let next = exchange.advance(account, event);
                assert(exchange_step(*account, exchange, event, next));
                match next.stage {
                    Stage::Finished(Ok(reply)) => {
                        let daily = daily_outcome(daily_id, reply);
                        SubmitStage::Finished(Ok(submission(&s.log, s.project_id, man_hour, daily)))
                    },
                    Stage::Finished(Err(e)) => SubmitStage::Finished(Err(e)),
                    stage => SubmitStage::Report {
                        man_hour,
                        daily_id,
                        exchange: Exchange { request: next.request, stage },
                    },
                }
            },
            SubmitStage::Finished(r) => SubmitStage::Finished(r),
        };
        SubmitTask { submission: s, stage }
    }
}

/// How far a submission has come, as a number.
pub open spec fn progress(stage: SubmitStage) -> int {
    match stage {
        SubmitStage::Session(_) => 0,
        SubmitStage::Query(_) => 1,
        SubmitStage::Hours { .. } => 2,
        SubmitStage::QueryAgain { .. } => 3,
        SubmitStage::Report { .. } => 4,
        SubmitStage::Finished(_) => 5,
    }
}

/// A submission takes its stages one after the other and leaves none out: it stays, goes to the
/// next stage, or ends with an error. It ends well only after the last stage.
pub proof fn submission_leaves_no_stage_out(
    account: Account,
    before: SubmitTask,
    event: Event,
    today: Ymd,
    after: SubmitTask,
)
    requires
        submit_step(account, before, event, today, after),
    ensures
        progress(after.stage) == progress(before.stage) || progress(after.stage) == progress(
            before.stage,
        ) + 1 || after.stage matches SubmitStage::Finished(Err(_)),
        after.stage matches SubmitStage::Finished(Ok(_)) ==> progress(before.stage) >= 4,
{
}

/// Whether a submission passes through states, from its start, as events come in.
pub open spec fn submit_run(
    account: Account,
    states: Seq<SubmitTask>,
    events: Seq<Event>,
    days: Seq<Ymd>,
) -> bool {
    &&& states.len() == events.len() + 1
    &&& days.len() == events.len()
    &&& states[0].stage == SubmitStage::Session(SessionState::Check)
    &&& forall|i: int|
        0 <= i < events.len() ==> submit_step(
            account,
            #[trigger] states[i],
            events[i],
            days[i],
            states[i + 1],
        )
}

proof fn submission_has_passed(
    account: Account,
    states: Seq<SubmitTask>,
    events: Seq<Event>,
    days: Seq<Ymd>,
    n: int,
    p: int,
)
    requires
        submit_run(account, states, events, days),
        0 <= n <= events.len(),
        0 <= p <= progress(states[n].stage),
        !(states[n].stage matches SubmitStage::Finished(Err(_))),
    ensures
        exists|i: int| 0 <= i <= n && progress(#[trigger] states[i].stage) == p,
    decreases n,
{
    if progress(states[n].stage) == p {
        assert(0 <= n <= n && progress(states[n].stage) == p);
    } else {
        if n == 0 {
            assert(false);
        }
        assert(submit_step(account, states[n - 1], events[n - 1], days[n - 1], states[n]));
        submission_leaves_no_stage_out(
            account,
            states[n - 1],
            events[n - 1],
            days[n - 1],
            states[n],
        );
        submission_has_passed(account, states, events, days, n - 1, p);
        let i = choose|i: int| 0 <= i <= n - 1 && progress(#[trigger] states[i].stage) == p;
        assert(0 <= i <= n && progress(states[i].stage) == p);
    }
}

/// A submission that ends well has sent the hours and the report.
pub proof fn submission_sends_hours_and_report(
    account: Account,
    states: Seq<SubmitTask>,
    events: Seq<Event>,
    days: Seq<Ymd>,
)
    requires
        submit_run(account, states, events, days),
        states.last().stage matches SubmitStage::Finished(Ok(_)),
    ensures
        exists|i: int| 0 <= i < states.len() && #[trigger] states[i].stage is Hours,
        exists|i: int| 0 <= i < states.len() && #[trigger] states[i].stage is Report,
{
    let n = events.len() as int;
    submission_has_passed(account, states, events, days, n, 2);
    let i = choose|i: int| 0 <= i <= n && progress(#[trigger] states[i].stage) == 2;
    assert(0 <= i < states.len() && states[i].stage is Hours);
    submission_has_passed(account, states, events, days, n, 4);
    let j = choose|i: int| 0 <= i <= n && progress(#[trigger] states[i].stage) == 4;
    assert(0 <= j < states.len() && states[j].stage is Report);
}

/// Whether a value tells of a request that the server carried out.
pub open spec fn tells_of_success(told: JsonView, key: Seq<char>) -> bool {
    exists|id: JsonView, reply: JsonView|
        told == #[trigger] outcome_of(key, id, reply) && is_accepted(reply)
}

/// Whether what a stage of a submission holds tells of requests that the server carried out.
pub open spec fn holds_success(s: Submission, stage: SubmitStage) -> bool {
    match stage {
        SubmitStage::Session(_) => true,
        SubmitStage::Query(x) => holds_accepted(x.stage),
        SubmitStage::Hours { exchange, .. } => holds_accepted(exchange.stage),
        SubmitStage::QueryAgain { man_hour, exchange } => {
            &&& tells_of_success(man_hour@, "entry_id"@)
            &&& holds_accepted(exchange.stage)
        },
        SubmitStage::Report { man_hour, exchange, .. } => {
            &&& tells_of_success(man_hour@, "entry_id"@)
            &&& holds_accepted(exchange.stage)
        },
        SubmitStage::Finished(Ok(done)) => exists|man_hour: JsonView, daily: JsonView|
            done@ == #[trigger] submission_of(s.log, s.project_id as int, man_hour, daily)
                && tells_of_success(man_hour, "entry_id"@) && tells_of_success(daily, "daily_id"@),
        SubmitStage::Finished(Err(_)) => true,
    }
}

proof fn submission_step_holds_success(
    account: Account,
    before: SubmitTask,
    event: Event,
    today: Ymd,
    after: SubmitTask,
)
    requires
        submit_step(account, before, event, today, after),
        holds_success(before.submission, before.stage),
    ensures
        holds_success(after.submission, after.stage),
{
    let s = before.submission;
    match before.stage {
        SubmitStage::Hours { entry_id, exchange } => {
            let next = choose|next: Exchange| #[trigger]
                exchange_step(account, exchange, event, next) && submit_after_hours(
                    s,
                    today,
                    entry_id,
                    next,
                    after.stage,
                );
            request_holds_accepted(account, exchange, event, next);
            if let Stage::Finished(Ok(reply)) = next.stage {
                let told = outcome_of("entry_id"@, entry_number(entry_id), reply@);
                assert(tells_of_success(told, "entry_id"@));
            }
        },
        SubmitStage::Report { man_hour, daily_id, exchange } => {
            let next = choose|next: Exchange| #[trigger]
                exchange_step(account, exchange, event, next) && submit_after_report(
                    s,
                    man_hour,
                    daily_id,
                    next,
                    after.stage,
                );
            request_holds_accepted(account, exchange, event, next);
            if let Stage::Finished(Ok(reply)) = next.stage {
                let told = outcome_of("daily_id"@, daily_id@, reply@);
                assert(tells_of_success(told, "daily_id"@));
            }
        },
        _ => {},
    }
}

proof fn submission_holds_success(
    account: Account,
    states: Seq<SubmitTask>,
    events: Seq<Event>,
    days: Seq<Ymd>,
    n: int,
)
    requires
        submit_run(account, states, events, days),
        0 <= n <= events.len(),
    ensures
        holds_success(states[n].submission, states[n].stage),
        states[n].submission == states[0].submission,
    decreases n,
{
    if n > 0 {
        submission_holds_success(account, states, events, days, n - 1);
        assert(submit_step(account, states[n - 1], events[n - 1], days[n - 1], states[n]));
        submission_step_holds_success(
            account,
            states[n - 1],
            events[n - 1],
            days[n - 1],
            states[n],
        );
    }
}

/// What a submission that ends well tells of its log is that the server carried out both
/// requests, that for the hours and that for the report.
pub proof fn submission_tells_of_success(
    account: Account,
    states: Seq<SubmitTask>,
    events: Seq<Event>,
    days: Seq<Ymd>,
    done: Json,
)
    requires
        submit_run(account, states, events, days),
        states.last().stage == SubmitStage::Finished(Ok(done)),
    ensures
        exists|man_hour: JsonView, daily: JsonView|
            done@ == #[trigger] submission_of(
                states[0].submission.log,
                states[0].submission.project_id as int,
                man_hour,
                daily,
            ) && tells_of_success(man_hour, "entry_id"@) && tells_of_success(daily, "daily_id"@),
{
    submission_holds_success(account, states, events, days, events.len() as int);
}

/// Whether a request brings the hours of a log to the server, as a new entry or as a change: for
/// the day of the log, with the hours that it declares and its work record.
pub open spec fn books_log(request: RequestView, s: Submission) -> bool {
    &&& adds_hours(request.url) || edits_hours(request.url)
    &&& books(
        request.payload,
        s.log.target_date@,
        s.log.workhour@,
        s.project_id,
        s.log.work_record@,
        s.out_work@,
    )
}

/// Whether a request brings the report of a log to the server, for today or for yesterday.
pub open spec fn reports_log(request: RequestView, s: Submission) -> bool {
    &&& takes_reports(request.url)
    &&& reports(request.payload, s.log, "T"@) || reports(request.payload, s.log, "Y"@)
}

/// Whether a request was sent in a step of a submission and the server carried it out, with this
/// reply.
pub open spec fn replied_at(
    states: Seq<SubmitTask>,
    events: Seq<Event>,
    i: int,
    request: RequestView,
    reply: JsonView,
) -> bool {
    &&& 0 <= i < events.len()
    &&& states[i].pending() == ActionView::Post(request)
    &&& events[i] matches Event::Reply(r)
    &&& r@ == reply
    &&& is_accepted(reply)
}

/// Whether the hours of a log were entered in a step of its submission, and `told` holds the reply
/// of the server.
pub open spec fn hours_entered_at(
    states: Seq<SubmitTask>,
    events: Seq<Event>,
    i: int,
    told: JsonView,
) -> bool {
    exists|request: RequestView, reply: JsonView| #[trigger]
        replied_at(states, events, i, request, reply) && books_log(request, states[0].submission)
            && carries(told, "response"@, reply)
}

/// Whether the report of a log was entered in a step of its submission, and `told` holds the reply
/// of the server.
pub open spec fn report_entered_at(
    states: Seq<SubmitTask>,
    events: Seq<Event>,
    i: int,
    told: JsonView,
) -> bool {
    exists|request: RequestView, reply: JsonView| #[trigger]
        replied_at(states, events, i, request, reply) && reports_log(request, states[0].submission)
            && carries(told, "response"@, reply)
}

/// Whether the reply that a request of a submission holds, if it holds one, came for it.
spec fn kept(states: Seq<SubmitTask>, events: Seq<Event>, n: int, x: Exchange) -> bool {
    match x.stage {
        Stage::Keep { reply, .. } => exists|i: int| #[trigger]
            replied_at(states, events, i, x.request@, reply@) && i < n,
        Stage::Finished(_) => false,
        _ => true,
    }
}

/// Whether the log that a submission has come to an end with is told as it was entered.
spec fn told_as_entered(states: Seq<SubmitTask>, events: Seq<Event>, n: int, done: JsonView) -> bool {
    exists|i: int, j: int, man_hour: JsonView, daily: JsonView| #[trigger]
        hours_entered_at(states, events, i, man_hour) && #[trigger] report_entered_at(
            states,
            events,
            j,
            daily,
        ) && i < j < n && carries(done, "man_hour"@, man_hour) && carries(done, "daily"@, daily)
}

spec fn submission_holds(states: Seq<SubmitTask>, events: Seq<Event>, n: int) -> bool {
    let s = states[0].submission;
    &&& states[n].submission == s
    &&& match states[n].stage {
        SubmitStage::Session(_) => true,
        SubmitStage::Query(x) => tells_of_a_day(x.request@.url) && kept(states, events, n, x),
        SubmitStage::Hours { exchange, .. } => books_log(exchange.request@, s) && kept(
            states,
            events,
            n,
            exchange,
        ),
        SubmitStage::QueryAgain { man_hour, exchange } => {
            &&& tells_of_a_day(exchange.request@.url)
            &&& kept(states, events, n, exchange)
            &&& exists|i: int| #[trigger] hours_entered_at(states, events, i, man_hour@) && i < n
        },
        SubmitStage::Report { man_hour, exchange, .. } => {
            &&& reports_log(exchange.request@, s)
            &&& match exchange.stage {
                Stage::Keep { reply, .. } => exists|i: int, j: int| #[trigger]
                    hours_entered_at(states, events, i, man_hour@) && #[trigger] replied_at(
                        states,
                        events,
                        j,
                        exchange.request@,
                        reply@,
                    ) && i < j < n,
                Stage::Finished(_) => false,
                _ => exists|i: int| #[trigger]
                    hours_entered_at(states, events, i, man_hour@) && i < n,
            }
        },
        SubmitStage::Finished(Ok(done)) => told_as_entered(states, events, n, done@),
        SubmitStage::Finished(Err(_)) => true,
    }
}

/// A step of a request that holds no reply yet, or keeps the one that it holds.
proof fn request_keeps(
    account: Account,
    states: Seq<SubmitTask>,
    events: Seq<Event>,
    n: int,
    x: Exchange,
    next: Exchange,
)
    requires
        0 < n <= events.len(),
        kept(states, events, n - 1, x),
        states[n - 1].pending() == x.pending(),
        exchange_step(account, x, events[n - 1], next),
    ensures
        next.request == x.request,
        !(next.stage is Finished) ==> kept(states, events, n, next),
        next.stage matches Stage::Finished(Ok(reply)) ==> exists|i: int| #[trigger]
            replied_at(states, events, i, x.request@, reply@) && i < n,
{
    match x.stage {
        Stage::Ask { .. } => {
            if let Event::Reply(reply) = events[n - 1] {
                if is_accepted(reply@) {
                    assert(replied_at(states, events, n - 1, x.request@, reply@));
                }
            }
        },
        Stage::Keep { reply, .. } => {
            let i = choose|i: int| #[trigger]
                replied_at(states, events, i, x.request@, reply@) && i < n - 1;
            assert(replied_at(states, events, i, x.request@, reply@));
        },
        Stage::Login(login) => {
            let step = choose|step: LoginState| #[trigger]
                login_step(account, login, events[n - 1], step) && next.stage == stage_at(step);
        },
        Stage::Finished(_) => {},
    }
}

proof fn planned_hours_book_their_log(
    s: Submission,
    entries: Seq<JsonView>,
    plan: ManHourPlan,
)
    requires
        s.log.target_date@.valid(),
        hours_planned(s, entries, Ok(plan)),
    ensures
        books_log(plan.request@, s),
{
    let d = s.log.target_date@;
    let m = hours_of(s, d.year as i32, d.month as u32, d.day as u32);
    hours_go_to_the_entry_of_their_project(entries, s.log.target_date, m, Ok(plan), 0, 0);
}

#[verifier::rlimit(40)]
proof fn submission_goes_its_way(
    account: Account,
    states: Seq<SubmitTask>,
    events: Seq<Event>,
    days: Seq<Ymd>,
    n: int,
)
    requires
        submit_run(account, states, events, days),
        states[0].submission.log.target_date@.valid(),
        0 <= n <= events.len(),
    ensures
        submission_holds(states, events, n),
    decreases n,
{
    if n > 0 {
        submission_goes_its_way(account, states, events, days, n - 1);
        let before = states[n - 1];
        let event = events[n - 1];
        let today = days[n - 1];
        let after = states[n];
        let s = states[0].submission;
        assert(submit_step(account, before, event, today, after));
        match before.stage {
            SubmitStage::Session(session) => {},
            SubmitStage::Query(x) => {
                let next = choose|next: Exchange| #[trigger]
                    exchange_step(account, x, event, next) && submit_after_query(
                        s,
                        next,
                        after.stage,
                    );
                request_keeps(account, states, events, n, x, next);
                if let SubmitStage::Hours { entry_id, exchange } = after.stage {
                    if let Stage::Finished(Ok(reply)) = next.stage {
                        planned_hours_book_their_log(
                            s,
                            entries_of(reply@),
                            ManHourPlan { entry_id, request: exchange.request },
                        );
                    }
                }
            },
            SubmitStage::Hours { entry_id, exchange } => {
                let next = choose|next: Exchange| #[trigger]
                    exchange_step(account, exchange, event, next) && submit_after_hours(
                        s,
                        today,
                        entry_id,
                        next,
                        after.stage,
                    );
                request_keeps(account, states, events, n, exchange, next);
                if let Stage::Finished(Ok(reply)) = next.stage {
                    let i = choose|i: int| #[trigger]
                        replied_at(states, events, i, exchange.request@, reply@) && i < n;
                    let told = outcome_of("entry_id"@, entry_number(entry_id), reply@);
                    outcome_holds_the_reply("entry_id"@, entry_number(entry_id), reply@);
                    assert(replied_at(states, events, i, exchange.request@, reply@));
                    assert(hours_entered_at(states, events, i, told));
                }
            },
            SubmitStage::QueryAgain { man_hour, exchange } => {
                let next = choose|next: Exchange| #[trigger]
                    exchange_step(account, exchange, event, next) && submit_after_second_query(
                        s,
                        today,
                        man_hour,
                        next,
                        after.stage,
                    );
                request_keeps(account, states, events, n, exchange, next);
                let i = choose|i: int| #[trigger]
                    hours_entered_at(states, events, i, man_hour@) && i < n - 1;
                assert(hours_entered_at(states, events, i, man_hour@));
                if let Stage::Finished(Ok(reply)) = next.stage {
                    if let Some(token) = token_of(s.log.target_date@, today) {
                        report_carries_its_log(daily_of(reply@), s.log, token);
                    }
                }
            },
            SubmitStage::Report { man_hour, daily_id, exchange } => {
                let next = choose|next: Exchange| #[trigger]
                    exchange_step(account, exchange, event, next) && submit_after_report(
                        s,
                        man_hour,
                        daily_id,
                        next,
                        after.stage,
                    );
                match exchange.stage {
                    Stage::Keep { reply, .. } => {
                        let (i, j) = choose|i: int, j: int| #[trigger]
                            hours_entered_at(states, events, i, man_hour@)
                                && #[trigger] replied_at(
                                states,
                                events,
                                j,
                                exchange.request@,
                                reply@,
                            ) && i < j < n - 1;
                        assert(hours_entered_at(states, events, i, man_hour@));
                        assert(replied_at(states, events, j, exchange.request@, reply@));
                        if next.stage == Stage::Finished(Ok(reply)) {
                            let daily = outcome_of("daily_id"@, daily_id@, reply@);
                            outcome_holds_the_reply("daily_id"@, daily_id@, reply@);
                            assert(report_entered_at(states, events, j, daily));
                            submission_holds_both_outcomes(s.log, s.project_id, man_hour@, daily);
                        }
                    },
                    _ => {
                        let i = choose|i: int| #[trigger]
                            hours_entered_at(states, events, i, man_hour@) && i < n - 1;
                        assert(hours_entered_at(states, events, i, man_hour@));
                        if let Event::Reply(reply) = event {
                            if exchange.stage is Ask && is_accepted(reply@) {
                                assert(replied_at(
                                    states,
                                    events,
                                    n - 1,
                                    exchange.request@,
                                    reply@,
                                ));
                            }
                        }
                        if let Stage::Login(login) = exchange.stage {
                            let step = choose|step: LoginState| #[trigger]
                                login_step(account, login, event, step) && next.stage == stage_at(
                                    step,
                                );
                        }
                    },
                }
            },
            SubmitStage::Finished(Ok(done)) => {
                let (i, j, man_hour, daily) = choose|
                    i: int,
                    j: int,
                    man_hour: JsonView,
                    daily: JsonView,
                | #[trigger]
                    hours_entered_at(states, events, i, man_hour) && #[trigger] report_entered_at(
                        states,
                        events,
                        j,
                        daily,
                    ) && i < j < n - 1 && carries(done@, "man_hour"@, man_hour) && carries(
                        done@,
                        "daily"@,
                        daily,
                    );
                assert(hours_entered_at(states, events, i, man_hour));
                assert(report_entered_at(states, events, j, daily));
            },
            SubmitStage::Finished(Err(_)) => {},
        }
    }
}

/// Every request with hours that a submission sends, whether it is for a new entry or for a
/// change, is for the day of the log and carries the hours that the log declares, its work record
/// and the project. Every request with a report carries the sections of the log.
pub proof fn submission_sends_what_the_log_says(
    account: Account,
    states: Seq<SubmitTask>,
    events: Seq<Event>,
    days: Seq<Ymd>,
    n: int,
    request: RequestView,
)
    requires
        submit_run(account, states, events, days),
        states[0].submission.log.target_date@.valid(),
        0 <= n <= events.len(),
        states[n].pending() == ActionView::Post(request),
    ensures
        adds_hours(request.url) || edits_hours(request.url) ==> books_log(
            request,
            states[0].submission,
        ),
        takes_reports(request.url) ==> reports_log(request, states[0].submission),
{
    submission_goes_its_way(account, states, events, days, n);
    addresses_differ(request.url);
    submission_posts(states[n], request);
}

/// What a submission posts is its own request or the probe of a login.
proof fn submission_posts(task: SubmitTask, request: RequestView)
    requires
        task.pending() == ActionView::Post(request),
    ensures
        request.url == "https://weeksystem.linker.cc/api/Index/getProjectListByAdmin"@ || (
        match task.stage {
            SubmitStage::Query(x) => x.stage is Ask && x.request@ == request,
            SubmitStage::Hours { exchange, .. } => exchange.stage is Ask && exchange.request@
                == request,
            SubmitStage::QueryAgain { exchange, .. } => exchange.stage is Ask && exchange.request@
                == request,
            SubmitStage::Report { exchange, .. } => exchange.stage is Ask && exchange.request@
                == request,
            _ => false,
        }),
{
}

/// A submission ends well only where the server carried out the request with the hours of the log
/// and, after it, the request with its report; what is told at the end holds both replies.
pub proof fn submission_ends_well_only_where_both_were_entered(
    account: Account,
    states: Seq<SubmitTask>,
    events: Seq<Event>,
    days: Seq<Ymd>,
    done: Json,
)
    requires
        submit_run(account, states, events, days),
        states[0].submission.log.target_date@.valid(),
        states.last().stage == SubmitStage::Finished(Ok(done)),
    ensures
        exists|i: int, j: int, man_hour: JsonView, daily: JsonView| #[trigger]
            hours_entered_at(states, events, i, man_hour) && #[trigger] report_entered_at(
                states,
                events,
                j,
                daily,
            ) && i < j && carries(done@, "man_hour"@, man_hour) && carries(
                done@,
                "daily"@,
                daily,
            ),
{
    submission_goes_its_way(account, states, events, days, events.len() as int);
}

/// A submission one of whose requests is refused fails. A reply that refuses a request and asks
/// for no login ends it with what the reply says, and a failure outside ends it with its message.
pub proof fn refused_submission_fails(
    account: Account,
    before: SubmitTask,
    event: Event,
    today: Ymd,
    after: SubmitTask,
    request: RequestView,
)
    requires
        submit_step(account, before, event, today, after),
        before.pending() == ActionView::Post(request),
        request.url != "https://weeksystem.linker.cc/api/Index/getProjectListByAdmin"@,
    ensures
        event matches Event::Reply(reply) ==> !is_accepted(reply@) && !wants_login(reply@) ==> (
        after.stage matches SubmitStage::Finished(Err(Failure::Refused(t))) && t@ == refusal_text(
            reply@,
        )),
        event matches Event::Reply(reply) ==> is_accepted(reply@) ==> after.pending()
            == ActionView::SaveCookies,
        event matches Event::Failed(m) ==> m@ != "AUTH_REQUIRED"@ ==> after.stage
            == SubmitStage::Finished(Err(Failure::Outside(m))),
{
    submission_posts(before, request);
}

/// A submission asks the server only with a session, and where the session fails it fails with
/// it. The first question is for what the server has of the day of the log.
pub proof fn submission_begins_with_a_session(
    account: Account,
    before: SubmitTask,
    event: Event,
    today: Ymd,
    after: SubmitTask,
)
    requires
        submit_step(account, before, event, today, after),
        before.stage is Session,
        !(before.pending() is Nothing),
    ensures
        !(after.stage is Session) && !(after.stage is Finished) ==> {
            &&& makes_session(before.pending(), event)
            &&& asks_for_the_day(after.pending(), before.submission.log.target_date@, today)
        },
        after.stage matches SubmitStage::Finished(r) ==> r is Err,
        after.stage matches SubmitStage::Finished(Err(e)) ==> (event matches Event::Failed(m) ==> e
            == Failure::Outside(m)),
{
    let session = before.stage->Session_0;
    let next = choose|next: SessionState| #[trigger]
        session_step(account, session, event, next) && submit_after_session(
            before.submission,
            today,
            next,
            after.stage,
        );
    session_comes_from_cookies(account, session, event, next);
    if let SubmitStage::Query(x) = after.stage {
        query_carries_its_day(x.request@.payload->Object_0[0].1->Text_0);
    }
}

/// Whether an action asks the server for what it has of a day: of today under the name `T`, of
/// yesterday under the name `Y`.
pub open spec fn asks_for_the_day(action: ActionView, day: Ymd, today: Ymd) -> bool {
    &&& action matches ActionView::Post(request)
    &&& tells_of_a_day(request.url)
    &&& if day == today {
        carries(request.payload, "time"@, JsonView::Text("T"@))
    } else {
        day.number() + 1 == today.number() && carries(
            request.payload,
            "time"@,
            JsonView::Text("Y"@),
        )
    }
}

proof fn query_carries_its_day(token: Seq<char>)
    ensures
        tells_of_a_day(query_request(token).url),
        carries(query_request(token).payload, "time"@, JsonView::Text(token)),
{
    carries_at(query_request(token).payload->Object_0, 0);
}

/// Whether hours go to a place as the entries ask that the server has of the day: to a new entry
/// where none belongs to the project, and to the entry that alone belongs to it, by its number.
/// Where that has no number, or where several belong to the project, they go nowhere.
pub open spec fn follows_entries(entries: Seq<JsonView>, s: Submission, after: SubmitTask) -> bool {
    &&& (forall|k: int|
        0 <= k < entries.len() ==> !belongs_to(#[trigger] entries[k], s.project_id)) ==> (
    after.pending() matches ActionView::Post(request) && adds_hours(request.url))
    &&& forall|i: int|
        0 <= i < entries.len() && belongs_to(#[trigger] entries[i], s.project_id) && (forall|k: int|
            0 <= k < entries.len() && k != i ==> !belongs_to(#[trigger] entries[k], s.project_id))
            ==> match entries[i].field("id"@) {
            Some(v) => match v.integer() {
                Some(id) => {
                    &&& after.pending() matches ActionView::Post(request)
                    &&& edits_hours(request.url)
                    &&& carries(request.payload, "id"@, number_json(id))
                },
                None => after.stage matches SubmitStage::Finished(Err(e)) && e is EntryId,
            },
            None => after.stage matches SubmitStage::Finished(Err(e)) && e is EntryId,
        }
    &&& forall|i: int, j: int|
        0 <= i < j < entries.len() && belongs_to(#[trigger] entries[i], s.project_id) && belongs_to(
            #[trigger] entries[j],
            s.project_id,
        ) ==> (after.stage matches SubmitStage::Finished(Err(e)) && e is SeveralEntries)
}

/// When the server has told what it has of the day and the cookies are saved, the hours go where
/// the entries of the day ask.
#[verifier::rlimit(40)]
pub proof fn hours_follow_the_entries_of_the_day(
    account: Account,
    before: SubmitTask,
    reply: Json,
    retry: bool,
    today: Ymd,
    after: SubmitTask,
)
    requires
        submit_step(account, before, Event::Done, today, after),
        before.stage matches SubmitStage::Query(x) && x.stage == (Stage::Keep { reply, retry }),
    ensures
        reply@.field("data"@) matches Some(data) ==> (data.field("workhour"@) matches Some(
            JsonView::Array(entries),
        ) ==> follows_entries(entries, before.submission, after)),
        !(reply@.field("data"@) matches Some(_)) ==> (after.pending() matches ActionView::Post(
            request,
        ) && adds_hours(request.url)),
{
    let s = before.submission;
    let x = before.stage->Query_0;
    let next = choose|next: Exchange| #[trigger]
        exchange_step(account, x, Event::Done, next) && submit_after_query(s, next, after.stage);
    assert(next.stage == Stage::Finished(Ok(reply)));
    let entries = entries_of(reply@);
    let d = s.log.target_date@;
    let m = hours_of(s, d.year as i32, d.month as u32, d.day as u32);
    let r: Result<ManHourPlan, Failure> = match after.stage {
        SubmitStage::Hours { entry_id, exchange } => Ok(
            ManHourPlan { entry_id, request: exchange.request },
        ),
        SubmitStage::Finished(Err(e)) => Err(e),
        _ => Err(Failure::EntryId),
    };
    hours_go_to_the_entry_of_their_project(entries, s.log.target_date, m, r, 0, 0);
    assert forall|i: int, j: int|
        0 <= i < j < entries.len() && belongs_to(#[trigger] entries[i], s.project_id) && belongs_to(
            #[trigger] entries[j],
            s.project_id,
        ) implies (after.stage matches SubmitStage::Finished(Err(e)) && e is SeveralEntries) by {
        hours_go_to_the_entry_of_their_project(entries, s.log.target_date, m, r, i, j);
    }
    assert forall|i: int|
        0 <= i < entries.len() && belongs_to(#[trigger] entries[i], s.project_id) && (forall|k: int|
            0 <= k < entries.len() && k != i ==> !belongs_to(#[trigger] entries[k], s.project_id))
        implies match field_integer(entries[i], "id"@) {
        Some(id) => {
            &&& after.pending() matches ActionView::Post(request)
            &&& edits_hours(request.url)
            &&& carries(request.payload, "id"@, number_json(id))
        },
        None => after.stage matches SubmitStage::Finished(Err(e)) && e is EntryId,
    } by {
        hours_go_to_the_entry_of_their_project(entries, s.log.target_date, m, r, i, i);
    }
}

/// When the hours are entered and the cookies are saved, the server is asked once more for the
/// day of the log; a day that is neither today nor yesterday ends the submission.
pub proof fn hours_are_followed_by_a_second_question(
    account: Account,
    before: SubmitTask,
    reply: Json,
    retry: bool,
    today: Ymd,
    after: SubmitTask,
)
    requires
        submit_step(account, before, Event::Done, today, after),
        before.stage matches SubmitStage::Hours { exchange, .. } && exchange.stage == (
        Stage::Keep { reply, retry }),
    ensures
        ({
            let day = before.submission.log.target_date@;
            if day == today || day.number() + 1 == today.number() {
                asks_for_the_day(after.pending(), day, today)
            } else {
                after.stage matches SubmitStage::Finished(Err(e)) && e is TimeToken
            }
        }),
{
    query_carries_its_day("T"@);
    query_carries_its_day("Y"@);
}

/// When the server has told once more what it has of the day, the report goes to the report that
/// it has, by its number, and else is a new one. It is for today under the name `T`, for yesterday
/// under the name `Y`.
pub proof fn report_follows_that_of_the_day(
    account: Account,
    before: SubmitTask,
    reply: Json,
    retry: bool,
    today: Ymd,
    after: SubmitTask,
)
    requires
        submit_step(account, before, Event::Done, today, after),
        before.stage matches SubmitStage::QueryAgain { exchange, .. } && exchange.stage == (
        Stage::Keep { reply, retry }),
    ensures
        ({
            let s = before.submission;
            let day = s.log.target_date@;
            if day == today || day.number() + 1 == today.number() {
                &&& after.pending() matches ActionView::Post(request)
                &&& reports(
                    request.payload,
                    s.log,
                    if day == today {
                        "T"@
                    } else {
                        "Y"@
                    },
                )
                &&& match daily_of(reply@) {
                    Some(d) => match d.field("id"@) {
                        Some(id) => if id is Null {
                            request.url == "https://weeksystem.linker.cc/api/Index/addDaily"@
                        } else {
                            &&& request.url
                                == "https://weeksystem.linker.cc/api/Index/updateDaily"@
                            &&& carries(request.payload, "id"@, id)
                        },
                        None => request.url == "https://weeksystem.linker.cc/api/Index/addDaily"@,
                    },
                    None => request.url == "https://weeksystem.linker.cc/api/Index/addDaily"@,
                }
            } else {
                after.stage matches SubmitStage::Finished(Err(e)) && e is TimeToken
            }
        }),
{
    report_carries_its_log(daily_of(reply@), before.submission.log, "T"@);
    report_carries_its_log(daily_of(reply@), before.submission.log, "Y"@);
}

/// What is told of the hours that were entered: the number of the entry and that it was updated
/// where one was changed, and that it was created elsewhere, with the reply of the server.
pub proof fn hours_are_told_as_entered(
    account: Account,
    before: SubmitTask,
    entry_id: Option<i64>,
    reply: Json,
    retry: bool,
    today: Ymd,
    after: SubmitTask,
)
    requires
        submit_step(account, before, Event::Done, today, after),
        before.stage matches SubmitStage::Hours { entry_id: id, exchange } && id == entry_id
            && exchange.stage == (Stage::Keep { reply, retry }),
    ensures
        after.stage matches SubmitStage::QueryAgain { man_hour, .. } ==> {
            &&& carries(man_hour@, "response"@, reply@)
            &&& match entry_id {
                Some(id) => {
                    &&& carries(man_hour@, "mode"@, JsonView::Text("updated"@))
                    &&& carries(man_hour@, "entry_id"@, number_json(id as int))
                },
                None => {
                    &&& carries(man_hour@, "mode"@, JsonView::Text("created"@))
                    &&& carries(man_hour@, "entry_id"@, JsonView::Null)
                },
            }
        },
{
    outcome_holds_the_reply("entry_id"@, entry_number(entry_id), reply@);
}

/// The number of the entry that is changed, or of the report, is kept from the request to what is
/// told at the end.
#[verifier::rlimit(40)]
pub proof fn numbers_are_kept(
    account: Account,
    before: SubmitTask,
    event: Event,
    today: Ymd,
    after: SubmitTask,
)
    requires
        submit_step(account, before, event, today, after),
    ensures
        before.stage is Hours && after.stage is Hours ==> after.stage->entry_id
            == before.stage->entry_id,
        before.stage is Query && after.stage is Hours ==> match after.stage->entry_id {
            Some(id) => after.pending() matches ActionView::Post(request) && edits_hours(
                request.url,
            ) && carries(request.payload, "id"@, number_json(id as int)),
            None => after.pending() matches ActionView::Post(request) && adds_hours(request.url),
        },
        before.stage is QueryAgain && after.stage is Report ==> {
            &&& after.stage->Report_man_hour == before.stage->QueryAgain_man_hour
            &&& after.pending() matches ActionView::Post(request)
            &&& if after.stage->daily_id@ is Null {
                request.url == "https://weeksystem.linker.cc/api/Index/addDaily"@
            } else {
                &&& request.url == "https://weeksystem.linker.cc/api/Index/updateDaily"@
                &&& carries(request.payload, "id"@, after.stage->daily_id@)
            }
        },
        before.stage is QueryAgain && after.stage is QueryAgain
            ==> after.stage->QueryAgain_man_hour == before.stage->QueryAgain_man_hour,
        before.stage is Report && after.stage is Report ==> after.stage->Report_man_hour
            == before.stage->Report_man_hour && after.stage->daily_id == before.stage->daily_id,
{
    match before.stage {
        SubmitStage::Query(x) => {
            let next = choose|next: Exchange| #[trigger]
                exchange_step(account, x, event, next) && submit_after_query(
                    before.submission,
                    next,
                    after.stage,
                );
            if let SubmitStage::Hours { entry_id, exchange } = after.stage {
                let s = before.submission;
                let d = s.log.target_date@;
                let m = hours_of(s, d.year as i32, d.month as u32, d.day as u32);
                match entry_id {
                    Some(id) => {
                        fields_book_their_entry(m, id as int);
                    },
                    None => {},
                }
            }
        },
        SubmitStage::QueryAgain { man_hour, exchange } => {
            let next = choose|next: Exchange| #[trigger]
                exchange_step(account, exchange, event, next) && submit_after_second_query(
                    before.submission,
                    today,
                    man_hour,
                    next,
                    after.stage,
                );
            if let Stage::Finished(Ok(reply)) = next.stage {
                if let Some(token) = token_of(before.submission.log.target_date@, today) {
                    report_carries_its_log(daily_of(reply@), before.submission.log, token);
                }
            }
        },
        _ => {},
    }
}

/// What is told of a log at the end: its day, its file, its project and its hours, what was told
/// of the hours, and of the report its number and that it was updated where it has one, or that it
/// was created, with the reply of the server.
pub proof fn log_is_told_as_submitted(
    account: Account,
    before: SubmitTask,
    man_hour: Json,
    daily_id: Json,
    reply: Json,
    retry: bool,
    today: Ymd,
    after: SubmitTask,
)
    requires
        submit_step(account, before, Event::Done, today, after),
        before.stage matches SubmitStage::Report { man_hour: m, daily_id: id, exchange } && m
            == man_hour && id == daily_id && exchange.stage == (Stage::Keep { reply, retry }),
    ensures
        after.stage matches SubmitStage::Finished(Ok(done)) && {
            let log = before.submission.log;
            &&& carries(done@, "ok"@, JsonView::Bool(true))
            &&& carries(done@, "date"@, JsonView::Text(day_text(log.target_date@)))
            &&& carries(done@, "log_path"@, JsonView::Text(log.log_path@))
            &&& carries(done@, "project_id"@, number_json(before.submission.project_id as int))
            &&& carries(done@, "workhour"@, JsonView::Decimal(log.workhour@))
            &&& carries(done@, "man_hour"@, man_hour@)
            &&& exists|daily: JsonView| #[trigger]
                carries(done@, "daily"@, daily) && carries(daily, "response"@, reply@) && carries(
                    daily,
                    "daily_id"@,
                    daily_id@,
                ) && carries(
                    daily,
                    "mode"@,
                    JsonView::Text(
                        if daily_id@ is Null {
                            "created"@
                        } else {
                            "updated"@
                        },
                    ),
                )
        },
{
    let s = before.submission;
    let daily = outcome_of("daily_id"@, daily_id@, reply@);
    outcome_holds_the_reply("daily_id"@, daily_id@, reply@);
    submission_holds_both_outcomes(s.log, s.project_id, man_hour@, daily);
    if let SubmitStage::Finished(Ok(done)) = after.stage {
        assert(carries(done@, "daily"@, daily));
    }
}

/// A task waits for what it asked for. It leaves its session only when that has come to an end, and
/// a stage with a request only when the request was carried out and the cookies are saved, or with
/// an error; until then it takes the steps of its session or of its request.
#[verifier::rlimit(40)]
pub proof fn tasks_wait_for_what_they_asked(
    account: Account,
    event: Event,
    day: Ymd,
    submit: SubmitTask,
    next_submit: SubmitTask,
    missing: MissingTask,
    next_missing: MissingTask,
)
    requires
        submit_step(account, submit, event, day, next_submit),
        missing_step(account, missing, event, day, next_missing),
    ensures
        submit.stage matches SubmitStage::Session(s) ==> (
        next_submit.stage matches SubmitStage::Session(t) ==> session_step(account, s, event, t)),
        request_of(submit.stage) matches Some(x) ==> progress(next_submit.stage) == progress(
            submit.stage,
        ) ==> (request_of(next_submit.stage) matches Some(y) && exchange_step(
            account,
            x,
            event,
            y,
        )),
        request_of(submit.stage) matches Some(x) ==> progress(next_submit.stage) != progress(
            submit.stage,
        ) && request_of(next_submit.stage) is Some && !(x.stage is Finished) ==> x.stage is Keep
            && event is Done,
        missing.stage matches MissingStage::Session(s) ==> (
        next_missing.stage matches MissingStage::Session(t) ==> session_step(account, s, event, t)),
        missing.stage matches MissingStage::Ask(x) ==> match next_missing.stage {
            MissingStage::Ask(y) => exchange_step(account, x, event, y),
            MissingStage::Holidays { .. } => !(x.stage is Finished) ==> x.stage is Keep
                && event is Done,
            MissingStage::Finished(r) => r is Err,
            MissingStage::Session(_) => false,
        },
{
    if let Some(x) = request_of(submit.stage) {
        let next = choose|next: Exchange| #[trigger]
            exchange_step(account, x, event, next) && match submit.stage {
                SubmitStage::Query(_) => submit_after_query(
                    submit.submission,
                    next,
                    next_submit.stage,
                ),
                SubmitStage::Hours { entry_id, .. } => submit_after_hours(
                    submit.submission,
                    day,
                    entry_id,
                    next,
                    next_submit.stage,
                ),
                SubmitStage::QueryAgain { man_hour, .. } => submit_after_second_query(
                    submit.submission,
                    day,
                    man_hour,
                    next,
                    next_submit.stage,
                ),
                SubmitStage::Report { man_hour, daily_id, .. } => submit_after_report(
                    submit.submission,
                    man_hour,
                    daily_id,
                    next,
                    next_submit.stage,
                ),
                _ => false,
            };
        if !(x.stage is Finished) {
            request_saves_before_it_ends(account, x, event, next);
            if let Stage::Login(login) = x.stage {
                let step = choose|step: LoginState| #[trigger]
                    login_step(account, login, event, step) && next.stage == stage_at(step);
            }
        }
    }
    if let MissingStage::Ask(x) = missing.stage {
        let next = choose|next: Exchange| #[trigger]
            exchange_step(account, x, event, next) && missing_after_reply(
                day,
                next,
                next_missing.stage,
            );
        if !(x.stage is Finished) {
            request_saves_before_it_ends(account, x, event, next);
            if let Stage::Login(login) = x.stage {
                let step = choose|step: LoginState| #[trigger]
                    login_step(account, login, event, step) && next.stage == stage_at(step);
            }
        }
    }
}

/// Every request of a task may be followed by a login once: it begins as one that was not sent.
pub proof fn requests_may_log_in_once(
    account: Account,
    event: Event,
    day: Ymd,
    entry: EntryTask,
    next_entry: EntryTask,
    submit: SubmitTask,
    next_submit: SubmitTask,
    missing: MissingTask,
    next_missing: MissingTask,
)
    requires
        entry_step(account, entry, event, next_entry),
        submit_step(account, submit, event, day, next_submit),
        missing_step(account, missing, event, day, next_missing),
    ensures
        entry.stage is Session && next_entry.stage is Send ==> next_entry.stage->Send_0.stage == (
        Stage::Ask { retry: true }),
        progress(submit.stage) != progress(next_submit.stage) ==> (request_of(
            next_submit.stage,
        ) matches Some(x) ==> x.stage == (Stage::Ask { retry: true })),
        missing.stage is Session && next_missing.stage is Ask ==> next_missing.stage->Ask_0.stage
            == (Stage::Ask { retry: true }),
{
}

/// The request that a submission waits for, if it waits for one.
pub open spec fn request_of(stage: SubmitStage) -> Option<Exchange> {
    match stage {
        SubmitStage::Query(x) => Some(x),
        SubmitStage::Hours { exchange, .. } => Some(exchange),
        SubmitStage::QueryAgain { exchange, .. } => Some(exchange),
        SubmitStage::Report { exchange, .. } => Some(exchange),
        _ => None,
    }
}

/// A submission hands failures on: where its session fails or one of its requests fails, it ends
/// with the same failure. Of itself it fails only where the day is neither today nor yesterday,
/// or where the entries of the day leave open which of them is meant.
#[verifier::rlimit(40)]
pub proof fn submission_hands_failures_on(
    account: Account,
    before: SubmitTask,
    event: Event,
    today: Ymd,
    after: SubmitTask,
    e: Failure,
)
    requires
        submit_step(account, before, event, today, after),
    ensures
        after.submission == before.submission,
        before.stage matches SubmitStage::Session(s) ==> (after.stage == SubmitStage::Finished(
            Err(e),
        ) ==> e is TimeToken || session_step(account, s, event, SessionState::Finished(Err(e)))),
        request_of(before.stage) matches Some(x) ==> (after.stage == SubmitStage::Finished(Err(e))
            ==> e is TimeToken || e is EntryId || e is SeveralEntries || exchange_step(
            account,
            x,
            event,
            Exchange { request: x.request, stage: Stage::Finished(Err(e)) },
        )),
        request_of(before.stage) matches Some(x) ==> exchange_step(
            account,
            x,
            event,
            Exchange { request: x.request, stage: Stage::Finished(Err(e)) },
        ) && x.stage is Keep ==> after.stage == SubmitStage::Finished(Err(e)),
        before.stage is Finished ==> after.stage == before.stage,
{
    match before.stage {
        SubmitStage::Session(session) => {
            let next = choose|next: SessionState| #[trigger]
                session_step(account, session, event, next) && submit_after_session(
                    before.submission,
                    today,
                    next,
                    after.stage,
                );
        },
        SubmitStage::Query(x) => {
            let next = choose|next: Exchange| #[trigger]
                exchange_step(account, x, event, next) && submit_after_query(
                    before.submission,
                    next,
                    after.stage,
                );
            if let Stage::Finished(r) = next.stage {
                assert(next == Exchange { request: x.request, stage: Stage::Finished(r) });
            }
        },
        SubmitStage::Hours { entry_id, exchange } => {
            let next = choose|next: Exchange| #[trigger]
                exchange_step(account, exchange, event, next) && submit_after_hours(
                    before.submission,
                    today,
                    entry_id,
                    next,
                    after.stage,
                );
            if let Stage::Finished(r) = next.stage {
                assert(next == Exchange { request: exchange.request, stage: Stage::Finished(r) });
            }
        },
        SubmitStage::QueryAgain { man_hour, exchange } => {
            let next = choose|next: Exchange| #[trigger]
                exchange_step(account, exchange, event, next) && submit_after_second_query(
                    before.submission,
                    today,
                    man_hour,
                    next,
                    after.stage,
                );
            if let Stage::Finished(r) = next.stage {
                assert(next == Exchange { request: exchange.request, stage: Stage::Finished(r) });
            }
        },
        SubmitStage::Report { man_hour, daily_id, exchange } => {
            let next = choose|next: Exchange| #[trigger]
                exchange_step(account, exchange, event, next) && submit_after_report(
                    before.submission,
                    man_hour,
                    daily_id,
                    next,
                    after.stage,
                );
            if let Stage::Finished(r) = next.stage {
                assert(next == Exchange { request: exchange.request, stage: Stage::Finished(r) });
            }
        },
        SubmitStage::Finished(_) => {},
    }
}

/// How many actions a submission takes at most before it ends.
pub open spec fn submit_actions_left(stage: SubmitStage) -> nat {
    match stage {
        SubmitStage::Session(s) => session_actions_left(s) + 52,
        SubmitStage::Query(x) => actions_left(x.stage) + 39,
        SubmitStage::Hours { exchange, .. } => actions_left(exchange.stage) + 26,
        SubmitStage::QueryAgain { exchange, .. } => actions_left(exchange.stage) + 13,
        SubmitStage::Report { exchange, .. } => actions_left(exchange.stage),
        SubmitStage::Finished(_) => 0,
    }
}

/// Every answered action brings a submission nearer to its end.
pub proof fn submission_comes_to_an_end(
    account: Account,
    before: SubmitTask,
    event: Event,
    today: Ymd,
    after: SubmitTask,
)
    requires
        submit_step(account, before, event, today, after),
        before.pending().answered_by(event),
    ensures
        submit_actions_left(after.stage) < submit_actions_left(before.stage),
{
    let s = before.submission;
    match before.stage {
        SubmitStage::Session(session) => {
            let next = choose|next: SessionState| #[trigger]
                session_step(account, session, event, next) && submit_after_session(
                    s,
                    today,
                    next,
                    after.stage,
                );
            session_comes_to_an_end(account, session, event, next);
        },
        SubmitStage::Query(x) => {
            let next = choose|next: Exchange| #[trigger]
                exchange_step(account, x, event, next) && submit_after_query(s, next, after.stage);
            request_comes_to_an_end(account, x, event, next);
        },
        SubmitStage::Hours { entry_id, exchange } => {
            let next = choose|next: Exchange| #[trigger]
                exchange_step(account, exchange, event, next) && submit_after_hours(
                    s,
                    today,
                    entry_id,
                    next,
                    after.stage,
                );
            request_comes_to_an_end(account, exchange, event, next);
        },
        SubmitStage::QueryAgain { man_hour, exchange } => {
            let next = choose|next: Exchange| #[trigger]
                exchange_step(account, exchange, event, next) && submit_after_second_query(
                    s,
                    today,
                    man_hour,
                    next,
                    after.stage,
                );
            request_comes_to_an_end(account, exchange, event, next);
        },
        SubmitStage::Report { man_hour, daily_id, exchange } => {
            let next = choose|next: Exchange| #[trigger]
                exchange_step(account, exchange, event, next) && submit_after_report(
                    s,
                    man_hour,
                    daily_id,
                    next,
                    after.stage,
                );
            request_comes_to_an_end(account, exchange, event, next);
        },
        SubmitStage::Finished(_) => {},
    }
}

// ---------------------------------------------------------------------------
// Finding the reports that are missing
// ---------------------------------------------------------------------------
/// How far the search for missing reports has come.
pub enum MissingStage {
    /// A session is wanted.
    Session(SessionState),
    /// The server is asked for the reports of the month.
    Ask(Exchange),
    /// The holidays of the year are wanted.
    Holidays { reported_days: Vec<u32>, raw_nowrite_days: Vec<u32>, today: Date },
    /// The end.
    Finished(Result<MissingDailyResult, Failure>),
}

/// A search for missing reports on its way.
pub struct MissingTask {
    pub year: i32,
    pub month: u32,
    pub stage: MissingStage,
}

/// The request for the reports of a month.
pub open spec fn month_request(year: i32, month: u32) -> RequestView {
    RequestView {
        url: DAILY_REPORT_API_URL@,
        payload: JsonView::Object(
            seq![
                ("year"@, JsonView::of_integer(year as int)),
                ("month"@, JsonView::of_integer(month as int)),
            ],
        ),
    }
}

/// Whether the search goes on like this when its session has come to a state.
pub open spec fn missing_after_session(
    year: i32,
    month: u32,
    session: SessionState,
    after: MissingStage,
) -> bool {
    match session {
        SessionState::Finished(Ok(_)) => after matches MissingStage::Ask(x) && x.asks(
            month_request(year, month),
        ),
        SessionState::Finished(Err(e)) => after == MissingStage::Finished(Err(e)),
        _ => after == MissingStage::Session(session),
    }
}

/// Whether the search goes on like this when its request has come to a state.
pub open spec fn missing_after_reply(now: Ymd, exchange: Exchange, after: MissingStage) -> bool {
    match exchange.stage {
        Stage::Finished(Ok(reply)) => match after {
            MissingStage::Holidays { reported_days, raw_nowrite_days, today } => {
                &&& month_read(reply@, Ok((reported_days, raw_nowrite_days)))
                &&& today@ == now
            },
            MissingStage::Finished(Err(e)) => month_read(reply@, Err(e)),
            _ => false,
        },
        Stage::Finished(Err(e)) => after == MissingStage::Finished(Err(e)),
        _ => after == MissingStage::Ask(exchange),
    }
}

/// Whether `r` is what a search finds when the days without a report are held against a calendar.
pub open spec fn month_sorted(
    task: MissingTask,
    calendar: HolidayCalendar,
    r: MissingDailyResult,
) -> bool {
    &&& task.stage matches MissingStage::Holidays { reported_days, raw_nowrite_days, today }
    &&& r.ok
    &&& r.year == task.year
    &&& r.month == task.month
    &&& r.reported_days == reported_days
    &&& r.raw_nowrite_days == raw_nowrite_days
    &&& r.sorted_by(today@, calendar)
}

/// Whether the search ends like this when none of its days needs the calendar: as with any.
pub open spec fn found_without_calendar(task: MissingTask, after: MissingStage) -> bool {
    &&& after matches MissingStage::Finished(Ok(r))
    &&& forall|calendar: HolidayCalendar| #[trigger] month_sorted(task, calendar, r)
}

/// Whether the search ends like this when the holidays are known.
pub open spec fn missing_found(
    task: MissingTask,
    config: HolidayConfig,
    after: MissingStage,
) -> bool {
    if task.needs_calendar() {
        match after {
            MissingStage::Finished(Ok(r)) => exists|calendar: HolidayCalendar| #[trigger]
                calendar_read(config, Ok(calendar)) && month_sorted(task, calendar, r),
            MissingStage::Finished(Err(e)) => calendar_read(config, Err(e)),
            _ => false,
        }
    } else {
        found_without_calendar(task, after)
    }
}

/// Whether an event, on a day, leads the search from one state to another.
pub open spec fn missing_step(
    account: Account,
    before: MissingTask,
    event: Event,
    now: Ymd,
    after: MissingTask,
) -> bool {
    &&& after.year == before.year
    &&& after.month == before.month
    &&& match before.stage {
        MissingStage::Session(session) => exists|next: SessionState| #[trigger]
            session_step(account, session, event, next) && missing_after_session(
                before.year,
                before.month,
                next,
                after.stage,
            ),
        MissingStage::Ask(x) => exists|next: Exchange| #[trigger]
            exchange_step(account, x, event, next) && missing_after_reply(now, next, after.stage),
        MissingStage::Holidays { .. } => match event {
            Event::Holidays(config) => missing_found(before, config, after.stage),
            Event::Unreadable(m) => if before.needs_calendar() {
                after.stage == MissingStage::Finished(Err(Failure::Outside(m)))
            } else {
                found_without_calendar(before, after.stage)
            },
            Event::Failed(m) => after.stage == MissingStage::Finished(Err(Failure::Outside(m))),
            _ => after.stage == before.stage,
        },
        MissingStage::Finished(_) => after.stage == before.stage,
    }
}

/// Sorts the days without a report where none of them needs the calendar.
fn sort_without_calendar(
    year: i32,
    month: u32,
    reported_days: Vec<u32>,
    raw_nowrite_days: Vec<u32>,
    today: Date,
) -> (r: MissingStage)
    requires
        !needs_calendar(raw_nowrite_days@, year as int, month as int, today@),
    ensures
        found_without_calendar(
            (MissingTask {
                year,
                month,
                stage: MissingStage::Holidays { reported_days, raw_nowrite_days, today },
            }),
            r,
        ),
{
    let empty = HolidayCalendar { holidays: Vec::new(), makeup_workdays: Vec::new() };
    let found = sort_missing_days(year, month, reported_days, raw_nowrite_days, today, &empty);
    proof {
        let task = MissingTask {
            year,
            month,
            stage: MissingStage::Holidays { reported_days, raw_nowrite_days, today },
        };
        assert forall|calendar: HolidayCalendar| #[trigger] month_sorted(task, calendar, found) by {
            calendar_is_needed_for_other_days(found, today@, empty, calendar);
        }
    }
    MissingStage::Finished(Ok(found))
}

impl MissingTask {
    /// Whether one of the days without a report has to be held against the calendar.
    pub open spec fn needs_calendar(self) -> bool {
        &&& self.stage matches MissingStage::Holidays { raw_nowrite_days, today, .. }
        &&& needs_calendar(raw_nowrite_days@, self.year as int, self.month as int, today@)
    }

    /// What is done next.
    pub open spec fn pending(self) -> ActionView {
        match self.stage {
            MissingStage::Session(s) => s.pending(),
            MissingStage::Ask(x) => x.pending(),
            MissingStage::Holidays { .. } => ActionView::LoadHolidays(self.year),
            MissingStage::Finished(_) => ActionView::Nothing,
        }
    }

    /// A search for the missing reports of a month.
    pub fn new(year: i32, month: u32) -> (r: Result<MissingTask, Failure>)
        ensures
            match r {
                Ok(task) => {
                    &&& 2000 <= year <= 2100
                    &&& 1 <= month <= 12
                    &&& task.year == year
                    &&& task.month == month
                    &&& task.stage == MissingStage::Session(SessionState::Check)
                },
                Err(e) => if 2000 <= year <= 2100 {
                    !(1 <= month <= 12) && e is MonthRange
                } else {
                    e is YearRange
                },
            },
    {
        match validate_year_month(year, month) {
            Ok(_) => Ok(
                MissingTask { year, month, stage: MissingStage::Session(SessionState::Check) },
            ),
            Err(e) => Err(e),
        }
    }

    /// Gives what is done next.
    pub fn action(&self) -> (r: Action)
        ensures
            r@ == self.pending(),
    {
        match &self.stage {
            MissingStage::Session(s) => s.action(),
            MissingStage::Ask(x) => x.action(),
            MissingStage::Holidays { .. } => Action::LoadHolidays(self.year),
            MissingStage::Finished(_) => Action::Nothing,
        }
    }

    /// Goes one step further.
    pub fn advance(self, account: &Account, event: Event, now: Date) -> (r: MissingTask)
        ensures
            missing_step(*account, self, event, now@, r),
    {
        let year = self.year;
        let month = self.month;
        let stage = match self.stage {
            MissingStage::Session(session) => {
                let next = session.advance(account, event);
                assert(session_step(*account, session, event, next));
                match next {
                    SessionState::Finished(Ok(_)) => {
                        let payload = month_payload(year, month);
                        MissingStage::Ask(
                            Exchange::new(Request { url: DAILY_REPORT_API_URL, payload }),
                        )
                    },
                    SessionState::Finished(Err(e)) => MissingStage::Finished(Err(e)),
                    other => MissingStage::Session(other),
                }
            },
            MissingStage::Ask(x) => {
                let next = x.advance(account, event);
                assert(exchange_step(*account, x, event, next));
                match next.stage {
                    Stage::Finished(Ok(reply)) => match read_month(&reply) {
                        Ok((reported_days, raw_nowrite_days)) => MissingStage::Holidays {
                            reported_days,
                            raw_nowrite_days,
                            today: now,
                        },
                        Err(e) => MissingStage::Finished(Err(e)),
                    },
                    Stage::Finished(Err(e)) => MissingStage::Finished(Err(e)),
                    stage => MissingStage::Ask(Exchange { request: next.request, stage }),
                }
            },
            MissingStage::Holidays { reported_days, raw_nowrite_days, today } => {
                let needed = wants_calendar(&raw_nowrite_days, year, month, today);
                match event {
                    Event::Holidays(config) => if needed {
                        match holiday_calendar(&config) {
                            Ok(calendar) => {
                                assert(calendar_read(config, Ok(calendar)));
                                let found = sort_missing_days(
                                    year,
                                    month,
                                    reported_days,
                                    raw_nowrite_days,
                                    today,
                                    &calendar,
                                );
                                assert(month_sorted(self, calendar, found));
                                MissingStage::Finished(Ok(found))
                            },
                            Err(e) => MissingStage::Finished(Err(e)),
                        }
                    } else {
                        sort_without_calendar(
                            year,
                            month,
                            reported_days,
                            raw_nowrite_days,
                            today,
                        )
                    },
                    Event::Unreadable(m) => if needed {
                        MissingStage::Finished(Err(Failure::Outside(m)))
                    } else {
                        sort_without_calendar(
                            year,
                            month,
                            reported_days,
                            raw_nowrite_days,
                            today,
                        )
                    },
                    Event::Failed(m) => MissingStage::Finished(Err(Failure::Outside(m))),
                    _ => MissingStage::Holidays { reported_days, raw_nowrite_days, today },
                }
            },
            MissingStage::Finished(r) => MissingStage::Finished(r),
        };
        MissingTask { year, month, stage }
    }
}

/// A search for missing reports ends well only when the file with the holidays of the year is
/// there, and where a day has to be held against the calendar only when the holidays are known.
pub proof fn search_needs_holidays(
    account: Account,
    before: MissingTask,
    event: Event,
    now: Ymd,
    after: MissingTask,
)
    requires
        missing_step(account, before, event, now, after),
        !(before.stage is Finished),
        after.stage matches MissingStage::Finished(Ok(_)),
    ensures
        before.stage is Holidays,
        before.pending() == ActionView::LoadHolidays(before.year),
        event is Holidays || event is Unreadable,
        before.needs_calendar() ==> event is Holidays,
{
}

/// Whether a search for missing reports passes through states, from its start, as events come in.
pub open spec fn missing_run(
    account: Account,
    states: Seq<MissingTask>,
    events: Seq<Event>,
    days: Seq<Ymd>,
) -> bool {
    &&& states.len() == events.len() + 1
    &&& days.len() == events.len()
    &&& states[0].stage == MissingStage::Session(SessionState::Check)
    &&& forall|i: int|
        0 <= i < events.len() ==> missing_step(
            account,
            #[trigger] states[i],
            events[i],
            days[i],
            states[i + 1],
        )
}

/// Whether a request asks the server for the reports of a month.
pub open spec fn asks_for_month(request: RequestView, year: i32, month: u32) -> bool {
    &&& tells_of_a_month(request.url)
    &&& carries(request.payload, "year"@, number_json(year as int))
    &&& carries(request.payload, "month"@, number_json(month as int))
}

/// Whether the server told of the reports of the month in a step of a search, with this reply.
pub open spec fn month_told_at(
    states: Seq<MissingTask>,
    events: Seq<Event>,
    i: int,
    reply: JsonView,
) -> bool {
    &&& 0 <= i < events.len()
    &&& states[i].pending() matches ActionView::Post(request)
    &&& asks_for_month(request, states[0].year, states[0].month)
    &&& events[i] matches Event::Reply(r)
    &&& r@ == reply
    &&& is_accepted(reply)
}

/// Whether the days that a search holds are those that the server told of.
spec fn days_were_told(
    states: Seq<MissingTask>,
    events: Seq<Event>,
    n: int,
    reported_days: Vec<u32>,
    raw_nowrite_days: Vec<u32>,
) -> bool {
    exists|i: int, reply: JsonView| #[trigger]
        month_told_at(states, events, i, reply) && i < n && month_read(
            reply,
            Ok((reported_days, raw_nowrite_days)),
        )
}

spec fn search_holds(states: Seq<MissingTask>, events: Seq<Event>, n: int) -> bool {
    &&& states[n].year == states[0].year
    &&& states[n].month == states[0].month
    &&& match states[n].stage {
        MissingStage::Session(_) => true,
        MissingStage::Ask(x) => {
            &&& asks_for_month(x.request@, states[0].year, states[0].month)
            &&& match x.stage {
                Stage::Keep { reply, .. } => exists|i: int| #[trigger]
                    month_told_at(states, events, i, reply@) && i < n,
                Stage::Finished(_) => false,
                _ => true,
            }
        },
        MissingStage::Holidays { reported_days, raw_nowrite_days, .. } => days_were_told(
            states,
            events,
            n,
            reported_days,
            raw_nowrite_days,
        ),
        MissingStage::Finished(Ok(r)) => {
            &&& r.year == states[0].year
            &&& r.month == states[0].month
            &&& days_were_told(states, events, n, r.reported_days, r.raw_nowrite_days)
        },
        MissingStage::Finished(Err(_)) => true,
    }
}

proof fn months_are_asked_for(year: i32, month: u32)
    ensures
        asks_for_month(month_request(year, month), year, month),
{
    reveal_strlit("year");
    reveal_strlit("month");
    assert("year"@.len() == 4 && "month"@.len() == 5);
    let fields = month_request(year, month).payload->Object_0;
    assert(fields.len() == 2);
    carries_at(fields, 0);
    carries_at(fields, 1);
}

proof fn days_stay_told(
    states: Seq<MissingTask>,
    events: Seq<Event>,
    n: int,
    reported_days: Vec<u32>,
    raw_nowrite_days: Vec<u32>,
)
    requires
        days_were_told(states, events, n - 1, reported_days, raw_nowrite_days),
    ensures
        days_were_told(states, events, n, reported_days, raw_nowrite_days),
{
    let (i, reply) = choose|i: int, reply: JsonView| #[trigger]
        month_told_at(states, events, i, reply) && i < n - 1 && month_read(
            reply,
            Ok((reported_days, raw_nowrite_days)),
        );
    assert(month_told_at(states, events, i, reply));
}

#[verifier::rlimit(40)]
proof fn search_goes_its_way(
    account: Account,
    states: Seq<MissingTask>,
    events: Seq<Event>,
    days: Seq<Ymd>,
    n: int,
)
    requires
        missing_run(account, states, events, days),
        0 <= n <= events.len(),
    ensures
        search_holds(states, events, n),
    decreases n,
{
    if n > 0 {
        search_goes_its_way(account, states, events, days, n - 1);
        let before = states[n - 1];
        let event = events[n - 1];
        let after = states[n];
        assert(missing_step(account, before, event, days[n - 1], after));
        match before.stage {
            MissingStage::Session(_) => {
                months_are_asked_for(before.year, before.month);
            },
            MissingStage::Ask(x) => {
                let next = choose|next: Exchange| #[trigger]
                    exchange_step(account, x, event, next) && missing_after_reply(
                        days[n - 1],
                        next,
                        after.stage,
                    );
                match x.stage {
                    Stage::Ask { .. } => {
                        if let Event::Reply(reply) = event {
                            if is_accepted(reply@) {
                                assert(month_told_at(states, events, n - 1, reply@));
                            }
                        }
                    },
                    Stage::Keep { reply, .. } => {
                        let i = choose|i: int| #[trigger]
                            month_told_at(states, events, i, reply@) && i < n - 1;
                        assert(month_told_at(states, events, i, reply@));
                    },
                    Stage::Login(login) => {
                        let step = choose|step: LoginState| #[trigger]
                            login_step(account, login, event, step) && next.stage == stage_at(step);
                    },
                    Stage::Finished(_) => {},
                }
            },
            MissingStage::Holidays { reported_days, raw_nowrite_days, today } => {
                days_stay_told(states, events, n, reported_days, raw_nowrite_days);
                if let MissingStage::Finished(Ok(r)) = after.stage {
                    let empty: HolidayCalendar = choose|c: HolidayCalendar|
                        month_sorted(before, c, r);
                    if !before.needs_calendar() {
                        assert(month_sorted(before, empty, r));
                    }
                }
            },
            MissingStage::Finished(Ok(r)) => {
                days_stay_told(states, events, n, r.reported_days, r.raw_nowrite_days);
            },
            MissingStage::Finished(Err(_)) => {},
        }
    }
}

/// A search that ends well speaks of the month that it was asked for, and of the days that the
/// server told of when it was asked for this month and carried the request out.
pub proof fn search_speaks_of_what_the_server_told(
    account: Account,
    states: Seq<MissingTask>,
    events: Seq<Event>,
    days: Seq<Ymd>,
    r: MissingDailyResult,
)
    requires
        missing_run(account, states, events, days),
        states.last().stage == MissingStage::Finished(Ok(r)),
    ensures
        r.year == states[0].year,
        r.month == states[0].month,
        exists|i: int, reply: JsonView| #[trigger]
            month_told_at(states, events, i, reply) && month_read(
                reply,
                Ok((r.reported_days, r.raw_nowrite_days)),
            ),
{
    search_goes_its_way(account, states, events, days, events.len() as int);
}

/// What a search finds, day by day, when the holidays are known: each day of the month without a
/// report is the current day, or a working day and missing, or none and passed over. A day that is
/// configured as worked for another is a working day, and a day from Monday to Friday is one
/// unless it is configured as a holiday.
pub proof fn search_finds_the_due_days(
    account: Account,
    before: MissingTask,
    config: HolidayConfig,
    now: Ymd,
    after: MissingTask,
    r: MissingDailyResult,
    day: u32,
)
    requires
        missing_step(account, before, Event::Holidays(config), now, after),
        before.stage is Holidays,
        after.stage == MissingStage::Finished(Ok(r)),
    ensures
        r.reported_days == before.stage->reported_days,
        r.raw_nowrite_days == before.stage->raw_nowrite_days,
        ({
            let d = Ymd { year: before.year as int, month: before.month as int, day: day as int };
            let today = before.stage->today@;
            let listed = before.stage->raw_nowrite_days@.contains(day) && d.valid();
            let works = configured(config.makeup_workdays@, d) || (!configured(
                config.holidays@,
                d,
            ) && d.weekday() < 5);
            &&& r.excluded_today@.contains(day) <==> listed && d == today
            &&& r.missing_workdays@.contains(day) <==> listed && d != today && works
            &&& r.excluded_non_workdays@.contains(day) <==> listed && d != today && !works
        }),
{
    let d = Ymd { year: before.year as int, month: before.month as int, day: day as int };
    let today = before.stage->today@;
    let raw = before.stage->raw_nowrite_days@;
    if before.needs_calendar() {
        let calendar = choose|c: HolidayCalendar| #[trigger]
            calendar_read(config, Ok(c)) && month_sorted(before, c, r);
        due_days_are_missing(r, today, calendar, day);
        configuration_settles_workdays(config, calendar, calendar, d);
    } else {
        assert(found_without_calendar(before, after.stage));
        let any: HolidayCalendar = choose|c: HolidayCalendar| month_sorted(before, c, r);
        if let MissingStage::Finished(Ok(found)) = after.stage {
            assert(month_sorted(before, any, found));
        }
        assert(month_sorted(before, any, r));
        due_days_are_missing(r, today, any, day);
        if raw.contains(day) && d.valid() && d != today {
            let i = choose|i: int| 0 <= i < raw.len() && raw[i] == day;
            assert(raw[i] as int == d.day);
        }
    }
}

/// When the server has told of the month and the cookies are saved, the search holds the days that
/// the reply lists, and the current day is that on which it goes on.
pub proof fn search_goes_on_with_the_days_of_the_reply(
    account: Account,
    before: MissingTask,
    reply: Json,
    retry: bool,
    now: Ymd,
    after: MissingTask,
)
    requires
        missing_step(account, before, Event::Done, now, after),
        before.stage matches MissingStage::Ask(x) && x.stage == (Stage::Keep { reply, retry }),
    ensures
        match after.stage {
            MissingStage::Holidays { reported_days, raw_nowrite_days, today } => {
                &&& month_read(reply@, Ok((reported_days, raw_nowrite_days)))
                &&& today@ == now
                &&& after.pending() == ActionView::LoadHolidays(before.year)
            },
            MissingStage::Finished(Err(e)) => month_read(reply@, Err(e)),
            _ => false,
        },
{
}

/// A search whose request is refused fails. A reply that refuses the request and asks for no login
/// ends it with what the reply says, and a failure outside ends it with its message.
pub proof fn refused_search_fails(
    account: Account,
    before: MissingTask,
    event: Event,
    now: Ymd,
    after: MissingTask,
    request: RequestView,
)
    requires
        missing_step(account, before, event, now, after),
        before.pending() == ActionView::Post(request),
        request.url != "https://weeksystem.linker.cc/api/Index/getProjectListByAdmin"@,
    ensures
        event matches Event::Reply(reply) ==> !is_accepted(reply@) && !wants_login(reply@) ==> (
        after.stage matches MissingStage::Finished(Err(Failure::Refused(t))) && t@ == refusal_text(
            reply@,
        )),
        event matches Event::Reply(reply) ==> is_accepted(reply@) ==> after.pending()
            == ActionView::SaveCookies,
        event matches Event::Failed(m) ==> m@ != "AUTH_REQUIRED"@ ==> after.stage
            == MissingStage::Finished(Err(Failure::Outside(m))),
{
}

/// A search asks the server only with a session, and where the session fails it fails with it.
pub proof fn search_begins_with_a_session(
    account: Account,
    before: MissingTask,
    event: Event,
    now: Ymd,
    after: MissingTask,
)
    requires
        missing_step(account, before, event, now, after),
        before.stage is Session,
        !(before.pending() is Nothing),
    ensures
        !(after.stage is Session) && !(after.stage is Finished) ==> {
            &&& makes_session(before.pending(), event)
            &&& after.pending() matches ActionView::Post(request)
            &&& asks_for_month(request, before.year, before.month)
        },
        after.stage matches MissingStage::Finished(r) ==> r is Err,
        after.stage matches MissingStage::Finished(Err(e)) ==> (event matches Event::Failed(m)
            ==> e == Failure::Outside(m)),
{
    let session = before.stage->Session_0;
    let next = choose|next: SessionState| #[trigger]
        session_step(account, session, event, next) && missing_after_session(
            before.year,
            before.month,
            next,
            after.stage,
        );
    session_comes_from_cookies(account, session, event, next);
    months_are_asked_for(before.year, before.month);
}

/// A search hands failures on: where its session or its request fails, it ends with the same
/// failure.
pub proof fn search_hands_failures_on(
    account: Account,
    before: MissingTask,
    event: Event,
    now: Ymd,
    after: MissingTask,
    e: Failure,
)
    requires
        missing_step(account, before, event, now, after),
    ensures
        after.year == before.year && after.month == before.month,
        before.stage matches MissingStage::Session(s) ==> (after.stage == MissingStage::Finished(
            Err(e),
        ) ==> session_step(account, s, event, SessionState::Finished(Err(e)))),
        before.stage matches MissingStage::Ask(x) ==> (after.stage == MissingStage::Finished(Err(e))
            && !(event is Done) && !(x.stage is Finished) ==> exchange_step(
            account,
            x,
            event,
            Exchange { request: x.request, stage: Stage::Finished(Err(e)) },
        )),
        before.stage is Finished ==> after.stage == before.stage,
{
    match before.stage {
        MissingStage::Session(session) => {
            let next = choose|next: SessionState| #[trigger]
                session_step(account, session, event, next) && missing_after_session(
                    before.year,
                    before.month,
                    next,
                    after.stage,
                );
        },
        MissingStage::Ask(x) => {
            let next = choose|next: Exchange| #[trigger]
                exchange_step(account, x, event, next) && missing_after_reply(
                    now,
                    next,
                    after.stage,
                );
            if let Stage::Finished(r) = next.stage {
                assert(next == Exchange { request: x.request, stage: Stage::Finished(r) });
                if r is Ok && !(x.stage is Finished) {
                    request_saves_before_it_ends(account, x, event, next);
                }
            }
        },
        _ => {},
    }
}

/// Whether a search has ended well.
pub open spec fn search_ends_well(stage: MissingStage) -> bool {
    stage matches MissingStage::Finished(Ok(_))
}

/// A file of holidays that cannot be read ends a search with the message that says so where a day
/// has to be held against it, and is of no matter elsewhere. An item of it that is no date is told
/// in the same cases.
pub proof fn unreadable_holidays_matter_where_they_are_needed(
    account: Account,
    before: MissingTask,
    event: Event,
    now: Ymd,
    after: MissingTask,
)
    requires
        before.stage is Holidays,
        missing_step(account, before, event, now, after),
    ensures
        event matches Event::Unreadable(m) ==> if before.needs_calendar() {
            after.stage == MissingStage::Finished(Err(Failure::Outside(m)))
        } else {
            search_ends_well(after.stage)
        },
        event matches Event::Holidays(config) ==> {
            &&& !before.needs_calendar() ==> search_ends_well(after.stage)
            &&& before.needs_calendar() ==> (search_ends_well(after.stage) <==> (
            forall|k: int|
                0 <= k < config.holidays@.len() ==> stretch_of(
                    (#[trigger] config.holidays@[k])@,
                ) is Ok) && (forall|k: int|
                0 <= k < config.makeup_workdays@.len() ==> stretch_of(
                    (#[trigger] config.makeup_workdays@[k])@,
                ) is Ok))
            &&& after.stage is Finished
        },
        event is Holidays ==> (after.stage matches MissingStage::Finished(Err(e)) ==> e is HolidayDate),
{
}

/// A file of holidays that is missing ends a search with the message that says so, whatever the
/// days are.
pub proof fn missing_holidays_end_a_search(
    account: Account,
    before: MissingTask,
    message: String,
    now: Ymd,
    after: MissingTask,
)
    requires
        before.pending() is LoadHolidays,
        missing_step(account, before, Event::Failed(message), now, after),
    ensures
        after.stage == MissingStage::Finished(Err(Failure::Outside(message))),
{
}

/// How many actions a search takes at most before it ends.
pub open spec fn missing_actions_left(stage: MissingStage) -> nat {
    match stage {
        MissingStage::Session(s) => session_actions_left(s) + 14,
        MissingStage::Ask(x) => actions_left(x.stage) + 1,
        MissingStage::Holidays { .. } => 1,
        MissingStage::Finished(_) => 0,
    }
}

/// Every answered action brings a search nearer to its end.
pub proof fn search_comes_to_an_end(
    account: Account,
    before: MissingTask,
    event: Event,
    now: Ymd,
    after: MissingTask,
)
    requires
        missing_step(account, before, event, now, after),
        before.pending().answered_by(event),
    ensures
        missing_actions_left(after.stage) < missing_actions_left(before.stage),
{
    match before.stage {
        MissingStage::Session(session) => {
            let next = choose|next: SessionState| #[trigger]
                session_step(account, session, event, next) && missing_after_session(
                    before.year,
                    before.month,
                    next,
                    after.stage,
                );
            session_comes_to_an_end(account, session, event, next);
        },
        MissingStage::Ask(x) => {
            let next = choose|next: Exchange| #[trigger]
                exchange_step(account, x, event, next) && missing_after_reply(
                    now,
                    next,
                    after.stage,
                );
            request_comes_to_an_end(account, x, event, next);
        },
        _ => {},
    }
}

} // verus!
