use autohour::api::{
    ManHour, Request, ADD_DAILY_URL, DAILY_REPORT_API_URL, EDIT_MAN_HOUR_API_URL,
    GET_HOUR_DAILY_URL, MAN_HOUR_API_URL, SESSION_PROBE_URL, UPDATE_DAILY_URL, WEEKSYSTEM_APP_URL,
    WEEKSYSTEM_CONFIG_URL,
};
use autohour::date::Date;
use autohour::failure::Failure;
use autohour::flow::{Action, Event, Exchange, LoginState, SessionState, Stage};
use autohour::holidays::HolidayConfig;
use autohour::json::Json;
use autohour::log::parse_log;
use autohour::login::{default_login_url, Account};
use autohour::session::StoredCookie;
use autohour::tasks::{
    EntryStage, EntryTask, MissingStage, MissingTask, Submission, SubmitStage, SubmitTask,
};

fn account() -> Account {
    Account { username: "me".to_string(), password: "secret".to_string() }
}

fn object(fields: Vec<(&str, Json)>) -> Json {
    Json::object(fields.into_iter().map(|(k, v)| (k.to_string(), v)).collect())
}

fn ok_reply() -> Event {
    Event::Reply(object(vec![("code", Json::integer(1))]))
}

fn unauthorized() -> Event {
    Event::Reply(object(vec![("code", Json::integer(401))]))
}

fn plain_page() -> Event {
    Event::Page { final_url: "https://a.example/".to_string(), body: "<p></p>".to_string() }
}

fn cookies(value: &str) -> Event {
    Event::Cookies {
        header: None,
        stored: vec![StoredCookie {
            domain: Some("weeksystem.linker.cc".to_string()),
            name: "session_for:index_php".to_string(),
            value: value.to_string(),
        }],
    }
}

fn no_cookies() -> Event {
    Event::Cookies { header: None, stored: vec![] }
}

fn failed(message: &str) -> Event {
    Event::Failed(message.to_string())
}

fn fetched(action: Action) -> String {
    match action {
        Action::Fetch(url) => url,
        _ => panic!("expected a page to fetch"),
    }
}

fn posted(action: Action) -> Request {
    match action {
        Action::Post(request) => request,
        _ => panic!("expected a request to send"),
    }
}

#[test]
fn logs_in_without_a_form() {
    let who = account();
    let mut login = LoginState::Start;
    assert_eq!(fetched(login.action()), default_login_url());
    login = login.advance(&who, plain_page());
    assert_eq!(fetched(login.action()), WEEKSYSTEM_APP_URL);
    login = login.advance(&who, failed("ignored"));
    assert_eq!(fetched(login.action()), WEEKSYSTEM_CONFIG_URL);
    login = login.advance(&who, plain_page());
    assert!(matches!(login.action(), Action::ReadCookies));
    login = login.advance(&who, cookies("ST-1"));
    assert!(matches!(login.action(), Action::SaveCookies));
    login = login.advance(&who, Event::Done);
    assert!(matches!(login.action(), Action::Nothing));
    match login {
        LoginState::Finished(Ok(cookie)) => assert_eq!(cookie.value, "ST-1"),
        _ => panic!("expected a session"),
    }
}

#[test]
fn probes_for_a_session_before_it_gives_up() {
    let who = account();
    let mut login = LoginState::FirstCheck.advance(&who, cookies("plain"));
    let probe = posted(login.action());
    assert_eq!(probe.url, SESSION_PROBE_URL);
    assert_eq!(format!("{:?}", probe.payload), "Object([])");
    login = login.advance(&who, ok_reply());
    assert!(matches!(login.action(), Action::SaveCookies));
    login = login.advance(&who, failed("ignored"));
    assert!(matches!(login, LoginState::SecondCheck));
    let active = login.advance(&who, cookies("ST-2"));
    assert!(matches!(active, LoginState::Save(_)));
    let refused = LoginState::Probe.advance(&who, unauthorized());
    assert!(matches!(refused, LoginState::SecondCheck));
    match refused.advance(&who, no_cookies()) {
        LoginState::Finished(Err(e)) => assert_eq!(
            e.message(),
            "CAS login completed but weeksystem session was not activated"
        ),
        _ => panic!("expected no session"),
    }
}

#[test]
fn fails_a_login_with_what_failed() {
    let who = account();
    for state in [LoginState::Start, LoginState::FirstCheck, LoginState::SecondCheck] {
        match state.advance(&who, failed("down")) {
            LoginState::Finished(Err(e)) => assert_eq!(e.message(), "down"),
            _ => panic!("expected a failure"),
        }
    }
    let broken = Event::Page {
        final_url: "https://a.example/".to_string(),
        body: "<form id=fm1></form>".to_string(),
    };
    match LoginState::Start.advance(&who, broken) {
        LoginState::Finished(Err(Failure::FormAction)) => {}
        _ => panic!("expected a form without a target"),
    }
}

#[test]
fn ignores_events_that_answer_nothing() {
    let who = account();
    assert!(matches!(LoginState::Start.advance(&who, Event::Done), LoginState::Start));
    assert!(matches!(LoginState::Probe.advance(&who, no_cookies()), LoginState::Probe));
    assert!(matches!(SessionState::Check.advance(&who, Event::Done), SessionState::Check));
}

#[test]
fn uses_the_session_that_there_is() {
    let who = account();
    assert!(matches!(SessionState::Check.action(), Action::ReadCookies));
    match SessionState::Check.advance(&who, cookies("plain")) {
        SessionState::Finished(Ok(cookie)) => assert_eq!(cookie.value, "plain"),
        _ => panic!("expected a session"),
    }
    let mut session = SessionState::Check.advance(&who, no_cookies());
    assert_eq!(fetched(session.action()), default_login_url());
    session = session.advance(&who, failed("down"));
    match session {
        SessionState::Finished(Err(e)) => assert_eq!(e.message(), "down"),
        _ => panic!("expected a failure"),
    }
}

fn request() -> Request {
    Request { url: MAN_HOUR_API_URL, payload: object(vec![("a", Json::integer(1))]) }
}

fn log_in(mut exchange: Exchange, who: &Account) -> Exchange {
    for event in [plain_page(), plain_page(), plain_page(), cookies("ST-1"), Event::Done] {
        exchange = exchange.advance(who, event);
    }
    exchange
}

#[test]
fn returns_an_accepted_reply_after_saving() {
    let who = account();
    let mut exchange = Exchange::new(request());
    assert_eq!(posted(exchange.action()).url, MAN_HOUR_API_URL);
    exchange = exchange.advance(&who, ok_reply());
    assert!(matches!(exchange.action(), Action::SaveCookies));
    exchange = exchange.advance(&who, Event::Done);
    match exchange.stage {
        Stage::Finished(Ok(reply)) => assert_eq!(reply.get("code").unwrap().as_i64(), Some(1)),
        _ => panic!("expected a reply"),
    }
}

#[test]
fn logs_in_once_and_sends_again() {
    let who = account();
    let mut exchange = Exchange::new(request()).advance(&who, unauthorized());
    assert_eq!(fetched(exchange.action()), default_login_url());
    exchange = log_in(exchange, &who);
    let again = posted(exchange.action());
    assert_eq!(again.url, MAN_HOUR_API_URL);
    assert_eq!(again.payload.get("a").unwrap().as_i64(), Some(1));
    exchange = exchange.advance(&who, unauthorized());
    match exchange.stage {
        Stage::Finished(Err(e)) => assert_eq!(e.message(), "AUTH_REQUIRED"),
        _ => panic!("expected an end"),
    }
}

#[test]
fn ends_a_refused_request() {
    let who = account();
    let refusal = object(vec![("code", Json::integer(0)), ("msg", Json::string("full"))]);
    match Exchange::new(request()).advance(&who, Event::Reply(refusal)).stage {
        Stage::Finished(Err(Failure::Refused(t))) => assert_eq!(t, "full"),
        _ => panic!("expected a refusal"),
    }
    match Exchange::new(request()).advance(&who, failed("down")).stage {
        Stage::Finished(Err(Failure::Outside(t))) => assert_eq!(t, "down"),
        _ => panic!("expected a failure"),
    }
    let saving = Exchange::new(request()).advance(&who, ok_reply());
    match saving.advance(&who, failed("disk full")).stage {
        Stage::Finished(Err(e)) => assert_eq!(e.message(), "disk full"),
        _ => panic!("expected a failure"),
    }
    let asked = object(vec![("code", Json::integer(0)), ("msg", Json::string("AUTH_REQUIRED"))]);
    let login = Exchange::new(request()).advance(&who, Event::Reply(asked));
    assert!(matches!(login.stage, Stage::Login(LoginState::Start)));
}

fn entry(month: u32, day: u32, workhour: &str) -> ManHour {
    ManHour {
        year: 2026,
        month,
        day,
        workhour: workhour.to_string(),
        project_id: 1799,
        remark: "工时：8".to_string(),
        out_work: "x".to_string(),
    }
}

#[test]
fn refuses_entries_that_cannot_be_made() {
    let refused = |entry: ManHour| EntryTask::new(entry).err().unwrap();
    assert!(matches!(refused(entry(0, 2, "8")), Failure::MonthRange));
    assert!(matches!(refused(entry(13, 2, "8")), Failure::MonthRange));
    assert!(matches!(refused(entry(4, 0, "8")), Failure::DayRange));
    assert!(matches!(refused(entry(4, 32, "8")), Failure::DayRange));
    assert!(matches!(refused(entry(4, 2, "7.3")), Failure::WorkhourIncrement));
    assert!(matches!(refused(entry(4, 2, "NaN")), Failure::WorkhourIncrement));
    assert!(EntryTask::new(entry(4, 31, "7.5")).is_ok());
    assert_eq!(Failure::DayRange.message(), "day must be in 1..=31");
}

#[test]
fn enters_hours() {
    let who = account();
    let mut task = EntryTask::new(entry(4, 2, "8")).unwrap();
    assert!(matches!(task.action(), Action::ReadCookies));
    task = task.advance(&who, cookies("plain"));
    let sent = posted(task.action());
    assert_eq!(sent.url, MAN_HOUR_API_URL);
    assert_eq!(sent.payload.get("outWork").unwrap().as_str(), Some("x"));
    task = task.advance(&who, ok_reply()).advance(&who, Event::Done);
    assert!(matches!(task.action(), Action::Nothing));
    assert!(matches!(task.stage, EntryStage::Finished(Ok(_))));
}

fn today() -> Date {
    Date::from_ymd(2026, 4, 2).unwrap()
}

fn submission() -> SubmitTask {
    let text = "## 工作记录\n工时: 8\nx\n## 明日计划\n继续完善日志解析\n";
    let log = parse_log(today(), "2026-04-02.md".to_string(), text).unwrap();
    SubmitTask::new(Submission { log, project_id: 1799, out_work: String::new() })
}

fn day_reply(daily: Json, entries: Vec<Json>) -> Event {
    let data = object(vec![("daily", daily), ("workhour", Json::Array(entries))]);
    Event::Reply(object(vec![("code", Json::integer(1)), ("data", data)]))
}

fn steps(mut task: SubmitTask, events: Vec<Event>) -> SubmitTask {
    for event in events {
        task = task.advance(&account(), event, today());
    }
    task
}

#[test]
fn submits_a_new_log() {
    let mut task = steps(submission(), vec![cookies("plain")]);
    let query = posted(task.action());
    assert_eq!(query.url, GET_HOUR_DAILY_URL);
    assert_eq!(query.payload.get("time").unwrap().as_str(), Some("T"));
    task = steps(task, vec![day_reply(Json::Null, vec![]), Event::Done]);
    let hours = posted(task.action());
    assert_eq!(hours.url, MAN_HOUR_API_URL);
    assert_eq!(hours.payload.get("remark").unwrap().as_str(), Some("工时: 8\nx"));
    assert_eq!(hours.payload.get("day").unwrap().as_i64(), Some(2));
    task = steps(task, vec![ok_reply(), Event::Done]);
    assert_eq!(posted(task.action()).url, GET_HOUR_DAILY_URL);
    task = steps(task, vec![day_reply(Json::Null, vec![]), Event::Done]);
    let report = posted(task.action());
    assert_eq!(report.url, ADD_DAILY_URL);
    assert_eq!(report.payload.get("tomorrow").unwrap().as_str(), Some("继续完善日志解析"));
    task = steps(task, vec![ok_reply(), Event::Done]);
    assert!(matches!(task.action(), Action::Nothing));
    match task.stage {
        SubmitStage::Finished(Ok(done)) => {
            assert_eq!(
                autohour::api::summarize_result(&done, "8"),
                "日期: 2026-04-02\n项目: 1799\n工时: 8\n工时结果: created\n日报结果: created"
            );
        }
        _ => panic!("expected a submission"),
    }
}

#[test]
fn submits_a_log_again() {
    let entry = object(vec![("project_id", Json::integer(1799)), ("id", Json::integer(3))]);
    let daily = object(vec![("id", Json::integer(8)), ("status", Json::integer(1))]);
    let mut task = steps(
        submission(),
        vec![cookies("plain"), day_reply(daily.copy(), vec![entry.copy()]), Event::Done],
    );
    assert_eq!(posted(task.action()).url, EDIT_MAN_HOUR_API_URL);
    task = steps(task, vec![ok_reply(), Event::Done, day_reply(daily, vec![entry]), Event::Done]);
    assert_eq!(posted(task.action()).url, UPDATE_DAILY_URL);
    task = steps(task, vec![ok_reply(), Event::Done]);
    match task.stage {
        SubmitStage::Finished(Ok(done)) => {
            assert_eq!(done.get("man_hour").unwrap().get("entry_id").unwrap().as_i64(), Some(3));
            assert_eq!(done.get("daily").unwrap().get("daily_id").unwrap().as_i64(), Some(8));
            assert_eq!(done.get("daily").unwrap().get("mode").unwrap().as_str(), Some("updated"));
        }
        _ => panic!("expected a submission"),
    }
}

#[test]
fn stops_a_submission_at_the_first_failure() {
    let entry = object(vec![("project_id", Json::integer(1799))]);
    let twice = day_reply(Json::Null, vec![entry.copy(), entry.copy()]);
    let task = steps(submission(), vec![cookies("plain"), twice, Event::Done]);
    assert!(matches!(
        task.stage,
        SubmitStage::Finished(Err(Failure::SeveralEntries(1799, _)))
    ));
    let task = steps(submission(), vec![cookies("plain"), day_reply(Json::Null, vec![entry]), Event::Done]);
    assert!(matches!(task.stage, SubmitStage::Finished(Err(Failure::EntryId))));
    let late = Date::from_ymd(2026, 4, 4).unwrap();
    let task = submission().advance(&account(), cookies("plain"), late);
    assert!(matches!(task.stage, SubmitStage::Finished(Err(Failure::TimeToken))));
    let task = steps(submission(), vec![failed("lock")]);
    assert!(matches!(task.stage, SubmitStage::Finished(Err(Failure::Outside(_)))));
}

#[test]
fn finds_missing_reports() {
    let who = account();
    let mut task = MissingTask::new(2026, 4).unwrap();
    task = task.advance(&who, cookies("plain"), today());
    let sent = posted(task.action());
    assert_eq!(sent.url, DAILY_REPORT_API_URL);
    assert_eq!(sent.payload.get("month").unwrap().as_i64(), Some(4));
    let data = object(vec![
        ("write", Json::Array(vec![Json::string("1(迟交)")])),
        ("nowrite", Json::Array(vec![Json::integer(2), Json::integer(3), Json::integer(4)])),
    ]);
    let reply = object(vec![("code", Json::integer(200)), ("data", data)]);
    task = task.advance(&who, Event::Reply(reply), today());
    task = task.advance(&who, Event::Done, today());
    assert!(matches!(task.action(), Action::LoadHolidays(2026)));
    let config = HolidayConfig { holidays: vec![], makeup_workdays: vec![] };
    task = task.advance(&who, Event::Holidays(config), today());
    match task.stage {
        MissingStage::Finished(Ok(result)) => {
            assert_eq!(result.reported_days, vec![1]);
            assert_eq!(result.excluded_today, vec![2]);
            assert_eq!(result.missing_workdays, vec![3]);
            assert_eq!(result.excluded_non_workdays, vec![4]);
        }
        _ => panic!("expected a result"),
    }
}

#[test]
fn needs_the_holidays_of_the_year() {
    let who = account();
    let events = vec![cookies("plain"), ok_reply(), Event::Done, failed("holiday calendar is missing")];
    let mut task = MissingTask::new(2026, 4).unwrap();
    for event in events {
        task = task.advance(&who, event, today());
    }
    match task.stage {
        MissingStage::Finished(Err(e)) => assert_eq!(e.message(), "holiday calendar is missing"),
        _ => panic!("expected a failure"),
    }
    assert!(matches!(MissingTask::new(1999, 4).err().unwrap(), Failure::YearRange));
    assert!(matches!(MissingTask::new(2026, 13).err().unwrap(), Failure::MonthRange));
}

/// A search that has come to the holidays, with days that were not reported.
fn search(days: &[i64]) -> MissingTask {
    let nowrite = days.iter().map(|d| Json::integer(*d)).collect();
    let data = object(vec![("nowrite", Json::Array(nowrite))]);
    let reply = object(vec![("code", Json::integer(200)), ("data", data)]);
    let mut task = MissingTask::new(2026, 4).unwrap();
    for event in vec![cookies("plain"), Event::Reply(reply), Event::Done] {
        task = task.advance(&account(), event, today());
    }
    assert!(matches!(task.action(), Action::LoadHolidays(2026)));
    task
}

#[test]
fn holds_only_other_days_against_the_calendar() {
    let broken = || HolidayConfig {
        holidays: vec!["2026-04-05".to_string()],
        makeup_workdays: vec!["soon".to_string()],
    };
    for days in [vec![], vec![2], vec![2, 31, 0]] {
        for event in [Event::Holidays(broken()), Event::Unreadable("no JSON".to_string())] {
            match search(&days).advance(&account(), event, today()).stage {
                MissingStage::Finished(Ok(result)) => {
                    assert_eq!(result.excluded_today.len(), days.contains(&2) as usize);
                    assert!(result.excluded_non_workdays.is_empty());
                    assert!(result.missing_workdays.is_empty());
                }
                _ => panic!("expected a result"),
            }
        }
        let missing = search(&days).advance(&account(), failed("no file"), today());
        match missing.stage {
            MissingStage::Finished(Err(e)) => assert_eq!(e.message(), "no file"),
            _ => panic!("expected a failure"),
        }
    }
    for days in [vec![3], vec![2, 4], vec![31, 30]] {
        match search(&days).advance(&account(), Event::Holidays(broken()), today()).stage {
            MissingStage::Finished(Err(e)) => assert!(e.message().contains("soon")),
            _ => panic!("expected a failure"),
        }
        let unreadable = Event::Unreadable("no JSON".to_string());
        match search(&days).advance(&account(), unreadable, today()).stage {
            MissingStage::Finished(Err(e)) => assert_eq!(e.message(), "no JSON"),
            _ => panic!("expected a failure"),
        }
    }
}

#[test]
fn ends_after_one_login_for_each_request() {
    let who = account();
    let mut task = submission();
    let mut refused = false;
    let mut actions = 0;
    loop {
        let event = match task.action() {
            Action::Nothing => break,
            Action::Fetch(_) => plain_page(),
            Action::Submit(_) => plain_page(),
            Action::ReadCookies => cookies("ST-1"),
            Action::SaveCookies => Event::Done,
            Action::LoadHolidays(_) => panic!("no holidays are wanted"),
            Action::Post(_) => {
                refused = !refused;
                if refused {
                    unauthorized()
                } else {
                    day_reply(Json::Null, vec![])
                }
            }
        };
        task = task.advance(&who, event, today());
        actions += 1;
        assert!(actions <= 62);
    }
    assert!(matches!(task.stage, SubmitStage::Finished(Ok(_))));
    assert_eq!(actions, 1 + 4 * 8);
}
