use autohour::api::{
    check_reply, daily_outcome, man_hour_outcome, man_hour_payload, month_payload,
    parse_project_id, plan_daily, plan_man_hour, read_snapshot, snapshot_payload, submission,
    summarize_result, ManHour, ADD_DAILY_URL, EDIT_MAN_HOUR_API_URL, MAN_HOUR_API_URL,
    UPDATE_DAILY_URL,
};
use autohour::date::Date;
use autohour::failure::Failure;
use autohour::json::Json;
use autohour::log::ParsedLog;

fn object(fields: Vec<(&str, Json)>) -> Json {
    Json::object(fields.into_iter().map(|(k, v)| (k.to_string(), v)).collect())
}

fn shown(value: &Json) -> String {
    format!("{value:?}")
}

fn date() -> Date {
    Date::from_ymd(2026, 4, 2).unwrap()
}

fn entry() -> ManHour {
    ManHour {
        year: 2026,
        month: 4,
        day: 2,
        workhour: "7.5".to_string(),
        project_id: 1799,
        remark: "done".to_string(),
        out_work: String::new(),
    }
}

fn log() -> ParsedLog {
    ParsedLog {
        target_date: date(),
        log_path: "logs/2026-04-02.md".to_string(),
        work_record: "done".to_string(),
        tomorrow: "more".to_string(),
        undone: "rest".to_string(),
        concert: "none".to_string(),
        daily_remark: "fine".to_string(),
        workhour: "7.5".to_string(),
    }
}

#[test]
fn accepts_replies_by_their_code() {
    assert!(check_reply(&object(vec![])).is_ok());
    assert!(check_reply(&Json::Null).is_ok());
    for code in [Json::integer(1), Json::integer(200), Json::string("1"), Json::string("200")] {
        assert!(check_reply(&object(vec![("code", code)])).is_ok());
    }
    for code in [Json::integer(0), Json::string("401"), Json::Null, Json::Bool(true)] {
        let refused = check_reply(&object(vec![("code", code)]));
        assert_eq!(refused.err().unwrap().message(), "request failed");
    }
}

#[test]
fn says_why_a_reply_refuses() {
    let login = check_reply(&object(vec![("code", Json::integer(401)), ("msg", Json::string("x"))]));
    assert!(matches!(login.err().unwrap(), Failure::AuthRequired));
    let both = object(vec![
        ("code", Json::integer(500)),
        ("message", Json::string("second")),
        ("msg", Json::string("first")),
    ]);
    match check_reply(&both) {
        Err(Failure::Refused(t)) => assert_eq!(t, "first"),
        _ => panic!("expected a refusal"),
    }
    let one = object(vec![
        ("code", Json::integer(500)),
        ("message", Json::string("second")),
        ("msg", Json::integer(3)),
    ]);
    assert_eq!(check_reply(&one).err().unwrap().message(), "second");
    assert!(Failure::AuthRequired.is_login_request());
    assert!(Failure::Refused("AUTH_REQUIRED".to_string()).is_login_request());
    assert!(!Failure::Refused("no".to_string()).is_login_request());
}

#[test]
fn reads_what_the_server_has_of_a_day() {
    let data = object(vec![
        ("daily", object(vec![("id", Json::integer(5))])),
        ("workhour", Json::Array(vec![object(vec![("id", Json::integer(9))]), Json::Null])),
    ]);
    let snapshot = read_snapshot(&object(vec![("data", data)]));
    assert_eq!(snapshot.daily.unwrap().get("id").unwrap().as_i64(), Some(5));
    assert_eq!(snapshot.workhour.len(), 2);
    assert_eq!(snapshot.workhour[0].get("id").unwrap().as_i64(), Some(9));
    let nothing = read_snapshot(&object(vec![("data", object(vec![("daily", Json::Null)]))]));
    assert!(nothing.daily.is_none());
    assert!(nothing.workhour.is_empty());
    assert!(read_snapshot(&Json::Null).daily.is_none());
}

fn known(project_id: i64, id: Json) -> Json {
    object(vec![("project_id", Json::integer(project_id)), ("id", id)])
}

#[test]
fn creates_an_entry_where_there_is_none() {
    let entries = vec![known(7, Json::integer(1)), Json::Null];
    let plan = plan_man_hour(&entries, date(), &entry()).unwrap();
    assert_eq!(plan.entry_id, None);
    assert_eq!(plan.request.url, MAN_HOUR_API_URL);
    assert_eq!(shown(&plan.request.payload), shown(&man_hour_payload(&entry())));
    let wanted = object(vec![
        ("year", Json::Unsigned(2026)),
        ("month", Json::Unsigned(4)),
        ("day", Json::Unsigned(2)),
        ("workhour", Json::Decimal("7.5".to_string())),
        ("project_id", Json::Unsigned(1799)),
        ("remark", Json::string("done")),
        ("outWork", Json::string("")),
    ]);
    assert_eq!(shown(&plan.request.payload), shown(&wanted));
}

#[test]
fn changes_the_entry_that_there_is() {
    let entries = vec![known(7, Json::integer(1)), known(1799, Json::integer(42))];
    let plan = plan_man_hour(&entries, date(), &entry()).unwrap();
    assert_eq!(plan.entry_id, Some(42));
    assert_eq!(plan.request.url, EDIT_MAN_HOUR_API_URL);
    assert_eq!(plan.request.payload.get("id").unwrap().as_i64(), Some(42));
    assert_eq!(plan.request.payload.get("remark").unwrap().as_str(), Some("done"));
}

#[test]
fn refuses_entries_that_are_not_clear() {
    let two = vec![known(1799, Json::integer(1)), known(1799, Json::integer(2))];
    let failure = plan_man_hour(&two, date(), &entry()).err().unwrap();
    assert!(matches!(failure, Failure::SeveralEntries(1799, _)));
    assert_eq!(
        failure.message(),
        "multiple existing man-hour entries found for project_id=1799 on 2026-04-02"
    );
    let unnumbered = vec![known(1799, Json::string("1"))];
    let failure = plan_man_hour(&unnumbered, date(), &entry()).err().unwrap();
    assert!(matches!(failure, Failure::EntryId));
    assert_eq!(failure.message(), "existing man-hour entry missing id");
}

#[test]
fn creates_a_report_where_there_is_none() {
    for daily in [None, Some(object(vec![])), Some(object(vec![("id", Json::Null)]))] {
        let plan = plan_daily(&daily, &log(), date()).unwrap();
        assert!(plan.daily_id.is_null());
        assert_eq!(plan.request.url, ADD_DAILY_URL);
        let wanted = object(vec![
            ("status", Json::Unsigned(0)),
            ("undone", Json::string("rest")),
            ("tomorrow", Json::string("more")),
            ("concert", Json::string("none")),
            ("remark", Json::string("fine")),
            ("time", Json::string("T")),
        ]);
        assert_eq!(shown(&plan.request.payload), shown(&wanted));
    }
}

#[test]
fn changes_the_report_that_there_is() {
    let daily = Some(object(vec![("id", Json::string("d1")), ("status", Json::integer(2))]));
    let plan = plan_daily(&daily, &log(), date().later(1).unwrap()).unwrap();
    assert_eq!(plan.daily_id.as_str(), Some("d1"));
    assert_eq!(plan.request.url, UPDATE_DAILY_URL);
    assert_eq!(plan.request.payload.get("id").unwrap().as_str(), Some("d1"));
    assert_eq!(plan.request.payload.get("status").unwrap().as_i64(), Some(2));
    assert_eq!(plan.request.payload.get("time").unwrap().as_str(), Some("Y"));
    let late = plan_daily(&daily, &log(), date().later(2).unwrap());
    assert!(matches!(late.err().unwrap(), Failure::TimeToken));
}

#[test]
fn tells_what_was_done() {
    let man_hour = man_hour_outcome(Some(42), Json::Null);
    assert_eq!(man_hour.get("mode").unwrap().as_str(), Some("updated"));
    assert_eq!(man_hour.get("entry_id").unwrap().as_i64(), Some(42));
    let daily = daily_outcome(Json::Null, object(vec![("code", Json::integer(1))]));
    assert_eq!(daily.get("mode").unwrap().as_str(), Some("created"));
    assert!(daily.get("daily_id").unwrap().is_null());
    assert_eq!(daily.get("response").unwrap().get("code").unwrap().as_i64(), Some(1));
    let done = submission(&log(), -3, man_hour, daily);
    assert_eq!(done.get("ok").unwrap().as_bool(), Some(true));
    assert_eq!(done.get("log_path").unwrap().as_str(), Some("logs/2026-04-02.md"));
    assert_eq!(
        summarize_result(&done, "7.5"),
        "日期: 2026-04-02\n项目: -3\n工时: 7.5\n工时结果: updated\n日报结果: created"
    );
}

#[test]
fn sums_up_a_result_without_contents() {
    assert_eq!(
        summarize_result(&Json::Null, "0"),
        "日期: -\n项目: 0\n工时: 0\n工时结果: -\n日报结果: -"
    );
}

#[test]
fn asks_for_days_and_months() {
    assert_eq!(shown(&snapshot_payload("Y")), shown(&object(vec![("time", Json::string("Y"))])));
    let wanted = object(vec![("year", Json::Unsigned(2026)), ("month", Json::Unsigned(4))]);
    assert_eq!(shown(&month_payload(2026, 4)), shown(&wanted));
}

#[test]
fn reads_project_numbers() {
    assert_eq!(parse_project_id("1799").unwrap(), 1799);
    assert_eq!(parse_project_id("+7").unwrap(), 7);
    assert_eq!(parse_project_id("-9223372036854775808").unwrap(), i64::MIN);
    for text in ["", "-", "1.5", " 1", "9223372036854775808", "x", "--1", "+-1"] {
        assert!(text.parse::<i64>().is_err());
        let failure = parse_project_id(text).err().unwrap();
        assert_eq!(failure.message(), "LINKER_PROJECT_ID must be an integer");
    }
}

#[test]
fn reads_fields_of_values() {
    assert_eq!(Json::Unsigned(u64::MAX).as_i64(), None);
    assert_eq!(Json::Unsigned(i64::MAX as u64).as_i64(), Some(i64::MAX));
    assert_eq!(Json::integer(-4).as_i64(), Some(-4));
    assert!(Json::Array(vec![]).get("x").is_none());
    let nested = object(vec![("a", Json::Array(vec![Json::Bool(false), object(vec![])]))]);
    assert_eq!(shown(&nested.copy()), shown(&nested));
    assert_eq!(nested.get("a").unwrap().as_array().unwrap().len(), 2);
}
