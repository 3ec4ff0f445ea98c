use autohour::date::{
    default_schedule_time, now, parse_schedule_time, parse_target_date, resolve_time_token,
    schedule_time, target_date, time_token, today, Date, Moment, TimeOfDay, Timestamp,
};
use autohour::failure::Failure;
use autohour::schedule::{
    choose_plan, choose_run, next_run_after, plan_run, seconds_until, LocalTimes,
};

fn date(year: i32, month: u32, day: u32) -> Date {
    Date::from_ymd(year, month, day).unwrap()
}

#[test]
fn resolves_time_token() {
    let today = today();
    assert_eq!(resolve_time_token(today).unwrap(), "T");
    assert_eq!(resolve_time_token(today.later(-1).unwrap()).unwrap(), "Y");
}

#[test]
fn parses_schedule_time() {
    assert_eq!(
        parse_schedule_time("18:30").unwrap(),
        TimeOfDay { hour: 18, minute: 30 }
    );
    assert!(parse_schedule_time("25:00").is_err());
}

#[test]
fn names_only_today_and_yesterday() {
    let day = date(2026, 3, 1);
    assert_eq!(time_token(day, day).unwrap(), "T");
    assert_eq!(time_token(date(2026, 2, 28), day).unwrap(), "Y");
    assert!(matches!(time_token(date(2026, 2, 27), day).err().unwrap(), Failure::TimeToken));
    assert!(matches!(time_token(date(2026, 3, 2), day).err().unwrap(), Failure::TimeToken));
    assert_eq!(
        Failure::TimeToken.message(),
        "weeksystem only supports querying/submitting today or yesterday via this CLI"
    );
}

#[test]
fn reads_dates() {
    let read = parse_target_date("2026-04-02").unwrap();
    assert_eq!(read, date(2026, 4, 2));
    assert_eq!(read.text(), "2026-04-02");
    for text in [
        "2026-02-29",
        "2026/04/02",
        "",
        "today",
        "2026-13-01",
        "2026-4-2",
        " 2026-04-02",
        "+2026-04-02",
        "+12026-04-02",
        "-0001-04-02",
    ] {
        assert!(matches!(parse_target_date(text).err().unwrap(), Failure::DateFormat));
    }
    assert_eq!(target_date(Some("2024-02-29"), date(2026, 1, 1)).unwrap(), date(2024, 2, 29));
    assert_eq!(target_date(None, date(2026, 1, 1)).unwrap(), date(2026, 1, 1));
    assert!(target_date(Some("x"), date(2026, 1, 1)).is_err());
}

#[test]
fn agrees_with_the_calendar_of_chrono() {
    let mut day = chrono::NaiveDate::from_ymd_opt(1999, 12, 28).unwrap();
    let mut ours = date(1999, 12, 28);
    for _ in 0..1600 {
        assert_eq!(ours.text(), day.to_string());
        let weekday = chrono::Datelike::weekday(&day);
        let weekend = weekday == chrono::Weekday::Sat || weekday == chrono::Weekday::Sun;
        assert_eq!(ours.is_weekend(), weekend);
        day = day.succ_opt().unwrap();
        let next = ours.later(1).unwrap();
        assert!(ours.is_before(&next));
        assert!(next.later(-1).unwrap().same(&ours));
        ours = next;
    }
    assert!(Date::from_ymd(2026, 2, 29).is_none());
    assert!(Date::from_ymd(2026, 0, 1).is_none());
    assert!(Date::from_ymd(2026, 4, 31).is_none());
}

#[test]
fn stays_within_the_dates_of_chrono() {
    let last = date(262142, 12, 31);
    assert!(last.later(1).is_none());
    assert_eq!(last.text(), "+262142-12-31");
    let first = date(-262143, 1, 1);
    assert!(first.later(-1).is_none());
    assert_eq!(first.text(), "-262143-01-01");
    assert!(Date::from_ymd(262143, 1, 1).is_none());
}

#[test]
fn falls_back_to_six_in_the_evening() {
    let six = TimeOfDay { hour: 18, minute: 0 };
    let early = TimeOfDay { hour: 7, minute: 5 };
    assert_eq!(default_schedule_time(None).unwrap(), six);
    assert_eq!(default_schedule_time(Some("07:05")).unwrap(), early);
    assert_eq!(schedule_time(Some("07:05"), None).unwrap(), early);
    assert_eq!(schedule_time(None, Some("07:05")).unwrap(), early);
    assert!(matches!(default_schedule_time(Some("7")).err().unwrap(), Failure::ScheduleFormat));
    assert_eq!(schedule_time(Some("07:05"), Some("late")).unwrap(), early);
    assert!(schedule_time(None, Some("late")).is_err());
    assert!(schedule_time(Some("late"), Some("07:05")).is_err());
    for text in ["8:5", "08:5", "24:00", "12:60", " 08:05", "08:05:00", "-1:00"] {
        assert!(parse_schedule_time(text).is_err(), "{text}");
    }
    assert_eq!(parse_schedule_time("00:00").unwrap(), TimeOfDay { hour: 0, minute: 0 });
    assert_eq!(Failure::ScheduleFormat.message(), "schedule time must use HH:MM format");
}

fn at(seconds: i64, nanos: u32) -> Timestamp {
    Timestamp { seconds, nanos }
}

#[test]
fn chooses_the_next_run() {
    let now = at(100, 5);
    let later = LocalTimes::Once(at(200, 0));
    let tomorrow = LocalTimes::Twice(at(300, 0), at(400, 0));
    assert_eq!(choose_run(&now, &later, &tomorrow).unwrap(), at(200, 0));
    let past = LocalTimes::Once(at(100, 0));
    assert_eq!(choose_run(&now, &past, &tomorrow).unwrap(), at(300, 0));
    let missing = choose_run(&now, &past, &LocalTimes::Skipped);
    assert!(matches!(missing.err().unwrap(), Failure::NoNextRun));
    let same = LocalTimes::Once(at(100, 5));
    assert!(choose_run(&now, &same, &LocalTimes::Skipped).is_err());
}

#[test]
fn plans_the_run_of_a_day() {
    let day = date(2026, 4, 2);
    let moment = Moment { date: day, instant: at(100, 5) };
    let later = LocalTimes::Once(at(200, 0));
    let tomorrow = LocalTimes::Twice(at(300, 0), at(400, 0));
    let run = choose_plan(&moment, day.later(1), &later, &tomorrow).unwrap();
    assert_eq!((run.day, run.at, run.sleep_seconds), (day, at(200, 0), 100));
    let run = choose_plan(&moment, day.later(1), &LocalTimes::Skipped, &tomorrow).unwrap();
    assert_eq!((run.day, run.at, run.sleep_seconds), (date(2026, 4, 3), at(300, 0), 200));
    let none = choose_plan(&moment, None, &LocalTimes::Once(at(100, 0)), &LocalTimes::Skipped);
    assert!(matches!(none.err().unwrap(), Failure::NoNextRun));
}

#[test]
fn sleeps_whole_seconds() {
    assert_eq!(seconds_until(&at(100, 0), &at(160, 0)), 60);
    assert_eq!(seconds_until(&at(100, 1), &at(160, 0)), 60);
    assert_eq!(seconds_until(&at(100, 1), &at(101, 0)), 1);
    assert_eq!(seconds_until(&at(100, 1), &at(100, 2)), 1);
    assert_eq!(seconds_until(&at(100, 1), &at(101, 1)), 1);
    assert_eq!(seconds_until(&at(i64::MIN, 0), &at(i64::MAX, 0)), u64::MAX);
}

#[test]
fn finds_a_run_within_two_days() {
    let moment = now();
    let time = TimeOfDay { hour: 12, minute: 30 };
    let run = plan_run(&moment, time).unwrap();
    assert!(moment.instant.is_before(&run.at));
    assert!(run.sleep_seconds < 2 * 86400);
    let woken = moment.instant.seconds + run.sleep_seconds as i64;
    assert!(!at(woken, moment.instant.nanos).is_before(&run.at));
    assert_eq!(next_run_after(&moment, time).unwrap(), run.at);
    let zoned = chrono::TimeZone::timestamp_opt(&chrono::Local, run.at.seconds, 0).unwrap();
    assert_eq!(zoned.format("%H:%M:%S").to_string(), "12:30:00");
    assert_eq!(zoned.format("%Y-%m-%d").to_string(), run.day.text());
}

#[test]
fn has_no_run_after_the_last_date() {
    let moment = Moment { date: date(262142, 12, 31), instant: at(i64::MAX, 0) };
    let none = next_run_after(&moment, TimeOfDay { hour: 12, minute: 0 });
    assert!(matches!(none.err().unwrap(), Failure::NoNextRun));
    assert_eq!(Failure::NoNextRun.message(), "failed to compute next scheduled run");
}

#[test]
fn reads_the_local_clock() {
    let before = chrono::Local::now().timestamp();
    let moment = now();
    assert!(before <= moment.instant.seconds);
    assert!(moment.instant.nanos < 1_000_000_000);
    let date = chrono::Local::now().date_naive().to_string();
    assert_eq!(today().text(), date);
}
