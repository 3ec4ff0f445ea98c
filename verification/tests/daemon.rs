use autohour::daemon::{DaemonEvent, DaemonState};
use autohour::date::{now, Date, Moment, TimeOfDay, Timestamp};
use autohour::failure::Failure;
use autohour::json::Json;
use autohour::schedule::PlannedRun;

fn noon() -> TimeOfDay {
    TimeOfDay { hour: 12, minute: 0 }
}

fn day() -> Date {
    Date::from_ymd(2026, 4, 2).unwrap()
}

fn clock(seconds: i64, nanos: u32) -> DaemonEvent {
    DaemonEvent::Clock(Moment { date: day(), instant: Timestamp { seconds, nanos } })
}

fn sleeping() -> DaemonState {
    let at = Timestamp { seconds: 1000, nanos: 0 };
    DaemonState::Sleep(PlannedRun { day: day(), at, sleep_seconds: 10 })
}

#[test]
fn sleeps_again_if_it_wakes_too_early() {
    match sleeping().advance(clock(998, 500_000_000), noon()) {
        DaemonState::Sleep(run) => {
            assert_eq!(run.day, day());
            assert_eq!(run.at, Timestamp { seconds: 1000, nanos: 0 });
            assert_eq!(run.sleep_seconds, 2);
        }
        _ => panic!("expected a sleep"),
    }
}

#[test]
fn submits_when_the_run_has_come() {
    for event in [clock(1000, 0), clock(1000, 1), clock(5000, 0)] {
        match sleeping().advance(event, noon()) {
            DaemonState::Submit(date) => assert_eq!(date, day()),
            _ => panic!("expected a submission"),
        }
    }
}

#[test]
fn gives_notice_and_plans_again() {
    let result = Json::object(vec![]);
    let done = DaemonEvent::Submitted { result, workhour: "8".to_string() };
    let state = DaemonState::Submit(day()).advance(done, noon());
    match &state {
        DaemonState::Notify(notice) => assert_eq!(notice.title, "autohour 提交成功"),
        _ => panic!("expected a notice"),
    }
    assert!(matches!(state.advance(DaemonEvent::Sent, noon()), DaemonState::Plan));
}

#[test]
fn goes_on_after_a_failure() {
    let failed = DaemonEvent::Failed("broken".to_string());
    let state = DaemonState::Submit(day()).advance(failed, noon());
    match &state {
        DaemonState::Notify(notice) => {
            assert_eq!(notice.title, "autohour 提交失败");
            assert_eq!(notice.body, "日期: 2026-04-02\n错误: broken");
        }
        _ => panic!("expected a notice"),
    }
    assert!(matches!(state.advance(DaemonEvent::Sent, noon()), DaemonState::Plan));
}

#[test]
fn plans_one_run_after_another() {
    let start = now();
    let first = match DaemonState::Plan.advance(DaemonEvent::Clock(start), noon()) {
        DaemonState::Sleep(run) => run,
        _ => panic!("expected a run"),
    };
    let reached = Moment { date: first.day, instant: first.at };
    match DaemonState::Plan.advance(DaemonEvent::Clock(reached), noon()) {
        DaemonState::Sleep(second) => {
            assert!(first.at.is_before(&second.at));
            assert!(first.day.is_before(&second.day));
        }
        _ => panic!("expected another run"),
    }
}

#[test]
fn stops_without_another_day() {
    let last = Date::from_ymd(262142, 12, 31).unwrap();
    let instant = Timestamp { seconds: i64::MAX, nanos: 0 };
    let event = DaemonEvent::Clock(Moment { date: last, instant });
    let stopped = DaemonState::Plan.advance(event, noon());
    assert!(matches!(stopped, DaemonState::Stopped(Failure::NoNextRun)));
}

#[test]
fn waits_for_what_it_asked() {
    assert!(matches!(DaemonState::Plan.advance(DaemonEvent::Sent, noon()), DaemonState::Plan));
    assert!(matches!(sleeping().advance(DaemonEvent::Sent, noon()), DaemonState::Sleep(_)));
    let submit = DaemonState::Submit(day()).advance(clock(1, 0), noon());
    assert!(matches!(submit, DaemonState::Submit(_)));
}
