use autohour::date::Date;
use autohour::failure::Failure;
use autohour::holidays::{
    days_of_stretches, holiday_calendar, holiday_file_name, is_linker_report_workday,
    parse_holiday_dates, HolidayCalendar, HolidayConfig,
};

fn date(year: i32, month: u32, day: u32) -> Date {
    Date::from_ymd(year, month, day).unwrap()
}

fn calendar_2026() -> HolidayCalendar {
    holiday_calendar(&HolidayConfig {
        holidays: vec!["2026-04-04..2026-04-06".to_string(), "2026-05-01..2026-05-05".to_string()],
        makeup_workdays: vec!["2026-05-09".to_string()],
    })
    .unwrap()
}

#[test]
fn identifies_2026_holiday_and_makeup_workday() {
    let calendar = calendar_2026();
    assert!(!is_linker_report_workday(&date(2026, 4, 6), &calendar));
    assert!(is_linker_report_workday(&date(2026, 5, 9), &calendar));
    assert!(!is_linker_report_workday(&date(2026, 4, 5), &calendar));
    assert!(is_linker_report_workday(&date(2026, 4, 7), &calendar));
}

#[test]
fn parses_holiday_dates_from_config_format() {
    let parsed = parse_holiday_dates(&[
        "2026-04-04..2026-04-06".to_string(),
        "2026-05-09".to_string(),
    ])
    .unwrap();
    assert_eq!(parsed.len(), 4);
    assert!(parsed.contains(&date(2026, 4, 4)));
    assert!(parsed.contains(&date(2026, 5, 9)));
}

#[test]
fn sorts_days_and_drops_repetitions() {
    let parsed = parse_holiday_dates(&[
        " 2026-12-31 .. 2027-01-02 ".to_string(),
        "2026-01-01".to_string(),
        "2027-01-01".to_string(),
        "2026-03-05..2026-03-04".to_string(),
    ])
    .unwrap();
    assert_eq!(
        parsed,
        vec![date(2026, 1, 1), date(2026, 12, 31), date(2027, 1, 1), date(2027, 1, 2)]
    );
    assert_eq!(
        days_of_stretches(&vec![(date(2026, 2, 27), date(2026, 3, 1))]),
        vec![date(2026, 2, 27), date(2026, 2, 28), date(2026, 3, 1)]
    );
    assert!(days_of_stretches(&vec![(date(2026, 2, 2), date(2026, 2, 1))]).is_empty());
}

#[test]
fn reaches_the_last_date() {
    let last = date(262142, 12, 31);
    assert_eq!(days_of_stretches(&vec![(last, last)]), vec![last]);
}

#[test]
fn names_the_first_text_that_is_no_date() {
    let bad = parse_holiday_dates(&["2026-04-04..x".to_string(), "y".to_string()]);
    match bad {
        Err(Failure::HolidayDate(text)) => assert_eq!(text, "x"),
        _ => panic!("expected a holiday that is no date"),
    }
    let config = HolidayConfig {
        holidays: vec!["2026-04-04".to_string()],
        makeup_workdays: vec!["2026-02-30".to_string()],
    };
    let message = holiday_calendar(&config).err().unwrap().message();
    assert_eq!(message, "invalid holiday date: 2026-02-30");
}

#[test]
fn prefers_worked_days_to_holidays() {
    let calendar = holiday_calendar(&HolidayConfig {
        holidays: vec!["2026-05-09".to_string()],
        makeup_workdays: vec!["2026-05-09".to_string()],
    })
    .unwrap();
    assert!(is_linker_report_workday(&date(2026, 5, 9), &calendar));
    assert!(!is_linker_report_workday(&date(2026, 5, 10), &calendar));
    assert!(is_linker_report_workday(&date(2026, 5, 11), &calendar));
}

#[test]
fn names_the_file_of_a_year() {
    assert_eq!(holiday_file_name(2026), "2026.json");
    assert_eq!(holiday_file_name(-5), "-5.json");
}

#[test]
fn lists_each_configured_day_once() {
    let calendar = holiday_calendar(&HolidayConfig {
        holidays: vec!["2026-01-01".to_string()],
        makeup_workdays: vec!["2026-02-08".to_string()],
    })
    .unwrap();
    assert_eq!(calendar.holidays, vec![date(2026, 1, 1)]);
    assert_eq!(calendar.makeup_workdays, vec![date(2026, 2, 8)]);
    let repeated = holiday_calendar(&HolidayConfig {
        holidays: vec!["2026-01-02".to_string(), "2026-01-01..2026-01-02".to_string()],
        makeup_workdays: vec![],
    })
    .unwrap();
    assert_eq!(repeated.holidays, vec![date(2026, 1, 1), date(2026, 1, 2)]);
}

#[test]
fn names_the_holiday_before_the_worked_day() {
    let config = HolidayConfig {
        holidays: vec!["2026-01-01".to_string(), "bad".to_string(), "2026-01-03".to_string()],
        makeup_workdays: vec!["worse".to_string()],
    };
    assert_eq!(holiday_calendar(&config).err().unwrap().message(), "invalid holiday date: bad");
}
