use autohour::date::Date;
use autohour::failure::Failure;
use autohour::holidays::{holiday_calendar, HolidayConfig};
use autohour::json::Json;
use autohour::missing::{
    month_asked, parse_day_list, parse_reported_days, read_month, sort_missing_days,
    summarize_missing_daily, validate_year_month, MissingDailyResult,
};
use autohour::notify::missing_notice;

fn date(year: i32, month: u32, day: u32) -> Date {
    Date::from_ymd(year, month, day).unwrap()
}

fn texts(items: &[&str]) -> Json {
    Json::Array(items.iter().map(|t| Json::string(t)).collect())
}

#[test]
fn parses_reported_days_with_annotations() {
    let value = texts(&["1(迟交)", "2", "12(补写)"]);
    assert_eq!(parse_reported_days(Some(&value)).unwrap(), vec![1, 2, 12]);
}

#[test]
fn sorts_reported_days() {
    let value = Json::Array(vec![
        Json::string(" 12 (补写)"),
        Json::string("3"),
        Json::Null,
        Json::string("(无)"),
        Json::Unsigned(9),
        Json::string("+3"),
    ]);
    assert_eq!(parse_reported_days(Some(&value)).unwrap(), vec![3, 12]);
    assert!(parse_reported_days(None).unwrap().is_empty());
    assert!(parse_reported_days(Some(&Json::string("1"))).unwrap().is_empty());
    match parse_reported_days(Some(&texts(&["1", "x(y)", "z"]))) {
        Err(Failure::ReportedDay(t)) => assert_eq!(t, "x(y)"),
        _ => panic!("expected a day that is none"),
    }
}

#[test]
fn reads_lists_of_days() {
    let value = Json::Array(vec![
        Json::Unsigned(7),
        Json::string("5"),
        Json::Bool(true),
        Json::Unsigned(7),
        Json::Unsigned(4294967297),
    ]);
    assert_eq!(parse_day_list(Some(&value)).unwrap(), vec![1, 5, 7]);
    match parse_day_list(Some(&Json::Array(vec![Json::Negative(-1)]))) {
        Err(e) => assert_eq!(e.message(), "invalid numeric day value: -1"),
        Ok(_) => panic!("expected a number that is no day"),
    }
    match parse_day_list(Some(&Json::Array(vec![Json::Decimal("1.5".to_string())]))) {
        Err(Failure::NumericDay(t)) => assert_eq!(t, "1.5"),
        _ => panic!("expected a number that is no day"),
    }
    match parse_day_list(Some(&texts(&[" 5"]))) {
        Err(Failure::DayValue(t)) => assert_eq!(t, " 5"),
        _ => panic!("expected a text that is no day"),
    }
}

#[test]
fn reads_both_lists_of_a_reply() {
    let data = Json::object(vec![
        ("write".to_string(), texts(&["2(迟交)", "1"])),
        ("nowrite".to_string(), Json::Array(vec![Json::Unsigned(4), Json::Unsigned(3)])),
    ]);
    let reply = Json::object(vec![("data".to_string(), data)]);
    let (written, missing) = read_month(&reply).unwrap();
    assert_eq!(written, vec![1, 2]);
    assert_eq!(missing, vec![3, 4]);
    let (none, nothing) = read_month(&Json::object(vec![])).unwrap();
    assert!(none.is_empty() && nothing.is_empty());
}

fn april() -> MissingDailyResult {
    let calendar = holiday_calendar(&HolidayConfig {
        holidays: vec!["2026-04-04..2026-04-06".to_string()],
        makeup_workdays: vec![],
    })
    .unwrap();
    sort_missing_days(
        2026,
        4,
        vec![1, 2],
        vec![3, 4, 6, 7, 8, 11, 31],
        date(2026, 4, 8),
        &calendar,
    )
}

#[test]
fn sorts_missing_days_into_classes() {
    let result = april();
    assert!(result.ok);
    assert_eq!(result.excluded_today, vec![8]);
    assert_eq!(result.excluded_non_workdays, vec![4, 6, 11]);
    assert_eq!(result.missing_workdays, vec![3, 7]);
    assert_eq!(result.raw_nowrite_days, vec![3, 4, 6, 7, 8, 11, 31]);
    assert_eq!(result.reported_days, vec![1, 2]);
}

#[test]
fn sums_up_a_month() {
    assert_eq!(
        summarize_missing_daily(&april()),
        "月份: 2026-04\n已填写: [1, 2]\n原始未填写: [3, 4, 6, 7, 8, 11, 31]\n排除当天: [8]\n排除非工作日: [4, 6, 11]\n实际缺报工作日: [3, 7]"
    );
    let empty = MissingDailyResult {
        ok: true,
        year: -7,
        month: 12,
        reported_days: vec![],
        raw_nowrite_days: vec![],
        excluded_today: vec![],
        excluded_non_workdays: vec![],
        missing_workdays: vec![],
    };
    let wanted = format!("月份: {:04}-{:02}\n已填写: {:?}", -7, 12, Vec::<u32>::new());
    assert!(summarize_missing_daily(&empty).starts_with(&wanted));
}

#[test]
fn gives_notice_of_missing_days_only() {
    let mut result = april();
    let notice = missing_notice(&result).unwrap();
    assert_eq!(notice.title, "autohour 检测到缺报");
    assert_eq!(notice.body, summarize_missing_daily(&result));
    result.missing_workdays.clear();
    assert!(missing_notice(&result).is_none());
}

#[test]
fn bounds_years_and_months() {
    assert!(validate_year_month(2000, 1).is_ok());
    assert!(validate_year_month(2100, 12).is_ok());
    assert!(matches!(validate_year_month(1999, 13).err().unwrap(), Failure::YearRange));
    assert!(matches!(validate_year_month(2101, 1).err().unwrap(), Failure::YearRange));
    assert!(matches!(validate_year_month(2026, 0).err().unwrap(), Failure::MonthRange));
    assert!(matches!(validate_year_month(2026, 13).err().unwrap(), Failure::MonthRange));
    assert_eq!(Failure::YearRange.message(), "year must be in 2000..=2100");
    assert_eq!(Failure::MonthRange.message(), "month must be in 1..=12");
}

#[test]
fn asks_for_the_current_month_by_default() {
    let today = date(2026, 4, 2);
    assert_eq!(month_asked(None, None, today), (2026, 4));
    assert_eq!(month_asked(Some(2025), None, today), (2025, 4));
    assert_eq!(month_asked(None, Some(12), today), (2026, 12));
}
