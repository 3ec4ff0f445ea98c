use autohour::date::Date;
use autohour::double::{nearest_double, twice_is_near_integer, BILLIONTH};
use autohour::failure::Failure;
use autohour::hours::{is_in_half_hours, parse_workhour};
use autohour::log::{log_file_name, parse_log, parse_markdown_sections, validate_tomorrow};

const MARKDOWN_TEXT: &str = r#"
# 2026-04-02

## 工作记录
工时: 8
- 完成自动提报脚本联调
- 修复接口会话续期问题

## 明日计划
继续完善日志解析和失败告警

## 未完成工作
日报自动化收尾

## 需协调工作
确认项目配置

## 备注
无
"#;

fn hours(text: &str) -> f64 {
    parse_workhour(text).unwrap().parse().unwrap()
}

#[test]
fn parses_markdown_sections() {
    let sections = autohour::log::parse_markdown_sections(MARKDOWN_TEXT);
    assert!(sections.work_record.contains("工时: 8"));
    assert_eq!(sections.tomorrow.trim(), "继续完善日志解析和失败告警");
}

#[test]
fn parses_workhour() {
    assert_eq!(hours("工时：7.5h"), 7.5);
    assert!(parse_workhour("今天写代码").is_err());
}

#[test]
fn validates_tomorrow() {
    assert!(validate_tomorrow("小欧助手相关工作").is_ok());
    assert!(validate_tomorrow("abc").is_err());
}

#[test]
fn loads_log_file() {
    let date = Date::from_ymd(2026, 4, 2).unwrap();
    let path = log_file_name(&date);
    assert_eq!(path, "2026-04-02.md");
    let parsed = parse_log(date, path, MARKDOWN_TEXT).unwrap();
    assert_eq!(parsed.workhour.parse::<f64>().unwrap(), 8.0);
    assert!(parsed.work_record.contains("修复接口会话续期问题"));
}

#[test]
fn reads_every_section_of_a_log() {
    let date = Date::from_ymd(2026, 4, 2).unwrap();
    let parsed = parse_log(date, "logs/a.md".to_string(), MARKDOWN_TEXT).unwrap();
    assert_eq!(parsed.target_date, date);
    assert_eq!(parsed.log_path, "logs/a.md");
    assert_eq!(
        parsed.work_record,
        "工时: 8\n- 完成自动提报脚本联调\n- 修复接口会话续期问题"
    );
    assert_eq!(parsed.tomorrow, "继续完善日志解析和失败告警");
    assert_eq!(parsed.undone, "日报自动化收尾");
    assert_eq!(parsed.concert, "确认项目配置");
    assert_eq!(parsed.daily_remark, "无");
    assert_eq!(parsed.workhour, "8");
}

#[test]
fn reads_the_recommended_log() {
    let text = "## 工作记录\n工时：8\n1. 完成 A\n2. 处理 B\n\n## 明日计划\n继续推进 A，处理 B 的收尾问题\n\n## 未完成工作\n无\n\n## 需协调工作\n无\n\n## 备注\n无\n";
    let date = Date::from_ymd(2026, 4, 2).unwrap();
    let parsed = parse_log(date, String::new(), text).unwrap();
    assert_eq!(parsed.workhour, "8");
    assert_eq!(parsed.work_record, "工时：8\n1. 完成 A\n2. 处理 B");
    assert_eq!(parsed.undone, "无");
}

#[test]
fn keeps_lower_headings_and_ends_at_higher_ones() {
    let text = "## 工作记录\r\na\n### 备注\nb\n# top\nc\n## 备注\nd\n##备注\ne";
    let sections = parse_markdown_sections(text);
    assert_eq!(sections.work_record, "a\n### 备注\nb");
    assert_eq!(sections.daily_remark, "d\n##备注\ne");
    assert_eq!(sections.tomorrow, "");
}

#[test]
fn takes_the_last_heading_of_a_title() {
    let sections = parse_markdown_sections("## 备注\nfirst\n## 备注   \nsecond\n##   其他\nthird");
    assert_eq!(sections.daily_remark, "second");
    let emptied = parse_markdown_sections("## 备注\nfirst\n## 备注");
    assert_eq!(emptied.daily_remark, "");
}

#[test]
fn refuses_a_log_without_either_heading() {
    let date = Date::from_ymd(2026, 4, 2).unwrap();
    let no_record = parse_log(date, String::new(), "## 明日计划\n继续完善日志解析\n");
    assert!(matches!(no_record.err().unwrap(), Failure::NoWorkRecord));
    let no_plan = parse_log(date, String::new(), "## 工作记录\n工时: 8\n");
    assert!(matches!(no_plan.err().unwrap(), Failure::TomorrowTooShort));
    let no_hours = parse_log(date, String::new(), "## 工作记录\n写代码\n## 明日计划\n继续完善日志解析");
    assert!(matches!(no_hours.err().unwrap(), Failure::NoWorkhour));
}

#[test]
fn accepts_the_documented_declarations() {
    assert_eq!(hours("工时: 8"), 8.0);
    assert_eq!(hours("工时：8"), 8.0);
    assert_eq!(hours("工时: 7.5h"), 7.5);
    assert_eq!(hours("工时：7.5h"), 7.5);
    assert_eq!(hours("写代码\n工时: 3\n工时: 4"), 3.0);
}

#[test]
fn accepts_half_hours_only() {
    assert_eq!(hours("工时: 0.5"), 0.5);
    assert_eq!(hours("工时: 12.50"), 12.5);
    assert!(matches!(parse_workhour("工时: 7.3").err().unwrap(), Failure::WorkhourIncrement));
    assert!(matches!(parse_workhour("工时: 7.25").err().unwrap(), Failure::WorkhourIncrement));
    assert!(matches!(parse_workhour("工时: 0").err().unwrap(), Failure::WorkhourNotPositive));
    assert!(matches!(parse_workhour("工时: 0.00").err().unwrap(), Failure::WorkhourNotPositive));
    assert!(matches!(parse_workhour("工时: -8").err().unwrap(), Failure::NoWorkhour));
}

#[test]
fn forgives_a_billionth_of_a_half_hour() {
    for numeral in [
        "0.5000000001",
        "7.5000000001",
        "7.9999999999",
        "7.50000000000000000000",
        "8.0",
        "0.0000000001",
        "0.00000000025",
    ] {
        assert_eq!(parse_workhour(&format!("工时: {numeral}")).unwrap(), numeral);
    }
    for numeral in ["0.5000000005", "7.500000001", "7.499999999", "8.01", "0.0000000007", "0.000001"] {
        let refused = parse_workhour(&format!("工时: {numeral}")).err().unwrap();
        assert!(matches!(refused, Failure::WorkhourIncrement), "{numeral}");
    }
}

#[test]
fn takes_numbers_too_large_for_a_fraction() {
    for numeral in ["3000000000000000.3", "9007199254740991.7", "9007199254740992.3"] {
        assert_eq!(parse_workhour(&format!("工时: {numeral}")).unwrap(), numeral);
    }
    let many = format!("1{}.25", "0".repeat(400));
    assert_eq!(parse_workhour(&format!("工时: {many}")).unwrap(), many);
    assert!(parse_workhour("工时: 2251799813685247.25").is_err());
}

#[test]
fn takes_numbers_too_small_to_hold_for_nothing() {
    let none = format!("工时: 0.{}1", "0".repeat(400));
    assert!(matches!(parse_workhour(&none).err().unwrap(), Failure::WorkhourNotPositive));
    let least = format!("0.{}5", "0".repeat(323));
    assert_eq!(parse_workhour(&format!("工时: {least}")).unwrap(), least);
    let less = format!("工时: 0.{}2", "0".repeat(323));
    assert!(matches!(parse_workhour(&less).err().unwrap(), Failure::WorkhourNotPositive));
}

#[test]
fn rounds_to_double_precision() {
    let rounded = |whole: u64, fraction: &str| {
        let digits: Vec<char> = fraction.chars().collect();
        nearest_double(whole, &digits)
    };
    assert_eq!(rounded(0, "1"), (7_205_759_403_792_794, 56));
    assert_eq!(rounded(0, "000000001"), (BILLIONTH, 82));
    assert_eq!(rounded(0, ""), (0, 1074));
    assert_eq!(rounded(9_007_199_254_740_991, "5"), (9_007_199_254_740_992, 0));
    assert_eq!(rounded(4_503_599_627_370_498, "5"), (4_503_599_627_370_498, 0));
    for (whole, fraction) in [(7, "3"), (0, "05"), (123, "456789"), (1 << 51, "125")] {
        let (m, k) = rounded(whole, fraction);
        let value: f64 = format!("{whole}.{fraction}").parse().unwrap();
        assert_eq!(m as f64 / 2f64.powi(k as i32), value);
    }
    assert!(twice_is_near_integer(3, 1));
    assert!(!twice_is_near_integer(3, 2));
}

fn agrees_with_floating_point(numeral: &str) {
    let value: f64 = numeral.parse().unwrap();
    let found = parse_workhour(&format!("工时: {numeral}"));
    if value <= 0.0 {
        assert!(matches!(found, Err(Failure::WorkhourNotPositive)), "{numeral}");
    } else if ((value * 2.0).round() - (value * 2.0)).abs() > 1e-9 {
        assert!(matches!(found, Err(Failure::WorkhourIncrement)), "{numeral}");
    } else {
        assert_eq!(found.ok().unwrap(), numeral);
    }
}

#[test]
fn decides_as_floating_point_does() {
    let wholes = [
        "0", "1", "3", "7", "8", "24", "511", "1023", "1000000", "2097151", "4194304",
        "8388607", "1125899906842623", "2251799813685248", "4503599627370495",
        "9007199254740991", "9007199254740993", "18446744073709551616",
    ];
    let tails = [
        "", "1", "2", "4", "5", "9", "49", "50", "51", "4999999995", "4999999994999", "5000000005",
        "50000000049999999999", "5000000004999999900", "5000000005000000413701854",
        "9999999995", "9999999994999", "0000000005", "00000000049999999", "0000000005000000001",
        "00000000050000000000000003", "4999999999999999999999999", "25", "75", "00000000000000001",
        "000000000000000000000000000000000000000000000000000000000000000000001",
    ];
    for whole in wholes {
        for tail in tails {
            if tail.is_empty() {
                agrees_with_floating_point(whole);
            } else {
                agrees_with_floating_point(&format!("{whole}.{tail}"));
            }
        }
    }
    let mut seed: u64 = 88_172_645_463_325_252;
    for _ in 0..4000 {
        seed ^= seed << 13;
        seed ^= seed >> 7;
        seed ^= seed << 17;
        let half = ["0", "5", "4999999995", "5000000005", "9999999995"][(seed % 5) as usize];
        let whole = (seed >> 3) % (1 << (seed >> 58));
        agrees_with_floating_point(&format!("{whole}.{half}{}", (seed >> 20) % 1_000_000));
    }
}

#[test]
fn wants_a_declaration_in_one_line() {
    for text in ["工时:\n8", "工时\n: 8", "工\n时: 8", "工时:\r\n8", "工时: \n\n8h"] {
        assert!(matches!(parse_workhour(text).err().unwrap(), Failure::NoWorkhour), "{text:?}");
    }
    assert_eq!(parse_workhour("\n\n  工时: 8 \nh").unwrap(), "8");
    assert_eq!(parse_workhour("工时:\n工时: 4\r\nx").unwrap(), "4");
}

#[test]
fn knows_multiples_of_one_half() {
    for text in ["8", "7.5", "0", "-0.5", "12.50", "007.0", "7.5000000001", "-7.9999999999"] {
        assert!(is_in_half_hours(text), "{text}");
    }
    for text in ["", "-", "7.3", "NaN", "inf", "7.", ".5", "--1", "1e3", "+1", "7.55"] {
        assert!(!is_in_half_hours(text), "{text}");
    }
}

#[test]
fn leaves_sections_as_they_are_behind_a_top_heading() {
    for log in ["", "\n", "## 备注", "## 备注\na", "## 备注\na\n\n", "## 工作记录\nx\n## 备注\n\ny\n"] {
        for tail in ["", "a", "## 其他\nb", "### 备注\nc\n# 备注\nd\n"] {
            let longer = format!("{log}\n# x\n{tail}");
            let before = parse_markdown_sections(log);
            let after = parse_markdown_sections(&longer);
            assert_eq!(before.work_record, after.work_record, "{longer:?}");
            assert_eq!(before.daily_remark, after.daily_remark, "{longer:?}");
            assert_eq!(before.tomorrow, after.tomorrow, "{longer:?}");
        }
    }
}

#[test]
fn counts_visible_characters_of_the_plan() {
    assert_eq!(validate_tomorrow(" a b\u{3000}c\td ").unwrap(), " a b\u{3000}c\td ");
    assert!(matches!(validate_tomorrow("a b c  \n").err().unwrap(), Failure::TomorrowTooShort));
}

#[test]
fn finds_the_declarations_that_the_pattern_finds() {
    let pattern =
        regex::Regex::new(r"(?im)^[^\S\n]*工时[^\S\n]*[：:][^\S\n]*([0-9]+(?:\.[0-9]+)?)[^\S\n]*h?[^\S\n]*$")
            .unwrap();
    let starts = ["", " ", "\n", "x\n", "x ", "\u{3000}", "工时\n", "工时: 1x\n", "\r\n"];
    let words = ["工时", "工 时", "工时\n", "时工"];
    let colons = [":", "：", " : ", "", "::", "\n："];
    let numerals = ["8", "8.5", "0.5", "8.", ".5", "08.50", "8.5.5", "8 5", "1e3", "-1", "٣"];
    let ends = ["", "h", "H", " h ", "hh", "\n", "\nh", "h\nnext", " x", "\r\n", "\th\u{a0}\nx", "\nx"];
    for start in starts {
        for word in words {
            for colon in colons {
                for numeral in numerals {
                    for end in ends {
                        let text = format!("{start}{word}{colon}{numeral}{end}");
                        let wanted = pattern.captures(&text).map(|c| c[1].to_string());
                        match parse_workhour(&text) {
                            Ok(found) => assert_eq!(Some(found), wanted, "{text:?}"),
                            Err(Failure::NoWorkhour) => assert_eq!(None, wanted, "{text:?}"),
                            Err(_) => assert!(wanted.is_some(), "{text:?}"),
                        }
                    }
                }
            }
        }
    }
}

#[test]
fn finds_the_headings_that_the_pattern_finds() {
    let pattern = regex::Regex::new(r"^(#{1,6})\s+(.*?)\s*$").unwrap();
    let starts = ["", "#", "##", "###", "######", "#######", " ##", "\\##"];
    let gaps = ["", " ", "\t", "\u{3000}", "  "];
    let titles = ["备注", "备 注", "", "备注 #", "明日计划", "备注\rx"];
    let ends = ["", " ", "\r", "\u{2003}\t"];
    for start in starts {
        for gap in gaps {
            for title in titles {
                for end in ends {
                    let line = format!("{start}{gap}{title}{end}");
                    let text = format!("{line}\nbody");
                    let first = text.lines().next().unwrap();
                    let opened = match pattern.captures(first) {
                        Some(c) => c[1].len() == 2 && c[2].trim() == "备注",
                        None => false,
                    };
                    let sections = parse_markdown_sections(&text);
                    assert_eq!(sections.daily_remark == "body", opened, "{line:?}");
                }
            }
        }
    }
}

#[test]
fn splits_lines_as_the_standard_library_does() {
    for text in ["", "\n", "a", "a\n", "a\r\nb", "a\r\n\r\n", "\r", "a\rb\n", "a\n\nb\r\n", "a\r\r\n"] {
        let chars = autohour::text::chars_of(text);
        let lines = autohour::text::split_lines(&chars);
        let found: Vec<String> = lines.iter().map(|l| autohour::text::text_of(l)).collect();
        let wanted: Vec<String> = text.lines().map(|l| l.to_string()).collect();
        assert_eq!(found, wanted, "{text:?}");
    }
}
