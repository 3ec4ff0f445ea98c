//! The working days of a month for which no report was written.
use vstd::prelude::*;
use vstd::slice::slice_subrange;

use crate::date::{Date, Ymd};
use crate::failure::Failure;
use crate::holidays::{is_linker_report_workday, HolidayCalendar};
use crate::json::{items_view, opt_view, Json, JsonView};
use crate::lists::{
    filter_agrees, filter_keeps, filter_keeps_order, filter_next, filter_of_none,
};
use crate::text::{
    all_white, chars_of, decimal, decimal_chars, decimal_reads_back, find_char, first_index,
    first_index_is, is_digit, is_white, joined, joining_separates_items, padded_chars,
    read_unsigned, signed_chars, signed_decimal, text_of, trim, trimmed,
    trimming_takes_the_white_around, unsigned_of, zero_padded,
};

verus! {

/// The year and month that are meant: those that are asked for, or else those of today.
pub fn month_asked(year: Option<i32>, month: Option<u32>, today: Date) -> (r: (i32, u32))
    ensures
        r.0 == (match year {
            Some(y) => y as int,
            None => today@.year,
        }),
        r.1 == (match month {
            Some(m) => m as int,
            None => today@.month,
        }),
{
    let y = match year {
        Some(y) => y,
        None => today.year(),
    };
    let m = match month {
        Some(m) => m,
        None => today.month(),
    };
    (y, m)
}

/// Accepts a year from 2000 to 2100 and a month of the calendar.
pub fn validate_year_month(year: i32, month: u32) -> (r: Result<(), Failure>)
    ensures
        match r {
            Ok(_) => 2000 <= year <= 2100 && 1 <= month <= 12,
            Err(e) => if 2000 <= year <= 2100 {
                !(1 <= month <= 12) && e is MonthRange
            } else {
                e is YearRange
            },
        },
{
    if !(2000 <= year && year <= 2100) {
        return Err(Failure::YearRange);
    }
    if !(1 <= month && month <= 12) {
        return Err(Failure::MonthRange);
    }
    Ok(())
}

// ---------------------------------------------------------------------------
// Lists of days
// ---------------------------------------------------------------------------
/// What one item of a list of days stands for.
pub enum Entry {
    /// Nothing.
    Skipped,
    /// A day number.
    Day(int),
    /// Something that should have been a day number.
    Invalid,
}

/// The part of a reported day before an annotation in brackets, without white space around it.
pub open spec fn before_annotation(text: Seq<char>) -> Seq<char> {
    trimmed(text.take(first_index(text, '(')))
}

/// What an item of the list of reported days stands for: a text with a day number, perhaps with
/// an annotation in brackets behind it.
pub open spec fn reported_entry(item: JsonView) -> Entry {
    match item.text() {
        None => Entry::Skipped,
        Some(text) => if before_annotation(text).len() == 0 {
            Entry::Skipped
        } else {
            match unsigned_of(before_annotation(text), u32::MAX as int) {
                Some(n) => Entry::Day(n),
                None => Entry::Invalid,
            }
        },
    }
}

/// Whether an error names an item of the list of reported days.
pub open spec fn reported_error(item: JsonView, e: Failure) -> bool {
    e matches Failure::ReportedDay(t) && item.text() == Some(t@)
}

/// What an item of the list of missing days stands for: a number, of which the lower 32 bits
/// count, or a text with a day number.
pub open spec fn listed_entry(item: JsonView) -> Entry {
    match item {
        JsonView::Unsigned(n) => Entry::Day(n as int % 0x1_0000_0000),
        JsonView::Negative(_) => Entry::Invalid,
        JsonView::Decimal(_) => Entry::Invalid,
        JsonView::Text(text) => match unsigned_of(text, u32::MAX as int) {
            Some(n) => Entry::Day(n),
            None => Entry::Invalid,
        },
        _ => Entry::Skipped,
    }
}

/// Whether an error names an item of the list of missing days.
pub open spec fn listed_error(item: JsonView, e: Failure) -> bool {
    match item {
        JsonView::Negative(n) => e matches Failure::NumericDay(t) && t@ == signed_decimal(n as int),
        JsonView::Decimal(x) => e matches Failure::NumericDay(t) && t@ == x,
        JsonView::Text(x) => e matches Failure::DayValue(t) && t@ == x,
        _ => false,
    }
}

/// A list of days that the server keeps of a month.
#[derive(Clone, Copy)]
pub enum DayList {
    /// The days that were reported.
    Reported,
    /// The days that were not.
    Missing,
}

impl DayList {
    /// What an item of the list stands for.
    pub open spec fn entry(self, item: JsonView) -> Entry {
        match self {
            DayList::Reported => reported_entry(item),
            DayList::Missing => listed_entry(item),
        }
    }

    /// Whether an error names an item of the list.
    pub open spec fn error(self, item: JsonView, e: Failure) -> bool {
        match self {
            DayList::Reported => reported_error(item, e),
            DayList::Missing => listed_error(item, e),
        }
    }
}

/// Whether the numbers of a list grow.
pub open spec fn growing(days: Seq<u32>) -> bool {
    forall|i: int, j: int| 0 <= i < j < days.len() ==> days[i] < days[j]
}

/// The items of an array; none for anything else.
pub open spec fn array_items(value: Option<JsonView>) -> Seq<JsonView> {
    match value {
        Some(v) => match v.items() {
            Some(items) => items,
            None => seq![],
        },
        None => seq![],
    }
}

/// Whether one of some items stands for a day number.
pub open spec fn some_day(list: DayList, items: Seq<JsonView>, n: u32) -> bool {
    exists|i: int| 0 <= i < items.len() && list.entry(#[trigger] items[i]) == Entry::Day(n as int)
}

/// Whether the items of a list stand for `days`: it holds the day numbers among them, in order
/// and each once.
pub open spec fn days_read(list: DayList, items: Seq<JsonView>, days: Seq<u32>) -> bool {
    &&& growing(days)
    &&& forall|i: int| 0 <= i < items.len() ==> !(list.entry(#[trigger] items[i]) is Invalid)
    &&& forall|n: u32| #[trigger] days.contains(n) <==> some_day(list, items, n)
}

/// Whether an error names the first item that should have been a day number.
pub open spec fn first_invalid(list: DayList, items: Seq<JsonView>, e: Failure) -> bool {
    exists|i: int|
        {
            &&& 0 <= i < items.len()
            &&& list.entry(#[trigger] items[i]) is Invalid
            &&& list.error(items[i], e)
            &&& forall|j: int| 0 <= j < i ==> !(list.entry(#[trigger] items[j]) is Invalid)
        }
}

/// Whether `r` is the list of days that a value stands for. What is no array has no items.
pub open spec fn days_of(
    list: DayList,
    value: Option<JsonView>,
    r: Result<Vec<u32>, Failure>,
) -> bool {
    match r {
        Ok(days) => days_read(list, array_items(value), days@),
        Err(e) => first_invalid(list, array_items(value), e),
    }
}

/// Puts a number into a growing list, unless it is there.
fn insert_number(days: &mut Vec<u32>, n: u32)
    requires
        growing(old(days)@),
    ensures
        growing(final(days)@),
        forall|x: u32| #[trigger] final(days)@.contains(x) <==> old(days)@.contains(x) || x == n,
{
    let ghost before = days@;
    let mut i: usize = days.len();
    while i > 0 && n < days[i - 1]
        invariant
            days@ == before,
            i <= before.len(),
            growing(before),
            forall|j: int| i <= j < before.len() ==> n < #[trigger] before[j],
        decreases i,
    {
        i -= 1;
    }
    if i > 0 && days[i - 1] == n {
        assert(before[i - 1] == n);
        return ;
    }
    days.insert(i, n);
    proof {
        let after = days@;
        assert(after =~= before.insert(i as int, n));
        assert(after[i as int] == n);
        assert forall|x: u32| #[trigger] after.contains(x) <==> before.contains(x) || x == n by {
            if before.contains(x) {
                let a = choose|a: int| 0 <= a < before.len() && before[a] == x;
                if a < i {
                    assert(after[a] == x);
                } else {
                    assert(after[a + 1] == x);
                }
            }
            if after.contains(x) {
                let a = choose|a: int| 0 <= a < after.len() && after[a] == x;
                if a < i {
                    assert(before[a] == x);
                } else if a > i {
                    assert(before[a - 1] == x);
                }
            }
        }
    }
}

/// What an item of the list of reported days stands for, as an error or perhaps a number.
fn read_reported(item: &Json) -> (r: Result<Option<u32>, Failure>)
    ensures
        match r {
            Ok(Some(n)) => reported_entry(item@) == Entry::Day(n as int),
            Ok(None) => reported_entry(item@) is Skipped,
            Err(e) => reported_entry(item@) is Invalid && reported_error(item@, e),
        },
{
    match item.as_str() {
        None => Ok(None),
        Some(text) => {
            let chars = chars_of(text);
            let s = chars.as_slice();
            assert(s@.skip(0) =~= s@);
            let end = find_char(s, 0, '(');
            let head = slice_subrange(s, 0, end);
            assert(head@ =~= text@.take(end as int));
            let day_text = trim(head);
            if day_text.len() == 0 {
                return Ok(None);
            }
            match read_unsigned(day_text, 0xffff_ffff) {
                Some(n) => Ok(Some(n as u32)),
                None => Err(Failure::ReportedDay(text.to_string())),
            }
        },
    }
}

/// What an item of the list of missing days stands for, as an error or perhaps a number.
fn read_listed(item: &Json) -> (r: Result<Option<u32>, Failure>)
    ensures
        match r {
            Ok(Some(n)) => listed_entry(item@) == Entry::Day(n as int),
            Ok(None) => listed_entry(item@) is Skipped,
            Err(e) => listed_entry(item@) is Invalid && listed_error(item@, e),
        },
{
    match item {
        Json::Unsigned(n) => Ok(Some((*n % 0x1_0000_0000) as u32)),
        Json::Negative(n) => {
            let digits = signed_chars(*n);
            Err(Failure::NumericDay(text_of(digits.as_slice())))
        },
        Json::Decimal(t) => Err(Failure::NumericDay(t.clone())),
        Json::Text(text) => {
            let chars = chars_of(text.as_str());
            match read_unsigned(chars.as_slice(), 0xffff_ffff) {
                Some(n) => Ok(Some(n as u32)),
                None => Err(Failure::DayValue(text.clone())),
            }
        },
        _ => Ok(None),
    }
}

/// What an item of a list stands for, as an error or perhaps a number.
fn read_item(list: DayList, item: &Json) -> (r: Result<Option<u32>, Failure>)
    ensures
        match r {
            Ok(Some(n)) => list.entry(item@) == Entry::Day(n as int),
            Ok(None) => list.entry(item@) is Skipped,
            Err(e) => list.entry(item@) is Invalid && list.error(item@, e),
        },
{
    match list {
        DayList::Reported => read_reported(item),
        DayList::Missing => read_listed(item),
    }
}

/// One item more stands for what it stands for and what the others stand for.
proof fn one_more_item(list: DayList, items: Seq<JsonView>, i: int, n: u32)
    requires
        0 <= i < items.len(),
    ensures
        some_day(list, items.take(i + 1), n) <==> some_day(list, items.take(i), n) || list.entry(
            items[i],
        ) == Entry::Day(n as int),
{
    let now = items.take(i);
    let next = items.take(i + 1);
    if some_day(list, now, n) {
        let j = choose|j: int|
            0 <= j < now.len() && list.entry(#[trigger] now[j]) == Entry::Day(n as int);
        assert(next[j] == now[j]);
    }
    if some_day(list, next, n) {
        let j = choose|j: int|
            0 <= j < next.len() && list.entry(#[trigger] next[j]) == Entry::Day(n as int);
        if j < i {
            assert(now[j] == next[j]);
        }
    }
    assert(next[i] == items[i]);
}

/// Reads a list of days.
fn read_days(list: DayList, value: Option<&Json>) -> (r: Result<Vec<u32>, Failure>)
    ensures
        days_of(list, opt_view(value), r),
{
    let mut days: Vec<u32> = Vec::new();
    let items: &Vec<Json> = match value {
        None => {
            return Ok(days);
        },
        Some(v) => match v.as_array() {
            None => {
                return Ok(days);
            },
            Some(items) => items,
        },
    };
    let ghost all = items_view(items@);
    let mut i: usize = 0;
    assert(forall|n: u32| !some_day(list, all.take(0), n));
    while i < items.len()
        invariant
            i <= items@.len(),
            all == items_view(items@),
            array_items(opt_view(value)) == all,
            growing(days@),
            forall|j: int| 0 <= j < i ==> !(list.entry(#[trigger] all[j]) is Invalid),
            forall|n: u32| #[trigger] days@.contains(n) <==> some_day(list, all.take(i as int), n),
        decreases items@.len() - i,
    {
        let ghost before = days@;
        assert(all[i as int] == items@[i as int]@);
        match read_item(list, &items[i]) {
            Ok(Some(n)) => {
                insert_number(&mut days, n);
            },
            Ok(None) => {},
            Err(e) => {
                assert(list.entry(all[i as int]) is Invalid);
                return Err(e);
            },
        }
        proof {
            assert forall|n: u32| #[trigger] days@.contains(n) <==> some_day(
                list,
                all.take(i + 1),
                n,
            ) by {
                one_more_item(list, all, i as int, n);
                assert(before.contains(n) <==> some_day(list, all.take(i as int), n));
            }
        }
        i += 1;
    }
    assert(all.take(i as int) =~= all);
    Ok(days)
}

/// Reads the days that were reported.
pub fn parse_reported_days(value: Option<&Json>) -> (r: Result<Vec<u32>, Failure>)
    ensures
        days_of(DayList::Reported, opt_view(value), r),
{
    read_days(DayList::Reported, value)
}

/// Reads the days that were not reported.
pub fn parse_day_list(value: Option<&Json>) -> (r: Result<Vec<u32>, Failure>)
    ensures
        days_of(DayList::Missing, opt_view(value), r),
{
    read_days(DayList::Missing, value)
}

/// A day number can be reported with white space around it and with an annotation in brackets
/// behind it.
pub proof fn reported_days_are_read(
    n: u32,
    before: Seq<char>,
    behind: Seq<char>,
    note: Seq<char>,
    annotated: bool,
)
    requires
        all_white(before),
        all_white(behind),
    ensures
        reported_entry(
            JsonView::Text(
                before + decimal(n as int) + behind + if annotated {
                    seq!['('] + note
                } else {
                    seq![]
                },
            ),
        ) == Entry::Day(n as int),
{
    let digits = decimal(n as int);
    decimal_reads_back(n as int);
    let head = before + digits + behind;
    let rest: Seq<char> = if annotated {
        seq!['('] + note
    } else {
        seq![]
    };
    let text = head + rest;
    assert forall|i: int| 0 <= i < head.len() implies text[i] != '(' by {
        if i < before.len() {
            assert(text[i] == before[i]);
            assert(is_white(before[i]));
        } else if i < before.len() + digits.len() {
            assert(text[i] == digits[i - before.len()]);
            assert(is_digit(digits[i - before.len()]));
        } else {
            assert(text[i] == behind[i - before.len() - digits.len()]);
            assert(is_white(behind[i - before.len() - digits.len()]));
        }
    }
    first_index_is(text, '(', head.len() as int);
    assert(text.take(head.len() as int) =~= head);
    assert(is_digit(digits[0]) && is_digit(digits[digits.len() - 1]));
    trimming_takes_the_white_around(before, digits, behind);
}

/// What else an item of the list of reported days can be: what is no text, and a text with nothing
/// before its annotation, says nothing; a text with anything but a day number there is wrong.
pub proof fn other_reports_are_no_days(item: JsonView, text: Seq<char>)
    ensures
        !(item is Text) ==> reported_entry(item) is Skipped,
        item == JsonView::Text(text) ==> {
            let said = trimmed(text.take(first_index(text, '(')));
            &&& reported_entry(item) is Skipped <==> said.len() == 0
            &&& reported_entry(item) is Invalid <==> said.len() > 0 && unsigned_of(
                said,
                u32::MAX as int,
            ) is None
        },
{
}

/// How a day number stands in the list of missing days: as a number, or as a text of its digits.
/// Other numbers and other texts are wrong, and what is neither says nothing.
pub proof fn listed_days_are_read(n: u32, item: JsonView)
    ensures
        listed_entry(JsonView::Unsigned(n as u64)) == Entry::Day(n as int),
        listed_entry(JsonView::Text(decimal(n as int))) == Entry::Day(n as int),
        item is Negative || item is Decimal ==> listed_entry(item) is Invalid,
        item matches JsonView::Text(t) ==> (listed_entry(item) is Invalid <==> unsigned_of(
            t,
            u32::MAX as int,
        ) is None),
        item is Null || item is Bool || item is Array || item is Object ==> listed_entry(
            item,
        ) is Skipped,
{
    decimal_reads_back(n as int);
    assert(is_digit(decimal(n as int)[0]));
}

/// A list of days that was read has each day number that an item stands for, once and in order,
/// and no other. A list that was not read has an item that is wrong, and none before it.
pub proof fn lists_hold_the_days_of_their_items(
    list: DayList,
    items: Seq<JsonView>,
    r: Result<Vec<u32>, Failure>,
    k: int,
    n: u32,
)
    requires
        days_of(list, Some(JsonView::Array(items)), r),
        0 <= k < items.len(),
    ensures
        r matches Ok(days) ==> {
            &&& forall|i: int, j: int| 0 <= i < j < days@.len() ==> days@[i] < days@[j]
            &&& list.entry(items[k]) == Entry::Day(n as int) ==> days@.contains(n)
            &&& !(list.entry(items[k]) is Invalid)
            &&& days@.contains(n) ==> exists|i: int|
                0 <= i < items.len() && list.entry(#[trigger] items[i]) == Entry::Day(n as int)
        },
        r is Err ==> exists|i: int|
            0 <= i < items.len() && list.entry(#[trigger] items[i]) is Invalid,
{
    if let Ok(days) = r {
        assert(days@.contains(n) <==> some_day(list, items, n));
    }
}

/// The list of reported days and the list of missing days are read each in its own way.
pub proof fn lists_are_read_in_their_ways(item: JsonView)
    ensures
        DayList::Reported.entry(item) == reported_entry(item),
        DayList::Missing.entry(item) == listed_entry(item),
{
}

/// What is no array has no items, and stands for no days.
pub proof fn what_is_no_list_has_no_days(
    list: DayList,
    value: Option<JsonView>,
    r: Result<Vec<u32>, Failure>,
)
    requires
        days_of(list, value, r),
        !(value matches Some(JsonView::Array(_))),
    ensures
        r matches Ok(days) && days@.len() == 0,
{
    if let Ok(days) = r {
        if days@.len() > 0 {
            assert(days@.contains(days@[0]));
            assert(some_day(list, array_items(value), days@[0]));
        }
    }
}

// ---------------------------------------------------------------------------
// Missing reports
// ---------------------------------------------------------------------------
/// What a day without a report is.
pub enum DayClass {
    /// No day of the calendar.
    NoSuchDay,
    /// The current day, whose report may still come.
    Today,
    /// A day on which nobody works.
    NonWorkday,
    /// A working day whose report is missing.
    Missing,
}

/// What the day `day` of a month without a report is.
pub open spec fn class_of(
    year: int,
    month: int,
    day: int,
    today: Ymd,
    calendar: HolidayCalendar,
) -> DayClass {
    let d = Ymd { year, month, day };
    if !d.valid() {
        DayClass::NoSuchDay
    } else if d == today {
        DayClass::Today
    } else if !calendar.is_workday(d) {
        DayClass::NonWorkday
    } else {
        DayClass::Missing
    }
}

/// The days of a list that belong to a class, in their order.
pub open spec fn of_class(
    days: Seq<u32>,
    year: int,
    month: int,
    today: Ymd,
    calendar: HolidayCalendar,
    class: DayClass,
) -> Seq<u32> {
    days.filter(|d: u32| class_of(year, month, d as int, today, calendar) == class)
}

/// The days of a month by whether they were reported.
pub struct MissingDailyResult {
    pub ok: bool,
    pub year: i32,
    pub month: u32,
    pub reported_days: Vec<u32>,
    pub raw_nowrite_days: Vec<u32>,
    pub excluded_today: Vec<u32>,
    pub excluded_non_workdays: Vec<u32>,
    pub missing_workdays: Vec<u32>,
}

impl MissingDailyResult {
    /// Whether each day without a report stands where it belongs.
    pub open spec fn sorted_by(self, today: Ymd, calendar: HolidayCalendar) -> bool {
        let year = self.year as int;
        let month = self.month as int;
        let raw = self.raw_nowrite_days@;
        &&& self.excluded_today@ == of_class(raw, year, month, today, calendar, DayClass::Today)
        &&& self.excluded_non_workdays@ == of_class(
            raw,
            year,
            month,
            today,
            calendar,
            DayClass::NonWorkday,
        )
        &&& self.missing_workdays@ == of_class(raw, year, month, today, calendar, DayClass::Missing)
    }
}

/// Whether a month without reports for some days has to be held against the calendar: one of them
/// is a day of the month other than the current day.
pub open spec fn needs_calendar(days: Seq<u32>, year: int, month: int, today: Ymd) -> bool {
    exists|i: int|
        0 <= i < days.len() && {
            let d = Ymd { year, month, day: #[trigger] days[i] as int };
            d.valid() && d != today
        }
}

/// The calendar is needed exactly where one of the days is a day of the month other than the
/// current day.
pub proof fn other_days_need_the_calendar(
    days: Seq<u32>,
    year: int,
    month: int,
    today: Ymd,
    k: int,
)
    ensures
        0 <= k < days.len() && (Ymd { year, month, day: days[k] as int }).valid() && (Ymd {
            year,
            month,
            day: days[k] as int,
        }) != today ==> needs_calendar(days, year, month, today),
        (forall|i: int|
            0 <= i < days.len() ==> !(Ymd {
                year,
                month,
                day: #[trigger] days[i] as int,
            }).valid() || (Ymd { year, month, day: days[i] as int }) == today) ==> !needs_calendar(
            days,
            year,
            month,
            today,
        ),
{
}

/// Tells whether a month without reports for some days has to be held against the calendar.
pub fn wants_calendar(days: &Vec<u32>, year: i32, month: u32, today: Date) -> (r: bool)
    ensures
        r == needs_calendar(days@, year as int, month as int, today@),
{
    let mut i: usize = 0;
    while i < days.len()
        invariant
            i <= days@.len(),
            !needs_calendar(days@.take(i as int), year as int, month as int, today@),
        decreases days@.len() - i,
    {
        let ghost next = days@.take(i + 1);
        if let Some(date) = Date::from_ymd(year, month, days[i]) {
            if !date.same(&today) {
                return true;
            }
        }
        assert forall|j: int| 0 <= j < next.len() implies {
            let d = Ymd { year: year as int, month: month as int, day: #[trigger] next[j] as int };
            !d.valid() || d == today@
        } by {
            if j < i {
                assert(next[j] == days@.take(i as int)[j]);
            }
        }
        i += 1;
    }
    assert(days@.take(i as int) =~= days@);
    false
}

/// Sorts the days without a report: the current day and the days on which nobody works are no
/// fault, all other days of the month are.
pub fn sort_missing_days(
    year: i32,
    month: u32,
    reported_days: Vec<u32>,
    raw_nowrite_days: Vec<u32>,
    today: Date,
    calendar: &HolidayCalendar,
) -> (r: MissingDailyResult)
    ensures
        r.ok,
        r.year == year,
        r.month == month,
        r.reported_days == reported_days,
        r.raw_nowrite_days == raw_nowrite_days,
        r.sorted_by(today@, *calendar),
{
    let mut excluded_today: Vec<u32> = Vec::new();
    let mut excluded_non_workdays: Vec<u32> = Vec::new();
    let mut missing_workdays: Vec<u32> = Vec::new();
    let ghost raw = raw_nowrite_days@;
    let ghost y = year as int;
    let ghost m = month as int;
    let ghost is_today = |d: u32|
        class_of(y, m, d as int, today@, *calendar) == DayClass::Today;
    let ghost is_off = |d: u32|
        class_of(y, m, d as int, today@, *calendar) == DayClass::NonWorkday;
    let ghost is_missing = |d: u32|
        class_of(y, m, d as int, today@, *calendar) == DayClass::Missing;
    let mut i: usize = 0;
    proof {
        reveal(Seq::filter);
        assert(raw.take(0) =~= seq![]);
    }
    while i < raw_nowrite_days.len()
        invariant
            i <= raw_nowrite_days@.len(),
            raw == raw_nowrite_days@,
            y == year,
            m == month,
            is_today == (|d: u32| class_of(y, m, d as int, today@, *calendar) == DayClass::Today),
            is_off == (|d: u32|
                class_of(y, m, d as int, today@, *calendar) == DayClass::NonWorkday),
            is_missing == (|d: u32|
                class_of(y, m, d as int, today@, *calendar) == DayClass::Missing),
            excluded_today@ == raw.take(i as int).filter(is_today),
            excluded_non_workdays@ == raw.take(i as int).filter(is_off),
            missing_workdays@ == raw.take(i as int).filter(is_missing),
        decreases raw_nowrite_days@.len() - i,
    {
        let day = raw_nowrite_days[i];
        proof {
            filter_next(raw, i as int, is_today);
            filter_next(raw, i as int, is_off);
            filter_next(raw, i as int, is_missing);
        }
        match Date::from_ymd(year, month, day) {
            None => {},
            Some(date) => {
                if date.same(&today) {
                    excluded_today.push(day);
                } else if !is_linker_report_workday(&date, calendar) {
                    excluded_non_workdays.push(day);
                } else {
                    missing_workdays.push(day);
                }
            },
        }
        i += 1;
    }
    assert(raw.take(i as int) =~= raw);
    MissingDailyResult {
        ok: true,
        year,
        month,
        reported_days,
        raw_nowrite_days,
        excluded_today,
        excluded_non_workdays,
        missing_workdays,
    }
}

/// Days that need no calendar are sorted alike by any calendar, and none of them is missing.
pub proof fn calendar_is_needed_for_other_days(
    result: MissingDailyResult,
    today: Ymd,
    one: HolidayCalendar,
    other: HolidayCalendar,
)
    requires
        !needs_calendar(
            result.raw_nowrite_days@,
            result.year as int,
            result.month as int,
            today,
        ),
        result.sorted_by(today, one),
    ensures
        result.sorted_by(today, other),
        result.missing_workdays@.len() == 0,
        result.excluded_non_workdays@.len() == 0,
{
    let year = result.year as int;
    let month = result.month as int;
    let raw = result.raw_nowrite_days@;
    let is_today = |d: u32| class_of(year, month, d as int, today, one) == DayClass::Today;
    let is_off = |d: u32| class_of(year, month, d as int, today, one) == DayClass::NonWorkday;
    let is_missing = |d: u32| class_of(year, month, d as int, today, one) == DayClass::Missing;
    filter_agrees(
        raw,
        is_today,
        |d: u32| class_of(year, month, d as int, today, other) == DayClass::Today,
    );
    filter_agrees(
        raw,
        is_off,
        |d: u32| class_of(year, month, d as int, today, other) == DayClass::NonWorkday,
    );
    filter_agrees(
        raw,
        is_missing,
        |d: u32| class_of(year, month, d as int, today, other) == DayClass::Missing,
    );
    filter_of_none(raw, is_off);
    filter_of_none(raw, is_missing);
}

/// A day counts as missing only if it was not reported, is a day of the month, is not the current
/// day and is a working day: one that is worked for another, or no holiday and no day at a
/// weekend.
pub proof fn missing_days_are_due(
    result: MissingDailyResult,
    today: Ymd,
    calendar: HolidayCalendar,
    day: u32,
)
    requires
        result.sorted_by(today, calendar),
        result.missing_workdays@.contains(day),
    ensures
        ({
            let d = Ymd { year: result.year as int, month: result.month as int, day: day as int };
            &&& result.raw_nowrite_days@.contains(day)
            &&& d.valid()
            &&& d != today
            &&& calendar.is_workday(d)
        }),
{
    filter_keeps(
        result.raw_nowrite_days@,
        |d: u32|
            class_of(result.year as int, result.month as int, d as int, today, calendar)
                == DayClass::Missing,
        day,
    );
}

/// Each day without a report stands in the list that it belongs to and in no other: the current
/// day, the days on which nobody works, and all other days of the month. A working day counts as
/// missing whatever day of the week it is, and a day is passed over only where nobody works.
pub proof fn due_days_are_missing(
    result: MissingDailyResult,
    today: Ymd,
    calendar: HolidayCalendar,
    day: u32,
)
    requires
        result.sorted_by(today, calendar),
    ensures
        ({
            let d = Ymd { year: result.year as int, month: result.month as int, day: day as int };
            let listed = result.raw_nowrite_days@.contains(day) && d.valid();
            &&& result.excluded_today@.contains(day) <==> listed && d == today
            &&& result.missing_workdays@.contains(day) <==> listed && d != today
                && calendar.is_workday(d)
            &&& result.excluded_non_workdays@.contains(day) <==> listed && d != today
                && !calendar.is_workday(d)
        }),
{
    let year = result.year as int;
    let month = result.month as int;
    let raw = result.raw_nowrite_days@;
    filter_keeps(
        raw,
        |d: u32| class_of(year, month, d as int, today, calendar) == DayClass::Today,
        day,
    );
    filter_keeps(
        raw,
        |d: u32| class_of(year, month, d as int, today, calendar) == DayClass::NonWorkday,
        day,
    );
    filter_keeps(
        raw,
        |d: u32| class_of(year, month, d as int, today, calendar) == DayClass::Missing,
        day,
    );
}

/// The lists of days keep the order of the days without a report.
pub proof fn sorted_days_stay_in_order(
    result: MissingDailyResult,
    today: Ymd,
    calendar: HolidayCalendar,
)
    requires
        result.sorted_by(today, calendar),
        forall|i: int, j: int|
            0 <= i < j < result.raw_nowrite_days@.len() ==> result.raw_nowrite_days@[i]
                < result.raw_nowrite_days@[j],
    ensures
        forall|i: int, j: int|
            0 <= i < j < result.excluded_today@.len() ==> result.excluded_today@[i]
                < result.excluded_today@[j],
        forall|i: int, j: int|
            0 <= i < j < result.excluded_non_workdays@.len() ==> result.excluded_non_workdays@[i]
                < result.excluded_non_workdays@[j],
        forall|i: int, j: int|
            0 <= i < j < result.missing_workdays@.len() ==> result.missing_workdays@[i]
                < result.missing_workdays@[j],
{
    let year = result.year as int;
    let month = result.month as int;
    let raw = result.raw_nowrite_days@;
    filter_keeps_order(
        raw,
        |d: u32| class_of(year, month, d as int, today, calendar) == DayClass::Today,
    );
    filter_keeps_order(
        raw,
        |d: u32| class_of(year, month, d as int, today, calendar) == DayClass::NonWorkday,
    );
    filter_keeps_order(
        raw,
        |d: u32| class_of(year, month, d as int, today, calendar) == DayClass::Missing,
    );
}

/// Every day without a report that the month has is found in exactly one of the three lists, and
/// nothing else is found there.
pub proof fn each_day_in_one_list(
    result: MissingDailyResult,
    today: Ymd,
    calendar: HolidayCalendar,
    day: u32,
)
    requires
        result.sorted_by(today, calendar),
    ensures
        ({
            let d = Ymd { year: result.year as int, month: result.month as int, day: day as int };
            let a = result.excluded_today@.contains(day);
            let b = result.excluded_non_workdays@.contains(day);
            let c = result.missing_workdays@.contains(day);
            &&& (a || b || c) <==> (result.raw_nowrite_days@.contains(day) && d.valid())
            &&& !(a && b) && !(a && c) && !(b && c)
        }),
{
    let year = result.year as int;
    let month = result.month as int;
    let raw = result.raw_nowrite_days@;
    let is_today = |d: u32| class_of(year, month, d as int, today, calendar) == DayClass::Today;
    let is_off = |d: u32| class_of(year, month, d as int, today, calendar) == DayClass::NonWorkday;
    let is_missing = |d: u32|
        class_of(year, month, d as int, today, calendar) == DayClass::Missing;
    filter_keeps(raw, is_today, day);
    filter_keeps(raw, is_off, day);
    filter_keeps(raw, is_missing, day);
}

/// A field of the data that a reply brings; none where it brings no data.
pub open spec fn data_field(reply: JsonView, key: Seq<char>) -> Option<JsonView> {
    match reply.field("data"@) {
        Some(data) => data.field(key),
        None => None,
    }
}

/// Whether `r` is what a reply says of a month: the days that were reported and the days that
/// were not, or the first value of a list that is no day, where the reported days come first.
pub open spec fn month_read(reply: JsonView, r: Result<(Vec<u32>, Vec<u32>), Failure>) -> bool {
    match r {
        Ok(lists) => {
            &&& days_of(DayList::Reported, data_field(reply, "write"@), Ok(lists.0))
            &&& days_of(DayList::Missing, data_field(reply, "nowrite"@), Ok(lists.1))
        },
        Err(e) => {
            ||| days_of(DayList::Reported, data_field(reply, "write"@), Err(e))
            ||| {
                &&& exists|days: Vec<u32>| #[trigger]
                    days_of(DayList::Reported, data_field(reply, "write"@), Ok(days))
                &&& days_of(DayList::Missing, data_field(reply, "nowrite"@), Err(e))
            }
        },
    }
}

/// Where the days of a month are found: those that were reported in the field `write` of the data
/// of a reply, those that were not in its field `nowrite`. Without data there are none.
pub proof fn days_are_found_in_the_data(
    reply: JsonView,
    data: JsonView,
    reported_days: Vec<u32>,
    raw_nowrite_days: Vec<u32>,
)
    requires
        month_read(reply, Ok((reported_days, raw_nowrite_days))),
    ensures
        reply.field("data"@) == Some(data) ==> {
            &&& days_of(DayList::Reported, data.field("write"@), Ok(reported_days))
            &&& days_of(DayList::Missing, data.field("nowrite"@), Ok(raw_nowrite_days))
        },
        reply.field("data"@) is None ==> reported_days@.len() == 0 && raw_nowrite_days@.len() == 0,
{
    if reply.field("data"@) is None {
        what_is_no_list_has_no_days(DayList::Reported, None, Ok(reported_days));
        what_is_no_list_has_no_days(DayList::Missing, None, Ok(raw_nowrite_days));
    }
}

/// Reads the days that were reported and the days that were not from the reply of the server.
pub fn read_month(reply: &Json) -> (r: Result<(Vec<u32>, Vec<u32>), Failure>)
    ensures
        month_read(reply@, r),
{
    let data = reply.get("data");
    let written = match data {
        Some(d) => d.get("write"),
        None => None,
    };
    let missing = match data {
        Some(d) => d.get("nowrite"),
        None => None,
    };
    let reported_days = match parse_reported_days(written) {
        Ok(days) => days,
        Err(e) => {
            return Err(e);
        },
    };
    assert(days_of(DayList::Reported, data_field(reply@, "write"@), Ok(reported_days)));
    match parse_day_list(missing) {
        Ok(days) => Ok((reported_days, days)),
        Err(e) => Err(e),
    }
}

// ---------------------------------------------------------------------------
// Summary
// ---------------------------------------------------------------------------
/// The decimal notations of the numbers of a list.
pub open spec fn decimals(days: Seq<u32>) -> Seq<Seq<char>> {
    days.map_values(|d: u32| decimal(d as int))
}

/// A list of numbers in square brackets, with a comma and a space between each two.
pub open spec fn list_text(days: Seq<u32>) -> Seq<char> {
    seq!['['] + joined(decimals(days), seq![',', ' ']) + seq![']']
}

/// An integer with zeros in front up to `width` characters, of which a minus sign is one.
pub open spec fn signed_padded(n: int, width: int) -> Seq<char> {
    if n < 0 {
        seq!['-'] + zero_padded(decimal(-n), width - 1)
    } else {
        zero_padded(decimal(n), width)
    }
}

/// The summary of a month.
pub open spec fn missing_summary(r: MissingDailyResult) -> Seq<char> {
    "月份: "@ + signed_padded(r.year as int, 4) + "-"@ + zero_padded(decimal(r.month as int), 2)
        + "\n已填写: "@ + list_text(r.reported_days@) + "\n原始未填写: "@ + list_text(
        r.raw_nowrite_days@,
    ) + "\n排除当天: "@ + list_text(r.excluded_today@) + "\n排除非工作日: "@ + list_text(
        r.excluded_non_workdays@,
    ) + "\n实际缺报工作日: "@ + list_text(r.missing_workdays@)
}

/// How lists of numbers are written: in square brackets, with a comma and a space between each
/// two numbers.
pub proof fn lists_are_written_in_brackets(days: Seq<u32>, n: u32)
    ensures
        list_text(Seq::<u32>::empty()) == seq!['[', ']'],
        list_text(seq![n]) == seq!['['] + decimal(n as int) + seq![']'],
        days.len() > 0 ==> list_text(days.push(n)) == list_text(days).drop_last() + seq![',', ' ']
            + decimal(n as int) + seq![']'],
{
    let sep = seq![',', ' '];
    assert(decimals(Seq::<u32>::empty()) =~= seq![]);
    assert(list_text(Seq::<u32>::empty()) =~= seq!['[', ']']);
    assert(decimals(seq![n]) =~= seq![decimal(n as int)]);
    if days.len() > 0 {
        assert(decimals(days.push(n)) =~= decimals(days).push(decimal(n as int)));
        joining_separates_items(decimals(days), decimal(n as int), sep);
        assert(list_text(days).drop_last() =~= seq!['['] + joined(decimals(days), sep));
        assert(list_text(days.push(n)) =~= list_text(days).drop_last() + sep + decimal(n as int)
            + seq![']']);
    }
}

/// The summary of a month with a year of four digits names the month in the form YYYY-MM and each
/// list behind its name, in this order.
pub proof fn summary_lists_the_month(r: MissingDailyResult)
    requires
        1000 <= r.year <= 9999,
        1 <= r.month <= 12,
    ensures
        missing_summary(r) == "月份: "@ + decimal(r.year as int) + "-"@ + (if r.month < 10 {
            seq!['0'] + decimal(r.month as int)
        } else {
            decimal(r.month as int)
        }) + "\n已填写: "@ + list_text(r.reported_days@) + "\n原始未填写: "@ + list_text(
            r.raw_nowrite_days@,
        ) + "\n排除当天: "@ + list_text(r.excluded_today@) + "\n排除非工作日: "@ + list_text(
            r.excluded_non_workdays@,
        ) + "\n实际缺报工作日: "@ + list_text(r.missing_workdays@),
{
    reveal_with_fuel(decimal, 4);
    assert(decimal(r.year as int).len() == 4);
    if r.month < 10 {
        assert(decimal(r.month as int).len() == 1);
        assert(zero_padded(decimal(r.month as int), 2) =~= seq!['0'] + decimal(r.month as int));
    } else {
        assert(decimal(r.month as int).len() == 2);
    }
}

fn append_chars(out: &mut String, chars: Vec<char>)
    ensures
        final(out)@ == old(out)@ + chars@,
{
    let t = text_of(chars.as_slice());
    out.append(t.as_str());
}

fn append_list(out: &mut String, days: &Vec<u32>)
    ensures
        final(out)@ == old(out)@ + list_text(days@),
{
    let ghost before = out@;
    let ghost all = decimals(days@);
    let ghost sep = seq![',', ' '];
    out.push('[');
    let mut i: usize = 0;
    assert(out@ =~= before + seq!['['] + joined(all.take(0), sep));
    while i < days.len()
        invariant
            i <= days@.len(),
            all == decimals(days@),
            sep == seq![',', ' '],
            out@ == before + seq!['['] + joined(all.take(i as int), sep),
        decreases days@.len() - i,
    {
        let ghost now = all.take(i as int);
        let ghost next = all.take(i + 1);
        assert(next.drop_last() =~= now);
        assert(next.last() == decimal(days@[i as int] as int));
        if i > 0 {
            out.push(',');
            out.push(' ');
            assert(out@ =~= before + seq!['['] + (joined(now, sep) + sep));
        }
        append_chars(out, decimal_chars(days[i] as u64));
        assert(out@ =~= before + seq!['['] + joined(next, sep));
        i += 1;
    }
    assert(all.take(i as int) =~= all);
    out.push(']');
    assert(out@ =~= before + list_text(days@));
}

fn append_signed_padded(out: &mut String, n: i32, width: usize)
    requires
        width >= 1,
    ensures
        final(out)@ == old(out)@ + signed_padded(n as int, width as int),
{
    let ghost before = out@;
    if n < 0 {
        out.push('-');
        let size: u64 = (-(n as i64)) as u64;
        append_chars(out, padded_chars(size, width - 1));
        assert(out@ =~= before + signed_padded(n as int, width as int));
    } else {
        append_chars(out, padded_chars(n as u64, width));
    }
}

/// Writes the summary of a month.
pub fn summarize_missing_daily(result: &MissingDailyResult) -> (r: String)
    ensures
        r@ == missing_summary(*result),
{
    let mut out = "月份: ".to_string();
    append_signed_padded(&mut out, result.year, 4);
    out.append("-");
    append_chars(&mut out, padded_chars(result.month as u64, 2));
    out.append("\n已填写: ");
    append_list(&mut out, &result.reported_days);
    out.append("\n原始未填写: ");
    append_list(&mut out, &result.raw_nowrite_days);
    out.append("\n排除当天: ");
    append_list(&mut out, &result.excluded_today);
    out.append("\n排除非工作日: ");
    append_list(&mut out, &result.excluded_non_workdays);
    out.append("\n实际缺报工作日: ");
    append_list(&mut out, &result.missing_workdays);
    out
}

} // verus!
