//! Calendar dates and times of day.
use vstd::prelude::*;

use crate::failure::Failure;
use crate::text::{
    decimal, decimal_is_short, number_of, padded_chars, padding_keeps_number, push_chars, same_text,
    text_of, zero_padded,
};

verus! {

// ---------------------------------------------------------------------------
// The Gregorian calendar
// ---------------------------------------------------------------------------
/// Whether February of year `y` has a 29th.
pub open spec fn is_leap(y: int) -> bool {
    y % 4 == 0 && (y % 100 != 0 || y % 400 == 0)
}

/// The number of days in month `m` of year `y`.
pub open spec fn month_length(y: int, m: int) -> int {
    if m == 2 {
        if is_leap(y) {
            29
        } else {
            28
        }
    } else if m == 4 || m == 6 || m == 9 || m == 11 {
        30
    } else {
        31
    }
}

/// The number of days in year `y`.
pub open spec fn year_length(y: int) -> int {
    if is_leap(y) {
        366
    } else {
        365
    }
}

/// The number of days of year `y` before its month `m`.
pub open spec fn days_before_month(y: int, m: int) -> int
    decreases m,
{
    if m <= 1 {
        0
    } else {
        days_before_month(y, m - 1) + month_length(y, m - 1)
    }
}

/// The number of days from the first of January of year 1 to that of year `y`.
pub open spec fn days_before_year(y: int) -> int {
    365 * (y - 1) + (y - 1) / 4 - (y - 1) / 100 + (y - 1) / 400
}

/// The first and the last year in which a date can lie.
pub const FIRST_YEAR: i32 = -262143;

pub const LAST_YEAR: i32 = 262142;

/// A day of the calendar.
pub struct Ymd {
    pub year: int,
    pub month: int,
    pub day: int,
}

impl Ymd {
    /// Whether there is such a day.
    pub open spec fn valid(self) -> bool {
        &&& FIRST_YEAR <= self.year <= LAST_YEAR
        &&& 1 <= self.month <= 12
        &&& 1 <= self.day <= month_length(self.year, self.month)
    }

    /// The number of the day, where the first of January of year 1 has the number 1.
    pub open spec fn number(self) -> int {
        days_before_year(self.year) + days_before_month(self.year, self.month) + self.day
    }

    /// The day of the week, counted from 0 for Monday.
    pub open spec fn weekday(self) -> int {
        (self.number() - 1) % 7
    }

    /// Whether this day comes before `other`.
    pub open spec fn before(self, other: Ymd) -> bool {
        ||| self.year < other.year
        ||| self.year == other.year && self.month < other.month
        ||| self.year == other.year && self.month == other.month && self.day < other.day
    }
}

proof fn quotient_steps(a: int, k: int)
    requires
        k == 4 || k == 100 || k == 400,
    ensures
        a / k == (a - 1) / k + (if a % k == 0 {
            1int
        } else {
            0
        }),
{
    if k == 4 {
        assert(a / 4 == (a - 1) / 4 + (if a % 4 == 0 {
            1int
        } else {
            0
        }));
    } else if k == 100 {
        assert(a / 100 == (a - 1) / 100 + (if a % 100 == 0 {
            1int
        } else {
            0
        }));
    } else {
        assert(a / 400 == (a - 1) / 400 + (if a % 400 == 0 {
            1int
        } else {
            0
        }));
    }
}

#[verifier::spinoff_prover]
proof fn year_steps(y: int)
    ensures
        days_before_year(y + 1) == days_before_year(y) + year_length(y),
{
    quotient_steps(y, 4);
    quotient_steps(y, 100);
    quotient_steps(y, 400);
    assert(y % 400 == 0 ==> y % 100 == 0);
    assert(y % 100 == 0 ==> y % 4 == 0);
}

proof fn years_apart(a: int, b: int)
    requires
        a < b,
    ensures
        days_before_year(a) + year_length(a) <= days_before_year(b),
    decreases b - a,
{
    year_steps(b - 1);
    if a + 1 < b {
        years_apart(a, b - 1);
    }
}

proof fn months_apart(y: int, a: int, b: int)
    requires
        1 <= a < b,
    ensures
        days_before_month(y, a) + month_length(y, a) <= days_before_month(y, b),
    decreases b - a,
{
    if a + 1 < b {
        months_apart(y, a, b - 1);
    }
}

proof fn day_within_year(d: Ymd)
    requires
        d.valid(),
    ensures
        1 <= days_before_month(d.year, d.month) + d.day <= year_length(d.year),
{
    assert(days_before_month(d.year, 13) == year_length(d.year)) by {
        reveal_with_fuel(days_before_month, 14);
    }
    months_apart(d.year, d.month, 13);
    if d.month > 1 {
        months_apart(d.year, 1, d.month);
    }
}

/// The numbers of the days follow their order.
pub proof fn number_follows_order(a: Ymd, b: Ymd)
    requires
        a.valid(),
        b.valid(),
    ensures
        a.before(b) <==> a.number() < b.number(),
        a == b <==> a.number() == b.number(),
{
    day_within_year(a);
    day_within_year(b);
    if a.year < b.year {
        years_apart(a.year, b.year);
    } else if b.year < a.year {
        years_apart(b.year, a.year);
    } else if a.month < b.month {
        months_apart(a.year, a.month, b.month);
    } else if b.month < a.month {
        months_apart(a.year, b.month, a.month);
    }
}

/// The day after another.
pub open spec fn day_after(d: Ymd) -> Ymd {
    if d.day < month_length(d.year, d.month) {
        Ymd { day: d.day + 1, ..d }
    } else if d.month < 12 {
        Ymd { month: d.month + 1, day: 1, ..d }
    } else {
        Ymd { year: d.year + 1, month: 1, day: 1 }
    }
}

/// The number of the day after is the next number, and a day that others come after has a day
/// after it.
pub proof fn day_after_is_next(d: Ymd, later: Ymd)
    requires
        d.valid(),
        later.valid(),
        d.before(later),
    ensures
        day_after(d).valid(),
        day_after(d).number() == d.number() + 1,
{
    if d.day == month_length(d.year, d.month) && d.month == 12 {
        year_steps(d.year);
        assert(days_before_month(d.year, 13) == year_length(d.year)) by {
            reveal_with_fuel(days_before_month, 14);
        }
        assert(days_before_month(d.year, 13) == days_before_month(d.year, 12) + 31);
    }
}

/// The days of the week come round every seven days.
pub proof fn weekday_follows(a: Ymd, b: Ymd, k: int)
    requires
        b.number() == a.number() + k,
    ensures
        b.weekday() == (a.weekday() + k) % 7,
{
}

/// The seconds from the start of 1970 to the start of a day, where clocks show UTC.
pub open spec fn midnight(d: Ymd) -> int {
    (d.number() - (Ymd { year: 1970, month: 1, day: 1 }).number()) * 86400
}

/// How a year is written: four digits, or a sign and at least four digits outside 0 to 9999.
pub open spec fn year_text(y: int) -> Seq<char> {
    if 0 <= y <= 9999 {
        zero_padded(decimal(y), 4)
    } else if y < 0 {
        seq!['-'] + zero_padded(decimal(-y), 4)
    } else {
        seq!['+'] + zero_padded(decimal(y), 4)
    }
}

/// How a day is written: year, month and day of the month with hyphens between them.
pub open spec fn day_text(d: Ymd) -> Seq<char> {
    year_text(d.year) + seq!['-'] + zero_padded(decimal(d.month), 2) + seq!['-'] + zero_padded(
        decimal(d.day),
        2,
    )
}

/// How a time of day is written: hour and minute in two digits each, with a colon between them.
pub open spec fn clock_text(hour: int, minute: int) -> Seq<char> {
    zero_padded(decimal(hour), 2) + seq![':'] + zero_padded(decimal(minute), 2)
}

/// The form YYYY-MM-DD: a day whose year has four digits is written in ten characters, from which
/// its year, month and day can be read.
pub proof fn day_text_has_its_form(d: Ymd)
    requires
        d.valid(),
        0 <= d.year <= 9999,
    ensures
        day_text(d).len() == 10,
        number_of(day_text(d).take(4)) == d.year,
        day_text(d)[4] == '-',
        number_of(day_text(d).subrange(5, 7)) == d.month,
        day_text(d)[7] == '-',
        number_of(day_text(d).skip(8)) == d.day,
{
    padding_keeps_number(d.year, 4);
    padding_keeps_number(d.month, 2);
    padding_keeps_number(d.day, 2);
    decimal_is_short(d.year);
    decimal_is_short(d.month);
    decimal_is_short(d.day);
    assert(day_text(d).take(4) =~= zero_padded(decimal(d.year), 4));
    assert(day_text(d).subrange(5, 7) =~= zero_padded(decimal(d.month), 2));
    assert(day_text(d).skip(8) =~= zero_padded(decimal(d.day), 2));
}

/// The form HH:MM: a time of day is written in five characters, from which its hour and minute can
/// be read.
pub proof fn clock_text_has_its_form(hour: int, minute: int)
    requires
        0 <= hour < 24,
        0 <= minute < 60,
    ensures
        clock_text(hour, minute).len() == 5,
        number_of(clock_text(hour, minute).take(2)) == hour,
        clock_text(hour, minute)[2] == ':',
        number_of(clock_text(hour, minute).skip(3)) == minute,
{
    padding_keeps_number(hour, 2);
    padding_keeps_number(minute, 2);
    decimal_is_short(hour);
    decimal_is_short(minute);
    assert(clock_text(hour, minute).take(2) =~= zero_padded(decimal(hour), 2));
    assert(clock_text(hour, minute).skip(3) =~= zero_padded(decimal(minute), 2));
}

/// Whether `got` is the day that `text` was written from, wherever there is such a day with a
/// year from 0 to 9999.
pub open spec fn reads_back_day<E>(text: Seq<char>, got: Result<(i32, u32, u32), E>) -> bool {
    forall|d: Ymd|
        d.valid() && 0 <= d.year <= 9999 && text == #[trigger] day_text(d) ==> {
            &&& got matches Ok(t)
            &&& t.0 == d.year
            &&& t.1 == d.month
            &&& t.2 == d.day
        }
}

/// Whether `got` is the time of day that `text` was written from, wherever there is one.
pub open spec fn reads_back_clock<E>(text: Seq<char>, got: Result<(u32, u32), E>) -> bool {
    forall|hour: int, minute: int|
        0 <= hour < 24 && 0 <= minute < 60 && text == #[trigger] clock_text(hour, minute) ==> {
            &&& got matches Ok(t)
            &&& t.0 == hour
            &&& t.1 == minute
        }
}

// ---------------------------------------------------------------------------
// What the chrono crate computes
// ---------------------------------------------------------------------------
/// The error of a text that chrono cannot read.
#[verifier::external_type_specification]
#[verifier::external_body]
pub struct ExParseError(chrono::ParseError);

/// The date that `chrono::NaiveDate::parse_from_str` reads from a text in a format.
pub uninterp spec fn parsed_date(text: Seq<char>, format: Seq<char>) -> Option<(int, int, int)>;

/// The hour and minute that `chrono::NaiveTime::parse_from_str` reads from a text in a format.
pub uninterp spec fn parsed_clock(text: Seq<char>, format: Seq<char>) -> Option<(int, int)>;

/// `chrono::NaiveDate::from_ymd_opt` gives a date exactly where the calendar has that day and
/// the year is in the range that chrono represents.
#[verifier::external_body]
fn day_exists(year: i32, month: u32, day: u32) -> (r: bool)
    ensures
        r == (Ymd { year: year as int, month: month as int, day: day as int }).valid(),
{
    chrono::NaiveDate::from_ymd_opt(year, month, day).is_some()
}

/// `chrono::Datelike::weekday` gives the day of the week of a date; the first of January of
/// year 1 was a Monday.
#[verifier::external_body]
fn day_of_week(year: i32, month: u32, day: u32) -> (r: u32)
    requires
        (Ymd { year: year as int, month: month as int, day: day as int }).valid(),
    ensures
        r == (Ymd { year: year as int, month: month as int, day: day as int }).weekday(),
{
    let date = chrono::NaiveDate::from_ymd_opt(year, month, day).unwrap();
    chrono::Datelike::weekday(&date).num_days_from_monday()
}

/// `chrono::NaiveDate::checked_add_signed` counts days forwards or backwards, and gives nothing
/// where it leaves the range of dates.
#[verifier::external_body]
fn days_later(year: i32, month: u32, day: u32, days: i32) -> (r: Option<(i32, u32, u32)>)
    requires
        (Ymd { year: year as int, month: month as int, day: day as int }).valid(),
    ensures
        match r {
            Some(t) => {
                let d = Ymd { year: t.0 as int, month: t.1 as int, day: t.2 as int };
                &&& d.valid()
                &&& d.number() == (Ymd { year: year as int, month: month as int, day: day as int }).number()
                    + days
            },
            None => forall|d: Ymd| #[trigger]
                d.valid() ==> d.number() != (Ymd {
                    year: year as int,
                    month: month as int,
                    day: day as int,
                }).number() + days,
        },
{
    let date = chrono::NaiveDate::from_ymd_opt(year, month, day).unwrap();
    let moved = date.checked_add_signed(chrono::Duration::days(days as i64));
    moved.map(|d| (chrono::Datelike::year(&d), chrono::Datelike::month(&d), chrono::Datelike::day(&d)))
}

/// The `Display` of `chrono::NaiveDate` writes year, month and day with hyphens; a year outside
/// 0 to 9999 gets a sign.
#[verifier::external_body]
fn written_day(year: i32, month: u32, day: u32) -> (r: String)
    requires
        (Ymd { year: year as int, month: month as int, day: day as int }).valid(),
    ensures
        r@ == day_text(Ymd { year: year as int, month: month as int, day: day as int }),
{
    chrono::NaiveDate::from_ymd_opt(year, month, day).unwrap().to_string()
}

/// `chrono::NaiveDate::parse_from_str` reads a date as year, month and day with hyphens. What it
/// gives is a day of the calendar, and it reads back every day with a year from 0 to 9999 that
/// was written so. Which other texts it accepts is left to chrono.
#[verifier::external_body]
fn read_date(text: &str, format: &str) -> (r: Result<(i32, u32, u32), chrono::ParseError>)
    requires
        format@ == "%Y-%m-%d"@,
    ensures
        match r {
            Ok(t) => {
                &&& parsed_date(text@, format@) == Some((t.0 as int, t.1 as int, t.2 as int))
                &&& (Ymd { year: t.0 as int, month: t.1 as int, day: t.2 as int }).valid()
            },
            Err(_) => parsed_date(text@, format@) is None,
        },
        reads_back_day(text@, r),
{
    let date = chrono::NaiveDate::parse_from_str(text, format)?;
    Ok((chrono::Datelike::year(&date), chrono::Datelike::month(&date), chrono::Datelike::day(&date)))
}

/// `chrono::NaiveTime::parse_from_str` reads a time of day; in the format of hour and minute
/// its seconds are 0. The hour is below 24 and the minute below 60, and it reads back every
/// time that was written in two digits each. Which other texts it accepts is left to chrono.
#[verifier::external_body]
fn read_clock(text: &str, format: &str) -> (r: Result<(u32, u32), chrono::ParseError>)
    requires
        format@ == "%H:%M"@,
    ensures
        match r {
            Ok(t) => {
                &&& parsed_clock(text@, format@) == Some((t.0 as int, t.1 as int))
                &&& t.0 < 24
                &&& t.1 < 60
            },
            Err(_) => parsed_clock(text@, format@) is None,
        },
        reads_back_clock(text@, r),
{
    let time = chrono::NaiveTime::parse_from_str(text, format)?;
    Ok((chrono::Timelike::hour(&time), chrono::Timelike::minute(&time)))
}

/// `chrono::Local::now` reads the clock: the date at this place, and the seconds since the start
/// of 1970 in UTC with the nanoseconds of the running second. The date is that of the instant,
/// moved by an offset of less than a day.
#[verifier::external_body]
fn read_now() -> (r: (i32, u32, u32, i64, u32))
    ensures
        (Ymd { year: r.0 as int, month: r.1 as int, day: r.2 as int }).valid(),
        -86400 < r.3 - midnight(Ymd { year: r.0 as int, month: r.1 as int, day: r.2 as int }) < 2
            * 86400,
        r.4 < 1_000_000_000,
{
    let now = chrono::Local::now();
    let date = now.date_naive();
    (
        chrono::Datelike::year(&date),
        chrono::Datelike::month(&date),
        chrono::Datelike::day(&date),
        now.timestamp(),
        now.timestamp_subsec_nanos(),
    )
}

// ---------------------------------------------------------------------------
// Dates
// ---------------------------------------------------------------------------
/// A day of the calendar.
#[derive(Clone, Copy, Debug, PartialEq, Eq, Structural)]
pub struct Date {
    year: i32,
    month: u32,
    day: u32,
}

impl View for Date {
    type V = Ymd;

    closed spec fn view(&self) -> Ymd {
        Ymd { year: self.year as int, month: self.month as int, day: self.day as int }
    }
}

impl Date {
    /// Every date is a day of the calendar.
    #[verifier::type_invariant]
    pub open spec fn well_formed(self) -> bool {
        self@.valid()
    }

    /// The date of a year, month and day, where the calendar has that day.
    pub fn from_ymd(year: i32, month: u32, day: u32) -> (r: Option<Date>)
        ensures
            match r {
                Some(d) => d@ == (Ymd { year: year as int, month: month as int, day: day as int })
                    && d@.valid(),
                None => !(Ymd { year: year as int, month: month as int, day: day as int }).valid(),
            },
    {
        if day_exists(year, month, day) {
            Some(Date { year, month, day })
        } else {
            None
        }
    }

    /// The year.
    pub fn year(&self) -> (r: i32)
        ensures
            r == self@.year,
            self@.valid(),
    {
        proof {
            use_type_invariant(self);
        }
        self.year
    }

    /// The month, from 1.
    pub fn month(&self) -> (r: u32)
        ensures
            r == self@.month,
            self@.valid(),
    {
        proof {
            use_type_invariant(self);
        }
        self.month
    }

    /// The day of the month, from 1.
    pub fn day(&self) -> (r: u32)
        ensures
            r == self@.day,
            self@.valid(),
    {
        proof {
            use_type_invariant(self);
        }
        self.day
    }

    /// Tells whether two dates are the same day.
    pub fn same(&self, other: &Date) -> (r: bool)
        ensures
            r == (self@ == other@),
    {
        self.year == other.year && self.month == other.month && self.day == other.day
    }

    /// Tells whether this day comes before another.
    pub fn is_before(&self, other: &Date) -> (r: bool)
        ensures
            r == self@.before(other@),
    {
        self.year < other.year || (self.year == other.year && (self.month < other.month || (
        self.month == other.month && self.day < other.day)))
    }

    /// The date `days` later, where it can be represented.
    pub fn later(&self, days: i32) -> (r: Option<Date>)
        ensures
            match r {
                Some(d) => d@.valid() && d@.number() == self@.number() + days,
                None => forall|d: Ymd| #[trigger]
                    d.valid() ==> d.number() != self@.number() + days,
            },
    {
        proof {
            use_type_invariant(self);
        }
        match days_later(self.year, self.month, self.day, days) {
            Some(t) => Some(Date { year: t.0, month: t.1, day: t.2 }),
            None => None,
        }
    }

    /// Tells whether the day is a Saturday or a Sunday.
    pub fn is_weekend(&self) -> (r: bool)
        ensures
            r == (self@.weekday() >= 5),
    {
        proof {
            use_type_invariant(self);
        }
        day_of_week(self.year, self.month, self.day) >= 5
    }

    /// The date as year, month and day with hyphens.
    pub fn text(&self) -> (r: String)
        ensures
            r@ == day_text(self@),
    {
        proof {
            use_type_invariant(self);
        }
        written_day(self.year, self.month, self.day)
    }
}

/// The day that chrono reads from a text.
pub open spec fn day_of(text: Seq<char>) -> Option<Ymd> {
    match parsed_date(text, "%Y-%m-%d"@) {
        Some(t) => Some(Ymd { year: t.0, month: t.1, day: t.2 }),
        None => None,
    }
}

/// Reads a date. A day with a year from 0 to 9999 reads back as it was written.
pub(crate) fn read_day(text: &str) -> (r: Option<Date>)
    ensures
        match r {
            Some(d) => day_of(text@) == Some(d@) && d@.valid(),
            None => day_of(text@) is None,
        },
        forall|d: Ymd|
            d.valid() && 0 <= d.year <= 9999 && text@ == #[trigger] day_text(d) ==> day_of(text@)
                == Some(d),
{
    match read_date(text, "%Y-%m-%d") {
        Ok(t) => Some(Date { year: t.0, month: t.1, day: t.2 }),
        Err(_) => None,
    }
}

/// Whether the year of a day has four digits.
pub open spec fn short_year(d: Ymd) -> bool {
    d.valid() && 0 <= d.year <= 9999
}

/// Whether a text is a day in the form YYYY-MM-DD.
pub open spec fn writes_day(text: Seq<char>, d: Ymd) -> bool {
    short_year(d) && text == day_text(d)
}

/// Whether `r` is the day that a text is in the form YYYY-MM-DD, or says that it is none.
pub open spec fn day_read(text: Seq<char>, r: Result<Date, Failure>) -> bool {
    &&& match r {
        Ok(d) => writes_day(text, d@),
        Err(e) => e is DateFormat && forall|d: Ymd| !#[trigger] writes_day(text, d),
    }
    &&& forall|d: Ymd| #[trigger] writes_day(text, d) ==> (r matches Ok(got) && got@ == d)
}

/// A day with a year of four digits is read as it is written, and a text that is no such day is
/// refused.
pub proof fn written_days_read_back(text: Seq<char>, r: Result<Date, Failure>, d: Ymd)
    requires
        day_read(text, r),
    ensures
        d.valid() && 0 <= d.year <= 9999 && text == day_text(d) ==> (r matches Ok(got) && got@ == d),
        r matches Ok(got) ==> got@.valid() && 0 <= got@.year <= 9999 && text == day_text(got@),
        r matches Err(e) ==> e is DateFormat,
{
    if d.valid() && 0 <= d.year <= 9999 && text == day_text(d) {
        assert(writes_day(text, d));
    }
}

/// Reads the date for which a log is submitted, in the form YYYY-MM-DD.
pub fn parse_target_date(value: &str) -> (r: Result<Date, Failure>)
    ensures
        day_read(value@, r),
{
    if let Some(d) = read_day(value) {
        let written = d.text();
        if 0 <= d.year() && d.year() <= 9999 && same_text(written.as_str(), value) {
            return Ok(d);
        }
    }
    Err(Failure::DateFormat)
}

/// A time of day.
#[derive(Clone, Copy, Debug, PartialEq, Eq, Structural)]
pub struct TimeOfDay {
    pub hour: u32,
    pub minute: u32,
}

impl TimeOfDay {
    /// Whether a day has such a time.
    pub open spec fn valid(self) -> bool {
        self.hour < 24 && self.minute < 60
    }
}

/// Whether a text is a time of day in the form HH:MM.
pub open spec fn writes_clock(text: Seq<char>, t: TimeOfDay) -> bool {
    t.valid() && text == clock_text(t.hour as int, t.minute as int)
}

/// Whether `r` is the time of day that a text is in the form HH:MM, or says that it is none.
pub open spec fn clock_read(text: Seq<char>, r: Result<TimeOfDay, Failure>) -> bool {
    &&& match r {
        Ok(t) => writes_clock(text, t),
        Err(e) => e is ScheduleFormat && forall|t: TimeOfDay| !#[trigger] writes_clock(text, t),
    }
    &&& forall|t: TimeOfDay| #[trigger] writes_clock(text, t) ==> r == Ok::<_, Failure>(t)
}

/// A time of day is read as it is written, and a text that is no time of day is refused.
pub proof fn written_times_read_back(text: Seq<char>, r: Result<TimeOfDay, Failure>, t: TimeOfDay)
    requires
        clock_read(text, r),
    ensures
        t.hour < 24 && t.minute < 60 && text == clock_text(t.hour as int, t.minute as int) ==> r
            == Ok::<_, Failure>(t),
        r matches Ok(got) ==> got.hour < 24 && got.minute < 60 && text == clock_text(
            got.hour as int,
            got.minute as int,
        ),
        r matches Err(e) ==> e is ScheduleFormat,
{
    if t.hour < 24 && t.minute < 60 && text == clock_text(t.hour as int, t.minute as int) {
        assert(writes_clock(text, t));
    }
}

/// Writes a time of day in the form HH:MM.
fn written_clock(t: TimeOfDay) -> (r: String)
    ensures
        r@ == clock_text(t.hour as int, t.minute as int),
{
    let mut out = padded_chars(t.hour as u64, 2);
    out.push(':');
    let minute = padded_chars(t.minute as u64, 2);
    push_chars(&mut out, minute.as_slice());
    text_of(out.as_slice())
}

/// Reads the time of day at which the daemon runs, in the form HH:MM.
pub fn parse_schedule_time(value: &str) -> (r: Result<TimeOfDay, Failure>)
    ensures
        clock_read(value@, r),
{
    if let Ok(t) = read_clock(value, "%H:%M") {
        let time = TimeOfDay { hour: t.0, minute: t.1 };
        let written = written_clock(time);
        if same_text(written.as_str(), value) {
            return Ok(time);
        }
    }
    Err(Failure::ScheduleFormat)
}

/// The time of day at which the daemon runs by default: the configured one, or six in the
/// evening.
pub fn default_schedule_time(configured: Option<&str>) -> (r: Result<TimeOfDay, Failure>)
    ensures
        match configured {
            Some(value) => clock_read(value@, r),
            None => r == Ok::<TimeOfDay, Failure>(TimeOfDay { hour: 18, minute: 0 }),
        },
{
    match configured {
        Some(value) => parse_schedule_time(value),
        None => {
            proof {
                reveal_strlit("18:00");
                assert(decimal(18) == seq!['1', '8']) by {
                    reveal_with_fuel(decimal, 3);
                    assert(decimal(18) =~= seq!['1', '8']);
                }
                assert(decimal(0) =~= seq!['0']);
                assert(zero_padded(decimal(18), 2) =~= seq!['1', '8']);
                assert(zero_padded(decimal(0), 2) =~= seq!['0', '0']);
                assert(clock_text(18, 0) =~= "18:00"@);
                assert(writes_clock("18:00"@, TimeOfDay { hour: 18, minute: 0 }));
            }
            parse_schedule_time("18:00")
        },
    }
}

/// The time of day at which the daemon runs: the one asked for, or else the default.
pub fn schedule_time(asked: Option<&str>, configured: Option<&str>) -> (r: Result<
    TimeOfDay,
    Failure,
>)
    ensures
        match asked {
            Some(value) => clock_read(value@, r),
            None => match configured {
                Some(value) => clock_read(value@, r),
                None => r == Ok::<TimeOfDay, Failure>(TimeOfDay { hour: 18, minute: 0 }),
            },
        },
{
    match asked {
        Some(value) => parse_schedule_time(value),
        None => default_schedule_time(configured),
    }
}

/// An instant: the seconds since the start of 1970 in UTC, and the nanoseconds that follow.
#[derive(Clone, Copy, Debug, PartialEq, Eq, Structural)]
pub struct Timestamp {
    pub seconds: i64,
    pub nanos: u32,
}

/// An instant and the date on which it falls at this place.
pub struct Moment {
    pub date: Date,
    pub instant: Timestamp,
}

/// The current instant.
pub fn now() -> (r: Moment)
    ensures
        r.date@.valid(),
        -86400 < r.instant.seconds - midnight(r.date@) < 2 * 86400,
        r.instant.nanos < 1_000_000_000,
{
    let t = read_now();
    Moment {
        date: Date { year: t.0, month: t.1, day: t.2 },
        instant: Timestamp { seconds: t.3, nanos: t.4 },
    }
}

/// The date of the local clock.
pub fn today() -> (r: Date)
    ensures
        r@.valid(),
{
    now().date
}

/// The day whose log is meant: the one that is asked for, or today.
pub fn target_date(asked: Option<&str>, today: Date) -> (r: Result<Date, Failure>)
    ensures
        match asked {
            Some(text) => day_read(text@, r),
            None => r == Ok::<_, Failure>(today),
        },
{
    match asked {
        Some(text) => parse_target_date(text),
        None => Ok(today),
    }
}

/// How the server names a day: `T` for today and `Y` for yesterday. It names no other.
pub open spec fn token_of(target: Ymd, today: Ymd) -> Option<Seq<char>> {
    if target == today {
        Some("T"@)
    } else if target.number() == today.number() - 1 {
        Some("Y"@)
    } else {
        None
    }
}

/// The server knows a day under the name `T` exactly where it is today, under the name `Y` exactly
/// where today is the day after it, and no other day.
pub proof fn server_knows_today_and_yesterday(target: Ymd, today: Ymd)
    requires
        target.valid(),
        today.valid(),
    ensures
        token_of(target, today) == Some("T"@) <==> target == today,
        token_of(target, today) == Some("Y"@) <==> today == day_after(target),
        token_of(target, today) is None <==> target != today && today != day_after(target),
{
    reveal_strlit("T");
    reveal_strlit("Y");
    assert("T"@[0] != "Y"@[0]);
    number_follows_order(target, today);
    if target.before(today) {
        day_after_is_next(target, today);
        number_follows_order(day_after(target), today);
    }
    if today == day_after(target) {
        assert(target.before(today));
    }
}

/// The server's name for a day, seen from another.
pub fn time_token(target_date: Date, today: Date) -> (r: Result<&'static str, Failure>)
    ensures
        match r {
            Ok(t) => token_of(target_date@, today@) == Some(t@),
            Err(e) => token_of(target_date@, today@) is None && e is TimeToken,
        },
{
    proof {
        use_type_invariant(&target_date);
        use_type_invariant(&today);
    }
    if target_date.same(&today) {
        return Ok("T");
    }
    match today.later(-1) {
        Some(yesterday) => {
            proof {
                number_follows_order(yesterday@, target_date@);
            }
            if target_date.same(&yesterday) {
                return Ok("Y");
            }
        },
        None => {},
    }
    Err(Failure::TimeToken)
}

/// The server's name for a day, seen from the local clock.
pub fn resolve_time_token(target_date: Date) -> (r: Result<&'static str, Failure>)
    ensures
        exists|now: Ymd| #[trigger]
            now.valid() && match r {
                Ok(t) => token_of(target_date@, now) == Some(t@),
                Err(e) => token_of(target_date@, now) is None && e is TimeToken,
            },
{
    let date = today();
    assert(date@.valid());
    time_token(target_date, date)
}

} // verus!
