//! The holidays of a year and the working days they leave.
use vstd::prelude::*;
use vstd::slice::slice_subrange;

use crate::date::{
    day_after_is_next, day_of, day_text, number_follows_order, read_day, short_year, writes_day,
    Date, Ymd,
};
use crate::failure::Failure;
use crate::text::{
    append_signed, chars_of, contains_text, decimal, decimal_reads_back, find_text, first_place,
    first_place_is, is_digit, is_digits, signed_decimal, stands_at, text_of, trim, trimmed,
    trimmed_already, zero_padded,
};

verus! {

/// The holidays of a year as they are configured: single days, and first and last day of a
/// stretch with two points between them.
pub struct HolidayConfig {
    pub holidays: Vec<String>,
    pub makeup_workdays: Vec<String>,
}

/// The days of a year on which nobody works, and the days at weekends on which everybody does.
pub struct HolidayCalendar {
    pub holidays: Vec<Date>,
    pub makeup_workdays: Vec<Date>,
}

/// The name of the file with the holidays of a year.
pub fn holiday_file_name(year: i32) -> (r: String)
    ensures
        r@ == signed_decimal(year as int) + ".json"@,
{
    let mut name = String::new();
    append_signed(&mut name, year as i64);
    name.append(".json");
    assert(name@ =~= signed_decimal(year as int) + ".json"@);
    name
}

// ---------------------------------------------------------------------------
// Ordered lists of days
// ---------------------------------------------------------------------------
/// Whether each day of a list comes before the next ones.
pub open spec fn in_order(days: Seq<Date>) -> bool {
    forall|i: int, j: int| 0 <= i < j < days.len() ==> (#[trigger] days[i])@.before(
        (#[trigger] days[j])@,
    )
}

/// Whether a list holds a day.
pub open spec fn holds(days: Seq<Date>, d: Ymd) -> bool {
    exists|i: int| 0 <= i < days.len() && (#[trigger] days[i])@ == d
}

/// Whether all days of a list are days of the calendar.
pub open spec fn all_valid(days: Seq<Date>) -> bool {
    forall|i: int| 0 <= i < days.len() ==> (#[trigger] days[i])@.valid()
}

/// Puts a day into an ordered list, unless it is there.
fn insert_day(days: &mut Vec<Date>, day: Date)
    requires
        in_order(old(days)@),
        all_valid(old(days)@),
    ensures
        in_order(final(days)@),
        all_valid(final(days)@),
        forall|d: Ymd| #[trigger] holds(final(days)@, d) <==> holds(old(days)@, d) || d == day@,
{
    proof {
        use_type_invariant(&day);
    }
    let ghost before = days@;
    let mut i: usize = days.len();
    while i > 0 && day.is_before(&days[i - 1])
        invariant
            days@ == before,
            i <= before.len(),
            in_order(before),
            forall|j: int| i <= j < before.len() ==> day@.before((#[trigger] before[j])@),
        decreases i,
    {
        i -= 1;
    }
    if i > 0 && day.same(&days[i - 1]) {
        assert(before[i - 1]@ == day@);
        assert(holds(before, day@));
        return ;
    }
    days.insert(i, day);
    proof {
        let after = days@;
        assert(after =~= before.insert(i as int, day));
        assert forall|a: int, b: int| 0 <= a < b < after.len() implies (#[trigger] after[a])@.before(
            (#[trigger] after[b])@,
        ) by {
            if a < i {
                assert(after[a] == before[a]);
                if b > i {
                    assert(after[b] == before[b - 1]);
                } else if b == i {
                    assert(before[i - 1]@.valid());
                    assert(before[i - 1]@.before(day@)) by {
                        number_follows_order(before[i - 1]@, day@);
                        number_follows_order(day@, before[i - 1]@);
                    }
                    if a < i - 1 {
                        assert(before[a]@.before(before[i - 1]@));
                    }
                } else {
                    assert(after[b] == before[b]);
                }
            } else if a == i {
                assert(after[b] == before[b - 1]);
            } else {
                assert(after[a] == before[a - 1]);
                assert(after[b] == before[b - 1]);
            }
        }
        assert forall|a: int| 0 <= a < after.len() implies (#[trigger] after[a])@.valid() by {
            if a < i {
                assert(after[a] == before[a]);
            } else if a > i {
                assert(after[a] == before[a - 1]);
            }
        }
        assert forall|d: Ymd| #[trigger] holds(after, d) <==> holds(before, d) || d == day@ by {
            if holds(after, d) {
                let a = choose|a: int| 0 <= a < after.len() && (#[trigger] after[a])@ == d;
                if a < i {
                    assert(before[a]@ == d);
                } else if a > i {
                    assert(before[a - 1]@ == d);
                }
            }
            if holds(before, d) {
                let a = choose|a: int| 0 <= a < before.len() && (#[trigger] before[a])@ == d;
                if a < i {
                    assert(after[a]@ == d);
                } else {
                    assert(after[a + 1]@ == d);
                }
            }
            assert(after[i as int]@ == day@);
        }
    }
}

/// Whether a day lies in a stretch.
pub open spec fn within(stretch: (Ymd, Ymd), d: Ymd) -> bool {
    d.valid() && stretch.0.number() <= d.number() <= stretch.1.number()
}

/// Puts all days of a stretch into an ordered list.
fn insert_stretch(days: &mut Vec<Date>, start: Date, end: Date)
    requires
        in_order(old(days)@),
        all_valid(old(days)@),
    ensures
        in_order(final(days)@),
        all_valid(final(days)@),
        forall|d: Ymd| #[trigger]
            holds(final(days)@, d) <==> holds(old(days)@, d) || within((start@, end@), d),
{
    proof {
        use_type_invariant(&start);
        use_type_invariant(&end);
        number_follows_order(end@, start@);
    }
    if end.is_before(&start) {
        return ;
    }
    let ghost before = days@;
    let mut current = start;
    loop
        invariant_except_break
            forall|d: Ymd| #[trigger]
                holds(days@, d) <==> holds(before, d) || (within((start@, end@), d) && d.number()
                    < current@.number()),
        invariant
            start@.valid(),
            end@.valid(),
            current@.valid(),
            start@.number() <= current@.number() <= end@.number(),
            in_order(days@),
            all_valid(days@),
        ensures
            forall|d: Ymd| #[trigger]
                holds(days@, d) <==> holds(before, d) || within((start@, end@), d),
        decreases end@.number() - current@.number(),
    {
        let ghost so_far = days@;
        insert_day(days, current);
        proof {
            assert forall|d: Ymd| #[trigger]
                holds(days@, d) <==> holds(before, d) || (within((start@, end@), d) && d.number()
                    <= current@.number()) by {
                assert(holds(so_far, d) <==> holds(before, d) || (within((start@, end@), d)
                    && d.number() < current@.number()));
                if d.valid() {
                    number_follows_order(d, current@);
                }
            }
            number_follows_order(current@, end@);
        }
        if current.same(&end) {
            break ;
        }
        match current.later(1) {
            Some(next) => {
                current = next;
            },
            None => {
                proof {
                    day_after_is_next(current@, end@);
                }
                break ;
            },
        }
    }
}

// ---------------------------------------------------------------------------
// Configured holidays
// ---------------------------------------------------------------------------
/// The stretch of days that a configured item denotes, or the part of it that is no date. Both
/// ends of a single day are that day.
pub open spec fn stretch_of(item: Seq<char>) -> Result<(Ymd, Ymd), Seq<char>> {
    let i = first_place(item, ".."@);
    let first = if contains_text(item, ".."@) {
        trimmed(item.take(i))
    } else {
        trimmed(item)
    };
    let last = if contains_text(item, ".."@) {
        trimmed(item.skip(i + 2))
    } else {
        trimmed(item)
    };
    match day_of(first) {
        None => Err(first),
        Some(a) => match day_of(last) {
            None => Err(last),
            Some(b) => Ok((a, b)),
        },
    }
}

/// Whether an item is the first and the last day of a stretch as they are written, with two
/// points between them.
pub open spec fn writes_stretch(item: Seq<char>, a: Ymd, b: Ymd) -> bool {
    short_year(a) && short_year(b) && item == day_text(a) + ".."@ + day_text(b)
}

/// Whether an item that is written as days denotes those days.
#[verifier::opaque]
pub open spec fn denotes_what_it_writes(item: Seq<char>) -> bool {
    &&& forall|d: Ymd| #[trigger] writes_day(item, d) ==> stretch_of(item) == Ok::<_, Seq<char>>((d, d))
    &&& forall|a: Ymd, b: Ymd| #[trigger]
        writes_stretch(item, a, b) ==> stretch_of(item) == Ok::<_, Seq<char>>((a, b))
}

/// Whether a text consists of digits and hyphens, at least one of them.
spec fn is_plain(s: Seq<char>) -> bool {
    s.len() > 0 && forall|i: int| 0 <= i < s.len() ==> is_digit(#[trigger] s[i]) || s[i] == '-'
}

proof fn padded_is_digits(n: int, width: int)
    requires
        n >= 0,
    ensures
        is_digits(zero_padded(decimal(n), width)),
{
    decimal_reads_back(n);
}

proof fn written_day_is_plain(d: Ymd)
    requires
        short_year(d),
    ensures
        is_plain(day_text(d)),
{
    padded_is_digits(d.year, 4);
    padded_is_digits(d.month, 2);
    padded_is_digits(d.day, 2);
}

proof fn plain_is_trimmed(s: Seq<char>)
    requires
        is_plain(s),
    ensures
        trimmed(s) == s,
        !contains_text(s, ".."@),
{
    assert(is_digit(s[0]) || s[0] == '-');
    assert(is_digit(s[s.len() - 1]) || s[s.len() - 1] == '-');
    trimmed_already(s);
    reveal_strlit("..");
    assert forall|i: int| !#[trigger] stands_at(s, ".."@, i) by {
        if stands_at(s, ".."@, i) {
            assert(s.subrange(i, i + 2)[0] == '.');
            assert(is_digit(s[i]) || s[i] == '-');
        }
    }
}

/// Where the two points of a written stretch stand.
proof fn stretch_splits(a: Seq<char>, b: Seq<char>)
    requires
        is_plain(a),
        is_plain(b),
    ensures
        ({
            let item = a + ".."@ + b;
            &&& contains_text(item, ".."@)
            &&& first_place(item, ".."@) == a.len()
            &&& item.take(a.len() as int) == a
            &&& item.skip(a.len() as int + 2) == b
        }),
{
    reveal_strlit("..");
    let item = a + ".."@ + b;
    assert(item.subrange(a.len() as int, a.len() as int + 2) =~= ".."@);
    assert forall|j: int| 0 <= j < a.len() implies !stands_at(item, ".."@, j) by {
        if stands_at(item, ".."@, j) {
            assert(item.subrange(j, j + 2)[0] == '.');
            assert(item[j] == a[j]);
            assert(is_digit(a[j]) || a[j] == '-');
        }
    }
    first_place_is(item, ".."@, a.len() as int);
    assert(item.take(a.len() as int) =~= a);
    assert(item.skip(a.len() as int + 2) =~= b);
}

/// Reads one date of a configured item.
fn parse_holiday_date(text: &str) -> (r: Result<Date, String>)
    ensures
        match r {
            Ok(d) => day_of(text@) == Some(d@),
            Err(t) => day_of(text@) is None && t@ == text@,
        },
        forall|d: Ymd| #[trigger] writes_day(text@, d) ==> day_of(text@) == Some(d),
{
    match read_day(text) {
        Some(d) => Ok(d),
        None => Err(text.to_string()),
    }
}

/// Whether `r` is the stretch that an item denotes, or the part of it that is no date.
#[verifier::opaque]
spec fn is_stretch_of(item: Seq<char>, r: Result<(Date, Date), String>) -> bool {
    match r {
        Ok(s) => stretch_of(item) == Ok::<_, Seq<char>>((s.0@, s.1@)),
        Err(t) => stretch_of(item) == Err::<(Ymd, Ymd), _>(t@),
    }
}

/// Reads one configured item.
fn read_stretch(item: &str) -> (r: Result<(Date, Date), String>)
    ensures
        is_stretch_of(item@, r),
        denotes_what_it_writes(item@),
{
    proof {
        reveal(is_stretch_of);
    }
    let chars = chars_of(item);
    let s = chars.as_slice();
    let dots = chars_of("..");
    proof {
        reveal(denotes_what_it_writes);
        reveal_strlit("..");
        assert forall|d: Ymd| #[trigger] writes_day(item@, d) implies !contains_text(item@, ".."@)
            && trimmed(item@) == item@ by {
            written_day_is_plain(d);
            plain_is_trimmed(item@);
        }
        assert forall|a: Ymd, b: Ymd| #[trigger] writes_stretch(item@, a, b) implies contains_text(
            item@,
            ".."@,
        ) && writes_day(trimmed(item@.take(first_place(item@, ".."@))), a) && writes_day(
            trimmed(item@.skip(first_place(item@, ".."@) + 2)),
            b,
        ) by {
            written_day_is_plain(a);
            written_day_is_plain(b);
            plain_is_trimmed(day_text(a));
            plain_is_trimmed(day_text(b));
            stretch_splits(day_text(a), day_text(b));
        }
    }
    match find_text(s, dots.as_slice()) {
        Some(i) => {
            proof {
                first_place_is(item@, ".."@, i as int);
            }
            let len: usize = s.len();
            let first = slice_subrange(s, 0, i);
            let last = slice_subrange(s, i + 2, len);
            assert(first@ =~= item@.take(i as int));
            assert(last@ =~= item@.skip(i + 2));
            let first_text = text_of(trim(first));
            let last_text = text_of(trim(last));
            let start = match parse_holiday_date(first_text.as_str()) {
                Ok(d) => d,
                Err(e) => {
                    return Err(e);
                },
            };
            match parse_holiday_date(last_text.as_str()) {
                Ok(end) => Ok((start, end)),
                Err(e) => Err(e),
            }
        },
        None => {
            let text = text_of(trim(s));
            match parse_holiday_date(text.as_str()) {
                Ok(d) => Ok((d, d)),
                Err(e) => Err(e),
            }
        },
    }
}

/// Whether a day lies in one of some stretches.
pub open spec fn within_any(stretches: Seq<(Date, Date)>, d: Ymd) -> bool {
    exists|k: int|
        0 <= k < stretches.len() && within(
            ((#[trigger] stretches[k]).0@, stretches[k].1@),
            d,
        )
}

/// The days of some stretches, in order and each once.
pub fn days_of_stretches(stretches: &Vec<(Date, Date)>) -> (r: Vec<Date>)
    ensures
        in_order(r@),
        all_valid(r@),
        forall|d: Ymd| #[trigger] holds(r@, d) <==> within_any(stretches@, d),
{
    let mut days: Vec<Date> = Vec::new();
    let mut k: usize = 0;
    while k < stretches.len()
        invariant
            k <= stretches@.len(),
            in_order(days@),
            all_valid(days@),
            forall|d: Ymd| #[trigger] holds(days@, d) <==> within_any(stretches@.take(k as int), d),
        decreases stretches@.len() - k,
    {
        let ghost before = days@;
        insert_stretch(&mut days, stretches[k].0, stretches[k].1);
        proof {
            let now = stretches@.take(k as int);
            let next = stretches@.take(k + 1);
            assert forall|d: Ymd| #[trigger] holds(days@, d) <==> within_any(next, d) by {
                assert(holds(before, d) <==> within_any(now, d));
                if within_any(now, d) {
                    let j = choose|j: int|
                        0 <= j < now.len() && within(((#[trigger] now[j]).0@, now[j].1@), d);
                    assert(next[j] == now[j]);
                }
                if within_any(next, d) {
                    let j = choose|j: int|
                        0 <= j < next.len() && within(((#[trigger] next[j]).0@, next[j].1@), d);
                    if j < k {
                        assert(now[j] == next[j]);
                    }
                }
                assert(next[k as int] == stretches@[k as int]);
            }
        }
        k += 1;
    }
    assert(stretches@.take(k as int) =~= stretches@);
    days
}

/// Whether a day lies in a stretch that one of the configured items denotes.
pub open spec fn configured(items: Seq<String>, d: Ymd) -> bool {
    exists|k: int|
        0 <= k < items.len() && (stretch_of((#[trigger] items[k])@) matches Ok(s) && within(s, d))
}

/// Whether all items of a list denote days.
pub open spec fn all_denote(items: Seq<String>) -> bool {
    forall|k: int| 0 <= k < items.len() ==> stretch_of((#[trigger] items[k])@) is Ok
}

/// Whether `e` names the part of the first item that denotes no days.
pub open spec fn names_first_bad(items: Seq<String>, e: Failure) -> bool {
    exists|k: int|
        {
            &&& 0 <= k < items.len()
            &&& stretch_of((#[trigger] items[k])@) matches Err(bad)
            &&& e matches Failure::HolidayDate(t)
            &&& t@ == bad
            &&& forall|j: int| 0 <= j < k ==> stretch_of((#[trigger] items[j])@) is Ok
        }
}

proof fn first_bad_is(items: Seq<String>, k: int, e: Failure)
    requires
        0 <= k < items.len(),
        forall|j: int| 0 <= j < k ==> stretch_of((#[trigger] items[j])@) is Ok,
        stretch_of(items[k]@) matches Err(bad) && (e matches Failure::HolidayDate(t) && t@ == bad),
    ensures
        !all_denote(items),
        names_first_bad(items, e),
{
    assert(stretch_of(items[k]@) is Err);
}

/// Whether every item of a list that is written as days denotes those days.
pub open spec fn all_denote_what_they_write(items: Seq<String>) -> bool {
    forall|k: int| 0 <= k < items.len() ==> denotes_what_it_writes((#[trigger] items[k])@)
}

/// Whether `days` are the days that some items denote, in order and each once.
pub open spec fn is_list_of(days: Seq<Date>, items: Seq<String>) -> bool {
    &&& in_order(days)
    &&& all_valid(days)
    &&& forall|d: Ymd| #[trigger] holds(days, d) <==> configured(items, d)
}

/// Reads all configured items.
fn read_stretches(items: &[String]) -> (r: Vec<Result<(Date, Date), String>>)
    ensures
        r@.len() == items@.len(),
        forall|j: int| 0 <= j < items@.len() ==> is_stretch_of(#[trigger] items@[j]@, r@[j]),
        all_denote_what_they_write(items@),
{
    let mut out: Vec<Result<(Date, Date), String>> = Vec::new();
    let mut k: usize = 0;
    while k < items.len()
        invariant
            k <= items@.len(),
            out@.len() == k,
            forall|j: int| 0 <= j < k ==> is_stretch_of(#[trigger] items@[j]@, out@[j]),
            forall|j: int| 0 <= j < k ==> denotes_what_it_writes((#[trigger] items@[j])@),
        decreases items@.len() - k,
    {
        let read = read_stretch(items[k].as_str());
        out.push(read);
        k += 1;
    }
    out
}

/// Reads configured holidays: the days of all items, in order and each once. The first item
/// that is no date is an error; an item that is written as days is none.
pub fn parse_holiday_dates(items: &[String]) -> (r: Result<Vec<Date>, Failure>)
    ensures
        match r {
            Ok(days) => all_denote(items@) && is_list_of(days@, items@),
            Err(e) => !all_denote(items@) && names_first_bad(items@, e),
        },
        all_denote_what_they_write(items@),
{
    let reads = read_stretches(items);
    let mut stretches: Vec<(Date, Date)> = Vec::new();
    let mut k: usize = 0;
    while k < reads.len()
        invariant
            k <= reads@.len(),
            reads@.len() == items@.len(),
            forall|j: int| 0 <= j < items@.len() ==> is_stretch_of(#[trigger] items@[j]@, reads@[j]),
            stretches@.len() == k,
            forall|j: int|
                0 <= j < k ==> stretch_of((#[trigger] items@[j])@) == Ok::<_, Seq<char>>(
                    (stretches@[j].0@, stretches@[j].1@),
                ),
            all_denote_what_they_write(items@),
        decreases reads@.len() - k,
    {
        proof {
            reveal(is_stretch_of);
            assert(is_stretch_of(items@[k as int]@, reads@[k as int]));
        }
        match &reads[k] {
            Ok(s) => {
                stretches.push(*s);
            },
            Err(t) => {
                let e = Failure::HolidayDate(t.clone());
                proof {
                    first_bad_is(items@, k as int, e);
                }
                return Err(e);
            },
        }
        k += 1;
    }
    let days = days_of_stretches(&stretches);
    proof {
        assert forall|d: Ymd| #[trigger] holds(days@, d) <==> configured(items@, d) by {
            if within_any(stretches@, d) {
                let j = choose|j: int|
                    0 <= j < stretches@.len() && within(
                        ((#[trigger] stretches@[j]).0@, stretches@[j].1@),
                        d,
                    );
                assert(stretch_of(items@[j]@) is Ok);
            }
            if configured(items@, d) {
                let j = choose|j: int|
                    0 <= j < items@.len() && (stretch_of((#[trigger] items@[j])@) matches Ok(s)
                        && within(s, d));
                assert(within((stretches@[j].0@, stretches@[j].1@), d));
            }
        }
    }
    Ok(days)
}

impl HolidayCalendar {
    /// Whether the calendar lists the days that a configuration denotes, in order and each once.
    pub open spec fn of(self, config: HolidayConfig) -> bool {
        &&& is_list_of(self.holidays@, config.holidays@)
        &&& is_list_of(self.makeup_workdays@, config.makeup_workdays@)
    }

    /// Whether a day is a working day: one that is worked for another, or a day from Monday to
    /// Friday that is no holiday.
    pub open spec fn is_workday(self, d: Ymd) -> bool {
        holds(self.makeup_workdays@, d) || (!holds(self.holidays@, d) && d.weekday() < 5)
    }
}

/// Whether `r` is the calendar of a configuration, or names its first text that denotes nothing,
/// where the holidays come before the days that are worked for others.
pub open spec fn calendar_read(config: HolidayConfig, r: Result<HolidayCalendar, Failure>) -> bool {
    match r {
        Ok(calendar) => {
            &&& all_denote(config.holidays@)
            &&& all_denote(config.makeup_workdays@)
            &&& calendar.of(config)
        },
        Err(e) => if all_denote(config.holidays@) {
            names_first_bad(config.makeup_workdays@, e)
        } else {
            names_first_bad(config.holidays@, e)
        },
    }
}

/// The calendar of a configuration. Items that are written as days denote those days.
pub fn holiday_calendar(config: &HolidayConfig) -> (r: Result<HolidayCalendar, Failure>)
    ensures
        calendar_read(*config, r),
        all_denote_what_they_write(config.holidays@),
        all_denote_what_they_write(config.makeup_workdays@),
{
    let holidays = parse_holiday_dates(config.holidays.as_slice());
    let makeup_workdays = parse_holiday_dates(config.makeup_workdays.as_slice());
    match holidays {
        Err(e) => Err(e),
        Ok(holidays) => match makeup_workdays {
            Err(e) => Err(e),
            Ok(makeup_workdays) => Ok(HolidayCalendar { holidays, makeup_workdays }),
        },
    }
}

/// Which days are working days: every day that is worked for another, at a weekend or not, and of
/// the others those from Monday to Friday that are no holidays.
pub proof fn lists_settle_workdays(calendar: HolidayCalendar, d: Ymd)
    ensures
        (exists|i: int|
            0 <= i < calendar.makeup_workdays@.len() && (#[trigger] calendar.makeup_workdays@[i])@
                == d) ==> calendar.is_workday(d),
        (forall|i: int|
            0 <= i < calendar.makeup_workdays@.len() ==> (
            #[trigger] calendar.makeup_workdays@[i])@ != d) ==> (calendar.is_workday(d) <==> (
        forall|i: int|
            0 <= i < calendar.holidays@.len() ==> (#[trigger] calendar.holidays@[i])@ != d) && (
        d.number() - 1) % 7 < 5),
{
}

fn list_holds(days: &Vec<Date>, date: &Date) -> (r: bool)
    ensures
        r == holds(days@, date@),
{
    let mut i: usize = 0;
    while i < days.len()
        invariant
            i <= days@.len(),
            forall|j: int| 0 <= j < i ==> (#[trigger] days@[j])@ != date@,
        decreases days@.len() - i,
    {
        if days[i].same(date) {
            return true;
        }
        i += 1;
    }
    false
}

/// Tells whether a report is expected for a day.
pub fn is_linker_report_workday(date: &Date, calendar: &HolidayCalendar) -> (r: bool)
    ensures
        r == calendar.is_workday(date@),
{
    if list_holds(&calendar.makeup_workdays, date) {
        return true;
    }
    if list_holds(&calendar.holidays, date) {
        return false;
    }
    !date.is_weekend()
}

/// A list that holds one day alone, in order and each once, has that day as its only item.
pub proof fn list_of_one_day(days: Seq<Date>, d: Ymd)
    requires
        in_order(days),
        forall|x: Ymd| #[trigger] holds(days, x) <==> x == d,
    ensures
        days.len() == 1,
        days[0]@ == d,
{
    assert(holds(days, d));
    assert forall|i: int| 0 <= i < days.len() implies (#[trigger] days[i])@ == d by {
        assert(holds(days, days[i]@));
    }
    if days.len() > 1 {
        assert(days[0]@.before(days[1]@));
    }
}

/// A configuration of single days, written as such, is a calendar of those days: here one of
/// each kind.
pub proof fn single_days_make_a_calendar(
    config: HolidayConfig,
    holiday: Ymd,
    workday: Ymd,
    r: Result<HolidayCalendar, Failure>,
)
    requires
        calendar_read(config, r),
        all_denote_what_they_write(config.holidays@),
        all_denote_what_they_write(config.makeup_workdays@),
        config.holidays@.len() == 1,
        config.makeup_workdays@.len() == 1,
        writes_day(config.holidays@[0]@, holiday),
        writes_day(config.makeup_workdays@[0]@, workday),
    ensures
        r matches Ok(calendar) && {
            &&& calendar.holidays@.len() == 1
            &&& calendar.holidays@[0]@ == holiday
            &&& calendar.makeup_workdays@.len() == 1
            &&& calendar.makeup_workdays@[0]@ == workday
        },
{
    one_item_configures(config.holidays@, holiday);
    one_item_configures(config.makeup_workdays@, workday);
    if let Ok(calendar) = r {
        list_of_one_day(calendar.holidays@, holiday);
        list_of_one_day(calendar.makeup_workdays@, workday);
    }
}

proof fn one_item_configures(items: Seq<String>, d: Ymd)
    requires
        items.len() == 1,
        writes_day(items[0]@, d),
        denotes_what_it_writes(items[0]@),
    ensures
        all_denote(items),
        forall|x: Ymd| #[trigger] configured(items, x) <==> x == d,
{
    reveal(denotes_what_it_writes);
    assert(stretch_of(items[0]@) == Ok::<_, Seq<char>>((d, d)));
    assert forall|x: Ymd| #[trigger] configured(items, x) <==> x == d by {
        if configured(items, x) {
            number_follows_order(x, d);
            number_follows_order(d, x);
        }
        if x == d {
            assert(within((d, d), x));
        }
    }
}

/// Items that are written as days or stretches of days are accepted.
pub proof fn written_days_are_accepted(items: Seq<String>)
    requires
        all_denote_what_they_write(items),
        forall|k: int|
            0 <= k < items.len() ==> (exists|d: Ymd| #[trigger]
                writes_day((#[trigger] items[k])@, d)) || (exists|a: Ymd, b: Ymd| #[trigger]
                writes_stretch(items[k]@, a, b)),
    ensures
        all_denote(items),
{
    reveal(denotes_what_it_writes);
    assert forall|k: int| 0 <= k < items.len() implies stretch_of((#[trigger] items[k])@) is Ok by {
        assert(denotes_what_it_writes(items[k]@));
    }
}

proof fn item_covers(items: Seq<String>, k: int, a: Ymd, b: Ymd, d: Ymd)
    requires
        0 <= k < items.len(),
        a.valid(),
        b.valid(),
        d.valid(),
        stretch_of(items[k]@) == Ok::<_, Seq<char>>((a, b)),
    ensures
        !d.before(a) && !b.before(d) ==> configured(items, d),
        items.len() == 1 && configured(items, d) ==> !d.before(a) && !b.before(d),
{
    number_follows_order(d, a);
    number_follows_order(b, d);
    if !d.before(a) && !b.before(d) {
        assert(within((a, b), d));
    }
    if items.len() == 1 && configured(items, d) {
        let i = choose|i: int|
            0 <= i < items.len() && (stretch_of((#[trigger] items[i])@) matches Ok(s) && within(
                s,
                d,
            ));
        assert(i == k);
        assert(within((a, b), d));
    }
}

/// A stretch that is written as its first and last day covers both, all days between them and no
/// other.
pub proof fn written_stretches_cover_their_days(
    items: Seq<String>,
    k: int,
    a: Ymd,
    b: Ymd,
    d: Ymd,
)
    requires
        0 <= k < items.len(),
        denotes_what_it_writes(items[k]@),
        writes_stretch(items[k]@, a, b),
        d.valid(),
    ensures
        !d.before(a) && !b.before(d) ==> configured(items, d),
        items.len() == 1 && configured(items, d) ==> !d.before(a) && !b.before(d),
{
    assert(stretch_of(items[k]@) == Ok::<_, Seq<char>>((a, b))) by {
        reveal(denotes_what_it_writes);
    }
    item_covers(items, k, a, b, d);
}

/// A single day that is written covers that day alone.
pub proof fn written_days_cover_themselves(items: Seq<String>, k: int, a: Ymd, d: Ymd)
    requires
        0 <= k < items.len(),
        denotes_what_it_writes(items[k]@),
        writes_day(items[k]@, a),
        d.valid(),
    ensures
        d == a ==> configured(items, d),
        items.len() == 1 && configured(items, d) ==> d == a,
{
    assert(stretch_of(items[k]@) == Ok::<_, Seq<char>>((a, a))) by {
        reveal(denotes_what_it_writes);
    }
    item_covers(items, k, a, a, d);
}

/// How an item is taken apart: at its first two points, with the white space around both parts
/// taken away; an item without two points is one day.
pub proof fn items_are_taken_apart(item: Seq<char>, i: int)
    ensures
        stands_at(item, seq!['.', '.'], i) && (forall|j: int|
            0 <= j < i ==> !stands_at(item, seq!['.', '.'], j)) ==> {
            let first = trimmed(item.take(i));
            let last = trimmed(item.skip(i + 2));
            &&& day_of(first) is None ==> stretch_of(item) == Err::<(Ymd, Ymd), _>(first)
            &&& day_of(first) is Some && day_of(last) is None ==> stretch_of(item) == Err::<
                (Ymd, Ymd),
                _,
            >(last)
            &&& day_of(first) is Some && day_of(last) is Some ==> stretch_of(item) == Ok::<
                _,
                Seq<char>,
            >((day_of(first)->0, day_of(last)->0))
        },
        (forall|j: int| !stands_at(item, seq!['.', '.'], j)) ==> match day_of(trimmed(item)) {
            Some(d) => stretch_of(item) == Ok::<_, Seq<char>>((d, d)),
            None => stretch_of(item) == Err::<(Ymd, Ymd), _>(trimmed(item)),
        },
{
    reveal_strlit("..");
    assert(".."@ =~= seq!['.', '.']);
    if stands_at(item, seq!['.', '.'], i) && (forall|j: int|
        0 <= j < i ==> !stands_at(item, seq!['.', '.'], j)) {
        first_place_is(item, ".."@, i);
    }
}

/// The working days are settled by the configuration: all calendars of one have the same.
pub proof fn configuration_settles_workdays(
    config: HolidayConfig,
    a: HolidayCalendar,
    b: HolidayCalendar,
    d: Ymd,
)
    requires
        a.of(config),
        b.of(config),
    ensures
        a.is_workday(d) == b.is_workday(d),
        a.is_workday(d) == (configured(config.makeup_workdays@, d) || (!configured(
            config.holidays@,
            d,
        ) && d.weekday() < 5)),
{
}

} // verus!
