//! What is sent to the server, and what its replies mean.
use vstd::prelude::*;

use crate::date::{day_text, time_token, token_of, Date, Ymd};
use crate::failure::Failure;
use crate::json::{
    carries, carries_at, field_in_is, fields_view, items_view, number_json, put, Json, JsonView,
};
use crate::lists::{filter_next, filter_of_none, filter_of_one, filter_of_two};
use crate::log::ParsedLog;
use crate::missing::{array_items, data_field};
use crate::text::{append_signed, chars_of, read_signed, same_text, signed_decimal, signed_of};

verus! {

pub const WEEKSYSTEM_APP_URL: &'static str = "https://weeksystem.linker.cc/wap/index.html?v=1.2.5.5";

pub const WEEKSYSTEM_CONFIG_URL: &'static str = "https://weeksystem.linker.cc/statics/config.json";

pub const MAN_HOUR_API_URL: &'static str = "https://weeksystem.linker.cc/api/Index/addManHour";

pub const EDIT_MAN_HOUR_API_URL: &'static str = "https://weeksystem.linker.cc/api/Index/editMyhour";

pub const SESSION_PROBE_URL: &'static str = "https://weeksystem.linker.cc/api/Index/getProjectListByAdmin";

pub const GET_HOUR_DAILY_URL: &'static str = "https://weeksystem.linker.cc/api/index/getHourDailyByTime";

pub const ADD_DAILY_URL: &'static str = "https://weeksystem.linker.cc/api/Index/addDaily";

pub const UPDATE_DAILY_URL: &'static str = "https://weeksystem.linker.cc/api/Index/updateDaily";

pub const DAILY_REPORT_API_URL: &'static str = "https://weeksystem.linker.cc/api/datareport/daily";

// ---------------------------------------------------------------------------
// Replies
// ---------------------------------------------------------------------------
/// The integer that a field of a value denotes.
pub open spec fn field_integer(v: JsonView, key: Seq<char>) -> Option<int> {
    match v.field(key) {
        Some(f) => f.integer(),
        None => None,
    }
}

/// The text that a field of a value holds.
pub open spec fn field_text(v: JsonView, key: Seq<char>) -> Option<Seq<char>> {
    match v.field(key) {
        Some(f) => f.text(),
        None => None,
    }
}

/// Whether a code says that a request was carried out.
pub open spec fn is_success(code: JsonView) -> bool {
    ||| code.integer() == Some(1int)
    ||| code.integer() == Some(200int)
    ||| code.text() == Some("1"@)
    ||| code.text() == Some("200"@)
}

/// Whether a reply asks for a login.
pub open spec fn is_unauthorized(reply: JsonView) -> bool {
    field_integer(reply, "code"@) == Some(401int)
}

/// Whether a reply says that the request was carried out; a reply without a code does.
pub open spec fn is_accepted(reply: JsonView) -> bool {
    match reply.field("code"@) {
        Some(code) => is_success(code),
        None => true,
    }
}

/// What a reply says of a request that was not carried out.
pub open spec fn refusal_text(reply: JsonView) -> Seq<char> {
    match field_text(reply, "msg"@) {
        Some(t) => t,
        None => match field_text(reply, "message"@) {
            Some(t) => t,
            None => "request failed"@,
        },
    }
}

/// Whether `r` is what a reply means.
pub open spec fn reply_means(reply: JsonView, r: Result<(), Failure>) -> bool {
    match r {
        Ok(_) => is_accepted(reply) && !is_unauthorized(reply),
        Err(e) => if is_unauthorized(reply) {
            e is AuthRequired
        } else {
            !is_accepted(reply) && (e matches Failure::Refused(t) && t@ == refusal_text(reply))
        },
    }
}

/// Which replies say that a request was carried out: those without a code, and those whose code
/// is the number 1 or 200 or one of these as a text. The number 401 asks for a login.
pub proof fn codes_tell_what_replies_mean(reply: JsonView)
    requires
        reply.field("code"@) matches Some(JsonView::Negative(n)) ==> n < 0,
    ensures
        is_accepted(reply) <==> (match reply.field("code"@) {
            None => true,
            Some(code) => code == JsonView::Unsigned(1) || code == JsonView::Unsigned(200) || code
                == JsonView::Text("1"@) || code == JsonView::Text("200"@),
        }),
        is_unauthorized(reply) <==> reply.field("code"@) == Some(JsonView::Unsigned(401)),
{
}

/// What a reply says of a refused request is its field `msg`, or else its field `message`, where
/// they are texts.
pub proof fn refusals_are_told_as_they_came(reply: JsonView, told: Seq<char>)
    ensures
        reply.field("msg"@) == Some(JsonView::Text(told)) ==> refusal_text(reply) == told,
        !(reply.field("msg"@) matches Some(JsonView::Text(_))) && reply.field("message"@) == Some(
            JsonView::Text(told),
        ) ==> refusal_text(reply) == told,
        !(reply.field("msg"@) matches Some(JsonView::Text(_))) && !(reply.field(
            "message"@,
        ) matches Some(JsonView::Text(_))) ==> refusal_text(reply) == "request failed"@,
{
}

fn get_integer(v: &Json, key: &str) -> (r: Option<i64>)
    ensures
        match r {
            Some(n) => field_integer(v@, key@) == Some(n as int),
            None => field_integer(v@, key@) is None,
        },
{
    match v.get(key) {
        Some(f) => f.as_i64(),
        None => None,
    }
}

fn get_text<'a>(v: &'a Json, key: &str) -> (r: Option<&'a str>)
    ensures
        match r {
            Some(t) => field_text(v@, key@) == Some(t@),
            None => field_text(v@, key@) is None,
        },
{
    match v.get(key) {
        Some(f) => f.as_str(),
        None => None,
    }
}

/// Tells what a reply means.
pub fn check_reply(reply: &Json) -> (r: Result<(), Failure>)
    ensures
        reply_means(reply@, r),
{
    if let Some(n) = get_integer(reply, "code") {
        if n == 401 {
            return Err(Failure::AuthRequired);
        }
    }
    if let Some(code) = reply.get("code") {
        let by_number = match code.as_i64() {
            Some(n) => n == 1 || n == 200,
            None => false,
        };
        let by_text = match code.as_str() {
            Some(t) => same_text(t, "1") || same_text(t, "200"),
            None => false,
        };
        if !(by_number || by_text) {
            let message = match get_text(reply, "msg") {
                Some(t) => t,
                None => match get_text(reply, "message") {
                    Some(t) => t,
                    None => "request failed",
                },
            };
            return Err(Failure::Refused(message.to_string()));
        }
    }
    Ok(())
}

// ---------------------------------------------------------------------------
// What the server knows of a day
// ---------------------------------------------------------------------------
/// What the server has of a day: a report, if there is one, and the entries of hours.
pub struct DaySnapshot {
    pub daily: Option<Json>,
    pub workhour: Vec<Json>,
}

/// The report of a day that a reply brings; a report that is null is none.
pub open spec fn daily_of(reply: JsonView) -> Option<JsonView> {
    match data_field(reply, "daily"@) {
        Some(d) => if d is Null {
            None
        } else {
            Some(d)
        },
        None => None,
    }
}

/// The report and the entries of hours are found in the data of a reply; what is not there, or is
/// no list of entries, is none.
pub proof fn snapshot_is_in_the_data(reply: JsonView, data: JsonView)
    ensures
        reply.field("data"@) is None ==> daily_of(reply) is None && entries_of(reply).len() == 0,
        reply.field("data"@) == Some(data) ==> {
            &&& daily_of(reply) == (match data.field("daily"@) {
                Some(JsonView::Null) => None,
                found => found,
            })
            &&& match data.field("workhour"@) {
                Some(JsonView::Array(items)) => entries_of(reply) == items,
                _ => entries_of(reply).len() == 0,
            }
        },
{
}

/// The entries of hours that a reply brings.
pub open spec fn entries_of(reply: JsonView) -> Seq<JsonView> {
    array_items(data_field(reply, "workhour"@))
}

/// The request for what the server has of a day.
pub fn snapshot_payload(token: &str) -> (r: Json)
    ensures
        r@ == JsonView::Object(seq![("time"@, JsonView::Text(token@))]),
{
    let mut fields: Vec<(String, Json)> = Vec::new();
    put(&mut fields, "time", Json::string(token));
    assert(fields_view(fields@) =~= seq![("time"@, JsonView::Text(token@))]);
    Json::object(fields)
}

/// A second list with the same contents.
fn copy_items(items: &Vec<Json>) -> (r: Vec<Json>)
    ensures
        items_view(r@) == items_view(items@),
{
    let mut out: Vec<Json> = Vec::new();
    let mut i: usize = 0;
    while i < items.len()
        invariant
            i <= items@.len(),
            out@.len() == i,
            forall|j: int| 0 <= j < i ==> (#[trigger] out@[j])@ == items@[j]@,
        decreases items@.len() - i,
    {
        let item = items[i].copy();
        out.push(item);
        i += 1;
    }
    assert(items_view(out@) =~= items_view(items@));
    out
}

/// Reads what the server has of a day.
pub fn read_snapshot(reply: &Json) -> (r: DaySnapshot)
    ensures
        match r.daily {
            Some(d) => daily_of(reply@) == Some(d@),
            None => daily_of(reply@) is None,
        },
        items_view(r.workhour@) == entries_of(reply@),
{
    let data = reply.get("data");
    let daily = match data {
        Some(d) => match d.get("daily") {
            Some(report) => if report.is_null() {
                None
            } else {
                Some(report.copy())
            },
            None => None,
        },
        None => None,
    };
    let listed = match data {
        Some(d) => d.get("workhour"),
        None => None,
    };
    let entries = match listed {
        Some(v) => v.as_array(),
        None => None,
    };
    let workhour = match entries {
        Some(items) => copy_items(items),
        None => {
            let none: Vec<Json> = Vec::new();
            assert(items_view(none@) =~= seq![]);
            none
        },
    };
    DaySnapshot { daily, workhour }
}

// ---------------------------------------------------------------------------
// Entries of hours
// ---------------------------------------------------------------------------
/// What an entry of hours says.
pub struct ManHour {
    pub year: i32,
    pub month: u32,
    pub day: u32,
    /// The hours, as a numeral.
    pub workhour: String,
    pub project_id: i64,
    pub remark: String,
    pub out_work: String,
}

/// The fields that are sent for an entry of hours.
pub open spec fn man_hour_fields(m: ManHour) -> Seq<(Seq<char>, JsonView)> {
    seq![
        ("year"@, JsonView::of_integer(m.year as int)),
        ("month"@, JsonView::of_integer(m.month as int)),
        ("day"@, JsonView::of_integer(m.day as int)),
        ("workhour"@, JsonView::Decimal(m.workhour@)),
        ("project_id"@, JsonView::of_integer(m.project_id as int)),
        ("remark"@, JsonView::Text(m.remark@)),
        ("outWork"@, JsonView::Text(m.out_work@)),
    ]
}

fn put_man_hour(m: &ManHour) -> (r: Vec<(String, Json)>)
    ensures
        fields_view(r@) == man_hour_fields(*m),
{
    let mut fields: Vec<(String, Json)> = Vec::new();
    put(&mut fields, "year", Json::integer(m.year as i64));
    put(&mut fields, "month", Json::integer(m.month as i64));
    put(&mut fields, "day", Json::integer(m.day as i64));
    put(&mut fields, "workhour", Json::Decimal(m.workhour.clone()));
    put(&mut fields, "project_id", Json::integer(m.project_id));
    put(&mut fields, "remark", Json::string(m.remark.as_str()));
    put(&mut fields, "outWork", Json::string(m.out_work.as_str()));
    assert(fields_view(fields@) =~= man_hour_fields(*m));
    fields
}

/// The request that creates an entry of hours.
pub fn man_hour_payload(m: &ManHour) -> (r: Json)
    ensures
        r@ == JsonView::Object(man_hour_fields(*m)),
{
    Json::object(put_man_hour(m))
}

/// The entries of a project.
pub open spec fn entries_for(entries: Seq<JsonView>, project_id: int) -> Seq<JsonView> {
    entries.filter(|e: JsonView| field_integer(e, "project_id"@) == Some(project_id))
}

/// A request: where it goes and what it carries.
pub struct Request {
    pub url: &'static str,
    pub payload: Json,
}

/// Where a request goes and what it carries.
pub struct RequestView {
    pub url: Seq<char>,
    pub payload: JsonView,
}

impl View for Request {
    type V = RequestView;

    open spec fn view(&self) -> RequestView {
        RequestView { url: self.url@, payload: self.payload@ }
    }
}

/// How the hours of a day are submitted: by a request that creates an entry, or by one that
/// changes the entry with a number.
pub struct ManHourPlan {
    pub entry_id: Option<i64>,
    pub request: Request,
}

/// Whether a plan is the right one for hours, given the entries that the server has: a project
/// with no entry yet gets one, a project with one entry has that changed, and a project with
/// several entries, or with one that has no number, is an error.
pub open spec fn man_hour_planned(
    entries: Seq<JsonView>,
    date: Date,
    m: ManHour,
    r: Result<ManHourPlan, Failure>,
) -> bool {
    let ours = entries_for(entries, m.project_id as int);
    if ours.len() > 1 {
        r == Err::<ManHourPlan, _>(Failure::SeveralEntries(m.project_id, date))
    } else if ours.len() == 1 {
        match field_integer(ours[0], "id"@) {
            None => r == Err::<ManHourPlan, _>(Failure::EntryId),
            Some(id) => {
                &&& r matches Ok(plan)
                &&& plan.entry_id matches Some(n)
                &&& n == id
                &&& plan.request@ == (RequestView {
                    url: EDIT_MAN_HOUR_API_URL@,
                    payload: JsonView::Object(
                        man_hour_fields(m).push(("id"@, JsonView::of_integer(id))),
                    ),
                })
            },
        }
    } else {
        &&& r matches Ok(plan)
        &&& plan.entry_id is None
        &&& plan.request@ == (RequestView {
            url: MAN_HOUR_API_URL@,
            payload: JsonView::Object(man_hour_fields(m)),
        })
    }
}

/// Plans how the hours of a day are submitted.
pub fn plan_man_hour(entries: &Vec<Json>, date: Date, m: &ManHour) -> (r: Result<
    ManHourPlan,
    Failure,
>)
    ensures
        man_hour_planned(items_view(entries@), date, *m, r),
{
    let ghost all = items_view(entries@);
    let ghost ours = |e: JsonView| field_integer(e, "project_id"@) == Some(m.project_id as int);
    let mut found: Option<usize> = None;
    let mut count: usize = 0;
    let mut i: usize = 0;
    proof {
        reveal(Seq::filter);
        assert(all.take(0) =~= seq![]);
    }
    while i < entries.len()
        invariant
            i <= entries@.len(),
            all == items_view(entries@),
            ours == (|e: JsonView| field_integer(e, "project_id"@) == Some(m.project_id as int)),
            count <= i,
            count == all.take(i as int).filter(ours).len(),
            match found {
                Some(k) => {
                    &&& count > 0
                    &&& k < i
                    &&& all.take(i as int).filter(ours)[0] == all[k as int]
                },
                None => count == 0,
            },
        decreases entries@.len() - i,
    {
        proof {
            filter_next(all, i as int, ours);
            assert(all[i as int] == entries@[i as int]@);
        }
        if let Some(n) = get_integer(&entries[i], "project_id") {
            if n == m.project_id {
                if found.is_none() {
                    found = Some(i);
                }
                count += 1;
            }
        }
        i += 1;
    }
    assert(all.take(i as int) =~= all);
    if count > 1 {
        return Err(Failure::SeveralEntries(m.project_id, date));
    }
    let mut fields = put_man_hour(m);
    match found {
        Some(k) => {
            assert(all[k as int] == entries@[k as int]@);
            match get_integer(&entries[k], "id") {
                None => Err(Failure::EntryId),
                Some(id) => {
                    put(&mut fields, "id", Json::integer(id));
                    Ok(
                        ManHourPlan {
                            entry_id: Some(id),
                            request: Request {
                                url: EDIT_MAN_HOUR_API_URL,
                                payload: Json::object(fields),
                            },
                        },
                    )
                },
            }
        },
        None => Ok(
            ManHourPlan {
                entry_id: None,
                request: Request { url: MAN_HOUR_API_URL, payload: Json::object(fields) },
            },
        ),
    }
}

/// Whether an entry of hours belongs to a project.
pub open spec fn belongs_to(entry: JsonView, project_id: i64) -> bool {
    entry.field("project_id"@) matches Some(v) && v.integer() == Some(project_id as int)
}

/// Whether a payload is an entry of hours with this day, these hours, this project and these
/// texts.
pub open spec fn books(
    payload: JsonView,
    day: Ymd,
    hours: Seq<char>,
    project_id: i64,
    remark: Seq<char>,
    out_work: Seq<char>,
) -> bool {
    &&& carries(payload, "year"@, number_json(day.year))
    &&& carries(payload, "month"@, number_json(day.month))
    &&& carries(payload, "day"@, number_json(day.day))
    &&& carries(payload, "workhour"@, JsonView::Decimal(hours))
    &&& carries(payload, "project_id"@, number_json(project_id as int))
    &&& carries(payload, "remark"@, JsonView::Text(remark))
    &&& carries(payload, "outWork"@, JsonView::Text(out_work))
}

proof fn man_hour_keys()
    ensures
        "year"@.len() == 4,
        "month"@.len() == 5,
        "day"@.len() == 3,
        "workhour"@.len() == 8,
        "project_id"@.len() == 10,
        "remark"@.len() == 6,
        "outWork"@.len() == 7,
        "id"@.len() == 2,
{
    reveal_strlit("year");
    reveal_strlit("month");
    reveal_strlit("day");
    reveal_strlit("workhour");
    reveal_strlit("project_id");
    reveal_strlit("remark");
    reveal_strlit("outWork");
    reveal_strlit("id");
}

/// The fields of an entry of hours carry what the entry says, with or without a number behind
/// them.
#[verifier::rlimit(40)]
pub proof fn fields_book_their_entry(m: ManHour, id: int)
    ensures
        ({
            let day = Ymd { year: m.year as int, month: m.month as int, day: m.day as int };
            let new = JsonView::Object(man_hour_fields(m));
            let changed = JsonView::Object(
                man_hour_fields(m).push(("id"@, JsonView::of_integer(id))),
            );
            &&& books(new, day, m.workhour@, m.project_id, m.remark@, m.out_work@)
            &&& books(changed, day, m.workhour@, m.project_id, m.remark@, m.out_work@)
            &&& carries(changed, "id"@, number_json(id))
        }),
{
    man_hour_keys();
    let new = man_hour_fields(m);
    let changed = new.push(("id"@, JsonView::of_integer(id)));
    assert(new.len() == 7);
    carries_at(new, 0);
    carries_at(new, 1);
    carries_at(new, 2);
    carries_at(new, 3);
    carries_at(new, 4);
    carries_at(new, 5);
    carries_at(new, 6);
    carries_at(changed, 0);
    carries_at(changed, 1);
    carries_at(changed, 2);
    carries_at(changed, 3);
    carries_at(changed, 4);
    carries_at(changed, 5);
    carries_at(changed, 6);
    carries_at(changed, 7);
}

/// Where the hours of a day go: to a new entry where no entry of the day belongs to the project,
/// to the one entry that does where it has a number, and nowhere else. In both cases the request
/// carries the entry that was asked for.
#[verifier::rlimit(40)]
pub proof fn hours_go_to_the_entry_of_their_project(
    entries: Seq<JsonView>,
    date: Date,
    m: ManHour,
    r: Result<ManHourPlan, Failure>,
    i: int,
    j: int,
)
    requires
        man_hour_planned(entries, date, m, r),
    ensures
        r matches Ok(plan) ==> books(
            plan.request@.payload,
            Ymd { year: m.year as int, month: m.month as int, day: m.day as int },
            m.workhour@,
            m.project_id,
            m.remark@,
            m.out_work@,
        ),
        (forall|k: int|
            0 <= k < entries.len() ==> !belongs_to(#[trigger] entries[k], m.project_id)) ==> (
        r matches Ok(plan) && plan.entry_id is None && plan.request@.url
            == "https://weeksystem.linker.cc/api/Index/addManHour"@),
        0 <= i < entries.len() && belongs_to(entries[i], m.project_id) && (forall|k: int|
            0 <= k < entries.len() && k != i ==> !belongs_to(#[trigger] entries[k], m.project_id))
            ==> match field_integer(entries[i], "id"@) {
            Some(id) => {
                &&& r matches Ok(plan)
                &&& plan.entry_id matches Some(n)
                &&& n == id
                &&& plan.request@.url == "https://weeksystem.linker.cc/api/Index/editMyhour"@
                &&& carries(plan.request@.payload, "id"@, number_json(id))
            },
            None => r matches Err(e) && e is EntryId,
        },
        0 <= i < j < entries.len() && belongs_to(entries[i], m.project_id) && belongs_to(
            entries[j],
            m.project_id,
        ) ==> r == Err::<ManHourPlan, _>(Failure::SeveralEntries(m.project_id, date)),
{
    let ours = |e: JsonView| field_integer(e, "project_id"@) == Some(m.project_id as int);
    if let Ok(plan) = r {
        match plan.entry_id {
            Some(id) => {
                fields_book_their_entry(m, id as int);
            },
            None => {
                fields_book_their_entry(m, 0);
            },
        }
    }
    assert forall|k: int| 0 <= k < entries.len() implies ours(#[trigger] entries[k]) == belongs_to(
        entries[k],
        m.project_id,
    ) by {}
    if forall|k: int| 0 <= k < entries.len() ==> !belongs_to(#[trigger] entries[k], m.project_id) {
        filter_of_none(entries, ours);
    }
    if 0 <= i < entries.len() && belongs_to(entries[i], m.project_id) && (forall|k: int|
        0 <= k < entries.len() && k != i ==> !belongs_to(#[trigger] entries[k], m.project_id)) {
        filter_of_one(entries, ours, i);
    }
    if 0 <= i < j < entries.len() && belongs_to(entries[i], m.project_id) && belongs_to(
        entries[j],
        m.project_id,
    ) {
        filter_of_two(entries, ours, i, j);
    }
}

// ---------------------------------------------------------------------------
// Reports
// ---------------------------------------------------------------------------
/// The number of a report: null where there is no report or it has none.
pub open spec fn daily_number(daily: Option<JsonView>) -> JsonView {
    match daily {
        Some(d) => match d.field("id"@) {
            Some(id) => id,
            None => JsonView::Null,
        },
        None => JsonView::Null,
    }
}

/// The status of a report: 0 where there is no report or it has none.
pub open spec fn daily_status(daily: Option<JsonView>) -> int {
    match daily {
        Some(d) => match field_integer(d, "status"@) {
            Some(n) => n,
            None => 0,
        },
        None => 0,
    }
}

/// The fields that are sent for a report, without its number.
pub open spec fn daily_fields(
    daily: Option<JsonView>,
    log: ParsedLog,
    token: Seq<char>,
) -> Seq<(Seq<char>, JsonView)> {
    seq![
        ("status"@, JsonView::of_integer(daily_status(daily))),
        ("undone"@, JsonView::Text(log.undone@)),
        ("tomorrow"@, JsonView::Text(log.tomorrow@)),
        ("concert"@, JsonView::Text(log.concert@)),
        ("remark"@, JsonView::Text(log.daily_remark@)),
        ("time"@, JsonView::Text(token)),
    ]
}

/// The request that brings a log to the server as the report of a day: one that changes the
/// report that the server has, if that has a number, and else one that creates a report.
pub open spec fn daily_request(
    daily: Option<JsonView>,
    log: ParsedLog,
    token: Seq<char>,
) -> RequestView {
    let id = daily_number(daily);
    if id is Null {
        RequestView {
            url: ADD_DAILY_URL@,
            payload: JsonView::Object(daily_fields(daily, log, token)),
        }
    } else {
        RequestView {
            url: UPDATE_DAILY_URL@,
            payload: JsonView::Object(seq![("id"@, id)] + daily_fields(daily, log, token)),
        }
    }
}

/// How a report is submitted: the number of the report that is changed, null for a new one, and
/// the request.
pub struct DailyPlan {
    pub daily_id: Json,
    pub request: Request,
}

/// What the server has of a report.
pub open spec fn owned(daily: Option<Json>) -> Option<JsonView> {
    match daily {
        Some(d) => Some(d@),
        None => None,
    }
}

/// Plans how a log is submitted as the report of its day.
pub fn plan_daily(daily: &Option<Json>, log: &ParsedLog, today: Date) -> (r: Result<
    DailyPlan,
    Failure,
>)
    ensures
        match token_of(log.target_date@, today@) {
            Some(token) => {
                &&& r matches Ok(plan)
                &&& plan.daily_id@ == daily_number(owned(*daily))
                &&& plan.request@ == daily_request(owned(*daily), *log, token)
            },
            None => r matches Err(e) && e is TimeToken,
        },
{
    let mut id = Json::Null;
    let mut status: i64 = 0;
    if let Some(d) = daily {
        if let Some(found) = d.get("id") {
            id = found.copy();
        }
        if let Some(n) = get_integer(d, "status") {
            status = n;
        }
    }
    let token = match time_token(log.target_date, today) {
        Ok(t) => t,
        Err(e) => {
            return Err(e);
        },
    };
    let known = !id.is_null();
    let mut fields: Vec<(String, Json)> = Vec::new();
    if known {
        put(&mut fields, "id", id.copy());
    }
    put(&mut fields, "status", Json::integer(status));
    put(&mut fields, "undone", Json::string(log.undone.as_str()));
    put(&mut fields, "tomorrow", Json::string(log.tomorrow.as_str()));
    put(&mut fields, "concert", Json::string(log.concert.as_str()));
    put(&mut fields, "remark", Json::string(log.daily_remark.as_str()));
    put(&mut fields, "time", Json::string(token));
    proof {
        let rest = daily_fields(owned(*daily), *log, token@);
        if known {
            assert(fields_view(fields@) =~= seq![("id"@, id@)] + rest);
        } else {
            assert(fields_view(fields@) =~= rest);
        }
    }
    let url = if known {
        UPDATE_DAILY_URL
    } else {
        ADD_DAILY_URL
    };
    Ok(DailyPlan { daily_id: id, request: Request { url, payload: Json::object(fields) } })
}

/// Whether a payload is the report of a log for a day that the server knows by a name.
pub open spec fn reports(payload: JsonView, log: ParsedLog, token: Seq<char>) -> bool {
    &&& carries(payload, "undone"@, JsonView::Text(log.undone@))
    &&& carries(payload, "tomorrow"@, JsonView::Text(log.tomorrow@))
    &&& carries(payload, "concert"@, JsonView::Text(log.concert@))
    &&& carries(payload, "remark"@, JsonView::Text(log.daily_remark@))
    &&& carries(payload, "time"@, JsonView::Text(token))
}

/// A report carries the sections of its log and the name of its day. It changes the report that
/// the server has where that has a number, which it then carries, and is a new one elsewhere. It
/// keeps the status that the server has.
#[verifier::rlimit(40)]
pub proof fn report_carries_its_log(daily: Option<JsonView>, log: ParsedLog, token: Seq<char>)
    ensures
        ({
            let request = daily_request(daily, log, token);
            &&& reports(request.payload, log, token)
            &&& match daily {
                Some(d) => match d.field("id"@) {
                    Some(id) => if id is Null {
                        request.url == "https://weeksystem.linker.cc/api/Index/addDaily"@
                    } else {
                        &&& request.url == "https://weeksystem.linker.cc/api/Index/updateDaily"@
                        &&& carries(request.payload, "id"@, id)
                    },
                    None => request.url == "https://weeksystem.linker.cc/api/Index/addDaily"@,
                },
                None => request.url == "https://weeksystem.linker.cc/api/Index/addDaily"@,
            }
            &&& match daily {
                Some(d) => match d.field("status"@) {
                    Some(v) => v.integer() is Some ==> carries(
                        request.payload,
                        "status"@,
                        number_json(v.integer()->0),
                    ),
                    None => carries(request.payload, "status"@, JsonView::Unsigned(0)),
                },
                None => carries(request.payload, "status"@, JsonView::Unsigned(0)),
            }
        }),
{
    reveal_strlit("id");
    reveal_strlit("status");
    reveal_strlit("undone");
    reveal_strlit("tomorrow");
    reveal_strlit("concert");
    reveal_strlit("remark");
    reveal_strlit("time");
    assert("id"@.len() == 2 && "status"@.len() == 6 && "undone"@.len() == 6);
    assert("tomorrow"@.len() == 8 && "concert"@.len() == 7 && "remark"@.len() == 6);
    assert("time"@.len() == 4);
    assert("status"@[0] == 's' && "undone"@[0] == 'u' && "remark"@[0] == 'r');
    let new = daily_fields(daily, log, token);
    assert(new.len() == 6);
    carries_at(new, 0);
    carries_at(new, 1);
    carries_at(new, 2);
    carries_at(new, 3);
    carries_at(new, 4);
    carries_at(new, 5);
    let id = daily_number(daily);
    let changed = seq![("id"@, id)] + new;
    assert(changed.len() == 7);
    assert(changed[0] == ("id"@, id));
    assert(forall|k: int| 1 <= k < 7 ==> #[trigger] changed[k] == new[k - 1]);
    carries_at(changed, 0);
    carries_at(changed, 1);
    carries_at(changed, 2);
    carries_at(changed, 3);
    carries_at(changed, 4);
    carries_at(changed, 5);
    carries_at(changed, 6);
}

// ---------------------------------------------------------------------------
// What was done
// ---------------------------------------------------------------------------
/// The word for a request that changed something, or created it.
pub open spec fn mode_of(updated: bool) -> Seq<char> {
    if updated {
        "updated"@
    } else {
        "created"@
    }
}

/// What is said of an entry of hours or a report that was submitted.
pub open spec fn outcome_of(key: Seq<char>, id: JsonView, reply: JsonView) -> JsonView {
    JsonView::Object(
        seq![
            ("mode"@, JsonView::Text(mode_of(!(id is Null)))),
            (key, id),
            ("response"@, reply),
        ],
    )
}

fn outcome(key: &str, id: Json, reply: Json) -> (r: Json)
    ensures
        r@ == outcome_of(key@, id@, reply@),
{
    let mode = if id.is_null() {
        "created"
    } else {
        "updated"
    };
    let ghost id_view = id@;
    let ghost reply_view = reply@;
    let mut fields: Vec<(String, Json)> = Vec::new();
    put(&mut fields, "mode", Json::string(mode));
    put(&mut fields, key, id);
    put(&mut fields, "response", reply);
    assert(fields_view(fields@) =~= outcome_of(key@, id_view, reply_view)->Object_0);
    Json::object(fields)
}

/// The number of the entry that a plan changes; null for a new one.
pub open spec fn entry_number(entry_id: Option<i64>) -> JsonView {
    match entry_id {
        Some(id) => JsonView::of_integer(id as int),
        None => JsonView::Null,
    }
}

/// Says what was done with an entry of hours.
pub fn man_hour_outcome(entry_id: Option<i64>, reply: Json) -> (r: Json)
    ensures
        r@ == outcome_of("entry_id"@, entry_number(entry_id), reply@),
{
    let id = match entry_id {
        Some(n) => Json::integer(n),
        None => Json::Null,
    };
    outcome("entry_id", id, reply)
}

/// Says what was done with a report.
pub fn daily_outcome(daily_id: Json, reply: Json) -> (r: Json)
    ensures
        r@ == outcome_of("daily_id"@, daily_id@, reply@),
{
    outcome("daily_id", daily_id, reply)
}

/// What is said of a log that was submitted.
pub open spec fn submission_of(
    log: ParsedLog,
    project_id: int,
    man_hour: JsonView,
    daily: JsonView,
) -> JsonView {
    JsonView::Object(
        seq![
            ("ok"@, JsonView::Bool(true)),
            ("date"@, JsonView::Text(day_text(log.target_date@))),
            ("log_path"@, JsonView::Text(log.log_path@)),
            ("project_id"@, JsonView::of_integer(project_id)),
            ("workhour"@, JsonView::Decimal(log.workhour@)),
            ("man_hour"@, man_hour),
            ("daily"@, daily),
        ],
    )
}

/// Says what was done with a log.
pub fn submission(log: &ParsedLog, project_id: i64, man_hour: Json, daily: Json) -> (r: Json)
    ensures
        r@ == submission_of(*log, project_id as int, man_hour@, daily@),
{
    let ghost all = submission_of(*log, project_id as int, man_hour@, daily@);
    let mut fields: Vec<(String, Json)> = Vec::new();
    put(&mut fields, "ok", Json::Bool(true));
    put(&mut fields, "date", Json::Text(log.target_date.text()));
    put(&mut fields, "log_path", Json::string(log.log_path.as_str()));
    put(&mut fields, "project_id", Json::integer(project_id));
    put(&mut fields, "workhour", Json::Decimal(log.workhour.clone()));
    put(&mut fields, "man_hour", man_hour);
    put(&mut fields, "daily", daily);
    assert(fields_view(fields@) =~= all->Object_0);
    Json::object(fields)
}

/// What is said of an entry or a report holds the reply of the server and the number, and tells a
/// change from something new by the number.
pub proof fn outcome_holds_the_reply(key: Seq<char>, id: JsonView, reply: JsonView)
    requires
        key == "entry_id"@ || key == "daily_id"@,
    ensures
        carries(outcome_of(key, id, reply), "response"@, reply),
        carries(outcome_of(key, id, reply), key, id),
        id is Null ==> carries(outcome_of(key, id, reply), "mode"@, JsonView::Text("created"@)),
        !(id is Null) ==> carries(
            outcome_of(key, id, reply),
            "mode"@,
            JsonView::Text("updated"@),
        ),
{
    reveal_strlit("mode");
    reveal_strlit("response");
    reveal_strlit("entry_id");
    reveal_strlit("daily_id");
    assert("mode"@.len() == 4 && "response"@.len() == 8);
    assert("response"@[0] == 'r' && "entry_id"@[0] == 'e' && "daily_id"@[0] == 'd');
    assert("entry_id"@.len() == 8 && "daily_id"@.len() == 8);
    let fields = outcome_of(key, id, reply)->Object_0;
    assert(fields.len() == 3);
    carries_at(fields, 0);
    carries_at(fields, 1);
    carries_at(fields, 2);
}

/// What is said of a log that was submitted holds its day, its file, its project, its hours and
/// what came of both requests.
pub proof fn submission_holds_both_outcomes(
    log: ParsedLog,
    project_id: i64,
    man_hour: JsonView,
    daily: JsonView,
)
    ensures
        ({
            let all = submission_of(log, project_id as int, man_hour, daily);
            &&& carries(all, "ok"@, JsonView::Bool(true))
            &&& carries(all, "date"@, JsonView::Text(day_text(log.target_date@)))
            &&& carries(all, "log_path"@, JsonView::Text(log.log_path@))
            &&& carries(all, "project_id"@, number_json(project_id as int))
            &&& carries(all, "workhour"@, JsonView::Decimal(log.workhour@))
            &&& carries(all, "man_hour"@, man_hour)
            &&& carries(all, "daily"@, daily)
        }),
{
    reveal_strlit("ok");
    reveal_strlit("date");
    reveal_strlit("log_path");
    reveal_strlit("project_id");
    reveal_strlit("workhour");
    reveal_strlit("man_hour");
    reveal_strlit("daily");
    assert("workhour"@[0] == 'w' && "man_hour"@[0] == 'm' && "log_path"@[0] == 'l');
    assert("ok"@.len() == 2 && "date"@.len() == 4 && "daily"@.len() == 5);
    assert("project_id"@.len() == 10 && "log_path"@.len() == 8 && "man_hour"@.len() == 8);
    assert("workhour"@.len() == 8);
    let fields = submission_of(log, project_id as int, man_hour, daily)->Object_0;
    assert(fields.len() == 7);
    carries_at(fields, 0);
    carries_at(fields, 1);
    carries_at(fields, 2);
    carries_at(fields, 3);
    carries_at(fields, 4);
    carries_at(fields, 5);
    carries_at(fields, 6);
}

/// The mode that a field of what was done reports.
pub open spec fn mode_in(result: JsonView, key: Seq<char>) -> Seq<char> {
    match result.field(key) {
        Some(part) => match field_text(part, "mode"@) {
            Some(t) => t,
            None => "-"@,
        },
        None => "-"@,
    }
}

/// The day that what was done reports.
pub open spec fn date_in(result: JsonView) -> Seq<char> {
    match field_text(result, "date"@) {
        Some(t) => t,
        None => "-"@,
    }
}

/// The project that what was done reports.
pub open spec fn project_in(result: JsonView) -> int {
    match field_integer(result, "project_id"@) {
        Some(n) => n,
        None => 0,
    }
}

/// The summary of what was done.
pub open spec fn result_summary(result: JsonView, workhour: Seq<char>) -> Seq<char> {
    "日期: "@ + date_in(result) + "\n项目: "@ + signed_decimal(project_in(result)) + "\n工时: "@
        + workhour + "\n工时结果: "@ + mode_in(result, "man_hour"@) + "\n日报结果: "@ + mode_in(
        result,
        "daily"@,
    )
}

/// What the summary of a result shows: the day, the project and the two modes that the result
/// holds. Where it holds none, a hyphen stands for a text and 0 for the project.
pub proof fn summary_shows_what_the_result_holds(
    result: JsonView,
    workhour: Seq<char>,
    date: Seq<char>,
    project_id: int,
    man_hour: Seq<char>,
    daily: Seq<char>,
)
    requires
        match result.field("date"@) {
            Some(JsonView::Text(t)) => date == t,
            _ => date == seq!['-'],
        },
        match result.field("project_id"@) {
            Some(v) => match v.integer() {
                Some(n) => project_id == n,
                None => project_id == 0,
            },
            None => project_id == 0,
        },
        shows_mode(result, "man_hour"@, man_hour),
        shows_mode(result, "daily"@, daily),
    ensures
        result_summary(result, workhour) == "日期: "@ + date + "\n项目: "@ + signed_decimal(
            project_id,
        ) + "\n工时: "@ + workhour + "\n工时结果: "@ + man_hour + "\n日报结果: "@ + daily,
{
    reveal_strlit("-");
    assert("-"@ =~= seq!['-']);
}

/// Whether `mode` is what a part of a result says of its mode, or a hyphen where it says nothing.
pub open spec fn shows_mode(result: JsonView, key: Seq<char>, mode: Seq<char>) -> bool {
    match result.field(key) {
        Some(part) => match part.field("mode"@) {
            Some(JsonView::Text(t)) => mode == t,
            _ => mode == seq!['-'],
        },
        None => mode == seq!['-'],
    }
}

fn get_mode<'a>(result: &'a Json, key: &str) -> (r: &'a str)
    ensures
        r@ == mode_in(result@, key@),
{
    match result.get(key) {
        Some(part) => match get_text(part, "mode") {
            Some(t) => t,
            None => "-",
        },
        None => "-",
    }
}

/// Sums up what was done. The hours are given as they are to be shown.
pub fn summarize_result(result: &Json, workhour: &str) -> (r: String)
    ensures
        r@ == result_summary(result@, workhour@),
{
    let date = match get_text(result, "date") {
        Some(t) => t,
        None => "-",
    };
    let project_id: i64 = match get_integer(result, "project_id") {
        Some(n) => n,
        None => 0,
    };
    let mut out = "日期: ".to_string();
    out.append(date);
    out.append("\n项目: ");
    append_signed(&mut out, project_id);
    out.append("\n工时: ");
    out.append(workhour);
    out.append("\n工时结果: ");
    out.append(get_mode(result, "man_hour"));
    out.append("\n日报结果: ");
    out.append(get_mode(result, "daily"));
    out
}

/// The summary of a log that was submitted shows its day, its project and whether its hours and
/// its report were created or changed.
pub proof fn summary_shows_submission(
    log: ParsedLog,
    project_id: i64,
    entry_id: JsonView,
    daily_id: JsonView,
    hours_reply: JsonView,
    daily_reply: JsonView,
    workhour: Seq<char>,
)
    ensures
        result_summary(
            submission_of(
                log,
                project_id as int,
                outcome_of("entry_id"@, entry_id, hours_reply),
                outcome_of("daily_id"@, daily_id, daily_reply),
            ),
            workhour,
        ) == "日期: "@ + day_text(log.target_date@) + "\n项目: "@ + signed_decimal(
            project_id as int,
        ) + "\n工时: "@ + workhour + "\n工时结果: "@ + mode_of(!(entry_id is Null))
            + "\n日报结果: "@ + mode_of(!(daily_id is Null)),
{
    let man_hour = outcome_of("entry_id"@, entry_id, hours_reply);
    let daily = outcome_of("daily_id"@, daily_id, daily_reply);
    let all = submission_of(log, project_id as int, man_hour, daily);
    reveal_strlit("ok");
    reveal_strlit("date");
    reveal_strlit("log_path");
    reveal_strlit("project_id");
    reveal_strlit("workhour");
    reveal_strlit("man_hour");
    reveal_strlit("daily");
    let fields = all->Object_0;
    assert("workhour"@[0] == 'w' && "man_hour"@[0] == 'm' && "log_path"@[0] == 'l');
    assert(fields[0].0 == "ok"@ && fields[1].0 == "date"@ && fields[2].0 == "log_path"@);
    assert(fields[3].0 == "project_id"@ && fields[4].0 == "workhour"@);
    assert(fields[5].0 == "man_hour"@ && fields[6].0 == "daily"@);
    assert("ok"@.len() == 2 && "date"@.len() == 4 && "daily"@.len() == 5);
    assert("project_id"@.len() == 10 && "log_path"@.len() == 8 && "man_hour"@.len() == 8);
    field_in_is(fields, "date"@, 1);
    field_in_is(fields, "project_id"@, 3);
    field_in_is(fields, "man_hour"@, 5);
    field_in_is(fields, "daily"@, 6);
    field_in_is(man_hour->Object_0, "mode"@, 0);
    field_in_is(daily->Object_0, "mode"@, 0);
}

// ---------------------------------------------------------------------------
// Other requests
// ---------------------------------------------------------------------------
/// The request for the reports of a month.
pub fn month_payload(year: i32, month: u32) -> (r: Json)
    ensures
        r@ == JsonView::Object(
            seq![
                ("year"@, JsonView::of_integer(year as int)),
                ("month"@, JsonView::of_integer(month as int)),
            ],
        ),
{
    let mut fields: Vec<(String, Json)> = Vec::new();
    put(&mut fields, "year", Json::integer(year as i64));
    put(&mut fields, "month", Json::integer(month as i64));
    assert(fields_view(fields@) =~= seq![
        ("year"@, JsonView::of_integer(year as int)),
        ("month"@, JsonView::of_integer(month as int)),
    ]);
    Json::object(fields)
}

/// Reads the number of a project.
pub fn parse_project_id(value: &str) -> (r: Result<i64, Failure>)
    ensures
        match r {
            Ok(n) => signed_of(value@) == Some(n as int),
            Err(e) => signed_of(value@) is None && e is ProjectId,
        },
{
    let chars = chars_of(value);
    match read_signed(chars.as_slice()) {
        Some(n) => Ok(n),
        None => Err(Failure::ProjectId),
    }
}

} // verus!
