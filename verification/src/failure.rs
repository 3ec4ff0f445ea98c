//! What can go wrong, and the message that says so.
use vstd::prelude::*;

use crate::date::{day_text, Date};
use crate::text::{append_signed, same_text, signed_decimal};

verus! {

/// Why a request was refused or a text was not accepted.
#[derive(Debug)]
pub enum Failure {
    /// A date that is not in the form of year, month and day.
    DateFormat,
    /// A time of day that is not in the form of hour and minute.
    ScheduleFormat,
    /// A year outside the supported range.
    YearRange,
    /// A month outside the calendar.
    MonthRange,
    /// A day outside all months.
    DayRange,
    /// No run can be scheduled today or tomorrow.
    NoNextRun,
    /// A date that is neither today nor yesterday.
    TimeToken,
    /// A project number that is no integer.
    ProjectId,
    /// A reported day that is no day number.
    ReportedDay(String),
    /// A number in a list of days that is not a natural number.
    NumericDay(String),
    /// A text in a list of days that is no day number.
    DayValue(String),
    /// A holiday that is no date.
    HolidayDate(String),
    /// No work record.
    NoWorkRecord,
    /// No declaration of hours in the work record.
    NoWorkhour,
    /// Declared hours that are not positive.
    WorkhourNotPositive,
    /// Declared hours that are no multiple of half an hour.
    WorkhourIncrement,
    /// A plan for tomorrow that is too short.
    TomorrowTooShort,
    /// A login form without a target.
    FormAction,
    /// A login page whose address is no URL.
    LoginUrl,
    /// A login form whose target cannot be resolved.
    FormTarget,
    /// A login form without its execution field.
    FormExecution,
    /// A login form without its public key.
    FormPublicKey,
    /// A public key that is not base64.
    KeyEncoding,
    /// A public key that is none.
    KeyFormat,
    /// A password that could not be encrypted.
    Encryption,
    /// A login that left no active session.
    NotActivated,
    /// The server asks for a login.
    AuthRequired,
    /// The server refused a request, with its message.
    Refused(String),
    /// More than one entry for one project on one day.
    SeveralEntries(i64, Date),
    /// An entry without its number.
    EntryId,
    /// A mail port that is no port number.
    SmtpPort,
    /// A sender that is no mail address.
    MailFrom,
    /// A recipient that is no mail address.
    MailTo,
    /// The answer of a messenger that reports failure.
    Telegram(String),
    /// The notifications that failed.
    Notifications(String),
    /// Something that failed outside the library, with its message.
    Outside(String),
}

impl Failure {
    /// The message of the error.
    pub open spec fn text(self) -> Seq<char> {
        match self {
            Failure::DateFormat => "date must use YYYY-MM-DD format"@,
            Failure::ScheduleFormat => "schedule time must use HH:MM format"@,
            Failure::YearRange => "year must be in 2000..=2100"@,
            Failure::MonthRange => "month must be in 1..=12"@,
            Failure::DayRange => "day must be in 1..=31"@,
            Failure::NoNextRun => "failed to compute next scheduled run"@,
            Failure::TimeToken =>
                "weeksystem only supports querying/submitting today or yesterday via this CLI"@,
            Failure::ProjectId => "LINKER_PROJECT_ID must be an integer"@,
            Failure::ReportedDay(t) => "invalid reported day value: "@ + t@,
            Failure::NumericDay(t) => "invalid numeric day value: "@ + t@,
            Failure::DayValue(t) => "invalid day value: "@ + t@,
            Failure::HolidayDate(t) => "invalid holiday date: "@ + t@,
            Failure::NoWorkRecord => "missing content under '## 工作记录'"@,
            Failure::NoWorkhour =>
                "missing workhour declaration in '## 工作记录'; expected a line like '工时: 8'"@,
            Failure::WorkhourNotPositive => "workhour must be greater than 0"@,
            Failure::WorkhourIncrement => "workhour must use 0.5 hour increments"@,
            Failure::TomorrowTooShort =>
                "'## 明日计划' must contain at least 4 non-whitespace characters"@,
            Failure::FormAction => "login form action missing"@,
            Failure::LoginUrl => "invalid final login URL"@,
            Failure::FormTarget => "failed to resolve form action"@,
            Failure::FormExecution => "execution field missing"@,
            Failure::FormPublicKey => "pubkey field missing"@,
            Failure::KeyEncoding => "failed to decode login public key"@,
            Failure::KeyFormat => "failed to parse RSA public key"@,
            Failure::Encryption => "failed to encrypt password"@,
            Failure::NotActivated =>
                "CAS login completed but weeksystem session was not activated"@,
            Failure::AuthRequired => "AUTH_REQUIRED"@,
            Failure::Refused(t) => t@,
            Failure::SeveralEntries(project, date) =>
                "multiple existing man-hour entries found for project_id="@ + signed_decimal(
                    project as int,
                ) + " on "@ + day_text(date@),
            Failure::EntryId => "existing man-hour entry missing id"@,
            Failure::SmtpPort => "SMTP_PORT must be a valid integer"@,
            Failure::MailFrom => "invalid SMTP_FROM address"@,
            Failure::MailTo => "invalid SMTP_TO address"@,
            Failure::Telegram(t) => "telegram API returned failure: "@ + t@,
            Failure::Notifications(t) => t@,
            Failure::Outside(t) => t@,
        }
    }

    /// Whether the message asks for a login.
    pub open spec fn asks_login(self) -> bool {
        self.text() == "AUTH_REQUIRED"@
    }

    /// Gives the message of the error.
    pub fn message(&self) -> (r: String)
        ensures
            r@ == self.text(),
    {
        match self {
            Failure::DateFormat => "date must use YYYY-MM-DD format".to_string(),
            Failure::ScheduleFormat => "schedule time must use HH:MM format".to_string(),
            Failure::YearRange => "year must be in 2000..=2100".to_string(),
            Failure::MonthRange => "month must be in 1..=12".to_string(),
            Failure::DayRange => "day must be in 1..=31".to_string(),
            Failure::NoNextRun => "failed to compute next scheduled run".to_string(),
            Failure::TimeToken =>
                "weeksystem only supports querying/submitting today or yesterday via this CLI".to_string(),
            Failure::ProjectId => "LINKER_PROJECT_ID must be an integer".to_string(),
            Failure::ReportedDay(t) => about("invalid reported day value: ", t),
            Failure::NumericDay(t) => about("invalid numeric day value: ", t),
            Failure::DayValue(t) => about("invalid day value: ", t),
            Failure::HolidayDate(t) => about("invalid holiday date: ", t),
            Failure::NoWorkRecord => "missing content under '## 工作记录'".to_string(),
            Failure::NoWorkhour =>
                "missing workhour declaration in '## 工作记录'; expected a line like '工时: 8'".to_string(),
            Failure::WorkhourNotPositive => "workhour must be greater than 0".to_string(),
            Failure::WorkhourIncrement => "workhour must use 0.5 hour increments".to_string(),
            Failure::TomorrowTooShort =>
                "'## 明日计划' must contain at least 4 non-whitespace characters".to_string(),
            Failure::FormAction => "login form action missing".to_string(),
            Failure::LoginUrl => "invalid final login URL".to_string(),
            Failure::FormTarget => "failed to resolve form action".to_string(),
            Failure::FormExecution => "execution field missing".to_string(),
            Failure::FormPublicKey => "pubkey field missing".to_string(),
            Failure::KeyEncoding => "failed to decode login public key".to_string(),
            Failure::KeyFormat => "failed to parse RSA public key".to_string(),
            Failure::Encryption => "failed to encrypt password".to_string(),
            Failure::NotActivated =>
                "CAS login completed but weeksystem session was not activated".to_string(),
            Failure::AuthRequired => "AUTH_REQUIRED".to_string(),
            Failure::Refused(t) => t.clone(),
            Failure::SeveralEntries(project, date) => {
                let mut out =
                    "multiple existing man-hour entries found for project_id=".to_string();
                append_signed(&mut out, *project);
                out.append(" on ");
                let day = date.text();
                out.append(day.as_str());
                out
            },
            Failure::EntryId => "existing man-hour entry missing id".to_string(),
            Failure::SmtpPort => "SMTP_PORT must be a valid integer".to_string(),
            Failure::MailFrom => "invalid SMTP_FROM address".to_string(),
            Failure::MailTo => "invalid SMTP_TO address".to_string(),
            Failure::Telegram(t) => about("telegram API returned failure: ", t),
            Failure::Notifications(t) => t.clone(),
            Failure::Outside(t) => t.clone(),
        }
    }

    /// Tells whether the message asks for a login.
    pub fn is_login_request(&self) -> (r: bool)
        ensures
            r == self.asks_login(),
    {
        let m = self.message();
        same_text(m.as_str(), "AUTH_REQUIRED")
    }
}

/// What the server or something outside says is the message as it came.
pub proof fn messages_from_outside_are_kept(t: String)
    ensures
        Failure::Refused(t).text() == t@,
        Failure::Outside(t).text() == t@,
        Failure::Notifications(t).text() == t@,
{
}

/// A message that is about a text ends with the text.
pub proof fn messages_name_what_they_are_about(t: String)
    ensures
        Failure::ReportedDay(t).text() == "invalid reported day value: "@ + t@,
        Failure::NumericDay(t).text() == "invalid numeric day value: "@ + t@,
        Failure::DayValue(t).text() == "invalid day value: "@ + t@,
        Failure::HolidayDate(t).text() == "invalid holiday date: "@ + t@,
        Failure::Telegram(t).text() == "telegram API returned failure: "@ + t@,
{
}

/// A login is asked for by the answer that says so, and by messages from outside with these words
/// alone.
pub proof fn logins_are_asked_for_in_so_many_words(t: String)
    ensures
        Failure::AuthRequired.asks_login(),
        Failure::Refused(t).asks_login() <==> t@ == "AUTH_REQUIRED"@,
        Failure::Outside(t).asks_login() <==> t@ == "AUTH_REQUIRED"@,
        !Failure::NotActivated.asks_login(),
        !Failure::TimeToken.asks_login(),
{
    reveal_strlit("AUTH_REQUIRED");
    reveal_strlit("CAS login completed but weeksystem session was not activated");
    reveal_strlit("weeksystem only supports querying/submitting today or yesterday via this CLI");
    assert("AUTH_REQUIRED"@.len() == 13);
    assert("CAS login completed but weeksystem session was not activated"@[0] == 'C');
    assert("weeksystem only supports querying/submitting today or yesterday via this CLI"@[0]
        == 'w');
    assert("AUTH_REQUIRED"@[0] == 'A');
}

fn about(what: &str, which: &String) -> (r: String)
    ensures
        r@ == what@ + which@,
{
    let mut out = what.to_string();
    out.append(which.as_str());
    out
}

} // verus!
