//! Notifications: whom they go to, what they say and what came of them.
use vstd::prelude::*;

use crate::api::{result_summary, summarize_result};
use crate::date::{day_text, Date, Ymd};
use crate::failure::Failure;
use crate::json::{fields_view, put, Json, JsonView};
use crate::login::opt_text;
use crate::missing::{missing_summary, summarize_missing_daily, MissingDailyResult};
use crate::text::{chars_of, joined, read_unsigned, same_text, text_of, unsigned_of};

verus! {

// ---------------------------------------------------------------------------
// Settings
// ---------------------------------------------------------------------------
/// The settings of notifications, as the environment gives them.
pub struct Settings {
    pub telegram_bot_token: Option<String>,
    pub telegram_chat_id: Option<String>,
    pub smtp_host: Option<String>,
    pub smtp_port: Option<String>,
    pub smtp_username: Option<String>,
    pub smtp_password: Option<String>,
    pub smtp_from: Option<String>,
    pub smtp_to: Option<String>,
    pub smtp_starttls: Option<String>,
}

/// Whom notifications go to.
pub struct NotificationConfig {
    pub telegram: Option<TelegramConfig>,
    pub email: Option<EmailConfig>,
}

/// A chat of the messenger.
pub struct TelegramConfig {
    pub bot_token: String,
    pub chat_id: String,
}

/// A mail account, and whom its mail goes to.
pub struct EmailConfig {
    pub smtp_host: String,
    pub smtp_port: u16,
    pub smtp_username: String,
    pub smtp_password: String,
    pub from: String,
    pub to: String,
    pub starttls: bool,
}

/// Whether a setting is a word that switches something on.
pub open spec fn is_on(value: Seq<char>) -> bool {
    ||| value == "1"@
    ||| value == "true"@
    ||| value == "TRUE"@
    ||| value == "yes"@
    ||| value == "on"@
}

/// Whether settings name everything that a mail needs.
pub open spec fn names_mail(s: Settings) -> bool {
    &&& s.smtp_host is Some
    &&& s.smtp_username is Some
    &&& s.smtp_password is Some
    &&& s.smtp_from is Some
    &&& s.smtp_to is Some
}

/// The mail port that a setting names, if it names one; without a setting it is 587.
pub open spec fn mail_port(setting: Option<Seq<char>>) -> Option<int> {
    match setting {
        Some(value) => unsigned_of(value, u16::MAX as int),
        None => Some(587),
    }
}

/// Whether encryption is switched on; without a setting it is.
pub open spec fn wants_encryption(setting: Option<Seq<char>>) -> bool {
    match setting {
        Some(value) => is_on(value),
        None => true,
    }
}

/// Whether `r` is the chat that settings name; both of its settings must be there.
pub open spec fn is_chat_of(s: Settings, r: Option<TelegramConfig>) -> bool {
    match r {
        Some(c) => {
            &&& opt_text(s.telegram_bot_token) == Some(c.bot_token@)
            &&& opt_text(s.telegram_chat_id) == Some(c.chat_id@)
        },
        None => s.telegram_bot_token is None || s.telegram_chat_id is None,
    }
}

/// Whether `r` is the mail account that settings name. Without all five of its main settings there
/// is none, whatever the others say.
pub open spec fn is_mail_of(s: Settings, r: Result<Option<EmailConfig>, Failure>) -> bool {
    if !names_mail(s) {
        r matches Ok(None)
    } else {
        match mail_port(opt_text(s.smtp_port)) {
            None => r matches Err(e) && e is SmtpPort,
            Some(port) => {
                &&& r matches Ok(Some(c))
                &&& opt_text(s.smtp_host) == Some(c.smtp_host@)
                &&& c.smtp_port == port
                &&& opt_text(s.smtp_username) == Some(c.smtp_username@)
                &&& opt_text(s.smtp_password) == Some(c.smtp_password@)
                &&& opt_text(s.smtp_from) == Some(c.from@)
                &&& opt_text(s.smtp_to) == Some(c.to@)
                &&& c.starttls == wants_encryption(opt_text(s.smtp_starttls))
            },
        }
    }
}

/// Finds the chat that settings name.
pub fn telegram_config_from_env(s: &Settings) -> (r: Option<TelegramConfig>)
    ensures
        is_chat_of(*s, r),
{
    match (&s.telegram_bot_token, &s.telegram_chat_id) {
        (Some(token), Some(chat)) => Some(
            TelegramConfig { bot_token: token.clone(), chat_id: chat.clone() },
        ),
        _ => None,
    }
}

fn switched_on(value: &str) -> (r: bool)
    ensures
        r == is_on(value@),
{
    same_text(value, "1") || same_text(value, "true") || same_text(value, "TRUE") || same_text(
        value,
        "yes",
    ) || same_text(value, "on")
}

fn read_port(setting: &Option<String>) -> (r: Option<u16>)
    ensures
        match r {
            Some(port) => mail_port(opt_text(*setting)) == Some(port as int),
            None => mail_port(opt_text(*setting)) is None,
        },
{
    match setting {
        Some(value) => {
            let chars = chars_of(value.as_str());
            match read_unsigned(chars.as_slice(), 0xffff) {
                Some(n) => Some(n as u16),
                None => None,
            }
        },
        None => Some(587),
    }
}

/// Finds the mail account that settings name.
pub fn email_config_from_env(s: &Settings) -> (r: Result<Option<EmailConfig>, Failure>)
    ensures
        is_mail_of(*s, r),
{
    match (&s.smtp_host, &s.smtp_username, &s.smtp_password, &s.smtp_from, &s.smtp_to) {
        (Some(host), Some(username), Some(password), Some(from), Some(to)) => {
            let smtp_port = match read_port(&s.smtp_port) {
                Some(port) => port,
                None => {
                    return Err(Failure::SmtpPort);
                },
            };
            let starttls = match &s.smtp_starttls {
                Some(value) => switched_on(value.as_str()),
                None => true,
            };
            Ok(
                Some(
                    EmailConfig {
                        smtp_host: host.clone(),
                        smtp_port,
                        smtp_username: username.clone(),
                        smtp_password: password.clone(),
                        from: from.clone(),
                        to: to.clone(),
                        starttls,
                    },
                ),
            )
        },
        _ => Ok(None),
    }
}

/// Finds whom settings say that notifications go to.
pub fn env_notification_config(s: &Settings) -> (r: Result<NotificationConfig, Failure>)
    ensures
        match r {
            Ok(c) => is_chat_of(*s, c.telegram) && is_mail_of(*s, Ok(c.email)),
            Err(e) => is_mail_of(*s, Err(e)),
        },
{
    let telegram = telegram_config_from_env(s);
    match email_config_from_env(s) {
        Ok(email) => Ok(NotificationConfig { telegram, email }),
        Err(e) => Err(e),
    }
}

/// Notifications go to a chat exactly where both of its settings are there, and to that chat.
pub proof fn chat_needs_both_settings(s: Settings, r: Option<TelegramConfig>)
    requires
        is_chat_of(s, r),
    ensures
        r is Some <==> s.telegram_bot_token is Some && s.telegram_chat_id is Some,
        r matches Some(c) ==> s.telegram_bot_token->0@ == c.bot_token@ && s.telegram_chat_id->0@
            == c.chat_id@,
{
}

/// Notifications go by mail exactly where host, user, password, sender and recipient are set.
/// The port is 587 unless another is set, which has to be a port number. Encryption is on unless it
/// is set to anything but one of five words.
pub proof fn mail_needs_five_settings(s: Settings, r: Result<Option<EmailConfig>, Failure>)
    requires
        is_mail_of(s, r),
    ensures
        s.smtp_host is None || s.smtp_username is None || s.smtp_password is None
            || s.smtp_from is None || s.smtp_to is None <==> r matches Ok(None),
        r matches Ok(Some(c)) ==> {
            &&& s.smtp_host->0@ == c.smtp_host@
            &&& s.smtp_username->0@ == c.smtp_username@
            &&& s.smtp_password->0@ == c.smtp_password@
            &&& s.smtp_from->0@ == c.from@
            &&& s.smtp_to->0@ == c.to@
            &&& s.smtp_port is None ==> c.smtp_port == 587
            &&& s.smtp_port matches Some(p) ==> unsigned_of(p@, 65535) == Some(c.smtp_port as int)
            &&& s.smtp_starttls is None ==> c.starttls
            &&& s.smtp_starttls matches Some(t) ==> (c.starttls <==> t@ == "1"@ || t@ == "true"@
                || t@ == "TRUE"@ || t@ == "yes"@ || t@ == "on"@)
        },
        r matches Err(e) ==> e is SmtpPort && (s.smtp_port matches Some(p) && unsigned_of(
            p@,
            65535,
        ) is None),
{
}

// ---------------------------------------------------------------------------
// Markup of the messenger
// ---------------------------------------------------------------------------
/// Whether a character has a meaning in the markup of the messenger.
pub open spec fn is_special(c: char) -> bool {
    "_*[]()~`>#+-=|{}.!"@.contains(c)
}

/// A text in which each character with a meaning in the markup has a backslash before it.
pub open spec fn escaped(s: Seq<char>) -> Seq<char>
    decreases s.len(),
{
    if s.len() == 0 {
        seq![]
    } else if is_special(s.last()) {
        escaped(s.drop_last()).push('\\').push(s.last())
    } else {
        escaped(s.drop_last()).push(s.last())
    }
}

/// A text without the character before each character with a meaning in the markup.
pub open spec fn unescaped(s: Seq<char>) -> Seq<char>
    decreases s.len(),
{
    if s.len() == 0 {
        seq![]
    } else if is_special(s.last()) && s.len() >= 2 {
        unescaped(s.drop_last().drop_last()).push(s.last())
    } else {
        unescaped(s.drop_last()).push(s.last())
    }
}

fn special(c: char) -> (r: bool)
    ensures
        r == is_special(c),
{
    proof {
        reveal_strlit("_*[]()~`>#+-=|{}.!");
    }
    let ghost all = "_*[]()~`>#+-=|{}.!"@;
    let known = chars_of("_*[]()~`>#+-=|{}.!");
    let mut i: usize = 0;
    while i < known.len()
        invariant
            i <= known@.len(),
            known@ == all,
            forall|j: int| 0 <= j < i ==> all[j] != c,
            is_special(c) == all.contains(c),
        decreases known@.len() - i,
    {
        if known[i] == c {
            assert(all[i as int] == c);
            return true;
        }
        i += 1;
    }
    false
}

/// Takes the meaning that characters of a text have in the markup of the messenger from them.
pub fn escape_markdown_v2(text: &str) -> (r: String)
    ensures
        r@ == escaped(text@),
{
    let chars = chars_of(text);
    let mut out: Vec<char> = Vec::new();
    let mut i: usize = 0;
    assert(text@.take(0) =~= seq![]);
    while i < chars.len()
        invariant
            i <= chars@.len(),
            chars@ == text@,
            out@ == escaped(text@.take(i as int)),
        decreases chars@.len() - i,
    {
        let ghost next = text@.take(i + 1);
        assert(next.drop_last() =~= text@.take(i as int));
        assert(next.last() == text@[i as int]);
        let c = chars[i];
        if special(c) {
            out.push('\\');
        }
        out.push(c);
        i += 1;
    }
    assert(text@.take(i as int) =~= text@);
    text_of(out.as_slice())
}

/// Every character with a meaning in the markup has a backslash before it in an escaped text.
pub proof fn escaped_has_no_markup(s: Seq<char>, i: int)
    requires
        0 <= i < escaped(s).len(),
        is_special(escaped(s)[i]),
    ensures
        i > 0,
        escaped(s)[i - 1] == '\\',
    decreases s.len(),
{
    if s.len() > 0 {
        reveal_strlit("_*[]()~`>#+-=|{}.!");
        let rest = escaped(s.drop_last());
        if i < rest.len() {
            assert(escaped(s)[i] == rest[i]);
            escaped_has_no_markup(s.drop_last(), i);
            assert(escaped(s)[i - 1] == rest[i - 1]);
        } else {
            assert(!is_special('\\')) by {
                let all = "_*[]()~`>#+-=|{}.!"@;
                assert(all.len() == 18);
                assert forall|k: int| 0 <= k < all.len() implies all[k] != '\\' by {}
            }
        }
    }
}

/// The eighteen characters that have a meaning in the markup.
pub proof fn special_characters_are_known(c: char)
    ensures
        is_special(c) <==> c == '_' || c == '*' || c == '[' || c == ']' || c == '(' || c == ')' || c
            == '~' || c == '`' || c == '>' || c == '#' || c == '+' || c == '-' || c == '=' || c
            == '|' || c == '{' || c == '}' || c == '.' || c == '!',
{
    reveal_strlit("_*[]()~`>#+-=|{}.!");
    let all = "_*[]()~`>#+-=|{}.!"@;
    assert(all.len() == 18);
    assert(all[0] == '_' && all[1] == '*' && all[2] == '[' && all[3] == ']' && all[4] == '('
        && all[5] == ')' && all[6] == '~' && all[7] == '`' && all[8] == '>' && all[9] == '#'
        && all[10] == '+' && all[11] == '-' && all[12] == '=' && all[13] == '|' && all[14] == '{'
        && all[15] == '}' && all[16] == '.' && all[17] == '!');
}

/// Escaping goes character by character: a backslash comes before a character with a meaning and
/// before no other.
pub proof fn escaping_goes_by_characters(s: Seq<char>, c: char)
    ensures
        escaped(Seq::<char>::empty()).len() == 0,
        escaped(s.push(c)) == escaped(s) + (if is_special(c) {
            seq!['\\', c]
        } else {
            seq![c]
        }),
{
    assert(s.push(c).drop_last() =~= s);
    assert(escaped(s).push('\\').push(c) =~= escaped(s) + seq!['\\', c]);
    assert(escaped(s).push(c) =~= escaped(s) + seq![c]);
}

/// Escaping loses nothing: without the backslashes that it adds, the text is what it was.
pub proof fn escaped_reads_back(s: Seq<char>)
    ensures
        unescaped(escaped(s)) == s,
    decreases s.len(),
{
    if s.len() > 0 {
        escaped_reads_back(s.drop_last());
        let rest = escaped(s.drop_last());
        if is_special(s.last()) {
            assert(escaped(s).drop_last().drop_last() =~= rest);
        } else {
            assert(escaped(s).drop_last() =~= rest);
        }
        assert(s.drop_last().push(s.last()) =~= s);
    }
}

// ---------------------------------------------------------------------------
// Messages
// ---------------------------------------------------------------------------
/// The address that messages to a chat go to.
pub fn telegram_url(config: &TelegramConfig) -> (r: String)
    ensures
        r@ == "https://api.telegram.org/bot"@ + config.bot_token@ + "/sendMessage"@,
{
    let mut url = "https://api.telegram.org/bot".to_string();
    url.append(config.bot_token.as_str());
    url.append("/sendMessage");
    url
}

/// What a chat is sent: the title in bold, an empty line and the body.
pub open spec fn telegram_text(title: Seq<char>, body: Seq<char>) -> Seq<char> {
    "*"@ + escaped(title) + "*\n\n"@ + escaped(body)
}

/// The message to a chat.
pub fn telegram_payload(config: &TelegramConfig, title: &str, body: &str) -> (r: Json)
    ensures
        r@ == JsonView::Object(
            seq![
                ("chat_id"@, JsonView::Text(config.chat_id@)),
                ("text"@, JsonView::Text(telegram_text(title@, body@))),
                ("parse_mode"@, JsonView::Text("MarkdownV2"@)),
            ],
        ),
{
    let mut text = "*".to_string();
    let shown_title = escape_markdown_v2(title);
    text.append(shown_title.as_str());
    text.append("*\n\n");
    let shown_body = escape_markdown_v2(body);
    text.append(shown_body.as_str());
    let mut fields: Vec<(String, Json)> = Vec::new();
    put(&mut fields, "chat_id", Json::string(config.chat_id.as_str()));
    put(&mut fields, "text", Json::Text(text));
    put(&mut fields, "parse_mode", Json::string("MarkdownV2"));
    assert(fields_view(fields@) =~= seq![
        ("chat_id"@, JsonView::Text(config.chat_id@)),
        ("text"@, JsonView::Text(telegram_text(title@, body@))),
        ("parse_mode"@, JsonView::Text("MarkdownV2"@)),
    ]);
    Json::object(fields)
}

/// Tells what the answer of the messenger means; `shown` is the answer as it is to be shown.
pub fn check_telegram_reply(reply: &Json, shown: String) -> (r: Result<(), Failure>)
    ensures
        match r {
            Ok(_) => reply@.field("ok"@) == Some(JsonView::Bool(true)),
            Err(e) => {
                &&& reply@.field("ok"@) != Some(JsonView::Bool(true))
                &&& e == Failure::Telegram(shown)
            },
        },
{
    if let Some(ok) = reply.get("ok") {
        if let Some(b) = ok.as_bool() {
            if b {
                return Ok(());
            }
        }
    }
    Err(Failure::Telegram(shown))
}

/// A message shows its title between two asterisks, then an empty line, then its body; nothing in
/// the title or the body is markup.
pub proof fn message_shows_title_and_body(title: Seq<char>, body: Seq<char>)
    ensures
        telegram_text(title, body) == seq!['*'] + escaped(title) + seq!['*', '\n', '\n'] + escaped(
            body,
        ),
{
    reveal_strlit("*");
    reveal_strlit("*\n\n");
    assert("*"@ =~= seq!['*']);
    assert("*\n\n"@ =~= seq!['*', '\n', '\n']);
}

/// Whether the lettre crate reads a text as a mailbox: an address, with or without a name.
pub uninterp spec fn is_mailbox(text: Seq<char>) -> bool;

/// The error of a text that is no mail address.
#[verifier::external_type_specification]
#[verifier::external_body]
pub struct ExAddressError(lettre::address::AddressError);

/// The `FromStr` of `lettre::message::Mailbox` reads a mailbox.
#[verifier::external_body]
fn check_mailbox(text: &str) -> (r: Result<(), lettre::address::AddressError>)
    ensures
        r is Ok == is_mailbox(text@),
{
    text.parse::<lettre::message::Mailbox>()?;
    Ok(())
}

/// A mail: whom it comes from and goes to, and what it says.
pub struct Letter {
    pub from: String,
    pub to: String,
    pub subject: String,
    pub body: String,
}

/// Writes a mail. Both the sender and the recipient must be mailboxes.
pub fn write_letter(config: &EmailConfig, title: &str, body: &str) -> (r: Result<Letter, Failure>)
    ensures
        match r {
            Ok(letter) => {
                &&& is_mailbox(config.from@)
                &&& is_mailbox(config.to@)
                &&& letter.from@ == config.from@
                &&& letter.to@ == config.to@
                &&& letter.subject@ == title@
                &&& letter.body@ == body@
            },
            Err(e) => if is_mailbox(config.from@) {
                !is_mailbox(config.to@) && e is MailTo
            } else {
                e is MailFrom
            },
        },
{
    match check_mailbox(config.from.as_str()) {
        Ok(_) => {},
        Err(_) => {
            return Err(Failure::MailFrom);
        },
    }
    match check_mailbox(config.to.as_str()) {
        Ok(_) => {},
        Err(_) => {
            return Err(Failure::MailTo);
        },
    }
    Ok(
        Letter {
            from: config.from.clone(),
            to: config.to.clone(),
            subject: title.to_string(),
            body: body.to_string(),
        },
    )
}

/// The failures of one way to notify.
pub open spec fn named_failure(way: Seq<char>, error: Option<Seq<char>>) -> Seq<Seq<char>> {
    match error {
        Some(t) => seq![way + t],
        None => seq![],
    }
}

/// All failures, with the way to notify before each.
pub open spec fn named_failures(telegram: Option<Seq<char>>, email: Option<Seq<char>>) -> Seq<
    Seq<char>,
> {
    named_failure("telegram: "@, telegram) + named_failure("email: "@, email)
}

/// Every failure is named with its way, the messenger before the mail, and a semicolon stands
/// between the two.
pub proof fn failures_are_named(telegram: Seq<char>, email: Seq<char>)
    ensures
        named_failures(None, None).len() == 0,
        joined(named_failures(Some(telegram), None), "; "@) == "telegram: "@ + telegram,
        joined(named_failures(None, Some(email)), "; "@) == "email: "@ + email,
        joined(named_failures(Some(telegram), Some(email)), "; "@) == "telegram: "@ + telegram
            + "; "@ + ("email: "@ + email),
{
    reveal_with_fuel(joined, 3);
    let both = named_failures(Some(telegram), Some(email));
    assert(both.len() == 2);
    assert(both.drop_last() =~= seq!["telegram: "@ + telegram]);
    assert(both.last() == "email: "@ + email);
}

/// Tells what came of notifications, given the errors of those that failed.
pub fn notification_outcome(telegram_error: Option<String>, email_error: Option<String>) -> (r:
    Result<(), Failure>)
    ensures
        match r {
            Ok(_) => telegram_error is None && email_error is None,
            Err(e) => {
                &&& telegram_error is Some || email_error is Some
                &&& e matches Failure::Notifications(t)
                &&& t@ == joined(
                    named_failures(opt_text(telegram_error), opt_text(email_error)),
                    "; "@,
                )
            },
        },
{
    let ghost all = named_failures(opt_text(telegram_error), opt_text(email_error));
    let mut out = String::new();
    let mut failed = false;
    if let Some(t) = &telegram_error {
        out.append("telegram: ");
        out.append(t.as_str());
        failed = true;
    }
    if let Some(t) = &email_error {
        if failed {
            out.append("; ");
        }
        out.append("email: ");
        out.append(t.as_str());
        failed = true;
    }
    if !failed {
        return Ok(());
    }
    proof {
        reveal_with_fuel(joined, 3);
        if all.len() == 2 {
            assert(all.drop_last().len() == 1);
        }
        assert(out@ =~= joined(all, "; "@));
    }
    Err(Failure::Notifications(out))
}

// ---------------------------------------------------------------------------
// Notices
// ---------------------------------------------------------------------------
/// What a notification says.
pub struct Notice {
    pub title: String,
    pub body: String,
}

/// Whether a notice tells of a log that was submitted.
pub open spec fn tells_success(notice: Notice, result: JsonView, workhour: Seq<char>) -> bool {
    notice.title@ == "autohour 提交成功"@ && notice.body@ == result_summary(result, workhour)
}

/// Whether a notice tells of a log that could not be submitted.
pub open spec fn tells_failure(notice: Notice, target_date: Ymd, error: Seq<char>) -> bool {
    &&& notice.title@ == "autohour 提交失败"@
    &&& notice.body@ == "日期: "@ + day_text(target_date) + "\n错误: "@ + error
}

/// The notice of a log that was submitted. The hours are given as they are to be shown.
pub fn success_notice(result: &Json, workhour: &str) -> (r: Notice)
    ensures
        tells_success(r, result@, workhour@),
{
    Notice {
        title: "autohour 提交成功".to_string(),
        body: summarize_result(result, workhour),
    }
}

/// The notice of a log that could not be submitted.
pub fn failure_notice(target_date: &Date, error: &str) -> (r: Notice)
    ensures
        tells_failure(r, target_date@, error@),
{
    let mut body = "日期: ".to_string();
    let day = target_date.text();
    body.append(day.as_str());
    body.append("\n错误: ");
    body.append(error);
    Notice { title: "autohour 提交失败".to_string(), body }
}

/// The notice of a success and that of a failure have different titles. The notice of a failure
/// names the day and the error, that of a success sums up what was done.
pub proof fn notices_tell_what_came(
    success: Notice,
    result: JsonView,
    workhour: Seq<char>,
    failure: Notice,
    day: Ymd,
    error: Seq<char>,
)
    requires
        tells_success(success, result, workhour),
        tells_failure(failure, day, error),
    ensures
        success.title@ == "autohour 提交成功"@,
        failure.title@ == "autohour 提交失败"@,
        success.body@ == result_summary(result, workhour),
        failure.body@ == "日期: "@ + day_text(day) + "\n错误: "@ + error,
{
}

/// The notice of reports that are missing; where none is, there is no notice.
pub fn missing_notice(result: &MissingDailyResult) -> (r: Option<Notice>)
    ensures
        match r {
            Some(notice) => {
                &&& result.missing_workdays@.len() > 0
                &&& notice.title@ == "autohour 检测到缺报"@
                &&& notice.body@ == missing_summary(*result)
            },
            None => result.missing_workdays@.len() == 0,
        },
{
    if result.missing_workdays.len() == 0 {
        None
    } else {
        Some(
            Notice {
                title: "autohour 检测到缺报".to_string(),
                body: summarize_missing_daily(result),
            },
        )
    }
}

} // verus!
