use autohour::date::Date;
use autohour::failure::Failure;
use autohour::json::Json;
use autohour::notify::{
    check_telegram_reply, env_notification_config, escape_markdown_v2, failure_notice,
    notification_outcome, success_notice, telegram_payload, telegram_url, write_letter,
    EmailConfig, Settings, TelegramConfig,
};

fn nothing() -> Settings {
    Settings {
        telegram_bot_token: None,
        telegram_chat_id: None,
        smtp_host: None,
        smtp_port: None,
        smtp_username: None,
        smtp_password: None,
        smtp_from: None,
        smtp_to: None,
        smtp_starttls: None,
    }
}

fn text(value: &str) -> Option<String> {
    Some(value.to_string())
}

fn mail() -> Settings {
    Settings {
        smtp_host: text("mail.example"),
        smtp_username: text("user"),
        smtp_password: text("word"),
        smtp_from: text("a@example.com"),
        smtp_to: text("b@example.com"),
        ..nothing()
    }
}

#[test]
fn needs_both_settings_of_a_chat() {
    let config = env_notification_config(&nothing()).unwrap();
    assert!(config.telegram.is_none() && config.email.is_none());
    let half = Settings { telegram_bot_token: text("t"), ..nothing() };
    assert!(env_notification_config(&half).unwrap().telegram.is_none());
    let both = Settings { telegram_bot_token: text("t"), telegram_chat_id: text("c"), ..nothing() };
    let chat = env_notification_config(&both).unwrap().telegram.unwrap();
    assert_eq!((chat.bot_token.as_str(), chat.chat_id.as_str()), ("t", "c"));
}

#[test]
fn fills_in_the_defaults_of_mail() {
    let email = env_notification_config(&mail()).unwrap().email.unwrap();
    assert_eq!(email.smtp_host, "mail.example");
    assert_eq!(email.smtp_port, 587);
    assert_eq!(email.smtp_username, "user");
    assert_eq!(email.smtp_password, "word");
    assert_eq!(email.from, "a@example.com");
    assert_eq!(email.to, "b@example.com");
    assert!(email.starttls);
}

#[test]
fn reads_the_settings_of_mail() {
    for (value, wanted) in [("1", true), ("true", true), ("TRUE", true), ("yes", true), ("on", true), ("True", false), ("0", false), ("", false)] {
        let settings = Settings { smtp_starttls: text(value), smtp_port: text("25"), ..mail() };
        let email = env_notification_config(&settings).unwrap().email.unwrap();
        assert_eq!(email.starttls, wanted, "{value}");
        assert_eq!(email.smtp_port, 25);
    }
    for port in ["65536", "", "-1", "x", " 25"] {
        assert!(port.parse::<u16>().is_err());
        let settings = Settings { smtp_port: text(port), ..mail() };
        let failure = env_notification_config(&settings).err().unwrap();
        assert!(matches!(failure, Failure::SmtpPort));
        assert_eq!(failure.message(), "SMTP_PORT must be a valid integer");
    }
    let unused = Settings { smtp_port: text("x"), smtp_to: None, ..mail() };
    assert!(env_notification_config(&unused).unwrap().email.is_none());
    let largest = Settings { smtp_port: text("65535"), ..mail() };
    assert_eq!(env_notification_config(&largest).unwrap().email.unwrap().smtp_port, 65535);
}

#[test]
fn escapes_every_special_character() {
    let special = "_*[]()~`>#+-=|{}.!";
    let wanted: String = special.chars().flat_map(|c| ['\\', c]).collect();
    assert_eq!(escape_markdown_v2(special), wanted);
    assert_eq!(escape_markdown_v2("日期: 2026-04-02\\"), "日期: 2026\\-04\\-02\\");
    assert_eq!(escape_markdown_v2(""), "");
}

#[test]
fn writes_messages_to_a_chat() {
    let chat = TelegramConfig { bot_token: "12:ab".to_string(), chat_id: "-5".to_string() };
    assert_eq!(telegram_url(&chat), "https://api.telegram.org/bot12:ab/sendMessage");
    let payload = telegram_payload(&chat, "a.b", "c!");
    assert_eq!(payload.get("chat_id").unwrap().as_str(), Some("-5"));
    assert_eq!(payload.get("text").unwrap().as_str(), Some("*a\\.b*\n\nc\\!"));
    assert_eq!(payload.get("parse_mode").unwrap().as_str(), Some("MarkdownV2"));
}

#[test]
fn reads_the_answer_of_a_chat() {
    let reply = |ok: Json| Json::object(vec![("ok".to_string(), ok)]);
    assert!(check_telegram_reply(&reply(Json::Bool(true)), String::new()).is_ok());
    for ok in [Json::Bool(false), Json::string("true"), Json::Unsigned(1)] {
        let failure = check_telegram_reply(&reply(ok), "{}".to_string()).err().unwrap();
        assert_eq!(failure.message(), "telegram API returned failure: {}");
    }
    assert!(check_telegram_reply(&Json::Null, String::new()).is_err());
}

fn account(from: &str, to: &str) -> EmailConfig {
    EmailConfig {
        smtp_host: "mail.example".to_string(),
        smtp_port: 25,
        smtp_username: String::new(),
        smtp_password: String::new(),
        from: from.to_string(),
        to: to.to_string(),
        starttls: true,
    }
}

#[test]
fn writes_letters_between_mailboxes() {
    let letter = write_letter(&account("Me <a@example.com>", "b@example.com"), "title", "body");
    let letter = letter.unwrap();
    assert_eq!(letter.from, "Me <a@example.com>");
    assert_eq!(letter.to, "b@example.com");
    assert_eq!(letter.subject, "title");
    assert_eq!(letter.body, "body");
    let failure = write_letter(&account("nobody", "none"), "t", "b").err().unwrap();
    assert!(matches!(failure, Failure::MailFrom));
    assert_eq!(failure.message(), "invalid SMTP_FROM address");
    let failure = write_letter(&account("a@example.com", "none"), "t", "b").err().unwrap();
    assert!(matches!(failure, Failure::MailTo));
    assert_eq!(failure.message(), "invalid SMTP_TO address");
}

#[test]
fn names_the_notifications_that_failed() {
    assert!(notification_outcome(None, None).is_ok());
    let message = |t: Option<String>, e: Option<String>| {
        notification_outcome(t, e).err().unwrap().message()
    };
    assert_eq!(message(text("x"), None), "telegram: x");
    assert_eq!(message(None, text("y")), "email: y");
    assert_eq!(message(text("x"), text("y")), "telegram: x; email: y");
}

#[test]
fn gives_notice_of_submissions() {
    let notice = success_notice(&Json::Null, "8");
    assert_eq!(notice.title, "autohour 提交成功");
    assert_eq!(notice.body, "日期: -\n项目: 0\n工时: 8\n工时结果: -\n日报结果: -");
    let notice = failure_notice(&Date::from_ymd(2026, 4, 2).unwrap(), "broken");
    assert_eq!(notice.title, "autohour 提交失败");
    assert_eq!(notice.body, "日期: 2026-04-02\n错误: broken");
}
