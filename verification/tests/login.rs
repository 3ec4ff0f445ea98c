use autohour::encoding::{encode_form, rsa_encrypt_password};
use autohour::failure::Failure;
use autohour::login::{
    answer_login_page, complete_form, default_login_url, login_body, parse_login_form, Account,
    LoginForm,
};
use autohour::session::{has_ticket, session_cookie, StoredCookie};
use base64::Engine;
use rsa::pkcs8::EncodePublicKey;

fn key_pair() -> (rsa::RsaPrivateKey, String) {
    let private = rsa::RsaPrivateKey::new(&mut rsa::rand_core::OsRng, 512).unwrap();
    let der = private.to_public_key().to_public_key_der().unwrap();
    let text = base64::engine::general_purpose::STANDARD.encode(der.as_bytes());
    (private, text)
}

fn opened(private: &rsa::RsaPrivateKey, sealed: &str) -> Vec<u8> {
    let cipher = base64::engine::general_purpose::STANDARD.decode(sealed).unwrap();
    private.decrypt(rsa::Pkcs1v15Encrypt, &cipher).unwrap()
}

fn page(pubkey: &str) -> String {
    format!(
        "<html><body><form id=\"fm1\" action=\"/login/do?x=1\"><input name=\"lt\" value=\"LT-1\">\
         <input name=\"execution\" value=\"e1s1\"><input name=\"_eventId\">\
         <input name=\"pubkey\" value=\"{pubkey}\"></form></body></html>"
    )
}

#[test]
fn starts_from_the_login_page_of_the_service() {
    assert_eq!(
        default_login_url(),
        "https://login.linker.cc/login/login?service=https%3A%2F%2Flh.i.linker.cc%2F1.UserCenter%2FPages%2FDefault.aspx"
    );
}

#[test]
fn seals_a_password_for_the_key_of_the_form() {
    let (private, pubkey) = key_pair();
    let sealed = rsa_encrypt_password("pässword", &pubkey).unwrap();
    assert_eq!(opened(&private, &sealed), "pässword".as_bytes());
}

#[test]
fn refuses_keys_and_passwords_that_do_not_fit() {
    let (_, pubkey) = key_pair();
    assert!(matches!(rsa_encrypt_password("x", "***").err().unwrap(), Failure::KeyEncoding));
    assert!(matches!(rsa_encrypt_password("x", "AAAA").err().unwrap(), Failure::KeyFormat));
    assert!(rsa_encrypt_password(&"x".repeat(53), &pubkey).is_ok());
    let long = rsa_encrypt_password(&"x".repeat(54), &pubkey);
    assert!(matches!(long.err().unwrap(), Failure::Encryption));
    assert_eq!(Failure::KeyEncoding.message(), "failed to decode login public key");
    assert_eq!(Failure::KeyFormat.message(), "failed to parse RSA public key");
    assert_eq!(Failure::Encryption.message(), "failed to encrypt password");
}

#[test]
fn writes_forms() {
    assert_eq!(encode_form(&vec![("a b", "c&d"), ("é", "*-._~")]), "a+b=c%26d&%C3%A9=*-._%7E");
    assert_eq!(encode_form(&vec![]), "");
}

#[test]
fn reads_the_login_form() {
    let form = parse_login_form("https://login.example/login/page", &page("KEY")).unwrap().unwrap();
    assert_eq!(form.action_url, "https://login.example/login/do?x=1");
    assert_eq!(form.lt, "LT-1");
    assert_eq!(form.execution, "e1s1");
    assert_eq!(form.event_id, "submit");
    assert_eq!(form.pubkey_b64, "KEY");
}

#[test]
fn finds_no_form_on_other_pages() {
    assert!(parse_login_form("https://a.example/", "<p>welcome</p>").unwrap().is_none());
    assert!(parse_login_form("", "<form id=\"fm2\" action=\"x\"></form>").unwrap().is_none());
}

#[test]
fn says_what_a_form_lacks() {
    let base = "https://a.example/";
    let failure = |url: &str, body: &str| parse_login_form(url, body).err().unwrap();
    assert!(matches!(failure(base, "<form id=fm1></form>"), Failure::FormAction));
    assert!(matches!(failure("nowhere", "<form id=fm1 action=x></form>"), Failure::LoginUrl));
    assert!(matches!(failure(base, "<form id=fm1 action='http://['></form>"), Failure::FormTarget));
    assert!(matches!(failure(base, "<form id=fm1 action=x></form>"), Failure::FormExecution));
    assert!(matches!(
        failure(base, "<form id=fm1 action=x><input name=execution></form>"),
        Failure::FormPublicKey
    ));
}

fn input(name: &str, value: Option<&str>) -> (Option<String>, Option<String>) {
    (Some(name.to_string()), value.map(|v| v.to_string()))
}

#[test]
fn takes_the_last_input_of_a_name() {
    let inputs = vec![
        input("execution", Some("1")),
        input("pubkey", Some("k")),
        input("_eventId", Some("go")),
        input("lt", Some("a")),
        input("lt", None),
        (None, Some("x".to_string())),
        input("execution", Some("2")),
    ];
    let form = complete_form("https://a.example/".to_string(), &inputs).unwrap();
    assert_eq!(form.execution, "2");
    assert_eq!(form.lt, "");
    assert_eq!(form.event_id, "go");
    assert_eq!(form.action_url, "https://a.example/");
}

#[test]
fn fills_in_the_login_form() {
    let form = LoginForm {
        action_url: "https://a.example/".to_string(),
        lt: "LT 1".to_string(),
        execution: "e1".to_string(),
        event_id: "submit".to_string(),
        pubkey_b64: String::new(),
    };
    assert_eq!(
        login_body("me", "a+b=", &form),
        "username=me&password=a%2Bb%3D&lt=LT+1&execution=e1&_eventId=submit&submit=%E7%99%BB%E5%BD%95"
    );
}

#[test]
fn answers_a_login_page() {
    let (private, pubkey) = key_pair();
    let account = Account { username: "me".to_string(), password: "secret".to_string() };
    let post = answer_login_page(&account, "https://a.example/login", &page(&pubkey))
        .unwrap()
        .unwrap();
    assert_eq!(post.url, "https://a.example/login/do?x=1");
    let fields: Vec<(String, String)> = serde_urlencoded::from_str(&post.body).unwrap();
    assert_eq!(fields[0], ("username".to_string(), "me".to_string()));
    assert_eq!(fields[1].0, "password");
    assert_eq!(opened(&private, &fields[1].1), b"secret");
    assert_eq!(fields[5], ("submit".to_string(), "登录".to_string()));
    assert!(answer_login_page(&account, "https://a.example/", "<p></p>").unwrap().is_none());
    let broken = answer_login_page(&account, "https://a.example/", &page("*"));
    assert!(matches!(broken.err().unwrap(), Failure::KeyEncoding));
}

fn stored(domain: Option<&str>, name: &str, value: &str) -> StoredCookie {
    StoredCookie {
        domain: domain.map(|d| d.to_string()),
        name: name.to_string(),
        value: value.to_string(),
    }
}

#[test]
fn finds_the_session_cookie_of_a_header() {
    let header = "a=b; session_for:index_php=old;junk; session_for%3Aindex_php=ST-1=2; x=ST-";
    let cookie = session_cookie(Some(header), &vec![]).unwrap();
    assert_eq!(cookie.name, "session_for%3Aindex_php");
    assert_eq!(cookie.value, "ST-1=2");
    let last = session_cookie(
        Some("session_for:index_php=1; session_for%3Aindex_php=2"),
        &vec![stored(Some("weeksystem.linker.cc"), "session_for:index_php", "ST-9")],
    )
    .unwrap();
    assert_eq!(last.value, "2");
}

#[test]
fn finds_the_session_cookie_of_a_store() {
    let store = vec![
        stored(None, "session_for:index_php", "ST-0"),
        stored(Some("other.example"), "session_for:index_php", "ST-1"),
        stored(Some(".weeksystem.linker.cc"), "session", "ST-2"),
        stored(Some(".weeksystem.linker.cc"), "session_for:index_php", "plain"),
        stored(Some("weeksystem.linker.cc"), "session_for%3Aindex_php", "ST-3"),
        stored(Some("weeksystem.linker.cc"), "session_for%3Aindex_php", "ST-4"),
    ];
    assert_eq!(session_cookie(Some("a=b"), &store).unwrap().value, "ST-3");
    assert_eq!(session_cookie(None, &store).unwrap().value, "ST-3");
    assert!(session_cookie(None, &store[..3].iter().map(|c| {
        stored(c.domain.as_deref(), &c.name, &c.value)
    }).collect()).is_none());
}

#[test]
fn knows_tickets() {
    assert!(has_ticket("ST-"));
    assert!(!has_ticket("ST"));
    assert!(!has_ticket("xST-1"));
}
