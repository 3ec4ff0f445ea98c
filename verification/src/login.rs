//! The login form, and what is sent for it.
use vstd::prelude::*;
use vstd::utf8::encode_utf8;

use crate::encoding::{
    encode_for_address, encode_form, form_text, in_address, pairs_view, rsa_encrypt_password,
    seal_refusal, seals_password,
};
use crate::failure::Failure;
use crate::text::same_text;

verus! {

/// The service for which a login is asked.
pub const DEFAULT_SERVICE_URL: &'static str = "https://lh.i.linker.cc/1.UserCenter/Pages/Default.aspx";

/// The address of the page that every login starts from.
pub open spec fn login_address() -> Seq<char> {
    "https://login.linker.cc/login/login?service="@ + in_address(encode_utf8(DEFAULT_SERVICE_URL@))
}

/// The page that every login starts from.
pub fn default_login_url() -> (r: String)
    ensures
        r@ == login_address(),
{
    let mut url = "https://login.linker.cc/login/login?service=".to_string();
    let service = encode_for_address(DEFAULT_SERVICE_URL);
    url.append(service.as_str());
    url
}

// ---------------------------------------------------------------------------
// What the scraper and url crates compute
// ---------------------------------------------------------------------------
/// The values of two attributes of the elements that a selector finds in a page, as the scraper
/// crate reads it, in the order in which it made the elements.
pub uninterp spec fn selected_attributes(
    html: Seq<char>,
    selector: Seq<char>,
    first: Seq<char>,
    second: Seq<char>,
) -> Seq<(Option<Seq<char>>, Option<Seq<char>>)>;

/// Whether the url crate reads a text as an absolute address.
pub uninterp spec fn is_address(text: Seq<char>) -> bool;

/// The address that the url crate resolves a reference to, seen from a base.
pub uninterp spec fn resolved_address(base: Seq<char>, reference: Seq<char>) -> Option<Seq<char>>;

/// The error of a text that is no address.
#[verifier::external_type_specification]
#[verifier::external_body]
pub struct ExUrlError(url::ParseError);

/// The characters of a text, if there is one.
pub open spec fn opt_text(t: Option<String>) -> Option<Seq<char>> {
    match t {
        Some(s) => Some(s@),
        None => None,
    }
}

/// The characters of pairs of attributes.
pub open spec fn attributes_view(v: Seq<(Option<String>, Option<String>)>) -> Seq<
    (Option<Seq<char>>, Option<Seq<char>>),
> {
    v.map_values(|a: (Option<String>, Option<String>)| (opt_text(a.0), opt_text(a.1)))
}

/// `scraper::Html::parse_document` reads a page, and `scraper::Html::select` finds the elements
/// that a selector matches, in the order in which reading made them. The two selectors that are
/// admitted are well formed, so that `scraper::Selector::parse` accepts them.
#[verifier::external_body]
fn select_attributes(html: &str, selector: &str, first: &str, second: &str) -> (r: Vec<
    (Option<String>, Option<String>),
>)
    requires
        selector@ == "form#fm1"@ || selector@ == "input"@,
    ensures
        attributes_view(r@) == selected_attributes(html@, selector@, first@, second@),
{
    let page = scraper::Html::parse_document(html);
    let wanted = scraper::Selector::parse(selector).unwrap();
    let owned = |value: Option<&str>| value.map(|v| v.to_string());
    page.select(&wanted)
        .map(|e| (owned(e.value().attr(first)), owned(e.value().attr(second))))
        .collect()
}

/// `url::Url::parse` reads an absolute address.
#[verifier::external_body]
fn check_address(text: &str) -> (r: Result<(), url::ParseError>)
    ensures
        r is Ok == is_address(text@),
{
    url::Url::parse(text)?;
    Ok(())
}

/// `url::Url::join` resolves a reference, seen from an absolute address.
#[verifier::external_body]
fn resolve_address(base: &str, reference: &str) -> (r: Result<String, url::ParseError>)
    requires
        is_address(base@),
    ensures
        match r {
            Ok(t) => resolved_address(base@, reference@) == Some(t@),
            Err(_) => resolved_address(base@, reference@) is None,
        },
{
    Ok(url::Url::parse(base)?.join(reference)?.to_string())
}

// ---------------------------------------------------------------------------
// The login form
// ---------------------------------------------------------------------------
/// What a login form brings.
pub struct LoginForm {
    pub action_url: String,
    pub lt: String,
    pub execution: String,
    pub event_id: String,
    pub pubkey_b64: String,
}

/// What a login form brings.
pub struct LoginFormView {
    pub action_url: Seq<char>,
    pub lt: Seq<char>,
    pub execution: Seq<char>,
    pub event_id: Seq<char>,
    pub pubkey_b64: Seq<char>,
}

impl View for LoginForm {
    type V = LoginFormView;

    open spec fn view(&self) -> LoginFormView {
        LoginFormView {
            action_url: self.action_url@,
            lt: self.lt@,
            execution: self.execution@,
            event_id: self.event_id@,
            pubkey_b64: self.pubkey_b64@,
        }
    }
}

/// The value of the last input with a name, where there is one; an input may have no value.
pub open spec fn last_input(
    inputs: Seq<(Option<Seq<char>>, Option<Seq<char>>)>,
    name: Seq<char>,
) -> Option<Option<Seq<char>>>
    decreases inputs.len(),
{
    if inputs.len() == 0 {
        None
    } else if inputs.last().0 == Some(name) {
        Some(inputs.last().1)
    } else {
        last_input(inputs.drop_last(), name)
    }
}

/// A value, or something else in its place.
pub open spec fn or_else(value: Option<Seq<char>>, other: Seq<char>) -> Seq<char> {
    match value {
        Some(v) => v,
        None => other,
    }
}

/// The form that the inputs of a page make up, or what it lacks. The last input of a name
/// counts.
pub open spec fn form_of(
    action_url: Seq<char>,
    inputs: Seq<(Option<Seq<char>>, Option<Seq<char>>)>,
) -> Result<LoginFormView, Failure> {
    match last_input(inputs, "execution"@) {
        None => Err(Failure::FormExecution),
        Some(execution) => match last_input(inputs, "pubkey"@) {
            None => Err(Failure::FormPublicKey),
            Some(pubkey) => Ok(
                LoginFormView {
                    action_url,
                    lt: match last_input(inputs, "lt"@) {
                        Some(v) => or_else(v, seq![]),
                        None => seq![],
                    },
                    execution: or_else(execution, seq![]),
                    event_id: match last_input(inputs, "_eventId"@) {
                        Some(v) => or_else(v, "submit"@),
                        None => "submit"@,
                    },
                    pubkey_b64: or_else(pubkey, seq![]),
                },
            ),
        },
    }
}

/// Whether two results agree in what they hold.
pub open spec fn form_agrees(r: Result<LoginForm, Failure>, v: Result<LoginFormView, Failure>) -> bool {
    match (r, v) {
        (Ok(f), Ok(w)) => f@ == w,
        (Err(e), Err(x)) => e == x,
        _ => false,
    }
}

/// Finds the value of the last input with a name.
fn find_input<'a>(inputs: &'a Vec<(Option<String>, Option<String>)>, name: &str) -> (r: Option<
    &'a Option<String>,
>)
    ensures
        match r {
            Some(v) => last_input(attributes_view(inputs@), name@) == Some(opt_text(*v)),
            None => last_input(attributes_view(inputs@), name@) is None,
        },
{
    let ghost all = attributes_view(inputs@);
    let mut i: usize = inputs.len();
    assert(all.take(i as int) =~= all);
    while i > 0
        invariant
            i <= inputs@.len(),
            all == attributes_view(inputs@),
            last_input(all, name@) == last_input(all.take(i as int), name@),
        decreases i,
    {
        let ghost now = all.take(i as int);
        assert(now.last() == (opt_text(inputs@[i - 1].0), opt_text(inputs@[i - 1].1)));
        assert(now.drop_last() =~= all.take(i - 1));
        i -= 1;
        match &inputs[i].0 {
            Some(n) => {
                if same_text(n.as_str(), name) {
                    return Some(&inputs[i].1);
                }
            },
            None => {},
        }
    }
    None
}

fn value_or(value: &Option<String>, other: &str) -> (r: String)
    ensures
        r@ == or_else(opt_text(*value), other@),
{
    match value {
        Some(v) => v.clone(),
        None => other.to_string(),
    }
}

/// Makes up the login form from the inputs of its page.
pub fn complete_form(action_url: String, inputs: &Vec<(Option<String>, Option<String>)>) -> (r:
    Result<LoginForm, Failure>)
    ensures
        form_agrees(r, form_of(action_url@, attributes_view(inputs@))),
{
    let lt = match find_input(inputs, "lt") {
        Some(v) => value_or(v, ""),
        None => String::new(),
    };
    proof {
        reveal_strlit("");
        assert(""@ =~= seq![]);
    }
    let event_id = match find_input(inputs, "_eventId") {
        Some(v) => value_or(v, "submit"),
        None => "submit".to_string(),
    };
    let execution = match find_input(inputs, "execution") {
        Some(v) => value_or(v, ""),
        None => {
            return Err(Failure::FormExecution);
        },
    };
    let pubkey_b64 = match find_input(inputs, "pubkey") {
        Some(v) => value_or(v, ""),
        None => {
            return Err(Failure::FormPublicKey);
        },
    };
    Ok(LoginForm { action_url, lt, execution, event_id, pubkey_b64 })
}

/// The login form on a page, or what it lacks; a page may have none.
pub open spec fn page_form(final_url: Seq<char>, body: Seq<char>) -> Option<
    Result<LoginFormView, Failure>,
> {
    let forms = selected_attributes(body, "form#fm1"@, "action"@, "id"@);
    let inputs = selected_attributes(body, "input"@, "name"@, "value"@);
    if forms.len() == 0 {
        None
    } else {
        match forms[0].0 {
            None => Some(Err(Failure::FormAction)),
            Some(action) => if !is_address(final_url) {
                Some(Err(Failure::LoginUrl))
            } else {
                match resolved_address(final_url, action) {
                    None => Some(Err(Failure::FormTarget)),
                    Some(target) => Some(form_of(target, inputs)),
                }
            },
        }
    }
}

/// Reads the login form on a page that was found at an address.
pub fn parse_login_form(final_url: &str, body: &str) -> (r: Result<Option<LoginForm>, Failure>)
    ensures
        match r {
            Ok(None) => page_form(final_url@, body@) is None,
            Ok(Some(form)) => page_form(final_url@, body@) == Some(Ok::<_, Failure>(form@)),
            Err(e) => page_form(final_url@, body@) == Some(Err::<LoginFormView, _>(e)),
        },
{
    let forms = select_attributes(body, "form#fm1", "action", "id");
    if forms.len() == 0 {
        return Ok(None);
    }
    assert(attributes_view(forms@)[0].0 == opt_text(forms@[0].0));
    let action = match &forms[0].0 {
        Some(a) => a,
        None => {
            return Err(Failure::FormAction);
        },
    };
    match check_address(final_url) {
        Ok(_) => {},
        Err(_) => {
            return Err(Failure::LoginUrl);
        },
    }
    let target = match resolve_address(final_url, action.as_str()) {
        Ok(t) => t,
        Err(_) => {
            return Err(Failure::FormTarget);
        },
    };
    let inputs = select_attributes(body, "input", "name", "value");
    match complete_form(target, &inputs) {
        Ok(form) => Ok(Some(form)),
        Err(e) => Err(e),
    }
}

/// What is sent for a login.
pub open spec fn login_fields(
    username: Seq<char>,
    encrypted_password: Seq<char>,
    form: LoginFormView,
) -> Seq<(Seq<char>, Seq<char>)> {
    seq![
        ("username"@, username),
        ("password"@, encrypted_password),
        ("lt"@, form.lt),
        ("execution"@, form.execution),
        ("_eventId"@, form.event_id),
        ("submit"@, "登录"@),
    ]
}

/// Writes what is sent for a login.
pub fn login_body(username: &str, encrypted_password: &str, form: &LoginForm) -> (r: String)
    ensures
        r@ == form_text(login_fields(username@, encrypted_password@, form@)),
{
    let mut fields: Vec<(&str, &str)> = Vec::new();
    fields.push(("username", username));
    fields.push(("password", encrypted_password));
    fields.push(("lt", form.lt.as_str()));
    fields.push(("execution", form.execution.as_str()));
    fields.push(("_eventId", form.event_id.as_str()));
    fields.push(("submit", "登录"));
    assert(pairs_view(fields@) =~= login_fields(username@, encrypted_password@, form@));
    encode_form(&fields)
}

/// Who logs in.
pub struct Account {
    pub username: String,
    pub password: String,
}

/// A form that is sent: where it goes and what it carries.
pub struct FormPost {
    pub url: String,
    pub body: String,
}

/// Whether a form that is sent answers a login form for an account.
pub open spec fn answers_form(account: Account, form: LoginFormView, post: FormPost) -> bool {
    &&& post.url@ == form.action_url
    &&& exists|sealed: Seq<char>| #[trigger]
        seals_password(account.password@, form.pubkey_b64, sealed) && post.body@ == form_text(
            login_fields(account.username@, sealed, form),
        )
}

/// Why the page that a login starts from cannot be answered, if it cannot.
pub open spec fn page_refusal(account: Account, final_url: Seq<char>, body: Seq<char>) -> Option<
    Failure,
> {
    match page_form(final_url, body) {
        None => None,
        Some(Err(e)) => Some(e),
        Some(Ok(form)) => seal_refusal(account.password@, form.pubkey_b64),
    }
}

/// Whether `r` is the answer of an account to the page that a login starts from: the filled in
/// form, nothing where the page has no form, or why the form cannot be filled in.
pub open spec fn answers_page(
    account: Account,
    final_url: Seq<char>,
    body: Seq<char>,
    r: Result<Option<FormPost>, Failure>,
) -> bool {
    match r {
        Err(e) => page_refusal(account, final_url, body) == Some(e),
        Ok(None) => page_form(final_url, body) is None,
        Ok(Some(post)) => {
            &&& page_refusal(account, final_url, body) is None
            &&& page_form(final_url, body) matches Some(Ok(form))
            &&& answers_form(account, form, post)
        },
    }
}

/// Answers the page that a login starts from.
pub fn answer_login_page(account: &Account, final_url: &str, body: &str) -> (r: Result<
    Option<FormPost>,
    Failure,
>)
    ensures
        answers_page(*account, final_url@, body@, r),
{
    match parse_login_form(final_url, body) {
        Err(e) => Err(e),
        Ok(None) => Ok(None),
        Ok(Some(form)) => {
            match rsa_encrypt_password(account.password.as_str(), form.pubkey_b64.as_str()) {
                Err(e) => Err(e),
                Ok(sealed) => {
                    let filled = login_body(account.username.as_str(), sealed.as_str(), &form);
                    assert(seals_password(account.password@, form@.pubkey_b64, sealed@));
                    Ok(Some(FormPost { url: form.action_url, body: filled }))
                },
            }
        },
    }
}

// ---------------------------------------------------------------------------
// What holds of the login form
// ---------------------------------------------------------------------------
/// Whether `value` is what the inputs of a page have under a name: the value of the last input
/// with this name, or something else where there is none or it has no value.
pub open spec fn stands_under(
    inputs: Seq<(Option<Seq<char>>, Option<Seq<char>>)>,
    name: Seq<char>,
    other: Seq<char>,
    value: Seq<char>,
) -> bool {
    ||| value == other && forall|j: int|
        0 <= j < inputs.len() ==> (#[trigger] inputs[j]).0 != Some(name)
    ||| exists|k: int|
        {
            &&& 0 <= k < inputs.len()
            &&& (#[trigger] inputs[k]).0 == Some(name)
            &&& forall|j: int| k < j < inputs.len() ==> (#[trigger] inputs[j]).0 != Some(name)
            &&& match inputs[k].1 {
                Some(v) => value == v,
                None => value == other,
            }
        }
}

#[verifier::rlimit(40)]
proof fn last_input_stands_under(
    inputs: Seq<(Option<Seq<char>>, Option<Seq<char>>)>,
    name: Seq<char>,
    other: Seq<char>,
)
    ensures
        stands_under(
            inputs,
            name,
            other,
            match last_input(inputs, name) {
                Some(v) => or_else(v, other),
                None => other,
            },
        ),
        last_input(inputs, name) is Some <==> exists|j: int|
            0 <= j < inputs.len() && (#[trigger] inputs[j]).0 == Some(name),
    decreases inputs.len(),
{
    if inputs.len() > 0 {
        let n = inputs.len() - 1;
        if inputs[n].0 == Some(name) {
            assert(inputs.last() == inputs[n]);
        } else {
            let t = inputs.drop_last();
            last_input_stands_under(t, name, other);
            if exists|j: int| 0 <= j < t.len() && (#[trigger] t[j]).0 == Some(name) {
                let k = choose|k: int|
                    {
                        &&& 0 <= k < t.len()
                        &&& (#[trigger] t[k]).0 == Some(name)
                        &&& forall|j: int| k < j < t.len() ==> (#[trigger] t[j]).0 != Some(name)
                        &&& match t[k].1 {
                            Some(v) => (match last_input(t, name) {
                                Some(v) => or_else(v, other),
                                None => other,
                            }) == v,
                            None => (match last_input(t, name) {
                                Some(v) => or_else(v, other),
                                None => other,
                            }) == other,
                        }
                    };
                assert(inputs[k] == t[k]);
                assert forall|j: int| k < j < inputs.len() implies (#[trigger] inputs[j]).0 != Some(
                    name,
                ) by {
                    if j < n {
                        assert(inputs[j] == t[j]);
                    }
                }
            } else {
                assert forall|j: int| 0 <= j < inputs.len() implies (#[trigger] inputs[j]).0 != Some(
                    name,
                ) by {
                    if j < n {
                        assert(inputs[j] == t[j]);
                    }
                }
            }
        }
    }
}

/// What a login form takes from the inputs of its page: each of its values is that of the last
/// input of a name. It cannot do without the inputs `execution` and `pubkey`; the others have
/// something in their place.
#[verifier::rlimit(40)]
pub proof fn form_takes_the_inputs(
    action_url: Seq<char>,
    inputs: Seq<(Option<Seq<char>>, Option<Seq<char>>)>,
)
    ensures
        match form_of(action_url, inputs) {
            Ok(form) => {
                &&& form.action_url == action_url
                &&& stands_under(inputs, "lt"@, seq![], form.lt)
                &&& stands_under(inputs, "execution"@, seq![], form.execution)
                &&& stands_under(inputs, "_eventId"@, "submit"@, form.event_id)
                &&& stands_under(inputs, "pubkey"@, seq![], form.pubkey_b64)
                &&& exists|j: int|
                    0 <= j < inputs.len() && (#[trigger] inputs[j]).0 == Some("execution"@)
                &&& exists|j: int|
                    0 <= j < inputs.len() && (#[trigger] inputs[j]).0 == Some("pubkey"@)
            },
            Err(e) => if exists|j: int|
                0 <= j < inputs.len() && (#[trigger] inputs[j]).0 == Some("execution"@) {
                e is FormPublicKey && forall|j: int|
                    0 <= j < inputs.len() ==> (#[trigger] inputs[j]).0 != Some("pubkey"@)
            } else {
                e is FormExecution
            },
        },
{
    last_input_stands_under(inputs, "lt"@, seq![]);
    last_input_stands_under(inputs, "execution"@, seq![]);
    last_input_stands_under(inputs, "_eventId"@, "submit"@);
    last_input_stands_under(inputs, "pubkey"@, seq![]);
}

/// Every login starts from the login page for the one service, whose address stands encoded in the
/// address of the page.
pub proof fn logins_start_from_one_page()
    ensures
        login_address() == "https://login.linker.cc/login/login?service="@ + in_address(
            encode_utf8("https://lh.i.linker.cc/1.UserCenter/Pages/Default.aspx"@),
        ),
{
}

/// Which form is read from a page: the first that the selector finds, sent to where its action
/// leads from the address of the page. A page without one has no form.
pub proof fn first_form_counts(final_url: Seq<char>, body: Seq<char>)
    ensures
        ({
            let forms = selected_attributes(body, "form#fm1"@, "action"@, "id"@);
            let inputs = selected_attributes(body, "input"@, "name"@, "value"@);
            &&& page_form(final_url, body) is None <==> forms.len() == 0
            &&& page_form(final_url, body) matches Some(Ok(form)) ==> {
                &&& is_address(final_url)
                &&& forms[0].0 matches Some(action)
                &&& resolved_address(final_url, action) == Some(form.action_url)
                &&& form_of(form.action_url, inputs) == Ok::<_, Failure>(form)
            }
            &&& forms.len() > 0 ==> match forms[0].0 {
                None => page_form(final_url, body) == Some(
                    Err::<LoginFormView, _>(Failure::FormAction),
                ),
                Some(action) => if !is_address(final_url) {
                    page_form(final_url, body) == Some(Err::<LoginFormView, _>(Failure::LoginUrl))
                } else if resolved_address(final_url, action) is None {
                    page_form(final_url, body) == Some(Err::<LoginFormView, _>(Failure::FormTarget))
                } else {
                    page_form(final_url, body) == Some(
                        form_of(resolved_address(final_url, action)->0, inputs),
                    )
                },
            }
        }),
{
}

/// A form that is sent goes to where the form asks and carries, under their names, the name of the
/// account, its password sealed for the key of the form, and what the form brought.
pub proof fn sent_form_carries_the_account(account: Account, form: LoginFormView, post: FormPost)
    requires
        answers_form(account, form, post),
    ensures
        post.url@ == form.action_url,
        exists|fields: Seq<(Seq<char>, Seq<char>)>|
            {
                &&& post.body@ == #[trigger] form_text(fields)
                &&& fields.len() == 6
                &&& fields[0] == ("username"@, account.username@)
                &&& fields[1].0 == "password"@
                &&& seals_password(account.password@, form.pubkey_b64, fields[1].1)
                &&& fields[2] == ("lt"@, form.lt)
                &&& fields[3] == ("execution"@, form.execution)
                &&& fields[4] == ("_eventId"@, form.event_id)
                &&& fields[5] == ("submit"@, "登录"@)
            },
{
    let sealed = choose|sealed: Seq<char>| #[trigger]
        seals_password(account.password@, form.pubkey_b64, sealed) && post.body@ == form_text(
            login_fields(account.username@, sealed, form),
        );
    let fields = login_fields(account.username@, sealed, form);
    assert(post.body@ == form_text(fields));
}

/// The page that a login starts from is answered unless its form lacks something or the password
/// cannot be sealed; a page without a form needs no answer.
pub proof fn pages_are_answered(
    account: Account,
    final_url: Seq<char>,
    body: Seq<char>,
    r: Result<Option<FormPost>, Failure>,
)
    requires
        answers_page(account, final_url, body, r),
    ensures
        match page_form(final_url, body) {
            None => r matches Ok(None),
            Some(Err(e)) => r == Err::<Option<FormPost>, _>(e),
            Some(Ok(form)) => match seal_refusal(account.password@, form.pubkey_b64) {
                Some(e) => r == Err::<Option<FormPost>, _>(e),
                None => r matches Ok(Some(post)) && answers_form(account, form, post),
            },
        },
{
}

} // verus!
