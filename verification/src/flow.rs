//! How a login, a session and a request proceed. Each is a state that names the action to take
//! next; what came of the action leads to the next state.
use vstd::prelude::*;

use crate::api::{
    check_reply, is_accepted, is_unauthorized, refusal_text, reply_means, Request, RequestView,
    SESSION_PROBE_URL, WEEKSYSTEM_APP_URL, WEEKSYSTEM_CONFIG_URL,
};
use crate::failure::Failure;
use crate::holidays::HolidayConfig;
use crate::json::{fields_view, Json, JsonView};
use crate::login::{
    answer_login_page, answers_form, answers_page, default_login_url, login_address, opt_text,
    page_form, page_refusal, Account, FormPost,
};
use crate::session::{
    has_ticket, opt_cookie, session_cookie, session_cookie_of, ticketed, Cookie, CookieView,
    StoredCookie,
};

verus! {

// ---------------------------------------------------------------------------
// Actions and events
// ---------------------------------------------------------------------------
/// What is to be done next.
pub enum Action {
    /// Fetch a page. It is answered by the page or a failure.
    Fetch(String),
    /// Send a form. It is answered by the page that comes back or a failure.
    Submit(FormPost),
    /// Send a request. It is answered by the reply or a failure.
    Post(Request),
    /// Look up the cookies. It is answered by the cookies or a failure.
    ReadCookies,
    /// Save the cookies. It is answered by success or a failure.
    SaveCookies,
    /// Read the holidays of a year. It is answered by the holidays or a failure.
    LoadHolidays(i32),
    /// Nothing: the end is reached.
    Nothing,
}

/// What is to be done next.
pub enum ActionView {
    Fetch(Seq<char>),
    Submit(Seq<char>, Seq<char>),
    Post(RequestView),
    ReadCookies,
    SaveCookies,
    LoadHolidays(i32),
    Nothing,
}

impl View for Action {
    type V = ActionView;

    open spec fn view(&self) -> ActionView {
        match *self {
            Action::Fetch(url) => ActionView::Fetch(url@),
            Action::Submit(post) => ActionView::Submit(post.url@, post.body@),
            Action::Post(request) => ActionView::Post(request@),
            Action::ReadCookies => ActionView::ReadCookies,
            Action::SaveCookies => ActionView::SaveCookies,
            Action::LoadHolidays(year) => ActionView::LoadHolidays(year),
            Action::Nothing => ActionView::Nothing,
        }
    }
}

/// What came of an action.
pub enum Event {
    /// A page, with the address where it was found.
    Page { final_url: String, body: String },
    /// The cookies: those that would be sent to the server, as a header, and all in the store.
    Cookies { header: Option<String>, stored: Vec<StoredCookie> },
    /// The reply to a request.
    Reply(Json),
    /// Success with nothing more to say.
    Done,
    /// The holidays of a year.
    Holidays(HolidayConfig),
    /// A file of holidays that is there and holds no configuration, with the message that says so.
    Unreadable(String),
    /// A failure, with its message.
    Failed(String),
}

impl ActionView {
    /// Whether an event answers the action.
    pub open spec fn answered_by(self, event: Event) -> bool {
        match self {
            ActionView::Fetch(_) => event is Page || event is Failed,
            ActionView::Submit(_, _) => event is Page || event is Failed,
            ActionView::Post(_) => event is Reply || event is Failed,
            ActionView::ReadCookies => event is Cookies || event is Failed,
            ActionView::SaveCookies => event is Done || event is Failed,
            ActionView::LoadHolidays(_) => event is Holidays || event is Unreadable
                || event is Failed,
            ActionView::Nothing => false,
        }
    }
}

// ---------------------------------------------------------------------------
// Login
// ---------------------------------------------------------------------------
/// How far a login has come.
pub enum LoginState {
    /// The login page is wanted.
    Start,
    /// The login form is to be sent.
    Submit(FormPost),
    /// The first page of the application is visited.
    Landing,
    /// The settings of the application are visited.
    Settings,
    /// The session cookie is looked for.
    FirstCheck,
    /// A request is made that may activate the session.
    Probe,
    /// The cookies that the request brought are to be saved.
    ProbeSave,
    /// The session cookie is looked for once more.
    SecondCheck,
    /// The cookies are to be saved; the session has this cookie.
    Save(Cookie),
    /// The end.
    Finished(Result<Cookie, Failure>),
}

/// The request that may activate a session.
pub open spec fn probe_request() -> RequestView {
    RequestView { url: SESSION_PROBE_URL@, payload: JsonView::Object(seq![]) }
}

impl LoginState {
    /// What the login does next.
    pub open spec fn pending(self) -> ActionView {
        match self {
            LoginState::Start => ActionView::Fetch(login_address()),
            LoginState::Submit(post) => ActionView::Submit(post.url@, post.body@),
            LoginState::Landing => ActionView::Fetch(WEEKSYSTEM_APP_URL@),
            LoginState::Settings => ActionView::Fetch(WEEKSYSTEM_CONFIG_URL@),
            LoginState::FirstCheck => ActionView::ReadCookies,
            LoginState::Probe => ActionView::Post(probe_request()),
            LoginState::ProbeSave => ActionView::SaveCookies,
            LoginState::SecondCheck => ActionView::ReadCookies,
            LoginState::Save(_) => ActionView::SaveCookies,
            LoginState::Finished(_) => ActionView::Nothing,
        }
    }
}

/// Whether a look for the session cookie leads to a state: to saving the cookies where the
/// cookie holds a ticket, and elsewhere otherwise.
pub open spec fn checked(
    found: Option<CookieView>,
    otherwise: LoginState,
    after: LoginState,
) -> bool {
    if ticketed(found) {
        after matches LoginState::Save(c) && Some(c@) == found
    } else {
        after == otherwise
    }
}

/// Whether an event leads a login from one state to another. An event that does not answer the
/// pending action changes nothing.
pub open spec fn login_step(
    account: Account,
    before: LoginState,
    event: Event,
    after: LoginState,
) -> bool {
    match before {
        LoginState::Start => match event {
            Event::Page { final_url, body } => match after {
                LoginState::Submit(post) => answers_page(
                    account,
                    final_url@,
                    body@,
                    Ok(Some(post)),
                ),
                LoginState::Landing => answers_page(account, final_url@, body@, Ok(None)),
                LoginState::Finished(Err(e)) => answers_page(account, final_url@, body@, Err(e)),
                _ => false,
            },
            Event::Failed(m) => after == LoginState::Finished(Err(Failure::Outside(m))),
            _ => after == before,
        },
        LoginState::Submit(_) => match event {
            Event::Page { .. } => after is Landing,
            Event::Failed(m) => after == LoginState::Finished(Err(Failure::Outside(m))),
            _ => after == before,
        },
        LoginState::Landing => match event {
            Event::Page { .. } => after is Settings,
            Event::Failed(_) => after is Settings,
            _ => after == before,
        },
        LoginState::Settings => match event {
            Event::Page { .. } => after is FirstCheck,
            Event::Failed(_) => after is FirstCheck,
            _ => after == before,
        },
        LoginState::FirstCheck => match event {
            Event::Cookies { header, stored } => checked(
                session_cookie_of(opt_text(header), stored@),
                LoginState::Probe,
                after,
            ),
            Event::Failed(m) => after == LoginState::Finished(Err(Failure::Outside(m))),
            _ => after == before,
        },
        LoginState::Probe => match event {
            Event::Reply(reply) => if is_accepted(reply@) {
                after is ProbeSave
            } else {
                after is SecondCheck
            },
            Event::Failed(_) => after is SecondCheck,
            _ => after == before,
        },
        LoginState::ProbeSave => match event {
            Event::Done => after is SecondCheck,
            Event::Failed(_) => after is SecondCheck,
            _ => after == before,
        },
        LoginState::SecondCheck => match event {
            Event::Cookies { header, stored } => checked(
                session_cookie_of(opt_text(header), stored@),
                LoginState::Finished(Err(Failure::NotActivated)),
                after,
            ),
            Event::Failed(m) => after == LoginState::Finished(Err(Failure::Outside(m))),
            _ => after == before,
        },
        LoginState::Save(cookie) => match event {
            Event::Done => after == LoginState::Finished(Ok(cookie)),
            Event::Failed(m) => after == LoginState::Finished(Err(Failure::Outside(m))),
            _ => after == before,
        },
        LoginState::Finished(_) => after == before,
    }
}

fn copy_form(post: &FormPost) -> (r: FormPost)
    ensures
        r.url@ == post.url@,
        r.body@ == post.body@,
{
    FormPost { url: post.url.clone(), body: post.body.clone() }
}

/// Finds the session cookie among cookies.
fn find_cookie(header: &Option<String>, stored: &Vec<StoredCookie>) -> (r: Option<Cookie>)
    ensures
        opt_cookie(r) == session_cookie_of(opt_text(*header), stored@),
{
    match header {
        Some(h) => session_cookie(Some(h.as_str()), stored),
        None => session_cookie(None, stored),
    }
}

/// Looks for the session cookie.
fn check_cookies(header: &Option<String>, stored: &Vec<StoredCookie>, otherwise: LoginState) -> (r:
    LoginState)
    ensures
        checked(session_cookie_of(opt_text(*header), stored@), otherwise, r),
{
    match find_cookie(header, stored) {
        Some(cookie) => if has_ticket(cookie.value.as_str()) {
            LoginState::Save(cookie)
        } else {
            otherwise
        },
        None => otherwise,
    }
}

impl LoginState {
    /// Gives what the login does next.
    pub fn action(&self) -> (r: Action)
        ensures
            r@ == self.pending(),
    {
        match self {
            LoginState::Start => Action::Fetch(default_login_url()),
            LoginState::Submit(post) => Action::Submit(copy_form(post)),
            LoginState::Landing => Action::Fetch(WEEKSYSTEM_APP_URL.to_string()),
            LoginState::Settings => Action::Fetch(WEEKSYSTEM_CONFIG_URL.to_string()),
            LoginState::FirstCheck => Action::ReadCookies,
            LoginState::Probe => {
                let fields: Vec<(String, Json)> = Vec::new();
                assert(fields_view(fields@) =~= seq![]);
                Action::Post(Request { url: SESSION_PROBE_URL, payload: Json::object(fields) })
            },
            LoginState::ProbeSave => Action::SaveCookies,
            LoginState::SecondCheck => Action::ReadCookies,
            LoginState::Save(_) => Action::SaveCookies,
            LoginState::Finished(_) => Action::Nothing,
        }
    }

    /// Takes the login one step further.
    pub fn advance(self, account: &Account, event: Event) -> (r: LoginState)
        ensures
            login_step(*account, self, event, r),
    {
        match self {
            LoginState::Start => match event {
                Event::Page { final_url, body } => {
                    match answer_login_page(account, final_url.as_str(), body.as_str()) {
                        Ok(Some(post)) => LoginState::Submit(post),
                        Ok(None) => LoginState::Landing,
                        Err(e) => LoginState::Finished(Err(e)),
                    }
                },
                Event::Failed(m) => LoginState::Finished(Err(Failure::Outside(m))),
                _ => LoginState::Start,
            },
            LoginState::Submit(post) => match event {
                Event::Page { .. } => LoginState::Landing,
                Event::Failed(m) => LoginState::Finished(Err(Failure::Outside(m))),
                _ => LoginState::Submit(post),
            },
            LoginState::Landing => match event {
                Event::Page { .. } => LoginState::Settings,
                Event::Failed(_) => LoginState::Settings,
                _ => LoginState::Landing,
            },
            LoginState::Settings => match event {
                Event::Page { .. } => LoginState::FirstCheck,
                Event::Failed(_) => LoginState::FirstCheck,
                _ => LoginState::Settings,
            },
            LoginState::FirstCheck => match event {
                Event::Cookies { header, stored } => check_cookies(
                    &header,
                    &stored,
                    LoginState::Probe,
                ),
                Event::Failed(m) => LoginState::Finished(Err(Failure::Outside(m))),
                _ => LoginState::FirstCheck,
            },
            LoginState::Probe => match event {
                Event::Reply(reply) => match check_reply(&reply) {
                    Ok(_) => LoginState::ProbeSave,
                    Err(_) => LoginState::SecondCheck,
                },
                Event::Failed(_) => LoginState::SecondCheck,
                _ => LoginState::Probe,
            },
            LoginState::ProbeSave => match event {
                Event::Done => LoginState::SecondCheck,
                Event::Failed(_) => LoginState::SecondCheck,
                _ => LoginState::ProbeSave,
            },
            LoginState::SecondCheck => match event {
                Event::Cookies { header, stored } => check_cookies(
                    &header,
                    &stored,
                    LoginState::Finished(Err(Failure::NotActivated)),
                ),
                Event::Failed(m) => LoginState::Finished(Err(Failure::Outside(m))),
                _ => LoginState::SecondCheck,
            },
            LoginState::Save(cookie) => match event {
                Event::Done => LoginState::Finished(Ok(cookie)),
                Event::Failed(m) => LoginState::Finished(Err(Failure::Outside(m))),
                _ => LoginState::Save(cookie),
            },
            LoginState::Finished(r) => LoginState::Finished(r),
        }
    }
}

/// How many actions a login takes at most before it ends.
pub open spec fn login_actions_left(state: LoginState) -> nat {
    match state {
        LoginState::Start => 9,
        LoginState::Submit(_) => 8,
        LoginState::Landing => 7,
        LoginState::Settings => 6,
        LoginState::FirstCheck => 5,
        LoginState::Probe => 4,
        LoginState::ProbeSave => 3,
        LoginState::SecondCheck => 2,
        LoginState::Save(_) => 1,
        LoginState::Finished(_) => 0,
    }
}

/// Every answered action brings a login nearer to its end, so that a login takes nine actions at
/// most.
pub proof fn login_comes_to_an_end(
    account: Account,
    before: LoginState,
    event: Event,
    after: LoginState,
)
    requires
        login_step(account, before, event, after),
        before.pending().answered_by(event),
    ensures
        login_actions_left(after) < login_actions_left(before),
{
}

/// Whether a login passes through states, from its start, as events come in.
pub open spec fn login_run(account: Account, states: Seq<LoginState>, events: Seq<Event>) -> bool {
    &&& states.len() == events.len() + 1
    &&& states[0] is Start
    &&& forall|i: int|
        0 <= i < events.len() ==> login_step(
            account,
            #[trigger] states[i],
            events[i],
            states[i + 1],
        )
}

/// Whether the cookie that a state of a login holds, if it holds one, has a ticket.
pub open spec fn holds_ticket(state: LoginState) -> bool {
    match state {
        LoginState::Save(c) => ticketed(Some(c@)),
        LoginState::Finished(Ok(c)) => ticketed(Some(c@)),
        _ => true,
    }
}

/// A login that ends well ends with a cookie that holds a ticket.
pub proof fn login_leaves_a_ticket(account: Account, states: Seq<LoginState>, events: Seq<Event>)
    requires
        login_run(account, states, events),
    ensures
        states.last() matches LoginState::Finished(Ok(c)) ==> ticketed(Some(c@)),
{
    login_holds_tickets(account, states, events, events.len() as int);
}

proof fn login_holds_tickets(account: Account, states: Seq<LoginState>, events: Seq<Event>, n: int)
    requires
        login_run(account, states, events),
        0 <= n <= events.len(),
    ensures
        holds_ticket(states[n]),
    decreases n,
{
    if n > 0 {
        login_holds_tickets(account, states, events, n - 1);
        assert(login_step(account, states[n - 1], events[n - 1], states[n]));
    }
}

/// A login ends well only by saving the cookies.
pub proof fn login_saves_before_it_ends(
    account: Account,
    before: LoginState,
    event: Event,
    cookie: Cookie,
)
    requires
        login_step(account, before, event, LoginState::Finished(Ok(cookie))),
        !(before is Finished),
    ensures
        before == LoginState::Save(cookie),
        event is Done,
{
}

/// Whether a login was asked to take an action in a step of its run, and an answer to it came.
pub open spec fn login_did(
    states: Seq<LoginState>,
    events: Seq<Event>,
    i: int,
    action: ActionView,
) -> bool {
    &&& 0 <= i < events.len()
    &&& states[i].pending() == action
    &&& action.answered_by(events[i])
}

/// The fetch of the first page of the application.
pub open spec fn fetch_of_application() -> ActionView {
    ActionView::Fetch("https://weeksystem.linker.cc/wap/index.html?v=1.2.5.5"@)
}

/// The fetch of the settings of the application.
pub open spec fn fetch_of_settings() -> ActionView {
    ActionView::Fetch("https://weeksystem.linker.cc/statics/config.json"@)
}

/// The request without contents that may activate a session.
pub open spec fn post_of_probe() -> ActionView {
    ActionView::Post(
        RequestView {
            url: "https://weeksystem.linker.cc/api/Index/getProjectListByAdmin"@,
            payload: JsonView::Object(seq![]),
        },
    )
}

/// Whether the application and its settings were visited, in this order, before step `n`.
pub open spec fn visited_before(states: Seq<LoginState>, events: Seq<Event>, n: int) -> bool {
    exists|a: int, b: int| #[trigger]
        login_did(states, events, a, fetch_of_application()) && #[trigger] login_did(
            states,
            events,
            b,
            fetch_of_settings(),
        ) && a < b < n
}

/// Whether the application and its settings were visited and the probe was sent, in this order,
/// before step `n`.
pub open spec fn probed_before(states: Seq<LoginState>, events: Seq<Event>, n: int) -> bool {
    exists|a: int, b: int, c: int| #[trigger]
        login_did(states, events, a, fetch_of_application()) && #[trigger] login_did(
            states,
            events,
            b,
            fetch_of_settings(),
        ) && #[trigger] login_did(states, events, c, post_of_probe()) && a < b < c < n
}

/// Whether a login has ended well.
pub open spec fn ends_well(state: LoginState) -> bool {
    state matches LoginState::Finished(Ok(_))
}

#[verifier::rlimit(40)]
proof fn login_goes_its_way(account: Account, states: Seq<LoginState>, events: Seq<Event>, n: int)
    requires
        login_run(account, states, events),
        0 <= n <= events.len(),
    ensures
        states[n] is Settings ==> exists|a: int| #[trigger]
            login_did(states, events, a, fetch_of_application()) && a < n,
        states[n] is FirstCheck || states[n] is Probe || states[n] is Save || ends_well(states[n])
            ==> visited_before(states, events, n),
        states[n] is ProbeSave || states[n] is SecondCheck || states[n] == LoginState::Finished(
            Err(Failure::NotActivated),
        ) ==> probed_before(states, events, n),
    decreases n,
{
    if n > 0 {
        login_goes_its_way(account, states, events, n - 1);
        let before = states[n - 1];
        assert(login_step(account, before, events[n - 1], states[n]));
        match before {
            LoginState::Landing => {
                if states[n] != before {
                    assert(login_did(states, events, n - 1, fetch_of_application()));
                }
            },
            LoginState::Settings => {
                let a = choose|a: int| #[trigger]
                    login_did(states, events, a, fetch_of_application()) && a < n - 1;
                if states[n] != before {
                    assert(login_did(states, events, n - 1, fetch_of_settings()));
                    assert(login_did(states, events, a, fetch_of_application()));
                    assert(visited_before(states, events, n));
                }
            },
            LoginState::FirstCheck | LoginState::Save(_) | LoginState::Finished(Ok(_)) => {
                let (a, b) = choose|a: int, b: int| #[trigger]
                    login_did(states, events, a, fetch_of_application()) && #[trigger] login_did(
                        states,
                        events,
                        b,
                        fetch_of_settings(),
                    ) && a < b < n - 1;
                assert(visited_before(states, events, n));
            },
            LoginState::Probe => {
                let (a, b) = choose|a: int, b: int| #[trigger]
                    login_did(states, events, a, fetch_of_application()) && #[trigger] login_did(
                        states,
                        events,
                        b,
                        fetch_of_settings(),
                    ) && a < b < n - 1;
                assert(visited_before(states, events, n));
                if states[n] != before {
                    assert(before.pending()->Post_0.payload =~= JsonView::Object(seq![]));
                    assert(login_did(states, events, n - 1, post_of_probe()));
                    assert(probed_before(states, events, n));
                }
            },
            LoginState::ProbeSave | LoginState::SecondCheck => {
                let (a, b, c) = choose|a: int, b: int, c: int| #[trigger]
                    login_did(states, events, a, fetch_of_application()) && #[trigger] login_did(
                        states,
                        events,
                        b,
                        fetch_of_settings(),
                    ) && #[trigger] login_did(states, events, c, post_of_probe()) && a < b < c < n
                        - 1;
                assert(probed_before(states, events, n));
                assert(visited_before(states, events, n));
            },
            LoginState::Finished(Err(_)) => {
                if before == LoginState::Finished(Err(Failure::NotActivated)) {
                    let (a, b, c) = choose|a: int, b: int, c: int| #[trigger]
                        login_did(states, events, a, fetch_of_application()) && #[trigger] login_did(
                            states,
                            events,
                            b,
                            fetch_of_settings(),
                        ) && #[trigger] login_did(states, events, c, post_of_probe()) && a < b < c
                            < n - 1;
                    assert(probed_before(states, events, n));
                }
            },
            _ => {},
        }
    }
}

/// A login fails for want of an active session only after it has fetched the first page of the
/// application, then its settings, and has then sent the probe, each with an answer. That holds
/// of a login that sent a form as of one that found none.
pub proof fn login_gives_up_only_after_the_probe(
    account: Account,
    states: Seq<LoginState>,
    events: Seq<Event>,
)
    requires
        login_run(account, states, events),
        states.last() == LoginState::Finished(Err(Failure::NotActivated)),
    ensures
        probed_before(states, events, events.len() as int),
{
    login_goes_its_way(account, states, events, events.len() as int);
}

/// A login ends well only after it has fetched the first page of the application and then its
/// settings, each with an answer.
pub proof fn login_visits_the_application(
    account: Account,
    states: Seq<LoginState>,
    events: Seq<Event>,
)
    requires
        login_run(account, states, events),
        ends_well(states.last()),
    ensures
        visited_before(states, events, events.len() as int),
{
    login_goes_its_way(account, states, events, events.len() as int);
}

/// Whether, before step `n`, the login page came, and the form on it, if it has one, was filled in
/// and sent, and a page came back.
pub open spec fn form_sent_before(
    account: Account,
    states: Seq<LoginState>,
    events: Seq<Event>,
    n: int,
) -> bool {
    exists|i: int|
        {
            &&& 0 <= i < n
            &&& #[trigger] states[i].pending() == ActionView::Fetch(login_address())
            &&& events[i] matches Event::Page { final_url, body }
            &&& match page_form(final_url@, body@) {
                None => true,
                Some(Err(_)) => false,
                Some(Ok(form)) => exists|j: int, post: FormPost|
                    {
                        &&& i < j < n
                        &&& #[trigger] states[j].pending() == ActionView::Submit(
                            post.url@,
                            post.body@,
                        )
                        &&& #[trigger] answers_form(account, form, post)
                        &&& events[j] is Page
                    },
            }
        }
}

/// Whether the login page came in step `i` with a form that a post answers.
spec fn form_found(
    account: Account,
    states: Seq<LoginState>,
    events: Seq<Event>,
    i: int,
    post: FormPost,
) -> bool {
    &&& states[i].pending() == ActionView::Fetch(login_address())
    &&& events[i] matches Event::Page { final_url, body }
    &&& page_form(final_url@, body@) matches Some(Ok(form))
    &&& answers_form(account, form, post)
}

proof fn form_stays_sent(
    account: Account,
    states: Seq<LoginState>,
    events: Seq<Event>,
    n: int,
)
    requires
        form_sent_before(account, states, events, n),
    ensures
        form_sent_before(account, states, events, n + 1),
{
    let i = choose|i: int|
        {
            &&& 0 <= i < n
            &&& #[trigger] states[i].pending() == ActionView::Fetch(login_address())
            &&& events[i] matches Event::Page { final_url, body }
            &&& match page_form(final_url@, body@) {
                None => true,
                Some(Err(_)) => false,
                Some(Ok(form)) => exists|j: int, post: FormPost|
                    {
                        &&& i < j < n
                        &&& #[trigger] states[j].pending() == ActionView::Submit(
                            post.url@,
                            post.body@,
                        )
                        &&& #[trigger] answers_form(account, form, post)
                        &&& events[j] is Page
                    },
            }
        };
    assert(states[i].pending() == ActionView::Fetch(login_address()));
    if let Event::Page { final_url, body } = events[i] {
        if let Some(Ok(form)) = page_form(final_url@, body@) {
            let (j, post) = choose|j: int, post: FormPost|
                {
                    &&& i < j < n
                    &&& #[trigger] states[j].pending() == ActionView::Submit(post.url@, post.body@)
                    &&& #[trigger] answers_form(account, form, post)
                    &&& events[j] is Page
                };
            assert(i < j < n + 1 && states[j].pending() == ActionView::Submit(post.url@, post.body@)
                && answers_form(account, form, post) && events[j] is Page);
        }
    }
}

#[verifier::rlimit(40)]
proof fn form_is_sent(account: Account, states: Seq<LoginState>, events: Seq<Event>, n: int)
    requires
        login_run(account, states, events),
        0 <= n <= events.len(),
    ensures
        states[n] matches LoginState::Submit(post) ==> exists|i: int|
            0 <= i < n && #[trigger] form_found(account, states, events, i, post),
        !(states[n] is Start) && !(states[n] is Submit) && !(states[n] is Finished) || ends_well(
            states[n],
        ) ==> form_sent_before(account, states, events, n),
    decreases n,
{
    if n > 0 {
        form_is_sent(account, states, events, n - 1);
        let before = states[n - 1];
        assert(login_step(account, before, events[n - 1], states[n]));
        match before {
            LoginState::Start => {
                assert(before.pending() == ActionView::Fetch(login_address()));
                if let LoginState::Submit(post) = states[n] {
                    assert(form_found(account, states, events, n - 1, post));
                } else if states[n] is Landing {
                    assert(form_sent_before(account, states, events, n));
                }
            },
            LoginState::Submit(post) => {
                let i = choose|i: int|
                    0 <= i < n - 1 && #[trigger] form_found(account, states, events, i, post);
                if states[n] == before {
                    assert(form_found(account, states, events, i, post));
                } else if states[n] is Landing {
                    assert(states[n - 1].pending() == ActionView::Submit(post.url@, post.body@));
                    assert(states[i].pending() == ActionView::Fetch(login_address()));
                    if let Event::Page { final_url, body } = events[i] {
                        if let Some(Ok(form)) = page_form(final_url@, body@) {
                            assert(answers_form(account, form, post));
                        }
                    }
                    assert(form_sent_before(account, states, events, n));
                }
            },
            LoginState::Finished(Err(_)) => {},
            _ => {
                form_stays_sent(account, states, events, n - 1);
            },
        }
    }
}

/// A login ends well only where the login page came and the form on it, if it has one, was filled
/// in for the account and sent to where it asks to be sent.
pub proof fn login_answers_the_form(account: Account, states: Seq<LoginState>, events: Seq<Event>)
    requires
        login_run(account, states, events),
        ends_well(states.last()),
    ensures
        form_sent_before(account, states, events, events.len() as int),
{
    form_is_sent(account, states, events, events.len() as int);
}

/// A cookie with a ticket is never overlooked: whenever the cookies are looked up and the session
/// cookie holds a ticket, the login goes on to save the cookies, and with them saved ends well
/// with this cookie.
pub proof fn login_takes_the_ticket(
    account: Account,
    before: LoginState,
    header: Option<String>,
    stored: Vec<StoredCookie>,
    after: LoginState,
    end: LoginState,
)
    requires
        before.pending() == ActionView::ReadCookies,
        login_step(account, before, Event::Cookies { header, stored }, after),
        ticketed(session_cookie_of(opt_text(header), stored@)),
        login_step(account, after, Event::Done, end),
    ensures
        after.pending() == ActionView::SaveCookies,
        end matches LoginState::Finished(Ok(c)) && Some(c@) == session_cookie_of(
            opt_text(header),
            stored@,
        ),
        end.pending() == ActionView::Nothing,
{
}

/// What ends a login with an error. A failure outside ends it with the message of the failure,
/// but not while it visits the application, its settings or the probe. A page ends it only where
/// the form on it cannot be filled in, and cookies only where they hold no ticket.
pub proof fn login_fails_for_a_reason(
    account: Account,
    before: LoginState,
    event: Event,
    e: Failure,
)
    requires
        login_step(account, before, event, LoginState::Finished(Err(e))),
        !(before is Finished),
    ensures
        before.pending() != fetch_of_application(),
        before.pending() != fetch_of_settings(),
        !(before.pending() is Post),
        !(before is ProbeSave),
        match event {
            Event::Failed(m) => e == Failure::Outside(m),
            Event::Page { final_url, body } => {
                &&& before.pending() == ActionView::Fetch(login_address())
                &&& page_refusal(account, final_url@, body@) == Some(e)
            },
            Event::Cookies { header, stored } => {
                &&& before.pending() is ReadCookies
                &&& e is NotActivated
                &&& !ticketed(session_cookie_of(opt_text(header), stored@))
            },
            _ => false,
        },
{
    assert(before is Start || before is Submit || before is FirstCheck || before is SecondCheck
        || before is Save);
    if before is Start {
        pages_differ();
    }
}

/// What follows what in a login, whether it is answered with what was asked for or with a failure:
/// the settings after the application, a look for the cookie after the settings, and after the
/// probe a second look, before which the cookies are saved where the probe was carried out.
#[verifier::rlimit(40)]
pub proof fn login_takes_one_step_after_another(
    account: Account,
    before: LoginState,
    event: Event,
    after: LoginState,
)
    requires
        login_step(account, before, event, after),
        before.pending().answered_by(event),
    ensures
        before.pending() == fetch_of_application() ==> after.pending() == fetch_of_settings(),
        before.pending() == fetch_of_settings() ==> after.pending() is ReadCookies,
        before.pending() is Post ==> after.pending() == (if event matches Event::Reply(reply)
            && is_accepted(reply@) {
            ActionView::SaveCookies
        } else {
            ActionView::ReadCookies
        }),
        before is ProbeSave ==> after.pending() is ReadCookies,
        before is Submit && event is Page ==> after.pending() == fetch_of_application(),
        before is FirstCheck && (event matches Event::Cookies { header, stored } && !ticketed(
            session_cookie_of(opt_text(header), stored@),
        )) ==> after.pending() == post_of_probe(),
        before is Start ==> before.pending() == ActionView::Fetch(login_address()) && (
        event matches Event::Page { final_url, body } ==> page_form(final_url@, body@) is None
            ==> after.pending() == fetch_of_application()),
{
    pages_differ();
    reveal_strlit("https://weeksystem.linker.cc/wap/index.html?v=1.2.5.5");
    reveal_strlit("https://weeksystem.linker.cc/statics/config.json");
    assert("https://weeksystem.linker.cc/wap/index.html?v=1.2.5.5"@[29] == 'w');
    assert("https://weeksystem.linker.cc/statics/config.json"@[29] == 's');
    assert(LoginState::Probe.pending()->Post_0.payload =~= JsonView::Object(seq![]));
}

/// The login page, the application and its settings have different addresses.
proof fn pages_differ()
    ensures
        login_address() != "https://weeksystem.linker.cc/wap/index.html?v=1.2.5.5"@,
        login_address() != "https://weeksystem.linker.cc/statics/config.json"@,
{
    reveal_strlit("https://login.linker.cc/login/login?service=");
    reveal_strlit("https://weeksystem.linker.cc/wap/index.html?v=1.2.5.5");
    reveal_strlit("https://weeksystem.linker.cc/statics/config.json");
    assert(login_address()[8] == 'l');
    assert("https://weeksystem.linker.cc/wap/index.html?v=1.2.5.5"@[8] == 'w');
    assert("https://weeksystem.linker.cc/statics/config.json"@[8] == 'w');
}

// ---------------------------------------------------------------------------
// Session
// ---------------------------------------------------------------------------
/// How far it has come that there is a session.
pub enum SessionState {
    /// The session cookie is looked for.
    Check,
    /// There is none: a login proceeds.
    Login(LoginState),
    /// The end.
    Finished(Result<Cookie, Failure>),
}

/// Where a session stands when its login has come to a state.
pub open spec fn session_at(login: LoginState) -> SessionState {
    match login {
        LoginState::Finished(r) => SessionState::Finished(r),
        _ => SessionState::Login(login),
    }
}

/// Whether an event leads a session from one state to another: a session cookie is enough, with
/// or without a ticket, and a login is made only where there is none.
pub open spec fn session_step(
    account: Account,
    before: SessionState,
    event: Event,
    after: SessionState,
) -> bool {
    match before {
        SessionState::Check => match event {
            Event::Cookies { header, stored } => match session_cookie_of(
                opt_text(header),
                stored@,
            ) {
                Some(found) => after matches SessionState::Finished(Ok(c)) && c@ == found,
                None => after == SessionState::Login(LoginState::Start),
            },
            Event::Failed(m) => after == SessionState::Finished(Err(Failure::Outside(m))),
            _ => after == before,
        },
        SessionState::Login(login) => exists|next: LoginState| #[trigger]
            login_step(account, login, event, next) && after == session_at(next),
        SessionState::Finished(_) => after == before,
    }
}

impl SessionState {
    /// What is done next.
    pub open spec fn pending(self) -> ActionView {
        match self {
            SessionState::Check => ActionView::ReadCookies,
            SessionState::Login(login) => login.pending(),
            SessionState::Finished(_) => ActionView::Nothing,
        }
    }

    /// Gives what is done next.
    pub fn action(&self) -> (r: Action)
        ensures
            r@ == self.pending(),
    {
        match self {
            SessionState::Check => Action::ReadCookies,
            SessionState::Login(login) => login.action(),
            SessionState::Finished(_) => Action::Nothing,
        }
    }

    /// Goes one step further.
    pub fn advance(self, account: &Account, event: Event) -> (r: SessionState)
        ensures
            session_step(*account, self, event, r),
    {
        match self {
            SessionState::Check => match event {
                Event::Cookies { header, stored } => match find_cookie(&header, &stored) {
                    Some(cookie) => SessionState::Finished(Ok(cookie)),
                    None => SessionState::Login(LoginState::Start),
                },
                Event::Failed(m) => SessionState::Finished(Err(Failure::Outside(m))),
                _ => SessionState::Check,
            },
            SessionState::Login(login) => {
                let next = login.advance(account, event);
                assert(login_step(*account, login, event, next));
                match next {
                    LoginState::Finished(r) => SessionState::Finished(r),
                    other => SessionState::Login(other),
                }
            },
            SessionState::Finished(r) => SessionState::Finished(r),
        }
    }
}

/// How many actions it takes at most until there is a session.
pub open spec fn session_actions_left(state: SessionState) -> nat {
    match state {
        SessionState::Check => 10,
        SessionState::Login(login) => login_actions_left(login),
        SessionState::Finished(_) => 0,
    }
}

/// Every answered action brings a session nearer to its end, so that it takes ten actions at most.
pub proof fn session_comes_to_an_end(
    account: Account,
    before: SessionState,
    event: Event,
    after: SessionState,
)
    requires
        session_step(account, before, event, after),
        before.pending().answered_by(event),
    ensures
        session_actions_left(after) < session_actions_left(before),
{
    if let SessionState::Login(login) = before {
        let next = choose|next: LoginState| #[trigger]
            login_step(account, login, event, next) && after == session_at(next);
        login_comes_to_an_end(account, login, event, next);
    }
}

// ---------------------------------------------------------------------------
// Requests
// ---------------------------------------------------------------------------
/// How far a request has come.
pub enum Stage {
    /// The request is to be sent; `retry` tells whether a login may follow if it is refused for
    /// want of one.
    Ask { retry: bool },
    /// The request was carried out; the cookies are to be saved.
    Keep { reply: Json, retry: bool },
    /// A login proceeds, after which the request is sent again.
    Login(LoginState),
    /// The end.
    Finished(Result<Json, Failure>),
}

/// Whether a reply asks for a login, by its code or by its message.
pub open spec fn wants_login(reply: JsonView) -> bool {
    is_unauthorized(reply) || (!is_accepted(reply) && refusal_text(reply) == "AUTH_REQUIRED"@)
}

/// A reply asks for a login by the number 401 as its code, or by these words as what it says of a
/// refusal, and by nothing else.
pub proof fn replies_ask_for_a_login(reply: JsonView)
    requires
        reply.field("code"@) matches Some(JsonView::Negative(n)) ==> n < 0,
    ensures
        wants_login(reply) <==> reply.field("code"@) == Some(JsonView::Unsigned(401)) || (
        !is_accepted(reply) && refusal_text(reply) == "AUTH_REQUIRED"@),
{
}

/// Where a request stands when it failed with a message outside the library.
pub open spec fn stage_at_failure(retry: bool, message: String) -> Stage {
    if retry && message@ == "AUTH_REQUIRED"@ {
        Stage::Login(LoginState::Start)
    } else {
        Stage::Finished(Err(Failure::Outside(message)))
    }
}

/// Where a request stands when the login that it waits for has come to a state.
pub open spec fn stage_at(login: LoginState) -> Stage {
    match login {
        LoginState::Finished(Ok(_)) => Stage::Ask { retry: false },
        LoginState::Finished(Err(e)) => Stage::Finished(Err(e)),
        _ => Stage::Login(login),
    }
}

/// Whether an event leads a request from one stage to another.
pub open spec fn stage_step(account: Account, before: Stage, event: Event, after: Stage) -> bool {
    match before {
        Stage::Ask { retry } => match event {
            Event::Reply(reply) => if is_accepted(reply@) {
                after == (Stage::Keep { reply, retry })
            } else if retry && wants_login(reply@) {
                after == Stage::Login(LoginState::Start)
            } else {
                after matches Stage::Finished(Err(e)) && reply_means(reply@, Err(e))
            },
            Event::Failed(m) => after == stage_at_failure(retry, m),
            _ => after == before,
        },
        Stage::Keep { reply, retry } => match event {
            Event::Done => after == Stage::Finished(Ok(reply)),
            Event::Failed(m) => after == stage_at_failure(retry, m),
            _ => after == before,
        },
        Stage::Login(login) => exists|next: LoginState| #[trigger]
            login_step(account, login, event, next) && after == stage_at(next),
        Stage::Finished(_) => after == before,
    }
}

/// A request on its way.
pub struct Exchange {
    pub request: Request,
    pub stage: Stage,
}

/// Whether an event leads a request from one state to another.
pub open spec fn exchange_step(
    account: Account,
    before: Exchange,
    event: Event,
    after: Exchange,
) -> bool {
    after.request == before.request && stage_step(account, before.stage, event, after.stage)
}

impl Exchange {
    /// What is done next.
    pub open spec fn pending(self) -> ActionView {
        match self.stage {
            Stage::Ask { .. } => ActionView::Post(self.request@),
            Stage::Keep { .. } => ActionView::SaveCookies,
            Stage::Login(login) => login.pending(),
            Stage::Finished(_) => ActionView::Nothing,
        }
    }

    /// Whether this is a request that has not been sent yet.
    pub open spec fn asks(self, request: RequestView) -> bool {
        self.request@ == request && self.stage == (Stage::Ask { retry: true })
    }

    /// A request that has not been sent yet.
    pub fn new(request: Request) -> (r: Exchange)
        ensures
            r.request == request,
            r.stage == (Stage::Ask { retry: true }),
    {
        Exchange { request, stage: Stage::Ask { retry: true } }
    }

    /// Gives what is done next.
    pub fn action(&self) -> (r: Action)
        ensures
            r@ == self.pending(),
    {
        match &self.stage {
            Stage::Ask { .. } => Action::Post(
                Request { url: self.request.url, payload: self.request.payload.copy() },
            ),
            Stage::Keep { .. } => Action::SaveCookies,
            Stage::Login(login) => login.action(),
            Stage::Finished(_) => Action::Nothing,
        }
    }

    /// Goes one step further.
    pub fn advance(self, account: &Account, event: Event) -> (r: Exchange)
        ensures
            exchange_step(*account, self, event, r),
    {
        let stage = match self.stage {
            Stage::Ask { retry } => match event {
                Event::Reply(reply) => match check_reply(&reply) {
                    Ok(_) => Stage::Keep { reply, retry },
                    Err(e) => refused(retry, e),
                },
                Event::Failed(m) => refused(retry, Failure::Outside(m)),
                _ => Stage::Ask { retry },
            },
            Stage::Keep { reply, retry } => match event {
                Event::Done => Stage::Finished(Ok(reply)),
                Event::Failed(m) => refused(retry, Failure::Outside(m)),
                _ => Stage::Keep { reply, retry },
            },
            Stage::Login(login) => {
                let next = login.advance(account, event);
                assert(login_step(*account, login, event, next));
                match next {
                    LoginState::Finished(Ok(_)) => Stage::Ask { retry: false },
                    LoginState::Finished(Err(e)) => Stage::Finished(Err(e)),
                    other => Stage::Login(other),
                }
            },
            Stage::Finished(r) => Stage::Finished(r),
        };
        Exchange { request: self.request, stage }
    }
}

/// Where a request stands when it was refused.
fn refused(retry: bool, e: Failure) -> (r: Stage)
    ensures
        r == (if retry && e.asks_login() {
            Stage::Login(LoginState::Start)
        } else {
            Stage::Finished(Err(e))
        }),
{
    if retry && e.is_login_request() {
        Stage::Login(LoginState::Start)
    } else {
        Stage::Finished(Err(e))
    }
}

/// Whether the reply that a stage holds, if it holds one, says that the request was carried out.
pub open spec fn holds_accepted(stage: Stage) -> bool {
    match stage {
        Stage::Keep { reply, .. } => is_accepted(reply@),
        Stage::Finished(Ok(reply)) => is_accepted(reply@),
        _ => true,
    }
}

/// A reply is held only where it says that the request was carried out.
pub proof fn request_holds_accepted(
    account: Account,
    before: Exchange,
    event: Event,
    after: Exchange,
)
    requires
        exchange_step(account, before, event, after),
        holds_accepted(before.stage),
    ensures
        holds_accepted(after.stage),
{
}

/// Whether a request passes through stages, from its start, as events come in.
pub open spec fn exchange_run(account: Account, stages: Seq<Stage>, events: Seq<Event>) -> bool {
    &&& stages.len() == events.len() + 1
    &&& stages[0] == (Stage::Ask { retry: true })
    &&& forall|i: int|
        0 <= i < events.len() ==> stage_step(
            account,
            #[trigger] stages[i],
            events[i],
            stages[i + 1],
        )
}

/// How often a request was sent, with a reply or a failure, in the first `n` steps.
pub open spec fn times_sent(stages: Seq<Stage>, events: Seq<Event>, n: int) -> nat
    decreases n,
{
    if n <= 0 {
        0
    } else {
        let now = stages[n - 1] is Ask && (events[n - 1] is Reply || events[n - 1] is Failed);
        times_sent(stages, events, n - 1) + if now {
            1nat
        } else {
            0
        }
    }
}

/// How often a login was begun in the first `n` steps.
pub open spec fn logins_begun(stages: Seq<Stage>, n: int) -> nat
    decreases n,
{
    if n <= 0 {
        0
    } else {
        let now = stages[n] is Login && !(stages[n - 1] is Login);
        logins_begun(stages, n - 1) + if now {
            1nat
        } else {
            0
        }
    }
}

spec fn sends_left(stage: Stage) -> nat {
    match stage {
        Stage::Ask { retry } => if retry {
            2
        } else {
            1
        },
        Stage::Keep { retry, .. } => if retry {
            1
        } else {
            0
        },
        Stage::Login(_) => 1,
        Stage::Finished(_) => 0,
    }
}

spec fn logins_left(stage: Stage) -> nat {
    match stage {
        Stage::Ask { retry } => if retry {
            1
        } else {
            0
        },
        Stage::Keep { retry, .. } => if retry {
            1
        } else {
            0
        },
        _ => 0,
    }
}

proof fn exchange_counts(account: Account, stages: Seq<Stage>, events: Seq<Event>, n: int)
    requires
        exchange_run(account, stages, events),
        0 <= n <= events.len(),
    ensures
        times_sent(stages, events, n) + sends_left(stages[n]) <= 2,
        logins_begun(stages, n) + logins_left(stages[n]) <= 1,
        holds_accepted(stages[n]),
    decreases n,
{
    if n > 0 {
        exchange_counts(account, stages, events, n - 1);
        assert(stage_step(account, stages[n - 1], events[n - 1], stages[n]));
    }
}

/// A request is sent twice at most, with one login at most between the two.
pub proof fn request_is_sent_twice_at_most(
    account: Account,
    stages: Seq<Stage>,
    events: Seq<Event>,
)
    requires
        exchange_run(account, stages, events),
    ensures
        times_sent(stages, events, events.len() as int) <= 2,
        logins_begun(stages, events.len() as int) <= 1,
{
    exchange_counts(account, stages, events, events.len() as int);
}

/// A request that ends well ends with a reply that says that it was carried out.
pub proof fn request_ends_with_an_accepted_reply(
    account: Account,
    stages: Seq<Stage>,
    events: Seq<Event>,
)
    requires
        exchange_run(account, stages, events),
    ensures
        stages.last() matches Stage::Finished(Ok(reply)) ==> is_accepted(reply@),
{
    exchange_counts(account, stages, events, events.len() as int);
}

/// A reply that refuses a request without asking for a login ends it, with what the reply says
/// as the error.
pub proof fn refusal_ends_a_request(account: Account, retry: bool, reply: Json, after: Stage)
    requires
        stage_step(account, Stage::Ask { retry }, Event::Reply(reply), after),
        !is_accepted(reply@),
        !wants_login(reply@),
    ensures
        after matches Stage::Finished(Err(Failure::Refused(t))) && t@ == refusal_text(reply@),
{
}

/// A request ends well only with the reply that came when it was sent.
pub proof fn request_ends_with_its_own_reply(
    account: Account,
    stages: Seq<Stage>,
    events: Seq<Event>,
    reply: Json,
)
    requires
        exchange_run(account, stages, events),
        stages.last() == Stage::Finished(Ok(reply)),
    ensures
        exists|i: int|
            0 <= i < events.len() && #[trigger] stages[i] is Ask && events[i] == Event::Reply(
                reply,
            ),
{
    own_reply(account, stages, events, events.len() as int);
}

proof fn own_reply(account: Account, stages: Seq<Stage>, events: Seq<Event>, n: int)
    requires
        exchange_run(account, stages, events),
        0 <= n <= events.len(),
    ensures
        stages[n] matches Stage::Keep { reply, .. } ==> exists|i: int|
            0 <= i < n && #[trigger] stages[i] is Ask && events[i] == Event::Reply(reply),
        stages[n] matches Stage::Finished(Ok(reply)) ==> exists|i: int|
            0 <= i < n && #[trigger] stages[i] is Ask && events[i] == Event::Reply(reply),
    decreases n,
{
    if n > 0 {
        own_reply(account, stages, events, n - 1);
        assert(stage_step(account, stages[n - 1], events[n - 1], stages[n]));
        if stages[n - 1] is Ask {
            assert(stages[n - 1] is Ask);
        }
    }
}

/// A request ends well only by saving the cookies. Where they cannot be saved it fails with the
/// message that says why, unless that asks for a login.
pub proof fn request_saves_before_it_ends(
    account: Account,
    before: Exchange,
    event: Event,
    after: Exchange,
)
    requires
        exchange_step(account, before, event, after),
        !(before.stage is Finished),
    ensures
        after.stage matches Stage::Finished(Ok(_)) ==> before.pending() is SaveCookies
            && event is Done,
        before.stage is Keep ==> (event matches Event::Failed(m) ==> m@ != "AUTH_REQUIRED"@
            ==> after.stage == Stage::Finished(Err(Failure::Outside(m)))),
        after.request == before.request,
{
    if let Stage::Login(login) = before.stage {
        let step = choose|step: LoginState| #[trigger]
            login_step(account, login, event, step) && after.stage == stage_at(step);
    }
}

/// A session or a request that waits for a login fails as the login does, and goes on only when
/// the login has ended well.
pub proof fn failed_login_is_handed_on(
    account: Account,
    login: LoginState,
    event: Event,
    session: SessionState,
    stage: Stage,
    e: Failure,
)
    requires
        session_step(account, SessionState::Login(login), event, session),
        stage_step(account, Stage::Login(login), event, stage),
    ensures
        session == SessionState::Finished(Err(e)) ==> login_step(
            account,
            login,
            event,
            LoginState::Finished(Err(e)),
        ),
        stage == Stage::Finished(Err(e)) ==> login_step(
            account,
            login,
            event,
            LoginState::Finished(Err(e)),
        ),
        session matches SessionState::Finished(Ok(c)) ==> login_step(
            account,
            login,
            event,
            LoginState::Finished(Ok(c)),
        ),
        stage is Ask ==> exists|c: Cookie| #[trigger]
            login_step(account, login, event, LoginState::Finished(Ok(c))),
        !(stage matches Stage::Finished(Ok(_))) && !(stage is Keep),
        session matches SessionState::Login(next) ==> login_step(account, login, event, next),
        stage matches Stage::Login(next) ==> login_step(account, login, event, next),
{
    let a = choose|next: LoginState| #[trigger]
        login_step(account, login, event, next) && session == session_at(next);
    let b = choose|next: LoginState| #[trigger]
        login_step(account, login, event, next) && stage == stage_at(next);
    assert(login_step(account, login, event, a));
    assert(login_step(account, login, event, b));
}

/// What a request does next: it is sent as it was given, the cookies are saved when it was carried
/// out, and when they are saved it ends well with the reply.
pub proof fn request_is_sent_and_kept(
    account: Account,
    before: Exchange,
    reply: Json,
    middle: Exchange,
    after: Exchange,
)
    requires
        before.stage is Ask,
        is_accepted(reply@),
        exchange_step(account, before, Event::Reply(reply), middle),
        exchange_step(account, middle, Event::Done, after),
    ensures
        before.pending() == ActionView::Post(before.request@),
        middle.pending() == ActionView::SaveCookies,
        after.stage == Stage::Finished(Ok(reply)),
        after.pending() == ActionView::Nothing,
{
}

/// A request that is answered with a wish for a login is not lost: the first time, a login begins,
/// and when it has ended well the same request is sent again.
pub proof fn request_is_sent_again_after_a_login(
    account: Account,
    before: Exchange,
    event: Event,
    middle: Exchange,
    cookie: Cookie,
    waiting: Exchange,
    after: Exchange,
)
    requires
        before.stage == (Stage::Ask { retry: true }),
        match event {
            Event::Reply(reply) => !is_accepted(reply@) && (reply@.field("code"@) == Some(
                JsonView::Unsigned(401),
            ) || refusal_text(reply@) == "AUTH_REQUIRED"@),
            Event::Failed(m) => m@ == "AUTH_REQUIRED"@,
            _ => false,
        },
        exchange_step(account, before, event, middle),
        waiting.request == before.request,
        waiting.stage == Stage::Login(LoginState::Save(cookie)),
        exchange_step(account, waiting, Event::Done, after),
    ensures
        middle.pending() == ActionView::Fetch(login_address()),
        middle.request == before.request,
        after.pending() == ActionView::Post(before.request@),
{
    let step = choose|step: LoginState| #[trigger]
        login_step(account, LoginState::Save(cookie), Event::Done, step) && after.stage == stage_at(
            step,
        );
}

/// A request fails for want of a login only after it was sent twice, with a login between the two.
pub proof fn request_asks_for_a_login_once(
    account: Account,
    stages: Seq<Stage>,
    events: Seq<Event>,
)
    requires
        exchange_run(account, stages, events),
        stages.last() == Stage::Finished(Err(Failure::AuthRequired)),
    ensures
        times_sent(stages, events, events.len() as int) == 2,
        logins_begun(stages, events.len() as int) == 1,
{
    exchange_counts_exactly(account, stages, events, events.len() as int);
}

#[verifier::rlimit(40)]
proof fn exchange_counts_exactly(account: Account, stages: Seq<Stage>, events: Seq<Event>, n: int)
    requires
        exchange_run(account, stages, events),
        0 <= n <= events.len(),
    ensures
        match stages[n] {
            Stage::Ask { retry } => times_sent(stages, events, n) + sends_left(stages[n]) == 2
                && logins_begun(stages, n) + logins_left(stages[n]) == 1,
            Stage::Keep { retry, .. } => times_sent(stages, events, n) + sends_left(stages[n]) == 2
                && logins_begun(stages, n) + logins_left(stages[n]) == 1,
            Stage::Login(_) => times_sent(stages, events, n) == 1 && logins_begun(stages, n) == 1,
            Stage::Finished(Err(Failure::AuthRequired)) => times_sent(stages, events, n) == 2
                && logins_begun(stages, n) == 1,
            Stage::Finished(_) => true,
        },
    decreases n,
{
    if n > 0 {
        exchange_counts_exactly(account, stages, events, n - 1);
        assert(stage_step(account, stages[n - 1], events[n - 1], stages[n]));
        if let Stage::Login(login) = stages[n - 1] {
            let step = choose|step: LoginState| #[trigger]
                login_step(account, login, events[n - 1], step) && stages[n] == stage_at(step);
            if let LoginState::Finished(Err(e)) = step {
                if !(login is Finished) {
                    login_fails_for_a_reason(account, login, events[n - 1], e);
                    if let Event::Page { final_url, body } = events[n - 1] {
                        assert(!(page_refusal(account, final_url@, body@)->0 is AuthRequired));
                    }
                }
            }
        }
    }
}

/// A session cookie is enough for a session, with or without a ticket; a login begins only where
/// there is none.
pub proof fn session_is_taken_where_there_is_one(
    account: Account,
    header: Option<String>,
    stored: Vec<StoredCookie>,
    after: SessionState,
)
    requires
        session_step(account, SessionState::Check, Event::Cookies { header, stored }, after),
    ensures
        match session_cookie_of(opt_text(header), stored@) {
            Some(found) => after matches SessionState::Finished(Ok(c)) && c@ == found,
            None => after.pending() == ActionView::Fetch(login_address()),
        },
        SessionState::Check.pending() == ActionView::ReadCookies,
{
}

/// A session whose cookies cannot be looked up fails with the message that says why.
pub proof fn session_fails_without_cookies(account: Account, message: String, after: SessionState)
    requires
        session_step(account, SessionState::Check, Event::Failed(message), after),
    ensures
        after == SessionState::Finished(Err(Failure::Outside(message))),
{
}

/// How many actions a request takes at most before it ends.
pub open spec fn actions_left(stage: Stage) -> nat {
    match stage {
        Stage::Ask { retry } => if retry {
            13
        } else {
            2
        },
        Stage::Keep { retry, .. } => if retry {
            12
        } else {
            1
        },
        Stage::Login(login) => login_actions_left(login) + 2,
        Stage::Finished(_) => 0,
    }
}

/// Every answered action brings a request nearer to its end, so that a request takes thirteen
/// actions at most, a login included.
pub proof fn request_comes_to_an_end(
    account: Account,
    before: Exchange,
    event: Event,
    after: Exchange,
)
    requires
        exchange_step(account, before, event, after),
        before.pending().answered_by(event),
    ensures
        actions_left(after.stage) < actions_left(before.stage),
{
    if let Stage::Login(login) = before.stage {
        let next = choose|next: LoginState| #[trigger]
            login_step(account, login, event, next) && after.stage == stage_at(next);
        login_comes_to_an_end(account, login, event, next);
    }
}

} // verus!
