//! The decisions of the device login protocol: CSRF token, login form, session id,
//! and the order of the requests.

use vstd::prelude::*;
use crate::dialplans::opt_view;
use crate::grammar::{digit_run_end, is_digit, lemma_run_end, occurs_at_exec, run_end};
use crate::text::{chars_of, concat_chars, copy_range, occurs_at, string_of};

verus! {

/// What the HTML of `html` gives as attribute `attr` of the first element that CSS
/// selector `selector` picks out, if any.
pub uninterp spec fn first_attr(html: Seq<char>, selector: Seq<char>, attr: Seq<char>) -> Option<
    Seq<char>,
>;

/// Relies on scraper's `Html::parse_document`, `Selector::parse`, `Html::select` and
/// `Element::attr`: the value of `attr` on the first element that `selector` selects
/// in the parsed document; nothing where the selector does not parse.
#[verifier::external_body]
fn select_first_attr(html: &str, selector: &str, attr: &str) -> (r: Option<String>)
    ensures
        opt_view(r) == first_attr(html@, selector@, attr@),
{
    let doc = scraper::Html::parse_document(html);
    let sel = scraper::Selector::parse(selector).ok()?;
    doc.select(&sel).next().and_then(|e| e.value().attr(attr)).map(|v| v.to_string())
}

/// Why a device's session could not be established.
#[derive(Debug, Clone, PartialEq, Eq)]
pub enum AuthError {
    /// The index page holds no CSRF token field.
    MissingToken,
    /// The login redirect carries no `sid` cookie.
    MissingSessionId,
    /// The login answer was no redirect; its status.
    LoginRejected(u16),
}

/// The selector of the CSRF token field on the index page.
pub open spec fn token_selector() -> Seq<char> {
    "input[name=\"csrf-token\"]"@
}

/// The CSRF token that `index_page` carries in the `value` of its token field.
pub fn csrf_token(index_page: &str) -> (r: Result<String, AuthError>)
    ensures
        match first_attr(index_page@, token_selector(), "value"@) {
            Some(t) => r matches Ok(s) && s@ == t,
            None => r == Err::<String, AuthError>(AuthError::MissingToken),
        },
{
    token_outcome(select_first_attr(index_page, "input[name=\"csrf-token\"]", "value"))
}

/// The token that the token field gave, or `MissingToken` where there was none.
pub fn token_outcome(found: Option<String>) -> (r: Result<String, AuthError>)
    ensures
        match found {
            Some(t) => r matches Ok(s) && s@ == t@,
            None => r == Err::<String, AuthError>(AuthError::MissingToken),
        },
{
    match found {
        Some(t) => Ok(t),
        None => Err(AuthError::MissingToken),
    }
}

/// The form fields of the login request.
pub open spec fn login_form_view(username: Seq<char>, password: Seq<char>, token: Seq<char>) -> Seq<
    (Seq<char>, Seq<char>),
> {
    seq![
        ("username"@, username),
        ("password"@, password),
        ("last"@, "1"@),
        ("csrf_token"@, token),
    ]
}

/// The form fields of the login request: credentials, `last=1` and the CSRF token.
pub fn login_form(username: &str, password: &str, token: &str) -> (r: Vec<(String, String)>)
    ensures
        r@.map_values(|f: (String, String)| (f.0@, f.1@)) == login_form_view(
            username@,
            password@,
            token@,
        ),
{
    let mut r: Vec<(String, String)> = Vec::new();
    r.push((String::from_str("username"), String::from_str(username)));
    r.push((String::from_str("password"), String::from_str(password)));
    r.push((String::from_str("last"), String::from_str("1")));
    r.push((String::from_str("csrf_token"), String::from_str(token)));
    assert(r@.map_values(|f: (String, String)| (f.0@, f.1@)) =~= login_form_view(
        username@,
        password@,
        token@,
    ));
    r
}

/// The session id written in a cookie at `i`: `sid=` and a decimal integer.
pub open spec fn sid_at(v: Seq<char>, i: int) -> Option<Seq<char>> {
    let j = i + 4;
    if !occurs_at(v, "sid="@, i) || j >= v.len() {
        None
    } else if v[j] == '-' && j + 1 < v.len() && is_digit(v[j + 1]) {
        Some(v.subrange(j, run_end(v, j + 1)))
    } else if is_digit(v[j]) {
        Some(v.subrange(j, run_end(v, j)))
    } else {
        None
    }
}

/// The leftmost session id in `v` at or after `i`.
pub open spec fn sid_from(v: Seq<char>, i: int) -> Option<Seq<char>>
    decreases v.len() - i,
{
    if i < 0 || i >= v.len() {
        None
    } else if sid_at(v, i) is Some {
        sid_at(v, i)
    } else {
        sid_from(v, i + 1)
    }
}

/// The leftmost session id in cookie `v`.
pub open spec fn sid_in(v: Seq<char>) -> Option<Seq<char>> {
    sid_from(v, 0)
}

/// The session id of the first cookie among `cookies` that has one.
pub open spec fn first_sid(cookies: Seq<Seq<char>>) -> Option<Seq<char>>
    decreases cookies.len(),
{
    if cookies.len() == 0 {
        None
    } else if sid_in(cookies[0]) is Some {
        sid_in(cookies[0])
    } else {
        first_sid(cookies.drop_first())
    }
}

/// The leftmost session id in cookie `cookie`.
pub fn find_sid(cookie: &str) -> (r: Option<String>)
    ensures
        opt_view(r) == sid_in(cookie@),
{
    let v = chars_of(cookie);
    let marker = chars_of("sid=");
    proof {
        reveal_strlit("sid=");
    }
    let mut i: usize = 0;
    while i < v.len()
        invariant
            i <= v.len(),
            marker@ == "sid="@,
            v@ == cookie@,
            sid_from(v@, i as int) == sid_in(v@),
        decreases v.len() - i,
    {
        if occurs_at_exec(&v, &marker, i) && 4 < v.len() - i {
            let j = i + 4;
            if v[j] == '-' && j + 1 < v.len() && '0' <= v[j + 1] && v[j + 1] <= '9' {
                let e = digit_run_end(&v, j + 1);
                return Some(string_of(copy_range(&v, j, e).as_slice()));
            }
            if '0' <= v[j] && v[j] <= '9' {
                let e = digit_run_end(&v, j);
                return Some(string_of(copy_range(&v, j, e).as_slice()));
            }
        }
        i = i + 1;
    }
    None
}

pub open spec fn is_redirect(status: u16) -> bool {
    300 <= status <= 399
}

/// The session id that a login answer gives: a redirect whose `Set-Cookie` values
/// carry `sid=<integer>`.
pub fn session_id(status: u16, set_cookies: &Vec<String>) -> (r: Result<String, AuthError>)
    ensures
        !is_redirect(status) ==> r == Err::<String, AuthError>(AuthError::LoginRejected(status)),
        is_redirect(status) ==> match first_sid(set_cookies@.map_values(|c: String| c@)) {
            Some(s) => r matches Ok(v) && v@ == s,
            None => r == Err::<String, AuthError>(AuthError::MissingSessionId),
        },
{
    if !(300 <= status && status <= 399) {
        return Err(AuthError::LoginRejected(status));
    }
    let ghost views = set_cookies@.map_values(|c: String| c@);
    assert(views.subrange(0, views.len() as int) =~= views);
    let mut i: usize = 0;
    while i < set_cookies.len()
        invariant
            i <= set_cookies.len(),
            is_redirect(status),
            views == set_cookies@.map_values(|c: String| c@),
            first_sid(views.subrange(i as int, views.len() as int)) == first_sid(views),
        decreases set_cookies.len() - i,
    {
        assert(views.subrange(i as int, views.len() as int).drop_first() =~= views.subrange(
            i + 1,
            views.len() as int,
        ));
        match find_sid(set_cookies[i].as_str()) {
            Some(s) => {
                return Ok(s);
            },
            None => {},
        }
        i = i + 1;
    }
    Err(AuthError::MissingSessionId)
}

/// Why a device produced no dial plans.
#[derive(Debug, Clone, PartialEq, Eq)]
pub enum DeviceFailure {
    /// The device refused the session.
    Auth(AuthError),
    /// A request failed or timed out.
    Network,
}

/// Where the session with one device stands.
pub enum SessionState {
    Unauthenticated,
    TokenFetched { token: String },
    Authenticated { sid: String },
    Established { config: String },
    Failed { reason: DeviceFailure },
}

/// What the device answered to the last request.
pub enum Event {
    IndexPage { html: String },
    LoginAnswer { status: u16, set_cookies: Vec<String> },
    ConfigBody { text: String },
    NetworkFailure,
}

/// The request to send next.
pub enum Request {
    /// `GET /index.htm`.
    GetIndex,
    /// `POST /vs_login` with these form fields, not following redirects.
    PostLogin { form: Vec<(String, String)> },
    /// `GET /config.txt?sid=<sid>`.
    GetConfig { sid: String },
    /// Nothing more.
    Stop,
}

impl SessionState {
    pub open spec fn is_terminal(&self) -> bool {
        self is Established || self is Failed
    }
}

/// The first state of a session and its first request.
pub fn start() -> (r: (SessionState, Request))
    ensures
        r.0 is Unauthenticated,
        r.1 is GetIndex,
{
    (SessionState::Unauthenticated, Request::GetIndex)
}

/// The state after `event`, and the request to send next.
///
/// The index page must carry a CSRF token, else the session fails with
/// `MissingToken` and no login is sent. A login answer must be a redirect whose
/// cookies carry the session id, else the session fails. The configuration body
/// ends the session. A network failure ends any session that has not ended; an
/// event that does not fit the state changes nothing and asks for nothing.
pub fn advance(state: SessionState, event: Event, username: &str, password: &str) -> (r: (
    SessionState,
    Request,
))
    ensures
        !state.is_terminal() && event is NetworkFailure ==> r.0 == (SessionState::Failed {
            reason: DeviceFailure::Network,
        }) && r.1 is Stop,
        state is Unauthenticated && event is IndexPage ==> match first_attr(
            event->IndexPage_html@,
            token_selector(),
            "value"@,
        ) {
            None => r.0 == (SessionState::Failed {
                reason: DeviceFailure::Auth(AuthError::MissingToken),
            }) && r.1 is Stop,
            Some(t) => r.0 is TokenFetched && r.0->TokenFetched_token@ == t && r.1 is PostLogin
                && r.1->PostLogin_form@.map_values(|f: (String, String)| (f.0@, f.1@))
                == login_form_view(username@, password@, t),
        },
        state is TokenFetched && event is LoginAnswer ==> {
            let status = event->LoginAnswer_status;
            if !is_redirect(status) {
                r.0 == (SessionState::Failed {
                    reason: DeviceFailure::Auth(AuthError::LoginRejected(status)),
                }) && r.1 is Stop
            } else {
                match first_sid(event->LoginAnswer_set_cookies@.map_values(|c: String| c@)) {
                    None => r.0 == (SessionState::Failed {
                        reason: DeviceFailure::Auth(AuthError::MissingSessionId),
                    }) && r.1 is Stop,
                    Some(s) => r.0 is Authenticated && r.0->Authenticated_sid@ == s && r.1 is GetConfig
                        && r.1->GetConfig_sid@ == s,
                }
            }
        },
        state is Authenticated && event is ConfigBody ==> r.0 == (SessionState::Established {
            config: event->ConfigBody_text,
        }) && r.1 is Stop,
        !(state is Unauthenticated && event is IndexPage) && !(state is TokenFetched
            && event is LoginAnswer) && !(state is Authenticated && event is ConfigBody) && !(
        !state.is_terminal() && event is NetworkFailure) ==> r.0 == state && r.1 is Stop,
{
    match (state, event) {
        (SessionState::Unauthenticated, Event::IndexPage { html }) => match csrf_token(
            html.as_str(),
        ) {
            Ok(token) => {
                let form = login_form(username, password, token.as_str());
                (SessionState::TokenFetched { token }, Request::PostLogin { form })
            },
            Err(e) => (SessionState::Failed { reason: DeviceFailure::Auth(e) }, Request::Stop),
        },
        (SessionState::TokenFetched { .. }, Event::LoginAnswer { status, set_cookies }) => {
            match session_id(status, &set_cookies) {
                Ok(sid) => {
                    let q = sid.clone();
                    (SessionState::Authenticated { sid }, Request::GetConfig { sid: q })
                },
                Err(e) => (SessionState::Failed { reason: DeviceFailure::Auth(e) }, Request::Stop),
            }
        },
        (SessionState::Authenticated { .. }, Event::ConfigBody { text }) => (
            SessionState::Established { config: text },
            Request::Stop,
        ),
        (SessionState::Established { config }, _) => (
            SessionState::Established { config },
            Request::Stop,
        ),
        (SessionState::Failed { reason }, _) => (SessionState::Failed { reason }, Request::Stop),
        (_, Event::NetworkFailure) => (
            SessionState::Failed { reason: DeviceFailure::Network },
            Request::Stop,
        ),
        (st, _) => (st, Request::Stop),
    }
}

/// The address of a device's page at `path`, over HTTPS.
pub fn device_url(address: &str, path: &str) -> (r: String)
    ensures
        r@ == "https://"@ + address@ + path@,
{
    let a = String::from_str("https://");
    let b = a.concat(address);
    b.concat(path)
}

} // verus!
