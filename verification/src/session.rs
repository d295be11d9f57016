//! The states of a Symphony session, and the decisions taken while moving
//! between them: reading the login cookies, following redirects, and
//! finding the WebSocket address in the service configuration.

use vstd::prelude::*;

use crate::text::{has_prefix, starts_with};

pub mod state;

verus! {

/// What can go wrong in a session.
pub enum SessionError {
    Http(reqwest::Error),
    WebSockets(tokio_tungstenite::tungstenite::Error),
    AlreadyStreaming(tokio::sync::TryLockError),
    InvalidCredentials,
    UnexpectedValue(String),
}

/// The result of a session operation.
pub type Result<T> = std::result::Result<T, SessionError>;

/// The value of the first cookie named `sessionid`.
pub open spec fn session_cookie(cookies: Seq<(String, String)>) -> Option<Seq<char>>
    decreases cookies.len(),
{
    if cookies.len() == 0 {
        None
    } else if cookies[0].0@ == "sessionid"@ {
        Some(cookies[0].1@)
    } else {
        session_cookie(cookies.drop_first())
    }
}

/// The session id of a login is the value of the first cookie named
/// `sessionid`, wherever it stands among the cookies.
pub proof fn law_first_session_cookie_is_taken(cookies: Seq<(String, String)>, i: int)
    requires
        0 <= i < cookies.len(),
        cookies[i].0@ == "sessionid"@,
        forall|j: int| 0 <= j < i ==> cookies[j].0@ != "sessionid"@,
    ensures
        session_cookie(cookies) == Some(cookies[i].1@),
    decreases i,
{
    if i > 0 {
        let rest = cookies.drop_first();
        assert(cookies[0].0@ != "sessionid"@);
        assert forall|j: int| 0 <= j < i - 1 implies rest[j].0@ != "sessionid"@ by {
            assert(rest[j] == cookies[j + 1]);
        }
        law_first_session_cookie_is_taken(rest, i - 1);
    }
}

/// Without a cookie named `sessionid` there is no session id.
pub proof fn law_no_session_cookie(cookies: Seq<(String, String)>)
    requires
        forall|j: int| 0 <= j < cookies.len() ==> cookies[j].0@ != "sessionid"@,
    ensures
        session_cookie(cookies) is None,
    decreases cookies.len(),
{
    if cookies.len() > 0 {
        let rest = cookies.drop_first();
        assert(cookies[0].0@ != "sessionid"@);
        assert forall|j: int| 0 <= j < rest.len() implies rest[j].0@ != "sessionid"@ by {
            assert(rest[j] == cookies[j + 1]);
        }
        law_no_session_cookie(rest);
    }
}

/// The login form posts to the login page, which answers with a redirect;
/// redirects are followed unless they come from the login page itself, so
/// that the login reply (with its cookie) reaches the client.
pub fn should_stop_redirect(previous_path: Option<&str>) -> (r: bool)
    ensures
        r == (previous_path matches Some(p) && has_prefix(p@, "/account/login"@)),
{
    match previous_path {
        Some(p) => starts_with(p, "/account/login"),
        None => false,
    }
}

/// `"` or `'`.
pub open spec fn is_quote(c: char) -> bool {
    c == '"' || c == '\''
}

/// `p` stands in `t` at position `i`.
pub open spec fn occurs_at(t: Seq<char>, i: int, p: Seq<char>) -> bool {
    0 <= i && i + p.len() <= t.len() && t.subrange(i, i + p.len()) == p
}

/// The length of the scheme part (`wss://` or `ws://`) of a match of
/// `wss?://[^"']+` that starts at `i`, or 0 when none starts there.
pub open spec fn ws_head_len(t: Seq<char>, i: int) -> int {
    if occurs_at(t, i, "wss://"@) && i + 6 < t.len() && !is_quote(t[i + 6]) {
        6
    } else if occurs_at(t, i, "ws://"@) && i + 5 < t.len() && !is_quote(t[i + 5]) {
        5
    } else {
        0
    }
}

/// The first position at or after `i` where a match starts.
pub open spec fn first_ws_start(t: Seq<char>, i: int) -> Option<int>
    decreases t.len() - i,
{
    if i < 0 || i >= t.len() {
        None
    } else if ws_head_len(t, i) > 0 {
        Some(i)
    } else {
        first_ws_start(t, i + 1)
    }
}

/// The end of the run of non-quote characters that starts at `j`.
pub open spec fn quote_free_end(t: Seq<char>, j: int) -> int
    decreases t.len() - j,
{
    if j < 0 || j >= t.len() {
        t.len() as int
    } else if is_quote(t[j]) {
        j
    } else {
        quote_free_end(t, j + 1)
    }
}

/// The leftmost-first match of `wss?://[^"']+` in `t`: it starts at the
/// first position where a match can start, and the greedy `[^"']+` runs up
/// to the next quote or the end of the text.
pub open spec fn ws_uri_match(t: Seq<char>) -> Option<Seq<char>> {
    match first_ws_start(t, 0) {
        Some(i) => Some(t.subrange(i, quote_free_end(t, i + ws_head_len(t, i)))),
        None => None,
    }
}

/// `regex::Regex::find` with the pattern `wss?://[^"']+`: the first match
/// in `text` under the crate's leftmost-first, greedy semantics, which
/// `ws_uri_match` spells out for this pattern.
#[verifier::external_body]
fn find_ws_uri(text: &str) -> (r: Option<String>)
    ensures
        match ws_uri_match(text@) {
            Some(m) => r matches Some(s) && s@ == m,
            None => r is None,
        },
{
    let re = regex::Regex::new(r#"wss?://[^"']+"#).unwrap();
    match re.find(text) {
        Some(m) => Some(m.as_str().to_string()),
        None => None,
    }
}

/// What `url::Url::parse` makes of `s` (the WHATWG URL parser): the text
/// of the parsed URL (`Url::as_str`), or `None` when it refuses `s`.
pub uninterp spec fn url_parse(s: Seq<char>) -> Option<Seq<char>>;

/// `url::Url::parse`: parses `s`, and hands out the parsed URL as its
/// text, which is the form in which the library holds URLs.
#[verifier::external_body]
fn parse_url(s: &str) -> (r: std::result::Result<String, url::ParseError>)
    ensures
        match url_parse(s@) {
            Some(t) => r matches Ok(u) && u@ == t,
            None => r is Err,
        },
{
    match url::Url::parse(s) {
        Ok(u) => Ok(u.into()),
        Err(e) => Err(e),
    }
}

/// What `url::Url::set_query` makes of the URL that `url` parses to, with
/// the query `query`: the text of the changed URL, or `None` when `url`
/// does not parse.
pub uninterp spec fn url_with_query(url: Seq<char>, query: Seq<char>) -> Option<Seq<char>>;

/// The `Debug` form of a URL parse error (`format!("{:?}", e)`).  Nothing
/// is claimed of the text.
#[verifier::external_body]
fn url_error_debug(e: &url::ParseError) -> String {
    format!("{:?}", e)
}

/// `url::Url::set_query` on the URL that the text `url` parses to (the
/// library holds URLs as text, so the text is turned back into a
/// `url::Url` first): the text of the URL with its query replaced by
/// `query`; `None` exactly when `url` does not parse.
#[verifier::external_body]
fn url_set_query(url: &str, query: &str) -> (r: Option<String>)
    ensures
        r matches Some(t) ==> url_with_query(url@, query@) == Some(t@),
        r is None ==> url_with_query(url@, query@) is None,
        r is Some == url_parse(url@) is Some,
{
    match url::Url::parse(url) {
        Ok(mut u) => {
            u.set_query(Some(query));
            Some(u.into())
        },
        Err(_) => None,
    }
}

/// The WebSocket address that the service configuration `config_text`
/// (fetched from `config_uri`) names: the first `ws://` or `wss://` URL in
/// it, up to the next quote, as `url::Url::parse` gives it back.  Fails
/// with `UnexpectedValue` when there is none, or when it does not parse as
/// a URL.
pub fn websockets_uri(config_text: &str, config_uri: &str) -> (r: Result<String>)
    ensures
        match ws_uri_match(config_text@) {
            None => r matches Err(SessionError::UnexpectedValue(m)) && m@
                == "Could not find wss://* URI in "@ + config_uri@,
            Some(u) => match url_parse(u) {
                Some(t) => r matches Ok(s) && s@ == t,
                None => r matches Err(SessionError::UnexpectedValue(m)) && exists|d: Seq<char>|
                    m@ == "Could not parse URI ("@ + d + "): "@ + u,
            },
        },
{
    match find_ws_uri(config_text) {
        None => {
            let mut m = String::from_str("Could not find wss://* URI in ");
            m.append(config_uri);
            Err(SessionError::UnexpectedValue(m))
        },
        Some(u) => match parse_url(u.as_str()) {
            Ok(url) => Ok(url),
            Err(e) => {
                let d = url_error_debug(&e);
                let mut m = String::from_str("Could not parse URI (");
                m.append(d.as_str());
                m.append("): ");
                m.append(u.as_str());
                assert(m@ == "Could not parse URI ("@ + d@ + "): "@ + u@);
                Err(SessionError::UnexpectedValue(m))
            },
        },
    }
}

/// The logout address: the login address with the query `op=logout`;
/// `None` when the login address does not parse.
pub fn logout_uri(login_uri: &str) -> (r: Option<String>)
    ensures
        r matches Some(t) ==> url_with_query(login_uri@, "op=logout"@) == Some(t@),
        r is None ==> url_with_query(login_uri@, "op=logout"@) is None,
        r is Some == url_parse(login_uri@) is Some,
{
    url_set_query(login_uri, "op=logout")
}

} // verus!
