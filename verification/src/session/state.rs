//! The states a session moves through: started, logged in over HTTP,
//! connected over WebSocket, and disconnected after a logout.

use std::sync::Arc;
use vstd::prelude::*;

verus! {

/// A session that has not logged in yet.
pub struct Start;

/// A session that logged in over HTTP; its WebSocket is not connected.
#[derive(Clone)]
pub struct Login {
    pub username: String,
    pub password: String,
    pub session_id: String,
}

/// The WebSocket of a connected session.
pub type WebSocket = tokio_tungstenite::WebSocketStream<tokio_tungstenite::MaybeTlsStream<tokio::net::TcpStream>>;

/// A logged-in session whose WebSocket is connected.
pub struct Connected {
    pub credentials: Login,
    pub websocket: Arc<tokio::sync::Mutex<WebSocket>>,
}

/// A session that logged out; it keeps the credentials to log in again.
pub struct Disconnected {
    pub credentials: Login,
}

/// The states a session can be in.
pub trait SessionState {}

impl SessionState for Start {}

impl SessionState for Login {}

impl SessionState for Connected {}

impl SessionState for Disconnected {}

/// A state that holds a Symphony session id.
pub trait LoggedIn {
    /// The session id (the `sessionid` cookie of the HTTP login).
    fn get_token(&self) -> &str;
}

impl LoggedIn for Login {
    fn get_token(&self) -> (r: &str)
        ensures
            r@ == self.session_id@,
    {
        self.session_id.as_str()
    }
}

impl LoggedIn for Connected {
    fn get_token(&self) -> (r: &str)
        ensures
            r@ == self.credentials.session_id@,
    {
        self.credentials.session_id.as_str()
    }
}

impl Login {
    /// The login state that the cookies of a successful HTTP login give:
    /// the session id is the value of the first cookie named `sessionid`;
    /// without one the credentials were refused.
    pub fn from_cookies(username: &str, password: &str, cookies: &Vec<(String, String)>) -> (r:
        Result<Login, super::SessionError>)
        ensures
            match super::session_cookie(cookies@) {
                Some(v) => r matches Ok(l) && l.username@ == username@ && l.password@ == password@
                    && l.session_id@ == v,
                None => r matches Err(super::SessionError::InvalidCredentials),
            },
    {
        let mut i: usize = 0;
        assert(cookies@.subrange(0, cookies@.len() as int) =~= cookies@);
        while i < cookies.len()
            invariant
                i <= cookies@.len(),
                super::session_cookie(cookies@) == super::session_cookie(cookies@.subrange(i as int, cookies@.len() as int)),
            decreases cookies@.len() - i,
        {
            let ghost rest = cookies@.subrange(i as int, cookies@.len() as int);
            assert(rest.drop_first() =~= cookies@.subrange(i + 1, cookies@.len() as int));
            let (name, value) = &cookies[i];
            if crate::text::str_eq(name.as_str(), "sessionid") {
                return Ok(Login {
                    username: String::from_str(username),
                    password: String::from_str(password),
                    session_id: value.clone(),
                });
            }
            i = i + 1;
        }
        Err(super::SessionError::InvalidCredentials)
    }
}

} // verus!
