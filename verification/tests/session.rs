use waterfurnace_symphony::session::{logout_uri, should_stop_redirect, websockets_uri};
use waterfurnace_symphony::state::{Disconnected, LoggedIn, Login};
use waterfurnace_symphony::SessionError;

fn cookies(pairs: &[(&str, &str)]) -> Vec<(String, String)> {
    pairs.iter().map(|(n, v)| (n.to_string(), v.to_string())).collect()
}

#[test]
fn login_takes_the_first_session_cookie() {
    let c = cookies(&[("legal-acknowledge", "yes"), ("sessionid", "0ddc0ffee0ddc0ffee0ddc0ffee"), ("sessionid", "later")]);
    let login = Login::from_cookies("test_user", "bad7a55", &c).ok().unwrap();
    assert_eq!(login.get_token(), "0ddc0ffee0ddc0ffee0ddc0ffee");
    assert_eq!(login.username, "test_user");
    assert_eq!(login.password, "bad7a55");
    let d = Disconnected { credentials: login.clone() };
    assert_eq!(d.credentials.get_token(), "0ddc0ffee0ddc0ffee0ddc0ffee");
}

#[test]
fn login_without_session_cookie_is_refused() {
    let c = cookies(&[("legal-acknowledge", "yes")]);
    assert!(matches!(Login::from_cookies("u", "p", &c), Err(SessionError::InvalidCredentials)));
    assert!(matches!(Login::from_cookies("u", "p", &Vec::new()), Err(SessionError::InvalidCredentials)));
}

#[test]
fn redirects_from_the_login_page_stop() {
    assert!(should_stop_redirect(Some("/account/login")));
    assert!(should_stop_redirect(Some("/account/login/next")));
    assert!(!should_stop_redirect(Some("/")));
    assert!(!should_stop_redirect(None));
}

#[test]
fn websocket_address_from_configuration() {
    let u = websockets_uri("\"ws://localhost:4321/ws\"", "http://localhost:4321/ws_location.json").ok().unwrap();
    assert_eq!(u.as_str(), "ws://localhost:4321/ws");
    let text = "var awl = { url: 'wss://awlclientproxy.mywaterfurnace.com/' };";
    let u = websockets_uri(text, "cfg").ok().unwrap();
    assert_eq!(u.as_str(), "wss://awlclientproxy.mywaterfurnace.com/");
    let u = websockets_uri("ws://\"x wss://a.b/c\"", "cfg").ok().unwrap();
    assert_eq!(u.as_str(), "wss://a.b/c");
    let u = websockets_uri("'ws://EXAMPLE.com:80/a/../b'", "cfg").ok().unwrap();
    assert_eq!(u, "ws://example.com/b");
}

#[test]
fn websocket_address_missing() {
    match websockets_uri("no address here", "https://example.test/awlconfig.js.php") {
        Err(SessionError::UnexpectedValue(m)) => assert_eq!(m, "Could not find wss://* URI in https://example.test/awlconfig.js.php"),
        _ => panic!("expected UnexpectedValue"),
    }
    match websockets_uri("'ws://[bad'", "cfg") {
        Err(SessionError::UnexpectedValue(m)) => assert!(m.starts_with("Could not parse URI (")),
        _ => panic!("expected UnexpectedValue"),
    }
}

#[test]
fn logout_address() {
    let u = logout_uri("https://symphony.mywaterfurnace.com/account/login").unwrap();
    assert_eq!(u.as_str(), "https://symphony.mywaterfurnace.com/account/login?op=logout");
    assert!(logout_uri("not a url").is_none());
    assert_eq!(logout_uri("https://h.test/p?x=1#f").unwrap(), "https://h.test/p?op=logout#f");
}
