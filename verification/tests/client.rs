use std::collections::HashMap;
use waterfurnace_symphony::client::{
    commit_outcome, connect_step, locations_of, login_outcome, process_reply, read_command, read_outcome, session_step, ConnectStep,
    LoginData, Reply, ReplyAction, SessionAction, SessionEvent,
};
use waterfurnace_symphony::protocol::{
    LoginResponse, ReadResponse, ResponseGatewayType, ResponseLoginGateway, ResponseLoginLocations, ResponseMeta,
};
use waterfurnace_symphony::transactions::TransactionList;
use waterfurnace_symphony::{ClientError, Command, Response};

fn meta(tid: u8, error: Option<&str>) -> ResponseMeta {
    ResponseMeta { transaction_id: tid, error: error.map(|s| s.to_string()), _extra: HashMap::new() }
}

fn gateway(id: &str, zones: u8) -> ResponseLoginGateway {
    let mut names = HashMap::new();
    for z in 1..=zones {
        names.insert(z, format!("Zone {}", z));
    }
    ResponseLoginGateway {
        awl_id: id.to_string(),
        description: format!("{} system", id),
        gateway_type: ResponseGatewayType::AWL,
        online: 1,
        max_zones: zones,
        zone_names: names,
        extra: HashMap::new(),
    }
}

fn location(desc: &str, gateways: Vec<ResponseLoginGateway>) -> ResponseLoginLocations {
    ResponseLoginLocations {
        description: desc.to_string(),
        postal: "00000".to_string(),
        city: "Yeovil".to_string(),
        state: "Somerset".to_string(),
        country: "England".to_string(),
        latitude: 50.83682f64.to_bits(),
        longitude: (-3.54466f64).to_bits(),
        gateways,
        extra: HashMap::new(),
    }
}

fn login_response(tid: u8, locations: Vec<ResponseLoginLocations>) -> LoginResponse {
    LoginResponse {
        meta: meta(tid, None),
        success: true,
        first_name: "Uther".to_string(),
        last_name: "Pendragon".to_string(),
        email: "uther@camelot.test".to_string(),
        key: 987654321,
        locations,
    }
}

fn read_response(tid: u8, error: Option<&str>) -> Response {
    Response::Read(ReadResponse { meta: meta(tid, error), awl_id: "GW1".to_string(), metrics: HashMap::new() })
}

#[test]
fn login_data_counts_zones_last_entry_wins() {
    let d = LoginData::from_login(login_response(
        1,
        vec![location("Home", vec![gateway("GW1", 3), gateway("GW2", 1)]), location("Cabin", vec![gateway("GW1", 5)])],
    ));
    assert_eq!(d.zone_count("GW1"), Some(5));
    assert_eq!(d.zone_count("GW2"), Some(1));
    assert_eq!(d.zone_count("GW3"), None);
    assert_eq!(d.locations().len(), 2);
}

#[test]
fn read_command_needs_a_known_gateway() {
    let d = LoginData::from_login(login_response(1, vec![location("Home", vec![gateway("GW1", 2)])]));
    match read_command(Some(&d), "GW1") {
        Ok(Command::Read { awl_id, zone, rlist }) => {
            assert_eq!(awl_id, "GW1");
            assert_eq!(zone, 0);
            assert_eq!(rlist.len(), 38);
            assert_eq!(rlist[37], "iz2_z2_activesettings");
        },
        _ => panic!("expected a read command"),
    }
    match read_command(Some(&d), "GW9") {
        Err(ClientError::UnknownGateway(g)) => assert_eq!(g, "GW9"),
        _ => panic!("expected UnknownGateway"),
    }
    match read_command(None, "GW1") {
        Err(ClientError::UnknownGateway(g)) => assert_eq!(g, "GW1"),
        _ => panic!("expected UnknownGateway"),
    }
}

#[test]
fn locations_need_a_login() {
    match locations_of(None) {
        Err(ClientError::CommandFailed(m)) => assert_eq!(m, "get_locations - no AWL login data found"),
        _ => panic!("expected CommandFailed"),
    }
    let d = LoginData::from_login(login_response(1, vec![location("Home", vec![gateway("GW1", 2)])]));
    assert_eq!(locations_of(Some(&d)).ok().unwrap()[0].description, "Home");
}

#[test]
fn reply_with_error_text_becomes_response_error() {
    match commit_outcome(read_response(3, Some("Simulated error"))) {
        Err(ClientError::ResponseError(m, r)) => {
            assert_eq!(m, "Simulated error");
            assert_eq!(r.transaction_id(), 3);
        },
        _ => panic!("expected ResponseError"),
    }
    assert!(commit_outcome(read_response(3, None)).is_ok());
}

#[test]
fn replies_find_their_transactions() {
    let mut t: TransactionList<&str> = TransactionList::new();
    t.insert(1, "first");
    t.insert(2, "second");
    match process_reply(&mut t, Reply::Parsed(read_response(2, None))) {
        ReplyAction::Deliver(w, Ok(r)) => {
            assert_eq!(w, "second");
            assert_eq!(r.transaction_id(), 2);
        },
        _ => panic!("expected delivery"),
    }
    assert!(!t.contains(2));
    match process_reply(&mut t, Reply::Parsed(read_response(2, None))) {
        ReplyAction::UnknownTransaction(r) => assert_eq!(r.transaction_id(), 2),
        _ => panic!("expected an unknown transaction"),
    }
    match process_reply(&mut t, Reply::ErrorOnly { transaction_id: 1, error: Some("x".to_string()) }) {
        ReplyAction::Cancel(w) => assert_eq!(w, "first"),
        _ => panic!("expected a cancel"),
    }
    assert_eq!(t.len(), 0);
    assert!(matches!(process_reply(&mut t, Reply::ErrorOnly { transaction_id: 1, error: None }), ReplyAction::UnknownCancel(1)));
    assert!(matches!(process_reply(&mut t, Reply::NotText), ReplyAction::Ignore));
    assert!(matches!(process_reply(&mut t, Reply::Unreadable), ReplyAction::Ignore));
}

#[test]
fn reply_with_error_is_delivered_as_error() {
    let mut t: TransactionList<u8> = TransactionList::new();
    t.insert(4, 40);
    match process_reply(&mut t, Reply::Parsed(read_response(4, Some("Simulated error")))) {
        ReplyAction::Deliver(40, Err(ClientError::ResponseError(m, _))) => assert_eq!(m, "Simulated error"),
        _ => panic!("expected delivery of an error"),
    }
}

#[test]
fn login_and_read_outcomes() {
    let lr = Response::Login(login_response(1, vec![location("Home", vec![gateway("GW1", 2)])]));
    let d = login_outcome(Ok(lr)).ok().unwrap();
    assert_eq!(d.zone_count("GW1"), Some(2));
    match login_outcome(Ok(read_response(1, None))) {
        Err(ClientError::ResponseError(m, _)) => assert_eq!(m, "Should have gotten a Response::Login"),
        _ => panic!("expected ResponseError"),
    }
    assert!(matches!(login_outcome(Err(ClientError::ConnectionClosed)), Err(ClientError::ConnectionClosed)));
    assert_eq!(read_outcome(Ok(read_response(8, None))).ok().unwrap().awl_id, "GW1");
    let lr = Response::Login(login_response(1, vec![]));
    match read_outcome(Ok(lr)) {
        Err(ClientError::ResponseError(m, _)) => assert_eq!(m, "Should have gotten a Response::Login"),
        _ => panic!("expected ResponseError"),
    }
}

#[test]
fn session_events() {
    assert!(matches!(session_step(SessionEvent::MessageArrived), SessionAction::ProcessMessage));
    assert!(matches!(session_step(SessionEvent::SocketClosed), SessionAction::Fail(ClientError::ConnectionClosed)));
    match session_step(SessionEvent::Outgoing("{}".to_string())) {
        SessionAction::Send(s) => assert_eq!(s, "{}"),
        _ => panic!("expected a send"),
    }
    assert!(matches!(session_step(SessionEvent::SessionTimeout), SessionAction::Renew));
    assert!(matches!(session_step(SessionEvent::ShutdownRequested), SessionAction::Shutdown));
}

#[test]
fn connect_rounds() {
    assert!(matches!(connect_step(Ok(())), ConnectStep::Renew));
    assert!(matches!(connect_step(Err(ClientError::ExpectedTermination)), ConnectStep::Finish(Ok(()))));
    assert!(matches!(connect_step(Err(ClientError::ConnectionClosed)), ConnectStep::Finish(Err(ClientError::ConnectionClosed))));
}
