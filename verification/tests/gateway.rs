use std::collections::HashMap;
use waterfurnace_symphony::gateway::{
    check_ready, list_gateways, list_zones, rejection_status, supervisor_step, ServerError, SupervisorAction, SupervisorEvent, ZonesOutcome,
};
use waterfurnace_symphony::gateway::details::{zone_details, Json};
use waterfurnace_symphony::protocol::{ResponseGatewayType, ResponseLoginGateway, ResponseLoginLocations};
use waterfurnace_symphony::ClientError;

fn gateway(id: &str, names: &[(u8, &str)]) -> ResponseLoginGateway {
    ResponseLoginGateway {
        awl_id: id.to_string(),
        description: format!("{} system", id),
        gateway_type: ResponseGatewayType::Other,
        online: 1,
        max_zones: names.len() as u8,
        zone_names: names.iter().map(|(z, n)| (*z, n.to_string())).collect(),
        extra: HashMap::new(),
    }
}

fn location(desc: &str, gateways: Vec<ResponseLoginGateway>) -> ResponseLoginLocations {
    ResponseLoginLocations {
        description: desc.to_string(),
        postal: String::new(),
        city: String::new(),
        state: String::new(),
        country: String::new(),
        latitude: 0,
        longitude: 0,
        gateways,
        extra: HashMap::new(),
    }
}

fn account() -> Vec<ResponseLoginLocations> {
    vec![
        location("Home", vec![gateway("GW1", &[(2, "Upstairs"), (1, "Living")]), gateway("GW2", &[])]),
        location("Cabin", vec![gateway("GW3", &[(1, "Main")])]),
    ]
}

#[test]
fn gateways_are_listed_with_their_location() {
    let items = list_gateways(&account());
    let got: Vec<(String, String, String)> = items.into_iter().map(|i| (i.location, i.gwid, i.system_name)).collect();
    assert_eq!(
        got,
        vec![
            ("Home".to_string(), "GW1".to_string(), "GW1 system".to_string()),
            ("Home".to_string(), "GW2".to_string(), "GW2 system".to_string()),
            ("Cabin".to_string(), "GW3".to_string(), "GW3 system".to_string()),
        ]
    );
}

fn zone_ids(o: ZonesOutcome) -> Vec<(String, u8, String)> {
    match o {
        ZonesOutcome::Found(v) => v.into_iter().map(|z| (z.gwid, z.zone_id, z.zone_name)).collect(),
        _ => panic!("expected zones"),
    }
}

#[test]
fn all_zones_of_all_gateways() {
    let z = zone_ids(list_zones(&account(), "*", None));
    assert_eq!(
        z,
        vec![
            ("GW1".to_string(), 1, "Living".to_string()),
            ("GW1".to_string(), 2, "Upstairs".to_string()),
            ("GW3".to_string(), 1, "Main".to_string()),
        ]
    );
}

#[test]
fn zones_of_one_gateway_and_one_zone() {
    assert_eq!(zone_ids(list_zones(&account(), "GW1", None)).len(), 2);
    assert_eq!(zone_ids(list_zones(&account(), "GW1", Some(2))), vec![("GW1".to_string(), 2, "Upstairs".to_string())]);
}

#[test]
fn zone_requests_refused() {
    assert!(matches!(list_zones(&account(), "*", Some(1)), ZonesOutcome::BadRequest));
    assert!(matches!(list_zones(&account(), "GW2", None), ZonesOutcome::NotFound));
    assert!(matches!(list_zones(&account(), "GW9", None), ZonesOutcome::NotFound));
    assert!(matches!(list_zones(&account(), "GW1", Some(7)), ZonesOutcome::NotFound));
}

#[test]
fn readiness_gate() {
    assert!(check_ready(true).is_ok());
    assert!(check_ready(false).is_err());
}

#[test]
fn rejection_statuses() {
    assert_eq!(rejection_status(true, None, false), 404);
    assert_eq!(rejection_status(false, Some(&ClientError::UnknownGateway("x".to_string())), false), 404);
    assert_eq!(rejection_status(false, Some(&ClientError::CommandTimeout("x".to_string())), false), 504);
    assert_eq!(rejection_status(false, Some(&ClientError::ConnectionClosed), false), 502);
    assert_eq!(rejection_status(false, None, true), 503);
    assert_eq!(rejection_status(false, None, false), 500);
}

#[test]
fn supervisor_decisions() {
    assert!(matches!(supervisor_step(true, SupervisorEvent::ConnectEnded(true)), (true, SupervisorAction::Stop(ServerError::ClientGone))));
    assert!(matches!(supervisor_step(true, SupervisorEvent::ConnectEnded(false)), (false, SupervisorAction::NextBackoff)));
    assert!(matches!(supervisor_step(false, SupervisorEvent::BackoffNext(true)), (false, SupervisorAction::Reconnect)));
    assert!(matches!(supervisor_step(false, SupervisorEvent::BackoffNext(false)), (false, SupervisorAction::Stop(ServerError::RetryGiveUp))));
    assert!(matches!(supervisor_step(false, SupervisorEvent::ReadyAgain(true)), (true, SupervisorAction::ResetBackoff)));
    assert!(matches!(supervisor_step(false, SupervisorEvent::ReadyAgain(false)), (false, SupervisorAction::Continue)));
    assert!(matches!(supervisor_step(true, SupervisorEvent::ServeEnded(true)), (true, SupervisorAction::LogoutAndStop)));
    assert!(matches!(supervisor_step(true, SupervisorEvent::ServeEnded(false)), (true, SupervisorAction::Stop(ServerError::ServerPanic))));
}

#[test]
fn gateway_stays_unready_until_client_recovers() {
    let events = vec![
        SupervisorEvent::ConnectEnded(false),
        SupervisorEvent::BackoffNext(true),
        SupervisorEvent::ReadyAgain(false),
        SupervisorEvent::ConnectEnded(false),
        SupervisorEvent::BackoffNext(true),
        SupervisorEvent::ReadyAgain(true),
        SupervisorEvent::BackoffNext(true),
    ];
    let mut ready = true;
    let mut seen = vec![];
    for e in events {
        ready = supervisor_step(ready, e).0;
        seen.push(ready);
        assert_eq!(check_ready(ready).is_ok(), ready);
    }
    assert_eq!(seen, vec![false, false, false, false, false, true, true]);
}

fn num(n: u64) -> Json {
    Json::Number(serde_json::Number::from(n))
}

fn obj(fields: &[(&str, u64)]) -> Json {
    Json::Object(fields.iter().map(|(k, v)| (k.to_string(), num(*v))).collect())
}

fn details_of(metrics: Vec<(&str, Json)>, zone: u8) -> HashMap<String, Json> {
    let entries: Vec<(String, Json)> = metrics.into_iter().map(|(k, v)| (k.to_string(), v)).collect();
    let out = zone_details(entries, zone);
    let n = out.len();
    let m: HashMap<String, Json> = out.into_iter().collect();
    assert_eq!(m.len(), n, "names must be distinct");
    m
}

fn sorted_keys(m: &HashMap<String, Json>) -> Vec<&str> {
    let mut keys: Vec<&str> = m.keys().map(|k| k.as_str()).collect();
    keys.sort();
    keys
}

#[test]
fn zone_details_strip_the_zone_prefix_and_lift_the_settings() {
    let m = details_of(
        vec![
            ("iz2_z1_roomtemp", num(70)),
            ("iz2_z2_roomtemp", num(68)),
            ("iz2_z1_activesettings", obj(&[("activemode", 1), ("heatingsp", 68)])),
            ("TStatMode", num(0)),
        ],
        1,
    );
    assert_eq!(sorted_keys(&m), vec!["activemode", "heatingsp", "roomtemp"]);
    assert_eq!(m["roomtemp"], num(70));
    assert_eq!(m["activemode"], num(1));
    assert_eq!(m["heatingsp"], num(68));
}

#[test]
fn zone_details_settings_field_wins() {
    let m = details_of(
        vec![
            ("iz2_z3_heatingsp", num(65)),
            ("iz2_z3_coolingsp", num(75)),
            ("iz2_z3_activesettings", obj(&[("heatingsp", 66), ("iz2_z3_coolingsp", 74)])),
        ],
        3,
    );
    assert_eq!(sorted_keys(&m), vec!["coolingsp", "heatingsp", "iz2_z3_coolingsp"]);
    assert_eq!(m["heatingsp"], num(66));
    assert_eq!(m["coolingsp"], num(75));
    assert_eq!(m["iz2_z3_coolingsp"], num(74));
    // A later field of a name replaces an earlier one.
    let m = details_of(vec![("iz2_z1_activesettings", obj(&[("mode", 1), ("mode", 2)]))], 1);
    assert_eq!(sorted_keys(&m), vec!["mode"]);
    assert_eq!(m["mode"], num(2));
}

#[test]
fn zone_details_settings_not_an_object() {
    let m = details_of(vec![("iz2_z12_activesettings", num(5)), ("iz2_z12_roomtemp", num(71))], 12);
    assert_eq!(sorted_keys(&m), vec!["roomtemp"]);
    assert_eq!(m["roomtemp"], num(71));
    assert!(details_of(vec![("iz2_z1_roomtemp", num(1))], 2).is_empty());
    let m = details_of(vec![("iz2_z2_activesettings", Json::Null), ("iz2_z2_mode", Json::String("auto".to_string()))], 2);
    assert_eq!(sorted_keys(&m), vec!["mode"]);
    assert_eq!(m["mode"], Json::String("auto".to_string()));
}
