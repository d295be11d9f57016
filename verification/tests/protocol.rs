use std::collections::HashMap;
use waterfurnace_symphony::protocol::{
    default_rlist, non_empty_str, parse_zone_key, read_rlist_for, zone_name_list, Command, Request, ResponseMeta, ZoneKey, COMMAND_SOURCE,
};
use waterfurnace_symphony::{ReadResponse, Response};

#[test]
fn default_reading_list() {
    let r = default_rlist();
    assert_eq!(r.len(), 34);
    assert_eq!(r[0], "ActualCompressorSpeed");
    assert_eq!(r[7], "auroraoutputrv");
    assert_eq!(r[33], "TStatRoomTemp");
}

#[test]
fn reading_list_of_three_zones() {
    let r = read_rlist_for(3);
    assert_eq!(r.len(), 34 + 6);
    assert_eq!(r[34], "iz2_z1_roomtemp");
    assert_eq!(r[35], "iz2_z1_activesettings");
    assert_eq!(r[38], "iz2_z3_roomtemp");
    assert_eq!(r[39], "iz2_z3_activesettings");
    assert_eq!(read_rlist_for(0).len(), 34);
    let big = read_rlist_for(255);
    assert_eq!(big.len(), 34 + 510);
    assert_eq!(big[34 + 508], "iz2_z255_roomtemp");
}

#[test]
fn read_and_login_commands() {
    match Command::read("001EC02B2D8E", 2) {
        Command::Read { awl_id, zone, rlist } => {
            assert_eq!(awl_id, "001EC02B2D8E");
            assert_eq!(zone, 0);
            assert_eq!(rlist.len(), 38);
        },
        _ => panic!("expected a read command"),
    }
    match Command::login("0ddc0ffee") {
        Command::Login { session_id } => assert_eq!(session_id, "0ddc0ffee"),
        _ => panic!("expected a login command"),
    }
    let req = Request::new(5, Command::login("abc"));
    assert_eq!(req.transaction_id, 5);
    assert_eq!(req.source, COMMAND_SOURCE);
    assert_eq!(req.source, "consumer dashboard");
}

#[test]
fn zone_keys() {
    assert!(parse_zone_key("z1") == ZoneKey::Index(1));
    assert!(parse_zone_key("z255") == ZoneKey::Index(255));
    assert!(parse_zone_key("z007") == ZoneKey::Index(7));
    assert!(parse_zone_key("z256") == ZoneKey::Invalid);
    assert!(parse_zone_key("zone") == ZoneKey::Invalid);
    assert!(parse_zone_key("z") == ZoneKey::Invalid);
    assert!(parse_zone_key("name") == ZoneKey::NotZone);
    assert!(parse_zone_key("") == ZoneKey::NotZone);
}

#[test]
fn zone_name_list_reads_names() {
    let entries = vec![
        ("z1".to_string(), Some("Living".to_string())),
        ("z2".to_string(), Some("Upstairs".to_string())),
        ("count".to_string(), None),
        ("z3".to_string(), None),
    ];
    let m = zone_name_list(&entries).expect("valid names");
    assert_eq!(m.len(), 2);
    assert_eq!(m.get(&1).map(|s| s.as_str()), Some("Living"));
    assert_eq!(m.get(&2).map(|s| s.as_str()), Some("Upstairs"));
}

#[test]
fn zone_name_list_later_name_wins() {
    let entries = vec![("z01".to_string(), Some("First".to_string())), ("z1".to_string(), Some("Second".to_string()))];
    let m = zone_name_list(&entries).unwrap();
    assert_eq!(m.len(), 1);
    assert_eq!(m.get(&1).map(|s| s.as_str()), Some("Second"));
}

#[test]
fn zone_name_list_rejects_bad_index() {
    let entries = vec![("z1".to_string(), Some("Living".to_string())), ("zx".to_string(), Some("Bad".to_string()))];
    assert!(zone_name_list(&entries).is_none());
    let entries = vec![("z999".to_string(), None)];
    assert!(zone_name_list(&entries).is_none());
}

#[test]
fn empty_error_text_is_no_error() {
    assert_eq!(non_empty_str(None), None);
    assert_eq!(non_empty_str(Some(String::new())), None);
    assert_eq!(non_empty_str(Some("bad".to_string())), Some("bad".to_string()));
}

#[test]
fn response_accessors() {
    let r = Response::Read(ReadResponse {
        meta: ResponseMeta { transaction_id: 42, error: Some("boom".to_string()), _extra: HashMap::new() },
        awl_id: "GW".to_string(),
        metrics: HashMap::new(),
    });
    assert_eq!(r.transaction_id(), 42);
    assert_eq!(r.error(), Some("boom".to_string()));
}
