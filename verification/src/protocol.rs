//! The messages of the Symphony WebSocket protocol: the commands the client
//! sends, the replies it gets, and the reading lists of a gateway read.

use std::collections::HashMap;
use vstd::prelude::*;

use crate::text::{decimal, has_prefix, parse_u8, parse_u8_spec, strip_prefix, u8_to_decimal};
use crate::transactions::Tid;

verus! {

/// The `source` field of every request.
pub const COMMAND_SOURCE: &'static str = "consumer dashboard";

/// The prefix of every per-zone metric name.
pub const ZONE_RLIST_PREFIX: &'static str = "iz2_z";

/// A command to Symphony.
pub enum Command {
    /// Authenticate the WebSocket with the session id of the HTTP login.
    Login { session_id: String },
    /// Read the metrics `rlist` of gateway `awl_id`.
    Read { awl_id: String, zone: u8, rlist: Vec<String> },
}

/// A command with its transaction id, as it goes over the wire.
pub struct Request {
    pub transaction_id: Tid,
    pub command: Command,
    pub source: String,
}

/// The fields every reply carries: its transaction id, and the error text
/// Symphony put in it, if it put a non-empty one.
#[derive(Clone)]
pub struct ResponseMeta {
    pub transaction_id: Tid,
    pub error: Option<String>,
    pub _extra: HashMap<String, serde_json::Value>,
}

/// The reply to a login command.
#[derive(Clone)]
pub struct LoginResponse {
    pub meta: ResponseMeta,
    pub success: bool,
    pub first_name: String,
    pub last_name: String,
    pub email: String,
    pub key: u64,
    pub locations: Vec<ResponseLoginLocations>,
}

/// The reply to a read command: the metrics of one gateway.
#[derive(Clone)]
pub struct ReadResponse {
    pub meta: ResponseMeta,
    pub awl_id: String,
    pub metrics: HashMap<String, serde_json::Value>,
}

/// A location of the account, with its gateways.  The coordinates are held
/// as the IEEE-754 bit patterns of the `f64` values Symphony sends.
#[derive(Clone)]
pub struct ResponseLoginLocations {
    pub description: String,
    pub postal: String,
    pub city: String,
    pub state: String,
    pub country: String,
    pub latitude: u64,
    pub longitude: u64,
    pub gateways: Vec<ResponseLoginGateway>,
    pub extra: HashMap<String, serde_json::Value>,
}

/// A gateway (heat pump) of a location, with the names of its zones.
#[derive(Clone)]
pub struct ResponseLoginGateway {
    pub awl_id: String,
    pub description: String,
    pub gateway_type: ResponseGatewayType,
    pub online: u8,
    pub max_zones: u8,
    pub zone_names: HashMap<u8, String>,
    pub extra: HashMap<String, serde_json::Value>,
}

/// The kind of a gateway.
#[derive(Clone, Copy, PartialEq, Eq, Structural)]
pub enum ResponseGatewayType {
    AWL,
    Other,
}

/// A reply from Symphony.
#[derive(Clone)]
pub enum Response {
    Login(LoginResponse),
    Read(ReadResponse),
}

impl Response {
    /// The common fields of the reply.
    pub open spec fn meta(&self) -> ResponseMeta {
        match self {
            Response::Login(r) => r.meta,
            Response::Read(r) => r.meta,
        }
    }

    /// The transaction id the reply answers.
    pub fn transaction_id(&self) -> (r: Tid)
        ensures
            r == self.meta().transaction_id,
            match self {
                Response::Login(l) => r == l.meta.transaction_id,
                Response::Read(x) => r == x.meta.transaction_id,
            },
    {
        match self {
            Response::Login(r) => r.meta.transaction_id,
            Response::Read(r) => r.meta.transaction_id,
        }
    }

    /// The error text of the reply, if any.
    pub fn error(&self) -> (r: Option<String>)
        ensures
            r == self.meta().error,
            match self {
                Response::Login(l) => r == l.meta.error,
                Response::Read(x) => r == x.meta.error,
            },
    {
        match self {
            Response::Login(r) => r.meta.error.clone(),
            Response::Read(r) => r.meta.error.clone(),
        }
    }
}

/// The common fields of a reply are the ones stored in it, for login
/// replies as for read replies: its transaction id and its error text are
/// those Symphony sent.
pub proof fn law_meta_is_the_stored_meta(r: Response)
    ensures
        r matches Response::Login(l) ==> r.meta() == l.meta,
        r matches Response::Read(x) ==> r.meta() == x.meta,
{
}

impl Request {
    /// Frames `command` under transaction id `transaction_id`, with the
    /// dashboard as its source.
    pub fn new(transaction_id: Tid, command: Command) -> (r: Request)
        ensures
            r.transaction_id == transaction_id,
            r.command == command,
            r.source@ == COMMAND_SOURCE@,
    {
        Request { transaction_id, command, source: String::from_str(COMMAND_SOURCE) }
    }
}

/// The characters of each string of `v`.
pub open spec fn string_views(v: Seq<String>) -> Seq<Seq<char>> {
    v.map_values(|s: String| s@)
}

/// The metrics every gateway read asks for.
pub open spec fn default_read_rlist() -> Seq<Seq<char>> {
    seq![
        "ActualCompressorSpeed"@,
        "AirflowCurrentSpeed"@,
        "AOCEnteringWaterTemp"@,
        "AuroraOutputCC"@,
        "AuroraOutputCC2"@,
        "AuroraOutputEH1"@,
        "AuroraOutputEH2"@,
        "auroraoutputrv"@,
        "auxpower"@,
        "AWLABCType"@,
        "AWLTStatType"@,
        "compressorpower"@,
        "dehumid_humid_sp"@,
        "EnteringWaterTemp"@,
        "fanpower"@,
        "homeautomationalarm1"@,
        "homeautomationalarm2"@,
        "humidity_offset_settings"@,
        "iz2_dehumid_humid_sp"@,
        "iz2_humidity_offset_settings"@,
        "lastfault"@,
        "lastlockout"@,
        "LeavingAirTemp"@,
        "lockoutstatus"@,
        "looppumppower"@,
        "ModeOfOperation"@,
        "totalunitpower"@,
        "TStatActiveSetpoint"@,
        "TStatCoolingSetpoint"@,
        "TStatDehumidSetpoint"@,
        "TStatHeatingSetpoint"@,
        "TStatMode"@,
        "TStatRelativeHumidity"@,
        "TStatRoomTemp"@,
    ]
}

/// The metric `suffix` of zone `zone`: `iz2_z<zone><suffix>`.
pub open spec fn zone_metric(zone: nat, suffix: Seq<char>) -> Seq<char> {
    ZONE_RLIST_PREFIX@ + decimal(zone) + suffix
}

/// The per-zone metrics of zones `1..=zones`, zone by zone.
pub open spec fn zone_rlist(zones: nat) -> Seq<Seq<char>>
    decreases zones,
{
    if zones == 0 {
        seq![]
    } else {
        zone_rlist((zones - 1) as nat) + seq![
            zone_metric(zones, "_roomtemp"@),
            zone_metric(zones, "_activesettings"@),
        ]
    }
}

/// Everything a read of a gateway with `zones` zones asks for.
pub open spec fn read_rlist(zones: nat) -> Seq<Seq<char>> {
    default_read_rlist() + zone_rlist(zones)
}

/// The metrics every gateway read asks for, in order.
pub fn default_rlist() -> (r: Vec<String>)
    ensures
        string_views(r@) == default_read_rlist(),
{
    let names: [&str; 34] = [
        "ActualCompressorSpeed",
        "AirflowCurrentSpeed",
        "AOCEnteringWaterTemp",
        "AuroraOutputCC",
        "AuroraOutputCC2",
        "AuroraOutputEH1",
        "AuroraOutputEH2",
        "auroraoutputrv",
        "auxpower",
        "AWLABCType",
        "AWLTStatType",
        "compressorpower",
        "dehumid_humid_sp",
        "EnteringWaterTemp",
        "fanpower",
        "homeautomationalarm1",
        "homeautomationalarm2",
        "humidity_offset_settings",
        "iz2_dehumid_humid_sp",
        "iz2_humidity_offset_settings",
        "lastfault",
        "lastlockout",
        "LeavingAirTemp",
        "lockoutstatus",
        "looppumppower",
        "ModeOfOperation",
        "totalunitpower",
        "TStatActiveSetpoint",
        "TStatCoolingSetpoint",
        "TStatDehumidSetpoint",
        "TStatHeatingSetpoint",
        "TStatMode",
        "TStatRelativeHumidity",
        "TStatRoomTemp",
    ];
    let ghost expected = default_read_rlist();
    assert(forall|i: int| 0 <= i < 34 ==> #[trigger] names@[i]@ == expected[i]);
    let mut out: Vec<String> = Vec::new();
    let mut i: usize = 0;
    while i < 34
        invariant
            i <= 34,
            names@.len() == 34,
            expected == default_read_rlist(),
            forall|j: int| 0 <= j < 34 ==> #[trigger] names@[j]@ == expected[j],
            string_views(out@) == expected.subrange(0, i as int),
            out@.len() == i,
        decreases 34 - i,
    {
        let name = String::from_str(names[i]);
        assert(name@ == expected[i as int]);
        let ghost before = out@;
        out.push(name);
        assert(out@ == before.push(name));
        assert(string_views(out@) =~= expected.subrange(0, i + 1)) by {
            assert forall|j: int| 0 <= j < i + 1 implies #[trigger] string_views(out@)[j] == expected.subrange(0, i + 1)[j] by {
                if j < i {
                    assert(out@[j] == before[j]);
                    assert(string_views(before)[j] == expected.subrange(0, i as int)[j]);
                }
            }
        }
        i = i + 1;
    }
    assert(expected.subrange(0, 34) =~= expected);
    out
}

/// The name of metric `suffix` of zone `zone`.
fn zone_metric_name(zone: u8, suffix: &str) -> (r: String)
    ensures
        r@ == zone_metric(zone as nat, suffix@),
{
    let mut s = String::from_str(ZONE_RLIST_PREFIX);
    let d = u8_to_decimal(zone);
    s.append(d.as_str());
    s.append(suffix);
    s
}

/// The reading list of a gateway with `max_zones` zones: the gateway
/// metrics, then the room temperature and active settings of each zone
/// `1..=max_zones`.
pub fn read_rlist_for(max_zones: u8) -> (r: Vec<String>)
    ensures
        string_views(r@) == read_rlist(max_zones as nat),
{
    let mut out = default_rlist();
    let mut zone: u16 = 1;
    while zone <= max_zones as u16
        invariant
            1 <= zone <= max_zones as u16 + 1,
            string_views(out@) == default_read_rlist() + zone_rlist((zone - 1) as nat),
        decreases max_zones as u16 + 1 - zone,
    {
        let z = zone as u8;
        let room = zone_metric_name(z, "_roomtemp");
        let active = zone_metric_name(z, "_activesettings");
        let ghost before = string_views(out@);
        out.push(room);
        out.push(active);
        proof {
            assert(zone_rlist(zone as nat) == zone_rlist((zone - 1) as nat) + seq![
                zone_metric(zone as nat, "_roomtemp"@),
                zone_metric(zone as nat, "_activesettings"@),
            ]);
            assert(string_views(out@) =~= before + seq![
                zone_metric(zone as nat, "_roomtemp"@),
                zone_metric(zone as nat, "_activesettings"@),
            ]);
        }
        zone = zone + 1;
    }
    out
}

impl Command {
    /// The command that reads gateway `awl_id`, which has `max_zones`
    /// zones: zone 0 (the whole gateway) and the reading list of
    /// [`read_rlist_for`].
    pub fn read(awl_id: &str, max_zones: u8) -> (r: Command)
        ensures
            r matches Command::Read { awl_id: a, zone, rlist } && a@ == awl_id@ && zone == 0
                && string_views(rlist@) == read_rlist(max_zones as nat),
    {
        Command::Read { awl_id: String::from_str(awl_id), zone: 0, rlist: read_rlist_for(max_zones) }
    }

    /// The command that logs the WebSocket in with `session_id`.
    pub fn login(session_id: &str) -> (r: Command)
        ensures
            r matches Command::Login { session_id: s } && s@ == session_id@,
    {
        Command::Login { session_id: String::from_str(session_id) }
    }
}

/// What the key of an entry of `tstat_names` says.
#[derive(PartialEq, Eq, Structural)]
pub enum ZoneKey {
    /// The key does not start with `z`: the entry is not a zone name.
    NotZone,
    /// The key starts with `z` but the rest is not a zone number.
    Invalid,
    /// The key names zone number `.0`.
    Index(u8),
}

/// What a `tstat_names` key means: `z` followed by a zone number as
/// `str::parse::<u8>` reads it.
pub open spec fn zone_key_spec(key: Seq<char>) -> ZoneKey {
    if !has_prefix(key, "z"@) {
        ZoneKey::NotZone
    } else {
        match parse_u8_spec(key.subrange("z"@.len() as int, key.len() as int)) {
            Some(i) => ZoneKey::Index(i),
            None => ZoneKey::Invalid,
        }
    }
}

/// Classifies a `tstat_names` key.
pub fn parse_zone_key(key: &str) -> (r: ZoneKey)
    ensures
        r == zone_key_spec(key@),
{
    match strip_prefix(key, "z") {
        None => ZoneKey::NotZone,
        Some(rest) => match parse_u8(rest) {
            Some(i) => ZoneKey::Index(i),
            None => ZoneKey::Invalid,
        },
    }
}

/// The zone names that the entries of `tstat_names` give, in their order,
/// a later name for the same zone replacing an earlier one; `None` when
/// some key starts with `z` but does not go on with a zone number.  An
/// entry whose value is not a string (`None` here) names nothing.
pub open spec fn zone_names_spec(entries: Seq<(String, Option<String>)>) -> Option<Map<u8, String>>
    decreases entries.len(),
{
    if entries.len() == 0 {
        Some(Map::empty())
    } else {
        match zone_names_spec(entries.drop_last()) {
            None => None,
            Some(m) => {
                let (key, value) = entries.last();
                match zone_key_spec(key@) {
                    ZoneKey::NotZone => Some(m),
                    ZoneKey::Invalid => None,
                    ZoneKey::Index(i) => match value {
                        Some(name) => Some(m.insert(i, name)),
                        None => Some(m),
                    },
                }
            },
        }
    }
}

/// Reads the zone names of a gateway from the entries of its
/// `tstat_names` object (key, and the value if it is a string).
pub fn zone_name_list(entries: &Vec<(String, Option<String>)>) -> (r: Option<HashMap<u8, String>>)
    ensures
        match zone_names_spec(entries@) {
            Some(m) => r matches Some(h) && h@ == m,
            None => r is None,
        },
{
    broadcast use vstd::std_specs::hash::group_hash_axioms;

    let mut out: HashMap<u8, String> = HashMap::new();
    let mut i: usize = 0;
    while i < entries.len()
        invariant
            i <= entries@.len(),
            zone_names_spec(entries@.subrange(0, i as int)) == Some(out@),
        decreases entries@.len() - i,
    {
        let ghost prefix = entries@.subrange(0, i as int + 1);
        assert(prefix.drop_last() =~= entries@.subrange(0, i as int));
        let (key, value) = &entries[i];
        match parse_zone_key(key.as_str()) {
            ZoneKey::NotZone => {},
            ZoneKey::Invalid => {
                proof {
                    lemma_zone_names_none_stays(entries@, i as int + 1);
                }
                return None;
            },
            ZoneKey::Index(z) => {
                match value {
                    Some(name) => {
                        out.insert(z, name.clone());
                    },
                    None => {},
                }
            },
        }
        i = i + 1;
    }
    assert(entries@.subrange(0, entries@.len() as int) =~= entries@);
    Some(out)
}

/// Once a prefix of the entries holds an invalid key, so does every longer one.
proof fn lemma_zone_names_none_stays(entries: Seq<(String, Option<String>)>, n: int)
    requires
        0 <= n <= entries.len(),
        zone_names_spec(entries.subrange(0, n)) is None,
    ensures
        zone_names_spec(entries) is None,
    decreases entries.len() - n,
{
    if n < entries.len() {
        assert(entries.subrange(0, n + 1).drop_last() =~= entries.subrange(0, n));
        lemma_zone_names_none_stays(entries, n + 1);
    } else {
        assert(entries.subrange(0, n) =~= entries);
    }
}

/// Every gateway read asks for these 34 gateway metrics: the
/// compressor, airflow, entering and leaving temperatures, auxiliary and
/// pump power, alarms, faults, lockouts, and the thermostat's mode, set
/// points, humidity and room temperature.
pub proof fn law_default_read_metrics()
    ensures
        default_read_rlist().len() == 34,
        default_read_rlist().contains("ActualCompressorSpeed"@),
        default_read_rlist().contains("AirflowCurrentSpeed"@),
        default_read_rlist().contains("AOCEnteringWaterTemp"@),
        default_read_rlist().contains("AuroraOutputCC"@),
        default_read_rlist().contains("AuroraOutputCC2"@),
        default_read_rlist().contains("AuroraOutputEH1"@),
        default_read_rlist().contains("AuroraOutputEH2"@),
        default_read_rlist().contains("auroraoutputrv"@),
        default_read_rlist().contains("auxpower"@),
        default_read_rlist().contains("AWLABCType"@),
        default_read_rlist().contains("AWLTStatType"@),
        default_read_rlist().contains("compressorpower"@),
        default_read_rlist().contains("dehumid_humid_sp"@),
        default_read_rlist().contains("EnteringWaterTemp"@),
        default_read_rlist().contains("fanpower"@),
        default_read_rlist().contains("homeautomationalarm1"@),
        default_read_rlist().contains("homeautomationalarm2"@),
        default_read_rlist().contains("humidity_offset_settings"@),
        default_read_rlist().contains("iz2_dehumid_humid_sp"@),
        default_read_rlist().contains("iz2_humidity_offset_settings"@),
        default_read_rlist().contains("lastfault"@),
        default_read_rlist().contains("lastlockout"@),
        default_read_rlist().contains("LeavingAirTemp"@),
        default_read_rlist().contains("lockoutstatus"@),
        default_read_rlist().contains("looppumppower"@),
        default_read_rlist().contains("ModeOfOperation"@),
        default_read_rlist().contains("totalunitpower"@),
        default_read_rlist().contains("TStatActiveSetpoint"@),
        default_read_rlist().contains("TStatCoolingSetpoint"@),
        default_read_rlist().contains("TStatDehumidSetpoint"@),
        default_read_rlist().contains("TStatHeatingSetpoint"@),
        default_read_rlist().contains("TStatMode"@),
        default_read_rlist().contains("TStatRelativeHumidity"@),
        default_read_rlist().contains("TStatRoomTemp"@),
{
    let d = default_read_rlist();
    assert(d[0] == "ActualCompressorSpeed"@);
    assert(d[1] == "AirflowCurrentSpeed"@);
    assert(d[2] == "AOCEnteringWaterTemp"@);
    assert(d[3] == "AuroraOutputCC"@);
    assert(d[4] == "AuroraOutputCC2"@);
    assert(d[5] == "AuroraOutputEH1"@);
    assert(d[6] == "AuroraOutputEH2"@);
    assert(d[7] == "auroraoutputrv"@);
    assert(d[8] == "auxpower"@);
    assert(d[9] == "AWLABCType"@);
    assert(d[10] == "AWLTStatType"@);
    assert(d[11] == "compressorpower"@);
    assert(d[12] == "dehumid_humid_sp"@);
    assert(d[13] == "EnteringWaterTemp"@);
    assert(d[14] == "fanpower"@);
    assert(d[15] == "homeautomationalarm1"@);
    assert(d[16] == "homeautomationalarm2"@);
    assert(d[17] == "humidity_offset_settings"@);
    assert(d[18] == "iz2_dehumid_humid_sp"@);
    assert(d[19] == "iz2_humidity_offset_settings"@);
    assert(d[20] == "lastfault"@);
    assert(d[21] == "lastlockout"@);
    assert(d[22] == "LeavingAirTemp"@);
    assert(d[23] == "lockoutstatus"@);
    assert(d[24] == "looppumppower"@);
    assert(d[25] == "ModeOfOperation"@);
    assert(d[26] == "totalunitpower"@);
    assert(d[27] == "TStatActiveSetpoint"@);
    assert(d[28] == "TStatCoolingSetpoint"@);
    assert(d[29] == "TStatDehumidSetpoint"@);
    assert(d[30] == "TStatHeatingSetpoint"@);
    assert(d[31] == "TStatMode"@);
    assert(d[32] == "TStatRelativeHumidity"@);
    assert(d[33] == "TStatRoomTemp"@);
}

/// An entry whose key does not start with `z` changes nothing in the zone
/// names, wherever it stands among the entries.
pub proof fn law_non_zone_entry_changes_nothing(
    before: Seq<(String, Option<String>)>,
    x: (String, Option<String>),
    after: Seq<(String, Option<String>)>,
)
    requires
        zone_key_spec(x.0@) is NotZone,
    ensures
        zone_names_spec(before + seq![x] + after) == zone_names_spec(before + after),
    decreases after.len(),
{
    let with = before + seq![x] + after;
    let without = before + after;
    if after.len() == 0 {
        assert(with.drop_last() =~= before);
        assert(without =~= before);
    } else {
        law_non_zone_entry_changes_nothing(before, x, after.drop_last());
        assert(with.drop_last() =~= before + seq![x] + after.drop_last());
        assert(without.drop_last() =~= before + after.drop_last());
        assert(with.last() == without.last());
    }
}

/// Keeps an error text only when it is not empty.
pub fn non_empty_str(o: Option<String>) -> (r: Option<String>)
    ensures
        r == (match o {
            Some(s) => if s@.len() == 0 { None } else { Some(s) },
            None => None,
        }),
{
    match o {
        Some(s) => {
            if s.as_str().unicode_len() == 0 {
                None
            } else {
                Some(s)
            }
        },
        None => None,
    }
}

/// A gateway read asks for the 34 gateway metrics and, for every zone
/// `1..=zones`, its room temperature and its active settings.
pub proof fn law_read_asks_every_zone(zones: nat, z: nat)
    requires
        1 <= z <= zones,
    ensures
        read_rlist(zones).len() == 34 + 2 * zones,
        read_rlist(zones).contains(zone_metric(z, "_roomtemp"@)),
        read_rlist(zones).contains(zone_metric(z, "_activesettings"@)),
{
    lemma_zone_rlist_len(zones);
    lemma_zone_rlist_has(zones, z);
    let d = default_read_rlist();
    let zr = zone_rlist(zones);
    let i: int = 2 * (z - 1);
    assert(read_rlist(zones)[d.len() + i] == zr[i]);
    assert(read_rlist(zones)[d.len() + i + 1] == zr[i + 1]);
}

/// Zone `z` asks for its room temperature at `2 * (z - 1)` and its active
/// settings right after.
proof fn lemma_zone_rlist_has(zones: nat, z: nat)
    requires
        1 <= z <= zones,
    ensures
        zone_rlist(zones).len() == 2 * zones,
        zone_rlist(zones)[2 * (z - 1)] == zone_metric(z, "_roomtemp"@),
        zone_rlist(zones)[2 * (z - 1) + 1] == zone_metric(z, "_activesettings"@),
    decreases zones,
{
    lemma_zone_rlist_len(zones);
    if z < zones {
        lemma_zone_rlist_has((zones - 1) as nat, z);
        lemma_zone_rlist_len((zones - 1) as nat);
    } else {
        lemma_zone_rlist_len((zones - 1) as nat);
    }
}

/// Each zone adds two metrics.
proof fn lemma_zone_rlist_len(zones: nat)
    ensures
        zone_rlist(zones).len() == 2 * zones,
    decreases zones,
{
    if zones > 0 {
        lemma_zone_rlist_len((zones - 1) as nat);
    }
}

} // verus!
