//! The HTTP gateway in front of the Symphony client: which gateways and
//! zones it lists, which status it answers with, and how it supervises the
//! client connection.

use vstd::prelude::*;

use crate::client::ClientError;
use crate::protocol::{ResponseLoginGateway, ResponseLoginLocations};
use crate::text::str_eq;

pub mod details;

verus! {

broadcast use vstd::std_specs::hash::group_hash_axioms;

/// A gateway as `/gateways` lists it.
pub struct GatewayItem {
    pub location: String,
    pub gwid: String,
    pub system_name: String,
}

impl View for GatewayItem {
    type V = (Seq<char>, Seq<char>, Seq<char>);

    open spec fn view(&self) -> (Seq<char>, Seq<char>, Seq<char>) {
        (self.location@, self.gwid@, self.system_name@)
    }
}

/// A zone as `/gateways/<id>/zones` lists it.
pub struct ZoneItem {
    pub location: String,
    pub gwid: String,
    pub system_name: String,
    pub zone_id: u8,
    pub zone_name: String,
}

impl View for ZoneItem {
    type V = (Seq<char>, Seq<char>, Seq<char>, u8, Seq<char>);

    open spec fn view(&self) -> (Seq<char>, Seq<char>, Seq<char>, u8, Seq<char>) {
        (self.location@, self.gwid@, self.system_name@, self.zone_id, self.zone_name@)
    }
}

/// The gateways of `locations`, location by location, each with the
/// description of its location.
pub open spec fn gateway_items(locations: Seq<ResponseLoginLocations>) -> Seq<(Seq<char>, Seq<char>, Seq<char>)>
    decreases locations.len(),
{
    if locations.len() == 0 {
        seq![]
    } else {
        let loc = locations.last();
        gateway_items(locations.drop_last()) + loc.gateways@.map_values(
            |g: ResponseLoginGateway| (loc.description@, g.awl_id@, g.description@),
        )
    }
}

/// Lists the gateways of the account (`GET /gateways`).
pub fn list_gateways(locations: &Vec<ResponseLoginLocations>) -> (r: Vec<GatewayItem>)
    ensures
        r@.map_values(|it: GatewayItem| it@) == gateway_items(locations@),
{
    let mut out: Vec<GatewayItem> = Vec::new();
    let mut i: usize = 0;
    while i < locations.len()
        invariant
            i <= locations@.len(),
            out@.map_values(|it: GatewayItem| it@) == gateway_items(locations@.subrange(0, i as int)),
        decreases locations@.len() - i,
    {
        let loc = &locations[i];
        let ghost base = out@.map_values(|it: GatewayItem| it@);
        let ghost h = |g: ResponseLoginGateway| (loc.description@, g.awl_id@, g.description@);
        let mut j: usize = 0;
        while j < loc.gateways.len()
            invariant
                j <= loc.gateways@.len(),
                h == (|g: ResponseLoginGateway| (loc.description@, g.awl_id@, g.description@)),
                out@.map_values(|it: GatewayItem| it@) == base + loc.gateways@.subrange(0, j as int).map_values(h),
            decreases loc.gateways@.len() - j,
        {
            let g = &loc.gateways[j];
            let item = GatewayItem {
                location: loc.description.clone(),
                gwid: g.awl_id.clone(),
                system_name: g.description.clone(),
            };
            let ghost before = out@;
            out.push(item);
            proof {
                let f = |it: GatewayItem| it@;
                assert(out@.map_values(f) =~= before.map_values(f).push(f(item)));
                assert(loc.gateways@.subrange(0, j + 1).map_values(h) =~= loc.gateways@.subrange(
                    0,
                    j as int,
                ).map_values(h).push(h(loc.gateways@[j as int])));
            }
            j = j + 1;
        }
        proof {
            assert(locations@.subrange(0, i + 1).drop_last() =~= locations@.subrange(0, i as int));
            assert(loc.gateways@.subrange(0, loc.gateways@.len() as int) =~= loc.gateways@);
        }
        i = i + 1;
    }
    assert(locations@.subrange(0, locations@.len() as int) =~= locations@);
    out
}

/// Whether a zone passes the filters of a zones request: the gateway id
/// (none for `*`) and the zone id (if one was asked for).
pub open spec fn zone_wanted(item: (Seq<char>, Seq<char>, Seq<char>, u8, Seq<char>), gwid: Option<Seq<char>>, zone: Option<u8>) -> bool {
    &&& gwid matches Some(id) ==> item.1 == id
    &&& zone matches Some(z) ==> item.3 == z
}

/// The zones of gateway `g` (of the location described as `loc`) with ids
/// below `n`, in increasing id order, that pass the filters.
pub open spec fn gateway_zone_items(loc: Seq<char>, g: ResponseLoginGateway, n: nat, gwid: Option<Seq<char>>, zone: Option<u8>) -> Seq<(Seq<char>, Seq<char>, Seq<char>, u8, Seq<char>)>
    decreases n,
{
    if n == 0 {
        seq![]
    } else {
        let prev = gateway_zone_items(loc, g, (n - 1) as nat, gwid, zone);
        let z = (n - 1) as u8;
        let item = (loc, g.awl_id@, g.description@, z, g.zone_names@[z]@);
        if g.zone_names@.contains_key(z) && zone_wanted(item, gwid, zone) {
            prev.push(item)
        } else {
            prev
        }
    }
}

/// The zones of the gateways `gateways` of the location described as `loc`
/// that pass the filters.
pub open spec fn location_zone_items(loc: Seq<char>, gateways: Seq<ResponseLoginGateway>, gwid: Option<Seq<char>>, zone: Option<u8>) -> Seq<(Seq<char>, Seq<char>, Seq<char>, u8, Seq<char>)>
    decreases gateways.len(),
{
    if gateways.len() == 0 {
        seq![]
    } else {
        location_zone_items(loc, gateways.drop_last(), gwid, zone) + gateway_zone_items(
            loc,
            gateways.last(),
            256,
            gwid,
            zone,
        )
    }
}

/// The zones of all gateways of `locations` that pass the filters:
/// location by location, gateway by gateway, zone ids increasing.
pub open spec fn zone_items(locations: Seq<ResponseLoginLocations>, gwid: Option<Seq<char>>, zone: Option<u8>) -> Seq<(Seq<char>, Seq<char>, Seq<char>, u8, Seq<char>)>
    decreases locations.len(),
{
    if locations.len() == 0 {
        seq![]
    } else {
        zone_items(locations.drop_last(), gwid, zone) + location_zone_items(
            locations.last().description@,
            locations.last().gateways@,
            gwid,
            zone,
        )
    }
}

/// Appends the zones of one gateway that pass the filters.
fn push_gateway_zones(out: &mut Vec<ZoneItem>, loc: &String, g: &ResponseLoginGateway, gwid: Option<&str>, zone: Option<u8>)
    ensures
        final(out)@.map_values(|it: ZoneItem| it@) == old(out)@.map_values(|it: ZoneItem| it@)
            + gateway_zone_items(loc@, *g, 256, match gwid { Some(s) => Some(s@), None => None }, zone),
{
    let ghost gw = match gwid { Some(s) => Some(s@), None => None::<Seq<char>> };
    let ghost base = out@.map_values(|it: ZoneItem| it@);
    let gw_matches = match gwid {
        Some(s) => str_eq(g.awl_id.as_str(), s),
        None => true,
    };
    let mut n: u16 = 0;
    while n < 256
        invariant
            n <= 256,
            gw == (match gwid { Some(s) => Some(s@), None => None::<Seq<char>> }),
            gw_matches == (gw matches Some(id) ==> g.awl_id@ == id),
            out@.map_values(|it: ZoneItem| it@) == base + gateway_zone_items(loc@, *g, n as nat, gw, zone),
        decreases 256 - n,
    {
        let z = n as u8;
        let zone_ok = match zone {
            Some(want) => want == z,
            None => true,
        };
        let ghost prev = gateway_zone_items(loc@, *g, n as nat, gw, zone);
        assert(gateway_zone_items(loc@, *g, (n + 1) as nat, gw, zone) == {
            let item = (loc@, g.awl_id@, g.description@, z, g.zone_names@[z]@);
            if g.zone_names@.contains_key(z) && zone_wanted(item, gw, zone) { prev.push(item) } else { prev }
        });
        match g.zone_names.get(&z) {
            Some(name) => {
                if gw_matches && zone_ok {
                    let item = ZoneItem {
                        location: loc.clone(),
                        gwid: g.awl_id.clone(),
                        system_name: g.description.clone(),
                        zone_id: z,
                        zone_name: name.clone(),
                    };
                    let ghost before = out@;
                    out.push(item);
                    proof {
                        let f = |it: ZoneItem| it@;
                        assert(out@.map_values(f) =~= before.map_values(f).push(f(item)));
                    }
                }
            },
            None => {},
        }
        n = n + 1;
    }
}

/// Lists the zones of the account (`GET /gateways/<id>/zones[/<zone>]`):
/// all gateways for the id `*`, otherwise those with that id; only the zone
/// asked for, if one was.  A zone id together with `*` is a bad request,
/// and an empty list is "not found".
pub enum ZonesOutcome {
    BadRequest,
    NotFound,
    Found(Vec<ZoneItem>),
}

/// Answers a zones request from the locations of the account; the zones of
/// a gateway come in increasing zone id order.
pub fn list_zones(locations: &Vec<ResponseLoginLocations>, request_awl_id: &str, request_zone_id: Option<u8>) -> (r: ZonesOutcome)
    ensures
        ({
            let all = request_awl_id@ == "*"@;
            let items = zone_items(locations@, if all { None } else { Some(request_awl_id@) }, request_zone_id);
            if all && request_zone_id is Some {
                r is BadRequest
            } else if items.len() == 0 {
                r is NotFound
            } else {
                r matches ZonesOutcome::Found(v) && v@.map_values(|it: ZoneItem| it@) == items
            }
        }),
        r matches ZonesOutcome::Found(v) ==> forall|k: int| 0 <= k < v@.len() ==> {
            &&& request_awl_id@ != "*"@ ==> (#[trigger] v@[k]).gwid@ == request_awl_id@
            &&& request_zone_id matches Some(z) ==> v@[k].zone_id == z
        },
{
    let all = str_eq(request_awl_id, "*");
    if all && request_zone_id.is_some() {
        return ZonesOutcome::BadRequest;
    }
    let gwid: Option<&str> = if all { None } else { Some(request_awl_id) };
    let ghost gw = match gwid { Some(s) => Some(s@), None => None::<Seq<char>> };
    assert(gw == (if all { None } else { Some(request_awl_id@) }));
    let mut out: Vec<ZoneItem> = Vec::new();
    let mut i: usize = 0;
    while i < locations.len()
        invariant
            i <= locations@.len(),
            gw == (match gwid { Some(s) => Some(s@), None => None::<Seq<char>> }),
            out@.map_values(|it: ZoneItem| it@) == zone_items(locations@.subrange(0, i as int), gw, request_zone_id),
        decreases locations@.len() - i,
    {
        let loc = &locations[i];
        let ghost base = out@.map_values(|it: ZoneItem| it@);
        let mut j: usize = 0;
        while j < loc.gateways.len()
            invariant
                j <= loc.gateways@.len(),
                gw == (match gwid { Some(s) => Some(s@), None => None::<Seq<char>> }),
                out@.map_values(|it: ZoneItem| it@) == base + location_zone_items(
                    loc.description@,
                    loc.gateways@.subrange(0, j as int),
                    gw,
                    request_zone_id,
                ),
            decreases loc.gateways@.len() - j,
        {
            push_gateway_zones(&mut out, &loc.description, &loc.gateways[j], gwid, request_zone_id);
            proof {
                assert(loc.gateways@.subrange(0, j + 1).drop_last() =~= loc.gateways@.subrange(0, j as int));
            }
            j = j + 1;
        }
        proof {
            assert(locations@.subrange(0, i + 1).drop_last() =~= locations@.subrange(0, i as int));
            assert(loc.gateways@.subrange(0, loc.gateways@.len() as int) =~= loc.gateways@);
        }
        i = i + 1;
    }
    assert(locations@.subrange(0, locations@.len() as int) =~= locations@);
    proof {
        law_listed_zones_pass_the_filters(locations@, gw, request_zone_id);
        let items = zone_items(locations@, gw, request_zone_id);
        assert forall|k: int| 0 <= k < out@.len() implies {
            &&& request_awl_id@ != "*"@ ==> (#[trigger] out@[k]).gwid@ == request_awl_id@
            &&& request_zone_id matches Some(z) ==> out@[k].zone_id == z
        } by {
            assert(out@.map_values(|it: ZoneItem| it@)[k] == out@[k]@);
            assert(items[k] == out@[k]@);
        }
    }
    if out.len() == 0 {
        ZonesOutcome::NotFound
    } else {
        ZonesOutcome::Found(out)
    }
}

/// Every zone of a list passes the filters of the request: its gateway id
/// is the one asked for (unless every gateway was), and its zone id the one
/// asked for (if one was).
pub open spec fn zones_pass(items: Seq<(Seq<char>, Seq<char>, Seq<char>, u8, Seq<char>)>, gwid: Option<Seq<char>>, zone: Option<u8>) -> bool {
    forall|k: int| 0 <= k < items.len() ==> {
        &&& gwid matches Some(id) ==> (#[trigger] items[k]).1 == id
        &&& zone matches Some(z) ==> items[k].3 == z
    }
}

/// A zones request lists only zones of the gateway asked for (unless every
/// gateway was asked for), whether or not a zone id was given, and only the
/// zone asked for (if one was).
pub proof fn law_listed_zones_pass_the_filters(locations: Seq<ResponseLoginLocations>, gwid: Option<Seq<char>>, zone: Option<u8>)
    ensures
        zones_pass(zone_items(locations, gwid, zone), gwid, zone),
    decreases locations.len(),
{
    if locations.len() > 0 {
        law_listed_zones_pass_the_filters(locations.drop_last(), gwid, zone);
        lemma_location_zones_pass(locations.last().description@, locations.last().gateways@, gwid, zone);
        lemma_pass_concat(zone_items(locations.drop_last(), gwid, zone), location_zone_items(
            locations.last().description@,
            locations.last().gateways@,
            gwid,
            zone,
        ), gwid, zone);
    }
}

/// The zones of the gateways of one location pass the filters.
proof fn lemma_location_zones_pass(loc: Seq<char>, gateways: Seq<ResponseLoginGateway>, gwid: Option<Seq<char>>, zone: Option<u8>)
    ensures
        zones_pass(location_zone_items(loc, gateways, gwid, zone), gwid, zone),
    decreases gateways.len(),
{
    if gateways.len() > 0 {
        lemma_location_zones_pass(loc, gateways.drop_last(), gwid, zone);
        lemma_gateway_zones_pass(loc, gateways.last(), 256, gwid, zone);
        lemma_pass_concat(
            location_zone_items(loc, gateways.drop_last(), gwid, zone),
            gateway_zone_items(loc, gateways.last(), 256, gwid, zone),
            gwid,
            zone,
        );
    }
}

/// The zones of one gateway pass the filters.
proof fn lemma_gateway_zones_pass(loc: Seq<char>, g: ResponseLoginGateway, n: nat, gwid: Option<Seq<char>>, zone: Option<u8>)
    ensures
        zones_pass(gateway_zone_items(loc, g, n, gwid, zone), gwid, zone),
    decreases n,
{
    if n > 0 {
        lemma_gateway_zones_pass(loc, g, (n - 1) as nat, gwid, zone);
        let prev = gateway_zone_items(loc, g, (n - 1) as nat, gwid, zone);
        let z = (n - 1) as u8;
        let item = (loc, g.awl_id@, g.description@, z, g.zone_names@[z]@);
        if g.zone_names@.contains_key(z) && zone_wanted(item, gwid, zone) {
            let s = prev.push(item);
            assert forall|k: int| 0 <= k < s.len() implies {
                &&& gwid matches Some(id) ==> (#[trigger] s[k]).1 == id
                &&& zone matches Some(w) ==> s[k].3 == w
            } by {
                if k < prev.len() {
                    assert(s[k] == prev[k]);
                }
            }
        }
    }
}

/// Two lists whose zones pass the filters, joined.
proof fn lemma_pass_concat(a: Seq<(Seq<char>, Seq<char>, Seq<char>, u8, Seq<char>)>, b: Seq<(Seq<char>, Seq<char>, Seq<char>, u8, Seq<char>)>, gwid: Option<Seq<char>>, zone: Option<u8>)
    requires
        zones_pass(a, gwid, zone),
        zones_pass(b, gwid, zone),
    ensures
        zones_pass(a + b, gwid, zone),
{
    let s = a + b;
    assert forall|k: int| 0 <= k < s.len() implies {
        &&& gwid matches Some(id) ==> (#[trigger] s[k]).1 == id
        &&& zone matches Some(w) ==> s[k].3 == w
    } by {
        if k < a.len() {
            assert(s[k] == a[k]);
        } else {
            assert(s[k] == b[k - a.len()]);
        }
    }
}

/// The gateway answers with 503 while its Symphony client is not ready.
pub struct BackendUnavailable;

/// Lets a request through only while the client is ready.
pub fn check_ready(ready: bool) -> (r: Result<(), BackendUnavailable>)
    ensures
        r is Ok == ready,
{
    if ready {
        Ok(())
    } else {
        Err(BackendUnavailable)
    }
}

/// The HTTP status of a refused request: 404 for an unknown route or
/// gateway, 504 when Symphony timed out, 502 for other client errors, 503
/// while the client is not ready, 500 otherwise.
pub fn rejection_status(not_found: bool, client_error: Option<&ClientError>, backend_unavailable: bool) -> (r: u16)
    ensures
        r == (if not_found {
            404
        } else if let Some(e) = client_error {
            match e {
                ClientError::UnknownGateway(_) => 404u16,
                ClientError::CommandTimeout(_) => 504u16,
                _ => 502u16,
            }
        } else if backend_unavailable {
            503
        } else {
            500
        }),
{
    if not_found {
        404
    } else if let Some(e) = client_error {
        match e {
            ClientError::UnknownGateway(_) => 404,
            ClientError::CommandTimeout(_) => 504,
            _ => 502,
        }
    } else if backend_unavailable {
        503
    } else {
        500
    }
}

/// What can stop the gateway.
pub enum ServerError {
    ClientError(ClientError),
    ClientGone,
    ServerPanic,
    RetryGiveUp,
    IoError(std::io::Error),
}

/// Something the gateway's supervisor waits for.
pub enum SupervisorEvent {
    /// The client connection ended, without error (`true`) or with one.
    ConnectEnded(bool),
    /// The backoff policy gave another retry interval (`true`) or gave up.
    BackoffNext(bool),
    /// After a reconnect, the client became ready in time (`true`) or not.
    ReadyAgain(bool),
    /// The HTTP server ended, by shutdown (`true`) or by a panic.
    ServeEnded(bool),
}

/// What the supervisor does next.
pub enum SupervisorAction {
    /// Ask the backoff policy for the next retry interval.
    NextBackoff,
    /// Reconnect the client, then wait at most the retry interval for it to
    /// become ready.
    Reconnect,
    /// Start the backoff over: the next failure retries quickly again.
    ResetBackoff,
    /// Keep waiting for the client and the server.
    Continue,
    /// Log the client out and stop without error.
    LogoutAndStop,
    /// Stop with this error.
    Stop(ServerError),
}

/// Whether the gateway serves requests after `event`, `ready` before: a
/// client failure stops it, the client becoming ready again restarts it,
/// and nothing else changes it.
pub open spec fn readiness_after(ready: bool, event: SupervisorEvent) -> bool {
    match event {
        SupervisorEvent::ConnectEnded(false) => false,
        SupervisorEvent::ReadyAgain(true) => true,
        _ => ready,
    }
}

/// Whether the gateway serves requests after `events`, `ready` before.
pub open spec fn readiness_after_all(ready: bool, events: Seq<SupervisorEvent>) -> bool
    decreases events.len(),
{
    if events.len() == 0 {
        ready
    } else {
        readiness_after(readiness_after_all(ready, events.drop_last()), events.last())
    }
}

/// Among `events`, whether the last client failure or recovery was a
/// recovery (`None` when there was neither).
pub open spec fn last_switch(events: Seq<SupervisorEvent>) -> Option<bool>
    decreases events.len(),
{
    if events.len() == 0 {
        None
    } else {
        match events.last() {
            SupervisorEvent::ConnectEnded(false) => Some(false),
            SupervisorEvent::ReadyAgain(true) => Some(true),
            _ => last_switch(events.drop_last()),
        }
    }
}

/// The gateway serves requests exactly when the last client failure was
/// followed by the client becoming ready again (or, with no failure and no
/// recovery yet, when it did at the start): after a failure it answers 503
/// until the client is ready again, whatever else happens meanwhile.
pub proof fn law_readiness_follows_last_switch(ready: bool, events: Seq<SupervisorEvent>)
    ensures
        readiness_after_all(ready, events) == (match last_switch(events) {
            Some(b) => b,
            None => ready,
        }),
    decreases events.len(),
{
    if events.len() > 0 {
        law_readiness_follows_last_switch(ready, events.drop_last());
    }
}

/// The decision of the supervisor on an event, with whether the gateway
/// serves requests afterwards (`ready` before).  A client that stops on
/// its own is gone; a client that fails is retried with backoff while the
/// gateway answers 503, until it is ready again.
pub fn supervisor_step(ready: bool, event: SupervisorEvent) -> (r: (bool, SupervisorAction))
    ensures
        r.0 == readiness_after(ready, event),
        match event {
            SupervisorEvent::ConnectEnded(true) => r.0 == ready && r.1 == SupervisorAction::Stop(ServerError::ClientGone),
            SupervisorEvent::ConnectEnded(false) => !r.0 && r.1 is NextBackoff,
            SupervisorEvent::BackoffNext(true) => r.0 == ready && r.1 is Reconnect,
            SupervisorEvent::BackoffNext(false) => r.0 == ready && r.1 == SupervisorAction::Stop(ServerError::RetryGiveUp),
            SupervisorEvent::ReadyAgain(true) => r.0 && r.1 is ResetBackoff,
            SupervisorEvent::ReadyAgain(false) => r.0 == ready && r.1 is Continue,
            SupervisorEvent::ServeEnded(true) => r.0 == ready && r.1 is LogoutAndStop,
            SupervisorEvent::ServeEnded(false) => r.0 == ready && r.1 == SupervisorAction::Stop(ServerError::ServerPanic),
        },
{
    match event {
        SupervisorEvent::ConnectEnded(ok) => {
            if ok {
                (ready, SupervisorAction::Stop(ServerError::ClientGone))
            } else {
                (false, SupervisorAction::NextBackoff)
            }
        },
        SupervisorEvent::BackoffNext(more) => {
            if more {
                (ready, SupervisorAction::Reconnect)
            } else {
                (ready, SupervisorAction::Stop(ServerError::RetryGiveUp))
            }
        },
        SupervisorEvent::ReadyAgain(ok) => {
            if ok {
                (true, SupervisorAction::ResetBackoff)
            } else {
                (ready, SupervisorAction::Continue)
            }
        },
        SupervisorEvent::ServeEnded(ok) => {
            if ok {
                (ready, SupervisorAction::LogoutAndStop)
            } else {
                (ready, SupervisorAction::Stop(ServerError::ServerPanic))
            }
        },
    }
}

} // verus!
