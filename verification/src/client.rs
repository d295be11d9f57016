//! The decisions of the Symphony client: what its errors are, what the
//! login reply teaches it, and what it does with each reply and event.

use vstd::prelude::*;

use crate::protocol::{Command, LoginResponse, ReadResponse, Response, ResponseLoginLocations, read_rlist, string_views};
use crate::session::SessionError;
use crate::transactions::{Tid, TransactionList};

verus! {

/// What can go wrong in the client.
pub enum ClientError {
    CommandFailed(String),
    CommandTimeout(String),
    ResponseError(String, Response),
    TransactionFailed(Tid),
    TooManyTransactions,
    SessionError(SessionError),
    SendError(tokio::sync::mpsc::error::SendError<String>),
    UnknownGateway(String),
    WebSockets(tokio_tungstenite::tungstenite::Error),
    ConnectionClosed,
    ExpectedTermination,
}

/// The result of a client operation.
pub type Result<T> = std::result::Result<T, ClientError>;

/// The (gateway id, zone count) pairs of the gateways of `locations`, in
/// the order the login reply lists them.
pub open spec fn gateway_zone_pairs(locations: Seq<ResponseLoginLocations>) -> Seq<(Seq<char>, u8)>
    decreases locations.len(),
{
    if locations.len() == 0 {
        seq![]
    } else {
        gateway_zone_pairs(locations.drop_last()) + locations.last().gateways@.map_values(
            |g: crate::protocol::ResponseLoginGateway| (g.awl_id@, g.max_zones),
        )
    }
}

/// The zone count recorded last for gateway `awl_id` among `pairs`.
pub open spec fn last_zone_count(pairs: Seq<(Seq<char>, u8)>, awl_id: Seq<char>) -> Option<u8>
    decreases pairs.len(),
{
    if pairs.len() == 0 {
        None
    } else if pairs.last().0 == awl_id {
        Some(pairs.last().1)
    } else {
        last_zone_count(pairs.drop_last(), awl_id)
    }
}

/// What the client keeps of a successful login: how many zones each
/// gateway has, and the locations of the account.
pub struct LoginData {
    zone_counts: Vec<(String, u8)>,
    locations: Vec<ResponseLoginLocations>,
}

impl LoginData {
    /// The zone counts are those of the gateways of the locations, in order.
    #[verifier::type_invariant]
    spec fn inv(&self) -> bool {
        self.zone_counts@.map_values(|p: (String, u8)| (p.0@, p.1)) == gateway_zone_pairs(self.locations@)
    }

    /// The locations of the account, as the login reply gave them.
    pub closed spec fn spec_locations(&self) -> Seq<ResponseLoginLocations> {
        self.locations@
    }

    /// The zone count of gateway `awl_id`, as the login reply gave it (the
    /// last entry wins when a gateway is listed twice).
    pub open spec fn spec_zone_count(&self, awl_id: Seq<char>) -> Option<u8> {
        last_zone_count(gateway_zone_pairs(self.spec_locations()), awl_id)
    }

    /// The locations of the account.
    pub fn locations(&self) -> (r: &Vec<ResponseLoginLocations>)
        ensures
            r@ == self.spec_locations(),
    {
        &self.locations
    }

    /// Takes the locations of a login reply and records the zone count of
    /// each of their gateways.
    pub fn from_login(response: LoginResponse) -> (r: LoginData)
        ensures
            r.spec_locations() == response.locations@,
    {
        let locations = response.locations;
        let mut zone_counts: Vec<(String, u8)> = Vec::new();
        let mut i: usize = 0;
        while i < locations.len()
            invariant
                i <= locations@.len(),
                zone_counts@.map_values(|p: (String, u8)| (p.0@, p.1)) == gateway_zone_pairs(
                    locations@.subrange(0, i as int),
                ),
            decreases locations@.len() - i,
        {
            let gateways = &locations[i].gateways;
            let ghost base = zone_counts@.map_values(|p: (String, u8)| (p.0@, p.1));
            let mut j: usize = 0;
            while j < gateways.len()
                invariant
                    j <= gateways@.len(),
                    zone_counts@.map_values(|p: (String, u8)| (p.0@, p.1)) == base
                        + gateways@.subrange(0, j as int).map_values(
                        |g: crate::protocol::ResponseLoginGateway| (g.awl_id@, g.max_zones),
                    ),
                decreases gateways@.len() - j,
            {
                let g = &gateways[j];
                let id = g.awl_id.clone();
                let ghost before = zone_counts@;
                zone_counts.push((id, g.max_zones));
                proof {
                    let f = |p: (String, u8)| (p.0@, p.1);
                    let h = |g: crate::protocol::ResponseLoginGateway| (g.awl_id@, g.max_zones);
                    assert(zone_counts@ == before.push((id, g.max_zones)));
                    assert(zone_counts@.map_values(f) =~= before.map_values(f).push(f((id, g.max_zones))));
                    assert(gateways@.subrange(0, j + 1).map_values(h) =~= gateways@.subrange(
                        0,
                        j as int,
                    ).map_values(h).push(h(gateways@[j as int])));
                }
                j = j + 1;
            }
            proof {
                let ls = locations@.subrange(0, i + 1);
                assert(ls.drop_last() =~= locations@.subrange(0, i as int));
                assert(gateways@.subrange(0, gateways@.len() as int) =~= gateways@);
            }
            i = i + 1;
        }
        assert(locations@.subrange(0, locations@.len() as int) =~= locations@);
        LoginData { zone_counts, locations }
    }

    /// The zone count of gateway `awl_id`, if the login reply listed it.
    pub fn zone_count(&self, awl_id: &str) -> (r: Option<u8>)
        ensures
            r == self.spec_zone_count(awl_id@),
    {
        proof {
            use_type_invariant(self);
        }
        let ghost pairs = gateway_zone_pairs(self.locations@);
        let mut i: usize = self.zone_counts.len();
        assert(pairs.len() == self.zone_counts@.len());
        assert(pairs.subrange(0, i as int) =~= pairs);
        while i > 0
            invariant
                i <= self.zone_counts@.len(),
                self.zone_counts@.map_values(|p: (String, u8)| (p.0@, p.1)) == pairs,
                pairs == gateway_zone_pairs(self.locations@),
                last_zone_count(pairs, awl_id@) == last_zone_count(pairs.subrange(0, i as int), awl_id@),
            decreases i,
        {
            let ghost sub = pairs.subrange(0, i as int);
            assert(pairs[i - 1] == (self.zone_counts@[i - 1].0@, self.zone_counts@[i - 1].1));
            assert(sub.drop_last() =~= pairs.subrange(0, i - 1));
            let (id, count) = &self.zone_counts[i - 1];
            if crate::text::str_eq(id.as_str(), awl_id) {
                return Some(*count);
            }
            i = i - 1;
        }
        None
    }
}

/// The command that reads gateway `awl_id`, given what the login taught the
/// client: fails with `UnknownGateway` when there was no login yet or the
/// login did not list the gateway.
pub fn read_command(login: Option<&LoginData>, awl_id: &str) -> (r: Result<Command>)
    ensures
        match login {
            Some(d) if d.spec_zone_count(awl_id@) is Some => r matches Ok(
                Command::Read { awl_id: a, zone, rlist },
            ) && a@ == awl_id@ && zone == 0 && string_views(rlist@) == read_rlist(
                d.spec_zone_count(awl_id@)->0 as nat,
            ),
            _ => r matches Err(ClientError::UnknownGateway(g)) && g@ == awl_id@,
        },
{
    match login {
        Some(d) => match d.zone_count(awl_id) {
            Some(n) => Ok(Command::read(awl_id, n)),
            None => Err(ClientError::UnknownGateway(String::from_str(awl_id))),
        },
        None => Err(ClientError::UnknownGateway(String::from_str(awl_id))),
    }
}

/// The locations of the account, once the login reply came.
pub fn locations_of(login: Option<&LoginData>) -> (r: Result<&Vec<ResponseLoginLocations>>)
    ensures
        match login {
            Some(d) => r matches Ok(l) && l@ == d.spec_locations(),
            None => r matches Err(ClientError::CommandFailed(m)) && m@
                == "get_locations - no AWL login data found"@,
        },
{
    match login {
        Some(d) => Ok(d.locations()),
        None => Err(ClientError::CommandFailed(String::from_str("get_locations - no AWL login data found"))),
    }
}

/// What a waiting caller is handed for a reply: the reply itself, or, when
/// Symphony put an error text in it, a `ResponseError` with that text.
pub fn commit_outcome(response: Response) -> (r: Result<Response>)
    ensures
        match response.meta().error {
            Some(msg) => r matches Err(ClientError::ResponseError(m, resp)) && m == msg && resp
                == response,
            None => r matches Ok(resp) && resp == response,
        },
{
    match response.error() {
        Some(msg) => Err(ClientError::ResponseError(msg, response)),
        None => Ok(response),
    }
}

/// A WebSocket message, as far as the client could read it.
pub enum Reply {
    /// Not a text frame: discarded.
    NotText,
    /// A complete reply.
    Parsed(Response),
    /// A reply that did not parse as a whole, of which the transaction id
    /// (and maybe an error text) could be read.
    ErrorOnly { transaction_id: Tid, error: Option<String> },
    /// Text that is no reply at all.
    Unreadable,
}

/// What the client does with a message.
pub enum ReplyAction<T> {
    /// Nothing (not a text frame, or unreadable text).
    Ignore,
    /// Hand the outcome to the waiting transaction.
    Deliver(T, Result<Response>),
    /// A reply for a transaction that is not in flight: only logged.
    UnknownTransaction(Response),
    /// Drop the waiting transaction, which makes its caller fail.
    Cancel(T),
    /// A failed reply for a transaction that is not in flight: only logged.
    UnknownCancel(Tid),
}

/// Processes a message from Symphony against the pending transactions: a
/// reply is taken out of the table and delivered (as an error when it
/// carries an error text); a reply that only yields its transaction id
/// cancels that transaction.
pub fn process_reply<T>(table: &mut TransactionList<T>, reply: Reply) -> (r: ReplyAction<T>)
    ensures
        final(table).last() == old(table).last(),
        match reply {
            Reply::NotText | Reply::Unreadable => r is Ignore && final(table).pending() == old(
                table,
            ).pending(),
            Reply::Parsed(resp) => {
                let tid = resp.meta().transaction_id;
                &&& final(table).pending() == old(table).pending().remove(tid)
                &&& if old(table).pending().contains_key(tid) {
                    r matches ReplyAction::Deliver(t, out) && t == old(table).pending()[tid]
                        && match resp.meta().error {
                        Some(msg) => out matches Err(ClientError::ResponseError(m, x)) && m == msg
                            && x == resp,
                        None => out == Ok::<Response, ClientError>(resp),
                    }
                } else {
                    r == ReplyAction::<T>::UnknownTransaction(resp)
                }
            },
            Reply::ErrorOnly { transaction_id, error } => {
                &&& final(table).pending() == old(table).pending().remove(transaction_id)
                &&& if old(table).pending().contains_key(transaction_id) {
                    r == ReplyAction::Cancel(old(table).pending()[transaction_id])
                } else {
                    r == ReplyAction::<T>::UnknownCancel(transaction_id)
                }
            },
        },
{
    match reply {
        Reply::NotText => ReplyAction::Ignore,
        Reply::Unreadable => ReplyAction::Ignore,
        Reply::Parsed(resp) => {
            let tid = resp.transaction_id();
            match table.take(tid) {
                Some(t) => ReplyAction::Deliver(t, commit_outcome(resp)),
                None => ReplyAction::UnknownTransaction(resp),
            }
        },
        Reply::ErrorOnly { transaction_id, error: _ } => match table.take(transaction_id) {
            Some(t) => ReplyAction::Cancel(t),
            None => ReplyAction::UnknownCancel(transaction_id),
        },
    }
}

/// The outcome of the WebSocket login: the login data of a login reply;
/// an error for any other reply, or the error of the command itself.
pub fn login_outcome(result: Result<Response>) -> (r: Result<LoginData>)
    ensures
        match result {
            Ok(Response::Login(lr)) => r matches Ok(d) && d.spec_locations() == lr.locations@,
            Ok(other) => r matches Err(ClientError::ResponseError(m, x)) && x == other && m@
                == "Should have gotten a Response::Login"@,
            Err(e) => r matches Err(e2) && e2 == e,
        },
{
    match result {
        Ok(Response::Login(lr)) => Ok(LoginData::from_login(lr)),
        Ok(other) => Err(
            ClientError::ResponseError(String::from_str("Should have gotten a Response::Login"), other),
        ),
        Err(e) => Err(e),
    }
}

/// The outcome of a gateway read: the read reply; an error for any other
/// reply (whose text, as the client has always had it, names the login
/// reply), or the error of the command itself.
pub fn read_outcome(result: Result<Response>) -> (r: Result<ReadResponse>)
    ensures
        match result {
            Ok(Response::Read(rr)) => r matches Ok(x) && x == rr,
            Ok(other) => r matches Err(ClientError::ResponseError(m, x)) && x == other && m@
                == "Should have gotten a Response::Login"@,
            Err(e) => r matches Err(e2) && e2 == e,
        },
{
    match result {
        Ok(Response::Read(rr)) => Ok(rr),
        Ok(other) => Err(
            ClientError::ResponseError(String::from_str("Should have gotten a Response::Login"), other),
        ),
        Err(e) => Err(e),
    }
}

/// Something that happens while a connected session runs.
pub enum SessionEvent {
    /// A WebSocket message arrived.
    MessageArrived,
    /// Reading the WebSocket failed.
    SocketFailed(tokio_tungstenite::tungstenite::Error),
    /// The WebSocket was closed by the other side.
    SocketClosed,
    /// A command is waiting to be sent.
    Outgoing(String),
    /// The session reached its planned lifetime.
    SessionTimeout,
    /// The owner asked the client to shut down.
    ShutdownRequested,
}

/// What the client does about a session event.
pub enum SessionAction {
    /// Process the message that arrived, and go on.
    ProcessMessage,
    /// Send the text over the WebSocket (a failure is only logged), and go on.
    Send(String),
    /// Stop running the session with this error.
    Fail(ClientError),
    /// Mark the client unready and end this session so that it is renewed.
    Renew,
    /// Mark the client unready, log the session out, forget the pending
    /// transactions, report the shutdown as done, and stop with
    /// `ExpectedTermination`.
    Shutdown,
}

/// The decision the client takes on each event of a running session.
pub fn session_step(event: SessionEvent) -> (r: SessionAction)
    ensures
        match event {
            SessionEvent::MessageArrived => r is ProcessMessage,
            SessionEvent::SocketFailed(e) => r == SessionAction::Fail(ClientError::WebSockets(e)),
            SessionEvent::SocketClosed => r == SessionAction::Fail(ClientError::ConnectionClosed),
            SessionEvent::Outgoing(json) => r == SessionAction::Send(json),
            SessionEvent::SessionTimeout => r is Renew,
            SessionEvent::ShutdownRequested => r is Shutdown,
        },
{
    match event {
        SessionEvent::MessageArrived => SessionAction::ProcessMessage,
        SessionEvent::SocketFailed(e) => SessionAction::Fail(ClientError::WebSockets(e)),
        SessionEvent::SocketClosed => SessionAction::Fail(ClientError::ConnectionClosed),
        SessionEvent::Outgoing(json) => SessionAction::Send(json),
        SessionEvent::SessionTimeout => SessionAction::Renew,
        SessionEvent::ShutdownRequested => SessionAction::Shutdown,
    }
}

/// What `connect` does once a session round (running the session together
/// with the WebSocket login) has ended.
pub enum ConnectStep {
    /// The session ended at its planned timeout: log out, forget the
    /// pending transactions, log in again and run the new session.
    Renew,
    /// Mark the client unready and return this result.
    Finish(Result<()>),
}

/// The decision of `connect` after a session round: a round that ended
/// without error is renewed; a shutdown ends `connect` successfully; any
/// other error ends it with that error.
pub fn connect_step(round: Result<()>) -> (r: ConnectStep)
    ensures
        match round {
            Ok(()) => r is Renew,
            Err(ClientError::ExpectedTermination) => r == ConnectStep::Finish(Ok(())),
            Err(e) => r == ConnectStep::Finish(Err(e)),
        },
{
    match round {
        Ok(()) => ConnectStep::Renew,
        Err(ClientError::ExpectedTermination) => ConnectStep::Finish(Ok(())),
        Err(e) => ConnectStep::Finish(Err(e)),
    }
}

/// Every gateway that the login reply lists can be read afterwards: the
/// client knows its zone count.
pub proof fn law_listed_gateways_are_known(d: LoginData, i: int, j: int)
    requires
        0 <= i < d.spec_locations().len(),
        0 <= j < d.spec_locations()[i].gateways@.len(),
    ensures
        d.spec_zone_count(d.spec_locations()[i].gateways@[j].awl_id@) is Some,
{
    let g = d.spec_locations()[i].gateways@[j];
    let k = lemma_pair_of_gateway(d.spec_locations(), i, j);
    lemma_found_means_count(gateway_zone_pairs(d.spec_locations()), k, g.awl_id@);
}

/// The zone count the client knows for a gateway id is that of a gateway
/// listed under that id in the login reply.
pub proof fn law_zone_count_from_listed_gateway(d: LoginData, awl_id: Seq<char>, n: u8)
    requires
        d.spec_zone_count(awl_id) == Some(n),
    ensures
        exists|i: int, j: int|
            0 <= i < d.spec_locations().len() && 0 <= j < d.spec_locations()[i].gateways@.len()
                && #[trigger] d.spec_locations()[i].gateways@[j].awl_id@ == awl_id
                && d.spec_locations()[i].gateways@[j].max_zones == n,
{
    let k = lemma_count_means_found(gateway_zone_pairs(d.spec_locations()), awl_id);
    let (i, j) = lemma_gateway_of_pair(d.spec_locations(), k);
    assert(d.spec_locations()[i].gateways@[j].awl_id@ == awl_id);
}

/// The pair of a listed gateway is among the pairs, at the returned index.
proof fn lemma_pair_of_gateway(locations: Seq<ResponseLoginLocations>, i: int, j: int) -> (k: int)
    requires
        0 <= i < locations.len(),
        0 <= j < locations[i].gateways@.len(),
    ensures
        0 <= k < gateway_zone_pairs(locations).len(),
        gateway_zone_pairs(locations)[k] == (locations[i].gateways@[j].awl_id@, locations[i].gateways@[j].max_zones),
    decreases locations.len(),
{
    let prev = gateway_zone_pairs(locations.drop_last());
    let f = |g: crate::protocol::ResponseLoginGateway| (g.awl_id@, g.max_zones);
    let last = locations.last().gateways@.map_values(f);
    assert(gateway_zone_pairs(locations) == prev + last);
    if i == locations.len() - 1 {
        assert(last[j] == f(locations[i].gateways@[j]));
        prev.len() + j
    } else {
        assert(locations.drop_last()[i] == locations[i]);
        let k = lemma_pair_of_gateway(locations.drop_last(), i, j);
        assert((prev + last)[k] == prev[k]);
        k
    }
}

/// Every pair comes from a listed gateway.
proof fn lemma_gateway_of_pair(locations: Seq<ResponseLoginLocations>, k: int) -> (ij: (int, int))
    requires
        0 <= k < gateway_zone_pairs(locations).len(),
    ensures
        0 <= ij.0 < locations.len(),
        0 <= ij.1 < locations[ij.0].gateways@.len(),
        gateway_zone_pairs(locations)[k] == (locations[ij.0].gateways@[ij.1].awl_id@, locations[ij.0].gateways@[ij.1].max_zones),
    decreases locations.len(),
{
    let prev = gateway_zone_pairs(locations.drop_last());
    let f = |g: crate::protocol::ResponseLoginGateway| (g.awl_id@, g.max_zones);
    let last = locations.last().gateways@.map_values(f);
    assert(gateway_zone_pairs(locations) == prev + last);
    if k < prev.len() {
        let (i, j) = lemma_gateway_of_pair(locations.drop_last(), k);
        assert(locations.drop_last()[i] == locations[i]);
        assert((prev + last)[k] == prev[k]);
        (i, j)
    } else {
        let j = k - prev.len();
        assert((prev + last)[k] == last[j]);
        (locations.len() - 1, j)
    }
}

/// A gateway id among the pairs has a zone count.
proof fn lemma_found_means_count(pairs: Seq<(Seq<char>, u8)>, k: int, awl_id: Seq<char>)
    requires
        0 <= k < pairs.len(),
        pairs[k].0 == awl_id,
    ensures
        last_zone_count(pairs, awl_id) is Some,
    decreases pairs.len(),
{
    if pairs.last().0 != awl_id {
        assert(k < pairs.len() - 1);
        assert(pairs.drop_last()[k] == pairs[k]);
        lemma_found_means_count(pairs.drop_last(), k, awl_id);
    }
}

/// A zone count comes from a pair with that id and that count.
proof fn lemma_count_means_found(pairs: Seq<(Seq<char>, u8)>, awl_id: Seq<char>) -> (k: int)
    requires
        last_zone_count(pairs, awl_id) is Some,
    ensures
        0 <= k < pairs.len(),
        pairs[k].0 == awl_id,
        Some(pairs[k].1) == last_zone_count(pairs, awl_id),
    decreases pairs.len(),
{
    if pairs.last().0 == awl_id {
        pairs.len() - 1
    } else {
        let k = lemma_count_means_found(pairs.drop_last(), awl_id);
        assert(pairs.drop_last()[k] == pairs[k]);
        k
    }
}

} // verus!
