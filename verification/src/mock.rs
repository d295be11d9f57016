//! The knobs and the bookkeeping of the mock Symphony service that the
//! tests run against: how often it fails, how long it waits, and what it
//! checks of the requests it gets.

use std::collections::HashMap;
use vstd::prelude::*;

use crate::gateway::details::{entry_keys, entry_map, find_entry, lemma_entry_dom, lemma_push_entry};
use crate::protocol::{default_read_rlist, read_rlist, string_views, zone_metric, zone_rlist, ZONE_RLIST_PREFIX};
use crate::transactions::{law_ids_increase, next_tid};
use crate::text::{decimal, has_prefix, is_digit, lemma_decimal_digits, law_decimal_injective, starts_with, str_eq, u8_to_decimal};

verus! {

broadcast use vstd::std_specs::hash::group_hash_axioms;

/// The session id the mock login hands out.
pub const FAKE_SESSION_ID: &'static str = "0ddc0ffee0ddc0ffee0ddc0ffee";
/// The test message the mock WebSocket answers specially.
pub const HELLO_SEND: &'static str = "Hello";
/// The answer to [`HELLO_SEND`].
pub const HELLO_REPLY: &'static str = "Hola";
/// The id of the one gateway of the mock account.
pub const FAKE_GWID: &'static str = "0DDC0FFEE";
/// The number of zones of the mock gateway.
pub const NUM_ZONES: u8 = 3;

/// The chance, in percent, that the mock fails a request.
pub struct FailProbability(u8);

impl FailProbability {
    /// A chance is a percentage.
    #[verifier::type_invariant]
    spec fn inv(&self) -> bool {
        self.0 <= 100
    }

    /// The chance in percent.
    pub closed spec fn spec_percent(&self) -> u8 {
        self.0
    }

    /// Never fail.
    pub fn never() -> (r: Self)
        ensures
            r.spec_percent() == 0,
    {
        FailProbability(0)
    }

    /// Always fail.
    pub fn always() -> (r: Self)
        ensures
            r.spec_percent() == 100,
    {
        FailProbability(100)
    }

    /// Fail `input` percent of the time; `input` is at most 100.
    pub fn from_percent(input: u8) -> (r: Self)
        requires
            input <= 100,
        ensures
            r.spec_percent() == input,
    {
        FailProbability(input)
    }

    /// The chance in percent.
    pub fn percent(&self) -> (r: u8)
        ensures
            r == self.spec_percent(),
            r <= 100,
    {
        proof {
            use_type_invariant(self);
        }
        self.0
    }
}

/// One end of a range of delays, in milliseconds.
pub enum DelayBound {
    Included(u64),
    Excluded(u64),
    Unbounded,
}

/// How the mock misbehaves: how often it fails a request, and between
/// which delays (in milliseconds) it answers.
pub struct Chaos {
    pub failure: FailProbability,
    pub delay_min: u64,
    pub delay_max: u64,
}

impl Default for Chaos {
    fn default() -> (r: Self)
        ensures
            r.failure.spec_percent() == 0,
            r.delay_min == 0,
            r.delay_max == 0,
    {
        Chaos { failure: FailProbability(0), delay_min: 0, delay_max: 0 }
    }
}

impl Chaos {
    /// No failures and no delay.
    pub fn new() -> (r: Self)
        ensures
            r.failure.spec_percent() == 0,
            r.delay_min == 0,
            r.delay_max == 0,
    {
        Self::default()
    }

    /// No failures and no delay.
    pub fn none() -> (r: Self)
        ensures
            r.failure.spec_percent() == 0,
            r.delay_min == 0,
            r.delay_max == 0,
    {
        Self::default()
    }

    /// Fail every request, without delay.
    pub fn always_fail() -> (r: Self)
        ensures
            r.failure.spec_percent() == 100,
            r.delay_min == 0,
            r.delay_max == 0,
    {
        Chaos { failure: FailProbability::always(), ..Default::default() }
    }

    /// The same chaos, failing with `probability`.
    pub fn fail_at(self, probability: FailProbability) -> (r: Self)
        ensures
            r.failure == probability,
            r.delay_min == self.delay_min,
            r.delay_max == self.delay_max,
    {
        let mut c = self;
        c.failure = probability;
        c
    }

    /// The same chaos, with delays from `start` to `end` (in
    /// milliseconds): an excluded start counts from the next millisecond,
    /// an excluded end up to the one before, and an unbounded start from 0.
    /// The end must be bounded.
    pub fn delay_between_ms(self, start: DelayBound, end: DelayBound) -> (r: Self)
        requires
            start matches DelayBound::Excluded(n) ==> n < u64::MAX,
            end matches DelayBound::Excluded(n) ==> n > 0,
            !(end is Unbounded),
        ensures
            r.failure == self.failure,
            r.delay_min == (match start {
                DelayBound::Included(n) => n,
                DelayBound::Excluded(n) => (n + 1) as u64,
                DelayBound::Unbounded => 0,
            }),
            r.delay_max == (match end {
                DelayBound::Included(n) => n,
                DelayBound::Excluded(n) => (n - 1) as u64,
                DelayBound::Unbounded => 0,
            }),
    {
        let start_abs: u64 = match start {
            DelayBound::Included(n) => n,
            DelayBound::Excluded(n) => n + 1,
            DelayBound::Unbounded => 0,
        };
        let end_abs: u64 = match end {
            DelayBound::Included(n) => n,
            DelayBound::Excluded(n) => n - 1,
            DelayBound::Unbounded => 0,
        };
        let mut c = self;
        c.delay_min = start_abs;
        c.delay_max = end_abs;
        c
    }

    /// The mean delay in microseconds: half the sum of the two ends, which
    /// is exact at this grain since both ends are whole milliseconds.
    pub fn delay_mean(&self) -> (r: u128)
        ensures
            r == (self.delay_max + self.delay_min) * 500,
    {
        (self.delay_max as u128 + self.delay_min as u128) * 500
    }
}

/// Whether a text message is the test greeting, which the mock answers
/// with [`HELLO_REPLY`] before it reads any request.
pub fn is_hello(text: &str) -> (r: bool)
    ensures
        r == (text@ == HELLO_SEND@),
{
    str_eq(text, HELLO_SEND)
}

/// Whether a login command carries the session id that the mock's HTTP
/// login hands out; the mock refuses any other.
pub fn session_accepted(session_id: &str) -> (r: bool)
    ensures
        r == (session_id@ == FAKE_SESSION_ID@),
{
    str_eq(session_id, FAKE_SESSION_ID)
}

/// What the mock's WebSocket remembers of the requests it got: the last
/// transaction id.  The client counts from 1, so it starts at 0.
pub struct TransactionOrder {
    last_tid: u8,
}

impl TransactionOrder {
    /// The last transaction id seen.
    pub closed spec fn last(&self) -> u8 {
        self.last_tid
    }

    /// Nothing seen yet.
    pub fn new() -> (r: Self)
        ensures
            r.last() == 0,
    {
        TransactionOrder { last_tid: 0 }
    }

    /// Takes the transaction id of the next request: it must be greater
    /// than the last one, which it then replaces.  An id out of order is
    /// refused and leaves the order as it was.
    pub fn accept(&mut self, tid: u8) -> (r: bool)
        ensures
            r == (tid > old(self).last()),
            final(self).last() == (if r { tid } else { old(self).last() }),
    {
        if tid > self.last_tid {
            self.last_tid = tid;
            true
        } else {
            false
        }
    }

    /// The last transaction id seen.
    pub fn last_tid(&self) -> (r: u8)
        ensures
            r == self.last(),
    {
        self.last_tid
    }
}

/// The metrics the mock answers a read of zone `zone` with: every
/// requested metric reads 0, and `zone` reads the zone of the request
/// unless a requested metric has that name.
pub open spec fn read_reply_map(zone: u8, rlist: Seq<Seq<char>>) -> Map<Seq<char>, u64> {
    Map::new(
        |k: Seq<char>| rlist.contains(k) || k == "zone"@,
        |k: Seq<char>| if rlist.contains(k) { 0u64 } else { zone as u64 },
    )
}

/// The metrics of the mock's reply to a read of zone `zone` asking for
/// `rlist`, each name once (see [`read_reply_map`]).
pub fn read_reply_metrics(zone: u8, rlist: &Vec<String>) -> (r: Vec<(String, u64)>)
    ensures
        entry_keys(r@).no_duplicates(),
        entry_map(r@) == read_reply_map(zone, string_views(rlist@)),
{
    let ghost keys = string_views(rlist@);
    let mut out: Vec<(String, u64)> = Vec::new();
    let mut i: usize = 0;
    assert(entry_map(out@) =~= Map::new(|k: Seq<char>| keys.subrange(0, 0).contains(k), |k: Seq<char>| 0u64));
    while i < rlist.len()
        invariant
            i <= rlist@.len(),
            keys == string_views(rlist@),
            keys.len() == rlist@.len(),
            entry_keys(out@).no_duplicates(),
            entry_map(out@) == Map::new(|k: Seq<char>| keys.subrange(0, i as int).contains(k), |k: Seq<char>| 0u64),
        decreases rlist@.len() - i,
    {
        let key = &rlist[i];
        let ghost before = out@;
        let ghost upto = keys.subrange(0, i as int);
        let ghost next = keys.subrange(0, i + 1);
        assert(next =~= upto.push(key@));
        proof {
            lemma_entry_dom(before, key@);
            assert forall|k: Seq<char>| #[trigger] next.contains(k) == (upto.contains(k) || k == key@) by {
                if upto.contains(k) {
                    let j = choose|j: int| 0 <= j < upto.len() && upto[j] == k;
                    assert(next[j] == k);
                }
                if k == key@ {
                    assert(next[i as int] == k);
                }
                if next.contains(k) {
                    let j = choose|j: int| 0 <= j < next.len() && next[j] == k;
                    if j < i {
                        assert(upto[j] == k);
                    }
                }
            }
        }
        match find_entry(&out, key.as_str()) {
            Some(j) => {
                proof {
                    assert(entry_keys(before)[j as int] == key@);
                    assert(upto.contains(key@));
                    assert(entry_map(out@) =~= Map::new(|k: Seq<char>| next.contains(k), |k: Seq<char>| 0u64));
                }
            },
            None => {
                out.push((key.clone(), 0));
                proof {
                    let e = out@.last();
                    assert(e.0@ == key@);
                    assert(out@ =~= before.push(e));
                    lemma_push_entry(before, e.0, 0u64);
                    assert(!upto.contains(key@));
                    assert(entry_map(out@) =~= Map::new(|k: Seq<char>| next.contains(k), |k: Seq<char>| 0u64));
                }
            },
        }
        i = i + 1;
    }
    assert(keys.subrange(0, keys.len() as int) =~= keys);
    let ghost before = out@;
    proof {
        reveal_strlit("zone");
        lemma_entry_dom(before, "zone"@);
    }
    match find_entry(&out, "zone") {
        Some(j) => {
            proof {
                assert(entry_keys(before)[j as int] == "zone"@);
                assert(entry_map(out@) =~= read_reply_map(zone, keys));
            }
        },
        None => {
            out.push((String::from_str("zone"), zone as u64));
            proof {
                let e = out@.last();
                assert(out@ =~= before.push(e));
                lemma_push_entry(before, e.0, zone as u64);
                assert(entry_map(out@) =~= read_reply_map(zone, keys));
            }
        },
    }
    out
}

/// The kind of the mock gateway.
pub enum ResponseGatewayType {
    AWL,
}

/// The zone names of the mock login reply.  Each of the zones
/// `1..=num_zones` writes its name under key 1, so the last one wins.
pub fn fake_zone_names(num_zones: u8) -> (r: HashMap<u8, String>)
    ensures
        num_zones == 0 ==> r@.len() == 0,
        num_zones > 0 ==> r@.dom() == set![1u8] && r@[1] @ == "Zone "@ + decimal(num_zones as nat),
{
    let mut names: HashMap<u8, String> = HashMap::new();
    let mut zone: u16 = 1;
    while zone <= num_zones as u16
        invariant
            1 <= zone <= num_zones as u16 + 1,
            zone == 1 ==> names@ == Map::<u8, String>::empty(),
            zone > 1 ==> names@.dom() == set![1u8] && names@[1] @ == "Zone "@ + decimal((zone - 1) as nat),
        decreases num_zones as u16 + 1 - zone,
    {
        let mut name = String::from_str("Zone ");
        let d = u8_to_decimal(zone as u8);
        name.append(d.as_str());
        names.insert(1, name);
        proof {
            assert(names@.dom() =~= set![1u8]);
        }
        zone = zone + 1;
    }
    names
}

/// The characters of `k` after its first `_`, up to the next `_` or the end
/// (the second field of `k.split('_')`); empty when `k` has no `_`.
pub open spec fn second_field(k: Seq<char>) -> Seq<char> {
    let i = first_index_of(k, '_', 0);
    if i >= k.len() {
        seq![]
    } else {
        k.subrange(i + 1, first_index_of(k, '_', i + 1))
    }
}

/// The first position at or after `j` that holds `c`, or the length.
pub open spec fn first_index_of(k: Seq<char>, c: char, j: int) -> int
    decreases k.len() - j,
{
    if j < 0 || j >= k.len() {
        k.len() as int
    } else if k[j] == c {
        j
    } else {
        first_index_of(k, c, j + 1)
    }
}

/// The first position at or after `from` of `c` in `s`.
fn find_char(s: &str, c: char, from: usize) -> (r: usize)
    requires
        from <= s@.len(),
    ensures
        r == first_index_of(s@, c, from as int),
        from <= r <= s@.len(),
{
    let n = s.unicode_len();
    let mut j = from;
    while j < n
        invariant
            n == s@.len(),
            from <= j <= n,
            first_index_of(s@, c, from as int) == first_index_of(s@, c, j as int),
        decreases n - j,
    {
        if s.get_char(j) == c {
            return j;
        }
        j = j + 1;
    }
    j
}

/// The zone (`z<n>`) that a metric of a read request is about, for the
/// per-zone metrics (`iz2_z...`).
pub open spec fn requested_zone(key: Seq<char>) -> Option<Seq<char>> {
    if has_prefix(key, "iz2_z"@) {
        Some(second_field(key))
    } else {
        None
    }
}

/// The zone a metric name is about, if it is a per-zone metric.
pub fn zone_of_metric(key: &str) -> (r: Option<String>)
    ensures
        match requested_zone(key@) {
            Some(z) => r matches Some(s) && s@ == z,
            None => r is None,
        },
{
    if !starts_with(key, "iz2_z") {
        return None;
    }
    let n = key.unicode_len();
    let i = find_char(key, '_', 0);
    if i >= n {
        proof {
            reveal_strlit("");
        }
        assert(""@ =~= seq![]);
        return Some(String::from_str(""));
    }
    let j = find_char(key, '_', i + 1);
    Some(String::from_str(key.substring_char(i + 1, j)))
}

/// The distinct zones a list of metrics is about.
pub open spec fn requested_zones(rlist: Seq<Seq<char>>) -> Set<Seq<char>>
    decreases rlist.len(),
{
    if rlist.len() == 0 {
        Set::empty()
    } else {
        match requested_zone(rlist.last()) {
            Some(z) => requested_zones(rlist.drop_last()).insert(z),
            None => requested_zones(rlist.drop_last()),
        }
    }
}

/// How many distinct zones a read request asks about; the mock checks it
/// against the number of zones of its gateway.
pub fn count_requested_zones(rlist: &Vec<String>) -> (r: usize)
    ensures
        r == requested_zones(string_views(rlist@)).len(),
{
    let ghost keys = string_views(rlist@);
    let mut seen: Vec<String> = Vec::new();
    let mut i: usize = 0;
    while i < rlist.len()
        invariant
            i <= rlist@.len(),
            keys == string_views(rlist@),
            keys.len() == rlist@.len(),
            string_views(seen@).to_set() == requested_zones(keys.subrange(0, i as int)),
            string_views(seen@).no_duplicates(),
            seen@.len() == string_views(seen@).len(),
        decreases rlist@.len() - i,
    {
        let ghost sub = keys.subrange(0, i + 1);
        assert(sub.drop_last() =~= keys.subrange(0, i as int));
        assert(sub.last() == rlist@[i as int]@);
        match zone_of_metric(rlist[i].as_str()) {
            Some(z) => {
                let mut found = false;
                let mut j: usize = 0;
                while j < seen.len()
                    invariant
                        j <= seen@.len(),
                        found == exists|m: int| 0 <= m < j && #[trigger] seen@[m]@ == z@,
                    decreases seen@.len() - j,
                {
                    if str_eq(seen[j].as_str(), z.as_str()) {
                        found = true;
                    }
                    j = j + 1;
                }
                let ghost views = string_views(seen@);
                if !found {
                    let ghost before = seen@;
                    seen.push(z);
                    proof {
                        let f = |s: String| s@;
                        assert(string_views(seen@) =~= views.push(z@));
                        assert(!views.contains(z@)) by {
                            if views.contains(z@) {
                                let m = choose|m: int| 0 <= m < views.len() && views[m] == z@;
                                assert(before[m]@ == z@);
                            }
                        }
                        views.lemma_push_to_set_commute(z@);
                    }
                } else {
                    proof {
                        let m = choose|m: int| 0 <= m < seen@.len() && #[trigger] seen@[m]@ == z@;
                        assert(views[m] == z@);
                        assert(views.to_set().contains(z@));
                        assert(views.to_set().insert(z@) =~= views.to_set());
                    }
                }
            },
            None => {},
        }
        i = i + 1;
    }
    assert(keys.subrange(0, keys.len() as int) =~= keys);
    proof {
        string_views(seen@).unique_seq_to_set();
    }
    seen.len()
}

/// The mock's check that transaction ids increase accepts the client's
/// requests until its ids wrap: when the mock has seen the client's last
/// id, that id is below 255 and no later id is in flight, the id the
/// client hands out next is accepted.
pub proof fn law_mock_accepts_next_client_id(order: TransactionOrder, last: u8, used: Set<u8>)
    requires
        order.last() == last,
        last < 255,
        forall|t: u8| #[trigger] used.contains(t) ==> t <= last,
    ensures
        next_tid(last, used) matches Some(t) && t > order.last(),
{
    law_ids_increase(last, used);
}

/// The labels `z1` to `z<n>` of the zones `1..=n`.
pub open spec fn zone_labels(n: nat) -> Set<Seq<char>>
    decreases n,
{
    if n == 0 {
        Set::empty()
    } else {
        zone_labels((n - 1) as nat).insert(seq!['z'] + decimal(n))
    }
}

/// A read of a gateway with `zones` zones, as the client builds it, asks
/// about exactly `zones` distinct zones, so the mock's check on the number
/// of requested zones accepts the client's read of its gateway.
pub proof fn law_client_read_asks_each_zone_once(zones: nat)
    ensures
        requested_zones(read_rlist(zones)) == zone_labels(zones),
        zone_labels(zones).finite(),
        zone_labels(zones).len() == zones,
    decreases zones,
{
    lemma_zone_labels(zones);
    if zones == 0 {
        lemma_default_rlist_has_no_zone_metric();
        assert(read_rlist(0) =~= default_read_rlist());
        lemma_no_zone_metrics(default_read_rlist());
    } else {
        law_client_read_asks_each_zone_once((zones - 1) as nat);
        let prev = read_rlist((zones - 1) as nat);
        let a = zone_metric(zones, "_roomtemp"@);
        let b = zone_metric(zones, "_activesettings"@);
        assert(read_rlist(zones) =~= prev.push(a).push(b));
        assert(prev.push(a).push(b).drop_last() =~= prev.push(a));
        assert(prev.push(a).drop_last() =~= prev);
        reveal_strlit("_roomtemp");
        reveal_strlit("_activesettings");
        lemma_zone_metric_zone(zones, "_roomtemp"@);
        lemma_zone_metric_zone(zones, "_activesettings"@);
        let label = seq!['z'] + decimal(zones);
        let pa = prev.push(a);
        assert(pa.push(b).last() == b);
        assert(requested_zones(pa) == requested_zones(prev).insert(label));
        assert(requested_zones(pa.push(b)) == requested_zones(pa).insert(label));
        assert(requested_zones(prev).insert(label).insert(label) =~= zone_labels(zones));
    }
}

/// `zone_labels(n)` holds the label of each zone `1..=n`, each once.
proof fn lemma_zone_labels(n: nat)
    ensures
        zone_labels(n).finite(),
        zone_labels(n).len() == n,
        forall|x: Seq<char>| #[trigger] zone_labels(n).contains(x) ==> exists|z: nat|
            1 <= z <= n && x == seq!['z'] + decimal(z),
    decreases n,
{
    if n > 0 {
        let m = (n - 1) as nat;
        lemma_zone_labels(m);
        let label = seq!['z'] + decimal(n);
        if zone_labels(m).contains(label) {
            let z = choose|z: nat| 1 <= z <= m && label == seq!['z'] + decimal(z);
            assert(decimal(z) =~= label.drop_first());
            assert(decimal(n) =~= label.drop_first());
            law_decimal_injective(z, n);
        }
    }
}

/// The first `c` at or after `j` is at `m` when `m` holds `c` and nothing
/// between `j` and `m` does.
proof fn lemma_first_index_at(k: Seq<char>, c: char, j: int, m: int)
    requires
        0 <= j <= m < k.len(),
        k[m] == c,
        forall|t: int| j <= t < m ==> k[t] != c,
    ensures
        first_index_of(k, c, j) == m,
    decreases m - j,
{
    if j < m {
        lemma_first_index_at(k, c, j + 1, m);
    }
}

/// A per-zone metric of zone `z` is about the zone labelled `z<z>`.
proof fn lemma_zone_metric_zone(z: nat, suffix: Seq<char>)
    requires
        suffix.len() > 0,
        suffix[0] == '_',
    ensures
        requested_zone(zone_metric(z, suffix)) == Some(seq!['z'] + decimal(z)),
{
    reveal_strlit("iz2_z");
    lemma_decimal_digits(z);
    let d = decimal(z);
    let k = zone_metric(z, suffix);
    let p = "iz2_z"@;
    assert(k =~= p + d + suffix);
    assert(k.subrange(0, 5) =~= p);
    assert(has_prefix(k, p));
    lemma_first_index_at(k, '_', 0, 3);
    let m: int = 5 + d.len() as int;
    assert(k[m] == suffix[0]);
    assert forall|t: int| 4 <= t < m implies k[t] != '_' by {
        if t >= 5 {
            assert(k[t] == d[t - 5]);
            assert(is_digit(d[t - 5]));
        }
    }
    lemma_first_index_at(k, '_', 4, m);
    assert(second_field(k) =~= seq!['z'] + d);
}

/// A list none of whose metrics is a per-zone one asks about no zone.
proof fn lemma_no_zone_metrics(s: Seq<Seq<char>>)
    requires
        forall|i: int| 0 <= i < s.len() ==> requested_zone(#[trigger] s[i]) is None,
    ensures
        requested_zones(s) == Set::<Seq<char>>::empty(),
    decreases s.len(),
{
    if s.len() > 0 {
        let t = s.drop_last();
        assert forall|i: int| 0 <= i < t.len() implies requested_zone(#[trigger] t[i]) is None by {
            assert(t[i] == s[i]);
        }
        lemma_no_zone_metrics(t);
        assert(requested_zone(s[s.len() - 1]) is None);
    }
}

/// A name that differs from `iz2_z` at position `j` is no per-zone metric.
proof fn lemma_not_zone_metric(s: Seq<char>, j: int)
    requires
        0 <= j < 5,
        j < s.len(),
        s[j] != "iz2_z"@[j],
    ensures
        requested_zone(s) is None,
{
    reveal_strlit("iz2_z");
    if has_prefix(s, "iz2_z"@) {
        assert(s.subrange(0, 5)[j] == s[j]);
    }
}

/// None of the gateway metrics of a read is a per-zone metric.
proof fn lemma_default_rlist_has_no_zone_metric()
    ensures
        forall|i: int| 0 <= i < default_read_rlist().len() ==> requested_zone(#[trigger] default_read_rlist()[i]) is None,
{
    reveal_strlit("iz2_z");
    reveal_strlit("ActualCompressorSpeed");
    reveal_strlit("AirflowCurrentSpeed");
    reveal_strlit("AOCEnteringWaterTemp");
    reveal_strlit("AuroraOutputCC");
    reveal_strlit("AuroraOutputCC2");
    reveal_strlit("AuroraOutputEH1");
    reveal_strlit("AuroraOutputEH2");
    reveal_strlit("auroraoutputrv");
    reveal_strlit("auxpower");
    reveal_strlit("AWLABCType");
    reveal_strlit("AWLTStatType");
    reveal_strlit("compressorpower");
    reveal_strlit("dehumid_humid_sp");
    reveal_strlit("EnteringWaterTemp");
    reveal_strlit("fanpower");
    reveal_strlit("homeautomationalarm1");
    reveal_strlit("homeautomationalarm2");
    reveal_strlit("humidity_offset_settings");
    reveal_strlit("iz2_dehumid_humid_sp");
    reveal_strlit("iz2_humidity_offset_settings");
    reveal_strlit("lastfault");
    reveal_strlit("lastlockout");
    reveal_strlit("LeavingAirTemp");
    reveal_strlit("lockoutstatus");
    reveal_strlit("looppumppower");
    reveal_strlit("ModeOfOperation");
    reveal_strlit("totalunitpower");
    reveal_strlit("TStatActiveSetpoint");
    reveal_strlit("TStatCoolingSetpoint");
    reveal_strlit("TStatDehumidSetpoint");
    reveal_strlit("TStatHeatingSetpoint");
    reveal_strlit("TStatMode");
    reveal_strlit("TStatRelativeHumidity");
    reveal_strlit("TStatRoomTemp");
    let d = default_read_rlist();
    assert forall|i: int| 0 <= i < d.len() implies requested_zone(#[trigger] d[i]) is None by {
        if i == 18 || i == 19 {
            lemma_not_zone_metric(d[i], 4);
        } else {
            lemma_not_zone_metric(d[i], 0);
        }
    }
}

} // verus!
