//! The metrics of one zone (`GET /gateways/<id>/zones/<zone>/details`):
//! the per-zone metrics of a gateway read, with the zone prefix taken off
//! their names, and with the fields of the zone's active settings lifted
//! up beside them as they are.

use vstd::prelude::*;

use crate::text::{decimal, has_prefix, str_eq, u8_to_decimal};

verus! {

/// The names of the entries of `s`, in order.
pub open spec fn entry_keys<V>(s: Seq<(String, V)>) -> Seq<Seq<char>> {
    s.map_values(|e: (String, V)| e.0@)
}

/// The map that the entries of `s` spell out (a later entry for a name
/// replaces an earlier one; the lists here have distinct names).
pub open spec fn entry_map<V>(s: Seq<(String, V)>) -> Map<Seq<char>, V>
    decreases s.len(),
{
    if s.len() == 0 {
        Map::empty()
    } else {
        entry_map(s.drop_last()).insert(s.last().0@, s.last().1)
    }
}

/// The map `m` restricted to the names that begin with `p`, with `p` taken
/// off them.
pub open spec fn strip_keys<V>(m: Map<Seq<char>, V>, p: Seq<char>) -> Map<Seq<char>, V> {
    Map::new(|k: Seq<char>| m.contains_key(p + k), |k: Seq<char>| m[p + k])
}

/// The prefix of the metrics of zone `zone`: `iz2_z<zone>_`.
pub open spec fn zone_prefix(zone: u8) -> Seq<char> {
    "iz2_z"@ + decimal(zone as nat) + "_"@
}

/// The metric that holds the active settings of zone `zone`.
pub open spec fn settings_key(zone: u8) -> Seq<char> {
    zone_prefix(zone) + "activesettings"@
}

/// A JSON value of a gateway read.  Numbers are kept as `serde_json`
/// holds them; an object is the list of its fields, in which a later field
/// of a name replaces an earlier one.
#[derive(Debug, PartialEq)]
pub enum Json {
    Null,
    Bool(bool),
    Number(serde_json::Number),
    String(String),
    Array(Vec<Json>),
    Object(Vec<(String, Json)>),
}

/// The details of zone `zone`, from the metrics of its gateway and the
/// fields of its active settings (when that metric is a JSON object): the
/// metrics whose names begin with the zone prefix, with the prefix taken
/// off, except the active settings themselves, joined with every settings
/// field under its own name (a field wins over a metric of the same name).
pub open spec fn zone_details_map<V>(metrics: Map<Seq<char>, V>, zone: u8, settings: Option<Map<Seq<char>, V>>) -> Map<Seq<char>, V> {
    let zone_metrics = strip_keys(metrics.remove(settings_key(zone)), zone_prefix(zone));
    match settings {
        Some(s) => zone_metrics.union_prefer_right(s),
        None => zone_metrics,
    }
}

/// The fields of the active settings of zone `zone` among `metrics`, when
/// that metric is there and is a JSON object.
pub open spec fn settings_fields(metrics: Map<Seq<char>, Json>, zone: u8) -> Option<Map<Seq<char>, Json>> {
    if metrics.contains_key(settings_key(zone)) {
        match metrics[settings_key(zone)] {
            Json::Object(fields) => Some(entry_map(fields@)),
            _ => None,
        }
    } else {
        None
    }
}

/// The names in the map of a list are the names of its entries.
pub(crate) proof fn lemma_entry_dom<V>(s: Seq<(String, V)>, x: Seq<char>)
    ensures
        entry_map(s).contains_key(x) == entry_keys(s).contains(x),
    decreases s.len(),
{
    if s.len() > 0 {
        let r = s.drop_last();
        lemma_entry_dom(r, x);
        assert(entry_keys(s) =~= entry_keys(r).push(s.last().0@));
        if entry_keys(r).contains(x) {
            let i = choose|i: int| 0 <= i < entry_keys(r).len() && entry_keys(r)[i] == x;
            assert(entry_keys(s)[i] == x);
        }
        if entry_keys(s).contains(x) && x != s.last().0@ {
            let i = choose|i: int| 0 <= i < entry_keys(s).len() && entry_keys(s)[i] == x;
            assert(i < r.len());
            assert(entry_keys(r)[i] == x);
        }
        assert(entry_keys(s)[s.len() - 1] == s.last().0@);
    } else {
        assert(!entry_keys(s).contains(x));
    }
}

/// Appending an entry with a new name adds it to the map.
pub(crate) proof fn lemma_push_entry<V>(s: Seq<(String, V)>, k: String, v: V)
    requires
        entry_keys(s).no_duplicates(),
        !entry_keys(s).contains(k@),
    ensures
        entry_keys(s.push((k, v))).no_duplicates(),
        entry_map(s.push((k, v))) == entry_map(s).insert(k@, v),
{
    let t = s.push((k, v));
    assert(t.drop_last() =~= s);
    assert(entry_keys(t) =~= entry_keys(s).push(k@));
    assert(entry_keys(t).no_duplicates()) by {
        assert forall|a: int, b: int| 0 <= a < b < entry_keys(t).len() implies entry_keys(t)[a] != entry_keys(t)[b] by {
            if b == s.len() {
                assert(entry_keys(s)[a] == entry_keys(t)[a]);
            } else {
                assert(entry_keys(s)[a] == entry_keys(t)[a]);
                assert(entry_keys(s)[b] == entry_keys(t)[b]);
            }
        }
    }
}

/// Splitting off the last entry of a list with distinct names.
proof fn lemma_pop_entry<V>(s: Seq<(String, V)>)
    requires
        entry_keys(s).no_duplicates(),
        s.len() > 0,
    ensures
        entry_keys(s.drop_last()).no_duplicates(),
        !entry_map(s.drop_last()).contains_key(s.last().0@),
        entry_map(s) == entry_map(s.drop_last()).insert(s.last().0@, s.last().1),
{
    let r = s.drop_last();
    assert(entry_keys(s) =~= entry_keys(r).push(s.last().0@));
    assert(entry_keys(r).no_duplicates()) by {
        assert forall|a: int, b: int| 0 <= a < b < entry_keys(r).len() implies entry_keys(r)[a] != entry_keys(r)[b] by {
            assert(entry_keys(s)[a] == entry_keys(r)[a]);
            assert(entry_keys(s)[b] == entry_keys(r)[b]);
        }
    }
    if entry_keys(r).contains(s.last().0@) {
        let i = choose|i: int| 0 <= i < entry_keys(r).len() && entry_keys(r)[i] == s.last().0@;
        assert(entry_keys(s)[i] == entry_keys(s)[s.len() - 1]);
    }
    lemma_entry_dom(r, s.last().0@);
}

/// The empty list spells out the empty map.
proof fn lemma_empty_entries<V>(s: Seq<(String, V)>)
    requires
        s.len() == 0,
    ensures
        entry_map(s) == Map::<Seq<char>, V>::empty(),
        entry_keys(s).no_duplicates(),
{
}

/// Prefixing is injective.
proof fn lemma_prefix_injective(p: Seq<char>, a: Seq<char>, b: Seq<char>)
    requires
        p + a == p + b,
    ensures
        a == b,
{
    assert((p + a).subrange(p.len() as int, (p + a).len() as int) =~= a);
    assert((p + b).subrange(p.len() as int, (p + b).len() as int) =~= b);
}

/// Stripping a map after adding a name with the prefix adds the stripped
/// name; adding a name without it changes nothing.
proof fn lemma_strip_insert<V>(m: Map<Seq<char>, V>, p: Seq<char>, k: Seq<char>, v: V)
    ensures
        has_prefix(k, p) ==> strip_keys(m.insert(k, v), p) == strip_keys(m, p).insert(k.subrange(p.len() as int, k.len() as int), v),
        !has_prefix(k, p) ==> strip_keys(m.insert(k, v), p) == strip_keys(m, p),
{
    if has_prefix(k, p) {
        let rest = k.subrange(p.len() as int, k.len() as int);
        assert(p + rest =~= k);
        assert forall|x: Seq<char>| #[trigger] strip_keys(m.insert(k, v), p).contains_key(x) == strip_keys(m, p).insert(rest, v).contains_key(x) by {
            if p + x == k {
                lemma_prefix_injective(p, x, rest);
            }
        }
        assert forall|x: Seq<char>| #[trigger] strip_keys(m.insert(k, v), p).contains_key(x) implies strip_keys(m.insert(k, v), p)[x] == strip_keys(m, p).insert(rest, v)[x] by {
            if p + x == k {
                lemma_prefix_injective(p, x, rest);
            }
        }
        assert(strip_keys(m.insert(k, v), p) =~= strip_keys(m, p).insert(rest, v));
    } else {
        assert forall|x: Seq<char>| p + x != k by {
            if p + x == k {
                assert(k.subrange(0, p.len() as int) =~= p);
            }
        }
        assert(strip_keys(m.insert(k, v), p) =~= strip_keys(m, p));
    }
}

/// The details of zone `zone` from the metrics of its gateway (with
/// distinct names) and the fields of its active settings, if that metric
/// is a JSON object: see [`zone_details_map`].  The result has distinct
/// names.
pub fn zone_details_from<V>(metrics: Vec<(String, V)>, zone: u8, settings: Option<Vec<(String, V)>>) -> (r: Vec<(String, V)>)
    requires
        entry_keys(metrics@).no_duplicates(),
    ensures
        entry_keys(r@).no_duplicates(),
        entry_map(r@) == zone_details_map(
            entry_map(metrics@),
            zone,
            match settings {
                Some(s) => Some(entry_map(s@)),
                None => None,
            },
        ),
{
    let mut prefix = String::from_str("iz2_z");
    let d = u8_to_decimal(zone);
    prefix.append(d.as_str());
    prefix.append("_");
    let mut skey = prefix.clone();
    skey.append("activesettings");
    let ghost p = prefix@;
    assert(p == zone_prefix(zone));
    assert(skey@ == settings_key(zone));

    let mut out: Vec<(String, V)> = Vec::new();
    proof {
        lemma_empty_entries(out@);
    }
    let ghost es0: Map<Seq<char>, V> = match settings { Some(ref s) => entry_map(s@), None => Map::empty() };
    // First the settings fields, from the last one back, so that a later
    // field of a name wins over an earlier one.
    match settings {
        Some(s) => {
            let mut rest = s;
            assert(entry_map(rest@).union_prefer_right(entry_map(out@)) =~= es0);
            while rest.len() > 0
                invariant
                    entry_keys(out@).no_duplicates(),
                    es0 == entry_map(rest@).union_prefer_right(entry_map(out@)),
                decreases rest@.len(),
            {
                let ghost before = rest@;
                let ghost old_out = entry_map(out@);
                let (k, v) = rest.pop().unwrap();
                assert(rest@ == before.drop_last());
                assert(entry_map(before) == entry_map(rest@).insert(k@, v));
                proof {
                    lemma_entry_dom(out@, k@);
                }
                match find_entry(&out, k.as_str()) {
                    Some(j) => {
                        assert(entry_keys(out@)[j as int] == k@);
                        assert(es0 =~= entry_map(rest@).union_prefer_right(entry_map(out@)));
                    },
                    None => {
                        proof {
                            lemma_push_entry(out@, k, v);
                        }
                        out.push((k, v));
                        assert(es0 =~= entry_map(rest@).union_prefer_right(entry_map(out@)));
                    },
                }
            }
            proof {
                lemma_empty_entries(rest@);
                assert(entry_map(out@) =~= es0);
            }
        },
        None => {
            assert(entry_map(out@) =~= es0);
        },
    }
    // Then the metrics of the zone, under their names without the prefix,
    // unless a settings field has that name.
    let mut rest = metrics;
    let ghost em0 = entry_map(rest@);
    let ghost mut done: Map<Seq<char>, V> = Map::empty();
    assert(entry_map(rest@).union_prefer_right(done) =~= em0);
    assert(strip_keys(done.remove(settings_key(zone)), p).union_prefer_right(es0) =~= es0);
    while rest.len() > 0
        invariant
            p == prefix@,
            skey@ == settings_key(zone),
            entry_keys(rest@).no_duplicates(),
            entry_keys(out@).no_duplicates(),
            em0 == entry_map(rest@).union_prefer_right(done),
            entry_map(rest@).dom().disjoint(done.dom()),
            entry_map(out@) == strip_keys(done.remove(settings_key(zone)), p).union_prefer_right(es0),
        decreases rest@.len(),
    {
        let ghost before = rest@;
        proof {
            lemma_pop_entry(before);
        }
        let (k, v) = rest.pop().unwrap();
        assert(rest@ == before.drop_last());
        let ghost old_done = done;
        let ghost old_zone = done.remove(settings_key(zone));
        proof {
            done = done.insert(k@, v);
            assert(em0 =~= entry_map(rest@).union_prefer_right(done));
            assert(entry_map(rest@).dom().disjoint(done.dom()));
            assert(!old_done.contains_key(k@));
        }
        if str_eq(k.as_str(), skey.as_str()) {
            assert(done.remove(settings_key(zone)) =~= old_zone);
        } else {
            proof {
                assert(done.remove(settings_key(zone)) =~= old_zone.insert(k@, v));
                lemma_strip_insert(old_zone, p, k@, v);
            }
            match crate::text::strip_prefix(k.as_str(), prefix.as_str()) {
                Some(stripped) => {
                    let key = String::from_str(stripped);
                    let ghost ks = key@;
                    proof {
                        assert(p + ks =~= k@);
                        lemma_entry_dom(out@, ks);
                        if strip_keys(old_zone, p).contains_key(ks) {
                            assert(old_zone.contains_key(p + ks));
                        }
                    }
                    match find_entry(&out, key.as_str()) {
                        Some(j) => {
                            assert(entry_keys(out@)[j as int] == ks);
                            assert(!old_zone.contains_key(k@));
                            assert(es0.contains_key(ks));
                            assert(entry_map(out@) =~= strip_keys(done.remove(settings_key(zone)), p).union_prefer_right(es0));
                        },
                        None => {
                            proof {
                                lemma_push_entry(out@, key, v);
                            }
                            out.push((key, v));
                            assert(entry_map(out@) =~= strip_keys(done.remove(settings_key(zone)), p).union_prefer_right(es0));
                        },
                    }
                },
                None => {},
            }
        }
    }
    proof {
        lemma_empty_entries(rest@);
        assert(done =~= em0);
    }
    out
}

/// Taking the entry at `i` out of a list with distinct names takes its
/// name out of the map.
proof fn lemma_remove_entry<V>(s: Seq<(String, V)>, i: int)
    requires
        entry_keys(s).no_duplicates(),
        0 <= i < s.len(),
    ensures
        entry_keys(s.remove(i)).no_duplicates(),
        entry_map(s.remove(i)) == entry_map(s).remove(s[i].0@),
    decreases s.len(),
{
    lemma_pop_entry(s);
    let r = s.drop_last();
    if i == s.len() - 1 {
        assert(s.remove(i) =~= r);
        assert(entry_map(s).remove(s[i].0@) =~= entry_map(r));
    } else {
        lemma_remove_entry(r, i);
        let last = s.last();
        assert(s.remove(i) =~= r.remove(i).push(last));
        assert(r[i] == s[i]);
        assert(entry_keys(s)[i] != entry_keys(s)[s.len() - 1]);
        lemma_entry_dom(r.remove(i), last.0@);
        lemma_entry_dom(r, last.0@);
        lemma_push_entry(r.remove(i), last.0, last.1);
        assert(entry_map(s.remove(i)) =~= entry_map(s).remove(s[i].0@));
    }
}

/// The position of the entry named `name`, if there is one.
pub(crate) fn find_entry<V>(entries: &Vec<(String, V)>, name: &str) -> (r: Option<usize>)
    ensures
        match r {
            Some(i) => i < entries@.len() && entries@[i as int].0@ == name@,
            None => !entry_keys(entries@).contains(name@),
        },
{
    let mut i: usize = 0;
    while i < entries.len()
        invariant
            i <= entries@.len(),
            forall|j: int| 0 <= j < i ==> entries@[j].0@ != name@,
        decreases entries@.len() - i,
    {
        if str_eq(entries[i].0.as_str(), name) {
            return Some(i);
        }
        i = i + 1;
    }
    proof {
        if entry_keys(entries@).contains(name@) {
            let j = choose|j: int| 0 <= j < entry_keys(entries@).len() && entry_keys(entries@)[j] == name@;
            assert(entries@[j].0@ == name@);
        }
    }
    None
}

/// The details of zone `zone` from the metrics of its gateway (with
/// distinct names): when the active settings of the zone are a JSON object
/// its fields are lifted up as they are (see [`zone_details_map`]).
pub fn zone_details(metrics: Vec<(String, Json)>, zone: u8) -> (r: Vec<(String, Json)>)
    requires
        entry_keys(metrics@).no_duplicates(),
    ensures
        entry_keys(r@).no_duplicates(),
        entry_map(r@) == zone_details_map(entry_map(metrics@), zone, settings_fields(entry_map(metrics@), zone)),
{
    let mut skey = String::from_str("iz2_z");
    let d = u8_to_decimal(zone);
    skey.append(d.as_str());
    skey.append("_");
    skey.append("activesettings");
    assert(skey@ =~= settings_key(zone));
    let ghost m0 = entry_map(metrics@);
    proof {
        lemma_entry_dom(metrics@, settings_key(zone));
    }
    let mut metrics = metrics;
    let settings = match find_entry(&metrics, skey.as_str()) {
        Some(i) => {
            let ghost before = metrics@;
            proof {
                assert(entry_keys(before)[i as int] == settings_key(zone));
                lemma_remove_entry(before, i as int);
            }
            let (_, v) = metrics.remove(i);
            proof {
                assert(entry_map(metrics@) == m0.remove(settings_key(zone)));
                assert(m0.contains_key(settings_key(zone)));
                assert(m0[settings_key(zone)] == v) by {
                    lemma_entry_at(before, i as int);
                }
            }
            match v {
                Json::Object(fields) => Some(fields),
                _ => None,
            }
        },
        None => None,
    };
    let ghost s = match settings { Some(ref f) => Some(entry_map(f@)), None => None };
    assert(s == settings_fields(m0, zone));
    let r = zone_details_from(metrics, zone, settings);
    assert(entry_map(metrics@).remove(settings_key(zone)) =~= m0.remove(settings_key(zone)));
    r
}

/// In a list with distinct names, the map holds each entry's value under
/// its name.
proof fn lemma_entry_at<V>(s: Seq<(String, V)>, i: int)
    requires
        entry_keys(s).no_duplicates(),
        0 <= i < s.len(),
    ensures
        entry_map(s).contains_key(s[i].0@),
        entry_map(s)[s[i].0@] == s[i].1,
    decreases s.len(),
{
    lemma_pop_entry(s);
    if i < s.len() - 1 {
        lemma_entry_at(s.drop_last(), i);
        assert(s.drop_last()[i] == s[i]);
        assert(entry_keys(s)[i] != entry_keys(s)[s.len() - 1]);
    }
}

} // verus!
