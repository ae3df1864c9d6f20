use vstd::prelude::*;
use vstd::string::*;
use crate::json_value::{Json, JsonNumber};

verus! {

/// Seconds between two looks at the bus.
pub const DEFAULT_WAIT_TIME: u64 = 60;

/// Expiry given to a queue that never drains.
pub const DEFAULT_KEY_EXPIRE_SECS: u64 = 1800;

/// The TTL the broker reports for a key without expiry.
pub const NO_EXPIRY: i64 = -1;

/// What the watcher learned of one queue in one look.
#[derive(Debug)]
pub struct KeyObservation {
    pub key: String,
    /// Length of the list.
    pub count: u64,
    /// The next value in the list, where one was read.
    pub next_value: Option<String>,
    /// The key's TTL, where it could be read.
    pub ttl: Option<i64>,
}

/// A JSON integer, as the json crate encodes one.
pub open spec fn int_number(n: int) -> JsonNumber {
    JsonNumber {
        positive: n >= 0,
        mantissa: if n >= 0 { n as u64 } else { (-n) as u64 },
        exponent: 0,
    }
}

pub fn integer_json(n: i64) -> (r: Json)
    ensures
        r == Json::Number(int_number(n as int)),
{
    let mantissa: u64 = if n >= 0 {
        n as u64
    } else {
        (-(n as i128)) as u64
    };
    Json::Number(JsonNumber { positive: n >= 0, mantissa, exponent: 0 })
}

fn count_json(n: u64) -> (r: Json)
    ensures
        r == Json::Number(JsonNumber { positive: true, mantissa: n, exponent: 0 }),
{
    Json::Number(JsonNumber { positive: true, mantissa: n, exponent: 0 })
}

/// A key that exists without expiry gets one.
pub fn needs_expiry(ttl: Option<i64>) -> (r: bool)
    ensures
        r == (ttl == Some(NO_EXPIRY)),
{
    match ttl {
        Some(t) => t == NO_EXPIRY,
        None => false,
    }
}

/// The keys of the observations that need an expiry, in order.
pub open spec fn expiring(obs: Seq<KeyObservation>) -> Seq<Seq<char>>
    decreases obs.len(),
{
    if obs.len() == 0 {
        Seq::empty()
    } else if obs.last().ttl == Some(NO_EXPIRY) {
        expiring(obs.drop_last()).push(obs.last().key@)
    } else {
        expiring(obs.drop_last())
    }
}

/// The keys to give an expiry after one look at the bus.
pub fn expiring_keys(obs: &Vec<KeyObservation>) -> (r: Vec<String>)
    ensures
        r@.map_values(|s: String| s@) == expiring(obs@),
{
    let mut out: Vec<String> = Vec::new();
    let mut i: usize = 0;
    while i < obs.len()
        invariant
            i <= obs@.len(),
            out@.map_values(|s: String| s@) == expiring(obs@.take(i as int)),
        decreases obs@.len() - i,
    {
        assert(obs@.take(i + 1).drop_last() == obs@.take(i as int));
        if needs_expiry(obs[i].ttl) {
            let ghost prev = out@;
            out.push(obs[i].key.clone());
            assert(out@.map_values(|s: String| s@) =~= prev.map_values(|s: String| s@).push(
                obs@[i as int].key@,
            ));
        }
        i = i + 1;
    }
    assert(obs@.take(obs@.len() as int) == obs@);
    out
}

/// The statistics of one key: its length and next value where the list
/// is not empty, and its TTL where it was read.
pub fn key_stats(o: &KeyObservation) -> (r: Json)
    ensures
        r is Object,
        ({
            let head: Seq<(Seq<char>, Json)> = if o.count > 0 {
                seq![("count"@, Json::Number(JsonNumber { positive: true, mantissa: o.count, exponent: 0 }))]
            } else {
                Seq::empty()
            };
            let mid: Seq<(Seq<char>, Json)> = match o.next_value {
                Some(v) => if o.count > 0 {
                    seq![("next_value"@, Json::Str(v))]
                } else {
                    Seq::empty()
                },
                None => Seq::empty(),
            };
            let tail: Seq<(Seq<char>, Json)> = match o.ttl {
                Some(t) => seq![("ttl"@, Json::Number(int_number(t as int)))],
                None => Seq::empty(),
            };
            r->Object_0@.map_values(|m: (String, Json)| (m.0@, m.1)) =~~= head + mid + tail
        }),
{
    let mut members: Vec<(String, Json)> = Vec::new();
    if o.count > 0 {
        members.push((String::from_str("count"), count_json(o.count)));
        match &o.next_value {
            Some(v) => members.push((String::from_str("next_value"), Json::Str(v.clone()))),
            None => {},
        }
    }
    match o.ttl {
        Some(t) => members.push((String::from_str("ttl"), integer_json(t))),
        None => {},
    }
    Json::Object(members)
}

} // verus!
