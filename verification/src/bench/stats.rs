//! What a run of the benchmark changed in the counters of the server.
use crate::ctl_cli;
use crate::json_doc;
use crate::json_doc::{get, get_integer, JsonValue};
use crate::text;
use vstd::prelude::*;

verus! {

/// The request for the counters of the server.
pub fn stats_request(admin_addr: &str) -> (r: String)
    ensures
        r@ == "GET /stats HTTP/1.1\r\nHost: "@ + admin_addr@ + "\r\nConnection: close\r\n\r\n"@,
{
    let mut s = text::concat("GET /stats HTTP/1.1\r\nHost: ", admin_addr);
    s.append("\r\nConnection: close\r\n\r\n");
    s
}

/// The counters of the server at one time.
#[derive(Debug, Clone, Copy)]
pub struct StatsSnapshot {
    pub forwarder_failovers: i64,
    pub iterative_requests_started: i64,
    pub iterative_referral_hops: i64,
    pub iterative_retry_queries: i64,
    pub iterative_successes: i64,
    pub iterative_failures: i64,
    pub iterative_fallbacks: i64,
    pub iterative_loop_detected: i64,
    pub delegation_cache_hit: i64,
    pub delegation_cache_miss: i64,
    pub delegation_cache_written: i64,
    pub delegation_cache_write_skipped: i64,
    pub referral_validation_rejected: i64,
    pub delegation_cache_fallback_to_root: i64,
}

/// A part of a whole, nothing where there is no whole.
#[derive(Debug, Clone, Copy)]
pub struct Ratio {
    pub part: i64,
    pub whole: i64,
}

/// What changed between two times, and the shares of the requests that were started.
#[derive(Debug, Clone, Copy)]
pub struct StatsDelta {
    pub forwarder_failovers: i64,
    pub iterative_requests_started: i64,
    pub iterative_referral_hops: i64,
    pub iterative_retry_queries: i64,
    pub iterative_successes: i64,
    pub iterative_failures: i64,
    pub iterative_fallbacks: i64,
    pub iterative_loop_detected: i64,
    pub delegation_cache_hit: i64,
    pub delegation_cache_miss: i64,
    pub delegation_cache_written: i64,
    pub delegation_cache_write_skipped: i64,
    pub referral_validation_rejected: i64,
    pub delegation_cache_fallback_to_root: i64,
    pub iterative_fallback_ratio: Option<Ratio>,
    pub iterative_referral_ratio: Option<Ratio>,
    pub iterative_retry_ratio: Option<Ratio>,
    pub delegation_cache_hit_ratio: Option<Ratio>,
    pub delegation_cache_write_skipped_ratio: Option<Ratio>,
    pub referral_validation_reject_ratio: Option<Ratio>,
}

pub open spec fn fits(n: int) -> bool {
    i64::MIN <= n <= i64::MAX
}

/// Whether every difference of two snapshots is a 64-bit number.
pub open spec fn differences_fit(after: StatsSnapshot, before: StatsSnapshot) -> bool {
    &&& fits(after.forwarder_failovers - before.forwarder_failovers)
    &&& fits(after.iterative_requests_started - before.iterative_requests_started)
    &&& fits(after.iterative_referral_hops - before.iterative_referral_hops)
    &&& fits(after.iterative_retry_queries - before.iterative_retry_queries)
    &&& fits(after.iterative_successes - before.iterative_successes)
    &&& fits(after.iterative_failures - before.iterative_failures)
    &&& fits(after.iterative_fallbacks - before.iterative_fallbacks)
    &&& fits(after.iterative_loop_detected - before.iterative_loop_detected)
    &&& fits(after.delegation_cache_hit - before.delegation_cache_hit)
    &&& fits(after.delegation_cache_miss - before.delegation_cache_miss)
    &&& fits(after.delegation_cache_written - before.delegation_cache_written)
    &&& fits(after.delegation_cache_write_skipped - before.delegation_cache_write_skipped)
    &&& fits(after.referral_validation_rejected - before.referral_validation_rejected)
    &&& fits(after.delegation_cache_fallback_to_root - before.delegation_cache_fallback_to_root)
}

/// The part of a whole where the whole is positive.
pub open spec fn ratio_of(part: int, whole: int) -> Option<Ratio> {
    if whole <= 0 {
        None
    } else {
        Some(Ratio { part: part as i64, whole: whole as i64 })
    }
}

/// What changed between two snapshots.
pub open spec fn delta_of(after: StatsSnapshot, before: StatsSnapshot) -> StatsDelta {
    let started = after.iterative_requests_started - before.iterative_requests_started;
    StatsDelta {
        forwarder_failovers: (after.forwarder_failovers - before.forwarder_failovers) as i64,
        iterative_requests_started: (after.iterative_requests_started - before.iterative_requests_started) as i64,
        iterative_referral_hops: (after.iterative_referral_hops - before.iterative_referral_hops) as i64,
        iterative_retry_queries: (after.iterative_retry_queries - before.iterative_retry_queries) as i64,
        iterative_successes: (after.iterative_successes - before.iterative_successes) as i64,
        iterative_failures: (after.iterative_failures - before.iterative_failures) as i64,
        iterative_fallbacks: (after.iterative_fallbacks - before.iterative_fallbacks) as i64,
        iterative_loop_detected: (after.iterative_loop_detected - before.iterative_loop_detected) as i64,
        delegation_cache_hit: (after.delegation_cache_hit - before.delegation_cache_hit) as i64,
        delegation_cache_miss: (after.delegation_cache_miss - before.delegation_cache_miss) as i64,
        delegation_cache_written: (after.delegation_cache_written - before.delegation_cache_written) as i64,
        delegation_cache_write_skipped: (after.delegation_cache_write_skipped - before.delegation_cache_write_skipped) as i64,
        referral_validation_rejected: (after.referral_validation_rejected - before.referral_validation_rejected) as i64,
        delegation_cache_fallback_to_root: (after.delegation_cache_fallback_to_root - before.delegation_cache_fallback_to_root) as i64,
        iterative_fallback_ratio: ratio_of(after.iterative_fallbacks - before.iterative_fallbacks, started),
        iterative_referral_ratio: ratio_of(after.iterative_referral_hops - before.iterative_referral_hops, started),
        iterative_retry_ratio: ratio_of(after.iterative_retry_queries - before.iterative_retry_queries, started),
        delegation_cache_hit_ratio: ratio_of(after.delegation_cache_hit - before.delegation_cache_hit, started),
        delegation_cache_write_skipped_ratio: ratio_of(after.delegation_cache_write_skipped - before.delegation_cache_write_skipped, started),
        referral_validation_reject_ratio: ratio_of(after.referral_validation_rejected - before.referral_validation_rejected, started),
    }
}

fn ratio(part: i64, whole: i64) -> (r: Option<Ratio>)
    ensures
        r == ratio_of(part as int, whole as int),
{
    if whole <= 0 {
        None
    } else {
        Some(Ratio { part, whole })
    }
}

impl StatsSnapshot {
    /// What changed since another snapshot; nothing where a difference is too large.
    pub fn delta(&self, before: &StatsSnapshot) -> (r: Option<StatsDelta>)
        ensures
            r == (if differences_fit(*self, *before) {
                Some(delta_of(*self, *before))
            } else {
                None
            }),
    {
        let forwarder_failovers = match self.forwarder_failovers.checked_sub(before.forwarder_failovers) {
            Some(n) => n,
            None => return None,
        };
        let iterative_requests_started = match self.iterative_requests_started.checked_sub(before.iterative_requests_started) {
            Some(n) => n,
            None => return None,
        };
        let iterative_referral_hops = match self.iterative_referral_hops.checked_sub(before.iterative_referral_hops) {
            Some(n) => n,
            None => return None,
        };
        let iterative_retry_queries = match self.iterative_retry_queries.checked_sub(before.iterative_retry_queries) {
            Some(n) => n,
            None => return None,
        };
        let iterative_successes = match self.iterative_successes.checked_sub(before.iterative_successes) {
            Some(n) => n,
            None => return None,
        };
        let iterative_failures = match self.iterative_failures.checked_sub(before.iterative_failures) {
            Some(n) => n,
            None => return None,
        };
        let iterative_fallbacks = match self.iterative_fallbacks.checked_sub(before.iterative_fallbacks) {
            Some(n) => n,
            None => return None,
        };
        let iterative_loop_detected = match self.iterative_loop_detected.checked_sub(before.iterative_loop_detected) {
            Some(n) => n,
            None => return None,
        };
        let delegation_cache_hit = match self.delegation_cache_hit.checked_sub(before.delegation_cache_hit) {
            Some(n) => n,
            None => return None,
        };
        let delegation_cache_miss = match self.delegation_cache_miss.checked_sub(before.delegation_cache_miss) {
            Some(n) => n,
            None => return None,
        };
        let delegation_cache_written = match self.delegation_cache_written.checked_sub(before.delegation_cache_written) {
            Some(n) => n,
            None => return None,
        };
        let delegation_cache_write_skipped = match self.delegation_cache_write_skipped.checked_sub(before.delegation_cache_write_skipped) {
            Some(n) => n,
            None => return None,
        };
        let referral_validation_rejected = match self.referral_validation_rejected.checked_sub(before.referral_validation_rejected) {
            Some(n) => n,
            None => return None,
        };
        let delegation_cache_fallback_to_root = match self.delegation_cache_fallback_to_root.checked_sub(before.delegation_cache_fallback_to_root) {
            Some(n) => n,
            None => return None,
        };
        Some(
            StatsDelta {
                forwarder_failovers,
                iterative_requests_started,
                iterative_referral_hops,
                iterative_retry_queries,
                iterative_successes,
                iterative_failures,
                iterative_fallbacks,
                iterative_loop_detected,
                delegation_cache_hit,
                delegation_cache_miss,
                delegation_cache_written,
                delegation_cache_write_skipped,
                referral_validation_rejected,
                delegation_cache_fallback_to_root,
                iterative_fallback_ratio: ratio(iterative_fallbacks, iterative_requests_started),
                iterative_referral_ratio: ratio(iterative_referral_hops, iterative_requests_started),
                iterative_retry_ratio: ratio(iterative_retry_queries, iterative_requests_started),
                delegation_cache_hit_ratio: ratio(delegation_cache_hit, iterative_requests_started),
                delegation_cache_write_skipped_ratio: ratio(delegation_cache_write_skipped, iterative_requests_started),
                referral_validation_reject_ratio: ratio(referral_validation_rejected, iterative_requests_started),
            },
        )
    }
}

/// The number that an object has under a key, zero where it has none.
pub open spec fn counter(o: json_doc::ObjectV, key: Seq<char>) -> i64 {
    match json_doc::integer_at(o, key) {
        Some(n) => n,
        None => 0,
    }
}

/// The value that a value has under a key, where it is an object.
pub open spec fn member(v: json_doc::JsonV, key: Seq<char>) -> Option<json_doc::JsonV> {
    json_doc::lookup(ctl_cli::fields(v), key)
}

/// The events of the iterative resolver, an empty object where there are none.
pub open spec fn events_of(v: json_doc::JsonV) -> json_doc::ObjectV {
    match member(v, "metrics"@) {
        Some(m) => match member(m, "iterative_events"@) {
            Some(e) => ctl_cli::fields(e),
            None => Seq::empty(),
        },
        None => Seq::empty(),
    }
}

/// The counters that a document gives.
pub open spec fn counters_of(resolver: json_doc::ObjectV, events: json_doc::ObjectV) -> StatsSnapshot {
    StatsSnapshot {
        forwarder_failovers: counter(resolver, "forwarder_failovers"@),
        iterative_requests_started: counter(resolver, "iterative_requests_started"@),
        iterative_referral_hops: counter(resolver, "iterative_referral_hops"@),
        iterative_retry_queries: counter(resolver, "iterative_retry_queries"@),
        iterative_successes: counter(resolver, "iterative_successes"@),
        iterative_failures: counter(resolver, "iterative_failures"@),
        iterative_fallbacks: counter(resolver, "iterative_fallbacks"@),
        iterative_loop_detected: counter(resolver, "iterative_loop_detected"@),
        delegation_cache_hit: counter(events, "delegation_cache_hit"@),
        delegation_cache_miss: counter(events, "delegation_cache_miss"@),
        delegation_cache_written: counter(events, "delegation_cache_written"@),
        delegation_cache_write_skipped: counter(events, "delegation_cache_write_skipped"@),
        referral_validation_rejected: counter(events, "referral_validation_rejected"@),
        delegation_cache_fallback_to_root: counter(events, "delegation_cache_fallback_to_root"@),
    }
}

/// Why an answer of the server holds no counters.
#[derive(Debug, Clone, Copy, PartialEq, Eq, Structural)]
pub enum StatsError {
    /// The answer has no empty line behind its head.
    NoBody,
    /// The body is no JSON.
    NoJson,
    /// The document has no counters of the resolver.
    NoResolver,
}

impl StatsError {
    /// The error in words.
    pub fn message(&self) -> (r: String)
        ensures
            r@ == (match *self {
                StatsError::NoBody => "invalid admin response"@,
                StatsError::NoJson => "failed to decode /stats json"@,
                StatsError::NoResolver => "stats missing resolver object"@,
            }),
    {
        match self {
            StatsError::NoBody => "invalid admin response".to_owned(),
            StatsError::NoJson => "failed to decode /stats json".to_owned(),
            StatsError::NoResolver => "stats missing resolver object".to_owned(),
        }
    }
}

/// The counters of a document.
pub open spec fn snapshot_of(v: json_doc::JsonV) -> Result<StatsSnapshot, StatsError> {
    match member(v, "resolver"@) {
        None => Err(StatsError::NoResolver),
        Some(resolver) => Ok(counters_of(ctl_cli::fields(resolver), events_of(v))),
    }
}

/// What stands behind the first empty line of an answer.
pub open spec fn body_of(s: Seq<char>) -> Option<Seq<char>>
    decreases s.len(),
{
    if s.len() < 4 {
        None
    } else if s[0] == '\r' && s[1] == '\n' && s[2] == '\r' && s[3] == '\n' {
        Some(s.skip(4))
    } else {
        body_of(s.skip(1))
    }
}

/// The counters of an answer.
pub open spec fn stats_of(answer: Seq<char>) -> Result<StatsSnapshot, StatsError> {
    match body_of(answer) {
        None => Err(StatsError::NoBody),
        Some(body) => match json_doc::json_document(body) {
            None => Err(StatsError::NoJson),
            Some(v) => snapshot_of(v),
        },
    }
}

fn object_of<'a>(v: &'a JsonValue, none: &'a Vec<(String, JsonValue)>) -> (r: &'a Vec<
    (String, JsonValue),
>)
    requires
        none@.len() == 0,
    ensures
        json_doc::object_view(r@) == ctl_cli::fields(v@),
{
    match v {
        JsonValue::Object(o) => {
            proof {
                json_doc::lemma_object_view(*o);
            }
            o
        },
        _ => {
            assert(json_doc::object_view(none@) =~= Seq::empty());
            none
        },
    }
}

fn read_counter(o: &Vec<(String, JsonValue)>, key: &str) -> (r: i64)
    ensures
        r == counter(json_doc::object_view(o@), key@),
{
    match get_integer(o, key) {
        Some(n) => n,
        None => 0,
    }
}

/// Reads the counters out of a document.
pub fn read_snapshot(v: &JsonValue) -> (r: Result<StatsSnapshot, StatsError>)
    ensures
        r == snapshot_of(v@),
{
    let none: Vec<(String, JsonValue)> = Vec::new();
    assert(json_doc::object_view(none@) =~= Seq::empty());
    let top = object_of(v, &none);
    let resolver = match get(top, "resolver") {
        Some(resolver) => object_of(resolver, &none),
        None => return Err(StatsError::NoResolver),
    };
    let events = match get(top, "metrics") {
        Some(m) => match get(object_of(m, &none), "iterative_events") {
            Some(e) => object_of(e, &none),
            None => &none,
        },
        None => &none,
    };
    Ok(
        StatsSnapshot {
            forwarder_failovers: read_counter(resolver, "forwarder_failovers"),
            iterative_requests_started: read_counter(resolver, "iterative_requests_started"),
            iterative_referral_hops: read_counter(resolver, "iterative_referral_hops"),
            iterative_retry_queries: read_counter(resolver, "iterative_retry_queries"),
            iterative_successes: read_counter(resolver, "iterative_successes"),
            iterative_failures: read_counter(resolver, "iterative_failures"),
            iterative_fallbacks: read_counter(resolver, "iterative_fallbacks"),
            iterative_loop_detected: read_counter(resolver, "iterative_loop_detected"),
            delegation_cache_hit: read_counter(events, "delegation_cache_hit"),
            delegation_cache_miss: read_counter(events, "delegation_cache_miss"),
            delegation_cache_written: read_counter(events, "delegation_cache_written"),
            delegation_cache_write_skipped: read_counter(events, "delegation_cache_write_skipped"),
            referral_validation_rejected: read_counter(events, "referral_validation_rejected"),
            delegation_cache_fallback_to_root: read_counter(events, "delegation_cache_fallback_to_root"),
        },
    )
}

fn find_body(s: &Vec<char>) -> (r: Option<Vec<char>>)
    ensures
        (match r {
            Some(b) => Some(b@),
            None => None,
        }) == body_of(s@),
{
    let n: usize = s.len();
    let mut i: usize = 0;
    assert(s@.skip(0) =~= s@);
    while n - i >= 4
        invariant
            i <= n,
            n == s@.len(),
            body_of(s@) == body_of(s@.skip(i as int)),
        decreases n - i,
    {
        let ghost rest = s@.skip(i as int);
        assert(rest[0] == s@[i as int] && rest[1] == s@[i + 1] && rest[2] == s@[i + 2] && rest[3]
            == s@[i + 3]);
        if s[i] == '\r' && s[i + 1] == '\n' && s[i + 2] == '\r' && s[i + 3] == '\n' {
            assert(rest.skip(4) =~= s@.skip(i + 4));
            let mut out: Vec<char> = Vec::new();
            let mut k: usize = i + 4;
            assert(out@ =~= s@.subrange(i + 4, i + 4));
            while k < n
                invariant
                    i + 4 <= k <= n,
                    n == s@.len(),
                    out@ == s@.subrange(i + 4, k as int),
                decreases n - k,
            {
                out.push(s[k]);
                assert(out@ =~= s@.subrange(i + 4, k + 1));
                k = k + 1;
            }
            assert(s@.subrange(i + 4, k as int) =~= s@.skip(i + 4));
            return Some(out);
        }
        assert(rest.skip(1) =~= s@.skip(i + 1));
        i = i + 1;
    }
    None
}

/// Reads the counters out of the answer to a request for them.
pub fn read_stats(answer: &str) -> (r: Result<StatsSnapshot, StatsError>)
    ensures
        r == stats_of(answer@),
{
    match find_body(&text::chars_of(answer)) {
        None => Err(StatsError::NoBody),
        Some(body) => match json_doc::read_document(text::string_of(body.as_slice()).as_str()) {
            None => Err(StatsError::NoJson),
            Some(v) => read_snapshot(&v),
        },
    }
}

} // verus!
