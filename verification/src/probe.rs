//! How the addresses of a domain are checked, and how an event is reported.
use crate::admin::requests::strip_prefix;
use crate::admin::requests;
use crate::config::rules;
use crate::config::rules::is_blank;
use crate::config::types;
use crate::health::HealthCheckConfig;
use crate::ip;
use crate::ip::parses_as_address;
use crate::json_doc;
use crate::json_doc::{push_entry, JsonValue};
use crate::text;
use vstd::prelude::*;

verus! {

/// How an address is checked.
#[derive(Debug, Clone, Copy, PartialEq, Eq, Structural)]
pub enum ProbeKind {
    Tcp,
    Http,
    Https,
}

/// How an address is checked: by a connection where nothing else is asked for.
pub open spec fn kind_of(mode: Seq<char>) -> ProbeKind {
    if rules::fold_eq(mode, "https"@) {
        ProbeKind::Https
    } else if rules::fold_eq(mode, "http"@) {
        ProbeKind::Http
    } else {
        ProbeKind::Tcp
    }
}

/// How an address is checked.
pub fn probe_kind(mode: &str) -> (r: ProbeKind)
    ensures
        r == kind_of(mode@),
{
    if text::same_fold(mode, "https") {
        ProbeKind::Https
    } else if text::same_fold(mode, "http") {
        ProbeKind::Http
    } else {
        ProbeKind::Tcp
    }
}

/// The host that a check asks for: the one of the settings, or the address itself.
pub open spec fn probe_host(c: HealthCheckConfig, ip: Seq<char>) -> Seq<char> {
    match c.http_host_header {
        Some(h) => if rules::blank(h@) {
            ip
        } else {
            h@
        },
        None => ip,
    }
}

/// The path that a check asks for.
pub open spec fn probe_path(c: HealthCheckConfig) -> Seq<char> {
    if c.http_path@.len() > 0 && c.http_path@[0] == '/' {
        c.http_path@
    } else {
        "/"@
    }
}

/// The host that a check asks for.
pub fn host_for(c: &HealthCheckConfig, ip: &str) -> (r: String)
    ensures
        r@ == probe_host(*c, ip@),
{
    match &c.http_host_header {
        Some(h) => if is_blank(h.as_str()) {
            ip.to_owned()
        } else {
            h.clone()
        },
        None => ip.to_owned(),
    }
}

/// The host whose name stands for the checked address in a check over HTTPS: one that differs from
/// the address, where that is an address.
pub open spec fn pinned(c: HealthCheckConfig, ip: Seq<char>) -> Option<Seq<char>> {
    if probe_host(c, ip) != ip && ip::is_address(ip) {
        Some(probe_host(c, ip))
    } else {
        None
    }
}

/// The host whose name stands for the checked address in a check over HTTPS.
pub fn pinned_host(c: &HealthCheckConfig, ip: &str) -> (r: Option<String>)
    ensures
        types::optional_view(r) == pinned(*c, ip@),
{
    let host = host_for(c, ip);
    if !text::same(host.as_str(), ip) && parses_as_address(ip) {
        Some(host)
    } else {
        None
    }
}

/// The path that a check asks for.
pub fn path_for(c: &HealthCheckConfig) -> (r: String)
    ensures
        r@ == probe_path(*c),
{
    let chars = text::chars_of(c.http_path.as_str());
    if chars.len() > 0 && chars[0] == '/' {
        c.http_path.clone()
    } else {
        "/".to_owned()
    }
}

/// The address and port that a check connects to.
pub fn probe_address(c: &HealthCheckConfig, ip: &str) -> (r: String)
    ensures
        r@ == ip@ + ":"@ + text::decimal(c.port as nat),
{
    let mut s = text::concat(ip, ":");
    s.append(text::decimal_of(c.port as u64).as_str());
    s
}

/// The request of a check over HTTP.
pub open spec fn http_request(c: HealthCheckConfig, ip: Seq<char>) -> Seq<char> {
    "HEAD "@ + probe_path(c) + " HTTP/1.1\r\nHost: "@ + probe_host(c, ip)
        + "\r\nConnection: close\r\nUser-Agent: CogniDNS-Health/0.1\r\n\r\n"@
}

/// The request of a check over HTTP.
pub fn http_probe_request(c: &HealthCheckConfig, ip: &str) -> (r: String)
    ensures
        r@ == http_request(*c, ip@),
{
    let mut s = text::concat("HEAD ", path_for(c).as_str());
    s.append(" HTTP/1.1\r\nHost: ");
    s.append(host_for(c, ip).as_str());
    s.append("\r\nConnection: close\r\nUser-Agent: CogniDNS-Health/0.1\r\n\r\n");
    s
}

/// The URL of a check over HTTPS.
pub open spec fn https_url(c: HealthCheckConfig, ip: Seq<char>) -> Seq<char> {
    "https://"@ + probe_host(c, ip) + ":"@ + text::decimal(c.port as nat) + probe_path(c)
}

/// The URL of a check over HTTPS.
pub fn https_probe_url(c: &HealthCheckConfig, ip: &str) -> (r: String)
    ensures
        r@ == https_url(*c, ip@),
{
    let mut s = text::concat("https://", host_for(c, ip).as_str());
    s.append(":");
    s.append(text::decimal_of(c.port as u64).as_str());
    s.append(path_for(c).as_str());
    s
}

/// The bytes `HTTP/1.` with which an answer begins.
pub open spec fn http_prefix() -> Seq<u8> {
    seq![72u8, 84, 84, 80, 47, 49, 46]
}

/// Whether the start of an answer is one of success or redirection: `HTTP/1.0` or `HTTP/1.1`, a
/// space, and a status that begins with 2 or 3.
pub open spec fn is_good_answer(b: Seq<u8>) -> bool {
    b.len() >= 10 && b.take(7) == http_prefix() && (b[7] == 48 || b[7] == 49) && b[8] == 32 && (
    b[9] == 50 || b[9] == 51)
}

/// What the start of an answer to a check over HTTP says.
pub fn check_http_answer(answer: &[u8]) -> (r: Result<(), String>)
    ensures
        match r {
            Ok(_) => is_good_answer(answer@),
            Err(e) => !is_good_answer(answer@) && e@ == (if answer@.len() == 0 {
                "http probe empty response"@
            } else {
                "http probe non-success status"@
            }),
        },
{
    if answer.len() == 0 {
        return Err("http probe empty response".to_owned());
    }
    if answer.len() >= 10 {
        let same = answer[0] == 72 && answer[1] == 84 && answer[2] == 84 && answer[3] == 80
            && answer[4] == 47 && answer[5] == 49 && answer[6] == 46;
        proof {
            let head = answer@.take(7);
            if same {
                assert(head =~= http_prefix());
            } else {
                assert(head[0] == answer@[0] && head[1] == answer@[1] && head[2] == answer@[2]
                    && head[3] == answer@[3] && head[4] == answer@[4] && head[5] == answer@[5]
                    && head[6] == answer@[6]);
            }
        }
        if same && (answer[7] == 48 || answer[7] == 49) && answer[8] == 32 && (answer[9] == 50
            || answer[9] == 51) {
            return Ok(());
        }
    }
    Err("http probe non-success status".to_owned())
}

/// Whether an HTTP status is one of success or redirection.
pub fn is_good_status(status: u16) -> (r: bool)
    ensures
        r == (200 <= status < 400),
{
    200 <= status && status < 400
}

/// The text of the URL that a text writes.
pub uninterp spec fn url_text(s: Seq<char>) -> Option<Seq<char>>;

/// `reqwest::Url::parse` and the `Display` of what it gives; nothing where the text is no URL.
/// Which texts are and how they are printed is left to the name.
#[verifier::external_body]
fn normalize_url(s: &str) -> (r: Option<String>)
    ensures
        url_text(s@) == (match r {
            Some(t) => Some(t@),
            None => None,
        }),
{
    reqwest::Url::parse(s).ok().map(|u| u.to_string())
}

/// Whether a text begins as a URL of HTTP or HTTPS does.
pub open spec fn is_http_like(s: Seq<char>) -> bool {
    requests::after_prefix(s, "http://"@) is Some || requests::after_prefix(s, "https://"@) is Some
}

/// The URL that a setting gives: only one of HTTP or HTTPS.
pub open spec fn http_url(s: Seq<char>) -> Option<Seq<char>> {
    if is_http_like(text::trim(s)) {
        url_text(text::trim(s))
    } else {
        None
    }
}

/// Whether a setting can give a URL: without white space round it, it begins as one of HTTP or
/// HTTPS.
pub fn http_like_text(url: &str) -> (r: Option<String>)
    ensures
        match r {
            Some(t) => t@ == text::trim(url@) && is_http_like(t@),
            None => !is_http_like(text::trim(url@)),
        },
{
    let trimmed = text::trimmed(url);
    if strip_prefix(trimmed.as_str(), "http://").is_some() || strip_prefix(
        trimmed.as_str(),
        "https://",
    ).is_some() {
        Some(trimmed)
    } else {
        None
    }
}

/// The URL that a setting gives.
pub fn parse_http_like_url(url: &str) -> (r: Option<String>)
    ensures
        types::optional_view(r) == http_url(url@),
{
    match http_like_text(url) {
        Some(t) => normalize_url(t.as_str()),
        None => None,
    }
}

/// How far the rounds of checks are apart, in seconds.
pub fn round_interval_secs(c: &HealthCheckConfig) -> (r: u64)
    ensures
        r == (if c.interval_secs == 0 {
            1
        } else {
            c.interval_secs
        }),
{
    if c.interval_secs == 0 {
        1
    } else {
        c.interval_secs
    }
}

/// How many checks run at once.
pub fn checks_at_once(c: &HealthCheckConfig) -> (r: usize)
    ensures
        r == (if c.max_parallel == 0 {
            1
        } else {
            c.max_parallel
        }),
{
    if c.max_parallel == 0 {
        1
    } else {
        c.max_parallel
    }
}

/// How long a report may take, in milliseconds.
pub fn webhook_timeout_ms(c: &HealthCheckConfig) -> (r: u64)
    ensures
        r == (if c.timeout_ms < 500 {
            500
        } else {
            c.timeout_ms
        }),
{
    if c.timeout_ms < 500 {
        500
    } else {
        c.timeout_ms
    }
}

/// What comes after an attempt to report an event.
#[derive(Debug, Clone, Copy, PartialEq, Eq, Structural)]
pub enum AfterAttempt {
    Done,
    RetryAfter(u64),
    GiveUp,
}

/// Two to the power of the number of an attempt, of the sixteenth at most.
pub open spec fn backoff_factor(attempt: nat) -> nat {
    vstd::arithmetic::power2::pow2(
        if attempt < 16 {
            attempt
        } else {
            16
        },
    )
}

/// The wait after an attempt, in milliseconds: it doubles with every attempt.
pub open spec fn backoff(base: u64, attempt: u32) -> u64 {
    if base * backoff_factor(attempt as nat) <= u64::MAX {
        (base * backoff_factor(attempt as nat)) as u64
    } else {
        u64::MAX
    }
}

fn factor(attempt: u32) -> (r: u64)
    ensures
        r == backoff_factor(attempt as nat),
{
    let n: u32 = if attempt < 16 {
        attempt
    } else {
        16
    };
    let mut f: u64 = 1;
    let mut i: u32 = 0;
    proof {
        vstd::arithmetic::power2::lemma2_to64();
    }
    while i < n
        invariant
            i <= n,
            n <= 16,
            f == vstd::arithmetic::power2::pow2(i as nat),
            f <= 65536,
        decreases n - i,
    {
        proof {
            vstd::arithmetic::power2::lemma_pow2_unfold((i + 1) as nat);
            vstd::arithmetic::power2::lemma2_to64();
            if i + 1 < 16 {
                vstd::arithmetic::power2::lemma_pow2_strictly_increases((i + 1) as nat, 16);
            }
        }
        f = f * 2;
        i = i + 1;
    }
    f
}

/// What comes after the attempt with the given number, counted from 0: a success ends the report;
/// after a failure there are as many further attempts as the settings allow.
pub fn after_attempt(c: &HealthCheckConfig, attempt: u32, succeeded: bool) -> (r: AfterAttempt)
    ensures
        r == (if succeeded {
            AfterAttempt::Done
        } else if attempt < c.notify_webhook_retries {
            AfterAttempt::RetryAfter(backoff(c.notify_webhook_backoff_ms, attempt))
        } else {
            AfterAttempt::GiveUp
        }),
{
    if succeeded {
        return AfterAttempt::Done;
    }
    if attempt < c.notify_webhook_retries {
        let f: u64 = factor(attempt);
        let wait: u64 = match c.notify_webhook_backoff_ms.checked_mul(f) {
            Some(w) => w,
            None => 0xffff_ffff_ffff_ffff,
        };
        AfterAttempt::RetryAfter(wait)
    } else {
        AfterAttempt::GiveUp
    }
}

pub open spec fn texts_json(list: Seq<Seq<char>>) -> json_doc::JsonV {
    json_doc::JsonV::Array(list.map_values(|s: Seq<char>| json_doc::JsonV::Str(s)))
}

/// The report of an event.
pub open spec fn webhook_payload(
    millis: nat,
    mode: Seq<char>,
    domain: Seq<char>,
    ips: Seq<Seq<char>>,
    time: Seq<char>,
) -> json_doc::JsonV {
    json_doc::JsonV::Object(
        seq![
            ("request_id"@, json_doc::JsonV::Str("health-"@ + text::decimal(millis))),
            ("event"@, json_doc::JsonV::Str("all_unhealthy"@)),
            ("probe_mode"@, json_doc::JsonV::Str(mode)),
            ("domain"@, json_doc::JsonV::Str(domain)),
            ("ips"@, texts_json(ips)),
            ("time"@, json_doc::JsonV::Str(time)),
        ],
    )
}

fn text_json(s: &str) -> (r: JsonValue)
    ensures
        r@ == json_doc::JsonV::Str(s@),
{
    JsonValue::Str(s.to_owned())
}

fn texts_value(list: &Vec<String>) -> (r: JsonValue)
    ensures
        r@ == texts_json(text::views(list@)),
{
    let mut out: Vec<JsonValue> = Vec::new();
    let mut i: usize = 0;
    while i < list.len()
        invariant
            i <= list@.len(),
            out@.len() == i,
            forall|k: int|
                0 <= k < i ==> (#[trigger] out@[k])@ == json_doc::JsonV::Str(list@[k]@),
        decreases list@.len() - i,
    {
        out.push(text_json(list[i].as_str()));
        i = i + 1;
    }
    proof {
        json_doc::lemma_array_view(out);
        assert(json_doc::array_view(out@) =~= texts_json(text::views(list@))->Array_0);
    }
    JsonValue::Array(out)
}

/// The report of an event as a document. `millis` is the time since the epoch, `time` its text.
pub fn build_webhook_document(
    millis: u64,
    mode: &str,
    domain: &str,
    ips: &Vec<String>,
    time: &str,
) -> (r: JsonValue)
    ensures
        r@ == webhook_payload(millis as nat, mode@, domain@, text::views(ips@), time@),
{
    let mut t: Vec<(String, JsonValue)> = Vec::new();
    push_entry(
        &mut t,
        "request_id",
        JsonValue::Str(text::concat("health-", text::decimal_of(millis).as_str())),
    );
    push_entry(&mut t, "event", text_json("all_unhealthy"));
    push_entry(&mut t, "probe_mode", text_json(mode));
    push_entry(&mut t, "domain", text_json(domain));
    push_entry(&mut t, "ips", texts_value(ips));
    push_entry(&mut t, "time", text_json(time));
    proof {
        json_doc::lemma_object_view(t);
        assert(json_doc::object_view(t@) =~= webhook_payload(
            millis as nat,
            mode@,
            domain@,
            text::views(ips@),
            time@,
        )->Object_0);
    }
    JsonValue::Object(t)
}

/// The report of an event as it is sent.
pub fn build_webhook_body(
    millis: u64,
    mode: &str,
    domain: &str,
    ips: &Vec<String>,
    time: &str,
) -> (r: String)
    ensures
        r@ == json_doc::json_compact(
            webhook_payload(millis as nat, mode@, domain@, text::views(ips@), time@),
        ),
{
    json_doc::print_document(&build_webhook_document(millis, mode, domain, ips, time))
}

/// Texts with commas between them.
pub open spec fn comma_joined(list: Seq<Seq<char>>) -> Seq<char>
    decreases list.len(),
{
    if list.len() == 0 {
        Seq::empty()
    } else if list.len() == 1 {
        list[0]
    } else {
        comma_joined(list.drop_last()) + ","@ + list.last()
    }
}

fn join_with_commas(list: &Vec<String>) -> (r: String)
    ensures
        r@ == comma_joined(text::views(list@)),
{
    let ghost all = text::views(list@);
    let mut out = String::new();
    let mut i: usize = 0;
    assert(all.take(0) =~= Seq::empty());
    assert(out@ =~= Seq::empty());
    while i < list.len()
        invariant
            i <= list@.len(),
            all == text::views(list@),
            out@ == comma_joined(all.take(i as int)),
        decreases list@.len() - i,
    {
        let ghost next = all.take(i + 1);
        proof {
            assert(next.drop_last() =~= all.take(i as int));
            assert(next.last() == list@[i as int]@);
        }
        if i > 0 {
            out.append(",");
        }
        out.append(list[i].as_str());
        proof {
            if i == 0 {
                assert(out@ =~= next[0]);
            }
        }
        i = i + 1;
    }
    assert(all.take(i as int) =~= all);
    out
}

/// The line of an event in the log.
pub fn unhealthy_log_line(timestamp: &str, domain: &str, ips: &Vec<String>) -> (r: String)
    ensures
        r@ == "time="@ + timestamp@ + " event=all_unhealthy domain="@ + domain@ + " ips="@
            + comma_joined(text::views(ips@)) + "\n"@,
{
    let mut s = text::concat("time=", timestamp);
    s.append(" event=all_unhealthy domain=");
    s.append(domain);
    s.append(" ips=");
    s.append(join_with_commas(ips).as_str());
    s.append("\n");
    s
}

} // verus!
