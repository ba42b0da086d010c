//! Health checks of the addresses behind a domain.
use crate::config::rules;
use crate::config::rules::{is_blank, ConfigError};
use crate::config::types;
use crate::json_doc;
use crate::text;
use vstd::prelude::*;

verus! {

#[derive(Debug, Clone)]
pub struct HealthCheckConfig {
    pub enabled: bool,
    pub mode: String,
    pub port: u16,
    pub http_path: String,
    pub http_host_header: Option<String>,
    pub interval_secs: u64,
    pub timeout_ms: u64,
    pub max_parallel: usize,
    pub failure_threshold: u32,
    pub success_threshold: u32,
    pub all_unhealthy_log_file: String,
    pub notify_webhook: Option<String>,
    pub probe_tls_insecure_skip_verify: bool,
    pub webhook_tls_insecure_skip_verify: bool,
    pub notify_webhook_retries: u32,
    pub notify_webhook_backoff_ms: u64,
}

pub open spec fn is_default_health_check(c: HealthCheckConfig) -> bool {
    &&& !c.enabled
    &&& c.mode@ == "tcp"@
    &&& c.port == 80
    &&& c.http_path@ == "/"@
    &&& c.http_host_header is None
    &&& c.interval_secs == 30
    &&& c.timeout_ms == 1000
    &&& c.max_parallel == 64
    &&& c.failure_threshold == 2
    &&& c.success_threshold == 1
    &&& c.all_unhealthy_log_file@ == "logs/health-all-unhealthy.log"@
    &&& c.notify_webhook is None
    &&& !c.probe_tls_insecure_skip_verify
    &&& !c.webhook_tls_insecure_skip_verify
    &&& c.notify_webhook_retries == 2
    &&& c.notify_webhook_backoff_ms == 500
}

impl Default for HealthCheckConfig {
    fn default() -> (r: Self)
        ensures
            is_default_health_check(r),
    {
        HealthCheckConfig {
            enabled: false,
            mode: "tcp".to_owned(),
            port: 80,
            http_path: "/".to_owned(),
            http_host_header: None,
            interval_secs: 30,
            timeout_ms: 1000,
            max_parallel: 64,
            failure_threshold: 2,
            success_threshold: 1,
            all_unhealthy_log_file: "logs/health-all-unhealthy.log".to_owned(),
            notify_webhook: None,
            probe_tls_insecure_skip_verify: false,
            webhook_tls_insecure_skip_verify: false,
            notify_webhook_retries: 2,
            notify_webhook_backoff_ms: 500,
        }
    }
}

/// The first rule that the settings break, in words.
pub open spec fn health_check_error(c: HealthCheckConfig) -> Option<Seq<char>> {
    if !c.enabled {
        None
    } else if !rules::fold_eq(c.mode@, "tcp"@) && !rules::fold_eq(c.mode@, "http"@)
        && !rules::fold_eq(c.mode@, "https"@) {
        Some("health_check.mode must be either 'tcp', 'http' or 'https'"@)
    } else if c.port == 0 {
        Some("health_check.port must be greater than 0"@)
    } else if c.interval_secs == 0 {
        Some("health_check.interval_secs must be greater than 0"@)
    } else if c.timeout_ms == 0 {
        Some("health_check.timeout_ms must be greater than 0"@)
    } else if c.max_parallel == 0 {
        Some("health_check.max_parallel must be greater than 0"@)
    } else if c.failure_threshold == 0 {
        Some("health_check.failure_threshold must be greater than 0"@)
    } else if c.success_threshold == 0 {
        Some("health_check.success_threshold must be greater than 0"@)
    } else if rules::blank(c.http_path@) {
        Some("health_check.http_path must not be empty"@)
    } else if c.notify_webhook_retries > 10 {
        Some("health_check.notify_webhook_retries must be <= 10"@)
    } else if c.notify_webhook_backoff_ms == 0 {
        Some("health_check.notify_webhook_backoff_ms must be greater than 0"@)
    } else {
        None
    }
}

impl HealthCheckConfig {
    /// Checks the settings, where the checks are switched on at all.
    pub fn validate(&self) -> (r: Result<(), ConfigError>)
        ensures
            rules::error_text(r) == health_check_error(*self),
    {
        if !self.enabled {
            return Ok(());
        }
        if !text::same_fold(self.mode.as_str(), "tcp") && !text::same_fold(
            self.mode.as_str(),
            "http",
        ) && !text::same_fold(self.mode.as_str(), "https") {
            return rules::broken("health_check.mode must be either 'tcp', 'http' or 'https'");
        }
        if self.port == 0 {
            return rules::broken("health_check.port must be greater than 0");
        }
        if self.interval_secs == 0 {
            return rules::broken("health_check.interval_secs must be greater than 0");
        }
        if self.timeout_ms == 0 {
            return rules::broken("health_check.timeout_ms must be greater than 0");
        }
        if self.max_parallel == 0 {
            return rules::broken("health_check.max_parallel must be greater than 0");
        }
        if self.failure_threshold == 0 {
            return rules::broken("health_check.failure_threshold must be greater than 0");
        }
        if self.success_threshold == 0 {
            return rules::broken("health_check.success_threshold must be greater than 0");
        }
        if is_blank(self.http_path.as_str()) {
            return rules::broken("health_check.http_path must not be empty");
        }
        if self.notify_webhook_retries > 10 {
            return rules::broken("health_check.notify_webhook_retries must be <= 10");
        }
        if self.notify_webhook_backoff_ms == 0 {
            return rules::broken("health_check.notify_webhook_backoff_ms must be greater than 0");
        }
        Ok(())
    }
}

/// What is known of an address.
#[derive(Debug, Clone)]
pub struct IpProbeState {
    pub healthy: Option<bool>,
    pub consecutive_failures: u32,
    pub consecutive_successes: u32,
    pub last_error: Option<String>,
    pub last_checked: Option<u64>,
}

pub ghost struct ProbeV {
    pub healthy: Option<bool>,
    pub failures: u32,
    pub successes: u32,
    pub last_error: Option<Seq<char>>,
    pub last_checked: Option<u64>,
}

impl View for IpProbeState {
    type V = ProbeV;

    open spec fn view(&self) -> ProbeV {
        ProbeV {
            healthy: self.healthy,
            failures: self.consecutive_failures,
            successes: self.consecutive_successes,
            last_error: types::optional_view(self.last_error),
            last_checked: self.last_checked,
        }
    }
}

/// What is known of an address that was never checked.
pub open spec fn unchecked() -> ProbeV {
    ProbeV { healthy: None, failures: 0, successes: 0, last_error: None, last_checked: None }
}

fn new_probe_state() -> (r: IpProbeState)
    ensures
        r@ == unchecked(),
{
    IpProbeState {
        healthy: None,
        consecutive_failures: 0,
        consecutive_successes: 0,
        last_error: None,
        last_checked: None,
    }
}

fn copy_probe_state(s: &IpProbeState) -> (r: IpProbeState)
    ensures
        r@ == s@,
{
    IpProbeState {
        healthy: s.healthy,
        consecutive_failures: s.consecutive_failures,
        consecutive_successes: s.consecutive_successes,
        last_error: match &s.last_error {
            Some(e) => Some(e.clone()),
            None => None,
        },
        last_checked: s.last_checked,
    }
}

/// An address of a domain.
#[derive(Debug, Clone)]
pub struct ProbedIp {
    pub ip: String,
    pub state: IpProbeState,
}

pub ghost struct IpV {
    pub ip: Seq<char>,
    pub state: ProbeV,
}

pub open spec fn ip_views(list: Seq<ProbedIp>) -> Seq<IpV> {
    list.map_values(|i: ProbedIp| IpV { ip: i.ip@, state: i.state@ })
}

/// A domain whose addresses are checked. The time is in milliseconds.
#[derive(Debug, Clone)]
pub struct DomainProbeState {
    pub domain: String,
    pub ips: Vec<ProbedIp>,
    pub last_all_unhealthy_logged: Option<u64>,
}

pub ghost struct DomainV {
    pub domain: Seq<char>,
    pub ips: Seq<IpV>,
    pub last_logged: Option<u64>,
}

impl View for DomainProbeState {
    type V = DomainV;

    open spec fn view(&self) -> DomainV {
        DomainV {
            domain: self.domain@,
            ips: ip_views(self.ips@),
            last_logged: self.last_all_unhealthy_logged,
        }
    }
}

pub open spec fn domain_views(list: Seq<DomainProbeState>) -> Seq<DomainV> {
    list.map_values(|d: DomainProbeState| d@)
}

/// The position of an address; the length of the list where it is missing.
pub open spec fn ip_index(list: Seq<IpV>, ip: Seq<char>) -> int
    decreases list.len(),
{
    if list.len() == 0 || list[0].ip == ip {
        0
    } else {
        1 + ip_index(list.skip(1), ip)
    }
}

/// The position of a domain; the length of the list where it is missing.
pub open spec fn domain_index(list: Seq<DomainV>, domain: Seq<char>) -> int
    decreases list.len(),
{
    if list.len() == 0 || list[0].domain == domain {
        0
    } else {
        1 + domain_index(list.skip(1), domain)
    }
}

/// What is known of an address of a list.
pub open spec fn state_of(list: Seq<IpV>, ip: Seq<char>) -> Option<ProbeV> {
    let i = ip_index(list, ip);
    if i < list.len() {
        Some(list[i].state)
    } else {
        None
    }
}

pub open spec fn with_ip(list: Seq<IpV>, ip: Seq<char>, state: ProbeV) -> Seq<IpV> {
    let i = ip_index(list, ip);
    if i < list.len() {
        list.update(i, IpV { ip, state })
    } else {
        list.push(IpV { ip, state })
    }
}

fn find_ip(list: &Vec<ProbedIp>, ip: &str) -> (r: usize)
    ensures
        r == ip_index(ip_views(list@), ip@),
        r <= list@.len(),
{
    let ghost all = ip_views(list@);
    let mut i: usize = 0;
    assert(all.skip(0) =~= all);
    while i < list.len()
        invariant
            i <= list@.len(),
            all == ip_views(list@),
            ip_index(all, ip@) == i + ip_index(all.skip(i as int), ip@),
        decreases list@.len() - i,
    {
        assert(all.skip(i as int)[0].ip == list@[i as int].ip@);
        if text::same(list[i].ip.as_str(), ip) {
            return i;
        }
        assert(all.skip(i as int).skip(1) =~= all.skip(i + 1));
        i = i + 1;
    }
    i
}

fn find_domain(list: &Vec<DomainProbeState>, domain: &str) -> (r: usize)
    ensures
        r == domain_index(domain_views(list@), domain@),
        r <= list@.len(),
{
    let ghost all = domain_views(list@);
    let mut i: usize = 0;
    assert(all.skip(0) =~= all);
    while i < list.len()
        invariant
            i <= list@.len(),
            all == domain_views(list@),
            domain_index(all, domain@) == i + domain_index(all.skip(i as int), domain@),
        decreases list@.len() - i,
    {
        assert(all.skip(i as int)[0].domain == list@[i as int].domain@);
        if text::same(list[i].domain.as_str(), domain) {
            return i;
        }
        assert(all.skip(i as int).skip(1) =~= all.skip(i + 1));
        i = i + 1;
    }
    i
}

fn put_ip(list: &mut Vec<ProbedIp>, ip: String, state: IpProbeState)
    ensures
        ip_views(final(list)@) == with_ip(ip_views(old(list)@), ip@, state@),
{
    let ghost all = ip_views(list@);
    let i = find_ip(list, ip.as_str());
    let new = ProbedIp { ip, state };
    if i < list.len() {
        list.set(i, new);
        assert(ip_views(list@) =~= all.update(i as int, IpV { ip: new.ip@, state: new.state@ }));
    } else {
        list.push(new);
        assert(ip_views(list@) =~= all.push(IpV { ip: new.ip@, state: new.state@ }));
    }
}

/// The addresses of a domain after new ones are registered: what is known of an address is kept;
/// an address that is named twice starts anew, and one that is no longer named is dropped.
pub open spec fn registered(known: Seq<IpV>, ips: Seq<Seq<char>>) -> Seq<IpV>
    decreases ips.len(),
{
    if ips.len() == 0 {
        Seq::empty()
    } else {
        let done = registered(known, ips.drop_last());
        let ip = text::trim(ips.last());
        if ip.len() == 0 {
            done
        } else {
            with_ip(
                done,
                ip,
                if state_of(done, ip) is None && state_of(known, ip) is Some {
                    state_of(known, ip)->0
                } else {
                    unchecked()
                },
            )
        }
    }
}

/// An address stands inside its list or is missing.
pub proof fn lemma_ip_index(list: Seq<IpV>, ip: Seq<char>)
    ensures
        0 <= ip_index(list, ip) <= list.len(),
    decreases list.len(),
{
    if list.len() > 0 && list[0].ip != ip {
        lemma_ip_index(list.skip(1), ip);
    }
}

/// Only addresses that are named are registered.
pub proof fn lemma_registered(known: Seq<IpV>, ips: Seq<Seq<char>>)
    ensures
        forall|k: int|
            0 <= k < registered(known, ips).len() ==> exists|i: int|
                0 <= i < ips.len() && text::trim(#[trigger] ips[i]) == (
                #[trigger] registered(known, ips)[k]).ip,
    decreases ips.len(),
{
    if ips.len() > 0 {
        let rest = ips.drop_last();
        lemma_registered(known, rest);
        let done = registered(known, rest);
        let all = registered(known, ips);
        let ip = text::trim(ips.last());
        lemma_ip_index(done, ip);
        assert forall|k: int| 0 <= k < all.len() implies exists|i: int|
            0 <= i < ips.len() && text::trim(#[trigger] ips[i]) == (#[trigger] all[k]).ip by {
            if k < done.len() && done[k].ip == all[k].ip {
                let i = choose|i: int|
                    0 <= i < rest.len() && text::trim(#[trigger] rest[i]) == done[k].ip;
                assert(ips[i] == rest[i]);
            } else {
                assert(ips[ips.len() - 1] == ips.last());
                assert(all[k].ip == ip);
            }
        }
    }
}

fn register_ips(known: &Vec<ProbedIp>, ips: &Vec<String>) -> (r: Vec<ProbedIp>)
    ensures
        ip_views(r@) == registered(ip_views(known@), text::views(ips@)),
{
    let ghost names = text::views(ips@);
    let ghost old_ips = ip_views(known@);
    let mut out: Vec<ProbedIp> = Vec::new();
    let mut i: usize = 0;
    assert(names.take(0) =~= Seq::empty());
    assert(ip_views(out@) =~= Seq::empty());
    while i < ips.len()
        invariant
            i <= ips@.len(),
            names == text::views(ips@),
            old_ips == ip_views(known@),
            ip_views(out@) == registered(old_ips, names.take(i as int)),
        decreases ips@.len() - i,
    {
        assert(names.take(i + 1).drop_last() =~= names.take(i as int));
        assert(names[i as int] == ips@[i as int]@);
        let ip = text::trimmed(ips[i].as_str());
        if text::chars_of(ip.as_str()).len() > 0 {
            let at = find_ip(known, ip.as_str());
            let done = find_ip(&out, ip.as_str());
            let state = if done >= out.len() && at < known.len() {
                assert(old_ips[at as int].state == known@[at as int].state@);
                copy_probe_state(&known[at].state)
            } else {
                new_probe_state()
            };
            put_ip(&mut out, ip, state);
        }
        i = i + 1;
    }
    assert(names.take(i as int) =~= names);
    out
}

/// What is known of an address after a check: enough failures or successes in a row change its
/// health.
pub open spec fn checked(
    s: ProbeV,
    result: Result<(), Seq<char>>,
    success_threshold: u32,
    failure_threshold: u32,
    now: u64,
) -> ProbeV {
    match result {
        Ok(_) => {
            let n: u32 = if s.successes < u32::MAX {
                (s.successes + 1) as u32
            } else {
                u32::MAX
            };
            ProbeV {
                healthy: if n >= success_threshold {
                    Some(true)
                } else {
                    s.healthy
                },
                failures: 0,
                successes: n,
                last_error: None,
                last_checked: Some(now),
            }
        },
        Err(e) => {
            let n: u32 = if s.failures < u32::MAX {
                (s.failures + 1) as u32
            } else {
                u32::MAX
            };
            ProbeV {
                healthy: if n >= failure_threshold {
                    Some(false)
                } else {
                    s.healthy
                },
                failures: n,
                successes: 0,
                last_error: Some(e),
                last_checked: Some(now),
            }
        },
    }
}

/// The health of an address changes only when the last checks agree often enough, and never in
/// the direction that the last check denies.
pub proof fn lemma_health_changes(
    s: ProbeV,
    result: Result<(), Seq<char>>,
    success_threshold: u32,
    failure_threshold: u32,
    now: u64,
)
    ensures
        ({
            let t = checked(s, result, success_threshold, failure_threshold, now);
            t.healthy != s.healthy ==> (t.healthy == Some(true) && result is Ok && t.successes
                >= success_threshold) || (t.healthy == Some(false) && result is Err && t.failures
                >= failure_threshold)
        }),
{
}

fn check_state(
    s: &IpProbeState,
    result: &Result<(), String>,
    success_threshold: u32,
    failure_threshold: u32,
    now: u64,
) -> (r: IpProbeState)
    ensures
        r@ == checked(
            s@,
            (match *result {
                Ok(_) => Ok(()),
                Err(e) => Err(e@),
            }),
            success_threshold,
            failure_threshold,
            now,
        ),
{
    match result {
        Ok(_) => {
            let n: u32 = s.consecutive_successes.saturating_add(1);
            IpProbeState {
                healthy: if n >= success_threshold {
                    Some(true)
                } else {
                    s.healthy
                },
                consecutive_failures: 0,
                consecutive_successes: n,
                last_error: None,
                last_checked: Some(now),
            }
        },
        Err(e) => {
            let n: u32 = s.consecutive_failures.saturating_add(1);
            IpProbeState {
                healthy: if n >= failure_threshold {
                    Some(false)
                } else {
                    s.healthy
                },
                consecutive_failures: n,
                consecutive_successes: 0,
                last_error: Some(e.clone()),
                last_checked: Some(now),
            }
        },
    }
}

/// How an address ranks: healthy ones first, then those that nothing is known of.
pub open spec fn health_score(domains: Seq<DomainV>, domain: Seq<char>, ip: Seq<char>) -> int {
    let i = domain_index(domains, domain);
    if i < domains.len() && state_of(domains[i].ips, ip) is Some {
        match state_of(domains[i].ips, ip)->0.healthy {
            Some(true) => 2,
            Some(false) => 0,
            None => 1,
        }
    } else {
        1
    }
}

pub open spec fn ips_with_score(
    domains: Seq<DomainV>,
    domain: Seq<char>,
    ips: Seq<Seq<char>>,
    score: int,
) -> Seq<Seq<char>> {
    ips.filter(|ip: Seq<char>| health_score(domains, domain, ip) == score)
}

/// Addresses in the order of their rank, those of one rank in the order in which they came.
pub open spec fn preferred(
    domains: Seq<DomainV>,
    domain: Seq<char>,
    ips: Seq<Seq<char>>,
) -> Seq<Seq<char>> {
    ips_with_score(domains, domain, ips, 2) + ips_with_score(domains, domain, ips, 1)
        + ips_with_score(domains, domain, ips, 0)
}

/// Whether every address is known to be unhealthy.
pub open spec fn all_unhealthy(
    domains: Seq<DomainV>,
    domain: Seq<char>,
    ips: Seq<Seq<char>>,
) -> bool {
    forall|k: int| 0 <= k < ips.len() ==> health_score(domains, domain, #[trigger] ips[k]) == 0
}

/// A summary of the checks.
#[derive(Debug, Clone, Copy)]
pub struct HealthCheckSummary {
    pub enabled: bool,
    pub tracked_domains: usize,
    pub tracked_ips: usize,
    pub degraded_domains: usize,
    pub all_unhealthy_events: usize,
    pub notify_attempt_total: usize,
    pub notify_fail_total: usize,
}

/// An event: every address of a domain is unhealthy.
#[derive(Debug, Clone)]
pub struct UnhealthyEvent {
    pub domain: String,
    /// Where the event is to be reported.
    pub webhook: Option<String>,
}

/// The health checks of the server.
pub struct IpHealthManager {
    pub cfg: HealthCheckConfig,
    pub domains: Vec<DomainProbeState>,
    pub all_unhealthy_events: usize,
    pub notify_attempt_total: usize,
    pub notify_fail_total: usize,
}

/// The number of addresses of the first `k` domains.
pub open spec fn ip_count(domains: Seq<DomainV>, k: int) -> nat
    decreases k,
{
    if k <= 0 {
        0
    } else {
        ip_count(domains, k - 1) + domains[k - 1].ips.len()
    }
}

/// Whether a domain has addresses and all of them are known to be unhealthy.
pub open spec fn is_degraded(d: DomainV) -> bool {
    d.ips.len() > 0 && forall|k: int|
        0 <= k < d.ips.len() ==> (#[trigger] d.ips[k]).state.healthy == Some(false)
}

pub open spec fn degraded_count(domains: Seq<DomainV>, k: int) -> nat
    decreases k,
{
    if k <= 0 {
        0
    } else {
        degraded_count(domains, k - 1) + if is_degraded(domains[k - 1]) {
            1nat
        } else {
            0nat
        }
    }
}

/// How long the same event is not reported again.
pub const EVENT_INTERVAL_MS: u64 = 60000;

/// Whether an event is due that was last reported at the given time.
pub open spec fn is_due(last: Option<u64>, now: u64) -> bool {
    match last {
        None => true,
        Some(t) => t <= now && now - t >= EVENT_INTERVAL_MS,
    }
}

/// The domains after an event that is reported.
pub open spec fn reported(domains: Seq<DomainV>, domain: Seq<char>, now: u64) -> Seq<DomainV> {
    let i = domain_index(domains, domain);
    if i < domains.len() {
        domains.update(i, DomainV { last_logged: Some(now), ..domains[i] })
    } else {
        domains.push(DomainV { domain, ips: Seq::empty(), last_logged: Some(now) })
    }
}

pub open spec fn last_report(domains: Seq<DomainV>, domain: Seq<char>) -> Option<u64> {
    let i = domain_index(domains, domain);
    if i < domains.len() {
        domains[i].last_logged
    } else {
        None
    }
}

/// The domains after addresses of one of them are registered; nothing changes without an address
/// or without a name.
pub open spec fn with_registered(
    known: Seq<DomainV>,
    name: Seq<char>,
    ips: Seq<Seq<char>>,
) -> Seq<DomainV> {
    let i = domain_index(known, name);
    if ips.len() == 0 || name.len() == 0 {
        known
    } else if i < known.len() {
        known.update(i, DomainV { ips: registered(known[i].ips, ips), ..known[i] })
    } else {
        known.push(
            DomainV { domain: name, ips: registered(Seq::empty(), ips), last_logged: None },
        )
    }
}

/// The domains after a check of an address of one of them; nothing changes where it is not known.
pub open spec fn with_check(
    known: Seq<DomainV>,
    domain: Seq<char>,
    ip: Seq<char>,
    result: Result<(), Seq<char>>,
    cfg: HealthCheckConfig,
    now: u64,
) -> Seq<DomainV> {
    let i = domain_index(known, domain);
    if i < known.len() && state_of(known[i].ips, ip) is Some {
        let state = checked(
            state_of(known[i].ips, ip)->0,
            result,
            cfg.success_threshold,
            cfg.failure_threshold,
            now,
        );
        known.update(i, DomainV { ips: with_ip(known[i].ips, ip, state), ..known[i] })
    } else {
        known
    }
}

fn copy_domain(d: &DomainProbeState) -> (r: DomainProbeState)
    ensures
        r@ == d@,
{
    let mut ips: Vec<ProbedIp> = Vec::new();
    let mut i: usize = 0;
    while i < d.ips.len()
        invariant
            i <= d.ips@.len(),
            ips@.len() == i,
            forall|k: int|
                0 <= k < i ==> (#[trigger] ips@[k]).ip@ == d.ips@[k].ip@ && ips@[k].state@
                    == d.ips@[k].state@,
        decreases d.ips@.len() - i,
    {
        ips.push(
            ProbedIp { ip: d.ips[i].ip.clone(), state: copy_probe_state(&d.ips[i].state) },
        );
        i = i + 1;
    }
    assert(ip_views(ips@) =~= ip_views(d.ips@));
    DomainProbeState {
        domain: d.domain.clone(),
        ips,
        last_all_unhealthy_logged: d.last_all_unhealthy_logged,
    }
}

impl IpHealthManager {
    pub open spec fn known(self) -> Seq<DomainV> {
        domain_views(self.domains@)
    }

    /// A manager that knows of no domain yet.
    pub fn new(cfg: HealthCheckConfig) -> (r: Self)
        ensures
            r.cfg == cfg,
            r.known().len() == 0,
            r.all_unhealthy_events == 0,
            r.notify_attempt_total == 0,
            r.notify_fail_total == 0,
    {
        IpHealthManager {
            cfg,
            domains: Vec::new(),
            all_unhealthy_events: 0,
            notify_attempt_total: 0,
            notify_fail_total: 0,
        }
    }

    /// Registers the addresses of a domain for checks.
    pub fn register_domain_ips(&mut self, domain: &str, ips: &Vec<String>)
        ensures
            final(self).cfg == old(self).cfg,
            final(self).all_unhealthy_events == old(self).all_unhealthy_events,
            final(self).notify_attempt_total == old(self).notify_attempt_total,
            final(self).notify_fail_total == old(self).notify_fail_total,
            final(self).known() == (if old(self).cfg.enabled {
                with_registered(
                    old(self).known(),
                    text::plain_name(domain@),
                    text::views(ips@),
                )
            } else {
                old(self).known()
            }),
    {
        if !self.cfg.enabled || ips.len() == 0 {
            return;
        }
        let name = text::plain_name_of(domain);
        if text::chars_of(name.as_str()).len() == 0 {
            return;
        }
        let ghost known = self.known();
        let i = find_domain(&self.domains, name.as_str());
        if i < self.domains.len() {
            assert(known[i as int] == self.domains@[i as int]@);
            let old_domain = copy_domain(&self.domains[i]);
            let new = DomainProbeState { ips: register_ips(&old_domain.ips, ips), ..old_domain };
            self.domains.set(i, new);
            assert(self.known() =~= known.update(i as int, new@));
        } else {
            let none: Vec<ProbedIp> = Vec::new();
            assert(ip_views(none@) =~= Seq::empty());
            let new = DomainProbeState {
                domain: name,
                ips: register_ips(&none, ips),
                last_all_unhealthy_logged: None,
            };
            self.domains.push(new);
            assert(self.known() =~= known.push(new@));
        }
    }

    fn score(&self, domain: &str, ip: &str) -> (r: u8)
        ensures
            r == health_score(self.known(), domain@, ip@),
    {
        let i = find_domain(&self.domains, domain);
        if i >= self.domains.len() {
            return 1;
        }
        assert(self.known()[i as int] == self.domains@[i as int]@);
        let k = find_ip(&self.domains[i].ips, ip);
        if k >= self.domains[i].ips.len() {
            return 1;
        }
        assert(ip_views(self.domains@[i as int].ips@)[k as int].state
            == self.domains@[i as int].ips@[k as int].state@);
        match self.domains[i].ips[k].state.healthy {
            Some(healthy) => if healthy {
                2
            } else {
                0
            },
            None => 1,
        }
    }

    fn push_with_score(&self, out: &mut Vec<String>, domain: &str, ips: &Vec<String>, score: u8)
        ensures
            text::views(final(out)@) == text::views(old(out)@) + ips_with_score(
                self.known(),
                domain@,
                text::views(ips@),
                score as int,
            ),
    {
        let ghost start = text::views(out@);
        let ghost all = text::views(ips@);
        let ghost keep = |ip: Seq<char>| health_score(self.known(), domain@, ip) == score as int;
        let mut i: usize = 0;
        assert(all.take(0).filter(keep) =~= Seq::empty()) by {
            reveal(Seq::filter);
        }
        assert(start =~= start + all.take(0).filter(keep));
        while i < ips.len()
            invariant
                i <= ips@.len(),
                all == text::views(ips@),
                keep == (|ip: Seq<char>|
                    health_score(self.known(), domain@, ip) == score as int),
                text::views(out@) == start + all.take(i as int).filter(keep),
            decreases ips@.len() - i,
        {
            assert(all[i as int] == ips@[i as int]@);
            assert(all.take(i + 1).drop_last() =~= all.take(i as int));
            let ghost before = text::views(out@);
            proof {
                reveal(Seq::filter);
            }
            if self.score(domain, ips[i].as_str()) == score {
                let ip = ips[i].clone();
                out.push(ip);
                assert(text::views(out@) =~= before.push(ip@));
                assert(before.push(ip@) =~= start + all.take(i as int).filter(keep).push(ip@));
            }
            i = i + 1;
        }
        assert(all.take(i as int) =~= all);
    }

    /// Addresses of a domain in the order in which they are best used.
    pub fn prefer_healthy_ips(&self, domain: &str, ips: &Vec<String>) -> (r: Vec<String>)
        ensures
            text::views(r@) == (if !self.cfg.enabled || ips@.len() <= 1 {
                text::views(ips@)
            } else {
                preferred(self.known(), text::plain_name(domain@), text::views(ips@))
            }),
    {
        let mut out: Vec<String> = Vec::new();
        assert(text::views(out@) =~= Seq::empty());
        if !self.cfg.enabled || ips.len() <= 1 {
            return crate::config::copies::copy_texts(ips);
        }
        let name = text::plain_name_of(domain);
        self.push_with_score(&mut out, name.as_str(), ips, 2);
        self.push_with_score(&mut out, name.as_str(), ips, 1);
        self.push_with_score(&mut out, name.as_str(), ips, 0);
        assert(text::views(out@) =~= preferred(self.known(), name@, text::views(ips@)));
        out
    }

    /// Whether every one of the addresses of a domain is known to be unhealthy.
    pub fn all_unhealthy_for_domain(&self, domain: &str, ips: &Vec<String>) -> (r: bool)
        ensures
            r == (self.cfg.enabled && ips@.len() > 0 && all_unhealthy(
                self.known(),
                text::plain_name(domain@),
                text::views(ips@),
            )),
    {
        if !self.cfg.enabled || ips.len() == 0 {
            return false;
        }
        let name = text::plain_name_of(domain);
        let ghost all = text::views(ips@);
        let mut i: usize = 0;
        while i < ips.len()
            invariant
                i <= ips@.len(),
                all == text::views(ips@),
                name@ == text::plain_name(domain@),
                self.cfg.enabled,
                forall|k: int|
                    0 <= k < i ==> health_score(self.known(), name@, #[trigger] all[k]) == 0,
            decreases ips@.len() - i,
        {
            assert(all[i as int] == ips@[i as int]@);
            if self.score(name.as_str(), ips[i].as_str()) != 0 {
                assert(health_score(self.known(), name@, all[i as int]) != 0);
                return false;
            }
            i = i + 1;
        }
        true
    }

    /// Takes note that every address of a domain is unhealthy. Gives the event where it is to be
    /// reported: the first time, and then once a minute at most.
    pub fn record_all_unhealthy_event(&mut self, domain: &str, ips: &Vec<String>, now: u64) -> (r:
        Option<UnhealthyEvent>)
        ensures
            final(self).cfg == old(self).cfg,
            final(self).notify_attempt_total == old(self).notify_attempt_total,
            final(self).notify_fail_total == old(self).notify_fail_total,
            ({
                let name = text::plain_name(domain@);
                let due = old(self).cfg.enabled && ips@.len() > 0 && is_due(
                    last_report(old(self).known(), name),
                    now,
                );
                if due {
                    &&& r matches Some(e) && e.domain@ == name && types::optional_view(e.webhook)
                        == webhook_of(old(self).cfg)
                    &&& final(self).known() == reported(old(self).known(), name, now)
                    &&& final(self).all_unhealthy_events == old(
                        self,
                    ).all_unhealthy_events.wrapping_add(1)
                } else {
                    &&& r is None
                    &&& final(self).known() == old(self).known()
                    &&& final(self).all_unhealthy_events == old(self).all_unhealthy_events
                }
            }),
    {
        if !self.cfg.enabled || ips.len() == 0 {
            return None;
        }
        let name = text::plain_name_of(domain);
        let ghost known = self.known();
        let i = find_domain(&self.domains, name.as_str());
        if i < self.domains.len() {
            assert(known[i as int] == self.domains@[i as int]@);
            if let Some(t) = self.domains[i].last_all_unhealthy_logged {
                if !(t <= now && now - t >= EVENT_INTERVAL_MS) {
                    return None;
                }
            }
            let old_domain = copy_domain(&self.domains[i]);
            let new = DomainProbeState { last_all_unhealthy_logged: Some(now), ..old_domain };
            self.domains.set(i, new);
            assert(self.known() =~= known.update(i as int, new@));
        } else {
            let none: Vec<ProbedIp> = Vec::new();
            assert(ip_views(none@) =~= Seq::empty());
            let new = DomainProbeState {
                domain: name.clone(),
                ips: none,
                last_all_unhealthy_logged: Some(now),
            };
            self.domains.push(new);
            assert(self.known() =~= known.push(new@));
        }
        self.all_unhealthy_events = self.all_unhealthy_events.wrapping_add(1);
        let webhook = match &self.cfg.notify_webhook {
            Some(url) => if is_blank(url.as_str()) {
                None
            } else {
                Some(text::trimmed(url.as_str()))
            },
            None => None,
        };
        Some(UnhealthyEvent { domain: name, webhook })
    }

    /// Counts an attempt to report an event, and its failure where it failed.
    pub fn record_notify_attempt(&mut self, succeeded: bool)
        ensures
            final(self).cfg == old(self).cfg,
            final(self).domains == old(self).domains,
            final(self).all_unhealthy_events == old(self).all_unhealthy_events,
            final(self).notify_attempt_total == old(self).notify_attempt_total.wrapping_add(1),
            final(self).notify_fail_total == (if succeeded {
                old(self).notify_fail_total
            } else {
                old(self).notify_fail_total.wrapping_add(1)
            }),
    {
        self.notify_attempt_total = self.notify_attempt_total.wrapping_add(1);
        if !succeeded {
            self.notify_fail_total = self.notify_fail_total.wrapping_add(1);
        }
    }

    /// Counts a report that could not even be attempted.
    pub fn record_notify_failure(&mut self)
        ensures
            final(self).cfg == old(self).cfg,
            final(self).domains == old(self).domains,
            final(self).all_unhealthy_events == old(self).all_unhealthy_events,
            final(self).notify_attempt_total == old(self).notify_attempt_total,
            final(self).notify_fail_total == old(self).notify_fail_total.wrapping_add(1),
    {
        self.notify_fail_total = self.notify_fail_total.wrapping_add(1);
    }

    /// Takes note of the result of a check.
    pub fn update_probe_result(
        &mut self,
        domain: &str,
        ip: &str,
        result: &Result<(), String>,
        now: u64,
    )
        ensures
            final(self).cfg == old(self).cfg,
            final(self).all_unhealthy_events == old(self).all_unhealthy_events,
            final(self).notify_attempt_total == old(self).notify_attempt_total,
            final(self).notify_fail_total == old(self).notify_fail_total,
            final(self).known() == with_check(
                old(self).known(),
                domain@,
                ip@,
                (match *result {
                    Ok(_) => Ok(()),
                    Err(e) => Err(e@),
                }),
                old(self).cfg,
                now,
            ),
    {
        let ghost known = self.known();
        let i = find_domain(&self.domains, domain);
        if i >= self.domains.len() {
            return;
        }
        assert(known[i as int] == self.domains@[i as int]@);
        let k = find_ip(&self.domains[i].ips, ip);
        if k >= self.domains[i].ips.len() {
            return;
        }
        assert(known[i as int].ips[k as int].state
            == self.domains@[i as int].ips@[k as int].state@);
        let new_state = check_state(
            &self.domains[i].ips[k].state,
            result,
            self.cfg.success_threshold,
            self.cfg.failure_threshold,
            now,
        );
        let mut new = copy_domain(&self.domains[i]);
        put_ip(&mut new.ips, ip.to_owned(), new_state);
        self.domains.set(i, new);
        assert(self.known() =~= known.update(i as int, new@));
    }

    /// The addresses to check, each with its domain.
    pub fn collect_workload(&self) -> (r: Vec<(String, String)>)
        ensures
            pair_views(r@) == workload(self.known(), self.domains@.len() as int),
    {
        let mut out: Vec<(String, String)> = Vec::new();
        let ghost known = self.known();
        let mut i: usize = 0;
        assert(pair_views(out@) =~= Seq::empty());
        while i < self.domains.len()
            invariant
                i <= self.domains@.len(),
                known == self.known(),
                pair_views(out@) == workload(known, i as int),
            decreases self.domains@.len() - i,
        {
            let d: &DomainProbeState = &self.domains[i];
            let ghost start = pair_views(out@);
            let mut k: usize = 0;
            assert(known[i as int] == d@);
            assert(start =~= start + domain_work(d@).take(0));
            while k < d.ips.len()
                invariant
                    k <= d.ips@.len(),
                    pair_views(out@) == start + domain_work(d@).take(k as int),
                decreases d.ips@.len() - k,
            {
                let ghost before = pair_views(out@);
                let pair = (d.domain.clone(), d.ips[k].ip.clone());
                out.push(pair);
                assert(domain_work(d@)[k as int] == (d.domain@, d.ips@[k as int].ip@));
                assert(pair_views(out@) =~= before.push((pair.0@, pair.1@)));
                assert(before.push((pair.0@, pair.1@)) =~= start + domain_work(d@).take(k + 1));
                k = k + 1;
            }
            assert(domain_work(d@).take(k as int) =~= domain_work(d@));
            i = i + 1;
        }
        out
    }

    /// A summary of the checks.
    pub fn summary(&self) -> (r: HealthCheckSummary)
        requires
            ip_count(self.known(), self.domains@.len() as int) <= usize::MAX,
        ensures
            r.enabled == self.cfg.enabled,
            r.tracked_domains == self.domains@.len(),
            r.tracked_ips == ip_count(self.known(), self.domains@.len() as int),
            r.degraded_domains == degraded_count(self.known(), self.domains@.len() as int),
            r.all_unhealthy_events == self.all_unhealthy_events,
            r.notify_attempt_total == self.notify_attempt_total,
            r.notify_fail_total == self.notify_fail_total,
    {
        let ghost known = self.known();
        let n: usize = self.domains.len();
        let mut tracked_ips: usize = 0;
        let mut degraded_domains: usize = 0;
        let mut i: usize = 0;
        while i < n
            invariant
                i <= n,
                n == self.domains@.len(),
                known == self.known(),
                ip_count(known, n as int) <= usize::MAX,
                tracked_ips == ip_count(known, i as int),
                degraded_domains == degraded_count(known, i as int),
                degraded_domains <= i,
            decreases n - i,
        {
            proof {
                lemma_ip_count(known, i + 1, n as int);
            }
            let d: &DomainProbeState = &self.domains[i];
            assert(known[i as int] == d@);
            tracked_ips = tracked_ips + d.ips.len();
            if degraded(d) {
                degraded_domains = degraded_domains + 1;
            }
            i = i + 1;
        }
        HealthCheckSummary {
            enabled: self.cfg.enabled,
            tracked_domains: n,
            tracked_ips,
            degraded_domains,
            all_unhealthy_events: self.all_unhealthy_events,
            notify_attempt_total: self.notify_attempt_total,
            notify_fail_total: self.notify_fail_total,
        }
    }
}

proof fn lemma_ip_count(domains: Seq<DomainV>, i: int, k: int)
    requires
        0 <= i <= k,
    ensures
        ip_count(domains, i) <= ip_count(domains, k),
    decreases k - i,
{
    if i < k {
        lemma_ip_count(domains, i, k - 1);
    }
}

fn degraded(d: &DomainProbeState) -> (r: bool)
    ensures
        r == is_degraded(d@),
{
    if d.ips.len() == 0 {
        return false;
    }
    let ghost all = d@.ips;
    let mut i: usize = 0;
    while i < d.ips.len()
        invariant
            i <= d.ips@.len(),
            all == d@.ips,
            all.len() > 0,
            forall|k: int| 0 <= k < i ==> (#[trigger] all[k]).state.healthy == Some(false),
        decreases d.ips@.len() - i,
    {
        assert(all[i as int].state == d.ips@[i as int].state@);
        match d.ips[i].state.healthy {
            Some(healthy) => if healthy {
                assert(all[i as int].state.healthy != Some(false));
                return false;
            },
            None => {
                assert(all[i as int].state.healthy != Some(false));
                return false;
            },
        }
        i = i + 1;
    }
    true
}

pub open spec fn pair_views(list: Seq<(String, String)>) -> Seq<(Seq<char>, Seq<char>)> {
    list.map_values(|p: (String, String)| (p.0@, p.1@))
}

/// The addresses of a domain, each with the domain.
pub open spec fn domain_work(d: DomainV) -> Seq<(Seq<char>, Seq<char>)> {
    d.ips.map_values(|i: IpV| (d.domain, i.ip))
}

/// The addresses of the first `k` domains, each with its domain.
pub open spec fn workload(domains: Seq<DomainV>, k: int) -> Seq<(Seq<char>, Seq<char>)>
    decreases k,
{
    if k <= 0 {
        Seq::empty()
    } else {
        workload(domains, k - 1) + domain_work(domains[k - 1])
    }
}

/// Where events are to be reported: nowhere where the setting is blank.
pub open spec fn webhook_of(c: HealthCheckConfig) -> Option<Seq<char>> {
    match c.notify_webhook {
        Some(url) => if rules::blank(url@) {
            None
        } else {
            Some(text::trim(url@))
        },
        None => None,
    }
}

proof fn lemma_scores(domains: Seq<DomainV>, domain: Seq<char>, ips: Seq<Seq<char>>)
    ensures
        ips.to_multiset() == ips_with_score(domains, domain, ips, 2).to_multiset().add(
            ips_with_score(domains, domain, ips, 1).to_multiset(),
        ).add(ips_with_score(domains, domain, ips, 0).to_multiset()),
    decreases ips.len(),
{
    broadcast use vstd::seq_lib::group_to_multiset_ensures;

    reveal(Seq::filter);
    if ips.len() > 0 {
        let rest = ips.drop_last();
        lemma_scores(domains, domain, rest);
        assert(ips =~= rest.push(ips.last()));
    }
    assert(ips.to_multiset() =~= ips_with_score(domains, domain, ips, 2).to_multiset().add(
        ips_with_score(domains, domain, ips, 1).to_multiset(),
    ).add(ips_with_score(domains, domain, ips, 0).to_multiset()));
}

/// Putting addresses in order loses none and adds none.
pub proof fn lemma_preferred_is_permutation(
    domains: Seq<DomainV>,
    domain: Seq<char>,
    ips: Seq<Seq<char>>,
)
    ensures
        preferred(domains, domain, ips).to_multiset() == ips.to_multiset(),
{
    let healthy = ips_with_score(domains, domain, ips, 2);
    let unknown = ips_with_score(domains, domain, ips, 1);
    let unhealthy = ips_with_score(domains, domain, ips, 0);
    lemma_scores(domains, domain, ips);
    vstd::seq_lib::lemma_multiset_commutative(healthy, unknown);
    vstd::seq_lib::lemma_multiset_commutative(healthy + unknown, unhealthy);
}

proof fn lemma_with_score(
    domains: Seq<DomainV>,
    domain: Seq<char>,
    ips: Seq<Seq<char>>,
    score: int,
    i: int,
)
    requires
        0 <= i < ips_with_score(domains, domain, ips, score).len(),
    ensures
        health_score(domains, domain, ips_with_score(domains, domain, ips, score)[i]) == score,
    decreases ips.len(),
{
    reveal(Seq::filter);
    if ips.len() > 0 {
        let before = ips_with_score(domains, domain, ips.drop_last(), score);
        if i < before.len() {
            lemma_with_score(domains, domain, ips.drop_last(), score, i);
        }
    }
}

/// Healthy addresses come before those of which nothing is known, and those before the unhealthy
/// ones.
pub proof fn lemma_preferred_order(
    domains: Seq<DomainV>,
    domain: Seq<char>,
    ips: Seq<Seq<char>>,
    i: int,
    j: int,
)
    requires
        0 <= i <= j < preferred(domains, domain, ips).len(),
    ensures
        health_score(domains, domain, preferred(domains, domain, ips)[i]) >= health_score(
            domains,
            domain,
            preferred(domains, domain, ips)[j],
        ),
{
    let healthy = ips_with_score(domains, domain, ips, 2);
    let unknown = ips_with_score(domains, domain, ips, 1);
    let all = preferred(domains, domain, ips);
    assert forall|k: int| 0 <= k < all.len() implies #[trigger] health_score(
        domains,
        domain,
        all[k],
    ) == (if k < healthy.len() {
        2int
    } else if k < healthy.len() + unknown.len() {
        1
    } else {
        0
    }) by {
        if k < healthy.len() {
            lemma_with_score(domains, domain, ips, 2, k);
        } else if k < healthy.len() + unknown.len() {
            lemma_with_score(domains, domain, ips, 1, k - healthy.len());
        } else {
            lemma_with_score(domains, domain, ips, 0, k - healthy.len() - unknown.len());
        }
    }
}

} // verus!
