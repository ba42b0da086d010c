//! What holds of the health of addresses over a sequence of checks.
use crate::health;
use crate::health::HealthCheckConfig;
use crate::text;
use vstd::prelude::*;

verus! {

/// A check of an address that failed, why and when.
pub ghost struct FailureV {
    pub ip: Seq<char>,
    pub error: Seq<char>,
    pub now: u64,
}

/// The domains after failed checks of addresses of one of them, one after the other.
pub open spec fn after_failures(
    known: Seq<health::DomainV>,
    domain: Seq<char>,
    failures: Seq<FailureV>,
    cfg: HealthCheckConfig,
) -> Seq<health::DomainV>
    decreases failures.len(),
{
    if failures.len() == 0 {
        known
    } else {
        let last = failures.last();
        health::with_check(
            after_failures(known, domain, failures.drop_last(), cfg),
            domain,
            last.ip,
            Err(last.error),
            cfg,
            last.now,
        )
    }
}

/// How often an address failed.
pub open spec fn failure_count(failures: Seq<FailureV>, ip: Seq<char>) -> nat
    decreases failures.len(),
{
    if failures.len() == 0 {
        0
    } else {
        failure_count(failures.drop_last(), ip) + if failures.last().ip == ip {
            1nat
        } else {
            0nat
        }
    }
}

/// Whether an address is one that is registered with a list.
pub open spec fn is_registered(ips: Seq<Seq<char>>, ip: Seq<char>) -> bool {
    ip.len() > 0 && exists|i: int| 0 <= i < ips.len() && text::trim(#[trigger] ips[i]) == ip
}

/// What is known of an address that is not the first one.
proof fn lemma_not_first(list: Seq<health::IpV>, ip: Seq<char>)
    requires
        list.len() > 0,
        list[0].ip != ip,
    ensures
        health::state_of(list, ip) == health::state_of(list.skip(1), ip),
{
    health::lemma_ip_index(list.skip(1), ip);
}

/// An address whose state is set has it; every other one keeps its own.
proof fn lemma_with_ip(
    list: Seq<health::IpV>,
    ip: Seq<char>,
    state: health::ProbeV,
    other: Seq<char>,
)
    ensures
        health::state_of(health::with_ip(list, ip, state), ip) == Some(state),
        other != ip ==> health::state_of(health::with_ip(list, ip, state), other)
            == health::state_of(list, other),
    decreases list.len(),
{
    let new = health::with_ip(list, ip, state);
    health::lemma_ip_index(list, ip);
    if list.len() == 0 {
        assert(new =~= seq![health::IpV { ip, state }]);
        assert(new.skip(1) =~= list);
        if other != ip {
            lemma_not_first(new, other);
        }
    } else if list[0].ip == ip {
        assert(new.skip(1) =~= list.skip(1));
        if other != ip {
            lemma_not_first(list, other);
            lemma_not_first(new, other);
        }
    } else {
        let rest = list.skip(1);
        lemma_with_ip(rest, ip, state, other);
        health::lemma_ip_index(rest, ip);
        assert(new[0] == list[0]);
        assert(new.skip(1) =~= health::with_ip(rest, ip, state));
        lemma_not_first(new, ip);
        if list[0].ip != other {
            lemma_not_first(list, other);
            lemma_not_first(new, other);
        }
    }
}

/// What is known of an address after it is registered with a domain that was not known before.
proof fn lemma_registered_state(ips: Seq<Seq<char>>, ip: Seq<char>)
    ensures
        health::state_of(health::registered(Seq::empty(), ips), ip) == (if is_registered(ips, ip) {
            Some(health::unchecked())
        } else {
            None
        }),
    decreases ips.len(),
{
    if ips.len() > 0 {
        let start = ips.drop_last();
        let name = text::trim(ips.last());
        let done = health::registered(Seq::empty(), start);
        lemma_registered_state(start, ip);
        if is_registered(start, ip) {
            let i = choose|i: int| 0 <= i < start.len() && text::trim(#[trigger] start[i]) == ip;
            assert(ips[i] == start[i]);
        }
        if is_registered(ips, ip) && !is_registered(start, ip) {
            let i = choose|i: int| 0 <= i < ips.len() && text::trim(#[trigger] ips[i]) == ip;
            if i < start.len() {
                assert(start[i] == ips[i]);
            }
        }
        if name == ip && name.len() > 0 {
            assert(text::trim(ips[ips.len() - 1]) == ip);
        }
        if name.len() > 0 {
            lemma_with_ip(done, name, health::unchecked(), ip);
        }
    }
}

proof fn lemma_domain_index(list: Seq<health::DomainV>, domain: Seq<char>)
    ensures
        0 <= health::domain_index(list, domain) <= list.len(),
    decreases list.len(),
{
    if list.len() > 0 && list[0].domain != domain {
        lemma_domain_index(list.skip(1), domain);
    }
}

/// A domain that changes under its name stands where it stood.
proof fn lemma_same_place(
    list: Seq<health::DomainV>,
    i: int,
    d: health::DomainV,
    domain: Seq<char>,
)
    requires
        0 <= i < list.len(),
        d.domain == list[i].domain,
    ensures
        health::domain_index(list.update(i, d), domain) == health::domain_index(list, domain),
    decreases list.len(),
{
    let new = list.update(i, d);
    if list[0].domain != domain {
        if i > 0 {
            lemma_same_place(list.skip(1), i - 1, d, domain);
            assert(new.skip(1) =~= list.skip(1).update(i - 1, d));
        } else {
            assert(new.skip(1) =~= list.skip(1));
        }
    }
}

/// A new domain stands last.
proof fn lemma_last_place(list: Seq<health::DomainV>, d: health::DomainV)
    requires
        health::domain_index(list, d.domain) == list.len(),
    ensures
        health::domain_index(list.push(d), d.domain) == list.len(),
    decreases list.len(),
{
    let new = list.push(d);
    if list.len() > 0 {
        lemma_domain_index(list.skip(1), d.domain);
        lemma_last_place(list.skip(1), d);
        assert(new.skip(1) =~= list.skip(1).push(d));
    }
}

/// What is known of an address that was not checked before, after it failed some times.
pub open spec fn has_failed(s: health::ProbeV, n: nat, failure_threshold: u32) -> bool {
    &&& s.failures == (if n < u32::MAX {
        n
    } else {
        u32::MAX as nat
    })
    &&& s.healthy == (if n >= failure_threshold {
        Some(false)
    } else {
        None
    })
}

/// Failed checks are counted for each address on its own.
proof fn lemma_failures(
    known: Seq<health::DomainV>,
    domain: Seq<char>,
    failures: Seq<FailureV>,
    cfg: HealthCheckConfig,
    ip: Seq<char>,
)
    requires
        cfg.failure_threshold >= 1,
        health::domain_index(known, domain) < known.len(),
        health::state_of(known[health::domain_index(known, domain)].ips, ip) matches Some(s)
            ==> s == health::unchecked(),
    ensures
        ({
            let i = health::domain_index(known, domain);
            let after = after_failures(known, domain, failures, cfg);
            &&& after.len() == known.len()
            &&& health::domain_index(after, domain) == i
            &&& match health::state_of(after[i].ips, ip) {
                Some(s) => health::state_of(known[i].ips, ip) is Some && has_failed(
                    s,
                    failure_count(failures, ip),
                    cfg.failure_threshold,
                ),
                None => health::state_of(known[i].ips, ip) is None,
            }
        }),
    decreases failures.len(),
{
    if failures.len() > 0 {
        let i = health::domain_index(known, domain);
        let start = failures.drop_last();
        let last = failures.last();
        lemma_failures(known, domain, start, cfg, ip);
        let before = after_failures(known, domain, start, cfg);
        lemma_domain_index(before, domain);
        if let Some(s) = health::state_of(before[i].ips, last.ip) {
            let state = health::checked(
                s,
                Err(last.error),
                cfg.success_threshold,
                cfg.failure_threshold,
                last.now,
            );
            let ips = health::with_ip(before[i].ips, last.ip, state);
            lemma_with_ip(before[i].ips, last.ip, state, ip);
            lemma_same_place(before, i, health::DomainV { ips, ..before[i] }, domain);
        }
    } else {
        lemma_domain_index(known, domain);
    }
}

/// After a domain is registered and checks of its addresses failed, the addresses that are asked
/// for are all unhealthy exactly where each of them is registered and failed as often as the
/// threshold says.
pub proof fn lemma_all_unhealthy(
    known: Seq<health::DomainV>,
    domain: Seq<char>,
    ips: Seq<Seq<char>>,
    failures: Seq<FailureV>,
    cfg: HealthCheckConfig,
    asked: Seq<Seq<char>>,
)
    requires
        cfg.failure_threshold >= 1,
        domain.len() > 0,
        ips.len() > 0,
        health::domain_index(known, domain) == known.len(),
    ensures
        health::all_unhealthy(
            after_failures(health::with_registered(known, domain, ips), domain, failures, cfg),
            domain,
            asked,
        ) <==> forall|k: int|
            0 <= k < asked.len() ==> is_registered(ips, #[trigger] asked[k]) && failure_count(
                failures,
                asked[k],
            ) >= cfg.failure_threshold,
{
    let start = health::with_registered(known, domain, ips);
    let after = after_failures(start, domain, failures, cfg);
    lemma_last_place(known, start.last());
    assert forall|ip: Seq<char>| #[trigger]
        health::health_score(after, domain, ip) == 0 <==> is_registered(ips, ip) && failure_count(
        failures,
        ip,
    ) >= cfg.failure_threshold by {
        lemma_registered_state(ips, ip);
        lemma_failures(start, domain, failures, cfg, ip);
    }
    if health::all_unhealthy(after, domain, asked) {
        assert forall|k: int| 0 <= k < asked.len() implies is_registered(
            ips,
            #[trigger] asked[k],
        ) && failure_count(failures, asked[k]) >= cfg.failure_threshold by {
            assert(health::health_score(after, domain, asked[k]) == 0);
        }
    }
}

/// What is known of an address after successful checks at some times, one after the other.
pub open spec fn after_successes(
    s: health::ProbeV,
    times: Seq<u64>,
    success_threshold: u32,
    failure_threshold: u32,
) -> health::ProbeV
    decreases times.len(),
{
    if times.len() == 0 {
        s
    } else {
        health::checked(
            after_successes(s, times.drop_last(), success_threshold, failure_threshold),
            Ok(()),
            success_threshold,
            failure_threshold,
            times.last(),
        )
    }
}

/// What is known of an address after failed checks, each with its error and its time.
pub open spec fn after_errors(
    s: health::ProbeV,
    checks: Seq<(Seq<char>, u64)>,
    success_threshold: u32,
    failure_threshold: u32,
) -> health::ProbeV
    decreases checks.len(),
{
    if checks.len() == 0 {
        s
    } else {
        health::checked(
            after_errors(s, checks.drop_last(), success_threshold, failure_threshold),
            Err(checks.last().0),
            success_threshold,
            failure_threshold,
            checks.last().1,
        )
    }
}

proof fn lemma_success_count(
    s: health::ProbeV,
    times: Seq<u64>,
    success_threshold: u32,
    failure_threshold: u32,
)
    ensures
        ({
            let t = after_successes(s, times, success_threshold, failure_threshold);
            let n = s.successes + times.len();
            &&& t.successes == (if n <= u32::MAX {
                n
            } else {
                u32::MAX as int
            })
            &&& times.len() > 0 && n >= success_threshold ==> t.healthy == Some(true)
            &&& n < success_threshold ==> t.healthy == s.healthy
        }),
    decreases times.len(),
{
    if times.len() > 0 {
        lemma_success_count(s, times.drop_last(), success_threshold, failure_threshold);
    }
}

proof fn lemma_error_count(
    s: health::ProbeV,
    checks: Seq<(Seq<char>, u64)>,
    success_threshold: u32,
    failure_threshold: u32,
)
    ensures
        ({
            let t = after_errors(s, checks, success_threshold, failure_threshold);
            let n = s.failures + checks.len();
            &&& t.failures == (if n <= u32::MAX {
                n
            } else {
                u32::MAX as int
            })
            &&& checks.len() > 0 && n >= failure_threshold ==> t.healthy == Some(false)
            &&& n < failure_threshold ==> t.healthy == s.healthy
        }),
    decreases checks.len(),
{
    if checks.len() > 0 {
        lemma_error_count(s, checks.drop_last(), success_threshold, failure_threshold);
    }
}

/// After as many successful checks in a row as the threshold says an address is healthy, whatever
/// was known of it before. Its failures are forgotten with the first of them, and so is its last
/// error; the time of the last check is kept.
pub proof fn lemma_successes_make_healthy(
    s: health::ProbeV,
    times: Seq<u64>,
    success_threshold: u32,
    failure_threshold: u32,
)
    requires
        times.len() > 0,
    ensures
        ({
            let t = after_successes(s, times, success_threshold, failure_threshold);
            &&& times.len() >= success_threshold ==> t.healthy == Some(true)
            &&& t.failures == 0
            &&& t.last_error is None
            &&& t.last_checked == Some(times.last())
        }),
{
    lemma_success_count(s, times, success_threshold, failure_threshold);
}

/// After as many failed checks in a row as the threshold says an address is unhealthy, whatever
/// was known of it before. Its successes are forgotten with the first of them; the error and the
/// time of the last check are kept.
pub proof fn lemma_failures_make_unhealthy(
    s: health::ProbeV,
    checks: Seq<(Seq<char>, u64)>,
    success_threshold: u32,
    failure_threshold: u32,
)
    requires
        checks.len() > 0,
    ensures
        ({
            let t = after_errors(s, checks, success_threshold, failure_threshold);
            &&& checks.len() >= failure_threshold ==> t.healthy == Some(false)
            &&& t.successes == 0
            &&& t.last_error == Some(checks.last().0)
            &&& t.last_checked == Some(checks.last().1)
        }),
{
    lemma_error_count(s, checks, success_threshold, failure_threshold);
}

/// Fewer checks in a row than the threshold says, behind a check that went the other way, do not
/// change the health of an address.
pub proof fn lemma_few_checks_keep_health(
    s: health::ProbeV,
    error: Seq<char>,
    now: u64,
    times: Seq<u64>,
    checks: Seq<(Seq<char>, u64)>,
    success_threshold: u32,
    failure_threshold: u32,
)
    ensures
        ({
            let failed = health::checked(
                s,
                Err(error),
                success_threshold,
                failure_threshold,
                now,
            );
            times.len() < success_threshold ==> after_successes(
                failed,
                times,
                success_threshold,
                failure_threshold,
            ).healthy == failed.healthy
        }),
        ({
            let passed = health::checked(s, Ok(()), success_threshold, failure_threshold, now);
            checks.len() < failure_threshold ==> after_errors(
                passed,
                checks,
                success_threshold,
                failure_threshold,
            ).healthy == passed.healthy
        }),
{
    let failed = health::checked(s, Err(error), success_threshold, failure_threshold, now);
    let passed = health::checked(s, Ok(()), success_threshold, failure_threshold, now);
    lemma_success_count(failed, times, success_threshold, failure_threshold);
    lemma_error_count(passed, checks, success_threshold, failure_threshold);
}

/// A domain that changes under its name leaves the others where and as they are.
proof fn lemma_other_domain(
    list: Seq<health::DomainV>,
    i: int,
    d: health::DomainV,
    other: Seq<char>,
)
    requires
        0 <= i < list.len(),
        d.domain == list[i].domain,
        i == health::domain_index(list, d.domain),
    ensures
        ({
            let k = health::domain_index(list, other);
            &&& health::domain_index(list.update(i, d), other) == k
            &&& other != d.domain && k < list.len() ==> list.update(i, d)[k] == list[k]
        }),
{
    lemma_same_place(list, i, d, other);
    lemma_domain_index(list, other);
    let k = health::domain_index(list, other);
    if other != d.domain && k < list.len() {
        lemma_found_domain(list, other);
    }
}

proof fn lemma_found_domain(list: Seq<health::DomainV>, domain: Seq<char>)
    ensures
        ({
            let k = health::domain_index(list, domain);
            &&& 0 <= k <= list.len()
            &&& k < list.len() ==> list[k].domain == domain
            &&& forall|j: int| 0 <= j < k ==> (#[trigger] list[j]).domain != domain
        }),
    decreases list.len(),
{
    if list.len() > 0 && list[0].domain != domain {
        let rest = list.skip(1);
        lemma_found_domain(rest, domain);
        assert forall|j: int| 0 <= j < health::domain_index(list, domain) implies (
        #[trigger] list[j]).domain != domain by {
            if j > 0 {
                assert(list[j] == rest[j - 1]);
            }
        }
    }
}

/// What a domain knows of an address; nothing where the domain or the address is not known.
pub open spec fn known_state(
    known: Seq<health::DomainV>,
    domain: Seq<char>,
    ip: Seq<char>,
) -> Option<health::ProbeV> {
    let i = health::domain_index(known, domain);
    if i < known.len() {
        health::state_of(known[i].ips, ip)
    } else {
        None
    }
}

/// A check of an address changes what its domain knows of that address, as far as the domain knows
/// it, and nothing that is known of other addresses or by other domains.
pub proof fn lemma_check_changes_one_address(
    known: Seq<health::DomainV>,
    domain: Seq<char>,
    ip: Seq<char>,
    result: Result<(), Seq<char>>,
    cfg: HealthCheckConfig,
    now: u64,
    other_domain: Seq<char>,
    other_ip: Seq<char>,
)
    ensures
        ({
            let after = health::with_check(known, domain, ip, result, cfg, now);
            &&& known_state(after, domain, ip) == (match known_state(known, domain, ip) {
                Some(s) => Some(
                    health::checked(
                        s,
                        result,
                        cfg.success_threshold,
                        cfg.failure_threshold,
                        now,
                    ),
                ),
                None => None,
            })
            &&& other_domain != domain || other_ip != ip ==> known_state(
                after,
                other_domain,
                other_ip,
            ) == known_state(known, other_domain, other_ip)
        }),
{
    let i = health::domain_index(known, domain);
    lemma_found_domain(known, domain);
    if i < known.len() && health::state_of(known[i].ips, ip) is Some {
        let state = health::checked(
            health::state_of(known[i].ips, ip)->0,
            result,
            cfg.success_threshold,
            cfg.failure_threshold,
            now,
        );
        let d = health::DomainV { ips: health::with_ip(known[i].ips, ip, state), ..known[i] };
        lemma_with_ip(known[i].ips, ip, state, other_ip);
        lemma_other_domain(known, i, d, domain);
        lemma_other_domain(known, i, d, other_domain);
    }
}

/// An event that is reported at a time is due again a minute later, and not before; a report
/// changes neither what is known of addresses nor when other domains were reported.
pub proof fn lemma_reports_a_minute_apart(
    known: Seq<health::DomainV>,
    domain: Seq<char>,
    then: u64,
    now: u64,
    other: Seq<char>,
    ip: Seq<char>,
)
    ensures
        ({
            let after = health::reported(known, domain, then);
            &&& health::is_due(health::last_report(after, domain), now) <==> now >= then + 60000
            &&& known_state(after, other, ip) == known_state(known, other, ip)
            &&& other != domain ==> health::last_report(after, other) == health::last_report(
                known,
                other,
            )
        }),
        health::domain_index(known, domain) == known.len() ==> health::is_due(
            health::last_report(known, domain),
            now,
        ),
{
    let i = health::domain_index(known, domain);
    lemma_found_domain(known, domain);
    if i < known.len() {
        let d = health::DomainV { last_logged: Some(then), ..known[i] };
        lemma_other_domain(known, i, d, domain);
        lemma_other_domain(known, i, d, other);
    } else {
        let d = health::DomainV { domain, ips: Seq::empty(), last_logged: Some(then) };
        lemma_last_place(known, d);
        lemma_pushed_domain(known, d, other);
    }
}

/// A domain that is put last leaves the others where and as they are.
proof fn lemma_pushed_domain(list: Seq<health::DomainV>, d: health::DomainV, other: Seq<char>)
    requires
        health::domain_index(list, d.domain) == list.len(),
    ensures
        other != d.domain ==> ({
            let k = health::domain_index(list, other);
            if k < list.len() {
                health::domain_index(list.push(d), other) == k && list.push(d)[k] == list[k]
            } else {
                health::domain_index(list.push(d), other) == list.len() + 1
            }
        }),
    decreases list.len(),
{
    let new = list.push(d);
    if list.len() == 0 {
        assert(new.skip(1) =~= Seq::empty());
        if other != d.domain {
            assert(new[0].domain != other);
            assert(health::domain_index(new.skip(1), other) == 0);
        }
    } else {
        lemma_found_domain(list, other);
        lemma_found_domain(list.skip(1), d.domain);
        lemma_found_domain(list.skip(1), other);
        if list[0].domain != d.domain {
            lemma_pushed_domain(list.skip(1), d, other);
            assert(new.skip(1) =~= list.skip(1).push(d));
        }
    }
}

/// A healthy address ranks before one of which nothing is known, and that before an unhealthy
/// one; an address or a domain that is not known ranks with those of which nothing is known.
pub proof fn lemma_ranks(
    known: Seq<health::DomainV>,
    domain: Seq<char>,
    healthy: Seq<char>,
    open: Seq<char>,
    unhealthy: Seq<char>,
)
    requires
        known_state(known, domain, healthy) matches Some(s) && s.healthy == Some(true),
        known_state(known, domain, open) matches Some(s) ==> s.healthy is None,
        known_state(known, domain, unhealthy) matches Some(s) && s.healthy == Some(false),
    ensures
        health::health_score(known, domain, healthy) > health::health_score(known, domain, open),
        health::health_score(known, domain, open) > health::health_score(
            known,
            domain,
            unhealthy,
        ),
{
}

/// What is known of an address is kept when its domain is registered anew with a list that names
/// it once; an address that the list does not name is forgotten.
pub proof fn lemma_registering_keeps_states(
    known: Seq<health::IpV>,
    ips: Seq<Seq<char>>,
    ip: Seq<char>,
    i: int,
)
    requires
        ip.len() > 0,
        0 <= i < ips.len() ==> text::trim(ips[i]) == ip,
        forall|k: int| 0 <= k < ips.len() && k != i ==> text::trim(#[trigger] ips[k]) != ip,
    ensures
        health::state_of(health::registered(known, ips), ip) == (if 0 <= i < ips.len() {
            match health::state_of(known, ip) {
                Some(s) => Some(s),
                None => Some(health::unchecked()),
            }
        } else {
            None
        }),
    decreases ips.len(),
{
    if ips.len() > 0 {
        let start = ips.drop_last();
        let name = text::trim(ips.last());
        let done = health::registered(known, start);
        assert(forall|k: int| 0 <= k < start.len() ==> #[trigger] start[k] == ips[k]);
        assert(ips[ips.len() - 1] == ips.last());
        lemma_registering_keeps_states(known, start, ip, i);
        if name.len() > 0 {
            let state = if health::state_of(done, name) is None && health::state_of(known, name)
                is Some {
                health::state_of(known, name)->0
            } else {
                health::unchecked()
            };
            lemma_with_ip(done, name, state, ip);
        }
    }
}

proof fn lemma_work_count(domains: Seq<health::DomainV>, k: int)
    requires
        0 <= k <= domains.len(),
    ensures
        health::workload(domains, k).len() == health::ip_count(domains, k),
    decreases k,
{
    if k > 0 {
        lemma_work_count(domains, k - 1);
    }
}

/// Every address of every domain is checked together with its domain, and there are as many checks
/// as the summary counts addresses.
pub proof fn lemma_every_address_is_checked(
    domains: Seq<health::DomainV>,
    k: int,
    d: int,
    i: int,
)
    requires
        0 <= d < k <= domains.len(),
        0 <= i < domains[d].ips.len(),
    ensures
        health::workload(domains, k).contains((domains[d].domain, domains[d].ips[i].ip)),
        health::workload(domains, k).len() == health::ip_count(domains, k),
    decreases k,
{
    lemma_work_count(domains, k);
    let before = health::workload(domains, k - 1);
    let last = health::domain_work(domains[k - 1]);
    let item = (domains[d].domain, domains[d].ips[i].ip);
    if d < k - 1 {
        lemma_every_address_is_checked(domains, k - 1, d, i);
        let j = choose|j: int| 0 <= j < before.len() && before[j] == item;
        assert((before + last)[j] == item);
    } else {
        assert(last[i] == item);
        assert((before + last)[before.len() + i] == item);
    }
}

/// The summary counts the domains that have an address and of which every address is unhealthy.
pub proof fn lemma_degraded_are_counted(domains: Seq<health::DomainV>, k: int)
    requires
        0 <= k <= domains.len(),
    ensures
        health::degraded_count(domains, k) == Set::new(
            |d: int|
                0 <= d < k && domains[d].ips.len() > 0 && forall|i: int|
                    0 <= i < domains[d].ips.len() ==> (#[trigger] domains[d].ips[i]).state.healthy
                        == Some(false),
        ).len(),
        Set::new(
            |d: int|
                0 <= d < k && domains[d].ips.len() > 0 && forall|i: int|
                    0 <= i < domains[d].ips.len() ==> (#[trigger] domains[d].ips[i]).state.healthy
                        == Some(false),
        ).finite(),
    decreases k,
{
    let f = |d: int|
        0 <= d < k && domains[d].ips.len() > 0 && forall|i: int|
            0 <= i < domains[d].ips.len() ==> (#[trigger] domains[d].ips[i]).state.healthy == Some(
                false,
            );
    let s = Set::new(f);
    if k == 0 {
        assert(s =~= Set::empty());
    } else {
        lemma_degraded_are_counted(domains, k - 1);
        let g = |d: int|
            0 <= d < k - 1 && domains[d].ips.len() > 0 && forall|i: int|
                0 <= i < domains[d].ips.len() ==> (#[trigger] domains[d].ips[i]).state.healthy
                    == Some(false);
        let t = Set::new(g);
        if health::is_degraded(domains[k - 1]) {
            assert(s =~= t.insert(k - 1));
        } else {
            assert(s =~= t);
        }
    }
}

/// A report goes to the web hook that the settings name, without white space round it; a blank one
/// is none.
pub proof fn lemma_web_hooks(c: HealthCheckConfig)
    ensures
        health::webhook_of(c) is Some <==> c.notify_webhook is Some && text::trim(
            c.notify_webhook->0@,
        ).len() > 0,
        health::webhook_of(c) is Some ==> health::webhook_of(c)->0 == text::trim(
            c.notify_webhook->0@,
        ),
{
}

} // verus!
