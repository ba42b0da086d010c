//! What holds of the rules on settings: which settings are valid, each rule in the terms of the
//! settings themselves.
use crate::config::records;
use crate::config::rules;
use crate::config::types;
use crate::config::types::{AppConfig, LoggingConfig, NsHostnameResolveMode};
use crate::config::validate;
use crate::decimal;
use crate::health;
use crate::health::HealthCheckConfig;
use crate::ip;
use crate::text;
use crate::text_laws;
use vstd::prelude::*;

verus! {

/// Whether a text is an address and a port other than zero, white space around it left out.
pub open spec fn is_endpoint(s: Seq<char>) -> bool {
    ip::socket_port(text::trim(s)) matches Some(port) && port > 0
}

pub open spec fn all_endpoints(list: Seq<Seq<char>>) -> bool {
    forall|i: int| 0 <= i < list.len() ==> is_endpoint(#[trigger] list[i])
}

/// Whether a text has a character that is no white space.
pub open spec fn says_something(s: Seq<char>) -> bool {
    exists|i: int| 0 <= i < s.len() && !text::is_white(#[trigger] s[i])
}

pub open spec fn all_say_something(list: Seq<Seq<char>>) -> bool {
    forall|i: int| 0 <= i < list.len() ==> says_something(#[trigger] list[i])
}

/// Whether a text is one of some words, whatever its case.
pub open spec fn is_word(s: Seq<char>, words: Seq<Seq<char>>) -> bool {
    exists|i: int| 0 <= i < words.len() && text::lower(s) == #[trigger] words[i]
}

/// A text is blank where it says nothing.
pub proof fn lemma_not_blank(s: Seq<char>)
    ensures
        rules::blank(s) <==> !says_something(s),
{
    text_laws::lemma_blank(s);
}

/// An endpoint is refused exactly where it is no address with a port other than zero.
pub proof fn lemma_endpoint(s: Seq<char>, field: Seq<char>)
    ensures
        rules::endpoint_error(s, field) is None <==> is_endpoint(s),
{
    let t = text::trim(s);
    if t.len() == 0 {
        assert(text::split(t, ':').len() == 1);
    }
}

/// A list of checks passes exactly where each of them does.
pub proof fn lemma_first_none(list: Seq<Option<Seq<char>>>)
    ensures
        rules::first(list) is None <==> forall|i: int|
            0 <= i < list.len() ==> (#[trigger] list[i]) is None,
    decreases list.len(),
{
    if list.len() > 0 {
        let rest = list.skip(1);
        lemma_first_none(rest);
        assert(forall|i: int| 0 <= i < rest.len() ==> #[trigger] rest[i] == list[i + 1]);
        if list[0] is None {
            if rules::first(rest) is None {
                assert forall|i: int| 0 <= i < list.len() implies (#[trigger] list[i]) is None by {
                    if i > 0 {
                        assert(rest[i - 1] is None);
                    }
                }
            } else {
                let i = choose|i: int| 0 <= i < rest.len() && (#[trigger] rest[i]) is Some;
                assert(list[i + 1] is Some);
            }
        }
    }
}

/// A list of endpoints is refused exactly where one of them is.
pub proof fn lemma_endpoints(list: Seq<Seq<char>>, field: Seq<char>)
    ensures
        rules::endpoints_error(list, field) is None <==> all_endpoints(list),
{
    let checks = list.map_values(|s: Seq<char>| rules::endpoint_error(s, field));
    lemma_first_none(checks);
    assert forall|i: int| 0 <= i < list.len() implies ((#[trigger] checks[i]) is None
        <==> is_endpoint(list[i])) by {
        lemma_endpoint(list[i], field);
    }
    if rules::endpoints_error(list, field) is None {
        assert forall|i: int| 0 <= i < list.len() implies is_endpoint(#[trigger] list[i]) by {
            assert(checks[i] is None);
        }
    }
}

/// A list of texts is refused exactly where one of them is blank.
pub proof fn lemma_no_blank_items(list: Seq<Seq<char>>, message: Seq<char>)
    ensures
        rules::blank_item_error(list, message) is None <==> all_say_something(list),
{
    assert forall|i: int| 0 <= i < list.len() implies (rules::blank(#[trigger] list[i])
        <==> !says_something(list[i])) by {
        lemma_not_blank(list[i]);
    }
}

/// A list of networks is refused exactly where one of them is no network.
pub proof fn lemma_networks(list: Seq<Seq<char>>, prefix: Seq<char>)
    ensures
        rules::networks_error(list, prefix) is None <==> forall|i: int|
            0 <= i < list.len() ==> ip::is_network(#[trigger] list[i]),
{
    let checks = list.map_values(
        |s: Seq<char>|
            if ip::is_network(s) {
                None
            } else {
                Some(prefix + s)
            },
    );
    lemma_first_none(checks);
    assert forall|i: int| 0 <= i < list.len() implies ((#[trigger] checks[i]) is None
        <==> ip::is_network(list[i])) by {}
    if rules::networks_error(list, prefix) is None {
        assert forall|i: int| 0 <= i < list.len() implies ip::is_network(#[trigger] list[i]) by {
            assert(checks[i] is None);
        }
    }
}

pub open spec fn levels() -> Seq<Seq<char>> {
    seq!["trace"@, "debug"@, "info"@, "warn"@, "error"@, "off"@]
}

/// A log level is one of six words, whatever its case and the white space around it.
pub proof fn lemma_level(value: Seq<char>, field: Seq<char>)
    ensures
        rules::level_error(value, field) is None <==> is_word(text::trim(value), levels()),
{
    let level = text::lower(text::trim(value));
    let l = levels();
    assert(l[0] == "trace"@ && l[1] == "debug"@ && l[2] == "info"@ && l[3] == "warn"@ && l[4]
        == "error"@ && l[5] == "off"@);
}

proof fn lemma_word_folds(s: Seq<char>, word: Seq<char>)
    requires
        forall|i: int| 0 <= i < word.len() ==> 'a' <= #[trigger] word[i] <= 'z',
    ensures
        rules::fold_eq(s, word) <==> text::lower(s) == word,
{
    assert(text::lower(word) =~= word);
}

/// Where encrypted listeners are off, the rules on them hold; DNS over TLS needs an endpoint and
/// two paths that are not blank, DNS over HTTPS an endpoint.
pub proof fn lemma_encrypted_listeners(dot: types::DotConfig, doh: types::DohConfig)
    ensures
        validate::dot_error(dot) is None <==> (dot.enabled ==> is_endpoint(dot.listen@)
            && says_something(dot.cert_file@) && says_something(dot.key_file@)),
        validate::doh_error(doh) is None <==> (doh.enabled ==> is_endpoint(doh.listen@)),
{
    lemma_endpoint(dot.listen@, "dot.listen"@);
    lemma_endpoint(doh.listen@, "doh.listen"@);
    lemma_not_blank(dot.cert_file@);
    lemma_not_blank(dot.key_file@);
}

/// The checks of addresses may be set in any way while they are off; while they are on, their
/// kind is known, every number that counts something is positive, the path of a request is not
/// blank, and a report is tried again ten times at most.
pub proof fn lemma_health_settings(c: HealthCheckConfig)
    ensures
        health::health_check_error(c) is None <==> (c.enabled ==> {
            &&& is_word(c.mode@, seq!["tcp"@, "http"@, "https"@])
            &&& c.port > 0
            &&& c.interval_secs > 0
            &&& c.timeout_ms > 0
            &&& c.max_parallel > 0
            &&& c.failure_threshold > 0
            &&& c.success_threshold > 0
            &&& says_something(c.http_path@)
            &&& c.notify_webhook_retries <= 10
            &&& c.notify_webhook_backoff_ms > 0
        }),
{
    reveal_strlit("tcp");
    reveal_strlit("http");
    reveal_strlit("https");
    lemma_word_folds(c.mode@, "tcp"@);
    lemma_word_folds(c.mode@, "http"@);
    lemma_word_folds(c.mode@, "https"@);
    lemma_not_blank(c.http_path@);
    let w = seq!["tcp"@, "http"@, "https"@];
    assert(w[0] == "tcp"@ && w[1] == "http"@ && w[2] == "https"@);
}

/// The listeners of the server are endpoints.
pub proof fn lemma_listeners(c: AppConfig)
    ensures
        validate::listen_error(c) is None <==> is_endpoint(c.udp_listen@) && is_endpoint(
            c.tcp_listen@,
        ) && is_endpoint(c.admin_listen@) && is_endpoint(c.control_listen@),
{
    lemma_endpoint(c.udp_listen@, "udp_listen"@);
    lemma_endpoint(c.tcp_listen@, "tcp_listen"@);
    lemma_endpoint(c.admin_listen@, "admin_listen"@);
    lemma_endpoint(c.control_listen@, "control_listen"@);
}

/// Queries are forwarded or resolved by the server itself. A server that forwards, or may fall
/// back to it, has an upstream; one that finds the addresses of name servers by itself has a root
/// server; all of them are endpoints.
pub proof fn lemma_servers(c: AppConfig)
    ensures
        validate::servers_error(c) is None <==> {
            &&& is_word(c.resolve_mode@, seq!["forwarder"@, "iterative"@])
            &&& text::lower(c.resolve_mode@) == "forwarder"@ || c.iterative_fallback_to_forwarder
                ==> c.upstreams@.len() > 0
            &&& all_endpoints(text::views(c.upstreams@))
            &&& all_endpoints(text::views(c.root_servers@))
            &&& c.ns_hostname_resolve_mode == NsHostnameResolveMode::PureIterative
                ==> c.root_servers@.len() > 0
        },
{
    reveal_strlit("forwarder");
    reveal_strlit("iterative");
    lemma_word_folds(c.resolve_mode@, "forwarder"@);
    lemma_word_folds(c.resolve_mode@, "iterative"@);
    lemma_endpoints(text::views(c.upstreams@), "upstreams"@);
    lemma_endpoints(text::views(c.root_servers@), "root_servers"@);
    let w = seq!["forwarder"@, "iterative"@];
    assert(w[0] == "forwarder"@ && w[1] == "iterative"@);
}

/// Depths, times and capacities are positive; those of the delegation cache only where it is on.
pub proof fn lemma_limits(c: AppConfig)
    ensures
        validate::depth_error(c) is None <==> c.iterative_max_depth > 0 && c.iterative_timeout_ms
            > 0 && c.cname_chain_max_depth > 0 && c.upstream_timeout_ms > 0
            && health::health_check_error(c.health_check) is None,
        validate::cache_error(c) is None <==> {
            &&& c.cache_ttl_secs > 0
            &&& c.ns_host_cache_ttl_secs > 0
            &&& c.ns_host_cache_cleanup_interval_ms > 0
            &&& c.enable_delegation_cache ==> c.delegation_cache_capacity > 0
                && c.delegation_cache_ttl_cap_secs > 0 && c.delegation_cache_cleanup_interval_ms
                > 0 && c.delegation_failure_backoff_ms > 0
            &&& c.stats_window_secs > 0
            &&& c.stats_short_window_secs > 0
            &&& c.cache_hot_capacity > 0
            &&& c.response_cache_capacity > 0
            &&& c.prefetch_window_secs > 0
            &&& c.prefetch_ttl_trigger_secs > 0
        },
{
}

/// A cache that adapts has positive bounds in order, a positive step and a positive window, and
/// two ratios from zero to one of which the lower one is the smaller.
pub proof fn lemma_adaptive(c: AppConfig)
    ensures
        validate::adaptive_error(c) is None <==> (c.adaptive_cache_enabled ==> {
            &&& 0 < c.adaptive_cache_min_capacity <= c.adaptive_cache_max_capacity
            &&& c.adaptive_cache_step > 0
            &&& c.adaptive_cache_window_secs > 0
            &&& decimal::unit_value(c.adaptive_cache_low_miss_ratio.text@) matches Some(low)
            &&& decimal::unit_value(c.adaptive_cache_high_miss_ratio.text@) matches Some(high)
            &&& decimal::unit_lt(low, high)
        }),
{
}

/// No weight is negative, and zones stand in views only.
pub proof fn lemma_no_top_level_zones(c: AppConfig)
    ensures
        validate::top_level_zone_error(c) is None <==> {
            &&& !decimal::is_negative(c.upstream_score_rtt_weight.text@)
            &&& !decimal::is_negative(c.upstream_score_failure_weight.text@)
            &&& !decimal::is_negative(c.upstream_score_success_weight.text@)
            &&& c.authoritative_zones_file is None
            &&& c.authoritative_zones_dir matches Some(dir) ==> !says_something(dir@)
            &&& c.authoritative_zones@.len() == 0
        },
{
    if c.authoritative_zones_dir is Some {
        lemma_not_blank(c.authoritative_zones_dir->0@);
    }
}

/// A log that is kept has a directory, is begun anew every day, has one of two formats, and
/// levels that are known; no domain that is traced is blank.
pub proof fn lemma_logging(l: LoggingConfig)
    ensures
        validate::logging_error(l) is None <==> (l.enabled ==> {
            &&& says_something(l.directory@)
            &&& text::lower(l.rotation@) == "day"@
            &&& is_word(l.format@, seq!["compact"@, "json"@])
            &&& is_word(text::trim(l.query_level@), levels())
            &&& is_word(text::trim(l.response_level@), levels())
            &&& is_word(text::trim(l.general_level@), levels())
            &&& all_say_something(text::views(l.trace_query_domains@))
        }),
{
    reveal_strlit("day");
    reveal_strlit("compact");
    reveal_strlit("json");
    lemma_word_folds(l.rotation@, "day"@);
    lemma_word_folds(l.format@, "compact"@);
    lemma_word_folds(l.format@, "json"@);
    lemma_not_blank(l.directory@);
    lemma_level(l.query_level@, "logging.query_level"@);
    lemma_level(l.response_level@, "logging.response_level"@);
    lemma_level(l.general_level@, "logging.general_level"@);
    lemma_no_blank_items(
        text::views(l.trace_query_domains@),
        "logging.trace_query_domains contains an empty domain"@,
    );
    let w = seq!["compact"@, "json"@];
    assert(w[0] == "compact"@ && w[1] == "json"@);
}

/// Clients are allowed by networks, and no blocked domain is blank.
pub proof fn lemma_access(c: AppConfig)
    ensures
        validate::access_error(c) is None <==> (forall|i: int|
            0 <= i < c.allow_clients@.len() ==> ip::is_network(
                #[trigger] text::views(c.allow_clients@)[i],
            )) && all_say_something(text::views(c.blocked_domains@)),
{
    lemma_networks(text::views(c.allow_clients@), "invalid CIDR in allow_clients: "@);
    lemma_no_blank_items(
        text::views(c.blocked_domains@),
        "blocked_domains contains an empty domain"@,
    );
}

/// No frozen domain and no path of a trust anchor is blank; a server that validates has trust
/// anchors, its own or those of a file.
pub proof fn lemma_trust(c: AppConfig)
    ensures
        validate::trust_error(c) is None <==> {
            &&& all_say_something(text::views(c.freeze_cache_domains@))
            &&& all_say_something(text::views(c.dnssec.trust_anchor_files@))
            &&& c.dnssec.enabled ==> c.dnssec.use_builtin_trust_anchors
                || c.dnssec.trust_anchor_files@.len() > 0
        },
{
    lemma_no_blank_items(
        text::views(c.freeze_cache_domains@),
        "freeze_cache_domains contains an empty domain"@,
    );
    lemma_no_blank_items(
        text::views(c.dnssec.trust_anchor_files@),
        "dnssec.trust_anchor_files contains an empty path"@,
    );
}

/// A hop takes less time than a whole resolution, and the search for the address of a name server
/// no more than a hop, where a hop is limited at all; zones are known beforehand only where
/// delegations are cached.
pub proof fn lemma_hops(c: AppConfig)
    ensures
        validate::hop_error(c) is None <==> {
            &&& c.ns_hostname_max_concurrent >= 1
            &&& c.ns_hostname_enough_endpoints >= 1
            &&& c.ns_hostname_per_resolve_ms >= 100
            &&& c.iterative_per_hop_timeout_ms == 0 || c.ns_hostname_per_resolve_ms
                <= c.iterative_per_hop_timeout_ms < c.iterative_timeout_ms
            &&& c.prewarm_delegation_zones@.len() > 0 ==> c.enable_delegation_cache
        },
{
}

/// A zone that is known beforehand has a name, an endpoint or a host name of a server, and a
/// positive time to live; its endpoints are endpoints, and its host names are host names.
pub proof fn lemma_prewarmed_zone(z: types::PreWarmZone, path: Seq<char>)
    ensures
        validate::prewarm_error(z, path) is None <==> {
            &&& says_something(z.zone@)
            &&& z.ns_endpoints@.len() + z.ns_hostnames@.len() > 0
            &&& z.ttl_secs > 0
            &&& all_endpoints(text::views(z.ns_endpoints@))
            &&& forall|i: int|
                0 <= i < z.ns_hostnames@.len() ==> says_something(
                    #[trigger] text::views(z.ns_hostnames@)[i],
                ) && rules::is_dns_name(text::views(z.ns_hostnames@)[i])
        },
{
    lemma_not_blank(z.zone@);
    lemma_endpoints(text::views(z.ns_endpoints@), path + ".ns_endpoints"@);
    let hosts = text::views(z.ns_hostnames@);
    let checks = hosts.map_values(|h: Seq<char>| validate::host_error(h, path));
    lemma_first_none(checks);
    assert forall|i: int| 0 <= i < hosts.len() implies ((#[trigger] checks[i]) is None
        <==> says_something(hosts[i]) && rules::is_dns_name(hosts[i])) by {
        lemma_not_blank(hosts[i]);
    }
    if validate::hosts_error(hosts, path) is None {
        assert forall|i: int| 0 <= i < hosts.len() implies says_something(#[trigger] hosts[i])
            && rules::is_dns_name(hosts[i]) by {
            assert(checks[i] is None);
        }
    } else {
        let i = choose|i: int| 0 <= i < checks.len() && (#[trigger] checks[i]) is Some;
        assert(!(says_something(hosts[i]) && rules::is_dns_name(hosts[i])));
    }
}

/// The zones that are known beforehand are refused exactly where one of them is.
pub proof fn lemma_prewarmed_zones(zones: Seq<types::PreWarmZone>)
    ensures
        validate::prewarm_zones_error(zones) is None <==> forall|i: int|
            0 <= i < zones.len() ==> validate::prewarm_error(
                #[trigger] zones[i],
                records::item_path("prewarm_delegation_zones"@, i),
            ) is None,
{
    let checks = zones.map(
        |i: int, z: types::PreWarmZone|
            validate::prewarm_error(z, records::item_path("prewarm_delegation_zones"@, i)),
    );
    lemma_first_none(checks);
    if validate::prewarm_zones_error(zones) is None {
        assert forall|i: int| 0 <= i < zones.len() implies validate::prewarm_error(
            #[trigger] zones[i],
            records::item_path("prewarm_delegation_zones"@, i),
        ) is None by {
            assert(checks[i] is None);
        }
    } else {
        let i = choose|i: int| 0 <= i < checks.len() && (#[trigger] checks[i]) is Some;
        assert(validate::prewarm_error(
            zones[i],
            records::item_path("prewarm_delegation_zones"@, i),
        ) is Some);
    }
}

/// The settings are valid exactly where each group of them is.
pub proof fn lemma_every_group_counts(c: AppConfig)
    ensures
        validate::config_error(c) is None <==> {
            &&& validate::listen_error(c) is None
            &&& validate::servers_error(c) is None
            &&& validate::depth_error(c) is None
            &&& validate::cache_error(c) is None
            &&& validate::adaptive_error(c) is None
            &&& validate::top_level_zone_error(c) is None
            &&& validate::logging_error(c.logging) is None
            &&& validate::access_error(c) is None
            &&& validate::static_records_error(
                types::record_views(c.static_records@),
                "static_records"@,
            ) is None
            &&& validate::sources_error(c.authoritative_sources@) is None
            &&& validate::views_error(c.views@) is None
            &&& validate::trust_error(c) is None
            &&& validate::dot_error(c.dot) is None
            &&& validate::doh_error(c.doh) is None
            &&& validate::hop_error(c) is None
            &&& validate::prewarm_zones_error(c.prewarm_delegation_zones@) is None
        },
{
}

/// Settings that are valid without DNS over TLS are valid with it exactly where its listener is an
/// endpoint and neither the path of the certificate nor that of the key is blank.
pub proof fn lemma_enabling_dot(c: AppConfig)
    requires
        c.dot.enabled,
        validate::config_error(
            AppConfig { dot: types::DotConfig { enabled: false, ..c.dot }, ..c },
        ) is None,
    ensures
        validate::config_error(c) is None <==> is_endpoint(c.dot.listen@) && says_something(
            c.dot.cert_file@,
        ) && says_something(c.dot.key_file@),
{
    let off = AppConfig { dot: types::DotConfig { enabled: false, ..c.dot }, ..c };
    lemma_every_group_counts(c);
    lemma_every_group_counts(off);
    lemma_encrypted_listeners(c.dot, c.doh);
}

/// Settings that are valid without DNS over HTTPS are valid with it exactly where its listener is
/// an endpoint.
pub proof fn lemma_enabling_doh(c: AppConfig)
    requires
        c.doh.enabled,
        validate::config_error(
            AppConfig { doh: types::DohConfig { enabled: false, ..c.doh }, ..c },
        ) is None,
    ensures
        validate::config_error(c) is None <==> is_endpoint(c.doh.listen@),
{
    let off = AppConfig { doh: types::DohConfig { enabled: false, ..c.doh }, ..c };
    lemma_every_group_counts(c);
    lemma_every_group_counts(off);
    lemma_encrypted_listeners(c.dot, c.doh);
}

} // verus!
