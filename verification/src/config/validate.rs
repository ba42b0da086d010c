//! The rules on the settings as a whole.
use crate::config::records;
use crate::config::records::{
    path_of_item, validate_authoritative_source, validate_authoritative_zone,
    validate_legacy_view_record, validate_static_like_record,
};
use crate::config::rules;
use crate::config::rules::{
    broken, is_blank, is_valid_dns_name, validate_endpoint, validate_endpoints, validate_level,
    validate_networks, validate_no_blank, ConfigError,
};
use crate::config::types;
use crate::config::types::{
    AppConfig, AuthoritativeSource, DnsView, LoggingConfig, NsHostnameResolveMode, PreWarmZone,
    StaticRecord,
};
use crate::decimal;
use crate::health;
use crate::text;
use vstd::prelude::*;

verus! {

pub open spec fn listen_error(c: AppConfig) -> Option<Seq<char>> {
    rules::either(
        rules::endpoint_error(c.udp_listen@, "udp_listen"@),
        rules::either(
            rules::endpoint_error(c.tcp_listen@, "tcp_listen"@),
            rules::either(
                rules::endpoint_error(c.admin_listen@, "admin_listen"@),
                rules::endpoint_error(c.control_listen@, "control_listen"@),
            ),
        ),
    )
}

/// Whether queries can go to the upstream servers.
pub open spec fn needs_upstreams(c: AppConfig) -> bool {
    rules::fold_eq(c.resolve_mode@, "forwarder"@) || c.iterative_fallback_to_forwarder
}

pub open spec fn servers_error(c: AppConfig) -> Option<Seq<char>> {
    let upstreams = rules::endpoints_error(text::views(c.upstreams@), "upstreams"@);
    let roots = rules::endpoints_error(text::views(c.root_servers@), "root_servers"@);
    if !rules::fold_eq(c.resolve_mode@, "forwarder"@) && !rules::fold_eq(
        c.resolve_mode@,
        "iterative"@,
    ) {
        Some("resolve_mode must be either 'forwarder' or 'iterative'"@)
    } else if needs_upstreams(c) && c.upstreams@.len() == 0 {
        Some(
            "upstreams must not be empty when resolve_mode=forwarder or iterative_fallback_to_forwarder=true"@,
        )
    } else if upstreams is Some {
        upstreams
    } else if roots is Some {
        roots
    } else if c.ns_hostname_resolve_mode == NsHostnameResolveMode::PureIterative
        && c.root_servers@.len() == 0 {
        Some("ns_hostname_resolve_mode=pure_iterative requires non-empty root_servers"@)
    } else {
        None
    }
}

pub open spec fn depth_error(c: AppConfig) -> Option<Seq<char>> {
    if c.iterative_max_depth == 0 {
        Some("iterative_max_depth must be greater than 0"@)
    } else if c.iterative_timeout_ms == 0 {
        Some("iterative_timeout_ms must be greater than 0"@)
    } else if c.cname_chain_max_depth == 0 {
        Some("cname_chain_max_depth must be greater than 0"@)
    } else if c.upstream_timeout_ms == 0 {
        Some("upstream_timeout_ms must be greater than 0"@)
    } else {
        health::health_check_error(c.health_check)
    }
}

pub open spec fn delegation_error(c: AppConfig) -> Option<Seq<char>> {
    if !c.enable_delegation_cache {
        None
    } else if c.delegation_cache_capacity == 0 {
        Some("delegation_cache_capacity must be greater than 0"@)
    } else if c.delegation_cache_ttl_cap_secs == 0 {
        Some("delegation_cache_ttl_cap_secs must be greater than 0"@)
    } else if c.delegation_cache_cleanup_interval_ms == 0 {
        Some("delegation_cache_cleanup_interval_ms must be greater than 0"@)
    } else if c.delegation_failure_backoff_ms == 0 {
        Some("delegation_failure_backoff_ms must be greater than 0"@)
    } else {
        None
    }
}

pub open spec fn cache_error(c: AppConfig) -> Option<Seq<char>> {
    if c.cache_ttl_secs == 0 {
        Some("cache_ttl_secs must be greater than 0"@)
    } else if c.ns_host_cache_ttl_secs == 0 {
        Some("ns_host_cache_ttl_secs must be greater than 0"@)
    } else if c.ns_host_cache_cleanup_interval_ms == 0 {
        Some("ns_host_cache_cleanup_interval_ms must be greater than 0"@)
    } else if delegation_error(c) is Some {
        delegation_error(c)
    } else if c.stats_window_secs == 0 || c.stats_short_window_secs == 0 {
        Some("stats_window_secs and stats_short_window_secs must be greater than 0"@)
    } else if c.cache_hot_capacity == 0 {
        Some("cache_hot_capacity must be greater than 0"@)
    } else if c.response_cache_capacity == 0 {
        Some("response_cache_capacity must be greater than 0"@)
    } else if c.prefetch_window_secs == 0 {
        Some("prefetch_window_secs must be greater than 0"@)
    } else if c.prefetch_ttl_trigger_secs == 0 {
        Some("prefetch_ttl_trigger_secs must be greater than 0"@)
    } else {
        None
    }
}

pub open spec fn adaptive_error(c: AppConfig) -> Option<Seq<char>> {
    let high = c.adaptive_cache_high_miss_ratio.text@;
    let low = c.adaptive_cache_low_miss_ratio.text@;
    if !c.adaptive_cache_enabled {
        None
    } else if c.adaptive_cache_min_capacity == 0 {
        Some("adaptive_cache_min_capacity must be greater than 0"@)
    } else if c.adaptive_cache_max_capacity == 0 {
        Some("adaptive_cache_max_capacity must be greater than 0"@)
    } else if c.adaptive_cache_step == 0 {
        Some("adaptive_cache_step must be greater than 0"@)
    } else if c.adaptive_cache_window_secs == 0 {
        Some("adaptive_cache_window_secs must be greater than 0"@)
    } else if c.adaptive_cache_min_capacity > c.adaptive_cache_max_capacity {
        Some("adaptive_cache_min_capacity must be <= adaptive_cache_max_capacity"@)
    } else if decimal::unit_value(high) is None || decimal::unit_value(low) is None {
        Some(
            "adaptive_cache_high_miss_ratio and adaptive_cache_low_miss_ratio must be in [0,1]"@,
        )
    } else if !decimal::is_below(low, high) {
        Some("adaptive_cache_low_miss_ratio must be less than adaptive_cache_high_miss_ratio"@)
    } else {
        None
    }
}

/// Whether an optional path is given and not blank.
pub open spec fn is_given(path: Option<String>) -> bool {
    path is Some && !rules::blank(path->0@)
}

pub open spec fn top_level_zone_error(c: AppConfig) -> Option<Seq<char>> {
    if decimal::is_negative(c.upstream_score_rtt_weight.text@) || decimal::is_negative(
        c.upstream_score_failure_weight.text@,
    ) || decimal::is_negative(c.upstream_score_success_weight.text@) {
        Some("upstream_score_* weights must be non-negative"@)
    } else if c.authoritative_zones_file is Some && rules::blank(c.authoritative_zones_file->0@) {
        Some("authoritative_zones_file must not be empty when provided"@)
    } else if is_given(c.authoritative_zones_file) {
        Some(
            "top-level authoritative_zones_file is not supported; configure authoritative zones under views[*].authoritative_zones_file or views[*].authoritative_zones_dir"@,
        )
    } else if is_given(c.authoritative_zones_dir) {
        Some(
            "top-level authoritative_zones_dir is not supported; configure authoritative zones under views[*].authoritative_zones_dir"@,
        )
    } else if c.authoritative_zones@.len() > 0 {
        Some(
            "top-level authoritative_zones is not supported; configure authoritative zones under views[*].authoritative_zones"@,
        )
    } else {
        None
    }
}

pub open spec fn logging_error(l: LoggingConfig) -> Option<Seq<char>> {
    if !l.enabled {
        None
    } else if rules::blank(l.directory@) {
        Some("logging.directory must not be empty when logging is enabled"@)
    } else if !rules::fold_eq(l.rotation@, "day"@) {
        Some("logging.rotation must be 'day' in current version"@)
    } else if !rules::fold_eq(l.format@, "compact"@) && !rules::fold_eq(l.format@, "json"@) {
        Some("logging.format must be either 'compact' or 'json'"@)
    } else {
        rules::either(
            rules::level_error(l.query_level@, "logging.query_level"@),
            rules::either(
                rules::level_error(l.response_level@, "logging.response_level"@),
                rules::either(
                    rules::level_error(l.general_level@, "logging.general_level"@),
                    rules::blank_item_error(
                        text::views(l.trace_query_domains@),
                        "logging.trace_query_domains contains an empty domain"@,
                    ),
                ),
            ),
        )
    }
}

/// The rule on each static record of a list; `path` is how the messages name the list.
pub open spec fn static_records_error(
    list: Seq<types::StaticRecordV>,
    path: Seq<char>,
) -> Option<Seq<char>> {
    rules::first(
        list.map(
            |i: int, r: types::StaticRecordV|
                records::static_record_error(r, records::item_path(path, i)),
        ),
    )
}

pub open spec fn sources_error(list: Seq<AuthoritativeSource>) -> Option<Seq<char>> {
    rules::first(
        list.map(
            |i: int, s: AuthoritativeSource|
                records::source_error(s, records::item_path("authoritative_sources"@, i)),
        ),
    )
}

/// The path of a setting of a view.
pub open spec fn view_path(name: Seq<char>, setting: Seq<char>) -> Seq<char> {
    "views."@ + name + setting
}

pub open spec fn legacy_list_error(v: DnsView) -> Option<Seq<char>> {
    rules::first(
        v.records@.map(
            |i: int, r: types::ViewRecord|
                records::legacy_record_error(
                    r,
                    records::item_path(view_path(v.name@, ".records"@), i),
                ),
        ),
    )
}

pub open spec fn view_zones_error(v: DnsView) -> Option<Seq<char>> {
    rules::first(
        types::zone_views(v.authoritative_zones@).map(
            |i: int, z: types::AuthoritativeZoneV|
                records::zone_error(
                    z,
                    records::item_path(view_path(v.name@, ".authoritative_zones"@), i),
                ),
        ),
    )
}

/// The first rule that a view breaks.
pub open spec fn view_error(v: DnsView) -> Option<Seq<char>> {
    if rules::blank(v.name@) {
        Some("views contains an item with empty name"@)
    } else {
        rules::either(
            rules::networks_error(
                text::views(v.client_cidrs@),
                "invalid CIDR in "@ + view_path(v.name@, ".client_cidrs: "@),
            ),
            rules::either(
                rules::blank_item_error(
                    text::views(v.blocked_domains@),
                    view_path(v.name@, ".blocked_domains contains an empty domain"@),
                ),
                rules::either(
                    static_records_error(
                        types::record_views(v.static_records@),
                        view_path(v.name@, ".static_records"@),
                    ),
                    if v.authoritative_records@.len() > 0 {
                        Some(
                            view_path(
                                v.name@,
                                ".authoritative_records is not supported; use views[].authoritative_zones (with SOA) or views[].authoritative_zones_dir instead"@,
                            ),
                        )
                    } else {
                        rules::either(legacy_list_error(v), view_zones_error(v))
                    },
                ),
            ),
        )
    }
}

pub open spec fn views_error(views: Seq<DnsView>) -> Option<Seq<char>> {
    rules::first(views.map_values(|v: DnsView| view_error(v)))
}

pub open spec fn access_error(c: AppConfig) -> Option<Seq<char>> {
    rules::either(
        rules::networks_error(
            text::views(c.allow_clients@),
            "invalid CIDR in allow_clients: "@,
        ),
        rules::blank_item_error(
            text::views(c.blocked_domains@),
            "blocked_domains contains an empty domain"@,
        ),
    )
}

pub open spec fn data_error(c: AppConfig) -> Option<Seq<char>> {
    rules::either(
        static_records_error(types::record_views(c.static_records@), "static_records"@),
        rules::either(sources_error(c.authoritative_sources@), views_error(c.views@)),
    )
}

pub open spec fn trust_error(c: AppConfig) -> Option<Seq<char>> {
    rules::either(
        rules::blank_item_error(
            text::views(c.freeze_cache_domains@),
            "freeze_cache_domains contains an empty domain"@,
        ),
        rules::either(
            rules::blank_item_error(
                text::views(c.dnssec.trust_anchor_files@),
                "dnssec.trust_anchor_files contains an empty path"@,
            ),
            if c.dnssec.enabled && !c.dnssec.use_builtin_trust_anchors
                && c.dnssec.trust_anchor_files@.len() == 0 {
                Some(
                    "dnssec requires either use_builtin_trust_anchors=true or at least one trust_anchor_files entry"@,
                )
            } else {
                None
            },
        ),
    )
}

pub open spec fn dot_error(c: types::DotConfig) -> Option<Seq<char>> {
    let listen = rules::endpoint_error(c.listen@, "dot.listen"@);
    if !c.enabled {
        None
    } else if listen is Some {
        listen
    } else if rules::blank(c.cert_file@) {
        Some("dot.cert_file must not be empty when DoT is enabled"@)
    } else if rules::blank(c.key_file@) {
        Some("dot.key_file must not be empty when DoT is enabled"@)
    } else {
        None
    }
}

pub open spec fn doh_error(c: types::DohConfig) -> Option<Seq<char>> {
    if c.enabled {
        rules::endpoint_error(c.listen@, "doh.listen"@)
    } else {
        None
    }
}

pub open spec fn hop_error(c: AppConfig) -> Option<Seq<char>> {
    if c.ns_hostname_max_concurrent == 0 {
        Some("ns_hostname_max_concurrent must be >= 1"@)
    } else if c.ns_hostname_enough_endpoints == 0 {
        Some("ns_hostname_enough_endpoints must be >= 1"@)
    } else if c.ns_hostname_per_resolve_ms < 100 {
        Some("ns_hostname_per_resolve_ms must be >= 100"@)
    } else if c.iterative_per_hop_timeout_ms > 0 && c.iterative_per_hop_timeout_ms
        >= c.iterative_timeout_ms {
        Some("iterative_per_hop_timeout_ms must be less than iterative_timeout_ms when non-zero"@)
    } else if c.iterative_per_hop_timeout_ms > 0 && c.ns_hostname_per_resolve_ms
        > c.iterative_per_hop_timeout_ms {
        Some(
            "ns_hostname_per_resolve_ms ("@ + text::decimal(c.ns_hostname_per_resolve_ms as nat)
                + ") should not exceed iterative_per_hop_timeout_ms ("@ + text::decimal(
                c.iterative_per_hop_timeout_ms as nat,
            ) + ")"@,
        )
    } else if c.prewarm_delegation_zones@.len() > 0 && !c.enable_delegation_cache {
        Some(
            "prewarm_delegation_zones is configured but enable_delegation_cache = false; set enable_delegation_cache = true to activate prewarm"@,
        )
    } else {
        None
    }
}

/// The rule on a host name of a zone that is known beforehand; `path` names the zone.
pub open spec fn host_error(host: Seq<char>, path: Seq<char>) -> Option<Seq<char>> {
    if rules::blank(host) {
        Some(path + ".ns_hostnames contains an empty entry"@)
    } else if !rules::is_dns_name(host) {
        Some(path + ".ns_hostnames["@ + text::quoted(host) + "] is not a valid DNS hostname"@)
    } else {
        None
    }
}

pub open spec fn hosts_error(hosts: Seq<Seq<char>>, path: Seq<char>) -> Option<Seq<char>> {
    rules::first(hosts.map_values(|h: Seq<char>| host_error(h, path)))
}

/// The first rule that a zone that is known beforehand breaks.
pub open spec fn prewarm_error(z: PreWarmZone, path: Seq<char>) -> Option<Seq<char>> {
    if rules::blank(z.zone@) {
        Some(path + ".zone must not be empty"@)
    } else if z.ns_endpoints@.len() == 0 && z.ns_hostnames@.len() == 0 {
        Some(
            path
                + ": ns_endpoints and ns_hostnames cannot both be empty; provide at least one"@,
        )
    } else if z.ttl_secs == 0 {
        Some(path + ".ttl_secs must be > 0"@)
    } else {
        rules::either(
            rules::endpoints_error(text::views(z.ns_endpoints@), path + ".ns_endpoints"@),
            hosts_error(text::views(z.ns_hostnames@), path),
        )
    }
}

pub open spec fn prewarm_zones_error(zones: Seq<PreWarmZone>) -> Option<Seq<char>> {
    rules::first(
        zones.map(
            |i: int, z: PreWarmZone|
                prewarm_error(z, records::item_path("prewarm_delegation_zones"@, i)),
        ),
    )
}

/// The first rule that the settings break, in words; the rules are tried in this order.
pub open spec fn config_error(c: AppConfig) -> Option<Seq<char>> {
    if listen_error(c) is Some {
        listen_error(c)
    } else if servers_error(c) is Some {
        servers_error(c)
    } else if depth_error(c) is Some {
        depth_error(c)
    } else if cache_error(c) is Some {
        cache_error(c)
    } else if adaptive_error(c) is Some {
        adaptive_error(c)
    } else if top_level_zone_error(c) is Some {
        top_level_zone_error(c)
    } else if logging_error(c.logging) is Some {
        logging_error(c.logging)
    } else if access_error(c) is Some {
        access_error(c)
    } else if data_error(c) is Some {
        data_error(c)
    } else if trust_error(c) is Some {
        trust_error(c)
    } else if dot_error(c.dot) is Some {
        dot_error(c.dot)
    } else if doh_error(c.doh) is Some {
        doh_error(c.doh)
    } else if hop_error(c) is Some {
        hop_error(c)
    } else {
        prewarm_zones_error(c.prewarm_delegation_zones@)
    }
}

fn path_in_view(name: &str, setting: &str) -> (r: String)
    ensures
        r@ == view_path(name@, setting@),
{
    let mut s = text::concat("views.", name);
    s.append(setting);
    s
}

fn validate_static_records(list: &Vec<StaticRecord>, path: &str) -> (r: Result<(), ConfigError>)
    ensures
        rules::error_text(r) == static_records_error(types::record_views(list@), path@),
{
    let ghost check = |i: int, r: types::StaticRecordV|
        records::static_record_error(r, records::item_path(path@, i));
    let ghost checks = types::record_views(list@).map(check);
    let mut i: usize = 0;
    while i < list.len()
        invariant
            i <= list@.len(),
            check == (|i: int, r: types::StaticRecordV|
                records::static_record_error(r, records::item_path(path@, i))),
            checks == types::record_views(list@).map(check),
            forall|k: int| 0 <= k < i ==> (#[trigger] checks[k]) is None,
        decreases list@.len() - i,
    {
        let r = validate_static_like_record(&list[i], path_of_item(path, i).as_str());
        assert(checks[i as int] == check(i as int, list@[i as int]@));
        if r.is_err() {
            proof {
                rules::lemma_first(checks, i as int);
            }
            return r;
        }
        i = i + 1;
    }
    proof {
        rules::lemma_first(checks, i as int);
    }
    Ok(())
}

fn validate_sources(list: &Vec<AuthoritativeSource>) -> (r: Result<(), ConfigError>)
    ensures
        rules::error_text(r) == sources_error(list@),
{
    let ghost check = |i: int, s: AuthoritativeSource|
        records::source_error(s, records::item_path("authoritative_sources"@, i));
    let ghost checks = list@.map(check);
    let mut i: usize = 0;
    while i < list.len()
        invariant
            i <= list@.len(),
            check == (|i: int, s: AuthoritativeSource|
                records::source_error(s, records::item_path("authoritative_sources"@, i))),
            checks == list@.map(check),
            forall|k: int| 0 <= k < i ==> (#[trigger] checks[k]) is None,
        decreases list@.len() - i,
    {
        let r = validate_authoritative_source(
            &list[i],
            path_of_item("authoritative_sources", i).as_str(),
        );
        assert(checks[i as int] == check(i as int, list@[i as int]));
        if r.is_err() {
            proof {
                rules::lemma_first(checks, i as int);
            }
            return r;
        }
        i = i + 1;
    }
    proof {
        rules::lemma_first(checks, i as int);
    }
    Ok(())
}

fn validate_legacy_records(v: &DnsView) -> (r: Result<(), ConfigError>)
    ensures
        rules::error_text(r) == legacy_list_error(*v),
{
    let path = path_in_view(v.name.as_str(), ".records");
    let ghost check = |i: int, r: types::ViewRecord|
        records::legacy_record_error(r, records::item_path(view_path(v.name@, ".records"@), i));
    let ghost checks = v.records@.map(check);
    let mut i: usize = 0;
    while i < v.records.len()
        invariant
            i <= v.records@.len(),
            path@ == view_path(v.name@, ".records"@),
            check == (|i: int, r: types::ViewRecord|
                records::legacy_record_error(
                    r,
                    records::item_path(view_path(v.name@, ".records"@), i),
                )),
            checks == v.records@.map(check),
            forall|k: int| 0 <= k < i ==> (#[trigger] checks[k]) is None,
        decreases v.records@.len() - i,
    {
        let r = validate_legacy_view_record(
            &v.records[i],
            path_of_item(path.as_str(), i).as_str(),
        );
        assert(checks[i as int] == check(i as int, v.records@[i as int]));
        if r.is_err() {
            proof {
                rules::lemma_first(checks, i as int);
            }
            return r;
        }
        i = i + 1;
    }
    proof {
        rules::lemma_first(checks, i as int);
    }
    Ok(())
}

fn validate_view_zones(v: &DnsView) -> (r: Result<(), ConfigError>)
    ensures
        rules::error_text(r) == view_zones_error(*v),
{
    let path = path_in_view(v.name.as_str(), ".authoritative_zones");
    let ghost check = |i: int, z: types::AuthoritativeZoneV|
        records::zone_error(
            z,
            records::item_path(view_path(v.name@, ".authoritative_zones"@), i),
        );
    let ghost checks = types::zone_views(v.authoritative_zones@).map(check);
    let mut i: usize = 0;
    while i < v.authoritative_zones.len()
        invariant
            i <= v.authoritative_zones@.len(),
            path@ == view_path(v.name@, ".authoritative_zones"@),
            check == (|i: int, z: types::AuthoritativeZoneV|
                records::zone_error(
                    z,
                    records::item_path(view_path(v.name@, ".authoritative_zones"@), i),
                )),
            checks == types::zone_views(v.authoritative_zones@).map(check),
            forall|k: int| 0 <= k < i ==> (#[trigger] checks[k]) is None,
        decreases v.authoritative_zones@.len() - i,
    {
        let r = validate_authoritative_zone(
            &v.authoritative_zones[i],
            path_of_item(path.as_str(), i).as_str(),
        );
        assert(checks[i as int] == check(i as int, v.authoritative_zones@[i as int]@));
        if r.is_err() {
            proof {
                rules::lemma_first(checks, i as int);
            }
            return r;
        }
        i = i + 1;
    }
    proof {
        rules::lemma_first(checks, i as int);
    }
    Ok(())
}

fn validate_view(v: &DnsView) -> (r: Result<(), ConfigError>)
    ensures
        rules::error_text(r) == view_error(*v),
{
    if is_blank(v.name.as_str()) {
        return broken("views contains an item with empty name");
    }
    let name = v.name.as_str();
    let r = validate_networks(
        &v.client_cidrs,
        text::concat("invalid CIDR in ", path_in_view(name, ".client_cidrs: ").as_str()).as_str(),
    );
    if r.is_err() {
        return r;
    }
    let r = validate_no_blank(
        &v.blocked_domains,
        path_in_view(name, ".blocked_domains contains an empty domain").as_str(),
    );
    if r.is_err() {
        return r;
    }
    let r = validate_static_records(
        &v.static_records,
        path_in_view(name, ".static_records").as_str(),
    );
    if r.is_err() {
        return r;
    }
    if v.authoritative_records.len() > 0 {
        return broken(
            path_in_view(
                name,
                ".authoritative_records is not supported; use views[].authoritative_zones (with SOA) or views[].authoritative_zones_dir instead",
            ).as_str(),
        );
    }
    let r = validate_legacy_records(v);
    if r.is_err() {
        return r;
    }
    validate_view_zones(v)
}

fn validate_views(views: &Vec<DnsView>) -> (r: Result<(), ConfigError>)
    ensures
        rules::error_text(r) == views_error(views@),
{
    let ghost check = |v: DnsView| view_error(v);
    let ghost checks = views@.map_values(check);
    let mut i: usize = 0;
    while i < views.len()
        invariant
            i <= views@.len(),
            check == (|v: DnsView| view_error(v)),
            checks == views@.map_values(check),
            forall|k: int| 0 <= k < i ==> (#[trigger] checks[k]) is None,
        decreases views@.len() - i,
    {
        let r = validate_view(&views[i]);
        assert(checks[i as int] == check(views@[i as int]));
        if r.is_err() {
            proof {
                rules::lemma_first(checks, i as int);
            }
            return r;
        }
        i = i + 1;
    }
    proof {
        rules::lemma_first(checks, i as int);
    }
    Ok(())
}

fn validate_host(host: &str, path: &str) -> (r: Result<(), ConfigError>)
    ensures
        rules::error_text(r) == host_error(host@, path@),
{
    if is_blank(host) {
        return broken(text::concat(path, ".ns_hostnames contains an empty entry").as_str());
    }
    if !is_valid_dns_name(host) {
        return broken(
            records::concat4(
                path,
                ".ns_hostnames[",
                text::quote(host).as_str(),
                "] is not a valid DNS hostname",
            ).as_str(),
        );
    }
    Ok(())
}

fn validate_hosts(hosts: &Vec<String>, path: &str) -> (r: Result<(), ConfigError>)
    ensures
        rules::error_text(r) == hosts_error(text::views(hosts@), path@),
{
    let ghost check = |h: Seq<char>| host_error(h, path@);
    let ghost checks = text::views(hosts@).map_values(check);
    let mut i: usize = 0;
    while i < hosts.len()
        invariant
            i <= hosts@.len(),
            check == (|h: Seq<char>| host_error(h, path@)),
            checks == text::views(hosts@).map_values(check),
            forall|k: int| 0 <= k < i ==> (#[trigger] checks[k]) is None,
        decreases hosts@.len() - i,
    {
        let r = validate_host(hosts[i].as_str(), path);
        assert(checks[i as int] == check(hosts@[i as int]@));
        if r.is_err() {
            proof {
                rules::lemma_first(checks, i as int);
            }
            return r;
        }
        i = i + 1;
    }
    proof {
        rules::lemma_first(checks, i as int);
    }
    Ok(())
}

fn validate_prewarm_zone(z: &PreWarmZone, path: &str) -> (r: Result<(), ConfigError>)
    ensures
        rules::error_text(r) == prewarm_error(*z, path@),
{
    if is_blank(z.zone.as_str()) {
        return broken(text::concat(path, ".zone must not be empty").as_str());
    }
    if z.ns_endpoints.len() == 0 && z.ns_hostnames.len() == 0 {
        return broken(
            text::concat(
                path,
                ": ns_endpoints and ns_hostnames cannot both be empty; provide at least one",
            ).as_str(),
        );
    }
    if z.ttl_secs == 0 {
        return broken(text::concat(path, ".ttl_secs must be > 0").as_str());
    }
    let r = validate_endpoints(&z.ns_endpoints, text::concat(path, ".ns_endpoints").as_str());
    if r.is_err() {
        return r;
    }
    validate_hosts(&z.ns_hostnames, path)
}

fn validate_prewarm_zones(zones: &Vec<PreWarmZone>) -> (r: Result<(), ConfigError>)
    ensures
        rules::error_text(r) == prewarm_zones_error(zones@),
{
    let ghost check = |i: int, z: PreWarmZone|
        prewarm_error(z, records::item_path("prewarm_delegation_zones"@, i));
    let ghost checks = zones@.map(check);
    let mut i: usize = 0;
    while i < zones.len()
        invariant
            i <= zones@.len(),
            check == (|i: int, z: PreWarmZone|
                prewarm_error(z, records::item_path("prewarm_delegation_zones"@, i))),
            checks == zones@.map(check),
            forall|k: int| 0 <= k < i ==> (#[trigger] checks[k]) is None,
        decreases zones@.len() - i,
    {
        let r = validate_prewarm_zone(
            &zones[i],
            path_of_item("prewarm_delegation_zones", i).as_str(),
        );
        assert(checks[i as int] == check(i as int, zones@[i as int]));
        if r.is_err() {
            proof {
                rules::lemma_first(checks, i as int);
            }
            return r;
        }
        i = i + 1;
    }
    proof {
        rules::lemma_first(checks, i as int);
    }
    Ok(())
}

fn validate_logging(l: &LoggingConfig) -> (r: Result<(), ConfigError>)
    ensures
        rules::error_text(r) == logging_error(*l),
{
    if !l.enabled {
        return Ok(());
    }
    if is_blank(l.directory.as_str()) {
        return broken("logging.directory must not be empty when logging is enabled");
    }
    if !text::same_fold(l.rotation.as_str(), "day") {
        return broken("logging.rotation must be 'day' in current version");
    }
    if !text::same_fold(l.format.as_str(), "compact") && !text::same_fold(
        l.format.as_str(),
        "json",
    ) {
        return broken("logging.format must be either 'compact' or 'json'");
    }
    let r = validate_level(l.query_level.as_str(), "logging.query_level");
    if r.is_err() {
        return r;
    }
    let r = validate_level(l.response_level.as_str(), "logging.response_level");
    if r.is_err() {
        return r;
    }
    let r = validate_level(l.general_level.as_str(), "logging.general_level");
    if r.is_err() {
        return r;
    }
    validate_no_blank(
        &l.trace_query_domains,
        "logging.trace_query_domains contains an empty domain",
    )
}

fn given(path: &Option<String>) -> (r: bool)
    ensures
        r == is_given(*path),
{
    match path {
        Some(p) => !is_blank(p.as_str()),
        None => false,
    }
}

impl AppConfig {
    fn validate_listeners(&self) -> (r: Result<(), ConfigError>)
        ensures
            rules::error_text(r) == listen_error(*self),
    {
        let r = validate_endpoint(self.udp_listen.as_str(), "udp_listen");
        if r.is_err() {
            return r;
        }
        let r = validate_endpoint(self.tcp_listen.as_str(), "tcp_listen");
        if r.is_err() {
            return r;
        }
        let r = validate_endpoint(self.admin_listen.as_str(), "admin_listen");
        if r.is_err() {
            return r;
        }
        validate_endpoint(self.control_listen.as_str(), "control_listen")
    }

    fn validate_servers(&self) -> (r: Result<(), ConfigError>)
        ensures
            rules::error_text(r) == servers_error(*self),
    {
        let forwarder = text::same_fold(self.resolve_mode.as_str(), "forwarder");
        if !forwarder && !text::same_fold(self.resolve_mode.as_str(), "iterative") {
            return broken("resolve_mode must be either 'forwarder' or 'iterative'");
        }
        if (forwarder || self.iterative_fallback_to_forwarder) && self.upstreams.len() == 0 {
            return broken(
                "upstreams must not be empty when resolve_mode=forwarder or iterative_fallback_to_forwarder=true",
            );
        }
        let r = validate_endpoints(&self.upstreams, "upstreams");
        if r.is_err() {
            return r;
        }
        let r = validate_endpoints(&self.root_servers, "root_servers");
        if r.is_err() {
            return r;
        }
        if self.ns_hostname_resolve_mode == NsHostnameResolveMode::PureIterative
            && self.root_servers.len() == 0 {
            return broken(
                "ns_hostname_resolve_mode=pure_iterative requires non-empty root_servers",
            );
        }
        Ok(())
    }

    fn validate_depths(&self) -> (r: Result<(), ConfigError>)
        ensures
            rules::error_text(r) == depth_error(*self),
    {
        if self.iterative_max_depth == 0 {
            return broken("iterative_max_depth must be greater than 0");
        }
        if self.iterative_timeout_ms == 0 {
            return broken("iterative_timeout_ms must be greater than 0");
        }
        if self.cname_chain_max_depth == 0 {
            return broken("cname_chain_max_depth must be greater than 0");
        }
        if self.upstream_timeout_ms == 0 {
            return broken("upstream_timeout_ms must be greater than 0");
        }
        self.health_check.validate()
    }

    fn validate_delegation(&self) -> (r: Result<(), ConfigError>)
        ensures
            rules::error_text(r) == delegation_error(*self),
    {
        if self.enable_delegation_cache {
            if self.delegation_cache_capacity == 0 {
                return broken("delegation_cache_capacity must be greater than 0");
            }
            if self.delegation_cache_ttl_cap_secs == 0 {
                return broken("delegation_cache_ttl_cap_secs must be greater than 0");
            }
            if self.delegation_cache_cleanup_interval_ms == 0 {
                return broken("delegation_cache_cleanup_interval_ms must be greater than 0");
            }
            if self.delegation_failure_backoff_ms == 0 {
                return broken("delegation_failure_backoff_ms must be greater than 0");
            }
        }
        Ok(())
    }

    fn validate_caches(&self) -> (r: Result<(), ConfigError>)
        ensures
            rules::error_text(r) == cache_error(*self),
    {
        if self.cache_ttl_secs == 0 {
            return broken("cache_ttl_secs must be greater than 0");
        }
        if self.ns_host_cache_ttl_secs == 0 {
            return broken("ns_host_cache_ttl_secs must be greater than 0");
        }
        if self.ns_host_cache_cleanup_interval_ms == 0 {
            return broken("ns_host_cache_cleanup_interval_ms must be greater than 0");
        }
        let r = self.validate_delegation();
        if r.is_err() {
            return r;
        }
        if self.stats_window_secs == 0 || self.stats_short_window_secs == 0 {
            return broken("stats_window_secs and stats_short_window_secs must be greater than 0");
        }
        if self.cache_hot_capacity == 0 {
            return broken("cache_hot_capacity must be greater than 0");
        }
        if self.response_cache_capacity == 0 {
            return broken("response_cache_capacity must be greater than 0");
        }
        if self.prefetch_window_secs == 0 {
            return broken("prefetch_window_secs must be greater than 0");
        }
        if self.prefetch_ttl_trigger_secs == 0 {
            return broken("prefetch_ttl_trigger_secs must be greater than 0");
        }
        Ok(())
    }

    fn validate_adaptive_cache(&self) -> (r: Result<(), ConfigError>)
        ensures
            rules::error_text(r) == adaptive_error(*self),
    {
        if !self.adaptive_cache_enabled {
            return Ok(());
        }
        if self.adaptive_cache_min_capacity == 0 {
            return broken("adaptive_cache_min_capacity must be greater than 0");
        }
        if self.adaptive_cache_max_capacity == 0 {
            return broken("adaptive_cache_max_capacity must be greater than 0");
        }
        if self.adaptive_cache_step == 0 {
            return broken("adaptive_cache_step must be greater than 0");
        }
        if self.adaptive_cache_window_secs == 0 {
            return broken("adaptive_cache_window_secs must be greater than 0");
        }
        if self.adaptive_cache_min_capacity > self.adaptive_cache_max_capacity {
            return broken("adaptive_cache_min_capacity must be <= adaptive_cache_max_capacity");
        }
        if !self.adaptive_cache_high_miss_ratio.within_unit()
            || !self.adaptive_cache_low_miss_ratio.within_unit() {
            return broken(
                "adaptive_cache_high_miss_ratio and adaptive_cache_low_miss_ratio must be in [0,1]",
            );
        }
        if !self.adaptive_cache_low_miss_ratio.below(&self.adaptive_cache_high_miss_ratio) {
            return broken(
                "adaptive_cache_low_miss_ratio must be less than adaptive_cache_high_miss_ratio",
            );
        }
        Ok(())
    }

    fn validate_top_level_zones(&self) -> (r: Result<(), ConfigError>)
        ensures
            rules::error_text(r) == top_level_zone_error(*self),
    {
        if self.upstream_score_rtt_weight.negative()
            || self.upstream_score_failure_weight.negative()
            || self.upstream_score_success_weight.negative() {
            return broken("upstream_score_* weights must be non-negative");
        }
        if self.authoritative_zones_file.is_some() && !given(&self.authoritative_zones_file) {
            return broken("authoritative_zones_file must not be empty when provided");
        }
        if given(&self.authoritative_zones_file) {
            return broken(
                "top-level authoritative_zones_file is not supported; configure authoritative zones under views[*].authoritative_zones_file or views[*].authoritative_zones_dir",
            );
        }
        if given(&self.authoritative_zones_dir) {
            return broken(
                "top-level authoritative_zones_dir is not supported; configure authoritative zones under views[*].authoritative_zones_dir",
            );
        }
        if self.authoritative_zones.len() > 0 {
            return broken(
                "top-level authoritative_zones is not supported; configure authoritative zones under views[*].authoritative_zones",
            );
        }
        Ok(())
    }

    fn validate_access(&self) -> (r: Result<(), ConfigError>)
        ensures
            rules::error_text(r) == access_error(*self),
    {
        let r = validate_networks(&self.allow_clients, "invalid CIDR in allow_clients: ");
        if r.is_err() {
            return r;
        }
        validate_no_blank(&self.blocked_domains, "blocked_domains contains an empty domain")
    }

    fn validate_data(&self) -> (r: Result<(), ConfigError>)
        ensures
            rules::error_text(r) == data_error(*self),
    {
        let r = validate_static_records(&self.static_records, "static_records");
        if r.is_err() {
            return r;
        }
        let r = validate_sources(&self.authoritative_sources);
        if r.is_err() {
            return r;
        }
        validate_views(&self.views)
    }

    fn validate_trust(&self) -> (r: Result<(), ConfigError>)
        ensures
            rules::error_text(r) == trust_error(*self),
    {
        let r = validate_no_blank(
            &self.freeze_cache_domains,
            "freeze_cache_domains contains an empty domain",
        );
        if r.is_err() {
            return r;
        }
        let r = validate_no_blank(
            &self.dnssec.trust_anchor_files,
            "dnssec.trust_anchor_files contains an empty path",
        );
        if r.is_err() {
            return r;
        }
        if self.dnssec.enabled && !self.dnssec.use_builtin_trust_anchors
            && self.dnssec.trust_anchor_files.len() == 0 {
            return broken(
                "dnssec requires either use_builtin_trust_anchors=true or at least one trust_anchor_files entry",
            );
        }
        Ok(())
    }

    fn validate_encrypted_listeners(&self) -> (r: Result<(), ConfigError>)
        ensures
            rules::error_text(r) == rules::either(dot_error(self.dot), doh_error(self.doh)),
    {
        if self.dot.enabled {
            let r = validate_endpoint(self.dot.listen.as_str(), "dot.listen");
            if r.is_err() {
                return r;
            }
            if is_blank(self.dot.cert_file.as_str()) {
                return broken("dot.cert_file must not be empty when DoT is enabled");
            }
            if is_blank(self.dot.key_file.as_str()) {
                return broken("dot.key_file must not be empty when DoT is enabled");
            }
        }
        if self.doh.enabled {
            return validate_endpoint(self.doh.listen.as_str(), "doh.listen");
        }
        Ok(())
    }

    fn validate_hops(&self) -> (r: Result<(), ConfigError>)
        ensures
            rules::error_text(r) == hop_error(*self),
    {
        if self.ns_hostname_max_concurrent == 0 {
            return broken("ns_hostname_max_concurrent must be >= 1");
        }
        if self.ns_hostname_enough_endpoints == 0 {
            return broken("ns_hostname_enough_endpoints must be >= 1");
        }
        if self.ns_hostname_per_resolve_ms < 100 {
            return broken("ns_hostname_per_resolve_ms must be >= 100");
        }
        if self.iterative_per_hop_timeout_ms > 0 && self.iterative_per_hop_timeout_ms
            >= self.iterative_timeout_ms {
            return broken(
                "iterative_per_hop_timeout_ms must be less than iterative_timeout_ms when non-zero",
            );
        }
        if self.iterative_per_hop_timeout_ms > 0 && self.ns_hostname_per_resolve_ms
            > self.iterative_per_hop_timeout_ms {
            let mut message = records::concat4(
                "ns_hostname_per_resolve_ms (",
                text::decimal_of(self.ns_hostname_per_resolve_ms).as_str(),
                ") should not exceed iterative_per_hop_timeout_ms (",
                text::decimal_of(self.iterative_per_hop_timeout_ms).as_str(),
            );
            message.append(")");
            return broken(message.as_str());
        }
        if self.prewarm_delegation_zones.len() > 0 && !self.enable_delegation_cache {
            return broken(
                "prewarm_delegation_zones is configured but enable_delegation_cache = false; set enable_delegation_cache = true to activate prewarm",
            );
        }
        Ok(())
    }

    /// Checks the settings before the server starts.
    pub fn validate(&self) -> (r: Result<(), ConfigError>)
        ensures
            rules::error_text(r) == config_error(*self),
    {
        let r = self.validate_listeners();
        if r.is_err() {
            return r;
        }
        let r = self.validate_servers();
        if r.is_err() {
            return r;
        }
        let r = self.validate_depths();
        if r.is_err() {
            return r;
        }
        let r = self.validate_caches();
        if r.is_err() {
            return r;
        }
        let r = self.validate_adaptive_cache();
        if r.is_err() {
            return r;
        }
        let r = self.validate_top_level_zones();
        if r.is_err() {
            return r;
        }
        let r = validate_logging(&self.logging);
        if r.is_err() {
            return r;
        }
        let r = self.validate_access();
        if r.is_err() {
            return r;
        }
        let r = self.validate_data();
        if r.is_err() {
            return r;
        }
        let r = self.validate_trust();
        if r.is_err() {
            return r;
        }
        let r = self.validate_encrypted_listeners();
        if r.is_err() {
            return r;
        }
        let r = self.validate_hops();
        if r.is_err() {
            return r;
        }
        validate_prewarm_zones(&self.prewarm_delegation_zones)
    }
}

} // verus!
