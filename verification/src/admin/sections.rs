//! The settings in the sections in which the administration interface shows and takes them.
use crate::admin::error::AdminError;
use crate::admin::values;
use crate::admin::values::{
    load_toml_root_table, print_table, push_entry, put_all, sources_value, string_array,
    table_value, text_value,
};
use crate::config::rules;
use crate::config::rules::is_blank;
use crate::config::types;
use crate::config::types::{AuthoritativeSource, PreWarmZone, StaticRecord};
use crate::decimal::Decimal;
use crate::text;
use crate::toml_doc;
use crate::toml_doc::{Table, TomlValue};
use vstd::prelude::*;

verus! {

/// Where the server listens and who may control it.
pub struct BasicListenControlSection {
    pub udp_listen: String,
    pub tcp_listen: String,
    pub admin_listen: String,
    pub control_listen: String,
    pub control_token: Option<String>,
}

/// How names are resolved.
pub struct ResolveUpstreamSection {
    pub resolve_mode: String,
    pub upstreams: Vec<String>,
    pub root_servers: Vec<String>,
    pub iterative_max_depth: u8,
    pub iterative_timeout_ms: u64,
    pub iterative_fallback_to_forwarder: bool,
}

/// The response cache and its prefetching.
pub struct CacheSection {
    pub response_cache_capacity: usize,
    pub cache_ttl_secs: u64,
    pub freeze_cache_ttl_decay: bool,
    pub prefetch_budget_per_window: u32,
    pub prefetch_window_secs: u64,
    pub prefetch_ttl_trigger_secs: u64,
    pub prefetch_popularity_threshold: u32,
}

/// The encrypted transports.
pub struct TransportSection {
    pub dot_enabled: bool,
    pub dot_listen: String,
    pub dot_cert_file: String,
    pub dot_key_file: String,
    pub doh_enabled: bool,
    pub doh_listen: String,
}

/// Logging.
pub struct LoggingSection {
    pub enabled: bool,
    pub console: bool,
    pub directory: String,
    pub rotation: String,
    pub format: String,
    pub query_level: String,
    pub response_level: String,
    pub general_level: String,
    pub trace_query_domains: Vec<String>,
}

/// Who may ask, and for what.
pub struct SecuritySection {
    pub allow_clients: Vec<String>,
    pub blocked_domains: Vec<String>,
    pub rate_limit_per_second: u32,
    pub deny_any_queries: bool,
}

/// The records that every client sees.
pub struct StaticDataSection {
    pub static_records: Vec<StaticRecord>,
}

/// The settings that are rarely changed.
pub struct AdvancedSection {
    pub enable_recursion: bool,
    pub minimal_response: bool,
    pub iterative_address_family: String,
    pub cname_chain_max_depth: u8,
    pub follow_cname_chain: bool,
    pub static_cname_expand_for_address_queries: bool,
    pub iterative_cname_bridge_fallback_to_recursive: bool,
    pub iterative_per_hop_timeout_ms: u64,
    pub ns_host_cache_capacity: usize,
    pub ns_host_cache_ttl_secs: u64,
    pub ns_host_cache_cleanup_interval_ms: u64,
    pub enable_delegation_cache: bool,
    pub strict_bailiwick: bool,
    pub delegation_cache_capacity: usize,
    pub delegation_cache_ttl_cap_secs: u64,
    pub delegation_cache_cleanup_interval_ms: u64,
    pub delegation_failure_backoff_ms: u64,
    pub ns_hostname_max_concurrent: usize,
    pub ns_hostname_enough_endpoints: usize,
    pub ns_hostname_per_resolve_ms: u64,
    pub ns_hostname_resolve_mode: String,
    pub cache_hot_capacity: usize,
    pub freeze_cache_domains: Vec<String>,
    pub adaptive_cache_enabled: bool,
    pub adaptive_cache_min_capacity: usize,
    pub adaptive_cache_max_capacity: usize,
    pub adaptive_cache_step: usize,
    pub adaptive_cache_window_secs: u64,
    pub adaptive_cache_high_miss_ratio: Decimal,
    pub adaptive_cache_low_miss_ratio: Decimal,
    pub stats_window_secs: u64,
    pub stats_short_window_secs: u64,
    pub topn_stats_enabled: bool,
    pub upstream_timeout_ms: u64,
    pub upstream_retries: u8,
    pub unhealthy_backoff_ms: u64,
    pub upstream_score_rtt_weight: Decimal,
    pub upstream_score_failure_weight: Decimal,
    pub upstream_score_success_weight: Decimal,
    pub dnssec_enabled: bool,
    pub dnssec_use_builtin_trust_anchors: bool,
    pub dnssec_trust_anchor_files: Vec<String>,
    pub health_check_enabled: bool,
    pub health_check_mode: String,
    pub health_check_port: u16,
    pub health_check_http_path: String,
    pub health_check_http_host_header: Option<String>,
    pub health_check_interval_secs: u64,
    pub health_check_timeout_ms: u64,
    pub health_check_max_parallel: usize,
    pub health_check_failure_threshold: u32,
    pub health_check_success_threshold: u32,
    pub health_check_all_unhealthy_log_file: String,
    pub health_check_notify_webhook: Option<String>,
    pub health_check_probe_tls_insecure_skip_verify: bool,
    pub health_check_webhook_tls_insecure_skip_verify: bool,
    pub health_check_notify_webhook_retries: u32,
    pub health_check_notify_webhook_backoff_ms: u64,
    pub authoritative_sources: Vec<AuthoritativeSource>,
    pub prewarm_delegation_zones: Vec<PreWarmZone>,
}

/// All sections.
pub struct ConfigSectionsPayload {
    pub basic: BasicListenControlSection,
    pub resolver: ResolveUpstreamSection,
    pub cache: CacheSection,
    pub transport: TransportSection,
    pub logging: LoggingSection,
    pub static_data: StaticDataSection,
    pub security: SecuritySection,
    pub advanced: AdvancedSection,
}

/// An optional text, empty where it is absent.
pub open spec fn optional_text(s: Option<String>) -> toml_doc::TomlV {
    match s {
        Some(t) => toml_doc::TomlV::Str(t@),
        None => toml_doc::TomlV::Str(""@),
    }
}

/// An entry for an optional text that is given and not blank.
pub open spec fn given_text(key: Seq<char>, s: Option<String>) -> toml_doc::TableV {
    match s {
        Some(t) => if rules::blank(t@) {
            Seq::empty()
        } else {
            seq![(key, toml_doc::TomlV::Str(t@))]
        },
        None => Seq::empty(),
    }
}

pub open spec fn basic_entries(b: BasicListenControlSection) -> toml_doc::TableV {
    seq![
        ("udp_listen"@, toml_doc::TomlV::Str(b.udp_listen@)),
        ("tcp_listen"@, toml_doc::TomlV::Str(b.tcp_listen@)),
        ("admin_listen"@, toml_doc::TomlV::Str(b.admin_listen@)),
        ("control_listen"@, toml_doc::TomlV::Str(b.control_listen@)),
        ("control_token"@, optional_text(b.control_token)),
    ]
}

pub open spec fn resolver_entries(s: ResolveUpstreamSection) -> toml_doc::TableV {
    seq![
        ("resolve_mode"@, toml_doc::TomlV::Str(s.resolve_mode@)),
        ("upstreams"@, values::texts_toml(text::views(s.upstreams@))),
        ("root_servers"@, values::texts_toml(text::views(s.root_servers@))),
        ("iterative_max_depth"@, toml_doc::TomlV::Int(s.iterative_max_depth as i64)),
        ("iterative_timeout_ms"@, toml_doc::TomlV::Int(s.iterative_timeout_ms as i64)),
        ("iterative_fallback_to_forwarder"@, toml_doc::TomlV::Bool(s.iterative_fallback_to_forwarder)),
    ]
}

pub open spec fn cache_entries(c: CacheSection) -> toml_doc::TableV {
    seq![
        ("response_cache_capacity"@, toml_doc::TomlV::Int(c.response_cache_capacity as i64)),
        ("cache_ttl_secs"@, toml_doc::TomlV::Int(c.cache_ttl_secs as i64)),
        ("freeze_cache_ttl_decay"@, toml_doc::TomlV::Bool(c.freeze_cache_ttl_decay)),
        ("prefetch_budget_per_window"@, toml_doc::TomlV::Int(c.prefetch_budget_per_window as i64)),
        ("prefetch_window_secs"@, toml_doc::TomlV::Int(c.prefetch_window_secs as i64)),
        ("prefetch_ttl_trigger_secs"@, toml_doc::TomlV::Int(c.prefetch_ttl_trigger_secs as i64)),
        ("prefetch_popularity_threshold"@, toml_doc::TomlV::Int(c.prefetch_popularity_threshold as i64)),
    ]
}

pub open spec fn dot_entries(s: TransportSection) -> toml_doc::TableV {
    seq![
        ("enabled"@, toml_doc::TomlV::Bool(s.dot_enabled)),
        ("listen"@, toml_doc::TomlV::Str(s.dot_listen@)),
        ("cert_file"@, toml_doc::TomlV::Str(s.dot_cert_file@)),
        ("key_file"@, toml_doc::TomlV::Str(s.dot_key_file@)),
    ]
}

pub open spec fn doh_entries(s: TransportSection) -> toml_doc::TableV {
    seq![
        ("enabled"@, toml_doc::TomlV::Bool(s.doh_enabled)),
        ("listen"@, toml_doc::TomlV::Str(s.doh_listen@)),
    ]
}

pub open spec fn logging_entries(l: LoggingSection) -> toml_doc::TableV {
    seq![
        ("enabled"@, toml_doc::TomlV::Bool(l.enabled)),
        ("console"@, toml_doc::TomlV::Bool(l.console)),
        ("directory"@, toml_doc::TomlV::Str(l.directory@)),
        ("rotation"@, toml_doc::TomlV::Str(l.rotation@)),
        ("format"@, toml_doc::TomlV::Str(l.format@)),
        ("query_level"@, toml_doc::TomlV::Str(l.query_level@)),
        ("response_level"@, toml_doc::TomlV::Str(l.response_level@)),
        ("general_level"@, toml_doc::TomlV::Str(l.general_level@)),
        ("trace_query_domains"@, values::texts_toml(text::views(l.trace_query_domains@))),
    ]
}

pub open spec fn resolution_entries(a: AdvancedSection) -> toml_doc::TableV {
    seq![
        ("enable_recursion"@, toml_doc::TomlV::Bool(a.enable_recursion)),
        ("minimal_response"@, toml_doc::TomlV::Bool(a.minimal_response)),
        ("iterative_address_family"@, toml_doc::TomlV::Str(a.iterative_address_family@)),
        ("cname_chain_max_depth"@, toml_doc::TomlV::Int(a.cname_chain_max_depth as i64)),
        ("follow_cname_chain"@, toml_doc::TomlV::Bool(a.follow_cname_chain)),
        ("static_cname_expand_for_address_queries"@, toml_doc::TomlV::Bool(a.static_cname_expand_for_address_queries)),
        ("iterative_cname_bridge_fallback_to_recursive"@, toml_doc::TomlV::Bool(a.iterative_cname_bridge_fallback_to_recursive)),
        ("iterative_per_hop_timeout_ms"@, toml_doc::TomlV::Int(a.iterative_per_hop_timeout_ms as i64)),
    ]
}

pub open spec fn name_server_entries(a: AdvancedSection) -> toml_doc::TableV {
    seq![
        ("ns_host_cache_capacity"@, toml_doc::TomlV::Int(a.ns_host_cache_capacity as i64)),
        ("ns_host_cache_ttl_secs"@, toml_doc::TomlV::Int(a.ns_host_cache_ttl_secs as i64)),
        ("ns_host_cache_cleanup_interval_ms"@, toml_doc::TomlV::Int(a.ns_host_cache_cleanup_interval_ms as i64)),
        ("enable_delegation_cache"@, toml_doc::TomlV::Bool(a.enable_delegation_cache)),
        ("strict_bailiwick"@, toml_doc::TomlV::Bool(a.strict_bailiwick)),
        ("delegation_cache_capacity"@, toml_doc::TomlV::Int(a.delegation_cache_capacity as i64)),
        ("delegation_cache_ttl_cap_secs"@, toml_doc::TomlV::Int(a.delegation_cache_ttl_cap_secs as i64)),
        ("delegation_cache_cleanup_interval_ms"@, toml_doc::TomlV::Int(a.delegation_cache_cleanup_interval_ms as i64)),
        ("delegation_failure_backoff_ms"@, toml_doc::TomlV::Int(a.delegation_failure_backoff_ms as i64)),
        ("ns_hostname_max_concurrent"@, toml_doc::TomlV::Int(a.ns_hostname_max_concurrent as i64)),
        ("ns_hostname_enough_endpoints"@, toml_doc::TomlV::Int(a.ns_hostname_enough_endpoints as i64)),
        ("ns_hostname_per_resolve_ms"@, toml_doc::TomlV::Int(a.ns_hostname_per_resolve_ms as i64)),
        ("ns_hostname_resolve_mode"@, toml_doc::TomlV::Str(a.ns_hostname_resolve_mode@)),
    ]
}

pub open spec fn cache_tuning_entries(a: AdvancedSection) -> toml_doc::TableV {
    seq![
        ("cache_hot_capacity"@, toml_doc::TomlV::Int(a.cache_hot_capacity as i64)),
        ("freeze_cache_domains"@, values::texts_toml(text::views(a.freeze_cache_domains@))),
        ("adaptive_cache_enabled"@, toml_doc::TomlV::Bool(a.adaptive_cache_enabled)),
        ("adaptive_cache_min_capacity"@, toml_doc::TomlV::Int(a.adaptive_cache_min_capacity as i64)),
        ("adaptive_cache_max_capacity"@, toml_doc::TomlV::Int(a.adaptive_cache_max_capacity as i64)),
        ("adaptive_cache_step"@, toml_doc::TomlV::Int(a.adaptive_cache_step as i64)),
        ("adaptive_cache_window_secs"@, toml_doc::TomlV::Int(a.adaptive_cache_window_secs as i64)),
        ("adaptive_cache_high_miss_ratio"@, toml_doc::TomlV::Float(a.adaptive_cache_high_miss_ratio.text@)),
        ("adaptive_cache_low_miss_ratio"@, toml_doc::TomlV::Float(a.adaptive_cache_low_miss_ratio.text@)),
        ("stats_window_secs"@, toml_doc::TomlV::Int(a.stats_window_secs as i64)),
        ("stats_short_window_secs"@, toml_doc::TomlV::Int(a.stats_short_window_secs as i64)),
        ("topn_stats_enabled"@, toml_doc::TomlV::Bool(a.topn_stats_enabled)),
    ]
}

pub open spec fn upstream_tuning_entries(a: AdvancedSection) -> toml_doc::TableV {
    seq![
        ("upstream_timeout_ms"@, toml_doc::TomlV::Int(a.upstream_timeout_ms as i64)),
        ("upstream_retries"@, toml_doc::TomlV::Int(a.upstream_retries as i64)),
        ("unhealthy_backoff_ms"@, toml_doc::TomlV::Int(a.unhealthy_backoff_ms as i64)),
        ("upstream_score_rtt_weight"@, toml_doc::TomlV::Float(a.upstream_score_rtt_weight.text@)),
        ("upstream_score_failure_weight"@, toml_doc::TomlV::Float(a.upstream_score_failure_weight.text@)),
        ("upstream_score_success_weight"@, toml_doc::TomlV::Float(a.upstream_score_success_weight.text@)),
    ]
}

pub open spec fn dnssec_entries(a: AdvancedSection) -> toml_doc::TableV {
    seq![
        ("enabled"@, toml_doc::TomlV::Bool(a.dnssec_enabled)),
        ("use_builtin_trust_anchors"@, toml_doc::TomlV::Bool(a.dnssec_use_builtin_trust_anchors)),
        ("trust_anchor_files"@, values::texts_toml(text::views(a.dnssec_trust_anchor_files@))),
    ]
}

pub open spec fn probe_entries(a: AdvancedSection) -> toml_doc::TableV {
    seq![
        ("enabled"@, toml_doc::TomlV::Bool(a.health_check_enabled)),
        ("mode"@, toml_doc::TomlV::Str(a.health_check_mode@)),
        ("port"@, toml_doc::TomlV::Int(a.health_check_port as i64)),
        ("http_path"@, toml_doc::TomlV::Str(a.health_check_http_path@)),
    ]
}

pub open spec fn threshold_entries(a: AdvancedSection) -> toml_doc::TableV {
    seq![
        ("interval_secs"@, toml_doc::TomlV::Int(a.health_check_interval_secs as i64)),
        ("timeout_ms"@, toml_doc::TomlV::Int(a.health_check_timeout_ms as i64)),
        ("max_parallel"@, toml_doc::TomlV::Int(a.health_check_max_parallel as i64)),
        ("failure_threshold"@, toml_doc::TomlV::Int(a.health_check_failure_threshold as i64)),
        ("success_threshold"@, toml_doc::TomlV::Int(a.health_check_success_threshold as i64)),
        ("all_unhealthy_log_file"@, toml_doc::TomlV::Str(a.health_check_all_unhealthy_log_file@)),
    ]
}

pub open spec fn notify_entries(a: AdvancedSection) -> toml_doc::TableV {
    seq![
        ("probe_tls_insecure_skip_verify"@, toml_doc::TomlV::Bool(a.health_check_probe_tls_insecure_skip_verify)),
        ("webhook_tls_insecure_skip_verify"@, toml_doc::TomlV::Bool(a.health_check_webhook_tls_insecure_skip_verify)),
        ("notify_webhook_retries"@, toml_doc::TomlV::Int(a.health_check_notify_webhook_retries as i64)),
        ("notify_webhook_backoff_ms"@, toml_doc::TomlV::Int(a.health_check_notify_webhook_backoff_ms as i64)),
    ]
}

/// The table of the health checks; texts that are absent or blank are left out.
pub open spec fn health_check_entries(a: AdvancedSection) -> toml_doc::TableV {
    probe_entries(a) + given_text("http_host_header"@, a.health_check_http_host_header)
        + threshold_entries(a) + given_text("notify_webhook"@, a.health_check_notify_webhook)
        + notify_entries(a)
}

/// The settings of the encrypted transports and of logging, each in a table of its own.
pub open spec fn table_entries(s: ConfigSectionsPayload) -> toml_doc::TableV {
    seq![
        ("dot"@, toml_doc::TomlV::Table(dot_entries(s.transport))),
        ("doh"@, toml_doc::TomlV::Table(doh_entries(s.transport))),
        ("logging"@, toml_doc::TomlV::Table(logging_entries(s.logging))),
    ]
}

/// The settings of access; records and blocked domains move to files of the default view.
pub open spec fn security_entries(s: SecuritySection) -> toml_doc::TableV {
    seq![
        ("static_records_file"@, toml_doc::TomlV::Str("config/default/static_records.toml"@)),
        ("static_records"@, toml_doc::TomlV::Array(Seq::empty())),
        ("allow_clients"@, values::texts_toml(text::views(s.allow_clients@))),
        ("blocked_domains_file"@, toml_doc::TomlV::Str("config/default/blocked_domains.toml"@)),
        ("blocked_domains"@, toml_doc::TomlV::Array(Seq::empty())),
        ("rate_limit_per_second"@, toml_doc::TomlV::Int(s.rate_limit_per_second as i64)),
        ("deny_any_queries"@, toml_doc::TomlV::Bool(s.deny_any_queries)),
    ]
}

pub open spec fn prewarm_toml(z: types::PreWarmZoneV) -> toml_doc::TomlV {
    toml_doc::TomlV::Table(
        seq![
            ("zone"@, toml_doc::TomlV::Str(z.zone)),
            ("ns_endpoints"@, values::texts_toml(z.ns_endpoints)),
            ("ns_hostnames"@, values::texts_toml(z.ns_hostnames)),
            ("ttl_secs"@, toml_doc::TomlV::Int(z.ttl_secs as i64)),
        ],
    )
}

/// Whether every time of a list of zones can be written as a TOML integer.
pub open spec fn times_fit(zones: Seq<types::PreWarmZoneV>) -> bool {
    forall|i: int| 0 <= i < zones.len() ==> (#[trigger] zones[i]).ttl_secs <= i64::MAX
}

pub open spec fn prewarm_list_toml(zones: Seq<types::PreWarmZoneV>) -> toml_doc::TomlV {
    toml_doc::TomlV::Array(zones.map_values(|z: types::PreWarmZoneV| prewarm_toml(z)))
}

/// The settings that are rarely changed and stand in tables or lists.
pub open spec fn nested_entries(a: AdvancedSection) -> toml_doc::TableV {
    seq![
        ("dnssec"@, toml_doc::TomlV::Table(dnssec_entries(a))),
        ("health_check"@, toml_doc::TomlV::Table(health_check_entries(a))),
        (
            "authoritative_sources"@,
            values::sources_toml(types::source_views(a.authoritative_sources@)),
        ),
        (
            "prewarm_delegation_zones"@,
            prewarm_list_toml(types::prewarm_views(a.prewarm_delegation_zones@)),
        ),
    ]
}

/// All settings of the sections in the order in which they are written.
pub open spec fn section_entries(s: ConfigSectionsPayload) -> toml_doc::TableV {
    basic_entries(s.basic) + resolver_entries(s.resolver) + cache_entries(s.cache) + table_entries(
        s,
    ) + security_entries(s.security) + resolution_entries(s.advanced) + name_server_entries(
        s.advanced,
    ) + cache_tuning_entries(s.advanced) + upstream_tuning_entries(s.advanced) + nested_entries(
        s.advanced,
    )
}

/// The configuration file with the sections written over it.
pub open spec fn updated_config(raw: Seq<char>, s: ConfigSectionsPayload) -> Result<
    Seq<char>,
    AdminError,
> {
    match values::root_table(raw) {
        Err(e) => Err(e),
        Ok(t) => if times_fit(types::prewarm_views(s.advanced.prewarm_delegation_zones@)) {
            values::printed(values::with_entries(t, section_entries(s)))
        } else {
            Err(AdminError::NumberTooLarge)
        },
    }
}

fn optional_text_value(s: &Option<String>) -> (r: TomlValue)
    ensures
        r@ == optional_text(*s),
{
    match s {
        Some(t) => text_value(t.as_str()),
        None => text_value(""),
    }
}

fn push_given_text(t: &mut Table, key: &str, s: &Option<String>)
    ensures
        toml_doc::table_view(final(t)@) == toml_doc::table_view(old(t)@) + given_text(key@, *s),
{
    let ghost before = toml_doc::table_view(t@);
    if let Some(value) = s {
        if !is_blank(value.as_str()) {
            push_entry(t, key, text_value(value.as_str()));
            assert(toml_doc::table_view(t@) =~= before + given_text(key@, *s));
            return;
        }
    }
    assert(toml_doc::table_view(t@) =~= before + given_text(key@, *s));
}

fn append_entries(t: &mut Table, more: Table)
    ensures
        toml_doc::table_view(final(t)@) == toml_doc::table_view(old(t)@) + toml_doc::table_view(
            more@,
        ),
{
    let ghost before = t@;
    let mut more = more;
    let ghost added = more@;
    t.append(&mut more);
    assert(t@ =~= before + added);
    assert(toml_doc::table_view(t@) =~= toml_doc::table_view(before) + toml_doc::table_view(
        added,
    ));
}

fn basic_table(b: &BasicListenControlSection) -> (r: Table)
    ensures
        toml_doc::table_view(r@) == basic_entries(*b),
{
    let mut t: Table = Vec::new();
    push_entry(&mut t, "udp_listen", text_value(b.udp_listen.as_str()));
    push_entry(&mut t, "tcp_listen", text_value(b.tcp_listen.as_str()));
    push_entry(&mut t, "admin_listen", text_value(b.admin_listen.as_str()));
    push_entry(&mut t, "control_listen", text_value(b.control_listen.as_str()));
    push_entry(&mut t, "control_token", optional_text_value(&b.control_token));
    assert(toml_doc::table_view(t@) =~= basic_entries(*b));
    t
}

fn resolver_table(s: &ResolveUpstreamSection) -> (r: Table)
    ensures
        toml_doc::table_view(r@) == resolver_entries(*s),
{
    let mut t: Table = Vec::new();
    push_entry(&mut t, "resolve_mode", text_value(s.resolve_mode.as_str()));
    push_entry(&mut t, "upstreams", string_array(&s.upstreams));
    push_entry(&mut t, "root_servers", string_array(&s.root_servers));
    push_entry(&mut t, "iterative_max_depth", TomlValue::Int(s.iterative_max_depth as i64));
    push_entry(&mut t, "iterative_timeout_ms", TomlValue::Int(s.iterative_timeout_ms as i64));
    push_entry(&mut t, "iterative_fallback_to_forwarder", TomlValue::Bool(s.iterative_fallback_to_forwarder));
    assert(toml_doc::table_view(t@) =~= resolver_entries(*s));
    t
}

fn cache_table(c: &CacheSection) -> (r: Table)
    ensures
        toml_doc::table_view(r@) == cache_entries(*c),
{
    let mut t: Table = Vec::new();
    push_entry(&mut t, "response_cache_capacity", TomlValue::Int(c.response_cache_capacity as i64));
    push_entry(&mut t, "cache_ttl_secs", TomlValue::Int(c.cache_ttl_secs as i64));
    push_entry(&mut t, "freeze_cache_ttl_decay", TomlValue::Bool(c.freeze_cache_ttl_decay));
    push_entry(&mut t, "prefetch_budget_per_window", TomlValue::Int(c.prefetch_budget_per_window as i64));
    push_entry(&mut t, "prefetch_window_secs", TomlValue::Int(c.prefetch_window_secs as i64));
    push_entry(&mut t, "prefetch_ttl_trigger_secs", TomlValue::Int(c.prefetch_ttl_trigger_secs as i64));
    push_entry(&mut t, "prefetch_popularity_threshold", TomlValue::Int(c.prefetch_popularity_threshold as i64));
    assert(toml_doc::table_view(t@) =~= cache_entries(*c));
    t
}

fn dot_table(s: &TransportSection) -> (r: Table)
    ensures
        toml_doc::table_view(r@) == dot_entries(*s),
{
    let mut t: Table = Vec::new();
    push_entry(&mut t, "enabled", TomlValue::Bool(s.dot_enabled));
    push_entry(&mut t, "listen", text_value(s.dot_listen.as_str()));
    push_entry(&mut t, "cert_file", text_value(s.dot_cert_file.as_str()));
    push_entry(&mut t, "key_file", text_value(s.dot_key_file.as_str()));
    assert(toml_doc::table_view(t@) =~= dot_entries(*s));
    t
}

fn doh_table(s: &TransportSection) -> (r: Table)
    ensures
        toml_doc::table_view(r@) == doh_entries(*s),
{
    let mut t: Table = Vec::new();
    push_entry(&mut t, "enabled", TomlValue::Bool(s.doh_enabled));
    push_entry(&mut t, "listen", text_value(s.doh_listen.as_str()));
    assert(toml_doc::table_view(t@) =~= doh_entries(*s));
    t
}

fn logging_table(l: &LoggingSection) -> (r: Table)
    ensures
        toml_doc::table_view(r@) == logging_entries(*l),
{
    let mut t: Table = Vec::new();
    push_entry(&mut t, "enabled", TomlValue::Bool(l.enabled));
    push_entry(&mut t, "console", TomlValue::Bool(l.console));
    push_entry(&mut t, "directory", text_value(l.directory.as_str()));
    push_entry(&mut t, "rotation", text_value(l.rotation.as_str()));
    push_entry(&mut t, "format", text_value(l.format.as_str()));
    push_entry(&mut t, "query_level", text_value(l.query_level.as_str()));
    push_entry(&mut t, "response_level", text_value(l.response_level.as_str()));
    push_entry(&mut t, "general_level", text_value(l.general_level.as_str()));
    push_entry(&mut t, "trace_query_domains", string_array(&l.trace_query_domains));
    assert(toml_doc::table_view(t@) =~= logging_entries(*l));
    t
}

fn resolution_table(a: &AdvancedSection) -> (r: Table)
    ensures
        toml_doc::table_view(r@) == resolution_entries(*a),
{
    let mut t: Table = Vec::new();
    push_entry(&mut t, "enable_recursion", TomlValue::Bool(a.enable_recursion));
    push_entry(&mut t, "minimal_response", TomlValue::Bool(a.minimal_response));
    push_entry(&mut t, "iterative_address_family", text_value(a.iterative_address_family.as_str()));
    push_entry(&mut t, "cname_chain_max_depth", TomlValue::Int(a.cname_chain_max_depth as i64));
    push_entry(&mut t, "follow_cname_chain", TomlValue::Bool(a.follow_cname_chain));
    push_entry(&mut t, "static_cname_expand_for_address_queries", TomlValue::Bool(a.static_cname_expand_for_address_queries));
    push_entry(&mut t, "iterative_cname_bridge_fallback_to_recursive", TomlValue::Bool(a.iterative_cname_bridge_fallback_to_recursive));
    push_entry(&mut t, "iterative_per_hop_timeout_ms", TomlValue::Int(a.iterative_per_hop_timeout_ms as i64));
    assert(toml_doc::table_view(t@) =~= resolution_entries(*a));
    t
}

fn name_server_table(a: &AdvancedSection) -> (r: Table)
    ensures
        toml_doc::table_view(r@) == name_server_entries(*a),
{
    let mut t: Table = Vec::new();
    push_entry(&mut t, "ns_host_cache_capacity", TomlValue::Int(a.ns_host_cache_capacity as i64));
    push_entry(&mut t, "ns_host_cache_ttl_secs", TomlValue::Int(a.ns_host_cache_ttl_secs as i64));
    push_entry(&mut t, "ns_host_cache_cleanup_interval_ms", TomlValue::Int(a.ns_host_cache_cleanup_interval_ms as i64));
    push_entry(&mut t, "enable_delegation_cache", TomlValue::Bool(a.enable_delegation_cache));
    push_entry(&mut t, "strict_bailiwick", TomlValue::Bool(a.strict_bailiwick));
    push_entry(&mut t, "delegation_cache_capacity", TomlValue::Int(a.delegation_cache_capacity as i64));
    push_entry(&mut t, "delegation_cache_ttl_cap_secs", TomlValue::Int(a.delegation_cache_ttl_cap_secs as i64));
    push_entry(&mut t, "delegation_cache_cleanup_interval_ms", TomlValue::Int(a.delegation_cache_cleanup_interval_ms as i64));
    push_entry(&mut t, "delegation_failure_backoff_ms", TomlValue::Int(a.delegation_failure_backoff_ms as i64));
    push_entry(&mut t, "ns_hostname_max_concurrent", TomlValue::Int(a.ns_hostname_max_concurrent as i64));
    push_entry(&mut t, "ns_hostname_enough_endpoints", TomlValue::Int(a.ns_hostname_enough_endpoints as i64));
    push_entry(&mut t, "ns_hostname_per_resolve_ms", TomlValue::Int(a.ns_hostname_per_resolve_ms as i64));
    push_entry(&mut t, "ns_hostname_resolve_mode", text_value(a.ns_hostname_resolve_mode.as_str()));
    assert(toml_doc::table_view(t@) =~= name_server_entries(*a));
    t
}

fn cache_tuning_table(a: &AdvancedSection) -> (r: Table)
    ensures
        toml_doc::table_view(r@) == cache_tuning_entries(*a),
{
    let mut t: Table = Vec::new();
    push_entry(&mut t, "cache_hot_capacity", TomlValue::Int(a.cache_hot_capacity as i64));
    push_entry(&mut t, "freeze_cache_domains", string_array(&a.freeze_cache_domains));
    push_entry(&mut t, "adaptive_cache_enabled", TomlValue::Bool(a.adaptive_cache_enabled));
    push_entry(&mut t, "adaptive_cache_min_capacity", TomlValue::Int(a.adaptive_cache_min_capacity as i64));
    push_entry(&mut t, "adaptive_cache_max_capacity", TomlValue::Int(a.adaptive_cache_max_capacity as i64));
    push_entry(&mut t, "adaptive_cache_step", TomlValue::Int(a.adaptive_cache_step as i64));
    push_entry(&mut t, "adaptive_cache_window_secs", TomlValue::Int(a.adaptive_cache_window_secs as i64));
    push_entry(&mut t, "adaptive_cache_high_miss_ratio", TomlValue::Float(a.adaptive_cache_high_miss_ratio.text.clone()));
    push_entry(&mut t, "adaptive_cache_low_miss_ratio", TomlValue::Float(a.adaptive_cache_low_miss_ratio.text.clone()));
    push_entry(&mut t, "stats_window_secs", TomlValue::Int(a.stats_window_secs as i64));
    push_entry(&mut t, "stats_short_window_secs", TomlValue::Int(a.stats_short_window_secs as i64));
    push_entry(&mut t, "topn_stats_enabled", TomlValue::Bool(a.topn_stats_enabled));
    assert(toml_doc::table_view(t@) =~= cache_tuning_entries(*a));
    t
}

fn upstream_tuning_table(a: &AdvancedSection) -> (r: Table)
    ensures
        toml_doc::table_view(r@) == upstream_tuning_entries(*a),
{
    let mut t: Table = Vec::new();
    push_entry(&mut t, "upstream_timeout_ms", TomlValue::Int(a.upstream_timeout_ms as i64));
    push_entry(&mut t, "upstream_retries", TomlValue::Int(a.upstream_retries as i64));
    push_entry(&mut t, "unhealthy_backoff_ms", TomlValue::Int(a.unhealthy_backoff_ms as i64));
    push_entry(&mut t, "upstream_score_rtt_weight", TomlValue::Float(a.upstream_score_rtt_weight.text.clone()));
    push_entry(&mut t, "upstream_score_failure_weight", TomlValue::Float(a.upstream_score_failure_weight.text.clone()));
    push_entry(&mut t, "upstream_score_success_weight", TomlValue::Float(a.upstream_score_success_weight.text.clone()));
    assert(toml_doc::table_view(t@) =~= upstream_tuning_entries(*a));
    t
}

fn dnssec_table(a: &AdvancedSection) -> (r: Table)
    ensures
        toml_doc::table_view(r@) == dnssec_entries(*a),
{
    let mut t: Table = Vec::new();
    push_entry(&mut t, "enabled", TomlValue::Bool(a.dnssec_enabled));
    push_entry(&mut t, "use_builtin_trust_anchors", TomlValue::Bool(a.dnssec_use_builtin_trust_anchors));
    push_entry(&mut t, "trust_anchor_files", string_array(&a.dnssec_trust_anchor_files));
    assert(toml_doc::table_view(t@) =~= dnssec_entries(*a));
    t
}

fn probe_table(a: &AdvancedSection) -> (r: Table)
    ensures
        toml_doc::table_view(r@) == probe_entries(*a),
{
    let mut t: Table = Vec::new();
    push_entry(&mut t, "enabled", TomlValue::Bool(a.health_check_enabled));
    push_entry(&mut t, "mode", text_value(a.health_check_mode.as_str()));
    push_entry(&mut t, "port", TomlValue::Int(a.health_check_port as i64));
    push_entry(&mut t, "http_path", text_value(a.health_check_http_path.as_str()));
    assert(toml_doc::table_view(t@) =~= probe_entries(*a));
    t
}

fn threshold_table(a: &AdvancedSection) -> (r: Table)
    ensures
        toml_doc::table_view(r@) == threshold_entries(*a),
{
    let mut t: Table = Vec::new();
    push_entry(&mut t, "interval_secs", TomlValue::Int(a.health_check_interval_secs as i64));
    push_entry(&mut t, "timeout_ms", TomlValue::Int(a.health_check_timeout_ms as i64));
    push_entry(&mut t, "max_parallel", TomlValue::Int(a.health_check_max_parallel as i64));
    push_entry(&mut t, "failure_threshold", TomlValue::Int(a.health_check_failure_threshold as i64));
    push_entry(&mut t, "success_threshold", TomlValue::Int(a.health_check_success_threshold as i64));
    push_entry(&mut t, "all_unhealthy_log_file", text_value(a.health_check_all_unhealthy_log_file.as_str()));
    assert(toml_doc::table_view(t@) =~= threshold_entries(*a));
    t
}

fn notify_table(a: &AdvancedSection) -> (r: Table)
    ensures
        toml_doc::table_view(r@) == notify_entries(*a),
{
    let mut t: Table = Vec::new();
    push_entry(&mut t, "probe_tls_insecure_skip_verify", TomlValue::Bool(a.health_check_probe_tls_insecure_skip_verify));
    push_entry(&mut t, "webhook_tls_insecure_skip_verify", TomlValue::Bool(a.health_check_webhook_tls_insecure_skip_verify));
    push_entry(&mut t, "notify_webhook_retries", TomlValue::Int(a.health_check_notify_webhook_retries as i64));
    push_entry(&mut t, "notify_webhook_backoff_ms", TomlValue::Int(a.health_check_notify_webhook_backoff_ms as i64));
    assert(toml_doc::table_view(t@) =~= notify_entries(*a));
    t
}

fn health_check_table(a: &AdvancedSection) -> (r: Table)
    ensures
        toml_doc::table_view(r@) == health_check_entries(*a),
{
    let mut t = probe_table(a);
    push_given_text(&mut t, "http_host_header", &a.health_check_http_host_header);
    append_entries(&mut t, threshold_table(a));
    push_given_text(&mut t, "notify_webhook", &a.health_check_notify_webhook);
    append_entries(&mut t, notify_table(a));
    t
}

fn tables_table(s: &ConfigSectionsPayload) -> (r: Table)
    ensures
        toml_doc::table_view(r@) == table_entries(*s),
{
    let mut t: Table = Vec::new();
    push_entry(&mut t, "dot", table_value(dot_table(&s.transport)));
    push_entry(&mut t, "doh", table_value(doh_table(&s.transport)));
    push_entry(&mut t, "logging", table_value(logging_table(&s.logging)));
    assert(toml_doc::table_view(t@) =~= table_entries(*s));
    t
}

fn empty_array() -> (r: TomlValue)
    ensures
        r@ == toml_doc::TomlV::Array(Seq::empty()),
{
    let list: Vec<TomlValue> = Vec::new();
    proof {
        toml_doc::lemma_array_view(list);
        assert(toml_doc::array_view(list@) =~= Seq::empty());
    }
    TomlValue::Array(list)
}

/// Where the static records of the default view are kept.
pub fn default_view_static_records_file_relative() -> (r: String)
    ensures
        r@ == "config/default/static_records.toml"@,
{
    "config/default/static_records.toml".to_owned()
}

/// Where the blocked domains of the default view are kept.
pub fn default_view_blocked_domains_file_relative() -> (r: String)
    ensures
        r@ == "config/default/blocked_domains.toml"@,
{
    "config/default/blocked_domains.toml".to_owned()
}

/// The directory of the files of the default view.
pub fn default_view_data_dir_relative() -> (r: String)
    ensures
        r@ == "config/default"@,
{
    "config/default".to_owned()
}

fn security_table(s: &SecuritySection) -> (r: Table)
    ensures
        toml_doc::table_view(r@) == security_entries(*s),
{
    let mut t: Table = Vec::new();
    push_entry(
        &mut t,
        "static_records_file",
        TomlValue::Str(default_view_static_records_file_relative()),
    );
    push_entry(&mut t, "static_records", empty_array());
    push_entry(&mut t, "allow_clients", string_array(&s.allow_clients));
    push_entry(
        &mut t,
        "blocked_domains_file",
        TomlValue::Str(default_view_blocked_domains_file_relative()),
    );
    push_entry(&mut t, "blocked_domains", empty_array());
    push_entry(&mut t, "rate_limit_per_second", TomlValue::Int(s.rate_limit_per_second as i64));
    push_entry(&mut t, "deny_any_queries", TomlValue::Bool(s.deny_any_queries));
    assert(toml_doc::table_view(t@) =~= security_entries(*s));
    t
}

fn prewarm_value(list: &Vec<PreWarmZone>) -> (r: Option<TomlValue>)
    ensures
        match r {
            Some(v) => times_fit(types::prewarm_views(list@)) && v@ == prewarm_list_toml(
                types::prewarm_views(list@),
            ),
            None => !times_fit(types::prewarm_views(list@)),
        },
{
    let ghost zones = types::prewarm_views(list@);
    let mut out: Vec<TomlValue> = Vec::new();
    let mut i: usize = 0;
    while i < list.len()
        invariant
            i <= list@.len(),
            out@.len() == i,
            zones == types::prewarm_views(list@),
            forall|k: int| 0 <= k < i ==> (#[trigger] zones[k]).ttl_secs <= i64::MAX,
            forall|k: int| 0 <= k < i ==> (#[trigger] out@[k])@ == prewarm_toml(zones[k]),
        decreases list@.len() - i,
    {
        let z = &list[i];
        assert(zones[i as int] == z@);
        if z.ttl_secs > 0x7fff_ffff_ffff_ffff {
            assert(!(zones[i as int].ttl_secs <= i64::MAX));
            return None;
        }
        let mut t: Table = Vec::new();
        push_entry(&mut t, "zone", text_value(z.zone.as_str()));
        push_entry(&mut t, "ns_endpoints", string_array(&z.ns_endpoints));
        push_entry(&mut t, "ns_hostnames", string_array(&z.ns_hostnames));
        push_entry(&mut t, "ttl_secs", TomlValue::Int(z.ttl_secs as i64));
        assert(toml_doc::table_view(t@) =~= prewarm_toml(z@)->Table_0);
        out.push(table_value(t));
        i = i + 1;
    }
    proof {
        toml_doc::lemma_array_view(out);
        assert(toml_doc::array_view(out@) =~= prewarm_list_toml(zones)->Array_0);
    }
    Some(TomlValue::Array(out))
}

fn nested_table(a: &AdvancedSection) -> (r: Option<Table>)
    ensures
        match r {
            Some(t) => times_fit(types::prewarm_views(a.prewarm_delegation_zones@))
                && toml_doc::table_view(t@) == nested_entries(*a),
            None => !times_fit(types::prewarm_views(a.prewarm_delegation_zones@)),
        },
{
    match prewarm_value(&a.prewarm_delegation_zones) {
        None => None,
        Some(zones) => {
            let mut t: Table = Vec::new();
            push_entry(&mut t, "dnssec", table_value(dnssec_table(a)));
            push_entry(&mut t, "health_check", table_value(health_check_table(a)));
            push_entry(
                &mut t,
                "authoritative_sources",
                sources_value(&a.authoritative_sources),
            );
            push_entry(&mut t, "prewarm_delegation_zones", zones);
            assert(toml_doc::table_view(t@) =~= nested_entries(*a));
            Some(t)
        },
    }
}

/// All settings of the sections; nothing where a number is too large for TOML.
pub fn sections_table(s: &ConfigSectionsPayload) -> (r: Option<Table>)
    ensures
        match r {
            Some(t) => times_fit(types::prewarm_views(s.advanced.prewarm_delegation_zones@))
                && toml_doc::table_view(t@) == section_entries(*s),
            None => !times_fit(types::prewarm_views(s.advanced.prewarm_delegation_zones@)),
        },
{
    match nested_table(&s.advanced) {
        None => None,
        Some(nested) => {
            let mut t = basic_table(&s.basic);
            append_entries(&mut t, resolver_table(&s.resolver));
            append_entries(&mut t, cache_table(&s.cache));
            append_entries(&mut t, tables_table(s));
            append_entries(&mut t, security_table(&s.security));
            append_entries(&mut t, resolution_table(&s.advanced));
            append_entries(&mut t, name_server_table(&s.advanced));
            append_entries(&mut t, cache_tuning_table(&s.advanced));
            append_entries(&mut t, upstream_tuning_table(&s.advanced));
            append_entries(&mut t, nested);
            Some(t)
        },
    }
}

/// Writes the sections over a configuration file.
pub fn update_config_sections_in_raw(raw: &str, sections: &ConfigSectionsPayload) -> (r: Result<
    String,
    AdminError,
>)
    ensures
        match updated_config(raw@, *sections) {
            Ok(s) => r is Ok && r->Ok_0@ == s,
            Err(e) => r is Err && r->Err_0 == e,
        },
{
    match load_toml_root_table(raw) {
        Err(e) => Err(e),
        Ok(table) => {
            let mut table = table;
            match sections_table(sections) {
                None => Err(AdminError::NumberTooLarge),
                Some(entries) => {
                    put_all(&mut table, &entries);
                    print_table(table)
                },
            }
        },
    }
}

} // verus!
