//! The settings as the administration interface shows them.
use crate::admin::sections::{
    AdvancedSection, BasicListenControlSection, CacheSection, ConfigSectionsPayload,
    LoggingSection, ResolveUpstreamSection, SecuritySection, StaticDataSection, TransportSection,
};
use crate::config::copies::{
    copy_decimal, copy_optional_text, copy_prewarm_zones, copy_sources, copy_texts, copy_views,
};
use crate::config::records::copy_records;
use crate::config::rules;
use crate::config::types;
use crate::config::types::{
    AppConfig, DnsView, IterativeAddressFamily, NsHostnameResolveMode, StaticRecord,
    ViewQueryMode,
};
use crate::text;
use vstd::prelude::*;

verus! {

/// The view of every client that no other view serves.
pub open spec fn default_view_template(records: Seq<types::StaticRecordV>) -> types::DnsViewV {
    types::DnsViewV {
        name: "default"@,
        summary: None,
        client_cidrs: Seq::empty(),
        static_records_file: None,
        static_records: records,
        authoritative_records: Seq::empty(),
        records: Seq::empty(),
        blocked_domains_file: None,
        blocked_domains: Seq::empty(),
        authoritative_zones_file: None,
        authoritative_zones_dir: None,
        authoritative_zones: Seq::empty(),
        query_mode: ViewQueryMode::GlobalFallback,
        enable_recursion: true,
        view_static_cname_expand_for_address_queries: None,
        view_authoritative_cname_expand_for_address_queries: None,
    }
}

/// The first view with the given name but for case; the number of views where there is none.
pub open spec fn view_index(views: Seq<types::DnsViewV>, name: Seq<char>) -> int
    decreases views.len(),
{
    if views.len() == 0 || rules::fold_eq(views[0].name, name) {
        0
    } else {
        1 + view_index(views.skip(1), name)
    }
}

/// The views with the default view among them: it is put first where it is missing, and it takes
/// the global records where it has none of its own.
pub open spec fn effective_views(
    views: Seq<types::DnsViewV>,
    records: Seq<types::StaticRecordV>,
) -> Seq<types::DnsViewV> {
    let i = view_index(views, "default"@);
    if i < views.len() {
        if views[i].static_records.len() == 0 {
            views.update(i, types::DnsViewV { static_records: records, ..views[i] })
        } else {
            views
        }
    } else {
        seq![default_view_template(records)] + views
    }
}

/// The records that the default view serves.
pub open spec fn default_records(
    views: Seq<types::DnsViewV>,
    records: Seq<types::StaticRecordV>,
) -> Seq<types::StaticRecordV> {
    let all = effective_views(views, records);
    all[view_index(all, "default"@)].static_records
}

/// There is always a default view.
pub proof fn lemma_default_view(
    views: Seq<types::DnsViewV>,
    records: Seq<types::StaticRecordV>,
)
    ensures
        view_index(effective_views(views, records), "default"@) < effective_views(
            views,
            records,
        ).len(),
{
    let all = effective_views(views, records);
    let i = view_index(views, "default"@);
    if i < views.len() {
        lemma_view_index(views, "default"@);
        lemma_view_index_bound(all, "default"@, i);
    } else {
        assert(all[0].name == "default"@);
    }
}

pub proof fn lemma_view_index(views: Seq<types::DnsViewV>, name: Seq<char>)
    ensures
        0 <= view_index(views, name) <= views.len(),
        view_index(views, name) < views.len() ==> rules::fold_eq(
            views[view_index(views, name)].name,
            name,
        ),
    decreases views.len(),
{
    if views.len() > 0 && !rules::fold_eq(views[0].name, name) {
        lemma_view_index(views.skip(1), name);
    }
}

proof fn lemma_view_index_bound(views: Seq<types::DnsViewV>, name: Seq<char>, i: int)
    requires
        0 <= i < views.len(),
        rules::fold_eq(views[i].name, name),
    ensures
        view_index(views, name) <= i,
    decreases views.len(),
{
    if i > 0 && !rules::fold_eq(views[0].name, name) {
        assert(views.skip(1)[i - 1] == views[i]);
        lemma_view_index_bound(views.skip(1), name, i - 1);
    }
}

/// The position of the first view with the given name but for case.
pub fn find_view(views: &Vec<DnsView>, name: &str) -> (r: usize)
    ensures
        r == view_index(types::dns_views(views@), name@),
        r <= views@.len(),
{
    let ghost all = types::dns_views(views@);
    let mut i: usize = 0;
    assert(all.skip(0) =~= all);
    while i < views.len()
        invariant
            i <= views@.len(),
            all == types::dns_views(views@),
            view_index(all, name@) == i + view_index(all.skip(i as int), name@),
        decreases views@.len() - i,
    {
        assert(all.skip(i as int)[0] == views@[i as int]@);
        if text::same_fold(views[i].name.as_str(), name) {
            return i;
        }
        assert(all.skip(i as int).skip(1) =~= all.skip(i + 1));
        i = i + 1;
    }
    i
}

fn default_view(records: Vec<StaticRecord>) -> (r: DnsView)
    ensures
        r@ == default_view_template(types::record_views(records@)),
{
    let v = DnsView {
        name: "default".to_owned(),
        summary: None,
        client_cidrs: Vec::new(),
        static_records_file: None,
        static_records: records,
        authoritative_records: Vec::new(),
        records: Vec::new(),
        blocked_domains_file: None,
        blocked_domains: Vec::new(),
        authoritative_zones_file: None,
        authoritative_zones_dir: None,
        authoritative_zones: Vec::new(),
        query_mode: ViewQueryMode::GlobalFallback,
        enable_recursion: true,
        view_static_cname_expand_for_address_queries: None,
        view_authoritative_cname_expand_for_address_queries: None,
    };
    proof {
        let t = default_view_template(types::record_views(records@));
        assert(v@.client_cidrs =~= t.client_cidrs);
        assert(v@.authoritative_records =~= t.authoritative_records);
        assert(v@.records =~= t.records);
        assert(v@.blocked_domains =~= t.blocked_domains);
        assert(v@.authoritative_zones =~= t.authoritative_zones);
    }
    v
}

/// The views of the settings with the default view among them.
pub fn build_effective_views(cfg: &AppConfig) -> (r: Vec<DnsView>)
    ensures
        types::dns_views(r@) == effective_views(
            types::dns_views(cfg.views@),
            types::record_views(cfg.static_records@),
        ),
{
    let mut views = copy_views(&cfg.views);
    let ghost all = types::dns_views(cfg.views@);
    let records = copy_records(&cfg.static_records);
    let i = find_view(&views, "default");
    if i < views.len() {
        assert(all[i as int] == views@[i as int]@);
        if views[i].static_records.len() == 0 {
            let old = views.remove(i);
            let new = DnsView { static_records: records, ..old };
            let ghost shorter = types::dns_views(views@);
            views.insert(i, new);
            assert(types::dns_views(views@) =~= all.update(i as int, new@));
        }
        return views;
    }
    let first = default_view(records);
    views.insert(0, first);
    assert(types::dns_views(views@) =~= seq![first@] + all);
    views
}

/// The name of an address family in the configuration file.
pub open spec fn family_name(f: IterativeAddressFamily) -> Seq<char> {
    match f {
        IterativeAddressFamily::DualStack => "dual_stack"@,
        IterativeAddressFamily::Ipv4 => "ipv4"@,
        IterativeAddressFamily::Ipv6 => "ipv6"@,
    }
}

/// The name of a resolve mode in the configuration file.
pub open spec fn resolve_mode_name(m: NsHostnameResolveMode) -> Seq<char> {
    match m {
        NsHostnameResolveMode::BootstrapRecursive => "bootstrap_recursive"@,
        NsHostnameResolveMode::PureIterative => "pure_iterative"@,
    }
}

pub open spec fn shows_basic(cfg: AppConfig, s: BasicListenControlSection) -> bool {
    &&& s.udp_listen@ == cfg.udp_listen@
    &&& s.tcp_listen@ == cfg.tcp_listen@
    &&& s.admin_listen@ == cfg.admin_listen@
    &&& s.control_listen@ == cfg.control_listen@
    &&& types::optional_view(s.control_token) == types::optional_view(cfg.control_token)
}

pub open spec fn shows_resolver(cfg: AppConfig, s: ResolveUpstreamSection) -> bool {
    &&& s.resolve_mode@ == cfg.resolve_mode@
    &&& text::views(s.upstreams@) == text::views(cfg.upstreams@)
    &&& text::views(s.root_servers@) == text::views(cfg.root_servers@)
    &&& s.iterative_max_depth == cfg.iterative_max_depth
    &&& s.iterative_timeout_ms == cfg.iterative_timeout_ms
    &&& s.iterative_fallback_to_forwarder == cfg.iterative_fallback_to_forwarder
}

pub open spec fn shows_cache(cfg: AppConfig, s: CacheSection) -> bool {
    &&& s.response_cache_capacity == cfg.response_cache_capacity
    &&& s.cache_ttl_secs == cfg.cache_ttl_secs
    &&& s.freeze_cache_ttl_decay == cfg.freeze_cache_ttl_decay
    &&& s.prefetch_budget_per_window == cfg.prefetch_budget_per_window
    &&& s.prefetch_window_secs == cfg.prefetch_window_secs
    &&& s.prefetch_ttl_trigger_secs == cfg.prefetch_ttl_trigger_secs
    &&& s.prefetch_popularity_threshold == cfg.prefetch_popularity_threshold
}

pub open spec fn shows_transport(cfg: AppConfig, s: TransportSection) -> bool {
    &&& s.dot_enabled == cfg.dot.enabled
    &&& s.dot_listen@ == cfg.dot.listen@
    &&& s.dot_cert_file@ == cfg.dot.cert_file@
    &&& s.dot_key_file@ == cfg.dot.key_file@
    &&& s.doh_enabled == cfg.doh.enabled
    &&& s.doh_listen@ == cfg.doh.listen@
}

pub open spec fn shows_logging(cfg: AppConfig, s: LoggingSection) -> bool {
    &&& s.enabled == cfg.logging.enabled
    &&& s.console == cfg.logging.console
    &&& s.directory@ == cfg.logging.directory@
    &&& s.rotation@ == cfg.logging.rotation@
    &&& s.format@ == cfg.logging.format@
    &&& s.query_level@ == cfg.logging.query_level@
    &&& s.response_level@ == cfg.logging.response_level@
    &&& s.general_level@ == cfg.logging.general_level@
    &&& text::views(s.trace_query_domains@) == text::views(cfg.logging.trace_query_domains@)
}

pub open spec fn shows_security(cfg: AppConfig, s: SecuritySection) -> bool {
    &&& text::views(s.allow_clients@) == text::views(cfg.allow_clients@)
    &&& text::views(s.blocked_domains@) == text::views(cfg.blocked_domains@)
    &&& s.rate_limit_per_second == cfg.rate_limit_per_second
    &&& s.deny_any_queries == cfg.deny_any_queries
}

pub open spec fn shows_resolution(cfg: AppConfig, s: AdvancedSection) -> bool {
    &&& s.enable_recursion == cfg.enable_recursion
    &&& s.minimal_response == cfg.minimal_response
    &&& s.iterative_address_family@ == family_name(cfg.iterative_address_family)
    &&& s.cname_chain_max_depth == cfg.cname_chain_max_depth
    &&& s.follow_cname_chain == cfg.follow_cname_chain
    &&& s.static_cname_expand_for_address_queries == cfg.static_cname_expand_for_address_queries
    &&& s.iterative_cname_bridge_fallback_to_recursive == cfg.iterative_cname_bridge_fallback_to_recursive
    &&& s.iterative_per_hop_timeout_ms == cfg.iterative_per_hop_timeout_ms
}

pub open spec fn shows_name_server(cfg: AppConfig, s: AdvancedSection) -> bool {
    &&& s.ns_host_cache_capacity == cfg.ns_host_cache_capacity
    &&& s.ns_host_cache_ttl_secs == cfg.ns_host_cache_ttl_secs
    &&& s.ns_host_cache_cleanup_interval_ms == cfg.ns_host_cache_cleanup_interval_ms
    &&& s.enable_delegation_cache == cfg.enable_delegation_cache
    &&& s.strict_bailiwick == cfg.strict_bailiwick
    &&& s.delegation_cache_capacity == cfg.delegation_cache_capacity
    &&& s.delegation_cache_ttl_cap_secs == cfg.delegation_cache_ttl_cap_secs
    &&& s.delegation_cache_cleanup_interval_ms == cfg.delegation_cache_cleanup_interval_ms
    &&& s.delegation_failure_backoff_ms == cfg.delegation_failure_backoff_ms
    &&& s.ns_hostname_max_concurrent == cfg.ns_hostname_max_concurrent
    &&& s.ns_hostname_enough_endpoints == cfg.ns_hostname_enough_endpoints
    &&& s.ns_hostname_per_resolve_ms == cfg.ns_hostname_per_resolve_ms
    &&& s.ns_hostname_resolve_mode@ == resolve_mode_name(cfg.ns_hostname_resolve_mode)
}

pub open spec fn shows_cache_tuning(cfg: AppConfig, s: AdvancedSection) -> bool {
    &&& s.cache_hot_capacity == cfg.cache_hot_capacity
    &&& text::views(s.freeze_cache_domains@) == text::views(cfg.freeze_cache_domains@)
    &&& s.adaptive_cache_enabled == cfg.adaptive_cache_enabled
    &&& s.adaptive_cache_min_capacity == cfg.adaptive_cache_min_capacity
    &&& s.adaptive_cache_max_capacity == cfg.adaptive_cache_max_capacity
    &&& s.adaptive_cache_step == cfg.adaptive_cache_step
    &&& s.adaptive_cache_window_secs == cfg.adaptive_cache_window_secs
    &&& s.adaptive_cache_high_miss_ratio.text@ == cfg.adaptive_cache_high_miss_ratio.text@
    &&& s.adaptive_cache_low_miss_ratio.text@ == cfg.adaptive_cache_low_miss_ratio.text@
    &&& s.stats_window_secs == cfg.stats_window_secs
    &&& s.stats_short_window_secs == cfg.stats_short_window_secs
    &&& s.topn_stats_enabled == cfg.topn_stats_enabled
}

pub open spec fn shows_upstream_tuning(cfg: AppConfig, s: AdvancedSection) -> bool {
    &&& s.upstream_timeout_ms == cfg.upstream_timeout_ms
    &&& s.upstream_retries == cfg.upstream_retries
    &&& s.unhealthy_backoff_ms == cfg.unhealthy_backoff_ms
    &&& s.upstream_score_rtt_weight.text@ == cfg.upstream_score_rtt_weight.text@
    &&& s.upstream_score_failure_weight.text@ == cfg.upstream_score_failure_weight.text@
    &&& s.upstream_score_success_weight.text@ == cfg.upstream_score_success_weight.text@
}

pub open spec fn shows_checks(cfg: AppConfig, s: AdvancedSection) -> bool {
    &&& s.dnssec_enabled == cfg.dnssec.enabled
    &&& s.dnssec_use_builtin_trust_anchors == cfg.dnssec.use_builtin_trust_anchors
    &&& text::views(s.dnssec_trust_anchor_files@) == text::views(cfg.dnssec.trust_anchor_files@)
    &&& s.health_check_enabled == cfg.health_check.enabled
    &&& s.health_check_mode@ == cfg.health_check.mode@
    &&& s.health_check_port == cfg.health_check.port
    &&& s.health_check_http_path@ == cfg.health_check.http_path@
    &&& types::optional_view(s.health_check_http_host_header) == types::optional_view(cfg.health_check.http_host_header)
    &&& s.health_check_interval_secs == cfg.health_check.interval_secs
    &&& s.health_check_timeout_ms == cfg.health_check.timeout_ms
    &&& s.health_check_max_parallel == cfg.health_check.max_parallel
    &&& s.health_check_failure_threshold == cfg.health_check.failure_threshold
    &&& s.health_check_success_threshold == cfg.health_check.success_threshold
    &&& s.health_check_all_unhealthy_log_file@ == cfg.health_check.all_unhealthy_log_file@
    &&& types::optional_view(s.health_check_notify_webhook) == types::optional_view(cfg.health_check.notify_webhook)
    &&& s.health_check_probe_tls_insecure_skip_verify == cfg.health_check.probe_tls_insecure_skip_verify
    &&& s.health_check_webhook_tls_insecure_skip_verify == cfg.health_check.webhook_tls_insecure_skip_verify
    &&& s.health_check_notify_webhook_retries == cfg.health_check.notify_webhook_retries
    &&& s.health_check_notify_webhook_backoff_ms == cfg.health_check.notify_webhook_backoff_ms
    &&& types::source_views(s.authoritative_sources@) == types::source_views(
        cfg.authoritative_sources@,
    )
    &&& types::prewarm_views(s.prewarm_delegation_zones@) == types::prewarm_views(
        cfg.prewarm_delegation_zones@,
    )
}

/// Whether the sections show the settings as they are.
pub open spec fn shows(cfg: AppConfig, s: ConfigSectionsPayload) -> bool {
    &&& shows_basic(cfg, s.basic)
    &&& shows_resolver(cfg, s.resolver)
    &&& shows_cache(cfg, s.cache)
    &&& shows_transport(cfg, s.transport)
    &&& shows_logging(cfg, s.logging)
    &&& shows_security(cfg, s.security)
    &&& shows_resolution(cfg, s.advanced)
    &&& shows_name_server(cfg, s.advanced)
    &&& shows_cache_tuning(cfg, s.advanced)
    &&& shows_upstream_tuning(cfg, s.advanced)
    &&& shows_checks(cfg, s.advanced)
    &&& types::record_views(s.static_data.static_records@) == default_records(
        types::dns_views(cfg.views@),
        types::record_views(cfg.static_records@),
    )
}

fn family_text(f: IterativeAddressFamily) -> (r: String)
    ensures
        r@ == family_name(f),
{
    match f {
        IterativeAddressFamily::DualStack => "dual_stack".to_owned(),
        IterativeAddressFamily::Ipv4 => "ipv4".to_owned(),
        IterativeAddressFamily::Ipv6 => "ipv6".to_owned(),
    }
}

fn resolve_mode_text(m: NsHostnameResolveMode) -> (r: String)
    ensures
        r@ == resolve_mode_name(m),
{
    match m {
        NsHostnameResolveMode::BootstrapRecursive => "bootstrap_recursive".to_owned(),
        NsHostnameResolveMode::PureIterative => "pure_iterative".to_owned(),
    }
}

fn basic_section(cfg: &AppConfig) -> (s: BasicListenControlSection)
    ensures
        shows_basic(*cfg, s),
{
    BasicListenControlSection {
        udp_listen: cfg.udp_listen.clone(),
        tcp_listen: cfg.tcp_listen.clone(),
        admin_listen: cfg.admin_listen.clone(),
        control_listen: cfg.control_listen.clone(),
        control_token: copy_optional_text(&cfg.control_token),
    }
}

fn resolver_section(cfg: &AppConfig) -> (s: ResolveUpstreamSection)
    ensures
        shows_resolver(*cfg, s),
{
    ResolveUpstreamSection {
        resolve_mode: cfg.resolve_mode.clone(),
        upstreams: copy_texts(&cfg.upstreams),
        root_servers: copy_texts(&cfg.root_servers),
        iterative_max_depth: cfg.iterative_max_depth,
        iterative_timeout_ms: cfg.iterative_timeout_ms,
        iterative_fallback_to_forwarder: cfg.iterative_fallback_to_forwarder,
    }
}

fn cache_section(cfg: &AppConfig) -> (s: CacheSection)
    ensures
        shows_cache(*cfg, s),
{
    CacheSection {
        response_cache_capacity: cfg.response_cache_capacity,
        cache_ttl_secs: cfg.cache_ttl_secs,
        freeze_cache_ttl_decay: cfg.freeze_cache_ttl_decay,
        prefetch_budget_per_window: cfg.prefetch_budget_per_window,
        prefetch_window_secs: cfg.prefetch_window_secs,
        prefetch_ttl_trigger_secs: cfg.prefetch_ttl_trigger_secs,
        prefetch_popularity_threshold: cfg.prefetch_popularity_threshold,
    }
}

fn transport_section(cfg: &AppConfig) -> (s: TransportSection)
    ensures
        shows_transport(*cfg, s),
{
    TransportSection {
        dot_enabled: cfg.dot.enabled,
        dot_listen: cfg.dot.listen.clone(),
        dot_cert_file: cfg.dot.cert_file.clone(),
        dot_key_file: cfg.dot.key_file.clone(),
        doh_enabled: cfg.doh.enabled,
        doh_listen: cfg.doh.listen.clone(),
    }
}

fn logging_section(cfg: &AppConfig) -> (s: LoggingSection)
    ensures
        shows_logging(*cfg, s),
{
    LoggingSection {
        enabled: cfg.logging.enabled,
        console: cfg.logging.console,
        directory: cfg.logging.directory.clone(),
        rotation: cfg.logging.rotation.clone(),
        format: cfg.logging.format.clone(),
        query_level: cfg.logging.query_level.clone(),
        response_level: cfg.logging.response_level.clone(),
        general_level: cfg.logging.general_level.clone(),
        trace_query_domains: copy_texts(&cfg.logging.trace_query_domains),
    }
}

fn security_section(cfg: &AppConfig) -> (s: SecuritySection)
    ensures
        shows_security(*cfg, s),
{
    SecuritySection {
        allow_clients: copy_texts(&cfg.allow_clients),
        blocked_domains: copy_texts(&cfg.blocked_domains),
        rate_limit_per_second: cfg.rate_limit_per_second,
        deny_any_queries: cfg.deny_any_queries,
    }
}

fn advanced_section(cfg: &AppConfig) -> (s: AdvancedSection)
    ensures
        shows_resolution(*cfg, s),
        shows_name_server(*cfg, s),
        shows_cache_tuning(*cfg, s),
        shows_upstream_tuning(*cfg, s),
        shows_checks(*cfg, s),
{
    AdvancedSection {
        enable_recursion: cfg.enable_recursion,
        minimal_response: cfg.minimal_response,
        iterative_address_family: family_text(cfg.iterative_address_family),
        cname_chain_max_depth: cfg.cname_chain_max_depth,
        follow_cname_chain: cfg.follow_cname_chain,
        static_cname_expand_for_address_queries: cfg.static_cname_expand_for_address_queries,
        iterative_cname_bridge_fallback_to_recursive: cfg.iterative_cname_bridge_fallback_to_recursive,
        iterative_per_hop_timeout_ms: cfg.iterative_per_hop_timeout_ms,
        ns_host_cache_capacity: cfg.ns_host_cache_capacity,
        ns_host_cache_ttl_secs: cfg.ns_host_cache_ttl_secs,
        ns_host_cache_cleanup_interval_ms: cfg.ns_host_cache_cleanup_interval_ms,
        enable_delegation_cache: cfg.enable_delegation_cache,
        strict_bailiwick: cfg.strict_bailiwick,
        delegation_cache_capacity: cfg.delegation_cache_capacity,
        delegation_cache_ttl_cap_secs: cfg.delegation_cache_ttl_cap_secs,
        delegation_cache_cleanup_interval_ms: cfg.delegation_cache_cleanup_interval_ms,
        delegation_failure_backoff_ms: cfg.delegation_failure_backoff_ms,
        ns_hostname_max_concurrent: cfg.ns_hostname_max_concurrent,
        ns_hostname_enough_endpoints: cfg.ns_hostname_enough_endpoints,
        ns_hostname_per_resolve_ms: cfg.ns_hostname_per_resolve_ms,
        ns_hostname_resolve_mode: resolve_mode_text(cfg.ns_hostname_resolve_mode),
        cache_hot_capacity: cfg.cache_hot_capacity,
        freeze_cache_domains: copy_texts(&cfg.freeze_cache_domains),
        adaptive_cache_enabled: cfg.adaptive_cache_enabled,
        adaptive_cache_min_capacity: cfg.adaptive_cache_min_capacity,
        adaptive_cache_max_capacity: cfg.adaptive_cache_max_capacity,
        adaptive_cache_step: cfg.adaptive_cache_step,
        adaptive_cache_window_secs: cfg.adaptive_cache_window_secs,
        adaptive_cache_high_miss_ratio: copy_decimal(&cfg.adaptive_cache_high_miss_ratio),
        adaptive_cache_low_miss_ratio: copy_decimal(&cfg.adaptive_cache_low_miss_ratio),
        stats_window_secs: cfg.stats_window_secs,
        stats_short_window_secs: cfg.stats_short_window_secs,
        topn_stats_enabled: cfg.topn_stats_enabled,
        upstream_timeout_ms: cfg.upstream_timeout_ms,
        upstream_retries: cfg.upstream_retries,
        unhealthy_backoff_ms: cfg.unhealthy_backoff_ms,
        upstream_score_rtt_weight: copy_decimal(&cfg.upstream_score_rtt_weight),
        upstream_score_failure_weight: copy_decimal(&cfg.upstream_score_failure_weight),
        upstream_score_success_weight: copy_decimal(&cfg.upstream_score_success_weight),
        dnssec_enabled: cfg.dnssec.enabled,
        dnssec_use_builtin_trust_anchors: cfg.dnssec.use_builtin_trust_anchors,
        dnssec_trust_anchor_files: copy_texts(&cfg.dnssec.trust_anchor_files),
        health_check_enabled: cfg.health_check.enabled,
        health_check_mode: cfg.health_check.mode.clone(),
        health_check_port: cfg.health_check.port,
        health_check_http_path: cfg.health_check.http_path.clone(),
        health_check_http_host_header: copy_optional_text(&cfg.health_check.http_host_header),
        health_check_interval_secs: cfg.health_check.interval_secs,
        health_check_timeout_ms: cfg.health_check.timeout_ms,
        health_check_max_parallel: cfg.health_check.max_parallel,
        health_check_failure_threshold: cfg.health_check.failure_threshold,
        health_check_success_threshold: cfg.health_check.success_threshold,
        health_check_all_unhealthy_log_file: cfg.health_check.all_unhealthy_log_file.clone(),
        health_check_notify_webhook: copy_optional_text(&cfg.health_check.notify_webhook),
        health_check_probe_tls_insecure_skip_verify: cfg.health_check.probe_tls_insecure_skip_verify,
        health_check_webhook_tls_insecure_skip_verify: cfg.health_check.webhook_tls_insecure_skip_verify,
        health_check_notify_webhook_retries: cfg.health_check.notify_webhook_retries,
        health_check_notify_webhook_backoff_ms: cfg.health_check.notify_webhook_backoff_ms,
        authoritative_sources: copy_sources(&cfg.authoritative_sources),
        prewarm_delegation_zones: copy_prewarm_zones(&cfg.prewarm_delegation_zones),
    }
}

/// The settings in their sections.
pub fn build_config_sections(cfg: &AppConfig) -> (s: ConfigSectionsPayload)
    ensures
        shows(*cfg, s),
{
    let views = build_effective_views(cfg);
    let i = find_view(&views, "default");
    proof {
        lemma_default_view(
            types::dns_views(cfg.views@),
            types::record_views(cfg.static_records@),
        );
        assert(types::dns_views(views@)[i as int] == views@[i as int]@);
    }
    let static_records = copy_records(&views[i].static_records);
    ConfigSectionsPayload {
        basic: basic_section(cfg),
        resolver: resolver_section(cfg),
        cache: cache_section(cfg),
        transport: transport_section(cfg),
        logging: logging_section(cfg),
        static_data: StaticDataSection { static_records },
        security: security_section(cfg),
        advanced: advanced_section(cfg),
    }
}

} // verus!
