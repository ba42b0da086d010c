//! What holds of the sections of the settings: the settings that they show are the ones that are
//! written back, each under its own name.
use crate::admin::overview;
use crate::admin::sections;
use crate::admin::sections::ConfigSectionsPayload;
use crate::admin::values;
use crate::config::types;
use crate::config::types::AppConfig;
use crate::config::types::IterativeAddressFamily;
use crate::config::types::NsHostnameResolveMode;
use crate::text;
use crate::toml_doc;
use crate::toml_doc::TomlV;
use vstd::prelude::*;

verus! {

/// Whether a table has a value under a key.
pub open spec fn has(t: toml_doc::TableV, key: Seq<char>, value: TomlV) -> bool {
    t.contains((key, value))
}

proof fn lemma_has(t: toml_doc::TableV, i: int)
    requires
        0 <= i < t.len(),
    ensures
        has(t, t[i].0, t[i].1),
{
    assert(t[i] == (t[i].0, t[i].1));
}

/// The addresses and the token of the server are written under their own names.
pub proof fn lemma_basic_settings(cfg: AppConfig, s: ConfigSectionsPayload)
    requires
        overview::shows(cfg, s),
    ensures
        ({
            let t = sections::basic_entries(s.basic);
            &&& has(t, "udp_listen"@, TomlV::Str(cfg.udp_listen@))
            &&& has(t, "tcp_listen"@, TomlV::Str(cfg.tcp_listen@))
            &&& has(t, "admin_listen"@, TomlV::Str(cfg.admin_listen@))
            &&& has(t, "control_listen"@, TomlV::Str(cfg.control_listen@))
            &&& has(t, "control_token"@, TomlV::Str(
                    match cfg.control_token {
                        Some(token) => token@,
                        None => Seq::empty(),
                    },
                ))
            &&& t.len() == 5
        }),
{
    let t = sections::basic_entries(s.basic);
    reveal_strlit("");
    assert(""@ =~= Seq::empty());
    lemma_has(t, 0);
    lemma_has(t, 1);
    lemma_has(t, 2);
    lemma_has(t, 3);
    lemma_has(t, 4);
}

/// The settings of resolution are written under their own names.
pub proof fn lemma_resolver_settings(cfg: AppConfig, s: ConfigSectionsPayload)
    requires
        overview::shows(cfg, s),
    ensures
        ({
            let t = sections::resolver_entries(s.resolver);
            &&& has(t, "resolve_mode"@, TomlV::Str(cfg.resolve_mode@))
            &&& has(t, "upstreams"@, values::texts_toml(text::views(cfg.upstreams@)))
            &&& has(t, "root_servers"@, values::texts_toml(text::views(cfg.root_servers@)))
            &&& has(t, "iterative_max_depth"@, TomlV::Int(cfg.iterative_max_depth as i64))
            &&& has(t, "iterative_timeout_ms"@, TomlV::Int(cfg.iterative_timeout_ms as i64))
            &&& has(t, "iterative_fallback_to_forwarder"@, TomlV::Bool(cfg.iterative_fallback_to_forwarder))
            &&& t.len() == 6
        }),
{
    let t = sections::resolver_entries(s.resolver);
    lemma_has(t, 0);
    lemma_has(t, 1);
    lemma_has(t, 2);
    lemma_has(t, 3);
    lemma_has(t, 4);
    lemma_has(t, 5);
}

/// The settings of the cache are written under their own names.
pub proof fn lemma_cache_settings(cfg: AppConfig, s: ConfigSectionsPayload)
    requires
        overview::shows(cfg, s),
    ensures
        ({
            let t = sections::cache_entries(s.cache);
            &&& has(t, "response_cache_capacity"@, TomlV::Int(cfg.response_cache_capacity as i64))
            &&& has(t, "cache_ttl_secs"@, TomlV::Int(cfg.cache_ttl_secs as i64))
            &&& has(t, "freeze_cache_ttl_decay"@, TomlV::Bool(cfg.freeze_cache_ttl_decay))
            &&& has(t, "prefetch_budget_per_window"@, TomlV::Int(cfg.prefetch_budget_per_window as i64))
            &&& has(t, "prefetch_window_secs"@, TomlV::Int(cfg.prefetch_window_secs as i64))
            &&& has(t, "prefetch_ttl_trigger_secs"@, TomlV::Int(cfg.prefetch_ttl_trigger_secs as i64))
            &&& has(t, "prefetch_popularity_threshold"@, TomlV::Int(cfg.prefetch_popularity_threshold as i64))
            &&& t.len() == 7
        }),
{
    let t = sections::cache_entries(s.cache);
    lemma_has(t, 0);
    lemma_has(t, 1);
    lemma_has(t, 2);
    lemma_has(t, 3);
    lemma_has(t, 4);
    lemma_has(t, 5);
    lemma_has(t, 6);
}

/// The settings of DNS over TLS are written under their own names.
pub proof fn lemma_dot_settings(cfg: AppConfig, s: ConfigSectionsPayload)
    requires
        overview::shows(cfg, s),
    ensures
        ({
            let t = sections::dot_entries(s.transport);
            &&& has(t, "enabled"@, TomlV::Bool(cfg.dot.enabled))
            &&& has(t, "listen"@, TomlV::Str(cfg.dot.listen@))
            &&& has(t, "cert_file"@, TomlV::Str(cfg.dot.cert_file@))
            &&& has(t, "key_file"@, TomlV::Str(cfg.dot.key_file@))
            &&& t.len() == 4
        }),
{
    let t = sections::dot_entries(s.transport);
    lemma_has(t, 0);
    lemma_has(t, 1);
    lemma_has(t, 2);
    lemma_has(t, 3);
}

/// The settings of DNS over HTTPS are written under their own names.
pub proof fn lemma_doh_settings(cfg: AppConfig, s: ConfigSectionsPayload)
    requires
        overview::shows(cfg, s),
    ensures
        ({
            let t = sections::doh_entries(s.transport);
            &&& has(t, "enabled"@, TomlV::Bool(cfg.doh.enabled))
            &&& has(t, "listen"@, TomlV::Str(cfg.doh.listen@))
            &&& t.len() == 2
        }),
{
    let t = sections::doh_entries(s.transport);
    lemma_has(t, 0);
    lemma_has(t, 1);
}

/// The settings of logging are written under their own names.
pub proof fn lemma_logging_settings(cfg: AppConfig, s: ConfigSectionsPayload)
    requires
        overview::shows(cfg, s),
    ensures
        ({
            let t = sections::logging_entries(s.logging);
            &&& has(t, "enabled"@, TomlV::Bool(cfg.logging.enabled))
            &&& has(t, "console"@, TomlV::Bool(cfg.logging.console))
            &&& has(t, "directory"@, TomlV::Str(cfg.logging.directory@))
            &&& has(t, "rotation"@, TomlV::Str(cfg.logging.rotation@))
            &&& has(t, "format"@, TomlV::Str(cfg.logging.format@))
            &&& has(t, "query_level"@, TomlV::Str(cfg.logging.query_level@))
            &&& has(t, "response_level"@, TomlV::Str(cfg.logging.response_level@))
            &&& has(t, "general_level"@, TomlV::Str(cfg.logging.general_level@))
            &&& has(t, "trace_query_domains"@, values::texts_toml(text::views(cfg.logging.trace_query_domains@)))
            &&& t.len() == 9
        }),
{
    let t = sections::logging_entries(s.logging);
    lemma_has(t, 0);
    lemma_has(t, 1);
    lemma_has(t, 2);
    lemma_has(t, 3);
    lemma_has(t, 4);
    lemma_has(t, 5);
    lemma_has(t, 6);
    lemma_has(t, 7);
    lemma_has(t, 8);
}

/// The switches and limits of resolution are written under their own names.
pub proof fn lemma_resolution_settings(cfg: AppConfig, s: ConfigSectionsPayload)
    requires
        overview::shows(cfg, s),
    ensures
        ({
            let t = sections::resolution_entries(s.advanced);
            &&& has(t, "enable_recursion"@, TomlV::Bool(cfg.enable_recursion))
            &&& has(t, "minimal_response"@, TomlV::Bool(cfg.minimal_response))
            &&& has(t, "iterative_address_family"@, TomlV::Str(overview::family_name(cfg.iterative_address_family)))
            &&& has(t, "cname_chain_max_depth"@, TomlV::Int(cfg.cname_chain_max_depth as i64))
            &&& has(t, "follow_cname_chain"@, TomlV::Bool(cfg.follow_cname_chain))
            &&& has(t, "static_cname_expand_for_address_queries"@, TomlV::Bool(cfg.static_cname_expand_for_address_queries))
            &&& has(t, "iterative_cname_bridge_fallback_to_recursive"@, TomlV::Bool(cfg.iterative_cname_bridge_fallback_to_recursive))
            &&& has(t, "iterative_per_hop_timeout_ms"@, TomlV::Int(cfg.iterative_per_hop_timeout_ms as i64))
            &&& t.len() == 8
        }),
{
    let t = sections::resolution_entries(s.advanced);
    lemma_has(t, 0);
    lemma_has(t, 1);
    lemma_has(t, 2);
    lemma_has(t, 3);
    lemma_has(t, 4);
    lemma_has(t, 5);
    lemma_has(t, 6);
    lemma_has(t, 7);
}

/// The settings of name servers and delegations are written under their own names.
pub proof fn lemma_name_server_settings(cfg: AppConfig, s: ConfigSectionsPayload)
    requires
        overview::shows(cfg, s),
    ensures
        ({
            let t = sections::name_server_entries(s.advanced);
            &&& has(t, "ns_host_cache_capacity"@, TomlV::Int(cfg.ns_host_cache_capacity as i64))
            &&& has(t, "ns_host_cache_ttl_secs"@, TomlV::Int(cfg.ns_host_cache_ttl_secs as i64))
            &&& has(t, "ns_host_cache_cleanup_interval_ms"@, TomlV::Int(cfg.ns_host_cache_cleanup_interval_ms as i64))
            &&& has(t, "enable_delegation_cache"@, TomlV::Bool(cfg.enable_delegation_cache))
            &&& has(t, "strict_bailiwick"@, TomlV::Bool(cfg.strict_bailiwick))
            &&& has(t, "delegation_cache_capacity"@, TomlV::Int(cfg.delegation_cache_capacity as i64))
            &&& has(t, "delegation_cache_ttl_cap_secs"@, TomlV::Int(cfg.delegation_cache_ttl_cap_secs as i64))
            &&& has(t, "delegation_cache_cleanup_interval_ms"@, TomlV::Int(cfg.delegation_cache_cleanup_interval_ms as i64))
            &&& has(t, "delegation_failure_backoff_ms"@, TomlV::Int(cfg.delegation_failure_backoff_ms as i64))
            &&& has(t, "ns_hostname_max_concurrent"@, TomlV::Int(cfg.ns_hostname_max_concurrent as i64))
            &&& has(t, "ns_hostname_enough_endpoints"@, TomlV::Int(cfg.ns_hostname_enough_endpoints as i64))
            &&& has(t, "ns_hostname_per_resolve_ms"@, TomlV::Int(cfg.ns_hostname_per_resolve_ms as i64))
            &&& has(t, "ns_hostname_resolve_mode"@, TomlV::Str(overview::resolve_mode_name(cfg.ns_hostname_resolve_mode)))
            &&& t.len() == 13
        }),
{
    let t = sections::name_server_entries(s.advanced);
    lemma_has(t, 0);
    lemma_has(t, 1);
    lemma_has(t, 2);
    lemma_has(t, 3);
    lemma_has(t, 4);
    lemma_has(t, 5);
    lemma_has(t, 6);
    lemma_has(t, 7);
    lemma_has(t, 8);
    lemma_has(t, 9);
    lemma_has(t, 10);
    lemma_has(t, 11);
    lemma_has(t, 12);
}

/// The fine tuning of the cache is written under its own names.
pub proof fn lemma_cache_tuning_settings(cfg: AppConfig, s: ConfigSectionsPayload)
    requires
        overview::shows(cfg, s),
    ensures
        ({
            let t = sections::cache_tuning_entries(s.advanced);
            &&& has(t, "cache_hot_capacity"@, TomlV::Int(cfg.cache_hot_capacity as i64))
            &&& has(t, "freeze_cache_domains"@, values::texts_toml(text::views(cfg.freeze_cache_domains@)))
            &&& has(t, "adaptive_cache_enabled"@, TomlV::Bool(cfg.adaptive_cache_enabled))
            &&& has(t, "adaptive_cache_min_capacity"@, TomlV::Int(cfg.adaptive_cache_min_capacity as i64))
            &&& has(t, "adaptive_cache_max_capacity"@, TomlV::Int(cfg.adaptive_cache_max_capacity as i64))
            &&& has(t, "adaptive_cache_step"@, TomlV::Int(cfg.adaptive_cache_step as i64))
            &&& has(t, "adaptive_cache_window_secs"@, TomlV::Int(cfg.adaptive_cache_window_secs as i64))
            &&& has(t, "adaptive_cache_high_miss_ratio"@, TomlV::Float(cfg.adaptive_cache_high_miss_ratio.text@))
            &&& has(t, "adaptive_cache_low_miss_ratio"@, TomlV::Float(cfg.adaptive_cache_low_miss_ratio.text@))
            &&& has(t, "stats_window_secs"@, TomlV::Int(cfg.stats_window_secs as i64))
            &&& has(t, "stats_short_window_secs"@, TomlV::Int(cfg.stats_short_window_secs as i64))
            &&& has(t, "topn_stats_enabled"@, TomlV::Bool(cfg.topn_stats_enabled))
            &&& t.len() == 12
        }),
{
    let t = sections::cache_tuning_entries(s.advanced);
    lemma_has(t, 0);
    lemma_has(t, 1);
    lemma_has(t, 2);
    lemma_has(t, 3);
    lemma_has(t, 4);
    lemma_has(t, 5);
    lemma_has(t, 6);
    lemma_has(t, 7);
    lemma_has(t, 8);
    lemma_has(t, 9);
    lemma_has(t, 10);
    lemma_has(t, 11);
}

/// The fine tuning of the upstreams is written under its own names.
pub proof fn lemma_upstream_tuning_settings(cfg: AppConfig, s: ConfigSectionsPayload)
    requires
        overview::shows(cfg, s),
    ensures
        ({
            let t = sections::upstream_tuning_entries(s.advanced);
            &&& has(t, "upstream_timeout_ms"@, TomlV::Int(cfg.upstream_timeout_ms as i64))
            &&& has(t, "upstream_retries"@, TomlV::Int(cfg.upstream_retries as i64))
            &&& has(t, "unhealthy_backoff_ms"@, TomlV::Int(cfg.unhealthy_backoff_ms as i64))
            &&& has(t, "upstream_score_rtt_weight"@, TomlV::Float(cfg.upstream_score_rtt_weight.text@))
            &&& has(t, "upstream_score_failure_weight"@, TomlV::Float(cfg.upstream_score_failure_weight.text@))
            &&& has(t, "upstream_score_success_weight"@, TomlV::Float(cfg.upstream_score_success_weight.text@))
            &&& t.len() == 6
        }),
{
    let t = sections::upstream_tuning_entries(s.advanced);
    lemma_has(t, 0);
    lemma_has(t, 1);
    lemma_has(t, 2);
    lemma_has(t, 3);
    lemma_has(t, 4);
    lemma_has(t, 5);
}

/// The settings of validation are written under their own names.
pub proof fn lemma_dnssec_settings(cfg: AppConfig, s: ConfigSectionsPayload)
    requires
        overview::shows(cfg, s),
    ensures
        ({
            let t = sections::dnssec_entries(s.advanced);
            &&& has(t, "enabled"@, TomlV::Bool(cfg.dnssec.enabled))
            &&& has(t, "use_builtin_trust_anchors"@, TomlV::Bool(cfg.dnssec.use_builtin_trust_anchors))
            &&& has(t, "trust_anchor_files"@, values::texts_toml(text::views(cfg.dnssec.trust_anchor_files@)))
            &&& t.len() == 3
        }),
{
    let t = sections::dnssec_entries(s.advanced);
    lemma_has(t, 0);
    lemma_has(t, 1);
    lemma_has(t, 2);
}

/// How the addresses are checked is written under its own names.
pub proof fn lemma_probe_settings(cfg: AppConfig, s: ConfigSectionsPayload)
    requires
        overview::shows(cfg, s),
    ensures
        ({
            let t = sections::probe_entries(s.advanced);
            &&& has(t, "enabled"@, TomlV::Bool(cfg.health_check.enabled))
            &&& has(t, "mode"@, TomlV::Str(cfg.health_check.mode@))
            &&& has(t, "port"@, TomlV::Int(cfg.health_check.port as i64))
            &&& has(t, "http_path"@, TomlV::Str(cfg.health_check.http_path@))
            &&& t.len() == 4
        }),
{
    let t = sections::probe_entries(s.advanced);
    lemma_has(t, 0);
    lemma_has(t, 1);
    lemma_has(t, 2);
    lemma_has(t, 3);
}

/// When the addresses are checked is written under its own names.
pub proof fn lemma_threshold_settings(cfg: AppConfig, s: ConfigSectionsPayload)
    requires
        overview::shows(cfg, s),
    ensures
        ({
            let t = sections::threshold_entries(s.advanced);
            &&& has(t, "interval_secs"@, TomlV::Int(cfg.health_check.interval_secs as i64))
            &&& has(t, "timeout_ms"@, TomlV::Int(cfg.health_check.timeout_ms as i64))
            &&& has(t, "max_parallel"@, TomlV::Int(cfg.health_check.max_parallel as i64))
            &&& has(t, "failure_threshold"@, TomlV::Int(cfg.health_check.failure_threshold as i64))
            &&& has(t, "success_threshold"@, TomlV::Int(cfg.health_check.success_threshold as i64))
            &&& has(t, "all_unhealthy_log_file"@, TomlV::Str(cfg.health_check.all_unhealthy_log_file@))
            &&& t.len() == 6
        }),
{
    let t = sections::threshold_entries(s.advanced);
    lemma_has(t, 0);
    lemma_has(t, 1);
    lemma_has(t, 2);
    lemma_has(t, 3);
    lemma_has(t, 4);
    lemma_has(t, 5);
}

/// Who is told of the checks is written under its own names.
pub proof fn lemma_notify_settings(cfg: AppConfig, s: ConfigSectionsPayload)
    requires
        overview::shows(cfg, s),
    ensures
        ({
            let t = sections::notify_entries(s.advanced);
            &&& has(t, "probe_tls_insecure_skip_verify"@, TomlV::Bool(cfg.health_check.probe_tls_insecure_skip_verify))
            &&& has(t, "webhook_tls_insecure_skip_verify"@, TomlV::Bool(cfg.health_check.webhook_tls_insecure_skip_verify))
            &&& has(t, "notify_webhook_retries"@, TomlV::Int(cfg.health_check.notify_webhook_retries as i64))
            &&& has(t, "notify_webhook_backoff_ms"@, TomlV::Int(cfg.health_check.notify_webhook_backoff_ms as i64))
            &&& t.len() == 4
        }),
{
    let t = sections::notify_entries(s.advanced);
    lemma_has(t, 0);
    lemma_has(t, 1);
    lemma_has(t, 2);
    lemma_has(t, 3);
}

/// The settings of access are written under their own names; records and blocked domains are kept
/// in files, and the lists beside those files are empty.
pub proof fn lemma_access_settings(cfg: AppConfig, s: ConfigSectionsPayload)
    requires
        overview::shows(cfg, s),
    ensures
        ({
            let t = sections::security_entries(s.security);
            &&& has(t, "allow_clients"@, values::texts_toml(text::views(cfg.allow_clients@)))
            &&& has(t, "rate_limit_per_second"@, TomlV::Int(cfg.rate_limit_per_second as i64))
            &&& has(t, "deny_any_queries"@, TomlV::Bool(cfg.deny_any_queries))
            &&& has(t, "static_records"@, TomlV::Array(Seq::empty()))
            &&& has(t, "blocked_domains"@, TomlV::Array(Seq::empty()))
            &&& has(t, "static_records_file"@, TomlV::Str("config/default/static_records.toml"@))
            &&& has(t, "blocked_domains_file"@, TomlV::Str("config/default/blocked_domains.toml"@))
        }),
{
    let t = sections::security_entries(s.security);
    lemma_has(t, 0);
    lemma_has(t, 1);
    lemma_has(t, 2);
    lemma_has(t, 3);
    lemma_has(t, 4);
    lemma_has(t, 5);
    lemma_has(t, 6);
}

/// Tables and lists of settings stand under their own names.
pub proof fn lemma_nested_settings(cfg: AppConfig, s: ConfigSectionsPayload)
    requires
        overview::shows(cfg, s),
    ensures
        ({
            let t = sections::table_entries(s);
            let n = sections::nested_entries(s.advanced);
            &&& has(t, "dot"@, TomlV::Table(sections::dot_entries(s.transport)))
            &&& has(t, "doh"@, TomlV::Table(sections::doh_entries(s.transport)))
            &&& has(t, "logging"@, TomlV::Table(sections::logging_entries(s.logging)))
            &&& has(n, "dnssec"@, TomlV::Table(sections::dnssec_entries(s.advanced)))
            &&& has(n, "health_check"@, TomlV::Table(sections::health_check_entries(s.advanced)))
            &&& has(
                n,
                "authoritative_sources"@,
                values::sources_toml(types::source_views(cfg.authoritative_sources@)),
            )
            &&& has(
                n,
                "prewarm_delegation_zones"@,
                sections::prewarm_list_toml(types::prewarm_views(cfg.prewarm_delegation_zones@)),
            )
        }),
{
    let t = sections::table_entries(s);
    lemma_has(t, 0);
    lemma_has(t, 1);
    lemma_has(t, 2);
    let n = sections::nested_entries(s.advanced);
    lemma_has(n, 0);
    lemma_has(n, 1);
    lemma_has(n, 2);
    lemma_has(n, 3);
}

/// The host and the web hook of the health checks are written where they say something, and are
/// left out otherwise.
pub proof fn lemma_given_settings(cfg: AppConfig, s: ConfigSectionsPayload)
    requires
        overview::shows(cfg, s),
    ensures
        ({
            let t = sections::health_check_entries(s.advanced);
            let host = cfg.health_check.http_host_header;
            let hook = cfg.health_check.notify_webhook;
            let given: int = if host is Some && text::trim(host->0@).len() > 0 {
                1
            } else {
                0
            };
            let told: int = if hook is Some && text::trim(hook->0@).len() > 0 {
                1
            } else {
                0
            };
            &&& t.len() == 14 + given + told
            &&& given == 1 ==> t[4] == ("http_host_header"@, TomlV::Str(host->0@))
            &&& told == 1 ==> t[10 + given] == ("notify_webhook"@, TomlV::Str(hook->0@))
        }),
{
}

/// An address family and a way to resolve have names of their own.
pub proof fn lemma_names_of_modes(
    a: IterativeAddressFamily,
    b: IterativeAddressFamily,
    c: NsHostnameResolveMode,
    d: NsHostnameResolveMode,
)
    ensures
        overview::family_name(a) == overview::family_name(b) ==> a == b,
        overview::resolve_mode_name(c) == overview::resolve_mode_name(d) ==> c == d,
        overview::family_name(IterativeAddressFamily::DualStack) == "dual_stack"@,
        overview::family_name(IterativeAddressFamily::Ipv6) == "ipv6"@,
        overview::resolve_mode_name(NsHostnameResolveMode::PureIterative) == "pure_iterative"@,
{
    reveal_strlit("dual_stack");
    reveal_strlit("ipv4");
    reveal_strlit("ipv6");
    reveal_strlit("bootstrap_recursive");
    reveal_strlit("pure_iterative");
    assert("dual_stack"@.len() == 10 && "ipv4"@.len() == 4 && "ipv6"@.len() == 4);
    assert("ipv4"@[3] == '4' && "ipv6"@[3] == '6');
    assert("bootstrap_recursive"@.len() == 19 && "pure_iterative"@.len() == 14);
}

/// Every setting of every section is among those that are written.
pub proof fn lemma_all_sections_are_written(s: ConfigSectionsPayload, e: (Seq<char>, TomlV))
    requires
        sections::basic_entries(s.basic).contains(e) || sections::resolver_entries(
            s.resolver,
        ).contains(e) || sections::cache_entries(s.cache).contains(e) || sections::table_entries(
            s,
        ).contains(e) || sections::security_entries(s.security).contains(e)
            || sections::resolution_entries(s.advanced).contains(e)
            || sections::name_server_entries(s.advanced).contains(e)
            || sections::cache_tuning_entries(s.advanced).contains(e)
            || sections::upstream_tuning_entries(s.advanced).contains(e)
            || sections::nested_entries(s.advanced).contains(e),
    ensures
        sections::section_entries(s).contains(e),
{
    let a = sections::basic_entries(s.basic);
    let b = a + sections::resolver_entries(s.resolver);
    let c = b + sections::cache_entries(s.cache);
    let d = c + sections::table_entries(s);
    let f = d + sections::security_entries(s.security);
    let g = f + sections::resolution_entries(s.advanced);
    let h = g + sections::name_server_entries(s.advanced);
    let i = h + sections::cache_tuning_entries(s.advanced);
    let j = i + sections::upstream_tuning_entries(s.advanced);
    lemma_in_sum(a, sections::resolver_entries(s.resolver), e);
    lemma_in_sum(b, sections::cache_entries(s.cache), e);
    lemma_in_sum(c, sections::table_entries(s), e);
    lemma_in_sum(d, sections::security_entries(s.security), e);
    lemma_in_sum(f, sections::resolution_entries(s.advanced), e);
    lemma_in_sum(g, sections::name_server_entries(s.advanced), e);
    lemma_in_sum(h, sections::cache_tuning_entries(s.advanced), e);
    lemma_in_sum(i, sections::upstream_tuning_entries(s.advanced), e);
    lemma_in_sum(j, sections::nested_entries(s.advanced), e);
}

proof fn lemma_in_sum(a: toml_doc::TableV, b: toml_doc::TableV, e: (Seq<char>, TomlV))
    ensures
        a.contains(e) || b.contains(e) ==> (a + b).contains(e),
{
    if a.contains(e) {
        let i = choose|i: int| 0 <= i < a.len() && a[i] == e;
        assert((a + b)[i] == e);
    } else if b.contains(e) {
        let i = choose|i: int| 0 <= i < b.len() && b[i] == e;
        assert((a + b)[a.len() + i] == e);
    }
}

} // verus!
