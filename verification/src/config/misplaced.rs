//! Settings that stand in the wrong table of the configuration file.
//!
//! A setting of the top level that follows a table header belongs to that table. Such a setting is
//! looked for everywhere in the file where the top level does not have it.
use crate::config::rules::ConfigError;
use crate::text;
use crate::toml_doc;
use crate::toml_doc::{copy_value, find_nested_key, get, parse_document, TomlValue};
use vstd::prelude::*;

verus! {

/// A setting of the top level that was found elsewhere.
pub struct MisplacedField {
    pub key: String,
    pub value: TomlValue,
}

pub ghost struct MisplacedV {
    pub key: Seq<char>,
    pub value: toml_doc::TomlV,
}

pub open spec fn field_views(list: Seq<MisplacedField>) -> Seq<MisplacedV> {
    list.map_values(|f: MisplacedField| MisplacedV { key: f.key@, value: f.value@ })
}

pub open spec fn listen_keys() -> Seq<Seq<char>> {
    seq![
        "udp_listen"@,
        "tcp_listen"@,
        "admin_listen"@,
        "control_listen"@,
        "control_token"@,
        "resolve_mode"@,
        "iterative_address_family"@,
        "root_servers"@,
        "iterative_max_depth"@,
        "iterative_timeout_ms"@,
        "cname_chain_max_depth"@,
        "follow_cname_chain"@,
        "static_cname_expand_for_address_queries"@,
        "iterative_fallback_to_forwarder"@,
        "iterative_cname_bridge_fallback_to_recursive"@,
    ]
}

pub open spec fn cache_keys() -> Seq<Seq<char>> {
    seq![
        "cache_hot_capacity"@,
        "response_cache_capacity"@,
        "prefetch_budget_per_window"@,
        "prefetch_window_secs"@,
        "prefetch_ttl_trigger_secs"@,
        "prefetch_popularity_threshold"@,
        "cache_ttl_secs"@,
        "freeze_cache_ttl_decay"@,
        "freeze_cache_domains"@,
    ]
}

pub open spec fn delegation_keys() -> Seq<Seq<char>> {
    seq![
        "ns_host_cache_capacity"@,
        "ns_host_cache_ttl_secs"@,
        "ns_host_cache_cleanup_interval_ms"@,
        "enable_delegation_cache"@,
        "strict_bailiwick"@,
        "delegation_cache_capacity"@,
        "delegation_cache_ttl_cap_secs"@,
        "delegation_cache_cleanup_interval_ms"@,
        "delegation_failure_backoff_ms"@,
        "stats_window_secs"@,
        "stats_short_window_secs"@,
        "topn_stats_enabled"@,
    ]
}

pub open spec fn upstream_keys() -> Seq<Seq<char>> {
    seq![
        "upstreams"@,
        "upstream_timeout_ms"@,
        "upstream_retries"@,
        "unhealthy_backoff_ms"@,
        "upstream_score_rtt_weight"@,
        "upstream_score_failure_weight"@,
        "upstream_score_success_weight"@,
        "adaptive_cache_enabled"@,
        "adaptive_cache_min_capacity"@,
        "adaptive_cache_max_capacity"@,
        "adaptive_cache_step"@,
        "adaptive_cache_window_secs"@,
        "adaptive_cache_high_miss_ratio"@,
        "adaptive_cache_low_miss_ratio"@,
    ]
}

pub open spec fn data_keys() -> Seq<Seq<char>> {
    seq![
        "allow_clients"@,
        "blocked_domains"@,
        "blocked_domains_file"@,
        "views"@,
        "rate_limit_per_second"@,
        "deny_any_queries"@,
        "static_records_file"@,
        "static_records"@,
        "health_check"@,
        "authoritative_sources"@,
    ]
}

pub open spec fn resolver_keys() -> Seq<Seq<char>> {
    seq![
        "ns_hostname_max_concurrent"@,
        "ns_hostname_enough_endpoints"@,
        "ns_hostname_per_resolve_ms"@,
        "ns_hostname_resolve_mode"@,
        "iterative_per_hop_timeout_ms"@,
        "prewarm_delegation_zones"@,
        "authoritative_zones_file"@,
        "authoritative_zones"@,
    ]
}

/// The settings that are looked for, in the order in which they are taken over.
pub open spec fn recovered_keys() -> Seq<Seq<char>> {
    listen_keys() + cache_keys() + delegation_keys() + upstream_keys() + data_keys() + resolver_keys()
}

/// A setting that the top level lacks and the file has elsewhere.
pub open spec fn misplaced_field(document: toml_doc::TomlV, key: Seq<char>) -> Option<MisplacedV> {
    match document {
        toml_doc::TomlV::Table(root) => match toml_doc::find_nested(document, key) {
            Some(value) if toml_doc::lookup(root, key) is None => Some(MisplacedV { key, value }),
            _ => None,
        },
        _ => None,
    }
}

/// All such settings among `keys`, in that order.
pub open spec fn misplaced(document: toml_doc::TomlV, keys: Seq<Seq<char>>) -> Seq<MisplacedV> {
    keys.filter_map(|k: Seq<char>| misplaced_field(document, k))
}

fn push_listen_keys(keys: &mut Vec<String>)
    ensures
        text::views(final(keys)@) == text::views(old(keys)@) + listen_keys(),
{
    keys.push("udp_listen".to_owned());
    keys.push("tcp_listen".to_owned());
    keys.push("admin_listen".to_owned());
    keys.push("control_listen".to_owned());
    keys.push("control_token".to_owned());
    keys.push("resolve_mode".to_owned());
    keys.push("iterative_address_family".to_owned());
    keys.push("root_servers".to_owned());
    keys.push("iterative_max_depth".to_owned());
    keys.push("iterative_timeout_ms".to_owned());
    keys.push("cname_chain_max_depth".to_owned());
    keys.push("follow_cname_chain".to_owned());
    keys.push("static_cname_expand_for_address_queries".to_owned());
    keys.push("iterative_fallback_to_forwarder".to_owned());
    keys.push("iterative_cname_bridge_fallback_to_recursive".to_owned());
    assert(text::views(keys@) =~= text::views(old(keys)@) + listen_keys());
}

fn push_cache_keys(keys: &mut Vec<String>)
    ensures
        text::views(final(keys)@) == text::views(old(keys)@) + cache_keys(),
{
    keys.push("cache_hot_capacity".to_owned());
    keys.push("response_cache_capacity".to_owned());
    keys.push("prefetch_budget_per_window".to_owned());
    keys.push("prefetch_window_secs".to_owned());
    keys.push("prefetch_ttl_trigger_secs".to_owned());
    keys.push("prefetch_popularity_threshold".to_owned());
    keys.push("cache_ttl_secs".to_owned());
    keys.push("freeze_cache_ttl_decay".to_owned());
    keys.push("freeze_cache_domains".to_owned());
    assert(text::views(keys@) =~= text::views(old(keys)@) + cache_keys());
}

fn push_delegation_keys(keys: &mut Vec<String>)
    ensures
        text::views(final(keys)@) == text::views(old(keys)@) + delegation_keys(),
{
    keys.push("ns_host_cache_capacity".to_owned());
    keys.push("ns_host_cache_ttl_secs".to_owned());
    keys.push("ns_host_cache_cleanup_interval_ms".to_owned());
    keys.push("enable_delegation_cache".to_owned());
    keys.push("strict_bailiwick".to_owned());
    keys.push("delegation_cache_capacity".to_owned());
    keys.push("delegation_cache_ttl_cap_secs".to_owned());
    keys.push("delegation_cache_cleanup_interval_ms".to_owned());
    keys.push("delegation_failure_backoff_ms".to_owned());
    keys.push("stats_window_secs".to_owned());
    keys.push("stats_short_window_secs".to_owned());
    keys.push("topn_stats_enabled".to_owned());
    assert(text::views(keys@) =~= text::views(old(keys)@) + delegation_keys());
}

fn push_upstream_keys(keys: &mut Vec<String>)
    ensures
        text::views(final(keys)@) == text::views(old(keys)@) + upstream_keys(),
{
    keys.push("upstreams".to_owned());
    keys.push("upstream_timeout_ms".to_owned());
    keys.push("upstream_retries".to_owned());
    keys.push("unhealthy_backoff_ms".to_owned());
    keys.push("upstream_score_rtt_weight".to_owned());
    keys.push("upstream_score_failure_weight".to_owned());
    keys.push("upstream_score_success_weight".to_owned());
    keys.push("adaptive_cache_enabled".to_owned());
    keys.push("adaptive_cache_min_capacity".to_owned());
    keys.push("adaptive_cache_max_capacity".to_owned());
    keys.push("adaptive_cache_step".to_owned());
    keys.push("adaptive_cache_window_secs".to_owned());
    keys.push("adaptive_cache_high_miss_ratio".to_owned());
    keys.push("adaptive_cache_low_miss_ratio".to_owned());
    assert(text::views(keys@) =~= text::views(old(keys)@) + upstream_keys());
}

fn push_data_keys(keys: &mut Vec<String>)
    ensures
        text::views(final(keys)@) == text::views(old(keys)@) + data_keys(),
{
    keys.push("allow_clients".to_owned());
    keys.push("blocked_domains".to_owned());
    keys.push("blocked_domains_file".to_owned());
    keys.push("views".to_owned());
    keys.push("rate_limit_per_second".to_owned());
    keys.push("deny_any_queries".to_owned());
    keys.push("static_records_file".to_owned());
    keys.push("static_records".to_owned());
    keys.push("health_check".to_owned());
    keys.push("authoritative_sources".to_owned());
    assert(text::views(keys@) =~= text::views(old(keys)@) + data_keys());
}

fn push_resolver_keys(keys: &mut Vec<String>)
    ensures
        text::views(final(keys)@) == text::views(old(keys)@) + resolver_keys(),
{
    keys.push("ns_hostname_max_concurrent".to_owned());
    keys.push("ns_hostname_enough_endpoints".to_owned());
    keys.push("ns_hostname_per_resolve_ms".to_owned());
    keys.push("ns_hostname_resolve_mode".to_owned());
    keys.push("iterative_per_hop_timeout_ms".to_owned());
    keys.push("prewarm_delegation_zones".to_owned());
    keys.push("authoritative_zones_file".to_owned());
    keys.push("authoritative_zones".to_owned());
    assert(text::views(keys@) =~= text::views(old(keys)@) + resolver_keys());
}

/// The settings that are looked for, in the order in which they are taken over.
pub fn recoverable_keys() -> (r: Vec<String>)
    ensures
        text::views(r@) == recovered_keys(),
{
    let mut keys: Vec<String> = Vec::new();
    push_listen_keys(&mut keys);
    push_cache_keys(&mut keys);
    push_delegation_keys(&mut keys);
    push_upstream_keys(&mut keys);
    push_data_keys(&mut keys);
    push_resolver_keys(&mut keys);
    assert(text::views(keys@) =~= recovered_keys());
    keys
}

/// The settings of the top level that a document has elsewhere, in the order in which they are
/// taken over.
pub fn misplaced_fields(document: &TomlValue) -> (r: Vec<MisplacedField>)
    ensures
        field_views(r@) == misplaced(document@, recovered_keys()),
{
    let keys = recoverable_keys();
    let ghost all = recovered_keys();
    let ghost f = |k: Seq<char>| misplaced_field(document@, k);
    let mut out: Vec<MisplacedField> = Vec::new();
    let mut i: usize = 0;
    assert(all.take(0) =~= Seq::empty());
    assert(field_views(out@) =~= all.take(0).filter_map(f)) by {
        reveal(Seq::filter_map);
    }
    while i < keys.len()
        invariant
            i <= keys@.len(),
            all == text::views(keys@),
            f == (|k: Seq<char>| misplaced_field(document@, k)),
            field_views(out@) == all.take(i as int).filter_map(f),
        decreases keys@.len() - i,
    {
        let ghost before = field_views(out@);
        proof {
            all.lemma_filter_map_take_succ(f, i as int);
            assert(all[i as int] == keys@[i as int]@);
        }
        match document {
            TomlValue::Table(root) => {
                proof {
                    toml_doc::lemma_table_view(*root);
                }
                if get(root, keys[i].as_str()).is_none() {
                    if let Some(value) = find_nested_key(document, keys[i].as_str()) {
                        let field = MisplacedField {
                            key: keys[i].clone(),
                            value: copy_value(value),
                        };
                        out.push(field);
                        assert(field_views(out@) =~= before.push(
                            MisplacedV { key: field.key@, value: field.value@ },
                        ));
                    }
                }
            },
            _ => {},
        }
        i = i + 1;
    }
    assert(all.take(i as int) =~= all);
    out
}

/// Reads the configuration file and gives the settings of the top level that it has elsewhere.
pub fn load_misplaced_top_level_fields(raw: &str, config_path: &str) -> (r: Result<
    Vec<MisplacedField>,
    ConfigError,
>)
    ensures
        match toml_doc::toml_document(raw@) {
            Some(document) => r is Ok && field_views(r->Ok_0@) == misplaced(
                document,
                recovered_keys(),
            ),
            None => r is Err && r->Err_0.message@ == "failed to parse config file: "@
                + config_path@,
        },
{
    match parse_document(raw) {
        Ok(document) => Ok(misplaced_fields(&document)),
        Err(_) => Err(
            ConfigError { message: text::concat("failed to parse config file: ", config_path) },
        ),
    }
}

/// A setting is taken over from elsewhere only where the top level lacks it, and with the value
/// that the file has for it.
pub proof fn lemma_top_level_wins(root: toml_doc::TableV, keys: Seq<Seq<char>>, i: int)
    requires
        0 <= i < misplaced(toml_doc::TomlV::Table(root), keys).len(),
    ensures
        ({
            let document = toml_doc::TomlV::Table(root);
            let f = misplaced(document, keys)[i];
            &&& keys.contains(f.key)
            &&& toml_doc::lookup(root, f.key) is None
            &&& toml_doc::find_nested(document, f.key) == Some(f.value)
        }),
    decreases keys.len(),
{
    reveal(Seq::filter_map);
    let document = toml_doc::TomlV::Table(root);
    if keys.len() > 0 {
        let rest = keys.drop_last();
        let before = misplaced(document, rest);
        if i < before.len() {
            lemma_top_level_wins(root, rest, i);
            let f = before[i];
            let k = choose|k: int| 0 <= k < rest.len() && rest[k] == f.key;
            assert(keys[k] == f.key);
        } else {
            assert(keys[keys.len() - 1] == keys.last());
        }
    }
}

} // verus!
