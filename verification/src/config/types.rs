//! The settings as plain values, and their defaults.
use crate::decimal::Decimal;
use crate::health;
use crate::health::HealthCheckConfig;
use crate::text;
use vstd::prelude::*;

verus! {

/// A zone whose name servers are known before the first query.
#[derive(Debug, Clone)]
pub struct PreWarmZone {
    pub zone: String,
    /// Endpoints of name servers, `ip:port`.
    pub ns_endpoints: Vec<String>,
    /// Host names of name servers, resolved after the start.
    pub ns_hostnames: Vec<String>,
    pub ttl_secs: u64,
}

pub ghost struct PreWarmZoneV {
    pub zone: Seq<char>,
    pub ns_endpoints: Seq<Seq<char>>,
    pub ns_hostnames: Seq<Seq<char>>,
    pub ttl_secs: u64,
}

impl View for PreWarmZone {
    type V = PreWarmZoneV;

    open spec fn view(&self) -> PreWarmZoneV {
        PreWarmZoneV {
            zone: self.zone@,
            ns_endpoints: text::views(self.ns_endpoints@),
            ns_hostnames: text::views(self.ns_hostnames@),
            ttl_secs: self.ttl_secs,
        }
    }
}

pub open spec fn prewarm_views(list: Seq<PreWarmZone>) -> Seq<PreWarmZoneV> {
    list.map_values(|z: PreWarmZone| z@)
}

/// DNS over TLS.
#[derive(Debug, Clone)]
pub struct DotConfig {
    pub enabled: bool,
    pub listen: String,
    pub cert_file: String,
    pub key_file: String,
}

/// DNS over HTTPS.
#[derive(Debug, Clone)]
pub struct DohConfig {
    pub enabled: bool,
    pub listen: String,
}

#[derive(Debug, Clone)]
pub struct DnssecConfig {
    pub enabled: bool,
    pub use_builtin_trust_anchors: bool,
    pub trust_anchor_files: Vec<String>,
}

/// A record that the server answers by itself.
#[derive(Debug, Clone)]
pub struct StaticRecord {
    pub qname: String,
    pub qtype: String,
    pub answer: String,
    pub ttl: u32,
}

pub ghost struct StaticRecordV {
    pub qname: Seq<char>,
    pub qtype: Seq<char>,
    pub answer: Seq<char>,
    pub ttl: u32,
}

impl View for StaticRecord {
    type V = StaticRecordV;

    open spec fn view(&self) -> StaticRecordV {
        StaticRecordV {
            qname: self.qname@,
            qtype: self.qtype@,
            answer: self.answer@,
            ttl: self.ttl,
        }
    }
}

pub open spec fn record_views(list: Seq<StaticRecord>) -> Seq<StaticRecordV> {
    list.map_values(|r: StaticRecord| r@)
}

/// An address record of a view in its short form.
#[derive(Debug, Clone)]
pub struct ViewRecord {
    pub domain_name: String,
    pub ip: String,
}

pub ghost struct ViewRecordV {
    pub domain_name: Seq<char>,
    pub ip: Seq<char>,
}

impl View for ViewRecord {
    type V = ViewRecordV;

    open spec fn view(&self) -> ViewRecordV {
        ViewRecordV { domain_name: self.domain_name@, ip: self.ip@ }
    }
}

pub open spec fn short_record_views(list: Seq<ViewRecord>) -> Seq<ViewRecordV> {
    list.map_values(|r: ViewRecord| r@)
}

/// The start-of-authority data of a zone.
#[derive(Debug, Clone)]
pub struct ZoneSoa {
    pub mname: String,
    pub rname: String,
    pub serial: u32,
    pub refresh: u32,
    pub retry: u32,
    pub expire: u32,
    pub minimum_ttl: u32,
}

pub ghost struct ZoneSoaV {
    pub mname: Seq<char>,
    pub rname: Seq<char>,
    pub serial: u32,
    pub refresh: u32,
    pub retry: u32,
    pub expire: u32,
    pub minimum_ttl: u32,
}

impl View for ZoneSoa {
    type V = ZoneSoaV;

    open spec fn view(&self) -> ZoneSoaV {
        ZoneSoaV {
            mname: self.mname@,
            rname: self.rname@,
            serial: self.serial,
            refresh: self.refresh,
            retry: self.retry,
            expire: self.expire,
            minimum_ttl: self.minimum_ttl,
        }
    }
}

/// A zone that the server is authoritative for.
#[derive(Debug, Clone)]
pub struct AuthoritativeZone {
    pub name: String,
    pub default_ttl: u32,
    pub soa: Option<ZoneSoa>,
    pub records: Vec<StaticRecord>,
}

pub ghost struct AuthoritativeZoneV {
    pub name: Seq<char>,
    pub default_ttl: u32,
    pub soa: Option<ZoneSoaV>,
    pub records: Seq<StaticRecordV>,
}

pub open spec fn soa_view(soa: Option<ZoneSoa>) -> Option<ZoneSoaV> {
    match soa {
        Some(s) => Some(s@),
        None => None,
    }
}

impl View for AuthoritativeZone {
    type V = AuthoritativeZoneV;

    open spec fn view(&self) -> AuthoritativeZoneV {
        AuthoritativeZoneV {
            name: self.name@,
            default_ttl: self.default_ttl,
            soa: soa_view(self.soa),
            records: record_views(self.records@),
        }
    }
}

pub open spec fn zone_views(list: Seq<AuthoritativeZone>) -> Seq<AuthoritativeZoneV> {
    list.map_values(|z: AuthoritativeZone| z@)
}

/// What a view does with a query that none of its own data answers.
#[derive(Debug, Clone, Copy, PartialEq, Eq, Structural)]
pub enum ViewQueryMode {
    ViewOnly,
    GlobalFallback,
}

impl Default for ViewQueryMode {
    fn default() -> (r: Self)
        ensures
            r == ViewQueryMode::GlobalFallback,
    {
        ViewQueryMode::GlobalFallback
    }
}

/// The data that a group of clients sees.
#[derive(Debug, Clone)]
pub struct DnsView {
    pub name: String,
    pub summary: Option<String>,
    pub client_cidrs: Vec<String>,
    pub static_records_file: Option<String>,
    pub static_records: Vec<StaticRecord>,
    pub authoritative_records: Vec<StaticRecord>,
    pub records: Vec<ViewRecord>,
    pub blocked_domains_file: Option<String>,
    pub blocked_domains: Vec<String>,
    pub authoritative_zones_file: Option<String>,
    /// A directory with one file per zone, named after the zone.
    pub authoritative_zones_dir: Option<String>,
    pub authoritative_zones: Vec<AuthoritativeZone>,
    pub query_mode: ViewQueryMode,
    pub enable_recursion: bool,
    /// Overrides the global setting for static records where it is given.
    pub view_static_cname_expand_for_address_queries: Option<bool>,
    /// Overrides the global setting for zones where it is given.
    pub view_authoritative_cname_expand_for_address_queries: Option<bool>,
}

pub ghost struct DnsViewV {
    pub name: Seq<char>,
    pub summary: Option<Seq<char>>,
    pub client_cidrs: Seq<Seq<char>>,
    pub static_records_file: Option<Seq<char>>,
    pub static_records: Seq<StaticRecordV>,
    pub authoritative_records: Seq<StaticRecordV>,
    pub records: Seq<ViewRecordV>,
    pub blocked_domains_file: Option<Seq<char>>,
    pub blocked_domains: Seq<Seq<char>>,
    pub authoritative_zones_file: Option<Seq<char>>,
    pub authoritative_zones_dir: Option<Seq<char>>,
    pub authoritative_zones: Seq<AuthoritativeZoneV>,
    pub query_mode: ViewQueryMode,
    pub enable_recursion: bool,
    pub view_static_cname_expand_for_address_queries: Option<bool>,
    pub view_authoritative_cname_expand_for_address_queries: Option<bool>,
}

pub open spec fn optional_view(s: Option<String>) -> Option<Seq<char>> {
    match s {
        Some(t) => Some(t@),
        None => None,
    }
}

impl View for DnsView {
    type V = DnsViewV;

    open spec fn view(&self) -> DnsViewV {
        DnsViewV {
            name: self.name@,
            summary: optional_view(self.summary),
            client_cidrs: text::views(self.client_cidrs@),
            static_records_file: optional_view(self.static_records_file),
            static_records: record_views(self.static_records@),
            authoritative_records: record_views(self.authoritative_records@),
            records: short_record_views(self.records@),
            blocked_domains_file: optional_view(self.blocked_domains_file),
            blocked_domains: text::views(self.blocked_domains@),
            authoritative_zones_file: optional_view(self.authoritative_zones_file),
            authoritative_zones_dir: optional_view(self.authoritative_zones_dir),
            authoritative_zones: zone_views(self.authoritative_zones@),
            query_mode: self.query_mode,
            enable_recursion: self.enable_recursion,
            view_static_cname_expand_for_address_queries:
                self.view_static_cname_expand_for_address_queries,
            view_authoritative_cname_expand_for_address_queries:
                self.view_authoritative_cname_expand_for_address_queries,
        }
    }
}

pub open spec fn dns_views(list: Seq<DnsView>) -> Seq<DnsViewV> {
    list.map_values(|v: DnsView| v@)
}

/// A source outside the server that answers for a name.
#[derive(Debug, Clone)]
pub struct AuthoritativeSource {
    pub qname: String,
    pub qtype: String,
    pub source: String,
    pub ttl: u32,
}

pub ghost struct AuthoritativeSourceV {
    pub qname: Seq<char>,
    pub qtype: Seq<char>,
    pub source: Seq<char>,
    pub ttl: u32,
}

impl View for AuthoritativeSource {
    type V = AuthoritativeSourceV;

    open spec fn view(&self) -> AuthoritativeSourceV {
        AuthoritativeSourceV {
            qname: self.qname@,
            qtype: self.qtype@,
            source: self.source@,
            ttl: self.ttl,
        }
    }
}

pub open spec fn source_views(list: Seq<AuthoritativeSource>) -> Seq<AuthoritativeSourceV> {
    list.map_values(|s: AuthoritativeSource| s@)
}

#[derive(Debug, Clone)]
pub struct LoggingConfig {
    pub enabled: bool,
    pub console: bool,
    pub directory: String,
    pub rotation: String,
    pub format: String,
    pub query_level: String,
    pub response_level: String,
    pub general_level: String,
    /// Names below these domains are traced in detail.
    pub trace_query_domains: Vec<String>,
}

/// Which address families iterative resolution uses.
#[derive(Debug, Clone, Copy, PartialEq, Eq, Structural)]
pub enum IterativeAddressFamily {
    DualStack,
    Ipv4,
    Ipv6,
}

impl Default for IterativeAddressFamily {
    fn default() -> (r: Self)
        ensures
            r == IterativeAddressFamily::DualStack,
    {
        IterativeAddressFamily::DualStack
    }
}

impl IterativeAddressFamily {
    pub fn allows_ipv4(self) -> (r: bool)
        ensures
            r == (self != IterativeAddressFamily::Ipv6),
    {
        match self {
            IterativeAddressFamily::DualStack => true,
            IterativeAddressFamily::Ipv4 => true,
            IterativeAddressFamily::Ipv6 => false,
        }
    }

    pub fn allows_ipv6(self) -> (r: bool)
        ensures
            r == (self != IterativeAddressFamily::Ipv4),
    {
        match self {
            IterativeAddressFamily::DualStack => true,
            IterativeAddressFamily::Ipv4 => false,
            IterativeAddressFamily::Ipv6 => true,
        }
    }
}

/// How the addresses of name servers are found.
#[derive(Debug, Clone, Copy, PartialEq, Eq, Structural)]
pub enum NsHostnameResolveMode {
    BootstrapRecursive,
    PureIterative,
}

impl Default for NsHostnameResolveMode {
    fn default() -> (r: Self)
        ensures
            r == NsHostnameResolveMode::BootstrapRecursive,
    {
        NsHostnameResolveMode::BootstrapRecursive
    }
}

/// All settings of the server.
#[derive(Debug, Clone)]
pub struct AppConfig {
    pub udp_listen: String,
    pub tcp_listen: String,
    pub admin_listen: String,
    pub control_listen: String,
    pub control_token: Option<String>,
    pub resolve_mode: String,
    pub root_servers: Vec<String>,
    pub iterative_address_family: IterativeAddressFamily,
    pub iterative_max_depth: u8,
    pub iterative_timeout_ms: u64,
    pub cname_chain_max_depth: u8,
    pub follow_cname_chain: bool,
    /// Whether an address query that meets a static CNAME is answered with the addresses behind it.
    pub static_cname_expand_for_address_queries: bool,
    pub iterative_fallback_to_forwarder: bool,
    pub iterative_cname_bridge_fallback_to_recursive: bool,
    pub cname_chain_cache_enabled: bool,
    pub cname_chain_inline_cache_enabled: bool,
    pub cname_chain_dualstack_share_enabled: bool,
    pub cname_chain_target_prefetch_enabled: bool,
    pub ns_host_cache_capacity: usize,
    pub ns_host_cache_ttl_secs: u64,
    pub ns_host_cache_cleanup_interval_ms: u64,
    pub enable_delegation_cache: bool,
    pub strict_bailiwick: bool,
    pub delegation_cache_capacity: usize,
    pub delegation_cache_ttl_cap_secs: u64,
    pub delegation_cache_cleanup_interval_ms: u64,
    pub delegation_failure_backoff_ms: u64,
    pub stats_window_secs: u64,
    pub stats_short_window_secs: u64,
    pub topn_stats_enabled: bool,
    pub cache_hot_capacity: usize,
    pub response_cache_capacity: usize,
    pub prefetch_budget_per_window: u32,
    pub prefetch_window_secs: u64,
    pub prefetch_ttl_trigger_secs: u64,
    pub prefetch_popularity_threshold: u32,
    pub upstreams: Vec<String>,
    pub cache_ttl_secs: u64,
    pub freeze_cache_ttl_decay: bool,
    pub freeze_cache_domains: Vec<String>,
    pub upstream_timeout_ms: u64,
    pub upstream_retries: u8,
    pub unhealthy_backoff_ms: u64,
    pub upstream_score_rtt_weight: Decimal,
    pub upstream_score_failure_weight: Decimal,
    pub upstream_score_success_weight: Decimal,
    pub adaptive_cache_enabled: bool,
    pub adaptive_cache_min_capacity: usize,
    pub adaptive_cache_max_capacity: usize,
    pub adaptive_cache_step: usize,
    pub adaptive_cache_window_secs: u64,
    pub adaptive_cache_high_miss_ratio: Decimal,
    pub adaptive_cache_low_miss_ratio: Decimal,
    pub allow_clients: Vec<String>,
    pub blocked_domains_file: Option<String>,
    pub blocked_domains: Vec<String>,
    /// Where this is off, only local data is answered.
    pub enable_recursion: bool,
    pub minimal_response: bool,
    pub views: Vec<DnsView>,
    pub rate_limit_per_second: u32,
    pub deny_any_queries: bool,
    pub dot: DotConfig,
    pub doh: DohConfig,
    pub dnssec: DnssecConfig,
    pub logging: LoggingConfig,
    pub health_check: HealthCheckConfig,
    pub static_records_file: Option<String>,
    pub static_records: Vec<StaticRecord>,
    pub authoritative_sources: Vec<AuthoritativeSource>,
    pub authoritative_zones_file: Option<String>,
    pub authoritative_zones_dir: Option<String>,
    pub authoritative_zones: Vec<AuthoritativeZone>,
    pub ns_hostname_max_concurrent: usize,
    pub ns_hostname_enough_endpoints: usize,
    pub ns_hostname_per_resolve_ms: u64,
    pub ns_hostname_resolve_mode: NsHostnameResolveMode,
    /// The time for one hop; 0 stands for no limit.
    pub iterative_per_hop_timeout_ms: u64,
    pub prewarm_delegation_zones: Vec<PreWarmZone>,
}

/// The time for which a zone that is known beforehand is kept where nothing else is said.
pub fn default_prewarm_ttl_secs() -> (r: u64)
    ensures
        r == 3600,
{
    3600
}

/// The time to live of a static record where nothing else is said.
pub fn default_static_record_ttl() -> (r: u32)
    ensures
        r == 300,
{
    300
}

/// Whether a view answers recursively where nothing else is said.
pub fn default_view_enable_recursion() -> (r: bool)
    ensures
        r,
{
    true
}

impl Default for PreWarmZone {
    fn default() -> (r: Self)
        ensures
            r.zone@ == ""@,
            r.ns_endpoints@.len() == 0,
            r.ns_hostnames@.len() == 0,
            r.ttl_secs == 0,
    {
        PreWarmZone {
            zone: "".to_owned(),
            ns_endpoints: Vec::new(),
            ns_hostnames: Vec::new(),
            ttl_secs: 0,
        }
    }
}

impl Default for AuthoritativeZone {
    fn default() -> (r: Self)
        ensures
            r@ == (AuthoritativeZoneV {
                name: ""@,
                default_ttl: 0,
                soa: None,
                records: Seq::empty(),
            }),
    {
        let r = AuthoritativeZone {
            name: "".to_owned(),
            default_ttl: 0,
            soa: None,
            records: Vec::new(),
        };
        assert(r@.records =~= Seq::empty());
        r
    }
}

pub open spec fn is_default_view(v: DnsView) -> bool {
    &&& v.name@ == ""@
    &&& v.summary is None
    &&& v.client_cidrs@.len() == 0
    &&& v.static_records_file is None
    &&& v.static_records@.len() == 0
    &&& v.authoritative_records@.len() == 0
    &&& v.records@.len() == 0
    &&& v.blocked_domains_file is None
    &&& v.blocked_domains@.len() == 0
    &&& v.authoritative_zones_file is None
    &&& v.authoritative_zones_dir is None
    &&& v.authoritative_zones@.len() == 0
    &&& v.query_mode == ViewQueryMode::GlobalFallback
    &&& !v.enable_recursion
    &&& v.view_static_cname_expand_for_address_queries is None
    &&& v.view_authoritative_cname_expand_for_address_queries is None
}

impl Default for DnsView {
    fn default() -> (r: Self)
        ensures
            is_default_view(r),
    {
        DnsView {
            name: "".to_owned(),
            summary: None,
            client_cidrs: Vec::new(),
            static_records_file: None,
            static_records: Vec::new(),
            authoritative_records: Vec::new(),
            records: Vec::new(),
            blocked_domains_file: None,
            blocked_domains: Vec::new(),
            authoritative_zones_file: None,
            authoritative_zones_dir: None,
            authoritative_zones: Vec::new(),
            query_mode: ViewQueryMode::GlobalFallback,
            enable_recursion: false,
            view_static_cname_expand_for_address_queries: None,
            view_authoritative_cname_expand_for_address_queries: None,
        }
    }
}

pub open spec fn is_default_dot(c: DotConfig) -> bool {
    !c.enabled && c.listen@ == "0.0.0.0:853"@ && c.cert_file@ == "config/dot.crt"@ && c.key_file@
        == "config/dot.key"@
}

impl Default for DotConfig {
    fn default() -> (r: Self)
        ensures
            is_default_dot(r),
    {
        DotConfig {
            enabled: false,
            listen: "0.0.0.0:853".to_owned(),
            cert_file: "config/dot.crt".to_owned(),
            key_file: "config/dot.key".to_owned(),
        }
    }
}

pub open spec fn is_default_doh(c: DohConfig) -> bool {
    !c.enabled && c.listen@ == "0.0.0.0:8053"@
}

impl Default for DohConfig {
    fn default() -> (r: Self)
        ensures
            is_default_doh(r),
    {
        DohConfig { enabled: false, listen: "0.0.0.0:8053".to_owned() }
    }
}

pub open spec fn is_default_dnssec(c: DnssecConfig) -> bool {
    c.enabled && c.use_builtin_trust_anchors && c.trust_anchor_files@.len() == 0
}

impl Default for DnssecConfig {
    fn default() -> (r: Self)
        ensures
            is_default_dnssec(r),
    {
        DnssecConfig {
            enabled: true,
            use_builtin_trust_anchors: true,
            trust_anchor_files: Vec::new(),
        }
    }
}

pub open spec fn is_default_logging(c: LoggingConfig) -> bool {
    &&& c.enabled
    &&& c.console
    &&& c.directory@ == "logs"@
    &&& c.rotation@ == "day"@
    &&& c.format@ == "compact"@
    &&& c.query_level@ == "info"@
    &&& c.response_level@ == "info"@
    &&& c.general_level@ == "info"@
    &&& c.trace_query_domains@.len() == 0
}

impl Default for LoggingConfig {
    fn default() -> (r: Self)
        ensures
            is_default_logging(r),
    {
        LoggingConfig {
            enabled: true,
            console: true,
            directory: "logs".to_owned(),
            rotation: "day".to_owned(),
            format: "compact".to_owned(),
            query_level: "info".to_owned(),
            response_level: "info".to_owned(),
            general_level: "info".to_owned(),
            trace_query_domains: Vec::new(),
        }
    }
}

pub open spec fn default_listeners(c: AppConfig) -> bool {
    &&& c.udp_listen@ == "0.0.0.0:5300"@
    &&& c.tcp_listen@ == "0.0.0.0:5300"@
    &&& c.admin_listen@ == "0.0.0.0:8080"@
    &&& c.control_listen@ == "127.0.0.1:19090"@
    &&& c.control_token is None
    &&& is_default_dot(c.dot)
    &&& is_default_doh(c.doh)
}

pub open spec fn default_resolution(c: AppConfig) -> bool {
    &&& c.resolve_mode@ == "forwarder"@
    &&& text::views(c.root_servers@) == seq![
        "198.41.0.4:53"@,
        "199.9.14.201:53"@,
        "192.33.4.12:53"@,
        "199.7.91.13:53"@,
    ]
    &&& c.iterative_address_family == IterativeAddressFamily::DualStack
    &&& c.iterative_max_depth == 8
    &&& c.iterative_timeout_ms == 3000
    &&& c.cname_chain_max_depth == 8
    &&& c.follow_cname_chain
    &&& !c.static_cname_expand_for_address_queries
    &&& !c.iterative_fallback_to_forwarder
    &&& c.iterative_cname_bridge_fallback_to_recursive
    &&& c.cname_chain_cache_enabled
    &&& c.cname_chain_inline_cache_enabled
    &&& c.cname_chain_dualstack_share_enabled
    &&& !c.cname_chain_target_prefetch_enabled
    &&& c.ns_host_cache_capacity == 1024
    &&& c.ns_host_cache_ttl_secs == 60
    &&& c.ns_host_cache_cleanup_interval_ms == 1000
    &&& !c.enable_delegation_cache
    &&& c.strict_bailiwick
    &&& c.delegation_cache_capacity == 2048
    &&& c.delegation_cache_ttl_cap_secs == 300
    &&& c.delegation_cache_cleanup_interval_ms == 1000
    &&& c.delegation_failure_backoff_ms == 2000
    &&& c.ns_hostname_max_concurrent == 4
    &&& c.ns_hostname_enough_endpoints == 2
    &&& c.ns_hostname_per_resolve_ms == 1500
    &&& c.ns_hostname_resolve_mode == NsHostnameResolveMode::BootstrapRecursive
    &&& c.iterative_per_hop_timeout_ms == 0
    &&& c.prewarm_delegation_zones@.len() == 0
}

pub open spec fn default_caching(c: AppConfig) -> bool {
    &&& c.stats_window_secs == 60
    &&& c.stats_short_window_secs == 10
    &&& !c.topn_stats_enabled
    &&& c.cache_hot_capacity == 50_000
    &&& c.response_cache_capacity == 200_000
    &&& c.prefetch_budget_per_window == 64
    &&& c.prefetch_window_secs == 1
    &&& c.prefetch_ttl_trigger_secs == 5
    &&& c.prefetch_popularity_threshold == 3
    &&& c.cache_ttl_secs == 30
    &&& !c.freeze_cache_ttl_decay
    &&& c.freeze_cache_domains@.len() == 0
    &&& c.adaptive_cache_enabled
    &&& c.adaptive_cache_min_capacity == 100_000
    &&& c.adaptive_cache_max_capacity == 400_000
    &&& c.adaptive_cache_step == 10_000
    &&& c.adaptive_cache_window_secs == 10
    &&& c.adaptive_cache_high_miss_ratio.text@ == "0.55"@
    &&& c.adaptive_cache_low_miss_ratio.text@ == "0.15"@
}

pub open spec fn default_upstreams(c: AppConfig) -> bool {
    &&& text::views(c.upstreams@) == seq!["1.1.1.1:53"@, "8.8.8.8:53"@]
    &&& c.upstream_timeout_ms == 1500
    &&& c.upstream_retries == 1
    &&& c.unhealthy_backoff_ms == 3000
    &&& c.upstream_score_rtt_weight.text@ == "1"@
    &&& c.upstream_score_failure_weight.text@ == "25"@
    &&& c.upstream_score_success_weight.text@ == "3"@
}

pub open spec fn default_policy(c: AppConfig) -> bool {
    &&& c.allow_clients@.len() == 0
    &&& c.blocked_domains_file is None
    &&& c.blocked_domains@.len() == 0
    &&& c.enable_recursion
    &&& c.minimal_response
    &&& c.views@.len() == 0
    &&& c.rate_limit_per_second == 0
    &&& !c.deny_any_queries
    &&& is_default_dnssec(c.dnssec)
    &&& is_default_logging(c.logging)
    &&& health::is_default_health_check(c.health_check)
    &&& c.static_records_file is None
    &&& c.static_records@.len() == 0
    &&& c.authoritative_sources@.len() == 0
    &&& c.authoritative_zones_file is None
    &&& c.authoritative_zones_dir is None
    &&& c.authoritative_zones@.len() == 0
}

/// The settings of a server that nothing configures.
pub open spec fn is_default_config(c: AppConfig) -> bool {
    &&& default_listeners(c)
    &&& default_resolution(c)
    &&& default_caching(c)
    &&& default_upstreams(c)
    &&& default_policy(c)
}

fn default_root_servers() -> (r: Vec<String>)
    ensures
        text::views(r@) == seq![
            "198.41.0.4:53"@,
            "199.9.14.201:53"@,
            "192.33.4.12:53"@,
            "199.7.91.13:53"@,
        ],
{
    let mut list: Vec<String> = Vec::new();
    list.push("198.41.0.4:53".to_owned());
    list.push("199.9.14.201:53".to_owned());
    list.push("192.33.4.12:53".to_owned());
    list.push("199.7.91.13:53".to_owned());
    list
}

fn default_upstream_list() -> (r: Vec<String>)
    ensures
        text::views(r@) == seq!["1.1.1.1:53"@, "8.8.8.8:53"@],
{
    let mut list: Vec<String> = Vec::new();
    list.push("1.1.1.1:53".to_owned());
    list.push("8.8.8.8:53".to_owned());
    list
}

impl Default for AppConfig {
    fn default() -> (r: Self)
        ensures
            is_default_config(r),
    {
        AppConfig {
            udp_listen: "0.0.0.0:5300".to_owned(),
            tcp_listen: "0.0.0.0:5300".to_owned(),
            admin_listen: "0.0.0.0:8080".to_owned(),
            control_listen: "127.0.0.1:19090".to_owned(),
            control_token: None,
            resolve_mode: "forwarder".to_owned(),
            root_servers: default_root_servers(),
            iterative_address_family: IterativeAddressFamily::DualStack,
            iterative_max_depth: 8,
            iterative_timeout_ms: 3000,
            cname_chain_max_depth: 8,
            follow_cname_chain: true,
            static_cname_expand_for_address_queries: false,
            iterative_fallback_to_forwarder: false,
            iterative_cname_bridge_fallback_to_recursive: true,
            cname_chain_cache_enabled: true,
            cname_chain_inline_cache_enabled: true,
            cname_chain_dualstack_share_enabled: true,
            cname_chain_target_prefetch_enabled: false,
            ns_host_cache_capacity: 1024,
            ns_host_cache_ttl_secs: 60,
            ns_host_cache_cleanup_interval_ms: 1000,
            enable_delegation_cache: false,
            strict_bailiwick: true,
            delegation_cache_capacity: 2048,
            delegation_cache_ttl_cap_secs: 300,
            delegation_cache_cleanup_interval_ms: 1000,
            delegation_failure_backoff_ms: 2000,
            stats_window_secs: 60,
            stats_short_window_secs: 10,
            topn_stats_enabled: false,
            cache_hot_capacity: 50_000,
            response_cache_capacity: 200_000,
            prefetch_budget_per_window: 64,
            prefetch_window_secs: 1,
            prefetch_ttl_trigger_secs: 5,
            prefetch_popularity_threshold: 3,
            upstreams: default_upstream_list(),
            cache_ttl_secs: 30,
            freeze_cache_ttl_decay: false,
            freeze_cache_domains: Vec::new(),
            upstream_timeout_ms: 1500,
            upstream_retries: 1,
            unhealthy_backoff_ms: 3000,
            upstream_score_rtt_weight: Decimal::new("1"),
            upstream_score_failure_weight: Decimal::new("25"),
            upstream_score_success_weight: Decimal::new("3"),
            adaptive_cache_enabled: true,
            adaptive_cache_min_capacity: 100_000,
            adaptive_cache_max_capacity: 400_000,
            adaptive_cache_step: 10_000,
            adaptive_cache_window_secs: 10,
            adaptive_cache_high_miss_ratio: Decimal::new("0.55"),
            adaptive_cache_low_miss_ratio: Decimal::new("0.15"),
            allow_clients: Vec::new(),
            blocked_domains_file: None,
            blocked_domains: Vec::new(),
            enable_recursion: true,
            minimal_response: true,
            views: Vec::new(),
            rate_limit_per_second: 0,
            deny_any_queries: false,
            dot: DotConfig::default(),
            doh: DohConfig::default(),
            dnssec: DnssecConfig::default(),
            logging: LoggingConfig::default(),
            health_check: HealthCheckConfig::default(),
            static_records_file: None,
            static_records: Vec::new(),
            authoritative_sources: Vec::new(),
            authoritative_zones_file: None,
            authoritative_zones_dir: None,
            authoritative_zones: Vec::new(),
            ns_hostname_max_concurrent: 4,
            ns_hostname_enough_endpoints: 2,
            ns_hostname_per_resolve_ms: 1500,
            ns_hostname_resolve_mode: NsHostnameResolveMode::BootstrapRecursive,
            iterative_per_hop_timeout_ms: 0,
            prewarm_delegation_zones: Vec::new(),
        }
    }
}

} // verus!
