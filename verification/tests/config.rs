//! Settings: their defaults and their rules.
use cognidns::config::{AppConfig, DnsView, DnssecConfig, NsHostnameResolveMode, StaticRecord, ViewRecord};

#[test]
fn default_config_is_valid() {
    let cfg = AppConfig::default();
    assert!(cfg.validate().is_ok());
}

#[test]
fn iterative_fallback_to_forwarder_defaults_to_disabled() {
    let cfg = AppConfig::default();
    assert!(!cfg.iterative_fallback_to_forwarder);
}

#[test]
fn iterative_cname_bridge_fallback_defaults_to_enabled() {
    let cfg = AppConfig::default();
    assert!(cfg.iterative_cname_bridge_fallback_to_recursive);
}

#[test]
fn ns_hostname_resolve_mode_defaults_to_bootstrap_recursive() {
    let cfg = AppConfig::default();
    assert_eq!(
        cfg.ns_hostname_resolve_mode,
        NsHostnameResolveMode::BootstrapRecursive
    );
}

#[test]
fn topn_stats_defaults_to_disabled() {
    let cfg = AppConfig::default();
    assert!(!cfg.topn_stats_enabled);
}

#[test]
fn invalid_resolve_mode_is_rejected() {
    let cfg = AppConfig {
        resolve_mode: "bad-mode".to_string(),
        ..AppConfig::default()
    };
    assert!(cfg.validate().is_err());
}

#[test]
fn invalid_upstream_endpoint_is_rejected() {
    let cfg = AppConfig {
        upstreams: vec!["8.8.8.8".to_string()],
        ..AppConfig::default()
    };
    assert!(cfg.validate().is_err());
}

#[test]
fn invalid_upstream_ip_is_rejected() {
    let cfg = AppConfig {
        upstreams: vec!["999.1.1.1:53".to_string()],
        ..AppConfig::default()
    };
    assert!(cfg.validate().is_err());
}

#[test]
fn empty_upstreams_allowed_for_iterative_without_forwarder_fallback() {
    let cfg = AppConfig {
        resolve_mode: "iterative".to_string(),
        iterative_fallback_to_forwarder: false,
        upstreams: Vec::new(),
        ..AppConfig::default()
    };
    assert!(cfg.validate().is_ok());
}

#[test]
fn empty_upstreams_rejected_for_forwarder_mode() {
    let cfg = AppConfig {
        resolve_mode: "forwarder".to_string(),
        upstreams: Vec::new(),
        ..AppConfig::default()
    };
    let err = cfg
        .validate()
        .expect_err("forwarder mode should require non-empty upstreams");
    assert!(err
        .message
        .contains("upstreams must not be empty when resolve_mode=forwarder"));
}

#[test]
fn empty_upstreams_rejected_when_iterative_fallback_enabled() {
    let cfg = AppConfig {
        resolve_mode: "iterative".to_string(),
        iterative_fallback_to_forwarder: true,
        upstreams: Vec::new(),
        ..AppConfig::default()
    };
    let err = cfg
        .validate()
        .expect_err("iterative fallback requires upstreams");
    assert!(err
        .message
        .contains("iterative_fallback_to_forwarder=true"));
}

#[test]
fn view_authoritative_records_is_rejected() {
    let cfg = AppConfig {
        views: vec![DnsView {
            name: "internal".to_string(),
            authoritative_records: vec![StaticRecord {
                qname: "api.example.com".to_string(),
                qtype: "A".to_string(),
                answer: "10.0.0.10".to_string(),
                ttl: 60,
            }],
            ..DnsView::default()
        }],
        ..AppConfig::default()
    };
    let err = cfg
        .validate()
        .expect_err("authoritative_records should be rejected");
    assert!(err
        .message
        .contains("authoritative_records is not supported"));
}

#[test]
fn pure_iterative_ns_hostname_mode_requires_root_servers() {
    let cfg = AppConfig {
        ns_hostname_resolve_mode: NsHostnameResolveMode::PureIterative,
        root_servers: Vec::new(),
        ..AppConfig::default()
    };
    assert!(cfg.validate().is_err());
}

#[test]
fn zero_port_is_rejected() {
    let cfg = AppConfig {
        udp_listen: "0.0.0.0:0".to_string(),
        ..AppConfig::default()
    };
    assert!(cfg.validate().is_err());
}

#[test]
fn dnssec_requires_some_trust_anchor_source_when_enabled() {
    let cfg = AppConfig {
        dnssec: DnssecConfig {
            enabled: true,
            use_builtin_trust_anchors: false,
            trust_anchor_files: Vec::new(),
        },
        ..AppConfig::default()
    };
    assert!(cfg.validate().is_err());
}

#[test]
fn dnssec_can_be_disabled_without_trust_anchors() {
    let cfg = AppConfig {
        dnssec: DnssecConfig {
            enabled: false,
            use_builtin_trust_anchors: false,
            trust_anchor_files: Vec::new(),
        },
        ..AppConfig::default()
    };
    assert!(cfg.validate().is_ok());
}

#[test]
fn empty_file_path_is_allowed_for_static_and_blocked_domains() {
    let cfg = AppConfig {
        static_records_file: Some(String::new()),
        blocked_domains_file: Some(String::new()),
        views: vec![DnsView {
            name: "empty-file-path-view".to_string(),
            static_records_file: Some(String::new()),
            blocked_domains_file: Some(String::new()),
            ..DnsView::default()
        }],
        ..AppConfig::default()
    };

    assert!(cfg.validate().is_ok());
}

#[test]
fn dns_view_effective_static_records_merges_new_and_legacy_records() {
    let view = DnsView {
        name: "guest".to_string(),
        client_cidrs: vec!["192.168.2.0/24".to_string()],
        static_records: vec![StaticRecord {
            qname: "new.example.com".to_string(),
            qtype: "CNAME".to_string(),
            answer: "target.example.com".to_string(),
            ttl: 90,
        }],
        authoritative_records: vec![StaticRecord {
            qname: "auth.example.com".to_string(),
            qtype: "A".to_string(),
            answer: "10.10.10.10".to_string(),
            ttl: 120,
        }],
        records: vec![ViewRecord {
            domain_name: "legacy.example.com".to_string(),
            ip: "10.1.2.3".to_string(),
        }],
        blocked_domains: Vec::new(),
        ..Default::default()
    };

    let records = view
        .effective_static_records()
        .expect("effective static records");
    assert_eq!(records.len(), 2);
    assert_eq!(records[0].qname, "new.example.com");
    assert_eq!(records[0].qtype, "CNAME");
    assert_eq!(records[1].qname, "legacy.example.com");
    assert_eq!(records[1].qtype, "A");
    assert_eq!(records[1].answer, "10.1.2.3");
    assert_eq!(records[1].ttl, 300);

    let auth_records = view.effective_authoritative_records();
    assert_eq!(auth_records.len(), 1);
    assert_eq!(auth_records[0].qname, "auth.example.com");
}

#[test]
fn dns_view_validate_rejects_invalid_new_static_record() {
    let cfg = AppConfig {
        views: vec![DnsView {
            name: "guest".to_string(),
            client_cidrs: vec!["192.168.2.0/24".to_string()],
            static_records: vec![StaticRecord {
                qname: "broken.example.com".to_string(),
                qtype: "A".to_string(),
                answer: "not-an-ip".to_string(),
                ttl: 120,
            }],
            authoritative_records: Vec::new(),
            records: Vec::new(),
            blocked_domains: Vec::new(),
            ..Default::default()
        }],
        ..AppConfig::default()
    };

    let error = cfg.validate().expect_err("invalid view static record");
    assert!(error
        .message
        .contains("views.guest.static_records[0].answer"));
}

#[test]
fn dns_view_validate_accepts_new_and_legacy_records_together() {
    let cfg = AppConfig {
        views: vec![DnsView {
            name: "guest".to_string(),
            client_cidrs: vec!["192.168.2.0/24".to_string()],
            static_records: vec![StaticRecord {
                qname: "new.example.com".to_string(),
                qtype: "A".to_string(),
                answer: "10.10.10.20".to_string(),
                ttl: 120,
            }],
            authoritative_records: Vec::new(),
            records: vec![ViewRecord {
                domain_name: "legacy.example.com".to_string(),
                ip: "2001:db8::20".to_string(),
            }],
            blocked_domains: Vec::new(),
            ..Default::default()
        }],
        ..AppConfig::default()
    };

    assert!(cfg.validate().is_ok());
}

#[test]
fn dns_view_validate_accepts_extended_static_like_record_types() {
    let cfg = AppConfig {
        views: vec![DnsView {
            name: "extended".to_string(),
            client_cidrs: vec!["10.0.0.0/8".to_string()],
            static_records: vec![
                StaticRecord {
                    qname: "ns1.example.com".to_string(),
                    qtype: "NS".to_string(),
                    answer: "ns1.example.net".to_string(),
                    ttl: 300,
                },
                StaticRecord {
                    qname: "example.com".to_string(),
                    qtype: "MX".to_string(),
                    answer: "10 mail.example.com".to_string(),
                    ttl: 300,
                },
                StaticRecord {
                    qname: "example.com".to_string(),
                    qtype: "TXT".to_string(),
                    answer: "v=spf1 -all".to_string(),
                    ttl: 300,
                },
                StaticRecord {
                    qname: "1.0.0.127.in-addr.arpa".to_string(),
                    qtype: "PTR".to_string(),
                    answer: "localhost".to_string(),
                    ttl: 300,
                },
            ],
            authoritative_records: Vec::new(),
            records: Vec::new(),
            blocked_domains: Vec::new(),
            ..Default::default()
        }],
        ..AppConfig::default()
    };

    assert!(cfg.validate().is_ok());
}

#[test]
fn validate_rejects_top_level_authoritative_zone_configuration() {
    let cfg = AppConfig {
        authoritative_zones_file: Some(
            "config/examples/authoritative_zones.example.toml".to_string(),
        ),
        ..AppConfig::default()
    };

    let error = cfg
        .validate()
        .expect_err("top-level authoritative zone config should be rejected");
    assert!(error
        .message
        .contains("top-level authoritative_zones_file is not supported"));
}
