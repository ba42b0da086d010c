//! Settings: their rules, their files and what is found in the wrong place.
use cognidns::admin::plans::{
    config_sections_plan, log_download_plan, rolls_back, view_delete_plan, view_upsert_plan,
    view_zone_delete_plan, view_zone_soa_plan, view_zone_upsert_plan, zone_soa_plan,
    zone_upsert_plan, Action, Failure,
};
use cognidns::admin::zone_tables::update_authoritative_zone_soa_in_raw;
use cognidns::admin::zones::{
    find_zone_file, resolve_authoritative_zone_mutation_target, zone_for_records, ZoneTarget,
};
use cognidns::codec::respond::encode_record_rdata;
use cognidns::config::files::{
    configured_target, is_json_file, is_zone_file, resolve_path_relative_to_config,
    zones_from_files, ZoneFile,
};
use cognidns::config::loading::{take_data_files, take_view_files, DataFiles};
use cognidns::config::misplaced::{load_misplaced_top_level_fields, recoverable_keys};
use cognidns::config::rules::{
    is_valid_dns_name, validate_endpoint, validate_level, validate_networks,
};
use cognidns::config::{AppConfig, AuthoritativeZone, DnsView, PreWarmZone, StaticRecord};
use cognidns::decimal::Decimal;
use cognidns::ip::{format_ipv4, parse_ipv4, parse_socket_port, parses_as_address};
use cognidns::json_doc::read_document;
use cognidns::text::{
    decimal_of, lies_under, normalized, parse_uint, plain_name_of, text_less, to_upper, trimmed,
};
use cognidns::toml_doc::TomlValue;

fn broken(change: impl Fn(&mut AppConfig)) -> String {
    let mut cfg = AppConfig::default();
    change(&mut cfg);
    cfg.validate().expect_err("refusal").message
}

fn zone(name: &str) -> AuthoritativeZone {
    AuthoritativeZone {
        name: name.to_string(),
        default_ttl: 300,
        soa: None,
        records: vec![],
    }
}

#[test]
fn default_settings_are_valid() {
    assert!(AppConfig::default().validate().is_ok());
}

#[test]
fn broken_rules_are_named() {
    assert!(broken(|c| c.udp_listen = "x".to_string()).contains("udp_listen"));
    assert!(broken(|c| c.upstreams = vec!["x".to_string()]).contains("upstreams"));
    assert!(broken(|c| c.allow_clients = vec!["10.0.0.0/99".to_string()]).contains("allow_clients"));
    assert!(broken(|c| c.adaptive_cache_high_miss_ratio = Decimal::new("1.5"))
        .contains("adaptive_cache"));
    assert!(broken(|c| c.upstream_score_rtt_weight = Decimal::new("-0.1"))
        .contains("upstream_score"));
}

#[test]
fn host_names_are_quoted_in_errors() {
    let message = broken(|c| {
        c.enable_delegation_cache = true;
        c.prewarm_delegation_zones = vec![PreWarmZone {
            zone: "cn".to_string(),
            ns_endpoints: vec![],
            ns_hostnames: vec!["a\tb".to_string()],
            ttl_secs: 60,
        }]
    });
    assert!(message.contains("\"a\\tb\""));
}

#[test]
fn values_are_checked() {
    assert!(validate_endpoint("127.0.0.1:53", "f").is_ok());
    assert!(validate_endpoint("[::1]:53", "f").is_ok());
    assert!(validate_endpoint("127.0.0.1", "f").is_err());
    assert!(validate_networks(&vec!["10.0.0.0/8".to_string(), "::1/128".to_string()], "f").is_ok());
    assert!(validate_networks(&vec!["10.0.0.0/33".to_string()], "f").is_err());
    assert!(validate_level("debug", "f").is_ok());
    assert!(validate_level("loud", "f").is_err());
    assert!(is_valid_dns_name("www.example.com"));
    assert!(!is_valid_dns_name("a..b"));
    assert!(Decimal::new("0.25").below(&Decimal::new("0.3")));
    assert!(Decimal::new("1").within_unit());
    assert!(!Decimal::new("1.01").within_unit());
    assert!(Decimal::new("-0.5").negative());
}

fn recovered(raw: &str) -> Vec<(String, TomlValue)> {
    load_misplaced_top_level_fields(raw, "cognidns.toml")
        .expect("fields")
        .into_iter()
        .map(|f| (f.key, f.value))
        .collect()
}

fn check_recovered(raw: &str) {
    let mut fields = recovered(raw);
    fields.sort_by(|a, b| a.0.cmp(&b.0));
    let keys: Vec<&str> = fields.iter().map(|f| f.0.as_str()).collect();
    assert_eq!(keys, vec!["cache_ttl_secs", "static_records_file"]);
    assert!(matches!(fields[0].1, TomlValue::Int(123)));
    assert!(matches!(&fields[1].1, TomlValue::Str(s) if s == "static_records.toml"));
}

#[test]
fn load_or_default_recovers_misplaced_top_level_fields_from_section_scope() {
    check_recovered(
        r#"
udp_listen = "127.0.0.1:5300"
tcp_listen = "127.0.0.1:5300"
admin_listen = "127.0.0.1:8080"
control_listen = "127.0.0.1:19090"

[logging]
enabled = true
console = true
directory = "logs"
rotation = "day"
format = "compact"
query_level = "info"
response_level = "info"
general_level = "info"
static_records_file = "static_records.toml"
cache_ttl_secs = 123

[[authoritative_sources]]
name = "api.example.com"
rtype = "A"
source = "http://127.0.0.1:9000/dns?name={qname}&type={qtype}"
ttl = 60
"#,
    );
}

#[test]
fn load_or_default_recovers_misplaced_top_level_fields_from_view_scope() {
    check_recovered(
        r#"
udp_listen = "127.0.0.1:5300"
tcp_listen = "127.0.0.1:5300"
admin_listen = "127.0.0.1:8080"
control_listen = "127.0.0.1:19090"

[[views]]
name = "internal"
client_cidrs = ["0.0.0.0/0"]
query_mode = "global_fallback"
enable_recursion = true
static_records_file = "static_records.toml"
cache_ttl_secs = 123
"#,
    );
}

#[test]
fn misplaced_settings_are_found() {
    let raw = "[logging]\nenabled = true\nstatic_records_file = \"r.toml\"\n";
    let fields = load_misplaced_top_level_fields(raw, "c.toml").expect("fields");
    assert_eq!(fields.len(), 1);
    assert_eq!(fields[0].key, "static_records_file");
    assert!(matches!(&fields[0].value, TomlValue::Str(s) if s == "r.toml"));
    assert!(recoverable_keys().contains(&"static_records_file".to_string()));
    let placed = "static_records_file = \"r.toml\"\n[logging]\nenabled = true\n";
    assert_eq!(load_misplaced_top_level_fields(placed, "c.toml").expect("fields").len(), 0);
    assert!(load_misplaced_top_level_fields("x = ", "c.toml").is_err());
}

#[test]
fn files_are_found() {
    assert_eq!(configured_target(&Some(" ".to_string())), None);
    assert_eq!(configured_target(&Some("a.toml".to_string())).as_deref(), Some("a.toml"));
    let resolve = |absolute, direct_exists, shortened_exists| {
        resolve_path_relative_to_config(
            "config/a".to_string(),
            absolute,
            "config/config/a".to_string(),
            direct_exists,
            Some("config/a.short".to_string()),
            shortened_exists,
        )
    };
    assert_eq!(resolve(true, false, false), "config/a");
    assert_eq!(resolve(false, true, true), "config/config/a");
    assert_eq!(resolve(false, false, true), "config/a.short");
    assert_eq!(resolve(false, false, false), "config/config/a");
    assert!(is_zone_file("example.com"));
    assert!(!is_zone_file("static_records"));
    let zones = zones_from_files(vec![
        ZoneFile { stem: "b.example".to_string(), zone: Some(zone("")) },
        ZoneFile { stem: "a.example".to_string(), zone: None },
    ]);
    assert_eq!(zones.len(), 1);
    assert_eq!(zones[0].name, "b.example");
}

#[test]
fn zone_files_are_matched() {
    let stems = vec!["a.example".to_string(), "B.example".to_string()];
    assert_eq!(find_zone_file(&stems, "b.example."), Some(1));
    assert_eq!(find_zone_file(&stems, "c.example"), None);
}

#[test]
fn zone_targets_follow_the_view() {
    let mut cfg = AppConfig::default();
    let mut view = DnsView { name: "lab".to_string(), ..DnsView::default() };
    view.authoritative_zones_dir = Some("zones".to_string());
    cfg.views = vec![view];
    assert!(matches!(
        resolve_authoritative_zone_mutation_target(&cfg, "LAB"),
        Some(ZoneTarget::Directory(d)) if d == "zones"
    ));
    assert!(resolve_authoritative_zone_mutation_target(&cfg, "none").is_none());
    let z = zone_for_records(
        &cfg,
        "lab",
        &None,
        vec![StaticRecord {
            qname: "www.example.com".to_string(),
            qtype: "A".to_string(),
            answer: "192.0.2.1".to_string(),
            ttl: 60,
        }],
    );
    assert_eq!(z.name, "www.example.com");
    assert_eq!(z.records.len(), 1);
}

#[test]
fn start_of_authority_is_changed_in_place() {
    let raw = "[[authoritative_zones]]\nname = \"example.com\"\nkept = 1\n";
    let payload = read_document(
        r#"{"mname": "ns1.example.com", "rname": "admin.example.com", "serial": 9,
            "refresh": 2, "retry": 3, "expire": 4, "minimum_ttl": 5}"#,
    )
    .expect("json");
    let (updated, found) =
        update_authoritative_zone_soa_in_raw(raw, "example.com", &payload).expect("updated");
    assert!(found);
    let doc: toml::Value = toml::from_str(&updated).expect("toml");
    assert_eq!(doc["authoritative_zones"][0]["soa"]["serial"].as_integer(), Some(9));
    assert_eq!(doc["authoritative_zones"][0]["kept"].as_integer(), Some(1));
    let (_, found) =
        update_authoritative_zone_soa_in_raw(raw, "other.com", &payload).expect("unchanged");
    assert!(!found);
}

#[test]
fn plans_end_with_a_reload() {
    for plan in [config_sections_plan(), view_upsert_plan(), view_delete_plan(), zone_upsert_plan()] {
        assert!(plan.iter().any(|s| s.action == Action::ApplyConfig || s.action == Action::Reload));
    }
    assert!(!view_zone_upsert_plan().is_empty());
    assert!(!zone_soa_plan(true).is_empty());
    assert_eq!(view_zone_delete_plan(&None).err(), Some(Failure::ViewNotFound));
    assert_eq!(view_zone_soa_plan(&None).err(), Some(Failure::ViewNotFound));
    assert!(log_download_plan().iter().any(|s| s.action == Action::CheckInside));
    assert!(!rolls_back(Action::ParseBody));
}

#[test]
fn addresses_and_texts() {
    assert_eq!(format_ipv4(&[192, 0, 2, 1]), "192.0.2.1");
    assert_eq!(parse_ipv4("192.0.2.1"), Some(vec![192, 0, 2, 1]));
    assert_eq!(parse_ipv4("192.0.02.1"), None);
    assert_eq!(parse_socket_port("192.0.2.1:53"), Some(53));
    assert_eq!(parse_socket_port("[2001:db8::1]:853"), Some(853));
    assert_eq!(parse_socket_port("192.0.2.1:70000"), None);
    assert!(parses_as_address("::1"));
    assert!(!parses_as_address("x"));
    assert_eq!(decimal_of(1205), "1205");
    assert_eq!(parse_uint(&['4', '2'], 255), Some(42));
    assert_eq!(parse_uint(&['2', '5', '6'], 255), None);
    assert_eq!(trimmed(" a\t"), "a");
    assert_eq!(to_upper("aB"), "AB");
    assert_eq!(normalized("Example.COM."), "example.com");
    assert_eq!(plain_name_of(" Example.COM. "), "example.com");
    assert!(lies_under("a.b", "b") && !lies_under("ab", "b"));
    assert!(text_less("a", "b") && !text_less("b", "a"));
}

#[test]
fn data_files_join_the_settings_that_name_them() {
    let mut cfg = AppConfig::default();
    cfg.blocked_domains = vec!["own.example".to_string()];
    cfg.authoritative_zones = vec![zone("own.example")];
    cfg.udp_listen = "127.0.0.1:5300".to_string();
    let joined = take_data_files(
        cfg,
        DataFiles {
            static_records: None,
            blocked_domains: Some(vec!["file.example".to_string()]),
            zones: Some(vec![zone("file.example")]),
            zones_in_directory: vec![zone("a.example"), zone("b.example")],
        },
    );
    assert_eq!(joined.blocked_domains, vec!["file.example".to_string()]);
    let names: Vec<&str> = joined.authoritative_zones.iter().map(|z| z.name.as_str()).collect();
    assert_eq!(names, vec!["file.example", "a.example", "b.example"]);
    assert_eq!(joined.udp_listen, "127.0.0.1:5300");
}

#[test]
fn data_files_join_the_view_that_names_them() {
    let mut view = DnsView::default();
    view.blocked_domains = vec!["own.example".to_string()];
    view.authoritative_zones = vec![zone("own.example")];
    let joined = take_view_files(
        view,
        DataFiles {
            static_records: Some(vec![]),
            blocked_domains: None,
            zones: Some(vec![zone("file.example")]),
            zones_in_directory: vec![zone("a.example")],
        },
    );
    assert_eq!(joined.blocked_domains, vec!["own.example".to_string()]);
    assert!(joined.static_records.is_empty());
    let names: Vec<&str> = joined.authoritative_zones.iter().map(|z| z.name.as_str()).collect();
    assert_eq!(names, vec!["own.example", "file.example", "a.example"]);
}

#[test]
fn valid_records_can_be_answered() {
    for (qtype, typenum, answer) in [
        ("A", 1, "192.0.2.1"),
        ("aaaa", 28, "2001:db8::1"),
        ("CNAME", 5, "www.example.com"),
        ("MX", 15, "10 mail.example.com"),
        ("TXT", 16, "text"),
        ("NS", 2, "ns.example.com"),
        ("PTR", 12, "host.example.com"),
    ] {
        let mut cfg = AppConfig::default();
        cfg.static_records = vec![StaticRecord {
            qname: "a.example".to_string(),
            qtype: qtype.to_string(),
            answer: answer.to_string(),
            ttl: 60,
        }];
        assert!(cfg.validate().is_ok());
        assert!(encode_record_rdata(typenum, answer).is_some());
    }
}

#[test]
fn static_records_are_json_by_their_extension() {
    assert!(is_json_file(Some("json")) && is_json_file(Some("JSON")));
    assert!(!is_json_file(Some("toml")) && !is_json_file(None));
}
