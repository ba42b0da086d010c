//! Requests to the administration interface.
use cognidns::admin::apply::{next_file_step, FileNext, FileStep};
use cognidns::admin::data_files::{
    remember, resolve_path_relative_to_config_for_creation, resolve_relative_config_path,
    serialize_blocked_domains_file, serialize_static_records_file, serialize_zone_file,
    serialize_zones_file,
};
use cognidns::admin::error::AdminError;
use cognidns::admin::overview::{build_config_sections, build_effective_views};
use cognidns::admin::paths::{ensure_view_data_paths_in_raw, sanitize_view_name_for_dir};
use cognidns::admin::plans::{advance, change_message, view_data_plan, zone_delete_plan, Change, Failure, Next};
use cognidns::admin::requests::{
    classify_reload_error, clear_domain_message, freeze_all_message, freeze_domain_message,
    is_admin_request_authorized, readiness, sort_log_files, top_n_entries, top_n_window,
    validate_log_file_name, LogFileEntry,
};
use cognidns::admin::sections::update_config_sections_in_raw;
use cognidns::admin::views::{delete_view_in_raw, upsert_view_in_raw, ViewUpsertRequest};
use cognidns::admin::zone_tables::{
    delete_authoritative_zone_in_raw, replace_view_zones_in_raw, upsert_authoritative_zone_in_raw,
    view_zones_in_raw,
};
use cognidns::admin::zones::{
    build_default_zone_soa, delete_zone_from_list, infer_authoritative_zone_name,
    is_same_zone_name, normalize_blocked_domains, parse_zone_soa_payload, update_zone_soa_in_list,
    zone_file_name,
};
use cognidns::config::{
    AppConfig, AuthoritativeSource, AuthoritativeZone, DnsView, IterativeAddressFamily, PreWarmZone,
    StaticRecord,
};
use cognidns::json_doc::read_document;
use std::path::{Path, PathBuf};

fn document(raw: &str) -> toml::Value {
    toml::from_str(raw).expect("document should parse")
}

fn view_named<'a>(cfg: &'a toml::Value, name: &str) -> &'a toml::Value {
    cfg["views"]
        .as_array()
        .expect("views")
        .iter()
        .find(|v| v["name"].as_str() == Some(name))
        .expect("view should exist")
}

fn record(qname: &str) -> StaticRecord {
    StaticRecord {
        qname: qname.to_string(),
        qtype: "A".to_string(),
        answer: "1.1.1.1".to_string(),
        ttl: 60,
    }
}

fn zone(name: &str) -> AuthoritativeZone {
    AuthoritativeZone {
        name: name.to_string(),
        default_ttl: 300,
        soa: None,
        records: vec![record("www.example.com")],
    }
}

fn text(path: PathBuf) -> String {
    path.to_str().expect("path").to_string()
}

#[test]
fn classify_reload_errors() {
    assert_eq!(
        classify_reload_error("failed to read config file: x"),
        "read_error"
    );
    assert_eq!(
        classify_reload_error("failed to parse config file: x"),
        "parse_error"
    );
    assert_eq!(
        classify_reload_error("invalid config in x"),
        "invalid_config"
    );
    assert_eq!(classify_reload_error("resolver init failed"), "build_error");
    assert_eq!(classify_reload_error("something else"), "other");
}

#[test]
fn config_sections_static_data_uses_default_view_records() {
    let mut cfg = AppConfig::default();
    cfg.static_records = vec![StaticRecord {
        qname: "global.example.com".to_string(),
        qtype: "A".to_string(),
        answer: "1.1.1.1".to_string(),
        ttl: 60,
    }];

    let mut default_view = DnsView::default();
    default_view.name = "default".to_string();
    default_view.static_records = vec![StaticRecord {
        qname: "default.example.com".to_string(),
        qtype: "A".to_string(),
        answer: "2.2.2.2".to_string(),
        ttl: 120,
    }];
    cfg.views = vec![default_view];

    let sections = build_config_sections(&cfg);
    assert_eq!(sections.static_data.static_records.len(), 1);
    assert_eq!(
        sections.static_data.static_records[0].qname,
        "default.example.com"
    );
    assert_eq!(sections.static_data.static_records[0].answer, "2.2.2.2");
}

#[test]
fn upsert_view_in_raw_rejects_renaming_default_view() {
    let raw = r#"
[[views]]
name = "default"
query_mode = "global_fallback"
client_cidrs = []
enable_recursion = true
static_records = []
blocked_domains = []
"#;

    let result = upsert_view_in_raw(
        raw,
        &ViewUpsertRequest {
            name: "renamed-default".to_string(),
            previous_name: Some("default".to_string()),
            summary: None,
            query_mode: "global_fallback".to_string(),
            client_cidrs: Vec::new(),
            static_records: Vec::new(),
            blocked_domains: Vec::new(),
            enable_recursion: true,
            view_static_cname_expand_for_address_queries: None,
            view_authoritative_cname_expand_for_address_queries: None,
        },
    );

    assert!(result.is_err());
    let err = result.unwrap_err().message();
    assert!(err.contains("immutable"));
}

#[test]
fn upsert_view_in_raw_rejects_rename_when_previous_not_found() {
    let raw = r#"
[[views]]
name = "default"
query_mode = "global_fallback"
client_cidrs = []
enable_recursion = true
static_records = []
blocked_domains = []

[[views]]
name = "test-view"
query_mode = "global_fallback"
client_cidrs = []
enable_recursion = true
static_records = []
blocked_domains = []
"#;

    let result = upsert_view_in_raw(
        raw,
        &ViewUpsertRequest {
            name: "test1".to_string(),
            previous_name: Some("missing-view".to_string()),
            summary: None,
            query_mode: "global_fallback".to_string(),
            client_cidrs: Vec::new(),
            static_records: Vec::new(),
            blocked_domains: Vec::new(),
            enable_recursion: true,
            view_static_cname_expand_for_address_queries: None,
            view_authoritative_cname_expand_for_address_queries: None,
        },
    );

    assert!(result.is_err());
    let err = result.unwrap_err().message();
    assert!(err.contains("previous view name not found"));
}

#[test]
fn delete_view_in_raw_rejects_deleting_default_view() {
    let raw = r#"
[[views]]
name = "default"
query_mode = "global_fallback"
client_cidrs = []
enable_recursion = true
static_records = []
blocked_domains = []
"#;

    let result = delete_view_in_raw(raw, "default");
    assert!(result.is_err());
    let err = result.unwrap_err().message();
    assert!(err.contains("cannot be deleted"));
}

#[test]
fn admin_auth_accepts_bearer_and_custom_header() {
    assert!(is_admin_request_authorized(None, Some("Bearer secret"), Some("secret")));
    assert!(is_admin_request_authorized(Some("secret"), None, Some("secret")));
    assert!(!is_admin_request_authorized(Some("secret"), None, Some("other")));
}

#[test]
fn update_config_sections_sets_default_view_data_file_paths() {
    let mut sections = build_config_sections(&AppConfig::default());
    sections.static_data.static_records = vec![StaticRecord {
        qname: "cfg.example.com".to_string(),
        qtype: "A".to_string(),
        answer: "3.3.3.3".to_string(),
        ttl: 300,
    }];
    sections.security.blocked_domains = vec!["ads.example.com".to_string()];

    let updated_raw = update_config_sections_in_raw("", &sections).expect("update config");
    let updated_cfg = document(&updated_raw);
    assert_eq!(
        updated_cfg["static_records_file"].as_str(),
        Some("config/default/static_records.toml")
    );
    assert!(updated_cfg.get("static_records").map_or(true, |v| v.as_array() == Some(&Vec::new())));
    assert_eq!(
        updated_cfg["blocked_domains_file"].as_str(),
        Some("config/default/blocked_domains.toml")
    );
    assert!(updated_cfg.get("blocked_domains").map_or(true, |v| v.as_array() == Some(&Vec::new())));
}

#[test]
fn config_sections_round_trip_advanced_fields() {
    let mut cfg = AppConfig::default();
    cfg.minimal_response = false;
    cfg.follow_cname_chain = false;
    cfg.iterative_address_family = IterativeAddressFamily::Ipv6;
    cfg.cname_chain_max_depth = 16;
    cfg.freeze_cache_domains = vec!["critical.example.com".to_string()];
    cfg.dnssec.trust_anchor_files = vec!["config/root.key".to_string()];
    cfg.authoritative_sources = vec![AuthoritativeSource {
        qname: "dynamic.example.com".to_string(),
        qtype: "TXT".to_string(),
        source: "https://example.com/dns/txt".to_string(),
        ttl: 60,
    }];
    cfg.prewarm_delegation_zones = vec![PreWarmZone {
        zone: "com.".to_string(),
        ns_endpoints: vec!["192.5.6.30:53".to_string()],
        ns_hostnames: vec![],
        ttl_secs: 900,
    }];

    let sections = build_config_sections(&cfg);
    assert!(!sections.advanced.minimal_response);
    assert!(!sections.advanced.follow_cname_chain);
    assert_eq!(sections.advanced.iterative_address_family, "ipv6");
    assert_eq!(sections.advanced.cname_chain_max_depth, 16);
    assert_eq!(
        sections.advanced.freeze_cache_domains,
        vec!["critical.example.com".to_string()]
    );
    assert_eq!(
        sections.advanced.dnssec_trust_anchor_files,
        vec!["config/root.key".to_string()]
    );
    assert_eq!(sections.advanced.authoritative_sources.len(), 1);
    assert_eq!(sections.advanced.prewarm_delegation_zones.len(), 1);

    let updated_raw = update_config_sections_in_raw("", &sections).expect("update config");
    let updated_cfg = document(&updated_raw);
    assert_eq!(updated_cfg["minimal_response"].as_bool(), Some(false));
    assert_eq!(updated_cfg["follow_cname_chain"].as_bool(), Some(false));
    assert_eq!(updated_cfg["iterative_address_family"].as_str(), Some("ipv6"));
    assert_eq!(updated_cfg["cname_chain_max_depth"].as_integer(), Some(16));
    assert_eq!(
        updated_cfg["freeze_cache_domains"],
        toml::Value::Array(vec![toml::Value::String("critical.example.com".to_string())])
    );
    assert_eq!(
        updated_cfg["dnssec"]["trust_anchor_files"],
        toml::Value::Array(vec![toml::Value::String("config/root.key".to_string())])
    );
    assert_eq!(updated_cfg["authoritative_sources"].as_array().map(|a| a.len()), Some(1));
    assert_eq!(updated_cfg["prewarm_delegation_zones"].as_array().map(|a| a.len()), Some(1));
}

#[test]
fn resolve_relative_config_path_prefers_existing_project_relative_path() {
    let target = "config/examples/authoritative_zones.example.toml";
    let below = text(Path::new("config/cognidns.toml").parent().expect("parent").join(target));
    let resolved =
        resolve_relative_config_path(target, Path::new(target).is_absolute(), true, &below);
    assert_eq!(
        PathBuf::from(resolved),
        PathBuf::from("config/examples/authoritative_zones.example.toml")
    );
}

#[test]
fn resolve_relative_config_path_falls_back_to_config_dir_relative_path() {
    let target = "authoritative_zones.example.toml";
    let below = text(Path::new("config/cognidns.toml").parent().expect("parent").join(target));
    let resolved =
        resolve_relative_config_path(target, Path::new(target).is_absolute(), false, &below);
    assert_eq!(
        PathBuf::from(resolved),
        PathBuf::from("config").join("authoritative_zones.example.toml")
    );
}

#[test]
fn resolve_path_relative_to_config_for_creation_normalizes_config_prefix() {
    let target = Path::new("config/default");
    let directory = Path::new("config/cognidns.toml").parent().expect("parent");
    let name = directory.file_name().expect("name");
    let shortened = target.strip_prefix(name).ok().map(|rest| text(directory.join(rest)));
    let resolved = resolve_path_relative_to_config_for_creation(
        "config/default",
        target.is_absolute(),
        &text(directory.join(target)),
        shortened.as_deref(),
    );
    assert_eq!(PathBuf::from(resolved), PathBuf::from("config/default"));
}

#[test]
fn ensure_view_data_paths_in_raw_sets_target_view() {
    let raw = r#"
[[views]]
name = "default"

[[views]]
name = "test-view"
"#;

    let (updated, found) =
        ensure_view_data_paths_in_raw(raw, "test-view").expect("update should succeed");

    assert!(found);
    let cfg = document(&updated);
    let view = view_named(&cfg, "test-view");
    assert_eq!(view["authoritative_zones_dir"].as_str(), Some("config/test-view"));
    assert_eq!(
        view["static_records_file"].as_str(),
        Some("config/test-view/static_records.toml")
    );
    assert_eq!(
        view["blocked_domains_file"].as_str(),
        Some("config/test-view/blocked_domains.toml")
    );
}

#[test]
fn upsert_view_in_raw_can_rename_and_update_metadata() {
    let raw = r#"
[[views]]
name = "default"
summary = "old summary"
query_mode = "global_fallback"
client_cidrs = ["10.0.0.0/8"]
enable_recursion = true
static_records = []
blocked_domains = []

[[views]]
name = "office"
summary = "office old"
query_mode = "global_fallback"
client_cidrs = ["172.16.0.0/16"]
enable_recursion = true
static_records = []
blocked_domains = []
"#;

    let (updated, found) = upsert_view_in_raw(
        raw,
        &ViewUpsertRequest {
            name: "corp".to_string(),
            previous_name: Some("office".to_string()),
            summary: Some("office clients".to_string()),
            query_mode: "view_only".to_string(),
            client_cidrs: vec!["192.168.10.0/24".to_string()],
            static_records: Vec::new(),
            blocked_domains: Vec::new(),
            enable_recursion: false,
            view_static_cname_expand_for_address_queries: None,
            view_authoritative_cname_expand_for_address_queries: None,
        },
    )
    .expect("rename should succeed");

    assert!(found);
    let cfg = document(&updated);
    assert_eq!(cfg["views"].as_array().map(|a| a.len()), Some(2));
    let view = view_named(&cfg, "corp");
    assert_eq!(view["summary"].as_str(), Some("office clients"));
    assert_eq!(view["query_mode"].as_str(), Some("view_only"));
    assert_eq!(
        view["client_cidrs"],
        toml::Value::Array(vec![toml::Value::String("192.168.10.0/24".to_string())])
    );
    assert_eq!(view["enable_recursion"].as_bool(), Some(false));
    assert!(cfg["views"]
        .as_array()
        .expect("views")
        .iter()
        .any(|view| view["name"].as_str().expect("name").eq_ignore_ascii_case("default")));
}

#[test]
fn upsert_view_in_raw_keeps_file_backed_view_data_out_of_inline_arrays() {
    let raw = r#"
[[views]]
name = "default"
query_mode = "global_fallback"
client_cidrs = []
enable_recursion = true
static_records_file = "config/default/static_records.toml"
blocked_domains_file = "config/default/blocked_domains.toml"
static_records = [{ qname = "a.example.com", qtype = "A", answer = "1.1.1.1", ttl = 60 }]
blocked_domains = ["legacy.example.com"]
"#;

    let (updated, found) = upsert_view_in_raw(
        raw,
        &ViewUpsertRequest {
            name: "default".to_string(),
            previous_name: None,
            summary: Some("updated".to_string()),
            query_mode: "global_fallback".to_string(),
            client_cidrs: Vec::new(),
            static_records: vec![StaticRecord {
                qname: "b.example.com".to_string(),
                qtype: "A".to_string(),
                answer: "2.2.2.2".to_string(),
                ttl: 60,
            }],
            blocked_domains: vec!["new-inline.example.com".to_string()],
            enable_recursion: true,
            view_static_cname_expand_for_address_queries: None,
            view_authoritative_cname_expand_for_address_queries: None,
        },
    )
    .expect("update should succeed");

    assert!(found);
    assert!(!updated.contains("legacy.example.com"));
    assert!(!updated.contains("new-inline.example.com"));

    let cfg = document(&updated);
    let view = view_named(&cfg, "default");
    assert_eq!(
        view["static_records_file"].as_str(),
        Some("config/default/static_records.toml")
    );
    assert_eq!(
        view["blocked_domains_file"].as_str(),
        Some("config/default/blocked_domains.toml")
    );
    assert!(view.get("static_records").is_none());
    assert!(view.get("blocked_domains").is_none());
}

#[test]
fn other_settings_survive_a_change_of_views() {
    let raw = "cache_ttl_secs = 77\n\n[[views]]\nname = \"default\"\n\n[[views]]\nname = \"lab\"\n";
    let (updated, found) = delete_view_in_raw(raw, "LAB").expect("delete");
    assert!(found);
    let cfg = document(&updated);
    assert_eq!(cfg["cache_ttl_secs"].as_integer(), Some(77));
    assert_eq!(cfg["views"].as_array().map(|a| a.len()), Some(1));
    let (_, again) = delete_view_in_raw(&updated, "lab").expect("delete");
    assert!(!again);
}

#[test]
fn broken_configurations_are_refused() {
    assert_eq!(delete_view_in_raw("views = [", "a"), Err(AdminError::InvalidToml));
    assert_eq!(delete_view_in_raw("views = 1", "a"), Err(AdminError::ViewsNotArray));
    assert_eq!(delete_view_in_raw("", "  "), Err(AdminError::ViewNameRequired));
    assert_eq!(
        delete_authoritative_zone_in_raw("authoritative_zones = 1", "a"),
        Err(AdminError::ZonesNotArray)
    );
}

#[test]
fn zones_are_put_in_and_taken_out() {
    let raw = upsert_authoritative_zone_in_raw("", &zone("example.com")).expect("upsert");
    let cfg = document(&raw);
    assert_eq!(cfg["authoritative_zones"][0]["name"].as_str(), Some("example.com"));
    assert_eq!(cfg["authoritative_zones"][0]["records"][0]["ttl"].as_integer(), Some(60));
    let (raw, found) = delete_authoritative_zone_in_raw(&raw, "EXAMPLE.com").expect("delete");
    assert!(found);
    assert_eq!(document(&raw)["authoritative_zones"].as_array().map(|a| a.len()), Some(0));
}

#[test]
fn zones_of_a_view_are_handed_out_and_replaced() {
    let raw = "[[views]]\nname = \"lab\"\n[[views.authoritative_zones]]\nname = \"a.example\"\n";
    let inline = view_zones_in_raw(raw, "lab").expect("zones").expect("some");
    assert_eq!(document(&inline)["zones"][0]["name"].as_str(), Some("a.example"));
    let updated = replace_view_zones_in_raw(raw, "lab", &vec![zone("b.example")]).expect("replace");
    let cfg = document(&updated);
    assert_eq!(
        view_named(&cfg, "lab")["authoritative_zones"][0]["name"].as_str(),
        Some("b.example")
    );
}

#[test]
fn zone_names_are_inferred() {
    assert_eq!(
        infer_authoritative_zone_name(&vec![record("www.example.com"), record("mail.example.com")])
            .as_deref(),
        Some("example.com")
    );
    assert_eq!(infer_authoritative_zone_name(&vec![]), None);
    assert!(is_same_zone_name("Example.com.", "example.COM"));
    assert_eq!(zone_file_name("example.com."), "example.com.toml");
}

#[test]
fn start_of_authority_is_read() {
    let payload = read_document(
        r#"{"mname": "ns1.example.com", "rname": "admin.example.com", "serial": 1,
            "refresh": 2, "retry": 3, "expire": 4, "minimum_ttl": 5}"#,
    )
    .expect("json");
    let soa = parse_zone_soa_payload(&payload).expect("soa");
    assert_eq!((soa.serial, soa.minimum_ttl), (1, 5));
    let short = read_document(r#"{"mname": "ns1.example.com"}"#).expect("json");
    let err = parse_zone_soa_payload(&short).expect_err("incomplete");
    assert!(err.message().contains("rname"));
    let mut zones = vec![zone("example.com")];
    assert!(matches!(update_zone_soa_in_list(&mut zones, "example.com", &payload), Ok(true)));
    assert_eq!(zones[0].soa.as_ref().map(|s| s.refresh), Some(2));
    assert!(delete_zone_from_list(&mut zones, "example.com"));
    assert!(zones.is_empty());
    assert_eq!(build_default_zone_soa("example.com", 60).minimum_ttl, 60);
}

#[test]
fn blocked_domains_are_normalized() {
    let list = vec![" Ads.Example.com. ".to_string(), "".to_string(), "ads.example.com".to_string()];
    assert_eq!(normalize_blocked_domains(&list), vec!["ads.example.com".to_string()]);
}

#[test]
fn view_names_become_directories() {
    assert_eq!(sanitize_view_name_for_dir("a/b"), "a_b");
    assert_eq!(sanitize_view_name_for_dir("lab"), "lab");
}

#[test]
fn log_files_are_checked_and_listed() {
    assert!(validate_log_file_name("query.log"));
    assert!(!validate_log_file_name("../query.log"));
    assert!(!validate_log_file_name(""));
    let entry = |name: &str, modified: Option<u64>| LogFileEntry {
        name: name.to_string(),
        size_bytes: 1,
        modified_unix_secs: modified,
    };
    let sorted = sort_log_files(vec![entry("a", Some(1)), entry("b", Some(9)), entry("c", None)]);
    let names: Vec<&str> = sorted.iter().map(|f| f.name.as_str()).collect();
    assert_eq!(names, vec!["b", "a", "c"]);
}

#[test]
fn rankings_are_bounded() {
    assert_eq!(top_n_entries(None), 10);
    assert_eq!(top_n_entries(Some(1_000_000)), 100);
    assert_eq!(top_n_entries(Some(0)), 1);
    assert_eq!(top_n_window(None), 300);
    assert_eq!(readiness(1).0, 200);
    assert_eq!(readiness(0).0, 503);
}

#[test]
fn plans_stop_at_the_first_failure() {
    let plan = zone_delete_plan(true);
    let last = plan.len() - 1;
    assert!(matches!(advance(&plan, 0, true), Next::Do(_)));
    assert!(matches!(advance(&plan, last + 1, false), Next::Fail(_)));
    assert!(matches!(advance(&plan, last + 1, true), Next::Succeed));
    assert!(view_data_plan(false, false, false).is_err());
    assert_eq!(change_message(Change::ViewZoneDeleted, "lab", "a.b"), "view authoritative zone deleted: lab/a.b");
    assert_eq!(Failure::ViewNotFound.status(), 404);

}

#[test]
fn effective_views_hold_the_default_view() {
    let views = build_effective_views(&AppConfig::default());
    assert!(views.iter().any(|v| v.name.eq_ignore_ascii_case("default")));
}

#[test]
fn backups_keep_the_first_content() {
    let mut list = Vec::new();
    remember(&mut list, "a.toml", Some("old".to_string()));
    remember(&mut list, "a.toml", Some("new".to_string()));
    remember(&mut list, "b.toml", None);
    assert_eq!(list.len(), 2);
    assert_eq!(list[0].content.as_deref(), Some("old"));
    assert_eq!(list[1].content, None);
}

#[test]
fn changed_file_is_put_back() {
    let walk = |fails: Option<FileStep>| {
        let mut steps = Vec::new();
        let mut last = None;
        let mut ok = true;
        loop {
            match next_file_step(true, last, ok) {
                FileNext::Do(step) => {
                    steps.push(step);
                    ok = Some(step) != fails;
                    last = Some(step);
                }
                end => return (steps, end),
            }
        }
    };
    let (steps, end) = walk(None);
    assert_eq!(end, FileNext::Succeed);
    assert_eq!(
        steps,
        vec![FileStep::Check, FileStep::ReadOld, FileStep::Store, FileStep::Reload]
    );
    let (steps, end) = walk(Some(FileStep::Reload));
    assert_eq!(end, FileNext::Fail);
    assert_eq!(steps[4..], [FileStep::PutBack, FileStep::ReloadAgain]);
    let (steps, end) = walk(Some(FileStep::Check));
    assert_eq!(end, FileNext::Fail);
    assert_eq!(steps, vec![FileStep::Check]);
}

#[test]
fn data_files_are_written_as_documents() {
    let text = serialize_static_records_file(&vec![record("a.example")]).expect("text");
    let read = document(&text);
    assert_eq!(read["static_records"][0]["answer"].as_str(), Some("1.1.1.1"));
    assert_eq!(read["static_records"][0]["ttl"].as_integer(), Some(60));
    assert_eq!(serialize_static_records_file(&vec![]).expect("text"), "static_records = []\n");
    let text = serialize_blocked_domains_file(&vec!["a.example".to_string()]).expect("text");
    assert_eq!(text, "blocked_domains = [\"a.example\"]\n");
    let text = serialize_zone_file(&zone("b.example")).expect("text");
    let read = document(&text);
    assert_eq!(read["name"].as_str(), Some("b.example"));
    assert!(read.get("soa").is_none());
    let text = serialize_zones_file(&vec![zone("b.example")]).expect("text");
    let read = document(&text);
    assert_eq!(read["zones"][0]["name"].as_str(), Some("b.example"));
}

#[test]
fn changes_of_the_cache_are_told() {
    assert_eq!(freeze_all_message(true), "cache freeze-all enabled");
    assert_eq!(freeze_all_message(false), "cache freeze-all disabled");
    assert_eq!(freeze_domain_message("a.example", true), "cache freeze-domain added: a.example");
    assert_eq!(freeze_domain_message("a.example", false), "cache freeze-domain removed: a.example");
    assert_eq!(clear_domain_message("a.example"), "cache cleared for domain: a.example");
}
