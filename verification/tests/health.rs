//! Checks of addresses and reports of their failure.
use cognidns::health::{HealthCheckConfig, IpHealthManager};
use cognidns::json_doc::{read_document, JsonValue};
use cognidns::probe::{
    after_attempt, build_webhook_body, check_http_answer, host_for, http_probe_request,
    https_probe_url, is_good_status, parse_http_like_url, path_for, pinned_host, probe_address, probe_kind, round_interval_secs, checks_at_once,
    unhealthy_log_line, webhook_timeout_ms, AfterAttempt, ProbeKind,
};

fn enabled() -> HealthCheckConfig {
    HealthCheckConfig {
        enabled: true,
        notify_webhook: Some("http://hook.example/x".to_string()),
        ..HealthCheckConfig::default()
    }
}

fn ips() -> Vec<String> {
    vec!["192.0.2.1".to_string(), "192.0.2.2".to_string()]
}

#[test]
fn healthy_addresses_come_first() {
    let mut m = IpHealthManager::new(enabled());
    m.register_domain_ips("Example.com.", &ips());
    assert_eq!(m.collect_workload().len(), 2);
    let failed = Err("refused".to_string());
    m.update_probe_result("example.com", "192.0.2.1", &failed, 10);
    assert_eq!(m.prefer_healthy_ips("example.com", &ips()), ips());
    m.update_probe_result("example.com", "192.0.2.1", &failed, 20);
    m.update_probe_result("example.com", "192.0.2.2", &Ok(()), 20);
    assert_eq!(
        m.prefer_healthy_ips("example.com", &ips()),
        vec!["192.0.2.2".to_string(), "192.0.2.1".to_string()]
    );
    assert!(!m.all_unhealthy_for_domain("example.com", &ips()));
    let s = m.summary();
    assert_eq!((s.tracked_domains, s.tracked_ips), (1, 2));
}

#[test]
fn events_are_reported_once_a_minute() {
    let mut m = IpHealthManager::new(enabled());
    m.register_domain_ips("example.com", &ips());
    let failed = Err("refused".to_string());
    for ip in ips() {
        m.update_probe_result("example.com", &ip, &failed, 10);
        m.update_probe_result("example.com", &ip, &failed, 20);
    }
    assert!(m.all_unhealthy_for_domain("example.com", &ips()));
    let event = m.record_all_unhealthy_event("example.com", &ips(), 1_000).expect("event");
    assert_eq!(event.webhook.as_deref(), Some("http://hook.example/x"));
    assert!(m.record_all_unhealthy_event("example.com", &ips(), 60_999).is_none());
    assert!(m.record_all_unhealthy_event("example.com", &ips(), 61_000).is_some());
    assert_eq!(m.summary().all_unhealthy_events, 2);
    m.record_notify_attempt(false);
    m.record_notify_attempt(true);
    m.record_notify_failure();
    let s = m.summary();
    assert_eq!((s.notify_attempt_total, s.notify_fail_total), (2, 2));
}

#[test]
fn disabled_checks_do_nothing() {
    let mut m = IpHealthManager::new(HealthCheckConfig::default());
    m.register_domain_ips("example.com", &ips());
    assert!(m.collect_workload().is_empty());
    assert!(!m.all_unhealthy_for_domain("example.com", &ips()));
    assert!(m.record_all_unhealthy_event("example.com", &ips(), 1).is_none());
}

#[test]
fn settings_are_checked() {
    let broken = |c: HealthCheckConfig| c.validate().expect_err("refusal").message;
    assert!(HealthCheckConfig::default().validate().is_ok());
    assert!(enabled().validate().is_ok());
    assert_eq!(
        broken(HealthCheckConfig { mode: "icmp".to_string(), ..enabled() }),
        "health_check.mode must be either 'tcp', 'http' or 'https'"
    );
    assert_eq!(
        broken(HealthCheckConfig { port: 0, ..enabled() }),
        "health_check.port must be greater than 0"
    );
    assert_eq!(
        broken(HealthCheckConfig { notify_webhook_retries: 11, ..enabled() }),
        "health_check.notify_webhook_retries must be <= 10"
    );
}

#[test]
fn probes_are_written() {
    let mut c = enabled();
    c.http_path = "/status".to_string();
    assert!(matches!(probe_kind("HTTPS"), ProbeKind::Https));
    assert!(matches!(probe_kind("other"), ProbeKind::Tcp));
    assert_eq!(host_for(&c, "192.0.2.1"), "192.0.2.1");
    assert_eq!(path_for(&c), "/status");
    assert_eq!(probe_address(&c, "192.0.2.1"), "192.0.2.1:80");
    assert_eq!(https_probe_url(&c, "192.0.2.1"), "https://192.0.2.1:80/status");
    assert!(http_probe_request(&c, "192.0.2.1")
        .starts_with("HEAD /status HTTP/1.1\r\nHost: 192.0.2.1\r\nConnection: close\r\n"));
    assert!(check_http_answer(b"HTTP/1.1 301 Moved").is_ok());
    assert!(check_http_answer(b"HTTP/1.1 404 Not Found").is_err());
    assert!(check_http_answer(b"").is_err());
    assert!(is_good_status(204) && is_good_status(302) && !is_good_status(500));
    c.interval_secs = 0;
    c.max_parallel = 0;
    assert_eq!((round_interval_secs(&c), checks_at_once(&c)), (1, 1));
    c.interval_secs = 7;
    c.max_parallel = 9;
    assert_eq!((round_interval_secs(&c), checks_at_once(&c)), (7, 9));
    assert_eq!(pinned_host(&c, "192.0.2.1"), None);
    c.http_host_header = Some("www.example.com".to_string());
    assert_eq!(pinned_host(&c, "192.0.2.1").as_deref(), Some("www.example.com"));
    assert_eq!(pinned_host(&c, "2001:db8::1").as_deref(), Some("www.example.com"));
    assert_eq!(pinned_host(&c, "www.example.net"), None);
    c.http_host_header = Some("192.0.2.1".to_string());
    assert_eq!(pinned_host(&c, "192.0.2.1"), None);
}

#[test]
fn reports_are_written_and_retried() {
    let c = enabled();
    assert_eq!(webhook_timeout_ms(&c), 1000);
    assert!(matches!(after_attempt(&c, 0, true), AfterAttempt::Done));
    assert!(matches!(after_attempt(&c, 1, false), AfterAttempt::RetryAfter(1000)));
    assert!(matches!(after_attempt(&c, 2, false), AfterAttempt::GiveUp));
    assert_eq!(
        parse_http_like_url(" HTTP://hook.example ").is_some(),
        false
    );
    assert_eq!(
        parse_http_like_url(" http://Hook.example ").as_deref(),
        Some("http://hook.example/")
    );
    assert_eq!(parse_http_like_url("ftp://hook.example"), None);
    let body = build_webhook_body(7, "tcp", "a.example", &ips(), "now");
    assert_eq!(
        body,
        "{\"domain\":\"a.example\",\"event\":\"all_unhealthy\",\"ips\":[\"192.0.2.1\",\"192.0.2.2\"],\
         \"probe_mode\":\"tcp\",\"request_id\":\"health-7\",\"time\":\"now\"}"
    );
    assert!(matches!(read_document(&body), Some(JsonValue::Object(_))));
    assert_eq!(
        unhealthy_log_line("now", "a.example", &ips()),
        "time=now event=all_unhealthy domain=a.example ips=192.0.2.1,192.0.2.2\n"
    );
}

#[test]
fn addresses_are_unhealthy_after_enough_failures() {
    let mut m = IpHealthManager::new(HealthCheckConfig {
        failure_threshold: 3,
        ..enabled()
    });
    m.register_domain_ips("Example.com.", &ips());
    let failed = Err("refused".to_string());
    for now in 0..3 {
        m.update_probe_result("example.com", "192.0.2.1", &failed, now);
    }
    for now in 0..2 {
        m.update_probe_result("example.com", "192.0.2.2", &failed, now);
    }
    assert!(m.all_unhealthy_for_domain("example.com", &ips()[..1].to_vec()));
    assert!(!m.all_unhealthy_for_domain("example.com", &ips()));
    m.update_probe_result("example.com", "192.0.2.2", &failed, 9);
    assert!(m.all_unhealthy_for_domain("EXAMPLE.com", &ips()));
    assert!(!m.all_unhealthy_for_domain("example.com", &vec![]));
    assert!(!m.all_unhealthy_for_domain("example.com", &vec!["192.0.2.7".to_string()]));
}
