//! The control protocol and the control program.
use cognidns::control::{
    frame_length, read_frame, write_frame, ControlCommand, ControlResponse, FrameError,
    CONTROL_PROTOCOL_VERSION,
};
use cognidns::ctl_cli::{
    describe_failure, find_target, option_value, parse_cache_command, parse_control_command,
    parse_top_command, read_top_response, settings_file, CtlAction, TopView,
};
use cognidns::ctl_config::CtlConfig;
use cognidns::json_doc::{read_document, JsonValue};

fn args(list: &[&str]) -> Vec<String> {
    list.iter().map(|s| s.to_string()).collect()
}

#[test]
fn read_request_accepts_valid_frame() {
    let payload = br#"{"version":1,"token":null,"command":"health"}"#;
    let frame = write_frame(payload).expect("frame");
    assert_eq!(&frame[..4], &(payload.len() as u32).to_be_bytes());
    assert_eq!(read_frame(&frame).expect("payload"), payload.to_vec());
}

#[test]
fn read_request_rejects_invalid_json_payload() {
    let frame = write_frame(b"{ not-json }").expect("frame");
    let payload = read_frame(&frame).expect("payload");
    let text = String::from_utf8(payload).expect("text");
    assert!(read_document(&text).is_none());
}

#[test]
fn read_request_rejects_empty_frame() {
    let err = read_frame(&0u32.to_be_bytes()).expect_err("empty frame should be rejected");
    assert!(err.message().contains("empty frame"));
}

#[test]
fn read_request_rejects_truncated_frame_payload() {
    let mut bytes = 8u32.to_be_bytes().to_vec();
    bytes.extend_from_slice(b"{}{}");
    let err = read_frame(&bytes).expect_err("truncated frame should be rejected");
    assert!(matches!(err, FrameError::Truncated));
    let message = err.message().to_ascii_lowercase();
    assert!(message.contains("early eof") || message.contains("unexpected end"));
}

#[test]
fn read_request_rejects_frame_larger_than_limit() {
    let err = frame_length((8 * 1024 * 1024 + 1) as u32)
        .expect_err("oversized frame should be rejected");
    assert!(err.message().contains("frame too large"));
}

#[test]
fn write_response_includes_version_and_code() {
    let data = read_document(r#"{"k": 1}"#);
    let resp = ControlResponse::ok("ok", data);
    assert_eq!(resp.version, CONTROL_PROTOCOL_VERSION);
    assert_eq!(resp.code, "ok");
    let failed = ControlResponse::error("unauthorized", "no");
    assert_eq!(failed.status, "error");
    assert!(failed.data.is_none());
}

#[test]
fn empty_and_oversized_payloads_are_not_written() {
    assert!(matches!(write_frame(&[]), Err(FrameError::EmptyPayload)));
    let large = vec![0u8; 8 * 1024 * 1024 + 1];
    assert!(matches!(write_frame(&large), Err(FrameError::PayloadTooLarge(_))));
}

#[test]
fn default_values_are_stable() {
    let cfg = CtlConfig::default();
    assert_eq!(cfg.server, "127.0.0.1:19090");
    assert_eq!(cfg.timeout_ms, 5000);
    assert_eq!(cfg.output, "json");
    assert!(cfg.token.is_none());
}

#[test]
fn load_or_default_recovers_legacy_control_fields() {
    let raw = "control_listen = \"127.0.0.1:20001\"\ncontrol_token = \"abc\"\n";
    let cfg = CtlConfig::from_raw(raw, "cognidns_ctl_legacy.toml").expect("load");
    assert_eq!(cfg.server, "127.0.0.1:20001");
    assert_eq!(cfg.token.as_deref(), Some("abc"));
}

#[test]
fn broken_ctl_config_is_refused() {
    assert!(CtlConfig::from_raw("server = ", "x.toml").is_err());
    let cfg = CtlConfig {
        server: " ".to_string(),
        ..CtlConfig::default()
    };
    let err = cfg.validate().expect_err("blank server");
    assert_eq!(err.message, "control server must not be empty");
}

#[test]
fn options_follow_their_names() {
    let list = args(&["top", "queries", "--top", "5", "--window", "x"]);
    assert_eq!(option_value(&list, "--top").as_deref(), Some("5"));
    assert_eq!(option_value(&list, "--none"), None);
    match parse_top_command(&list, "ctl") {
        Ok(CtlAction::Send(ControlCommand::TopQueries { n, window_secs })) => {
            assert_eq!((n, window_secs), (5, 300));
        }
        _ => panic!("top queries expected"),
    }
}

#[test]
fn cache_commands() {
    match parse_cache_command(&args(&["cache", "freeze", "domain", "a.example", "on"]), "ctl") {
        Ok(CtlAction::Send(ControlCommand::CacheFreezeDomain { domain, enabled })) => {
            assert_eq!(domain, "a.example");
            assert!(enabled);
        }
        _ => panic!("freeze expected"),
    }
    match parse_cache_command(&args(&["cache", "clear", "b.example"]), "ctl") {
        Ok(CtlAction::Send(ControlCommand::CacheClearDomain { domain })) => {
            assert_eq!(domain, "b.example");
        }
        _ => panic!("clear expected"),
    }
    match parse_cache_command(&args(&["cache", "import"]), "ctl") {
        Ok(CtlAction::ImportFrom(path)) => assert_eq!(path, "cache_dump.json"),
        _ => panic!("import expected"),
    }
    let refused = |list: &[&str]| match parse_cache_command(&args(list), "ctl") {
        Err(e) => e.message,
        Ok(_) => panic!("refusal expected"),
    };
    assert_eq!(
        refused(&["cache", "freeze", "all", "maybe"]),
        "expected on/off, got: maybe"
    );
    assert_eq!(
        refused(&["cache", "freeze", "all"]),
        "usage: ctl cache freeze all <on|off> | domain <name> <on|off>"
    );
    assert_eq!(refused(&["cache", "drop"]), "unknown cache subcommand: drop");
    assert_eq!(
        refused(&["cache", "clear", "domain"]),
        "usage: ctl cache clear domain <name>"
    );
}

#[test]
fn control_words() {
    assert!(matches!(
        parse_control_command(&args(&["reload"]), "ctl"),
        Ok(CtlAction::Send(ControlCommand::Reload))
    ));
    match parse_control_command(&args(&["jump"]), "ctl") {
        Err(e) => assert_eq!(e.message, "unknown ctl subcommand: jump"),
        Ok(_) => panic!("refusal expected"),
    }
    match parse_control_command(&[].to_vec(), "ctl") {
        Err(e) => assert!(e.message.starts_with("usage: ctl <start|stop|reload")),
        Ok(_) => panic!("refusal expected"),
    }
}

#[test]
fn failures_are_described() {
    assert_eq!(describe_failure("ok", "ok", "", "s", "c"), None);
    assert_eq!(
        describe_failure("ERROR", "bad", "m", "s", "c").as_deref(),
        Some("control command failed: server=s code=bad message=m")
    );
    let text = describe_failure("error", "unauthorized", "m", "s", "c").expect("text");
    assert!(text.starts_with("control command unauthorized: server=s config=c message=m. "));
}

#[test]
fn rankings_are_read() {
    assert!(matches!(read_top_response(None, true), TopView::NoData));
    let empty = read_document("{}").expect("json");
    assert!(matches!(read_top_response(Some(&empty), true), TopView::Empty));
    let disabled = read_document(r#"{"enabled": false, "entries": []}"#).expect("json");
    assert!(matches!(read_top_response(Some(&disabled), true), TopView::Disabled));
    let full = read_document(
        r#"{"enabled": true, "window_secs": 60, "entries": [
            {"domain": "a.example", "count": 7, "success_count": 6, "success_rate": 85.5}, {}]}"#,
    )
    .expect("json");
    match read_top_response(Some(&full), true) {
        TopView::Rows(window, rows) => {
            assert_eq!(window, 60);
            assert_eq!(rows[0].name, "a.example");
            assert_eq!((rows[0].count, rows[0].success_count), (7, 6));
            assert_eq!(rows[0].success_rate.as_deref(), Some("85.5"));
            assert_eq!(rows[1].name, "-");
            assert_eq!(rows[1].success_rate, None);
        }
        _ => panic!("rows expected"),
    }
    let scalar = JsonValue::Bool(true);
    assert!(matches!(read_top_response(Some(&scalar), false), TopView::Empty));
}

#[test]
fn options_go_before_the_settings() {
    let none = find_target(&args(&["stats"]), "s:1".to_string(), Some("t".to_string()));
    assert_eq!((none.server.as_str(), none.token.as_deref()), ("s:1", Some("t")));
    assert_eq!(none.output, "cache_dump.json");
    let list = args(&["cache", "export", "--server", "o:2", "--token", "u", "--out", "d.json"]);
    let all = find_target(&list, "s:1".to_string(), None);
    assert_eq!((all.server.as_str(), all.token.as_deref()), ("o:2", Some("u")));
    assert_eq!(all.output, "d.json");
    assert_eq!(settings_file(&args(&["stats"])), "config/cognidns-ctl.toml");
    assert_eq!(settings_file(&args(&["stats", "--config", "c.toml"])), "c.toml");
}
