//! Errors in words.
use cognidns::context::Protocol;
use cognidns::error::DnsError;

#[test]
fn dns_error_display_formats_correctly() {
    let err = DnsError::MalformedPacket {
        reason: "truncated header".into(),
    };
    assert_eq!(err.message(), "malformed DNS packet: truncated header");
}

#[test]
fn dns_error_converts_to_anyhow() {
    let dns_err = DnsError::InvalidConfig {
        reason: "missing upstream".into(),
    };
    let anyhow_err: anyhow::Error = anyhow::Error::msg(dns_err.message());
    assert!(anyhow_err.to_string().contains("missing upstream"));
}

#[test]
fn poisoned_mutex_names_its_component() {
    let err = DnsError::mutex_poisoned("cache", "panic");
    assert!(err.message().contains("cache"));
    assert!(err.message().contains("panic"));
}

#[test]
fn protocol_labels() {
    assert_eq!(Protocol::Udp.as_str(), "udp");
    assert_eq!(Protocol::Doh.as_str(), "doh");
}
