//! What comes in over the transports, and what goes out.
use cognidns::bench::args::build_query;
use cognidns::context::Protocol;
use cognidns::exchange::{proceed, Action, Event, Move, Source};
use cognidns::ingress::{
    answer_query, check_post, denial, frame_for_stream, query_of_get, stream_message_length,
    take_in, HttpRefusal, Intake,
};
use cognidns::tls::{
    check_certificates, check_private_key, read_certificates, read_private_key, KeyForm,
};

fn query() -> Vec<u8> {
    build_query(0x1234, "www.example.com", 1).expect("query")
}

#[test]
fn queries_are_taken_in() {
    match take_in(&query()) {
        Intake::Query(q) => {
            assert_eq!(q.request_id, 0x1234);
            assert_eq!(q.query_name.as_deref(), Some("www.example.com"));
            assert_eq!(q.query_type, Some(1));
        }
        _ => panic!("query expected"),
    }
    assert!(matches!(take_in(&[1, 2, 3]), Intake::Malformed));
    let mut versioned = query();
    versioned[11] = 1;
    versioned.extend_from_slice(&[0, 0, 41, 16, 0, 0, 1, 0, 0, 0, 0]);
    match take_in(&versioned) {
        Intake::UnsupportedVersion(q, answer) => {
            assert_eq!(&answer[..2], &[0x12, 0x34]);
            assert_eq!(q.request_id, 0x1234);
            assert_eq!(q.query_name.as_deref(), Some("www.example.com"));
            assert_eq!(q.query_type, Some(1));
        }
        _ => panic!("version refusal expected"),
    }
    let m = moved(Protocol::Udp, &versioned, Event::Arrived);
    assert!(matches!(m.action, Action::Send(_)));
    assert_eq!(m.note.expect("note").rcode, 16);
    assert_eq!(m.query.expect("query").query_name.as_deref(), Some("www.example.com"));
}

#[test]
fn refused_queries_are_answered() {
    assert!(denial(&query(), true, 5).is_none());
    let answer = denial(&query(), false, 5).expect("denied").expect("answer");
    assert_eq!(&answer[..2], &[0x12, 0x34]);
    assert_eq!(answer[3] & 0x0f, 5);
}

#[test]
fn failed_resolution_is_a_server_failure() {
    let out = answer_query(&query(), None).expect("answer");
    assert_eq!((out.rcode, out.success), (2, false));
    assert_eq!(out.packet[3] & 0x0f, 2);
    let out = answer_query(&query(), Some(query())).expect("answer");
    assert_eq!(out.rcode, 0);
}

#[test]
fn stream_framing() {
    assert_eq!(stream_message_length(0, 0), None);
    assert_eq!(stream_message_length(0x10, 0), Some(4096));
    assert_eq!(stream_message_length(0x10, 1), None);
    assert_eq!(frame_for_stream(&[7, 8, 9]), vec![0, 3, 7, 8, 9]);
}

#[test]
fn queries_over_http() {
    assert_eq!(query_of_get(Some("AAEC")), Ok(vec![0, 1, 2]));
    assert_eq!(query_of_get(None), Err(HttpRefusal::MissingParameter));
    assert_eq!(query_of_get(Some("*")), Err(HttpRefusal::InvalidParameter));
    assert_eq!(check_post(Some("application/dns-message")), Ok(()));
    assert_eq!(check_post(Some("text/plain")), Err(HttpRefusal::WrongContentType));
    assert_eq!(HttpRefusal::WrongContentType.status(), 415);
}

fn moved(protocol: Protocol, packet: &[u8], event: Event) -> Move {
    proceed(protocol, packet, event)
}

#[test]
fn query_takes_its_course() {
    let m = moved(Protocol::Udp, &query(), Event::Arrived);
    assert!(matches!(m.action, Action::Judge));
    assert_eq!(m.query.map(|q| q.request_id), Some(0x1234));
    assert!(m.note.is_none());
    let m = moved(Protocol::Udp, &query(), Event::Judged(true, 0));
    assert!(matches!(m.action, Action::Resolve));
    let m = moved(Protocol::Udp, &query(), Event::Resolved(Some(query())));
    assert!(matches!(m.action, Action::Send(p) if p == query()));
    let note = m.note.expect("note");
    assert_eq!((note.source, note.rcode), (Source::Resolver, 0));
    assert!(note.measured && note.success);
}

#[test]
fn refusals_are_sent_and_noted() {
    let m = moved(Protocol::Tcp, &query(), Event::Judged(false, 5));
    match m.action {
        Action::Send(p) => assert_eq!((p[0], p[1], p[3] & 0x0f), (0x12, 0x34, 5)),
        _ => panic!("answer expected"),
    }
    let note = m.note.expect("note");
    assert_eq!((note.source, note.rcode), (Source::Policy, 5));
    assert!(note.measured && !note.success);
    let m = moved(Protocol::Udp, &query(), Event::Resolved(None));
    assert!(matches!(m.action, Action::Send(p) if p[3] & 0x0f == 2));
    assert!(!m.note.expect("note").measured);
    let m = moved(Protocol::Doh, &query(), Event::Resolved(None));
    assert!(m.note.expect("note").measured);
}

#[test]
fn transports_differ_where_nothing_can_be_answered() {
    let mut broken = query();
    broken.truncate(13);
    assert!(matches!(moved(Protocol::Udp, &[1], Event::Arrived).action, Action::Skip));
    assert!(matches!(
        moved(Protocol::Doh, &[1], Event::Arrived).action,
        Action::Refuse(HttpRefusal::Malformed)
    ));
    assert!(matches!(moved(Protocol::Udp, &broken, Event::Judged(false, 5)).action, Action::Skip));
    assert!(matches!(moved(Protocol::Dot, &broken, Event::Judged(false, 5)).action, Action::Close(_)));
    assert!(matches!(moved(Protocol::Dot, &broken, Event::Resolved(None)).action, Action::Skip));
    assert!(matches!(
        moved(Protocol::Doh, &broken, Event::Resolved(None)).action,
        Action::Refuse(HttpRefusal::Unanswerable)
    ));
}

#[test]
fn certificates_and_keys_are_read_from_pem() {
    let section = |name: &str, body: &str| {
        format!("-----BEGIN {name}-----\n{body}\n-----END {name}-----\n")
    };
    let two = format!(
        "{}{}{}",
        section("CERTIFICATE", "AQID"),
        section("PRIVATE KEY", "BAU="),
        section("CERTIFICATE", "Bgc=")
    );
    assert_eq!(
        read_certificates(two.as_bytes(), "c.pem").expect("certificates"),
        vec![vec![1, 2, 3], vec![6, 7]]
    );
    let e = read_certificates(b"nothing", "c.pem").expect_err("no certificate");
    assert_eq!((e.message.as_str(), e.cause), ("no certificates found in c.pem", None));
    let open = "-----BEGIN CERTIFICATE-----\nAQID\n";
    let e = read_certificates(open.as_bytes(), "c.pem").expect_err("no end");
    assert_eq!(e.message, "failed to parse TLS cert file: c.pem");
    let words = rustls_pemfile::certs(&mut open.as_bytes())
        .next()
        .expect("item")
        .expect_err("error")
        .to_string();
    assert_eq!(e.cause, Some(words));
    for (name, form) in [
        ("RSA PRIVATE KEY", KeyForm::Pkcs1),
        ("EC PRIVATE KEY", KeyForm::Sec1),
        ("PRIVATE KEY", KeyForm::Pkcs8),
    ] {
        let text = format!("{}{}", section("CERTIFICATE", "AQID"), section(name, "BAU="));
        let key = read_private_key(text.as_bytes(), "k.pem").expect("key");
        assert_eq!((key.form, key.der), (form, vec![4, 5]));
    }
    let none = section("CERTIFICATE", "AQID");
    let e = read_private_key(none.as_bytes(), "k.pem").expect_err("no key");
    assert_eq!((e.message.as_str(), e.cause), ("no private key found in k.pem", None));
    let bad = section("PRIVATE KEY", "*");
    let e = read_private_key(bad.as_bytes(), "k.pem").expect_err("no base 64");
    assert_eq!(e.message, "failed to parse TLS key file: k.pem");
    assert!(e.cause.is_some());
    let e = check_certificates(Err("words".to_string()), "x").expect_err("refused");
    assert_eq!(e.cause.as_deref(), Some("words"));
    assert!(check_private_key(Ok(None), "x").is_err());
}
