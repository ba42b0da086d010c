//! The load generator and the servers that it is run against.
use cognidns::bench::args::{
    build_query, effective_qname, parse_args, query_id, record_benchmark_outcome, Outcome,
    QNameMode, Tally, TransportProtocol,
};
use cognidns::bench::fixture::{
    append_name, bootstrap_answer, build_answer_a_response, build_empty_noerror_response,
    choose_answer, dnssec_time_window, dnssec_trust_anchor_line, parse_first_question_name,
    question_end, root_answer, FixtureAnswer,
};
use cognidns::bench::stats::{read_stats, stats_request, StatsError};

fn args(list: &[&str]) -> Vec<String> {
    list.iter().map(|s| s.to_string()).collect()
}

fn refusal(list: &[&str]) -> String {
    match parse_args(&args(list)) {
        Err(e) => e,
        Ok(_) => panic!("refusal expected"),
    }
}

#[test]
fn defaults_of_the_load_generator() {
    let c = parse_args(&vec![]).expect("defaults");
    assert_eq!(c.server, "127.0.0.1:5301");
    assert_eq!(c.qname, "bench.example");
    assert_eq!((c.qtype, c.concurrency, c.duration_sec), (1, 32, 15));
    assert_eq!((c.warmup_sec, c.timeout_ms), (3, 1000));
    assert!(c.admin_addr.is_none());
}

#[test]
fn arguments_are_read() {
    let c = parse_args(&args(&[
        "--qtype", "aaaa", "--protocol", "tcp", "--qname-mode", "unique", "--concurrency", "+4",
    ]))
    .expect("arguments");
    assert_eq!((c.qtype, c.concurrency), (28, 4));
    assert!(matches!(c.protocol, TransportProtocol::Tcp));
    assert!(matches!(c.qname_mode, QNameMode::Unique));
}

#[test]
fn wrong_arguments_are_refused() {
    assert_eq!(refusal(&["--server"]), "missing value for --server");
    assert_eq!(refusal(&["--protocol", "quic"]), "unsupported --protocol: quic");
    assert_eq!(refusal(&["--qname-mode", "x"]), "unsupported --qname-mode: x");
    assert_eq!(refusal(&["--timeout-ms", "x"]), "invalid --timeout-ms");
}

#[test]
fn queries_are_built() {
    let q = build_query(0x0102, "a.bc", 28).expect("query");
    assert_eq!(
        q,
        vec![1, 2, 1, 0, 0, 1, 0, 0, 0, 0, 0, 0, 1, b'a', 2, b'b', b'c', 0, 0, 28, 0, 1]
    );
    let long = "x".repeat(64);
    assert_eq!(
        build_query(1, &long, 1),
        Err(format!("invalid qname label too long: {long}"))
    );
    assert_eq!(query_id(65_537), 1);
    assert_eq!(effective_qname(QNameMode::Fixed, 1, 2, "q"), "q");
    assert_ne!(
        effective_qname(QNameMode::Unique, 1, 2, "q"),
        effective_qname(QNameMode::Unique, 1, 3, "q")
    );
}

#[test]
fn outcomes_add_up() {
    let mut t = Tally {
        total_requests: 0,
        successes: 0,
        timeouts: 0,
        errors: 0,
    };
    record_benchmark_outcome(&mut t, Outcome::Answered, true);
    record_benchmark_outcome(&mut t, Outcome::TimedOut, true);
    record_benchmark_outcome(&mut t, Outcome::Failed, true);
    record_benchmark_outcome(&mut t, Outcome::Failed, false);
    assert_eq!((t.total_requests, t.successes, t.timeouts, t.errors), (3, 1, 1, 1));
}

#[test]
fn counters_are_read() {
    let answer = |failures: u64| {
        format!(
            "HTTP/1.1 200 OK\r\n\r\n{{\"resolver\": {{\"iterative_requests_started\": 8, \
             \"iterative_fallbacks\": {failures}}}}}"
        )
    };
    let before = read_stats(&answer(0)).expect("stats");
    let after = read_stats(&answer(6)).expect("stats");
    assert_eq!(after.iterative_fallbacks, 6);
    let delta = after.delta(&before).expect("delta");
    assert_eq!(delta.iterative_fallbacks, 6);
    assert!(delta.iterative_fallback_ratio.is_none());
    assert!(matches!(read_stats("x"), Err(StatsError::NoBody)));
    assert!(matches!(read_stats("x\r\n\r\n{"), Err(StatsError::NoJson)));
    assert!(matches!(read_stats("x\r\n\r\n{}"), Err(StatsError::NoResolver)));
}

#[test]
fn fixture_answers() {
    let q = build_query(7, "www.example", 1).expect("query");
    assert_eq!(parse_first_question_name(&q).as_deref(), Some("www.example"));
    assert_eq!(question_end(&q), Some(q.len()));
    let a = build_answer_a_response(&q, [192, 0, 2, 9]);
    assert_eq!(&a[..2], &[0, 7]);
    assert_eq!(&a[6..8], &[0, 1]);
    assert_eq!(&a[a.len() - 4..], &[192, 0, 2, 9]);
    let empty = build_empty_noerror_response(&q);
    assert_eq!(&empty[6..8], &[0, 0]);
    assert_eq!(root_answer(&q, 5), empty);
    assert_ne!(root_answer(&q, 6), empty);
    assert!(bootstrap_answer(&q).len() >= 12);
    let mut out = vec![9];
    append_name(&mut out, "a.bc");
    assert_eq!(out, vec![9, 1, b'a', 2, b'b', b'c', 0]);
}

#[test]
fn signed_fixture_decides_by_name_and_type() {
    assert!(matches!(choose_answer("www.example.com.", 1), FixtureAnswer::Address));
    assert!(matches!(choose_answer("example.com.", 48), FixtureAnswer::ChildKeys));
    assert!(matches!(choose_answer("com.", 43), FixtureAnswer::ComDigests));
    assert!(matches!(choose_answer(".", 48), FixtureAnswer::RootKeys));
    assert!(matches!(choose_answer(".", 1), FixtureAnswer::Nothing));
    assert_eq!(dnssec_time_window(1000), (940, 1300));
    assert_eq!(dnssec_time_window(10), (0, 310));
    assert_eq!(
        dnssec_trust_anchor_line(257, 13, &vec![1, 2, 3]),
        ". IN DNSKEY 257 3 13 AQID\n"
    );
}

#[test]
fn counters_are_asked_for() {
    assert_eq!(
        stats_request("127.0.0.1:8080"),
        "GET /stats HTTP/1.1\r\nHost: 127.0.0.1:8080\r\nConnection: close\r\n\r\n"
    );
}
