//! Packets: what holds of every one of them, on examples.
use cognidns::codec::address::{
    endpoint_from_rdata_with_port, extract_answer_ips, reorder_answer_address_records,
};
use cognidns::codec::answer::{
    analyze_answer_for_name, answer_has_cname_for_name, answer_has_record_type,
    extract_answer_cname_records, extract_answer_ip_endpoints,
    extract_answer_ip_endpoints_with_port, extract_answer_records_by_type,
    extract_first_answer_cname,
};
use cognidns::codec::edns::{
    append_edns_opt, append_edns_opt_with_options, clone_edns_opt_from_request,
    extract_edns_opt, extract_edns_option, extract_opt_record_bytes, parse_edns_options,
    strip_edns_opt_from_request, DnsEdnsOption,
};
use cognidns::codec::query::{
    answer_count, authentic_data, build_query, build_query_into, clear_header_rcode,
    parse_first_question, parse_request_overview, parse_response_overview, response_code,
    set_authentic_data,
};
use cognidns::codec::referral::{
    build_ns_hostname_glue_map, domain_is_same_or_subdomain_of, extract_glue_nameservers,
};
use cognidns::codec::respond::{
    build_authoritative_answer, build_authoritative_answer_multi, build_authoritative_nxdomain,
    build_response_with_rcode, build_servfail_response, build_static_answer, encode_record_rdata,
    encode_soa_rdata, fetch_authoritative_answer, CodecError, DnsAdditionalRecord,
};
use cognidns::codec::rewrite::{
    append_additional_records, append_answer_records, append_cname_answers,
    rewrite_question_and_reencode_answers, rewrite_question_from_request,
    truncate_response_for_udp,
};
use cognidns::codec::ttl::{
    decay_response_ttl_in_place, extract_cache_ttl, extract_negative_cache_ttl,
};

fn query(name: &str) -> Vec<u8> {
    build_query(0x1234, name, 1, true).expect("query")
}

fn answers(list: &[&str]) -> Vec<u8> {
    let list: Vec<String> = list.iter().map(|s| s.to_string()).collect();
    build_authoritative_answer_multi(&query("www.example.com"), &list, 120, "A").expect("answer")
}

#[test]
fn question_is_read_back() {
    let (name, qtype, end) = parse_first_question(&query("www.Example.com")).expect("question");
    assert_eq!((name.as_str(), qtype), ("www.Example.com", 1));
    assert_eq!(end, query("www.Example.com").len());
    let overview = parse_request_overview(&query("a.b")).expect("overview");
    assert_eq!(overview.id, 0x1234);
    assert_eq!(overview.query_name.as_deref(), Some("a.b"));
    assert!(build_query(1, &"x".repeat(64), 1, true).is_none());
    let mut buffer = vec![9, 9];
    build_query_into(&mut buffer, 0x1234, "a.b", 1, true).expect("query");
    assert_eq!(buffer, query("a.b"));
}

#[test]
fn flags_change_alone() {
    let mut packet = answers(&["192.0.2.1"]);
    let before = packet.clone();
    set_authentic_data(&mut packet, true);
    assert!(authentic_data(&packet));
    assert_eq!(packet[3], before[3] | 0x20);
    set_authentic_data(&mut packet, false);
    assert_eq!(packet, before);
    let mut failed = build_servfail_response(&query("a.b")).expect("answer");
    assert_eq!(response_code(&failed), Some(2));
    clear_header_rcode(&mut failed);
    assert_eq!(response_code(&failed), Some(0));
}

#[test]
fn refusals_keep_identifier_and_question() {
    let answer = build_response_with_rcode(&query("a.b"), 5).expect("answer");
    let overview = parse_response_overview(&answer).expect("overview");
    assert_eq!((overview.id, overview.rcode, overview.ancount), (0x1234, 5, 0));
    assert_eq!(parse_first_question(&answer), parse_first_question(&query("a.b")));
    assert_eq!(build_response_with_rcode(&[1, 2], 5), Err(CodecError::PacketTooShort));
}

#[test]
fn answers_are_read_back() {
    let packet = answers(&["192.0.2.1", "192.0.2.7"]);
    assert_eq!(answer_count(&packet), Some(2));
    assert_eq!(extract_answer_ips(&packet), vec!["192.0.2.1", "192.0.2.7"]);
    assert_eq!(extract_answer_ip_endpoints(&packet), vec!["192.0.2.1:53", "192.0.2.7:53"]);
    assert_eq!(
        extract_answer_ip_endpoints_with_port(&packet, 5353),
        vec!["192.0.2.1:5353", "192.0.2.7:5353"]
    );
    assert!(answer_has_record_type(&packet, 1));
    assert!(!answer_has_record_type(&packet, 28));
    let analysis = analyze_answer_for_name(&packet, "WWW.example.com.", 1).expect("analysis");
    assert!(analysis.has_target_record);
    assert!(!analysis.has_owner_cname);
    assert_eq!(extract_cache_ttl(&packet), Some(120));
    assert_eq!(extract_answer_records_by_type(&packet, 1).len(), 2);
}

#[test]
fn preferred_addresses_come_first() {
    let packet = answers(&["192.0.2.1", "192.0.2.7", "192.0.2.9"]);
    let order = vec!["192.0.2.9".to_string(), "192.0.2.1".to_string()];
    let reordered = reorder_answer_address_records(&packet, &order).expect("reordered");
    assert_eq!(reordered.len(), packet.len());
    assert_eq!(
        extract_answer_ips(&reordered),
        vec!["192.0.2.9", "192.0.2.1", "192.0.2.7"]
    );
}

#[test]
fn aliases_are_added_and_found() {
    let packet = answers(&["192.0.2.1"]);
    let alias = ("www.example.com".to_string(), "host.example.com".to_string(), 60);
    let longer = append_cname_answers(&packet, &[alias.clone()]).expect("longer");
    assert_eq!(answer_count(&longer), Some(2));
    assert_eq!(extract_answer_cname_records(&longer), vec![alias.clone()]);
    assert_eq!(extract_first_answer_cname(&longer).as_deref(), Some("host.example.com"));
    assert!(answer_has_cname_for_name(&longer, "www.example.com"));
    let same = append_cname_answers(&longer, &[alias]).expect("same");
    assert_eq!(same, longer);
}

#[test]
fn records_are_added_once() {
    let packet = answers(&["192.0.2.1"]);
    let record = ("www.example.com".to_string(), 1u16, 1u16, 30u32, vec![192, 0, 2, 2]);
    let longer = append_answer_records(&packet, &[record.clone()]).expect("longer");
    assert_eq!(extract_answer_ips(&longer), vec!["192.0.2.1", "192.0.2.2"]);
    assert_eq!(append_answer_records(&longer, &[record]).expect("same"), longer);
}

#[test]
fn additional_records_are_added() {
    let packet = answers(&["192.0.2.1"]);
    let extra = DnsAdditionalRecord {
        owner_name: "ns.example.com".to_string(),
        rr_type: 1,
        ttl: 30,
        answers: vec!["192.0.2.5".to_string()],
    };
    let longer = append_additional_records(&packet, &[extra]).expect("longer");
    assert_eq!(&longer[10..12], &[0, 1]);
    assert_eq!(&longer[longer.len() - 4..], &[192, 0, 2, 5]);
    assert_eq!(longer[..10], packet[..10]);
}

#[test]
fn options_are_read_back() {
    let mut packet = query("a.b");
    let options = vec![DnsEdnsOption {
        code: 3,
        data: vec![1, 2, 3],
    }];
    append_edns_opt_with_options(&mut packet, 1232, 0, 0, 0x8000, &options).expect("option");
    assert_eq!(extract_edns_option(&packet, 3), Some(vec![1, 2, 3]));
    assert_eq!(extract_edns_option(&packet, 8), None);
    assert_eq!(extract_opt_record_bytes(&packet).map(|b| b.len()), Some(18));
    assert_eq!(strip_edns_opt_from_request(&packet), Some(query("a.b")));
    let mut other = query("c.d");
    clone_edns_opt_from_request(&packet, &mut other).expect("option");
    assert_eq!(extract_edns_opt(&other).map(|o| o.udp_payload_size), Some(1232));
    assert!(parse_edns_options(&[0, 3, 0, 9]).is_none());
    assert_eq!(parse_edns_options(&[]).map(|l| l.len()), Some(0));
}

#[test]
fn long_responses_are_cut() {
    let list: Vec<String> = (0..60).map(|i| format!("192.0.2.{i}")).collect();
    let packet =
        build_authoritative_answer_multi(&query("www.example.com"), &list, 60, "A").expect("answer");
    let mut small = query("www.example.com");
    append_edns_opt(&mut small, 100, 0).expect("option");
    let cut = truncate_response_for_udp(&small, &packet).expect("cut");
    assert!(cut.len() <= 512);
    assert_ne!(cut[2] & 0x02, 0);
    let mut request = query("www.example.com");
    append_edns_opt(&mut request, 4096, 0).expect("option");
    let whole = truncate_response_for_udp(&request, &packet).expect("whole");
    assert_eq!(whole, packet);
}

#[test]
fn question_is_rewritten() {
    let packet = answers(&["192.0.2.1"]);
    let other = build_query(7, "www.example.org", 1, true).expect("query");
    let moved = rewrite_question_from_request(&packet, &other).expect("moved");
    assert_eq!(parse_first_question(&moved).map(|q| q.0).as_deref(), Some("www.example.org"));
    assert_eq!(&moved[..2], &packet[..2]);
    assert_eq!(extract_answer_ips(&moved), vec!["192.0.2.1"]);
    let encoded = rewrite_question_and_reencode_answers(&packet, &other).expect("encoded");
    assert_eq!(parse_first_question(&encoded).map(|q| q.0).as_deref(), Some("www.example.org"));
    assert_eq!(extract_answer_ips(&encoded), vec!["192.0.2.1"]);
}

#[test]
fn times_to_live_run_out() {
    let mut packet = answers(&["192.0.2.1"]);
    decay_response_ttl_in_place(&mut packet, 20);
    assert_eq!(extract_cache_ttl(&packet), Some(100));
    decay_response_ttl_in_place(&mut packet, 1_000);
    assert!(matches!(extract_cache_ttl(&packet), None | Some(0)));
}

#[test]
fn record_data_is_encoded() {
    assert_eq!(encode_record_rdata(1, "192.0.2.1"), Some(vec![192, 0, 2, 1]));
    assert_eq!(
        encode_record_rdata(28, "2001:db8::1").map(|b| (b.len(), b[0], b[15])),
        Some((16, 0x20, 1))
    );
    assert_eq!(encode_record_rdata(1, "192.0.2"), None);
    let soa = encode_soa_rdata("a", "b", 1, 2, 3, 4, 5);
    assert_eq!(soa.len(), 3 + 3 + 20);
    assert_eq!(&soa[soa.len() - 4..], &[0, 0, 0, 5]);
    assert_eq!(
        build_static_answer(&query("a.b"), "x", 60, "A").err(),
        Some(CodecError::UnsupportedStaticRecord)
    );
    assert_eq!(
        build_authoritative_answer(&query("a.b"), "192.0.2.1", 60, "A").map(|p| p[2] & 0x04),
        Ok(0x04)
    );
    let gone = build_authoritative_nxdomain(&query("a.b"), "b", "m", "r", 1, 2, 3, 4, 5);
    assert_eq!(gone.ok().and_then(|p| response_code(&p)), Some(3));
    assert_eq!(fetch_authoritative_answer("s", "q", "A"), Ok("6.6.6.6".to_string()));
    assert_eq!(
        endpoint_from_rdata_with_port(28, &[0; 16], 53).as_deref(),
        Some("[::]:53")
    );
    assert_eq!(endpoint_from_rdata_with_port(1, &[1, 2, 3], 53), None);
}

#[test]
fn glue_is_grouped_by_host() {
    assert!(domain_is_same_or_subdomain_of("a.example.com", "Example.com."));
    assert!(!domain_is_same_or_subdomain_of("aexample.com", "example.com"));
    let mut packet = query("www.example.com");
    packet[9] = 1;
    packet[11] = 1;
    packet.extend_from_slice(&[0xc0, 16, 0, 2, 0, 1, 0, 0, 0, 60, 0, 5, 2, b'n', b's', 0xc0, 16]);
    packet.extend_from_slice(&[2, b'n', b's', 0xc0, 16, 0, 1, 0, 1, 0, 0, 0, 60, 0, 4, 192, 0, 2, 3]);
    assert_eq!(
        build_ns_hostname_glue_map(&packet),
        vec![("ns.example.com".to_string(), vec!["192.0.2.3:53".to_string()])]
    );
}

#[test]
fn written_answers_are_read_back() {
    let mut request = query("www.example.com");
    append_edns_opt(&mut request, 1232, 0).expect("option");
    let list: Vec<String> = ["192.0.2.1", "no address", "192.0.2.2"]
        .iter()
        .map(|s| s.to_string())
        .collect();
    let response = build_authoritative_answer_multi(&request, &list, 60, "A").expect("answer");
    assert_eq!(extract_answer_ips(&response), vec!["192.0.2.1", "192.0.2.2"]);
    assert_eq!(parse_first_question(&response), parse_first_question(&request));
    let records = extract_answer_records_by_type(&response, 1);
    assert_eq!(records.len(), 2);
    assert_eq!(
        records[1],
        ("www.example.com".to_string(), 1, 1, 60, vec![192, 0, 2, 2])
    );
    let single = build_static_answer(&request, "mail.example.com", 30, "CNAME").expect("answer");
    assert_eq!(
        extract_answer_cname_records(&single),
        vec![("www.example.com".to_string(), "mail.example.com".to_string(), 30)]
    );
}

#[test]
fn negative_answers_last_as_long_as_the_zone_says() {
    let gone = build_authoritative_nxdomain(&query("a.b"), "b", "m.b", "r.b", 1, 2, 3, 4, 77)
        .expect("answer");
    assert_eq!(extract_negative_cache_ttl(&gone), Some(77));
    assert_eq!(answer_count(&gone), Some(0));
    assert_eq!(parse_first_question(&gone), parse_first_question(&query("a.b")));
}

#[test]
fn added_records_stand_behind_those_there_were() {
    let response = answers(&["192.0.2.1"]);
    let more = vec![
        ("www.example.com".to_string(), 1, 1, 120, vec![192, 0, 2, 1]),
        ("www.example.com".to_string(), 1, 1, 60, vec![192, 0, 2, 9]),
    ];
    let longer = append_answer_records(&response, &more).expect("answer");
    assert_eq!(extract_answer_ips(&longer), vec!["192.0.2.1", "192.0.2.9"]);
    assert_eq!(&longer[..6], &response[..6]);
    let glue = vec![DnsAdditionalRecord {
        owner_name: "ns.example.com".to_string(),
        rr_type: 1,
        ttl: 30,
        answers: vec!["192.0.2.53".to_string(), "nothing".to_string()],
    }];
    let extended = append_additional_records(&response, &glue).expect("additional");
    assert_eq!(&extended[12..response.len()], &response[12..]);
    assert_eq!(extended[11], response[11] + 1);
    assert_eq!(&extended[extended.len() - 4..], &[192, 0, 2, 53]);
}

#[test]
fn names_in_answers_survive_another_question() {
    let packet = [
        0, 1, 0x81, 0x80, 0, 1, 0, 1, 0, 0, 0, 0, 1, 97, 0, 0, 2, 0, 1, 0xC0, 12, 0, 2, 0, 1, 0, 0,
        0, 60, 0, 2, 0xC0, 12,
    ];
    let request = [0, 1, 1, 0, 0, 1, 0, 0, 0, 0, 0, 0, 2, 98, 98, 0, 0, 2, 0, 1];
    assert_eq!(
        rewrite_question_and_reencode_answers(&packet, &request),
        Some(vec![
            0, 1, 0x81, 0x80, 0, 1, 0, 1, 0, 0, 0, 0, 2, 98, 98, 0, 0, 2, 0, 1, 1, 97, 0, 0, 2, 0,
            1, 0, 0, 0, 60, 0, 3, 1, 97, 0,
        ])
    );
    let with_data = |rr_type: u8, data: &[u8]| {
        let mut p = packet[..19].to_vec();
        p.extend_from_slice(&[0xC0, 12, 0, rr_type, 0, 1, 0, 0, 0, 60, 0, data.len() as u8]);
        p.extend_from_slice(data);
        let out = rewrite_question_and_reencode_answers(&p, &request)?;
        Some(out[request.len() + 13..].to_vec())
    };
    assert_eq!(with_data(15, &[0, 10, 0xC0, 12]), Some(vec![0, 10, 1, 97, 0]));
    assert_eq!(with_data(12, &[1, 98, 0xC0, 12]), Some(vec![1, 98, 1, 97, 0]));
    assert_eq!(with_data(39, &[0xC0, 12]), Some(vec![1, 97, 0]));
    assert_eq!(with_data(33, &[0, 1, 0, 2, 0, 53, 0xC0, 12]), Some(vec![0, 1, 0, 2, 0, 53, 1, 97, 0]));
    let mut soa = vec![0xC0, 12, 1, 98, 0xC0, 12];
    soa.extend_from_slice(&[7; 20]);
    let mut plain = vec![1, 97, 0, 1, 98, 1, 97, 0];
    plain.extend_from_slice(&[7; 20]);
    assert_eq!(with_data(6, &soa), Some(plain));
    assert_eq!(
        with_data(35, &[0, 1, 0, 2, 1, 83, 0, 2, 47, 47, 0xC0, 12]),
        Some(vec![0, 1, 0, 2, 1, 83, 0, 2, 47, 47, 1, 97, 0])
    );
    assert_eq!(with_data(1, &[0xC0, 12, 0, 1]), Some(vec![0xC0, 12, 0, 1]));
    assert_eq!(with_data(5, &[0xC0, 12]), Some(vec![1, 97, 0]));
    assert_eq!(with_data(5, &[0xC0, 200]), None);
}

#[test]
fn data_without_its_names_stays_as_it_is() {
    let request = [0, 1, 1, 0, 0, 1, 0, 0, 0, 0, 0, 0, 2, 98, 98, 0, 0, 2, 0, 1];
    let kept = |rr_type: u8, data: &[u8]| {
        let mut p = vec![0, 1, 0x81, 0x80, 0, 1, 0, 1, 0, 0, 0, 0, 1, 97, 0, 0, 2, 0, 1];
        p.extend_from_slice(&[0xC0, 12, 0, rr_type, 0, 1, 0, 0, 0, 60, 0, data.len() as u8]);
        p.extend_from_slice(data);
        let mut expected = p[..12].to_vec();
        expected.extend_from_slice(&request[12..]);
        expected.extend_from_slice(&[1, 97, 0]);
        expected.extend_from_slice(&p[21..]);
        assert_eq!(rewrite_question_and_reencode_answers(&p, &request), Some(expected));
    };
    kept(2, &[]);
    kept(2, &[0xC0, 200]);
    kept(2, &[0xC0]);
    kept(2, &[70, 97]);
    kept(15, &[0]);
    kept(35, &[0, 1, 0, 2, 9, 83]);
    // A name that points to itself has no end.
    kept(2, &[0xC0, 31]);
}

#[test]
fn labels_stay_as_they_are_to_the_byte() {
    let request = [0, 1, 1, 0, 0, 1, 0, 0, 0, 0, 0, 0, 2, 98, 98, 0, 0, 2, 0, 1];
    let with_data = |rr_type: u8, data: &[u8]| {
        let mut p = vec![0, 1, 0x81, 0x80, 0, 1, 0, 1, 0, 0, 0, 0, 1, 97, 0, 0, 2, 0, 1];
        p.extend_from_slice(&[0xC0, 12, 0, rr_type, 0, 1, 0, 0, 0, 60, 0, data.len() as u8]);
        p.extend_from_slice(data);
        let out = rewrite_question_and_reencode_answers(&p, &request).expect("packet");
        out[request.len() + 13..].to_vec()
    };
    // The mailbox john.doe@a, whose first label holds a dot.
    let mut soa = vec![1, 97, 0, 8];
    soa.extend_from_slice(b"john.doe");
    soa.extend_from_slice(&[1, 97, 0]);
    soa.extend_from_slice(&[7; 20]);
    assert_eq!(with_data(6, &soa), soa);
    let mut short = vec![0xC0, 12, 8];
    short.extend_from_slice(b"john.doe");
    short.extend_from_slice(&[0xC0, 12]);
    short.extend_from_slice(&[7; 20]);
    assert_eq!(with_data(6, &short), soa);
    // Blanks, a final dot, and bytes that are no text.
    assert_eq!(with_data(12, &[3, 32, 98, 32, 0]), vec![3, 32, 98, 32, 0]);
    assert_eq!(with_data(12, &[2, 98, 46, 0]), vec![2, 98, 46, 0]);
    assert_eq!(with_data(2, &[2, 0xFF, 0xFE, 0xC0, 12]), vec![2, 0xFF, 0xFE, 1, 97, 0]);
}

#[test]
fn records_added_twice_are_there_once() {
    let response = answers(&["192.0.2.1"]);
    let records = vec![
        ("www.example.com".to_string(), 1, 1, 60, vec![192, 0, 2, 9]),
        ("WWW.example.com.".to_string(), 1, 1, 30, vec![192, 0, 2, 9]),
    ];
    let once = append_answer_records(&response, &records).expect("answer");
    assert_eq!(extract_answer_ips(&once), vec!["192.0.2.1", "192.0.2.9"]);
    assert_eq!(append_answer_records(&once, &records), Some(once.clone()));
    let aliases = vec![("a.example".to_string(), "B.example.".to_string(), 60)];
    let once = append_cname_answers(&response, &aliases).expect("answer");
    assert_eq!(once[7], response[7] + 1);
    assert_eq!(append_cname_answers(&once, &aliases), Some(once.clone()));
}

#[test]
fn glue_of_all_hosts_is_the_glue() {
    let mut packet = query("www.example.com");
    packet[11] = 3;
    for (host, last) in [(b'b', 3), (b'a', 1), (b'B', 2)] {
        packet.extend_from_slice(&[1, host, 0, 0, 1, 0, 1, 0, 0, 0, 60, 0, 4, 192, 0, 2, last]);
    }
    let map = build_ns_hostname_glue_map(&packet);
    assert_eq!(map.len(), 2);
    assert_eq!(map[0].0, "b");
    assert_eq!(map[0].1, vec!["192.0.2.3:53", "192.0.2.2:53"]);
    let mut all: Vec<String> = map.into_iter().flat_map(|(_, list)| list).collect();
    all.sort();
    assert_eq!(all, extract_glue_nameservers(&packet));
}

#[test]
fn only_times_to_live_decay() {
    let packet = [
        0, 1, 0x81, 0x80, 0, 1, 0, 1, 0, 0, 0, 1, 1, 97, 0, 0, 1, 0, 1, 0xC0, 12, 0, 1, 0, 1, 0, 0,
        1, 4, 0, 4, 192, 0, 2, 1, 0, 0, 16, 0, 1, 0, 0, 0, 3, 0, 9, 7, 7,
    ];
    let mut aged = packet;
    decay_response_ttl_in_place(&mut aged, 5);
    let mut expected = packet;
    expected[28] = 255;
    expected[27] = 0;
    // The data of the last record reaches past the packet; its time to live is lowered all the
    // same.
    expected[43] = 0;
    assert_eq!(aged, expected);
}
