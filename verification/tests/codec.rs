//! Packets: reading, building and rewriting them.
use cognidns::codec::dns::{DNS_EDNS_FLAG_DO, DNS_EDNS_OPTION_CLIENT_SUBNET, DNS_EDNS_OPTION_COOKIE, DNS_EDNS_OPTION_NSID, DNS_RCODE_BADVERS, DNS_TYPE_DNSKEY, DnsEdnsOption, DnsReferralAnalysis, align_response_edns_to_request, analyze_answer_for_name_with_dnames, analyze_referral_targets, answer_has_record_type_for_name, append_edns_opt, append_edns_opt_with_options, append_edns_opt_with_rcode, build_authoritative_answer_multi, build_authoritative_nodata, build_authoritative_soa_answer, build_badvers_response, build_dnssec_query_like_request, build_query, build_query_like_request, build_response_with_rcode, build_static_answer, checking_disabled, decay_response_ttl_in_place, dnssec_ok_requested, edns_version_supported, encode_name, extract_authority_ns_hostnames, extract_cache_ttl, extract_edns_client_subnet, extract_edns_cookie, extract_edns_nsid, extract_edns_opt, extract_glue_nameservers, extract_negative_cache_ttl, parse_first_question, parse_header, parse_name, qtype_label, qtype_label_opt, response_code, set_checking_disabled, set_recursion_desired, skip_name, strip_edns_opt_from_request, truncate_response_for_udp, udp_payload_size_for_request, validate_referral_security, Ratio};


fn share(ratio: &Ratio) -> f64 {
    ratio.part as f64 / ratio.whole as f64
}

fn basic_query() -> Vec<u8> {
    let mut packet = Vec::new();
    packet.extend_from_slice(&1u16.to_be_bytes());
    packet.extend_from_slice(&0x0100u16.to_be_bytes());
    packet.extend_from_slice(&1u16.to_be_bytes());
    packet.extend_from_slice(&0u16.to_be_bytes());
    packet.extend_from_slice(&0u16.to_be_bytes());
    packet.extend_from_slice(&0u16.to_be_bytes());
    packet.push(3);
    packet.extend_from_slice(b"www");
    packet.push(7);
    packet.extend_from_slice(b"example");
    packet.push(3);
    packet.extend_from_slice(b"com");
    packet.push(0);
    packet.extend_from_slice(&1u16.to_be_bytes());
    packet.extend_from_slice(&1u16.to_be_bytes());
    packet
}

fn edns_query() -> Vec<u8> {
    let mut packet = basic_query();
    append_edns_opt(&mut packet, 1232, 0).expect("append edns");
    packet
}

fn edns_query_with_version(version: u8) -> Vec<u8> {
    let mut packet = basic_query();
    append_edns_opt_with_rcode(&mut packet, 1232, 0, version, 0).expect("append edns");
    packet
}

fn edns_query_with_options(flags: u16) -> Vec<u8> {
    let mut packet = basic_query();
    append_edns_opt_with_options(
        &mut packet,
        1232,
        0,
        0,
        flags,
        &[
            DnsEdnsOption {
                code: DNS_EDNS_OPTION_NSID,
                data: vec![0xAA, 0xBB],
            },
            DnsEdnsOption {
                code: DNS_EDNS_OPTION_COOKIE,
                data: vec![1, 2, 3, 4, 5, 6, 7, 8, 9, 10, 11, 12],
            },
            DnsEdnsOption {
                code: DNS_EDNS_OPTION_CLIENT_SUBNET,
                data: vec![0, 1, 24, 0, 192, 0, 2],
            },
        ],
    )
    .expect("append edns options");
    packet
}

fn edns_query_with_cookie(cookie: &[u8]) -> Vec<u8> {
    let mut packet = basic_query();
    append_edns_opt_with_options(
        &mut packet,
        1232,
        0,
        0,
        DNS_EDNS_FLAG_DO,
        &[DnsEdnsOption {
            code: DNS_EDNS_OPTION_COOKIE,
            data: cookie.to_vec(),
        }],
    )
    .expect("append cookie edns");
    packet
}

#[test]
fn toggles_rd_bit() {
    let packet = basic_query();
    let modified = set_recursion_desired(&packet, false).expect("modify packet");
    let flags = u16::from_be_bytes([modified[2], modified[3]]);
    assert_eq!(flags & 0x0100, 0);
}

#[test]
fn extracts_glue_ipv4_address() {
    let mut packet = basic_query();

    // ancount=0, nscount=1, arcount=1
    packet[6..8].copy_from_slice(&0u16.to_be_bytes());
    packet[8..10].copy_from_slice(&1u16.to_be_bytes());
    packet[10..12].copy_from_slice(&1u16.to_be_bytes());

    // Authority NS record: example.com NS ns1.example.com
    packet.extend_from_slice(&[0xC0, 0x10]); // name ptr to example.com
    packet.extend_from_slice(&2u16.to_be_bytes());
    packet.extend_from_slice(&1u16.to_be_bytes());
    packet.extend_from_slice(&60u32.to_be_bytes());
    let ns_rdata = vec![
        3, b'n', b's', b'1', 7, b'e', b'x', b'a', b'm', b'p', b'l', b'e', 3, b'c', b'o', b'm',
        0,
    ];
    packet.extend_from_slice(&(ns_rdata.len() as u16).to_be_bytes());
    packet.extend_from_slice(&ns_rdata);

    // Additional A record for ns1.example.com = 192.0.2.53
    packet.extend_from_slice(&[
        3, b'n', b's', b'1', 7, b'e', b'x', b'a', b'm', b'p', b'l', b'e', 3, b'c', b'o', b'm',
        0,
    ]);
    packet.extend_from_slice(&1u16.to_be_bytes());
    packet.extend_from_slice(&1u16.to_be_bytes());
    packet.extend_from_slice(&60u32.to_be_bytes());
    packet.extend_from_slice(&4u16.to_be_bytes());
    packet.extend_from_slice(&[192, 0, 2, 53]);

    let glues = extract_glue_nameservers(&packet);
    assert!(glues.contains(&"192.0.2.53:53".to_string()));
}

#[test]
fn extracts_authority_ns_hostnames() {
    let mut packet = basic_query();
    packet[6..8].copy_from_slice(&0u16.to_be_bytes());
    packet[8..10].copy_from_slice(&1u16.to_be_bytes());
    packet[10..12].copy_from_slice(&0u16.to_be_bytes());

    packet.extend_from_slice(&[0xC0, 0x10]);
    packet.extend_from_slice(&2u16.to_be_bytes());
    packet.extend_from_slice(&1u16.to_be_bytes());
    packet.extend_from_slice(&300u32.to_be_bytes());
    let ns_rdata = vec![
        2, b'n', b's', 7, b'e', b'x', b'a', b'm', b'p', b'l', b'e', 3, b'c', b'o', b'm', 0,
    ];
    packet.extend_from_slice(&(ns_rdata.len() as u16).to_be_bytes());
    packet.extend_from_slice(&ns_rdata);

    let hosts = extract_authority_ns_hostnames(&packet);
    assert_eq!(hosts, vec!["ns.example.com".to_string()]);
}

#[test]
fn referral_analysis_normalizes_case_and_deduplicates_hosts_zones() {
    let mut packet = basic_query();
    packet[6..8].copy_from_slice(&0u16.to_be_bytes());
    packet[8..10].copy_from_slice(&2u16.to_be_bytes());
    packet[10..12].copy_from_slice(&2u16.to_be_bytes());

    // Authority NS #1: EXAMPLE.COM NS Ns1.Example.COM
    packet.extend_from_slice(&[
        7, b'E', b'X', b'A', b'M', b'P', b'L', b'E', 3, b'C', b'O', b'M', 0,
    ]);
    packet.extend_from_slice(&2u16.to_be_bytes());
    packet.extend_from_slice(&1u16.to_be_bytes());
    packet.extend_from_slice(&300u32.to_be_bytes());
    let ns1 = vec![
        3, b'N', b's', b'1', 7, b'E', b'x', b'a', b'm', b'p', b'l', b'e', 3, b'C', b'O', b'M',
        0,
    ];
    packet.extend_from_slice(&(ns1.len() as u16).to_be_bytes());
    packet.extend_from_slice(&ns1);

    // Authority NS #2: example.com NS ns1.example.com (duplicate after normalization)
    packet.extend_from_slice(&[
        7, b'e', b'x', b'a', b'm', b'p', b'l', b'e', 3, b'c', b'o', b'm', 0,
    ]);
    packet.extend_from_slice(&2u16.to_be_bytes());
    packet.extend_from_slice(&1u16.to_be_bytes());
    packet.extend_from_slice(&300u32.to_be_bytes());
    let ns2 = vec![
        3, b'n', b's', b'1', 7, b'e', b'x', b'a', b'm', b'p', b'l', b'e', 3, b'c', b'o', b'm',
        0,
    ];
    packet.extend_from_slice(&(ns2.len() as u16).to_be_bytes());
    packet.extend_from_slice(&ns2);

    // Additional A glue duplicated by two records.
    packet.extend_from_slice(&[
        3, b'n', b's', b'1', 7, b'e', b'x', b'a', b'm', b'p', b'l', b'e', 3, b'c', b'o', b'm',
        0,
    ]);
    packet.extend_from_slice(&1u16.to_be_bytes());
    packet.extend_from_slice(&1u16.to_be_bytes());
    packet.extend_from_slice(&60u32.to_be_bytes());
    packet.extend_from_slice(&4u16.to_be_bytes());
    packet.extend_from_slice(&[192, 0, 2, 53]);

    packet.extend_from_slice(&[
        3, b'N', b'S', b'1', 7, b'E', b'X', b'A', b'M', b'P', b'L', b'E', 3, b'C', b'O', b'M',
        0,
    ]);
    packet.extend_from_slice(&1u16.to_be_bytes());
    packet.extend_from_slice(&1u16.to_be_bytes());
    packet.extend_from_slice(&60u32.to_be_bytes());
    packet.extend_from_slice(&4u16.to_be_bytes());
    packet.extend_from_slice(&[192, 0, 2, 53]);

    let analysis = analyze_referral_targets(&packet).expect("analysis");
    assert_eq!(analysis.authority_zones, vec!["example.com".to_string()]);
    assert_eq!(
        analysis.authority_ns_hostnames,
        vec!["ns1.example.com".to_string()]
    );
    assert_eq!(analysis.glue_nameservers, vec!["192.0.2.53:53".to_string()]);
}

#[test]
fn detects_authority_soa_without_referral_ns() {
    let mut packet = basic_query();
    packet[6..8].copy_from_slice(&0u16.to_be_bytes());
    packet[8..10].copy_from_slice(&1u16.to_be_bytes());
    packet[10..12].copy_from_slice(&0u16.to_be_bytes());

    packet.extend_from_slice(&[0xC0, 0x10]);
    packet.extend_from_slice(&6u16.to_be_bytes());
    packet.extend_from_slice(&1u16.to_be_bytes());
    packet.extend_from_slice(&300u32.to_be_bytes());

    let mut soa_rdata = Vec::new();
    soa_rdata.extend_from_slice(&[
        2, b'n', b's', 7, b'e', b'x', b'a', b'm', b'p', b'l', b'e', 3, b'c', b'o', b'm', 0,
    ]);
    soa_rdata.extend_from_slice(&[
        10, b'h', b'o', b's', b't', b'm', b'a', b's', b't', b'e', b'r', 7, b'e', b'x', b'a',
        b'm', b'p', b'l', b'e', 3, b'c', b'o', b'm', 0,
    ]);
    soa_rdata.extend_from_slice(&1u32.to_be_bytes());
    soa_rdata.extend_from_slice(&2u32.to_be_bytes());
    soa_rdata.extend_from_slice(&3u32.to_be_bytes());
    soa_rdata.extend_from_slice(&4u32.to_be_bytes());
    soa_rdata.extend_from_slice(&60u32.to_be_bytes());
    packet.extend_from_slice(&(soa_rdata.len() as u16).to_be_bytes());
    packet.extend_from_slice(&soa_rdata);

    let analysis = analyze_referral_targets(&packet).expect("analysis");
    assert!(analysis.has_authority_soa);
    assert!(analysis.authority_ns_hostnames.is_empty());
    assert!(analysis.authority_zones.is_empty());
    assert!(analysis.glue_nameservers.is_empty());
}

#[test]
fn referral_validation_rejects_invalid_authority_zone() {
    let analysis = DnsReferralAnalysis {
        glue_nameservers: vec!["192.0.2.53:53".to_string()],
        authority_ns_hostnames: vec!["ns1.example.com".to_string()],
        authority_zones: vec!["bad.zone".to_string()],
        has_authority_soa: false,
    };

    let validation = validate_referral_security("www.example.com", &analysis);
    assert!(!validation.is_valid);
    assert!(!validation.authority_zones_valid);
    assert_eq!(
        validation.rejection_reason.as_deref(),
        Some("invalid_authority_zone")
    );
}

#[test]
fn referral_validation_degrades_trust_for_out_of_zone_ns() {
    let analysis = DnsReferralAnalysis {
        glue_nameservers: vec!["192.0.2.53:53".to_string()],
        authority_ns_hostnames: vec!["ns1.other.com".to_string()],
        authority_zones: vec!["example.com".to_string()],
        has_authority_soa: false,
    };

    let validation = validate_referral_security("www.example.com", &analysis);
    assert!(validation.is_valid);
    assert!(!validation.bailiwick_valid);
    assert!(validation.trust_level <= 80);
    assert!(validation.trust_level < 100);
    assert!(validation.rejection_reason.is_none());
}

#[test]
fn referral_validation_accepts_well_formed_referral() {
    let analysis = DnsReferralAnalysis {
        glue_nameservers: vec!["192.0.2.53:53".to_string(), "192.0.2.54:53".to_string()],
        authority_ns_hostnames: vec!["ns1.example.com".to_string()],
        authority_zones: vec!["example.com".to_string()],
        has_authority_soa: false,
    };

    let validation = validate_referral_security("www.example.com", &analysis);
    assert!(validation.is_valid);
    assert!(validation.authority_zones_valid);
    assert!(validation.bailiwick_valid);
    assert!(validation.trust_level >= 80);
    assert!(share(&validation.glue_coverage) > 0.0);
}

#[test]
fn referral_validation_tolerates_case_and_trailing_dot() {
    let analysis = DnsReferralAnalysis {
        glue_nameservers: vec!["192.0.2.53:53".to_string()],
        authority_ns_hostnames: vec!["Ns1.Example.Com.".to_string()],
        authority_zones: vec!["Example.COM.".to_string()],
        has_authority_soa: false,
    };

    let validation = validate_referral_security("WWW.Example.COM.", &analysis);
    assert!(validation.is_valid);
    assert!(validation.authority_zones_valid);
}

#[test]
fn referral_validation_accepts_root_authority_zone() {
    let analysis = DnsReferralAnalysis {
        glue_nameservers: vec!["192.5.6.30:53".to_string()],
        authority_ns_hostnames: vec!["a.root-servers.net".to_string()],
        authority_zones: vec![".".to_string()],
        has_authority_soa: false,
    };

    let validation = validate_referral_security("www.example.com", &analysis);
    assert!(validation.is_valid);
    assert!(validation.authority_zones_valid);
}


#[test]
fn referral_root_to_tld_out_of_zone_ns_is_valid() {
    let analysis = DnsReferralAnalysis {
        glue_nameservers: vec!["192.5.6.30:53".to_string(), "192.5.6.31:53".to_string()],
        authority_ns_hostnames: vec![
            "a.gtld-servers.net".to_string(),
            "b.gtld-servers.net".to_string(),
        ],
        authority_zones: vec!["com".to_string()],
        has_authority_soa: false,
    };
    let validation = validate_referral_security("www.example.com", &analysis);

    assert!(
        validation.is_valid,
        "root->TLD out-of-zone referral must NOT be hard-rejected (is_valid=false)"
    );
    assert!(
        validation.rejection_reason.is_none(),
        "rejection_reason must be None for out-of-zone NS: {:?}",
        validation.rejection_reason
    );
    assert!(
        !validation.bailiwick_valid,
        "bailiwick_valid should be false when NS hostnames are not subdomains of authority zone"
    );
    assert!(
        validation.trust_level >= 60,
        "trust_level must still be >= 60 to allow caching, got {}",
        validation.trust_level
    );
}

#[test]
fn referral_tld_to_authoritative_out_of_zone_ns_is_valid() {
    let analysis = DnsReferralAnalysis {
        glue_nameservers: vec!["202.108.2.1:53".to_string(), "202.108.2.2:53".to_string()],
        authority_ns_hostnames: vec![
            "ns1.nease.net".to_string(),
            "ns2.nease.net".to_string(),
            "ns3.nease.net".to_string(),
        ],
        authority_zones: vec!["163.com".to_string()],
        has_authority_soa: false,
    };
    let validation = validate_referral_security("www.163.com", &analysis);

    assert!(
        validation.is_valid,
        "TLD->authoritative out-of-zone referral must NOT be hard-rejected (www.163.com scenario)"
    );
    assert!(
        validation.rejection_reason.is_none(),
        "rejection_reason must be None: {:?}",
        validation.rejection_reason
    );
    assert!(
        !validation.bailiwick_valid,
        "bailiwick_valid should be false for nease.net NS under 163.com"
    );
    assert!(
        validation.trust_level >= 60,
        "trust_level must be >= 60 for caching to work, got {}",
        validation.trust_level
    );
}

#[test]
fn referral_no_glue_out_of_zone_ns_remains_valid() {
    let analysis = DnsReferralAnalysis {
        glue_nameservers: vec![],
        authority_ns_hostnames: vec!["ns1.example.net".to_string()],
        authority_zones: vec!["example.com".to_string()],
        has_authority_soa: false,
    };
    let validation = validate_referral_security("sub.example.com", &analysis);

    assert!(
        validation.is_valid,
        "no-glue out-of-zone referral must remain valid (is_valid=false is regression)"
    );
    assert!(validation.rejection_reason.is_none());
    assert!(!validation.bailiwick_valid);
    assert!(
        validation.trust_level < 60,
        "no-glue+out-of-zone trust_level should be < 60 (got {}), so delegation won't be cached blindly",
        validation.trust_level
    );
}

#[test]
fn qtype_label_helpers_return_readable_values() {
    assert_eq!(qtype_label(1), "A");
    assert_eq!(qtype_label(28), "AAAA");
    assert_eq!(qtype_label(65280), "TYPE65280");
    assert_eq!(qtype_label_opt(Some(5)), "CNAME");
    assert_eq!(qtype_label_opt(None), "UNKNOWN");
}

#[test]
fn build_static_answer_accepts_compressed_ipv6() {
    let request = build_query(321, "www.wan.cn", 28, true).expect("query");
    let packet = build_static_answer(&request, "1::1", 600, "AAAA").expect("static aaaa");

    assert_eq!(response_code(&packet), Some(0));
    assert!(answer_has_record_type_for_name(&packet, "www.wan.cn", 28));
}

#[test]
fn build_static_answer_supports_extended_record_types() {
    let ns_query = build_query(11, "example.com", 2, true).expect("ns query");
    let ns_packet =
        build_static_answer(&ns_query, "ns1.example.com", 300, "NS").expect("ns answer");
    assert!(answer_has_record_type_for_name(
        &ns_packet,
        "example.com",
        2
    ));

    let mx_query = build_query(12, "example.com", 15, true).expect("mx query");
    let mx_packet =
        build_static_answer(&mx_query, "10 mail.example.com", 300, "MX").expect("mx answer");
    assert!(answer_has_record_type_for_name(
        &mx_packet,
        "example.com",
        15
    ));

    let txt_query = build_query(13, "example.com", 16, true).expect("txt query");
    let txt_packet =
        build_static_answer(&txt_query, "v=spf1 -all", 300, "TXT").expect("txt answer");
    assert!(answer_has_record_type_for_name(
        &txt_packet,
        "example.com",
        16
    ));

    let ptr_query = build_query(14, "1.0.0.127.in-addr.arpa", 12, true).expect("ptr query");
    let ptr_packet =
        build_static_answer(&ptr_query, "localhost", 300, "PTR").expect("ptr answer");
    assert!(answer_has_record_type_for_name(
        &ptr_packet,
        "1.0.0.127.in-addr.arpa",
        12
    ));
}

#[test]
fn extracts_edns_opt_from_request() {
    let packet = edns_query();
    let edns = extract_edns_opt(&packet).expect("edns opt");
    assert_eq!(edns.udp_payload_size, 1232);
    assert_eq!(edns.extended_rcode, 0);
    assert_eq!(edns.version, 0);
    assert_eq!(edns.flags, 0);
    assert!(edns.options.is_empty());
}

#[test]
fn build_response_with_rcode_echoes_request_edns_opt() {
    let request = edns_query();
    let response = build_response_with_rcode(&request, 2).expect("response");
    let header = parse_header(&response).expect("response header");
    assert_eq!(header.arcount, 1);

    let edns = extract_edns_opt(&response).expect("response edns opt");
    assert_eq!(edns.udp_payload_size, 1232);
    assert_eq!(edns.extended_rcode, 0);
    assert_eq!(edns.version, 0);
    assert_eq!(edns.flags, 0);
    assert!(edns.options.is_empty());
}

#[test]
fn build_query_like_request_preserves_edns_opt() {
    let request = edns_query();
    let query =
        build_query_like_request(&request, 55, "next.example", 1, false).expect("query");
    let edns = extract_edns_opt(&query).expect("edns opt");
    let header = parse_header(&query).expect("header");

    assert_eq!(header.id, 55);
    assert_eq!(edns.udp_payload_size, 1232);
    assert_eq!(edns.extended_rcode, 0);
    assert_eq!(edns.version, 0);
    assert_eq!(edns.flags, 0);
    assert!(edns.options.is_empty());
}

#[test]
fn truncate_response_for_udp_sets_tc_and_respects_payload_size() {
    let request = edns_query();
    let mut response = build_response_with_rcode(&request, 0).expect("response");
    response.extend_from_slice(&vec![0u8; 2048]);

    let truncated = truncate_response_for_udp(&request, &response).expect("truncated");
    let header = parse_header(&truncated).expect("header");

    assert!(truncated.len() <= udp_payload_size_for_request(&request));
    assert!(header.flags & 0x0200 != 0);
    assert_eq!(header.qdcount, 1);
}

fn push_name_rr(
    packet: &mut Vec<u8>,
    owner: &str,
    rr_type: u16,
    rr_class: u16,
    ttl: u32,
    rdata: &[u8],
) {
    encode_name(owner, packet).expect("owner name");
    packet.extend_from_slice(&rr_type.to_be_bytes());
    packet.extend_from_slice(&rr_class.to_be_bytes());
    packet.extend_from_slice(&ttl.to_be_bytes());
    packet.extend_from_slice(&(rdata.len() as u16).to_be_bytes());
    packet.extend_from_slice(rdata);
}

fn build_answer_with_cname_and_dname_response(request: &[u8]) -> Vec<u8> {
    let header = parse_header(request).expect("header");
    let (_, _, qend) = parse_first_question(request).expect("question");
    let mut packet = Vec::with_capacity(192);
    packet.extend_from_slice(&header.id.to_be_bytes());
    let opcode = header.flags & 0x7800;
    let rd = header.flags & 0x0100;
    let flags = 0x8000 | opcode | rd | 0x0080;
    packet.extend_from_slice(&flags.to_be_bytes());
    packet.extend_from_slice(&1u16.to_be_bytes());
    packet.extend_from_slice(&3u16.to_be_bytes());
    packet.extend_from_slice(&0u16.to_be_bytes());
    packet.extend_from_slice(&0u16.to_be_bytes());
    packet.extend_from_slice(&request[12..qend]);

    let mut cname_rdata = Vec::new();
    encode_name("alias.example.com", &mut cname_rdata).expect("cname target");
    push_name_rr(&mut packet, "WWW.Example.COM", 5, 1, 120, &cname_rdata);

    push_name_rr(
        &mut packet,
        "alias.example.com",
        39,
        1,
        90,
        b"\x05target\x07example\x03net\x00",
    );

    push_name_rr(&mut packet, "alias.example.com", 1, 1, 30, &[192, 0, 2, 1]);
    packet
}

#[test]
fn analyze_answer_for_name_with_dnames_collects_all_followup_records_in_one_pass() {
    let request = build_query(200, "www.example.com", 1, true).expect("query");
    let packet = build_answer_with_cname_and_dname_response(&request);

    let combined =
        analyze_answer_for_name_with_dnames(&packet, "WWW.Example.COM", 1).expect("analysis");

    assert_eq!(combined.analysis.rcode, 0);
    assert!(!combined.analysis.has_target_record);
    assert!(combined.analysis.has_owner_cname);
    assert_eq!(
        combined.analysis.first_cname.as_deref(),
        Some("alias.example.com")
    );
    assert_eq!(combined.analysis.cname_records.len(), 1);
    assert_eq!(combined.dname_records.len(), 1);
    assert_eq!(combined.dname_records[0].0, "alias.example.com");
    assert_eq!(combined.dname_records[0].1, 39);
    assert_eq!(combined.dname_records[0].2, 1);
}

#[test]
fn extracts_edns_options_and_common_option_entrypoints() {
    let packet = edns_query_with_options(DNS_EDNS_FLAG_DO);
    let edns = extract_edns_opt(&packet).expect("edns opt");

    assert_eq!(edns.options.len(), 3);
    assert!(dnssec_ok_requested(&packet));
    assert_eq!(extract_edns_nsid(&packet), Some(vec![0xAA, 0xBB]));
    assert_eq!(
        extract_edns_cookie(&packet),
        Some((vec![1, 2, 3, 4, 5, 6, 7, 8], Some(vec![9, 10, 11, 12])))
    );

    let ecs = extract_edns_client_subnet(&packet).expect("ecs");
    assert_eq!(ecs.family, 1);
    assert_eq!(ecs.source_prefix, 24);
    assert_eq!(ecs.scope_prefix, 0);
    assert_eq!(ecs.address, vec![192, 0, 2]);
}

#[test]
fn extracts_cookie_option_and_rejects_short_cookie() {
    let packet = edns_query_with_cookie(&[1, 2, 3, 4, 5, 6, 7, 8, 9, 10, 11, 12]);
    assert_eq!(
        extract_edns_cookie(&packet),
        Some((vec![1, 2, 3, 4, 5, 6, 7, 8], Some(vec![9, 10, 11, 12])))
    );

    let short_cookie = edns_query_with_cookie(&[1, 2, 3, 4, 5, 6, 7]);
    assert_eq!(extract_edns_cookie(&short_cookie), None);
}

#[test]
fn align_response_edns_to_request_strips_unsolicited_opt() {
    let request = basic_query();
    let response = build_response_with_rcode(&edns_query_with_options(DNS_EDNS_FLAG_DO), 0)
        .expect("response");
    let aligned = align_response_edns_to_request(&response, &request).expect("aligned");

    assert!(extract_edns_opt(&aligned).is_none());
}

#[test]
fn align_response_edns_to_request_restores_request_do_bit() {
    let request = edns_query_with_options(DNS_EDNS_FLAG_DO);
    let response = build_response_with_rcode(&basic_query(), 0).expect("response");
    let aligned = align_response_edns_to_request(&response, &request).expect("aligned");
    let edns = extract_edns_opt(&aligned).expect("edns");

    assert_eq!(edns.udp_payload_size, 1232);
    assert_eq!(edns.flags & DNS_EDNS_FLAG_DO, DNS_EDNS_FLAG_DO);
    assert_eq!(edns.options.len(), 0);
}

#[test]
fn build_query_like_request_preserves_cookie_option() {
    let request = edns_query_with_cookie(&[1, 2, 3, 4, 5, 6, 7, 8, 9, 10, 11, 12]);
    let query = build_query_like_request(&request, 77, "alias.example.com", 1, true)
        .expect("query");

    assert_eq!(extract_edns_cookie(&query), Some((
        vec![1, 2, 3, 4, 5, 6, 7, 8],
        Some(vec![9, 10, 11, 12])
    )));
    assert!(dnssec_ok_requested(&query));
}

#[test]
fn build_badvers_response_sets_extended_rcode_and_resets_version() {
    let request = edns_query_with_version(1);
    let response = build_badvers_response(&request).expect("response");
    let header = parse_header(&response).expect("response header");
    let edns = extract_edns_opt(&response).expect("response edns");

    assert_eq!(header.flags & 0x000F, 0);
    assert_eq!(response_code(&response), Some(DNS_RCODE_BADVERS));
    assert_eq!(edns.extended_rcode, 1);
    assert_eq!(edns.version, 0);
    assert_eq!(edns.udp_payload_size, 1232);
}

#[test]
fn rejects_unsupported_edns_version() {
    let request = edns_query_with_version(1);
    assert!(!edns_version_supported(&request));
    assert!(edns_version_supported(&basic_query()));
}

#[test]
fn toggles_cd_bit() {
    let packet = basic_query();
    let modified = set_checking_disabled(&packet, true).expect("modify packet");
    assert!(checking_disabled(&modified));
    let restored = set_checking_disabled(&modified, false).expect("restore packet");
    assert!(!checking_disabled(&restored));
}

#[test]
fn build_dnssec_query_like_request_sets_do_and_cd() {
    let request = basic_query();
    let query = build_dnssec_query_like_request(
        &request,
        77,
        "dnssec.example",
        DNS_TYPE_DNSKEY,
        true,
        true,
    )
    .expect("query");

    assert!(dnssec_ok_requested(&query));
    assert!(checking_disabled(&query));
    assert_eq!(
        extract_edns_opt(&query).map(|value| value.udp_payload_size),
        Some(1232)
    );
}

#[test]
fn strip_edns_opt_from_request_removes_opt_record() {
    let request = edns_query();
    let stripped = strip_edns_opt_from_request(&request).expect("stripped request");
    let header = parse_header(&stripped).expect("header");

    assert_eq!(header.arcount, 0);
    assert!(extract_edns_opt(&stripped).is_none());
    assert_eq!(
        parse_first_question(&stripped).map(|value| value.0),
        Some("www.example.com".to_string())
    );
}

#[test]
fn extracts_negative_cache_ttl_from_authority_soa() {
    let mut packet = basic_query();
    packet[6..8].copy_from_slice(&0u16.to_be_bytes());
    packet[8..10].copy_from_slice(&1u16.to_be_bytes());
    packet[10..12].copy_from_slice(&0u16.to_be_bytes());

    packet.extend_from_slice(&[0xC0, 0x10]);
    packet.extend_from_slice(&6u16.to_be_bytes());
    packet.extend_from_slice(&1u16.to_be_bytes());
    packet.extend_from_slice(&300u32.to_be_bytes());

    let mut soa_rdata = Vec::new();
    soa_rdata.extend_from_slice(&[
        2, b'n', b's', 7, b'e', b'x', b'a', b'm', b'p', b'l', b'e', 3, b'c', b'o', b'm', 0,
    ]);
    soa_rdata.extend_from_slice(&[
        10, b'h', b'o', b's', b't', b'm', b'a', b's', b't', b'e', b'r', 7, b'e', b'x', b'a',
        b'm', b'p', b'l', b'e', 3, b'c', b'o', b'm', 0,
    ]);
    soa_rdata.extend_from_slice(&1u32.to_be_bytes());
    soa_rdata.extend_from_slice(&2u32.to_be_bytes());
    soa_rdata.extend_from_slice(&3u32.to_be_bytes());
    soa_rdata.extend_from_slice(&4u32.to_be_bytes());
    soa_rdata.extend_from_slice(&60u32.to_be_bytes());
    packet.extend_from_slice(&(soa_rdata.len() as u16).to_be_bytes());
    packet.extend_from_slice(&soa_rdata);

    assert_eq!(
        extract_negative_cache_ttl(&packet),
        Some(60)
    );
}

#[test]
fn build_authoritative_answer_multi_sets_ancount_for_multiple_rrs() {
    let request = basic_query();
    let answers = vec!["192.0.2.10".to_string(), "192.0.2.11".to_string()];
    let response = build_authoritative_answer_multi(&request, &answers, 300, "A")
        .expect("multi answer response");
    let header = parse_header(&response).expect("header");

    assert_eq!(header.ancount, 2);
    assert_eq!(header.flags & 0x0400, 0x0400); // AA=1
    assert_eq!(response_code(&response), Some(0)); // NOERROR
}

#[test]
fn build_authoritative_nodata_returns_noerror_with_soa_authority() {
    let request = basic_query();
    let response = build_authoritative_nodata(
        &request,
        "example.com",
        "ns1.example.com",
        "hostmaster.example.com",
        2026051301,
        3600,
        900,
        604800,
        300,
    )
    .expect("nodata response");
    let header = parse_header(&response).expect("header");

    assert_eq!(response_code(&response), Some(0)); // NOERROR
    assert_eq!(header.flags & 0x0400, 0x0400); // AA=1
    assert_eq!(header.ancount, 0);
    assert_eq!(header.nscount, 1);
}

#[test]
fn build_authoritative_soa_answer_uses_soa_type() {
    let mut request = Vec::new();
    request.extend_from_slice(&2u16.to_be_bytes());
    request.extend_from_slice(&0x0100u16.to_be_bytes());
    request.extend_from_slice(&1u16.to_be_bytes());
    request.extend_from_slice(&0u16.to_be_bytes());
    request.extend_from_slice(&0u16.to_be_bytes());
    request.extend_from_slice(&0u16.to_be_bytes());
    request.push(3);
    request.extend_from_slice(b"soa");
    request.push(7);
    request.extend_from_slice(b"example");
    request.push(3);
    request.extend_from_slice(b"com");
    request.push(0);
    request.extend_from_slice(&6u16.to_be_bytes());
    request.extend_from_slice(&1u16.to_be_bytes());

    let response = build_authoritative_soa_answer(
        &request,
        "example.com",
        "ns1.example.com",
        "hostmaster.example.com",
        2024051201,
        3600,
        600,
        86400,
        300,
    )
    .expect("soa answer response");

    let header = parse_header(&response).expect("response header");
    assert_eq!(header.qdcount, 1);
    assert_eq!(header.ancount, 1);
    assert_eq!(header.flags & 0x0400, 0x0400);

    let (_qname, _qtype, qend) = parse_first_question(&response).expect("question section");
    let answer_type = u16::from_be_bytes([response[qend + 13], response[qend + 14]]);
    assert_eq!(answer_type, 6);
}

#[test]
fn build_authoritative_soa_answer_accepts_trailing_dot_names() {
    let mut request = Vec::new();
    request.extend_from_slice(&3u16.to_be_bytes());
    request.extend_from_slice(&0x0100u16.to_be_bytes());
    request.extend_from_slice(&1u16.to_be_bytes());
    request.extend_from_slice(&0u16.to_be_bytes());
    request.extend_from_slice(&0u16.to_be_bytes());
    request.extend_from_slice(&0u16.to_be_bytes());
    request.push(7);
    request.extend_from_slice(b"example");
    request.push(3);
    request.extend_from_slice(b"com");
    request.push(0);
    request.extend_from_slice(&6u16.to_be_bytes());
    request.extend_from_slice(&1u16.to_be_bytes());

    let response = build_authoritative_soa_answer(
        &request,
        "example.com.",
        "ns1.example.com.",
        "hostmaster.example.com.",
        2026051402,
        3600,
        600,
        86400,
        300,
    )
    .expect("soa answer response");

    let (_qname, _qtype, qend) = parse_first_question(&response).expect("question section");
    let answer_offset = qend;
    let name_end = skip_name(&response, answer_offset).expect("answer name");
    let rdlen = u16::from_be_bytes([response[name_end + 8], response[name_end + 9]]) as usize;
    let rdata_offset = name_end + 10;
    assert!(rdata_offset + rdlen <= response.len());

    let (mname, mname_len) = parse_name(&response, rdata_offset).expect("soa mname");
    let (rname, _) = parse_name(&response, rdata_offset + mname_len).expect("soa rname");
    assert_eq!(mname, "ns1.example.com");
    assert_eq!(rname, "hostmaster.example.com");
}

#[test]
fn extract_cache_ttl_ignores_opt_record_ttl_field() {
    let mut packet = basic_query();
    // QR=1, ANCOUNT=1, NSCOUNT=0, ARCOUNT=1
    packet[2..4].copy_from_slice(&0x8000u16.to_be_bytes());
    packet[6..8].copy_from_slice(&1u16.to_be_bytes());
    packet[8..10].copy_from_slice(&0u16.to_be_bytes());
    packet[10..12].copy_from_slice(&1u16.to_be_bytes());

    // Answer: NAME ptr, TYPE A, CLASS IN, TTL=300, RDATA=1.2.3.4
    packet.extend_from_slice(&[0xC0, 0x0C]);
    packet.extend_from_slice(&1u16.to_be_bytes());
    packet.extend_from_slice(&1u16.to_be_bytes());
    packet.extend_from_slice(&300u32.to_be_bytes());
    packet.extend_from_slice(&4u16.to_be_bytes());
    packet.extend_from_slice(&[1, 2, 3, 4]);

    // Additional OPT: TTL field is EDNS flags/extended rcode, should not affect cache ttl.
    packet.extend_from_slice(&0u8.to_be_bytes()); // root name
    packet.extend_from_slice(&41u16.to_be_bytes()); // OPT
    packet.extend_from_slice(&1232u16.to_be_bytes()); // UDP payload size
    packet.extend_from_slice(&0u32.to_be_bytes()); // extended rcode/version/flags
    packet.extend_from_slice(&0u16.to_be_bytes()); // RDLEN

    assert_eq!(extract_cache_ttl(&packet), Some(300));
}

#[test]
fn decays_answer_ttl_in_place() {
    let mut packet = basic_query();
    // QR=1, ancount=1
    packet[2..4].copy_from_slice(&0x8000u16.to_be_bytes());
    packet[6..8].copy_from_slice(&1u16.to_be_bytes());

    // Answer: pointer to question name, TYPE A, CLASS IN, TTL=60, RDATA=1.2.3.4
    packet.extend_from_slice(&[0xC0, 0x0C]);
    packet.extend_from_slice(&1u16.to_be_bytes());
    packet.extend_from_slice(&1u16.to_be_bytes());
    packet.extend_from_slice(&60u32.to_be_bytes());
    packet.extend_from_slice(&4u16.to_be_bytes());
    packet.extend_from_slice(&[1, 2, 3, 4]);

    decay_response_ttl_in_place(&mut packet, 7);

    let ttl_offset = packet.len() - 10;
    let ttl = u32::from_be_bytes([
        packet[ttl_offset],
        packet[ttl_offset + 1],
        packet[ttl_offset + 2],
        packet[ttl_offset + 3],
    ]);
    assert_eq!(ttl, 53);
}

#[test]
fn referral_authority_zone_all_uppercase_normalized() {
    let analysis = DnsReferralAnalysis {
        glue_nameservers: vec!["192.0.2.53:53".to_string()],
        authority_ns_hostnames: vec!["ns1.example.com".to_string()],
        authority_zones: vec!["EXAMPLE.COM".to_string()],
        has_authority_soa: false,
    };
    let validation = validate_referral_security("www.example.com", &analysis);
    assert!(
        validation.is_valid,
        "all-uppercase authority zone should normalize"
    );
    assert!(validation.authority_zones_valid);
    assert!(validation.bailiwick_valid);
}

#[test]
fn referral_ns_hostname_all_uppercase_normalized() {
    let analysis = DnsReferralAnalysis {
        glue_nameservers: vec!["192.0.2.53:53".to_string()],
        authority_ns_hostnames: vec!["NS1.EXAMPLE.COM".to_string()],
        authority_zones: vec!["example.com".to_string()],
        has_authority_soa: false,
    };
    let validation = validate_referral_security("www.example.com", &analysis);
    assert!(validation.is_valid);
    assert!(validation.bailiwick_valid);
}

#[test]
fn referral_query_name_all_uppercase_normalized() {
    let analysis = DnsReferralAnalysis {
        glue_nameservers: vec!["192.0.2.53:53".to_string()],
        authority_ns_hostnames: vec!["ns1.example.com".to_string()],
        authority_zones: vec!["example.com".to_string()],
        has_authority_soa: false,
    };
    let validation = validate_referral_security("WWW.EXAMPLE.COM", &analysis);
    assert!(validation.is_valid);
    assert!(validation.authority_zones_valid);
}

#[test]
fn referral_mixed_case_across_all_fields() {
    let analysis = DnsReferralAnalysis {
        glue_nameservers: vec!["192.0.2.53:53".to_string()],
        authority_ns_hostnames: vec!["Ns1.Example.COM".to_string()],
        authority_zones: vec!["ExAmPlE.CoM".to_string()],
        has_authority_soa: false,
    };
    let validation = validate_referral_security("WwW.eXaMpLe.cOm", &analysis);
    assert!(validation.is_valid);
    assert!(validation.bailiwick_valid);
}

#[test]
fn referral_multiple_ns_hostnames_with_case_variants_deduplicated() {
    let analysis = DnsReferralAnalysis {
        glue_nameservers: vec!["192.0.2.53:53".to_string()],
        authority_ns_hostnames: vec![
            "ns1.example.com".to_string(),
            "NS1.EXAMPLE.COM".to_string(),
            "Ns1.Example.Com".to_string(),
        ],
        authority_zones: vec!["example.com".to_string()],
        has_authority_soa: false,
    };
    let validation = validate_referral_security("www.example.com", &analysis);
    assert!(validation.is_valid);
    assert!(share(&validation.glue_coverage) > 0.3 && share(&validation.glue_coverage) < 0.4);
    assert!(validation.trust_level < 100);
}

#[test]
fn referral_authority_zone_with_trailing_dot() {
    let analysis = DnsReferralAnalysis {
        glue_nameservers: vec!["192.0.2.53:53".to_string()],
        authority_ns_hostnames: vec!["ns1.example.com".to_string()],
        authority_zones: vec!["example.com.".to_string()],
        has_authority_soa: false,
    };
    let validation = validate_referral_security("www.example.com", &analysis);
    assert!(validation.is_valid);
    assert!(validation.authority_zones_valid);
}

#[test]
fn referral_ns_hostname_with_trailing_dot() {
    let analysis = DnsReferralAnalysis {
        glue_nameservers: vec!["192.0.2.53:53".to_string()],
        authority_ns_hostnames: vec!["ns1.example.com.".to_string()],
        authority_zones: vec!["example.com".to_string()],
        has_authority_soa: false,
    };
    let validation = validate_referral_security("www.example.com", &analysis);
    assert!(validation.is_valid);
    assert!(validation.bailiwick_valid);
}

#[test]
fn referral_query_name_with_trailing_dot() {
    let analysis = DnsReferralAnalysis {
        glue_nameservers: vec!["192.0.2.53:53".to_string()],
        authority_ns_hostnames: vec!["ns1.example.com".to_string()],
        authority_zones: vec!["example.com".to_string()],
        has_authority_soa: false,
    };
    let validation = validate_referral_security("www.example.com.", &analysis);
    assert!(validation.is_valid);
    assert!(validation.authority_zones_valid);
}

#[test]
fn referral_mixed_trailing_dots_across_fields() {
    let analysis = DnsReferralAnalysis {
        glue_nameservers: vec!["192.0.2.53:53".to_string()],
        authority_ns_hostnames: vec!["ns1.example.com.".to_string()],
        authority_zones: vec!["example.com".to_string()],
        has_authority_soa: false,
    };
    let validation = validate_referral_security("www.example.com.", &analysis);
    assert!(validation.is_valid);
    assert!(validation.bailiwick_valid);
}

#[test]
fn referral_full_glue_coverage() {
    let analysis = DnsReferralAnalysis {
        glue_nameservers: vec![
            "192.0.2.53:53".to_string(),
            "192.0.2.54:53".to_string(),
            "192.0.2.55:53".to_string(),
        ],
        authority_ns_hostnames: vec![
            "ns1.example.com".to_string(),
            "ns2.example.com".to_string(),
            "ns3.example.com".to_string(),
        ],
        authority_zones: vec!["example.com".to_string()],
        has_authority_soa: false,
    };
    let validation = validate_referral_security("www.example.com", &analysis);
    assert!(validation.is_valid);
    assert!(
        share(&validation.glue_coverage) > 0.99,
        "should have >= 100% coverage"
    );
    assert!(
        validation.trust_level >= 80,
        "full glue should boost trust_level"
    );
}

#[test]
fn referral_partial_glue_coverage_fifty_percent() {
    let analysis = DnsReferralAnalysis {
        glue_nameservers: vec!["192.0.2.53:53".to_string()],
        authority_ns_hostnames: vec![
            "ns1.example.com".to_string(),
            "ns2.example.com".to_string(),
        ],
        authority_zones: vec!["example.com".to_string()],
        has_authority_soa: false,
    };
    let validation = validate_referral_security("www.example.com", &analysis);
    assert!(validation.is_valid);
    assert!(share(&validation.glue_coverage) >= 0.4 && share(&validation.glue_coverage) <= 0.6);
    assert!(
        validation.trust_level < 100,
        "partial glue should reduce trust_level"
    );
}

#[test]
fn referral_no_glue_at_all() {
    let analysis = DnsReferralAnalysis {
        glue_nameservers: vec![],
        authority_ns_hostnames: vec!["ns1.example.com".to_string()],
        authority_zones: vec!["example.com".to_string()],
        has_authority_soa: false,
    };
    let validation = validate_referral_security("www.example.com", &analysis);
    assert!(validation.is_valid, "no-glue referral must remain valid");
    assert_eq!(share(&validation.glue_coverage), 0.0);
    assert!(
        validation.trust_level < 70,
        "no glue should significantly reduce trust_level, got {}",
        validation.trust_level
    );
}

#[test]
fn referral_more_glue_than_ns_hostnames() {
    let analysis = DnsReferralAnalysis {
        glue_nameservers: vec![
            "192.0.2.53:53".to_string(),
            "192.0.2.54:53".to_string(),
            "192.0.2.55:53".to_string(),
            "192.0.2.56:53".to_string(),
            "192.0.2.57:53".to_string(),
        ],
        authority_ns_hostnames: vec![
            "ns1.example.com".to_string(),
            "ns2.example.com".to_string(),
        ],
        authority_zones: vec!["example.com".to_string()],
        has_authority_soa: false,
    };
    let validation = validate_referral_security("www.example.com", &analysis);
    assert!(validation.is_valid);
    assert!(
        (share(&validation.glue_coverage) - 1.0).abs() < 0.001,
        "coverage should be capped at 1.0, got {}",
        share(&validation.glue_coverage)
    );
}

#[test]
fn referral_empty_authority_zones_rejected() {
    let analysis = DnsReferralAnalysis {
        glue_nameservers: vec!["192.0.2.53:53".to_string()],
        authority_ns_hostnames: vec!["ns1.example.com".to_string()],
        authority_zones: vec![],
        has_authority_soa: false,
    };
    let validation = validate_referral_security("www.example.com", &analysis);
    assert!(
        !validation.is_valid,
        "empty authority_zones must be rejected"
    );
    assert!(!validation.authority_zones_valid);
}

#[test]
fn referral_multiple_authority_zones_rejected() {
    let analysis = DnsReferralAnalysis {
        glue_nameservers: vec!["192.0.2.53:53".to_string()],
        authority_ns_hostnames: vec!["ns1.example.com".to_string()],
        authority_zones: vec!["example.com".to_string(), "other.com".to_string()],
        has_authority_soa: false,
    };
    let validation = validate_referral_security("www.example.com", &analysis);
    assert!(
        !validation.is_valid,
        "multiple authority zones must be rejected"
    );
    assert!(!validation.authority_zones_valid);
}

#[test]
fn referral_out_of_zone_ns_with_good_glue_coverage() {
    let analysis = DnsReferralAnalysis {
        glue_nameservers: vec![
            "202.108.2.1:53".to_string(),
            "202.108.2.2:53".to_string(),
            "202.108.2.3:53".to_string(),
        ],
        authority_ns_hostnames: vec!["ns1.nease.net".to_string(), "ns2.nease.net".to_string()],
        authority_zones: vec!["163.com".to_string()],
        has_authority_soa: false,
    };
    let validation = validate_referral_security("www.163.com", &analysis);
    assert!(validation.is_valid, "out-of-zone with glue must be valid");
    assert!(!validation.bailiwick_valid, "bailiwick should be false");
    assert!(
        validation.trust_level >= 60,
        "out-of-zone + good glue should yield trust_level >= 60, got {}",
        validation.trust_level
    );
}

#[test]
fn referral_out_of_zone_ns_without_glue_low_trust() {
    let analysis = DnsReferralAnalysis {
        glue_nameservers: vec![],
        authority_ns_hostnames: vec!["ns1.external.net".to_string()],
        authority_zones: vec!["example.com".to_string()],
        has_authority_soa: false,
    };
    let validation = validate_referral_security("www.example.com", &analysis);
    assert!(
        validation.is_valid,
        "out-of-zone + no-glue must remain valid"
    );
    assert!(!validation.bailiwick_valid);
    assert!(
        validation.trust_level < 60,
        "out-of-zone + no-glue should yield trust_level < 60 for safety, got {}",
        validation.trust_level
    );
}

#[test]
fn referral_out_of_zone_with_authority_soa_present() {
    let analysis = DnsReferralAnalysis {
        glue_nameservers: vec!["192.0.2.53:53".to_string()],
        authority_ns_hostnames: vec!["ns1.external.net".to_string()],
        authority_zones: vec!["example.com".to_string()],
        has_authority_soa: true,
    };
    let validation = validate_referral_security("www.example.com", &analysis);
    assert!(validation.is_valid);
    assert!(!validation.bailiwick_valid);
    assert!(
        validation.trust_level <= 80,
        "presence of SOA should reduce trust further"
    );
}

#[test]
fn referral_complex_mixed_case_dots_no_glue_out_of_zone() {
    let analysis = DnsReferralAnalysis {
        glue_nameservers: vec![],
        authority_ns_hostnames: vec!["Ns1.External.NET.".to_string()],
        authority_zones: vec!["ExAmPlE.CoM.".to_string()],
        has_authority_soa: false,
    };
    let validation = validate_referral_security("WwW.eXaMpLe.cOm.", &analysis);
    assert!(
        validation.is_valid,
        "complex mixed case/dots/no-glue/out-of-zone must remain valid"
    );
    assert!(!validation.bailiwick_valid);
    assert_eq!(share(&validation.glue_coverage), 0.0);
    assert!(
        validation.trust_level < 60,
        "complex scenario should yield low trust"
    );
}

#[test]
fn referral_multiple_ns_mixed_duplicates_and_glue() {
    let analysis = DnsReferralAnalysis {
        glue_nameservers: vec![
            "192.0.2.53:53".to_string(),
            "192.0.2.54:53".to_string(),
            "192.0.2.55:53".to_string(),
        ],
        authority_ns_hostnames: vec![
            "ns1.example.com".to_string(),
            "NS1.EXAMPLE.COM".to_string(),
            "ns2.example.com".to_string(),
            "ns3.example.com".to_string(),
        ],
        authority_zones: vec!["example.com".to_string()],
        has_authority_soa: false,
    };
    let validation = validate_referral_security("www.example.com", &analysis);
    assert!(validation.is_valid);
    // Glue coverage = 3 glue / 4 NS = 0.75
    assert!(
        (share(&validation.glue_coverage) - 0.75).abs() < 0.01,
        "glue coverage should be ~0.75, got {}",
        share(&validation.glue_coverage)
    );
}

#[test]
fn referral_root_zone_query_root() {
    let analysis = DnsReferralAnalysis {
        glue_nameservers: vec!["192.5.6.30:53".to_string()],
        authority_ns_hostnames: vec!["a.root-servers.net".to_string()],
        authority_zones: vec![".".to_string()],
        has_authority_soa: false,
    };
    let validation = validate_referral_security(".", &analysis);
    assert!(validation.is_valid);
    assert!(validation.authority_zones_valid);
}

#[test]
fn referral_authority_zone_subdomain_query_parent_mismatch() {
    let analysis = DnsReferralAnalysis {
        glue_nameservers: vec!["192.0.2.53:53".to_string()],
        authority_ns_hostnames: vec!["ns1.sub.example.com".to_string()],
        authority_zones: vec!["sub.example.com".to_string()],
        has_authority_soa: false,
    };
    let validation = validate_referral_security("example.com", &analysis);
    assert!(
        !validation.is_valid,
        "query superior to authority zone should be rejected"
    );
}

/// Trust level = 80 (base) + 20 (full glue) - 20 (out-of-zone) = 80
#[test]
fn referral_ns_hostname_is_root_remains_valid() {
    let analysis = DnsReferralAnalysis {
        glue_nameservers: vec!["192.5.6.30:53".to_string()],
        authority_ns_hostnames: vec![".".to_string()],
        authority_zones: vec!["example.com".to_string()],
        has_authority_soa: false,
    };
    let validation = validate_referral_security("www.example.com", &analysis);
    assert!(
        validation.is_valid,
        "root as NS hostname should not hard-reject (out-of-zone is soft penalty)"
    );
    assert!(
        !validation.bailiwick_valid,
        "root is not in example.com zone"
    );
    // Full glue offsets out-of-zone penalty: 80 + 20 - 20 = 80
    assert_eq!(
        validation.trust_level, 80,
        "full glue + out-of-zone should yield 80"
    );
}
