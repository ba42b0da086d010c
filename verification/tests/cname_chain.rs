//! Chains of aliases in answers.
use cognidns::codec::dns::{
    append_cname_answers, build_authoritative_answer_multi, encode_name,
    extract_answer_cname_records, extract_answer_records_by_type,
};
use cognidns::codec::dns_rfc_patch::normalize_cname_chain_answers;

fn basic_request(name: &str, qtype: u16) -> Vec<u8> {
    let mut packet = Vec::new();
    packet.extend_from_slice(&0x1234u16.to_be_bytes());
    packet.extend_from_slice(&0x0100u16.to_be_bytes());
    packet.extend_from_slice(&1u16.to_be_bytes());
    packet.extend_from_slice(&0u16.to_be_bytes());
    packet.extend_from_slice(&0u16.to_be_bytes());
    packet.extend_from_slice(&0u16.to_be_bytes());
    for label in name.trim_end_matches('.').split('.') {
        packet.push(label.len() as u8);
        packet.extend_from_slice(label.as_bytes());
    }
    packet.push(0);
    packet.extend_from_slice(&qtype.to_be_bytes());
    packet.extend_from_slice(&1u16.to_be_bytes());
    packet
}

#[test]
fn normalize_cname_chain_answers_preserves_multiple_terminal_a_records() {
    let target_request = basic_request("www.abc.com", 1);

    let terminal = build_authoritative_answer_multi(
        &target_request,
        &[
            "3.175.207.59".to_string(),
            "3.175.207.120".to_string(),
            "3.175.207.51".to_string(),
            "3.175.207.14".to_string(),
        ],
        60,
        "A",
    )
    .expect("terminal packet");

    let merged = append_cname_answers(
        &terminal,
        &[("abc.test.com".to_string(), "www.abc.com".to_string(), 300)],
    )
    .expect("merged packet");

    let normalized = normalize_cname_chain_answers(&merged, 1).expect("normalized packet");
    let a_records = extract_answer_records_by_type(&normalized, 1);
    let cname_records = extract_answer_cname_records(&normalized);

    assert_eq!(cname_records.len(), 1);
    assert_eq!(a_records.len(), 4);

    let answers: std::collections::HashSet<_> = a_records
        .into_iter()
        .filter_map(|(_, _, _, _, rdata)| {
            if rdata.len() == 4 {
                Some(format!(
                    "{}.{}.{}.{}",
                    rdata[0], rdata[1], rdata[2], rdata[3]
                ))
            } else {
                None
            }
        })
        .collect();

    assert!(answers.contains("3.175.207.59"));
    assert!(answers.contains("3.175.207.120"));
    assert!(answers.contains("3.175.207.51"));
    assert!(answers.contains("3.175.207.14"));
}

#[test]
fn aliases_stand_at_the_front_and_nothing_else_stays() {
    let mut packet = basic_request("www.example.com", 1);
    packet[7] = 4;
    let mut push = |owner: &str, rr_type: u16, data: &[u8]| {
        assert!(encode_name(owner, &mut packet).is_some());
        packet.extend_from_slice(&rr_type.to_be_bytes());
        packet.extend_from_slice(&[0, 1, 0, 0, 0, 60]);
        packet.extend_from_slice(&(data.len() as u16).to_be_bytes());
        packet.extend_from_slice(data);
    };
    let name = |text: &str| {
        let mut bytes = Vec::new();
        assert!(encode_name(text, &mut bytes).is_some());
        bytes
    };
    push("example.com", 39, &name("example.net"));
    push("www.example.com", 1, &[192, 0, 2, 9]);
    push("www.example.com", 5, &name("www.example.net"));
    push("www.example.net", 1, &[192, 0, 2, 1]);
    let ordered = normalize_cname_chain_answers(&packet, 1).expect("packet");
    assert_eq!(&ordered[6..8], &[0, 2]);
    assert!(extract_answer_records_by_type(&ordered, 39).is_empty());
    let start = basic_request("www.example.com", 1).len();
    let owner = name("www.example.com");
    assert_eq!(&ordered[start..start + owner.len()], &owner[..]);
    assert_eq!(&ordered[start + owner.len()..start + owner.len() + 2], &[0, 5]);
    assert_eq!(
        extract_answer_cname_records(&ordered),
        vec![("www.example.com".to_string(), "www.example.net".to_string(), 60)]
    );
    let a = extract_answer_records_by_type(&ordered, 1);
    assert_eq!(a, vec![("www.example.net".to_string(), 1, 1, 60, vec![192, 0, 2, 1])]);
}
