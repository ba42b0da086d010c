//! The signing server of the benchmark.
use cognidns::bench::fixture::{build_empty_noerror_response, FixtureAnswer};
use cognidns::bench::responder::{
    build_reply, dnssec_response_packet, DnssecFixture, FixtureError, FixtureRequest, FixtureStep,
};
use cognidns::bench::signing::{
    dnssec_record, prepare_signature, set_plan, signature_head, write_address_record, write_digest,
    write_digest_record, write_key_record, write_planned_record, write_signature_record, zone_name,
    FixtureZone, SetPlan, KEY_FLAGS, SIGNED_TTL, SIGNING_ALGORITHM,
};
use cognidns::dnssec::chain::{verify_dnskey_with_ds, verify_root_dnskeys_with_anchors};
use cognidns::dnssec::anchors::AnchorSet;
use cognidns::dnssec::names::DnsName;
use cognidns::dnssec::records::{parse_message, DnsRecord, RecordData};
use hickory_proto::dnssec::crypto::EcdsaSigningKey;
use hickory_proto::dnssec::rdata::{DNSSECRData, DNSKEY, DS, RRSIG};
use hickory_proto::dnssec::{Algorithm, DigestType, PublicKey, PublicKeyBuf, SigningKey, TBS};
use hickory_proto::op::{Edns, Message, MessageType, Query};
use hickory_proto::rr::rdata::A;
use hickory_proto::rr::{Name, RData, Record, RecordType};
use hickory_proto::serialize::binary::{BinDecodable, BinEncodable};

const NOW: u32 = 1_700_000_000;

struct Key {
    signing_key: EcdsaSigningKey,
    public_key: Vec<u8>,
}

fn new_key() -> Key {
    let algorithm = Algorithm::ECDSAP256SHA256;
    let pkcs8 = EcdsaSigningKey::generate_pkcs8(algorithm).expect("key pair");
    let signing_key = EcdsaSigningKey::from_pkcs8(&pkcs8, algorithm).expect("signing key");
    let public_key = signing_key.to_public_key().expect("public key").public_bytes().to_vec();
    Key { signing_key, public_key }
}

fn labels(name: &str) -> DnsName {
    let name = Name::from_ascii(name).expect("name");
    DnsName { labels: name.iter().map(|l| l.to_vec()).collect() }
}

fn request(name: &str, record_type: RecordType, edns: Option<(u16, bool)>) -> Vec<u8> {
    let mut m = Message::new();
    m.set_id(0x1234).set_message_type(MessageType::Query).set_recursion_desired(true);
    m.add_query(Query::query(Name::from_ascii(name).expect("name"), record_type));
    if let Some((size, dnssec_ok)) = edns {
        let mut e = Edns::new();
        e.set_max_payload(size).set_dnssec_ok(dnssec_ok);
        m.set_edns(e);
    }
    m.to_vec().expect("request")
}

fn signed(
    owner: &DnsName,
    record_type: u16,
    signer: FixtureZone,
    key: &Key,
    record: Vec<u8>,
) -> Vec<Vec<u8>> {
    let mut set = vec![record];
    let (head, bytes) =
        prepare_signature(owner, record_type, &set, signer, &key.public_key, NOW).expect("prepared");
    let signature = key.signing_key.sign(&TBS::from(bytes.as_slice())).expect("signature");
    set.push(write_signature_record(owner, &head, &signature).expect("signature record"));
    set
}

fn empty_fixture() -> DnssecFixture {
    DnssecFixture {
        root_keys: vec![],
        com_keys: vec![],
        child_keys: vec![],
        com_digests: vec![],
        child_digests: vec![],
    }
}

fn sent(step: Result<FixtureStep, FixtureError>) -> Vec<u8> {
    match step {
        Ok(FixtureStep::Send(packet)) => packet,
        other => panic!("packet expected: {other:?}"),
    }
}

#[test]
fn records_of_zones_are_written() {
    let key: Vec<u8> = (0..64).collect();
    let zone = Name::from_ascii("example.com.").expect("name");
    let dnskey =
        DNSKEY::new(true, true, false, PublicKeyBuf::new(key.clone(), Algorithm::ECDSAP256SHA256));
    assert_eq!(dnskey.flags(), KEY_FLAGS);
    assert_eq!(u8::from(Algorithm::ECDSAP256SHA256), SIGNING_ALGORITHM);
    let record = Record::from_rdata(
        zone.clone(),
        300,
        RData::DNSSEC(DNSSECRData::DNSKEY(dnskey.clone())),
    );
    assert_eq!(write_key_record(FixtureZone::Child, &key), Some(record.to_bytes().expect("wire")));
    let digest = dnskey.to_digest(&zone, DigestType::SHA256).expect("digest").as_ref().to_vec();
    let tag = dnskey.calculate_key_tag().expect("tag");
    let ds = DS::new(tag, Algorithm::ECDSAP256SHA256, DigestType::SHA256, digest.clone());
    let record = Record::from_rdata(zone, 300, RData::DNSSEC(DNSSECRData::DS(ds)));
    let wire = record.to_bytes().expect("wire");
    assert_eq!(write_digest_record(FixtureZone::Child, &key), Some(wire.clone()));
    assert_eq!(write_digest(FixtureZone::Child, tag, &digest), Some(wire));
    let owner = Name::from_ascii("a.example.com.").expect("name");
    let record = Record::from_rdata(owner, SIGNED_TTL, RData::A(A::new(203, 0, 113, 40)));
    assert_eq!(
        write_address_record(&labels("a.example.com.")),
        (Some(record.to_bytes().expect("wire")), 1)
    );
}

#[test]
fn names_that_cannot_be_written_have_no_records() {
    let long = DnsName { labels: vec![vec![97; 64]] };
    assert_eq!(dnssec_record(&long, 1, &vec![]), None);
    assert_eq!(dnssec_record(&DnsName { labels: vec![vec![]] }, 1, &vec![]), None);
    let wide = DnsName { labels: vec![vec![97; 63]; 4] };
    assert_eq!(dnssec_record(&wide, 1, &vec![]), None);
    let full = DnsName { labels: vec![vec![97; 63], vec![97; 63], vec![97; 63], vec![97; 61]] };
    assert_eq!(dnssec_record(&full, 1, &vec![]).map(|r| r.len()), Some(265));
    assert_eq!(dnssec_record(&zone_name(FixtureZone::Root), 1, &vec![0; 65536]), None);
    assert!(signature_head(&long, 1, FixtureZone::Root, &vec![1], NOW).is_none());
    assert!(
        signature_head(&zone_name(FixtureZone::Com), 1, FixtureZone::Root, &vec![0; 65532], NOW)
            .is_none()
    );
}

#[test]
fn zones_sign_their_keys_and_the_digests_below() {
    let plan = |a| set_plan(a).map(|p: SetPlan| (p.owner, p.signer, p.digests));
    let (root, com, child) = (FixtureZone::Root, FixtureZone::Com, FixtureZone::Child);
    assert_eq!(plan(FixtureAnswer::RootKeys), Some((root, root, false)));
    assert_eq!(plan(FixtureAnswer::ComKeys), Some((com, com, false)));
    assert_eq!(plan(FixtureAnswer::ChildKeys), Some((child, child, false)));
    assert_eq!(plan(FixtureAnswer::ComDigests), Some((com, root, true)));
    assert_eq!(plan(FixtureAnswer::ChildDigests), Some((child, com, true)));
    assert_eq!(plan(FixtureAnswer::Address), None);
    assert_eq!(plan(FixtureAnswer::Nothing), None);
    assert_eq!(zone_name(root).labels.len(), 0);
    assert_eq!(zone_name(com).labels, labels("com.").labels);
    assert_eq!(zone_name(child).labels, labels("example.com.").labels);
    let key: Vec<u8> = vec![7; 64];
    let planned = set_plan(FixtureAnswer::ComDigests).expect("plan");
    assert_eq!(write_planned_record(planned, &key), (write_digest_record(com, &key), 43));
    let planned = set_plan(FixtureAnswer::ComKeys).expect("plan");
    assert_eq!(write_planned_record(planned, &key), (write_key_record(com, &key), 48));
}

#[test]
fn signatures_say_what_they_cover() {
    let key = new_key();
    let owner = labels("*.example.com.");
    let (record, record_type) = write_address_record(&owner);
    let set = signed(&owner, record_type, FixtureZone::Child, &key, record.expect("record"));
    let records: Vec<Record> =
        set.iter().map(|r| Record::from_bytes(r).expect("record")).collect();
    let rrsig = match records[1].data() {
        RData::DNSSEC(DNSSECRData::RRSIG(s)) => s.clone(),
        _ => panic!("signature expected"),
    };
    assert_eq!(records[1].ttl(), 300);
    assert_eq!(rrsig.type_covered(), RecordType::A);
    assert_eq!(rrsig.num_labels(), 2);
    assert_eq!(rrsig.original_ttl(), 300);
    assert_eq!(rrsig.sig_inception().get(), NOW - 60);
    assert_eq!(rrsig.sig_expiration().get(), NOW + 300);
    assert_eq!(rrsig.signer_name().to_ascii(), "example.com.");
    let expected = RRSIG::new(
        RecordType::A,
        Algorithm::ECDSAP256SHA256,
        2,
        300,
        NOW + 300,
        NOW - 60,
        rrsig.key_tag(),
        Name::from_ascii("example.com.").expect("name"),
        Vec::new(),
    );
    let bare: Record<RRSIG> = Record::from_rdata(records[0].name().clone(), 300, expected);
    let tbs = TBS::from_rrsig(&bare, records[..1].iter()).expect("bytes");
    let (head, bytes) = prepare_signature(
        &owner,
        1,
        &vec![set[0].clone()],
        FixtureZone::Child,
        &key.public_key,
        NOW,
    )
    .expect("prepared");
    assert_eq!(bytes, tbs.as_ref());
    assert_eq!((head.labels, head.algorithm, head.key_tag), (2, 13, rrsig.key_tag()));
    assert!(prepare_signature(
        &owner,
        1,
        &vec![vec![1, 2]],
        FixtureZone::Child,
        &key.public_key,
        NOW
    )
    .is_none());
}

#[test]
fn requests_are_read_before_they_are_answered() {
    let fixture = empty_fixture();
    assert!(matches!(fixture.respond(&[1, 2, 3]), Err(FixtureError::Malformed(_))));
    let words = Message::from_vec(&[1, 2, 3]).expect_err("error").to_string();
    match fixture.respond(&[1, 2, 3]) {
        Err(FixtureError::Malformed(s)) => assert_eq!(s, words),
        other => panic!("error expected: {other:?}"),
    }
    let bare = [0, 1, 1, 0, 0, 0, 0, 0, 0, 0, 0, 0];
    assert!(matches!(fixture.respond(&bare), Err(FixtureError::NoQuestion)));
    let plain = request("www.example.org.", RecordType::A, None);
    assert_eq!(sent(fixture.respond(&plain)), build_empty_noerror_response(&plain));
    match fixture.respond(&request("wWw.example.com.", RecordType::A, None)) {
        Ok(FixtureStep::SignAddress(name, zone)) => {
            assert_eq!(name.labels, vec![b"wWw".to_vec(), b"example".to_vec(), b"com".to_vec()]);
            assert_eq!(zone, FixtureZone::Child);
        }
        other => panic!("address expected: {other:?}"),
    }
    let broken = DnssecFixture { root_keys: vec![vec![1, 2]], ..empty_fixture() };
    let root = request(".", RecordType::DNSKEY, None);
    assert!(matches!(broken.respond(&root), Err(FixtureError::Unwritable)));
    let asked = FixtureRequest { id: 1, recursion_desired: false, question: None, edns: None };
    assert!(matches!(fixture.respond_to(asked, &bare), Err(FixtureError::NoQuestion)));
}

#[test]
fn replies_take_over_what_the_request_says() {
    let owner = labels("a.example.com.");
    let record = write_address_record(&owner).0.expect("record");
    for edns in [None, Some((1232, true)), Some((4096, false)), Some((100, true))] {
        let asked = request("a.example.com.", RecordType::A, edns);
        let decoded = Message::from_vec(&asked).expect("request");
        let mut m = Message::new();
        m.set_id(decoded.id())
            .set_message_type(MessageType::Response)
            .set_recursion_desired(decoded.recursion_desired())
            .set_recursion_available(true)
            .add_query(Query::query(Name::from_ascii("a.example.com.").expect("name"), RecordType::A))
            .add_answers(vec![Record::from_bytes(&record).expect("record")]);
        if let Some(e) = decoded.extensions() {
            let mut out = Edns::new();
            out.set_max_payload(e.max_payload());
            out.set_dnssec_ok(e.flags().dnssec_ok);
            m.set_edns(out);
        }
        assert_eq!(
            dnssec_response_packet(&asked, &owner, 1, &vec![record.clone()]),
            Some(m.to_vec().expect("reply"))
        );
    }
    assert_eq!(dnssec_response_packet(&[1, 2, 3], &owner, 1, &vec![]), None);
    let asked = FixtureRequest {
        id: 9,
        recursion_desired: false,
        question: None,
        edns: Some((1400, true)),
    };
    let reply = build_reply(&asked, &owner, 28, &vec![vec![5]]);
    assert_eq!((reply.id, reply.recursion_desired, reply.recursion_available), (9, false, true));
    assert_eq!((reply.query_type, reply.edns), (28, Some((1400, true))));
    assert_eq!((reply.name.labels, reply.answers), (owner.labels, vec![vec![5]]));
}

#[test]
fn signed_zones_are_validated_from_the_root_down() {
    let (root, com, child) = (new_key(), new_key(), new_key());
    let key_of = |zone| match zone {
        FixtureZone::Root => &root,
        FixtureZone::Com => &com,
        FixtureZone::Child => &child,
    };
    let set = |answer| {
        let plan = set_plan(answer).expect("plan");
        let (record, record_type) = write_planned_record(plan, &key_of(plan.owner).public_key);
        let owner = zone_name(plan.owner);
        signed(&owner, record_type, plan.signer, key_of(plan.signer), record.expect("record"))
    };
    let fixture = DnssecFixture {
        root_keys: set(FixtureAnswer::RootKeys),
        com_keys: set(FixtureAnswer::ComKeys),
        child_keys: set(FixtureAnswer::ChildKeys),
        com_digests: set(FixtureAnswer::ComDigests),
        child_digests: set(FixtureAnswer::ChildDigests),
    };
    let split = |packet: Vec<u8>| {
        let message = parse_message(&packet).expect("message");
        let (signatures, records): (Vec<DnsRecord>, Vec<DnsRecord>) =
            message.answers.into_iter().partition(|r| matches!(r.data, RecordData::Rrsig(_)));
        (records, signatures)
    };
    let ask = |name: &str, record_type| {
        split(sent(fixture.respond(&request(name, record_type, Some((1232, true))))))
    };
    let mut anchors = AnchorSet::empty();
    assert!(anchors.insert(13, &root.public_key));
    let (keys, signatures) = ask(".", RecordType::DNSKEY);
    assert_eq!(keys.len(), 1);
    assert!(verify_root_dnskeys_with_anchors(&labels("."), &keys, &signatures, &anchors, NOW).is_ok());
    let (com_digests, _) = ask("com.", RecordType::DS);
    let (keys, _) = ask("com.", RecordType::DNSKEY);
    assert!(verify_dnskey_with_ds(&labels("com."), &keys, &com_digests).is_ok());
    let (digests, _) = ask("example.com.", RecordType::DS);
    let (keys, _) = ask("example.com.", RecordType::DNSKEY);
    assert!(verify_dnskey_with_ds(&labels("example.com."), &keys, &digests).is_ok());
    assert!(verify_dnskey_with_ds(&labels("example.com."), &keys, &com_digests).is_err());
}
