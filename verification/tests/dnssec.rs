//! Signed answers and signed proofs that a name or a type does not exist.
use std::time::{Duration, SystemTime, UNIX_EPOCH};

use cognidns::dnssec::anchors::{
    dnskey_rrset_matches_trust_anchors, load_trust_anchors, logical_zone_lines,
    parse_dnskey_algorithm, parse_trust_anchors, root_trust_anchors, split_words, AnchorError,
    AnchorSet, LoadError,
};
use cognidns::dnssec::chain::{
    verify_dnskey_with_ds, verify_root_dnskeys, verify_root_dnskeys_with_anchors, ValidatedKeys,
};
use cognidns::dnssec::names::{
    next_closer_name, parent_zone, precedes, same_name, trim_to, wildcard_closest_encloser,
    wildcard_name, DnsName,
};
use cognidns::dnssec::negative::{
    nsec3_covers_hash, nsec_covers_name, validate_nodata_nsec, NsecProof, ValidationState,
};
use cognidns::dnssec::records::{parse_message, DnsMessage, DnsRecord, DnssecError, RecordData};
use cognidns::dnssec::rrsets::{
    calculate_key_tag, collect_signed_rrsets, find_zone_signers, response_has_dnssec_records,
    validation_requested,
};
use cognidns::dnssec::verdict::{nsec3_owner_hash, verify_message_rrsets};
use data_encoding::{BASE32_DNSSEC, BASE64};
use hickory_proto::dnssec::crypto::EcdsaSigningKey;
use hickory_proto::dnssec::rdata::{DNSSECRData, DNSKEY, DS, NSEC, NSEC3, RRSIG};
use hickory_proto::dnssec::{
    Algorithm, DigestType, Nsec3HashAlgorithm, PublicKey, PublicKeyBuf, SigSigner, SigningKey, Verifier,
    TBS,
};
use hickory_proto::op::{Edns, Message, MessageType, Query, ResponseCode};
use hickory_proto::rr::rdata::{A, NS};
use hickory_proto::rr::{DNSClass, Name, RData, Record, RecordType};

fn parsed(message: &Message) -> DnsMessage {
    parse_message(&message.to_vec().expect("wire form")).expect("message should parse")
}

fn dns_name(name: &Name) -> DnsName {
    DnsName {
        labels: name.iter().map(|label| label.to_vec()).collect(),
    }
}

fn named(text: &str) -> DnsName {
    dns_name(&Name::from_ascii(text).expect("name"))
}

fn dns_records(records: &[Record]) -> Vec<DnsRecord> {
    let mut message = Message::new();
    message.add_answers(records.to_vec());
    parsed(&message).answers
}

fn now() -> u32 {
    SystemTime::now()
        .duration_since(UNIX_EPOCH)
        .expect("unix time")
        .as_secs() as u32
}

fn as_dnskey(record: &Record) -> Option<&DNSKEY> {
    match record.data() {
        RData::DNSSEC(DNSSECRData::DNSKEY(key)) => Some(key),
        _ => None,
    }
}

fn hash_nsec3_name(
    name: &Name,
    algorithm: Nsec3HashAlgorithm,
    salt: &[u8],
    iterations: u16,
) -> Option<Vec<u8>> {
    let digest = algorithm.hash(salt, name, iterations).ok()?;
    Some(digest.as_ref().to_vec())
}

struct SignedZone {
    zone: Name,
    dnskey_record: Record,
    signer: SigSigner,
}

fn new_signed_zone(zone: &str) -> SignedZone {
    let zone = Name::from_ascii(zone).expect("zone name");
    let algorithm = Algorithm::ECDSAP256SHA256;
    let pkcs8 = EcdsaSigningKey::generate_pkcs8(algorithm).expect("pkcs8");
    let signing_key = EcdsaSigningKey::from_pkcs8(&pkcs8, algorithm).expect("signing key");
    let public_key = signing_key.to_public_key().expect("public key");
    let dnskey = DNSKEY::new(
        true,
        true,
        false,
        PublicKeyBuf::new(public_key.public_bytes().to_vec(), algorithm),
    );
    let dnskey_record = record(
        zone.clone(),
        300,
        RData::DNSSEC(DNSSECRData::DNSKEY(dnskey.clone())),
    );
    let signer = SigSigner::dnssec(
        dnskey,
        Box::new(signing_key),
        zone.clone(),
        Duration::from_secs(300),
    );

    SignedZone {
        zone,
        dnskey_record,
        signer,
    }
}

fn record(name: Name, ttl: u32, data: RData) -> Record {
    let mut record = Record::from_rdata(name, ttl, data);
    record.set_dns_class(DNSClass::IN);
    record
}

fn now_window() -> (u32, u32) {
    let now = now();
    (now.saturating_sub(60), now.saturating_add(300))
}

fn sign_rrset(
    owner: &Name,
    ttl: u32,
    record_type: RecordType,
    signer: &SigSigner,
    rrset: &[Record],
) -> Record {
    let (inception, expiration) = now_window();
    let key_tag = signer.calculate_key_tag().expect("key tag");
    let pre_rrsig = RRSIG::new(
        record_type,
        signer.key().algorithm(),
        owner.num_labels(),
        ttl,
        expiration,
        inception,
        key_tag,
        signer.signer_name().clone(),
        Vec::new(),
    );
    let mut pre_record: Record<RRSIG> =
        Record::from_rdata(owner.clone(), ttl, pre_rrsig.clone());
    pre_record.set_dns_class(DNSClass::IN);
    let tbs = TBS::from_rrsig(&pre_record, rrset.iter()).expect("rrsig tbs");
    let signature = signer.sign(&tbs).expect("rrsig signature");
    record(
        owner.clone(),
        ttl,
        RData::DNSSEC(DNSSECRData::RRSIG(RRSIG::new(
            record_type,
            signer.key().algorithm(),
            owner.num_labels(),
            ttl,
            expiration,
            inception,
            key_tag,
            signer.signer_name().clone(),
            signature,
        ))),
    )
}

fn signed_rrset(owner: &Name, ttl: u32, signer: &SigSigner, rrset: Vec<Record>) -> Vec<Record> {
    let mut records = rrset;
    let record_type = records[0].record_type();
    let rrsig = sign_rrset(owner, ttl, record_type, signer, &records);
    records.push(rrsig);
    records
}

fn message_with_answers(qname: &Name, qtype: RecordType, answers: Vec<Record>) -> Message {
    let mut message = Message::new();
    message
        .set_id(77)
        .set_message_type(MessageType::Response)
        .set_recursion_desired(true)
        .set_recursion_available(true)
        .add_query(Query::query(qname.clone(), qtype))
        .add_answers(answers);
    message
}

fn message_with_authority(
    qname: &Name,
    qtype: RecordType,
    rcode: ResponseCode,
    authority: Vec<Record>,
) -> Message {
    let mut message = Message::new();
    message
        .set_id(88)
        .set_message_type(MessageType::Response)
        .set_response_code(rcode)
        .add_query(Query::query(qname.clone(), qtype))
        .add_name_servers(authority);
    message
}

fn nsec3_owner_name(zone: &Name, hash: &[u8]) -> Name {
    let encoded = BASE32_DNSSEC.encode(hash);
    Name::from_ascii(format!("{encoded}.{}", zone.to_ascii())).expect("nsec3 owner")
}

#[test]
fn verifies_signed_answer_rrset() {
    let zone = new_signed_zone("example.com.");
    let owner = Name::from_ascii("www.example.com.").expect("owner");
    let answer = record(owner.clone(), 300, RData::A(A::new(192, 0, 2, 1)));
    let message = message_with_answers(
        &owner,
        RecordType::A,
        signed_rrset(&owner, 300, &zone.signer, vec![answer]),
    );

    let validated = ValidatedKeys {
        zone: dns_name(&zone.zone),
        keys: dns_records(&[zone.dnskey_record.clone()]),
    };
    let state = verify_message_rrsets(&parsed(&message), &validated, now()).expect("validate rrset");

    assert!(matches!(state, ValidationState::Secure));
}

#[test]
fn matches_dnskey_with_parent_ds() {
    let child = new_signed_zone("example.com.");
    let dnskey = as_dnskey(&child.dnskey_record).expect("dnskey");
    let ds = DS::new(
        dnskey.calculate_key_tag().expect("key tag"),
        dnskey.algorithm(),
        DigestType::SHA256,
        dnskey
            .to_digest(&child.zone, DigestType::SHA256)
            .expect("dnskey digest")
            .as_ref()
            .to_vec(),
    );
    let ds_record = record(child.zone.clone(), 300, RData::DNSSEC(DNSSECRData::DS(ds)));

    verify_dnskey_with_ds(
        &dns_name(&child.zone),
        &dns_records(&[child.dnskey_record]),
        &dns_records(&[ds_record]),
    )
    .expect("dnskey covered by ds");
}

#[test]
fn verifies_root_dnskeys_with_custom_anchor() {
    let root = new_signed_zone(".");
    let dnskey_rrset = signed_rrset(
        &root.zone,
        300,
        &root.signer,
        vec![root.dnskey_record.clone()],
    );
    let anchors = {
        let mut anchors = AnchorSet::empty();
        let dnskey = as_dnskey(&root.dnskey_record).expect("root dnskey");
        let key = dnskey.public_key();
        anchors.insert(u8::from(key.algorithm()), &key.public_bytes().to_vec());
        anchors
    };

    let validated = verify_root_dnskeys_with_anchors(
        &dns_name(&root.zone),
        &dns_records(&dnskey_rrset[..1]),
        &dns_records(&dnskey_rrset[1..]),
        &anchors,
        now(),
    )
    .expect("root dnskeys validated");

    assert!(same_name(&validated.zone, &dns_name(&root.zone)));
    assert_eq!(validated.keys.len(), 1);
}

#[test]
fn validates_nsec_nodata_response() {
    let zone = new_signed_zone("example.com.");
    let qname = Name::from_ascii("ns1.example.com.").expect("qname");
    let nsec = record(
        qname.clone(),
        300,
        RData::DNSSEC(DNSSECRData::NSEC(NSEC::new(
            Name::from_ascii("ns2.example.com.").expect("next name"),
            [RecordType::A, RecordType::RRSIG, RecordType::NSEC],
        ))),
    );
    let authority = signed_rrset(&qname, 300, &zone.signer, vec![nsec]);
    let message =
        message_with_authority(&qname, RecordType::MX, ResponseCode::NoError, authority);

    let validated = ValidatedKeys {
        zone: dns_name(&zone.zone),
        keys: dns_records(&[zone.dnskey_record.clone()]),
    };

    let state = verify_message_rrsets(&parsed(&message), &validated, now()).expect("validate nsec nodata");
    assert!(matches!(state, ValidationState::Secure));
}

#[test]
fn validates_nsec_nxdomain_response() {
    let zone = new_signed_zone("example.com.");
    let qname = Name::from_ascii("missing.example.com.").expect("qname");

    let cover_qname = record(
        Name::from_ascii("example.com.").expect("owner"),
        300,
        RData::DNSSEC(DNSSECRData::NSEC(NSEC::new(
            Name::from_ascii("zzz.example.com.").expect("next"),
            [
                RecordType::SOA,
                RecordType::NS,
                RecordType::RRSIG,
                RecordType::NSEC,
            ],
        ))),
    );

    let cover_qname_owner = cover_qname.name().clone();
    let authority = signed_rrset(&cover_qname_owner, 300, &zone.signer, vec![cover_qname]);
    let message =
        message_with_authority(&qname, RecordType::A, ResponseCode::NXDomain, authority);

    let validated = ValidatedKeys {
        zone: dns_name(&zone.zone),
        keys: dns_records(&[zone.dnskey_record.clone()]),
    };

    let state = verify_message_rrsets(&parsed(&message), &validated, now()).expect("validate nsec nxdomain");
    assert!(matches!(state, ValidationState::Secure));
}

#[test]
fn validates_nsec3_nodata_response() {
    let zone = new_signed_zone("example.com.");
    let qname = Name::from_ascii("ns1.example.com.").expect("qname");
    let salt = vec![0xAA, 0xBB, 0xCC, 0xDD];
    let qhash =
        hash_nsec3_name(&qname, Nsec3HashAlgorithm::SHA1, &salt, 1).expect("hash qname");
    let next_hash = hash_nsec3_name(
        &Name::from_ascii("ns2.example.com.").expect("next name"),
        Nsec3HashAlgorithm::SHA1,
        &salt,
        1,
    )
    .expect("hash next");
    let owner = nsec3_owner_name(&zone.zone, &qhash);
    let nsec3 = record(
        owner.clone(),
        300,
        RData::DNSSEC(DNSSECRData::NSEC3(NSEC3::new(
            Nsec3HashAlgorithm::SHA1,
            false,
            1,
            salt.clone(),
            next_hash,
            [RecordType::A, RecordType::RRSIG],
        ))),
    );
    let authority = signed_rrset(&owner, 300, &zone.signer, vec![nsec3]);
    let message =
        message_with_authority(&qname, RecordType::MX, ResponseCode::NoError, authority);

    let validated = ValidatedKeys {
        zone: dns_name(&zone.zone),
        keys: dns_records(&[zone.dnskey_record.clone()]),
    };

    let state = verify_message_rrsets(&parsed(&message), &validated, now()).expect("validate nsec3 nodata");
    assert!(matches!(state, ValidationState::Secure));
}

#[test]
fn validates_nsec3_nxdomain_response() {
    let zone = new_signed_zone("example.com.");
    let qname = Name::from_ascii("missing.example.com.").expect("qname");
    let closest = Name::from_ascii("example.com.").expect("closest");
    let next_closer = Name::from_ascii("missing.example.com.").expect("next closer");
    let wildcard = Name::from_ascii("*.example.com.").expect("wildcard");
    let salt = vec![0x10, 0x20, 0x30, 0x40];

    let closest_hash =
        hash_nsec3_name(&closest, Nsec3HashAlgorithm::SHA1, &salt, 1).expect("closest hash");
    let next_closer_hash = hash_nsec3_name(&next_closer, Nsec3HashAlgorithm::SHA1, &salt, 1)
        .expect("next closer hash");
    let wildcard_hash =
        hash_nsec3_name(&wildcard, Nsec3HashAlgorithm::SHA1, &salt, 1).expect("wildcard hash");
    let zero_hash = vec![0u8; next_closer_hash.len()];
    let max_hash = vec![0xFFu8; next_closer_hash.len()];

    let ce_owner = nsec3_owner_name(&zone.zone, &closest_hash);
    let cover_owner = nsec3_owner_name(&zone.zone, &zero_hash);

    let ce_record = record(
        ce_owner.clone(),
        300,
        RData::DNSSEC(DNSSECRData::NSEC3(NSEC3::new(
            Nsec3HashAlgorithm::SHA1,
            false,
            1,
            salt.clone(),
            next_closer_hash.clone(),
            [RecordType::SOA, RecordType::NS, RecordType::RRSIG],
        ))),
    );
    assert!(next_closer_hash > zero_hash && next_closer_hash < max_hash);
    assert!(wildcard_hash > zero_hash && wildcard_hash < max_hash);
    let covering_record = record(
        cover_owner.clone(),
        300,
        RData::DNSSEC(DNSSECRData::NSEC3(NSEC3::new(
            Nsec3HashAlgorithm::SHA1,
            false,
            1,
            salt.clone(),
            max_hash,
            [RecordType::SOA, RecordType::NS, RecordType::RRSIG],
        ))),
    );

    let mut authority = signed_rrset(&ce_owner, 300, &zone.signer, vec![ce_record]);
    authority.extend(signed_rrset(
        &cover_owner,
        300,
        &zone.signer,
        vec![covering_record],
    ));
    let message =
        message_with_authority(&qname, RecordType::A, ResponseCode::NXDomain, authority);

    let validated = ValidatedKeys {
        zone: dns_name(&zone.zone),
        keys: dns_records(&[zone.dnskey_record.clone()]),
    };

    let state = verify_message_rrsets(&parsed(&message), &validated, now()).expect("validate nsec3 nxdomain");
    assert!(matches!(state, ValidationState::Secure));
}

#[test]
fn validates_nsec_wildcard_nodata_response() {
    let zone = new_signed_zone("example.com.");
    let qname = Name::from_ascii("a.z.w.example.com.").expect("qname");
    let wildcard = Name::from_ascii("*.w.example.com.").expect("wildcard");
    let covering_owner = Name::from_ascii("x.y.w.example.com.").expect("owner");

    let wildcard_nsec = record(
        wildcard.clone(),
        300,
        RData::DNSSEC(DNSSECRData::NSEC(NSEC::new(
            Name::from_ascii("x.w.example.com.").expect("next"),
            [RecordType::MX, RecordType::RRSIG, RecordType::NSEC],
        ))),
    );
    let covering_nsec = record(
        covering_owner.clone(),
        300,
        RData::DNSSEC(DNSSECRData::NSEC(NSEC::new(
            Name::from_ascii("xx.example.com.").expect("next"),
            [RecordType::MX, RecordType::RRSIG, RecordType::NSEC],
        ))),
    );

    let mut authority = signed_rrset(&wildcard, 300, &zone.signer, vec![wildcard_nsec]);
    authority.extend(signed_rrset(
        &covering_owner,
        300,
        &zone.signer,
        vec![covering_nsec],
    ));
    let message =
        message_with_authority(&qname, RecordType::AAAA, ResponseCode::NoError, authority);

    let validated = ValidatedKeys {
        zone: dns_name(&zone.zone),
        keys: dns_records(&[zone.dnskey_record.clone()]),
    };

    let state =
        verify_message_rrsets(&parsed(&message), &validated, now()).expect("validate nsec wildcard nodata");
    assert!(matches!(state, ValidationState::Secure));
}

#[test]
fn validates_nsec3_wildcard_nodata_response() {
    let zone = new_signed_zone("example.com.");
    let qname = Name::from_ascii("a.z.w.example.com.").expect("qname");
    let closest = Name::from_ascii("w.example.com.").expect("closest");
    let wildcard = Name::from_ascii("*.w.example.com.").expect("wildcard");
    let next_closer = Name::from_ascii("z.w.example.com.").expect("next closer");
    let salt = vec![0xAA, 0xBB, 0xCC, 0xDD];

    let closest_hash =
        hash_nsec3_name(&closest, Nsec3HashAlgorithm::SHA1, &salt, 1).expect("closest hash");
    let wildcard_hash =
        hash_nsec3_name(&wildcard, Nsec3HashAlgorithm::SHA1, &salt, 1).expect("wildcard hash");
    let next_closer_hash = hash_nsec3_name(&next_closer, Nsec3HashAlgorithm::SHA1, &salt, 1)
        .expect("next closer hash");
    let zero_hash = vec![0u8; next_closer_hash.len()];
    let max_hash = vec![0xFFu8; next_closer_hash.len()];

    let ce_owner = nsec3_owner_name(&zone.zone, &closest_hash);
    let wildcard_owner = nsec3_owner_name(&zone.zone, &wildcard_hash);
    let cover_owner = nsec3_owner_name(&zone.zone, &zero_hash);

    let ce_record = record(
        ce_owner.clone(),
        300,
        RData::DNSSEC(DNSSECRData::NSEC3(NSEC3::new(
            Nsec3HashAlgorithm::SHA1,
            false,
            1,
            salt.clone(),
            wildcard_hash.clone(),
            [],
        ))),
    );
    let wildcard_record = record(
        wildcard_owner.clone(),
        300,
        RData::DNSSEC(DNSSECRData::NSEC3(NSEC3::new(
            Nsec3HashAlgorithm::SHA1,
            false,
            1,
            salt.clone(),
            max_hash.clone(),
            [RecordType::MX, RecordType::RRSIG],
        ))),
    );
    let covering_record = record(
        cover_owner.clone(),
        300,
        RData::DNSSEC(DNSSECRData::NSEC3(NSEC3::new(
            Nsec3HashAlgorithm::SHA1,
            false,
            1,
            salt.clone(),
            max_hash,
            [RecordType::SOA, RecordType::NS, RecordType::RRSIG],
        ))),
    );

    assert!(
        next_closer_hash > zero_hash && next_closer_hash < vec![0xFFu8; next_closer_hash.len()]
    );

    let mut authority = signed_rrset(&ce_owner, 300, &zone.signer, vec![ce_record]);
    authority.extend(signed_rrset(
        &wildcard_owner,
        300,
        &zone.signer,
        vec![wildcard_record],
    ));
    authority.extend(signed_rrset(
        &cover_owner,
        300,
        &zone.signer,
        vec![covering_record],
    ));
    let message =
        message_with_authority(&qname, RecordType::AAAA, ResponseCode::NoError, authority);

    let validated = ValidatedKeys {
        zone: dns_name(&zone.zone),
        keys: dns_records(&[zone.dnskey_record.clone()]),
    };

    let state =
        verify_message_rrsets(&parsed(&message), &validated, now()).expect("validate nsec3 wildcard nodata");
    assert!(matches!(state, ValidationState::Secure));
}

#[test]
fn validates_nsec3_ds_child_zone_nodata_response() {
    let zone = new_signed_zone("example.com.");
    let qname = zone.zone.clone();
    let salt = vec![0x10, 0x20, 0x30, 0x40];
    let qhash = hash_nsec3_name(&qname, Nsec3HashAlgorithm::SHA1, &salt, 1).expect("qhash");
    let next_hash = hash_nsec3_name(
        &Name::from_ascii("ns1.example.com.").expect("next name"),
        Nsec3HashAlgorithm::SHA1,
        &salt,
        1,
    )
    .expect("next hash");
    let owner = nsec3_owner_name(&zone.zone, &qhash);
    let nsec3 = record(
        owner.clone(),
        300,
        RData::DNSSEC(DNSSECRData::NSEC3(NSEC3::new(
            Nsec3HashAlgorithm::SHA1,
            false,
            1,
            salt,
            next_hash,
            [
                RecordType::SOA,
                RecordType::NS,
                RecordType::DNSKEY,
                RecordType::RRSIG,
            ],
        ))),
    );
    let authority = signed_rrset(&owner, 300, &zone.signer, vec![nsec3]);
    let message =
        message_with_authority(&qname, RecordType::DS, ResponseCode::NoError, authority);

    let validated = ValidatedKeys {
        zone: dns_name(&zone.zone),
        keys: dns_records(&[zone.dnskey_record.clone()]),
    };

    let state =
        verify_message_rrsets(&parsed(&message), &validated, now()).expect("validate nsec3 ds child nodata");
    assert!(matches!(state, ValidationState::Secure));
}

#[test]
fn validates_nsec3_optout_ds_nodata_as_insecure() {
    let zone = new_signed_zone("example.com.");
    let qname = Name::from_ascii("c.example.com.").expect("qname");
    let closest = zone.zone.clone();
    let salt = vec![0x01, 0x23, 0x45, 0x67];

    let closest_hash =
        hash_nsec3_name(&closest, Nsec3HashAlgorithm::SHA1, &salt, 1).expect("closest hash");
    let next_closer_hash =
        hash_nsec3_name(&qname, Nsec3HashAlgorithm::SHA1, &salt, 1).expect("next closer hash");
    let zero_hash = vec![0u8; next_closer_hash.len()];
    let max_hash = vec![0xFFu8; next_closer_hash.len()];

    let ce_owner = nsec3_owner_name(&zone.zone, &closest_hash);
    let cover_owner = nsec3_owner_name(&zone.zone, &zero_hash);

    let ce_record = record(
        ce_owner.clone(),
        300,
        RData::DNSSEC(DNSSECRData::NSEC3(NSEC3::new(
            Nsec3HashAlgorithm::SHA1,
            false,
            1,
            salt.clone(),
            next_closer_hash.clone(),
            [
                RecordType::SOA,
                RecordType::NS,
                RecordType::DNSKEY,
                RecordType::RRSIG,
            ],
        ))),
    );
    let cover_record = record(
        cover_owner.clone(),
        300,
        RData::DNSSEC(DNSSECRData::NSEC3(NSEC3::new(
            Nsec3HashAlgorithm::SHA1,
            true,
            1,
            salt,
            max_hash,
            [RecordType::SOA, RecordType::NS, RecordType::RRSIG],
        ))),
    );

    assert!(
        next_closer_hash > zero_hash && next_closer_hash < vec![0xFFu8; next_closer_hash.len()]
    );

    let mut authority = signed_rrset(&ce_owner, 300, &zone.signer, vec![ce_record]);
    authority.extend(signed_rrset(
        &cover_owner,
        300,
        &zone.signer,
        vec![cover_record],
    ));
    let message =
        message_with_authority(&qname, RecordType::DS, ResponseCode::NoError, authority);

    let validated = ValidatedKeys {
        zone: dns_name(&zone.zone),
        keys: dns_records(&[zone.dnskey_record.clone()]),
    };

    let state = verify_message_rrsets(&parsed(&message), &validated, now()).expect("validate optout ds nodata");
    assert!(matches!(state, ValidationState::Insecure));
}

#[test]
fn validates_nsec3_optout_referral_as_insecure() {
    let zone = new_signed_zone("example.com.");
    let qname = Name::from_ascii("mc.c.example.com.").expect("qname");
    let delegation = Name::from_ascii("c.example.com.").expect("delegation");
    let closest = zone.zone.clone();
    let salt = vec![0x89, 0xAB, 0xCD, 0xEF];

    let closest_hash =
        hash_nsec3_name(&closest, Nsec3HashAlgorithm::SHA1, &salt, 1).expect("closest hash");
    let delegation_hash = hash_nsec3_name(&delegation, Nsec3HashAlgorithm::SHA1, &salt, 1)
        .expect("delegation hash");
    let zero_hash = vec![0u8; delegation_hash.len()];
    let max_hash = vec![0xFFu8; delegation_hash.len()];

    let ce_owner = nsec3_owner_name(&zone.zone, &closest_hash);
    let cover_owner = nsec3_owner_name(&zone.zone, &zero_hash);

    let ce_record = record(
        ce_owner.clone(),
        300,
        RData::DNSSEC(DNSSECRData::NSEC3(NSEC3::new(
            Nsec3HashAlgorithm::SHA1,
            false,
            1,
            salt.clone(),
            delegation_hash.clone(),
            [
                RecordType::SOA,
                RecordType::NS,
                RecordType::DNSKEY,
                RecordType::RRSIG,
            ],
        ))),
    );
    let cover_record = record(
        cover_owner.clone(),
        300,
        RData::DNSSEC(DNSSECRData::NSEC3(NSEC3::new(
            Nsec3HashAlgorithm::SHA1,
            true,
            1,
            salt,
            max_hash,
            [RecordType::SOA, RecordType::NS, RecordType::RRSIG],
        ))),
    );

    assert!(
        delegation_hash > zero_hash && delegation_hash < vec![0xFFu8; delegation_hash.len()]
    );

    let ns1 = record(
        delegation.clone(),
        300,
        RData::NS(NS(Name::from_ascii("ns1.c.example.com.").expect("ns1"))),
    );
    let ns2 = record(
        delegation.clone(),
        300,
        RData::NS(NS(Name::from_ascii("ns2.c.example.com.").expect("ns2"))),
    );
    let mut authority = vec![ns1, ns2];
    authority.extend(signed_rrset(&ce_owner, 300, &zone.signer, vec![ce_record]));
    authority.extend(signed_rrset(
        &cover_owner,
        300,
        &zone.signer,
        vec![cover_record],
    ));
    let message =
        message_with_authority(&qname, RecordType::MX, ResponseCode::NoError, authority);

    let validated = ValidatedKeys {
        zone: dns_name(&zone.zone),
        keys: dns_records(&[zone.dnskey_record.clone()]),
    };

    let state = verify_message_rrsets(&parsed(&message), &validated, now()).expect("validate optout referral");
    assert!(matches!(state, ValidationState::Insecure));
}

#[test]
fn signature_of_another_key_is_refused() {
    let zone = new_signed_zone("example.com.");
    let other = new_signed_zone("example.com.");
    let owner = Name::from_ascii("www.example.com.").expect("owner");
    let answer = record(owner.clone(), 300, RData::A(A::new(192, 0, 2, 1)));
    let message = message_with_answers(
        &owner,
        RecordType::A,
        signed_rrset(&owner, 300, &zone.signer, vec![answer]),
    );
    let validated = ValidatedKeys {
        zone: dns_name(&zone.zone),
        keys: dns_records(&[other.dnskey_record]),
    };
    let refused = verify_message_rrsets(&parsed(&message), &validated, now());
    assert!(matches!(refused, Err(DnssecError::NoValidSignature(_, 1))));
}

#[test]
fn signature_outside_its_time_is_refused() {
    let zone = new_signed_zone("example.com.");
    let owner = Name::from_ascii("www.example.com.").expect("owner");
    let answer = record(owner.clone(), 300, RData::A(A::new(192, 0, 2, 1)));
    let message = message_with_answers(
        &owner,
        RecordType::A,
        signed_rrset(&owner, 300, &zone.signer, vec![answer]),
    );
    let validated = ValidatedKeys {
        zone: dns_name(&zone.zone),
        keys: dns_records(&[zone.dnskey_record]),
    };
    assert!(verify_message_rrsets(&parsed(&message), &validated, now() + 3600).is_err());
}

#[test]
fn unsigned_answer_is_insecure() {
    let zone = new_signed_zone("example.com.");
    let owner = Name::from_ascii("www.example.com.").expect("owner");
    let answer = record(owner.clone(), 300, RData::A(A::new(192, 0, 2, 1)));
    let message = message_with_answers(&owner, RecordType::A, vec![answer]);
    let validated = ValidatedKeys {
        zone: dns_name(&zone.zone),
        keys: dns_records(&[zone.dnskey_record]),
    };
    let state = verify_message_rrsets(&parsed(&message), &validated, now()).expect("state");
    assert!(matches!(state, ValidationState::Insecure));
}

#[test]
fn unproved_nodata_is_refused() {
    let zone = new_signed_zone("example.com.");
    let qname = Name::from_ascii("ns1.example.com.").expect("qname");
    let nsec = record(
        qname.clone(),
        300,
        RData::DNSSEC(DNSSECRData::NSEC(NSEC::new(
            Name::from_ascii("ns2.example.com.").expect("next name"),
            [RecordType::A, RecordType::RRSIG, RecordType::NSEC],
        ))),
    );
    let authority = signed_rrset(&qname, 300, &zone.signer, vec![nsec]);
    let message = message_with_authority(&qname, RecordType::A, ResponseCode::NoError, authority);
    let validated = ValidatedKeys {
        zone: dns_name(&zone.zone),
        keys: dns_records(&[zone.dnskey_record]),
    };
    let refused = verify_message_rrsets(&parsed(&message), &validated, now());
    assert!(matches!(refused, Err(DnssecError::Unproved)));
}

#[test]
fn other_parent_digest_does_not_match() {
    let child = new_signed_zone("example.com.");
    let other = new_signed_zone("example.com.");
    let dnskey = as_dnskey(&other.dnskey_record).expect("dnskey");
    let ds = DS::new(
        dnskey.calculate_key_tag().expect("key tag"),
        dnskey.algorithm(),
        DigestType::SHA256,
        vec![0; 32],
    );
    let ds_record = record(child.zone.clone(), 300, RData::DNSSEC(DNSSECRData::DS(ds)));
    let refused = verify_dnskey_with_ds(
        &dns_name(&child.zone),
        &dns_records(&[child.dnskey_record]),
        &dns_records(&[ds_record]),
    );
    assert!(matches!(refused, Err(DnssecError::NoMatchingDs(_))));
}

#[test]
fn unanchored_root_is_refused() {
    let root = new_signed_zone(".");
    let set = signed_rrset(&root.zone, 300, &root.signer, vec![root.dnskey_record.clone()]);
    let refused = verify_root_dnskeys(
        &dns_name(&root.zone),
        &dns_records(&set[..1]),
        &dns_records(&set[1..]),
        now(),
    );
    assert!(matches!(refused, Err(DnssecError::NotAnchored)));
    assert!(!dnskey_rrset_matches_trust_anchors(&dns_records(&set[..1]), &root_trust_anchors()));
}

#[test]
fn key_tag_agrees_with_the_signer() {
    let zone = new_signed_zone("example.com.");
    let expected = as_dnskey(&zone.dnskey_record)
        .expect("dnskey")
        .calculate_key_tag()
        .expect("key tag");
    let records = dns_records(&[zone.dnskey_record]);
    match &records[0].data {
        RecordData::Dnskey(key) => assert_eq!(calculate_key_tag(key), Some(expected)),
        _ => panic!("dnskey expected"),
    }
}

#[test]
fn anchors_are_read_from_lines() {
    let zone = new_signed_zone(".");
    let key = as_dnskey(&zone.dnskey_record).expect("dnskey").public_key();
    let text = data_encoding::BASE64.encode(key.public_bytes());
    let raw = format!("; root\n. 172800 IN DNSKEY 257 3 13 (\n  {text} )\n");
    let anchors = match parse_trust_anchors(&raw) {
        Ok(anchors) => anchors,
        Err(_) => panic!("anchors should parse"),
    };
    assert_eq!(anchors.len(), 1);
    assert!(anchors.contains(13, &key.public_bytes().to_vec()));
    assert_eq!(anchors.get(0), Some((13, key.public_bytes().to_vec())));
    assert!(matches!(
        parse_trust_anchors(". IN DNSKEY 257"),
        Err(AnchorError::TooShort(_))
    ));
    assert!(matches!(
        parse_trust_anchors(". IN DNSKEY x 3 13 AAAA"),
        Err(AnchorError::Flags(_))
    ));
    assert!(matches!(
        parse_trust_anchors(". IN DNSKEY 257 x 13 AAAA"),
        Err(AnchorError::Protocol(_))
    ));
    assert!(matches!(
        parse_trust_anchors(". IN DNSKEY 257 3 none AAAA"),
        Err(AnchorError::Algorithm(_))
    ));
    assert!(matches!(
        parse_trust_anchors(". IN DNSKEY 257 3 13 *"),
        Err(AnchorError::PublicKey)
    ));
    let loaded = load_trust_anchors(false, &vec![Some(raw.clone()), Some(raw)]);
    assert!(matches!(loaded, Ok(set) if set.len() == 1));
    assert!(matches!(load_trust_anchors(true, &vec![None]), Err(LoadError::Unreadable(0))));
    assert!(!matches!(load_trust_anchors(true, &vec![]), Ok(set) if set.len() == 0));
}

#[test]
fn root_zone_has_two_builtin_keys() {
    let anchors = root_trust_anchors();
    assert_eq!(anchors.len(), 2);
    assert_eq!(anchors.get(0).map(|a| a.0), Some(8));
    assert_eq!(anchors.get(1).map(|a| a.0), Some(8));
    assert_eq!(anchors.get(2), None);
    let older = BASE64
        .decode(
            "AwEAAaz/tAm8yTn4Mfeh5eyI96WSVexTBAvkMgJzkKTOiW1vkIbzxeF3+/4RgWOq7HrxRixH\
         lFlExOLAJr5emLvN7SWXgnLh4+B5xQlNVz8Og8kvArMtNROxVQuCaSnIDdD5LKyWbRd2n9WG\
         e2R8PzgCmr3EgVLrjyBxWezF0jLHwVN8efS3rCj/EWgvIWgb9tarpVUDK/b58Da+sqqls3eN\
         buv7pr+eoZG+SrDK6nWeL3c6H5Apxz7LjVc1uTIdsIXxuOLYA4/ilBmSVIzuDWfdRUfhHdY6\
         +cn8HFRm+2hM8AnXGXws9555KrUB5qihylGa8subX2Nn6UwNR1AkUTV74bU="
                .as_bytes(),
        )
        .expect("older key");
    let newer = BASE64
        .decode(
            "AwEAAa96jeuknZlaeSrvyAJj6ZHv28hhOKkx3rLGXVaC6rXTsDc449/cidltpkyGwCJNnOAl\
         FNKF2jBosZBU5eeHspaQWOmOElZsjICMQMC3aeHbGiShvZsx4wMYSjH8e7Vrhbu6irwCzVBA\
         pESjbUdpWWmEnhathWu1jo+siFUiRAAxm9qyJNg/wOZqqzL/dL/q8PkcRU5oUKEpUge71M3e\
         j2/7CPqpdVwuMoTvoB+ZOT4YeGyxMvHmbrxlFzGOHOijtzN+u1TQNatX2XBuzZNQ1K+s2CXk\
         PIZo7s6JgZyvaBevYtxPvYLw4z9mR7K2vaF18UYH9Z9GNUUeayffKC73PYc="
                .as_bytes(),
        )
        .expect("newer key");
    assert_eq!((older.len(), newer.len()), (260, 260));
    assert_eq!((older[4], older[259]), (0xac, 0xb5));
    assert_eq!((newer[4], newer[259]), (0xaf, 0x87));
    let tag = |key: &Vec<u8>| {
        let public_key = PublicKeyBuf::new(key.clone(), Algorithm::RSASHA256);
        DNSKEY::with_flags(257, public_key).calculate_key_tag().expect("tag")
    };
    assert_eq!((tag(&older), tag(&newer)), (20326, 38696));
    assert_eq!(anchors.get(0), Some((8, older.clone())));
    assert_eq!(anchors.get(1), Some((8, newer.clone())));
    let loaded = load_trust_anchors(true, &vec![]).expect("anchors");
    assert_eq!(loaded.get(0), Some((8, older)));
    assert_eq!(loaded.get(1), Some((8, newer)));
}

#[test]
fn zone_lines_are_joined_and_split() {
    assert_eq!(
        logical_zone_lines("a (b ; note\nc) d\n; none\ne"),
        vec!["a  b c  d".to_string(), "e".to_string()]
    );
    assert_eq!(split_words(" a  b\tc "), vec!["a".to_string(), "b".to_string(), "c".to_string()]);
    assert_eq!(parse_dnskey_algorithm("ECDSAP256SHA256"), Some(13));
    assert_eq!(parse_dnskey_algorithm("8"), Some(8));
    assert_eq!(parse_dnskey_algorithm("none"), None);
}

#[test]
fn names_are_ordered_and_trimmed() {
    assert!(same_name(&named("A.Example."), &named("a.example.")));
    assert!(precedes(&named("example."), &named("a.example.")));
    assert!(precedes(&named("a.example."), &named("Z.a.example.")));
    assert!(!precedes(&named("z.example."), &named("a.example.")));
    assert!(same_name(&trim_to(&named("a.b.example."), 2), &named("b.example.")));
    assert!(same_name(
        &next_closer_name(&named("a.b.example."), &named("example.")),
        &named("b.example.")
    ));
    assert!(wildcard_name(&named("b.example.")).map_or(false, |w| same_name(&w, &named("*.b.example."))));
    assert!(wildcard_closest_encloser(&named("*.b.example."))
        .map_or(false, |w| same_name(&w, &named("b.example."))));
    assert!(parent_zone(&named("b.example.")).map_or(false, |p| same_name(&p, &named("example."))));
    assert!(parent_zone(&named(".")).is_none());
}

#[test]
fn ends_of_a_range_are_not_covered() {
    let (a, b) = (named("a.example."), named("d.example."));
    assert!(nsec_covers_name(&a, &b, &named("b.example.")));
    assert!(!nsec_covers_name(&a, &b, &a));
    assert!(!nsec_covers_name(&a, &b, &b));
    assert!(nsec_covers_name(&b, &a, &named("z.example.")));
    assert!(nsec3_covers_hash(&vec![1], &vec![5], &vec![3]));
    assert!(!nsec3_covers_hash(&vec![1], &vec![5], &vec![5]));
    assert!(nsec3_covers_hash(&vec![5], &vec![1], &vec![9]));
    let proofs = vec![NsecProof {
        owner: a,
        next: b,
        types: vec![1],
    }];
    assert!(validate_nodata_nsec(&proofs, &named("a.example."), 15));
    assert!(!validate_nodata_nsec(&proofs, &named("a.example."), 1));
}

#[test]
fn owner_hash_is_decoded() {
    let hash = vec![1u8; 20];
    let owner = nsec3_owner_name(&Name::from_ascii("example.").expect("zone"), &hash);
    match nsec3_owner_hash(&dns_name(&owner)) {
        Ok(h) => assert_eq!(h, hash),
        Err(_) => panic!("hash expected"),
    }
    assert!(matches!(nsec3_owner_hash(&named(".")), Err(DnssecError::NoOwnerLabel)));
    assert!(matches!(nsec3_owner_hash(&named("wz.example.")), Err(DnssecError::OwnerHash(_))));
}

#[test]
fn signed_material_is_found() {
    let zone = new_signed_zone("example.com.");
    let owner = Name::from_ascii("www.example.com.").expect("owner");
    let answer = record(owner.clone(), 300, RData::A(A::new(192, 0, 2, 1)));
    let message = message_with_answers(
        &owner,
        RecordType::A,
        signed_rrset(&owner, 300, &zone.signer, vec![answer]),
    );
    let wire = message.to_vec().expect("wire");
    assert!(response_has_dnssec_records(&wire));
    let m = parsed(&message);
    let sets = collect_signed_rrsets(&m);
    assert_eq!(sets.len(), 1);
    assert_eq!(sets[0].record_type, 1);
    let signers = find_zone_signers(&m);
    assert_eq!(signers.len(), 1);
    assert!(same_name(&signers[0], &dns_name(&zone.zone)));
    assert!(matches!(parse_message(&[1, 2, 3]), Err(DnssecError::Malformed(_))));
}

#[test]
fn validation_is_asked_for_by_a_flag() {
    let mut message = Message::new();
    let name = Name::from_ascii("example.com.").expect("name");
    message.add_query(Query::query(name, RecordType::A));
    assert!(!validation_requested(&message.to_vec().expect("wire")));
    let mut edns = Edns::new();
    edns.set_dnssec_ok(true);
    message.set_edns(edns);
    assert!(validation_requested(&message.to_vec().expect("wire")));
}

#[test]
fn refused_anchor_files_are_told() {
    let paths = vec!["a.key".to_string(), "b.key".to_string()];
    let told = |e: LoadError| e.message(&paths);
    assert_eq!(
        told(LoadError::Unreadable(1)).as_deref(),
        Some("failed to read trust anchor file: b.key")
    );
    assert_eq!(told(LoadError::Unreadable(2)), None);
    assert_eq!(
        told(LoadError::Entry(0, AnchorError::Flags(". x".to_string()))).as_deref(),
        Some("invalid DNSKEY flags in a.key: . x")
    );
    let line = |e: AnchorError| e.message("p");
    assert_eq!(
        line(AnchorError::TooShort("x".to_string())),
        "invalid DNSKEY trust anchor line in p: x"
    );
    assert_eq!(
        line(AnchorError::Protocol("x".to_string())),
        "invalid DNSKEY protocol in p: x"
    );
    assert_eq!(
        line(AnchorError::Algorithm("x".to_string())),
        "invalid DNSKEY algorithm in p: x"
    );
    assert_eq!(line(AnchorError::PublicKey), "invalid DNSKEY public key in p");
    assert_eq!(line(AnchorError::Unsupported), "unsupported DNSKEY public key in p");
}
