//! The zones of the signing server of the benchmark: their keys, their digests, and what is signed.
use crate::bench::fixture;
use crate::bench::fixture::FixtureAnswer;
use crate::codec::respond;
use crate::codec::wire;
use crate::dnssec::names;
use crate::dnssec::names::DnsName;
use crate::dnssec::records;
use crate::dnssec::records::Dnskey;
use crate::dnssec::rrsets;
use hickory_proto::dnssec::rdata::{DNSKEY, RRSIG};
use hickory_proto::dnssec::{Algorithm, DigestType, PublicKeyBuf, TBS};
use hickory_proto::rr::{Name, Record};
use hickory_proto::serialize::binary::BinDecodable;
use vstd::prelude::*;

verus! {

/// The time to live of every record of the server.
pub const SIGNED_TTL: u32 = 300;

/// ECDSA on the curve P-256 with SHA-256.
pub const SIGNING_ALGORITHM: u8 = 13;

/// SHA-256.
pub const DIGEST_TYPE: u8 = 2;

/// The flags of a key: it belongs to a zone, and it is an entry point.
pub const KEY_FLAGS: u16 = 257;

/// The zones that the server signs, from the root down.
#[derive(Debug, Clone, Copy, PartialEq, Eq, Structural)]
pub enum FixtureZone {
    Root,
    Com,
    Child,
}

/// The name of a zone: the root, `com.` and `example.com.`.
pub open spec fn zone_labels(z: FixtureZone) -> names::NameV {
    match z {
        FixtureZone::Root => Seq::empty(),
        FixtureZone::Com => seq![seq![99u8, 111, 109]],
        FixtureZone::Child => seq![
            seq![101u8, 120, 97, 109, 112, 108, 101],
            seq![99u8, 111, 109],
        ],
    }
}

/// The name of a zone.
pub fn zone_name(z: FixtureZone) -> (r: DnsName)
    ensures
        r@ == zone_labels(z),
{
    let mut labels: Vec<Vec<u8>> = Vec::new();
    let ghost all = zone_labels(z);
    assert(names::byte_views(labels@) =~= Seq::empty());
    match z {
        FixtureZone::Root => {},
        FixtureZone::Com => {
            let com: Vec<u8> = vec![99, 111, 109];
            assert(com@ =~= all[0]);
            labels.push(com);
        },
        FixtureZone::Child => {
            let example: Vec<u8> = vec![101, 120, 97, 109, 112, 108, 101];
            let com: Vec<u8> = vec![99, 111, 109];
            assert(example@ =~= all[0]);
            assert(com@ =~= all[1]);
            labels.push(example);
            labels.push(com);
        },
    }
    assert(names::byte_views(labels@) =~= all);
    DnsName { labels }
}

/// What a set of records is made of: the zone that it belongs to, the zone whose key signs it, and
/// whether it holds the digest of the zone's key in place of the key.
#[derive(Debug, Clone, Copy, PartialEq, Eq, Structural)]
pub struct SetPlan {
    pub owner: FixtureZone,
    pub signer: FixtureZone,
    pub digests: bool,
}

/// The plan of a set that is known beforehand. A zone signs its own key, and the zone above it
/// signs the digest of that key.
pub open spec fn plan_of(answer: FixtureAnswer) -> Option<SetPlan> {
    match answer {
        FixtureAnswer::RootKeys => Some(
            SetPlan { owner: FixtureZone::Root, signer: FixtureZone::Root, digests: false },
        ),
        FixtureAnswer::ComKeys => Some(
            SetPlan { owner: FixtureZone::Com, signer: FixtureZone::Com, digests: false },
        ),
        FixtureAnswer::ChildKeys => Some(
            SetPlan { owner: FixtureZone::Child, signer: FixtureZone::Child, digests: false },
        ),
        FixtureAnswer::ComDigests => Some(
            SetPlan { owner: FixtureZone::Com, signer: FixtureZone::Root, digests: true },
        ),
        FixtureAnswer::ChildDigests => Some(
            SetPlan { owner: FixtureZone::Child, signer: FixtureZone::Com, digests: true },
        ),
        FixtureAnswer::Address => None,
        FixtureAnswer::Nothing => None,
    }
}

/// The plan of a set that is known beforehand.
pub fn set_plan(answer: FixtureAnswer) -> (r: Option<SetPlan>)
    ensures
        r == plan_of(answer),
{
    match answer {
        FixtureAnswer::RootKeys => Some(
            SetPlan { owner: FixtureZone::Root, signer: FixtureZone::Root, digests: false },
        ),
        FixtureAnswer::ComKeys => Some(
            SetPlan { owner: FixtureZone::Com, signer: FixtureZone::Com, digests: false },
        ),
        FixtureAnswer::ChildKeys => Some(
            SetPlan { owner: FixtureZone::Child, signer: FixtureZone::Child, digests: false },
        ),
        FixtureAnswer::ComDigests => Some(
            SetPlan { owner: FixtureZone::Com, signer: FixtureZone::Root, digests: true },
        ),
        FixtureAnswer::ChildDigests => Some(
            SetPlan { owner: FixtureZone::Child, signer: FixtureZone::Com, digests: true },
        ),
        FixtureAnswer::Address => None,
        FixtureAnswer::Nothing => None,
    }
}

/// The labels of a name, each behind its length, and the root label.
pub open spec fn label_bytes(n: names::NameV) -> Seq<u8>
    decreases n.len(),
{
    if n.len() == 0 {
        Seq::empty()
    } else {
        label_bytes(n.drop_last()) + seq![n.last().len() as u8] + n.last()
    }
}

/// Whether a name can be written: labels of one to 63 bytes, 255 bytes in all.
pub open spec fn is_writable(n: names::NameV) -> bool {
    names::wire_length(n) <= 255 && forall|i: int|
        0 <= i < n.len() ==> 1 <= (#[trigger] n[i]).len() <= 63
}

/// The bytes of a name that can be written.
pub open spec fn wire_name(n: names::NameV) -> Option<Seq<u8>> {
    if is_writable(n) {
        Some(label_bytes(n).push(0))
    } else {
        None
    }
}

proof fn lemma_wire_length(n: names::NameV, i: int)
    requires
        0 <= i <= n.len(),
    ensures
        names::wire_length(n.take(i)) <= names::wire_length(n),
        names::wire_length(n) >= n.len() + 1,
    decreases n.len(),
{
    if n.len() > 0 {
        lemma_wire_length(
            n.drop_last(),
            if i < n.len() {
                i
            } else {
                i - 1
            },
        );
        if i < n.len() {
            assert(n.drop_last().take(i) =~= n.take(i));
        } else {
            assert(n.take(i) =~= n);
        }
    } else {
        assert(n.take(i) =~= n);
    }
}

/// Appends a name; false where it cannot be written.
fn push_wire_name(n: &DnsName, out: &mut Vec<u8>) -> (ok: bool)
    ensures
        ok == is_writable(n@),
        ok ==> final(out)@ == old(out)@ + wire_name(n@)->0,
        ok ==> n@.len() <= 254,
{
    let ghost all = n@;
    let ghost start = out@;
    let mut length: usize = 1;
    let mut i: usize = 0;
    assert(all.take(0) =~= Seq::empty());
    assert(start + label_bytes(all.take(0)) =~= start);
    while i < n.labels.len()
        invariant
            i <= n.labels@.len(),
            all == n@,
            start == old(out)@,
            out@ == start + label_bytes(all.take(i as int)),
            length == names::wire_length(all.take(i as int)),
            length <= 255,
            forall|k: int| 0 <= k < i ==> 1 <= (#[trigger] all[k]).len() <= 63,
        decreases n.labels@.len() - i,
    {
        let label = &n.labels[i];
        let ghost before = out@;
        assert(all[i as int] == label@);
        assert(all.take(i + 1).drop_last() =~= all.take(i as int));
        assert(all.take(i + 1).last() == label@);
        if label.len() == 0 || label.len() > 63 {
            return false;
        }
        length = length + label.len() + 1;
        if length > 255 {
            proof {
                lemma_wire_length(all, i + 1);
            }
            return false;
        }
        out.push(label.len() as u8);
        wire::push_bytes(out, label.as_slice());
        assert(out@ =~= before + seq![label@.len() as u8] + label@);
        assert(out@ =~= start + label_bytes(all.take(i + 1)));
        i = i + 1;
    }
    assert(all.take(i as int) =~= all);
    out.push(0);
    proof {
        lemma_wire_length(all, 0);
        assert(out@ =~= start + wire_name(all)->0);
    }
    true
}

pub open spec fn optional_bytes(b: Option<Vec<u8>>) -> Option<Seq<u8>> {
    match b {
        Some(b) => Some(b@),
        None => None,
    }
}

/// A record of class IN of the server.
pub open spec fn record_of(owner: names::NameV, rr_type: u16, data: Seq<u8>) -> Option<Seq<u8>> {
    match wire_name(owner) {
        Some(name) if data.len() <= 65535 => Some(
            name + respond::rr_tail(rr_type, 1, SIGNED_TTL, data),
        ),
        _ => None,
    }
}

/// A record of the server; none where its owner or its data is too long.
pub fn dnssec_record(owner: &DnsName, rr_type: u16, data: &Vec<u8>) -> (r: Option<Vec<u8>>)
    ensures
        optional_bytes(r) == record_of(owner@, rr_type, data@),
{
    let mut out: Vec<u8> = Vec::new();
    if data.len() > 65535 || !push_wire_name(owner, &mut out) {
        return None;
    }
    assert(out@ =~= wire_name(owner@)->0);
    respond::push_rr_tail(&mut out, rr_type, 1, SIGNED_TTL, data.as_slice());
    Some(out)
}

/// The address record of a name.
pub open spec fn address_of(owner: names::NameV) -> Option<Seq<u8>> {
    record_of(owner, 1, seq![203u8, 0, 113, 40])
}

/// The address record of a name, and its type.
pub fn write_address_record(owner: &DnsName) -> (r: (Option<Vec<u8>>, u16))
    ensures
        optional_bytes(r.0) == address_of(owner@),
        r.1 == 1,
{
    let data: Vec<u8> = vec![203, 0, 113, 40];
    assert(data@ =~= seq![203u8, 0, 113, 40]);
    (dnssec_record(owner, 1, &data), 1)
}

/// The key of a zone.
pub open spec fn zone_key(public_key: Seq<u8>) -> records::DnskeyV {
    records::DnskeyV { flags: KEY_FLAGS, algorithm: SIGNING_ALGORITHM, public_key }
}

fn key_of(public_key: &Vec<u8>) -> (r: Dnskey)
    ensures
        r@ == zone_key(public_key@),
{
    Dnskey {
        flags: KEY_FLAGS,
        algorithm: SIGNING_ALGORITHM,
        public_key: names::copy_bytes(public_key),
    }
}

/// The record of the key of a zone.
pub open spec fn key_record(z: FixtureZone, public_key: Seq<u8>) -> Option<Seq<u8>> {
    record_of(zone_labels(z), records::TYPE_DNSKEY, rrsets::key_bytes(zone_key(public_key)))
}

/// The record of the key of a zone.
pub fn write_key_record(z: FixtureZone, public_key: &Vec<u8>) -> (r: Option<Vec<u8>>)
    ensures
        optional_bytes(r) == key_record(z, public_key@),
{
    let mut data: Vec<u8> = vec![1, 1, 3, SIGNING_ALGORITHM];
    wire::push_bytes(&mut data, public_key.as_slice());
    assert(data@ =~= rrsets::key_bytes(zone_key(public_key@)));
    dnssec_record(&zone_name(z), records::TYPE_DNSKEY, &data)
}

/// The digest that hickory-proto computes of the key of a zone; none where it gives an error.
pub uninterp spec fn key_digest(
    zone: Seq<Seq<u8>>,
    key: records::DnskeyV,
    digest_type: u8,
) -> Option<Seq<u8>>;

/// Calls `hickory_proto::dnssec::rdata::DNSKEY::to_digest`; an error, and a zone that is no name,
/// are `None`. The result is a function of the arguments.
#[verifier::external_body]
fn digest_key(zone: &DnsName, key: &Dnskey, digest_type: u8) -> (r: Option<Vec<u8>>)
    ensures
        optional_bytes(r) == key_digest(zone@, key@, digest_type),
{
    let zone = Name::from_labels(zone.labels.iter().map(|l| l.as_slice())).ok()?;
    let public_key = PublicKeyBuf::new(key.public_key.clone(), Algorithm::from_u8(key.algorithm));
    let key = DNSKEY::with_flags(key.flags, public_key);
    let digest = key.to_digest(&zone, DigestType::from(digest_type)).ok()?;
    Some(digest.as_ref().to_vec())
}

/// The data of a digest record.
pub open spec fn digest_data(key_tag: u16, digest: Seq<u8>) -> Seq<u8> {
    wire::bytes16(key_tag) + seq![SIGNING_ALGORITHM, DIGEST_TYPE] + digest
}

/// The record of a digest of the key of a zone, whose tag and digest are given or could not be
/// computed.
pub open spec fn digest_record(
    z: FixtureZone,
    key_tag: Option<u16>,
    digest: Option<Seq<u8>>,
) -> Option<Seq<u8>> {
    match (key_tag, digest) {
        (Some(t), Some(d)) => record_of(zone_labels(z), records::TYPE_DS, digest_data(t, d)),
        _ => None,
    }
}

/// The record of a digest of the key of a zone, whose tag and digest are given.
pub fn write_digest(z: FixtureZone, key_tag: u16, digest: &Vec<u8>) -> (r: Option<Vec<u8>>)
    ensures
        optional_bytes(r) == digest_record(z, Some(key_tag), Some(digest@)),
{
    let mut data: Vec<u8> = Vec::new();
    wire::push_u16(&mut data, key_tag);
    data.push(SIGNING_ALGORITHM);
    data.push(DIGEST_TYPE);
    wire::push_bytes(&mut data, digest.as_slice());
    assert(data@ =~= digest_data(key_tag, digest@));
    dnssec_record(&zone_name(z), records::TYPE_DS, &data)
}

/// The record of the digest of the key of a zone.
pub fn write_digest_record(z: FixtureZone, public_key: &Vec<u8>) -> (r: Option<Vec<u8>>)
    ensures
        optional_bytes(r) == digest_record(
            z,
            rrsets::tag(zone_key(public_key@)),
            key_digest(zone_labels(z), zone_key(public_key@), DIGEST_TYPE),
        ),
{
    let key = key_of(public_key);
    match (rrsets::calculate_key_tag(&key), digest_key(&zone_name(z), &key, DIGEST_TYPE)) {
        (Some(t), Some(d)) => write_digest(z, t, &d),
        _ => None,
    }
}

/// The record that a planned set begins with, given the key of the zone it belongs to.
pub open spec fn planned_record(plan: SetPlan, public_key: Seq<u8>) -> Option<Seq<u8>> {
    if plan.digests {
        digest_record(
            plan.owner,
            rrsets::tag(zone_key(public_key)),
            key_digest(zone_labels(plan.owner), zone_key(public_key), DIGEST_TYPE),
        )
    } else {
        key_record(plan.owner, public_key)
    }
}

/// The type of the records of a planned set.
pub open spec fn planned_type(plan: SetPlan) -> u16 {
    if plan.digests {
        records::TYPE_DS
    } else {
        records::TYPE_DNSKEY
    }
}

/// The record that a planned set begins with, and its type, given the key of the zone that the set
/// belongs to.
pub fn write_planned_record(plan: SetPlan, public_key: &Vec<u8>) -> (r: (Option<Vec<u8>>, u16))
    ensures
        optional_bytes(r.0) == planned_record(plan, public_key@),
        r.1 == planned_type(plan),
{
    if plan.digests {
        (write_digest_record(plan.owner, public_key), records::TYPE_DS)
    } else {
        (write_key_record(plan.owner, public_key), records::TYPE_DNSKEY)
    }
}

/// A signature record but for the signature.
#[derive(Debug)]
pub struct SignatureHead {
    pub type_covered: u16,
    pub algorithm: u8,
    pub labels: u8,
    pub original_ttl: u32,
    pub expiration: u32,
    pub inception: u32,
    pub key_tag: u16,
    pub signer_name: DnsName,
}

pub ghost struct SignatureHeadV {
    pub type_covered: u16,
    pub algorithm: u8,
    pub labels: u8,
    pub original_ttl: u32,
    pub expiration: u32,
    pub inception: u32,
    pub key_tag: u16,
    pub signer_name: Seq<Seq<u8>>,
}

impl View for SignatureHead {
    type V = SignatureHeadV;

    open spec fn view(&self) -> SignatureHeadV {
        SignatureHeadV {
            type_covered: self.type_covered,
            algorithm: self.algorithm,
            labels: self.labels,
            original_ttl: self.original_ttl,
            expiration: self.expiration,
            inception: self.inception,
            key_tag: self.key_tag,
            signer_name: self.signer_name@,
        }
    }
}

pub open spec fn optional_head(h: Option<SignatureHead>) -> Option<SignatureHeadV> {
    match h {
        Some(h) => Some(h@),
        None => None,
    }
}

/// What is said with a signature at a time over the records of a name and a type with the key of a
/// zone. None where the name cannot be written or the key has no tag.
pub open spec fn head_of(
    owner: names::NameV,
    type_covered: u16,
    signer: FixtureZone,
    public_key: Seq<u8>,
    now: u32,
) -> Option<SignatureHeadV> {
    match rrsets::tag(zone_key(public_key)) {
        Some(t) if is_writable(owner) => Some(
            SignatureHeadV {
                type_covered,
                algorithm: SIGNING_ALGORITHM,
                labels: names::label_count(owner) as u8,
                original_ttl: SIGNED_TTL,
                expiration: fixture::window(now).1,
                inception: fixture::window(now).0,
                key_tag: t,
                signer_name: zone_labels(signer),
            },
        ),
        _ => None,
    }
}

/// What is said with a signature at a time over the records of a name and a type with the key of a
/// zone.
pub fn signature_head(
    owner: &DnsName,
    type_covered: u16,
    signer: FixtureZone,
    public_key: &Vec<u8>,
    now: u32,
) -> (r: Option<SignatureHead>)
    ensures
        optional_head(r) == head_of(owner@, type_covered, signer, public_key@, now),
{
    let mut written: Vec<u8> = Vec::new();
    if !push_wire_name(owner, &mut written) {
        return None;
    }
    let (inception, expiration) = fixture::dnssec_time_window(now);
    match rrsets::calculate_key_tag(&key_of(public_key)) {
        None => None,
        Some(key_tag) => Some(
            SignatureHead {
                type_covered,
                algorithm: SIGNING_ALGORITHM,
                labels: names::num_labels(owner) as u8,
                original_ttl: SIGNED_TTL,
                expiration,
                inception,
                key_tag,
                signer_name: zone_name(signer),
            },
        ),
    }
}

/// The bytes that hickory-proto lays out to be signed for the records of a name and what is said
/// with their signature; none where it gives an error.
pub uninterp spec fn signing_bytes(
    owner: Seq<Seq<u8>>,
    head: SignatureHeadV,
    set: Seq<Seq<u8>>,
) -> Option<Seq<u8>>;

/// Calls `hickory_proto::dnssec::TBS::from_rrsig` on a signature record without a signature, of
/// class IN, and on the records read back from their wire forms. An error, a name that is none,
/// and a form that cannot be read back are `None`. The result is a function of the arguments.
#[verifier::external_body]
fn lay_out(owner: &DnsName, head: &SignatureHead, set: &Vec<Vec<u8>>) -> (r: Option<Vec<u8>>)
    ensures
        optional_bytes(r) == signing_bytes(owner@, head@, names::byte_views(set@)),
{
    let set: Result<Vec<Record>, _> = set.iter().map(|r| Record::from_bytes(r)).collect();
    let signer_name = Name::from_labels(head.signer_name.labels.clone()).ok()?;
    let rrsig = RRSIG::new(
        head.type_covered.into(), Algorithm::from_u8(head.algorithm), head.labels,
        head.original_ttl, head.expiration, head.inception, head.key_tag, signer_name, vec![],
    );
    let owner = Name::from_labels(owner.labels.clone()).ok()?;
    let rrsig = Record::from_rdata(owner, head.original_ttl, rrsig);
    Some(TBS::from_rrsig(&rrsig, set.ok()?.iter()).ok()?.as_ref().to_vec())
}

/// What is said with a signature over a set of records, and the bytes to be signed for it.
pub open spec fn prepared(
    owner: names::NameV,
    head: Option<SignatureHeadV>,
    set: Seq<Seq<u8>>,
) -> Option<(SignatureHeadV, Seq<u8>)> {
    match head {
        None => None,
        Some(h) => match signing_bytes(owner, h, set) {
            None => None,
            Some(b) => Some((h, b)),
        },
    }
}

/// What is said with a signature at a time over a set of records with the key of a zone, and the
/// bytes to be signed for it.
pub fn prepare_signature(
    owner: &DnsName,
    type_covered: u16,
    set: &Vec<Vec<u8>>,
    signer: FixtureZone,
    public_key: &Vec<u8>,
    now: u32,
) -> (r: Option<(SignatureHead, Vec<u8>)>)
    ensures
        (match r {
            Some((h, b)) => Some((h@, b@)),
            None => None,
        }) == prepared(
            owner@,
            head_of(owner@, type_covered, signer, public_key@, now),
            names::byte_views(set@),
        ),
{
    match signature_head(owner, type_covered, signer, public_key, now) {
        None => None,
        Some(head) => match lay_out(owner, &head, set) {
            None => None,
            Some(bytes) => Some((head, bytes)),
        },
    }
}

/// The data of a signature record.
pub open spec fn signature_data(head: SignatureHeadV, signature: Seq<u8>) -> Option<Seq<u8>> {
    match wire_name(head.signer_name) {
        None => None,
        Some(name) => Some(
            wire::bytes16(head.type_covered) + seq![head.algorithm, head.labels] + wire::bytes32(
                head.original_ttl,
            ) + wire::bytes32(head.expiration) + wire::bytes32(head.inception) + wire::bytes16(
                head.key_tag,
            ) + name + signature,
        ),
    }
}

/// The signature record of the records of a name.
pub open spec fn signature_record(
    owner: names::NameV,
    head: SignatureHeadV,
    signature: Seq<u8>,
) -> Option<Seq<u8>> {
    match signature_data(head, signature) {
        None => None,
        Some(data) => record_of(owner, records::TYPE_RRSIG, data),
    }
}

/// The signature record of the records of a name.
pub fn write_signature_record(owner: &DnsName, head: &SignatureHead, signature: &Vec<u8>) -> (r:
    Option<Vec<u8>>)
    ensures
        optional_bytes(r) == signature_record(owner@, head@, signature@),
{
    let mut data: Vec<u8> = Vec::new();
    wire::push_u16(&mut data, head.type_covered);
    data.push(head.algorithm);
    data.push(head.labels);
    wire::push_u32(&mut data, head.original_ttl);
    wire::push_u32(&mut data, head.expiration);
    wire::push_u32(&mut data, head.inception);
    wire::push_u16(&mut data, head.key_tag);
    let ghost front = data@;
    if !push_wire_name(&head.signer_name, &mut data) {
        return None;
    }
    wire::push_bytes(&mut data, signature.as_slice());
    assert(data@ =~= signature_data(head@, signature@)->0);
    dnssec_record(owner, records::TYPE_RRSIG, &data)
}

} // verus!
