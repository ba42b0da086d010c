//! Messages and records as validation reads them.
use crate::dnssec::names;
use crate::dnssec::names::{labels_of, DnsName};
use hickory_proto::dnssec::rdata::DNSSECRData;
use hickory_proto::dnssec::PublicKey;
use hickory_proto::op::Message;
use hickory_proto::rr::{RData, Record};
use hickory_proto::serialize::binary::{BinDecodable, BinEncodable};
use vstd::prelude::*;

verus! {

pub const TYPE_NS: u16 = 2;

pub const TYPE_CNAME: u16 = 5;

pub const TYPE_SOA: u16 = 6;

pub const TYPE_DS: u16 = 43;

pub const TYPE_RRSIG: u16 = 46;

pub const TYPE_NSEC: u16 = 47;

pub const TYPE_DNSKEY: u16 = 48;

pub const TYPE_NSEC3: u16 = 50;

/// A public key of a zone.
#[derive(Debug)]
pub struct Dnskey {
    pub flags: u16,
    pub algorithm: u8,
    pub public_key: Vec<u8>,
}

/// A digest of a key of a delegated zone.
#[derive(Debug)]
pub struct Ds {
    pub key_tag: u16,
    pub algorithm: u8,
    pub digest_type: u8,
    pub digest: Vec<u8>,
}

/// A signature over a set of records; the bytes of the signature stay in the record's wire form.
#[derive(Debug)]
pub struct Rrsig {
    pub type_covered: u16,
    pub algorithm: u8,
    pub inception: u32,
    pub expiration: u32,
    pub key_tag: u16,
    pub signer_name: DnsName,
}

/// The next name of a zone, and the types that the owner has.
#[derive(Debug)]
pub struct Nsec {
    pub next_domain_name: DnsName,
    pub types: Vec<u16>,
}

/// The next hashed name of a zone, and the types that the owner has.
#[derive(Debug)]
pub struct Nsec3 {
    pub opt_out: bool,
    pub iterations: u16,
    pub salt: Vec<u8>,
    pub next_hash: Vec<u8>,
    pub types: Vec<u16>,
}

/// What a record holds, as far as validation reads it.
#[derive(Debug)]
pub enum RecordData {
    Dnskey(Dnskey),
    Ds(Ds),
    Rrsig(Rrsig),
    Nsec(Nsec),
    Nsec3(Nsec3),
    Other,
}

/// A record, with its wire form.
#[derive(Debug)]
pub struct DnsRecord {
    pub name: DnsName,
    pub record_type: u16,
    pub dns_class: u16,
    pub data: RecordData,
    pub wire: Vec<u8>,
}

/// The first question of a message.
#[derive(Debug)]
pub struct DnsQuery {
    pub name: DnsName,
    pub query_type: u16,
}

#[derive(Debug)]
pub struct DnsMessage {
    pub query: Option<DnsQuery>,
    pub response_code: u16,
    pub answers: Vec<DnsRecord>,
    pub name_servers: Vec<DnsRecord>,
    pub additionals: Vec<DnsRecord>,
}

/// A record before its data is read.
#[derive(Debug)]
pub struct WireRecord {
    pub name: DnsName,
    pub record_type: u16,
    pub dns_class: u16,
    pub wire: Vec<u8>,
}

/// A message before the data of its records is read.
#[derive(Debug)]
pub struct WireMessage {
    pub query: Option<DnsQuery>,
    pub response_code: u16,
    pub answers: Vec<WireRecord>,
    pub name_servers: Vec<WireRecord>,
    pub additionals: Vec<WireRecord>,
}

pub ghost struct DnskeyV {
    pub flags: u16,
    pub algorithm: u8,
    pub public_key: Seq<u8>,
}

pub ghost struct DsV {
    pub key_tag: u16,
    pub algorithm: u8,
    pub digest_type: u8,
    pub digest: Seq<u8>,
}

pub ghost struct RrsigV {
    pub type_covered: u16,
    pub algorithm: u8,
    pub inception: u32,
    pub expiration: u32,
    pub key_tag: u16,
    pub signer_name: Seq<Seq<u8>>,
}

pub ghost struct NsecV {
    pub next_domain_name: Seq<Seq<u8>>,
    pub types: Seq<u16>,
}

pub ghost struct Nsec3V {
    pub opt_out: bool,
    pub iterations: u16,
    pub salt: Seq<u8>,
    pub next_hash: Seq<u8>,
    pub types: Seq<u16>,
}

pub ghost enum DataV {
    Dnskey(DnskeyV),
    Ds(DsV),
    Rrsig(RrsigV),
    Nsec(NsecV),
    Nsec3(Nsec3V),
    Other,
}

pub ghost struct RecordV {
    pub name: Seq<Seq<u8>>,
    pub record_type: u16,
    pub dns_class: u16,
    pub data: DataV,
    pub wire: Seq<u8>,
}

pub ghost struct MessageV {
    pub query: Option<(Seq<Seq<u8>>, u16)>,
    pub response_code: u16,
    pub answers: Seq<RecordV>,
    pub name_servers: Seq<RecordV>,
    pub additionals: Seq<RecordV>,
}

pub ghost struct WireRecordV {
    pub name: Seq<Seq<u8>>,
    pub record_type: u16,
    pub dns_class: u16,
    pub wire: Seq<u8>,
}

pub ghost struct WireMessageV {
    pub query: Option<(Seq<Seq<u8>>, u16)>,
    pub response_code: u16,
    pub answers: Seq<WireRecordV>,
    pub name_servers: Seq<WireRecordV>,
    pub additionals: Seq<WireRecordV>,
}

impl View for Dnskey {
    type V = DnskeyV;

    open spec fn view(&self) -> DnskeyV {
        DnskeyV { flags: self.flags, algorithm: self.algorithm, public_key: self.public_key@ }
    }
}

impl View for Ds {
    type V = DsV;

    open spec fn view(&self) -> DsV {
        DsV {
            key_tag: self.key_tag,
            algorithm: self.algorithm,
            digest_type: self.digest_type,
            digest: self.digest@,
        }
    }
}

impl View for Rrsig {
    type V = RrsigV;

    open spec fn view(&self) -> RrsigV {
        RrsigV {
            type_covered: self.type_covered,
            algorithm: self.algorithm,
            inception: self.inception,
            expiration: self.expiration,
            key_tag: self.key_tag,
            signer_name: self.signer_name@,
        }
    }
}

impl View for Nsec {
    type V = NsecV;

    open spec fn view(&self) -> NsecV {
        NsecV { next_domain_name: self.next_domain_name@, types: self.types@ }
    }
}

impl View for Nsec3 {
    type V = Nsec3V;

    open spec fn view(&self) -> Nsec3V {
        Nsec3V {
            opt_out: self.opt_out,
            iterations: self.iterations,
            salt: self.salt@,
            next_hash: self.next_hash@,
            types: self.types@,
        }
    }
}

impl View for RecordData {
    type V = DataV;

    open spec fn view(&self) -> DataV {
        match *self {
            RecordData::Dnskey(k) => DataV::Dnskey(k@),
            RecordData::Ds(d) => DataV::Ds(d@),
            RecordData::Rrsig(s) => DataV::Rrsig(s@),
            RecordData::Nsec(n) => DataV::Nsec(n@),
            RecordData::Nsec3(n) => DataV::Nsec3(n@),
            RecordData::Other => DataV::Other,
        }
    }
}

impl View for DnsRecord {
    type V = RecordV;

    open spec fn view(&self) -> RecordV {
        RecordV {
            name: self.name@,
            record_type: self.record_type,
            dns_class: self.dns_class,
            data: self.data@,
            wire: self.wire@,
        }
    }
}

impl View for WireRecord {
    type V = WireRecordV;

    open spec fn view(&self) -> WireRecordV {
        WireRecordV {
            name: self.name@,
            record_type: self.record_type,
            dns_class: self.dns_class,
            wire: self.wire@,
        }
    }
}

pub open spec fn views(list: Seq<DnsRecord>) -> Seq<RecordV> {
    list.map_values(|r: DnsRecord| r@)
}

pub open spec fn wire_views(list: Seq<WireRecord>) -> Seq<WireRecordV> {
    list.map_values(|r: WireRecord| r@)
}

pub open spec fn query_view(q: Option<DnsQuery>) -> Option<(Seq<Seq<u8>>, u16)> {
    match q {
        Some(q) => Some((q.name@, q.query_type)),
        None => None,
    }
}

impl View for DnsMessage {
    type V = MessageV;

    open spec fn view(&self) -> MessageV {
        MessageV {
            query: query_view(self.query),
            response_code: self.response_code,
            answers: views(self.answers@),
            name_servers: views(self.name_servers@),
            additionals: views(self.additionals@),
        }
    }
}

impl View for WireMessage {
    type V = WireMessageV;

    open spec fn view(&self) -> WireMessageV {
        WireMessageV {
            query: query_view(self.query),
            response_code: self.response_code,
            answers: wire_views(self.answers@),
            name_servers: wire_views(self.name_servers@),
            additionals: wire_views(self.additionals@),
        }
    }
}

/// Why a message or a proof is refused.
#[derive(Debug)]
pub enum DnssecError {
    /// The packet is no message.
    Malformed(String),
    /// There is no record to verify.
    EmptyRrset(DnsName),
    /// A key is too long to have a tag.
    KeyTag,
    /// A digest of a key cannot be computed.
    Digest,
    /// No signature over the records of a name and a type verifies.
    NoValidSignature(DnsName, u16),
    /// No digest of the parent matches a key of the zone.
    NoMatchingDs(DnsName),
    /// No key of the root is a trust anchor.
    NotAnchored,
    /// Records that belong to a proof are there, but prove nothing.
    Unproved,
    /// The name is too long to have a wildcard below it.
    NoWildcard(DnsName),
    /// A name cannot be hashed.
    NameHash(String),
    /// The owner of a hashed proof has no label.
    NoOwnerLabel,
    /// The first label of the owner of a hashed proof is no hash.
    OwnerHash(DnsName),
}

pub ghost enum DnssecErrorV {
    Malformed(Seq<char>),
    EmptyRrset(Seq<Seq<u8>>),
    KeyTag,
    Digest,
    NoValidSignature(Seq<Seq<u8>>, u16),
    NoMatchingDs(Seq<Seq<u8>>),
    NotAnchored,
    Unproved,
    NoWildcard(Seq<Seq<u8>>),
    NameHash(Seq<char>),
    NoOwnerLabel,
    OwnerHash(Seq<Seq<u8>>),
}

impl View for DnssecError {
    type V = DnssecErrorV;

    open spec fn view(&self) -> DnssecErrorV {
        match *self {
            DnssecError::Malformed(s) => DnssecErrorV::Malformed(s@),
            DnssecError::EmptyRrset(n) => DnssecErrorV::EmptyRrset(n@),
            DnssecError::KeyTag => DnssecErrorV::KeyTag,
            DnssecError::Digest => DnssecErrorV::Digest,
            DnssecError::NoValidSignature(n, t) => DnssecErrorV::NoValidSignature(n@, t),
            DnssecError::NoMatchingDs(n) => DnssecErrorV::NoMatchingDs(n@),
            DnssecError::NotAnchored => DnssecErrorV::NotAnchored,
            DnssecError::Unproved => DnssecErrorV::Unproved,
            DnssecError::NoWildcard(n) => DnssecErrorV::NoWildcard(n@),
            DnssecError::NameHash(s) => DnssecErrorV::NameHash(s@),
            DnssecError::NoOwnerLabel => DnssecErrorV::NoOwnerLabel,
            DnssecError::OwnerHash(n) => DnssecErrorV::OwnerHash(n@),
        }
    }
}

/// The message that hickory-proto decodes from a packet; an error carries its words.
pub uninterp spec fn message_data(packet: Seq<u8>) -> Result<WireMessageV, Seq<char>>;

/// The key that hickory-proto decodes from the wire form of a record.
pub uninterp spec fn dnskey_data(wire: Seq<u8>) -> Option<DnskeyV>;

/// The digest that hickory-proto decodes from the wire form of a record.
pub uninterp spec fn ds_data(wire: Seq<u8>) -> Option<DsV>;

/// The signature that hickory-proto decodes from the wire form of a record.
pub uninterp spec fn rrsig_data(wire: Seq<u8>) -> Option<RrsigV>;

/// The next name that hickory-proto decodes from the wire form of a record.
pub uninterp spec fn nsec_data(wire: Seq<u8>) -> Option<NsecV>;

/// The next hashed name that hickory-proto decodes from the wire form of a record.
pub uninterp spec fn nsec3_data(wire: Seq<u8>) -> Option<Nsec3V>;

pub open spec fn wire_result(r: Result<WireMessage, String>) -> Result<WireMessageV, Seq<char>> {
    match r {
        Ok(m) => Ok(m@),
        Err(s) => Err(s@),
    }
}

/// Calls `hickory_proto::op::Message::from_vec`. The result is a function of the packet: the
/// first question, the response code and the records of the three sections, each record with its
/// owner, type, class and the bytes that `to_bytes` gives for it, none where it gives an error.
#[verifier::external_body]
fn decode_message(packet: &[u8]) -> (r: Result<WireMessage, String>)
    ensures
        wire_result(r) == message_data(packet@),
{
    let m = Message::from_vec(packet).map_err(|e| e.to_string())?;
    let list = |l: &[Record]| l.iter().map(|r| WireRecord {
        name: labels_of(r.name()),
        record_type: r.record_type().into(),
        dns_class: r.dns_class().into(),
        wire: r.to_bytes().unwrap_or_default(),
    }).collect();
    Ok(WireMessage {
        query: m.query().map(|q| DnsQuery { name: labels_of(q.name()), query_type: q.query_type().into() }),
        response_code: m.response_code().into(),
        answers: list(m.answers()),
        name_servers: list(m.name_servers()),
        additionals: list(m.additionals()),
    })
}

pub open spec fn optional_dnskey(k: Option<Dnskey>) -> Option<DnskeyV> {
    match k {
        Some(k) => Some(k@),
        None => None,
    }
}

pub open spec fn optional_ds(d: Option<Ds>) -> Option<DsV> {
    match d {
        Some(d) => Some(d@),
        None => None,
    }
}

pub open spec fn optional_rrsig(s: Option<Rrsig>) -> Option<RrsigV> {
    match s {
        Some(s) => Some(s@),
        None => None,
    }
}

pub open spec fn optional_nsec(n: Option<Nsec>) -> Option<NsecV> {
    match n {
        Some(n) => Some(n@),
        None => None,
    }
}

pub open spec fn optional_nsec3(n: Option<Nsec3>) -> Option<Nsec3V> {
    match n {
        Some(n) => Some(n@),
        None => None,
    }
}

/// Calls `hickory_proto::rr::Record::from_bytes` and takes the fields of a DNSKEY record. The
/// result is a function of the bytes.
#[verifier::external_body]
fn as_dnskey(wire: &[u8]) -> (r: Option<Dnskey>)
    ensures
        optional_dnskey(r) == dnskey_data(wire@),
{
    match Record::<RData>::from_bytes(wire).ok()?.data() {
        RData::DNSSEC(DNSSECRData::DNSKEY(k)) => Some(
            Dnskey {
                flags: k.flags(),
                algorithm: u8::from(k.public_key().algorithm()),
                public_key: k.public_key().public_bytes().to_vec(),
            },
        ),
        _ => None,
    }
}

/// Calls `hickory_proto::rr::Record::from_bytes` and takes the fields of a DS record. The result
/// is a function of the bytes.
#[verifier::external_body]
fn as_ds(wire: &[u8]) -> (r: Option<Ds>)
    ensures
        optional_ds(r) == ds_data(wire@),
{
    match Record::<RData>::from_bytes(wire).ok()?.data() {
        RData::DNSSEC(DNSSECRData::DS(d)) => Some(
            Ds {
                key_tag: d.key_tag(),
                algorithm: u8::from(d.algorithm()),
                digest_type: u8::from(d.digest_type()),
                digest: d.digest().to_vec(),
            },
        ),
        _ => None,
    }
}

/// Calls `hickory_proto::rr::Record::from_bytes` and takes the fields of an RRSIG record. The
/// result is a function of the bytes.
#[verifier::external_body]
fn as_rrsig(wire: &[u8]) -> (r: Option<Rrsig>)
    ensures
        optional_rrsig(r) == rrsig_data(wire@),
{
    match Record::<RData>::from_bytes(wire).ok()?.data() {
        RData::DNSSEC(DNSSECRData::RRSIG(s)) => Some(
            Rrsig {
                type_covered: u16::from(s.type_covered()),
                algorithm: u8::from(s.algorithm()),
                inception: s.sig_inception().get(),
                expiration: s.sig_expiration().get(),
                key_tag: s.key_tag(),
                signer_name: labels_of(s.signer_name()),
            },
        ),
        _ => None,
    }
}

/// Calls `hickory_proto::rr::Record::from_bytes` and takes the fields of an NSEC record. The
/// result is a function of the bytes.
#[verifier::external_body]
fn as_nsec(wire: &[u8]) -> (r: Option<Nsec>)
    ensures
        optional_nsec(r) == nsec_data(wire@),
{
    match Record::<RData>::from_bytes(wire).ok()?.data() {
        RData::DNSSEC(DNSSECRData::NSEC(n)) => Some(
            Nsec {
                next_domain_name: labels_of(n.next_domain_name()),
                types: n.type_bit_maps().map(u16::from).collect(),
            },
        ),
        _ => None,
    }
}

/// Calls `hickory_proto::rr::Record::from_bytes` and takes the fields of an NSEC3 record. The
/// result is a function of the bytes.
#[verifier::external_body]
fn as_nsec3(wire: &[u8]) -> (r: Option<Nsec3>)
    ensures
        optional_nsec3(r) == nsec3_data(wire@),
{
    match Record::<RData>::from_bytes(wire).ok()?.data() {
        RData::DNSSEC(DNSSECRData::NSEC3(n)) => Some(
            Nsec3 {
                opt_out: n.opt_out(),
                iterations: n.iterations(),
                salt: n.salt().to_vec(),
                next_hash: n.next_hashed_owner_name().to_vec(),
                types: n.type_bit_maps().map(u16::from).collect(),
            },
        ),
        _ => None,
    }
}

/// What a record of a type holds.
pub open spec fn data_of(record_type: u16, wire: Seq<u8>) -> DataV {
    if record_type == TYPE_DNSKEY {
        match dnskey_data(wire) {
            Some(k) => DataV::Dnskey(k),
            None => DataV::Other,
        }
    } else if record_type == TYPE_DS {
        match ds_data(wire) {
            Some(d) => DataV::Ds(d),
            None => DataV::Other,
        }
    } else if record_type == TYPE_RRSIG {
        match rrsig_data(wire) {
            Some(s) => DataV::Rrsig(s),
            None => DataV::Other,
        }
    } else if record_type == TYPE_NSEC {
        match nsec_data(wire) {
            Some(n) => DataV::Nsec(n),
            None => DataV::Other,
        }
    } else if record_type == TYPE_NSEC3 {
        match nsec3_data(wire) {
            Some(n) => DataV::Nsec3(n),
            None => DataV::Other,
        }
    } else {
        DataV::Other
    }
}

pub open spec fn read_record(r: WireRecordV) -> RecordV {
    RecordV {
        name: r.name,
        record_type: r.record_type,
        dns_class: r.dns_class,
        data: data_of(r.record_type, r.wire),
        wire: r.wire,
    }
}

pub open spec fn read_all(list: Seq<WireRecordV>) -> Seq<RecordV> {
    list.map_values(|r: WireRecordV| read_record(r))
}

pub open spec fn read_message(m: WireMessageV) -> MessageV {
    MessageV {
        query: m.query,
        response_code: m.response_code,
        answers: read_all(m.answers),
        name_servers: read_all(m.name_servers),
        additionals: read_all(m.additionals),
    }
}

/// The message of a packet.
pub open spec fn parsed(packet: Seq<u8>) -> Result<MessageV, DnssecErrorV> {
    match message_data(packet) {
        Ok(m) => Ok(read_message(m)),
        Err(s) => Err(DnssecErrorV::Malformed(s)),
    }
}

pub open spec fn message_result(r: Result<DnsMessage, DnssecError>) -> Result<
    MessageV,
    DnssecErrorV,
> {
    match r {
        Ok(m) => Ok(m@),
        Err(e) => Err(e@),
    }
}

fn read_data(record_type: u16, wire: &Vec<u8>) -> (r: RecordData)
    ensures
        r@ == data_of(record_type, wire@),
{
    if record_type == TYPE_DNSKEY {
        match as_dnskey(wire.as_slice()) {
            Some(k) => RecordData::Dnskey(k),
            None => RecordData::Other,
        }
    } else if record_type == TYPE_DS {
        match as_ds(wire.as_slice()) {
            Some(d) => RecordData::Ds(d),
            None => RecordData::Other,
        }
    } else if record_type == TYPE_RRSIG {
        match as_rrsig(wire.as_slice()) {
            Some(s) => RecordData::Rrsig(s),
            None => RecordData::Other,
        }
    } else if record_type == TYPE_NSEC {
        match as_nsec(wire.as_slice()) {
            Some(n) => RecordData::Nsec(n),
            None => RecordData::Other,
        }
    } else if record_type == TYPE_NSEC3 {
        match as_nsec3(wire.as_slice()) {
            Some(n) => RecordData::Nsec3(n),
            None => RecordData::Other,
        }
    } else {
        RecordData::Other
    }
}

fn read_records(list: &Vec<WireRecord>) -> (r: Vec<DnsRecord>)
    ensures
        views(r@) == read_all(wire_views(list@)),
{
    let ghost all = read_all(wire_views(list@));
    let mut out: Vec<DnsRecord> = Vec::new();
    let mut i: usize = 0;
    assert(views(out@) =~= all.take(0));
    while i < list.len()
        invariant
            i <= list@.len(),
            all == read_all(wire_views(list@)),
            views(out@) == all.take(i as int),
        decreases list@.len() - i,
    {
        let ghost before = views(out@);
        let w = &list[i];
        let record = DnsRecord {
            name: names::copy_name(&w.name),
            record_type: w.record_type,
            dns_class: w.dns_class,
            data: read_data(w.record_type, &w.wire),
            wire: names::copy_bytes(&w.wire),
        };
        assert(wire_views(list@)[i as int] == list@[i as int]@);
        assert(record@ == all[i as int]);
        out.push(record);
        assert(views(out@) =~= before.push(record@));
        assert(before.push(all[i as int]) =~= all.take(i + 1));
        i = i + 1;
    }
    assert(all.take(i as int) =~= all);
    out
}

/// Reads a message out of a packet.
pub fn parse_message(packet: &[u8]) -> (r: Result<DnsMessage, DnssecError>)
    ensures
        message_result(r) == parsed(packet@),
{
    match decode_message(packet) {
        Ok(m) => Ok(
            DnsMessage {
                answers: read_records(&m.answers),
                name_servers: read_records(&m.name_servers),
                additionals: read_records(&m.additionals),
                query: m.query,
                response_code: m.response_code,
            },
        ),
        Err(s) => Err(DnssecError::Malformed(s)),
    }
}

/// Makes a copy of a list of types.
pub fn copy_types(list: &Vec<u16>) -> (r: Vec<u16>)
    ensures
        r@ == list@,
{
    let mut out: Vec<u16> = Vec::new();
    let mut i: usize = 0;
    while i < list.len()
        invariant
            i <= list@.len(),
            out@ == list@.take(i as int),
        decreases list@.len() - i,
    {
        out.push(list[i]);
        assert(out@ =~= list@.take(i + 1));
        i = i + 1;
    }
    assert(list@.take(i as int) =~= list@);
    out
}

fn copy_data(d: &RecordData) -> (r: RecordData)
    ensures
        r@ == d@,
{
    match d {
        RecordData::Dnskey(k) => RecordData::Dnskey(
            Dnskey {
                flags: k.flags,
                algorithm: k.algorithm,
                public_key: names::copy_bytes(&k.public_key),
            },
        ),
        RecordData::Ds(d) => RecordData::Ds(
            Ds {
                key_tag: d.key_tag,
                algorithm: d.algorithm,
                digest_type: d.digest_type,
                digest: names::copy_bytes(&d.digest),
            },
        ),
        RecordData::Rrsig(s) => RecordData::Rrsig(
            Rrsig {
                type_covered: s.type_covered,
                algorithm: s.algorithm,
                inception: s.inception,
                expiration: s.expiration,
                key_tag: s.key_tag,
                signer_name: names::copy_name(&s.signer_name),
            },
        ),
        RecordData::Nsec(n) => RecordData::Nsec(
            Nsec {
                next_domain_name: names::copy_name(&n.next_domain_name),
                types: copy_types(&n.types),
            },
        ),
        RecordData::Nsec3(n) => RecordData::Nsec3(
            Nsec3 {
                opt_out: n.opt_out,
                iterations: n.iterations,
                salt: names::copy_bytes(&n.salt),
                next_hash: names::copy_bytes(&n.next_hash),
                types: copy_types(&n.types),
            },
        ),
        RecordData::Other => RecordData::Other,
    }
}

/// Makes a copy of a record.
pub fn copy_record(x: &DnsRecord) -> (r: DnsRecord)
    ensures
        r@ == x@,
{
    DnsRecord {
        name: names::copy_name(&x.name),
        record_type: x.record_type,
        dns_class: x.dns_class,
        data: copy_data(&x.data),
        wire: names::copy_bytes(&x.wire),
    }
}

/// Makes a copy of a list of records.
pub fn copy_records(list: &Vec<DnsRecord>) -> (r: Vec<DnsRecord>)
    ensures
        views(r@) == views(list@),
{
    let ghost all = views(list@);
    let mut out: Vec<DnsRecord> = Vec::new();
    let mut i: usize = 0;
    assert(views(out@) =~= all.take(0));
    while i < list.len()
        invariant
            i <= list@.len(),
            all == views(list@),
            views(out@) == all.take(i as int),
        decreases list@.len() - i,
    {
        let ghost before = views(out@);
        let record = copy_record(&list[i]);
        out.push(record);
        assert(views(out@) =~= before.push(record@));
        assert(before.push(all[i as int]) =~= all.take(i + 1));
        i = i + 1;
    }
    assert(all.take(i as int) =~= all);
    out
}

} // verus!
