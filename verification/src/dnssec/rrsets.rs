//! Sets of records, and the signatures over them.
use crate::codec::edns;
use crate::codec::query;
use crate::codec::wire;
use crate::dnssec::names;
use crate::dnssec::names::DnsName;
use crate::dnssec::records;
use crate::dnssec::records::{
    DnsMessage, DnsRecord, Dnskey, DnssecError, RecordData, TYPE_DNSKEY, TYPE_DS, TYPE_NSEC,
    TYPE_NSEC3, TYPE_RRSIG,
};
use hickory_proto::dnssec::rdata::{DNSSECRData, DNSKEY};
use hickory_proto::dnssec::{Algorithm, PublicKeyBuf, Verifier};
use hickory_proto::rr::{DNSClass, Name, RData, Record};
use hickory_proto::serialize::binary::BinDecodable;
use vstd::prelude::*;

verus! {

pub open spec fn all_records(m: records::MessageV) -> Seq<records::RecordV> {
    m.answers + m.name_servers + m.additionals
}

pub open spec fn belongs(r: records::RecordV, name: names::NameV, record_type: u16) -> bool {
    names::is_same(r.name, name) && r.record_type == record_type
}

pub open spec fn covers_type(r: records::RecordV, covered: u16) -> bool {
    match r.data {
        records::DataV::Rrsig(s) => s.type_covered == covered,
        _ => false,
    }
}

pub open spec fn signs(r: records::RecordV, name: names::NameV, covered: u16) -> bool {
    belongs(r, name, TYPE_RRSIG) && covers_type(r, covered)
}

/// The records of a message that a name has of a type, in the order of the message.
pub open spec fn rrset_records(m: records::MessageV, name: names::NameV, record_type: u16) -> Seq<
    records::RecordV,
> {
    all_records(m).filter(|r: records::RecordV| belongs(r, name, record_type))
}

/// The signatures of a message over the records that a name has of a type.
pub open spec fn rrsig_records(m: records::MessageV, name: names::NameV, covered: u16) -> Seq<
    records::RecordV,
> {
    all_records(m).filter(|r: records::RecordV| signs(r, name, covered))
}

/// The records of a signed answer: signatures, keys and digests.
pub open spec fn is_signing_type(t: u16) -> bool {
    t == TYPE_RRSIG || t == TYPE_DNSKEY || t == TYPE_DS
}

/// The records of a proof: those of a signed answer, and denials of existence.
pub open spec fn is_proof_type(t: u16) -> bool {
    is_signing_type(t) || t == TYPE_NSEC || t == TYPE_NSEC3
}

pub open spec fn has_signing_record(list: Seq<records::RecordV>) -> bool {
    exists|i: int| 0 <= i < list.len() && is_signing_type((#[trigger] list[i]).record_type)
}

pub open spec fn has_proof_record(list: Seq<records::RecordV>) -> bool {
    exists|i: int| 0 <= i < list.len() && is_proof_type((#[trigger] list[i]).record_type)
}

/// A name and a type.
pub type KeyV = (Seq<Seq<u8>>, u16);

pub open spec fn key_before(a: KeyV, b: KeyV) -> bool {
    names::is_before(a.0, b.0) || (names::is_same(a.0, b.0) && a.1 < b.1)
}

pub open spec fn key_same(a: KeyV, b: KeyV) -> bool {
    names::is_same(a.0, b.0) && a.1 == b.1
}

/// A sorted list with one more entry, unless it is there already.
pub open spec fn with_key(list: Seq<KeyV>, k: KeyV) -> Seq<KeyV>
    decreases list.len(),
{
    if list.len() == 0 {
        seq![k]
    } else if key_before(k, list[0]) {
        seq![k] + list
    } else if key_same(list[0], k) {
        list
    } else {
        seq![list[0]] + with_key(list.skip(1), k)
    }
}

/// The names and types of the records that are no signatures, each once, in order.
pub open spec fn signed_rrsets(list: Seq<records::RecordV>) -> Seq<KeyV>
    decreases list.len(),
{
    if list.len() == 0 {
        Seq::empty()
    } else {
        let rest = signed_rrsets(list.drop_last());
        if list.last().record_type == TYPE_RRSIG {
            rest
        } else {
            with_key(rest, (list.last().name, list.last().record_type))
        }
    }
}

/// The signers that the signatures of a list name, each once, in the order of the list.
pub open spec fn signers(list: Seq<records::RecordV>) -> Seq<names::NameV>
    decreases list.len(),
{
    if list.len() == 0 {
        Seq::empty()
    } else {
        let rest = signers(list.drop_last());
        match list.last().data {
            records::DataV::Rrsig(s) => if holds_name(rest, s.signer_name) {
                rest
            } else {
                rest.push(s.signer_name)
            },
            _ => rest,
        }
    }
}

pub open spec fn holds_name(list: Seq<names::NameV>, name: names::NameV) -> bool {
    exists|i: int| 0 <= i < list.len() && names::is_same(#[trigger] list[i], name)
}

/// The algorithms whose keys can verify.
pub open spec fn is_supported(algorithm: u8) -> bool {
    algorithm == 5 || algorithm == 7 || algorithm == 8 || algorithm == 10 || algorithm == 13
        || algorithm == 14 || algorithm == 15
}

/// The sum of the 16-bit words of a byte string; a last odd byte is the upper half of a word.
pub open spec fn word_sum(b: Seq<u8>) -> nat
    decreases b.len(),
{
    if b.len() == 0 {
        0
    } else {
        word_sum(b.drop_last()) + (if b.len() % 2 == 1 {
            b.last() as nat * 256
        } else {
            b.last() as nat
        })
    }
}

/// The data of a key record: flags, the protocol, which is three, the algorithm and the key.
pub open spec fn key_bytes(k: records::DnskeyV) -> Seq<u8> {
    seq![(k.flags / 256) as u8, (k.flags % 256) as u8, 3u8, k.algorithm] + k.public_key
}

/// The tag of a key; a key whose data is longer than the data of a record can be has none.
pub open spec fn tag(k: records::DnskeyV) -> Option<u16> {
    if k.public_key.len() > 65531 {
        None
    } else {
        let sum = word_sum(key_bytes(k));
        Some(((sum + sum / 65536) % 65536) as u16)
    }
}

/// Whether hickory-proto verifies a signature over a set of records with a key.
pub uninterp spec fn signature_verifies(
    key: records::DnskeyV,
    name: Seq<Seq<u8>>,
    dns_class: u16,
    rrsig: Seq<u8>,
    set: Seq<Seq<u8>>,
) -> bool;

pub open spec fn wires(list: Seq<records::RecordV>) -> Seq<Seq<u8>> {
    list.map_values(|r: records::RecordV| r.wire)
}

/// What one signature and one key say of a set of records: that it is verified, an error, or
/// nothing.
pub open spec fn attempt(
    name: names::NameV,
    set: Seq<records::RecordV>,
    sig: records::RecordV,
    key: records::RecordV,
    now: u32,
) -> Option<Result<(), records::DnssecErrorV>> {
    match (sig.data, key.data) {
        (records::DataV::Rrsig(s), records::DataV::Dnskey(k)) => if s.inception > now
            || s.expiration < now {
            None
        } else {
            match tag(k) {
                None => Some(Err(records::DnssecErrorV::KeyTag)),
                Some(t) => if t == s.key_tag && k.algorithm == s.algorithm && names::is_same(
                    key.name,
                    s.signer_name,
                ) && is_supported(k.algorithm) && signature_verifies(
                    k,
                    name,
                    set[0].dns_class,
                    sig.wire,
                    wires(set),
                ) {
                    Some(Ok(()))
                } else {
                    None
                },
            }
        },
        _ => None,
    }
}

/// What the first key says that says anything.
pub open spec fn attempt_keys(
    name: names::NameV,
    set: Seq<records::RecordV>,
    sig: records::RecordV,
    keys: Seq<records::RecordV>,
    now: u32,
) -> Option<Result<(), records::DnssecErrorV>>
    decreases keys.len(),
{
    if keys.len() == 0 {
        None
    } else {
        match attempt(name, set, sig, keys[0], now) {
            Some(r) => Some(r),
            None => attempt_keys(name, set, sig, keys.skip(1), now),
        }
    }
}

/// What the first signature says that says anything.
pub open spec fn attempt_all(
    name: names::NameV,
    set: Seq<records::RecordV>,
    sigs: Seq<records::RecordV>,
    keys: Seq<records::RecordV>,
    now: u32,
) -> Option<Result<(), records::DnssecErrorV>>
    decreases sigs.len(),
{
    if sigs.len() == 0 {
        None
    } else {
        match attempt_keys(name, set, sigs[0], keys, now) {
            Some(r) => Some(r),
            None => attempt_all(name, set, sigs.skip(1), keys, now),
        }
    }
}

/// Whether a set of records is verified by one of the signatures and one of the keys.
pub open spec fn verified(
    name: names::NameV,
    set: Seq<records::RecordV>,
    sigs: Seq<records::RecordV>,
    keys: Seq<records::RecordV>,
    now: u32,
) -> Result<(), records::DnssecErrorV> {
    if set.len() == 0 {
        Err(records::DnssecErrorV::EmptyRrset(name))
    } else {
        match attempt_all(name, set, sigs, keys, now) {
            Some(r) => r,
            None => Err(records::DnssecErrorV::NoValidSignature(name, set[0].record_type)),
        }
    }
}

pub open spec fn unit_result(r: Result<(), DnssecError>) -> Result<(), records::DnssecErrorV> {
    match r {
        Ok(_) => Ok(()),
        Err(e) => Err(e@),
    }
}

/// A list in which every entry is before the next.
pub open spec fn ascending(list: Seq<KeyV>) -> bool {
    forall|i: int, j: int| 0 <= i < j < list.len() ==> key_before(#[trigger] list[i], #[trigger] list[j])
}

pub open spec fn holds_key(list: Seq<KeyV>, k: KeyV) -> bool {
    exists|i: int| 0 <= i < list.len() && key_same(#[trigger] list[i], k)
}

proof fn lemma_key_transitive(a: KeyV, b: KeyV, c: KeyV)
    requires
        key_before(a, b),
        key_before(b, c),
    ensures
        key_before(a, c),
{
    if names::is_before(a.0, b.0) && names::is_before(b.0, c.0) {
        names::lemma_name_transitive(a.0, b.0, c.0);
    } else if names::is_before(a.0, b.0) {
        names::lemma_same_place(b.0, c.0, a.0);
    } else if names::is_before(b.0, c.0) {
        names::lemma_same_place(a.0, b.0, c.0);
    }
}

proof fn lemma_with_key_ascending(list: Seq<KeyV>, k: KeyV)
    requires
        ascending(list),
    ensures
        ascending(with_key(list, k)),
        holds_key(with_key(list, k), k),
        forall|x: KeyV| holds_key(list, x) ==> #[trigger] holds_key(with_key(list, k), x),
        forall|i: int|
            0 <= i < with_key(list, k).len() ==> (#[trigger] with_key(list, k)[i]) == k || list.contains(
                with_key(list, k)[i],
            ),
    decreases list.len(),
{
    let all = with_key(list, k);
    if list.len() == 0 {
        assert(key_same(all[0], k));
    } else if key_before(k, list[0]) {
        assert(key_same(all[0], k));
        assert forall|i: int, j: int| 0 <= i < j < all.len() implies key_before(
            #[trigger] all[i],
            #[trigger] all[j],
        ) by {
            assert(all[j] == list[j - 1]);
            if i == 0 {
                if j > 1 {
                    lemma_key_transitive(k, list[0], list[j - 1]);
                }
            } else {
                assert(all[i] == list[i - 1]);
            }
        }
        assert forall|x: KeyV| holds_key(list, x) implies #[trigger] holds_key(all, x) by {
            let i = choose|i: int| 0 <= i < list.len() && key_same(#[trigger] list[i], x);
            assert(all[i + 1] == list[i]);
        }
        assert forall|i: int| 0 <= i < all.len() implies (#[trigger] all[i]) == k || list.contains(
            all[i],
        ) by {
            if i > 0 {
                assert(all[i] == list[i - 1]);
            }
        }
    } else if key_same(list[0], k) {
    } else {
        let rest = list.skip(1);
        assert forall|i: int, j: int| 0 <= i < j < rest.len() implies key_before(
            #[trigger] rest[i],
            #[trigger] rest[j],
        ) by {
            assert(rest[i] == list[i + 1] && rest[j] == list[j + 1]);
        }
        lemma_with_key_ascending(rest, k);
        let tail = with_key(rest, k);
        names::lemma_name_order(list[0].0, k.0);
        assert(key_before(list[0], k));
        assert forall|i: int, j: int| 0 <= i < j < all.len() implies key_before(
            #[trigger] all[i],
            #[trigger] all[j],
        ) by {
            assert(all[j] == tail[j - 1]);
            if i == 0 {
                if tail[j - 1] != k {
                    let m = choose|m: int| 0 <= m < rest.len() && rest[m] == tail[j - 1];
                    assert(list[m + 1] == tail[j - 1]);
                }
            } else {
                assert(all[i] == tail[i - 1]);
            }
        }
        assert(holds_key(all, k)) by {
            let i = choose|i: int| 0 <= i < tail.len() && key_same(#[trigger] tail[i], k);
            assert(all[i + 1] == tail[i]);
        }
        assert forall|x: KeyV| holds_key(list, x) implies #[trigger] holds_key(all, x) by {
            let i = choose|i: int| 0 <= i < list.len() && key_same(#[trigger] list[i], x);
            if i == 0 {
                assert(all[0] == list[0]);
            } else {
                assert(rest[i - 1] == list[i]);
                assert(holds_key(rest, x));
                assert(holds_key(tail, x));
                let m = choose|m: int| 0 <= m < tail.len() && key_same(#[trigger] tail[m], x);
                assert(all[m + 1] == tail[m]);
            }
        }
        assert forall|i: int| 0 <= i < all.len() implies (#[trigger] all[i]) == k || list.contains(
            all[i],
        ) by {
            if i == 0 {
                assert(all[0] == list[0]);
            } else {
                assert(all[i] == tail[i - 1]);
                if tail[i - 1] != k {
                    let m = choose|m: int| 0 <= m < rest.len() && rest[m] == tail[i - 1];
                    assert(list[m + 1] == all[i]);
                }
            }
        }
    }
}

/// The sets of a list of records come in canonical order, none of them twice, and every record
/// that is no signature belongs to one.
pub proof fn lemma_signed_rrsets(list: Seq<records::RecordV>)
    ensures
        ascending(signed_rrsets(list)),
        forall|i: int|
            0 <= i < list.len() && (#[trigger] list[i]).record_type != TYPE_RRSIG ==> holds_key(
                signed_rrsets(list),
                (list[i].name, list[i].record_type),
            ),
    decreases list.len(),
{
    if list.len() > 0 {
        let start = list.drop_last();
        lemma_signed_rrsets(start);
        let rest = signed_rrsets(start);
        let k = (list.last().name, list.last().record_type);
        if list.last().record_type != TYPE_RRSIG {
            lemma_with_key_ascending(rest, k);
        }
        assert forall|i: int|
            0 <= i < list.len() && (#[trigger] list[i]).record_type != TYPE_RRSIG implies holds_key(
            signed_rrsets(list),
            (list[i].name, list[i].record_type),
        ) by {
            if i < start.len() {
                assert(start[i] == list[i]);
                assert(holds_key(rest, (list[i].name, list[i].record_type)));
            }
        }
    }
}

/// Whether a request asks for validated answers.
pub fn validation_requested(request: &[u8]) -> (r: bool)
    ensures
        r == ((edns::edns(request@) matches Some(e) && e.flags & edns::DNS_EDNS_FLAG_DO != 0) && !(
        request@.len() >= 4 && wire::be16(request@, 2) & query::DNS_FLAG_CD != 0)),
{
    edns::dnssec_ok_requested(request) && !query::checking_disabled(request)
}

fn any_signing(list: &Vec<DnsRecord>) -> (r: bool)
    ensures
        r == has_signing_record(records::views(list@)),
{
    let ghost all = records::views(list@);
    let mut i: usize = 0;
    while i < list.len()
        invariant
            i <= list@.len(),
            all == records::views(list@),
            forall|k: int| 0 <= k < i ==> !is_signing_type((#[trigger] all[k]).record_type),
        decreases list@.len() - i,
    {
        assert(all[i as int] == list@[i as int]@);
        let t = list[i].record_type;
        if t == TYPE_RRSIG || t == TYPE_DNSKEY || t == TYPE_DS {
            return true;
        }
        i = i + 1;
    }
    false
}

fn any_proof(list: &Vec<DnsRecord>) -> (r: bool)
    ensures
        r == has_proof_record(records::views(list@)),
{
    let ghost all = records::views(list@);
    let mut i: usize = 0;
    while i < list.len()
        invariant
            i <= list@.len(),
            all == records::views(list@),
            forall|k: int| 0 <= k < i ==> !is_proof_type((#[trigger] all[k]).record_type),
        decreases list@.len() - i,
    {
        assert(all[i as int] == list@[i as int]@);
        let t = list[i].record_type;
        if t == TYPE_RRSIG || t == TYPE_DNSKEY || t == TYPE_DS || t == TYPE_NSEC || t == TYPE_NSEC3 {
            return true;
        }
        i = i + 1;
    }
    false
}

proof fn lemma_any_of_three(m: records::MessageV)
    ensures
        has_signing_record(all_records(m)) == (has_signing_record(m.answers) || has_signing_record(
            m.name_servers,
        ) || has_signing_record(m.additionals)),
        has_proof_record(all_records(m)) == (has_proof_record(m.answers) || has_proof_record(
            m.name_servers,
        ) || has_proof_record(m.additionals)),
{
    let all = all_records(m);
    let a = m.answers.len() as int;
    let b = a + m.name_servers.len();
    assert forall|i: int| 0 <= i < m.answers.len() implies #[trigger] m.answers[i] == all[i] by {}
    assert forall|i: int| 0 <= i < m.name_servers.len() implies #[trigger] m.name_servers[i]
        == all[a + i] by {}
    assert forall|i: int| 0 <= i < m.additionals.len() implies #[trigger] m.additionals[i] == all[b
        + i] by {}
    assert forall|i: int| 0 <= i < all.len() implies #[trigger] all[i] == (if i < a {
        m.answers[i]
    } else if i < b {
        m.name_servers[i - a]
    } else {
        m.additionals[i - b]
    }) by {}
}

/// Whether a packet is a message that holds signatures, keys or digests.
pub fn response_has_dnssec_records(packet: &[u8]) -> (r: bool)
    ensures
        r == (match records::parsed(packet@) {
            Ok(m) => has_signing_record(all_records(m)),
            Err(_) => false,
        }),
{
    match records::parse_message(packet) {
        Ok(m) => {
            proof {
                lemma_any_of_three(m@);
            }
            any_signing(&m.answers) || any_signing(&m.name_servers) || any_signing(&m.additionals)
        },
        Err(_) => false,
    }
}

/// Whether a message holds records of a proof.
pub fn response_contains_dnssec_material(m: &DnsMessage) -> (r: bool)
    ensures
        r == has_proof_record(all_records(m@)),
{
    proof {
        lemma_any_of_three(m@);
    }
    any_proof(&m.answers) || any_proof(&m.name_servers) || any_proof(&m.additionals)
}

/// A name and a type of records.
#[derive(Debug)]
pub struct RrsetKey {
    pub name: DnsName,
    pub record_type: u16,
}

impl View for RrsetKey {
    type V = (Seq<Seq<u8>>, u16);

    open spec fn view(&self) -> (Seq<Seq<u8>>, u16) {
        (self.name@, self.record_type)
    }
}

pub open spec fn key_views(list: Seq<RrsetKey>) -> Seq<KeyV> {
    list.map_values(|k: RrsetKey| k@)
}

proof fn lemma_with_key(list: Seq<KeyV>, k: KeyV, i: int)
    requires
        0 <= i <= list.len(),
        forall|j: int| 0 <= j < i ==> !key_before(k, #[trigger] list[j]) && !key_same(list[j], k),
    ensures
        with_key(list, k) == list.take(i) + with_key(list.skip(i), k),
    decreases i,
{
    if i == 0 {
        assert(list.skip(0) =~= list);
        assert(list.take(0) + with_key(list, k) =~= with_key(list, k));
    } else {
        let rest = list.skip(1);
        assert forall|j: int| 0 <= j < i - 1 implies !key_before(k, #[trigger] rest[j])
            && !key_same(rest[j], k) by {
            assert(rest[j] == list[j + 1]);
        }
        lemma_with_key(rest, k, i - 1);
        assert(!key_before(k, list[0]) && !key_same(list[0], k));
        assert(rest.skip(i - 1) =~= list.skip(i));
        assert(seq![list[0]] + (rest.take(i - 1) + with_key(list.skip(i), k)) =~= list.take(i)
            + with_key(list.skip(i), k));
    }
}

fn add_key(list: &mut Vec<RrsetKey>, name: &DnsName, record_type: u16)
    ensures
        key_views(final(list)@) == with_key(key_views(old(list)@), (name@, record_type)),
{
    let ghost all = key_views(list@);
    let ghost k = (name@, record_type);
    let mut i: usize = 0;
    while i < list.len()
        invariant
            i <= list@.len(),
            all == key_views(list@),
            all == key_views(old(list)@),
            k == (name@, record_type),
            forall|j: int|
                0 <= j < i ==> !key_before(k, #[trigger] all[j]) && !key_same(all[j], k),
        decreases list@.len() - i,
    {
        let ghost rest = all.skip(i as int);
        assert(all[i as int] == list@[i as int]@);
        assert(rest[0] == all[i as int]);
        let same = names::same_name(&list[i].name, name);
        let same_back = names::same_name(name, &list[i].name);
        if names::precedes(name, &list[i].name) || (same_back && record_type < list[i].record_type) {
            proof {
                lemma_with_key(all, k, i as int);
            }
            let key = RrsetKey { name: names::copy_name(name), record_type };
            list.insert(i, key);
            assert(key_views(list@) =~= all.insert(i as int, key@));
            assert(all.insert(i as int, k) =~= all.take(i as int) + (seq![k] + rest));
            return;
        }
        if same && list[i].record_type == record_type {
            proof {
                lemma_with_key(all, k, i as int);
            }
            assert(all.take(i as int) + rest =~= all);
            return;
        }
        i = i + 1;
    }
    proof {
        lemma_with_key(all, k, i as int);
    }
    assert(all.skip(i as int).len() == 0);
    let key = RrsetKey { name: names::copy_name(name), record_type };
    list.push(key);
    assert(key_views(list@) =~= all.push(key@));
    assert(all.push(k) =~= all.take(i as int) + seq![k]);
}

/// The names and types of the answers that are no signatures, each once, in order.
pub fn collect_signed_rrsets(m: &DnsMessage) -> (r: Vec<RrsetKey>)
    ensures
        key_views(r@) == signed_rrsets(m@.answers),
{
    let ghost all = m@.answers;
    let mut out: Vec<RrsetKey> = Vec::new();
    let mut i: usize = 0;
    assert(key_views(out@) =~= signed_rrsets(all.take(0)));
    while i < m.answers.len()
        invariant
            i <= m.answers@.len(),
            all == records::views(m.answers@),
            key_views(out@) == signed_rrsets(all.take(i as int)),
        decreases m.answers@.len() - i,
    {
        assert(all[i as int] == m.answers@[i as int]@);
        assert(all.take(i + 1).drop_last() =~= all.take(i as int));
        if m.answers[i].record_type != TYPE_RRSIG {
            add_key(&mut out, &m.answers[i].name, m.answers[i].record_type);
        }
        i = i + 1;
    }
    assert(all.take(i as int) =~= all);
    out
}

fn add_rrset_records(
    list: &Vec<DnsRecord>,
    name: &DnsName,
    record_type: u16,
    out: &mut Vec<DnsRecord>,
)
    ensures
        records::views(final(out)@) == records::views(old(out)@) + records::views(list@).filter(
            |r: records::RecordV| belongs(r, name@, record_type),
        ),
{
    let ghost all = records::views(list@);
    let ghost start = records::views(out@);
    let ghost f = |r: records::RecordV| belongs(r, name@, record_type);
    let mut i: usize = 0;
    proof {
        reveal(Seq::filter);
        assert(all.take(0).filter(f) =~= Seq::empty());
        assert(start + Seq::empty() =~= start);
    }
    while i < list.len()
        invariant
            i <= list@.len(),
            all == records::views(list@),
            start == records::views(old(out)@),
            f == (|r: records::RecordV| belongs(r, name@, record_type)),
            records::views(out@) == start + all.take(i as int).filter(f),
        decreases list@.len() - i,
    {
        let ghost before = records::views(out@);
        assert(all[i as int] == list@[i as int]@);
        assert(all.take(i + 1).drop_last() =~= all.take(i as int));
        assert(all.take(i + 1).last() == all[i as int]);
        proof {
            reveal(Seq::filter);
        }
        if list[i].record_type == record_type && names::same_name(&list[i].name, name) {
            let record = records::copy_record(&list[i]);
            out.push(record);
            assert(records::views(out@) =~= before.push(record@));
            assert(all.take(i + 1).filter(f) == all.take(i as int).filter(f).push(all[i as int]));
            assert(before.push(all[i as int]) =~= start + all.take(i as int).filter(f).push(
                all[i as int],
            ));
        } else {
            assert(all.take(i + 1).filter(f) == all.take(i as int).filter(f));
        }
        i = i + 1;
    }
    assert(all.take(i as int) =~= all);
}

fn covers(r: &DnsRecord, covered: u16) -> (b: bool)
    ensures
        b == covers_type(r@, covered),
{
    match &r.data {
        RecordData::Rrsig(s) => s.type_covered == covered,
        _ => false,
    }
}

fn add_rrsig_records(list: &Vec<DnsRecord>, name: &DnsName, covered: u16, out: &mut Vec<DnsRecord>)
    ensures
        records::views(final(out)@) == records::views(old(out)@) + records::views(list@).filter(
            |r: records::RecordV| signs(r, name@, covered),
        ),
{
    let ghost all = records::views(list@);
    let ghost start = records::views(out@);
    let ghost f = |r: records::RecordV| signs(r, name@, covered);
    let mut i: usize = 0;
    proof {
        reveal(Seq::filter);
        assert(all.take(0).filter(f) =~= Seq::empty());
        assert(start + Seq::empty() =~= start);
    }
    while i < list.len()
        invariant
            i <= list@.len(),
            all == records::views(list@),
            start == records::views(old(out)@),
            f == (|r: records::RecordV| signs(r, name@, covered)),
            records::views(out@) == start + all.take(i as int).filter(f),
        decreases list@.len() - i,
    {
        let ghost before = records::views(out@);
        assert(all[i as int] == list@[i as int]@);
        assert(all.take(i + 1).drop_last() =~= all.take(i as int));
        assert(all.take(i + 1).last() == all[i as int]);
        proof {
            reveal(Seq::filter);
        }
        if list[i].record_type == TYPE_RRSIG && covers(&list[i], covered) && names::same_name(
            &list[i].name,
            name,
        ) {
            let record = records::copy_record(&list[i]);
            out.push(record);
            assert(records::views(out@) =~= before.push(record@));
            assert(all.take(i + 1).filter(f) == all.take(i as int).filter(f).push(all[i as int]));
            assert(before.push(all[i as int]) =~= start + all.take(i as int).filter(f).push(
                all[i as int],
            ));
        } else {
            assert(all.take(i + 1).filter(f) == all.take(i as int).filter(f));
        }
        i = i + 1;
    }
    assert(all.take(i as int) =~= all);
}

proof fn lemma_filter_three(m: records::MessageV, f: spec_fn(records::RecordV) -> bool)
    ensures
        all_records(m).filter(f) == Seq::<records::RecordV>::empty() + m.answers.filter(f)
            + m.name_servers.filter(f) + m.additionals.filter(f),
{
    Seq::filter_distributes_over_add(m.answers, m.name_servers, f);
    Seq::filter_distributes_over_add(m.answers + m.name_servers, m.additionals, f);
    assert(Seq::<records::RecordV>::empty() + m.answers.filter(f) =~= m.answers.filter(f));
}

/// The records of a message that a name has of a type.
pub fn collect_rrset_records(m: &DnsMessage, name: &DnsName, record_type: u16) -> (r: Vec<
    DnsRecord,
>)
    ensures
        records::views(r@) == rrset_records(m@, name@, record_type),
{
    let mut out: Vec<DnsRecord> = Vec::new();
    assert(records::views(out@) =~= Seq::empty());
    add_rrset_records(&m.answers, name, record_type, &mut out);
    add_rrset_records(&m.name_servers, name, record_type, &mut out);
    add_rrset_records(&m.additionals, name, record_type, &mut out);
    proof {
        lemma_filter_three(m@, |r: records::RecordV| belongs(r, name@, record_type));
    }
    out
}

/// The signatures of a message over the records that a name has of a type.
pub fn collect_rrsig_records(m: &DnsMessage, name: &DnsName, covered: u16) -> (r: Vec<DnsRecord>)
    ensures
        records::views(r@) == rrsig_records(m@, name@, covered),
{
    let mut out: Vec<DnsRecord> = Vec::new();
    assert(records::views(out@) =~= Seq::empty());
    add_rrsig_records(&m.answers, name, covered, &mut out);
    add_rrsig_records(&m.name_servers, name, covered, &mut out);
    add_rrsig_records(&m.additionals, name, covered, &mut out);
    proof {
        lemma_filter_three(m@, |r: records::RecordV| signs(r, name@, covered));
    }
    out
}

pub open spec fn name_views(list: Seq<DnsName>) -> Seq<names::NameV> {
    list.map_values(|n: DnsName| n@)
}

fn holds(list: &Vec<DnsName>, name: &DnsName) -> (r: bool)
    ensures
        r == holds_name(name_views(list@), name@),
{
    let ghost all = name_views(list@);
    let mut i: usize = 0;
    while i < list.len()
        invariant
            i <= list@.len(),
            all == name_views(list@),
            forall|k: int| 0 <= k < i ==> !names::is_same(#[trigger] all[k], name@),
        decreases list@.len() - i,
    {
        assert(all[i as int] == list@[i as int]@);
        if names::same_name(&list[i], name) {
            return true;
        }
        i = i + 1;
    }
    false
}

fn add_signers(list: &Vec<DnsRecord>, Ghost(done): Ghost<Seq<records::RecordV>>, out: &mut Vec<
    DnsName,
>)
    requires
        name_views(old(out)@) == signers(done),
    ensures
        name_views(final(out)@) == signers(done + records::views(list@)),
{
    let ghost all = records::views(list@);
    let mut i: usize = 0;
    assert(done + all.take(0) =~= done);
    while i < list.len()
        invariant
            i <= list@.len(),
            all == records::views(list@),
            name_views(out@) == signers(done + all.take(i as int)),
        decreases list@.len() - i,
    {
        let ghost next = done + all.take(i + 1);
        let ghost before = name_views(out@);
        assert(all[i as int] == list@[i as int]@);
        assert(next.drop_last() =~= done + all.take(i as int));
        assert(next.last() == all[i as int]);
        match &list[i].data {
            RecordData::Rrsig(s) => {
                if !holds(out, &s.signer_name) {
                    let name = names::copy_name(&s.signer_name);
                    out.push(name);
                    assert(name_views(out@) =~= before.push(name@));
                }
            },
            _ => {},
        }
        i = i + 1;
    }
    assert(all.take(i as int) =~= all);
}

/// The signers that the signatures of a message name.
pub fn find_zone_signers(m: &DnsMessage) -> (r: Vec<DnsName>)
    ensures
        name_views(r@) == signers(all_records(m@)),
{
    let mut out: Vec<DnsName> = Vec::new();
    assert(name_views(out@) =~= Seq::empty());
    add_signers(&m.answers, Ghost(Seq::empty()), &mut out);
    assert(Seq::<records::RecordV>::empty() + m@.answers =~= m@.answers);
    add_signers(&m.name_servers, Ghost(m@.answers), &mut out);
    add_signers(&m.additionals, Ghost(m@.answers + m@.name_servers), &mut out);
    out
}

fn supports(algorithm: u8) -> (r: bool)
    ensures
        r == is_supported(algorithm),
{
    algorithm == 5 || algorithm == 7 || algorithm == 8 || algorithm == 10 || algorithm == 13
        || algorithm == 14 || algorithm == 15
}

/// The tag of a key.
pub fn calculate_key_tag(k: &Dnskey) -> (r: Option<u16>)
    ensures
        r == tag(k@),
{
    if k.public_key.len() > 65531 {
        return None;
    }
    let ghost bytes = key_bytes(k@);
    let ghost head = seq![(k.flags / 256) as u8, (k.flags % 256) as u8, 3u8, k.algorithm];
    let mut sum: u32 = ((k.flags / 256) as u32) * 256 + (k.flags % 256) as u32 + 768
        + k.algorithm as u32;
    let mut i: usize = 0;
    proof {
        reveal_with_fuel(word_sum, 5);
        assert(head.drop_last() =~= seq![(k.flags / 256) as u8, (k.flags % 256) as u8, 3u8]);
        assert(head.drop_last().drop_last() =~= seq![
            (k.flags / 256) as u8,
            (k.flags % 256) as u8,
        ]);
        assert(head.drop_last().drop_last().drop_last() =~= seq![(k.flags / 256) as u8]);
        assert(head.drop_last().drop_last().drop_last().drop_last() =~= Seq::empty());
        assert(word_sum(head) == sum);
        assert(bytes.take(4) =~= head);
    }
    while i < k.public_key.len()
        invariant
            i <= k.public_key@.len(),
            k.public_key@.len() <= 65531,
            bytes == key_bytes(k@),
            sum == word_sum(bytes.take(4 + i)),
            sum <= 70000 + (i / 2) * 65535 + (i % 2) * 65280,
        decreases k.public_key@.len() - i,
    {
        let ghost next = bytes.take(4 + i + 1);
        assert(next.drop_last() =~= bytes.take(4 + i));
        assert(next.last() == k.public_key@[i as int]);
        assert(next.len() == 5 + i);
        let b = k.public_key[i] as u32;
        if i % 2 == 0 {
            sum = sum + b * 256;
        } else {
            sum = sum + b;
        }
        i = i + 1;
    }
    assert(bytes.take(4 + i) =~= bytes);
    Some(((sum + sum / 65536) % 65536) as u16)
}

/// Calls `verify_rrsig` of `hickory_proto::dnssec::Verifier` on a key, with the name, the class,
/// the signature and the records read back from their wire forms; a form that cannot be read
/// back verifies nothing. The result is a function of the arguments. A key of an algorithm that
/// is not supported must not reach the call.
#[verifier::external_body]
fn verify_signature(
    key: &Dnskey,
    name: &DnsName,
    dns_class: u16,
    rrsig: &Vec<u8>,
    set: &Vec<DnsRecord>,
) -> (r: bool)
    requires
        is_supported(key.algorithm),
    ensures
        r == signature_verifies(
            key@,
            name@,
            dns_class,
            rrsig@,
            wires(records::views(set@)),
        ),
{
    let set: Result<Vec<Record>, _> = set.iter().map(|r| Record::from_bytes(&r.wire)).collect();
    let name = Name::from_labels(name.labels.clone());
    let sig = Record::<RData>::from_bytes(rrsig);
    let key = DNSKEY::with_flags(
        key.flags,
        PublicKeyBuf::new(key.public_key.clone(), Algorithm::from_u8(key.algorithm)),
    );
    match (set, name, sig.as_ref().map(|s| s.data())) {
        (Ok(set), Ok(name), Ok(RData::DNSSEC(DNSSECRData::RRSIG(sig)))) => {
            key.verify_rrsig(&name, DNSClass::from(dns_class), sig, set.iter()).is_ok()
        },
        _ => false,
    }
}

fn try_key(
    name: &DnsName,
    set: &Vec<DnsRecord>,
    sig: &DnsRecord,
    key: &DnsRecord,
    now: u32,
) -> (r: Option<Result<(), DnssecError>>)
    requires
        set@.len() > 0,
    ensures
        (match r {
            Some(x) => Some(unit_result(x)),
            None => None,
        }) == attempt(name@, records::views(set@), sig@, key@, now),
{
    let s = match &sig.data {
        RecordData::Rrsig(s) => s,
        _ => return None,
    };
    let k = match &key.data {
        RecordData::Dnskey(k) => k,
        _ => return None,
    };
    if s.inception > now || s.expiration < now {
        return None;
    }
    match calculate_key_tag(k) {
        None => Some(Err(DnssecError::KeyTag)),
        Some(t) => {
            assert(records::views(set@)[0] == set@[0]@);
            if t == s.key_tag && k.algorithm == s.algorithm && names::same_name(
                &key.name,
                &s.signer_name,
            ) && supports(k.algorithm) && verify_signature(
                k,
                name,
                set[0].dns_class,
                &sig.wire,
                set,
            ) {
                Some(Ok(()))
            } else {
                None
            }
        },
    }
}

fn try_keys(
    name: &DnsName,
    set: &Vec<DnsRecord>,
    sig: &DnsRecord,
    keys: &Vec<DnsRecord>,
    now: u32,
) -> (r: Option<Result<(), DnssecError>>)
    requires
        set@.len() > 0,
    ensures
        (match r {
            Some(x) => Some(unit_result(x)),
            None => None,
        }) == attempt_keys(name@, records::views(set@), sig@, records::views(keys@), now),
{
    let ghost all = records::views(keys@);
    let mut i: usize = 0;
    assert(all.skip(0) =~= all);
    while i < keys.len()
        invariant
            i <= keys@.len(),
            set@.len() > 0,
            all == records::views(keys@),
            attempt_keys(name@, records::views(set@), sig@, all, now) == attempt_keys(
                name@,
                records::views(set@),
                sig@,
                all.skip(i as int),
                now,
            ),
        decreases keys@.len() - i,
    {
        assert(all.skip(i as int)[0] == keys@[i as int]@);
        assert(all.skip(i as int).skip(1) =~= all.skip(i + 1));
        if let Some(r) = try_key(name, set, sig, &keys[i], now) {
            return Some(r);
        }
        i = i + 1;
    }
    None
}

/// Verifies a set of records: one of the signatures that are valid at the time must verify with
/// one of the keys.
pub fn verify_rrset(
    name: &DnsName,
    set: &Vec<DnsRecord>,
    rrsig_records: &Vec<DnsRecord>,
    candidate_keys: &Vec<DnsRecord>,
    now: u32,
) -> (r: Result<(), DnssecError>)
    ensures
        unit_result(r) == verified(
            name@,
            records::views(set@),
            records::views(rrsig_records@),
            records::views(candidate_keys@),
            now,
        ),
{
    if set.len() == 0 {
        return Err(DnssecError::EmptyRrset(names::copy_name(name)));
    }
    let ghost all = records::views(rrsig_records@);
    let mut i: usize = 0;
    assert(all.skip(0) =~= all);
    assert(records::views(set@)[0] == set@[0]@);
    while i < rrsig_records.len()
        invariant
            i <= rrsig_records@.len(),
            set@.len() > 0,
            all == records::views(rrsig_records@),
            attempt_all(
                name@,
                records::views(set@),
                all,
                records::views(candidate_keys@),
                now,
            ) == attempt_all(
                name@,
                records::views(set@),
                all.skip(i as int),
                records::views(candidate_keys@),
                now,
            ),
        decreases rrsig_records@.len() - i,
    {
        assert(all.skip(i as int)[0] == rrsig_records@[i as int]@);
        assert(all.skip(i as int).skip(1) =~= all.skip(i + 1));
        if let Some(r) = try_keys(name, set, &rrsig_records[i], candidate_keys, now) {
            return r;
        }
        i = i + 1;
    }
    Err(DnssecError::NoValidSignature(names::copy_name(name), set[0].record_type))
}

} // verus!
