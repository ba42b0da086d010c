//! The verdict on a message.
use crate::dnssec::chain;
use crate::dnssec::chain::ValidatedKeys;
use crate::dnssec::names;
use crate::dnssec::names::DnsName;
use crate::dnssec::negative;
use crate::dnssec::negative::{Nsec3Proof, NsecProof, ValidationState};
use crate::dnssec::records;
use crate::dnssec::records::{
    DnsMessage, DnsRecord, DnssecError, RecordData, TYPE_NS, TYPE_NSEC, TYPE_NSEC3, TYPE_SOA,
};
use crate::dnssec::rrsets;
use vstd::prelude::*;

verus! {

/// Whether the records of a name and a type are there with signatures, and verify.
pub open spec fn set_is_proved(
    m: records::MessageV,
    name: names::NameV,
    record_type: u16,
    keys: Seq<records::RecordV>,
    now: u32,
) -> Result<bool, records::DnssecErrorV> {
    let set = rrsets::rrset_records(m, name, record_type);
    let sigs = rrsets::rrsig_records(m, name, record_type);
    if set.len() == 0 || sigs.len() == 0 {
        Ok(false)
    } else {
        match rrsets::verified(name, set, sigs, keys, now) {
            Ok(_) => Ok(true),
            Err(e) => Err(e),
        }
    }
}

/// The verified proofs among records of the authority section, in their order; the first that
/// does not verify is an error.
pub open spec fn nsec_proofs(
    m: records::MessageV,
    list: Seq<records::RecordV>,
    keys: Seq<records::RecordV>,
    now: u32,
) -> Result<Seq<negative::NsecProofV>, records::DnssecErrorV>
    decreases list.len(),
{
    if list.len() == 0 {
        Ok(Seq::empty())
    } else {
        match nsec_proofs(m, list.drop_last(), keys, now) {
            Err(e) => Err(e),
            Ok(found) => match list.last().data {
                records::DataV::Nsec(n) => match set_is_proved(
                    m,
                    list.last().name,
                    TYPE_NSEC,
                    keys,
                    now,
                ) {
                    Err(e) => Err(e),
                    Ok(true) => Ok(
                        found.push(
                            negative::NsecProofV {
                                owner: list.last().name,
                                next: n.next_domain_name,
                                types: n.types,
                            },
                        ),
                    ),
                    Ok(false) => Ok(found),
                },
                _ => Ok(found),
            },
        }
    }
}

/// The hash that the first label of the owner of a hashed proof stands for.
pub open spec fn owner_hash(owner: names::NameV) -> Result<Seq<u8>, records::DnssecErrorV> {
    if owner.len() == 0 {
        Err(records::DnssecErrorV::NoOwnerLabel)
    } else {
        match negative::base32_bytes(owner[0]) {
            Some(h) => Ok(h),
            None => Err(records::DnssecErrorV::OwnerHash(owner)),
        }
    }
}

/// The verified hashed proofs among records of the authority section, in their order; the first
/// that does not verify, or whose owner is no hash, is an error.
pub open spec fn nsec3_proofs(
    m: records::MessageV,
    list: Seq<records::RecordV>,
    keys: Seq<records::RecordV>,
    now: u32,
) -> Result<Seq<negative::Nsec3ProofV>, records::DnssecErrorV>
    decreases list.len(),
{
    if list.len() == 0 {
        Ok(Seq::empty())
    } else {
        match nsec3_proofs(m, list.drop_last(), keys, now) {
            Err(e) => Err(e),
            Ok(found) => match list.last().data {
                records::DataV::Nsec3(n) => match set_is_proved(
                    m,
                    list.last().name,
                    TYPE_NSEC3,
                    keys,
                    now,
                ) {
                    Err(e) => Err(e),
                    Ok(true) => match owner_hash(list.last().name) {
                        Err(e) => Err(e),
                        Ok(h) => Ok(
                            found.push(
                                negative::Nsec3ProofV {
                                    owner_hash: h,
                                    next_hash: n.next_hash,
                                    salt: n.salt,
                                    iterations: n.iterations,
                                    opt_out: n.opt_out,
                                    types: n.types,
                                },
                            ),
                        ),
                    },
                    Ok(false) => Ok(found),
                },
                _ => Ok(found),
            },
        }
    }
}

/// The owner of the first record that delegates.
pub open spec fn delegation(list: Seq<records::RecordV>) -> Option<names::NameV>
    decreases list.len(),
{
    if list.len() == 0 {
        None
    } else if list[0].record_type == TYPE_NS {
        Some(list[0].name)
    } else {
        delegation(list.skip(1))
    }
}

pub open spec fn has_soa(list: Seq<records::RecordV>) -> bool {
    exists|i: int| 0 <= i < list.len() && (#[trigger] list[i]).record_type == TYPE_SOA
}

/// The delegation that a message refers to, if it is a referral.
pub open spec fn referral(m: records::MessageV) -> Option<names::NameV> {
    if has_soa(m.name_servers) {
        None
    } else {
        delegation(m.name_servers)
    }
}

pub open spec fn secure_if(b: bool) -> Option<ValidationState> {
    if b {
        Some(ValidationState::Secure)
    } else {
        None
    }
}

/// What the proofs of a message say of the delegation that it refers to.
pub open spec fn referral_verdict(
    n: Result<Seq<negative::NsecProofV>, records::DnssecErrorV>,
    h: Result<Seq<negative::Nsec3ProofV>, records::DnssecErrorV>,
    cut: names::NameV,
) -> Result<Option<ValidationState>, records::DnssecErrorV> {
    match n {
        Err(e) => Err(e),
        Ok(n) => if negative::unsigned_cut(n, cut) {
            Ok(Some(ValidationState::Insecure))
        } else {
            match h {
                Err(e) => Err(e),
                Ok(h) => match negative::hashed_cut(h, cut) {
                    Err(e) => Err(e),
                    Ok(true) => Ok(Some(ValidationState::Insecure)),
                    Ok(false) => Ok(None),
                },
            }
        },
    }
}

/// What the proofs of a message say of a type that a name lacks.
pub open spec fn type_verdict(
    n: Result<Seq<negative::NsecProofV>, records::DnssecErrorV>,
    h: Result<Seq<negative::Nsec3ProofV>, records::DnssecErrorV>,
    qname: names::NameV,
    qtype: u16,
) -> Result<Option<ValidationState>, records::DnssecErrorV> {
    match n {
        Err(e) => Err(e),
        Ok(n) => if negative::denies_type(n, qname, qtype) {
            Ok(Some(ValidationState::Secure))
        } else {
            match h {
                Err(e) => Err(e),
                Ok(h) => negative::hashed_type_denial(h, qname, qtype),
            }
        },
    }
}

/// What the proofs of a message say of a name that does not exist.
pub open spec fn name_verdict(
    n: Result<Seq<negative::NsecProofV>, records::DnssecErrorV>,
    h: Result<Seq<negative::Nsec3ProofV>, records::DnssecErrorV>,
    qname: names::NameV,
) -> Result<Option<ValidationState>, records::DnssecErrorV> {
    match n {
        Err(e) => Err(e),
        Ok(n) => match negative::denies_name(n, qname) {
            Err(e) => Err(e),
            Ok(true) => Ok(Some(ValidationState::Secure)),
            Ok(false) => match h {
                Err(e) => Err(e),
                Ok(h) => match negative::hashed_name_denial(h, qname) {
                    Err(e) => Err(e),
                    Ok(b) => Ok(secure_if(b)),
                },
            },
        },
    }
}

/// What a message without answers proves.
pub open spec fn negative_verdict(
    m: records::MessageV,
    keys: Seq<records::RecordV>,
    now: u32,
) -> Result<Option<ValidationState>, records::DnssecErrorV> {
    let n = nsec_proofs(m, m.name_servers, keys, now);
    let h = nsec3_proofs(m, m.name_servers, keys, now);
    match m.query {
        None => Ok(None),
        Some((qname, qtype)) => if m.answers.len() > 0 {
            Ok(None)
        } else if m.response_code == 0 {
            match referral(m) {
                None => type_verdict(n, h, qname, qtype),
                Some(cut) => match referral_verdict(n, h, cut) {
                    Err(e) => Err(e),
                    Ok(Some(v)) => Ok(Some(v)),
                    Ok(None) => type_verdict(n, h, qname, qtype),
                },
            }
        } else if m.response_code == 3 {
            name_verdict(n, h, qname)
        } else {
            Ok(None)
        },
    }
}

/// Whether any of the sets has signatures; the first that has, and does not verify, is an error.
pub open spec fn sets_verified(
    m: records::MessageV,
    sets: Seq<rrsets::KeyV>,
    keys: Seq<records::RecordV>,
    now: u32,
) -> Result<bool, records::DnssecErrorV>
    decreases sets.len(),
{
    if sets.len() == 0 {
        Ok(false)
    } else {
        match sets_verified(m, sets.drop_last(), keys, now) {
            Err(e) => Err(e),
            Ok(seen) => {
                let k = sets.last();
                let sigs = rrsets::rrsig_records(m, k.0, k.1);
                if sigs.len() == 0 {
                    Ok(seen)
                } else {
                    match rrsets::verified(
                        k.0,
                        rrsets::rrset_records(m, k.0, k.1),
                        sigs,
                        keys,
                        now,
                    ) {
                        Ok(_) => Ok(true),
                        Err(e) => Err(e),
                    }
                }
            },
        }
    }
}

/// The verdict on a message: secure where its signed answers verify, otherwise what it proves
/// without them, and insecure where it holds nothing that belongs to a proof.
pub open spec fn verdict(
    m: records::MessageV,
    keys: Seq<records::RecordV>,
    now: u32,
) -> Result<ValidationState, records::DnssecErrorV> {
    match sets_verified(m, rrsets::signed_rrsets(m.answers), keys, now) {
        Err(e) => Err(e),
        Ok(true) => Ok(ValidationState::Secure),
        Ok(false) => match negative_verdict(m, keys, now) {
            Err(e) => Err(e),
            Ok(Some(v)) => Ok(v),
            Ok(None) => if rrsets::has_proof_record(rrsets::all_records(m)) {
                Err(records::DnssecErrorV::Unproved)
            } else {
                Ok(ValidationState::Insecure)
            },
        },
    }
}

fn verify_negative_rrset(
    m: &DnsMessage,
    name: &DnsName,
    record_type: u16,
    keys: &Vec<DnsRecord>,
    now: u32,
) -> (r: Result<bool, DnssecError>)
    ensures
        negative::bool_result(r) == set_is_proved(
            m@,
            name@,
            record_type,
            records::views(keys@),
            now,
        ),
{
    let set = rrsets::collect_rrset_records(m, name, record_type);
    let sigs = rrsets::collect_rrsig_records(m, name, record_type);
    assert(records::views(set@).len() == set@.len() && records::views(sigs@).len() == sigs@.len());
    if set.len() == 0 || sigs.len() == 0 {
        return Ok(false);
    }
    match rrsets::verify_rrset(name, &set, &sigs, keys, now) {
        Ok(_) => Ok(true),
        Err(e) => Err(e),
    }
}

proof fn lemma_nsec_error(
    m: records::MessageV,
    list: Seq<records::RecordV>,
    keys: Seq<records::RecordV>,
    now: u32,
    i: int,
)
    requires
        0 <= i <= list.len(),
        nsec_proofs(m, list.take(i), keys, now) is Err,
    ensures
        nsec_proofs(m, list, keys, now) == nsec_proofs(m, list.take(i), keys, now),
    decreases list.len() - i,
{
    if i < list.len() {
        assert(list.take(i + 1).drop_last() =~= list.take(i));
        lemma_nsec_error(m, list, keys, now, i + 1);
    } else {
        assert(list.take(i) =~= list);
    }
}

proof fn lemma_nsec3_error(
    m: records::MessageV,
    list: Seq<records::RecordV>,
    keys: Seq<records::RecordV>,
    now: u32,
    i: int,
)
    requires
        0 <= i <= list.len(),
        nsec3_proofs(m, list.take(i), keys, now) is Err,
    ensures
        nsec3_proofs(m, list, keys, now) == nsec3_proofs(m, list.take(i), keys, now),
    decreases list.len() - i,
{
    if i < list.len() {
        assert(list.take(i + 1).drop_last() =~= list.take(i));
        lemma_nsec3_error(m, list, keys, now, i + 1);
    } else {
        assert(list.take(i) =~= list);
    }
}

pub open spec fn nsec_result(r: Result<Vec<NsecProof>, DnssecError>) -> Result<
    Seq<negative::NsecProofV>,
    records::DnssecErrorV,
> {
    match r {
        Ok(list) => Ok(negative::nsec_views(list@)),
        Err(e) => Err(e@),
    }
}

pub open spec fn nsec3_result(r: Result<Vec<Nsec3Proof>, DnssecError>) -> Result<
    Seq<negative::Nsec3ProofV>,
    records::DnssecErrorV,
> {
    match r {
        Ok(list) => Ok(negative::nsec3_views(list@)),
        Err(e) => Err(e@),
    }
}

/// The verified proofs of the authority section.
pub fn verified_nsec_records(m: &DnsMessage, keys: &Vec<DnsRecord>, now: u32) -> (r: Result<
    Vec<NsecProof>,
    DnssecError,
>)
    ensures
        nsec_result(r) == nsec_proofs(m@, m@.name_servers, records::views(keys@), now),
{
    let ghost all = m@.name_servers;
    let ghost kv = records::views(keys@);
    let mut out: Vec<NsecProof> = Vec::new();
    let mut i: usize = 0;
    assert(all.take(0).len() == 0);
    assert(negative::nsec_views(out@) =~= Seq::empty());
    while i < m.name_servers.len()
        invariant
            i <= m.name_servers@.len(),
            all == records::views(m.name_servers@),
            all == m@.name_servers,
            kv == records::views(keys@),
            nsec_proofs(m@, all.take(i as int), kv, now) == Ok::<
                Seq<negative::NsecProofV>,
                records::DnssecErrorV,
            >(negative::nsec_views(out@)),
        decreases m.name_servers@.len() - i,
    {
        let ghost before = negative::nsec_views(out@);
        let record = &m.name_servers[i];
        assert(all[i as int] == record@);
        assert(all.take(i + 1).drop_last() =~= all.take(i as int));
        assert(all.take(i + 1).last() == all[i as int]);
        if let RecordData::Nsec(n) = &record.data {
            match verify_negative_rrset(m, &record.name, TYPE_NSEC, keys, now) {
                Err(e) => {
                    proof {
                        lemma_nsec_error(m@, all, kv, now, i + 1);
                    }
                    return Err(e);
                },
                Ok(b) => {
                    if b {
                        let p = NsecProof {
                            owner: names::copy_name(&record.name),
                            next: names::copy_name(&n.next_domain_name),
                            types: records::copy_types(&n.types),
                        };
                        out.push(p);
                        assert(negative::nsec_views(out@) =~= before.push(p@));
                    }
                },
            }
        }
        i = i + 1;
    }
    assert(all.take(i as int) =~= all);
    Ok(out)
}

/// The hash that the first label of an owner stands for.
pub fn nsec3_owner_hash(owner: &DnsName) -> (r: Result<Vec<u8>, DnssecError>)
    ensures
        (match r {
            Ok(h) => Ok(h@),
            Err(e) => Err(e@),
        }) == owner_hash(owner@),
{
    if owner.labels.len() == 0 {
        return Err(DnssecError::NoOwnerLabel);
    }
    assert(owner@[0] == owner.labels@[0]@);
    match negative::decode_base32(&owner.labels[0]) {
        Some(h) => Ok(h),
        None => Err(DnssecError::OwnerHash(names::copy_name(owner))),
    }
}

/// The verified hashed proofs of the authority section.
pub fn verified_nsec3_records(m: &DnsMessage, keys: &Vec<DnsRecord>, now: u32) -> (r: Result<
    Vec<Nsec3Proof>,
    DnssecError,
>)
    ensures
        nsec3_result(r) == nsec3_proofs(m@, m@.name_servers, records::views(keys@), now),
{
    let ghost all = m@.name_servers;
    let ghost kv = records::views(keys@);
    let mut out: Vec<Nsec3Proof> = Vec::new();
    let mut i: usize = 0;
    assert(all.take(0).len() == 0);
    assert(negative::nsec3_views(out@) =~= Seq::empty());
    while i < m.name_servers.len()
        invariant
            i <= m.name_servers@.len(),
            all == records::views(m.name_servers@),
            all == m@.name_servers,
            kv == records::views(keys@),
            nsec3_proofs(m@, all.take(i as int), kv, now) == Ok::<
                Seq<negative::Nsec3ProofV>,
                records::DnssecErrorV,
            >(negative::nsec3_views(out@)),
        decreases m.name_servers@.len() - i,
    {
        let ghost before = negative::nsec3_views(out@);
        let record = &m.name_servers[i];
        assert(all[i as int] == record@);
        assert(all.take(i + 1).drop_last() =~= all.take(i as int));
        assert(all.take(i + 1).last() == all[i as int]);
        if let RecordData::Nsec3(n) = &record.data {
            match verify_negative_rrset(m, &record.name, TYPE_NSEC3, keys, now) {
                Err(e) => {
                    proof {
                        lemma_nsec3_error(m@, all, kv, now, i + 1);
                    }
                    return Err(e);
                },
                Ok(b) => {
                    if b {
                        let hash = match nsec3_owner_hash(&record.name) {
                            Ok(h) => h,
                            Err(e) => {
                                proof {
                                    lemma_nsec3_error(m@, all, kv, now, i + 1);
                                }
                                return Err(e);
                            },
                        };
                        let p = Nsec3Proof {
                            owner_hash: hash,
                            next_hash: names::copy_bytes(&n.next_hash),
                            salt: names::copy_bytes(&n.salt),
                            iterations: n.iterations,
                            opt_out: n.opt_out,
                            types: records::copy_types(&n.types),
                        };
                        out.push(p);
                        assert(negative::nsec3_views(out@) =~= before.push(p@));
                    }
                },
            }
        }
        i = i + 1;
    }
    assert(all.take(i as int) =~= all);
    Ok(out)
}

fn any_soa(list: &Vec<DnsRecord>) -> (r: bool)
    ensures
        r == has_soa(records::views(list@)),
{
    let ghost all = records::views(list@);
    let mut i: usize = 0;
    while i < list.len()
        invariant
            i <= list@.len(),
            all == records::views(list@),
            forall|k: int| 0 <= k < i ==> (#[trigger] all[k]).record_type != TYPE_SOA,
        decreases list@.len() - i,
    {
        assert(all[i as int] == list@[i as int]@);
        if list[i].record_type == TYPE_SOA {
            return true;
        }
        i = i + 1;
    }
    false
}

fn first_delegation(list: &Vec<DnsRecord>) -> (r: Option<DnsName>)
    ensures
        names::optional_name(r) == delegation(records::views(list@)),
{
    let ghost all = records::views(list@);
    let mut i: usize = 0;
    assert(all.skip(0) =~= all);
    while i < list.len()
        invariant
            i <= list@.len(),
            all == records::views(list@),
            delegation(all) == delegation(all.skip(i as int)),
        decreases list@.len() - i,
    {
        assert(all.skip(i as int)[0] == list@[i as int]@);
        assert(all.skip(i as int).skip(1) =~= all.skip(i + 1));
        if list[i].record_type == TYPE_NS {
            return Some(names::copy_name(&list[i].name));
        }
        i = i + 1;
    }
    None
}

/// The delegation that a message refers to, if it is a referral.
pub fn authority_delegation_name(m: &DnsMessage) -> (r: Option<DnsName>)
    ensures
        names::optional_name(r) == referral(m@),
{
    if any_soa(&m.name_servers) {
        None
    } else {
        first_delegation(&m.name_servers)
    }
}

fn validate_referral(m: &DnsMessage, keys: &Vec<DnsRecord>, now: u32, cut: &DnsName) -> (r: Result<
    Option<ValidationState>,
    DnssecError,
>)
    ensures
        negative::verdict_result(r) == referral_verdict(
            nsec_proofs(m@, m@.name_servers, records::views(keys@), now),
            nsec3_proofs(m@, m@.name_servers, records::views(keys@), now),
            cut@,
        ),
{
    let n = match verified_nsec_records(m, keys, now) {
        Ok(n) => n,
        Err(e) => return Err(e),
    };
    if negative::validate_referral_nsec(&n, cut) {
        return Ok(Some(ValidationState::Insecure));
    }
    let h = match verified_nsec3_records(m, keys, now) {
        Ok(h) => h,
        Err(e) => return Err(e),
    };
    match negative::validate_referral_nsec3(&h, cut) {
        Err(e) => Err(e),
        Ok(b) => if b {
            Ok(Some(ValidationState::Insecure))
        } else {
            Ok(None)
        },
    }
}

fn validate_nodata(
    m: &DnsMessage,
    keys: &Vec<DnsRecord>,
    now: u32,
    qname: &DnsName,
    qtype: u16,
) -> (r: Result<Option<ValidationState>, DnssecError>)
    ensures
        negative::verdict_result(r) == type_verdict(
            nsec_proofs(m@, m@.name_servers, records::views(keys@), now),
            nsec3_proofs(m@, m@.name_servers, records::views(keys@), now),
            qname@,
            qtype,
        ),
{
    let n = match verified_nsec_records(m, keys, now) {
        Ok(n) => n,
        Err(e) => return Err(e),
    };
    if negative::validate_nodata_nsec(&n, qname, qtype) {
        return Ok(Some(ValidationState::Secure));
    }
    let h = match verified_nsec3_records(m, keys, now) {
        Ok(h) => h,
        Err(e) => return Err(e),
    };
    negative::validate_nodata_nsec3(&h, qname, qtype)
}

fn validate_nxdomain(m: &DnsMessage, keys: &Vec<DnsRecord>, now: u32, qname: &DnsName) -> (r:
    Result<Option<ValidationState>, DnssecError>)
    ensures
        negative::verdict_result(r) == name_verdict(
            nsec_proofs(m@, m@.name_servers, records::views(keys@), now),
            nsec3_proofs(m@, m@.name_servers, records::views(keys@), now),
            qname@,
        ),
{
    let n = match verified_nsec_records(m, keys, now) {
        Ok(n) => n,
        Err(e) => return Err(e),
    };
    match negative::validate_nxdomain_nsec(&n, qname) {
        Err(e) => return Err(e),
        Ok(b) => {
            if b {
                return Ok(Some(ValidationState::Secure));
            }
        },
    }
    let h = match verified_nsec3_records(m, keys, now) {
        Ok(h) => h,
        Err(e) => return Err(e),
    };
    match negative::validate_nxdomain_nsec3(&h, qname) {
        Err(e) => Err(e),
        Ok(b) => if b {
            Ok(Some(ValidationState::Secure))
        } else {
            Ok(None)
        },
    }
}

/// What a message without answers proves.
pub fn validate_negative_response(m: &DnsMessage, keys: &Vec<DnsRecord>, now: u32) -> (r: Result<
    Option<ValidationState>,
    DnssecError,
>)
    ensures
        negative::verdict_result(r) == negative_verdict(m@, records::views(keys@), now),
{
    let query = match &m.query {
        None => return Ok(None),
        Some(q) => q,
    };
    assert(m@.answers.len() == m.answers@.len());
    if m.answers.len() > 0 {
        return Ok(None);
    }
    if m.response_code == 0 {
        if let Some(cut) = authority_delegation_name(m) {
            match validate_referral(m, keys, now, &cut) {
                Err(e) => return Err(e),
                Ok(Some(v)) => return Ok(Some(v)),
                Ok(None) => {},
            }
        }
        validate_nodata(m, keys, now, &query.name, query.query_type)
    } else if m.response_code == 3 {
        validate_nxdomain(m, keys, now, &query.name)
    } else {
        Ok(None)
    }
}

proof fn lemma_sets_error(
    m: records::MessageV,
    sets: Seq<rrsets::KeyV>,
    keys: Seq<records::RecordV>,
    now: u32,
    i: int,
)
    requires
        0 <= i <= sets.len(),
        sets_verified(m, sets.take(i), keys, now) is Err,
    ensures
        sets_verified(m, sets, keys, now) == sets_verified(m, sets.take(i), keys, now),
    decreases sets.len() - i,
{
    if i < sets.len() {
        assert(sets.take(i + 1).drop_last() =~= sets.take(i));
        lemma_sets_error(m, sets, keys, now, i + 1);
    } else {
        assert(sets.take(i) =~= sets);
    }
}

fn verify_answers(m: &DnsMessage, keys: &Vec<DnsRecord>, now: u32) -> (r: Result<bool, DnssecError>)
    ensures
        negative::bool_result(r) == sets_verified(
            m@,
            rrsets::signed_rrsets(m@.answers),
            records::views(keys@),
            now,
        ),
{
    let sets = rrsets::collect_signed_rrsets(m);
    let ghost all = rrsets::key_views(sets@);
    let ghost kv = records::views(keys@);
    let mut seen = false;
    let mut i: usize = 0;
    assert(all.take(0).len() == 0);
    while i < sets.len()
        invariant
            i <= sets@.len(),
            all == rrsets::key_views(sets@),
            all == rrsets::signed_rrsets(m@.answers),
            kv == records::views(keys@),
            sets_verified(m@, all.take(i as int), kv, now) == Ok::<bool, records::DnssecErrorV>(
                seen,
            ),
        decreases sets@.len() - i,
    {
        let key = &sets[i];
        assert(all[i as int] == key@);
        assert(all.take(i + 1).drop_last() =~= all.take(i as int));
        assert(all.take(i + 1).last() == all[i as int]);
        let set = rrsets::collect_rrset_records(m, &key.name, key.record_type);
        let sigs = rrsets::collect_rrsig_records(m, &key.name, key.record_type);
        assert(records::views(sigs@).len() == sigs@.len());
        if sigs.len() > 0 {
            match rrsets::verify_rrset(&key.name, &set, &sigs, keys, now) {
                Err(e) => {
                    proof {
                        lemma_sets_error(m@, all, kv, now, i + 1);
                    }
                    return Err(e);
                },
                Ok(_) => {
                    seen = true;
                },
            }
        }
        i = i + 1;
    }
    assert(all.take(i as int) =~= all);
    Ok(seen)
}

/// The verdict on a message, with the verified keys of its zone, at a time.
pub fn verify_message_rrsets(m: &DnsMessage, trusted_zone_keys: &ValidatedKeys, now: u32) -> (r:
    Result<ValidationState, DnssecError>)
    ensures
        (match r {
            Ok(v) => Ok(v),
            Err(e) => Err(e@),
        }) == verdict(m@, trusted_zone_keys@.keys, now),
{
    match verify_answers(m, &trusted_zone_keys.keys, now) {
        Err(e) => return Err(e),
        Ok(seen) => {
            if seen {
                return Ok(ValidationState::Secure);
            }
        },
    }
    match validate_negative_response(m, &trusted_zone_keys.keys, now) {
        Err(e) => Err(e),
        Ok(Some(v)) => Ok(v),
        Ok(None) => if rrsets::response_contains_dnssec_material(m) {
            Err(DnssecError::Unproved)
        } else {
            Ok(ValidationState::Insecure)
        },
    }
}

/// In a message that is not refused, every set of the answers that has signatures verifies.
pub proof fn lemma_signed_sets_verify(
    m: records::MessageV,
    keys: Seq<records::RecordV>,
    now: u32,
    i: int,
)
    requires
        verdict(m, keys, now) is Ok,
        0 <= i < rrsets::signed_rrsets(m.answers).len(),
    ensures
        ({
            let k = rrsets::signed_rrsets(m.answers)[i];
            let sigs = rrsets::rrsig_records(m, k.0, k.1);
            sigs.len() > 0 ==> rrsets::verified(
                k.0,
                rrsets::rrset_records(m, k.0, k.1),
                sigs,
                keys,
                now,
            ) is Ok
        }),
{
    lemma_each_set_verifies(m, rrsets::signed_rrsets(m.answers), keys, now, i);
}

proof fn lemma_each_set_verifies(
    m: records::MessageV,
    sets: Seq<rrsets::KeyV>,
    keys: Seq<records::RecordV>,
    now: u32,
    i: int,
)
    requires
        sets_verified(m, sets, keys, now) is Ok,
        0 <= i < sets.len(),
    ensures
        ({
            let k = sets[i];
            let sigs = rrsets::rrsig_records(m, k.0, k.1);
            sigs.len() > 0 ==> rrsets::verified(
                k.0,
                rrsets::rrset_records(m, k.0, k.1),
                sigs,
                keys,
                now,
            ) is Ok
        }),
    decreases sets.len(),
{
    if i < sets.len() - 1 {
        lemma_each_set_verifies(m, sets.drop_last(), keys, now, i);
    }
}

/// A message that holds nothing that belongs to a proof is insecure.
pub proof fn lemma_unsigned_is_insecure(
    m: records::MessageV,
    keys: Seq<records::RecordV>,
    now: u32,
)
    requires
        !rrsets::has_proof_record(rrsets::all_records(m)),
    ensures
        verdict(m, keys, now) == Ok::<ValidationState, records::DnssecErrorV>(
            ValidationState::Insecure,
        ),
{
    let all = rrsets::all_records(m);
    assert forall|name: names::NameV, t: u16| #[trigger]
        rrsets::rrsig_records(m, name, t).len() == 0 by {
        let f = |r: records::RecordV| rrsets::signs(r, name, t);
        assert forall|i: int| 0 <= i < all.len() implies !f(#[trigger] all[i]) by {
            assert(!rrsets::is_proof_type(all[i].record_type));
        }
        lemma_none_filtered(all, f);
    }
    lemma_no_signatures(m, rrsets::signed_rrsets(m.answers), keys, now);
    lemma_no_proofs(m, m.name_servers, keys, now);
}

/// Where nothing is signed, there are no verified proofs.
proof fn lemma_no_proofs(
    m: records::MessageV,
    list: Seq<records::RecordV>,
    keys: Seq<records::RecordV>,
    now: u32,
)
    requires
        forall|name: names::NameV, t: u16| #[trigger] rrsets::rrsig_records(m, name, t).len() == 0,
    ensures
        nsec_proofs(m, list, keys, now) == Ok::<Seq<negative::NsecProofV>, records::DnssecErrorV>(
            Seq::empty(),
        ),
        nsec3_proofs(m, list, keys, now) == Ok::<Seq<negative::Nsec3ProofV>, records::DnssecErrorV>(
            Seq::empty(),
        ),
    decreases list.len(),
{
    if list.len() > 0 {
        lemma_no_proofs(m, list.drop_last(), keys, now);
        assert(rrsets::rrsig_records(m, list.last().name, TYPE_NSEC).len() == 0);
        assert(rrsets::rrsig_records(m, list.last().name, TYPE_NSEC3).len() == 0);
    }
}

proof fn lemma_none_filtered(
    list: Seq<records::RecordV>,
    f: spec_fn(records::RecordV) -> bool,
)
    requires
        forall|i: int| 0 <= i < list.len() ==> !f(#[trigger] list[i]),
    ensures
        list.filter(f).len() == 0,
    decreases list.len(),
{
    reveal(Seq::filter);
    if list.len() > 0 {
        assert forall|i: int| 0 <= i < list.drop_last().len() implies !f(
            #[trigger] list.drop_last()[i],
        ) by {
            assert(list.drop_last()[i] == list[i]);
        }
        lemma_none_filtered(list.drop_last(), f);
        assert(!f(list[list.len() - 1]));
    }
}

proof fn lemma_no_signatures(
    m: records::MessageV,
    sets: Seq<rrsets::KeyV>,
    keys: Seq<records::RecordV>,
    now: u32,
)
    requires
        forall|name: names::NameV, t: u16| #[trigger] rrsets::rrsig_records(m, name, t).len() == 0,
    ensures
        sets_verified(m, sets, keys, now) == Ok::<bool, records::DnssecErrorV>(false),
    decreases sets.len(),
{
    if sets.len() > 0 {
        lemma_no_signatures(m, sets.drop_last(), keys, now);
        assert(rrsets::rrsig_records(m, sets.last().0, sets.last().1).len() == 0);
    }
}

} // verus!
