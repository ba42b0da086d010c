//! Keys that are trusted because a parent zone or a trust anchor vouches for them.
use crate::dnssec::anchors;
use crate::dnssec::anchors::AnchorSet;
use crate::dnssec::names;
use crate::dnssec::names::DnsName;
use crate::dnssec::records;
use crate::dnssec::records::{DnsRecord, Dnskey, DnssecError, Ds, RecordData};
use crate::dnssec::roots;
use crate::dnssec::rrsets;
use hickory_proto::dnssec::rdata::{DNSKEY, DS};
use hickory_proto::dnssec::{Algorithm, DigestType, PublicKeyBuf};
use hickory_proto::rr::Name;
use vstd::prelude::*;

verus! {

/// The keys of a zone that have been verified.
#[derive(Debug)]
pub struct ValidatedKeys {
    pub zone: DnsName,
    pub keys: Vec<DnsRecord>,
}

pub ghost struct ValidatedKeysV {
    pub zone: Seq<Seq<u8>>,
    pub keys: Seq<records::RecordV>,
}

impl View for ValidatedKeys {
    type V = ValidatedKeysV;

    open spec fn view(&self) -> ValidatedKeysV {
        ValidatedKeysV { zone: self.zone@, keys: records::views(self.keys@) }
    }
}

/// What hickory-proto says of a digest and a key of a zone: whether the one covers the other, or
/// that it cannot tell.
pub uninterp spec fn digest_covers(
    zone: Seq<Seq<u8>>,
    ds: records::DsV,
    key: records::DnskeyV,
) -> Option<bool>;

/// Calls `hickory_proto::dnssec::rdata::DS::covers`; an error, and a zone that is no name, are
/// `None`. The result is a function of the arguments.
#[verifier::external_body]
fn covers_key(zone: &DnsName, ds: &Ds, key: &Dnskey) -> (r: Option<bool>)
    ensures
        r == digest_covers(zone@, ds@, key@),
{
    let zone = Name::from_labels(zone.labels.iter().map(|l| l.as_slice())).ok()?;
    let ds = DS::new(
        ds.key_tag,
        Algorithm::from_u8(ds.algorithm),
        DigestType::from(ds.digest_type),
        ds.digest.clone(),
    );
    let public_key = PublicKeyBuf::new(key.public_key.clone(), Algorithm::from_u8(key.algorithm));
    ds.covers(&zone, &DNSKEY::with_flags(key.flags, public_key)).ok()
}

/// Whether a digest matches a key, or why that cannot be told.
pub open spec fn ds_matches(
    zone: names::NameV,
    ds: records::DsV,
    key: records::DnskeyV,
) -> Result<bool, records::DnssecErrorV> {
    match rrsets::tag(key) {
        None => Err(records::DnssecErrorV::KeyTag),
        Some(t) => if t == ds.key_tag && key.algorithm == ds.algorithm {
            match digest_covers(zone, ds, key) {
                Some(b) => Ok(b),
                None => Err(records::DnssecErrorV::Digest),
            }
        } else {
            Ok(false)
        },
    }
}

/// Whether a digest matches one of the keys; the first key that matches ends the search.
pub open spec fn ds_matches_any(
    zone: names::NameV,
    ds: records::RecordV,
    keys: Seq<records::RecordV>,
) -> Result<bool, records::DnssecErrorV>
    decreases keys.len(),
{
    if keys.len() == 0 {
        Ok(false)
    } else {
        match (ds.data, keys[0].data) {
            (records::DataV::Ds(d), records::DataV::Dnskey(k)) => match ds_matches(zone, d, k) {
                Err(e) => Err(e),
                Ok(true) => Ok(true),
                Ok(false) => ds_matches_any(zone, ds, keys.skip(1)),
            },
            _ => ds_matches_any(zone, ds, keys.skip(1)),
        }
    }
}

/// Whether one of the digests matches one of the keys; every digest is looked at.
pub open spec fn any_ds_matches(
    zone: names::NameV,
    list: Seq<records::RecordV>,
    keys: Seq<records::RecordV>,
) -> Result<bool, records::DnssecErrorV>
    decreases list.len(),
{
    if list.len() == 0 {
        Ok(false)
    } else {
        match any_ds_matches(zone, list.drop_last(), keys) {
            Err(e) => Err(e),
            Ok(b) => match ds_matches_any(zone, list.last(), keys) {
                Err(e) => Err(e),
                Ok(c) => Ok(b || c),
            },
        }
    }
}

/// Whether a parent zone vouches for the keys of a zone.
pub open spec fn vouched(
    zone: names::NameV,
    keys: Seq<records::RecordV>,
    list: Seq<records::RecordV>,
) -> Result<(), records::DnssecErrorV> {
    match any_ds_matches(zone, list, keys) {
        Err(e) => Err(e),
        Ok(true) => Ok(()),
        Ok(false) => Err(records::DnssecErrorV::NoMatchingDs(zone)),
    }
}

fn matches_any(zone: &DnsName, ds_record: &DnsRecord, keys: &Vec<DnsRecord>) -> (r: Result<
    bool,
    DnssecError,
>)
    ensures
        (match r {
            Ok(b) => Ok(b),
            Err(e) => Err(e@),
        }) == ds_matches_any(zone@, ds_record@, records::views(keys@)),
{
    let ghost all = records::views(keys@);
    let mut i: usize = 0;
    assert(all.skip(0) =~= all);
    while i < keys.len()
        invariant
            i <= keys@.len(),
            all == records::views(keys@),
            ds_matches_any(zone@, ds_record@, all) == ds_matches_any(
                zone@,
                ds_record@,
                all.skip(i as int),
            ),
        decreases keys@.len() - i,
    {
        assert(all.skip(i as int)[0] == keys@[i as int]@);
        assert(all.skip(i as int).skip(1) =~= all.skip(i + 1));
        if let RecordData::Ds(d) = &ds_record.data {
            if let RecordData::Dnskey(k) = &keys[i].data {
                match rrsets::calculate_key_tag(k) {
                    None => return Err(DnssecError::KeyTag),
                    Some(t) => {
                        if t == d.key_tag && k.algorithm == d.algorithm {
                            match covers_key(zone, d, k) {
                                None => return Err(DnssecError::Digest),
                                Some(b) => {
                                    if b {
                                        return Ok(true);
                                    }
                                },
                            }
                        }
                    },
                }
            }
        }
        i = i + 1;
    }
    Ok(false)
}

proof fn lemma_ds_error(
    zone: names::NameV,
    list: Seq<records::RecordV>,
    keys: Seq<records::RecordV>,
    i: int,
)
    requires
        0 <= i <= list.len(),
        any_ds_matches(zone, list.take(i), keys) is Err,
    ensures
        any_ds_matches(zone, list, keys) == any_ds_matches(zone, list.take(i), keys),
    decreases list.len() - i,
{
    if i < list.len() {
        assert(list.take(i + 1).drop_last() =~= list.take(i));
        lemma_ds_error(zone, list, keys, i + 1);
    } else {
        assert(list.take(i) =~= list);
    }
}

/// Whether a parent zone vouches for the keys of a zone by one of its digests.
pub fn verify_dnskey_with_ds(
    zone: &DnsName,
    dnskey_records: &Vec<DnsRecord>,
    ds_records: &Vec<DnsRecord>,
) -> (r: Result<(), DnssecError>)
    ensures
        rrsets::unit_result(r) == vouched(
            zone@,
            records::views(dnskey_records@),
            records::views(ds_records@),
        ),
{
    let ghost all = records::views(ds_records@);
    let ghost keys = records::views(dnskey_records@);
    let mut matched = false;
    let mut i: usize = 0;
    assert(all.take(0).len() == 0);
    while i < ds_records.len()
        invariant
            i <= ds_records@.len(),
            all == records::views(ds_records@),
            keys == records::views(dnskey_records@),
            any_ds_matches(zone@, all.take(i as int), keys) == Ok::<bool, records::DnssecErrorV>(
                matched,
            ),
        decreases ds_records@.len() - i,
    {
        assert(all[i as int] == ds_records@[i as int]@);
        assert(all.take(i + 1).drop_last() =~= all.take(i as int));
        assert(all.take(i + 1).last() == all[i as int]);
        match matches_any(zone, &ds_records[i], dnskey_records) {
            Err(e) => {
                proof {
                    lemma_ds_error(zone@, all, keys, i + 1);
                }
                return Err(e);
            },
            Ok(b) => {
                matched = matched || b;
            },
        }
        i = i + 1;
    }
    assert(all.take(i as int) =~= all);
    if matched {
        Ok(())
    } else {
        Err(DnssecError::NoMatchingDs(names::copy_name(zone)))
    }
}

/// The keys of the root zone, once one of them is trusted and they verify by their own
/// signatures.
pub open spec fn anchored_keys(
    zone: names::NameV,
    keys: Seq<records::RecordV>,
    sigs: Seq<records::RecordV>,
    trusted: Seq<anchors::AnchorV>,
    now: u32,
) -> Result<ValidatedKeysV, records::DnssecErrorV> {
    if !anchors::matches_anchors(keys, trusted) {
        Err(records::DnssecErrorV::NotAnchored)
    } else {
        match rrsets::verified(zone, keys, sigs, keys, now) {
            Ok(_) => Ok(ValidatedKeysV { zone, keys }),
            Err(e) => Err(e),
        }
    }
}

pub open spec fn keys_result(r: Result<ValidatedKeys, DnssecError>) -> Result<
    ValidatedKeysV,
    records::DnssecErrorV,
> {
    match r {
        Ok(k) => Ok(k@),
        Err(e) => Err(e@),
    }
}

/// Verifies the keys of the root zone against trust anchors.
pub fn verify_root_dnskeys_with_anchors(
    zone: &DnsName,
    dnskey_records: &Vec<DnsRecord>,
    rrsig_records: &Vec<DnsRecord>,
    trust_anchors: &AnchorSet,
    now: u32,
) -> (r: Result<ValidatedKeys, DnssecError>)
    ensures
        keys_result(r) == anchored_keys(
            zone@,
            records::views(dnskey_records@),
            records::views(rrsig_records@),
            trust_anchors@,
            now,
        ),
{
    if !anchors::dnskey_rrset_matches_trust_anchors(dnskey_records, trust_anchors) {
        return Err(DnssecError::NotAnchored);
    }
    match rrsets::verify_rrset(zone, dnskey_records, rrsig_records, dnskey_records, now) {
        Ok(_) => Ok(
            ValidatedKeys {
                zone: names::copy_name(zone),
                keys: records::copy_records(dnskey_records),
            },
        ),
        Err(e) => Err(e),
    }
}

/// Verifies the keys of the root zone against the built-in trust anchors.
pub fn verify_root_dnskeys(
    zone: &DnsName,
    dnskey_records: &Vec<DnsRecord>,
    rrsig_records: &Vec<DnsRecord>,
    now: u32,
) -> (r: Result<ValidatedKeys, DnssecError>)
    ensures
        keys_result(r) == anchored_keys(
            zone@,
            records::views(dnskey_records@),
            records::views(rrsig_records@),
            roots::root_keys(),
            now,
        ),
{
    let trust_anchors = anchors::root_trust_anchors();
    verify_root_dnskeys_with_anchors(zone, dnskey_records, rrsig_records, &trust_anchors, now)
}

} // verus!
