//! Proofs that a name or a type does not exist.
use crate::dnssec::names;
use crate::dnssec::names::DnsName;
use crate::dnssec::records;
use crate::dnssec::records::{DnssecError, TYPE_CNAME, TYPE_DS, TYPE_NS, TYPE_SOA};
use data_encoding::BASE32_DNSSEC;
use hickory_proto::dnssec::Nsec3HashAlgorithm;
use hickory_proto::rr::Name;
use vstd::prelude::*;

verus! {

/// The verdict on a message.
#[derive(Debug, Clone, Copy, PartialEq, Eq, Structural)]
pub enum ValidationState {
    Secure,
    Insecure,
}

/// A verified record that names the next owner of a zone.
#[derive(Debug)]
pub struct NsecProof {
    pub owner: DnsName,
    pub next: DnsName,
    pub types: Vec<u16>,
}

pub ghost struct NsecProofV {
    pub owner: Seq<Seq<u8>>,
    pub next: Seq<Seq<u8>>,
    pub types: Seq<u16>,
}

impl View for NsecProof {
    type V = NsecProofV;

    open spec fn view(&self) -> NsecProofV {
        NsecProofV { owner: self.owner@, next: self.next@, types: self.types@ }
    }
}

/// A verified record that names the hash of the next owner of a zone.
#[derive(Debug)]
pub struct Nsec3Proof {
    pub owner_hash: Vec<u8>,
    pub next_hash: Vec<u8>,
    pub salt: Vec<u8>,
    pub iterations: u16,
    pub opt_out: bool,
    pub types: Vec<u16>,
}

pub ghost struct Nsec3ProofV {
    pub owner_hash: Seq<u8>,
    pub next_hash: Seq<u8>,
    pub salt: Seq<u8>,
    pub iterations: u16,
    pub opt_out: bool,
    pub types: Seq<u16>,
}

impl View for Nsec3Proof {
    type V = Nsec3ProofV;

    open spec fn view(&self) -> Nsec3ProofV {
        Nsec3ProofV {
            owner_hash: self.owner_hash@,
            next_hash: self.next_hash@,
            salt: self.salt@,
            iterations: self.iterations,
            opt_out: self.opt_out,
            types: self.types@,
        }
    }
}

pub open spec fn nsec_views(list: Seq<NsecProof>) -> Seq<NsecProofV> {
    list.map_values(|p: NsecProof| p@)
}

pub open spec fn nsec3_views(list: Seq<Nsec3Proof>) -> Seq<Nsec3ProofV> {
    list.map_values(|p: Nsec3Proof| p@)
}

/// The hash that hickory-proto computes of a name; an error carries its words.
pub uninterp spec fn nsec3_hash(
    name: Seq<Seq<u8>>,
    salt: Seq<u8>,
    iterations: u16,
) -> Result<Seq<u8>, Seq<char>>;

/// The bytes that data-encoding decodes from a label in the Base32 of DNSSEC.
pub uninterp spec fn base32_bytes(label: Seq<u8>) -> Option<Seq<u8>>;

/// Calls `hash` of `hickory_proto::dnssec::Nsec3HashAlgorithm`, on the only algorithm that it
/// has. The result is a function of the name, the salt and the number of iterations.
#[verifier::external_body]
fn hash_name(name: &DnsName, salt: &Vec<u8>, iterations: u16) -> (r: Result<Vec<u8>, String>)
    ensures
        (match r {
            Ok(h) => Ok(h@),
            Err(s) => Err(s@),
        }) == nsec3_hash(name@, salt@, iterations),
{
    let name = Name::from_labels(name.labels.iter().map(|l| l.as_slice())).map_err(|e| e.to_string())?;
    let digest = Nsec3HashAlgorithm::SHA1.hash(salt, &name, iterations).map_err(|e| e.to_string())?;
    Ok(digest.as_ref().to_vec())
}

/// Calls `decode` of `data_encoding::BASE32_DNSSEC`. The result is a function of the label.
#[verifier::external_body]
pub(crate) fn decode_base32(label: &Vec<u8>) -> (r: Option<Vec<u8>>)
    ensures
        (match r {
            Some(b) => Some(b@),
            None => None,
        }) == base32_bytes(label@),
{
    BASE32_DNSSEC.decode(label).ok()
}

/// Whether the owner has neither the type nor an alias.
pub open spec fn lacks(types: Seq<u16>, qtype: u16) -> bool {
    !types.contains(qtype) && !types.contains(TYPE_CNAME)
}

/// Whether the owner is a delegation without a digest, and not the top of a zone.
pub open spec fn is_unsigned_cut(types: Seq<u16>) -> bool {
    types.contains(TYPE_NS) && !types.contains(TYPE_DS) && !types.contains(TYPE_SOA)
}

/// Whether a name lies between an owner and the next; the last owner of a zone names the first.
pub open spec fn nsec_covers(
    owner: names::NameV,
    next: names::NameV,
    target: names::NameV,
) -> bool {
    names::is_before(owner, target) && (if names::is_before(owner, next) {
        names::is_before(target, next)
    } else {
        names::is_before(next, owner)
    })
}

/// Whether a hash lies between an owner's and the next; the last names the first.
pub open spec fn hash_covers(owner: Seq<u8>, next: Seq<u8>, target: Seq<u8>) -> bool {
    if names::bytes_before(owner, next) {
        names::bytes_before(owner, target) && names::bytes_before(target, next)
    } else {
        names::bytes_before(next, owner) && (names::bytes_before(owner, target)
            || names::bytes_before(target, next))
    }
}

/// No proof covers its owner or the next name.
pub proof fn lemma_ends_not_covered(owner: names::NameV, next: names::NameV)
    ensures
        !nsec_covers(owner, next, owner),
        names::is_before(owner, next) ==> !nsec_covers(owner, next, next),
{
    names::lemma_name_order(owner, owner);
    names::lemma_name_order(next, next);
}

/// No proof covers the hash of its owner or the next hash.
pub proof fn lemma_hash_ends_not_covered(owner: Seq<u8>, next: Seq<u8>)
    ensures
        !hash_covers(owner, next, owner),
        !hash_covers(owner, next, next),
{
    names::lemma_bytes_order(owner, owner);
    names::lemma_bytes_order(next, next);
    names::lemma_bytes_order(owner, next);
}

pub open spec fn covered(proofs: Seq<NsecProofV>, target: names::NameV) -> bool {
    exists|i: int|
        0 <= i < proofs.len() && nsec_covers(
            (#[trigger] proofs[i]).owner,
            proofs[i].next,
            target,
        )
}

pub open spec fn owned(proofs: Seq<NsecProofV>, name: names::NameV) -> bool {
    exists|i: int| 0 <= i < proofs.len() && names::is_same((#[trigger] proofs[i]).owner, name)
}

/// Whether a proof is for the name itself, and the name lacks the type.
pub open spec fn denies_at(p: NsecProofV, qname: names::NameV, qtype: u16) -> bool {
    names::is_same(p.owner, qname) && lacks(p.types, qtype)
}

/// Whether a proof is for a wildcard that lacks the type, while the name next to what stands
/// behind the asterisk does not exist.
pub open spec fn denies_wildcard(
    p: NsecProofV,
    proofs: Seq<NsecProofV>,
    qname: names::NameV,
    qtype: u16,
) -> bool {
    match names::behind_asterisk(p.owner) {
        Some(encloser) => lacks(p.types, qtype) && covered(
            proofs,
            names::next_closer(qname, encloser),
        ),
        None => false,
    }
}

/// Whether the proofs show that a name lacks a type.
pub open spec fn denies_type(proofs: Seq<NsecProofV>, qname: names::NameV, qtype: u16) -> bool {
    (exists|i: int| 0 <= i < proofs.len() && denies_at(#[trigger] proofs[i], qname, qtype)) || (
    exists|i: int|
        0 <= i < proofs.len() && denies_wildcard(#[trigger] proofs[i], proofs, qname, qtype))
}

/// The longest of the last `count` labels of a name, or fewer, that owns a proof.
pub open spec fn closest_owner(proofs: Seq<NsecProofV>, qname: names::NameV, count: nat) -> Option<
    names::NameV,
>
    decreases count,
{
    if owned(proofs, names::trimmed(qname, count)) {
        Some(names::trimmed(qname, count))
    } else if count == 0 {
        None
    } else {
        closest_owner(proofs, qname, (count - 1) as nat)
    }
}

/// Whether the proofs show that a name does not exist, nor a wildcard that would stand for it.
pub open spec fn denies_name(proofs: Seq<NsecProofV>, qname: names::NameV) -> Result<
    bool,
    records::DnssecErrorV,
> {
    if !covered(proofs, qname) {
        Ok(false)
    } else {
        match closest_owner(proofs, qname, names::label_count(qname)) {
            None => Ok(false),
            Some(encloser) => match names::wildcard(encloser) {
                None => Err(records::DnssecErrorV::NoWildcard(encloser)),
                Some(w) => Ok(covered(proofs, w)),
            },
        }
    }
}

pub open spec fn cuts_at(p: NsecProofV, name: names::NameV) -> bool {
    names::is_same(p.owner, name) && is_unsigned_cut(p.types)
}

/// Whether the proofs show that a delegation has no digest.
pub open spec fn unsigned_cut(proofs: Seq<NsecProofV>, name: names::NameV) -> bool {
    exists|i: int| 0 <= i < proofs.len() && cuts_at(#[trigger] proofs[i], name)
}

/// The hash of a name, with the salt and the iterations of the first proof.
pub open spec fn hash_with(proofs: Seq<Nsec3ProofV>, name: names::NameV) -> Result<
    Seq<u8>,
    records::DnssecErrorV,
> {
    match nsec3_hash(name, proofs[0].salt, proofs[0].iterations) {
        Ok(h) => Ok(h),
        Err(s) => Err(records::DnssecErrorV::NameHash(s)),
    }
}

pub open spec fn owns_hash(proofs: Seq<Nsec3ProofV>, hash: Seq<u8>) -> bool {
    exists|i: int| 0 <= i < proofs.len() && (#[trigger] proofs[i]).owner_hash == hash
}

pub open spec fn hash_denied(proofs: Seq<Nsec3ProofV>, hash: Seq<u8>, qtype: u16) -> bool {
    exists|i: int|
        0 <= i < proofs.len() && (#[trigger] proofs[i]).owner_hash == hash && lacks(
            proofs[i].types,
            qtype,
        )
}

pub open spec fn hash_cut(proofs: Seq<Nsec3ProofV>, hash: Seq<u8>) -> bool {
    exists|i: int|
        0 <= i < proofs.len() && (#[trigger] proofs[i]).owner_hash == hash && is_unsigned_cut(
            proofs[i].types,
        )
}

/// The first proof that covers a hash: whether it leaves out unsigned delegations.
pub open spec fn first_cover(proofs: Seq<Nsec3ProofV>, hash: Seq<u8>) -> Option<bool>
    decreases proofs.len(),
{
    if proofs.len() == 0 {
        None
    } else if hash_covers(proofs[0].owner_hash, proofs[0].next_hash, hash) {
        Some(proofs[0].opt_out)
    } else {
        first_cover(proofs.skip(1), hash)
    }
}

/// Whether the last `count` labels of a name are a closest encloser: that it exists, and what
/// covers the name next to it.
pub open spec fn encloser_at(proofs: Seq<Nsec3ProofV>, qname: names::NameV, count: nat) -> Result<
    Option<bool>,
    records::DnssecErrorV,
> {
    let candidate = names::trimmed(qname, count);
    match hash_with(proofs, candidate) {
        Err(e) => Err(e),
        Ok(h) => if !owns_hash(proofs, h) || names::is_same(
            names::next_closer(qname, candidate),
            candidate,
        ) {
            Ok(None)
        } else {
            match hash_with(proofs, names::next_closer(qname, candidate)) {
                Err(e) => Err(e),
                Ok(next) => Ok(first_cover(proofs, next)),
            }
        },
    }
}

/// The closest encloser of a name among its last `count` labels, or fewer, and whether the proof
/// of it leaves out unsigned delegations.
pub open spec fn closest_encloser(
    proofs: Seq<Nsec3ProofV>,
    qname: names::NameV,
    count: nat,
) -> Result<Option<(names::NameV, bool)>, records::DnssecErrorV>
    decreases count,
{
    match encloser_at(proofs, qname, count) {
        Err(e) => Err(e),
        Ok(Some(opt_out)) => Ok(Some((names::trimmed(qname, count), opt_out))),
        Ok(None) => if count == 0 {
            Ok(None)
        } else {
            closest_encloser(proofs, qname, (count - 1) as nat)
        },
    }
}

pub open spec fn wildcard_hash(proofs: Seq<Nsec3ProofV>, encloser: names::NameV) -> Result<
    Seq<u8>,
    records::DnssecErrorV,
> {
    match names::wildcard(encloser) {
        None => Err(records::DnssecErrorV::NoWildcard(encloser)),
        Some(w) => hash_with(proofs, w),
    }
}

/// What the hashed proofs show of a name that should lack a type.
pub open spec fn hashed_type_denial(
    proofs: Seq<Nsec3ProofV>,
    qname: names::NameV,
    qtype: u16,
) -> Result<Option<ValidationState>, records::DnssecErrorV> {
    if proofs.len() == 0 {
        Ok(None)
    } else {
        match hash_with(proofs, qname) {
            Err(e) => Err(e),
            Ok(h) => if hash_denied(proofs, h, qtype) {
                Ok(Some(ValidationState::Secure))
            } else {
                match closest_encloser(proofs, qname, names::label_count(qname)) {
                    Err(e) => Err(e),
                    Ok(None) => Ok(None),
                    Ok(Some((encloser, opt_out))) => if qtype == TYPE_DS && opt_out {
                        Ok(Some(ValidationState::Insecure))
                    } else {
                        match wildcard_hash(proofs, encloser) {
                            Err(e) => Err(e),
                            Ok(w) => if hash_denied(proofs, w, qtype) {
                                Ok(Some(ValidationState::Secure))
                            } else {
                                Ok(None)
                            },
                        }
                    },
                }
            },
        }
    }
}

/// Whether the hashed proofs show that a name does not exist, nor a wildcard for it.
pub open spec fn hashed_name_denial(proofs: Seq<Nsec3ProofV>, qname: names::NameV) -> Result<
    bool,
    records::DnssecErrorV,
> {
    if proofs.len() == 0 {
        Ok(false)
    } else {
        match closest_encloser(proofs, qname, names::label_count(qname)) {
            Err(e) => Err(e),
            Ok(None) => Ok(false),
            Ok(Some((encloser, _))) => match wildcard_hash(proofs, encloser) {
                Err(e) => Err(e),
                Ok(w) => Ok(first_cover(proofs, w) is Some),
            },
        }
    }
}

/// Whether the hashed proofs show that a delegation has no digest.
pub open spec fn hashed_cut(proofs: Seq<Nsec3ProofV>, name: names::NameV) -> Result<
    bool,
    records::DnssecErrorV,
> {
    if proofs.len() == 0 {
        Ok(false)
    } else {
        match hash_with(proofs, name) {
            Err(e) => Err(e),
            Ok(h) => if hash_cut(proofs, h) {
                Ok(true)
            } else {
                match closest_encloser(proofs, name, names::label_count(name)) {
                    Err(e) => Err(e),
                    Ok(found) => Ok(found matches Some(x) && x.1),
                }
            },
        }
    }
}

fn has_type(types: &Vec<u16>, expected: u16) -> (r: bool)
    ensures
        r == types@.contains(expected),
{
    let mut i: usize = 0;
    while i < types.len()
        invariant
            i <= types@.len(),
            forall|k: int| 0 <= k < i ==> types@[k] != expected,
        decreases types@.len() - i,
    {
        if types[i] == expected {
            return true;
        }
        i = i + 1;
    }
    false
}

fn type_is_lacking(types: &Vec<u16>, qtype: u16) -> (r: bool)
    ensures
        r == lacks(types@, qtype),
{
    !has_type(types, qtype) && !has_type(types, TYPE_CNAME)
}

fn unsigned_cut_types(types: &Vec<u16>) -> (r: bool)
    ensures
        r == is_unsigned_cut(types@),
{
    has_type(types, TYPE_NS) && !has_type(types, TYPE_DS) && !has_type(types, TYPE_SOA)
}

/// Whether a name lies between an owner and the next.
pub fn nsec_covers_name(owner: &DnsName, next: &DnsName, target: &DnsName) -> (r: bool)
    ensures
        r == nsec_covers(owner@, next@, target@),
{
    if !names::precedes(owner, target) {
        return false;
    }
    if names::precedes(owner, next) {
        names::precedes(target, next)
    } else {
        names::precedes(next, owner)
    }
}

/// Whether a hash lies between an owner's and the next.
pub fn nsec3_covers_hash(owner_hash: &Vec<u8>, next_hash: &Vec<u8>, target_hash: &Vec<u8>) -> (r:
    bool)
    ensures
        r == hash_covers(owner_hash@, next_hash@, target_hash@),
{
    if names::bytes_precede(owner_hash, next_hash) {
        names::bytes_precede(owner_hash, target_hash) && names::bytes_precede(
            target_hash,
            next_hash,
        )
    } else {
        names::bytes_precede(next_hash, owner_hash) && (names::bytes_precede(
            owner_hash,
            target_hash,
        ) || names::bytes_precede(target_hash, next_hash))
    }
}

fn proofs_cover(proofs: &Vec<NsecProof>, target: &DnsName) -> (r: bool)
    ensures
        r == covered(nsec_views(proofs@), target@),
{
    let ghost all = nsec_views(proofs@);
    let mut i: usize = 0;
    while i < proofs.len()
        invariant
            i <= proofs@.len(),
            all == nsec_views(proofs@),
            forall|k: int|
                0 <= k < i ==> !nsec_covers((#[trigger] all[k]).owner, all[k].next, target@),
        decreases proofs@.len() - i,
    {
        assert(all[i as int] == proofs@[i as int]@);
        if nsec_covers_name(&proofs[i].owner, &proofs[i].next, target) {
            return true;
        }
        i = i + 1;
    }
    false
}

fn proofs_own(proofs: &Vec<NsecProof>, name: &DnsName) -> (r: bool)
    ensures
        r == owned(nsec_views(proofs@), name@),
{
    let ghost all = nsec_views(proofs@);
    let mut i: usize = 0;
    while i < proofs.len()
        invariant
            i <= proofs@.len(),
            all == nsec_views(proofs@),
            forall|k: int| 0 <= k < i ==> !names::is_same((#[trigger] all[k]).owner, name@),
        decreases proofs@.len() - i,
    {
        assert(all[i as int] == proofs@[i as int]@);
        if names::same_name(&proofs[i].owner, name) {
            return true;
        }
        i = i + 1;
    }
    false
}

/// Whether the proofs show that a name lacks a type.
pub fn validate_nodata_nsec(proofs: &Vec<NsecProof>, qname: &DnsName, qtype: u16) -> (r: bool)
    ensures
        r == denies_type(nsec_views(proofs@), qname@, qtype),
{
    let ghost all = nsec_views(proofs@);
    let mut i: usize = 0;
    while i < proofs.len()
        invariant
            i <= proofs@.len(),
            all == nsec_views(proofs@),
            forall|k: int| 0 <= k < i ==> !denies_at(#[trigger] all[k], qname@, qtype),
        decreases proofs@.len() - i,
    {
        assert(all[i as int] == proofs@[i as int]@);
        if names::same_name(&proofs[i].owner, qname) && type_is_lacking(&proofs[i].types, qtype) {
            assert(denies_at(all[i as int], qname@, qtype));
            return true;
        }
        i = i + 1;
    }
    let mut j: usize = 0;
    while j < proofs.len()
        invariant
            j <= proofs@.len(),
            all == nsec_views(proofs@),
            forall|k: int| 0 <= k < j ==> !denies_wildcard(#[trigger] all[k], all, qname@, qtype),
        decreases proofs@.len() - j,
    {
        assert(all[j as int] == proofs@[j as int]@);
        if let Some(encloser) = names::wildcard_closest_encloser(&proofs[j].owner) {
            if type_is_lacking(&proofs[j].types, qtype) && proofs_cover(
                proofs,
                &names::next_closer_name(qname, &encloser),
            ) {
                assert(denies_wildcard(all[j as int], all, qname@, qtype));
                return true;
            }
        }
        j = j + 1;
    }
    assert(forall|k: int|
        0 <= k < all.len() ==> !denies_at(#[trigger] all[k], qname@, qtype));
    false
}

/// The longest ancestor of a name, or the name itself, that owns a proof.
pub fn find_closest_encloser(proofs: &Vec<NsecProof>, qname: &DnsName) -> (r: Option<DnsName>)
    ensures
        names::optional_name(r) == closest_owner(
            nsec_views(proofs@),
            qname@,
            names::label_count(qname@),
        ),
{
    let ghost all = nsec_views(proofs@);
    let mut count: usize = names::num_labels(qname);
    loop
        invariant
            all == nsec_views(proofs@),
            closest_owner(all, qname@, names::label_count(qname@)) == closest_owner(
                all,
                qname@,
                count as nat,
            ),
        decreases count,
    {
        let candidate = names::trim_to(qname, count);
        if proofs_own(proofs, &candidate) {
            return Some(candidate);
        }
        if count == 0 {
            return None;
        }
        count = count - 1;
    }
}

pub open spec fn bool_result(r: Result<bool, DnssecError>) -> Result<bool, records::DnssecErrorV> {
    match r {
        Ok(b) => Ok(b),
        Err(e) => Err(e@),
    }
}

/// Whether the proofs show that a name does not exist.
pub fn validate_nxdomain_nsec(proofs: &Vec<NsecProof>, qname: &DnsName) -> (r: Result<
    bool,
    DnssecError,
>)
    ensures
        bool_result(r) == denies_name(nsec_views(proofs@), qname@),
{
    if !proofs_cover(proofs, qname) {
        return Ok(false);
    }
    match find_closest_encloser(proofs, qname) {
        None => Ok(false),
        Some(encloser) => match names::wildcard_name(&encloser) {
            None => Err(DnssecError::NoWildcard(encloser)),
            Some(w) => Ok(proofs_cover(proofs, &w)),
        },
    }
}

/// Whether the proofs show that a delegation has no digest.
pub fn validate_referral_nsec(proofs: &Vec<NsecProof>, delegation: &DnsName) -> (r: bool)
    ensures
        r == unsigned_cut(nsec_views(proofs@), delegation@),
{
    let ghost all = nsec_views(proofs@);
    let mut i: usize = 0;
    while i < proofs.len()
        invariant
            i <= proofs@.len(),
            all == nsec_views(proofs@),
            forall|k: int| 0 <= k < i ==> !cuts_at(#[trigger] all[k], delegation@),
        decreases proofs@.len() - i,
    {
        assert(all[i as int] == proofs@[i as int]@);
        if names::same_name(&proofs[i].owner, delegation) && unsigned_cut_types(&proofs[i].types) {
            assert(cuts_at(all[i as int], delegation@));
            return true;
        }
        i = i + 1;
    }
    false
}

fn hash_nsec3_name(proofs: &Vec<Nsec3Proof>, name: &DnsName) -> (r: Result<Vec<u8>, DnssecError>)
    requires
        proofs@.len() > 0,
    ensures
        (match r {
            Ok(h) => Ok(h@),
            Err(e) => Err(e@),
        }) == hash_with(nsec3_views(proofs@), name@),
{
    assert(nsec3_views(proofs@)[0] == proofs@[0]@);
    match hash_name(name, &proofs[0].salt, proofs[0].iterations) {
        Ok(h) => Ok(h),
        Err(s) => Err(DnssecError::NameHash(s)),
    }
}

fn hash_is_owned(proofs: &Vec<Nsec3Proof>, hash: &Vec<u8>) -> (r: bool)
    ensures
        r == owns_hash(nsec3_views(proofs@), hash@),
{
    let ghost all = nsec3_views(proofs@);
    let mut i: usize = 0;
    while i < proofs.len()
        invariant
            i <= proofs@.len(),
            all == nsec3_views(proofs@),
            forall|k: int| 0 <= k < i ==> (#[trigger] all[k]).owner_hash != hash@,
        decreases proofs@.len() - i,
    {
        assert(all[i as int] == proofs@[i as int]@);
        if names::same_bytes(&proofs[i].owner_hash, hash) {
            return true;
        }
        i = i + 1;
    }
    false
}

fn hash_is_denied(proofs: &Vec<Nsec3Proof>, hash: &Vec<u8>, qtype: u16) -> (r: bool)
    ensures
        r == hash_denied(nsec3_views(proofs@), hash@, qtype),
{
    let ghost all = nsec3_views(proofs@);
    let mut i: usize = 0;
    while i < proofs.len()
        invariant
            i <= proofs@.len(),
            all == nsec3_views(proofs@),
            forall|k: int|
                0 <= k < i ==> !((#[trigger] all[k]).owner_hash == hash@ && lacks(
                    all[k].types,
                    qtype,
                )),
        decreases proofs@.len() - i,
    {
        assert(all[i as int] == proofs@[i as int]@);
        if names::same_bytes(&proofs[i].owner_hash, hash) && type_is_lacking(
            &proofs[i].types,
            qtype,
        ) {
            return true;
        }
        i = i + 1;
    }
    false
}

fn hash_is_cut(proofs: &Vec<Nsec3Proof>, hash: &Vec<u8>) -> (r: bool)
    ensures
        r == hash_cut(nsec3_views(proofs@), hash@),
{
    let ghost all = nsec3_views(proofs@);
    let mut i: usize = 0;
    while i < proofs.len()
        invariant
            i <= proofs@.len(),
            all == nsec3_views(proofs@),
            forall|k: int|
                0 <= k < i ==> !((#[trigger] all[k]).owner_hash == hash@ && is_unsigned_cut(
                    all[k].types,
                )),
        decreases proofs@.len() - i,
    {
        assert(all[i as int] == proofs@[i as int]@);
        if names::same_bytes(&proofs[i].owner_hash, hash) && unsigned_cut_types(&proofs[i].types) {
            return true;
        }
        i = i + 1;
    }
    false
}

/// The first proof that covers a hash: whether it leaves out unsigned delegations.
pub fn find_covering_nsec3(proofs: &Vec<Nsec3Proof>, hash: &Vec<u8>) -> (r: Option<bool>)
    ensures
        r == first_cover(nsec3_views(proofs@), hash@),
{
    let ghost all = nsec3_views(proofs@);
    let mut i: usize = 0;
    assert(all.skip(0) =~= all);
    while i < proofs.len()
        invariant
            i <= proofs@.len(),
            all == nsec3_views(proofs@),
            first_cover(all, hash@) == first_cover(all.skip(i as int), hash@),
        decreases proofs@.len() - i,
    {
        assert(all.skip(i as int)[0] == proofs@[i as int]@);
        assert(all.skip(i as int).skip(1) =~= all.skip(i + 1));
        if nsec3_covers_hash(&proofs[i].owner_hash, &proofs[i].next_hash, hash) {
            return Some(proofs[i].opt_out);
        }
        i = i + 1;
    }
    None
}

fn try_encloser(proofs: &Vec<Nsec3Proof>, qname: &DnsName, candidate: &DnsName, count: usize) -> (r:
    Result<Option<bool>, DnssecError>)
    requires
        proofs@.len() > 0,
        candidate@ == names::trimmed(qname@, count as nat),
    ensures
        (match r {
            Ok(x) => Ok(x),
            Err(e) => Err(e@),
        }) == encloser_at(nsec3_views(proofs@), qname@, count as nat),
{
    let hash = match hash_nsec3_name(proofs, candidate) {
        Ok(h) => h,
        Err(e) => return Err(e),
    };
    if !hash_is_owned(proofs, &hash) {
        return Ok(None);
    }
    let next = names::next_closer_name(qname, candidate);
    if names::same_name(&next, candidate) {
        return Ok(None);
    }
    match hash_nsec3_name(proofs, &next) {
        Ok(h) => Ok(find_covering_nsec3(proofs, &h)),
        Err(e) => Err(e),
    }
}

/// The closest encloser of a name that the hashed proofs show, and whether the proof of it leaves
/// out unsigned delegations.
pub fn find_nsec3_closest_encloser_proof(qname: &DnsName, proofs: &Vec<Nsec3Proof>) -> (r: Result<
    Option<(DnsName, bool)>,
    DnssecError,
>)
    ensures
        (match r {
            Ok(Some(x)) => Ok(Some((x.0@, x.1))),
            Ok(None) => Ok(None),
            Err(e) => Err(e@),
        }) == (if proofs@.len() == 0 {
            Ok(None)
        } else {
            closest_encloser(nsec3_views(proofs@), qname@, names::label_count(qname@))
        }),
{
    if proofs.len() == 0 {
        return Ok(None);
    }
    let ghost all = nsec3_views(proofs@);
    let mut count: usize = names::num_labels(qname);
    loop
        invariant
            proofs@.len() > 0,
            all == nsec3_views(proofs@),
            closest_encloser(all, qname@, names::label_count(qname@)) == closest_encloser(
                all,
                qname@,
                count as nat,
            ),
        decreases count,
    {
        let candidate = names::trim_to(qname, count);
        match try_encloser(proofs, qname, &candidate, count) {
            Err(e) => return Err(e),
            Ok(Some(opt_out)) => return Ok(Some((candidate, opt_out))),
            Ok(None) => {},
        }
        if count == 0 {
            return Ok(None);
        }
        count = count - 1;
    }
}

fn hash_wildcard(proofs: &Vec<Nsec3Proof>, encloser: DnsName) -> (r: Result<Vec<u8>, DnssecError>)
    requires
        proofs@.len() > 0,
    ensures
        (match r {
            Ok(h) => Ok(h@),
            Err(e) => Err(e@),
        }) == wildcard_hash(nsec3_views(proofs@), encloser@),
{
    match names::wildcard_name(&encloser) {
        None => Err(DnssecError::NoWildcard(encloser)),
        Some(w) => hash_nsec3_name(proofs, &w),
    }
}

pub open spec fn verdict_result(r: Result<Option<ValidationState>, DnssecError>) -> Result<
    Option<ValidationState>,
    records::DnssecErrorV,
> {
    match r {
        Ok(x) => Ok(x),
        Err(e) => Err(e@),
    }
}

/// What the hashed proofs show of a name that should lack a type.
pub fn validate_nodata_nsec3(proofs: &Vec<Nsec3Proof>, qname: &DnsName, qtype: u16) -> (r: Result<
    Option<ValidationState>,
    DnssecError,
>)
    ensures
        verdict_result(r) == hashed_type_denial(nsec3_views(proofs@), qname@, qtype),
{
    if proofs.len() == 0 {
        return Ok(None);
    }
    let hash = match hash_nsec3_name(proofs, qname) {
        Ok(h) => h,
        Err(e) => return Err(e),
    };
    if hash_is_denied(proofs, &hash, qtype) {
        return Ok(Some(ValidationState::Secure));
    }
    let (encloser, opt_out) = match find_nsec3_closest_encloser_proof(qname, proofs) {
        Err(e) => return Err(e),
        Ok(None) => return Ok(None),
        Ok(Some(found)) => found,
    };
    if qtype == TYPE_DS && opt_out {
        return Ok(Some(ValidationState::Insecure));
    }
    match hash_wildcard(proofs, encloser) {
        Err(e) => Err(e),
        Ok(w) => if hash_is_denied(proofs, &w, qtype) {
            Ok(Some(ValidationState::Secure))
        } else {
            Ok(None)
        },
    }
}

/// Whether the hashed proofs show that a name does not exist.
pub fn validate_nxdomain_nsec3(proofs: &Vec<Nsec3Proof>, qname: &DnsName) -> (r: Result<
    bool,
    DnssecError,
>)
    ensures
        bool_result(r) == hashed_name_denial(nsec3_views(proofs@), qname@),
{
    if proofs.len() == 0 {
        return Ok(false);
    }
    match find_nsec3_closest_encloser_proof(qname, proofs) {
        Err(e) => Err(e),
        Ok(None) => Ok(false),
        Ok(Some(found)) => match hash_wildcard(proofs, found.0) {
            Err(e) => Err(e),
            Ok(w) => match find_covering_nsec3(proofs, &w) {
                Some(_) => Ok(true),
                None => Ok(false),
            },
        },
    }
}

/// Whether the hashed proofs show that a delegation has no digest.
pub fn validate_referral_nsec3(proofs: &Vec<Nsec3Proof>, delegation: &DnsName) -> (r: Result<
    bool,
    DnssecError,
>)
    ensures
        bool_result(r) == hashed_cut(nsec3_views(proofs@), delegation@),
{
    if proofs.len() == 0 {
        return Ok(false);
    }
    let hash = match hash_nsec3_name(proofs, delegation) {
        Ok(h) => h,
        Err(e) => return Err(e),
    };
    if hash_is_cut(proofs, &hash) {
        return Ok(true);
    }
    match find_nsec3_closest_encloser_proof(delegation, proofs) {
        Err(e) => Err(e),
        Ok(Some(found)) => Ok(found.1),
        Ok(None) => Ok(false),
    }
}

} // verus!
