//! What holds of the verdict on a message: what makes it secure, insecure or refused.
use crate::dnssec::names;
use crate::dnssec::negative;
use crate::dnssec::negative::ValidationState;
use crate::dnssec::records;
use crate::dnssec::records::{
    TYPE_CNAME, TYPE_DS, TYPE_NS, TYPE_NSEC, TYPE_NSEC3, TYPE_RRSIG, TYPE_SOA,
};
use crate::dnssec::rrsets;
use crate::dnssec::signature_laws;
use crate::dnssec::verdict;
use vstd::prelude::*;

verus! {

/// The records that a name has of a type are those of the message that have the name, whatever its
/// case, and the type; the signatures over them are those that have the name and cover the type.
pub proof fn lemma_sets_of_a_message(m: records::MessageV, name: names::NameV, t: u16)
    ensures
        forall|i: int|
            0 <= i < rrsets::rrset_records(m, name, t).len() ==> {
                let r = #[trigger] rrsets::rrset_records(m, name, t)[i];
                names::is_same(r.name, name) && r.record_type == t
            },
        forall|i: int|
            0 <= i < rrsets::all_records(m).len() && names::is_same(
                (#[trigger] rrsets::all_records(m)[i]).name,
                name,
            ) && rrsets::all_records(m)[i].record_type == t ==> rrsets::rrset_records(
                m,
                name,
                t,
            ).contains(rrsets::all_records(m)[i]),
        forall|i: int|
            0 <= i < rrsets::rrsig_records(m, name, t).len() ==> {
                let r = #[trigger] rrsets::rrsig_records(m, name, t)[i];
                names::is_same(r.name, name) && r.record_type == TYPE_RRSIG && (
                r.data matches records::DataV::Rrsig(s) && s.type_covered == t)
            },
        forall|i: int|
            0 <= i < rrsets::all_records(m).len() && names::is_same(
                (#[trigger] rrsets::all_records(m)[i]).name,
                name,
            ) && rrsets::all_records(m)[i].record_type == TYPE_RRSIG && (rrsets::all_records(
                m,
            )[i].data matches records::DataV::Rrsig(s) && s.type_covered == t)
                ==> rrsets::rrsig_records(m, name, t).contains(rrsets::all_records(m)[i]),
{
    let all = rrsets::all_records(m);
    let f = |r: records::RecordV| rrsets::belongs(r, name, t);
    let g = |r: records::RecordV| rrsets::signs(r, name, t);
    all.filter_lemma(f);
    all.filter_lemma(g);
    assert forall|i: int| 0 <= i < all.filter(f).len() implies {
        let r = #[trigger] all.filter(f)[i];
        names::is_same(r.name, name) && r.record_type == t
    } by {
        assert(f(all.filter(f)[i]));
    }
    assert forall|i: int| 0 <= i < all.filter(g).len() implies {
        let r = #[trigger] all.filter(g)[i];
        names::is_same(r.name, name) && r.record_type == TYPE_RRSIG && (
        r.data matches records::DataV::Rrsig(s) && s.type_covered == t)
    } by {
        assert(g(all.filter(g)[i]));
    }
    assert forall|i: int|
        0 <= i < all.len() && names::is_same((#[trigger] all[i]).name, name) && all[i].record_type
            == t implies all.filter(f).contains(all[i]) by {
        assert(f(all[i]));
    }
    assert forall|i: int|
        0 <= i < all.len() && names::is_same((#[trigger] all[i]).name, name) && all[i].record_type
            == TYPE_RRSIG && (all[i].data matches records::DataV::Rrsig(s) && s.type_covered
            == t) implies all.filter(g).contains(all[i]) by {
        assert(g(all[i]));
    }
}

/// Whether a record of the authority section is a signed proof.
pub open spec fn is_signed_proof(m: records::MessageV, r: records::RecordV, t: u16) -> bool {
    r.record_type == t && rrsets::rrsig_records(m, r.name, t).len() > 0
}

/// The verified proofs of a part of the authority section: each comes from a record of it that is
/// signed, and each signed proof is among them.
proof fn lemma_proofs(
    m: records::MessageV,
    list: Seq<records::RecordV>,
    keys: Seq<records::RecordV>,
    now: u32,
)
    requires
        forall|i: int|
            0 <= i < list.len() ==> rrsets::all_records(m).contains(#[trigger] list[i]),
        verdict::nsec_proofs(m, list, keys, now) is Ok,
    ensures
        ({
            let found = verdict::nsec_proofs(m, list, keys, now)->Ok_0;
            &&& forall|k: int|
                0 <= k < found.len() ==> exists|i: int|
                    0 <= i < list.len() && (#[trigger] list[i]).name == (#[trigger] found[k]).owner
                        && (list[i].data matches records::DataV::Nsec(n) && n.types
                        == found[k].types && n.next_domain_name == found[k].next)
                        && rrsets::verified(
                        list[i].name,
                        rrsets::rrset_records(m, list[i].name, TYPE_NSEC),
                        rrsets::rrsig_records(m, list[i].name, TYPE_NSEC),
                        keys,
                        now,
                    ) is Ok
            &&& forall|i: int|
                0 <= i < list.len() && is_signed_proof(m, #[trigger] list[i], TYPE_NSEC) ==> (
                list[i].data matches records::DataV::Nsec(n) ==> found.contains(
                    negative::NsecProofV {
                        owner: list[i].name,
                        next: n.next_domain_name,
                        types: n.types,
                    },
                ))
        }),
    decreases list.len(),
{
    if list.len() > 0 {
        let start = list.drop_last();
        let last = list.last();
        assert(forall|i: int| 0 <= i < start.len() ==> #[trigger] start[i] == list[i]);
        assert(list[list.len() - 1] == last);
        lemma_proofs(m, start, keys, now);
        let before = verdict::nsec_proofs(m, start, keys, now)->Ok_0;
        let found = verdict::nsec_proofs(m, list, keys, now)->Ok_0;
        assert forall|k: int| 0 <= k < found.len() implies exists|i: int|
            0 <= i < list.len() && (#[trigger] list[i]).name == (#[trigger] found[k]).owner && (
            list[i].data matches records::DataV::Nsec(n) && n.types == found[k].types
                && n.next_domain_name == found[k].next) && rrsets::verified(
                list[i].name,
                rrsets::rrset_records(m, list[i].name, TYPE_NSEC),
                rrsets::rrsig_records(m, list[i].name, TYPE_NSEC),
                keys,
                now,
            ) is Ok by {
            if k < before.len() {
                let i = choose|i: int|
                    0 <= i < start.len() && (#[trigger] start[i]).name == before[k].owner && (
                    start[i].data matches records::DataV::Nsec(n) && n.types == before[k].types
                        && n.next_domain_name == before[k].next) && rrsets::verified(
                        start[i].name,
                        rrsets::rrset_records(m, start[i].name, TYPE_NSEC),
                        rrsets::rrsig_records(m, start[i].name, TYPE_NSEC),
                        keys,
                        now,
                    ) is Ok;
                assert(list[i] == start[i]);
            } else {
                assert(list[list.len() - 1].name == found[k].owner);
            }
        }
        assert forall|i: int|
            0 <= i < list.len() && is_signed_proof(m, #[trigger] list[i], TYPE_NSEC) implies (
        list[i].data matches records::DataV::Nsec(n) ==> found.contains(
            negative::NsecProofV {
                owner: list[i].name,
                next: n.next_domain_name,
                types: n.types,
            },
        )) by {
            if let records::DataV::Nsec(n) = list[i].data {
                let p = negative::NsecProofV {
                    owner: list[i].name,
                    next: n.next_domain_name,
                    types: n.types,
                };
                if i < start.len() {
                    assert(is_signed_proof(m, start[i], TYPE_NSEC));
                    assert(before.contains(p));
                    let k = choose|k: int| 0 <= k < before.len() && before[k] == p;
                    assert(found[k] == p);
                } else {
                    lemma_sets_of_a_message(m, last.name, TYPE_NSEC);
                    let all = rrsets::all_records(m);
                    assert(all.contains(list[i]));
                    let a = choose|a: int| 0 <= a < all.len() && all[a] == last;
                    assert(rrsets::rrset_records(m, last.name, TYPE_NSEC).contains(all[a]));
                    assert(found[found.len() - 1] == p);
                }
            }
        }
    }
}

proof fn lemma_authority_in_message(m: records::MessageV)
    ensures
        forall|i: int|
            0 <= i < m.name_servers.len() ==> rrsets::all_records(m).contains(
                #[trigger] m.name_servers[i],
            ),
{
    assert forall|i: int| 0 <= i < m.name_servers.len() implies rrsets::all_records(m).contains(
        #[trigger] m.name_servers[i],
    ) by {
        assert(rrsets::all_records(m)[m.answers.len() + i] == m.name_servers[i]);
    }
}

proof fn lemma_first_delegation(list: Seq<records::RecordV>, k: int)
    requires
        0 <= k <= list.len(),
        k < list.len() ==> list[k].record_type == TYPE_NS,
        forall|j: int| 0 <= j < k ==> (#[trigger] list[j]).record_type != TYPE_NS,
    ensures
        verdict::delegation(list) == (if k < list.len() {
            Some(list[k].name)
        } else {
            None
        }),
    decreases list.len(),
{
    if list.len() > 0 && k > 0 {
        let rest = list.skip(1);
        assert(list[0].record_type != TYPE_NS);
        assert forall|j: int| 0 <= j < k - 1 implies (#[trigger] rest[j]).record_type != TYPE_NS by {
            assert(rest[j] == list[j + 1]);
        }
        lemma_first_delegation(rest, k - 1);
    }
}

/// A message without answers that reports success refers to the owner of its first delegation,
/// unless it has start-of-authority data. Where a signed proof of the delegated name lists a
/// delegation, and neither a digest nor start-of-authority data, and no proof fails to verify, the
/// message is insecure.
pub proof fn lemma_unsigned_delegation_is_insecure(
    m: records::MessageV,
    keys: Seq<records::RecordV>,
    now: u32,
    cut: int,
    i: int,
)
    requires
        m.query is Some,
        m.response_code == 0,
        m.answers.len() == 0,
        0 <= cut < m.name_servers.len(),
        m.name_servers[cut].record_type == TYPE_NS,
        forall|j: int| 0 <= j < cut ==> (#[trigger] m.name_servers[j]).record_type != TYPE_NS,
        forall|j: int|
            0 <= j < m.name_servers.len() ==> (#[trigger] m.name_servers[j]).record_type
                != TYPE_SOA,
        verdict::nsec_proofs(m, m.name_servers, keys, now) is Ok,
        0 <= i < m.name_servers.len(),
        is_signed_proof(m, m.name_servers[i], TYPE_NSEC),
        names::is_same(m.name_servers[i].name, m.name_servers[cut].name),
        m.name_servers[i].data matches records::DataV::Nsec(n) && n.types.contains(TYPE_NS)
            && !n.types.contains(TYPE_DS) && !n.types.contains(TYPE_SOA),
    ensures
        verdict::verdict(m, keys, now) == Ok::<ValidationState, records::DnssecErrorV>(
            ValidationState::Insecure,
        ),
{
    lemma_authority_in_message(m);
    lemma_proofs(m, m.name_servers, keys, now);
    lemma_first_delegation(m.name_servers, cut);
    let found = verdict::nsec_proofs(m, m.name_servers, keys, now)->Ok_0;
    let n = m.name_servers[i].data->Nsec_0;
    let p = negative::NsecProofV {
        owner: m.name_servers[i].name,
        next: n.next_domain_name,
        types: n.types,
    };
    assert(found.contains(p));
    let k = choose|k: int| 0 <= k < found.len() && found[k] == p;
    assert(negative::cuts_at(found[k], m.name_servers[cut].name));
}

/// Whether a proof shows a delegation without a digest: it lists a delegation, and neither a
/// digest nor start-of-authority data.
pub open spec fn shows_unsigned_cut(types: Seq<u16>) -> bool {
    types.contains(TYPE_NS) && !types.contains(TYPE_DS) && !types.contains(TYPE_SOA)
}

/// Whether a message refers to a name as a delegation.
pub open spec fn refers_to(m: records::MessageV, name: names::NameV) -> bool {
    verdict::referral(m) matches Some(cut) && names::is_same(name, cut)
}

/// Whether a proof of the delegated name shows a delegation without a digest.
pub open spec fn cut_is_shown(m: records::MessageV, found: Seq<negative::NsecProofV>) -> bool {
    exists|k: int|
        0 <= k < found.len() && shows_unsigned_cut((#[trigger] found[k]).types) && refers_to(
            m,
            found[k].owner,
        )
}

/// Whether a hash is that of the delegated name.
pub open spec fn refers_to_hash(
    m: records::MessageV,
    first: negative::Nsec3ProofV,
    hash: Seq<u8>,
) -> bool {
    verdict::referral(m) matches Some(cut) && negative::nsec3_hash(
        cut,
        first.salt,
        first.iterations,
    ) == Ok::<Seq<u8>, Seq<char>>(hash)
}

/// Whether a hashed proof leaves out unsigned delegations, or one of the hash of the delegated name
/// shows a delegation without a digest.
pub open spec fn hashed_cut_is_shown(
    m: records::MessageV,
    hashed: Seq<negative::Nsec3ProofV>,
) -> bool {
    exists|k: int|
        0 <= k < hashed.len() && ((#[trigger] hashed[k]).opt_out || (shows_unsigned_cut(
            hashed[k].types,
        ) && refers_to_hash(m, hashed[0], hashed[k].owner_hash)))
}

/// A message with records of a proof is insecure only where it reports success without an answer,
/// and where a verified proof of the delegated name shows a delegation without a digest, a hashed
/// proof of its hash does, or a hashed proof leaves out unsigned delegations.
pub proof fn lemma_insecure_is_proved(
    m: records::MessageV,
    keys: Seq<records::RecordV>,
    now: u32,
)
    requires
        verdict::verdict(m, keys, now) == Ok::<ValidationState, records::DnssecErrorV>(
            ValidationState::Insecure,
        ),
        rrsets::has_proof_record(rrsets::all_records(m)),
    ensures
        m.query is Some,
        m.answers.len() == 0,
        m.response_code == 0,
        (verdict::nsec_proofs(m, m.name_servers, keys, now) matches Ok(found) && cut_is_shown(
            m,
            found,
        )) || (verdict::nsec3_proofs(m, m.name_servers, keys, now) matches Ok(hashed)
            && hashed_cut_is_shown(m, hashed)),
{
    let n = verdict::nsec_proofs(m, m.name_servers, keys, now);
    let h = verdict::nsec3_proofs(m, m.name_servers, keys, now);
    let (qname, qtype) = m.query->0;
    if let Some(cut) = verdict::referral(m) {
        if negative::unsigned_cut(n->Ok_0, cut) {
            let k = choose|k: int|
                0 <= k < n->Ok_0.len() && negative::cuts_at(#[trigger] n->Ok_0[k], cut);
            assert(shows_unsigned_cut(n->Ok_0[k].types) && refers_to(m, n->Ok_0[k].owner));
        } else if verdict::referral_verdict(n, h, cut) == Ok::<
            Option<ValidationState>,
            records::DnssecErrorV,
        >(Some(ValidationState::Insecure)) {
            lemma_hashed_cut(h->Ok_0, cut);
            let k = choose|k: int|
                0 <= k < h->Ok_0.len() && ((#[trigger] h->Ok_0[k]).opt_out || (shows_unsigned_cut(
                    h->Ok_0[k].types,
                ) && negative::nsec3_hash(cut, h->Ok_0[0].salt, h->Ok_0[0].iterations) == Ok::<
                    Seq<u8>,
                    Seq<char>,
                >(h->Ok_0[k].owner_hash)));
            assert(h->Ok_0[k].opt_out || refers_to_hash(m, h->Ok_0[0], h->Ok_0[k].owner_hash));
        } else {
            lemma_hashed_type(h->Ok_0, qname, qtype);
        }
    } else {
        lemma_hashed_type(h->Ok_0, qname, qtype);
    }
}

/// Where there are no hashed proofs, and every verified proof of the delegated name lists a
/// digest, or start-of-authority data, or no delegation, a message with records of a proof is
/// never insecure.
pub proof fn lemma_signed_delegation_is_not_insecure(
    m: records::MessageV,
    keys: Seq<records::RecordV>,
    now: u32,
)
    requires
        rrsets::has_proof_record(rrsets::all_records(m)),
        verdict::nsec3_proofs(m, m.name_servers, keys, now) matches Ok(hashed) ==> hashed.len()
            == 0,
        verdict::nsec_proofs(m, m.name_servers, keys, now) matches Ok(found) ==> forall|k: int|
            0 <= k < found.len() && refers_to(m, (#[trigger] found[k]).owner) ==> found[k].types.contains(TYPE_DS) || found[k].types.contains(TYPE_SOA)
                || !found[k].types.contains(TYPE_NS),
    ensures
        verdict::verdict(m, keys, now) != Ok::<ValidationState, records::DnssecErrorV>(
            ValidationState::Insecure,
        ),
{
    if verdict::verdict(m, keys, now) == Ok::<ValidationState, records::DnssecErrorV>(
        ValidationState::Insecure,
    ) {
        lemma_insecure_is_proved(m, keys, now);
        let found = verdict::nsec_proofs(m, m.name_servers, keys, now)->Ok_0;
        let k = choose|k: int|
            0 <= k < found.len() && shows_unsigned_cut((#[trigger] found[k]).types) && refers_to(
                m,
                found[k].owner,
            );
        assert(refers_to(m, found[k].owner));
    }
}

proof fn lemma_first_cover(proofs: Seq<negative::Nsec3ProofV>, hash: Seq<u8>)
    ensures
        match negative::first_cover(proofs, hash) {
            Some(o) => exists|k: int|
                0 <= k < proofs.len() && (#[trigger] proofs[k]).opt_out == o
                    && negative::hash_covers(proofs[k].owner_hash, proofs[k].next_hash, hash)
                    && forall|j: int|
                    0 <= j < k ==> !negative::hash_covers(
                        (#[trigger] proofs[j]).owner_hash,
                        proofs[j].next_hash,
                        hash,
                    ),
            None => forall|k: int|
                0 <= k < proofs.len() ==> !negative::hash_covers(
                    (#[trigger] proofs[k]).owner_hash,
                    proofs[k].next_hash,
                    hash,
                ),
        },
    decreases proofs.len(),
{
    if proofs.len() > 0 {
        let rest = proofs.skip(1);
        lemma_first_cover(rest, hash);
        assert(forall|k: int| 0 < k < proofs.len() ==> #[trigger] proofs[k] == rest[k - 1]);
        if negative::hash_covers(proofs[0].owner_hash, proofs[0].next_hash, hash) {
            assert(proofs[0].opt_out == proofs[0].opt_out);
        } else {
            match negative::first_cover(rest, hash) {
                Some(o) => {
                    let k = choose|k: int|
                        0 <= k < rest.len() && (#[trigger] rest[k]).opt_out == o
                            && negative::hash_covers(rest[k].owner_hash, rest[k].next_hash, hash)
                            && forall|j: int|
                            0 <= j < k ==> !negative::hash_covers(
                                (#[trigger] rest[j]).owner_hash,
                                rest[j].next_hash,
                                hash,
                            );
                    assert(proofs[k + 1] == rest[k]);
                    assert forall|j: int| 0 <= j < k + 1 implies !negative::hash_covers(
                        (#[trigger] proofs[j]).owner_hash,
                        proofs[j].next_hash,
                        hash,
                    ) by {
                        if j > 0 {
                            assert(proofs[j] == rest[j - 1]);
                        }
                    }
                },
                None => {},
            }
        }
    }
}

/// A closest encloser that hashed proofs show is an ancestor of the name whose hash owns a proof,
/// while the hash of the name next to it lies between that of a proof and the next, and the proof
/// says whether unsigned delegations are left out.
pub proof fn lemma_closest_encloser(
    proofs: Seq<negative::Nsec3ProofV>,
    qname: names::NameV,
    count: nat,
)
    requires
        proofs.len() > 0,
    ensures
        negative::closest_encloser(proofs, qname, count) matches Ok(Some(x)) ==> exists|c: nat, i: int,
            k: int|
            c <= count && x.0 == #[trigger] names::trimmed(qname, c) && 0 <= i < proofs.len()
                && negative::nsec3_hash(x.0, proofs[0].salt, proofs[0].iterations) == Ok::<
                Seq<u8>,
                Seq<char>,
            >((#[trigger] proofs[i]).owner_hash) && 0 <= k < proofs.len() && (
            #[trigger] proofs[k]).opt_out == x.1 && (negative::nsec3_hash(
                names::next_closer(qname, x.0),
                proofs[0].salt,
                proofs[0].iterations,
            ) matches Ok(next) && negative::hash_covers(
                proofs[k].owner_hash,
                proofs[k].next_hash,
                next,
            )),
    decreases count,
{
    let candidate = names::trimmed(qname, count);
    match negative::encloser_at(proofs, qname, count) {
        Ok(Some(o)) => {
            let h = negative::hash_with(proofs, candidate)->Ok_0;
            let next = negative::hash_with(proofs, names::next_closer(qname, candidate))->Ok_0;
            lemma_first_cover(proofs, next);
            let i = choose|i: int| 0 <= i < proofs.len() && (#[trigger] proofs[i]).owner_hash == h;
            let k = choose|k: int|
                0 <= k < proofs.len() && (#[trigger] proofs[k]).opt_out == o
                    && negative::hash_covers(proofs[k].owner_hash, proofs[k].next_hash, next);
            assert(proofs[i].owner_hash == h && proofs[k].opt_out == o);
            assert(names::trimmed(qname, count) == candidate);
        },
        Ok(None) => {
            if count > 0 {
                lemma_closest_encloser(proofs, qname, (count - 1) as nat);
            }
        },
        Err(_) => {},
    }
}

/// Hashed proofs show that a delegation has no digest only where one of its hash shows it, or one
/// leaves out unsigned delegations; one of its hash that shows it is enough.
pub proof fn lemma_hashed_cut(proofs: Seq<negative::Nsec3ProofV>, name: names::NameV)
    ensures
        negative::hashed_cut(proofs, name) == Ok::<bool, records::DnssecErrorV>(true) ==> exists|k:
            int|
            0 <= k < proofs.len() && ((#[trigger] proofs[k]).opt_out || (shows_unsigned_cut(
                proofs[k].types,
            ) && negative::nsec3_hash(name, proofs[0].salt, proofs[0].iterations) == Ok::<
                Seq<u8>,
                Seq<char>,
            >(proofs[k].owner_hash))),
        (exists|k: int|
            0 <= k < proofs.len() && shows_unsigned_cut((#[trigger] proofs[k]).types)
                && negative::nsec3_hash(name, proofs[0].salt, proofs[0].iterations) == Ok::<
                Seq<u8>,
                Seq<char>,
            >(proofs[k].owner_hash)) ==> negative::hashed_cut(proofs, name) == Ok::<
            bool,
            records::DnssecErrorV,
        >(true),
{
    if proofs.len() > 0 {
        lemma_closest_encloser(proofs, name, names::label_count(name));
        if let Ok(h) = negative::hash_with(proofs, name) {
            if negative::hash_cut(proofs, h) {
                let k = choose|k: int|
                    0 <= k < proofs.len() && (#[trigger] proofs[k]).owner_hash == h
                        && negative::is_unsigned_cut(proofs[k].types);
                assert(shows_unsigned_cut(proofs[k].types));
            } else if let Ok(Some(x)) = negative::closest_encloser(
                proofs,
                name,
                names::label_count(name),
            ) {
                if x.1 {
                    assert(exists|k: int| 0 <= k < proofs.len() && (#[trigger] proofs[k]).opt_out);
                }
            }
            if exists|k: int|
                0 <= k < proofs.len() && shows_unsigned_cut((#[trigger] proofs[k]).types)
                    && negative::nsec3_hash(name, proofs[0].salt, proofs[0].iterations) == Ok::<
                    Seq<u8>,
                    Seq<char>,
                >(proofs[k].owner_hash) {
                let k = choose|k: int|
                    0 <= k < proofs.len() && shows_unsigned_cut((#[trigger] proofs[k]).types)
                        && negative::nsec3_hash(name, proofs[0].salt, proofs[0].iterations) == Ok::<
                        Seq<u8>,
                        Seq<char>,
                    >(proofs[k].owner_hash);
                assert(proofs[k].owner_hash == h && negative::is_unsigned_cut(proofs[k].types));
            }
        }
    }
}

/// Hashed proofs show that a name lacks a type only by one that lists neither the type nor an
/// alias; they leave it open only where a digest is asked for and one of them leaves out unsigned
/// delegations. One of the hash of the name that lists neither is enough.
pub proof fn lemma_hashed_type(
    proofs: Seq<negative::Nsec3ProofV>,
    qname: names::NameV,
    qtype: u16,
)
    ensures
        negative::hashed_type_denial(proofs, qname, qtype) == Ok::<
            Option<ValidationState>,
            records::DnssecErrorV,
        >(Some(ValidationState::Secure)) ==> exists|k: int|
            0 <= k < proofs.len() && !(#[trigger] proofs[k]).types.contains(qtype)
                && !proofs[k].types.contains(TYPE_CNAME),
        negative::hashed_type_denial(proofs, qname, qtype) == Ok::<
            Option<ValidationState>,
            records::DnssecErrorV,
        >(Some(ValidationState::Insecure)) ==> qtype == TYPE_DS && exists|k: int|
            0 <= k < proofs.len() && (#[trigger] proofs[k]).opt_out,
        (exists|k: int|
            0 <= k < proofs.len() && !(#[trigger] proofs[k]).types.contains(qtype)
                && !proofs[k].types.contains(TYPE_CNAME) && negative::nsec3_hash(
                qname,
                proofs[0].salt,
                proofs[0].iterations,
            ) == Ok::<Seq<u8>, Seq<char>>(proofs[k].owner_hash))
            ==> negative::hashed_type_denial(proofs, qname, qtype) == Ok::<
            Option<ValidationState>,
            records::DnssecErrorV,
        >(Some(ValidationState::Secure)),
{
    if proofs.len() > 0 {
        lemma_closest_encloser(proofs, qname, names::label_count(qname));
        if let Ok(h) = negative::hash_with(proofs, qname) {
            if negative::hash_denied(proofs, h, qtype) {
                let k = choose|k: int|
                    0 <= k < proofs.len() && (#[trigger] proofs[k]).owner_hash == h
                        && negative::lacks(proofs[k].types, qtype);
                assert(!proofs[k].types.contains(qtype));
            } else if let Ok(Some(x)) = negative::closest_encloser(
                proofs,
                qname,
                names::label_count(qname),
            ) {
                if x.1 {
                    assert(exists|k: int| 0 <= k < proofs.len() && (#[trigger] proofs[k]).opt_out);
                }
                if let Ok(w) = negative::wildcard_hash(proofs, x.0) {
                    if negative::hash_denied(proofs, w, qtype) {
                        let k = choose|k: int|
                            0 <= k < proofs.len() && (#[trigger] proofs[k]).owner_hash == w
                                && negative::lacks(proofs[k].types, qtype);
                        assert(!proofs[k].types.contains(qtype));
                    }
                }
            }
            if exists|k: int|
                0 <= k < proofs.len() && !(#[trigger] proofs[k]).types.contains(qtype)
                    && !proofs[k].types.contains(TYPE_CNAME) && negative::nsec3_hash(
                    qname,
                    proofs[0].salt,
                    proofs[0].iterations,
                ) == Ok::<Seq<u8>, Seq<char>>(proofs[k].owner_hash) {
                let k = choose|k: int|
                    0 <= k < proofs.len() && !(#[trigger] proofs[k]).types.contains(qtype)
                        && !proofs[k].types.contains(TYPE_CNAME) && negative::nsec3_hash(
                        qname,
                        proofs[0].salt,
                        proofs[0].iterations,
                    ) == Ok::<Seq<u8>, Seq<char>>(proofs[k].owner_hash);
                assert(proofs[k].owner_hash == h && negative::lacks(proofs[k].types, qtype));
            }
        }
    }
}

/// Hashed proofs show that a name does not exist only where the hash of the name next to an
/// ancestor of it, and the hash of a wildcard, lie between those of proofs and the next ones.
pub proof fn lemma_hashed_name(proofs: Seq<negative::Nsec3ProofV>, qname: names::NameV)
    requires
        negative::hashed_name_denial(proofs, qname) == Ok::<bool, records::DnssecErrorV>(true),
    ensures
        exists|c: nat, k: int|
            c <= names::label_count(qname) && 0 <= k < proofs.len() && (
            names::wildcard(#[trigger] names::trimmed(qname, c)) matches Some(w)
                && negative::nsec3_hash(w, proofs[0].salt, proofs[0].iterations) matches Ok(hash)
                && negative::hash_covers(
                (#[trigger] proofs[k]).owner_hash,
                proofs[k].next_hash,
                hash,
            )),
        exists|c: nat, k: int|
            c <= names::label_count(qname) && 0 <= k < proofs.len() && (negative::nsec3_hash(
                names::next_closer(qname, #[trigger] names::trimmed(qname, c)),
                proofs[0].salt,
                proofs[0].iterations,
            ) matches Ok(hash) && negative::hash_covers(
                (#[trigger] proofs[k]).owner_hash,
                proofs[k].next_hash,
                hash,
            )),
{
    let n = names::label_count(qname);
    lemma_closest_encloser(proofs, qname, n);
    let x = negative::closest_encloser(proofs, qname, n)->Ok_0->0;
    let w = negative::wildcard_hash(proofs, x.0)->Ok_0;
    lemma_first_cover(proofs, w);
    let (c, i, k) = choose|c: nat, i: int, k: int|
        c <= n && x.0 == #[trigger] names::trimmed(qname, c) && 0 <= i < proofs.len()
            && negative::nsec3_hash(x.0, proofs[0].salt, proofs[0].iterations) == Ok::<
            Seq<u8>,
            Seq<char>,
        >((#[trigger] proofs[i]).owner_hash) && 0 <= k < proofs.len() && (
        #[trigger] proofs[k]).opt_out == x.1 && (negative::nsec3_hash(
            names::next_closer(qname, x.0),
            proofs[0].salt,
            proofs[0].iterations,
        ) matches Ok(next) && negative::hash_covers(
            proofs[k].owner_hash,
            proofs[k].next_hash,
            next,
        ));
    let j = choose|j: int|
        0 <= j < proofs.len() && negative::hash_covers(
            (#[trigger] proofs[j]).owner_hash,
            proofs[j].next_hash,
            w,
        );
    assert(negative::hash_covers(proofs[j].owner_hash, proofs[j].next_hash, w));
    assert(names::trimmed(qname, c) == x.0);
}

/// A proof covers the names between its owner and the next name; the last proof of a zone, which
/// names the first owner, covers what follows its owner; one that names its owner covers nothing.
pub proof fn lemma_cover(owner: names::NameV, next: names::NameV, target: names::NameV)
    ensures
        names::is_before(owner, next) ==> (negative::nsec_covers(owner, next, target) <==> (
        names::is_before(owner, target) && names::is_before(target, next))),
        names::is_before(next, owner) ==> (negative::nsec_covers(owner, next, target)
            <==> names::is_before(owner, target)),
        names::is_same(owner, next) ==> !negative::nsec_covers(owner, next, target),
{
    names::lemma_name_order(owner, next);
    names::lemma_name_order(next, owner);
}

/// A hashed proof covers the hashes between its own and the next; the last one of a zone covers
/// what follows its own and what precedes the first; one that names itself covers nothing.
pub proof fn lemma_hash_cover(owner: Seq<u8>, next: Seq<u8>, target: Seq<u8>)
    ensures
        names::bytes_before(owner, next) ==> (negative::hash_covers(owner, next, target) <==> (
        names::bytes_before(owner, target) && names::bytes_before(target, next))),
        names::bytes_before(next, owner) ==> (negative::hash_covers(owner, next, target) <==> (
        names::bytes_before(owner, target) || names::bytes_before(target, next))),
        owner == next ==> !negative::hash_covers(owner, next, target),
{
    names::lemma_bytes_order(owner, next);
    names::lemma_bytes_order(next, owner);
}

/// A message without answers and without a delegation that reports success is secure where a
/// signed proof of the name that was asked for lists neither the type nor an alias, and no proof
/// fails to verify.
pub proof fn lemma_proved_lack_is_secure(
    m: records::MessageV,
    keys: Seq<records::RecordV>,
    now: u32,
    i: int,
)
    requires
        m.query is Some,
        m.response_code == 0,
        m.answers.len() == 0,
        forall|j: int|
            0 <= j < m.name_servers.len() ==> (#[trigger] m.name_servers[j]).record_type != TYPE_NS,
        verdict::nsec_proofs(m, m.name_servers, keys, now) is Ok,
        0 <= i < m.name_servers.len(),
        is_signed_proof(m, m.name_servers[i], TYPE_NSEC),
        names::is_same(m.name_servers[i].name, (m.query->0).0),
        m.name_servers[i].data matches records::DataV::Nsec(n) && !n.types.contains((m.query->0).1)
            && !n.types.contains(TYPE_CNAME),
    ensures
        verdict::verdict(m, keys, now) == Ok::<ValidationState, records::DnssecErrorV>(
            ValidationState::Secure,
        ),
{
    lemma_authority_in_message(m);
    lemma_proofs(m, m.name_servers, keys, now);
    lemma_first_delegation(m.name_servers, m.name_servers.len() as int);
    let found = verdict::nsec_proofs(m, m.name_servers, keys, now)->Ok_0;
    let n = m.name_servers[i].data->Nsec_0;
    let p = negative::NsecProofV {
        owner: m.name_servers[i].name,
        next: n.next_domain_name,
        types: n.types,
    };
    assert(found.contains(p));
    let k = choose|k: int| 0 <= k < found.len() && found[k] == p;
    assert(negative::denies_at(found[k], (m.query->0).0, (m.query->0).1));
}

/// A message without answers that reports success is never secure where every verified proof lists
/// the type that was asked for, or an alias.
pub proof fn lemma_listed_type_is_not_denied(
    m: records::MessageV,
    keys: Seq<records::RecordV>,
    now: u32,
)
    requires
        m.answers.len() == 0,
        m.response_code == 0,
        m.query is Some,
        verdict::nsec_proofs(m, m.name_servers, keys, now) matches Ok(found) ==> forall|k: int|
            0 <= k < found.len() ==> (#[trigger] found[k]).types.contains((m.query->0).1)
                || found[k].types.contains(TYPE_CNAME),
        verdict::nsec3_proofs(m, m.name_servers, keys, now) matches Ok(found) ==> forall|k: int|
            0 <= k < found.len() ==> (#[trigger] found[k]).types.contains((m.query->0).1)
                || found[k].types.contains(TYPE_CNAME),
    ensures
        verdict::verdict(m, keys, now) != Ok::<ValidationState, records::DnssecErrorV>(
            ValidationState::Secure,
        ),
{
    let n = verdict::nsec_proofs(m, m.name_servers, keys, now);
    let h = verdict::nsec3_proofs(m, m.name_servers, keys, now);
    let (qname, qtype) = m.query->0;
    if verdict::verdict(m, keys, now) == Ok::<ValidationState, records::DnssecErrorV>(
        ValidationState::Secure,
    ) {
        assert(verdict::type_verdict(n, h, qname, qtype) == Ok::<
            Option<ValidationState>,
            records::DnssecErrorV,
        >(Some(ValidationState::Secure)));
        if negative::denies_type(n->Ok_0, qname, qtype) {
            if exists|k: int|
                0 <= k < n->Ok_0.len() && negative::denies_at(
                    #[trigger] n->Ok_0[k],
                    qname,
                    qtype,
                ) {
                let k = choose|k: int|
                    0 <= k < n->Ok_0.len() && negative::denies_at(
                        #[trigger] n->Ok_0[k],
                        qname,
                        qtype,
                    );
                assert(n->Ok_0[k].types.contains(qtype) || n->Ok_0[k].types.contains(TYPE_CNAME));
            } else {
                let k = choose|k: int|
                    0 <= k < n->Ok_0.len() && negative::denies_wildcard(
                        #[trigger] n->Ok_0[k],
                        n->Ok_0,
                        qname,
                        qtype,
                    );
                assert(n->Ok_0[k].types.contains(qtype) || n->Ok_0[k].types.contains(TYPE_CNAME));
            }
        } else {
            lemma_hashed_type(h->Ok_0, qname, qtype);
        }
    }
}

proof fn lemma_closest_owner(
    proofs: Seq<negative::NsecProofV>,
    qname: names::NameV,
    count: nat,
)
    ensures
        match negative::closest_owner(proofs, qname, count) {
            Some(x) => exists|c: nat, k: int|
                c <= count && x == #[trigger] names::trimmed(qname, c) && 0 <= k < proofs.len()
                    && names::is_same((#[trigger] proofs[k]).owner, x) && forall|d: nat, j: int|
                    c < d <= count && 0 <= j < proofs.len() ==> !names::is_same(
                        (#[trigger] proofs[j]).owner,
                        #[trigger] names::trimmed(qname, d),
                    ),
            None => forall|d: nat, j: int|
                d <= count && 0 <= j < proofs.len() ==> !names::is_same(
                    (#[trigger] proofs[j]).owner,
                    #[trigger] names::trimmed(qname, d),
                ),
        },
    decreases count,
{
    if negative::owned(proofs, names::trimmed(qname, count)) {
        let k = choose|k: int|
            0 <= k < proofs.len() && names::is_same(
                (#[trigger] proofs[k]).owner,
                names::trimmed(qname, count),
            );
        assert(names::is_same(proofs[k].owner, names::trimmed(qname, count)));
    } else {
        assert forall|j: int| 0 <= j < proofs.len() implies !names::is_same(
            (#[trigger] proofs[j]).owner,
            names::trimmed(qname, count),
        ) by {}
        if count > 0 {
            lemma_closest_owner(proofs, qname, (count - 1) as nat);
            if let Some(x) = negative::closest_owner(proofs, qname, (count - 1) as nat) {
                let (c, k) = choose|c: nat, k: int|
                    c <= count - 1 && x == #[trigger] names::trimmed(qname, c) && 0 <= k
                        < proofs.len() && names::is_same((#[trigger] proofs[k]).owner, x)
                        && forall|d: nat, j: int|
                        c < d <= count - 1 && 0 <= j < proofs.len() ==> !names::is_same(
                            (#[trigger] proofs[j]).owner,
                            #[trigger] names::trimmed(qname, d),
                        );
                assert(x == names::trimmed(qname, c) && names::is_same(proofs[k].owner, x));
            }
        }
    }
}

/// A name is shown not to exist exactly where it is covered, and where the wildcard below the
/// longest ancestor of it, or itself, that owns a proof is covered.
pub proof fn lemma_denied_name(
    proofs: Seq<negative::NsecProofV>,
    qname: names::NameV,
)
    ensures
        negative::denies_name(proofs, qname) == Ok::<bool, records::DnssecErrorV>(true) ==> {
            &&& exists|k: int|
                0 <= k < proofs.len() && names::is_before((#[trigger] proofs[k]).owner, qname)
                    && !names::is_same(proofs[k].next, qname)
            &&& exists|c: nat, k: int, j: int|
                c <= names::label_count(qname) && 0 <= k < proofs.len() && names::is_same(
                    (#[trigger] proofs[k]).owner,
                    #[trigger] names::trimmed(qname, c),
                ) && 0 <= j < proofs.len() && names::is_before(
                    (#[trigger] proofs[j]).owner,
                    seq![seq![42u8]] + names::trimmed(qname, c),
                )
        },
{
    if negative::denies_name(proofs, qname) == Ok::<bool, records::DnssecErrorV>(true) {
        let n = names::label_count(qname);
        lemma_closest_owner(proofs, qname, n);
        let x = negative::closest_owner(proofs, qname, n)->0;
        let w = names::wildcard(x)->0;
        let k = choose|k: int|
            0 <= k < proofs.len() && negative::nsec_covers(
                (#[trigger] proofs[k]).owner,
                proofs[k].next,
                qname,
            );
        lemma_cover(proofs[k].owner, proofs[k].next, qname);
        names::lemma_name_order(proofs[k].owner, proofs[k].next);
        if names::is_same(proofs[k].next, qname) {
            names::lemma_same_place(proofs[k].next, qname, proofs[k].owner);
            names::lemma_name_order(proofs[k].owner, qname);
            names::lemma_name_order(qname, proofs[k].next);
        }
        assert(names::is_before(proofs[k].owner, qname));
        let j = choose|j: int|
            0 <= j < proofs.len() && negative::nsec_covers(
                (#[trigger] proofs[j]).owner,
                proofs[j].next,
                w,
            );
        let (c, o) = choose|c: nat, o: int|
            c <= n && x == #[trigger] names::trimmed(qname, c) && 0 <= o < proofs.len()
                && names::is_same((#[trigger] proofs[o]).owner, x);
        assert(names::is_before(proofs[j].owner, seq![seq![42u8]] + names::trimmed(qname, c)));
        assert(names::is_same(proofs[o].owner, names::trimmed(qname, c)));
    }
}

/// Where proofs without gaps cover a name and the wildcard below the longest ancestor of it that
/// owns one of them, the name does not exist.
pub proof fn lemma_covered_name_is_denied(
    proofs: Seq<negative::NsecProofV>,
    qname: names::NameV,
    c: nat,
    k: int,
    o: int,
    j: int,
)
    requires
        0 <= k < proofs.len(),
        names::is_before(proofs[k].owner, qname),
        names::is_before(qname, proofs[k].next),
        c <= names::label_count(qname),
        0 <= o < proofs.len(),
        names::is_same(proofs[o].owner, names::trimmed(qname, c)),
        forall|d: nat, i: int|
            c < d <= names::label_count(qname) && 0 <= i < proofs.len() ==> !names::is_same(
                (#[trigger] proofs[i]).owner,
                #[trigger] names::trimmed(qname, d),
            ),
        names::wire_length(names::trimmed(qname, c)) <= 253,
        0 <= j < proofs.len(),
        names::is_before(proofs[j].owner, seq![seq![42u8]] + names::trimmed(qname, c)),
        names::is_before(seq![seq![42u8]] + names::trimmed(qname, c), proofs[j].next),
    ensures
        negative::denies_name(proofs, qname) == Ok::<bool, records::DnssecErrorV>(true),
{
    let n = names::label_count(qname);
    let w = seq![seq![42u8]] + names::trimmed(qname, c);
    names::lemma_name_transitive(proofs[k].owner, qname, proofs[k].next);
    names::lemma_name_transitive(proofs[j].owner, w, proofs[j].next);
    assert(negative::nsec_covers(proofs[k].owner, proofs[k].next, qname));
    assert(negative::nsec_covers(proofs[j].owner, proofs[j].next, w));
    lemma_closest_owner(proofs, qname, n);
    match negative::closest_owner(proofs, qname, n) {
        None => {
            assert(!names::is_same(proofs[o].owner, names::trimmed(qname, c)));
        },
        Some(x) => {
            let (d, i) = choose|d: nat, i: int|
                d <= n && x == #[trigger] names::trimmed(qname, d) && 0 <= i < proofs.len()
                    && names::is_same((#[trigger] proofs[i]).owner, x) && forall|e: nat, a: int|
                    d < e <= n && 0 <= a < proofs.len() ==> !names::is_same(
                        (#[trigger] proofs[a]).owner,
                        #[trigger] names::trimmed(qname, e),
                    );
            if d > c {
                assert(!names::is_same(proofs[i].owner, names::trimmed(qname, d)));
            } else if d < c {
                assert(!names::is_same(proofs[o].owner, names::trimmed(qname, c)));
            }
        },
    }
}

/// A message that says that a name does not exist is secure where its proofs deny the name, and
/// one that reports another code than success or that proves nothing without an answer.
pub proof fn lemma_codes(
    m: records::MessageV,
    keys: Seq<records::RecordV>,
    now: u32,
)
    requires
        m.answers.len() == 0,
        m.query is Some,
    ensures
        m.response_code == 3 ==> {
            verdict::nsec_proofs(m, m.name_servers, keys, now) matches Ok(found)
                && negative::denies_name(found, (m.query->0).0) == Ok::<
                bool,
                records::DnssecErrorV,
            >(true) ==> verdict::verdict(m, keys, now) == Ok::<
                ValidationState,
                records::DnssecErrorV,
            >(ValidationState::Secure)
        },
        m.response_code != 0 && m.response_code != 3 ==> verdict::verdict(m, keys, now)
            == if rrsets::has_proof_record(rrsets::all_records(m)) {
            Err::<ValidationState, records::DnssecErrorV>(records::DnssecErrorV::Unproved)
        } else {
            Ok(ValidationState::Insecure)
        },
{
}

/// Whether the records of a name and a type in a message verify by a signature of the message.
pub open spec fn signed_in(
    m: records::MessageV,
    name: names::NameV,
    t: u16,
    i: int,
    key: records::RecordV,
    now: u32,
) -> bool {
    let sigs = rrsets::rrsig_records(m, name, t);
    0 <= i < sigs.len() && rrsets::rrset_records(m, name, t).len() > 0 && signature_laws::verifies(
        name,
        rrsets::rrset_records(m, name, t),
        sigs[i],
        key,
        now,
    )
}

proof fn lemma_verified_set_is_signed(
    m: records::MessageV,
    name: names::NameV,
    t: u16,
    keys: Seq<records::RecordV>,
    now: u32,
)
    requires
        rrsets::verified(
            name,
            rrsets::rrset_records(m, name, t),
            rrsets::rrsig_records(m, name, t),
            keys,
            now,
        ) is Ok,
    ensures
        exists|n: names::NameV, u: u16, i: int, j: int|
            0 <= j < keys.len() && #[trigger] signed_in(m, n, u, i, keys[j], now),
{
    let set = rrsets::rrset_records(m, name, t);
    let sigs = rrsets::rrsig_records(m, name, t);
    signature_laws::lemma_verified_by_a_signature(name, set, sigs, keys, now);
    let (i, j) = choose|i: int, j: int|
        0 <= i < sigs.len() && 0 <= j < keys.len() && #[trigger] signature_laws::verifies(
            name,
            set,
            sigs[i],
            keys[j],
            now,
        );
    assert(signed_in(m, name, t, i, keys[j], now));
}

proof fn lemma_signed_answers(
    m: records::MessageV,
    sets: Seq<rrsets::KeyV>,
    keys: Seq<records::RecordV>,
    now: u32,
)
    requires
        verdict::sets_verified(m, sets, keys, now) == Ok::<bool, records::DnssecErrorV>(true),
    ensures
        exists|n: names::NameV, u: u16, i: int, j: int|
            0 <= j < keys.len() && #[trigger] signed_in(m, n, u, i, keys[j], now),
    decreases sets.len(),
{
    let k = sets.last();
    if rrsets::rrsig_records(m, k.0, k.1).len() == 0 {
        lemma_signed_answers(m, sets.drop_last(), keys, now);
    } else {
        lemma_verified_set_is_signed(m, k.0, k.1, keys, now);
    }
}

proof fn lemma_signed_hashed_proof(
    m: records::MessageV,
    list: Seq<records::RecordV>,
    keys: Seq<records::RecordV>,
    now: u32,
)
    requires
        verdict::nsec3_proofs(m, list, keys, now) matches Ok(found) && found.len() > 0,
    ensures
        exists|n: names::NameV, u: u16, i: int, j: int|
            0 <= j < keys.len() && #[trigger] signed_in(m, n, u, i, keys[j], now),
    decreases list.len(),
{
    let last = list.last();
    let before = verdict::nsec3_proofs(m, list.drop_last(), keys, now)->Ok_0;
    if before.len() > 0 {
        lemma_signed_hashed_proof(m, list.drop_last(), keys, now);
    } else {
        lemma_verified_set_is_signed(m, last.name, TYPE_NSEC3, keys, now);
    }
}

proof fn lemma_signed_proof(
    m: records::MessageV,
    list: Seq<records::RecordV>,
    keys: Seq<records::RecordV>,
    now: u32,
)
    requires
        verdict::nsec_proofs(m, list, keys, now) matches Ok(found) && found.len() > 0,
    ensures
        exists|n: names::NameV, u: u16, i: int, j: int|
            0 <= j < keys.len() && #[trigger] signed_in(m, n, u, i, keys[j], now),
    decreases list.len(),
{
    let last = list.last();
    let before = verdict::nsec_proofs(m, list.drop_last(), keys, now)->Ok_0;
    if before.len() > 0 {
        lemma_signed_proof(m, list.drop_last(), keys, now);
    } else {
        lemma_verified_set_is_signed(m, last.name, TYPE_NSEC, keys, now);
    }
}

/// A message is secure only where one of the keys verifies a signature of the message over a set
/// of its records, at the time; without keys nothing is secure.
pub proof fn lemma_secure_is_signed(
    m: records::MessageV,
    keys: Seq<records::RecordV>,
    now: u32,
)
    requires
        verdict::verdict(m, keys, now) == Ok::<ValidationState, records::DnssecErrorV>(
            ValidationState::Secure,
        ),
    ensures
        exists|n: names::NameV, u: u16, i: int, j: int|
            0 <= j < keys.len() && #[trigger] signed_in(m, n, u, i, keys[j], now),
{
    let sets = rrsets::signed_rrsets(m.answers);
    if verdict::sets_verified(m, sets, keys, now) == Ok::<bool, records::DnssecErrorV>(true) {
        lemma_signed_answers(m, sets, keys, now);
    } else {
        let n = verdict::nsec_proofs(m, m.name_servers, keys, now)->Ok_0;
        if n.len() > 0 {
            lemma_signed_proof(m, m.name_servers, keys, now);
        } else {
            let h = verdict::nsec3_proofs(m, m.name_servers, keys, now)->Ok_0;
            assert(h.len() > 0);
            lemma_signed_hashed_proof(m, m.name_servers, keys, now);
        }
    }
}

proof fn lemma_sets_of_answers(
    m: records::MessageV,
    sets: Seq<rrsets::KeyV>,
    keys: Seq<records::RecordV>,
    now: u32,
    i: int,
)
    requires
        forall|k: int|
            0 <= k < sets.len() && rrsets::rrsig_records(
                m,
                (#[trigger] sets[k]).0,
                sets[k].1,
            ).len() > 0 ==> rrsets::verified(
                sets[k].0,
                rrsets::rrset_records(m, sets[k].0, sets[k].1),
                rrsets::rrsig_records(m, sets[k].0, sets[k].1),
                keys,
                now,
            ) is Ok,
    ensures
        verdict::sets_verified(m, sets, keys, now) is Ok,
        0 <= i < sets.len() && rrsets::rrsig_records(m, sets[i].0, sets[i].1).len() > 0
            ==> verdict::sets_verified(m, sets, keys, now)->Ok_0,
    decreases sets.len(),
{
    if sets.len() > 0 {
        let start = sets.drop_last();
        assert(forall|k: int| 0 <= k < start.len() ==> #[trigger] start[k] == sets[k]);
        assert(sets[sets.len() - 1] == sets.last());
        lemma_sets_of_answers(m, start, keys, now, i);
    }
}

/// Where every set of the answers that has signatures verifies, and one has signatures, the
/// message is secure.
pub proof fn lemma_signed_answers_are_secure(
    m: records::MessageV,
    keys: Seq<records::RecordV>,
    now: u32,
    i: int,
)
    requires
        ({
            let sets = rrsets::signed_rrsets(m.answers);
            &&& 0 <= i < sets.len()
            &&& rrsets::rrsig_records(m, sets[i].0, sets[i].1).len() > 0
            &&& forall|k: int|
                0 <= k < sets.len() && rrsets::rrsig_records(
                    m,
                    (#[trigger] sets[k]).0,
                    sets[k].1,
                ).len() > 0 ==> rrsets::verified(
                    sets[k].0,
                    rrsets::rrset_records(m, sets[k].0, sets[k].1),
                    rrsets::rrsig_records(m, sets[k].0, sets[k].1),
                    keys,
                    now,
                ) is Ok
        }),
    ensures
        verdict::verdict(m, keys, now) == Ok::<ValidationState, records::DnssecErrorV>(
            ValidationState::Secure,
        ),
{
    lemma_sets_of_answers(m, rrsets::signed_rrsets(m.answers), keys, now, i);
}

/// A message with an answer, none of whose sets is signed, but with records of a proof, is
/// refused.
pub proof fn lemma_unsigned_answers_with_proofs_are_refused(
    m: records::MessageV,
    keys: Seq<records::RecordV>,
    now: u32,
)
    requires
        m.answers.len() > 0,
        rrsets::has_proof_record(rrsets::all_records(m)),
        forall|k: int|
            0 <= k < rrsets::signed_rrsets(m.answers).len() ==> rrsets::rrsig_records(
                m,
                (#[trigger] rrsets::signed_rrsets(m.answers)[k]).0,
                rrsets::signed_rrsets(m.answers)[k].1,
            ).len() == 0,
    ensures
        verdict::verdict(m, keys, now) == Err::<ValidationState, records::DnssecErrorV>(
            records::DnssecErrorV::Unproved,
        ),
{
    lemma_unsigned_sets(m, rrsets::signed_rrsets(m.answers), keys, now);
}

proof fn lemma_unsigned_sets(
    m: records::MessageV,
    sets: Seq<rrsets::KeyV>,
    keys: Seq<records::RecordV>,
    now: u32,
)
    requires
        forall|k: int|
            0 <= k < sets.len() ==> rrsets::rrsig_records(
                m,
                (#[trigger] sets[k]).0,
                sets[k].1,
            ).len() == 0,
    ensures
        verdict::sets_verified(m, sets, keys, now) == Ok::<bool, records::DnssecErrorV>(false),
    decreases sets.len(),
{
    if sets.len() > 0 {
        let start = sets.drop_last();
        assert(forall|k: int| 0 <= k < start.len() ==> #[trigger] start[k] == sets[k]);
        assert(sets[sets.len() - 1] == sets.last());
        lemma_unsigned_sets(m, start, keys, now);
    }
}

/// The signers of a list are those that its signatures name, none of them twice.
pub proof fn lemma_signers(list: Seq<records::RecordV>)
    ensures
        forall|i: int|
            0 <= i < list.len() ==> ((#[trigger] list[i]).data matches records::DataV::Rrsig(s)
                ==> rrsets::holds_name(rrsets::signers(list), s.signer_name)),
        forall|i: int, j: int|
            0 <= i < j < rrsets::signers(list).len() ==> !names::is_same(
                #[trigger] rrsets::signers(list)[i],
                #[trigger] rrsets::signers(list)[j],
            ),
        forall|k: int|
            0 <= k < rrsets::signers(list).len() ==> exists|i: int|
                0 <= i < list.len() && ((#[trigger] list[i]).data matches records::DataV::Rrsig(s)
                    && s.signer_name == #[trigger] rrsets::signers(list)[k]),
    decreases list.len(),
{
    if list.len() > 0 {
        let start = list.drop_last();
        let before = rrsets::signers(start);
        let all = rrsets::signers(list);
        lemma_signers(start);
        assert(forall|i: int| 0 <= i < start.len() ==> #[trigger] start[i] == list[i]);
        assert(list[list.len() - 1] == list.last());
        assert forall|i: int| 0 <= i < list.len() implies ((
        #[trigger] list[i]).data matches records::DataV::Rrsig(s) ==> rrsets::holds_name(
            all,
            s.signer_name,
        )) by {
            if let records::DataV::Rrsig(s) = list[i].data {
                if i < start.len() {
                    assert(start[i] == list[i]);
                    assert(rrsets::holds_name(before, s.signer_name));
                    let k = choose|k: int|
                        0 <= k < before.len() && names::is_same(#[trigger] before[k], s.signer_name);
                    assert(all[k] == before[k]);
                } else if !rrsets::holds_name(before, s.signer_name) {
                    assert(all[before.len() as int] == s.signer_name);
                }
            }
        }
        assert forall|k: int| 0 <= k < all.len() implies exists|i: int|
            0 <= i < list.len() && ((#[trigger] list[i]).data matches records::DataV::Rrsig(s)
                && s.signer_name == #[trigger] all[k]) by {
            if k < before.len() {
                assert(all[k] == before[k]);
                let i = choose|i: int|
                    0 <= i < start.len() && ((
                    #[trigger] start[i]).data matches records::DataV::Rrsig(s) && s.signer_name
                        == before[k]);
                assert(list[i] == start[i]);
            } else {
                assert(list[list.len() - 1].data is Rrsig);
            }
        }
    }
}

} // verus!
