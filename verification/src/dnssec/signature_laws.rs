//! What holds of signatures, keys and digests: when a set of records verifies, and when it must
//! not.
use crate::dnssec::anchors;
use crate::dnssec::chain;
use crate::dnssec::names;
use crate::dnssec::records;
use crate::dnssec::rrsets;
use crate::text;
use vstd::prelude::*;

verus! {

/// Whether a signature and a key verify a set of records at a time: the signature is valid then,
/// it names the tag, the algorithm and the owner of the key, and the key verifies it.
pub open spec fn verifies(
    name: names::NameV,
    set: Seq<records::RecordV>,
    sig: records::RecordV,
    key: records::RecordV,
    now: u32,
) -> bool {
    &&& sig.data matches records::DataV::Rrsig(s)
    &&& key.data matches records::DataV::Dnskey(k)
    &&& s.inception <= now <= s.expiration
    &&& rrsets::tag(k) == Some(s.key_tag)
    &&& k.algorithm == s.algorithm
    &&& names::is_same(key.name, s.signer_name)
    &&& rrsets::is_supported(k.algorithm)
    &&& rrsets::signature_verifies(k, name, set[0].dns_class, sig.wire, rrsets::wires(set))
}

proof fn lemma_attempt_keys(
    name: names::NameV,
    set: Seq<records::RecordV>,
    sig: records::RecordV,
    keys: Seq<records::RecordV>,
    now: u32,
)
    ensures
        match rrsets::attempt_keys(name, set, sig, keys, now) {
            Some(Ok(_)) => exists|j: int|
                0 <= j < keys.len() && verifies(name, set, sig, #[trigger] keys[j], now),
            Some(Err(_)) => exists|j: int|
                0 <= j < keys.len() && ((#[trigger] keys[j]).data matches records::DataV::Dnskey(k)
                    && k.public_key.len() > 65531),
            None => forall|j: int|
                0 <= j < keys.len() ==> !verifies(name, set, sig, #[trigger] keys[j], now),
        },
    decreases keys.len(),
{
    if keys.len() > 0 {
        let rest = keys.skip(1);
        lemma_attempt_keys(name, set, sig, rest, now);
        assert(forall|j: int| 0 < j < keys.len() ==> #[trigger] keys[j] == rest[j - 1]);
        match rrsets::attempt(name, set, sig, keys[0], now) {
            Some(Ok(_)) => {
                assert(verifies(name, set, sig, keys[0], now));
            },
            Some(Err(_)) => {},
            None => {
                match rrsets::attempt_keys(name, set, sig, rest, now) {
                    Some(Ok(_)) => {
                        let j = choose|j: int|
                            0 <= j < rest.len() && verifies(name, set, sig, #[trigger] rest[j], now);
                        assert(verifies(name, set, sig, keys[j + 1], now));
                    },
                    Some(Err(_)) => {
                        let j = choose|j: int|
                            0 <= j < rest.len() && ((
                            #[trigger] rest[j]).data matches records::DataV::Dnskey(k)
                                && k.public_key.len() > 65531);
                        assert(keys[j + 1] == rest[j]);
                    },
                    None => {
                        assert forall|j: int| 0 <= j < keys.len() implies !verifies(
                            name,
                            set,
                            sig,
                            #[trigger] keys[j],
                            now,
                        ) by {
                            if j > 0 {
                                assert(!verifies(name, set, sig, rest[j - 1], now));
                            }
                        }
                    },
                }
            },
        }
    }
}

proof fn lemma_attempt_all(
    name: names::NameV,
    set: Seq<records::RecordV>,
    sigs: Seq<records::RecordV>,
    keys: Seq<records::RecordV>,
    now: u32,
)
    ensures
        match rrsets::attempt_all(name, set, sigs, keys, now) {
            Some(Ok(_)) => exists|i: int, j: int|
                0 <= i < sigs.len() && 0 <= j < keys.len() && #[trigger] verifies(
                    name,
                    set,
                    sigs[i],
                    keys[j],
                    now,
                ),
            Some(Err(_)) => exists|j: int|
                0 <= j < keys.len() && ((#[trigger] keys[j]).data matches records::DataV::Dnskey(k)
                    && k.public_key.len() > 65531),
            None => forall|i: int, j: int|
                0 <= i < sigs.len() && 0 <= j < keys.len() ==> !#[trigger] verifies(
                    name,
                    set,
                    sigs[i],
                    keys[j],
                    now,
                ),
        },
    decreases sigs.len(),
{
    if sigs.len() > 0 {
        let rest = sigs.skip(1);
        lemma_attempt_all(name, set, rest, keys, now);
        lemma_attempt_keys(name, set, sigs[0], keys, now);
        assert(forall|i: int| 0 < i < sigs.len() ==> #[trigger] sigs[i] == rest[i - 1]);
        match rrsets::attempt_keys(name, set, sigs[0], keys, now) {
            Some(Ok(_)) => {
                let j = choose|j: int|
                    0 <= j < keys.len() && verifies(name, set, sigs[0], #[trigger] keys[j], now);
                assert(verifies(name, set, sigs[0], keys[j], now));
            },
            Some(Err(_)) => {},
            None => {
                match rrsets::attempt_all(name, set, rest, keys, now) {
                    Some(Ok(_)) => {
                        let (i, j) = choose|i: int, j: int|
                            0 <= i < rest.len() && 0 <= j < keys.len() && #[trigger] verifies(
                                name,
                                set,
                                rest[i],
                                keys[j],
                                now,
                            );
                        assert(verifies(name, set, sigs[i + 1], keys[j], now));
                    },
                    Some(Err(_)) => {},
                    None => {
                        assert forall|i: int, j: int|
                            0 <= i < sigs.len() && 0 <= j < keys.len() implies !#[trigger] verifies(
                            name,
                            set,
                            sigs[i],
                            keys[j],
                            now,
                        ) by {
                            if i > 0 {
                                assert(!verifies(name, set, rest[i - 1], keys[j], now));
                            }
                        }
                    },
                }
            },
        }
    }
}

/// A set of records that verifies has records, and a signature that is valid at the time and
/// verifies with one of the keys; in particular nothing verifies without a signature or without a
/// key.
pub proof fn lemma_verified_by_a_signature(
    name: names::NameV,
    set: Seq<records::RecordV>,
    sigs: Seq<records::RecordV>,
    keys: Seq<records::RecordV>,
    now: u32,
)
    requires
        rrsets::verified(name, set, sigs, keys, now) is Ok,
    ensures
        set.len() > 0,
        exists|i: int, j: int|
            0 <= i < sigs.len() && 0 <= j < keys.len() && #[trigger] verifies(
                name,
                set,
                sigs[i],
                keys[j],
                now,
            ),
{
    lemma_attempt_all(name, set, sigs, keys, now);
}

/// A set of records verifies where one of its signatures does with one of the keys, as long as
/// every key is short enough to have a tag.
pub proof fn lemma_a_signature_verifies(
    name: names::NameV,
    set: Seq<records::RecordV>,
    sigs: Seq<records::RecordV>,
    keys: Seq<records::RecordV>,
    now: u32,
    i: int,
    j: int,
)
    requires
        set.len() > 0,
        0 <= i < sigs.len(),
        0 <= j < keys.len(),
        verifies(name, set, sigs[i], keys[j], now),
        forall|n: int|
            0 <= n < keys.len() ==> ((#[trigger] keys[n]).data matches records::DataV::Dnskey(k)
                ==> k.public_key.len() <= 65531),
    ensures
        rrsets::verified(name, set, sigs, keys, now) is Ok,
{
    lemma_attempt_all(name, set, sigs, keys, now);
}

/// Signatures that have expired, or are not yet valid, verify nothing.
pub proof fn lemma_out_of_time(
    name: names::NameV,
    set: Seq<records::RecordV>,
    sigs: Seq<records::RecordV>,
    keys: Seq<records::RecordV>,
    now: u32,
)
    requires
        forall|i: int|
            0 <= i < sigs.len() ==> ((#[trigger] sigs[i]).data matches records::DataV::Rrsig(s)
                ==> now < s.inception || now > s.expiration),
    ensures
        rrsets::verified(name, set, sigs, keys, now) is Err,
{
    if rrsets::verified(name, set, sigs, keys, now) is Ok {
        lemma_verified_by_a_signature(name, set, sigs, keys, now);
        let (i, j) = choose|i: int, j: int|
            0 <= i < sigs.len() && 0 <= j < keys.len() && #[trigger] verifies(
                name,
                set,
                sigs[i],
                keys[j],
                now,
            );
        assert(sigs[i].data is Rrsig);
    }
}

/// A digest speaks for a key exactly where it names its tag and its algorithm and covers it.
pub open spec fn vouches(
    zone: names::NameV,
    ds: records::RecordV,
    key: records::RecordV,
) -> bool {
    &&& ds.data matches records::DataV::Ds(d)
    &&& key.data matches records::DataV::Dnskey(k)
    &&& rrsets::tag(k) == Some(d.key_tag)
    &&& k.algorithm == d.algorithm
    &&& chain::digest_covers(zone, d, k) == Some(true)
}

proof fn lemma_one_digest(zone: names::NameV, ds: records::RecordV, keys: Seq<records::RecordV>)
    ensures
        chain::ds_matches_any(zone, ds, keys) matches Ok(b) ==> (b <==> exists|j: int|
            0 <= j < keys.len() && vouches(zone, ds, #[trigger] keys[j])),
        chain::ds_matches_any(zone, ds, keys) matches Err(e) ==> e is KeyTag || e is Digest,
    decreases keys.len(),
{
    if keys.len() > 0 {
        let rest = keys.skip(1);
        lemma_one_digest(zone, ds, rest);
        assert(forall|j: int| 0 < j < keys.len() ==> #[trigger] keys[j] == rest[j - 1]);
        let first = vouches(zone, ds, keys[0]);
        if chain::ds_matches_any(zone, ds, keys) is Ok && !first {
            assert(chain::ds_matches_any(zone, ds, keys) == chain::ds_matches_any(zone, ds, rest));
            if exists|j: int| 0 <= j < rest.len() && vouches(zone, ds, #[trigger] rest[j]) {
                let j = choose|j: int| 0 <= j < rest.len() && vouches(zone, ds, #[trigger] rest[j]);
                assert(vouches(zone, ds, keys[j + 1]));
            }
            if exists|j: int| 0 <= j < keys.len() && vouches(zone, ds, #[trigger] keys[j]) {
                let j = choose|j: int| 0 <= j < keys.len() && vouches(zone, ds, #[trigger] keys[j]);
                assert(vouches(zone, ds, rest[j - 1]));
            }
        }
    }
}

proof fn lemma_digests(
    zone: names::NameV,
    list: Seq<records::RecordV>,
    keys: Seq<records::RecordV>,
)
    ensures
        chain::any_ds_matches(zone, list, keys) matches Ok(b) ==> (b <==> exists|i: int, j: int|
            0 <= i < list.len() && 0 <= j < keys.len() && #[trigger] vouches(
                zone,
                list[i],
                keys[j],
            )),
        chain::any_ds_matches(zone, list, keys) matches Err(e) ==> e is KeyTag || e is Digest,
    decreases list.len(),
{
    if list.len() > 0 {
        let start = list.drop_last();
        lemma_digests(zone, start, keys);
        lemma_one_digest(zone, list.last(), keys);
        assert(forall|i: int| 0 <= i < start.len() ==> #[trigger] list[i] == start[i]);
        assert(list[list.len() - 1] == list.last());
        if chain::any_ds_matches(zone, list, keys) is Ok {
            let before = chain::any_ds_matches(zone, start, keys)->Ok_0;
            if before {
                let (i, j) = choose|i: int, j: int|
                    0 <= i < start.len() && 0 <= j < keys.len() && #[trigger] vouches(
                        zone,
                        start[i],
                        keys[j],
                    );
                assert(vouches(zone, list[i], keys[j]));
            }
            if chain::ds_matches_any(zone, list.last(), keys)->Ok_0 {
                let j = choose|j: int|
                    0 <= j < keys.len() && vouches(zone, list.last(), #[trigger] keys[j]);
                assert(vouches(zone, list[list.len() - 1], keys[j]));
            }
            if exists|i: int, j: int|
                0 <= i < list.len() && 0 <= j < keys.len() && #[trigger] vouches(
                    zone,
                    list[i],
                    keys[j],
                ) {
                let (i, j) = choose|i: int, j: int|
                    0 <= i < list.len() && 0 <= j < keys.len() && #[trigger] vouches(
                        zone,
                        list[i],
                        keys[j],
                    );
                if i < start.len() {
                    assert(vouches(zone, start[i], keys[j]));
                } else {
                    assert(vouches(zone, list.last(), keys[j]));
                }
            }
        }
    }
}

/// A parent zone vouches for the keys of a zone exactly where one of its digests speaks for one of
/// them; without such a pair the zone is refused by its name, or a digest could not be computed.
pub proof fn lemma_parent_vouches(
    zone: names::NameV,
    keys: Seq<records::RecordV>,
    list: Seq<records::RecordV>,
)
    ensures
        chain::vouched(zone, keys, list) is Ok ==> exists|i: int, j: int|
            0 <= i < list.len() && 0 <= j < keys.len() && #[trigger] vouches(
                zone,
                list[i],
                keys[j],
            ),
        chain::vouched(zone, keys, list) == Err::<(), records::DnssecErrorV>(
            records::DnssecErrorV::NoMatchingDs(zone),
        ) ==> forall|i: int, j: int|
            0 <= i < list.len() && 0 <= j < keys.len() ==> !#[trigger] vouches(
                zone,
                list[i],
                keys[j],
            ),
{
    lemma_digests(zone, list, keys);
}

/// The keys of the root are accepted only where one of them has the algorithm and the bytes of a
/// trust anchor, and where they verify by a signature that one of them made; they are kept as they
/// came.
pub proof fn lemma_root_keys_are_anchored(
    zone: names::NameV,
    keys: Seq<records::RecordV>,
    sigs: Seq<records::RecordV>,
    trusted: Seq<anchors::AnchorV>,
    now: u32,
)
    requires
        chain::anchored_keys(zone, keys, sigs, trusted, now) is Ok,
    ensures
        chain::anchored_keys(zone, keys, sigs, trusted, now)->Ok_0.keys == keys,
        chain::anchored_keys(zone, keys, sigs, trusted, now)->Ok_0.zone == zone,
        exists|j: int|
            0 <= j < keys.len() && ((#[trigger] keys[j]).data matches records::DataV::Dnskey(k)
                && trusted.contains((k.algorithm, k.public_key))),
        exists|i: int, j: int|
            0 <= i < sigs.len() && 0 <= j < keys.len() && #[trigger] verifies(
                zone,
                keys,
                sigs[i],
                keys[j],
                now,
            ),
{
    lemma_verified_by_a_signature(zone, keys, sigs, keys, now);
    let j = choose|j: int|
        0 <= j < keys.len() && anchors::is_anchored(#[trigger] keys[j], trusted);
    assert(keys[j].data is Dnskey);
}

/// Without a trust anchor the keys of the root are refused.
pub proof fn lemma_nothing_is_trusted_without_anchors(
    zone: names::NameV,
    keys: Seq<records::RecordV>,
    sigs: Seq<records::RecordV>,
    now: u32,
)
    ensures
        chain::anchored_keys(zone, keys, sigs, Seq::empty(), now) == Err::<
            chain::ValidatedKeysV,
            records::DnssecErrorV,
        >(records::DnssecErrorV::NotAnchored),
{
    let none = Seq::<anchors::AnchorV>::empty();
    if anchors::matches_anchors(keys, none) {
        let j = choose|j: int|
            0 <= j < keys.len() && anchors::is_anchored(#[trigger] keys[j], none);
        assert(keys[j].data is Dnskey);
    }
}

proof fn lemma_words(a: Seq<u8>, b: Seq<u8>)
    requires
        a.len() % 2 == 0,
    ensures
        rrsets::word_sum(a + b) == rrsets::word_sum(a) + rrsets::word_sum(b),
    decreases b.len(),
{
    if b.len() == 0 {
        assert(a + b =~= a);
    } else {
        assert((a + b).drop_last() =~= a + b.drop_last());
        lemma_words(a, b.drop_last());
    }
}

/// The tag of a key counts its data in words of two bytes: the flags, the protocol with the
/// algorithm, and the key, of which a last odd byte is the upper half of a word.
pub proof fn lemma_tag_counts_words(k: records::DnskeyV, x: u8, y: u8, rest: Seq<u8>)
    ensures
        rrsets::word_sum(rrsets::key_bytes(k)) == k.flags + 3 * 256 + k.algorithm
            + rrsets::word_sum(k.public_key),
        rrsets::word_sum(seq![x, y] + rest) == x * 256 + y + rrsets::word_sum(rest),
        rrsets::word_sum(seq![x]) == x * 256,
        rrsets::word_sum(Seq::empty()) == 0,
        rrsets::tag(k) is Some <==> k.public_key.len() <= 65531,
{
    reveal_with_fuel(rrsets::word_sum, 5);
    let head = seq![(k.flags / 256) as u8, (k.flags % 256) as u8, 3u8, k.algorithm];
    assert(head.drop_last() =~= seq![(k.flags / 256) as u8, (k.flags % 256) as u8, 3u8]);
    assert(head.drop_last().drop_last() =~= seq![(k.flags / 256) as u8, (k.flags % 256) as u8]);
    assert(head.drop_last().drop_last().drop_last() =~= seq![(k.flags / 256) as u8]);
    assert(seq![(k.flags / 256) as u8].drop_last() =~= Seq::empty());
    lemma_words(head, k.public_key);
    assert(seq![x, y].drop_last() =~= seq![x]);
    assert(seq![x].drop_last() =~= Seq::empty());
    lemma_words(seq![x, y], rest);
}

/// Every algorithm that has a name in a file of trust anchors can verify, but for the two that
/// are no longer used.
pub proof fn lemma_named_algorithms_verify(name: Seq<char>)
    requires
        name == "RSASHA1"@ || name == "RSASHA1-NSEC3-SHA1"@ || name == "RSASHA256"@ || name
            == "RSASHA512"@ || name == "ECDSAP256SHA256"@ || name == "ECDSAP384SHA384"@ || name
            == "ED25519"@,
    ensures
        anchors::algorithm_number(name) matches Some(n) && rrsets::is_supported(n),
        !rrsets::is_supported(1),
        !rrsets::is_supported(3),
{
    reveal_strlit("RSAMD5");
    reveal_strlit("DSA");
    reveal_strlit("RSASHA1");
    reveal_strlit("RSASHA1-NSEC3-SHA1");
    reveal_strlit("RSASHA256");
    reveal_strlit("RSASHA512");
    reveal_strlit("ECDSAP256SHA256");
    reveal_strlit("ECDSAP384SHA384");
    reveal_strlit("ED25519");
    crate::text_laws::lemma_trimmed(name);
    assert forall|i: int| 0 <= i < name.len() implies text::upper_char(#[trigger] name[i])
        == name[i] by {}
    assert(text::upper(name) =~= name);
    assert("RSAMD5"@[3] == 'M' && "RSASHA1"@[3] == 'S' && "RSASHA1-NSEC3-SHA1"@[3] == 'S'
        && "RSASHA256"@[3] == 'S' && "RSASHA512"@[3] == 'S');
}

/// A list of records counts as signed exactly where it holds a signature, a key or a digest, and as
/// one with proofs also where it holds a record of denial.
pub proof fn lemma_signed_lists(list: Seq<records::RecordV>)
    ensures
        rrsets::has_signing_record(list) <==> exists|i: int|
            0 <= i < list.len() && ((#[trigger] list[i]).record_type == 46 || list[i].record_type
                == 48 || list[i].record_type == 43),
        rrsets::has_proof_record(list) <==> exists|i: int|
            0 <= i < list.len() && ((#[trigger] list[i]).record_type == 46 || list[i].record_type
                == 48 || list[i].record_type == 43 || list[i].record_type == 47
                || list[i].record_type == 50),
{
    if exists|i: int|
        0 <= i < list.len() && ((#[trigger] list[i]).record_type == 46 || list[i].record_type == 48
            || list[i].record_type == 43) {
        let i = choose|i: int|
            0 <= i < list.len() && ((#[trigger] list[i]).record_type == 46 || list[i].record_type
                == 48 || list[i].record_type == 43);
        assert(rrsets::is_signing_type(list[i].record_type));
    }
    if exists|i: int|
        0 <= i < list.len() && ((#[trigger] list[i]).record_type == 46 || list[i].record_type == 48
            || list[i].record_type == 43 || list[i].record_type == 47 || list[i].record_type == 50) {
        let i = choose|i: int|
            0 <= i < list.len() && ((#[trigger] list[i]).record_type == 46 || list[i].record_type
                == 48 || list[i].record_type == 43 || list[i].record_type == 47
                || list[i].record_type == 50);
        assert(rrsets::is_proof_type(list[i].record_type));
    }
}

/// A list of keys is trusted as soon as one of them, wherever it stands, is a usable key of a
/// supported algorithm that is among the anchors.
pub proof fn lemma_one_trusted_key(
    list: Seq<records::RecordV>,
    trusted: Seq<anchors::AnchorV>,
    i: int,
    k: records::DnskeyV,
)
    requires
        0 <= i < list.len(),
        list[i].data == records::DataV::Dnskey(k),
        rrsets::is_supported(k.algorithm),
        anchors::is_usable(k),
        trusted.contains((k.algorithm, k.public_key)),
    ensures
        anchors::matches_anchors(list, trusted),
        !anchors::matches_anchors(list, Seq::empty()),
        !anchors::matches_anchors(Seq::empty(), trusted),
{
    assert(anchors::is_anchored(list[i], trusted));
}

} // verus!
