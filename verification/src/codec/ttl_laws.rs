//! What holds of the times to live of a packet: how long it is cached, and what their decay
//! changes and keeps.
use crate::codec::appended;
use crate::codec::invariants;
use crate::codec::name;
use crate::codec::rr;
use crate::codec::ttl;
use crate::codec::wire;
use vstd::prelude::*;

verus! {

/// Where the times to live of `n` records from `off` on stand. A malformed record ends the list;
/// where only its data reaches past the packet its time to live still counts.
pub open spec fn ttl_places(p: Seq<u8>, off: int, n: nat) -> Seq<int>
    decreases n,
{
    if n == 0 {
        Seq::empty()
    } else {
        match name::name_end(p, off) {
            None => Seq::empty(),
            Some(e) => if e + 10 > p.len() {
                Seq::empty()
            } else {
                let next = e + 10 + wire::be16(p, e + 8);
                seq![e + 4] + (if next > p.len() {
                    Seq::empty()
                } else {
                    ttl_places(p, next, (n - 1) as nat)
                })
            },
        }
    }
}

/// Whether a byte belongs to one of the times to live at some places.
pub open spec fn is_in(places: Seq<int>, j: int) -> bool {
    exists|k: int| 0 <= k < places.len() && #[trigger] places[k] <= j < places[k] + 4
}

/// Whether two packets are equal from a place on.
spec fn same_from(p: Seq<u8>, q: Seq<u8>, off: int) -> bool {
    p.len() == q.len() && forall|i: int| off <= i < p.len() ==> #[trigger] q[i] == p[i]
}

proof fn lemma_name_end_from(p: Seq<u8>, q: Seq<u8>, off: int)
    requires
        same_from(p, q, off),
    ensures
        name::name_end(q, off) == name::name_end(p, off),
    decreases p.len() - off,
{
    if 0 <= off < p.len() {
        assert(q[off] == p[off]);
        if p[off] < 192 && p[off] != 0 && off + 1 + p[off] <= p.len() {
            lemma_name_end_from(p, q, off + 1 + p[off]);
        }
    }
}

/// Records are read alike from packets that are equal from their start on.
proof fn lemma_records_from(p: Seq<u8>, q: Seq<u8>, off: int, n: nat)
    requires
        0 <= off,
        same_from(p, q, off),
    ensures
        ttl_places(q, off, n) == ttl_places(p, off, n),
        rr::rr_list(q, off, n) == rr::rr_list(p, off, n),
    decreases n,
{
    if n > 0 {
        lemma_name_end_from(p, q, off);
        name::lemma_name_end_bounds(p, off);
        if let Some(e) = name::name_end(p, off) {
            if e + 10 <= p.len() {
                assert(forall|i: int| e <= i < e + 10 ==> #[trigger] q[i] == p[i]);
                let next = e + 10 + wire::be16(p, e + 8);
                assert(wire::be16(q, e + 8) == wire::be16(p, e + 8));
                if next <= p.len() {
                    lemma_records_from(p, q, next, (n - 1) as nat);
                }
            }
        }
    }
}

proof fn lemma_put32(p: Seq<u8>, i: int, v: u32)
    requires
        0 <= i,
        i + 4 <= p.len(),
    ensures
        wire::put32(p, i, v).len() == p.len(),
        wire::be32(wire::put32(p, i, v), i) == v,
        forall|j: int|
            0 <= j < p.len() && !(i <= j < i + 4) ==> #[trigger] wire::put32(p, i, v)[j] == p[j],
{
    let q = wire::put32(p, i, v);
    assert(q.subrange(i, i + 4) =~= wire::bytes32(v));
    wire::lemma_be32_bytes(q, i, v);
}

/// A record whose time to live is lowered.
pub open spec fn lowered(r: rr::Rr, secs: u32) -> rr::Rr {
    rr::Rr { ttl: ttl::sub_floor(r.ttl, secs), ..r }
}

pub open spec fn all_lowered(list: Seq<rr::Rr>, secs: u32) -> Seq<rr::Rr> {
    list.map_values(|r: rr::Rr| lowered(r, secs))
}

/// The times to live of the records from a place on are lowered, and all other bytes are kept.
#[verifier::spinoff_prover]
proof fn lemma_decayed_from(p: Seq<u8>, off: int, n: nat, secs: u32)
    requires
        0 <= off,
    ensures
        ({
            let q = ttl::decayed_from(p, off, n, secs);
            let places = ttl_places(p, off, n);
            &&& q.len() == p.len()
            &&& forall|k: int|
                0 <= k < places.len() ==> off <= #[trigger] places[k] && places[k] + 4 <= p.len()
                    && wire::be32(q, places[k]) == ttl::sub_floor(
                    wire::be32(p, places[k]),
                    secs,
                )
            &&& forall|j: int|
                0 <= j < p.len() && !is_in(places, j) ==> #[trigger] q[j] == p[j]
        }),
    decreases n, 1int,
{
    if n > 0 {
        name::lemma_name_end_bounds(p, off);
        if let Some(e) = name::name_end(p, off) {
            if e + 10 <= p.len() {
                lemma_first_decayed(p, off, n, secs, e);
            }
        }
    }
}

#[verifier::spinoff_prover]
proof fn lemma_first_decayed(p: Seq<u8>, off: int, n: nat, secs: u32, e: int)
    requires
        0 <= off,
        n > 0,
        name::name_end(p, off) == Some(e),
        e + 10 <= p.len(),
    ensures
        ({
            let q = ttl::decayed_from(p, off, n, secs);
            let places = ttl_places(p, off, n);
            &&& q.len() == p.len()
            &&& forall|k: int|
                0 <= k < places.len() ==> off <= #[trigger] places[k] && places[k] + 4 <= p.len()
                    && wire::be32(q, places[k]) == ttl::sub_floor(
                    wire::be32(p, places[k]),
                    secs,
                )
            &&& forall|j: int|
                0 <= j < p.len() && !is_in(places, j) ==> #[trigger] q[j] == p[j]
        }),
    decreases n, 0int,
{
    name::lemma_name_end_bounds(p, off);
    let v = ttl::sub_floor(wire::be32(p, e + 4), secs);
    let one = wire::put32(p, e + 4, v);
    lemma_put32(p, e + 4, v);
    let next = e + 10 + wire::be16(p, e + 8);
    let q = ttl::decayed_from(p, off, n, secs);
    let places = ttl_places(p, off, n);
    assert(places[0] == e + 4);
    if next > p.len() {
        assert(q == one);
        assert(places =~= seq![e + 4]);
        assert forall|j: int| 0 <= j < p.len() && !is_in(places, j) implies #[trigger] q[j]
            == p[j] by {
            assert(!(places[0] <= j < places[0] + 4));
        }
    } else {
        let m = (n - 1) as nat;
        let rest = ttl_places(p, next, m);
        assert(q == ttl::decayed_from(one, next, m, secs));
        lemma_decayed_from(one, next, m, secs);
        assert forall|i: int| next <= i < p.len() implies #[trigger] one[i] == p[i] by {}
        lemma_records_from(p, one, next, m);
        assert(places == seq![e + 4] + rest);
        assert forall|j: int| 0 <= j < next implies #[trigger] q[j] == one[j] by {
            assert(!is_in(rest, j));
        }
        assert(forall|i: int| e + 4 <= i < e + 8 ==> #[trigger] q[i] == one[i]);
        assert(wire::be32(q, e + 4) == v);
        assert forall|k: int| 0 <= k < places.len() implies off <= #[trigger] places[k] && places[k]
            + 4 <= p.len() && wire::be32(q, places[k]) == ttl::sub_floor(
            wire::be32(p, places[k]),
            secs,
        ) by {
            if k > 0 {
                let t = rest[k - 1];
                assert(places[k] == t);
                assert(one[t] == p[t] && one[t + 1] == p[t + 1] && one[t + 2] == p[t + 2] && one[t
                    + 3] == p[t + 3]);
            }
        }
        assert forall|j: int| 0 <= j < p.len() && !is_in(places, j) implies #[trigger] q[j]
            == p[j] by {
            assert(!(places[0] <= j < places[0] + 4));
            if is_in(rest, j) {
                let k = choose|k: int|
                    0 <= k < rest.len() && #[trigger] rest[k] <= j < rest[k] + 4;
                assert(places[k + 1] == rest[k]);
            }
        }
    }
}

/// The records from a place on are read as they were, but for their lowered times to live.
#[verifier::spinoff_prover]
proof fn lemma_decayed_list(p: Seq<u8>, off: int, n: nat, secs: u32)
    requires
        0 <= off,
    ensures
        rr::rr_list(ttl::decayed_from(p, off, n, secs), off, n) == all_lowered(
            rr::rr_list(p, off, n),
            secs,
        ),
    decreases n,
{
    let q = ttl::decayed_from(p, off, n, secs);
    let list = rr::rr_list(p, off, n);
    if n == 0 {
        assert(rr::rr_list(q, off, n) =~= all_lowered(list, secs));
    } else {
        name::lemma_name_end_bounds(p, off);
        match name::name_end(p, off) {
            None => {
                assert(all_lowered(list, secs) =~= Seq::empty());
            },
            Some(e) => {
                if e + 10 > p.len() {
                    assert(all_lowered(list, secs) =~= Seq::empty());
                } else {
                    let v = ttl::sub_floor(wire::be32(p, e + 4), secs);
                    let one = wire::put32(p, e + 4, v);
                    lemma_put32(p, e + 4, v);
                    let next = e + 10 + wire::be16(p, e + 8);
                    let m = (n - 1) as nat;
                    if next <= p.len() {
                        invariants::lemma_decay_frame(one, next, m, secs);
                        assert(q == ttl::decayed_from(one, next, m, secs));
                    }
                    assert forall|j: int| 0 <= j < e + 10 implies #[trigger] q[j] == one[j] by {}
                    assert(forall|j: int| off <= j < e ==> #[trigger] q[j] == p[j]);
                    appended::lemma_name_end_shared(p, q, off);
                    assert(q[e] == p[e] && q[e + 1] == p[e + 1] && q[e + 2] == p[e + 2] && q[e + 3]
                        == p[e + 3] && q[e + 8] == p[e + 8] && q[e + 9] == p[e + 9]);
                    assert(q[e + 4] == one[e + 4] && q[e + 5] == one[e + 5] && q[e + 6] == one[e
                        + 6] && q[e + 7] == one[e + 7]);
                    assert(wire::be32(q, e + 4) == v);
                    if next <= p.len() {
                        lemma_decayed_list(one, next, m, secs);
                        assert forall|i: int| next <= i < p.len() implies #[trigger] one[i]
                            == p[i] by {}
                        lemma_records_from(p, one, next, m);
                        let r = rr::rr_at(p, off)->0;
                        assert(rr::rr_at(q, off) == Some(lowered(r, secs)));
                        let rest = rr::rr_list(p, next, m);
                        assert(list == seq![r] + rest);
                        assert(all_lowered(list, secs) =~= seq![lowered(r, secs)] + all_lowered(
                            rest,
                            secs,
                        ));
                    } else {
                        assert(rr::rr_at(q, off) is None);
                        assert(all_lowered(list, secs) =~= Seq::empty());
                    }
                }
            },
        }
    }
}

/// The decay of a packet lowers the times to live of its records, down to zero, and keeps every
/// other byte; its records are read as they were, but for their times to live.
pub proof fn lemma_only_ttls_decay(p: Seq<u8>, secs: u32)
    requires
        p.len() >= 12,
        rr::question_end(p) is Some,
    ensures
        ({
            let q = ttl::decayed(p, secs);
            let start = rr::question_end(p)->0;
            let n = ttl::record_count(p);
            let places = ttl_places(p, start, n);
            &&& q.len() == p.len()
            &&& forall|k: int|
                0 <= k < places.len() ==> wire::be32(q, #[trigger] places[k]) == ttl::sub_floor(
                    wire::be32(p, places[k]),
                    secs,
                )
            &&& forall|j: int|
                0 <= j < p.len() && !is_in(places, j) ==> #[trigger] q[j] == p[j]
            &&& rr::rr_list(q, start, n) == all_lowered(rr::rr_list(p, start, n), secs)
        }),
{
    let start = rr::question_end(p)->0;
    appended::lemma_questions_bounds(p, 12, wire::header(p).qdcount as nat);
    lemma_decayed_from(p, start, ttl::record_count(p), secs);
    lemma_decayed_list(p, start, ttl::record_count(p), secs);
}

/// The time to live of a list bounds those of its records from below, OPT records left out, and
/// is that of one of them.
proof fn lemma_min_ttl(list: Seq<rr::Rr>)
    ensures
        match ttl::min_ttl(list) {
            Some(t) => (forall|i: int|
                0 <= i < list.len() && (#[trigger] list[i]).rr_type != 41 ==> t <= list[i].ttl) && (
            exists|i: int|
                0 <= i < list.len() && (#[trigger] list[i]).rr_type != 41 && t == list[i].ttl),
            None => forall|i: int| 0 <= i < list.len() ==> (#[trigger] list[i]).rr_type == 41,
        },
    decreases list.len(),
{
    if list.len() > 0 {
        let start = list.drop_last();
        lemma_min_ttl(start);
        assert(forall|i: int| 0 <= i < start.len() ==> #[trigger] list[i] == start[i]);
        assert(list[list.len() - 1] == list.last());
        match ttl::min_ttl(start) {
            Some(t) => {
                let k = choose|i: int|
                    0 <= i < start.len() && (#[trigger] start[i]).rr_type != 41 && t
                        == start[i].ttl;
                assert(list[k] == start[k]);
            },
            None => {},
        }
    }
}

/// A packet whose questions and records can all be read is cached for the smallest time to live
/// of its records, OPT records left out: no such record has a smaller one, and one has it. Where
/// every record is an OPT record, the packet is not cached.
pub proof fn lemma_cached_for_the_smallest_ttl(p: Seq<u8>, start: int, end: int)
    requires
        p.len() >= 12,
        rr::question_end(p) == Some(start),
        rr::rr_end(
            p,
            start,
            (wire::be16(p, 6) + wire::be16(p, 8) + wire::be16(p, 10)) as nat,
        ) == Some(end),
    ensures
        ({
            let n = (wire::be16(p, 6) + wire::be16(p, 8) + wire::be16(p, 10)) as nat;
            let list = rr::rr_list(p, start, n);
            &&& list.len() == n
            &&& match ttl::cache_ttl(p) {
                Some(t) => (forall|i: int|
                    0 <= i < n && (#[trigger] list[i]).rr_type != 41 ==> t <= list[i].ttl) && (
                exists|i: int|
                    0 <= i < n && (#[trigger] list[i]).rr_type != 41 && t == list[i].ttl),
                None => forall|i: int| 0 <= i < n ==> (#[trigger] list[i]).rr_type == 41,
            }
        }),
{
    let n = (wire::be16(p, 6) + wire::be16(p, 8) + wire::be16(p, 10)) as nat;
    appended::lemma_questions_bounds(p, 12, wire::header(p).qdcount as nat);
    rr::lemma_rr_list(p, start, n);
    lemma_min_ttl(rr::rr_list(p, start, n));
}

/// A packet is not cached that is shorter than a header, whose questions cannot be read, or of
/// whose records one cannot be read.
pub proof fn lemma_malformed_is_not_cached(p: Seq<u8>)
    requires
        p.len() < 12 || rr::question_end(p) is None || rr::rr_end(
            p,
            rr::question_end(p)->0,
            (wire::be16(p, 6) + wire::be16(p, 8) + wire::be16(p, 10)) as nat,
        ) is None,
    ensures
        ttl::cache_ttl(p) is None,
{
}

/// A time to live that is lowered by less than it is loses exactly that; one that is lowered by
/// more is zero. Lowering twice is lowering by the sum.
pub proof fn lemma_lowering(a: u32, b: u32, c: u32)
    ensures
        b <= a ==> ttl::sub_floor(a, b) + b == a,
        b >= a ==> ttl::sub_floor(a, b) == 0,
        b + c <= u32::MAX ==> ttl::sub_floor(ttl::sub_floor(a, b), c) == ttl::sub_floor(
            a,
            (b + c) as u32,
        ),
{
}

/// Whether a record of a packet is start-of-authority data of the Internet class in the authority
/// section that can be read, with its minimum field at a place.
pub open spec fn has_minimum_at(p: Seq<u8>, r: rr::NamedRr, at: int) -> bool {
    &&& r.section == rr::DnsSection::Authority
    &&& r.rr.rr_class == 1
    &&& r.rr.rr_type == 6
    &&& name::name_at(p, r.rr.rdata) matches Some(m)
    &&& name::name_at(p, m.1) matches Some(e)
    &&& at == e.1 + 16
    &&& at + 4 <= p.len()
}

proof fn lemma_first_soa(p: Seq<u8>, list: Seq<rr::NamedRr>)
    ensures
        match ttl::first_soa_ttl(p, list) {
            Some(t) => exists|i: int, at: int|
                0 <= i < list.len() && #[trigger] has_minimum_at(p, list[i], at) && t
                    <= list[i].rr.ttl && t <= wire::be32(p, at) && (t == list[i].rr.ttl || t
                    == wire::be32(p, at)) && forall|j: int, a: int|
                    0 <= j < i ==> !#[trigger] has_minimum_at(p, list[j], a),
            None => forall|j: int, a: int|
                0 <= j < list.len() ==> !#[trigger] has_minimum_at(p, list[j], a),
        },
    decreases list.len(),
{
    if list.len() > 0 {
        let rest = list.drop_first();
        if ttl::soa_ttl(p, list[0]) is Some {
            let m = name::name_at(p, list[0].rr.rdata)->0;
            let e = name::name_at(p, m.1)->0;
            assert(has_minimum_at(p, list[0], e.1 + 16));
        } else {
            lemma_first_soa(p, rest);
            assert(forall|a: int| !#[trigger] has_minimum_at(p, list[0], a));
            assert(forall|j: int| 0 < j < list.len() ==> #[trigger] list[j] == rest[j - 1]);
            match ttl::first_soa_ttl(p, rest) {
                Some(t) => {
                    let (i, at) = choose|i: int, at: int|
                        0 <= i < rest.len() && #[trigger] has_minimum_at(p, rest[i], at) && t
                            <= rest[i].rr.ttl && t <= wire::be32(p, at) && (t == rest[i].rr.ttl
                            || t == wire::be32(p, at)) && forall|j: int, a: int|
                            0 <= j < i ==> !#[trigger] has_minimum_at(p, rest[j], a);
                    assert(list[i + 1] == rest[i]);
                    assert(has_minimum_at(p, list[i + 1], at));
                    assert forall|j: int, a: int| 0 <= j < i + 1 implies !#[trigger] has_minimum_at(
                        p,
                        list[j],
                        a,
                    ) by {
                        if j > 0 {
                            assert(!has_minimum_at(p, rest[j - 1], a));
                        }
                    }
                },
                None => {
                    assert forall|j: int, a: int|
                        0 <= j < list.len() implies !#[trigger] has_minimum_at(p, list[j], a) by {
                        if j > 0 {
                            assert(!has_minimum_at(p, rest[j - 1], a));
                        }
                    }
                },
            }
        }
    }
}

/// A negative answer is cached for the smaller of the time to live and the minimum field of the
/// first start-of-authority record of its authority section that can be read, and not at all
/// without one.
pub proof fn lemma_negative_cached_for_the_smaller(p: Seq<u8>)
    requires
        p.len() >= 12,
    ensures
        ({
            let list = rr::scanned(p);
            match ttl::negative_ttl(p) {
                Some(t) => exists|i: int, at: int|
                    0 <= i < list.len() && #[trigger] has_minimum_at(p, list[i], at) && t
                        <= list[i].rr.ttl && t <= wire::be32(p, at) && (t == list[i].rr.ttl || t
                        == wire::be32(p, at)) && forall|j: int, a: int|
                        0 <= j < i ==> !#[trigger] has_minimum_at(p, list[j], a),
                None => forall|j: int, a: int|
                    0 <= j < list.len() ==> !#[trigger] has_minimum_at(p, list[j], a),
            }
        }),
{
    lemma_first_soa(p, rr::scanned(p));
}

} // verus!
