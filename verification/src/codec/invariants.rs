//! What the rewriting of responses keeps.
use crate::codec::address;
use crate::codec::answer;
use crate::codec::edns;
use crate::codec::name;
use crate::codec::query;
use crate::codec::referral;
use crate::codec::respond;
use crate::codec::rewrite;
use crate::codec::rr;
use crate::codec::ttl;
use crate::codec::wire;
use vstd::prelude::*;

verus! {

/// Lowering the times to live keeps the length and everything before the records.
pub(crate) proof fn lemma_decay_frame(p: Seq<u8>, off: int, n: nat, secs: u32)
    requires
        0 <= off,
    ensures
        ttl::decayed_from(p, off, n, secs).len() == p.len(),
        forall|i: int|
            0 <= i < off && i < p.len() ==> #[trigger] ttl::decayed_from(p, off, n, secs)[i]
                == p[i],
    decreases n,
{
    if n > 0 {
        if let Some(e) = name::name_end(p, off) {
            name::lemma_name_end_bounds(p, off);
            if e + 10 <= p.len() {
                let q = wire::put32(p, e + 4, ttl::sub_floor(wire::be32(p, e + 4), secs));
                let next = e + 10 + wire::be16(p, e + 8);
                if next <= p.len() {
                    lemma_decay_frame(q, next, (n - 1) as nat, secs);
                }
            }
        }
    }
}

/// A time to live that is lowered by nothing stays.
proof fn lemma_decay_by_nothing(p: Seq<u8>, off: int, n: nat)
    requires
        0 <= off,
    ensures
        ttl::decayed_from(p, off, n, 0) == p,
    decreases n,
{
    if n > 0 {
        if let Some(e) = name::name_end(p, off) {
            name::lemma_name_end_bounds(p, off);
            if e + 10 <= p.len() {
                let q = wire::put32(p, e + 4, ttl::sub_floor(wire::be32(p, e + 4), 0));
                assert(q =~= p);
                let next = e + 10 + wire::be16(p, e + 8);
                if next <= p.len() {
                    lemma_decay_by_nothing(p, next, (n - 1) as nat);
                }
            }
        }
    }
}

/// A cached response keeps its length, its header and its questions whatever its age, and a
/// response that was cached just now is served as it is.
pub proof fn lemma_decayed(p: Seq<u8>, secs: u32)
    ensures
        ttl::decayed(p, secs).len() == p.len(),
        forall|i: int|
            0 <= i < 12 && i < p.len() ==> #[trigger] ttl::decayed(p, secs)[i] == p[i],
        rr::question_end(p) matches Some(q) ==> forall|i: int|
            0 <= i < q && i < p.len() ==> #[trigger] ttl::decayed(p, secs)[i] == p[i],
        ttl::decayed(p, 0) == p,
{
    if p.len() >= 12 {
        edns::lemma_section_starts(p);
        if let Some(q) = rr::question_end(p) {
            lemma_decay_frame(p, q, ttl::record_count(p), secs);
            lemma_decay_by_nothing(p, q, ttl::record_count(p));
        }
    }
}

/// A response that does not fit is cut so that it does, as soon as its question fits: it is then
/// marked as truncated and has no answers. One that fits is sent as it is.
pub proof fn lemma_truncated(request: Seq<u8>, response: Seq<u8>)
    requires
        rewrite::truncated(request, response) is Some,
    ensures
        ({
            let t = rewrite::truncated(request, response)->0;
            let limit = edns::udp_limit(request);
            &&& response.len() <= limit ==> t == response
            &&& response.len() > limit ==> {
                &&& t.len() <= limit || t.len() == (query::first_question(response)->0).2
                &&& wire::be16(t, 2) & 0x0200 == 0x0200
                &&& wire::be16(t, 6) == 0 && wire::be16(t, 8) == 0 && wire::be16(t, 10) <= 1
                &&& t[0] == response[0] && t[1] == response[1]
            }
        }),
{
    let limit = edns::udp_limit(request);
    if response.len() > limit {
        query::lemma_first_question_end(response);
        let e = (query::first_question(response)->0).2;
        let flags = wire::be16(response.take(e), 2);
        let cut = rewrite::cut_to_question(response, e);
        assert((flags | 0x0200) & 0x0200 == 0x0200) by (bit_vector);
        let t = rewrite::truncated(request, response)->0;
        assert(cut.len() == e);
        assert(cut[2] == ((flags | 0x0200u16) / 256) as u8 && cut[3] == ((flags | 0x0200u16)
            % 256) as u8);
        assert(t[2] == cut[2] && t[3] == cut[3]);
        assert(wire::be16(t, 2) == flags | 0x0200u16);
    }
}

/// The bytes that the records of a list take.
pub open spec fn total(list: Seq<rr::Rr>) -> int
    decreases list.len(),
{
    if list.len() == 0 {
        0
    } else {
        total(list.drop_last()) + (list.last().end - list.last().start)
    }
}

pub open spec fn ranked_total(list: Seq<address::Ranked>) -> int
    decreases list.len(),
{
    if list.len() == 0 {
        0
    } else {
        (list[0].rr.end - list[0].rr.start) + ranked_total(list.drop_first())
    }
}

proof fn lemma_insert_total(sorted: Seq<address::Ranked>, x: address::Ranked)
    ensures
        ranked_total(address::insert_ranked(sorted, x)) == ranked_total(sorted) + (x.rr.end
            - x.rr.start),
        address::insert_ranked(sorted, x).to_multiset() == sorted.to_multiset().insert(x),
        address::insert_ranked(sorted, x).len() == sorted.len() + 1,
    decreases sorted.len(),
{
    broadcast use vstd::seq_lib::group_to_multiset_ensures;

    if sorted.len() == 0 {
        assert(seq![x].drop_first() =~= Seq::empty());
        assert(sorted =~= Seq::empty());
        assert(seq![x] =~= Seq::empty().push(x));
        assert(seq![x].to_multiset() =~= sorted.to_multiset().insert(x));
    } else if sorted[0].rank <= x.rank {
        let rest = sorted.drop_first();
        lemma_insert_total(rest, x);
        let all = seq![sorted[0]] + address::insert_ranked(rest, x);
        assert(all.drop_first() =~= address::insert_ranked(rest, x));
        assert(all.to_multiset() =~= rest.to_multiset().insert(x).insert(sorted[0])) by {
            lemma_front(sorted[0], address::insert_ranked(rest, x));
        }
        assert(sorted.to_multiset() =~= rest.to_multiset().insert(sorted[0])) by {
            assert(seq![sorted[0]] + rest =~= sorted);
            lemma_front(sorted[0], rest);
        }
        assert(all.to_multiset() =~= sorted.to_multiset().insert(x));
    } else {
        let all = seq![x] + sorted;
        assert(all.drop_first() =~= sorted);
        lemma_front(x, sorted);
    }
}

proof fn lemma_front(x: address::Ranked, s: Seq<address::Ranked>)
    ensures
        (seq![x] + s).to_multiset() == s.to_multiset().insert(x),
{
    broadcast use vstd::seq_lib::group_to_multiset_ensures;

    vstd::seq_lib::lemma_multiset_commutative(seq![x], s);
    assert(seq![x] =~= Seq::empty().push(x));
    assert(seq![x].to_multiset() =~= vstd::multiset::Multiset::empty().insert(x));
    assert((seq![x] + s).to_multiset() =~= s.to_multiset().insert(x));
}

/// The address records of a list, each with its rank, in the order of the list.
pub open spec fn addressed(
    p: Seq<u8>,
    list: Seq<rr::Rr>,
    preferred: Seq<Seq<char>>,
) -> Seq<address::Ranked>
    decreases list.len(),
{
    if list.len() == 0 {
        Seq::empty()
    } else {
        let before = addressed(p, list.drop_last(), preferred);
        match address::address_of(p, list.last()) {
            None => before,
            Some(a) => before.push(
                address::Ranked {
                    rank: address::rank_of(preferred, a, list.len() - 1),
                    rr: list.last(),
                },
            ),
        }
    }
}

/// Ranking puts the address records of a list in another order: it adds none and loses none.
pub proof fn lemma_ranked_is_permutation(
    p: Seq<u8>,
    list: Seq<rr::Rr>,
    preferred: Seq<Seq<char>>,
)
    ensures
        address::ranked(p, list, preferred).to_multiset() == addressed(
            p,
            list,
            preferred,
        ).to_multiset(),
    decreases list.len(),
{
    broadcast use vstd::seq_lib::group_to_multiset_ensures;

    if list.len() > 0 {
        lemma_ranked_is_permutation(p, list.drop_last(), preferred);
        if let Some(a) = address::address_of(p, list.last()) {
            let x = address::Ranked {
                rank: address::rank_of(preferred, a, list.len() - 1),
                rr: list.last(),
            };
            lemma_insert_total(address::ranked(p, list.drop_last(), preferred), x);
            assert(addressed(p, list, preferred).to_multiset() =~= addressed(
                p,
                list.drop_last(),
                preferred,
            ).to_multiset().insert(x));
        }
    }
}

/// The bytes that the address records of a list take.
pub open spec fn address_total(p: Seq<u8>, list: Seq<rr::Rr>) -> int
    decreases list.len(),
{
    if list.len() == 0 {
        0
    } else {
        address_total(p, list.drop_last()) + (if address::address_of(p, list.last()) is Some {
            list.last().end - list.last().start
        } else {
            0
        })
    }
}

pub open spec fn address_count(p: Seq<u8>, list: Seq<rr::Rr>) -> nat
    decreases list.len(),
{
    if list.len() == 0 {
        0
    } else {
        address_count(p, list.drop_last()) + (if address::address_of(p, list.last()) is Some {
            1nat
        } else {
            0
        })
    }
}

proof fn lemma_ranked_total(p: Seq<u8>, list: Seq<rr::Rr>, preferred: Seq<Seq<char>>)
    ensures
        ranked_total(address::ranked(p, list, preferred)) == address_total(p, list),
        address::ranked(p, list, preferred).len() == address_count(p, list),
        forall|i: int|
            0 <= i < address::ranked(p, list, preferred).len() ==> list.contains(
                (#[trigger] address::ranked(p, list, preferred)[i]).rr,
            ),
    decreases list.len(),
{
    if list.len() > 0 {
        let start = list.drop_last();
        lemma_ranked_total(p, start, preferred);
        let before = address::ranked(p, start, preferred);
        let after = address::ranked(p, list, preferred);
        assert forall|i: int| 0 <= i < before.len() implies list.contains(
            (#[trigger] before[i]).rr,
        ) by {
            assert(start.contains(before[i].rr));
            let k = choose|k: int| 0 <= k < start.len() && start[k] == before[i].rr;
            assert(list[k] == before[i].rr);
        }
        assert(list[list.len() - 1] == list.last());
        if let Some(a) = address::address_of(p, list.last()) {
            let x = address::Ranked {
                rank: address::rank_of(preferred, a, list.len() - 1),
                rr: list.last(),
            };
            lemma_insert_total(before, x);
            assert forall|i: int| 0 <= i < after.len() implies list.contains(
                (#[trigger] after[i]).rr,
            ) by {
                lemma_insert_member(before, x, i);
            }
        }
    }
}

proof fn lemma_insert_member(sorted: Seq<address::Ranked>, x: address::Ranked, i: int)
    requires
        0 <= i < address::insert_ranked(sorted, x).len(),
    ensures
        address::insert_ranked(sorted, x)[i] == x || sorted.contains(
            address::insert_ranked(sorted, x)[i],
        ),
    decreases sorted.len(),
{
    let all = address::insert_ranked(sorted, x);
    if sorted.len() > 0 {
        if sorted[0].rank <= x.rank {
            let rest = sorted.drop_first();
            if i == 0 {
                assert(sorted[0] == all[0]);
            } else {
                assert(all[i] == address::insert_ranked(rest, x)[i - 1]);
                lemma_insert_member(rest, x, i - 1);
                if all[i] != x {
                    let k = choose|k: int| 0 <= k < rest.len() && rest[k] == all[i];
                    assert(sorted[k + 1] == all[i]);
                }
            }
        } else if i > 0 {
            assert(all[i] == sorted[i - 1]);
        }
    }
}

proof fn lemma_address_first(p: Seq<u8>, list: Seq<rr::Rr>)
    requires
        list.len() > 0,
    ensures
        address_total(p, list) == address_total(p, list.drop_first()) + (if address::address_of(
            p,
            list[0],
        ) is Some {
            list[0].end - list[0].start
        } else {
            0
        }),
        address_count(p, list) == address_count(p, list.drop_first()) + (if address::address_of(
            p,
            list[0],
        ) is Some {
            1nat
        } else {
            0
        }),
        total(list) == total(list.drop_first()) + (list[0].end - list[0].start),
    decreases list.len(),
{
    if list.len() == 1 {
        assert(list.drop_first() =~= list.drop_last());
        assert(list.drop_first() =~= Seq::empty());
    } else {
        lemma_address_first(p, list.drop_last());
        assert(list.drop_first().drop_last() =~= list.drop_last().drop_first());
        assert(list.drop_first().last() == list.last());
        assert(list.drop_last()[0] == list[0]);
    }
}

/// The bytes of a list, its address records replaced, where the replacements lie in the packet.
proof fn lemma_merged_len(p: Seq<u8>, list: Seq<rr::Rr>, sorted: Seq<address::Ranked>)
    requires
        forall|i: int|
            0 <= i < list.len() ==> 0 <= (#[trigger] list[i]).start <= list[i].end <= p.len(),
        forall|i: int|
            0 <= i < sorted.len() ==> 0 <= (#[trigger] sorted[i]).rr.start <= sorted[i].rr.end
                <= p.len(),
        sorted.len() == address_count(p, list),
    ensures
        address::merged(p, list, sorted).len() == total(list) - address_total(p, list)
            + ranked_total(sorted),
    decreases list.len(),
{
    if list.len() == 0 {
        assert(sorted =~= Seq::empty());
    } else {
        lemma_address_first(p, list);
        let rest = list.drop_first();
        assert forall|i: int| 0 <= i < rest.len() implies 0 <= (#[trigger] rest[i]).start
            <= rest[i].end <= p.len() by {
            assert(rest[i] == list[i + 1]);
        }
        assert(0 <= list[0].start <= list[0].end <= p.len());
        if address::address_of(p, list[0]) is Some {
            let others = sorted.drop_first();
            assert(0 <= sorted[0].rr.start <= sorted[0].rr.end <= p.len());
            assert forall|i: int| 0 <= i < others.len() implies 0 <= (#[trigger] others[i]).rr.start
                <= others[i].rr.end <= p.len() by {
                assert(others[i] == sorted[i + 1]);
            }
            lemma_merged_len(p, rest, others);
        } else {
            lemma_merged_len(p, rest, sorted);
        }
    }
}

proof fn lemma_list_total(p: Seq<u8>, off: int, n: nat)
    requires
        0 <= off,
        rr::rr_end(p, off, n) is Some,
    ensures
        total(rr::rr_list(p, off, n)) == rr::rr_end(p, off, n)->0 - off,
    decreases n,
{
    if n > 0 {
        rr::lemma_rr_bounds(p, off);
        let r = rr::rr_at(p, off)->0;
        let rest = rr::rr_list(p, r.end, (n - 1) as nat);
        let list = rr::rr_list(p, off, n);
        lemma_list_total(p, r.end, (n - 1) as nat);
        lemma_address_first(p, list);
        assert(list.drop_first() =~= rest);
    }
}

/// Putting the address records of the answer section in another order keeps the length of the
/// packet, its header and questions, and everything behind the answers.
pub proof fn lemma_reordered(p: Seq<u8>, preferred: Seq<Seq<char>>)
    requires
        address::reordered(p, preferred) is Some,
    ensures
        ({
            let q = address::reordered(p, preferred)->0;
            &&& q.len() == p.len()
            &&& q.take(12) == p.take(12)
            &&& rr::answer_end(p) matches Some(a) ==> q.skip(a) == p.skip(a)
        }),
{
    let q = address::reordered(p, preferred)->0;
    if wire::header(p).ancount > 1 && address::ranked(p, rr::answers(p), preferred).len() > 1 {
        let n = wire::header(p).ancount as nat;
        let s = rr::question_end(p)->0;
        let a = rr::answer_end(p)->0;
        let list = rr::answers(p);
        let sorted = address::ranked(p, list, preferred);
        edns::lemma_section_starts(p);
        rr::lemma_rr_list(p, s, n);
        lemma_list_total(p, s, n);
        lemma_ranked_total(p, list, preferred);
        assert forall|i: int| 0 <= i < list.len() implies 0 <= (#[trigger] list[i]).start
            <= list[i].end <= p.len() by {}
        assert forall|i: int| 0 <= i < sorted.len() implies 0 <= (#[trigger] sorted[i]).rr.start
            <= sorted[i].rr.end <= p.len() by {
            assert(list.contains(sorted[i].rr));
            let k = choose|k: int| 0 <= k < list.len() && list[k] == sorted[i].rr;
            assert(list[k] == sorted[i].rr);
        }
        lemma_merged_len(p, list, sorted);
        let m = address::merged(p, list, sorted);
        assert(m.len() == a - s);
        assert(q.take(12) =~= p.take(12));
        assert(q.skip(a) =~= p.skip(a));
    } else {
        assert(q == p);
    }
}

/// The aliases that are added are new: none of them is known, no two are the same, and of the
/// list every one is known or added.
pub proof fn lemma_new_aliases(
    known: Seq<(Seq<char>, Seq<char>)>,
    records: Seq<answer::CnameV>,
)
    ensures
        ({
            let keys = rewrite::alias_keys(rewrite::new_aliases(known, records));
            &&& forall|i: int| 0 <= i < keys.len() ==> !known.contains(#[trigger] keys[i])
            &&& keys.no_duplicates()
            &&& forall|i: int|
                0 <= i < records.len() ==> known.contains(
                    rewrite::alias_key(#[trigger] records[i]),
                ) || keys.contains(rewrite::alias_key(records[i]))
        }),
    decreases records.len(),
{
    if records.len() > 0 {
        let start = records.drop_last();
        lemma_new_aliases(known, start);
        let before = rewrite::new_aliases(known, start);
        let after = rewrite::new_aliases(known, records);
        let a = rewrite::alias_keys(before);
        let b = rewrite::alias_keys(after);
        let key = rewrite::alias_key(records.last());
        if !(known.contains(key) || a.contains(key)) {
            assert(b =~= a.push(key));
        }
        assert forall|i: int| 0 <= i < records.len() implies known.contains(
            rewrite::alias_key(#[trigger] records[i]),
        ) || b.contains(rewrite::alias_key(records[i])) by {
            let k = rewrite::alias_key(records[i]);
            if i < start.len() {
                assert(start[i] == records[i]);
                if a.contains(k) {
                    let j = choose|j: int| 0 <= j < a.len() && a[j] == k;
                    assert(b[j] == k);
                }
            } else if !(known.contains(key) || a.contains(key)) {
                assert(b[b.len() - 1] == key);
            }
        }
    }
}

/// The records that are added are new: none of them is known, no two are the same, and of the
/// list every one is known or added.
pub proof fn lemma_new_records(
    known: Seq<(Seq<char>, u16, u16, Seq<u8>)>,
    records: Seq<answer::RecordV>,
)
    ensures
        ({
            let keys = rewrite::record_keys(rewrite::new_records(known, records));
            &&& forall|i: int| 0 <= i < keys.len() ==> !known.contains(#[trigger] keys[i])
            &&& keys.no_duplicates()
            &&& forall|i: int|
                0 <= i < records.len() ==> known.contains(
                    rewrite::record_key(#[trigger] records[i]),
                ) || keys.contains(rewrite::record_key(records[i]))
        }),
    decreases records.len(),
{
    if records.len() > 0 {
        let start = records.drop_last();
        lemma_new_records(known, start);
        let before = rewrite::new_records(known, start);
        let after = rewrite::new_records(known, records);
        let a = rewrite::record_keys(before);
        let b = rewrite::record_keys(after);
        let key = rewrite::record_key(records.last());
        if !(known.contains(key) || a.contains(key)) {
            assert(b =~= a.push(key));
        }
        assert forall|i: int| 0 <= i < records.len() implies known.contains(
            rewrite::record_key(#[trigger] records[i]),
        ) || b.contains(rewrite::record_key(records[i])) by {
            let k = rewrite::record_key(records[i]);
            if i < start.len() {
                assert(start[i] == records[i]);
                if a.contains(k) {
                    let j = choose|j: int| 0 <= j < a.len() && a[j] == k;
                    assert(b[j] == k);
                }
            } else if !(known.contains(key) || a.contains(key)) {
                assert(b[b.len() - 1] == key);
            }
        }
    }
}

/// The trust in a referral lies between 20 and 100.
pub proof fn lemma_trust_bounds(a: referral::ReferralV)
    ensures
        20 <= referral::trust(a) <= 100,
{
}

/// A response with a response code answers the request: under its identifier, marked as a
/// response, with the lower bits of the code.
pub proof fn lemma_rcode_response(request: Seq<u8>, rcode: u16)
    requires
        respond::rcode_response(request, rcode) is Ok,
    ensures
        ({
            let h = wire::header(respond::rcode_response(request, rcode)->Ok_0);
            &&& h.id == wire::header(request).id
            &&& h.flags & 0x8000 == 0x8000
            &&& h.flags & 0x000F == rcode & 0x000F
            &&& h.flags & 0x7900 == wire::header(request).flags & 0x7900
            &&& h.ancount == 0 && h.nscount == 0 && h.arcount <= 1
        }),
{
    let f = wire::header(request).flags;
    let extra = rcode & 0x000F;
    let flags = respond::response_flags(f, extra);
    assert((0x8000u16 | (f & 0x7800) | (f & 0x0100) | 0x0080u16 | (rcode & 0x000F)) & 0x8000
        == 0x8000) by (bit_vector);
    assert((0x8000u16 | (f & 0x7800) | (f & 0x0100) | 0x0080u16 | (rcode & 0x000F)) & 0x000F == rcode
        & 0x000F) by (bit_vector);
    assert((0x8000u16 | (f & 0x7800) | (f & 0x0100) | 0x0080u16 | (rcode & 0x000F)) & 0x7900 == f
        & 0x7900) by (bit_vector);
    let count: u16 = if wire::header(request).qdcount == 0 {
        0
    } else {
        1
    };
    let h = respond::response_header(request, extra, count, 0, 0);
    let base = wire::header_bytes(h);
    let plain = if count == 0 {
        base
    } else {
        base + request.subrange(12, (query::first_question(request)->0).2)
    };
    query::lemma_first_question_end(request);
    assert(plain.take(12) =~= base);
    wire::lemma_header_bytes(plain, h);
    let r = respond::rcode_response(request, rcode)->Ok_0;
    assert(r == edns::echo_opt(request, plain, rcode));
    if r != plain {
        let opt = edns::response_opt(request, rcode)->0;
        let joined = plain + opt;
        assert(r == wire::put16(joined, 10, 1));
        assert(forall|i: int| 0 <= i < 10 ==> r[i] == plain[i]);
        assert(r[10] == 0 && r[11] == 1);
    }
}

} // verus!
