//! Address records: the addresses in an answer, and their order.
use crate::codec::rr;
use crate::codec::rr::DnsRr;
use crate::codec::wire;
use crate::ip;
use crate::text;
use vstd::prelude::*;
use vstd::slice::*;

verus! {

/// The text of the address in a record, if it is an address record of class IN.
pub open spec fn address_of(p: Seq<u8>, r: rr::Rr) -> Option<Seq<char>> {
    if r.rr_class == 1 && r.rr_type == 1 && r.end - r.rdata == 4 {
        Some(ip::ipv4_text(p.subrange(r.rdata, r.end)))
    } else if r.rr_class == 1 && r.rr_type == 28 && r.end - r.rdata == 16 {
        Some(ip::ipv6_text(p.subrange(r.rdata, r.end)))
    } else {
        None
    }
}

/// The addresses in the answer section, in order; none where a record is malformed.
pub open spec fn answer_ips(p: Seq<u8>) -> Seq<Seq<char>> {
    if p.len() < 12 || rr::answer_end(p) is None {
        Seq::empty()
    } else {
        rr::answers(p).filter_map(|r: rr::Rr| address_of(p, r))
    }
}

/// An address record with its rank: the position of its address among the preferred ones, or
/// their number and its own position where its address is not among them.
pub ghost struct Ranked {
    pub rank: int,
    pub rr: rr::Rr,
}

/// The position of the first occurrence of `x`, or the length where there is none.
pub open spec fn position(list: Seq<Seq<char>>, x: Seq<char>) -> int
    decreases list.len(),
{
    if list.len() == 0 || list[0] == x {
        0
    } else {
        1 + position(list.drop_first(), x)
    }
}

pub open spec fn rank_of(preferred: Seq<Seq<char>>, address: Seq<char>, index: int) -> int {
    let k = position(preferred, address);
    if k < preferred.len() {
        k
    } else {
        preferred.len() + index
    }
}

/// A list by rank, with `x` put behind those of its rank and before those of a higher one.
pub open spec fn insert_ranked(sorted: Seq<Ranked>, x: Ranked) -> Seq<Ranked>
    decreases sorted.len(),
{
    if sorted.len() == 0 {
        seq![x]
    } else if sorted[0].rank <= x.rank {
        seq![sorted[0]] + insert_ranked(sorted.drop_first(), x)
    } else {
        seq![x] + sorted
    }
}

/// The address records of a list by rank; those of one rank keep their order.
pub open spec fn ranked(p: Seq<u8>, list: Seq<rr::Rr>, preferred: Seq<Seq<char>>) -> Seq<Ranked>
    decreases list.len(),
{
    if list.len() == 0 {
        Seq::empty()
    } else {
        let before = ranked(p, list.drop_last(), preferred);
        match address_of(p, list.last()) {
            None => before,
            Some(a) => insert_ranked(
                before,
                Ranked { rank: rank_of(preferred, a, list.len() - 1), rr: list.last() },
            ),
        }
    }
}

/// The bytes of the records of a list, the places of its address records taken by those of
/// `sorted` in turn.
pub open spec fn merged(p: Seq<u8>, list: Seq<rr::Rr>, sorted: Seq<Ranked>) -> Seq<u8>
    decreases list.len(),
{
    if list.len() == 0 {
        Seq::empty()
    } else if address_of(p, list[0]) is Some {
        p.subrange(sorted[0].rr.start, sorted[0].rr.end) + merged(
            p,
            list.drop_first(),
            sorted.drop_first(),
        )
    } else {
        p.subrange(list[0].start, list[0].end) + merged(p, list.drop_first(), sorted)
    }
}

/// The packet with the address records of its answer section by rank; none where it is
/// malformed.
pub open spec fn reordered(p: Seq<u8>, preferred: Seq<Seq<char>>) -> Option<Seq<u8>> {
    if p.len() < 12 {
        None
    } else if wire::header(p).ancount <= 1 {
        Some(p)
    } else if rr::answer_end(p) is None {
        None
    } else {
        let sorted = ranked(p, rr::answers(p), preferred);
        if sorted.len() <= 1 {
            Some(p)
        } else {
            Some(
                p.take(rr::question_end(p)->0) + merged(p, rr::answers(p), sorted) + p.skip(
                    rr::answer_end(p)->0,
                ),
            )
        }
    }
}

/// The endpoint at the address in the data of an address record.
pub open spec fn endpoint_of(rr_type: u16, data: Seq<u8>, port: u16) -> Option<Seq<char>> {
    if rr_type == 1 && data.len() == 4 {
        Some(ip::ipv4_text(data) + ":"@ + text::decimal(port as nat))
    } else if rr_type == 28 && data.len() == 16 {
        Some("["@ + ip::ipv6_text(data) + "]:"@ + text::decimal(port as nat))
    } else {
        None
    }
}

/// A text as the specifications speak of it.
pub open spec fn text_view(r: Option<String>) -> Option<Seq<char>> {
    match r {
        Some(s) => Some(s@),
        None => None,
    }
}

fn address_text(packet: &[u8], r: DnsRr) -> (a: Option<String>)
    requires
        r.rdata <= r.end <= packet@.len(),
    ensures
        text_view(a) == address_of(packet@, r@),
{
    if r.rr_class == 1 && r.rr_type == 1 && r.end - r.rdata == 4 {
        Some(ip::format_ipv4(slice_subrange(packet, r.rdata, r.end)))
    } else if r.rr_class == 1 && r.rr_type == 28 && r.end - r.rdata == 16 {
        Some(ip::format_ipv6(slice_subrange(packet, r.rdata, r.end)))
    } else {
        None
    }
}

/// The endpoint at the address in the data of an address record.
pub fn endpoint_from_rdata_with_port(rr_type: u16, rdata: &[u8], port: u16) -> (r: Option<String>)
    ensures
        text_view(r) == endpoint_of(rr_type, rdata@, port),
{
    if rr_type == 1 && rdata.len() == 4 {
        let host = text::concat(ip::format_ipv4(rdata).as_str(), ":");
        Some(text::concat(host.as_str(), text::decimal_of(port as u64).as_str()))
    } else if rr_type == 28 && rdata.len() == 16 {
        let host = text::concat("[", ip::format_ipv6(rdata).as_str());
        let closed = text::concat(host.as_str(), "]:");
        Some(text::concat(closed.as_str(), text::decimal_of(port as u64).as_str()))
    } else {
        None
    }
}

/// The addresses in the answer section.
pub fn extract_answer_ips(packet: &[u8]) -> (r: Vec<String>)
    ensures
        text::views(r@) == answer_ips(packet@),
{
    let mut out: Vec<String> = Vec::new();
    assert(text::views(out@) =~= Seq::empty());
    let header = match wire::parse_header(packet) {
        None => {
            return out;
        },
        Some(h) => h,
    };
    let start = match rr::skip_question_section(packet, header) {
        None => {
            return out;
        },
        Some(s) => s,
    };
    let (list, end) = rr::read_rrs(packet, start, header.ancount);
    if end.is_none() {
        return out;
    }
    let ghost p = packet@;
    let ghost all = rr::answers(p);
    let ghost f = |r: rr::Rr| address_of(p, r);
    let mut i: usize = 0;
    assert(all.take(0).filter_map(f) =~= Seq::empty());
    while i < list.len()
        invariant
            i <= list@.len(),
            p == packet@,
            all == rr::rrs(list@),
            f == (|r: rr::Rr| address_of(p, r)),
            forall|k: int|
                0 <= k < list@.len() ==> (#[trigger] list@[k]).rdata <= list@[k].end <= p.len(),
            text::views(out@) == all.take(i as int).filter_map(f),
        decreases list@.len() - i,
    {
        assert(all[i as int] == list@[i as int]@);
        proof {
            all.lemma_filter_map_take_succ(f, i as int);
        }
        let ghost before = text::views(out@);
        if let Some(a) = address_text(packet, list[i]) {
            out.push(a);
            assert(text::views(out@) =~= before.push(a@));
        }
        assert(text::views(out@) =~= all.take(i + 1).filter_map(f));
        i += 1;
    }
    assert(all.take(i as int) =~= all);
    out
}

#[derive(Clone, Copy)]
struct Slot {
    known: bool,
    rank: usize,
    rr: DnsRr,
}

spec fn slot_view(s: Slot, preferred: nat) -> Ranked {
    Ranked {
        rank: if s.known {
            s.rank as int
        } else {
            preferred + s.rank
        },
        rr: s.rr@,
    }
}

spec fn slot_views(v: Seq<Slot>, preferred: nat) -> Seq<Ranked> {
    v.map_values(|s: Slot| slot_view(s, preferred))
}

fn find_position(list: &[String], x: &str) -> (r: usize)
    ensures
        r == position(text::views(list@), x@),
        r <= list@.len(),
{
    let ghost all = text::views(list@);
    let mut i: usize = 0;
    assert(all.skip(0) =~= all);
    while i < list.len()
        invariant
            i <= list@.len(),
            all == text::views(list@),
            position(all, x@) == i + position(all.skip(i as int), x@),
        decreases list@.len() - i,
    {
        assert(all.skip(i as int)[0] == list@[i as int]@);
        assert(all.skip(i as int).drop_first() =~= all.skip(i + 1));
        if text::same(list[i].as_str(), x) {
            return i;
        }
        i += 1;
    }
    i
}

fn not_behind(a: Slot, b: Slot, preferred: usize) -> (r: bool)
    requires
        a.known ==> a.rank < preferred,
        b.known ==> b.rank < preferred,
    ensures
        r == (slot_view(a, preferred as nat).rank <= slot_view(b, preferred as nat).rank),
{
    if a.known == b.known {
        a.rank <= b.rank
    } else {
        a.known
    }
}

fn insert_slot(sorted: &mut Vec<Slot>, x: Slot, preferred: usize)
    requires
        forall|k: int|
            0 <= k < old(sorted)@.len() ==> (#[trigger] old(sorted)@[k]).known ==> old(sorted)@[k].rank < preferred,
        x.known ==> x.rank < preferred,
    ensures
        slot_views(final(sorted)@, preferred as nat) == insert_ranked(
            slot_views(old(sorted)@, preferred as nat),
            slot_view(x, preferred as nat),
        ),
        forall|k: int|
            0 <= k < final(sorted)@.len() ==> (#[trigger] final(sorted)@[k]).known ==> final(sorted)@[k].rank < preferred,
        forall|k: int|
            0 <= k < final(sorted)@.len() ==> old(sorted)@.contains(#[trigger] final(sorted)@[k])
                || final(sorted)@[k] == x,
        final(sorted)@.len() == old(sorted)@.len() + 1,
{
    let ghost s = slot_views(sorted@, preferred as nat);
    let ghost v = slot_view(x, preferred as nat);
    let mut i: usize = 0;
    assert(s.skip(0) =~= s);
    assert(s.take(0) + insert_ranked(s.skip(0), v) =~= insert_ranked(s, v));
    while i < sorted.len() && not_behind(sorted[i], x, preferred)
        invariant
            i <= sorted@.len(),
            *sorted == *old(sorted),
            s == slot_views(sorted@, preferred as nat),
            v == slot_view(x, preferred as nat),
            insert_ranked(s, v) == s.take(i as int) + insert_ranked(s.skip(i as int), v),
            forall|k: int|
                0 <= k < sorted@.len() ==> (#[trigger] sorted@[k]).known ==> sorted@[k].rank
                    < preferred,
            x.known ==> x.rank < preferred,
        decreases sorted@.len() - i,
    {
        let ghost rest = s.skip(i as int);
        assert(rest[0] == slot_view(sorted@[i as int], preferred as nat));
        assert(rest.drop_first() =~= s.skip(i + 1));
        assert(s.take(i + 1) =~= s.take(i as int).push(rest[0]));
        assert(s.take(i as int) + (seq![rest[0]] + insert_ranked(s.skip(i + 1), v)) =~= s.take(
            i + 1,
        ) + insert_ranked(s.skip(i + 1), v));
        i += 1;
    }
    let ghost rest = s.skip(i as int);
    let ghost before = sorted@;
    if i < sorted.len() {
        assert(rest[0] == slot_view(sorted@[i as int], preferred as nat));
    }
    sorted.insert(i, x);
    assert(slot_views(sorted@, preferred as nat) =~= s.take(i as int) + insert_ranked(rest, v));
    assert forall|k: int| 0 <= k < sorted@.len() implies before.contains(#[trigger] sorted@[k])
        || sorted@[k] == x by {
        if k < i {
            assert(sorted@[k] == before[k]);
        } else if k > i {
            assert(sorted@[k] == before[k - 1]);
        }
    }
    assert forall|k: int| 0 <= k < sorted@.len() && (#[trigger] sorted@[k]).known implies sorted@[k].rank
        < preferred by {
        if k < i {
            assert(sorted@[k] == before[k]);
        } else if k > i {
            assert(sorted@[k] == before[k - 1]);
        }
    }
}

proof fn lemma_ranked_len(p: Seq<u8>, list: Seq<rr::Rr>, preferred: Seq<Seq<char>>)
    ensures
        ranked(p, list, preferred).len() == list.filter_map(|r: rr::Rr| address_of(p, r)).len(),
    decreases list.len(),
{
    let f = |r: rr::Rr| address_of(p, r);
    if list.len() > 0 {
        lemma_ranked_len(p, list.drop_last(), preferred);
        if let Some(a) = address_of(p, list.last()) {
            lemma_insert_ranked_len(
                ranked(p, list.drop_last(), preferred),
                Ranked { rank: rank_of(preferred, a, list.len() - 1), rr: list.last() },
            );
        }
    }
}

proof fn lemma_insert_ranked_len(sorted: Seq<Ranked>, x: Ranked)
    ensures
        insert_ranked(sorted, x).len() == sorted.len() + 1,
    decreases sorted.len(),
{
    if sorted.len() > 0 {
        lemma_insert_ranked_len(sorted.drop_first(), x);
    }
}

/// The address records by rank.
fn rank_addresses(packet: &[u8], list: &Vec<DnsRr>, preferred_ips: &[String]) -> (r: Vec<Slot>)
    requires
        forall|k: int|
            0 <= k < list@.len() ==> (#[trigger] list@[k]).start < list@[k].rdata <= list@[k].end
                <= packet@.len(),
    ensures
        slot_views(r@, preferred_ips@.len()) == ranked(
            packet@,
            rr::rrs(list@),
            text::views(preferred_ips@),
        ),
        forall|k: int|
            0 <= k < r@.len() ==> (#[trigger] r@[k]).rr.start < r@[k].rr.end <= packet@.len(),
{
    let mut sorted: Vec<Slot> = Vec::new();
    let ghost p = packet@;
    let ghost all = rr::rrs(list@);
    let ghost pref = text::views(preferred_ips@);
    let n: usize = preferred_ips.len();
    let mut i: usize = 0;
    assert(slot_views(sorted@, n as nat) =~= Seq::empty());
    assert(all.take(0) =~= Seq::empty());
    while i < list.len()
        invariant
            i <= list@.len(),
            p == packet@,
            all == rr::rrs(list@),
            pref == text::views(preferred_ips@),
            n == preferred_ips@.len(),
            forall|k: int|
                0 <= k < list@.len() ==> (#[trigger] list@[k]).start < list@[k].rdata
                    <= list@[k].end <= p.len(),
            slot_views(sorted@, n as nat) == ranked(p, all.take(i as int), pref),
            forall|k: int|
                0 <= k < sorted@.len() ==> (#[trigger] sorted@[k]).known ==> sorted@[k].rank < n,
            forall|k: int|
                0 <= k < sorted@.len() ==> (#[trigger] sorted@[k]).rr.start < sorted@[k].rr.end
                    <= p.len(),
        decreases list@.len() - i,
    {
        assert(all.take(i + 1).drop_last() =~= all.take(i as int));
        assert(all.take(i + 1).last() == list@[i as int]@);
        if let Some(a) = address_text(packet, list[i]) {
            let k = find_position(preferred_ips, a.as_str());
            let slot = if k < n {
                Slot { known: true, rank: k, rr: list[i] }
            } else {
                Slot { known: false, rank: i, rr: list[i] }
            };
            let ghost before = sorted@;
            insert_slot(&mut sorted, slot, n);
            assert forall|k: int| 0 <= k < sorted@.len() implies (#[trigger] sorted@[k]).rr.start
                < sorted@[k].rr.end <= p.len() by {
                if before.contains(sorted@[k]) {
                    let m = choose|m: int| 0 <= m < before.len() && before[m] == sorted@[k];
                    assert(before[m].rr.start < before[m].rr.end <= p.len());
                }
            }
        }
        i += 1;
    }
    assert(all.take(i as int) =~= all);
    sorted
}

/// The packet with the address records of its answer section in the order of `preferred_ips`;
/// those whose address is not among them come last.
pub fn reorder_answer_address_records(packet: &[u8], preferred_ips: &[String]) -> (r: Option<
    Vec<u8>,
>)
    ensures
        (match r {
            Some(v) => Some(v@),
            None => None,
        }) == reordered(packet@, text::views(preferred_ips@)),
{
    let header = match wire::parse_header(packet) {
        None => {
            return None;
        },
        Some(h) => h,
    };
    if header.ancount <= 1 {
        return Some(slice_to_vec(packet));
    }
    let start = match rr::skip_question_section(packet, header) {
        None => {
            return None;
        },
        Some(s) => s,
    };
    let (list, end) = rr::read_rrs(packet, start, header.ancount);
    let end: usize = match end {
        None => {
            return None;
        },
        Some(e) => e,
    };
    let sorted = rank_addresses(packet, &list, preferred_ips);
    if sorted.len() <= 1 {
        return Some(slice_to_vec(packet));
    }
    let ghost p = packet@;
    let ghost all = rr::answers(p);
    let ghost n = preferred_ips@.len();
    let ghost spec_sorted = slot_views(sorted@, n);
    let mut out = wire::part(packet, 0, start);
    let ghost head = out@;
    assert(head =~= p.take(start as int));
    let count: usize = sorted.len();
    let mut i: usize = 0;
    let mut k: usize = 0;
    assert(all.skip(0) =~= all && spec_sorted.skip(0) =~= spec_sorted);
    proof {
        lemma_ranked_len(p, all, text::views(preferred_ips@));
    }
    while i < list.len()
        invariant
            i <= list@.len(),
            k <= count,
            count == sorted@.len(),
            p == packet@,
            all == rr::rrs(list@),
            spec_sorted == slot_views(sorted@, n),
            forall|j: int|
                0 <= j < list@.len() ==> (#[trigger] list@[j]).start < list@[j].rdata
                    <= list@[j].end <= p.len(),
            forall|j: int|
                0 <= j < sorted@.len() ==> (#[trigger] sorted@[j]).rr.start < sorted@[j].rr.end
                    <= p.len(),
            head + merged(p, all, spec_sorted) == out@ + merged(
                p,
                all.skip(i as int),
                spec_sorted.skip(k as int),
            ),
            sorted@.len() - k == all.skip(i as int).filter_map(
                |r: rr::Rr| address_of(p, r),
            ).len(),
        decreases list@.len() - i,
    {
        let ghost rest = all.skip(i as int);
        assert(rest[0] == list@[i as int]@);
        assert(rest.drop_first() =~= all.skip(i + 1));
        proof {
            lemma_filter_map_first(rest, |r: rr::Rr| address_of(p, r));
        }
        if address_text(packet, list[i]).is_some() {
            let ghost before = out@;
            let r = sorted[k].rr;
            assert(spec_sorted.skip(k as int)[0].rr == r@);
            assert(spec_sorted.skip(k as int).drop_first() =~= spec_sorted.skip(k + 1));
            wire::push_bytes(&mut out, slice_subrange(packet, r.start, r.end));
            assert(out@ + merged(p, all.skip(i + 1), spec_sorted.skip(k + 1)) =~= before + merged(
                p,
                rest,
                spec_sorted.skip(k as int),
            ));
            k += 1;
        } else {
            let ghost before = out@;
            let r = list[i];
            wire::push_bytes(&mut out, slice_subrange(packet, r.start, r.end));
            assert(out@ + merged(p, all.skip(i + 1), spec_sorted.skip(k as int)) =~= before
                + merged(p, rest, spec_sorted.skip(k as int)));
        }
        i += 1;
    }
    assert(all.skip(i as int) =~= Seq::empty());
    assert(out@ =~= head + merged(p, all, spec_sorted));
    wire::push_bytes(&mut out, slice_subrange(packet, end, packet.len()));
    assert(p.subrange(end as int, p.len() as int) =~= p.skip(end as int));
    Some(out)
}

proof fn lemma_filter_map_first<A, B>(s: Seq<A>, f: spec_fn(A) -> Option<B>)
    requires
        s.len() > 0,
    ensures
        s.filter_map(f) == (match f(s[0]) {
            Some(b) => seq![b],
            None => Seq::empty(),
        }) + s.drop_first().filter_map(f),
    decreases s.len(),
{
    if s.len() == 1 {
        assert(s.drop_last() =~= Seq::empty());
        assert(s.drop_first() =~= Seq::empty());
    } else {
        lemma_filter_map_first(s.drop_last(), f);
        assert(s.drop_last().drop_first() =~= s.drop_first().drop_last());
        assert(s.drop_first().last() == s.last());
    }
}

} // verus!
