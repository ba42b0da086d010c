//! Answer sections that hold an alias chain, brought into order: the chain, and the records at its
//! end.
use crate::codec::address;
use crate::codec::answer;
use crate::codec::appended;
use crate::codec::edns;
use crate::codec::name;
use crate::codec::respond;
use crate::codec::rewrite;
use crate::codec::rr;
use crate::codec::rr::DnsRecordView;
use crate::codec::wire;
use crate::text;
use vstd::prelude::*;
use vstd::slice::*;

verus! {

/// Whether the record is an alias of class IN.
pub open spec fn is_alias(r: rr::NamedRr) -> bool {
    r.rr.rr_type == 5 && r.rr.rr_class == 1
}

/// The alias that a record states, if its data can be read.
pub open spec fn link_of(p: Seq<u8>, r: rr::NamedRr) -> Option<answer::CnameV> {
    if is_alias(r) {
        match name::name_at(p, r.rr.rdata) {
            Some((t, _)) => Some((r.owner, t, r.rr.ttl)),
            None => None,
        }
    } else {
        None
    }
}

/// Whether the data of every alias of the list can be read.
pub open spec fn links_readable(p: Seq<u8>, list: Seq<rr::NamedRr>) -> bool {
    forall|i: int|
        0 <= i < list.len() && is_alias(#[trigger] list[i]) ==> link_of(p, list[i]) is Some
}

/// An alias record with its names as they are.
pub open spec fn link_bytes(c: answer::CnameV) -> Option<Seq<u8>> {
    match (name::name_bytes(c.0), name::name_bytes(c.1)) {
        (Some(owner), Some(target)) => Some(owner + respond::rr_tail(5, 1, c.2, target)),
        _ => None,
    }
}

pub open spec fn all_link_bytes(links: Seq<answer::CnameV>) -> Option<Seq<u8>>
    decreases links.len(),
{
    if links.len() == 0 {
        Some(Seq::empty())
    } else {
        match (all_link_bytes(links.drop_last()), link_bytes(links.last())) {
            (Some(before), Some(r)) => Some(before + r),
            _ => None,
        }
    }
}

/// The record on its own, if it is of type `qtype` and class IN and belongs to `target`.
pub open spec fn terminal_of(
    p: Seq<u8>,
    r: rr::NamedRr,
    target: Seq<char>,
    qtype: u16,
) -> Option<answer::RecordV> {
    if answer::is_record_for(r, target, qtype) {
        Some(answer::record_of(p, r))
    } else {
        None
    }
}

pub open spec fn terminals(
    p: Seq<u8>,
    list: Seq<rr::NamedRr>,
    target: Seq<char>,
    qtype: u16,
) -> Seq<answer::RecordV> {
    list.filter_map(|r: rr::NamedRr| terminal_of(p, r, target, qtype))
}

pub open spec fn links(p: Seq<u8>) -> Seq<answer::CnameV> {
    answer::named_answers(p).filter_map(|r: rr::NamedRr| link_of(p, r))
}

/// The additional records whose names can be read.
pub open spec fn named_additionals(p: Seq<u8>) -> Seq<rr::NamedRr> {
    rr::named_list(
        p,
        rr::additional_start(p)->0,
        wire::header(p).arcount as nat,
        rr::DnsSection::Additional,
    )
}

/// The records at the end of the chain: those of the answer section, or else those of the
/// additional section. None where the additional section is needed and malformed.
pub open spec fn chain_end(p: Seq<u8>, target: Seq<char>, qtype: u16) -> Option<
    Seq<answer::RecordV>,
> {
    let here = terminals(p, answer::named_answers(p), target, qtype);
    if here.len() > 0 {
        Some(here)
    } else if rr::additional_start(p) is None || rr::named_end(
        p,
        rr::additional_start(p)->0,
        wire::header(p).arcount as nat,
    ) is None {
        None
    } else {
        Some(terminals(p, named_additionals(p), target, qtype))
    }
}

/// The new answer section and its number of records. Without a value where the packet is
/// malformed or a name in it cannot be written; without a section where there is no chain or
/// nothing at its end.
pub open spec fn chain_parts(p: Seq<u8>, qtype: u16) -> Option<Option<(Seq<u8>, nat)>> {
    if p.len() < 12 || !answer::answers_complete(p) || !links_readable(
        p,
        answer::named_answers(p),
    ) {
        None
    } else if links(p).len() == 0 {
        Some(None)
    } else {
        match (
            all_link_bytes(links(p)),
            chain_end(p, links(p).last().1, qtype),
        ) {
            (Some(c), Some(end)) => match rewrite::all_record_bytes(end) {
                None => None,
                Some(e) => if end.len() == 0 {
                    Some(None)
                } else {
                    Some(
                        Some((c + e, links(p).len() + respond::saturate16(end.len()) as nat)),
                    )
                },
            },
            _ => None,
        }
    }
}

/// The packet with its answer section brought into order.
pub open spec fn normalized(p: Seq<u8>, qtype: u16) -> Option<Seq<u8>> {
    match chain_parts(p, qtype) {
        None => None,
        Some(None) => Some(p),
        Some(Some((section, n))) => Some(
            wire::put16(
                p.take(rr::question_end(p)->0) + section + p.skip(rr::answer_end(p)->0),
                6,
                n as u16,
            ),
        ),
    }
}

fn push_link(out: &mut Vec<u8>, owner: &str, target: &str, ttl: u32) -> (ok: bool)
    ensures
        ok == (link_bytes((owner@, target@, ttl)) is Some),
        ok ==> final(out)@ == old(out)@ + link_bytes((owner@, target@, ttl))->0,
{
    let mut data: Vec<u8> = Vec::new();
    if name::encode_name(owner, out).is_none() || name::encode_name(target, &mut data).is_none() {
        return false;
    }
    assert(data@ =~= name::name_bytes(target@)->0);
    respond::push_rr_tail(out, 5, 1, ttl, data.as_slice());
    assert(out@ =~= old(out)@ + link_bytes((owner@, target@, ttl))->0);
    true
}

fn push_record(packet: &[u8], out: &mut Vec<u8>, r: &DnsRecordView) -> (ok: bool)
    requires
        r.rr.rdata <= r.rr.end <= packet@.len(),
    ensures
        ok == (rewrite::record_bytes(answer::record_of(packet@, r@)) is Some),
        ok ==> final(out)@ == old(out)@ + rewrite::record_bytes(
            answer::record_of(packet@, r@),
        )->0,
{
    if name::encode_name(r.owner.as_str(), out).is_none() {
        return false;
    }
    respond::push_rr_tail(
        out,
        r.rr.rr_type,
        r.rr.rr_class,
        r.rr.ttl,
        slice_subrange(packet, r.rr.rdata, r.rr.end),
    );
    assert(out@ =~= old(out)@ + rewrite::record_bytes(answer::record_of(packet@, r@))->0);
    true
}

proof fn lemma_record_bytes_prefix<A>(
    list: Seq<A>,
    f: spec_fn(A) -> Option<answer::RecordV>,
    i: int,
)
    requires
        0 <= i <= list.len(),
        rewrite::all_record_bytes(list.take(i).filter_map(f)) is None,
    ensures
        rewrite::all_record_bytes(list.filter_map(f)) is None,
    decreases list.len(),
{
    if i < list.len() {
        assert(list.drop_last().take(i) =~= list.take(i));
        lemma_record_bytes_prefix(list.drop_last(), f, i);
        let before = list.drop_last().filter_map(f);
        if let Some(r) = f(list.last()) {
            assert(list.filter_map(f) =~= before.push(r));
            assert(before.push(r).drop_last() =~= before);
        }
    } else {
        assert(list.take(i) =~= list);
    }
}

proof fn lemma_link_bytes_prefix(p: Seq<u8>, list: Seq<rr::NamedRr>, i: int)
    requires
        0 <= i <= list.len(),
        all_link_bytes(list.take(i).filter_map(|r: rr::NamedRr| link_of(p, r))) is None,
    ensures
        all_link_bytes(list.filter_map(|r: rr::NamedRr| link_of(p, r))) is None,
    decreases list.len(),
{
    let f = |r: rr::NamedRr| link_of(p, r);
    if i < list.len() {
        assert(list.drop_last().take(i) =~= list.take(i));
        lemma_link_bytes_prefix(p, list.drop_last(), i);
        let before = list.drop_last().filter_map(f);
        if let Some(r) = f(list.last()) {
            assert(list.filter_map(f) =~= before.push(r));
            assert(before.push(r).drop_last() =~= before);
        }
    } else {
        assert(list.take(i) =~= list);
    }
}

/// Writes the records of a list that are of type `qtype` and belong to `target`; also tells how
/// many there are.
fn write_terminals(
    packet: &[u8],
    records: &Vec<DnsRecordView>,
    target: &str,
    qtype: u16,
) -> (r: Option<(Vec<u8>, usize)>)
    requires
        forall|k: int|
            0 <= k < records@.len() ==> (#[trigger] records@[k]).rr.rdata <= records@[k].rr.end
                <= packet@.len(),
    ensures
        (match r {
            Some((b, _)) => Some(b@),
            None => None,
        }) == rewrite::all_record_bytes(
            terminals(packet@, rr::named_rrs(records@), target@, qtype),
        ),
        r matches Some((_, n)) ==> n == terminals(
            packet@,
            rr::named_rrs(records@),
            target@,
            qtype,
        ).len(),
{
    let ghost p = packet@;
    let ghost list = rr::named_rrs(records@);
    let ghost f = |r: rr::NamedRr| terminal_of(p, r, target@, qtype);
    let wanted = text::normalized(target);
    let mut out: Vec<u8> = Vec::new();
    let mut count: usize = 0;
    let mut i: usize = 0;
    assert(list.take(0).filter_map(f) =~= Seq::empty());
    assert(out@ =~= Seq::empty());
    while i < records.len()
        invariant
            i <= records@.len(),
            p == packet@,
            list == rr::named_rrs(records@),
            f == (|r: rr::NamedRr| terminal_of(p, r, target@, qtype)),
            wanted@ == text::norm(target@),
            forall|k: int|
                0 <= k < records@.len() ==> (#[trigger] records@[k]).rr.rdata <= records@[k].rr.end
                    <= p.len(),
            rewrite::all_record_bytes(list.take(i as int).filter_map(f)) == Some(out@),
            count == list.take(i as int).filter_map(f).len(),
            count <= i,
        decreases records@.len() - i,
    {
        let r = &records[i];
        assert(list[i as int] == records@[i as int]@);
        let ghost before = list.take(i as int).filter_map(f);
        proof {
            list.lemma_filter_map_take_succ(f, i as int);
        }
        if r.rr.rr_class == 1 && r.rr.rr_type == qtype && text::same(
            text::normalized(r.owner.as_str()).as_str(),
            wanted.as_str(),
        ) {
            let ghost v = answer::record_of(p, r@);
            assert(list.take(i + 1).filter_map(f) =~= before.push(v));
            assert(before.push(v).drop_last() =~= before);
            if !push_record(packet, &mut out, r) {
                proof {
                    lemma_record_bytes_prefix(list, f, i + 1);
                }
                return None;
            }
            count += 1;
        } else {
            assert(list.take(i + 1).filter_map(f) =~= before);
        }
        i += 1;
    }
    assert(list.take(i as int) =~= list);
    Some((out, count))
}

/// What walking the aliases of an answer section gives.
struct Chain {
    readable: bool,
    bytes: Option<Vec<u8>>,
    count: usize,
    target: Option<String>,
}

/// Writes the aliases of the answer section.
fn write_links(packet: &[u8], records: &Vec<DnsRecordView>) -> (r: Chain)
    requires
        rr::named_rrs(records@) == answer::named_answers(packet@),
    ensures
        r.readable == links_readable(packet@, answer::named_answers(packet@)),
        r.readable ==> {
            &&& edns::bytes_view(r.bytes) == all_link_bytes(links(packet@))
            &&& r.count == links(packet@).len()
            &&& address::text_view(r.target) == (if links(packet@).len() == 0 {
                None
            } else {
                Some(links(packet@).last().1)
            })
        },
{
    let ghost p = packet@;
    let ghost list = answer::named_answers(p);
    let ghost f = |r: rr::NamedRr| link_of(p, r);
    let mut out: Vec<u8> = Vec::new();
    let mut writable = true;
    let mut count: usize = 0;
    let mut target: Option<String> = None;
    let mut i: usize = 0;
    assert(list.take(0).filter_map(f) =~= Seq::empty());
    assert(out@ =~= Seq::empty());
    while i < records.len()
        invariant
            i <= records@.len(),
            p == packet@,
            list == answer::named_answers(p),
            list == rr::named_rrs(records@),
            f == (|r: rr::NamedRr| link_of(p, r)),
            forall|k: int|
                0 <= k < i && is_alias(#[trigger] list[k]) ==> link_of(p, list[k]) is Some,
            all_link_bytes(list.take(i as int).filter_map(f)) == (if writable {
                Some(out@)
            } else {
                None
            }),
            count == list.take(i as int).filter_map(f).len(),
            count <= i,
            address::text_view(target) == (if count == 0 {
                None
            } else {
                Some(list.take(i as int).filter_map(f).last().1)
            }),
        decreases records@.len() - i,
    {
        let r = &records[i];
        assert(list[i as int] == records@[i as int]@);
        let ghost before = list.take(i as int).filter_map(f);
        proof {
            list.lemma_filter_map_take_succ(f, i as int);
        }
        if r.rr.rr_type == 5 && r.rr.rr_class == 1 {
            match name::parse_name(packet, r.rr.rdata) {
                None => {
                    assert(is_alias(list[i as int]) && link_of(p, list[i as int]) is None);
                    return Chain { readable: false, bytes: None, count: 0, target: None };
                },
                Some((t, _)) => {
                    let ghost v = (r.owner@, t@, r.rr.ttl);
                    assert(list.take(i + 1).filter_map(f) =~= before.push(v));
                    assert(before.push(v).drop_last() =~= before);
                    if writable && !push_link(&mut out, r.owner.as_str(), t.as_str(), r.rr.ttl) {
                        writable = false;
                    }
                    count += 1;
                    target = Some(t);
                },
            }
        } else {
            assert(list.take(i + 1).filter_map(f) =~= before);
        }
        i += 1;
    }
    assert(list.take(i as int) =~= list);
    Chain {
        readable: true,
        bytes: if writable {
            Some(out)
        } else {
            None
        },
        count,
        target,
    }
}

/// Writes the records at the end of the chain; also tells how many there are.
fn write_chain_end(
    packet: &[u8],
    records: &Vec<DnsRecordView>,
    target: &str,
    qtype: u16,
) -> (r: Option<(Vec<u8>, usize)>)
    requires
        packet@.len() >= 12,
        rr::named_rrs(records@) == answer::named_answers(packet@),
        forall|k: int|
            0 <= k < records@.len() ==> (#[trigger] records@[k]).rr.rdata <= records@[k].rr.end
                <= packet@.len(),
    ensures
        (match r {
            Some((b, _)) => Some(b@),
            None => None,
        }) == (match chain_end(packet@, target@, qtype) {
            Some(end) => rewrite::all_record_bytes(end),
            None => None,
        }),
        r matches Some((_, n)) ==> n == chain_end(packet@, target@, qtype)->0.len(),
{
    let ghost p = packet@;
    let ghost here = terminals(p, answer::named_answers(p), target@, qtype);
    let (bytes, count) = match write_terminals(packet, records, target, qtype) {
        None => {
            proof {
                if here.len() == 0 {
                    assert(rewrite::all_record_bytes(here) is Some);
                }
            }
            return None;
        },
        Some(v) => v,
    };
    if count > 0 {
        return Some((bytes, count));
    }
    let header = match wire::parse_header(packet) {
        None => {
            return None;
        },
        Some(h) => h,
    };
    let start = match rr::skip_to_additional(packet, header) {
        None => {
            return None;
        },
        Some(s) => s,
    };
    let mut extra: Vec<DnsRecordView> = Vec::new();
    assert(rr::named_rrs(extra@) =~= Seq::empty());
    let end = rr::read_named(
        packet,
        start,
        header.arcount,
        rr::DnsSection::Additional,
        &mut extra,
    );
    if end.is_none() {
        return None;
    }
    assert(rr::named_rrs(extra@) =~= named_additionals(p));
    proof {
        rr::lemma_named_list_bounds(
            p,
            start as int,
            header.arcount as nat,
            rr::DnsSection::Additional,
        );
        assert forall|i: int| 0 <= i < extra@.len() implies (#[trigger] extra@[i]).rr.rdata
            <= extra@[i].rr.end <= p.len() by {
            assert(rr::named_rrs(extra@)[i] == extra@[i]@);
        }
    }
    write_terminals(packet, &extra, target, qtype)
}

/// The packet with its answer section brought into order: the alias chain, and the records of type
/// `qtype` at its end.
pub fn normalize_cname_chain_answers(packet: &[u8], qtype: u16) -> (r: Option<Vec<u8>>)
    requires
        chain_parts(packet@, qtype) matches Some(Some((_, n))) ==> n <= u16::MAX,
    ensures
        edns::bytes_view(r) == normalized(packet@, qtype),
{
    let header = match wire::parse_header(packet) {
        None => {
            return None;
        },
        Some(h) => h,
    };
    let (records, complete) = match answer::read_answers(packet) {
        None => {
            return None;
        },
        Some(v) => v,
    };
    if !complete {
        return None;
    }
    let chain = write_links(packet, &records);
    if !chain.readable {
        return None;
    }
    let target = match chain.target {
        None => {
            return Some(slice_to_vec(packet));
        },
        Some(t) => t,
    };
    let mut section = match chain.bytes {
        None => {
            return None;
        },
        Some(b) => b,
    };
    let (end_section, end_count) = match write_chain_end(
        packet,
        &records,
        target.as_str(),
        qtype,
    ) {
        None => {
            return None;
        },
        Some(v) => v,
    };
    if end_count == 0 {
        return Some(slice_to_vec(packet));
    }
    wire::push_bytes(&mut section, end_section.as_slice());
    let added: u16 = if end_count > 0xFFFF {
        0xFFFF
    } else {
        end_count as u16
    };
    assert(chain_parts(packet@, qtype) == Some(
        Some((section@, links(packet@).len() + respond::saturate16(end_count as nat) as nat)),
    ));
    let total: u16 = chain.count as u16 + added;
    let (start, end) = match (
        rr::skip_question_section(packet, header),
        rr::skip_answers(packet, header),
    ) {
        (Some(s), Some(e)) => (s, e),
        _ => {
            proof {
                rr::lemma_named_end_is_rr_end(
                    packet@,
                    rr::question_end(packet@)->0,
                    header.ancount as nat,
                );
            }
            return None;
        },
    };
    let mut out = wire::part(packet, 0, start);
    wire::push_bytes(&mut out, section.as_slice());
    wire::push_bytes(&mut out, slice_subrange(packet, end, packet.len()));
    assert(out@ =~= packet@.take(start as int) + section@ + packet@.skip(end as int));
    wire::put_u16(&mut out, 6, total);
    Some(out)
}

/// Records whose names can be read take eleven bytes or more each.
proof fn lemma_named_list_size(p: Seq<u8>, off: int, n: nat, section: rr::DnsSection)
    requires
        0 <= off <= p.len(),
    ensures
        off + 11 * rr::named_list(p, off, n, section).len() <= p.len(),
    decreases n,
{
    if n > 0 {
        if let Some(r) = rr::named_at(p, off, section) {
            rr::lemma_rr_bounds(p, off);
            lemma_named_list_size(p, r.rr.end, (n - 1) as nat, section);
        }
    }
}

proof fn lemma_filter_map_len<A, B>(list: Seq<A>, f: spec_fn(A) -> Option<B>)
    ensures
        list.filter_map(f).len() <= list.len(),
    decreases list.len(),
{
    let n = list.len() as int;
    if n > 0 {
        list.lemma_filter_map_take_succ(f, n - 1);
        assert(list.take(n) =~= list);
        lemma_filter_map_len(list.take(n - 1), f);
    }
}

/// The answers of a packet that fits into a message can be counted when they are brought into
/// order.
pub proof fn lemma_count_fits(p: Seq<u8>, qtype: u16)
    requires
        p.len() <= 65535,
    ensures
        chain_parts(p, qtype) matches Some(Some((_, n))) ==> n <= u16::MAX,
{
    if chain_parts(p, qtype) matches Some(Some((_, n))) {
        let named = answer::named_answers(p);
        let q = rr::question_end(p)->0;
        let target = links(p).last().1;
        appended::lemma_questions_bounds(p, 12, wire::header(p).qdcount as nat);
        lemma_named_list_size(p, q, wire::header(p).ancount as nat, rr::DnsSection::Answer);
        lemma_filter_map_len(named, |r: rr::NamedRr| link_of(p, r));
        lemma_filter_map_len(named, |r: rr::NamedRr| terminal_of(p, r, target, qtype));
        if terminals(p, named, target, qtype).len() == 0 {
            lemma_filter_map_len(
                named_additionals(p),
                |r: rr::NamedRr| terminal_of(p, r, target, qtype),
            );
            rr::lemma_rr_list(p, q, wire::header(p).ancount as nat);
            rr::lemma_rr_list(p, rr::answer_end(p)->0, wire::header(p).nscount as nat);
            lemma_named_list_size(
                p,
                rr::additional_start(p)->0,
                wire::header(p).arcount as nat,
                rr::DnsSection::Additional,
            );
        }
    }
}

} // verus!
