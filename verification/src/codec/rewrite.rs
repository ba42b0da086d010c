//! Packets made from other packets: answers appended, questions replaced, responses cut short.
use crate::codec::answer;
use crate::codec::edns;
use crate::codec::name;
use crate::codec::plain;
use crate::codec::query;
use crate::codec::respond;
use crate::codec::respond::CodecError;
use crate::codec::respond::DnsAdditionalRecord;
use crate::codec::rr;
use crate::codec::wire;
use crate::text;
use vstd::prelude::*;
use vstd::slice::*;

verus! {

/// The packet cut down to its first question, marked as truncated.
pub open spec fn cut_to_question(p: Seq<u8>, end: int) -> Seq<u8> {
    let t = p.take(end);
    wire::put16(
        wire::put16(
            wire::put16(wire::put16(t, 2, wire::be16(t, 2) | 0x0200), 6, 0),
            8,
            0,
        ),
        10,
        0,
    )
}

/// The response as it is sent over UDP: as it is where it fits; else cut down to its question,
/// with the request's OPT record where that still fits.
pub open spec fn truncated(request: Seq<u8>, response: Seq<u8>) -> Option<Seq<u8>> {
    let limit = edns::udp_limit(request);
    if response.len() <= limit {
        Some(response)
    } else {
        match query::first_question(response) {
            None => None,
            Some((_, _, e)) => {
                let t = cut_to_question(response, e);
                match edns::opt_bytes(request) {
                    Some(opt) if t.len() + opt.len() <= limit => Some(
                        wire::put16(t + opt, 10, 1),
                    ),
                    _ => Some(t),
                }
            },
        }
    }
}

/// The packet with the question section of the request in place of its own.
pub open spec fn requestioned(p: Seq<u8>, request: Seq<u8>) -> Option<Seq<u8>> {
    if p.len() < 12 || request.len() < 12 {
        None
    } else {
        match (rr::question_end(p), rr::question_end(request)) {
            (Some(a), Some(b)) => if p.subrange(12, a) == request.subrange(12, b) {
                Some(p)
            } else {
                Some(
                    wire::put16(
                        p.take(12) + request.subrange(12, b) + p.skip(a),
                        4,
                        wire::header(request).qdcount,
                    ),
                )
            },
            _ => None,
        }
    }
}

/// The packet with the question section of the request and its own answers written without
/// name compression; the other sections are dropped.
pub open spec fn reencoded(p: Seq<u8>, request: Seq<u8>) -> Option<Seq<u8>> {
    if p.len() < 12 || request.len() < 12 {
        None
    } else {
        match (
            rr::question_end(p),
            rr::question_end(request),
            plain::plain_records(p, answer::named_answers(p)),
        ) {
            (Some(_), Some(b), Some(records)) if answer::answers_complete(p) => Some(
                wire::put16(
                    wire::put16(
                        wire::put16(
                            p.take(12) + request.subrange(12, b) + records,
                            4,
                            wire::header(request).qdcount,
                        ),
                        10,
                        0,
                    ),
                    8,
                    0,
                ),
            ),
            _ => None,
        }
    }
}

/// The two names of an alias as they are compared.
pub open spec fn alias_key(c: answer::CnameV) -> (Seq<char>, Seq<char>) {
    (text::norm(c.0), text::norm(c.1))
}

/// The aliases of a list whose names are not among `known` nor earlier in the list.
pub open spec fn new_aliases(
    known: Seq<(Seq<char>, Seq<char>)>,
    records: Seq<answer::CnameV>,
) -> Seq<answer::CnameV>
    decreases records.len(),
{
    if records.len() == 0 {
        Seq::empty()
    } else {
        let before = new_aliases(known, records.drop_last());
        let key = alias_key(records.last());
        if known.contains(key) || alias_keys(before).contains(key) {
            before
        } else {
            before.push(records.last())
        }
    }
}

pub open spec fn alias_keys(records: Seq<answer::CnameV>) -> Seq<(Seq<char>, Seq<char>)> {
    records.map_values(|c: answer::CnameV| alias_key(c))
}

/// An alias record with its names in the form in which they are compared.
pub open spec fn alias_bytes(c: answer::CnameV) -> Option<Seq<u8>> {
    match (name::name_bytes(text::norm(c.0)), name::name_bytes(text::norm(c.1))) {
        (Some(owner), Some(target)) => Some(owner + respond::rr_tail(5, 1, c.2, target)),
        _ => None,
    }
}

pub open spec fn all_alias_bytes(records: Seq<answer::CnameV>) -> Option<Seq<u8>>
    decreases records.len(),
{
    if records.len() == 0 {
        Some(Seq::empty())
    } else {
        match (all_alias_bytes(records.drop_last()), alias_bytes(records.last())) {
            (Some(before), Some(r)) => Some(before + r),
            _ => None,
        }
    }
}

/// The packet with `n` records put behind its answers.
pub open spec fn with_answers(p: Seq<u8>, records: Seq<u8>, n: nat) -> Option<Seq<u8>> {
    let a = rr::answer_end(p)->0;
    let count = wire::header(p).ancount + respond::saturate16(n);
    if count > u16::MAX {
        None
    } else {
        Some(wire::put16(p.take(a) + records + p.skip(a), 6, count as u16))
    }
}

/// The packet with those aliases behind its answers that it does not hold yet.
pub open spec fn with_aliases(p: Seq<u8>, records: Seq<answer::CnameV>) -> Option<Seq<u8>> {
    if records.len() == 0 {
        Some(p)
    } else if p.len() < 12 || rr::answer_end(p) is None {
        None
    } else {
        let fresh = new_aliases(alias_keys(answer::cname_answers(p)), records);
        match all_alias_bytes(fresh) {
            None => None,
            Some(bytes) => if fresh.len() == 0 {
                Some(p)
            } else {
                with_answers(p, bytes, fresh.len())
            },
        }
    }
}

/// What two records have in common that are held to be the same.
pub open spec fn record_key(r: answer::RecordV) -> (Seq<char>, u16, u16, Seq<u8>) {
    (text::norm(r.0), r.1, r.2, r.4)
}

pub open spec fn record_keys(records: Seq<answer::RecordV>) -> Seq<
    (Seq<char>, u16, u16, Seq<u8>),
> {
    records.map_values(|r: answer::RecordV| record_key(r))
}

/// The records of a list that are not among `known` nor earlier in the list.
pub open spec fn new_records(
    known: Seq<(Seq<char>, u16, u16, Seq<u8>)>,
    records: Seq<answer::RecordV>,
) -> Seq<answer::RecordV>
    decreases records.len(),
{
    if records.len() == 0 {
        Seq::empty()
    } else {
        let before = new_records(known, records.drop_last());
        let key = record_key(records.last());
        if known.contains(key) || record_keys(before).contains(key) {
            before
        } else {
            before.push(records.last())
        }
    }
}

pub open spec fn record_bytes(r: answer::RecordV) -> Option<Seq<u8>> {
    match name::name_bytes(r.0) {
        Some(owner) => Some(owner + respond::rr_tail(r.1, r.2, r.3, r.4)),
        None => None,
    }
}

pub open spec fn all_record_bytes(records: Seq<answer::RecordV>) -> Option<Seq<u8>>
    decreases records.len(),
{
    if records.len() == 0 {
        Some(Seq::empty())
    } else {
        match (all_record_bytes(records.drop_last()), record_bytes(records.last())) {
            (Some(before), Some(r)) => Some(before + r),
            _ => None,
        }
    }
}

/// The records of the answer section on their own.
pub open spec fn answer_records(p: Seq<u8>) -> Seq<answer::RecordV> {
    answer::named_answers(p).map_values(|r: rr::NamedRr| answer::record_of(p, r))
}

/// The packet with those records behind its answers that it does not hold yet.
pub open spec fn with_records(p: Seq<u8>, records: Seq<answer::RecordV>) -> Option<Seq<u8>> {
    if records.len() == 0 {
        Some(p)
    } else if p.len() < 12 || rr::answer_end(p) is None || !rr::scan_complete(p) {
        None
    } else {
        let fresh = new_records(record_keys(answer_records(p)), records);
        match all_record_bytes(fresh) {
            None => None,
            Some(bytes) => if fresh.len() == 0 {
                Some(p)
            } else {
                with_answers(p, bytes, fresh.len())
            },
        }
    }
}

/// The response as it is sent over UDP.
pub fn truncate_response_for_udp(request: &[u8], response: &[u8]) -> (r: Option<Vec<u8>>)
    ensures
        edns::bytes_view(r) == truncated(request@, response@),
{
    let limit = edns::udp_payload_size_for_request(request);
    if response.len() <= limit {
        return Some(slice_to_vec(response));
    }
    let end = match query::parse_first_question(response) {
        None => {
            return None;
        },
        Some((_, _, e)) => e,
    };
    let mut out = wire::part(response, 0, end);
    assert(out@ =~= response@.take(end as int));
    let flags = wire::read_u16(out.as_slice(), 2);
    wire::put_u16(&mut out, 2, flags | 0x0200);
    wire::put_u16(&mut out, 6, 0);
    wire::put_u16(&mut out, 8, 0);
    wire::put_u16(&mut out, 10, 0);
    if let Some(opt) = edns::extract_opt_record_bytes(request) {
        if out.len() <= limit && opt.len() <= limit - out.len() {
            wire::push_bytes(&mut out, opt.as_slice());
            wire::put_u16(&mut out, 10, 1);
        }
    }
    Some(out)
}

/// The packet with the question section of the request in place of its own.
pub fn rewrite_question_from_request(packet: &[u8], request: &[u8]) -> (r: Option<Vec<u8>>)
    ensures
        edns::bytes_view(r) == requestioned(packet@, request@),
{
    let (ph, rh) = match (wire::parse_header(packet), wire::parse_header(request)) {
        (Some(a), Some(b)) => (a, b),
        _ => {
            return None;
        },
    };
    let (a, b) = match (
        rr::skip_question_section(packet, ph),
        rr::skip_question_section(request, rh),
    ) {
        (Some(a), Some(b)) => (a, b),
        _ => {
            return None;
        },
    };
    if wire::same_bytes(slice_subrange(packet, 12, a), slice_subrange(request, 12, b)) {
        return Some(slice_to_vec(packet));
    }
    let mut out = wire::part(packet, 0, 12);
    wire::push_bytes(&mut out, slice_subrange(request, 12, b));
    wire::push_bytes(&mut out, slice_subrange(packet, a, packet.len()));
    assert(out@ =~= packet@.take(12) + request@.subrange(12, b as int) + packet@.skip(a as int));
    wire::put_u16(&mut out, 4, rh.qdcount);
    Some(out)
}

/// The packet with the question section of the request and its own answers written without
/// name compression.
pub fn rewrite_question_and_reencode_answers(packet: &[u8], request: &[u8]) -> (r: Option<Vec<u8>>)
    ensures
        edns::bytes_view(r) == reencoded(packet@, request@),
{
    let (ph, rh) = match (wire::parse_header(packet), wire::parse_header(request)) {
        (Some(a), Some(b)) => (a, b),
        _ => {
            return None;
        },
    };
    let b = match (
        rr::skip_question_section(packet, ph),
        rr::skip_question_section(request, rh),
    ) {
        (Some(_), Some(b)) => b,
        _ => {
            return None;
        },
    };
    let (list, complete) = match answer::read_answers(packet) {
        None => {
            return None;
        },
        Some(v) => v,
    };
    if !complete {
        return None;
    }
    let ghost p = packet@;
    let ghost all = answer::named_answers(p);
    let mut records: Vec<u8> = Vec::new();
    let mut i: usize = 0;
    assert(all.take(0) =~= Seq::empty());
    assert(records@ =~= Seq::empty());
    while i < list.len()
        invariant
            i <= list@.len(),
            p == packet@,
            all == answer::named_answers(p),
            all == rr::named_rrs(list@),
            forall|k: int|
                0 <= k < list@.len() ==> (#[trigger] list@[k]).rr.rdata <= list@[k].rr.end
                    <= p.len(),
            plain::plain_records(p, all.take(i as int)) == Some(records@),
        decreases list@.len() - i,
    {
        assert(all.take(i + 1).drop_last() =~= all.take(i as int));
        assert(all.take(i + 1).last() == list@[i as int]@);
        if !plain::push_plain_record(packet, &list[i], &mut records) {
            proof {
                plain::lemma_plain_records_prefix(p, all, i + 1);
            }
            return None;
        }
        i += 1;
    }
    assert(all.take(i as int) =~= all);
    let mut out = wire::part(packet, 0, 12);
    wire::push_bytes(&mut out, slice_subrange(request, 12, b));
    wire::push_bytes(&mut out, records.as_slice());
    assert(out@ =~= p.take(12) + request@.subrange(12, b as int) + records@);
    wire::put_u16(&mut out, 4, rh.qdcount);
    wire::put_u16(&mut out, 10, 0);
    wire::put_u16(&mut out, 8, 0);
    Some(out)
}

/// The packet with `n` records put behind its answers.
fn splice_answers(packet: &[u8], ancount: u16, at: usize, records: &[u8], n: u16) -> (r: Option<
    Vec<u8>,
>)
    requires
        12 <= at <= packet@.len(),
        rr::answer_end(packet@) == Some(at as int),
        ancount == wire::header(packet@).ancount,
    ensures
        forall|k: nat| #[trigger]
            respond::saturate16(k) == n ==> edns::bytes_view(r) == with_answers(
                packet@,
                records@,
                k,
            ),
{
    if ancount > u16::MAX - n {
        return None;
    }
    let mut out = wire::part(packet, 0, at);
    wire::push_bytes(&mut out, records);
    wire::push_bytes(&mut out, slice_subrange(packet, at, packet.len()));
    assert(out@ =~= packet@.take(at as int) + records@ + packet@.skip(at as int));
    wire::put_u16(&mut out, 6, ancount + n);
    Some(out)
}

fn holds_alias(list: &Vec<(String, String)>, owner: &str, target: &str) -> (r: bool)
    ensures
        r == pair_views(list@).contains((owner@, target@)),
{
    let ghost all = pair_views(list@);
    let mut i: usize = 0;
    while i < list.len()
        invariant
            i <= list@.len(),
            all == pair_views(list@),
            forall|k: int| 0 <= k < i ==> #[trigger] all[k] != (owner@, target@),
        decreases list@.len() - i,
    {
        assert(all[i as int] == (list@[i as int].0@, list@[i as int].1@));
        if text::same(list[i].0.as_str(), owner) && text::same(list[i].1.as_str(), target) {
            return true;
        }
        i += 1;
    }
    false
}

spec fn pair_views(v: Seq<(String, String)>) -> Seq<(Seq<char>, Seq<char>)> {
    v.map_values(|e: (String, String)| (e.0@, e.1@))
}

fn alias_pairs(list: &Vec<(String, String, u32)>) -> (r: Vec<(String, String)>)
    ensures
        pair_views(r@) == alias_keys(answer::cname_views(list@)),
{
    let mut out: Vec<(String, String)> = Vec::new();
    let mut i: usize = 0;
    let ghost all = answer::cname_views(list@);
    assert(pair_views(out@) =~= alias_keys(all.take(0)));
    while i < list.len()
        invariant
            i <= list@.len(),
            all == answer::cname_views(list@),
            pair_views(out@) == alias_keys(all.take(i as int)),
        decreases list@.len() - i,
    {
        let ghost before = pair_views(out@);
        assert(all[i as int] == (list@[i as int].0@, list@[i as int].1@, list@[i as int].2));
        let pair = (
            text::normalized(list[i].0.as_str()),
            text::normalized(list[i].1.as_str()),
        );
        out.push(pair);
        assert(pair_views(out@) =~= before.push((pair.0@, pair.1@)));
        assert(alias_keys(all.take(i + 1)) =~= before.push(alias_key(all[i as int])));
        i += 1;
    }
    assert(all.take(i as int) =~= all);
    out
}

proof fn lemma_aliases_prefix(
    known: Seq<(Seq<char>, Seq<char>)>,
    records: Seq<answer::CnameV>,
    i: int,
)
    requires
        0 <= i <= records.len(),
        all_alias_bytes(new_aliases(known, records.take(i))) is None,
    ensures
        all_alias_bytes(new_aliases(known, records)) is None,
    decreases records.len(),
{
    if i < records.len() {
        assert(records.drop_last().take(i) =~= records.take(i));
        lemma_aliases_prefix(known, records.drop_last(), i);
        let before = new_aliases(known, records.drop_last());
        assert(before.push(records.last()).drop_last() =~= before);
    } else {
        assert(records.take(i) =~= records);
    }
}

/// The packet with those aliases behind its answers that it does not hold yet.
pub fn append_cname_answers(packet: &[u8], records: &[(String, String, u32)]) -> (r: Option<
    Vec<u8>,
>)
    ensures
        edns::bytes_view(r) == with_aliases(packet@, answer::cname_views(records@)),
{
    if records.len() == 0 {
        return Some(slice_to_vec(packet));
    }
    let header = match wire::parse_header(packet) {
        None => {
            return None;
        },
        Some(h) => h,
    };
    let end = match rr::skip_answers(packet, header) {
        None => {
            return None;
        },
        Some(e) => e,
    };
    let held = answer::extract_answer_cname_records(packet);
    let known = alias_pairs(&held);
    let ghost all = answer::cname_views(records@);
    let ghost keys = alias_keys(answer::cname_answers(packet@));
    let mut seen: Vec<(String, String)> = Vec::new();
    let mut bytes: Vec<u8> = Vec::new();
    let mut count: u16 = 0;
    let mut i: usize = 0;
    assert(all.take(0) =~= Seq::empty());
    assert(bytes@ =~= Seq::empty());
    assert(pair_views(seen@) =~= alias_keys(Seq::empty()));
    while i < records.len()
        invariant
            i <= records@.len(),
            records@.len() > 0,
            packet@.len() >= 12,
            rr::answer_end(packet@) is Some,
            all == answer::cname_views(records@),
            keys == alias_keys(answer::cname_answers(packet@)),
            pair_views(known@) == keys,
            pair_views(seen@) == alias_keys(new_aliases(keys, all.take(i as int))),
            all_alias_bytes(new_aliases(keys, all.take(i as int))) == Some(bytes@),
            count == respond::saturate16(new_aliases(keys, all.take(i as int)).len()),
        decreases records@.len() - i,
    {
        let ghost before = new_aliases(keys, all.take(i as int));
        let ghost c = all[i as int];
        assert(c == (records@[i as int].0@, records@[i as int].1@, records@[i as int].2));
        assert(all.take(i + 1).drop_last() =~= all.take(i as int));
        assert(all.take(i + 1).last() == c);
        let owner = text::normalized(records[i].0.as_str());
        let target = text::normalized(records[i].1.as_str());
        if !holds_alias(&known, owner.as_str(), target.as_str()) && !holds_alias(
            &seen,
            owner.as_str(),
            target.as_str(),
        ) {
            assert(before.push(c).drop_last() =~= before);
            let ghost start = bytes@;
            let mut data: Vec<u8> = Vec::new();
            if name::encode_name(owner.as_str(), &mut bytes).is_none() || name::encode_name(
                target.as_str(),
                &mut data,
            ).is_none() {
                assert(all_alias_bytes(before.push(c)) is None);
                proof {
                    lemma_aliases_prefix(keys, all, i + 1);
                }
                return None;
            }
            assert(data@ =~= name::name_bytes(target@)->0);
            respond::push_rr_tail(&mut bytes, 5, 1, records[i].2, data.as_slice());
            assert(bytes@ =~= start + alias_bytes(c)->0);
            let ghost seen_before = pair_views(seen@);
            seen.push((owner, target));
            assert(pair_views(seen@) =~= seen_before.push((owner@, target@)));
            assert(alias_keys(before.push(c)) =~= seen_before.push(alias_key(c)));
            count = count.saturating_add(1);
        }
        i += 1;
    }
    assert(all.take(i as int) =~= all);
    if count == 0 {
        return Some(slice_to_vec(packet));
    }
    let ghost n = new_aliases(keys, all).len();
    assert(respond::saturate16(n) == count);
    splice_answers(packet, header.ancount, end, bytes.as_slice(), count)
}

type OwnedKey = (String, u16, u16, Vec<u8>);

spec fn key_views(v: Seq<OwnedKey>) -> Seq<(Seq<char>, u16, u16, Seq<u8>)> {
    v.map_values(|e: OwnedKey| (e.0@, e.1, e.2, e.3@))
}

fn holds_key(list: &Vec<OwnedKey>, owner: &str, rr_type: u16, rr_class: u16, data: &[u8]) -> (r:
    bool)
    ensures
        r == key_views(list@).contains((owner@, rr_type, rr_class, data@)),
{
    let ghost all = key_views(list@);
    let ghost key = (owner@, rr_type, rr_class, data@);
    let mut i: usize = 0;
    while i < list.len()
        invariant
            i <= list@.len(),
            all == key_views(list@),
            key == (owner@, rr_type, rr_class, data@),
            forall|k: int| 0 <= k < i ==> #[trigger] all[k] != key,
        decreases list@.len() - i,
    {
        let e = &list[i];
        assert(all[i as int] == (e.0@, e.1, e.2, e.3@));
        if e.1 == rr_type && e.2 == rr_class && text::same(e.0.as_str(), owner)
            && wire::same_bytes(e.3.as_slice(), data) {
            assert(all[i as int] == key);
            return true;
        }
        i += 1;
    }
    false
}

fn answer_keys(packet: &[u8], list: &Vec<rr::DnsRecordView>) -> (r: Vec<OwnedKey>)
    requires
        forall|k: int|
            0 <= k < list@.len() ==> (#[trigger] list@[k]).rr.rdata <= list@[k].rr.end
                <= packet@.len(),
        rr::named_rrs(list@) == answer::named_answers(packet@),
    ensures
        key_views(r@) == record_keys(answer_records(packet@)),
{
    let mut out: Vec<OwnedKey> = Vec::new();
    let mut i: usize = 0;
    let ghost all = answer_records(packet@);
    assert(key_views(out@) =~= record_keys(all.take(0)));
    while i < list.len()
        invariant
            i <= list@.len(),
            all == answer_records(packet@),
            all.len() == list@.len(),
            rr::named_rrs(list@) == answer::named_answers(packet@),
            forall|k: int|
                0 <= k < list@.len() ==> (#[trigger] list@[k]).rr.rdata <= list@[k].rr.end
                    <= packet@.len(),
            key_views(out@) == record_keys(all.take(i as int)),
        decreases list@.len() - i,
    {
        let r = &list[i];
        let ghost before = key_views(out@);
        assert(rr::named_rrs(list@)[i as int] == r@);
        assert(all[i as int] == answer::record_of(packet@, r@));
        let key = (
            text::normalized(r.owner.as_str()),
            r.rr.rr_type,
            r.rr.rr_class,
            wire::part(packet, r.rr.rdata, r.rr.end),
        );
        out.push(key);
        assert(key_views(out@) =~= before.push((key.0@, key.1, key.2, key.3@)));
        assert(record_keys(all.take(i + 1)) =~= before.push(record_key(all[i as int])));
        i += 1;
    }
    assert(all.take(i as int) =~= all);
    out
}

proof fn lemma_records_prefix(
    known: Seq<(Seq<char>, u16, u16, Seq<u8>)>,
    records: Seq<answer::RecordV>,
    i: int,
)
    requires
        0 <= i <= records.len(),
        all_record_bytes(new_records(known, records.take(i))) is None,
    ensures
        all_record_bytes(new_records(known, records)) is None,
    decreases records.len(),
{
    if i < records.len() {
        assert(records.drop_last().take(i) =~= records.take(i));
        lemma_records_prefix(known, records.drop_last(), i);
        let before = new_records(known, records.drop_last());
        assert(before.push(records.last()).drop_last() =~= before);
    } else {
        assert(records.take(i) =~= records);
    }
}

/// The packet with those records behind its answers that it does not hold yet.
pub fn append_answer_records(packet: &[u8], records: &[(String, u16, u16, u32, Vec<u8>)]) -> (r:
    Option<Vec<u8>>)
    ensures
        edns::bytes_view(r) == with_records(packet@, answer::record_views(records@)),
{
    if records.len() == 0 {
        return Some(slice_to_vec(packet));
    }
    let header = match wire::parse_header(packet) {
        None => {
            return None;
        },
        Some(h) => h,
    };
    let end = match rr::skip_answers(packet, header) {
        None => {
            return None;
        },
        Some(e) => e,
    };
    let held = match answer::read_scanned_answers(packet) {
        None => {
            return None;
        },
        Some(v) => v,
    };
    let known = answer_keys(packet, &held);
    let ghost all = answer::record_views(records@);
    let ghost keys = record_keys(answer_records(packet@));
    let mut seen: Vec<OwnedKey> = Vec::new();
    let mut bytes: Vec<u8> = Vec::new();
    let mut count: u16 = 0;
    let mut i: usize = 0;
    assert(all.take(0) =~= Seq::empty());
    assert(bytes@ =~= Seq::empty());
    assert(key_views(seen@) =~= record_keys(Seq::empty()));
    while i < records.len()
        invariant
            i <= records@.len(),
            records@.len() > 0,
            packet@.len() >= 12,
            rr::answer_end(packet@) is Some,
            rr::scan_complete(packet@),
            all == answer::record_views(records@),
            keys == record_keys(answer_records(packet@)),
            key_views(known@) == keys,
            key_views(seen@) == record_keys(new_records(keys, all.take(i as int))),
            all_record_bytes(new_records(keys, all.take(i as int))) == Some(bytes@),
            count == respond::saturate16(new_records(keys, all.take(i as int)).len()),
        decreases records@.len() - i,
    {
        let ghost before = new_records(keys, all.take(i as int));
        let ghost c = all[i as int];
        let e = &records[i];
        assert(c == (e.0@, e.1, e.2, e.3, e.4@));
        assert(all.take(i + 1).drop_last() =~= all.take(i as int));
        assert(all.take(i + 1).last() == c);
        let owner = text::normalized(e.0.as_str());
        if !holds_key(&known, owner.as_str(), e.1, e.2, e.4.as_slice()) && !holds_key(
            &seen,
            owner.as_str(),
            e.1,
            e.2,
            e.4.as_slice(),
        ) {
            assert(before.push(c).drop_last() =~= before);
            let ghost start = bytes@;
            if name::encode_name(e.0.as_str(), &mut bytes).is_none() {
                assert(all_record_bytes(before.push(c)) is None);
                proof {
                    lemma_records_prefix(keys, all, i + 1);
                }
                return None;
            }
            respond::push_rr_tail(&mut bytes, e.1, e.2, e.3, e.4.as_slice());
            assert(bytes@ =~= start + record_bytes(c)->0);
            let ghost seen_before = key_views(seen@);
            seen.push((owner, e.1, e.2, slice_to_vec(e.4.as_slice())));
            assert(key_views(seen@) =~= seen_before.push(record_key(c)));
            assert(record_keys(before.push(c)) =~= seen_before.push(record_key(c)));
            count = count.saturating_add(1);
        }
        i += 1;
    }
    assert(all.take(i as int) =~= all);
    if count == 0 {
        return Some(slice_to_vec(packet));
    }
    let ghost n = new_records(keys, all).len();
    assert(respond::saturate16(n) == count);
    splice_answers(packet, header.ancount, end, bytes.as_slice(), count)
}

/// One record to add to the additional section.
pub ghost struct ItemV {
    pub owner: Seq<char>,
    pub rr_type: u16,
    pub ttl: u32,
    pub answer: Seq<char>,
}

pub open spec fn items_of(r: DnsAdditionalRecord) -> Seq<ItemV> {
    text::views(r.answers@).map_values(
        |a: Seq<char>|
            ItemV { owner: r.owner_name@, rr_type: r.rr_type, ttl: r.ttl, answer: a },
    )
}

/// The records of a list of record sets, one for each answer.
pub open spec fn all_items(records: Seq<DnsAdditionalRecord>) -> Seq<ItemV>
    decreases records.len(),
{
    if records.len() == 0 {
        Seq::empty()
    } else {
        all_items(records.drop_last()) + items_of(records.last())
    }
}

/// The bytes of the records that can be written, and their number. The first record with data
/// whose owner name cannot be written, or that is one too many to count, is an error.
pub open spec fn additions(items: Seq<ItemV>) -> Result<(Seq<u8>, nat), CodecError>
    decreases items.len(),
{
    if items.len() == 0 {
        Ok((Seq::empty(), 0))
    } else {
        let item = items.last();
        match additions(items.drop_last()) {
            Err(e) => Err(e),
            Ok((bytes, n)) => match respond::rdata_of(item.rr_type, item.answer) {
                None => Ok((bytes, n)),
                Some(data) => match name::name_bytes(item.owner) {
                    None => Err(CodecError::InvalidAdditionalOwner),
                    Some(owner) => if n >= u16::MAX {
                        Err(CodecError::AdditionalOverflow)
                    } else {
                        Ok(
                            (
                                bytes + owner + respond::rr_tail(
                                    item.rr_type,
                                    1,
                                    item.ttl,
                                    data,
                                ),
                                n + 1,
                            ),
                        )
                    },
                },
            },
        }
    }
}

/// The response with records put behind its additional section.
pub open spec fn with_additions(p: Seq<u8>, records: Seq<DnsAdditionalRecord>) -> Result<
    Seq<u8>,
    CodecError,
> {
    if records.len() == 0 {
        Ok(p)
    } else if p.len() < 12 {
        Err(CodecError::PacketTooShort)
    } else if rr::question_end(p) is None {
        Err(CodecError::InvalidQuestionSection)
    } else if rr::answer_end(p) is None {
        Err(CodecError::InvalidAnswerRecord)
    } else if rr::additional_start(p) is None {
        Err(CodecError::InvalidAuthorityRecord)
    } else {
        match edns::additional_end(p) {
            None => Err(CodecError::InvalidAdditionalRecord),
            Some(end) => match additions(all_items(records)) {
                Err(e) => Err(e),
                Ok((bytes, n)) => if n == 0 {
                    Ok(p)
                } else if wire::header(p).arcount + n > u16::MAX {
                    Err(CodecError::ArcountOverflow)
                } else {
                    Ok(
                        wire::put16(
                            p.take(end) + bytes + p.skip(end),
                            10,
                            (wire::header(p).arcount + n) as u16,
                        ),
                    )
                },
            },
        }
    }
}

proof fn lemma_additions_err(items: Seq<ItemV>, more: Seq<ItemV>)
    requires
        additions(items) is Err,
    ensures
        additions(items + more) == additions(items),
    decreases more.len(),
{
    if more.len() == 0 {
        assert(items + more =~= items);
    } else {
        lemma_additions_err(items, more.drop_last());
        assert((items + more).drop_last() =~= items + more.drop_last());
    }
}

proof fn lemma_all_items_split(records: Seq<DnsAdditionalRecord>, i: int) -> (rest: Seq<ItemV>)
    requires
        0 <= i <= records.len(),
    ensures
        all_items(records) == all_items(records.take(i)) + rest,
    decreases records.len(),
{
    if i == records.len() {
        assert(records.take(i) =~= records);
        assert(all_items(records) + Seq::<ItemV>::empty() =~= all_items(records));
        Seq::empty()
    } else {
        let rest = lemma_all_items_split(records.drop_last(), i);
        assert(records.drop_last().take(i) =~= records.take(i));
        let more = rest + items_of(records.last());
        assert(all_items(records.take(i)) + more =~= all_items(records));
        more
    }
}

/// The response with records put behind its additional section.
pub fn append_additional_records(response: &[u8], records: &[DnsAdditionalRecord]) -> (r: Result<
    Vec<u8>,
    CodecError,
>)
    ensures
        respond::result_view(r) == with_additions(response@, records@),
{
    if records.len() == 0 {
        return Ok(slice_to_vec(response));
    }
    let header = match wire::parse_header(response) {
        None => {
            return Err(CodecError::PacketTooShort);
        },
        Some(h) => h,
    };
    let q = match rr::skip_question_section(response, header) {
        None => {
            return Err(CodecError::InvalidQuestionSection);
        },
        Some(q) => q,
    };
    let a = match rr::skip_rrs(response, q, header.ancount) {
        None => {
            return Err(CodecError::InvalidAnswerRecord);
        },
        Some(a) => a,
    };
    let b = match rr::skip_rrs(response, a, header.nscount) {
        None => {
            return Err(CodecError::InvalidAuthorityRecord);
        },
        Some(b) => b,
    };
    let end = match rr::skip_rrs(response, b, header.arcount) {
        None => {
            return Err(CodecError::InvalidAdditionalRecord);
        },
        Some(e) => e,
    };
    let mut bytes: Vec<u8> = Vec::new();
    let mut count: u16 = 0;
    let mut i: usize = 0;
    assert(records@.take(0) =~= Seq::empty());
    assert(bytes@ =~= Seq::empty());
    while i < records.len()
        invariant
            i <= records@.len(),
            additions(all_items(records@.take(i as int))) == Ok::<(Seq<u8>, nat), CodecError>(
                (bytes@, count as nat),
            ),
            response@.len() >= 12,
            records@.len() > 0,
            rr::question_end(response@) is Some,
            rr::answer_end(response@) is Some,
            rr::additional_start(response@) is Some,
            edns::additional_end(response@) is Some,
        decreases records@.len() - i,
    {
        let record = &records[i];
        let ghost before = all_items(records@.take(i as int));
        let ghost items = items_of(*record);
        assert(records@.take(i + 1).drop_last() =~= records@.take(i as int));
        assert(records@.take(i + 1).last() == record);
        assert(before + items.take(0) =~= before);
        let mut j: usize = 0;
        while j < record.answers.len()
            invariant
                j <= record.answers@.len(),
                i < records@.len(),
                *record == records@[i as int],
                items == items_of(*record),
                before == all_items(records@.take(i as int)),
                all_items(records@.take(i + 1)) == before + items,
                additions(before + items.take(j as int)) == Ok::<(Seq<u8>, nat), CodecError>(
                    (bytes@, count as nat),
                ),
                response@.len() >= 12,
                records@.len() > 0,
                rr::question_end(response@) is Some,
                rr::answer_end(response@) is Some,
                rr::additional_start(response@) is Some,
                edns::additional_end(response@) is Some,
            decreases record.answers@.len() - j,
        {
            let ghost now = before + items.take(j + 1);
            assert(now.drop_last() =~= before + items.take(j as int));
            assert(text::views(record.answers@)[j as int] == record.answers@[j as int]@);
            assert(now.last() == items[j as int]);
            if let Some(data) = respond::encode_record_rdata(
                record.rr_type,
                record.answers[j].as_str(),
            ) {
                let ghost start = bytes@;
                let written = name::encode_name(record.owner_name.as_str(), &mut bytes);
                if written.is_none() || count == u16::MAX {
                    proof {
                        assert(additions(now) is Err);
                        lemma_additions_err(now, items.skip(j + 1));
                        assert(now + items.skip(j + 1) =~= before + items);
                        let rest = lemma_all_items_split(records@, i + 1);
                        lemma_additions_err(before + items, rest);
                    }
                    if written.is_none() {
                        return Err(CodecError::InvalidAdditionalOwner);
                    }
                    return Err(CodecError::AdditionalOverflow);
                }
                respond::push_rr_tail(&mut bytes, record.rr_type, 1, record.ttl, data.as_slice());
                assert(bytes@ =~= start + name::name_bytes(record.owner_name@)->0
                    + respond::rr_tail(record.rr_type, 1, record.ttl, data@));
                count += 1;
            }
            j += 1;
        }
        assert(items.take(j as int) =~= items);
        i += 1;
    }
    assert(records@.take(i as int) =~= records@);
    if count == 0 {
        return Ok(slice_to_vec(response));
    }
    if header.arcount > u16::MAX - count {
        return Err(CodecError::ArcountOverflow);
    }
    let mut out = wire::part(response, 0, end);
    wire::push_bytes(&mut out, bytes.as_slice());
    wire::push_bytes(&mut out, slice_subrange(response, end, response.len()));
    assert(out@ =~= response@.take(end as int) + bytes@ + response@.skip(end as int));
    wire::put_u16(&mut out, 10, header.arcount + count);
    Ok(out)
}

} // verus!
