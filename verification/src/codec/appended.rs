//! What is read of packets to which records were added, and of those that were written anew.
use crate::codec::answer;
use crate::codec::dns_rfc_patch;
use crate::codec::edns;
use crate::codec::name;
use crate::codec::plain;
use crate::codec::read_back;
use crate::codec::respond;
use crate::codec::respond::DnsAdditionalRecord;
use crate::codec::rewrite;
use crate::codec::rr;
use crate::codec::wire;
use crate::text;
use vstd::prelude::*;

verus! {

/// Whether two packets have the bytes of a piece in common.
pub open spec fn shared(p: Seq<u8>, q: Seq<u8>, from: int, to: int) -> bool {
    to <= q.len() && forall|i: int| from <= i < to ==> #[trigger] q[i] == p[i]
}

pub proof fn lemma_name_end_shared(p: Seq<u8>, q: Seq<u8>, off: int)
    requires
        name::name_end(p, off) is Some,
        shared(p, q, off, name::name_end(p, off)->0),
    ensures
        name::name_end(q, off) == name::name_end(p, off),
    decreases p.len() - off,
{
    name::lemma_name_end_bounds(p, off);
    assert(q[off] == p[off]);
    if p[off] < 192 && p[off] != 0 {
        name::lemma_name_end_bounds(p, off + 1 + p[off]);
        lemma_name_end_shared(p, q, off + 1 + p[off]);
    }
}

pub proof fn lemma_rr_shared(p: Seq<u8>, q: Seq<u8>, off: int)
    requires
        rr::rr_at(p, off) is Some,
        shared(p, q, off, (rr::rr_at(p, off)->0).end),
    ensures
        rr::rr_at(q, off) == rr::rr_at(p, off),
{
    rr::lemma_rr_bounds(p, off);
    let e = name::name_end(p, off)->0;
    lemma_name_end_shared(p, q, off);
    assert(forall|i: int| e <= i < e + 10 ==> #[trigger] q[i] == p[i]);
}

/// Records that two packets have in common are read from both.
pub proof fn lemma_rrs_shared(p: Seq<u8>, q: Seq<u8>, off: int, n: nat)
    requires
        0 <= off,
        rr::rr_end(p, off, n) is Some,
        shared(p, q, off, rr::rr_end(p, off, n)->0),
    ensures
        rr::rr_end(q, off, n) == rr::rr_end(p, off, n),
        rr::rr_list(q, off, n) == rr::rr_list(p, off, n),
    decreases n,
{
    if n > 0 {
        rr::lemma_rr_bounds(p, off);
        let r = rr::rr_at(p, off)->0;
        rr::lemma_rr_list(p, r.end, (n - 1) as nat);
        lemma_rr_shared(p, q, off);
        lemma_rrs_shared(p, q, r.end, (n - 1) as nat);
    }
}

pub proof fn lemma_questions_shared(p: Seq<u8>, q: Seq<u8>, off: int, n: nat)
    requires
        0 <= off,
        rr::questions_end(p, off, n) is Some,
        shared(p, q, off, rr::questions_end(p, off, n)->0),
    ensures
        rr::questions_end(q, off, n) == rr::questions_end(p, off, n),
        off <= rr::questions_end(p, off, n)->0,
    decreases n,
{
    if n > 0 {
        let e = name::name_end(p, off)->0;
        name::lemma_name_end_bounds(p, off);
        lemma_questions_bounds(p, e + 4, (n - 1) as nat);
        lemma_name_end_shared(p, q, off);
        lemma_questions_shared(p, q, e + 4, (n - 1) as nat);
    }
}

/// The questions of a packet end inside it.
pub proof fn lemma_questions_bounds(p: Seq<u8>, off: int, n: nat)
    requires
        0 <= off <= p.len(),
    ensures
        rr::questions_end(p, off, n) matches Some(e) ==> off <= e <= p.len(),
    decreases n,
{
    if n > 0 {
        name::lemma_name_end_bounds(p, off);
        if let Some(e) = name::name_end(p, off) {
            if e + 4 <= p.len() {
                lemma_questions_bounds(p, e + 4, (n - 1) as nat);
            }
        }
    }
}

/// Two lists of records that lie behind each other are one.
proof fn lemma_rrs_joined(p: Seq<u8>, off: int, n: nat, m: nat)
    requires
        rr::rr_end(p, off, n) is Some,
    ensures
        rr::rr_list(p, off, n + m) == rr::rr_list(p, off, n) + rr::rr_list(
            p,
            rr::rr_end(p, off, n)->0,
            m,
        ),
        rr::rr_end(p, off, n + m) == rr::rr_end(p, rr::rr_end(p, off, n)->0, m),
    decreases n,
{
    if n == 0 {
        assert(rr::rr_list(p, off, 0) =~= Seq::empty());
        assert(rr::rr_list(p, off, m) =~= rr::rr_list(p, off, 0) + rr::rr_list(p, off, m));
    } else {
        let r = rr::rr_at(p, off)->0;
        lemma_rrs_joined(p, r.end, (n - 1) as nat, m);
        assert(rr::rr_list(p, off, n + m) =~= rr::rr_list(p, off, n) + rr::rr_list(
            p,
            rr::rr_end(p, off, n)->0,
            m,
        ));
    }
}

/// Whether `q` is `p` with the records of a list behind its answers: the header but for the
/// number of the answers, the questions, the answers there were and all that follows are kept,
/// and the new answers are read as those records.
pub open spec fn has_more_answers(p: Seq<u8>, q: Seq<u8>, list: Seq<answer::RecordV>) -> bool {
    let a = rr::answer_end(p)->0;
    let b = rr::answer_end(q)->0;
    &&& rr::answer_end(p) is Some && rr::answer_end(q) is Some
    &&& wire::header(q) == (wire::DnsHeader {
        ancount: (wire::header(p).ancount + list.len()) as u16,
        ..wire::header(p)
    })
    &&& wire::header(p).ancount + list.len() <= u16::MAX
    &&& shared(p, q, 12, a)
    &&& rr::question_end(q) == rr::question_end(p)
    &&& q.skip(b) == p.skip(a)
    &&& rr::answers(q).len() == rr::answers(p).len() + list.len()
    &&& rr::answers(q).take(rr::answers(p).len() as int) == rr::answers(p)
    &&& forall|i: int|
        0 <= i < list.len() ==> {
            let r = rr::answers(q)[rr::answers(p).len() + i];
            &&& rr::named_at(q, r.start, rr::DnsSection::Answer) is Some
            &&& answer::record_of(q, rr::named_at(q, r.start, rr::DnsSection::Answer)->0)
                == read_back::absolute_record(#[trigger] list[i])
        }
}

proof fn lemma_named_list_at(p: Seq<u8>, off: int, n: nat, section: rr::DnsSection)
    ensures
        forall|i: int|
            0 <= i < rr::named_list(p, off, n, section).len() ==> rr::named_at(
                p,
                (#[trigger] rr::named_list(p, off, n, section)[i]).rr.start,
                section,
            ) == Some(rr::named_list(p, off, n, section)[i]),
    decreases n,
{
    if n > 0 {
        if let Some(r) = rr::named_at(p, off, section) {
            let rest = rr::named_list(p, r.rr.end, (n - 1) as nat, section);
            let all = rr::named_list(p, off, n, section);
            lemma_named_list_at(p, r.rr.end, (n - 1) as nat, section);
            assert forall|i: int| 0 <= i < all.len() implies rr::named_at(
                p,
                (#[trigger] all[i]).rr.start,
                section,
            ) == Some(all[i]) by {
                if i > 0 {
                    assert(all[i] == rest[i - 1]);
                }
            }
        }
    }
}

/// The bytes of a packet into which others were put, with a number in its header.
proof fn lemma_inserted(p: Seq<u8>, a: int, bytes: Seq<u8>, at: int, count: u16)
    requires
        12 <= a <= p.len(),
        0 <= at <= 10,
    ensures
        ({
            let q = wire::put16(p.take(a) + bytes + p.skip(a), at, count);
            &&& q.len() == p.len() + bytes.len()
            &&& shared(p, q, 12, a)
            &&& q.subrange(a, a + bytes.len()) == bytes
            &&& q.skip(a + bytes.len()) == p.skip(a)
            &&& forall|i: int| 0 <= i < 12 && i != at && i != at + 1 ==> #[trigger] q[i] == p[i]
            &&& wire::be16(q, at) == count
        }),
{
    let joined = p.take(a) + bytes + p.skip(a);
    let q = wire::put16(joined, at, count);
    assert forall|i: int| 0 <= i < a && i != at && i != at + 1 implies #[trigger] q[i] == p[i] by {
        assert(joined[i] == p[i]);
    }
    assert(q[at] == (count / 256) as u8 && q[at + 1] == (count % 256) as u8);
    assert(q.subrange(a, a + bytes.len()) =~= bytes);
    assert(q.skip(a + bytes.len()) =~= p.skip(a));
}

/// The bytes of a packet with records put behind its answers.
pub proof fn lemma_spliced(p: Seq<u8>, bytes: Seq<u8>, n: nat)
    requires
        p.len() >= 12,
        rr::answer_end(p) is Some,
        rewrite::with_answers(p, bytes, n) is Some,
        n <= 65535,
    ensures
        ({
            let q = rewrite::with_answers(p, bytes, n)->0;
            let a = rr::answer_end(p)->0;
            &&& 12 <= rr::question_end(p)->0 <= a <= p.len()
            &&& wire::header(p).ancount + n <= u16::MAX
            &&& wire::header(q) == (wire::DnsHeader {
                ancount: (wire::header(p).ancount + n) as u16,
                ..wire::header(p)
            })
            &&& q.len() == p.len() + bytes.len()
            &&& shared(p, q, 12, a)
            &&& q.subrange(a, a + bytes.len()) == bytes
            &&& q.skip(a + bytes.len()) == p.skip(a)
        }),
{
    let a = rr::answer_end(p)->0;
    let e = rr::question_end(p)->0;
    lemma_questions_bounds(p, 12, wire::header(p).qdcount as nat);
    rr::lemma_rr_list(p, e, wire::header(p).ancount as nat);
    lemma_inserted(p, a, bytes, 6, (wire::header(p).ancount + n) as u16);
}

/// Whether the records of a list are read one behind the other from a place on.
spec fn reads_as(q: Seq<u8>, at: int, section: rr::DnsSection, list: Seq<answer::RecordV>) -> bool {
    let more = rr::rr_list(q, at, list.len());
    &&& more.len() == list.len()
    &&& forall|i: int|
        0 <= i < list.len() ==> {
            &&& rr::named_at(q, (#[trigger] more[i]).start, section) is Some
            &&& answer::record_of(q, rr::named_at(q, more[i].start, section)->0)
                == read_back::absolute_record(list[i])
        }
}

/// Records that were written at a place are read there.
#[verifier::spinoff_prover]
proof fn lemma_reads_as(q: Seq<u8>, at: int, section: rr::DnsSection, list: Seq<answer::RecordV>)
    requires
        0 <= at,
        rewrite::all_record_bytes(list) is Some,
        at + rewrite::all_record_bytes(list)->0.len() <= q.len(),
        q.subrange(at, at + rewrite::all_record_bytes(list)->0.len())
            == rewrite::all_record_bytes(list)->0,
        read_back::records_fit(list),
    ensures
        reads_as(q, at, section, list),
        rr::rr_end(q, at, list.len()) == Some(at + rewrite::all_record_bytes(list)->0.len()),
{
    read_back::lemma_records_round_trip(q, at, section, list);
    read_back::lemma_named_list_rrs(q, at, list.len(), section);
    rr::lemma_named_end_is_rr_end(q, at, list.len());
    let named = rr::named_list(q, at, list.len(), section);
    lemma_named_list_at(q, at, list.len(), section);
    let more = rr::rr_list(q, at, list.len());
    assert forall|i: int| 0 <= i < list.len() implies {
        &&& rr::named_at(q, (#[trigger] more[i]).start, section) is Some
        &&& answer::record_of(q, rr::named_at(q, more[i].start, section)->0)
            == read_back::absolute_record(list[i])
    } by {
        assert(more[i] == named[i].rr);
        assert(rr::named_at(q, named[i].rr.start, section) == Some(named[i]));
        assert(read_back::read_records(q, named)[i] == answer::record_of(q, named[i]));
        assert(read_back::absolute_records(list)[i] == read_back::absolute_record(list[i]));
    }
}

/// Records put behind the answers of a packet stand there, and all else is kept.
#[verifier::spinoff_prover]
proof fn lemma_with_answers(p: Seq<u8>, list: Seq<answer::RecordV>)
    requires
        p.len() >= 12,
        rr::answer_end(p) is Some,
        rewrite::all_record_bytes(list) is Some,
        rewrite::with_answers(p, rewrite::all_record_bytes(list)->0, list.len()) is Some,
        list.len() <= 65535,
        read_back::records_fit(list),
    ensures
        has_more_answers(
            p,
            rewrite::with_answers(p, rewrite::all_record_bytes(list)->0, list.len())->0,
            list,
        ),
{
    let section = rr::DnsSection::Answer;
    let bytes = rewrite::all_record_bytes(list)->0;
    let q = rewrite::with_answers(p, bytes, list.len())->0;
    let a = rr::answer_end(p)->0;
    let e = rr::question_end(p)->0;
    let an = wire::header(p).ancount as nat;
    lemma_spliced(p, bytes, list.len());
    lemma_questions_shared(p, q, 12, wire::header(p).qdcount as nat);
    lemma_rrs_shared(p, q, e, an);
    lemma_reads_as(q, a, section, list);
    lemma_rrs_joined(q, e, an, list.len());
    rr::lemma_rr_list(p, e, an);
    let more = rr::rr_list(q, a, list.len());
    assert(rr::answers(q) == rr::answers(p) + more);
    assert(rr::answers(q).take(rr::answers(p).len() as int) =~= rr::answers(p));
    assert forall|i: int| 0 <= i < list.len() implies {
        let r = rr::answers(q)[rr::answers(p).len() + i];
        &&& rr::named_at(q, r.start, section) is Some
        &&& answer::record_of(q, rr::named_at(q, r.start, section)->0)
            == read_back::absolute_record(#[trigger] list[i])
    } by {
        assert(rr::answers(q)[rr::answers(p).len() + i] == more[i]);
    }
}

/// A packet has itself no more answers.
proof fn lemma_no_more_answers(p: Seq<u8>)
    requires
        p.len() >= 12,
        rr::answer_end(p) is Some,
    ensures
        has_more_answers(p, p, Seq::empty()),
{
    lemma_questions_bounds(p, 12, wire::header(p).qdcount as nat);
    rr::lemma_rr_list(p, rr::question_end(p)->0, wire::header(p).ancount as nat);
    assert(rr::answers(p).take(rr::answers(p).len() as int) =~= rr::answers(p));
}

/// Of the records that are to be added to the answers of a packet, those that are not among them
/// yet, each once, stand behind them in the end, and all else is kept.
pub proof fn lemma_records_appended(p: Seq<u8>, records: Seq<answer::RecordV>)
    requires
        p.len() >= 12,
        rr::answer_end(p) is Some,
        rewrite::with_records(p, records) is Some,
        ({
            let fresh = rewrite::new_records(
                rewrite::record_keys(rewrite::answer_records(p)),
                records,
            );
            fresh.len() <= 65535 && read_back::records_fit(fresh)
        }),
    ensures
        has_more_answers(
            p,
            rewrite::with_records(p, records)->0,
            rewrite::new_records(rewrite::record_keys(rewrite::answer_records(p)), records),
        ),
{
    let fresh = rewrite::new_records(rewrite::record_keys(rewrite::answer_records(p)), records);
    if fresh.len() == 0 {
        assert(fresh =~= Seq::empty());
        lemma_no_more_answers(p);
    } else {
        lemma_with_answers(p, fresh);
    }
}

/// The record of an alias, with its names in the form in which they are compared.
pub open spec fn alias_record(c: answer::CnameV) -> answer::RecordV {
    (text::norm(c.0), 5u16, 1u16, c.2, name::name_bytes(text::norm(c.1))->0)
}

pub open spec fn alias_records(list: Seq<answer::CnameV>) -> Seq<answer::RecordV> {
    list.map_values(|c: answer::CnameV| alias_record(c))
}

/// The bytes of aliases are those of their records.
pub proof fn lemma_alias_bytes(list: Seq<answer::CnameV>)
    requires
        rewrite::all_alias_bytes(list) is Some,
    ensures
        rewrite::all_record_bytes(alias_records(list)) == rewrite::all_alias_bytes(list),
    decreases list.len(),
{
    let all = alias_records(list);
    if list.len() == 0 {
        assert(all =~= Seq::empty());
    } else {
        lemma_alias_bytes(list.drop_last());
        assert(all.drop_last() =~= alias_records(list.drop_last()));
        assert(all.last() == alias_record(list.last()));
    }
}

/// Of the aliases that are to be added to the answers of a packet, those that are not among them
/// yet, each once, stand behind them in the end, and all else is kept.
pub proof fn lemma_aliases_appended(p: Seq<u8>, records: Seq<answer::CnameV>)
    requires
        p.len() >= 12,
        rr::answer_end(p) is Some,
        rewrite::with_aliases(p, records) is Some,
        ({
            let fresh = rewrite::new_aliases(rewrite::alias_keys(answer::cname_answers(p)), records);
            fresh.len() <= 65535 && read_back::records_fit(alias_records(fresh))
        }),
    ensures
        has_more_answers(
            p,
            rewrite::with_aliases(p, records)->0,
            alias_records(
                rewrite::new_aliases(rewrite::alias_keys(answer::cname_answers(p)), records),
            ),
        ),
{
    let fresh = rewrite::new_aliases(rewrite::alias_keys(answer::cname_answers(p)), records);
    if fresh.len() == 0 {
        assert(alias_records(fresh) =~= Seq::empty());
        lemma_no_more_answers(p);
    } else {
        lemma_alias_bytes(fresh);
        lemma_with_answers(p, alias_records(fresh));
    }
}

/// The records of the items that can be written, in order.
pub open spec fn item_records(items: Seq<rewrite::ItemV>) -> Seq<answer::RecordV>
    decreases items.len(),
{
    if items.len() == 0 {
        Seq::empty()
    } else {
        let item = items.last();
        match respond::rdata_of(item.rr_type, item.answer) {
            None => item_records(items.drop_last()),
            Some(data) => item_records(items.drop_last()).push(
                (item.owner, item.rr_type, 1u16, item.ttl, data),
            ),
        }
    }
}

/// The bytes of items are those of their records.
proof fn lemma_item_bytes(items: Seq<rewrite::ItemV>)
    requires
        rewrite::additions(items) is Ok,
    ensures
        rewrite::all_record_bytes(item_records(items)) == Some((rewrite::additions(items)->Ok_0).0),
        item_records(items).len() == (rewrite::additions(items)->Ok_0).1,
    decreases items.len(),
{
    if items.len() > 0 {
        let item = items.last();
        let start = items.drop_last();
        lemma_item_bytes(start);
        if let Some(data) = respond::rdata_of(item.rr_type, item.answer) {
            let all = item_records(items);
            assert(all.drop_last() =~= item_records(start));
            read_back::lemma_joined(
                (rewrite::additions(start)->Ok_0).0,
                name::name_bytes(item.owner)->0,
                respond::rr_tail(item.rr_type, 1, item.ttl, data),
            );
        }
    }
}

/// Whether `q` is `p` with the records of a list behind its additional ones: the header but for
/// their number, the sections there were and all that follows are kept, and the new records are
/// read as those of the list.
pub open spec fn has_more_additionals(p: Seq<u8>, q: Seq<u8>, list: Seq<answer::RecordV>) -> bool {
    let a = edns::additional_end(p)->0;
    let b = edns::additional_end(q)->0;
    &&& edns::additional_end(p) is Some && edns::additional_end(q) is Some
    &&& wire::header(q) == (wire::DnsHeader {
        arcount: (wire::header(p).arcount + list.len()) as u16,
        ..wire::header(p)
    })
    &&& wire::header(p).arcount + list.len() <= u16::MAX
    &&& shared(p, q, 12, a)
    &&& q.skip(b) == p.skip(a)
    &&& rr::question_end(q) == rr::question_end(p)
    &&& rr::answers(q) == rr::answers(p)
    &&& rr::additional_start(q) == rr::additional_start(p)
    &&& rr::additionals(q).len() == rr::additionals(p).len() + list.len()
    &&& rr::additionals(q).take(rr::additionals(p).len() as int) == rr::additionals(p)
    &&& forall|i: int|
        0 <= i < list.len() ==> {
            let r = rr::additionals(q)[rr::additionals(p).len() + i];
            &&& rr::named_at(q, r.start, rr::DnsSection::Additional) is Some
            &&& answer::record_of(q, rr::named_at(q, r.start, rr::DnsSection::Additional)->0)
                == read_back::absolute_record(#[trigger] list[i])
        }
}

/// The bytes of a packet with records put behind its additional ones.
proof fn lemma_extended(p: Seq<u8>, bytes: Seq<u8>, n: nat)
    requires
        p.len() >= 12,
        edns::additional_end(p) is Some,
        wire::header(p).arcount + n <= u16::MAX,
    ensures
        ({
            let a = edns::additional_end(p)->0;
            let q = wire::put16(
                p.take(a) + bytes + p.skip(a),
                10,
                (wire::header(p).arcount + n) as u16,
            );
            &&& 12 <= rr::question_end(p)->0 <= rr::answer_end(p)->0 <= rr::additional_start(p)->0
                <= a <= p.len()
            &&& wire::header(q) == (wire::DnsHeader {
                arcount: (wire::header(p).arcount + n) as u16,
                ..wire::header(p)
            })
            &&& q.len() == p.len() + bytes.len()
            &&& shared(p, q, 12, a)
            &&& q.subrange(a, a + bytes.len()) == bytes
            &&& q.skip(a + bytes.len()) == p.skip(a)
        }),
{
    let h = wire::header(p);
    let a = edns::additional_end(p)->0;
    lemma_questions_bounds(p, 12, h.qdcount as nat);
    rr::lemma_rr_list(p, rr::question_end(p)->0, h.ancount as nat);
    rr::lemma_rr_list(p, rr::answer_end(p)->0, h.nscount as nat);
    rr::lemma_rr_list(p, rr::additional_start(p)->0, h.arcount as nat);
    lemma_inserted(p, a, bytes, 10, (h.arcount + n) as u16);
}

/// Records put behind the additional ones of a packet stand there, and all else is kept.
#[verifier::spinoff_prover]
proof fn lemma_with_additionals(p: Seq<u8>, list: Seq<answer::RecordV>)
    requires
        p.len() >= 12,
        edns::additional_end(p) is Some,
        rewrite::all_record_bytes(list) is Some,
        wire::header(p).arcount + list.len() <= u16::MAX,
        read_back::records_fit(list),
    ensures
        ({
            let a = edns::additional_end(p)->0;
            has_more_additionals(
                p,
                wire::put16(
                    p.take(a) + rewrite::all_record_bytes(list)->0 + p.skip(a),
                    10,
                    (wire::header(p).arcount + list.len()) as u16,
                ),
                list,
            )
        }),
{
    let section = rr::DnsSection::Additional;
    let bytes = rewrite::all_record_bytes(list)->0;
    let h = wire::header(p);
    let a = edns::additional_end(p)->0;
    let q = wire::put16(p.take(a) + bytes + p.skip(a), 10, (h.arcount + list.len()) as u16);
    let s = rr::additional_start(p)->0;
    let ar = h.arcount as nat;
    lemma_extended(p, bytes, list.len());
    lemma_questions_shared(p, q, 12, h.qdcount as nat);
    lemma_rrs_shared(p, q, rr::question_end(p)->0, h.ancount as nat);
    lemma_rrs_shared(p, q, rr::answer_end(p)->0, h.nscount as nat);
    lemma_rrs_shared(p, q, s, ar);
    lemma_reads_as(q, a, section, list);
    lemma_rrs_joined(q, s, ar, list.len());
    rr::lemma_rr_list(p, s, ar);
    let more = rr::rr_list(q, a, list.len());
    let old = rr::additionals(p);
    assert(rr::additionals(q) == old + more);
    assert(rr::additionals(q).take(old.len() as int) =~= old);
    assert forall|i: int| 0 <= i < list.len() implies {
        let r = rr::additionals(q)[old.len() + i];
        &&& rr::named_at(q, r.start, section) is Some
        &&& answer::record_of(q, rr::named_at(q, r.start, section)->0)
            == read_back::absolute_record(#[trigger] list[i])
    } by {
        assert(rr::additionals(q)[old.len() + i] == more[i]);
    }
}

/// The records that are to be added to the additional ones of a packet, as far as they can be
/// written, stand behind them in the end, and all else is kept.
pub proof fn lemma_additionals_appended(p: Seq<u8>, records: Seq<DnsAdditionalRecord>)
    requires
        rewrite::with_additions(p, records) is Ok,
        records.len() > 0,
        read_back::records_fit(item_records(rewrite::all_items(records))),
    ensures
        has_more_additionals(
            p,
            rewrite::with_additions(p, records)->Ok_0,
            item_records(rewrite::all_items(records)),
        ),
{
    let items = rewrite::all_items(records);
    let list = item_records(items);
    lemma_item_bytes(items);
    if list.len() == 0 {
        let h = wire::header(p);
        assert(list =~= Seq::empty());
        lemma_questions_bounds(p, 12, h.qdcount as nat);
        rr::lemma_rr_list(p, rr::question_end(p)->0, h.ancount as nat);
        rr::lemma_rr_list(p, rr::answer_end(p)->0, h.nscount as nat);
        rr::lemma_rr_list(p, rr::additional_start(p)->0, h.arcount as nat);
        assert(rr::additionals(p).take(rr::additionals(p).len() as int) =~= rr::additionals(p));
    } else {
        lemma_with_additionals(p, list);
    }
}

/// A record of a packet as it is written without name compression.
pub open spec fn plain_form(p: Seq<u8>, r: rr::NamedRr) -> answer::RecordV {
    (r.owner, r.rr.rr_type, r.rr.rr_class, r.rr.ttl, plain::plain_data(p, r)->0)
}

pub open spec fn plain_forms(p: Seq<u8>, list: Seq<rr::NamedRr>) -> Seq<answer::RecordV> {
    list.map_values(|r: rr::NamedRr| plain_form(p, r))
}

/// The bytes of plain records are those of their plain forms.
proof fn lemma_plain_bytes(p: Seq<u8>, list: Seq<rr::NamedRr>)
    requires
        plain::plain_records(p, list) is Some,
    ensures
        rewrite::all_record_bytes(plain_forms(p, list)) == plain::plain_records(p, list),
    decreases list.len(),
{
    let all = plain_forms(p, list);
    if list.len() == 0 {
        assert(all =~= Seq::empty());
    } else {
        lemma_plain_bytes(p, list.drop_last());
        assert(all.drop_last() =~= plain_forms(p, list.drop_last()));
        assert(all.last() == plain_form(p, list.last()));
    }
}

/// The bytes of a packet with another question section and other answers.
proof fn lemma_reencoded_bytes(p: Seq<u8>, request: Seq<u8>)
    requires
        rewrite::reencoded(p, request) is Some,
    ensures
        ({
            let q = rewrite::reencoded(p, request)->0;
            let b = rr::question_end(request)->0;
            let records = plain::plain_records(p, answer::named_answers(p))->0;
            &&& 12 <= b <= request.len()
            &&& wire::header(q) == (wire::DnsHeader {
                qdcount: wire::header(request).qdcount,
                nscount: 0,
                arcount: 0,
                ..wire::header(p)
            })
            &&& q.len() == b + records.len()
            &&& shared(request, q, 12, b)
            &&& q.subrange(b, b + records.len()) == records
        }),
{
    let q = rewrite::reencoded(p, request)->0;
    let b = rr::question_end(request)->0;
    let records = plain::plain_records(p, answer::named_answers(p))->0;
    let qd = wire::header(request).qdcount;
    lemma_questions_bounds(request, 12, qd as nat);
    let joined = p.take(12) + request.subrange(12, b) + records;
    let one = wire::put16(joined, 4, qd);
    let two = wire::put16(one, 10, 0);
    assert(q == wire::put16(two, 8, 0));
    assert(joined.len() == b + records.len());
    assert forall|i: int| 12 <= i < b implies #[trigger] q[i] == request[i] by {
        assert(joined[i] == request[i]);
    }
    assert(q.subrange(b, b + records.len()) =~= records);
    assert(forall|i: int| 0 <= i < 12 ==> #[trigger] joined[i] == p[i]);
    assert(q[4] == (qd / 256) as u8 && q[5] == (qd % 256) as u8);
    assert(q[8] == 0 && q[9] == 0 && q[10] == 0 && q[11] == 0);
    assert(q[0] == p[0] && q[1] == p[1] && q[2] == p[2] && q[3] == p[3] && q[6] == p[6] && q[7]
        == p[7]);
}

/// A packet that is written anew for a request has the questions of the request, the answers it
/// had, without name compression, under the identifier, the flags and the response code it had,
/// and no other records.
#[verifier::spinoff_prover]
pub proof fn lemma_reencoded(p: Seq<u8>, request: Seq<u8>)
    requires
        rewrite::reencoded(p, request) is Some,
        read_back::records_fit(plain_forms(p, answer::named_answers(p))),
    ensures
        ({
            let q = rewrite::reencoded(p, request)->0;
            let h = wire::header(q);
            &&& h.id == wire::header(p).id && h.flags == wire::header(p).flags
            &&& h.qdcount == wire::header(request).qdcount && h.nscount == 0 && h.arcount == 0
            &&& rr::question_end(q) == rr::question_end(request)
            &&& shared(request, q, 12, rr::question_end(request)->0)
            &&& rr::answer_end(q) == Some(q.len() as int)
            &&& read_back::answers_are(q, plain_forms(p, answer::named_answers(p)))
        }),
{
    let q = rewrite::reencoded(p, request)->0;
    let b = rr::question_end(request)->0;
    let named = answer::named_answers(p);
    let list = plain_forms(p, named);
    lemma_reencoded_bytes(p, request);
    lemma_plain_bytes(p, named);
    lemma_questions_shared(request, q, 12, wire::header(request).qdcount as nat);
    read_back::lemma_named_list_rrs(
        p,
        rr::question_end(p)->0,
        wire::header(p).ancount as nat,
        rr::DnsSection::Answer,
    );
    assert(list.len() == wire::header(q).ancount);
    read_back::lemma_records_round_trip(q, b, rr::DnsSection::Answer, list);
    rr::lemma_named_end_is_rr_end(q, b, list.len());
}

/// The bytes of two lists of records lie behind each other.
proof fn lemma_bytes_joined(a: Seq<answer::RecordV>, b: Seq<answer::RecordV>)
    requires
        rewrite::all_record_bytes(a) is Some,
        rewrite::all_record_bytes(b) is Some,
    ensures
        rewrite::all_record_bytes(a + b) == Some(
            rewrite::all_record_bytes(a)->0 + rewrite::all_record_bytes(b)->0,
        ),
    decreases b.len(),
{
    let x = rewrite::all_record_bytes(a)->0;
    if b.len() == 0 {
        assert(a + b =~= a);
        assert(x + rewrite::all_record_bytes(b)->0 =~= x);
    } else {
        lemma_bytes_joined(a, b.drop_last());
        assert((a + b).drop_last() =~= a + b.drop_last());
        assert((a + b).last() == b.last());
        read_back::lemma_joined(
            x,
            rewrite::all_record_bytes(b.drop_last())->0,
            rewrite::record_bytes(b.last())->0,
        );
    }
}

/// The record of an alias with its names as they are.
pub open spec fn link_record(c: answer::CnameV) -> answer::RecordV {
    (c.0, 5u16, 1u16, c.2, name::name_bytes(c.1)->0)
}

pub open spec fn link_records(list: Seq<answer::CnameV>) -> Seq<answer::RecordV> {
    list.map_values(|c: answer::CnameV| link_record(c))
}

proof fn lemma_link_record_bytes(list: Seq<answer::CnameV>)
    requires
        dns_rfc_patch::all_link_bytes(list) is Some,
    ensures
        rewrite::all_record_bytes(link_records(list)) == dns_rfc_patch::all_link_bytes(list),
    decreases list.len(),
{
    let all = link_records(list);
    if list.len() == 0 {
        assert(all =~= Seq::empty());
    } else {
        lemma_link_record_bytes(list.drop_last());
        assert(all.drop_last() =~= link_records(list.drop_last()));
        assert(all.last() == link_record(list.last()));
    }
}

/// The answers of a packet with an alias chain after they were brought into order: the chain, and
/// what is at its end.
pub open spec fn ordered_answers(p: Seq<u8>, qtype: u16) -> Seq<answer::RecordV> {
    let links = dns_rfc_patch::links(p);
    link_records(links) + dns_rfc_patch::chain_end(p, links.last().1, qtype)->0
}

/// The bytes of a packet whose answers were replaced.
proof fn lemma_replaced(p: Seq<u8>, section: Seq<u8>, n: u16)
    requires
        p.len() >= 12,
        rr::answer_end(p) is Some,
    ensures
        ({
            let e = rr::question_end(p)->0;
            let a = rr::answer_end(p)->0;
            let q = wire::put16(p.take(e) + section + p.skip(a), 6, n);
            &&& 12 <= e <= a <= p.len()
            &&& wire::header(q) == (wire::DnsHeader { ancount: n, ..wire::header(p) })
            &&& shared(p, q, 12, e)
            &&& e + section.len() <= q.len()
            &&& q.subrange(e, e + section.len()) == section
            &&& q.skip(e + section.len()) == p.skip(a)
        }),
{
    let e = rr::question_end(p)->0;
    let a = rr::answer_end(p)->0;
    lemma_questions_bounds(p, 12, wire::header(p).qdcount as nat);
    rr::lemma_rr_list(p, e, wire::header(p).ancount as nat);
    let joined = p.take(e) + section + p.skip(a);
    let q = wire::put16(joined, 6, n);
    assert forall|i: int| 0 <= i < e && i != 6 && i != 7 implies #[trigger] q[i] == p[i] by {
        assert(joined[i] == p[i]);
    }
    assert(q[6] == (n / 256) as u8 && q[7] == (n % 256) as u8);
    assert(q.subrange(e, e + section.len()) =~= section);
    assert(q.skip(e + section.len()) =~= p.skip(a));
}

/// Where the answers of a packet hold an alias chain with something at its end, they are in order
/// afterwards: the aliases at the front, then the records of the asked type at the end of the
/// chain, and no others. The header but for their number, the questions and the other
/// sections are kept.
#[verifier::spinoff_prover]
pub proof fn lemma_chain_in_order(p: Seq<u8>, qtype: u16)
    requires
        dns_rfc_patch::chain_parts(p, qtype) matches Some(Some(_)),
        ordered_answers(p, qtype).len() <= 65535,
        read_back::records_fit(ordered_answers(p, qtype)),
    ensures
        ({
            let q = dns_rfc_patch::normalized(p, qtype)->0;
            let list = ordered_answers(p, qtype);
            &&& dns_rfc_patch::normalized(p, qtype) is Some
            &&& wire::header(q) == (wire::DnsHeader { ancount: list.len() as u16, ..wire::header(p) })
            &&& rr::question_end(q) == rr::question_end(p)
            &&& shared(p, q, 12, rr::question_end(p)->0)
            &&& read_back::answers_are(q, list)
            &&& rr::answer_end(q) is Some && q.skip(rr::answer_end(q)->0) == p.skip(
                rr::answer_end(p)->0,
            )
        }),
{
    let links = dns_rfc_patch::links(p);
    let end = dns_rfc_patch::chain_end(p, links.last().1, qtype)->0;
    let list = ordered_answers(p, qtype);
    let (section, n) = dns_rfc_patch::chain_parts(p, qtype)->0->0;
    let q = dns_rfc_patch::normalized(p, qtype)->0;
    let e = rr::question_end(p)->0;
    rr::lemma_named_end_is_rr_end(p, e, wire::header(p).ancount as nat);
    lemma_link_record_bytes(links);
    lemma_bytes_joined(link_records(links), end);
    assert(rewrite::all_record_bytes(list) == Some(section));
    assert(n == list.len());
    lemma_replaced(p, section, n as u16);
    lemma_questions_shared(p, q, 12, wire::header(p).qdcount as nat);
    read_back::lemma_records_round_trip(q, e, rr::DnsSection::Answer, list);
    rr::lemma_named_end_is_rr_end(q, e, list.len());
}

/// Questions that end at one place are of one number.
proof fn lemma_question_count(p: Seq<u8>, off: int, n: nat, m: nat)
    requires
        0 <= off <= p.len(),
        rr::questions_end(p, off, n) is Some,
        rr::questions_end(p, off, m) == rr::questions_end(p, off, n),
    ensures
        n == m,
    decreases n,
{
    name::lemma_name_end_bounds(p, off);
    if n > 0 && m > 0 {
        let e = name::name_end(p, off)->0;
        lemma_question_count(p, e + 4, (n - 1) as nat, (m - 1) as nat);
    } else if n > 0 {
        lemma_questions_bounds(p, name::name_end(p, off)->0 + 4, (n - 1) as nat);
    } else if m > 0 {
        lemma_questions_bounds(p, name::name_end(p, off)->0 + 4, (m - 1) as nat);
    }
}

/// A packet that gets the questions of a request has them, under the identifier and with the flags
/// it had, and what follows its questions is kept.
pub proof fn lemma_requestioned(p: Seq<u8>, request: Seq<u8>)
    requires
        rewrite::requestioned(p, request) is Some,
    ensures
        ({
            let q = rewrite::requestioned(p, request)->0;
            let a = rr::question_end(p)->0;
            let b = rr::question_end(request)->0;
            &&& wire::header(q) == (wire::DnsHeader {
                qdcount: wire::header(request).qdcount,
                ..wire::header(p)
            })
            &&& rr::question_end(q) == Some(b)
            &&& shared(request, q, 12, b)
            &&& q.skip(b) == p.skip(a)
        }),
{
    let q = rewrite::requestioned(p, request)->0;
    let a = rr::question_end(p)->0;
    let b = rr::question_end(request)->0;
    lemma_questions_bounds(p, 12, wire::header(p).qdcount as nat);
    lemma_questions_bounds(request, 12, wire::header(request).qdcount as nat);
    if p.subrange(12, a) == request.subrange(12, b) {
        assert(p.subrange(12, a).len() == request.subrange(12, b).len());
        assert forall|i: int| 12 <= i < b implies #[trigger] q[i] == request[i] by {
            assert(p.subrange(12, a)[i - 12] == request.subrange(12, b)[i - 12]);
        }
        lemma_questions_shared(request, q, 12, wire::header(request).qdcount as nat);
        lemma_question_count(
            q,
            12,
            wire::header(p).qdcount as nat,
            wire::header(request).qdcount as nat,
        );
    } else {
        let qd = wire::header(request).qdcount;
        let joined = p.take(12) + request.subrange(12, b) + p.skip(a);
        assert(q == wire::put16(joined, 4, qd));
        assert forall|i: int| 12 <= i < b implies #[trigger] q[i] == request[i] by {
            assert(joined[i] == request[i]);
        }
        assert(forall|i: int| 0 <= i < 12 ==> #[trigger] joined[i] == p[i]);
        assert(q[4] == (qd / 256) as u8 && q[5] == (qd % 256) as u8);
        assert(q.skip(b) =~= p.skip(a));
        lemma_questions_shared(request, q, 12, qd as nat);
    }
}

} // verus!
