//! What is read back from the responses that are built here.
use crate::codec::address;
use crate::codec::answer;
use crate::codec::edns;
use crate::codec::laws;
use crate::codec::name;
use crate::codec::query;
use crate::codec::respond;
use crate::codec::rewrite;
use crate::codec::rr;
use crate::codec::ttl;
use crate::codec::wire;
use crate::ip;
use vstd::prelude::*;

verus! {

/// No data is too long for a record.
pub open spec fn records_fit(list: Seq<answer::RecordV>) -> bool {
    forall|i: int| 0 <= i < list.len() ==> (#[trigger] list[i]).4.len() <= 65535
}

/// A record with its owner as it is read: without the white space around it and without a final
/// dot.
pub open spec fn absolute_record(r: answer::RecordV) -> answer::RecordV {
    (name::absolute(r.0), r.1, r.2, r.3, r.4)
}

pub open spec fn absolute_records(list: Seq<answer::RecordV>) -> Seq<answer::RecordV> {
    list.map_values(|r: answer::RecordV| absolute_record(r))
}

/// The records of a list as they are read.
pub open spec fn read_records(p: Seq<u8>, list: Seq<rr::NamedRr>) -> Seq<answer::RecordV> {
    list.map_values(|r: rr::NamedRr| answer::record_of(p, r))
}

/// A record is read back from where it was written.
pub proof fn lemma_record_round_trip(
    p: Seq<u8>,
    off: int,
    section: rr::DnsSection,
    r: answer::RecordV,
)
    requires
        rewrite::record_bytes(r) is Some,
        r.4.len() <= 65535,
        0 <= off,
        off + rewrite::record_bytes(r)->0.len() <= p.len(),
        p.subrange(off, off + rewrite::record_bytes(r)->0.len()) == rewrite::record_bytes(r)->0,
    ensures
        rr::named_at(p, off, section) is Some,
        ({
            let found = rr::named_at(p, off, section)->0;
            &&& found.section == section
            &&& found.rr.end == off + rewrite::record_bytes(r)->0.len()
            &&& answer::record_of(p, found) == absolute_record(r)
        }),
{
    let (owner, rr_type, rr_class, ttl, data) = r;
    let n = name::name_bytes(owner)->0;
    let tail = respond::rr_tail(rr_type, rr_class, ttl, data);
    let e = off + n.len();
    lemma_pieces(p, off, n, tail);
    let part = p.subrange(e, e + tail.len());
    assert(tail.len() == 10 + data.len());
    assert forall|i: int| 0 <= i < tail.len() implies p[e + i] == #[trigger] tail[i] by {
        assert(part[i] == tail[i]);
    }
    laws::lemma_name_round_trip(owner, p, off);
    name::lemma_read_and_skip_agree(p, off, 0);
    assert(p.subrange(e, e + 2) =~= wire::bytes16(rr_type)) by {
        assert(p[e] == tail[0] && p[e + 1] == tail[1]);
    }
    wire::lemma_be16_bytes(p, e, rr_type);
    assert(p.subrange(e + 2, e + 4) =~= wire::bytes16(rr_class)) by {
        assert(p[e + 2] == tail[2] && p[e + 3] == tail[3]);
    }
    wire::lemma_be16_bytes(p, e + 2, rr_class);
    assert(p.subrange(e + 4, e + 8) =~= wire::bytes32(ttl)) by {
        assert(p[e + 4] == tail[4] && p[e + 5] == tail[5] && p[e + 6] == tail[6] && p[e + 7]
            == tail[7]);
    }
    wire::lemma_be32_bytes(p, e + 4, ttl);
    assert(p.subrange(e + 8, e + 10) =~= wire::bytes16(data.len() as u16)) by {
        assert(p[e + 8] == tail[8] && p[e + 9] == tail[9]);
    }
    wire::lemma_be16_bytes(p, e + 8, data.len() as u16);
    assert(p.subrange(e + 10, e + 10 + data.len()) =~= data) by {
        assert forall|i: int| 0 <= i < data.len() implies p.subrange(
            e + 10,
            e + 10 + data.len(),
        )[i] == #[trigger] data[i] by {
            assert(p[e + (10 + i)] == tail[10 + i]);
        }
    }
}

/// One more record at the end of a list of records with names.
proof fn lemma_named_list_push(p: Seq<u8>, off: int, n: nat, section: rr::DnsSection)
    requires
        rr::named_end(p, off, n) is Some,
        rr::named_at(p, rr::named_end(p, off, n)->0, section) is Some,
    ensures
        ({
            let r = rr::named_at(p, rr::named_end(p, off, n)->0, section)->0;
            &&& rr::named_list(p, off, n + 1, section) == rr::named_list(p, off, n, section).push(r)
            &&& rr::named_end(p, off, n + 1) == Some(r.rr.end)
        }),
    decreases n,
{
    rr::lemma_named_section(p, off, section, rr::DnsSection::Answer);
    let last = rr::named_at(p, rr::named_end(p, off, n)->0, section)->0;
    if n == 0 {
        assert(rr::named_list(p, off, 0, section) =~= Seq::empty());
        assert(rr::named_list(p, last.rr.end, 0, section) =~= Seq::empty());
        assert(rr::named_end(p, last.rr.end, 0) == Some(last.rr.end));
        assert(rr::named_list(p, off, 1, section) =~= seq![last]);
    } else {
        let first = rr::named_at(p, off, section)->0;
        lemma_named_list_push(p, first.rr.end, (n - 1) as nat, section);
        assert(rr::named_list(p, off, n + 1, section) =~= rr::named_list(p, off, n, section).push(
            last,
        ));
    }
}

/// Two pieces that lie behind each other.
pub proof fn lemma_pieces(p: Seq<u8>, off: int, a: Seq<u8>, b: Seq<u8>)
    requires
        0 <= off,
        off + a.len() + b.len() <= p.len(),
        p.subrange(off, off + a.len() + b.len()) == a + b,
    ensures
        p.subrange(off, off + a.len()) == a,
        p.subrange(off + a.len(), off + a.len() + b.len()) == b,
{
    let part = p.subrange(off, off + a.len() + b.len());
    assert forall|i: int| 0 <= i < a.len() implies p.subrange(off, off + a.len())[i]
        == #[trigger] a[i] by {
        assert(part[i] == (a + b)[i]);
    }
    assert(p.subrange(off, off + a.len()) =~= a);
    let at = off + a.len();
    assert forall|i: int| 0 <= i < b.len() implies p.subrange(at, at + b.len())[i]
        == #[trigger] b[i] by {
        assert(part[a.len() + i] == (a + b)[a.len() + i]);
    }
    assert(p.subrange(at, at + b.len()) =~= b);
}

/// Records are read back from where they were written.
#[verifier::spinoff_prover]
pub proof fn lemma_records_round_trip(
    p: Seq<u8>,
    off: int,
    section: rr::DnsSection,
    list: Seq<answer::RecordV>,
)
    requires
        rewrite::all_record_bytes(list) is Some,
        records_fit(list),
        0 <= off,
        off + rewrite::all_record_bytes(list)->0.len() <= p.len(),
        p.subrange(off, off + rewrite::all_record_bytes(list)->0.len())
            == rewrite::all_record_bytes(list)->0,
    ensures
        rr::named_end(p, off, list.len()) == Some(
            off + rewrite::all_record_bytes(list)->0.len(),
        ),
        read_records(p, rr::named_list(p, off, list.len(), section)) == absolute_records(list),
    decreases list.len(),
{
    if list.len() == 0 {
        assert(rr::named_list(p, off, 0, section) =~= Seq::empty());
        assert(read_records(p, rr::named_list(p, off, 0, section)) =~= absolute_records(list));
    } else {
        let start = list.drop_last();
        let r = list.last();
        let before = rewrite::all_record_bytes(start)->0;
        let rec = rewrite::record_bytes(r)->0;
        lemma_pieces(p, off, before, rec);
        assert forall|i: int| 0 <= i < start.len() implies (#[trigger] start[i]).4.len()
            <= 65535 by {
            assert(list[i] == start[i]);
        }
        lemma_records_round_trip(p, off, section, start);
        lemma_record_round_trip(p, off + before.len(), section, r);
        lemma_named_list_push(p, off, start.len(), section);
        let was = rr::named_list(p, off, start.len(), section);
        let found = rr::named_at(p, off + before.len(), section)->0;
        assert(read_records(p, was.push(found)) =~= read_records(p, was).push(absolute_record(r)));
        assert(list =~= start.push(r));
        assert(absolute_records(start.push(r)) =~= absolute_records(start).push(
            absolute_record(r),
        ));
    }
}

/// The data of the answers that can be written, in order.
pub open spec fn written(typenum: u16, answers: Seq<Seq<char>>) -> Seq<Seq<u8>>
    decreases answers.len(),
{
    if answers.len() == 0 {
        Seq::empty()
    } else {
        match respond::rdata_of(typenum, answers.last()) {
            None => written(typenum, answers.drop_last()),
            Some(data) => written(typenum, answers.drop_last()).push(data),
        }
    }
}

/// The records of class IN that a name has of a type, with these data.
pub open spec fn records_of(
    owner: Seq<char>,
    rr_type: u16,
    ttl: u32,
    list: Seq<Seq<u8>>,
) -> Seq<answer::RecordV> {
    list.map_values(|data: Seq<u8>| (owner, rr_type, 1u16, ttl, data))
}

proof fn lemma_written_len(typenum: u16, answers: Seq<Seq<char>>)
    ensures
        written(typenum, answers).len() == respond::writable(typenum, answers),
    decreases answers.len(),
{
    reveal(Seq::filter);
    if answers.len() > 0 {
        lemma_written_len(typenum, answers.drop_last());
    }
}

/// The bytes of answers are those of their records.
proof fn lemma_answer_bytes(qname: Seq<char>, typenum: u16, ttl: u32, answers: Seq<Seq<char>>)
    requires
        name::name_bytes(qname) is Some,
    ensures
        rewrite::all_record_bytes(records_of(qname, typenum, ttl, written(typenum, answers)))
            == Some(respond::records_bytes(qname, typenum, ttl, answers)),
    decreases answers.len(),
{
    let all = records_of(qname, typenum, ttl, written(typenum, answers));
    if answers.len() == 0 {
        assert(all =~= Seq::empty());
    } else {
        lemma_answer_bytes(qname, typenum, ttl, answers.drop_last());
        if let Some(data) = respond::rdata_of(typenum, answers.last()) {
            let start = records_of(qname, typenum, ttl, written(typenum, answers.drop_last()));
            assert(all.drop_last() =~= start);
            assert(all.last() == (qname, typenum, 1u16, ttl, data));
            lemma_joined(
                respond::records_bytes(qname, typenum, ttl, answers.drop_last()),
                name::encode_name_spec(qname).0,
                respond::rr_tail(typenum, 1, ttl, data),
            );
        }
    }
}

pub proof fn lemma_joined(a: Seq<u8>, b: Seq<u8>, c: Seq<u8>)
    ensures
        a + b + c == a + (b + c),
{
    assert(a + b + c =~= a + (b + c));
}

/// A question's name that is copied ends where it ended.
proof fn lemma_copied_question(p: Seq<u8>, q: Seq<u8>, off: int)
    requires
        query::question_labels(p, off) is Some,
        (query::question_labels(p, off)->0).1 <= q.len(),
        forall|i: int|
            off <= i < (query::question_labels(p, off)->0).1 ==> #[trigger] q[i] == p[i],
    ensures
        query::question_labels(q, off) == query::question_labels(p, off),
        name::name_end(q, off) == Some((query::question_labels(p, off)->0).1),
        off < (query::question_labels(p, off)->0).1,
    decreases p.len() - off,
{
    if p[off] != 0 {
        let next = off + 1 + p[off];
        query::lemma_question_labels_end(p, next);
        lemma_copied_question(p, q, next);
        assert(q[off] == p[off]);
        assert(q.subrange(off + 1, next) =~= p.subrange(off + 1, next));
    } else {
        assert(q[off] == p[off]);
    }
}

/// A response of a header, the question of a request and more has that question, and what follows
/// it is kept, also where the OPT record of the request is put behind it.
#[verifier::spinoff_prover]
proof fn lemma_response_shape(request: Seq<u8>, h: wire::DnsHeader, rest: Seq<u8>, rcode: u16)
    requires
        query::first_question(request) is Some,
        h.qdcount == 1,
        h.arcount == 0,
    ensures
        ({
            let e = (query::first_question(request)->0).2;
            let base = wire::header_bytes(h) + request.subrange(12, e) + rest;
            let q = edns::echo_opt(request, base, rcode);
            &&& 16 < e
            &&& e + rest.len() <= q.len()
            &&& wire::header(q).id == h.id && wire::header(q).flags == h.flags
            &&& wire::header(q).ancount == h.ancount && wire::header(q).nscount == h.nscount
            &&& query::first_question(q) == query::first_question(request)
            &&& rr::question_end(q) == Some(e)
            &&& q.subrange(e, e + rest.len()) == rest
        }),
{
    let e = (query::first_question(request)->0).2;
    query::lemma_first_question_end(request);
    let head = wire::header_bytes(h);
    let question = request.subrange(12, e);
    let base = head + question + rest;
    let q = edns::echo_opt(request, base, rcode);
    assert(head.len() == 12);
    assert(base.take(12) =~= head);
    wire::lemma_header_bytes(base, h);
    if let Some(rec) = edns::response_opt(request, rcode) {
        laws::lemma_additional_bytes(base, rec);
    }
    assert(forall|i: int| 12 <= i < base.len() ==> #[trigger] base[i] == q[i]);
    assert(wire::header(q).qdcount == 1);
    assert forall|i: int| 12 <= i < e implies #[trigger] q[i] == request[i] by {
        assert(base[i] == question[i - 12]);
    }
    lemma_copied_question(request, q, 12);
    let f = (query::question_labels(request, 12)->0).1;
    assert(f + 4 == e);
    assert(q[f] == request[f] && q[f + 1] == request[f + 1]);
    assert(rr::questions_end(q, e, 0) == Some(e));
    assert(rr::questions_end(q, 12, 1) == Some(e));
    assert(q.subrange(e, e + rest.len()) =~= rest) by {
        assert forall|i: int| 0 <= i < rest.len() implies q.subrange(e, e + rest.len())[i]
            == #[trigger] rest[i] by {
            assert(base[e + i] == rest[i]);
        }
    }
}

/// Records whose names can be read are the records of a list, in the same order.
pub proof fn lemma_named_list_rrs(p: Seq<u8>, off: int, n: nat, section: rr::DnsSection)
    requires
        rr::named_end(p, off, n) is Some,
    ensures
        rr::rr_list(p, off, n) == rr::named_list(p, off, n, section).map_values(
            |r: rr::NamedRr| r.rr,
        ),
        rr::rr_end(p, off, n) == rr::named_end(p, off, n),
        rr::named_list(p, off, n, section).len() == n,
    decreases n,
{
    let list = rr::named_list(p, off, n, section);
    if n > 0 {
        rr::lemma_named_section(p, off, section, rr::DnsSection::Answer);
        let r = rr::named_at(p, off, section)->0;
        lemma_named_list_rrs(p, r.rr.end, (n - 1) as nat, section);
    }
    assert(rr::rr_list(p, off, n) =~= list.map_values(|r: rr::NamedRr| r.rr));
}

/// No data is too long for a record.
pub open spec fn data_fit(list: Seq<Seq<u8>>) -> bool {
    forall|i: int| 0 <= i < list.len() ==> (#[trigger] list[i]).len() <= 65535
}

/// Whether the answers of a packet can be read, and are these records.
pub open spec fn answers_are(p: Seq<u8>, list: Seq<answer::RecordV>) -> bool {
    &&& answer::answers_complete(p)
    &&& read_records(p, answer::named_answers(p)) == absolute_records(list)
}

/// A response whose answers are address records gives those addresses.
#[verifier::spinoff_prover]
proof fn lemma_addresses(p: Seq<u8>, owner: Seq<char>, ttl: u32, list: Seq<Seq<u8>>)
    requires
        p.len() >= 12,
        answers_are(p, records_of(owner, 1, ttl, list)),
        forall|i: int| 0 <= i < list.len() ==> (#[trigger] list[i]).len() == 4,
    ensures
        address::answer_ips(p) == list.map_values(|o: Seq<u8>| ip::ipv4_text(o)),
{
    let q = rr::question_end(p)->0;
    let n = wire::header(p).ancount as nat;
    let named = answer::named_answers(p);
    let records = absolute_records(records_of(owner, 1, ttl, list));
    lemma_named_list_rrs(p, q, n, rr::DnsSection::Answer);
    let rrs = rr::answers(p);
    let f = |r: rr::Rr| address::address_of(p, r);
    let texts = list.map_values(|o: Seq<u8>| ip::ipv4_text(o));
    assert(read_records(p, named).len() == records.len());
    assert forall|i: int| 0 <= i < rrs.len() implies f(#[trigger] rrs[i]) == Some(texts[i]) by {
        assert(rrs[i] == named[i].rr);
        assert(read_records(p, named)[i] == answer::record_of(p, named[i]));
        assert(records[i] == (name::absolute(owner), 1u16, 1u16, ttl, list[i]));
        rr::lemma_rr_list(p, q, n);
        assert(p.subrange(rrs[i].rdata, rrs[i].end) == list[i]);
    }
    lemma_filter_map_all(rrs, f, texts);
}

proof fn lemma_filter_map_all(
    list: Seq<rr::Rr>,
    f: spec_fn(rr::Rr) -> Option<Seq<char>>,
    out: Seq<Seq<char>>,
)
    requires
        list.len() == out.len(),
        forall|i: int| 0 <= i < list.len() ==> f(#[trigger] list[i]) == Some(out[i]),
    ensures
        list.filter_map(f) == out,
    decreases list.len(),
{
    let n = list.len() as int;
    if n == 0 {
        assert(list.filter_map(f) =~= out);
    } else {
        list.lemma_filter_map_take_succ(f, n - 1);
        assert(list.take(n) =~= list);
        let start = list.take(n - 1);
        assert forall|i: int| 0 <= i < start.len() implies f(#[trigger] start[i]) == Some(
            out.drop_last()[i],
        ) by {
            assert(start[i] == list[i]);
        }
        lemma_filter_map_all(start, f, out.drop_last());
        assert(f(list[n - 1]) == Some(out[n - 1]));
        assert(list.filter_map(f) =~= out);
    }
}

proof fn lemma_written_addresses(answers: Seq<Seq<char>>)
    ensures
        forall|i: int|
            0 <= i < written(1, answers).len() ==> (#[trigger] written(1, answers)[i]).len() == 4,
    decreases answers.len(),
{
    if answers.len() > 0 {
        let w = written(1, answers);
        let start = written(1, answers.drop_last());
        lemma_written_addresses(answers.drop_last());
        assert forall|i: int| 0 <= i < w.len() implies (#[trigger] w[i]).len() == 4 by {
            if i < start.len() {
                assert(w[i] == start[i]);
            } else {
                assert(ip::ipv4_value(answers.last()) == Some(w[i]));
            }
        }
    }
}

/// What is read of a response of a header, the question of a request and the records of answers.
#[verifier::spinoff_prover]
proof fn lemma_response_with_records(
    request: Seq<u8>,
    h: wire::DnsHeader,
    t: u16,
    ttl: u32,
    answers: Seq<Seq<char>>,
)
    requires
        query::first_question(request) is Some,
        name::name_bytes((query::first_question(request)->0).0) is Some,
        data_fit(written(t, answers)),
        h.qdcount == 1,
        h.arcount == 0,
        h.ancount == written(t, answers).len(),
    ensures
        ({
            let q = query::first_question(request)->0;
            let w = written(t, answers);
            let p = edns::echo_opt(
                request,
                wire::header_bytes(h) + request.subrange(12, q.2) + respond::records_bytes(
                    q.0,
                    t,
                    ttl,
                    answers,
                ),
                0,
            );
            &&& wire::header(p).id == h.id
            &&& query::first_question(p) == query::first_question(request)
            &&& answers_are(p, records_of(q.0, t, ttl, w))
            &&& t == 1 ==> address::answer_ips(p) == w.map_values(|o: Seq<u8>| ip::ipv4_text(o))
        }),
{
    let q = query::first_question(request)->0;
    let w = written(t, answers);
    let list = records_of(q.0, t, ttl, w);
    let rest = respond::records_bytes(q.0, t, ttl, answers);
    let p = edns::echo_opt(
        request,
        wire::header_bytes(h) + request.subrange(12, q.2) + rest,
        0,
    );
    lemma_response_shape(request, h, rest, 0);
    lemma_answer_bytes(q.0, t, ttl, answers);
    assert forall|i: int| 0 <= i < list.len() implies (#[trigger] list[i]).4.len() <= 65535 by {
        assert(list[i].4 == w[i]);
    }
    lemma_records_round_trip(p, q.2, rr::DnsSection::Answer, list);
    if t == 1 {
        lemma_written_addresses(answers);
        lemma_addresses(p, q.0, ttl, w);
    }
}

/// The bytes and the data of a single answer.
proof fn lemma_one_answer(qname: Seq<char>, typenum: u16, ttl: u32, answer: Seq<char>)
    requires
        respond::rdata_of(typenum, answer) is Some,
    ensures
        ({
            let data = respond::rdata_of(typenum, answer)->0;
            &&& respond::records_bytes(qname, typenum, ttl, seq![answer]) == name::encode_name_spec(
                qname,
            ).0 + respond::rr_tail(typenum, 1, ttl, data)
            &&& written(typenum, seq![answer]) == seq![data]
            &&& records_of(qname, typenum, ttl, seq![data]) == seq![
                (qname, typenum, 1u16, ttl, data),
            ]
        }),
{
    let list = seq![answer];
    let data = respond::rdata_of(typenum, answer)->0;
    assert(list.drop_last() =~= Seq::empty());
    assert(list.last() == answer);
    assert(respond::records_bytes(qname, typenum, ttl, list.drop_last()) =~= Seq::empty());
    assert(written(typenum, list.drop_last()) =~= Seq::empty());
    assert(written(typenum, list) =~= seq![data]);
    assert(respond::records_bytes(qname, typenum, ttl, list) =~= name::encode_name_spec(qname).0
        + respond::rr_tail(typenum, 1, ttl, data));
    assert(records_of(qname, typenum, ttl, seq![data]) =~= seq![
        (qname, typenum, 1u16, ttl, data),
    ]);
}

/// A response of static data answers the question that was asked, under its identifier, with
/// exactly the record that was written.
#[verifier::spinoff_prover]
pub proof fn lemma_static_answer_read_back(
    request: Seq<u8>,
    answer: Seq<char>,
    ttl: u32,
    qtype: Seq<char>,
)
    requires
        respond::static_answer(request, answer, ttl, qtype) is Ok,
        ({
            let q = query::first_question(request)->0;
            &&& name::name_bytes(q.0) is Some
            &&& respond::rdata_of(respond::type_number(qtype, q.1), answer)->0.len() <= 65535
        }),
    ensures
        ({
            let p = respond::static_answer(request, answer, ttl, qtype)->Ok_0;
            let q = query::first_question(request)->0;
            let t = respond::type_number(qtype, q.1);
            let data = respond::rdata_of(t, answer)->0;
            &&& wire::header(p).id == wire::header(request).id
            &&& query::first_question(p) == query::first_question(request)
            &&& answers_are(p, seq![(q.0, t, 1u16, ttl, data)])
            &&& t == 1 ==> address::answer_ips(p) == seq![ip::ipv4_text(data)]
        }),
{
    let q = query::first_question(request)->0;
    let t = respond::type_number(qtype, q.1);
    let data = respond::rdata_of(t, answer)->0;
    let h = respond::response_header(request, 0, 1, 1, 0);
    lemma_one_answer(q.0, t, ttl, answer);
    lemma_joined(
        wire::header_bytes(h) + request.subrange(12, q.2),
        name::encode_name_spec(q.0).0,
        respond::rr_tail(t, 1, ttl, data),
    );
    lemma_response_with_records(request, h, t, ttl, seq![answer]);
    assert(seq![data].map_values(|o: Seq<u8>| ip::ipv4_text(o)) =~= seq![ip::ipv4_text(data)]);
}

/// An authoritative response answers the question that was asked, under its identifier, with one
/// record for each answer that can be written, in their order, as far as these can be counted.
#[verifier::spinoff_prover]
pub proof fn lemma_authoritative_answer_read_back(
    request: Seq<u8>,
    answers: Seq<Seq<char>>,
    ttl: u32,
    qtype: Seq<char>,
)
    requires
        respond::authoritative_answer(request, answers, ttl, qtype) is Ok,
        ({
            let q = query::first_question(request)->0;
            let w = written(respond::type_number(qtype, q.1), answers);
            &&& name::name_bytes(q.0) is Some
            &&& data_fit(w)
            &&& w.len() <= 65535
        }),
    ensures
        ({
            let p = respond::authoritative_answer(request, answers, ttl, qtype)->Ok_0;
            let q = query::first_question(request)->0;
            let t = respond::type_number(qtype, q.1);
            let w = written(t, answers);
            &&& wire::header(p).id == wire::header(request).id
            &&& query::first_question(p) == query::first_question(request)
            &&& answers_are(p, records_of(q.0, t, ttl, w))
            &&& t == 1 ==> address::answer_ips(p) == w.map_values(|o: Seq<u8>| ip::ipv4_text(o))
        }),
{
    let q = query::first_question(request)->0;
    let t = respond::type_number(qtype, q.1);
    let w = written(t, answers);
    lemma_written_len(t, answers);
    let h = respond::response_header(request, 0x0400, 1, respond::saturate16(w.len()), 0);
    lemma_response_with_records(request, h, t, ttl, answers);
}

/// A response with the start of authority of a zone answers the question that was asked, under its
/// identifier, and has that one record, in the answer section or in the authority section.
#[verifier::spinoff_prover]
pub proof fn lemma_soa_read_back(
    request: Seq<u8>,
    zone: Seq<char>,
    soa: respond::SoaV,
    extra: u16,
    in_answer: bool,
)
    requires
        respond::soa_response(request, zone, soa, extra, in_answer) is Ok,
        name::name_bytes(zone) is Some,
        respond::soa_data(soa).len() <= 65535,
    ensures
        ({
            let p = respond::soa_response(request, zone, soa, extra, in_answer)->Ok_0;
            let section = if in_answer {
                rr::DnsSection::Answer
            } else {
                rr::DnsSection::Authority
            };
            let record = (zone, 6u16, 1u16, soa.minimum, respond::soa_data(soa));
            let h = wire::header(p);
            &&& p.len() >= 12
            &&& h.id == wire::header(request).id
            &&& query::first_question(p) == query::first_question(request)
            &&& h.ancount + h.nscount == 1 && (h.ancount == 1 <==> in_answer)
            &&& rr::question_end(p) matches Some(q) && read_records(
                p,
                rr::named_list(p, q, 1, section),
            ) == seq![absolute_record(record)]
        }),
{
    let p = respond::soa_response(request, zone, soa, extra, in_answer)->Ok_0;
    let q = query::first_question(request)->0;
    let data = respond::soa_data(soa);
    let (an, ns, section) = if in_answer {
        (1u16, 0u16, rr::DnsSection::Answer)
    } else {
        (0u16, 1u16, rr::DnsSection::Authority)
    };
    let h = respond::response_header(request, extra, 1, an, ns);
    let record = (zone, 6u16, 1u16, soa.minimum, data);
    let rest = rewrite::record_bytes(record)->0;
    lemma_joined(
        wire::header_bytes(h) + request.subrange(12, q.2),
        name::encode_name_spec(zone).0,
        respond::rr_tail(6, 1, soa.minimum, data),
    );
    lemma_response_shape(request, h, rest, 0);
    lemma_record_round_trip(p, q.2, section, record);
    let r = rr::named_at(p, q.2, section)->0;
    assert(rr::named_list(p, r.rr.end, 0, section) =~= Seq::empty());
    assert(rr::named_list(p, q.2, 1, section) =~= seq![r]);
    assert(read_records(p, seq![r]) =~= seq![absolute_record(record)]);
}

/// What is read of the data of a start of authority.
proof fn lemma_soa_data(p: Seq<u8>, off: int, soa: respond::SoaV)
    requires
        name::name_bytes(soa.mname) is Some,
        name::name_bytes(soa.rname) is Some,
        0 <= off,
        off + respond::soa_data(soa).len() <= p.len(),
        p.subrange(off, off + respond::soa_data(soa).len()) == respond::soa_data(soa),
    ensures
        name::name_at(p, off) is Some,
        name::name_at(p, (name::name_at(p, off)->0).1) is Some,
        ({
            let e = (name::name_at(p, (name::name_at(p, off)->0).1)->0).1;
            e + 20 == off + respond::soa_data(soa).len() && wire::be32(p, e + 16) == soa.minimum
        }),
{
    let m = name::name_bytes(soa.mname)->0;
    let r = name::name_bytes(soa.rname)->0;
    let front = wire::bytes32(soa.serial) + wire::bytes32(soa.refresh) + wire::bytes32(soa.retry)
        + wire::bytes32(soa.expire);
    let last = wire::bytes32(soa.minimum);
    assert(respond::soa_data(soa) =~= m + (r + (front + last)));
    lemma_pieces(p, off, m, r + (front + last));
    lemma_pieces(p, off + m.len(), r, front + last);
    let e = off + m.len() + r.len();
    lemma_pieces(p, e, front, last);
    laws::lemma_name_round_trip(soa.mname, p, off);
    laws::lemma_name_round_trip(soa.rname, p, off + m.len());
    assert(front.len() == 16);
    wire::lemma_be32_bytes(p, e + 16, soa.minimum);
}

/// What the start of authority in a packet says of its lifetime.
proof fn lemma_soa_lifetime(p: Seq<u8>, zone: Seq<char>, soa: respond::SoaV)
    requires
        name::name_bytes(soa.mname) is Some,
        name::name_bytes(soa.rname) is Some,
        p.len() >= 12,
        wire::header(p).ancount == 0,
        wire::header(p).nscount == 1,
        rr::question_end(p) is Some,
        read_records(
            p,
            rr::named_list(p, rr::question_end(p)->0, 1, rr::DnsSection::Authority),
        ) == seq![absolute_record((zone, 6u16, 1u16, soa.minimum, respond::soa_data(soa)))],
    ensures
        ttl::negative_ttl(p) == Some(soa.minimum),
{
    let q = rr::question_end(p)->0;
    let section = rr::DnsSection::Authority;
    let list = rr::named_list(p, q, 1, section);
    assert(read_records(p, list).len() == 1);
    let r = list[0];
    assert(read_records(p, list)[0] == answer::record_of(p, r));
    assert(rr::named_at(p, q, section) == Some(r));
    rr::lemma_rr_bounds(p, q);
    assert(p.subrange(r.rr.rdata, r.rr.end) == respond::soa_data(soa));
    lemma_soa_data(p, r.rr.rdata, soa);
    assert(rr::named_list(p, q, 0, rr::DnsSection::Answer) =~= Seq::empty());
    assert(rr::named_end(p, q, 0) == Some(q));
    let all = rr::scanned(p);
    assert(all.len() > 0 && all[0] == r);
    assert(ttl::soa_ttl(p, r) == Some(soa.minimum));
}

/// A negative answer of a zone may be cached for as long as the zone's start of authority says.
#[verifier::spinoff_prover]
pub proof fn lemma_negative_answer_lifetime(
    request: Seq<u8>,
    zone: Seq<char>,
    soa: respond::SoaV,
    extra: u16,
)
    requires
        respond::soa_response(request, zone, soa, extra, false) is Ok,
        name::name_bytes(zone) is Some,
        name::name_bytes(soa.mname) is Some,
        name::name_bytes(soa.rname) is Some,
        respond::soa_data(soa).len() <= 65535,
    ensures
        ttl::negative_ttl(respond::soa_response(request, zone, soa, extra, false)->Ok_0) == Some(
            soa.minimum,
        ),
{
    let p = respond::soa_response(request, zone, soa, extra, false)->Ok_0;
    lemma_soa_read_back(request, zone, soa, extra, false);
    lemma_soa_lifetime(p, zone, soa);
}

/// The header of an authoritative response is that of a static one but for the flag that says so.
proof fn lemma_authoritative_header(request: Seq<u8>)
    ensures
        ({
            let h = respond::response_header(request, 0, 1, 1, 0);
            wire::header_bytes(respond::response_header(request, 0x0400, 1, 1, 0)) == wire::put16(
                wire::header_bytes(h),
                2,
                h.flags | 0x0400,
            )
        }),
{
    let f = wire::header(request).flags;
    assert(respond::response_flags(f, 0x0400) == respond::response_flags(f, 0) | 0x0400) by {
        assert(0x8000u16 | (f & 0x7800) | (f & 0x0100) | 0x0080u16 | 0x0400u16 == (0x8000u16 | (f
            & 0x7800) | (f & 0x0100) | 0x0080u16 | 0u16) | 0x0400) by (bit_vector);
    }
    let h = respond::response_header(request, 0, 1, 1, 0);
    assert(wire::header_bytes(respond::response_header(request, 0x0400, 1, 1, 0)) =~= wire::put16(
        wire::header_bytes(h),
        2,
        h.flags | 0x0400,
    ));
}

/// An OPT record is put behind a packet in the same way whatever the flags of the packet are.
proof fn lemma_echo_with_flags(request: Seq<u8>, p: Seq<u8>, flags: u16)
    requires
        p.len() >= 12,
    ensures
        edns::echo_opt(request, wire::put16(p, 2, flags), 0) == wire::put16(
            edns::echo_opt(request, p, 0),
            2,
            flags,
        ),
{
    let q = wire::put16(p, 2, flags);
    assert(q[10] == p[10] && q[11] == p[11]);
    if let Some(rec) = edns::response_opt(request, 0) {
        assert(edns::echo_opt(request, q, 0) =~= wire::put16(
            edns::echo_opt(request, p, 0),
            2,
            flags,
        ));
    }
}

/// The two kinds of responses with one answer differ in their headers.
#[verifier::spinoff_prover]
proof fn lemma_single_answers(request: Seq<u8>, answer: Seq<char>, ttl: u32, qtype: Seq<char>)
    requires
        respond::static_answer(request, answer, ttl, qtype) is Ok,
    ensures
        ({
            let q = query::first_question(request)->0;
            let question = request.subrange(12, q.2);
            let t = respond::type_number(qtype, q.1);
            let rest = respond::records_bytes(q.0, t, ttl, seq![answer]);
            let plain = wire::header_bytes(respond::response_header(request, 0, 1, 1, 0));
            let marked = wire::header_bytes(respond::response_header(request, 0x0400, 1, 1, 0));
            &&& query::first_question(request) is Some
            &&& respond::static_answer(request, answer, ttl, qtype)->Ok_0 == edns::echo_opt(
                request,
                plain + question + rest,
                0,
            )
            &&& respond::authoritative_answer(request, seq![answer], ttl, qtype) == Ok::<
                Seq<u8>,
                respond::CodecError,
            >(edns::echo_opt(request, marked + question + rest, 0))
        }),
{
    let q = query::first_question(request)->0;
    let t = respond::type_number(qtype, q.1);
    let data = respond::rdata_of(t, answer)->0;
    lemma_one_answer(q.0, t, ttl, answer);
    lemma_written_len(t, seq![answer]);
    lemma_joined(
        wire::header_bytes(respond::response_header(request, 0, 1, 1, 0)) + request.subrange(
            12,
            q.2,
        ),
        name::encode_name_spec(q.0).0,
        respond::rr_tail(t, 1, ttl, data),
    );
}

/// A packet of a header and more is marked in its header.
proof fn lemma_marked(header: Seq<u8>, more: Seq<u8>, rest: Seq<u8>, flags: u16)
    requires
        header.len() == 12,
    ensures
        wire::put16(header, 2, flags) + more + rest == wire::put16(header + more + rest, 2, flags),
{
    assert(wire::put16(header, 2, flags) + more + rest =~= wire::put16(
        header + more + rest,
        2,
        flags,
    ));
}

/// An authoritative response with one answer is the response of static data, marked as
/// authoritative.
#[verifier::spinoff_prover]
pub proof fn lemma_authoritative_is_marked_static(
    request: Seq<u8>,
    answer: Seq<char>,
    ttl: u32,
    qtype: Seq<char>,
)
    requires
        respond::static_answer(request, answer, ttl, qtype) is Ok,
    ensures
        ({
            let p = respond::static_answer(request, answer, ttl, qtype)->Ok_0;
            respond::authoritative_answer(request, seq![answer], ttl, qtype) == Ok::<
                Seq<u8>,
                respond::CodecError,
            >(wire::put16(p, 2, wire::header(p).flags | 0x0400))
        }),
{
    let q = query::first_question(request)->0;
    let t = respond::type_number(qtype, q.1);
    let h = respond::response_header(request, 0, 1, 1, 0);
    let question = request.subrange(12, q.2);
    let rest = respond::records_bytes(q.0, t, ttl, seq![answer]);
    let base = wire::header_bytes(h) + question + rest;
    lemma_single_answers(request, answer, ttl, qtype);
    lemma_authoritative_header(request);
    lemma_marked(wire::header_bytes(h), question, rest, h.flags | 0x0400);
    lemma_echo_with_flags(request, base, h.flags | 0x0400);
    lemma_response_shape(request, h, rest, 0);
}

} // verus!
