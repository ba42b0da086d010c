//! What holds of the queries that the server sends and of what is read from packets by kind.
use crate::codec::answer;
use crate::codec::edns;
use crate::codec::laws;
use crate::codec::name;
use crate::codec::query;
use crate::codec::rr;
use crate::codec::wire;
use crate::codec::respond;
use crate::codec::rewrite;
use vstd::prelude::*;

verus! {

/// A query without EDNS that is to bring signatures gets an OPT record of version zero with the DO
/// flag and room for 1232 bytes; everything else of it stays.
pub proof fn lemma_signatures_are_asked_for(p: Seq<u8>)
    requires
        laws::can_take_opt(p),
    ensures
        ({
            let q = query::with_dnssec_ok(p)->0;
            &&& query::with_dnssec_ok(p) is Some
            &&& edns::edns(q) is Some
            &&& edns::edns(q)->0.flags == 0x8000
            &&& edns::edns(q)->0.version == 0
            &&& edns::edns(q)->0.extended_rcode == 0
            &&& edns::edns(q)->0.udp_payload_size == 1232
            &&& edns::edns(q)->0.options.len() == 0
            &&& wire::header(q) == (wire::DnsHeader {
                arcount: (wire::header(p).arcount + 1) as u16,
                ..wire::header(p)
            })
            &&& laws::agree(p, q, 12)
        }),
{
    let e = edns::EdnsV {
        udp_payload_size: 1232,
        extended_rcode: 0,
        version: 0,
        flags: edns::DNS_EDNS_FLAG_DO,
        options: Seq::empty(),
    };
    laws::lemma_options_round_trip(e.options);
    assert(edns::options_bytes(e.options).len() == 0);
    laws::lemma_opt_round_trip(p, e);
    laws::lemma_additional_bytes(p, edns::opt_record(e));
    assert(edns::edns(p) is None);
}

/// A query with EDNS that is to bring signatures keeps its size, its options and its other flags,
/// and has the DO flag.
pub proof fn lemma_signatures_are_asked_for_with_edns(p: Seq<u8>, e: edns::EdnsV)
    requires
        laws::can_take_opt(p),
        laws::options_fit(e.options),
        edns::options_bytes(e.options).len() <= 65535,
    ensures
        ({
            let before = edns::with_additional(p, edns::opt_record(e))->0;
            let q = query::with_dnssec_ok(before)->0;
            let after = edns::edns(q)->0;
            &&& query::with_dnssec_ok(before) is Some
            &&& edns::edns(q) is Some
            &&& after.flags & 0x8000 == 0x8000
            &&& after.flags & 0x7FFF == e.flags & 0x7FFF
            &&& after.udp_payload_size == e.udp_payload_size
            &&& after.options == e.options
            &&& after.version == 0 && after.extended_rcode == 0
            &&& laws::agree(p, q, 12)
            &&& wire::header(q) == wire::header(before)
        }),
{
    let f = edns::EdnsV {
        udp_payload_size: e.udp_payload_size,
        extended_rcode: 0,
        version: 0,
        flags: e.flags | edns::DNS_EDNS_FLAG_DO,
        options: e.options,
    };
    laws::lemma_opt_round_trip(p, e);
    laws::lemma_strip_undoes_append(p, e);
    laws::lemma_opt_round_trip(p, f);
    laws::lemma_additional_bytes(p, edns::opt_record(e));
    laws::lemma_additional_bytes(p, edns::opt_record(f));
    let flags = e.flags;
    assert((flags | 0x8000u16) & 0x8000u16 == 0x8000u16) by (bit_vector);
    assert((flags | 0x8000u16) & 0x7FFFu16 == flags & 0x7FFFu16) by (bit_vector);
}

/// A query, also with other bits in its flags, has its one question and nothing behind it.
proof fn lemma_query_can_take_opt(id: u16, qname: Seq<char>, qtype: u16, rd: bool, cd: bool)
    requires
        query::query_bytes(id, qname, qtype, rd) is Some,
    ensures
        laws::can_take_opt(
            query::with_flag(
                query::query_bytes(id, qname, qtype, rd)->0,
                query::DNS_FLAG_CD,
                cd,
            ),
        ),
{
    let p = query::query_bytes(id, qname, qtype, rd)->0;
    let q = query::with_flag(p, query::DNS_FLAG_CD, cd);
    let b = name::name_bytes(qname)->0;
    let head = wire::header_bytes(query::query_header(id, rd));
    assert(p =~= head + b + wire::bytes16(qtype) + wire::bytes16(1));
    assert(p.take(12) =~= head);
    wire::lemma_header_bytes(p, query::query_header(id, rd));
    laws::lemma_with_flag(p, query::DNS_FLAG_CD, cd);
    assert(q.subrange(12int, 12int + b.len()) =~= b);
    laws::lemma_name_round_trip(qname, q, 12);
    name::lemma_read_and_skip_agree(q, 12, 0);
    let end = 12int + b.len();
    assert(name::name_end(q, 12) == Some(end));
    assert(wire::header(q).qdcount == 1 && wire::header(q).ancount == 0 && wire::header(q).nscount
        == 0 && wire::header(q).arcount == 0);
    reveal_with_fuel(rr::questions_end, 2);
    assert(rr::question_end(q) == Some(end + 4));
    assert(rr::rr_end(q, end + 4, 0) == Some(end + 4));
    assert(rr::additional_start(q) == Some(end + 4));
    assert(rr::rr_list(q, end + 4, 0).len() == 0);
    assert(edns::first_opt(rr::additionals(q)) is None);
}

/// A query that is built to be validated asks for the name and the type under its identifier, with
/// the recursion and the checking that are wanted, and for signatures.
pub proof fn lemma_validating_query(
    template: Seq<u8>,
    id: u16,
    qname: Seq<char>,
    qtype: u16,
    rd: bool,
    cd: bool,
)
    requires
        edns::opt_bytes(template) is None,
        query::query_bytes(id, qname, qtype, rd) is Some,
    ensures
        ({
            let plain = query::query_bytes(id, qname, qtype, rd)->0;
            let q = query::dnssec_query(template, id, qname, qtype, rd, cd)->0;
            &&& query::dnssec_query(template, id, qname, qtype, rd, cd) is Some
            &&& wire::header(q).id == id
            &&& wire::header(q).flags & 0x0010 == (if cd {
                0x0010u16
            } else {
                0
            })
            &&& wire::header(q).flags & 0x0100 == (if rd {
                0x0100u16
            } else {
                0
            })
            &&& wire::header(q).qdcount == 1
            &&& wire::header(q).ancount == 0 && wire::header(q).nscount == 0
            &&& wire::header(q).arcount == 1
            &&& edns::edns(q) is Some
            &&& edns::edns(q)->0.flags & 0x8000 == 0x8000
            &&& laws::agree(plain, q, 12)
        }),
{
    let plain = query::query_bytes(id, qname, qtype, rd)->0;
    let flagged = query::with_flag(plain, query::DNS_FLAG_CD, cd);
    laws::lemma_query_round_trip(id, qname, qtype, rd);
    laws::lemma_with_flag(plain, query::DNS_FLAG_CD, cd);
    lemma_query_can_take_opt(id, qname, qtype, rd, cd);
    lemma_signatures_are_asked_for(flagged);
    assert(query::query_like(template, id, qname, qtype, rd) == Some(plain));
    let q = query::dnssec_query(template, id, qname, qtype, rd, cd)->0;
    assert forall|i: int| 12 <= i < plain.len() implies #[trigger] plain[i] == q[i] by {
        assert(flagged[i] == plain[i]);
    }
    let old_flags = wire::header(plain).flags;
    let new_flags = wire::header(flagged).flags;
    assert(new_flags & 0x0100u16 == old_flags & 0x0100u16) by (bit_vector)
        requires
            new_flags & !0x0010u16 == old_flags & !0x0010u16,
    ;
    assert(0x0100u16 & 0x0100u16 == 0x0100u16) by (bit_vector);
    assert(0u16 & 0x0100u16 == 0u16) by (bit_vector);
    assert(0x8000u16 & 0x8000u16 == 0x8000u16) by (bit_vector);
}

/// An option of a packet is the first of its code in the OPT record; a packet without EDNS has
/// none.
pub proof fn lemma_packet_options(p: Seq<u8>, code: u16, i: int)
    ensures
        edns::edns(p) is None ==> edns::edns_option(p, code) is None,
        edns::edns(p) is Some && 0 <= i < edns::edns(p)->0.options.len()
            && edns::edns(p)->0.options[i].code == code && (forall|k: int|
            0 <= k < i ==> (#[trigger] edns::edns(p)->0.options[k]).code != code)
            ==> edns::edns_option(p, code) == Some(edns::edns(p)->0.options[i].data),
{
    if edns::edns(p) is Some {
        let options = edns::edns(p)->0.options;
        if 0 <= i < options.len() && options[i].code == code && (forall|k: int|
            0 <= k < i ==> (#[trigger] options[k]).code != code) {
            lemma_first_of_code(options, code, i);
        }
    }
}

proof fn lemma_first_of_code(options: Seq<edns::OptionV>, code: u16, i: int)
    requires
        0 <= i < options.len(),
        options[i].code == code,
        forall|k: int| 0 <= k < i ==> (#[trigger] options[k]).code != code,
    ensures
        edns::option_data(options, code) == Some(options[i].data),
    decreases i,
{
    if i > 0 {
        let rest = options.drop_first();
        assert(rest[i - 1] == options[i]);
        assert forall|k: int| 0 <= k < i - 1 implies (#[trigger] rest[k]).code != code by {
            assert(rest[k] == options[k + 1]);
        }
        lemma_first_of_code(rest, code, i - 1);
        assert(options[0].code != code);
    }
}

proof fn lemma_kept_by_type(p: Seq<u8>, list: Seq<rr::NamedRr>, rr_type: u16)
    ensures
        ({
            let kept = list.filter_map(|r: rr::NamedRr| answer::record_of_type(p, r, rr_type));
            &&& forall|i: int| 0 <= i < kept.len() ==> (#[trigger] kept[i]).1 == rr_type
            &&& forall|i: int|
                0 <= i < list.len() && (#[trigger] list[i]).rr.rr_type == rr_type ==> kept.contains(
                    answer::record_of(p, list[i]),
                )
        }),
    decreases list.len(),
{
    reveal(Seq::filter_map);
    let f = |r: rr::NamedRr| answer::record_of_type(p, r, rr_type);
    let kept = list.filter_map(f);
    if list.len() > 0 {
        let rest = list.drop_last();
        let before = rest.filter_map(f);
        lemma_kept_by_type(p, rest, rr_type);
        assert(kept == (match f(list.last()) {
            Some(x) => before.push(x),
            None => before,
        }));
        assert forall|i: int| 0 <= i < list.len() && (
        #[trigger] list[i]).rr.rr_type == rr_type implies kept.contains(
            answer::record_of(p, list[i]),
        ) by {
            let x = answer::record_of(p, list[i]);
            if i < rest.len() {
                assert(rest[i] == list[i]);
                let j = choose|j: int| 0 <= j < before.len() && before[j] == x;
                assert(kept[j] == x);
            } else {
                assert(kept[kept.len() - 1] == x);
            }
        }
    }
}

/// The answers of a type are all of that type, and every answer of that type is among them.
pub proof fn lemma_answers_of_type(p: Seq<u8>, rr_type: u16, i: int)
    requires
        p.len() >= 12,
        rr::scan_complete(p),
    ensures
        0 <= i < answer::answers_of_type(p, rr_type).len() ==> answer::answers_of_type(
            p,
            rr_type,
        )[i].1 == rr_type,
        0 <= i < answer::named_answers(p).len() && answer::named_answers(p)[i].rr.rr_type == rr_type
            ==> answer::answers_of_type(p, rr_type).contains(
            answer::record_of(p, answer::named_answers(p)[i]),
        ),
{
    lemma_kept_by_type(p, answer::named_answers(p), rr_type);
}

/// Records that are put behind a response are counted one by one and never more than can be
/// counted; as long as their owners can be written and they are not too many, nothing is refused.
pub proof fn lemma_additions(items: Seq<rewrite::ItemV>)
    ensures
        rewrite::additions(items) is Ok ==> (rewrite::additions(items)->Ok_0).1 <= 65535
            && (rewrite::additions(items)->Ok_0).1 <= items.len(),
        items.len() <= 65535 && (forall|i: int|
            0 <= i < items.len() ==> name::name_bytes((#[trigger] items[i]).owner) is Some)
            ==> rewrite::additions(items) is Ok,
    decreases items.len(),
{
    if items.len() > 0 {
        let rest = items.drop_last();
        lemma_additions(rest);
        if items.len() <= 65535 && (forall|i: int|
            0 <= i < items.len() ==> name::name_bytes((#[trigger] items[i]).owner) is Some) {
            assert forall|i: int| 0 <= i < rest.len() implies name::name_bytes(
                (#[trigger] rest[i]).owner,
            ) is Some by {
                assert(rest[i] == items[i]);
            }
            assert(items[items.len() - 1] == items.last());
        }
    }
}

/// A record is written exactly where its data can be: then its bytes follow, and it counts.
pub proof fn lemma_written_additions(items: Seq<rewrite::ItemV>, item: rewrite::ItemV)
    requires
        rewrite::additions(items) is Ok,
        (rewrite::additions(items)->Ok_0).1 < 65535,
        name::name_bytes(item.owner) is Some,
    ensures
        ({
            let (bytes, n) = rewrite::additions(items)->Ok_0;
            let r = rewrite::additions(items.push(item));
            let data = respond::rdata_of(item.rr_type, item.answer);
            &&& r is Ok
            &&& data is None ==> r->Ok_0 == (bytes, n)
            &&& data is Some ==> (r->Ok_0).1 == n + 1 && (r->Ok_0).0.take(bytes.len() as int)
                == bytes && (r->Ok_0).0.len() == bytes.len() + name::name_bytes(
                item.owner,
            )->0.len() + 10 + data->0.len() && (r->Ok_0).0.skip(
                (r->Ok_0).0.len() - data->0.len(),
            ) == data->0
        }),
{
    let all = items.push(item);
    assert(all.drop_last() =~= items);
    let (bytes, n) = rewrite::additions(items)->Ok_0;
    if let Some(data) = respond::rdata_of(item.rr_type, item.answer) {
        let new = (rewrite::additions(all)->Ok_0).0;
        assert(new.take(bytes.len() as int) =~= bytes);
        assert(new.skip(new.len() - data.len()) =~= data);
    }
}

} // verus!
