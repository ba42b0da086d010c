//! What holds of packets across the functions that read and write them.
use crate::codec::edns;
use crate::codec::name;
use crate::codec::query;
use crate::codec::rr;
use crate::codec::wire;
use crate::text;
use vstd::prelude::*;
use vstd::utf8::*;

verus! {

/// Joining the pieces between dots gives the text back.
pub proof fn lemma_join_of_split(s: Seq<char>)
    ensures
        text::join_dots(text::split(s, '.')) == s,
        text::split(s, '.').len() >= 1,
    decreases s.len(),
{
    if s.len() == 0 {
        assert(text::split(s, '.')[0] =~= s);
    } else {
        let start = s.drop_last();
        let before = text::split(start, '.');
        lemma_join_of_split(start);
        assert(s =~= start.push(s.last()));
        if s.last() == '.' {
            let all = before.push(Seq::empty());
            assert(all.drop_last() =~= before);
            assert(text::join_dots(all) =~= start.push('.'));
        } else {
            let all = before.update(before.len() - 1, before.last().push(s.last()));
            if before.len() == 1 {
                assert(text::join_dots(all) =~= s);
            } else {
                assert(all.drop_last() =~= before.drop_last());
                assert(text::join_dots(all) =~= text::join_dots(before).push(s.last()));
            }
        }
    }
}

/// Labels that were written are read back from wherever they stand.
pub proof fn lemma_labels_read_back(labels: Seq<Seq<char>>, p: Seq<u8>, off: int, depth: nat)
    requires
        name::encode_labels(labels).1,
        0 <= off,
        off + name::encode_labels(labels).0.len() <= p.len(),
        p.subrange(off, off + name::encode_labels(labels).0.len()) == name::encode_labels(labels).0,
        depth <= 16,
    ensures
        name::labels_at(p, off, depth) == Some(
            (labels, off + name::encode_labels(labels).0.len()),
        ),
        query::question_labels(p, off) == Some(
            (labels, off + name::encode_labels(labels).0.len()),
        ),
        name::name_end(p, off) == Some(off + name::encode_labels(labels).0.len()),
    decreases labels.len(),
{
    let b = name::encode_labels(labels).0;
    let part = p.subrange(off, off + b.len());
    assert(p[off] == part[0]) by {
        if labels.len() > 0 {
            assert(b.len() > 0);
        }
    }
    if labels.len() == 0 {
        assert(labels =~= Seq::empty());
    } else {
        let bytes = encode_utf8(labels[0]);
        let rest = name::encode_labels(labels.drop_first()).0;
        assert(b =~= seq![bytes.len() as u8] + bytes + rest);
        assert(p[off] == bytes.len());
        let next = off + 1 + bytes.len();
        assert(p.subrange(off + 1, next) =~= bytes) by {
            assert forall|i: int| 0 <= i < bytes.len() implies p.subrange(off + 1, next)[i]
                == #[trigger] bytes[i] by {
                assert(part[i + 1] == b[i + 1]);
            }
        }
        assert(p.subrange(next, next + rest.len()) =~= rest) by {
            assert forall|i: int| 0 <= i < rest.len() implies p.subrange(
                next,
                next + rest.len(),
            )[i] == #[trigger] rest[i] by {
                assert(part[i + 1 + bytes.len()] == b[i + 1 + bytes.len()]);
            }
        }
        lemma_labels_read_back(labels.drop_first(), p, next, depth);
        encode_utf8_valid_utf8(labels[0]);
        encode_utf8_decode_utf8(labels[0]);
        assert(seq![labels[0]] + labels.drop_first() =~= labels);
    }
}

/// A name that can be written is read back, without the white space around it and without a
/// final dot, from wherever it was written.
pub proof fn lemma_name_round_trip(n: Seq<char>, p: Seq<u8>, off: int)
    requires
        name::name_bytes(n) is Some,
        0 <= off,
        off + name::name_bytes(n)->0.len() <= p.len(),
        p.subrange(off, off + name::name_bytes(n)->0.len()) == name::name_bytes(n)->0,
    ensures
        name::name_at(p, off) == Some((name::absolute(n), off + name::name_bytes(n)->0.len())),
{
    let t = name::absolute(n);
    if t.len() == 0 {
        lemma_labels_read_back(Seq::empty(), p, off, 0);
        assert(t =~= text::join_dots(Seq::empty()));
    } else {
        lemma_labels_read_back(text::split(t, '.'), p, off, 0);
        lemma_join_of_split(t);
    }
}

/// A query asks for the name and the type it was built for, under its identifier and with its
/// flag, and nothing stands behind its question.
pub proof fn lemma_query_round_trip(id: u16, qname: Seq<char>, qtype: u16, rd: bool)
    requires
        query::query_bytes(id, qname, qtype, rd) is Some,
    ensures
        ({
            let p = query::query_bytes(id, qname, qtype, rd)->0;
            let t = name::absolute(qname);
            wire::header(p) == query::query_header(id, rd) && query::first_question(p) == Some(
                (
                    if t.len() == 0 {
                        seq!['.']
                    } else {
                        t
                    },
                    qtype,
                    p.len() as int,
                ),
            )
        }),
{
    let p = query::query_bytes(id, qname, qtype, rd)->0;
    let head = wire::header_bytes(query::query_header(id, rd));
    let b = name::name_bytes(qname)->0;
    let t = name::absolute(qname);
    let labels = if t.len() == 0 {
        Seq::empty()
    } else {
        text::split(t, '.')
    };
    assert(p =~= head + b + wire::bytes16(qtype) + wire::bytes16(1));
    assert(p.take(12) =~= head);
    wire::lemma_header_bytes(p, query::query_header(id, rd));
    assert(p.subrange(12, 12 + b.len() as int) =~= b);
    assert(b == name::encode_labels(labels).0);
    lemma_labels_read_back(labels, p, 12, 0);
    let e = 12 + b.len() as int;
    assert(p.subrange(e, e + 2) =~= wire::bytes16(qtype));
    wire::lemma_be16_bytes(p, e, qtype);
    if t.len() > 0 {
        lemma_join_of_split(t);
    }
}

/// Setting or clearing bits of the flags leaves the other bits and bytes as they were, and the
/// bits are then as asked for.
pub proof fn lemma_with_flag(p: Seq<u8>, mask: u16, on: bool)
    requires
        p.len() >= 4,
    ensures
        ({
            let q = query::with_flag(p, mask, on);
            &&& q.len() == p.len()
            &&& forall|i: int| 0 <= i < p.len() && i != 2 && i != 3 ==> q[i] == p[i]
            &&& wire::be16(q, 2) & mask == (if on {
                mask
            } else {
                0
            })
            &&& wire::be16(q, 2) & !mask == wire::be16(p, 2) & !mask
        }),
{
    let flags = wire::be16(p, 2);
    assert((flags | mask) & mask == mask) by (bit_vector);
    assert((flags | mask) & !mask == flags & !mask) by (bit_vector);
    assert((flags & !mask) & mask == 0) by (bit_vector);
    assert((flags & !mask) & !mask == flags & !mask) by (bit_vector);
    let v = if on {
        flags | mask
    } else {
        flags & !mask
    };
    let q = wire::put16(p, 2, v);
    assert(q.subrange(2, 4) =~= wire::bytes16(v));
    wire::lemma_be16_bytes(q, 2, v);
}

/// What two packets have in common from an offset on.
pub open spec fn agree(p: Seq<u8>, q: Seq<u8>, from: int) -> bool {
    p.len() <= q.len() && forall|i: int| from <= i < p.len() ==> #[trigger] p[i] == q[i]
}

/// A name that ends inside a packet ends there too in a longer one with the same bytes.
proof fn lemma_name_end_agrees(p: Seq<u8>, q: Seq<u8>, off: int)
    requires
        agree(p, q, off),
        name::name_end(p, off) is Some,
    ensures
        name::name_end(q, off) == name::name_end(p, off),
    decreases p.len() - off,
{
    assert(p[off] == q[off]);
    if p[off] < 192 && p[off] != 0 {
        lemma_name_end_agrees(p, q, off + 1 + p[off]);
    }
}

proof fn lemma_rr_agrees(p: Seq<u8>, q: Seq<u8>, off: int)
    requires
        agree(p, q, off),
        rr::rr_at(p, off) is Some,
    ensures
        rr::rr_at(q, off) == rr::rr_at(p, off),
{
    lemma_name_end_agrees(p, q, off);
    name::lemma_name_end_bounds(p, off);
    let e = name::name_end(p, off)->0;
    assert(forall|i: int| e <= i < e + 10 ==> p[i] == q[i]);
}

proof fn lemma_rrs_agree(p: Seq<u8>, q: Seq<u8>, off: int, n: nat)
    requires
        0 <= off,
        agree(p, q, off),
        rr::rr_end(p, off, n) is Some,
    ensures
        rr::rr_end(q, off, n) == rr::rr_end(p, off, n),
        rr::rr_list(q, off, n) == rr::rr_list(p, off, n),
    decreases n,
{
    if n > 0 {
        lemma_rr_agrees(p, q, off);
        rr::lemma_rr_bounds(p, off);
        let r = rr::rr_at(p, off)->0;
        lemma_rrs_agree(p, q, r.end, (n - 1) as nat);
    }
}

proof fn lemma_questions_agree(p: Seq<u8>, q: Seq<u8>, off: int, n: nat)
    requires
        0 <= off,
        agree(p, q, off),
        rr::questions_end(p, off, n) is Some,
    ensures
        rr::questions_end(q, off, n) == rr::questions_end(p, off, n),
        rr::questions_end(p, off, n)->0 >= off,
    decreases n,
{
    if n > 0 {
        lemma_name_end_agrees(p, q, off);
        name::lemma_name_end_bounds(p, off);
        let e = name::name_end(p, off)->0;
        lemma_questions_agree(p, q, e + 4, (n - 1) as nat);
    }
}

/// One more record at the end of a list.
proof fn lemma_rr_list_push(p: Seq<u8>, off: int, n: nat)
    requires
        rr::rr_end(p, off, n) is Some,
        rr::rr_at(p, rr::rr_end(p, off, n)->0) is Some,
    ensures
        ({
            let r = rr::rr_at(p, rr::rr_end(p, off, n)->0)->0;
            rr::rr_list(p, off, n + 1) == rr::rr_list(p, off, n).push(r) && rr::rr_end(
                p,
                off,
                n + 1,
            ) == Some(r.end)
        }),
    decreases n,
{
    if n == 0 {
        assert(rr::rr_list(p, off, 0) =~= Seq::empty());
        let r = rr::rr_at(p, off)->0;
        assert(rr::rr_list(p, r.end, 0) =~= Seq::empty());
        assert(rr::rr_end(p, r.end, 0) == Some(r.end));
        assert(rr::rr_list(p, off, 1) =~= rr::rr_list(p, off, 0).push(r));
    } else {
        let first = rr::rr_at(p, off)->0;
        lemma_rr_list_push(p, first.end, (n - 1) as nat);
        let r = rr::rr_at(p, rr::rr_end(p, off, n)->0)->0;
        assert(rr::rr_list(p, off, n + 1) =~= seq![first] + rr::rr_list(p, first.end, n));
        assert(rr::rr_list(p, off, n + 1) =~= rr::rr_list(p, off, n).push(r));
    }
}

/// The bytes of neighbouring records are a piece of the packet.
proof fn lemma_rr_bytes_of_list(p: Seq<u8>, off: int, n: nat)
    requires
        0 <= off <= p.len(),
        rr::rr_end(p, off, n) is Some,
    ensures
        edns::rr_bytes(p, rr::rr_list(p, off, n)) == p.subrange(off, rr::rr_end(p, off, n)->0),
        off <= rr::rr_end(p, off, n)->0 <= p.len(),
    decreases n,
{
    if n == 0 {
        assert(p.subrange(off, off) =~= Seq::empty());
    } else {
        lemma_prefix_end(p, off, n);
        lemma_rr_bytes_of_list(p, off, (n - 1) as nat);
        lemma_rr_list_push(p, off, (n - 1) as nat);
        let m = rr::rr_end(p, off, (n - 1) as nat)->0;
        let r = rr::rr_at(p, m)->0;
        rr::lemma_rr_bounds(p, m);
        let list = rr::rr_list(p, off, n);
        assert(list.drop_last() =~= rr::rr_list(p, off, (n - 1) as nat));
        assert(list.last() == r);
        assert(p.subrange(off, m) + p.subrange(m, r.end) =~= p.subrange(off, r.end));
    }
}

/// Where `n` records have an end, all but the last have one, and the last is there.
proof fn lemma_prefix_end(p: Seq<u8>, off: int, n: nat)
    requires
        n > 0,
        rr::rr_end(p, off, n) is Some,
    ensures
        rr::rr_end(p, off, (n - 1) as nat) is Some,
        rr::rr_at(p, rr::rr_end(p, off, (n - 1) as nat)->0) is Some,
    decreases n,
{
    if n > 1 {
        let r = rr::rr_at(p, off)->0;
        lemma_prefix_end(p, r.end, (n - 1) as nat);
    } else {
        assert(rr::rr_end(p, off, 0) == Some(off));
    }
}

/// Options of which none is longer than its length field can tell.
pub open spec fn options_fit(options: Seq<edns::OptionV>) -> bool {
    forall|i: int| 0 <= i < options.len() ==> (#[trigger] options[i]).data.len() <= 65535
}

proof fn lemma_options_prefix(options: Seq<edns::OptionV>, data: Seq<u8>)
    requires
        options_fit(options),
        edns::options_bytes(options).len() <= data.len(),
        data.take(edns::options_bytes(options).len() as int) == edns::options_bytes(options),
    ensures
        edns::options_from(data, 0) == (match edns::options_from(
            data,
            edns::options_bytes(options).len() as int,
        ) {
            Some(rest) => Some(options + rest),
            None => None,
        }),
    decreases options.len(),
{
    let all = edns::options_bytes(options);
    if options.len() == 0 {
        assert(options =~= Seq::empty());
        if let Some(rest) = edns::options_from(data, 0) {
            assert(options + rest =~= rest);
        }
    } else {
        let before = options.drop_last();
        let o = options.last();
        let start = edns::options_bytes(before);
        assert(o == options[options.len() - 1]);
        assert forall|i: int| 0 <= i < before.len() implies (#[trigger] before[i]).data.len()
            <= 65535 by {
            assert(before[i] == options[i]);
        }
        assert(all =~= start + wire::bytes16(o.code) + wire::bytes16(wire::len16(o.data.len()))
            + o.data);
        assert(data.take(start.len() as int) =~= start) by {
            assert forall|i: int| 0 <= i < start.len() implies data[i] == #[trigger] start[i] by {
                assert(data.take(all.len() as int)[i] == all[i]);
            }
        }
        lemma_options_prefix(before, data);
        let off = start.len() as int;
        assert(data.subrange(off, off + 2) =~= wire::bytes16(o.code)) by {
            assert(data.take(all.len() as int)[off] == all[off]);
            assert(data.take(all.len() as int)[off + 1] == all[off + 1]);
        }
        assert(data.subrange(off + 2, off + 4) =~= wire::bytes16(wire::len16(o.data.len()))) by {
            assert(data.take(all.len() as int)[off + 2] == all[off + 2]);
            assert(data.take(all.len() as int)[off + 3] == all[off + 3]);
        }
        wire::lemma_be16_bytes(data, off, o.code);
        wire::lemma_be16_bytes(data, off + 2, wire::len16(o.data.len()));
        let next = off + 4 + o.data.len();
        assert(next == all.len());
        assert(data.subrange(off + 4, next) =~= o.data) by {
            assert forall|i: int| 0 <= i < o.data.len() implies data[off + 4 + i]
                == #[trigger] o.data[i] by {
                assert(data.take(all.len() as int)[off + 4 + i] == all[off + 4 + i]);
            }
        }
        if let Some(rest) = edns::options_from(data, next) {
            assert(before + (seq![o] + rest) =~= options + rest) by {
                assert(options =~= before.push(o));
            }
        }
    }
}

/// Options are read back from the data that holds them.
pub proof fn lemma_options_round_trip(options: Seq<edns::OptionV>)
    requires
        options_fit(options),
    ensures
        edns::options_from(edns::options_bytes(options), 0) == Some(options),
{
    let data = edns::options_bytes(options);
    assert(data.take(data.len() as int) =~= data);
    lemma_options_prefix(options, data);
    assert(options + Seq::<edns::OptionV>::empty() =~= options);
}

/// A packet whose sections are whole and fill it, without an OPT record, and with room for one.
pub open spec fn can_take_opt(p: Seq<u8>) -> bool {
    &&& p.len() >= 12
    &&& wire::header(p).arcount < u16::MAX
    &&& edns::additional_end(p) == Some(p.len() as int)
    &&& edns::first_opt(rr::additionals(p)) is None
}

/// The bytes of an OPT record, one by one.
proof fn lemma_opt_record_bytes(e: edns::EdnsV)
    requires
        edns::options_bytes(e.options).len() <= 65535,
    ensures
        ({
            let rec = edns::opt_record(e);
            let data = edns::options_bytes(e.options);
            &&& rec.len() == 11 + data.len()
            &&& rec[0] == 0
            &&& rec[1] * 256 + rec[2] == edns::DNS_TYPE_OPT
            &&& rec[3] * 256 + rec[4] == e.udp_payload_size
            &&& rec[5] == e.extended_rcode
            &&& rec[6] == e.version
            &&& rec[7] * 256 + rec[8] == e.flags
            &&& rec[9] * 256 + rec[10] == data.len()
            &&& forall|i: int| 0 <= i < data.len() ==> rec[11 + i] == #[trigger] data[i]
        }),
{
    let rec = edns::opt_record(e);
    let data = edns::options_bytes(e.options);
    assert(rec.len() == 11 + data.len());
    assert(rec[7] == (e.flags / 256) as u8 && rec[8] == (e.flags % 256) as u8);
}

/// The upper code, the version and the flags in the place of a time to live.
proof fn lemma_opt_ttl(code: u8, version: u8, flags: u16)
    ensures
        ({
            let ttl = code * 0x100_0000 + version * 0x1_0000 + flags;
            &&& ttl / 0x100_0000 == code
            &&& ttl / 0x1_0000 % 256 == version
            &&& ttl % 0x1_0000 == flags
        }),
{
}

/// The record that a piece of a packet is, where its bytes are those of an OPT record.
#[verifier::spinoff_prover]
#[verifier::rlimit(60)]
proof fn lemma_opt_at(q: Seq<u8>, n: int, e: edns::EdnsV)
    requires
        0 <= n,
        q.len() == n + edns::opt_record(e).len(),
        q.skip(n) == edns::opt_record(e),
        edns::options_bytes(e.options).len() <= 65535,
    ensures
        rr::rr_at(q, n) is Some,
        ({
            let r = rr::rr_at(q, n)->0;
            &&& r.start == n && r.rr_type == edns::DNS_TYPE_OPT && r.rr_class == e.udp_payload_size
            &&& r.rdata == n + 11 && r.end == q.len()
            &&& r.ttl / 0x100_0000 == e.extended_rcode && r.ttl / 0x1_0000 % 256 == e.version
                && r.ttl % 0x1_0000 == e.flags
            &&& q.subrange(r.rdata, r.end) == edns::options_bytes(e.options)
        }),
{
    let rec = edns::opt_record(e);
    let data = edns::options_bytes(e.options);
    lemma_opt_record_bytes(e);
    lemma_opt_ttl(e.extended_rcode, e.version, e.flags);
    assert forall|i: int| 0 <= i < rec.len() implies q[n + i] == #[trigger] rec[i] by {
        assert(q.skip(n)[i] == q[n + i]);
    }
    assert(q[n + 0] == rec[0]);
    assert(name::name_end(q, n) == Some(n + 1));
    assert(q[n + 1] == rec[1] && q[n + 2] == rec[2]);
    assert(wire::be16(q, n + 1) == edns::DNS_TYPE_OPT);
    assert(q[n + 3] == rec[3] && q[n + 4] == rec[4]);
    assert(wire::be16(q, n + 3) == e.udp_payload_size);
    assert(q[n + 5] == rec[5] && q[n + 6] == rec[6] && q[n + 7] == rec[7] && q[n + 8] == rec[8]);
    assert(q[n + 9] == rec[9] && q[n + 10] == rec[10]);
    assert(wire::be16(q, n + 9) == data.len());
    assert(wire::be32(q, n + 5) == e.extended_rcode * 0x100_0000 + e.version * 0x1_0000 + e.flags);
    assert(q.subrange(n + 11, n + 11 + data.len()) =~= data) by {
        assert forall|i: int| 0 <= i < data.len() implies q[n + 11 + i] == #[trigger] data[i] by {
            assert(q[n + (11 + i)] == rec[11 + i]);
        }
    }
}

/// The sections of a packet are those of a longer one with the same bytes and counts, but for one
/// additional record more.
proof fn lemma_sections_kept(p: Seq<u8>, q: Seq<u8>)
    requires
        p.len() >= 12,
        agree(p, q, 12),
        wire::header(p).arcount < u16::MAX,
        wire::header(q) == (wire::DnsHeader {
            arcount: (wire::header(p).arcount + 1) as u16,
            ..wire::header(p)
        }),
        edns::additional_end(p) == Some(p.len() as int),
        rr::rr_at(q, p.len() as int) is Some,
    ensures
        ({
            let r = rr::rr_at(q, p.len() as int)->0;
            let a = rr::additional_start(p)->0;
            &&& 12 <= a <= p.len()
            &&& rr::additional_start(q) == Some(a)
            &&& rr::additional_start(p) is Some
            &&& rr::additionals(q) == rr::additionals(p).push(r)
            &&& rr::additionals(p) == rr::rr_list(q, a, wire::header(p).arcount as nat)
            &&& rr::additionals(p).len() == wire::header(p).arcount
            &&& rr::rr_end(q, a, wire::header(p).arcount as nat) == Some(p.len() as int)
            &&& edns::additional_end(q) == Some(r.end)
        }),
{
    let h = wire::header(p);
    edns::lemma_section_starts(p);
    lemma_questions_agree(p, q, 12, h.qdcount as nat);
    let qe = rr::question_end(p)->0;
    assert(rr::question_end(q) == Some(qe));
    lemma_rrs_agree(p, q, qe, h.ancount as nat);
    let ae = rr::answer_end(p)->0;
    assert(rr::answer_end(q) == Some(ae));
    lemma_rrs_agree(p, q, ae, h.nscount as nat);
    let a = rr::additional_start(p)->0;
    assert(rr::additional_start(q) == Some(a));
    lemma_rrs_agree(p, q, a, h.arcount as nat);
    lemma_rr_list_push(q, a, h.arcount as nat);
    rr::lemma_rr_list(p, a, h.arcount as nat);
}

/// The bytes of a packet behind which a record was put.
pub proof fn lemma_additional_bytes(p: Seq<u8>, rec: Seq<u8>)
    requires
        p.len() >= 12,
        wire::header(p).arcount < u16::MAX,
    ensures
        ({
            let q = edns::with_additional(p, rec)->0;
            &&& edns::with_additional(p, rec) is Some
            &&& q.len() == p.len() + rec.len()
            &&& q.skip(p.len() as int) == rec
            &&& agree(p, q, 12)
            &&& q.take(10) == p.take(10)
            &&& wire::header(q) == (wire::DnsHeader {
                arcount: (wire::header(p).arcount + 1) as u16,
                ..wire::header(p)
            })
        }),
{
    let h = wire::header(p);
    let q = edns::with_additional(p, rec)->0;
    let joined = p + rec;
    assert(q.skip(p.len() as int) =~= rec);
    assert(q.take(10) =~= p.take(10));
    assert(forall|i: int| 0 <= i < 10 ==> q[i] == p[i]);
    assert(q[10] == ((h.arcount + 1) / 256) as u8);
    assert(q[11] == ((h.arcount + 1) % 256) as u8);
}

/// What is put behind a packet as an OPT record stands at the end of its additional section.
proof fn lemma_with_opt(p: Seq<u8>, e: edns::EdnsV)
    requires
        can_take_opt(p),
        edns::options_bytes(e.options).len() <= 65535,
    ensures
        ({
            let q = edns::with_additional(p, edns::opt_record(e))->0;
            let r = rr::rr_at(q, p.len() as int)->0;
            &&& edns::with_additional(p, edns::opt_record(e)) is Some
            &&& rr::rr_at(q, p.len() as int) is Some
            &&& r.end == q.len()
            &&& rr::additionals(q) == rr::additionals(p).push(r)
            &&& edns::additional_end(q) == Some(q.len() as int)
        }),
{
    let q = edns::with_additional(p, edns::opt_record(e))->0;
    lemma_additional_bytes(p, edns::opt_record(e));
    lemma_opt_at(q, p.len() as int, e);
    lemma_sections_kept(p, q);
}

/// What is put behind a packet as an OPT record is what is read as its OPT record.
pub proof fn lemma_opt_round_trip(p: Seq<u8>, e: edns::EdnsV)
    requires
        can_take_opt(p),
        options_fit(e.options),
        edns::options_bytes(e.options).len() <= 65535,
    ensures
        edns::with_additional(p, edns::opt_record(e)) is Some,
        edns::edns(edns::with_additional(p, edns::opt_record(e))->0) == Some(e),
{
    let q = edns::with_additional(p, edns::opt_record(e))->0;
    lemma_with_opt(p, e);
    lemma_additional_bytes(p, edns::opt_record(e));
    lemma_opt_at(q, p.len() as int, e);
    lemma_options_round_trip(e.options);
    let list = rr::additionals(p);
    let all = rr::additionals(q);
    lemma_no_opt(list);
    assert forall|k: int| 0 <= k < list.len() implies (#[trigger] all[k]).rr_type
        != edns::DNS_TYPE_OPT by {
        assert(all[k] == list[k]);
    }
    edns::lemma_first_opt(all, list.len() as int);
    assert(edns::opt_rr(q) == Some(all[list.len() as int]));
}

proof fn lemma_no_opt(list: Seq<rr::Rr>)
    requires
        edns::first_opt(list) is None,
    ensures
        forall|k: int| 0 <= k < list.len() ==> (#[trigger] list[k]).rr_type != edns::DNS_TYPE_OPT,
        edns::without_opt(list) == list,
    decreases list.len(),
{
    if list.len() > 0 {
        let rest = list.drop_first();
        lemma_no_opt(rest);
        assert forall|k: int| 0 <= k < list.len() implies (#[trigger] list[k]).rr_type
            != edns::DNS_TYPE_OPT by {
            if k > 0 {
                assert(list[k] == rest[k - 1]);
            }
        }
    }
    lemma_filter_all(list, |r: rr::Rr| r.rr_type != edns::DNS_TYPE_OPT);
}

proof fn lemma_filter_all(list: Seq<rr::Rr>, f: spec_fn(rr::Rr) -> bool)
    requires
        forall|k: int| 0 <= k < list.len() ==> f(#[trigger] list[k]),
    ensures
        list.filter(f) == list,
    decreases list.len(),
{
    reveal(Seq::filter);
    if list.len() > 0 {
        assert forall|k: int| 0 <= k < list.drop_last().len() implies f(
            #[trigger] list.drop_last()[k],
        ) by {
            assert(list.drop_last()[k] == list[k]);
        }
        lemma_filter_all(list.drop_last(), f);
        assert(f(list[list.len() - 1]));
        assert(list.drop_last().push(list.last()) =~= list);
    }
}

/// A packet with another count of additional records and bytes behind it is the packet again once
/// these are taken off and the count is put back.
proof fn lemma_count_put_back(p: Seq<u8>, q: Seq<u8>)
    requires
        p.len() >= 12,
        agree(p, q, 12),
        q.take(10) == p.take(10),
    ensures
        wire::put16(q.take(p.len() as int), 10, wire::header(p).arcount) == p,
{
    let back = wire::put16(q.take(p.len() as int), 10, wire::header(p).arcount);
    assert forall|i: int| 0 <= i < p.len() implies back[i] == #[trigger] p[i] by {
        if i < 10 {
            assert(q.take(10)[i] == p.take(10)[i]);
        }
    }
    assert(back =~= p);
}

/// A packet without the OPT record at its end.
proof fn lemma_strip_last(p: Seq<u8>, q: Seq<u8>)
    requires
        p.len() >= 12,
        agree(p, q, 12),
        q.take(10) == p.take(10),
        wire::header(p).arcount < u16::MAX,
        wire::header(q) == (wire::DnsHeader {
            arcount: (wire::header(p).arcount + 1) as u16,
            ..wire::header(p)
        }),
        edns::additional_end(p) == Some(p.len() as int),
        edns::first_opt(rr::additionals(p)) is None,
        rr::rr_at(q, p.len() as int) is Some,
        rr::rr_at(q, p.len() as int)->0.rr_type == edns::DNS_TYPE_OPT,
    ensures
        edns::stripped(q) == Some(p),
{
    let n = p.len() as int;
    let list = rr::additionals(p);
    let count = wire::header(p).arcount;
    let r = rr::rr_at(q, n)->0;
    assert(rr::additionals(q) == list.push(r) && list.len() == count && edns::additional_end(q)
        == Some(r.end)) by {
        lemma_sections_kept(p, q);
    }
    assert(edns::without_opt(list.push(r)) == list && edns::first_opt(list.push(r)) is Some) by {
        lemma_no_opt(list);
        lemma_one_opt(list, r);
    }
    assert(edns::stripped_body(q) == q.take(n)) by {
        let a = rr::additional_start(p)->0;
        lemma_sections_kept(p, q);
        lemma_rr_bytes_of_list(q, a, count as nat);
        lemma_pieces(q, a, n);
    }
    assert(wire::put16(q.take(n), 10, count) == p) by {
        lemma_count_put_back(p, q);
    }
}

proof fn lemma_pieces(q: Seq<u8>, a: int, n: int)
    requires
        0 <= a <= n <= q.len(),
    ensures
        q.take(a) + q.subrange(a, n) == q.take(n),
{
    assert(q.take(a) + q.subrange(a, n) =~= q.take(n));
}

/// Taking the OPT records off a packet undoes putting one behind it.
pub proof fn lemma_strip_undoes_append(p: Seq<u8>, e: edns::EdnsV)
    requires
        can_take_opt(p),
        edns::options_bytes(e.options).len() <= 65535,
    ensures
        edns::with_additional(p, edns::opt_record(e)) is Some,
        edns::stripped(edns::with_additional(p, edns::opt_record(e))->0) == Some(p),
{
    let q = edns::with_additional(p, edns::opt_record(e))->0;
    lemma_additional_bytes(p, edns::opt_record(e));
    lemma_opt_at(q, p.len() as int, e);
    lemma_strip_last(p, q);
}

/// Of a list with one OPT record at its end, the others are left.
proof fn lemma_one_opt(list: Seq<rr::Rr>, r: rr::Rr)
    requires
        forall|k: int| 0 <= k < list.len() ==> (#[trigger] list[k]).rr_type != edns::DNS_TYPE_OPT,
        edns::without_opt(list) == list,
        r.rr_type == edns::DNS_TYPE_OPT,
    ensures
        edns::without_opt(list.push(r)) == list,
        edns::first_opt(list.push(r)) is Some,
{
    let all = list.push(r);
    assert forall|k: int| 0 <= k < list.len() implies (#[trigger] all[k]).rr_type
        != edns::DNS_TYPE_OPT by {
        assert(all[k] == list[k]);
    }
    edns::lemma_first_opt(all, list.len() as int);
    reveal(Seq::filter);
    assert(all.drop_last() =~= list);
    assert(all.last() == r);
}

/// A packet without OPT records is the same once they are taken off.
proof fn lemma_nothing_to_strip(p: Seq<u8>)
    requires
        can_take_opt(p),
    ensures
        edns::stripped_body(p) == p,
        edns::without_opt(rr::additionals(p)).len() == wire::header(p).arcount,
{
    let a = rr::additional_start(p)->0;
    let count = wire::header(p).arcount as nat;
    edns::lemma_section_starts(p);
    rr::lemma_rr_list(p, a, count);
    lemma_no_opt(rr::additionals(p));
    lemma_rr_bytes_of_list(p, a, count);
    lemma_pieces(p, a, p.len() as int);
    assert(p.take(p.len() as int) =~= p);
}

/// A response without EDNS gets the payload size and the flags of a request with EDNS.
pub proof fn lemma_aligned_to_request(response: Seq<u8>, request: Seq<u8>)
    requires
        can_take_opt(response),
        edns::edns(request) is Some,
    ensures
        edns::aligned(response, request) is Some,
        edns::edns(edns::aligned(response, request)->0) == Some(
            edns::EdnsV {
                udp_payload_size: edns::edns(request)->0.udp_payload_size,
                extended_rcode: 0,
                version: 0,
                flags: edns::edns(request)->0.flags,
                options: Seq::empty(),
            },
        ),
{
    let e = edns::EdnsV {
        udp_payload_size: edns::edns(request)->0.udp_payload_size,
        extended_rcode: 0,
        version: 0,
        flags: edns::edns(request)->0.flags,
        options: Seq::empty(),
    };
    lemma_nothing_to_strip(response);
    lemma_opt_round_trip(response, e);
    assert(edns::edns(response) is None);
    assert(edns::aligned(response, request) == edns::with_additional(
        response,
        edns::opt_record(e),
    ));
}

/// A request without EDNS gets none: what a response got of it is taken off again.
pub proof fn lemma_aligned_to_plain_request(p: Seq<u8>, e: edns::EdnsV, request: Seq<u8>)
    requires
        can_take_opt(p),
        options_fit(e.options),
        edns::options_bytes(e.options).len() <= 65535,
        edns::edns(request) is None,
    ensures
        edns::with_additional(p, edns::opt_record(e)) is Some,
        edns::aligned(edns::with_additional(p, edns::opt_record(e))->0, request) == Some(p),
{
    lemma_opt_round_trip(p, e);
    lemma_strip_undoes_append(p, e);
}

} // verus!
