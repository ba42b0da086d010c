//! The question of a packet, its header flags, and the building of queries.
use crate::codec::edns;
use crate::codec::name;
use crate::codec::wire;
use crate::codec::wire::DnsHeader;
use crate::text;
use vstd::prelude::*;
use vstd::slice::*;
use vstd::utf8::*;

verus! {

pub const DNS_FLAG_AD: u16 = 0x0020;

pub const DNS_FLAG_CD: u16 = 0x0010;

pub const DNS_FLAG_RD: u16 = 0x0100;

#[derive(Debug, Clone)]
pub struct DnsRequestOverview {
    pub id: u16,
    pub query_name: Option<String>,
    pub query_type: Option<u16>,
}

#[derive(Debug, Clone, Copy)]
pub struct DnsResponseOverview {
    pub id: u16,
    pub rcode: u16,
    pub ancount: u16,
}

/// The labels of a question's name, which is not compressed, and where it ends.
pub open spec fn question_labels(p: Seq<u8>, off: int) -> Option<(Seq<Seq<char>>, int)>
    decreases p.len() - off,
{
    if off < 0 || off >= p.len() {
        None
    } else if p[off] == 0 {
        Some((Seq::empty(), off + 1))
    } else if p[off] >= 64 || off + 1 + p[off] > p.len() || !valid_utf8(
        p.subrange(off + 1, off + 1 + p[off]),
    ) {
        None
    } else {
        match question_labels(p, off + 1 + p[off]) {
            None => None,
            Some((rest, end)) => Some(
                (seq![decode_utf8(p.subrange(off + 1, off + 1 + p[off]))] + rest, end),
            ),
        }
    }
}

/// The first question: its name, its type, and where it ends.
pub open spec fn first_question(p: Seq<u8>) -> Option<(Seq<char>, u16, int)> {
    if p.len() < 12 || wire::header(p).qdcount == 0 {
        None
    } else {
        match question_labels(p, 12) {
            None => None,
            Some((labels, e)) => if e + 4 > p.len() {
                None
            } else {
                Some(
                    (
                        if labels.len() == 0 {
                            seq!['.']
                        } else {
                            text::join_dots(labels)
                        },
                        wire::be16(p, e),
                        e + 4,
                    ),
                )
            },
        }
    }
}

/// The response code: the upper bits from the OPT record, the lower four from the header.
pub open spec fn rcode_of(p: Seq<u8>) -> u16 {
    let upper: int = match edns::edns(p) {
        Some(e) => e.extended_rcode as int,
        None => 0,
    };
    (upper * 16 + wire::header(p).flags % 16) as u16
}

/// The bytes of a question.
pub open spec fn question_bytes(encoded_name: Seq<u8>, qtype: u16) -> Seq<u8> {
    encoded_name + wire::bytes16(qtype) + wire::bytes16(1)
}

/// The header of a query.
pub open spec fn query_header(id: u16, rd: bool) -> DnsHeader {
    DnsHeader {
        id,
        flags: if rd {
            DNS_FLAG_RD
        } else {
            0
        },
        qdcount: 1,
        ancount: 0,
        nscount: 0,
        arcount: 0,
    }
}

/// A query for a name that can be written.
pub open spec fn query_bytes(id: u16, qname: Seq<char>, qtype: u16, rd: bool) -> Option<Seq<u8>> {
    match name::name_bytes(qname) {
        None => None,
        Some(b) => Some(wire::header_bytes(query_header(id, rd)) + question_bytes(b, qtype)),
    }
}

/// A query with the OPT record of a template request.
pub open spec fn query_like(
    template: Seq<u8>,
    id: u16,
    qname: Seq<char>,
    qtype: u16,
    rd: bool,
) -> Option<Seq<u8>> {
    match query_bytes(id, qname, qtype, rd) {
        None => None,
        Some(p) => Some(edns::echo_opt(template, p, 0)),
    }
}

/// `p` with the bits of `mask` set or cleared in its flags.
pub open spec fn with_flag(p: Seq<u8>, mask: u16, on: bool) -> Seq<u8> {
    let flags = wire::be16(p, 2);
    wire::put16(
        p,
        2,
        if on {
            flags | mask
        } else {
            flags & !mask
        },
    )
}

/// A query that asks for DNSSEC data: checking disabled as asked for, and one OPT record with
/// the DNSSEC OK flag.
pub open spec fn dnssec_query(
    template: Seq<u8>,
    id: u16,
    qname: Seq<char>,
    qtype: u16,
    rd: bool,
    cd: bool,
) -> Option<Seq<u8>> {
    match query_like(template, id, qname, qtype, rd) {
        None => None,
        Some(q) => with_dnssec_ok(with_flag(q, DNS_FLAG_CD, cd)),
    }
}

/// A query behind which an OPT record with the DNSSEC OK flag stands in place of the one it
/// has; where it has none, one for 1232 bytes.
pub open spec fn with_dnssec_ok(p: Seq<u8>) -> Option<Seq<u8>> {
    match edns::edns(p) {
        None => edns::with_additional(
            p,
            edns::opt_record(
                edns::EdnsV {
                    udp_payload_size: 1232,
                    extended_rcode: 0,
                    version: 0,
                    flags: edns::DNS_EDNS_FLAG_DO,
                    options: Seq::empty(),
                },
            ),
        ),
        Some(e) => match edns::stripped(p) {
            None => None,
            Some(s) => edns::with_additional(
                s,
                edns::opt_record(
                    edns::EdnsV {
                        udp_payload_size: e.udp_payload_size,
                        extended_rcode: 0,
                        version: 0,
                        flags: e.flags | edns::DNS_EDNS_FLAG_DO,
                        options: e.options,
                    },
                ),
            ),
        },
    }
}

/// A query is at least as long as a header.
pub proof fn lemma_query_like_len(
    template: Seq<u8>,
    id: u16,
    qname: Seq<char>,
    qtype: u16,
    rd: bool,
)
    ensures
        query_like(template, id, qname, qtype, rd) matches Some(p) ==> p.len() >= 12,
{
}

/// The first question ends inside the packet.
pub proof fn lemma_first_question_end(p: Seq<u8>)
    ensures
        first_question(p) matches Some((_, _, e)) ==> 17 <= e <= p.len(),
{
    if p.len() >= 12 {
        lemma_question_labels_end(p, 12);
    }
}

/// The name of a question ends inside the packet.
pub proof fn lemma_question_labels_end(p: Seq<u8>, off: int)
    ensures
        question_labels(p, off) matches Some((_, e)) ==> off < e <= p.len(),
    decreases p.len() - off,
{
    if 0 <= off < p.len() && p[off] != 0 && p[off] < 64 && off + 1 + p[off] <= p.len() {
        lemma_question_labels_end(p, off + 1 + p[off]);
    }
}

/// The first question of a packet.
pub fn parse_first_question(packet: &[u8]) -> (r: Option<(String, u16, usize)>)
    ensures
        first_question(packet@) == (match r {
            Some((qname, qtype, end)) => Some((qname@, qtype, end as int)),
            None => None,
        }),
        r matches Some((_, _, end)) ==> 17 <= end <= packet@.len(),
{
    proof {
        lemma_first_question_end(packet@);
    }
    let header = match wire::parse_header(packet) {
        None => {
            return None;
        },
        Some(h) => h,
    };
    if header.qdcount == 0 {
        return None;
    }
    let ghost p = packet@;
    let mut labels: Vec<String> = Vec::new();
    let mut at: usize = 12;
    assert(text::views(labels@) =~= Seq::empty());
    assert(question_labels(p, 12) matches Some((rest, _)) ==> Seq::empty() + rest =~= rest);
    loop
        invariant_except_break
            12 <= at <= p.len(),
            question_labels(p, 12) == (match question_labels(p, at as int) {
                Some((rest, e)) => Some((text::views(labels@) + rest, e)),
                None => None,
            }),
        invariant
            p == packet@,
            wire::header(p).qdcount != 0,
        ensures
            12 < at <= p.len(),
            question_labels(p, 12) == Some((text::views(labels@), at as int)),
        decreases p.len() - at,
    {
        if at >= packet.len() {
            return None;
        }
        let len = packet[at];
        if len == 0 {
            assert(text::views(labels@) + Seq::<Seq<char>>::empty() =~= text::views(labels@));
            at += 1;
            break;
        }
        if len >= 64 {
            return None;
        }
        if len as usize > packet.len() - at - 1 {
            return None;
        }
        match text::utf8_text(slice_subrange(packet, at + 1, at + 1 + len as usize)) {
            None => {
                return None;
            },
            Some(label) => {
                let ghost before = text::views(labels@);
                let ghost next = question_labels(p, at + 1 + len);
                labels.push(label);
                assert(text::views(labels@) =~= before.push(label@));
                assert(next matches Some((rest, e)) ==> before + (seq![label@] + rest)
                    =~= before.push(label@) + rest);
                at += 1 + len as usize;
            },
        }
    }
    if packet.len() - at < 4 {
        return None;
    }
    let qtype = wire::read_u16(packet, at);
    let qname = if labels.len() == 0 {
        let mut dot = String::new();
        dot.push('.');
        assert(dot@ =~= seq!['.']);
        dot
    } else {
        text::join(&labels)
    };
    Some((qname, qtype, at + 4))
}

/// The identifier of a request, and its first question where it can be read.
pub fn parse_request_overview(packet: &[u8]) -> (r: Option<DnsRequestOverview>)
    ensures
        r is Some <==> packet@.len() >= 12,
        r matches Some(v) ==> {
            &&& v.id == wire::header(packet@).id
            &&& (match v.query_name {
                Some(n) => Some(n@),
                None => None,
            }) == (match first_question(packet@) {
                Some((n, _, _)) => Some(n),
                None => None,
            })
            &&& v.query_type == (match first_question(packet@) {
                Some((_, t, _)) => Some(t),
                None => None,
            })
        },
{
    match wire::parse_header(packet) {
        None => None,
        Some(h) => match parse_first_question(packet) {
            Some((qname, qtype, _)) => Some(
                DnsRequestOverview { id: h.id, query_name: Some(qname), query_type: Some(qtype) },
            ),
            None => Some(DnsRequestOverview { id: h.id, query_name: None, query_type: None }),
        },
    }
}

/// The identifier, the response code and the number of answers of a response.
pub fn parse_response_overview(packet: &[u8]) -> (r: Option<DnsResponseOverview>)
    ensures
        r == (if packet@.len() < 12 {
            None
        } else {
            Some(
                (DnsResponseOverview {
                    id: wire::header(packet@).id,
                    rcode: rcode_of(packet@),
                    ancount: wire::header(packet@).ancount,
                }),
            )
        }),
{
    match wire::parse_header(packet) {
        None => None,
        Some(h) => {
            let upper: u16 = match edns::extract_edns_opt(packet) {
                Some(opt) => opt.extended_rcode as u16,
                None => 0,
            };
            Some(
                DnsResponseOverview {
                    id: h.id,
                    rcode: upper * 16 + h.flags % 16,
                    ancount: h.ancount,
                },
            )
        },
    }
}

/// The number of answers of a response.
pub fn answer_count(packet: &[u8]) -> (r: Option<u16>)
    ensures
        r == (if packet@.len() < 12 {
            None
        } else {
            Some(wire::header(packet@).ancount)
        }),
{
    match parse_response_overview(packet) {
        Some(v) => Some(v.ancount),
        None => None,
    }
}

/// The response code of a response.
pub fn response_code(packet: &[u8]) -> (r: Option<u16>)
    ensures
        r == (if packet@.len() < 12 {
            None
        } else {
            Some(rcode_of(packet@))
        }),
{
    match parse_response_overview(packet) {
        Some(v) => Some(v.rcode),
        None => None,
    }
}

/// Whether the checking disabled flag is set.
pub fn checking_disabled(packet: &[u8]) -> (r: bool)
    ensures
        r == (packet@.len() >= 4 && wire::be16(packet@, 2) & DNS_FLAG_CD != 0),
{
    if packet.len() < 4 {
        return false;
    }
    wire::read_u16(packet, 2) & DNS_FLAG_CD != 0
}

/// Whether the authentic data flag is set.
pub fn authentic_data(packet: &[u8]) -> (r: bool)
    ensures
        r == (packet@.len() >= 4 && wire::be16(packet@, 2) & DNS_FLAG_AD != 0),
{
    if packet.len() < 4 {
        return false;
    }
    wire::read_u16(packet, 2) & DNS_FLAG_AD != 0
}

/// Sets or clears the authentic data flag.
pub fn set_authentic_data(packet: &mut [u8], enabled: bool)
    ensures
        final(packet)@ == (if old(packet)@.len() < 4 {
            old(packet)@
        } else {
            with_flag(old(packet)@, DNS_FLAG_AD, enabled)
        }),
{
    if packet.len() < 4 {
        return ;
    }
    let mut flags = wire::read_u16(packet, 2);
    if enabled {
        flags = flags | DNS_FLAG_AD;
    } else {
        flags = flags & !DNS_FLAG_AD;
    }
    packet[2] = (flags / 256) as u8;
    packet[3] = (flags % 256) as u8;
}

fn flagged(packet: &[u8], mask: u16, on: bool) -> (r: Option<Vec<u8>>)
    ensures
        edns::bytes_view(r) == (if packet@.len() < 4 {
            None
        } else {
            Some(with_flag(packet@, mask, on))
        }),
{
    if packet.len() < 4 {
        return None;
    }
    let mut out = slice_to_vec(packet);
    let flags = wire::read_u16(packet, 2);
    wire::put_u16(
        &mut out,
        2,
        if on {
            flags | mask
        } else {
            flags & !mask
        },
    );
    Some(out)
}

/// A copy of the packet with the checking disabled flag set or cleared.
pub fn set_checking_disabled(packet: &[u8], enabled: bool) -> (r: Option<Vec<u8>>)
    ensures
        edns::bytes_view(r) == (if packet@.len() < 4 {
            None
        } else {
            Some(with_flag(packet@, DNS_FLAG_CD, enabled))
        }),
{
    flagged(packet, DNS_FLAG_CD, enabled)
}

/// A copy of the packet with the recursion desired flag set or cleared.
pub fn set_recursion_desired(packet: &[u8], rd: bool) -> (r: Option<Vec<u8>>)
    ensures
        edns::bytes_view(r) == (if packet@.len() < 4 {
            None
        } else {
            Some(with_flag(packet@, DNS_FLAG_RD, rd))
        }),
{
    flagged(packet, DNS_FLAG_RD, rd)
}

/// Clears the response code in the header.
pub fn clear_header_rcode(packet: &mut [u8])
    ensures
        final(packet)@ == (if old(packet)@.len() < 4 {
            old(packet)@
        } else {
            old(packet)@.update(3, (old(packet)@[3] / 16 * 16) as u8)
        }),
{
    if packet.len() >= 4 {
        packet[3] = packet[3] / 16 * 16;
    }
}

/// Builds a query.
pub fn build_query(id: u16, name: &str, qtype: u16, rd: bool) -> (r: Option<Vec<u8>>)
    ensures
        edns::bytes_view(r) == query_bytes(id, name@, qtype, rd),
{
    let mut packet: Vec<u8> = Vec::new();
    match build_query_into(&mut packet, id, name, qtype, rd) {
        None => None,
        Some(_) => Some(packet),
    }
}

/// Builds a query in place of what the buffer held. Where the name cannot be written, the buffer
/// is left with what precedes the label that cannot.
pub fn build_query_into(buffer: &mut Vec<u8>, id: u16, name: &str, qtype: u16, rd: bool) -> (r:
    Option<()>)
    ensures
        r is Some <==> query_bytes(id, name@, qtype, rd) is Some,
        final(buffer)@ == (match query_bytes(id, name@, qtype, rd) {
            Some(p) => p,
            None => wire::header_bytes(query_header(id, rd)) + name::encode_name_spec(name@).0,
        }),
{
    buffer.clear();
    let flags: u16 = if rd {
        DNS_FLAG_RD
    } else {
        0
    };
    wire::push_header(
        buffer,
        DnsHeader { id, flags, qdcount: 1, ancount: 0, nscount: 0, arcount: 0 },
    );
    assert(buffer@ =~= wire::header_bytes(query_header(id, rd)));
    if name::encode_name(name, buffer).is_none() {
        return None;
    }
    wire::push_u16(buffer, qtype);
    wire::push_u16(buffer, 1);
    assert(buffer@ =~= query_bytes(id, name@, qtype, rd)->0);
    Some(())
}

/// Builds a query with the OPT record of a template request.
pub fn build_query_like_request(
    template_request: &[u8],
    id: u16,
    name: &str,
    qtype: u16,
    rd: bool,
) -> (r: Option<Vec<u8>>)
    ensures
        edns::bytes_view(r) == query_like(template_request@, id, name@, qtype, rd),
{
    match build_query(id, name, qtype, rd) {
        None => None,
        Some(mut packet) => {
            let _ = edns::clone_edns_opt_from_request(template_request, &mut packet);
            Some(packet)
        },
    }
}

/// Builds a query with the OPT record of a template request in place of what the buffer held.
pub fn build_query_like_request_into(
    buffer: &mut Vec<u8>,
    template_request: &[u8],
    id: u16,
    name: &str,
    qtype: u16,
    rd: bool,
) -> (r: Option<()>)
    ensures
        r is Some <==> query_like(template_request@, id, name@, qtype, rd) is Some,
        final(buffer)@ == (match query_like(template_request@, id, name@, qtype, rd) {
            Some(p) => p,
            None => wire::header_bytes(query_header(id, rd)) + name::encode_name_spec(name@).0,
        }),
{
    if build_query_into(buffer, id, name, qtype, rd).is_none() {
        return None;
    }
    let _ = edns::clone_edns_opt_from_request(template_request, buffer);
    Some(())
}

/// Builds a query that asks for DNSSEC data.
pub fn build_dnssec_query_like_request(
    template_request: &[u8],
    id: u16,
    name: &str,
    qtype: u16,
    rd: bool,
    checking_disabled: bool,
) -> (r: Option<Vec<u8>>)
    ensures
        edns::bytes_view(r) == dnssec_query(
            template_request@,
            id,
            name@,
            qtype,
            rd,
            checking_disabled,
        ),
{
    let query = match build_query_like_request(template_request, id, name, qtype, rd) {
        None => {
            return None;
        },
        Some(q) => q,
    };
    proof {
        lemma_query_like_len(template_request@, id, name@, qtype, rd);
    }
    match set_checking_disabled(query.as_slice(), checking_disabled) {
        None => None,
        Some(packet) => request_dnssec(packet),
    }
}

fn request_dnssec(packet: Vec<u8>) -> (r: Option<Vec<u8>>)
    ensures
        edns::bytes_view(r) == with_dnssec_ok(packet@),
{
    match edns::extract_edns_opt(packet.as_slice()) {
        Some(e) => {
            let mut bare = match edns::strip_edns_opt_from_request(packet.as_slice()) {
                None => {
                    return None;
                },
                Some(b) => b,
            };
            match edns::append_edns_opt_with_options(
                &mut bare,
                e.udp_payload_size,
                0,
                0,
                e.flags | edns::DNS_EDNS_FLAG_DO,
                e.options.as_slice(),
            ) {
                None => None,
                Some(_) => Some(bare),
            }
        },
        None => {
            let mut packet = packet;
            match edns::append_edns_opt(&mut packet, 1232, edns::DNS_EDNS_FLAG_DO) {
                None => None,
                Some(_) => Some(packet),
            }
        },
    }
}

/// The name of a record type.
pub open spec fn type_label(qtype: u16) -> Seq<char> {
    match qtype {
        1u16 => "A"@,
        2u16 => "NS"@,
        5u16 => "CNAME"@,
        6u16 => "SOA"@,
        12u16 => "PTR"@,
        15u16 => "MX"@,
        16u16 => "TXT"@,
        28u16 => "AAAA"@,
        33u16 => "SRV"@,
        43u16 => "DS"@,
        46u16 => "RRSIG"@,
        47u16 => "NSEC"@,
        48u16 => "DNSKEY"@,
        50u16 => "NSEC3"@,
        65u16 => "HTTPS"@,
        _ => "TYPE"@ + text::decimal(qtype as nat),
    }
}

pub fn qtype_label(qtype: u16) -> (r: String)
    ensures
        r@ == type_label(qtype),
{
    match qtype {
        1 => "A".to_owned(),
        2 => "NS".to_owned(),
        5 => "CNAME".to_owned(),
        6 => "SOA".to_owned(),
        12 => "PTR".to_owned(),
        15 => "MX".to_owned(),
        16 => "TXT".to_owned(),
        28 => "AAAA".to_owned(),
        33 => "SRV".to_owned(),
        43 => "DS".to_owned(),
        46 => "RRSIG".to_owned(),
        47 => "NSEC".to_owned(),
        48 => "DNSKEY".to_owned(),
        50 => "NSEC3".to_owned(),
        65 => "HTTPS".to_owned(),
        _ => text::concat("TYPE", text::decimal_of(qtype as u64).as_str()),
    }
}

pub fn qtype_label_opt(qtype: Option<u16>) -> (r: String)
    ensures
        r@ == (match qtype {
            Some(t) => type_label(t),
            None => "UNKNOWN"@,
        }),
{
    match qtype {
        Some(t) => qtype_label(t),
        None => "UNKNOWN".to_owned(),
    }
}

} // verus!
