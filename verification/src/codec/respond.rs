//! Responses that the server writes itself, and the data of the records in them.
use crate::codec::edns;
use crate::codec::name;
use crate::codec::query;
use crate::codec::wire;
use crate::codec::wire::DnsHeader;
use crate::ip;
use crate::text;
use vstd::prelude::*;
use vstd::slice::*;
use vstd::utf8::*;

verus! {

pub const DNS_RCODE_FORMERR: u16 = 1;

pub const DNS_RCODE_SERVFAIL: u16 = 2;

pub const DNS_RCODE_NOTIMP: u16 = 4;

pub const DNS_RCODE_REFUSED: u16 = 5;

pub const DNS_RCODE_BADVERS: u16 = 16;

pub const DNS_TYPE_DS: u16 = 43;

pub const DNS_TYPE_RRSIG: u16 = 46;

pub const DNS_TYPE_DNSKEY: u16 = 48;

/// Why a response could not be written.
#[derive(Debug, Clone, Copy, PartialEq, Eq, Structural)]
pub enum CodecError {
    PacketTooShort,
    InvalidQuestion,
    InvalidFirstQuestion,
    UnsupportedStaticRecord,
    NoAnswers,
    AllRecordsFailed,
    InvalidQuestionSection,
    InvalidAnswerRecord,
    InvalidAuthorityRecord,
    InvalidAdditionalRecord,
    InvalidAdditionalOwner,
    AdditionalOverflow,
    ArcountOverflow,
}

impl CodecError {
    /// The text of the error; `qtype` is the record type that was asked for.
    pub fn message(self, qtype: &str) -> (r: String)
        ensures
            r@ == (match self {
                CodecError::PacketTooShort => "dns packet too short"@,
                CodecError::InvalidQuestion => "invalid dns question"@,
                CodecError::InvalidFirstQuestion => "invalid first dns question"@,
                CodecError::UnsupportedStaticRecord => "unsupported static record type"@,
                CodecError::NoAnswers => "answers must not be empty"@,
                CodecError::AllRecordsFailed => "all zone record rdata encoding failed for qtype="@
                    + qtype@,
                CodecError::InvalidQuestionSection => "invalid question section"@,
                CodecError::InvalidAnswerRecord => "invalid answer section record"@,
                CodecError::InvalidAuthorityRecord => "invalid authority section record"@,
                CodecError::InvalidAdditionalRecord => "invalid additional section record"@,
                CodecError::InvalidAdditionalOwner => "invalid additional owner name"@,
                CodecError::AdditionalOverflow => "additional records overflow"@,
                CodecError::ArcountOverflow => "arcount overflow"@,
            }),
    {
        match self {
            CodecError::PacketTooShort => "dns packet too short".to_owned(),
            CodecError::InvalidQuestion => "invalid dns question".to_owned(),
            CodecError::InvalidFirstQuestion => "invalid first dns question".to_owned(),
            CodecError::UnsupportedStaticRecord => "unsupported static record type".to_owned(),
            CodecError::NoAnswers => "answers must not be empty".to_owned(),
            CodecError::AllRecordsFailed => text::concat(
                "all zone record rdata encoding failed for qtype=",
                qtype,
            ),
            CodecError::InvalidQuestionSection => "invalid question section".to_owned(),
            CodecError::InvalidAnswerRecord => "invalid answer section record".to_owned(),
            CodecError::InvalidAuthorityRecord => "invalid authority section record".to_owned(),
            CodecError::InvalidAdditionalRecord => "invalid additional section record".to_owned(),
            CodecError::InvalidAdditionalOwner => "invalid additional owner name".to_owned(),
            CodecError::AdditionalOverflow => "additional records overflow".to_owned(),
            CodecError::ArcountOverflow => "arcount overflow".to_owned(),
        }
    }
}

#[derive(Debug, Clone)]
pub struct DnsAdditionalRecord {
    pub owner_name: String,
    pub rr_type: u16,
    pub ttl: u32,
    pub answers: Vec<String>,
}

/// A result as the specifications speak of it.
pub open spec fn result_view(r: Result<Vec<u8>, CodecError>) -> Result<Seq<u8>, CodecError> {
    match r {
        Ok(v) => Ok(v@),
        Err(e) => Err(e),
    }
}

/// The flags of a response: a response, the request's opcode and recursion desired, recursion
/// available, and `extra`.
pub open spec fn response_flags(request: u16, extra: u16) -> u16 {
    0x8000u16 | (request & 0x7800) | (request & 0x0100) | 0x0080u16 | extra
}

/// The header of a response to `request`.
pub open spec fn response_header(
    request: Seq<u8>,
    extra: u16,
    qdcount: u16,
    ancount: u16,
    nscount: u16,
) -> DnsHeader {
    DnsHeader {
        id: wire::header(request).id,
        flags: response_flags(wire::header(request).flags, extra),
        qdcount,
        ancount,
        nscount,
        arcount: 0,
    }
}

/// A response with `rcode` and no records but the request's OPT record.
pub open spec fn rcode_response(request: Seq<u8>, rcode: u16) -> Result<Seq<u8>, CodecError> {
    if request.len() < 12 {
        Err(CodecError::PacketTooShort)
    } else if wire::header(request).qdcount == 0 {
        Ok(
            edns::echo_opt(
                request,
                wire::header_bytes(response_header(request, rcode & 0x000F, 0, 0, 0)),
                rcode,
            ),
        )
    } else {
        match query::first_question(request) {
            None => Err(CodecError::InvalidFirstQuestion),
            Some((_, _, e)) => Ok(
                edns::echo_opt(
                    request,
                    wire::header_bytes(response_header(request, rcode & 0x000F, 1, 0, 0))
                        + request.subrange(12, e),
                    rcode,
                ),
            ),
        }
    }
}

/// The fields of a record behind its name, and its data.
pub open spec fn rr_tail(rr_type: u16, rr_class: u16, ttl: u32, data: Seq<u8>) -> Seq<u8> {
    wire::bytes16(rr_type) + wire::bytes16(rr_class) + wire::bytes32(ttl) + wire::bytes16(
        wire::len16(data.len()),
    ) + data
}

/// The data of a TXT record: pieces of at most 255 bytes, each behind its length.
pub open spec fn txt_data(bytes: Seq<u8>) -> Seq<u8>
    decreases bytes.len(),
{
    if bytes.len() == 0 {
        Seq::empty()
    } else if bytes.len() <= 255 {
        seq![bytes.len() as u8] + bytes
    } else {
        seq![255u8] + bytes.take(255) + txt_data(bytes.skip(255))
    }
}

/// The position of the first space, or the length where there is none.
pub open spec fn first_space(s: Seq<char>) -> int
    decreases s.len(),
{
    if s.len() == 0 || s[0] == ' ' {
        0
    } else {
        1 + first_space(s.drop_first())
    }
}

/// The data of an MX record written as a preference, a space and a name.
pub open spec fn mx_data(answer: Seq<char>) -> Option<Seq<u8>> {
    let t = text::trim(answer);
    let k = first_space(t);
    let exchange = if k < t.len() {
        text::trim(t.skip(k + 1))
    } else {
        Seq::empty()
    };
    match (text::uint_value(t.take(k), 0xFFFF), name::name_bytes(exchange)) {
        (Some(preference), Some(b)) if exchange.len() > 0 => Some(
            wire::bytes16(preference as u16) + b,
        ),
        _ => None,
    }
}

/// The data of a record of type `typenum` whose text is `answer`.
pub open spec fn rdata_of(typenum: u16, answer: Seq<char>) -> Option<Seq<u8>> {
    if typenum == 1 {
        ip::ipv4_value(answer)
    } else if typenum == 28 {
        ip::ipv6_value(answer)
    } else if typenum == 5 || typenum == 2 || typenum == 12 {
        name::name_bytes(answer)
    } else if typenum == 15 {
        mx_data(answer)
    } else if typenum == 16 {
        Some(txt_data(encode_utf8(answer)))
    } else {
        None
    }
}

/// The number of a record type written in any case; `other` where the name is not known.
pub open spec fn type_number(qtype: Seq<char>, other: u16) -> u16 {
    let t = text::upper(qtype);
    if t == "A"@ {
        1
    } else if t == "AAAA"@ {
        28
    } else if t == "CNAME"@ {
        5
    } else if t == "NS"@ {
        2
    } else if t == "MX"@ {
        15
    } else if t == "TXT"@ {
        16
    } else if t == "PTR"@ {
        12
    } else {
        other
    }
}

/// A response with one record of static data.
pub open spec fn static_answer(
    request: Seq<u8>,
    answer: Seq<char>,
    ttl: u32,
    qtype: Seq<char>,
) -> Result<Seq<u8>, CodecError> {
    match query::first_question(request) {
        None => Err(CodecError::InvalidQuestion),
        Some((qname, qnum, e)) => {
            let t = type_number(qtype, qnum);
            match rdata_of(t, answer) {
                None => Err(CodecError::UnsupportedStaticRecord),
                Some(data) => Ok(
                    edns::echo_opt(
                        request,
                        wire::header_bytes(response_header(request, 0, 1, 1, 0))
                            + request.subrange(12, e) + name::encode_name_spec(qname).0 + rr_tail(
                            t,
                            1,
                            ttl,
                            data,
                        ),
                        0,
                    ),
                ),
            }
        },
    }
}

/// The records of `answers` that can be written, one behind the other.
pub open spec fn records_bytes(
    qname: Seq<char>,
    typenum: u16,
    ttl: u32,
    answers: Seq<Seq<char>>,
) -> Seq<u8>
    decreases answers.len(),
{
    if answers.len() == 0 {
        Seq::empty()
    } else {
        let before = records_bytes(qname, typenum, ttl, answers.drop_last());
        match rdata_of(typenum, answers.last()) {
            None => before,
            Some(data) => before + name::encode_name_spec(qname).0 + rr_tail(
                typenum,
                1,
                ttl,
                data,
            ),
        }
    }
}

/// How many of `answers` can be written.
pub open spec fn writable(typenum: u16, answers: Seq<Seq<char>>) -> nat {
    answers.filter(|a: Seq<char>| rdata_of(typenum, a) is Some).len()
}

pub open spec fn saturate16(n: nat) -> u16 {
    if n > 0xFFFF {
        0xFFFF
    } else {
        n as u16
    }
}

/// An authoritative response with one record for each answer that can be written.
pub open spec fn authoritative_answer(
    request: Seq<u8>,
    answers: Seq<Seq<char>>,
    ttl: u32,
    qtype: Seq<char>,
) -> Result<Seq<u8>, CodecError> {
    if answers.len() == 0 {
        Err(CodecError::NoAnswers)
    } else {
        match query::first_question(request) {
            None => Err(CodecError::InvalidQuestion),
            Some((qname, qnum, e)) => {
                let t = type_number(qtype, qnum);
                if writable(t, answers) == 0 {
                    Err(CodecError::AllRecordsFailed)
                } else {
                    Ok(
                        edns::echo_opt(
                            request,
                            wire::header_bytes(
                                response_header(
                                    request,
                                    0x0400,
                                    1,
                                    saturate16(writable(t, answers)),
                                    0,
                                ),
                            ) + request.subrange(12, e) + records_bytes(qname, t, ttl, answers),
                            0,
                        ),
                    )
                }
            },
        }
    }
}

/// The data of a start of authority record.
pub ghost struct SoaV {
    pub mname: Seq<char>,
    pub rname: Seq<char>,
    pub serial: u32,
    pub refresh: u32,
    pub retry: u32,
    pub expire: u32,
    pub minimum: u32,
}

pub open spec fn soa_data(s: SoaV) -> Seq<u8> {
    name::encode_name_spec(s.mname).0 + name::encode_name_spec(s.rname).0 + wire::bytes32(s.serial)
        + wire::bytes32(s.refresh) + wire::bytes32(s.retry) + wire::bytes32(s.expire)
        + wire::bytes32(s.minimum)
}

/// An authoritative response whose one record is the zone's SOA, in the answer section or in
/// the authority section.
pub open spec fn soa_response(
    request: Seq<u8>,
    zone: Seq<char>,
    soa: SoaV,
    extra: u16,
    in_answer: bool,
) -> Result<Seq<u8>, CodecError> {
    match query::first_question(request) {
        None => Err(CodecError::InvalidQuestion),
        Some((_, _, e)) => Ok(
            edns::echo_opt(
                request,
                wire::header_bytes(
                    response_header(
                        request,
                        extra,
                        1,
                        if in_answer {
                            1
                        } else {
                            0
                        },
                        if in_answer {
                            0
                        } else {
                            1
                        },
                    ),
                ) + request.subrange(12, e) + name::encode_name_spec(zone).0 + rr_tail(
                    6,
                    1,
                    soa.minimum,
                    soa_data(soa),
                ),
                0,
            ),
        ),
    }
}

/// Appends the header of a response to `request`.
fn push_response_header(
    out: &mut Vec<u8>,
    request: DnsHeader,
    extra: u16,
    qdcount: u16,
    ancount: u16,
    nscount: u16,
)
    ensures
        final(out)@ == old(out)@ + wire::header_bytes(
            (DnsHeader {
                id: request.id,
                flags: response_flags(request.flags, extra),
                qdcount,
                ancount,
                nscount,
                arcount: 0,
            }),
        ),
{
    let flags = 0x8000u16 | (request.flags & 0x7800) | (request.flags & 0x0100) | 0x0080u16 | extra;
    wire::push_header(
        out,
        DnsHeader { id: request.id, flags, qdcount, ancount, nscount, arcount: 0 },
    );
}

/// Appends the fields of a record behind its name, and its data.
pub fn push_rr_tail(out: &mut Vec<u8>, rr_type: u16, rr_class: u16, ttl: u32, data: &[u8])
    ensures
        final(out)@ == old(out)@ + rr_tail(rr_type, rr_class, ttl, data@),
{
    wire::push_u16(out, rr_type);
    wire::push_u16(out, rr_class);
    wire::push_u32(out, ttl);
    wire::push_u16(out, (data.len() % 65536) as u16);
    wire::push_bytes(out, data);
    assert(out@ =~= old(out)@ + rr_tail(rr_type, rr_class, ttl, data@));
}

/// A response with `rcode` and no records but the request's OPT record.
pub fn build_response_with_rcode(request: &[u8], rcode: u16) -> (r: Result<Vec<u8>, CodecError>)
    ensures
        result_view(r) == rcode_response(request@, rcode),
{
    let header = match wire::parse_header(request) {
        None => {
            return Err(CodecError::PacketTooShort);
        },
        Some(h) => h,
    };
    let mut response: Vec<u8> = Vec::new();
    if header.qdcount > 0 {
        push_response_header(&mut response, header, rcode & 0x000F, 1, 0, 0);
        match query::parse_first_question(request) {
            None => {
                return Err(CodecError::InvalidFirstQuestion);
            },
            Some((_, _, end)) => {
                wire::push_bytes(&mut response, slice_subrange(request, 12, end));
                assert(response@ =~= wire::header_bytes(
                    response_header(request@, rcode & 0x000F, 1, 0, 0),
                ) + request@.subrange(12, end as int));
            },
        }
    } else {
        push_response_header(&mut response, header, rcode & 0x000F, 0, 0, 0);
        assert(response@ =~= wire::header_bytes(
            response_header(request@, rcode & 0x000F, 0, 0, 0),
        ));
    }
    let _ = edns::maybe_append_request_edns_opt_with_rcode(request, &mut response, rcode);
    Ok(response)
}

/// A response that says that the server failed.
pub fn build_servfail_response(request: &[u8]) -> (r: Result<Vec<u8>, CodecError>)
    ensures
        result_view(r) == rcode_response(request@, DNS_RCODE_SERVFAIL),
{
    build_response_with_rcode(request, DNS_RCODE_SERVFAIL)
}

/// A response that says that the EDNS version is not supported.
pub fn build_badvers_response(request: &[u8]) -> (r: Result<Vec<u8>, CodecError>)
    ensures
        result_view(r) == rcode_response(request@, DNS_RCODE_BADVERS),
{
    build_response_with_rcode(request, DNS_RCODE_BADVERS)
}

fn encode_txt(bytes: &[u8]) -> (r: Vec<u8>)
    ensures
        r@ == txt_data(bytes@),
{
    let mut out: Vec<u8> = Vec::new();
    let mut at: usize = 0;
    assert(bytes@.skip(0) =~= bytes@);
    while at < bytes.len()
        invariant
            at <= bytes@.len(),
            txt_data(bytes@) == out@ + txt_data(bytes@.skip(at as int)),
        decreases bytes@.len() - at,
    {
        let left: usize = bytes.len() - at;
        let size: usize = if left > 255 {
            255
        } else {
            left
        };
        let ghost before = out@;
        let ghost rest = bytes@.skip(at as int);
        out.push(size as u8);
        wire::push_bytes(&mut out, slice_subrange(bytes, at, at + size));
        proof {
            let next = bytes@.skip(at + size);
            assert(bytes@.subrange(at as int, at + size) =~= rest.take(size as int));
            if left > 255 {
                assert(rest.skip(255) =~= next);
            } else {
                assert(rest.take(size as int) =~= rest);
                assert(next =~= Seq::empty());
            }
            assert(out@ + txt_data(next) =~= before + txt_data(rest));
        }
        at = at + size;
    }
    assert(bytes@.skip(at as int) =~= Seq::empty());
    assert(out@ =~= txt_data(bytes@));
    out
}

fn encode_mx(answer: &str) -> (r: Option<Vec<u8>>)
    ensures
        edns::bytes_view(r) == mx_data(answer@),
{
    let chars = text::chars_of(answer);
    let t = text::trim_chars(chars.as_slice());
    let mut k: usize = 0;
    assert(t@.skip(0) =~= t@);
    while k < t.len() && t[k] != ' '
        invariant
            k <= t@.len(),
            first_space(t@) == k + first_space(t@.skip(k as int)),
        decreases t@.len() - k,
    {
        assert(t@.skip(k as int).drop_first() =~= t@.skip(k + 1));
        k += 1;
    }
    assert(first_space(t@) == k);
    let preference = match text::parse_uint(slice_subrange(t.as_slice(), 0, k), 0xFFFF) {
        None => {
            assert(t@.subrange(0, k as int) =~= t@.take(k as int));
            return None;
        },
        Some(v) => v,
    };
    assert(t@.subrange(0, k as int) =~= t@.take(k as int));
    if k >= t.len() {
        return None;
    }
    let exchange = text::trim_chars(slice_subrange(t.as_slice(), k + 1, t.len()));
    assert(t@.subrange(k + 1, t@.len() as int) =~= t@.skip(k + 1));
    if exchange.len() == 0 {
        return None;
    }
    let mut out: Vec<u8> = Vec::new();
    wire::push_u16(&mut out, preference as u16);
    match name::encode_name(text::string_of(exchange.as_slice()).as_str(), &mut out) {
        None => None,
        Some(_) => {
            assert(out@ =~= mx_data(answer@)->0);
            Some(out)
        },
    }
}

/// Writes the data of a record of type `typenum` whose text is `answer`.
pub fn encode_record_rdata(typenum: u16, answer: &str) -> (r: Option<Vec<u8>>)
    ensures
        edns::bytes_view(r) == rdata_of(typenum, answer@),
{
    if typenum == 1 {
        ip::parse_ipv4(answer)
    } else if typenum == 28 {
        ip::parse_ipv6(answer)
    } else if typenum == 5 || typenum == 2 || typenum == 12 {
        let mut out: Vec<u8> = Vec::new();
        match name::encode_name(answer, &mut out) {
            None => None,
            Some(_) => {
                assert(out@ =~= name::name_bytes(answer@)->0);
                Some(out)
            },
        }
    } else if typenum == 15 {
        encode_mx(answer)
    } else if typenum == 16 {
        Some(encode_txt(answer.as_bytes()))
    } else {
        None
    }
}

fn record_type_number(qtype: &str, other: u16) -> (r: u16)
    ensures
        r == type_number(qtype@, other),
{
    let t = text::to_upper(qtype);
    if text::same(t.as_str(), "A") {
        1
    } else if text::same(t.as_str(), "AAAA") {
        28
    } else if text::same(t.as_str(), "CNAME") {
        5
    } else if text::same(t.as_str(), "NS") {
        2
    } else if text::same(t.as_str(), "MX") {
        15
    } else if text::same(t.as_str(), "TXT") {
        16
    } else if text::same(t.as_str(), "PTR") {
        12
    } else {
        other
    }
}

/// A response with one record of static data.
pub fn build_static_answer(request: &[u8], answer: &str, ttl: u32, qtype: &str) -> (r: Result<
    Vec<u8>,
    CodecError,
>)
    ensures
        result_view(r) == static_answer(request@, answer@, ttl, qtype@),
{
    let (qname, qnum, end) = match query::parse_first_question(request) {
        None => {
            return Err(CodecError::InvalidQuestion);
        },
        Some(q) => q,
    };
    let header = match wire::parse_header(request) {
        None => {
            return Err(CodecError::PacketTooShort);
        },
        Some(h) => h,
    };
    let typenum = record_type_number(qtype, qnum);
    let data = match encode_record_rdata(typenum, answer) {
        None => {
            return Err(CodecError::UnsupportedStaticRecord);
        },
        Some(d) => d,
    };
    let mut response: Vec<u8> = Vec::new();
    push_response_header(&mut response, header, 0, 1, 1, 0);
    wire::push_bytes(&mut response, slice_subrange(request, 12, end));
    let _ = name::encode_name(qname.as_str(), &mut response);
    push_rr_tail(&mut response, typenum, 1, ttl, data.as_slice());
    assert(response@ =~= wire::header_bytes(response_header(request@, 0, 1, 1, 0))
        + request@.subrange(12, end as int) + name::encode_name_spec(qname@).0 + rr_tail(
        typenum,
        1,
        ttl,
        data@,
    ));
    let _ = edns::clone_edns_opt_from_request(request, &mut response);
    Ok(response)
}

/// An authoritative response with one record.
pub fn build_authoritative_answer(request: &[u8], answer: &str, ttl: u32, qtype: &str) -> (r:
    Result<Vec<u8>, CodecError>)
    ensures
        result_view(r) == authoritative_answer(request@, seq![answer@], ttl, qtype@),
{
    let mut answers: Vec<String> = Vec::new();
    answers.push(answer.to_owned());
    assert(text::views(answers@) =~= seq![answer@]);
    build_authoritative_answer_multi(request, answers.as_slice(), ttl, qtype)
}

/// An authoritative response with one record for each answer that can be written.
pub fn build_authoritative_answer_multi(
    request: &[u8],
    answers: &[String],
    ttl: u32,
    qtype: &str,
) -> (r: Result<Vec<u8>, CodecError>)
    ensures
        result_view(r) == authoritative_answer(request@, text::views(answers@), ttl, qtype@),
{
    if answers.len() == 0 {
        return Err(CodecError::NoAnswers);
    }
    let (qname, qnum, end) = match query::parse_first_question(request) {
        None => {
            return Err(CodecError::InvalidQuestion);
        },
        Some(q) => q,
    };
    let typenum = record_type_number(qtype, qnum);
    let header = match wire::parse_header(request) {
        None => {
            return Err(CodecError::PacketTooShort);
        },
        Some(h) => h,
    };
    let mut records: Vec<u8> = Vec::new();
    let mut ancount: u16 = 0;
    let mut i: usize = 0;
    let ghost all = text::views(answers@);
    let ghost pred = |a: Seq<char>| rdata_of(typenum, a) is Some;
    assert(all.take(0) =~= Seq::empty());
    assert(writable(typenum, all.take(0)) == 0) by {
        reveal(Seq::filter);
    }
    while i < answers.len()
        invariant
            i <= answers@.len(),
            all == text::views(answers@),
            pred == (|a: Seq<char>| rdata_of(typenum, a) is Some),
            records@ == records_bytes(qname@, typenum, ttl, all.take(i as int)),
            ancount == saturate16(writable(typenum, all.take(i as int))),
        decreases answers@.len() - i,
    {
        let ghost before = all.take(i as int);
        let ghost a = answers@[i as int]@;
        assert(all.take(i + 1) =~= before.push(a));
        assert(before.push(a).drop_last() =~= before);
        proof {
            before.lemma_filter_push(a, pred);
        }
        if let Some(data) = encode_record_rdata(typenum, answers[i].as_str()) {
            let ghost start = records@;
            let _ = name::encode_name(qname.as_str(), &mut records);
            push_rr_tail(&mut records, typenum, 1, ttl, data.as_slice());
            assert(records@ =~= start + name::encode_name_spec(qname@).0 + rr_tail(
                typenum,
                1,
                ttl,
                data@,
            ));
            ancount = ancount.saturating_add(1);
        }
        i += 1;
    }
    assert(all.take(i as int) =~= all);
    if ancount == 0 {
        return Err(CodecError::AllRecordsFailed);
    }
    let mut response: Vec<u8> = Vec::new();
    push_response_header(&mut response, header, 0x0400, 1, ancount, 0);
    wire::push_bytes(&mut response, slice_subrange(request, 12, end));
    wire::push_bytes(&mut response, records.as_slice());
    assert(response@ =~= wire::header_bytes(response_header(request@, 0x0400, 1, ancount, 0))
        + request@.subrange(12, end as int) + records@);
    let _ = edns::clone_edns_opt_from_request(request, &mut response);
    Ok(response)
}

/// The data of a start of authority record.
pub fn encode_soa_rdata(
    mname: &str,
    rname: &str,
    serial: u32,
    refresh: u32,
    retry: u32,
    expire: u32,
    minimum: u32,
) -> (r: Vec<u8>)
    ensures
        r@ == soa_data(
            (SoaV { mname: mname@, rname: rname@, serial, refresh, retry, expire, minimum }),
        ),
{
    let mut out: Vec<u8> = Vec::new();
    let _ = name::encode_name(mname, &mut out);
    let _ = name::encode_name(rname, &mut out);
    wire::push_u32(&mut out, serial);
    wire::push_u32(&mut out, refresh);
    wire::push_u32(&mut out, retry);
    wire::push_u32(&mut out, expire);
    wire::push_u32(&mut out, minimum);
    assert(out@ =~= soa_data(
        SoaV { mname: mname@, rname: rname@, serial, refresh, retry, expire, minimum },
    ));
    out
}

fn build_soa_response(
    request: &[u8],
    zone_name: &str,
    soa: &[u8],
    minimum: u32,
    extra: u16,
    in_answer: bool,
    Ghost(v): Ghost<SoaV>,
) -> (r: Result<Vec<u8>, CodecError>)
    requires
        soa@ == soa_data(v),
        v.minimum == minimum,
    ensures
        result_view(r) == soa_response(request@, zone_name@, v, extra, in_answer),
{
    let end = match query::parse_first_question(request) {
        None => {
            return Err(CodecError::InvalidQuestion);
        },
        Some((_, _, e)) => e,
    };
    let header = match wire::parse_header(request) {
        None => {
            return Err(CodecError::PacketTooShort);
        },
        Some(h) => h,
    };
    let mut response: Vec<u8> = Vec::new();
    let ancount: u16 = if in_answer {
        1
    } else {
        0
    };
    let nscount: u16 = if in_answer {
        0
    } else {
        1
    };
    push_response_header(&mut response, header, extra, 1, ancount, nscount);
    wire::push_bytes(&mut response, slice_subrange(request, 12, end));
    let _ = name::encode_name(zone_name, &mut response);
    push_rr_tail(&mut response, 6, 1, minimum, soa);
    assert(response@ =~= wire::header_bytes(response_header(request@, extra, 1, ancount, nscount))
        + request@.subrange(12, end as int) + name::encode_name_spec(zone_name@).0 + rr_tail(
        6,
        1,
        minimum,
        soa@,
    ));
    let _ = edns::clone_edns_opt_from_request(request, &mut response);
    Ok(response)
}

/// An authoritative response for a name that exists without a record of the type: no answer,
/// and the zone's SOA in the authority section.
pub fn build_authoritative_nodata(
    request: &[u8],
    zone_name: &str,
    mname: &str,
    rname: &str,
    serial: u32,
    refresh: u32,
    retry: u32,
    expire: u32,
    minimum_ttl: u32,
) -> (r: Result<Vec<u8>, CodecError>)
    ensures
        result_view(r) == soa_response(
            request@,
            zone_name@,
            (SoaV {
                mname: mname@,
                rname: rname@,
                serial,
                refresh,
                retry,
                expire,
                minimum: minimum_ttl,
            }),
            0x0400,
            false,
        ),
{
    let soa = encode_soa_rdata(mname, rname, serial, refresh, retry, expire, minimum_ttl);
    let ghost v = SoaV {
        mname: mname@,
        rname: rname@,
        serial,
        refresh,
        retry,
        expire,
        minimum: minimum_ttl,
    };
    build_soa_response(
        request,
        zone_name,
        soa.as_slice(),
        minimum_ttl,
        0x0400,
        false,
        Ghost(v),
    )
}

/// An authoritative response for a name that does not exist: response code 3, and the zone's
/// SOA in the authority section.
pub fn build_authoritative_nxdomain(
    request: &[u8],
    zone_name: &str,
    mname: &str,
    rname: &str,
    serial: u32,
    refresh: u32,
    retry: u32,
    expire: u32,
    minimum_ttl: u32,
) -> (r: Result<Vec<u8>, CodecError>)
    ensures
        result_view(r) == soa_response(
            request@,
            zone_name@,
            (SoaV {
                mname: mname@,
                rname: rname@,
                serial,
                refresh,
                retry,
                expire,
                minimum: minimum_ttl,
            }),
            0x0403,
            false,
        ),
{
    let soa = encode_soa_rdata(mname, rname, serial, refresh, retry, expire, minimum_ttl);
    let ghost v = SoaV {
        mname: mname@,
        rname: rname@,
        serial,
        refresh,
        retry,
        expire,
        minimum: minimum_ttl,
    };
    build_soa_response(
        request,
        zone_name,
        soa.as_slice(),
        minimum_ttl,
        0x0403,
        false,
        Ghost(v),
    )
}

/// An authoritative response to a question for the zone's SOA.
pub fn build_authoritative_soa_answer(
    request: &[u8],
    zone_name: &str,
    mname: &str,
    rname: &str,
    serial: u32,
    refresh: u32,
    retry: u32,
    expire: u32,
    minimum_ttl: u32,
) -> (r: Result<Vec<u8>, CodecError>)
    ensures
        result_view(r) == soa_response(
            request@,
            zone_name@,
            (SoaV {
                mname: mname@,
                rname: rname@,
                serial,
                refresh,
                retry,
                expire,
                minimum: minimum_ttl,
            }),
            0x0400,
            true,
        ),
{
    let soa = encode_soa_rdata(mname, rname, serial, refresh, retry, expire, minimum_ttl);
    let ghost v = SoaV {
        mname: mname@,
        rname: rname@,
        serial,
        refresh,
        retry,
        expire,
        minimum: minimum_ttl,
    };
    build_soa_response(request, zone_name, soa.as_slice(), minimum_ttl, 0x0400, true, Ghost(v))
}

/// The data that an authoritative source gives: a fixed address, whatever the source and the
/// question.
pub fn fetch_authoritative_answer(_source: &str, _qname: &str, _qtype: &str) -> (r: Result<
    String,
    CodecError,
>)
    ensures
        r matches Ok(s) && s@ == "6.6.6.6"@,
{
    Ok("6.6.6.6".to_owned())
}

} // verus!
