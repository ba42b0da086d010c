//! EDNS: the OPT record and its options.
use crate::codec::rr;
use crate::codec::rr::DnsRr;
use crate::codec::wire;
use crate::codec::wire::DnsHeader;
use vstd::prelude::*;
use vstd::slice::*;

verus! {

pub const DNS_TYPE_OPT: u16 = 41;

pub const DNS_EDNS_OPTION_NSID: u16 = 3;

pub const DNS_EDNS_OPTION_CLIENT_SUBNET: u16 = 8;

pub const DNS_EDNS_OPTION_COOKIE: u16 = 10;

pub const DNS_EDNS_OPTION_PADDING: u16 = 12;

pub const DNS_EDNS_FLAG_DO: u16 = 0x8000;

/// An EDNS option: its code and its data.
pub ghost struct OptionV {
    pub code: u16,
    pub data: Seq<u8>,
}

/// What an OPT record says.
pub ghost struct EdnsV {
    pub udp_payload_size: u16,
    pub extended_rcode: u8,
    pub version: u8,
    pub flags: u16,
    pub options: Seq<OptionV>,
}

#[derive(Debug, Clone, PartialEq, Eq)]
pub struct DnsEdnsOption {
    pub code: u16,
    pub data: Vec<u8>,
}

impl View for DnsEdnsOption {
    type V = OptionV;

    open spec fn view(&self) -> OptionV {
        OptionV { code: self.code, data: self.data@ }
    }
}

#[derive(Debug, Clone, PartialEq, Eq)]
pub struct DnsEdnsClientSubnet {
    pub family: u16,
    pub source_prefix: u8,
    pub scope_prefix: u8,
    pub address: Vec<u8>,
}

#[derive(Debug, Clone)]
pub struct DnsEdnsOpt {
    pub udp_payload_size: u16,
    pub extended_rcode: u8,
    pub version: u8,
    pub flags: u16,
    pub options: Vec<DnsEdnsOption>,
}

impl View for DnsEdnsOpt {
    type V = EdnsV;

    open spec fn view(&self) -> EdnsV {
        EdnsV {
            udp_payload_size: self.udp_payload_size,
            extended_rcode: self.extended_rcode,
            version: self.version,
            flags: self.flags,
            options: option_views(self.options@),
        }
    }
}

pub open spec fn option_views(v: Seq<DnsEdnsOption>) -> Seq<OptionV> {
    v.map_values(|o: DnsEdnsOption| o@)
}

/// The options in the data of an OPT record, from `off` on; none where an option reaches past
/// the data.
pub open spec fn options_from(data: Seq<u8>, off: int) -> Option<Seq<OptionV>>
    decreases data.len() - off,
{
    if off < 0 || off >= data.len() {
        Some(Seq::empty())
    } else if off + 4 > data.len() || off + 4 + wire::be16(data, off + 2) > data.len() {
        None
    } else {
        let next = off + 4 + wire::be16(data, off + 2);
        match options_from(data, next) {
            None => None,
            Some(rest) => Some(
                seq![
                    OptionV {
                        code: wire::be16(data, off),
                        data: data.subrange(off + 4, next),
                    },
                ] + rest,
            ),
        }
    }
}

/// The first OPT record of a list.
pub open spec fn first_opt(list: Seq<rr::Rr>) -> Option<rr::Rr>
    decreases list.len(),
{
    if list.len() == 0 {
        None
    } else if list[0].rr_type == DNS_TYPE_OPT {
        Some(list[0])
    } else {
        first_opt(list.drop_first())
    }
}

/// The OPT record of a packet: the first in its additional section.
pub open spec fn opt_rr(p: Seq<u8>) -> Option<rr::Rr> {
    if p.len() < 12 {
        None
    } else {
        first_opt(rr::additionals(p))
    }
}

/// What the OPT record of a packet says.
pub open spec fn edns(p: Seq<u8>) -> Option<EdnsV> {
    match opt_rr(p) {
        None => None,
        Some(r) => match options_from(p.subrange(r.rdata, r.end), 0) {
            None => None,
            Some(options) => Some(
                EdnsV {
                    udp_payload_size: r.rr_class,
                    extended_rcode: (r.ttl / 0x100_0000) as u8,
                    version: (r.ttl / 0x1_0000 % 256) as u8,
                    flags: (r.ttl % 0x1_0000) as u16,
                    options,
                },
            ),
        },
    }
}

/// The bytes of the OPT record of a packet.
pub open spec fn opt_bytes(p: Seq<u8>) -> Option<Seq<u8>> {
    match opt_rr(p) {
        None => None,
        Some(r) => Some(p.subrange(r.start, r.end)),
    }
}

/// The data of an OPT record that holds `options`.
pub open spec fn options_bytes(options: Seq<OptionV>) -> Seq<u8>
    decreases options.len(),
{
    if options.len() == 0 {
        Seq::empty()
    } else {
        let o = options.last();
        options_bytes(options.drop_last()) + wire::bytes16(o.code) + wire::bytes16(
            wire::len16(o.data.len()),
        ) + o.data
    }
}

/// An OPT record.
pub open spec fn opt_record(e: EdnsV) -> Seq<u8> {
    let data = options_bytes(e.options);
    seq![0u8] + wire::bytes16(DNS_TYPE_OPT) + wire::bytes16(e.udp_payload_size) + seq![
        e.extended_rcode,
        e.version,
    ] + wire::bytes16(e.flags) + wire::bytes16(wire::len16(data.len())) + data
}

/// `p` with `record` behind it and one more additional record counted; not possible where `p`
/// has no header or the count is full.
pub open spec fn with_additional(p: Seq<u8>, record: Seq<u8>) -> Option<Seq<u8>> {
    if p.len() < 12 || wire::header(p).arcount == u16::MAX {
        None
    } else {
        Some(wire::put16(p + record, 10, (wire::header(p).arcount + 1) as u16))
    }
}

/// The OPT record of `request` as a response with `rcode` carries it: the upper bits of the
/// response code and version zero.
pub open spec fn response_opt(request: Seq<u8>, rcode: u16) -> Option<Seq<u8>> {
    match opt_bytes(request) {
        None => None,
        Some(opt) => Some(opt.update(5, (rcode / 16 % 256) as u8).update(6, 0u8)),
    }
}

/// `response` with the request's OPT record, where there is one and it can be appended.
pub open spec fn with_request_opt(request: Seq<u8>, response: Seq<u8>, rcode: u16) -> Option<
    Seq<u8>,
> {
    match response_opt(request, rcode) {
        None => None,
        Some(opt) => with_additional(response, opt),
    }
}

/// The same, and the response as it is where nothing can be appended.
pub open spec fn echo_opt(request: Seq<u8>, response: Seq<u8>, rcode: u16) -> Seq<u8> {
    match with_request_opt(request, response, rcode) {
        Some(p) => p,
        None => response,
    }
}

/// The records of a list that are no OPT records.
pub open spec fn without_opt(list: Seq<rr::Rr>) -> Seq<rr::Rr> {
    list.filter(|r: rr::Rr| r.rr_type != DNS_TYPE_OPT)
}

/// The bytes of the records of a list, one after the other.
pub open spec fn rr_bytes(p: Seq<u8>, list: Seq<rr::Rr>) -> Seq<u8>
    decreases list.len(),
{
    if list.len() == 0 {
        Seq::empty()
    } else {
        rr_bytes(p, list.drop_last()) + p.subrange(list.last().start, list.last().end)
    }
}

/// Where the additional section ends.
pub open spec fn additional_end(p: Seq<u8>) -> Option<int> {
    match rr::additional_start(p) {
        None => None,
        Some(a) => rr::rr_end(p, a, wire::header(p).arcount as nat),
    }
}

/// Everything before the additional section, and its records other than OPT.
pub open spec fn stripped_body(p: Seq<u8>) -> Seq<u8> {
    p.take(rr::additional_start(p)->0) + rr_bytes(p, without_opt(rr::additionals(p)))
}

/// A packet without its OPT records; none where a record is malformed.
pub open spec fn stripped(p: Seq<u8>) -> Option<Seq<u8>> {
    if p.len() < 12 || additional_end(p) is None {
        None
    } else if first_opt(rr::additionals(p)) is None {
        Some(p)
    } else {
        Some(
            wire::put16(
                stripped_body(p),
                10,
                without_opt(rr::additionals(p)).len() as u16,
            ),
        )
    }
}

/// The response with its OPT records replaced by one that answers the request's: the request's
/// payload size and flags, the response's upper response code bits and options. Where the
/// request has none the response has none; where neither has one the response stays as it is.
pub open spec fn aligned(response: Seq<u8>, request: Seq<u8>) -> Option<Seq<u8>> {
    let kept = without_opt(rr::additionals(response));
    match (edns(request), edns(response)) {
        (None, None) => Some(response),
        _ if response.len() < 12 || additional_end(response) is None => None,
        (None, Some(_)) => Some(wire::put16(stripped_body(response), 10, kept.len() as u16)),
        (Some(_), _) if kept.len() + 1 > u16::MAX => None,
        (Some(q), a) => Some(
            wire::put16(
                stripped_body(response) + opt_record(
                    EdnsV {
                        udp_payload_size: q.udp_payload_size,
                        extended_rcode: if a is Some {
                            a->0.extended_rcode
                        } else {
                            0
                        },
                        version: 0,
                        flags: q.flags,
                        options: if a is Some {
                            a->0.options
                        } else {
                            Seq::empty()
                        },
                    },
                ),
                10,
                (kept.len() + 1) as u16,
            ),
        ),
    }
}

/// The data of the first option with `code`.
pub open spec fn option_data(options: Seq<OptionV>, code: u16) -> Option<Seq<u8>>
    decreases options.len(),
{
    if options.len() == 0 {
        None
    } else if options[0].code == code {
        Some(options[0].data)
    } else {
        option_data(options.drop_first(), code)
    }
}

/// The data of the packet's first EDNS option with `code`.
pub open spec fn edns_option(p: Seq<u8>, code: u16) -> Option<Seq<u8>> {
    match edns(p) {
        None => None,
        Some(e) => option_data(e.options, code),
    }
}

/// Byte strings as the specifications speak of them.
pub open spec fn bytes_view(r: Option<Vec<u8>>) -> Option<Seq<u8>> {
    match r {
        Some(v) => Some(v@),
        None => None,
    }
}

pub proof fn lemma_first_opt(list: Seq<rr::Rr>, i: int)
    requires
        0 <= i <= list.len(),
        forall|k: int| 0 <= k < i ==> (#[trigger] list[k]).rr_type != DNS_TYPE_OPT,
    ensures
        first_opt(list) == first_opt(list.skip(i)),
        i < list.len() && list[i].rr_type == DNS_TYPE_OPT ==> first_opt(list) == Some(list[i]),
        i == list.len() ==> first_opt(list) is None,
    decreases i,
{
    if i == 0 {
        assert(list.skip(0) =~= list);
    } else {
        assert(list[0].rr_type != DNS_TYPE_OPT);
        let rest = list.drop_first();
        assert forall|k: int| 0 <= k < i - 1 implies (#[trigger] rest[k]).rr_type
            != DNS_TYPE_OPT by {
            assert(rest[k] == list[k + 1]);
        }
        lemma_first_opt(rest, i - 1);
        assert(rest.skip(i - 1) =~= list.skip(i));
        if i < list.len() {
            assert(rest[i - 1] == list[i]);
        }
    }
}

/// The OPT record of a packet lies inside it and takes at least eleven bytes.
pub proof fn lemma_opt_rr(p: Seq<u8>)
    ensures
        opt_rr(p) matches Some(r) ==> 0 <= r.start && r.start + 11 <= r.rdata <= r.end <= p.len(),
{
    if p.len() >= 12 {
        if let Some(a) = rr::additional_start(p) {
            lemma_section_starts(p);
            let list = rr::additionals(p);
            rr::lemma_rr_list(p, a, wire::header(p).arcount as nat);
            if first_opt(list) is Some {
                lemma_first_opt_member(list);
                let i = choose|i: int| 0 <= i < list.len() && list[i] == first_opt(list)->0;
                rr::lemma_rr_bounds(p, list[i].start);
            }
        }
    }
}

proof fn lemma_first_opt_member(list: Seq<rr::Rr>)
    requires
        first_opt(list) is Some,
    ensures
        exists|i: int| 0 <= i < list.len() && list[i] == first_opt(list)->0,
    decreases list.len(),
{
    if list[0].rr_type == DNS_TYPE_OPT {
        assert(list[0] == first_opt(list)->0);
    } else {
        lemma_first_opt_member(list.drop_first());
        let i = choose|i: int|
            0 <= i < list.drop_first().len() && list.drop_first()[i] == first_opt(
                list.drop_first(),
            )->0;
        assert(list[i + 1] == first_opt(list)->0);
    }
}

/// The sections start inside the packet, behind its header.
pub proof fn lemma_section_starts(p: Seq<u8>)
    requires
        p.len() >= 12,
    ensures
        rr::question_end(p) matches Some(q) ==> 12 <= q <= p.len(),
        rr::answer_end(p) matches Some(a) ==> 12 <= a <= p.len(),
        rr::additional_start(p) matches Some(a) ==> 12 <= a <= p.len(),
{
    let h = wire::header(p);
    lemma_questions_end(p, 12, h.qdcount as nat);
    if let Some(q) = rr::question_end(p) {
        rr::lemma_rr_list(p, q, h.ancount as nat);
        if let Some(a) = rr::answer_end(p) {
            rr::lemma_rr_list(p, a, h.nscount as nat);
        }
    }
}

proof fn lemma_questions_end(p: Seq<u8>, off: int, n: nat)
    requires
        0 <= off <= p.len(),
    ensures
        rr::questions_end(p, off, n) matches Some(q) ==> off <= q <= p.len(),
    decreases n,
{
    if n > 0 {
        crate::codec::name::lemma_name_end_bounds(p, off);
        if let Some(e) = crate::codec::name::name_end(p, off) {
            if e + 4 <= p.len() {
                lemma_questions_end(p, e + 4, (n - 1) as nat);
            }
        }
    }
}

/// Reads the options in the data of an OPT record.
pub fn parse_edns_options(data: &[u8]) -> (r: Option<Vec<DnsEdnsOption>>)
    ensures
        options_from(data@, 0) == (match r {
            Some(v) => Some(option_views(v@)),
            None => None,
        }),
{
    let mut out: Vec<DnsEdnsOption> = Vec::new();
    let mut at: usize = 0;
    assert(option_views(out@) =~= Seq::empty());
    assert(options_from(data@, 0) matches Some(rest) ==> Seq::empty() + rest =~= rest);
    while at < data.len()
        invariant
            at <= data@.len(),
            options_from(data@, 0) == (match options_from(data@, at as int) {
                Some(rest) => Some(option_views(out@) + rest),
                None => None,
            }),
        decreases data@.len() - at,
    {
        if data.len() - at < 4 {
            return None;
        }
        let code = wire::read_u16(data, at);
        let len: usize = wire::read_u16(data, at + 2) as usize;
        if data.len() - at - 4 < len {
            return None;
        }
        let ghost before = option_views(out@);
        let ghost next = at + 4 + len;
        let option = DnsEdnsOption { code, data: wire::part(data, at + 4, at + 4 + len) };
        let ghost v = option@;
        out.push(option);
        assert(option_views(out@) =~= before.push(v));
        assert(options_from(data@, next) matches Some(rest) ==> before + (seq![v] + rest)
            =~= option_views(out@) + rest);
        at = at + 4 + len;
    }
    assert(option_views(out@) + Seq::<OptionV>::empty() =~= option_views(out@));
    Some(out)
}

/// Finds the OPT record of a packet.
fn find_opt(packet: &[u8]) -> (r: Option<DnsRr>)
    ensures
        opt_rr(packet@) == (match r {
            Some(v) => Some(v@),
            None => None,
        }),
        r matches Some(v) ==> v.start + 11 <= v.rdata <= v.end <= packet@.len(),
{
    proof {
        lemma_opt_rr(packet@);
    }
    let header = match wire::parse_header(packet) {
        None => {
            return None;
        },
        Some(h) => h,
    };
    let start = match rr::skip_to_additional(packet, header) {
        None => {
            return None;
        },
        Some(s) => s,
    };
    let (list, _) = rr::read_rrs(packet, start, header.arcount);
    let ghost spec_list = rr::additionals(packet@);
    assert(rr::rrs(list@) == spec_list);
    let mut i: usize = 0;
    while i < list.len()
        invariant
            i <= list.len(),
            spec_list == rr::rrs(list@),
            spec_list == rr::additionals(packet@),
            packet@.len() >= 12,
            forall|k: int| 0 <= k < i ==> (#[trigger] spec_list[k]).rr_type != DNS_TYPE_OPT,
            opt_rr(packet@) matches Some(r) ==> 0 <= r.start && r.start + 11 <= r.rdata <= r.end
                <= packet@.len(),
        decreases list.len() - i,
    {
        assert(spec_list[i as int] == list@[i as int]@);
        if list[i].rr_type == DNS_TYPE_OPT {
            proof {
                lemma_first_opt(spec_list, i as int);
            }
            return Some(list[i]);
        }
        i += 1;
    }
    proof {
        lemma_first_opt(spec_list, i as int);
    }
    None
}

/// What the OPT record of a packet says.
pub fn extract_edns_opt(packet: &[u8]) -> (r: Option<DnsEdnsOpt>)
    ensures
        edns(packet@) == (match r {
            Some(v) => Some(v@),
            None => None,
        }),
{
    match find_opt(packet) {
        None => None,
        Some(v) => match parse_edns_options(slice_subrange(packet, v.rdata, v.end)) {
            None => None,
            Some(options) => Some(
                DnsEdnsOpt {
                    udp_payload_size: v.rr_class,
                    extended_rcode: (v.ttl / 0x100_0000) as u8,
                    version: (v.ttl / 0x1_0000 % 256) as u8,
                    flags: (v.ttl % 0x1_0000) as u16,
                    options,
                },
            ),
        },
    }
}

/// The bytes of the OPT record of a packet.
pub fn extract_opt_record_bytes(packet: &[u8]) -> (r: Option<Vec<u8>>)
    ensures
        opt_bytes(packet@) == bytes_view(r),
        r matches Some(v) ==> v@.len() >= 11,
{
    match find_opt(packet) {
        None => None,
        Some(v) => Some(wire::part(packet, v.start, v.end)),
    }
}

/// Builds an OPT record.
pub fn build_edns_opt_record(
    udp_payload_size: u16,
    extended_rcode: u8,
    version: u8,
    flags: u16,
    options: &[DnsEdnsOption],
) -> (r: Vec<u8>)
    ensures
        r@ == opt_record(
            (EdnsV {
                udp_payload_size,
                extended_rcode,
                version,
                flags,
                options: option_views(options@),
            }),
        ),
{
    let mut data: Vec<u8> = Vec::new();
    let mut i: usize = 0;
    assert(option_views(options@.take(0)) =~= Seq::empty());
    while i < options.len()
        invariant
            i <= options.len(),
            data@ == options_bytes(option_views(options@.take(i as int))),
        decreases options.len() - i,
    {
        let ghost before = option_views(options@.take(i as int));
        let ghost after = option_views(options@.take(i + 1));
        assert(after.drop_last() =~= before);
        assert(after.last() == options@[i as int]@);
        let option = &options[i];
        let ghost start = data@;
        wire::push_u16(&mut data, option.code);
        wire::push_u16(&mut data, (option.data.len() % 65536) as u16);
        wire::push_bytes(&mut data, option.data.as_slice());
        assert(data@ =~= options_bytes(after));
        i += 1;
    }
    assert(options@.take(i as int) =~= options@);
    let mut record: Vec<u8> = Vec::new();
    record.push(0);
    wire::push_u16(&mut record, DNS_TYPE_OPT);
    wire::push_u16(&mut record, udp_payload_size);
    record.push(extended_rcode);
    record.push(version);
    wire::push_u16(&mut record, flags);
    wire::push_u16(&mut record, (data.len() % 65536) as u16);
    wire::push_bytes(&mut record, data.as_slice());
    assert(record@ =~= opt_record(
        EdnsV {
            udp_payload_size,
            extended_rcode,
            version,
            flags,
            options: option_views(options@),
        },
    ));
    record
}

/// Appends a record to the additional section.
fn append_additional(packet: &mut Vec<u8>, record: &[u8]) -> (r: Option<()>)
    ensures
        r is Some <==> with_additional(old(packet)@, record@) is Some,
        final(packet)@ == (match with_additional(old(packet)@, record@) {
            Some(p) => p,
            None => old(packet)@,
        }),
{
    let header = match wire::parse_header(packet.as_slice()) {
        None => {
            return None;
        },
        Some(h) => h,
    };
    if header.arcount == u16::MAX {
        return None;
    }
    wire::push_bytes(packet, record);
    wire::put_u16(packet, 10, header.arcount + 1);
    Some(())
}

/// Appends an OPT record without options.
pub fn append_edns_opt(packet: &mut Vec<u8>, udp_payload_size: u16, flags: u16) -> (r: Option<()>)
    ensures
        ({
            let out = with_additional(
                old(packet)@,
                opt_record(
                    EdnsV {
                        udp_payload_size,
                        extended_rcode: 0,
                        version: 0,
                        flags,
                        options: Seq::empty(),
                    },
                ),
            );
            &&& r is Some <==> out is Some
            &&& final(packet)@ == (if out is Some {
                out->0
            } else {
                old(packet)@
            })
        }),
{
    append_edns_opt_with_rcode(packet, udp_payload_size, 0, 0, flags)
}

/// Appends an OPT record without options.
pub fn append_edns_opt_with_rcode(
    packet: &mut Vec<u8>,
    udp_payload_size: u16,
    extended_rcode: u8,
    version: u8,
    flags: u16,
) -> (r: Option<()>)
    ensures
        ({
            let out = with_additional(
                old(packet)@,
                opt_record(
                    EdnsV {
                        udp_payload_size,
                        extended_rcode,
                        version,
                        flags,
                        options: Seq::empty(),
                    },
                ),
            );
            &&& r is Some <==> out is Some
            &&& final(packet)@ == (if out is Some {
                out->0
            } else {
                old(packet)@
            })
        }),
{
    let none: Vec<DnsEdnsOption> = Vec::new();
    assert(option_views(none@) =~= Seq::empty());
    append_edns_opt_with_options(
        packet,
        udp_payload_size,
        extended_rcode,
        version,
        flags,
        none.as_slice(),
    )
}

/// Appends an OPT record.
pub fn append_edns_opt_with_options(
    packet: &mut Vec<u8>,
    udp_payload_size: u16,
    extended_rcode: u8,
    version: u8,
    flags: u16,
    options: &[DnsEdnsOption],
) -> (r: Option<()>)
    ensures
        ({
            let out = with_additional(
                old(packet)@,
                opt_record(
                    EdnsV {
                        udp_payload_size,
                        extended_rcode,
                        version,
                        flags,
                        options: option_views(options@),
                    },
                ),
            );
            &&& r is Some <==> out is Some
            &&& final(packet)@ == (if out is Some {
                out->0
            } else {
                old(packet)@
            })
        }),
{
    let record = build_edns_opt_record(udp_payload_size, extended_rcode, version, flags, options);
    append_additional(packet, record.as_slice())
}

/// Appends the request's OPT record to a response with `response_rcode`.
pub fn maybe_append_request_edns_opt_with_rcode(
    request: &[u8],
    response: &mut Vec<u8>,
    response_rcode: u16,
) -> (r: Option<()>)
    ensures
        r is Some <==> with_request_opt(request@, old(response)@, response_rcode) is Some,
        final(response)@ == echo_opt(request@, old(response)@, response_rcode),
{
    match extract_opt_record_bytes(request) {
        None => None,
        Some(mut opt) => {
            opt[5] = (response_rcode / 16 % 256) as u8;
            opt[6] = 0;
            append_additional(response, opt.as_slice())
        },
    }
}

/// Appends the request's OPT record.
pub fn clone_edns_opt_from_request(request: &[u8], packet: &mut Vec<u8>) -> (r: Option<()>)
    ensures
        r is Some <==> with_request_opt(request@, old(packet)@, 0) is Some,
        final(packet)@ == echo_opt(request@, old(packet)@, 0),
{
    maybe_append_request_edns_opt_with_rcode(request, packet, 0)
}

/// Copies everything before the additional section and its records other than OPT; also tells
/// how many those are.
fn copy_without_opt(packet: &[u8], header: DnsHeader) -> (r: Option<(Vec<u8>, u16, bool)>)
    requires
        packet@.len() >= 12,
        header == wire::header(packet@),
    ensures
        r is Some <==> additional_end(packet@) is Some,
        r matches Some((out, count, removed)) ==> {
            &&& out@ == stripped_body(packet@)
            &&& out@.len() >= 12
            &&& count == without_opt(rr::additionals(packet@)).len()
            &&& removed == (first_opt(rr::additionals(packet@)) is Some)
        },
{
    let start = match rr::skip_to_additional(packet, header) {
        None => {
            return None;
        },
        Some(s) => s,
    };
    let (list, end) = rr::read_rrs(packet, start, header.arcount);
    if end.is_none() {
        return None;
    }
    let ghost p = packet@;
    let ghost all = rr::additionals(p);
    let ghost pred = |r: rr::Rr| r.rr_type != DNS_TYPE_OPT;
    assert(rr::rrs(list@) == all);
    let mut out = wire::part(packet, 0, start);
    assert(out@ =~= p.take(start as int));
    let mut count: u16 = 0;
    let mut removed = false;
    let mut i: usize = 0;
    assert(all.take(0) =~= Seq::empty());
    assert(out@ =~= p.take(start as int) + rr_bytes(p, without_opt(all.take(0)))) by {
        reveal(Seq::filter);
    }
    assert(without_opt(all.take(0)).len() == 0) by {
        reveal(Seq::filter);
    }
    while i < list.len()
        invariant
            i <= list.len(),
            list@.len() == header.arcount,
            p == packet@,
            12 <= start <= p.len(),
            all == rr::rrs(list@),
            pred == (|r: rr::Rr| r.rr_type != DNS_TYPE_OPT),
            forall|k: int|
                0 <= k < list@.len() ==> start <= (#[trigger] list@[k]).start < list@[k].rdata
                    <= list@[k].end <= p.len(),
            out@ == p.take(start as int) + rr_bytes(p, without_opt(all.take(i as int))),
            out@.len() >= 12,
            count == without_opt(all.take(i as int)).len(),
            count <= i,
            removed == exists|k: int| 0 <= k < i && (#[trigger] all[k]).rr_type == DNS_TYPE_OPT,
        decreases list.len() - i,
    {
        let v = list[i];
        assert(all[i as int] == v@);
        let ghost before = all.take(i as int);
        assert(all.take(i + 1) =~= before.push(v@));
        proof {
            before.lemma_filter_push(v@, pred);
            before.lemma_filter_len(pred);
        }
        if v.rr_type == DNS_TYPE_OPT {
            removed = true;
        } else {
            let ghost kept = without_opt(before);
            let ghost start_bytes = out@;
            wire::push_bytes(&mut out, slice_subrange(packet, v.start, v.end));
            assert(kept.push(v@).drop_last() =~= kept);
            assert(out@ =~= p.take(start as int) + rr_bytes(p, kept.push(v@)));
            count += 1;
        }
        i += 1;
    }
    assert(all.take(i as int) =~= all);
    proof {
        if removed {
            let k = choose|k: int| 0 <= k < all.len() && (#[trigger] all[k]).rr_type == DNS_TYPE_OPT;
            lemma_has_opt(all, k);
        } else {
            lemma_first_opt(all, all.len() as int);
        }
    }
    Some((out, count, removed))
}

proof fn lemma_has_opt(list: Seq<rr::Rr>, k: int)
    requires
        0 <= k < list.len(),
        list[k].rr_type == DNS_TYPE_OPT,
    ensures
        first_opt(list) is Some,
    decreases k,
{
    if k > 0 {
        assert(list.drop_first()[k - 1] == list[k]);
        lemma_has_opt(list.drop_first(), k - 1);
    }
}

/// A packet without its OPT records.
pub fn strip_edns_opt_from_request(packet: &[u8]) -> (r: Option<Vec<u8>>)
    ensures
        bytes_view(r) == stripped(packet@),
{
    let header = match wire::parse_header(packet) {
        None => {
            return None;
        },
        Some(h) => h,
    };
    match copy_without_opt(packet, header) {
        None => None,
        Some((mut out, count, removed)) => {
            if removed {
                wire::put_u16(&mut out, 10, count);
                Some(out)
            } else {
                Some(slice_to_vec(packet))
            }
        },
    }
}

/// The response with its OPT record made to answer the request's.
pub fn align_response_edns_to_request(response: &[u8], request: &[u8]) -> (r: Option<Vec<u8>>)
    ensures
        bytes_view(r) == aligned(response@, request@),
{
    let request_edns = extract_edns_opt(request);
    let response_edns = extract_edns_opt(response);
    if request_edns.is_none() && response_edns.is_none() {
        return Some(slice_to_vec(response));
    }
    let header = match wire::parse_header(response) {
        None => {
            return None;
        },
        Some(h) => h,
    };
    match copy_without_opt(response, header) {
        None => None,
        Some((mut out, count, _)) => {
            match request_edns {
                None => {
                    wire::put_u16(&mut out, 10, count);
                    Some(out)
                },
                Some(q) => {
                    if count == u16::MAX {
                        return None;
                    }
                    let record = match response_edns {
                        Some(a) => build_edns_opt_record(
                            q.udp_payload_size,
                            a.extended_rcode,
                            0,
                            q.flags,
                            a.options.as_slice(),
                        ),
                        None => {
                            let none: Vec<DnsEdnsOption> = Vec::new();
                            assert(option_views(none@) =~= Seq::empty());
                            build_edns_opt_record(
                                q.udp_payload_size,
                                0,
                                0,
                                q.flags,
                                none.as_slice(),
                            )
                        },
                    };
                    wire::push_bytes(&mut out, record.as_slice());
                    wire::put_u16(&mut out, 10, count + 1);
                    Some(out)
                },
            }
        },
    }
}

/// The data of the packet's first EDNS option with `code`.
pub fn extract_edns_option(packet: &[u8], code: u16) -> (r: Option<Vec<u8>>)
    ensures
        bytes_view(r) == edns_option(packet@, code),
{
    let opt = match extract_edns_opt(packet) {
        None => {
            return None;
        },
        Some(opt) => opt,
    };
    let options = opt.options;
    let ghost spec_options = option_views(options@);
    let mut i: usize = 0;
    assert(spec_options.skip(0) =~= spec_options);
    while i < options.len()
        invariant
            i <= options.len(),
            spec_options == option_views(options@),
            option_data(spec_options, code) == option_data(spec_options.skip(i as int), code),
            edns_option(packet@, code) == option_data(spec_options, code),
        decreases options.len() - i,
    {
        assert(spec_options.skip(i as int)[0] == options@[i as int]@);
        assert(spec_options.skip(i as int).drop_first() =~= spec_options.skip(i + 1));
        if options[i].code == code {
            return Some(slice_to_vec(options[i].data.as_slice()));
        }
        i += 1;
    }
    None
}

/// The name server identifier option.
pub fn extract_edns_nsid(packet: &[u8]) -> (r: Option<Vec<u8>>)
    ensures
        bytes_view(r) == edns_option(packet@, DNS_EDNS_OPTION_NSID),
{
    extract_edns_option(packet, DNS_EDNS_OPTION_NSID)
}

/// The cookie option: eight bytes of the client, and the rest from the server.
pub fn extract_edns_cookie(packet: &[u8]) -> (r: Option<(Vec<u8>, Option<Vec<u8>>)>)
    ensures
        (match r {
            Some((client, server)) => Some((client@, bytes_view(server))),
            None => None,
        }) == (match edns_option(packet@, DNS_EDNS_OPTION_COOKIE) {
            None => None,
            Some(data) => if data.len() < 8 {
                None
            } else if data.len() == 8 {
                Some((data, None))
            } else {
                Some((data.take(8), Some(data.skip(8))))
            },
        }),
{
    let data = match extract_edns_option(packet, DNS_EDNS_OPTION_COOKIE) {
        None => {
            return None;
        },
        Some(data) => data,
    };
    if data.len() < 8 {
        return None;
    }
    let client = wire::part(data.as_slice(), 0, 8);
    assert(client@ =~= data@.take(8));
    if data.len() > 8 {
        let server = wire::part(data.as_slice(), 8, data.len());
        assert(server@ =~= data@.skip(8));
        Some((client, Some(server)))
    } else {
        assert(client@ =~= data@);
        Some((client, None))
    }
}

/// The client subnet option.
pub fn extract_edns_client_subnet(packet: &[u8]) -> (r: Option<DnsEdnsClientSubnet>)
    ensures
        r is Some <==> (edns_option(packet@, DNS_EDNS_OPTION_CLIENT_SUBNET) matches Some(data)
            && data.len() >= 4),
        r matches Some(v) ==> {
            let data = edns_option(packet@, DNS_EDNS_OPTION_CLIENT_SUBNET)->0;
            &&& v.family == wire::be16(data, 0)
            &&& v.source_prefix == data[2]
            &&& v.scope_prefix == data[3]
            &&& v.address@ == data.skip(4)
        },
{
    let data = match extract_edns_option(packet, DNS_EDNS_OPTION_CLIENT_SUBNET) {
        None => {
            return None;
        },
        Some(data) => data,
    };
    if data.len() < 4 {
        return None;
    }
    let address = wire::part(data.as_slice(), 4, data.len());
    assert(address@ =~= data@.skip(4));
    Some(
        DnsEdnsClientSubnet {
            family: wire::read_u16(data.as_slice(), 0),
            source_prefix: data[2],
            scope_prefix: data[3],
            address,
        },
    )
}

/// Whether the request's EDNS version is one that is answered: it has none, or version zero.
pub fn edns_version_supported(packet: &[u8]) -> (r: bool)
    ensures
        r == (edns(packet@) matches Some(e) ==> e.version == 0),
{
    match extract_edns_opt(packet) {
        Some(opt) => opt.version == 0,
        None => true,
    }
}

/// Whether the DNSSEC OK flag is set.
pub fn dnssec_ok_requested(packet: &[u8]) -> (r: bool)
    ensures
        r == (edns(packet@) matches Some(e) && e.flags & DNS_EDNS_FLAG_DO != 0),
{
    match extract_edns_opt(packet) {
        Some(opt) => opt.flags & DNS_EDNS_FLAG_DO != 0,
        None => false,
    }
}

/// The size of the largest UDP response that the requester takes: what its OPT record says, but
/// no less than 512, and 4096 without one.
pub open spec fn udp_limit(p: Seq<u8>) -> nat {
    match edns(p) {
        Some(e) => if e.udp_payload_size < 512 {
            512
        } else {
            e.udp_payload_size as nat
        },
        None => 4096,
    }
}

pub fn udp_payload_size_for_request(packet: &[u8]) -> (r: usize)
    ensures
        r == udp_limit(packet@),
{
    match extract_edns_opt(packet) {
        Some(opt) => if opt.udp_payload_size < 512 {
            512
        } else {
            opt.udp_payload_size as usize
        },
        None => 4096,
    }
}

} // verus!
