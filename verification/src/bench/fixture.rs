//! The servers that answer the benchmark.
use crate::codec::wire;
use crate::text;
use data_encoding::BASE64;
use vstd::prelude::*;
use vstd::slice::*;
use vstd::utf8::*;

verus! {

/// Where the labels that start at `off` end, behind the root label; pointers are not followed.
pub open spec fn labels_end(p: Seq<u8>, off: int) -> Option<int>
    decreases p.len() - off,
{
    if off < 0 || off >= p.len() {
        None
    } else if p[off] == 0 {
        Some(off + 1)
    } else if off + 1 + p[off] > p.len() {
        None
    } else {
        labels_end(p, off + 1 + p[off])
    }
}

/// Where the first question ends.
pub open spec fn end_of_question(p: Seq<u8>) -> Option<int> {
    match labels_end(p, 12) {
        None => None,
        Some(e) => if e + 4 > p.len() {
            None
        } else {
            Some(e + 4)
        },
    }
}

/// The labels that start at `off`, as texts.
pub open spec fn text_labels(p: Seq<u8>, off: int) -> Option<Seq<Seq<char>>>
    decreases p.len() - off,
{
    if off < 0 || off >= p.len() {
        None
    } else if p[off] == 0 {
        Some(Seq::empty())
    } else if off + 1 + p[off] > p.len() {
        None
    } else {
        let label = p.subrange(off + 1, off + 1 + p[off]);
        if !valid_utf8(label) {
            None
        } else {
            match text_labels(p, off + 1 + p[off]) {
                None => None,
                Some(rest) => Some(seq![decode_utf8(label)] + rest),
            }
        }
    }
}

/// The name of the first question.
pub open spec fn question_name(p: Seq<u8>) -> Option<Seq<char>> {
    if p.len() < 12 {
        None
    } else {
        match text_labels(p, 12) {
            None => None,
            Some(labels) => Some(text::join_dots(labels)),
        }
    }
}

/// The name of the first question of a packet.
pub fn parse_first_question_name(packet: &[u8]) -> (r: Option<String>)
    ensures
        (match r {
            Some(s) => Some(s@),
            None => None,
        }) == question_name(packet@),
{
    if packet.len() < 12 {
        return None;
    }
    let ghost p = packet@;
    let mut labels: Vec<String> = Vec::new();
    let mut at: usize = 12;
    assert(text::views(labels@) =~= Seq::empty());
    assert(match text_labels(p, 12) {
        Some(rest) => Seq::<Seq<char>>::empty() + rest =~= rest,
        None => true,
    });
    loop
        invariant
            p == packet@,
            p.len() >= 12,
            12 <= at <= packet@.len(),
            text_labels(p, 12) == (match text_labels(p, at as int) {
                Some(rest) => Some(text::views(labels@) + rest),
                None => None,
            }),
        decreases packet@.len() - at,
    {
        if at >= packet.len() {
            return None;
        }
        let len = packet[at];
        if len == 0 {
            assert(text::views(labels@) + Seq::<Seq<char>>::empty() =~= text::views(labels@));
            return Some(text::join(&labels));
        }
        if len as usize > packet.len() - at - 1 {
            return None;
        }
        match text::utf8_text(slice_subrange(packet, at + 1, at + 1 + len as usize)) {
            None => {
                return None;
            },
            Some(label) => {
                let ghost before = text::views(labels@);
                let ghost next = text_labels(p, at + 1 + len);
                labels.push(label);
                assert(text::views(labels@) =~= before.push(label@));
                assert(next matches Some(rest) ==> before + (seq![label@] + rest) =~= before.push(
                    label@,
                ) + rest);
                at = at + 1 + len as usize;
            },
        }
    }
}

/// Where the first question of a packet ends.
pub fn question_end(packet: &[u8]) -> (r: Option<usize>)
    ensures
        end_of_question(packet@) == (match r {
            Some(e) => Some(e as int),
            None => None,
        }),
        r matches Some(e) ==> 12 < e <= packet@.len(),
{
    let ghost p = packet@;
    let mut at: usize = 12;
    loop
        invariant
            p == packet@,
            12 <= at,
            at <= packet@.len() || at == 12,
            labels_end(p, 12) == labels_end(p, at as int),
        decreases packet@.len() - at,
    {
        if at >= packet.len() {
            return None;
        }
        let len = packet[at];
        if len == 0 {
            if packet.len() - at < 5 {
                return None;
            }
            return Some(at + 5);
        }
        if len as usize > packet.len() - at - 1 {
            return None;
        }
        at = at + 1 + len as usize;
    }
}

/// The bytes of labels, empty ones left out.
pub open spec fn name_labels(labels: Seq<Seq<char>>) -> Seq<u8>
    decreases labels.len(),
{
    if labels.len() == 0 {
        Seq::empty()
    } else {
        let bytes = encode_utf8(labels.last());
        let before = name_labels(labels.drop_last());
        if bytes.len() == 0 {
            before
        } else {
            before.push((bytes.len() % 256) as u8) + bytes
        }
    }
}

/// The bytes of a name.
pub open spec fn plain_name(name: Seq<char>) -> Seq<u8> {
    name_labels(text::split(name, '.')) + seq![0u8]
}

/// Appends a name.
pub fn append_name(out: &mut Vec<u8>, name: &str)
    ensures
        final(out)@ == old(out)@ + plain_name(name@),
{
    let ghost start = out@;
    let labels = text::split_chars(text::chars_of(name).as_slice(), '.');
    let ghost all = text::char_views(labels@);
    let mut i: usize = 0;
    assert(all.take(0).len() == 0);
    assert(start + Seq::<u8>::empty() =~= start);
    while i < labels.len()
        invariant
            i <= labels@.len(),
            all == text::char_views(labels@),
            start == old(out)@,
            out@ == start + name_labels(all.take(i as int)),
        decreases labels@.len() - i,
    {
        let ghost done = name_labels(all.take(i as int));
        assert(all.take(i + 1).drop_last() =~= all.take(i as int));
        assert(all.take(i + 1).last() == labels@[i as int]@);
        let label = text::string_of(labels[i].as_slice());
        let bytes = label.as_str().as_bytes();
        assert(bytes@ == encode_utf8(labels@[i as int]@));
        if bytes.len() > 0 {
            out.push((bytes.len() % 256) as u8);
            wire::push_bytes(out, bytes);
            assert(out@ =~= start + (done.push((bytes@.len() % 256) as u8) + bytes@));
        }
        i = i + 1;
    }
    assert(all.take(i as int) =~= all);
    out.push(0);
    assert(out@ =~= start + plain_name(name@));
}

/// The head of a response to a request, with the question repeated.
pub open spec fn response_start(request: Seq<u8>, answers: u16, authorities: u16) -> Seq<u8> {
    let end = match end_of_question(request) {
        Some(e) => e,
        None => request.len() as int,
    };
    request.take(2) + wire::bytes16(0x8180) + wire::bytes16(1) + wire::bytes16(answers)
        + wire::bytes16(authorities) + wire::bytes16(0) + request.subrange(12, end)
}

/// A response with one address, which is good for thirty seconds.
pub open spec fn address_response(request: Seq<u8>, ip: Seq<u8>) -> Seq<u8> {
    response_start(request, 1, 0) + seq![0xC0u8, 0x0Cu8] + wire::bytes16(1) + wire::bytes16(1)
        + wire::bytes32(30) + wire::bytes16(4) + ip
}

/// A response that refers to the name server of a zone.
pub open spec fn referral_response(request: Seq<u8>, zone: Seq<char>, ns_host: Seq<char>) -> Seq<
    u8,
> {
    response_start(request, 0, 1) + plain_name(zone) + wire::bytes16(2) + wire::bytes16(1)
        + wire::bytes32(30) + wire::bytes16((plain_name(ns_host).len() % 65536) as u16)
        + plain_name(ns_host)
}

fn start_response(request: &[u8], answers: u16, authorities: u16) -> (r: Vec<u8>)
    requires
        request@.len() >= 12,
    ensures
        r@ == response_start(request@, answers, authorities),
{
    let end: usize = match question_end(request) {
        Some(e) => e,
        None => request.len(),
    };
    let mut out: Vec<u8> = Vec::new();
    out.push(request[0]);
    out.push(request[1]);
    assert(out@ =~= request@.take(2));
    wire::push_u16(&mut out, 0x8180);
    wire::push_u16(&mut out, 1);
    wire::push_u16(&mut out, answers);
    wire::push_u16(&mut out, authorities);
    wire::push_u16(&mut out, 0);
    wire::push_bytes(&mut out, slice_subrange(request, 12, end));
    out
}

/// A response with one address.
pub fn build_answer_a_response(request: &[u8], ip: [u8; 4]) -> (r: Vec<u8>)
    requires
        request@.len() >= 12,
    ensures
        r@ == address_response(request@, ip@),
{
    let mut out = start_response(request, 1, 0);
    let ghost start = out@;
    out.push(0xC0);
    out.push(0x0C);
    assert(out@ =~= start + seq![0xC0u8, 0x0Cu8]);
    wire::push_u16(&mut out, 1);
    wire::push_u16(&mut out, 1);
    wire::push_u32(&mut out, 30);
    wire::push_u16(&mut out, 4);
    let ghost before = out@;
    out.push(ip[0]);
    out.push(ip[1]);
    out.push(ip[2]);
    out.push(ip[3]);
    assert(out@ =~= before + ip@);
    out
}

/// A response without records.
pub fn build_empty_noerror_response(request: &[u8]) -> (r: Vec<u8>)
    requires
        request@.len() >= 12,
    ensures
        r@ == response_start(request@, 0, 0),
{
    start_response(request, 0, 0)
}

/// A response that refers to the name server of a zone.
pub fn build_referral_response(request: &[u8], zone: &str, ns_host: &str) -> (r: Vec<u8>)
    requires
        request@.len() >= 12,
    ensures
        r@ == referral_response(request@, zone@, ns_host@),
{
    let mut out = start_response(request, 0, 1);
    append_name(&mut out, zone);
    wire::push_u16(&mut out, 2);
    wire::push_u16(&mut out, 1);
    wire::push_u32(&mut out, 30);
    let mut data: Vec<u8> = Vec::new();
    append_name(&mut data, ns_host);
    assert(data@ =~= plain_name(ns_host@));
    wire::push_u16(&mut out, (data.len() % 65536) as u16);
    wire::push_bytes(&mut out, data.as_slice());
    out
}

/// What the root server of the benchmark answers to its `count`-th request: every fifth is empty,
/// the others refer to the zone of the benchmark.
pub fn root_answer(request: &[u8], count: u64) -> (r: Vec<u8>)
    requires
        request@.len() >= 12,
    ensures
        r@ == (if count % 5 == 0 {
            response_start(request@, 0, 0)
        } else {
            referral_response(request@, "bench.test"@, "ns1.bench.test"@)
        }),
{
    if count % 5 == 0 {
        build_empty_noerror_response(request)
    } else {
        build_referral_response(request, "bench.test", "ns1.bench.test")
    }
}

/// Whether a request asks for the name server of the zone of the benchmark.
pub open spec fn asks_for_server(request: Seq<u8>) -> bool {
    match question_name(request) {
        Some(name) => text::lower(name) == text::lower("ns1.bench.test"@),
        None => false,
    }
}

/// What the bootstrap server of the benchmark answers.
pub fn bootstrap_answer(request: &[u8]) -> (r: Vec<u8>)
    requires
        request@.len() >= 12,
    ensures
        r@ == address_response(
            request@,
            if asks_for_server(request@) {
                seq![127u8, 0, 0, 1]
            } else {
                seq![203u8, 0, 113, 30]
            },
        ),
{
    let found = match parse_first_question_name(request) {
        Some(name) => text::same_fold(name.as_str(), "ns1.bench.test"),
        None => false,
    };
    proof {
        reveal_strlit("ns1.bench.test");
    }
    if found {
        let ip: [u8; 4] = [127, 0, 0, 1];
        assert(ip@ =~= seq![127u8, 0, 0, 1]);
        build_answer_a_response(request, ip)
    } else {
        let ip: [u8; 4] = [203, 0, 113, 30];
        assert(ip@ =~= seq![203u8, 0, 113, 30]);
        build_answer_a_response(request, ip)
    }
}

/// The sets of records that the signing server of the benchmark can answer with.
#[derive(Debug, Clone, Copy, PartialEq, Eq, Structural)]
pub enum FixtureAnswer {
    Address,
    ChildKeys,
    ChildDigests,
    ComKeys,
    ComDigests,
    RootKeys,
    Nothing,
}

/// What the signing server answers to a question.
pub open spec fn fixture_answer(qname: Seq<char>, qtype: u16) -> FixtureAnswer {
    if qtype == 1 && ".example.com."@.is_suffix_of(qname) {
        FixtureAnswer::Address
    } else if qname == "example.com."@ && qtype == 48 {
        FixtureAnswer::ChildKeys
    } else if qname == "example.com."@ && qtype == 43 {
        FixtureAnswer::ChildDigests
    } else if qname == "com."@ && qtype == 48 {
        FixtureAnswer::ComKeys
    } else if qname == "com."@ && qtype == 43 {
        FixtureAnswer::ComDigests
    } else if qname == "."@ && qtype == 48 {
        FixtureAnswer::RootKeys
    } else {
        FixtureAnswer::Nothing
    }
}

fn ends_with(s: &Vec<char>, end: &Vec<char>) -> (r: bool)
    ensures
        r == end@.is_suffix_of(s@),
{
    if end.len() > s.len() {
        return false;
    }
    let n: usize = s.len();
    let skip: usize = n - end.len();
    let mut i: usize = 0;
    while i < end.len()
        invariant
            i <= end@.len(),
            n == s@.len(),
            skip == n - end@.len(),
            forall|k: int| 0 <= k < i ==> end@[k] == s@[skip + k],
        decreases end@.len() - i,
    {
        if s[skip + i] != end[i] {
            assert(s@.subrange(skip as int, s@.len() as int)[i as int] == s@[skip + i]);
            return false;
        }
        i = i + 1;
    }
    assert(end@ =~= s@.subrange(skip as int, s@.len() as int));
    true
}

/// What the signing server answers to a question.
pub fn choose_answer(qname: &str, qtype: u16) -> (r: FixtureAnswer)
    ensures
        r == fixture_answer(qname@, qtype),
{
    if qtype == 1 && ends_with(&text::chars_of(qname), &text::chars_of(".example.com.")) {
        FixtureAnswer::Address
    } else if text::same(qname, "example.com.") && qtype == 48 {
        FixtureAnswer::ChildKeys
    } else if text::same(qname, "example.com.") && qtype == 43 {
        FixtureAnswer::ChildDigests
    } else if text::same(qname, "com.") && qtype == 48 {
        FixtureAnswer::ComKeys
    } else if text::same(qname, "com.") && qtype == 43 {
        FixtureAnswer::ComDigests
    } else if text::same(qname, ".") && qtype == 48 {
        FixtureAnswer::RootKeys
    } else {
        FixtureAnswer::Nothing
    }
}

/// The time for which a signature is good: from a minute ago for five minutes more.
pub open spec fn window(now: u32) -> (u32, u32) {
    (
        if now >= 60 {
            (now - 60) as u32
        } else {
            0
        },
        if now + 300 <= u32::MAX {
            (now + 300) as u32
        } else {
            u32::MAX
        },
    )
}

/// The time for which a signature is good.
pub fn dnssec_time_window(now: u32) -> (r: (u32, u32))
    ensures
        r == window(now),
{
    (now.saturating_sub(60), now.saturating_add(300))
}

/// The text that data-encoding gives for bytes in Base64 with padding.
pub uninterp spec fn base64_text(bytes: Seq<u8>) -> Seq<char>;

/// Calls `encode` of `data_encoding::BASE64`. The result is a function of the bytes.
#[verifier::external_body]
fn encode_base64(bytes: &Vec<u8>) -> (r: String)
    ensures
        r@ == base64_text(bytes@),
{
    BASE64.encode(bytes)
}

/// The line of a file of trust anchors for a key of the root zone.
pub open spec fn anchor_line(flags: u16, algorithm: u8, key_text: Seq<char>) -> Seq<char> {
    ". IN DNSKEY "@ + text::decimal(flags as nat) + " 3 "@ + text::decimal(algorithm as nat) + " "@
        + key_text + "\n"@
}

/// The line of a file of trust anchors for a key whose text is given.
pub fn write_anchor_line(flags: u16, algorithm: u8, key_text: &str) -> (r: String)
    ensures
        r@ == anchor_line(flags, algorithm, key_text@),
{
    let mut s = text::concat(". IN DNSKEY ", text::decimal_of(flags as u64).as_str());
    s.append(" 3 ");
    s.append(text::decimal_of(algorithm as u64).as_str());
    s.append(" ");
    s.append(key_text);
    s.append("\n");
    s
}

/// The line of a file of trust anchors for a key of the root zone.
pub fn dnssec_trust_anchor_line(flags: u16, algorithm: u8, public_key: &Vec<u8>) -> (r: String)
    ensures
        r@ == anchor_line(flags, algorithm, base64_text(public_key@)),
{
    write_anchor_line(flags, algorithm, encode_base64(public_key).as_str())
}

} // verus!
