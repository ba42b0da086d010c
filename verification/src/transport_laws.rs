//! What holds of the queries that the server takes in and of the checks and frames that it sends.
use crate::admin::requests;
use crate::codec::edns;
use crate::codec::respond::CodecError;
use crate::codec::query;
use crate::codec::respond;
use crate::codec::wire;
use crate::health::HealthCheckConfig;
use crate::context::Protocol;
use crate::control;
use crate::exchange;
use crate::exchange::ActionV;
use crate::exchange::EventV;
use crate::exchange::Source;
use crate::ingress;
use crate::ingress::HttpRefusal;
use crate::ip;
use crate::probe;
use crate::probe::ProbeKind;
use crate::text;
use crate::tls;
use crate::tls::KeyForm;
use crate::json_doc::JsonV;
use vstd::prelude::*;

verus! {

/// A packet that is too short for a header is never looked at further: over HTTP it is refused as
/// malformed, otherwise it is dropped without a word.
pub proof fn lemma_short_packets(protocol: Protocol, p: Seq<u8>)
    requires
        p.len() < 12,
    ensures
        ({
            let m = exchange::next_move(protocol, p, EventV::Arrived);
            &&& protocol is Doh ==> m.action == ActionV::Refuse(HttpRefusal::Malformed)
            &&& !(protocol is Doh) ==> m.action is Skip
            &&& m.note is None
        }),
{
}

/// A query goes on to the policy exactly where it has a whole header and names no version of EDNS
/// but zero; any other version is answered with BADVERS, or not at all.
pub proof fn lemma_only_version_zero_goes_on(protocol: Protocol, p: Seq<u8>)
    ensures
        ({
            let m = exchange::next_move(protocol, p, EventV::Arrived);
            let other = edns::edns(p) is Some && edns::edns(p)->0.version != 0;
            &&& m.action is Judge <==> p.len() >= 12 && !other
            &&& m.action is Send ==> other && m.note is Some && m.note->0.rcode == 16
                && m.note->0.source is Protocol && !m.note->0.success && m.note->0.measured
            &&& p.len() >= 12 && other && (wire::header(p).qdcount == 0
                || query::first_question(p) is Some) ==> m.action is Send
        }),
{
}

/// A query that the policy allows is resolved; one that it denies never is, and is answered with
/// the code of the denial.
pub proof fn lemma_policy_decides(protocol: Protocol, p: Seq<u8>, rcode: u16)
    ensures
        exchange::next_move(protocol, p, EventV::Judged(true, rcode)).action is Resolve,
        ({
            let m = exchange::next_move(protocol, p, EventV::Judged(false, rcode));
            &&& !(m.action is Resolve)
            &&& m.action is Send ==> m.note->0.rcode == rcode && m.note->0.source is Policy
                && !m.note->0.success && m.note->0.measured
            &&& p.len() >= 12 && (wire::header(p).qdcount == 0 || query::first_question(p) is Some)
                ==> m.action is Send
        }),
{
}

/// What the resolver gives is sent as it is, counts in the metrics, and counts as a success exactly
/// where its response code is zero.
pub proof fn lemma_resolved_is_sent(protocol: Protocol, p: Seq<u8>, packet: Seq<u8>)
    ensures
        ({
            let m = exchange::next_move(protocol, p, EventV::Resolved(Some(packet)));
            &&& m.action == ActionV::Send(packet)
            &&& m.note->0.source is Resolver && m.note->0.measured
            &&& packet.len() >= 12 ==> m.note->0.rcode == query::rcode_of(packet)
            &&& m.note->0.success <==> packet.len() >= 12 && query::rcode_of(packet) == 0
        }),
{
}

/// A resolution that fails is answered with SERVFAIL and never counts as a success; a stream stays
/// open even where no answer can be made.
pub proof fn lemma_failed_resolution(protocol: Protocol, p: Seq<u8>)
    ensures
        ({
            let m = exchange::next_move(protocol, p, EventV::Resolved(None));
            &&& m.note->0.rcode == 2 && !m.note->0.success && m.note->0.source is Failure
            &&& m.note->0.measured <==> protocol is Doh
            &&& !(m.action is Close)
            &&& p.len() >= 12 && (wire::header(p).qdcount == 0 || query::first_question(p) is Some)
                ==> m.action is Send
            &&& !(m.action is Send) ==> (m.action is Refuse <==> protocol is Doh)
        }),
{
}

/// A stream is closed over a refusal that cannot be written, and over nothing else.
pub proof fn lemma_closed_streams(protocol: Protocol, p: Seq<u8>, event: EventV)
    ensures
        ({
            let a = exchange::next_move(protocol, p, event).action;
            &&& a is Close ==> p.len() < 12 || (wire::header(p).qdcount > 0
                && query::first_question(p) is None)
            &&& a is Close ==> event is Arrived || (event is Judged && !event->Judged_0)
            &&& (protocol is Tcp || protocol is Dot) && p.len() < 12 && event is Judged
                && !event->Judged_0 ==> a == ActionV::Close(CodecError::PacketTooShort)
            &&& protocol is Udp && p.len() < 12 && event is Judged && !event->Judged_0 ==> a is Skip
            &&& protocol is Doh && p.len() < 12 && event is Judged && !event->Judged_0 ==> a
                == ActionV::Refuse(HttpRefusal::Unanswerable)
        }),
{
}

/// The transports have names of their own.
pub proof fn lemma_protocol_labels(a: Protocol, b: Protocol)
    ensures
        a.label() == b.label() ==> a == b,
        a.label().len() == 3,
{
    reveal_strlit("udp");
    reveal_strlit("tcp");
    reveal_strlit("dot");
    reveal_strlit("doh");
    assert("udp"@[0] == 'u' && "tcp"@[0] == 't' && "dot"@[0] == 'd' && "doh"@[0] == 'd');
    assert("dot"@[2] == 't' && "doh"@[2] == 'h');
}

/// What goes out for a query: what it was resolved to, or a failure, which never counts as a
/// success.
pub proof fn lemma_outgoing(p: Seq<u8>, packet: Seq<u8>)
    ensures
        ingress::answered(p, Some(packet)) is Ok,
        (ingress::answered(p, Some(packet))->Ok_0).0 == packet,
        (ingress::answered(p, Some(packet))->Ok_0).2 <==> packet.len() >= 12 && query::rcode_of(
            packet,
        ) == 0,
        packet.len() < 12 ==> (ingress::answered(p, Some(packet))->Ok_0).1 == 2,
        ingress::answered(p, None) is Ok ==> !(ingress::answered(p, None)->Ok_0).2,
        p.len() >= 12 && wire::header(p).qdcount == 0 ==> ingress::answered(p, None) is Ok,
{
}

/// What is refused over HTTP is refused with a status of its own kind: a wrong content type with
/// 415, what the client did wrong with 400, what the server cannot do with 500.
pub proof fn lemma_http_statuses(e: HttpRefusal)
    ensures
        e.status_code() == 415 <==> e is WrongContentType,
        e.status_code() == 500 <==> e is Unanswerable,
        e.status_code() == 400 <==> e is MissingParameter || e is InvalidParameter || e is Malformed,
{
}

/// A GET request is refused where it has no query, and where the query cannot be decoded.
pub proof fn lemma_get_query(s: Seq<char>)
    ensures
        ingress::get_query(None) == Err::<Seq<u8>, HttpRefusal>(HttpRefusal::MissingParameter),
        ingress::get_query(Some(s)) == (match ingress::base64url_bytes(s) {
            Some(b) => Ok::<Seq<u8>, HttpRefusal>(b),
            None => Err::<Seq<u8>, HttpRefusal>(HttpRefusal::InvalidParameter),
        }),
{
}

/// The body of a POST request counts as a query exactly where its content type begins with that of
/// DNS messages, whatever parameters follow.
pub proof fn lemma_post_accepted(rest: Seq<char>, other: Seq<char>)
    ensures
        ingress::post_accepted(Some("application/dns-message"@ + rest)),
        !ingress::post_accepted(None),
        ingress::post_accepted(Some(other)) ==> exists|r: Seq<char>|
            other == #[trigger] ("application/dns-message"@ + r),
{
    let prefix = "application/dns-message"@;
    assert((prefix + rest).take(prefix.len() as int) =~= prefix);
    if ingress::post_accepted(Some(other)) {
        let r = other.skip(prefix.len() as int);
        assert(other =~= prefix + r);
    }
}

/// An answer on a stream stands behind two bytes that give its length, the higher one first.
pub proof fn lemma_stream_frames(p: Seq<u8>)
    requires
        p.len() <= 65535,
    ensures
        ingress::stream_frame(p).len() == p.len() + 2,
        ingress::stream_frame(p)[0] * 256 + ingress::stream_frame(p)[1] == p.len(),
        ingress::stream_frame(p).skip(2) == p,
{
    assert(ingress::stream_frame(p).skip(2) =~= p);
}

/// A check goes over HTTP or HTTPS where the settings say so in letters of any case, and is a mere
/// connection otherwise.
pub proof fn lemma_probe_kinds(mode: Seq<char>)
    ensures
        probe::kind_of(mode) is Https <==> text::lower(mode) == text::lower("https"@),
        probe::kind_of(mode) is Http <==> text::lower(mode) == text::lower("http"@),
        probe::kind_of("tcp"@) is Tcp,
{
    reveal_strlit("http");
    reveal_strlit("https");
    reveal_strlit("tcp");
    assert(text::lower("http"@).len() == 4 && text::lower("https"@).len() == 5 && text::lower(
        "tcp"@,
    ).len() == 3);
}

/// A check asks for the host of the settings where they name one, and for the address otherwise;
/// it asks for a path from the root on.
pub proof fn lemma_probe_target(c: HealthCheckConfig, ip: Seq<char>)
    ensures
        c.http_host_header is None ==> probe::probe_host(c, ip) == ip,
        c.http_host_header is Some && text::trim(c.http_host_header->0@).len() > 0
            ==> probe::probe_host(c, ip) == c.http_host_header->0@,
        c.http_host_header is Some && text::trim(c.http_host_header->0@).len() == 0
            ==> probe::probe_host(c, ip) == ip,
        probe::probe_path(c).len() > 0 && probe::probe_path(c)[0] == '/',
        c.http_path@.len() > 0 && c.http_path@[0] == '/' ==> probe::probe_path(c) == c.http_path@,
        c.http_path@.len() == 0 ==> probe::probe_path(c) == seq!['/'],
        probe::pinned(c, ip) is Some ==> ip::is_address(ip) && probe::pinned(c, ip)->0
            == c.http_host_header->0@ && c.http_host_header->0@ != ip,
        c.http_host_header is None ==> probe::pinned(c, ip) is None,
{
    reveal_strlit("/");
    assert("/"@ =~= seq!['/']);
}

/// The request and the URL of a check name the host and the path that are asked for.
pub proof fn lemma_probe_requests(c: HealthCheckConfig, ip: Seq<char>)
    ensures
        requests::contains_text(
            probe::http_request(c, ip),
            seq!['H', 'E', 'A', 'D', ' '] + probe::probe_path(c) + seq![' '],
        ),
        requests::contains_text(
            probe::http_request(c, ip),
            seq!['H', 'o', 's', 't', ':', ' '] + probe::probe_host(c, ip) + seq!['\r', '\n'],
        ),
        requests::contains_text(
            probe::https_url(c, ip),
            probe::probe_host(c, ip) + seq![':'] + text::decimal(c.port as nat) + probe::probe_path(
                c,
            ),
        ),
        probe::https_url(c, ip).take(8) == seq!['h', 't', 't', 'p', 's', ':', '/', '/'],
{
    let path = probe::probe_path(c);
    let host = probe::probe_host(c, ip);
    let request = probe::http_request(c, ip);
    let head = "HEAD "@;
    let middle = " HTTP/1.1\r\nHost: "@;
    let tail = "\r\nConnection: close\r\nUser-Agent: CogniDNS-Health/0.1\r\n\r\n"@;
    reveal_strlit("HEAD ");
    reveal_strlit(" HTTP/1.1\r\nHost: ");
    reveal_strlit("\r\nConnection: close\r\nUser-Agent: CogniDNS-Health/0.1\r\n\r\n");
    assert(request == head + path + middle + host + tail);
    let first = seq!['H', 'E', 'A', 'D', ' '] + path + seq![' '];
    assert(request.subrange(0int, 0int + first.len()) =~= first);
    let second = seq!['H', 'o', 's', 't', ':', ' '] + host + seq!['\r', '\n'];
    assert(middle.len() == 17);
    assert(middle.skip(11) =~= seq!['H', 'o', 's', 't', ':', ' ']);
    assert(tail.take(2) =~= seq!['\r', '\n']);
    let at: int = head.len() + path.len() + 11int;
    assert(request.subrange(at, at + second.len()) =~= second) by {
        assert forall|k: int| 0 <= k < second.len() implies request.subrange(
            at,
            at + second.len(),
        )[k] == second[k] by {
            assert(request.subrange(at, at + second.len())[k] == request[at + k]);
            if k < 6 {
                assert(middle.skip(11)[k] == middle[11 + k]);
            } else if k >= 6 + host.len() {
                assert(tail.take(2)[k - 6 - host.len()] == tail[k - 6 - host.len()]);
            }
        }
    }
    reveal_strlit("https://");
    reveal_strlit(":");
    assert(":"@ =~= seq![':']);
    let url = probe::https_url(c, ip);
    let third = host + seq![':'] + text::decimal(c.port as nat) + path;
    assert(url.subrange(8int, 8int + third.len()) =~= third);
    assert(url.take(8) =~= seq!['h', 't', 't', 'p', 's', ':', '/', '/']);
}

/// An answer to a check is good exactly where it begins as an answer of HTTP/1.0 or HTTP/1.1 with a
/// status from 200 to 399.
pub proof fn lemma_good_answers(minor: u8, space: u8, digit: u8, rest: Seq<u8>, short: Seq<u8>)
    ensures
        probe::is_good_answer(
            seq![72u8, 84, 84, 80, 47, 49, 46] + seq![minor, space, digit] + rest,
        ) <==> (minor == 48 || minor == 49) && space == 32 && (digit == 50 || digit == 51),
        short.len() < 10 ==> !probe::is_good_answer(short),
{
    let b = seq![72u8, 84, 84, 80, 47, 49, 46] + seq![minor, space, digit] + rest;
    assert(b.take(7) =~= seq![72u8, 84, 84, 80, 47, 49, 46]);
}

/// The wait before another report starts at the base and doubles with every attempt up to the
/// sixteenth; it never goes down and never wraps.
pub proof fn lemma_backoff(base: u64, attempt: u32)
    ensures
        probe::backoff(base, 0) == base,
        attempt < 16 ==> probe::backoff(base, (attempt + 1) as u32) == (if 2 * probe::backoff(
            base,
            attempt,
        ) <= u64::MAX {
            (2 * probe::backoff(base, attempt)) as u64
        } else {
            u64::MAX
        }),
        attempt >= 16 ==> probe::backoff(base, attempt) == probe::backoff(base, 16),
        probe::backoff(base, attempt) >= base,
{
    vstd::arithmetic::power2::lemma2_to64();
    let n = if attempt < 16 {
        attempt as nat
    } else {
        16
    };
    vstd::arithmetic::power2::lemma_pow2_unfold((n + 1) as nat);
    vstd::arithmetic::power2::lemma_pow2_pos(n);
    let f = vstd::arithmetic::power2::pow2(n);
    let g = vstd::arithmetic::power2::pow2((n + 1) as nat);
    assert(g == 2 * f);
    assert(base * g == 2 * (base * f)) by (nonlinear_arith)
        requires
            g == 2 * f,
    ;
    assert(base * f >= base) by (nonlinear_arith)
        requires
            f >= 1,
            base >= 0,
    ;
    assert(base * 1 == base);
}

/// Only an address of HTTP or HTTPS is taken for a web hook.
pub proof fn lemma_hook_urls(rest: Seq<char>, other: Seq<char>)
    ensures
        probe::is_http_like("http://"@ + rest),
        probe::is_http_like("https://"@ + rest),
        !probe::is_http_like(text::trim(other)) ==> probe::http_url(other) is None,
        probe::is_http_like(other) ==> other.len() >= 7 && other[0] == 'h' && other[1] == 't'
            && other[2] == 't' && other[3] == 'p',
{
    reveal_strlit("http://");
    reveal_strlit("https://");
    assert(("http://"@ + rest).take(7) =~= "http://"@);
    assert(("https://"@ + rest).take(8) =~= "https://"@);
    if probe::is_http_like(other) {
        if other.take(7) == "http://"@ && other.len() >= 7 {
            assert(other.take(7)[0] == other[0] && other.take(7)[1] == other[1] && other.take(7)[2]
                == other[2] && other.take(7)[3] == other[3]);
        } else {
            assert(other.take(8)[0] == other[0] && other.take(8)[1] == other[1] && other.take(8)[2]
                == other[2] && other.take(8)[3] == other[3]);
        }
    }
}

/// A frame holds from 1 byte to 8 mebibytes, and the one who reads takes exactly what the one who
/// writes can send.
pub proof fn lemma_frame_bounds(payload: Seq<u8>, len: u32)
    ensures
        control::framed(payload) is Ok <==> 1 <= payload.len() <= 8388608,
        control::framed(payload) is Ok ==> control::framed(payload)->Ok_0.len() == payload.len() + 4,
        control::announced(len) is Ok <==> 1 <= len <= 8388608,
        control::announced(len) is Ok ==> control::announced(len)->Ok_0 == len,
        len == 0 ==> control::announced(len)->Err_0 is EmptyFrame,
        payload.len() == 0 ==> control::framed(payload)->Err_0 is EmptyPayload,
{
}

/// A frame that is cut off is not read.
pub proof fn lemma_cut_frames(payload: Seq<u8>, n: int)
    requires
        control::framed(payload) is Ok,
        0 <= n < payload.len() + 4,
    ensures
        control::unframed(control::framed(payload)->Ok_0.take(n)) is Err,
{
    let whole = control::framed(payload)->Ok_0;
    let cut = whole.take(n);
    control::lemma_frame_round_trip(payload, Seq::empty());
    assert(whole + Seq::<u8>::empty() =~= whole);
    if n >= 4 {
        assert(wire::be32(cut, 0) == wire::be32(whole, 0)) by {
            assert(cut[0] == whole[0] && cut[1] == whole[1] && cut[2] == whole[2] && cut[3]
                == whole[3]);
        }
        let length = control::announced(wire::be32(whole, 0))->Ok_0;
        assert(whole.subrange(4, 4 + length as int).len() == payload.len());
    }
}

/// A file of certificates gives those that were found in it, at least one; a file without any is
/// refused.
pub proof fn lemma_certificates(list: Seq<Seq<u8>>, words: Seq<char>, file: Seq<char>)
    ensures
        list.len() > 0 ==> tls::certificates_of(Ok(list), file) == Ok::<
            Seq<Seq<u8>>,
            tls::TlsFileErrorV,
        >(list),
        list.len() == 0 ==> tls::certificates_of(Ok(list), file) is Err
            && tls::certificates_of(Ok(list), file)->Err_0.cause is None,
        tls::certificates_of(Err(words), file) is Err,
        tls::certificates_of(Err(words), file)->Err_0.cause == Some(words),
{
}

/// A file of a private key gives the key that was found in it; a file without one is refused.
pub proof fn lemma_private_keys(key: (KeyForm, Seq<u8>), words: Seq<char>, file: Seq<char>)
    ensures
        tls::private_key_of(Ok(Some(key)), file) == Ok::<(KeyForm, Seq<u8>), tls::TlsFileErrorV>(
            key,
        ),
        tls::private_key_of(Ok(None), file) is Err,
        tls::private_key_of(Ok(None), file)->Err_0.cause is None,
        tls::private_key_of(Err(words), file) is Err,
        tls::private_key_of(Err(words), file)->Err_0.cause == Some(words),
{
}

/// Texts with commas between them: one alone is as it is, and another is put behind a comma.
pub proof fn lemma_commas(list: Seq<Seq<char>>, s: Seq<char>)
    ensures
        probe::comma_joined(Seq::empty()) == Seq::<char>::empty(),
        probe::comma_joined(seq![s]) == s,
        list.len() > 0 ==> probe::comma_joined(list.push(s)) == probe::comma_joined(list) + seq![',']
            + s,
{
    reveal_strlit(",");
    assert(","@ =~= seq![',']);
    assert(list.push(s).drop_last() =~= list);
}

/// A report says of which domain it is, which addresses it has, how they are checked and when.
pub proof fn lemma_report(
    millis: nat,
    mode: Seq<char>,
    domain: Seq<char>,
    ips: Seq<Seq<char>>,
    time: Seq<char>,
)
    ensures
        ({
            let report = probe::webhook_payload(millis, mode, domain, ips, time);
            let o = report->Object_0;
            &&& report is Object
            &&& o.contains(("domain"@, JsonV::Str(domain)))
            &&& o.contains(("probe_mode"@, JsonV::Str(mode)))
            &&& o.contains(("time"@, JsonV::Str(time)))
            &&& o.contains(("event"@, JsonV::Str("all_unhealthy"@)))
            &&& o.contains(("request_id"@, JsonV::Str("health-"@ + text::decimal(millis))))
            &&& o.contains(("ips"@, JsonV::Array(ips.map_values(|s: Seq<char>| JsonV::Str(s)))))
        }),
{
    let o = probe::webhook_payload(millis, mode, domain, ips, time)->Object_0;
    assert(o[0] == ("request_id"@, JsonV::Str("health-"@ + text::decimal(millis))));
    assert(o[1] == ("event"@, JsonV::Str("all_unhealthy"@)));
    assert(o[2] == ("probe_mode"@, JsonV::Str(mode)));
    assert(o[3] == ("domain"@, JsonV::Str(domain)));
    assert(o[4].1 =~= JsonV::Array(ips.map_values(|s: Seq<char>| JsonV::Str(s))));
    assert(o[4] == ("ips"@, JsonV::Array(ips.map_values(|s: Seq<char>| JsonV::Str(s)))));
    assert(o[5] == ("time"@, JsonV::Str(time)));
}

} // verus!
