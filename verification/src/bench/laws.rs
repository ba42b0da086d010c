//! What holds of the benchmark: its options, its queries and the servers that read them, and its
//! figures.
use crate::bench::args;
use crate::bench::args::BenchConfigV;
use crate::bench::args::QNameMode;
use crate::bench::args::TransportProtocol;
use crate::bench::fixture;
use crate::bench::fixture::FixtureAnswer;
use crate::bench::responder;
use crate::bench::signing;
use crate::bench::signing::FixtureZone;
use crate::bench::stats;
use crate::bench::stats::StatsSnapshot;
use crate::codec::wire;
use crate::json_doc;
use crate::json_doc::JsonV;
use crate::text;
use crate::text_laws;
use crate::dnssec::names;
use crate::dnssec::rrsets;
use vstd::prelude::*;
use vstd::utf8::*;

verus! {

/// The lengths and letters by which the options differ.
proof fn lemma_option_words()
    ensures
        "--server"@.len() == 8,
        "--qname"@.len() == 7,
        "--qtype"@.len() == 7,
        "--protocol"@.len() == 10,
        "--qname-mode"@.len() == 12,
        "--concurrency"@.len() == 13,
        "--duration-sec"@.len() == 14,
        "--warmup-sec"@.len() == 12,
        "--timeout-ms"@.len() == 12,
        "--admin-addr"@.len() == 12,
        "--out-json"@.len() == 10,
        "--qname"@[3] == 'n',
        "--qtype"@[3] == 't',
        "--protocol"@[2] == 'p',
        "--out-json"@[2] == 'o',
        "--qname-mode"@[2] == 'q',
        "--warmup-sec"@[2] == 'w',
        "--timeout-ms"@[2] == 't',
        "--admin-addr"@[2] == 'a',
{
    reveal_strlit("--server");
    reveal_strlit("--qname");
    reveal_strlit("--qtype");
    reveal_strlit("--protocol");
    reveal_strlit("--qname-mode");
    reveal_strlit("--concurrency");
    reveal_strlit("--duration-sec");
    reveal_strlit("--warmup-sec");
    reveal_strlit("--timeout-ms");
    reveal_strlit("--admin-addr");
    reveal_strlit("--out-json");
}

/// A text option sets its own part of the configuration and leaves the others.
pub proof fn lemma_text_options(c: BenchConfigV, v: Seq<char>)
    ensures
        args::with_option(c, "--server"@, v) == Ok::<BenchConfigV, Seq<char>>(
            (BenchConfigV { server: v, ..c }),
        ),
        args::with_option(c, "--qname"@, v) == Ok::<BenchConfigV, Seq<char>>(
            (BenchConfigV { qname: v, ..c }),
        ),
        args::with_option(c, "--admin-addr"@, v) == Ok::<BenchConfigV, Seq<char>>(
            (BenchConfigV { admin_addr: Some(v), ..c }),
        ),
        args::with_option(c, "--out-json"@, v) == Ok::<BenchConfigV, Seq<char>>(
            (BenchConfigV { out_json: Some(v), ..c }),
        ),
{
    lemma_option_words();
}

/// A numeric option sets its own part of the configuration to the number that is written.
pub proof fn lemma_number_options(c: BenchConfigV, n: u64)
    ensures
        n <= usize::MAX ==> args::with_option(c, "--concurrency"@, text::decimal(n as nat)) == Ok::<
            BenchConfigV,
            Seq<char>,
        >((BenchConfigV { concurrency: n as nat, ..c })),
        args::with_option(c, "--duration-sec"@, text::decimal(n as nat)) == Ok::<
            BenchConfigV,
            Seq<char>,
        >((BenchConfigV { duration_sec: n as nat, ..c })),
        args::with_option(c, "--warmup-sec"@, text::decimal(n as nat)) == Ok::<
            BenchConfigV,
            Seq<char>,
        >((BenchConfigV { warmup_sec: n as nat, ..c })),
        args::with_option(c, "--timeout-ms"@, text::decimal(n as nat)) == Ok::<
            BenchConfigV,
            Seq<char>,
        >((BenchConfigV { timeout_ms: n as nat, ..c })),
{
    lemma_option_words();
    text_laws::lemma_number_round_trip(n as nat, usize::MAX as nat);
    text_laws::lemma_number_round_trip(n as nat, u64::MAX as nat);
}

/// The other options take the words that name their values and refuse the rest; a type that is not
/// known asks for IPv4 addresses.
pub proof fn lemma_word_options(c: BenchConfigV, v: Seq<char>)
    ensures
        ({
            let p = args::with_option(c, "--protocol"@, v);
            let m = args::with_option(c, "--qname-mode"@, v);
            let t = args::with_option(c, "--qtype"@, v);
            &&& v == "udp"@ ==> p is Ok && p->Ok_0.protocol is Udp
            &&& v == "tcp"@ ==> p is Ok && p->Ok_0.protocol is Tcp
            &&& v != "udp"@ && v != "tcp"@ ==> p is Err
            &&& v == "fixed"@ ==> m is Ok && m->Ok_0.qname_mode is Fixed
            &&& v == "unique"@ ==> m is Ok && m->Ok_0.qname_mode is Unique
            &&& v != "fixed"@ && v != "unique"@ ==> m is Err
            &&& t is Ok
            &&& t->Ok_0.qtype == 28 <==> text::lower(v) == text::lower("AAAA"@)
            &&& t->Ok_0.qtype == 28 || t->Ok_0.qtype == 1
        }),
{
    lemma_option_words();
    reveal_strlit("udp");
    reveal_strlit("tcp");
    reveal_strlit("fixed");
    reveal_strlit("unique");
    assert("udp"@[0] == 'u' && "tcp"@[0] == 't');
    assert("fixed"@.len() == 5 && "unique"@.len() == 6);
}

/// Options are taken from the first to the last, two arguments at a time, so that the last of two
/// equal ones counts; an argument that is no option, or an option without a value, is refused.
pub proof fn lemma_options_in_turn(
    c: BenchConfigV,
    option: Seq<char>,
    value: Seq<char>,
    rest: Seq<Seq<char>>,
)
    ensures
        ({
            let all = seq![option, value] + rest;
            let r = args::with_option(c, option, value);
            &&& args::is_option(option) && r is Ok ==> args::with_options(c, all)
                == args::with_options(r->Ok_0, rest)
            &&& args::is_option(option) && r is Err ==> args::with_options(c, all) is Err
            &&& !args::is_option(option) ==> args::with_options(c, all) is Err
            &&& args::with_options(c, seq![option]) is Err
            &&& args::with_options(c, Seq::empty()) == Ok::<BenchConfigV, Seq<char>>(c)
        }),
{
    let all = seq![option, value] + rest;
    assert(all.skip(2) =~= rest);
    assert(all[0] == option && all[1] == value);
}

/// A name that is to be unique stands below the name of the benchmark and is told apart by worker
/// and number.
pub proof fn lemma_asked_names(worker: nat, sequence: nat, qname: Seq<char>)
    ensures
        args::asked_name(QNameMode::Fixed, worker, sequence, qname) == qname,
        ({
            let name = args::asked_name(QNameMode::Unique, worker, sequence, qname);
            &&& name.len() > qname.len()
            &&& name.skip(name.len() - qname.len()) == qname
            &&& name[name.len() - qname.len() - 1] == '.'
        }),
{
    reveal_strlit("w");
    reveal_strlit("-s");
    reveal_strlit(".");
    let name = args::asked_name(QNameMode::Unique, worker, sequence, qname);
    assert(name.skip(name.len() - qname.len()) =~= qname);
}

/// Labels that were written can be read where they stand, in front of whatever can be read behind
/// them.
proof fn lemma_labels_read(labels: Seq<Seq<char>>, p: Seq<u8>, off: int)
    requires
        args::label_bytes(labels) is Ok,
        forall|i: int| 0 <= i < labels.len() ==> (#[trigger] labels[i]).len() > 0,
        0 <= off,
        off + args::label_bytes(labels)->Ok_0.len() <= p.len(),
        p.subrange(off, off + args::label_bytes(labels)->Ok_0.len()) == args::label_bytes(
            labels,
        )->Ok_0,
    ensures
        ({
            let next = off + args::label_bytes(labels)->Ok_0.len();
            &&& fixture::text_labels(p, next) is Some ==> fixture::text_labels(p, off) == Some(
                labels + fixture::text_labels(p, next)->0,
            )
            &&& fixture::labels_end(p, off) == fixture::labels_end(p, next)
        }),
    decreases labels.len(),
{
    let b = args::label_bytes(labels)->Ok_0;
    if labels.len() == 0 {
        assert(b.len() == 0);
        if fixture::text_labels(p, off) is Some {
            assert(labels + fixture::text_labels(p, off)->0 =~= fixture::text_labels(p, off)->0);
        }
    } else {
        let init = labels.drop_last();
        let last = labels.last();
        let bytes = encode_utf8(last);
        let before = args::label_bytes(init)->Ok_0;
        assert(labels[labels.len() - 1] == last);
        encode_utf8_first_scalar(last);
        assert(bytes.len() > 0);
        assert(b == before.push(bytes.len() as u8) + bytes);
        assert forall|i: int| 0 <= i < init.len() implies (#[trigger] init[i]).len() > 0 by {
            assert(init[i] == labels[i]);
        }
        let part = p.subrange(off, off + b.len());
        assert(p.subrange(off, off + before.len()) =~= before) by {
            assert forall|k: int| 0 <= k < before.len() implies p.subrange(
                off,
                off + before.len(),
            )[k] == before[k] by {
                assert(part[k] == b[k]);
            }
        }
        lemma_labels_read(init, p, off);
        let at = off + before.len();
        assert(p[at] == bytes.len()) by {
            assert(part[before.len() as int] == b[before.len() as int]);
        }
        let next = at + 1 + bytes.len();
        assert(p.subrange(at + 1, next) =~= bytes) by {
            assert forall|k: int| 0 <= k < bytes.len() implies p.subrange(at + 1, next)[k]
                == bytes[k] by {
                assert(part[before.len() + 1 + k] == b[before.len() + 1 + k]);
            }
        }
        encode_utf8_valid_utf8(last);
        encode_utf8_decode_utf8(last);
        assert(next == off + b.len());
        if let Some(r) = fixture::text_labels(p, next) {
            assert(fixture::text_labels(p, at) == Some(seq![last] + r));
            assert(init + (seq![last] + r) =~= labels + r);
        }
    }
}

/// A query is read by the servers of the benchmark as it was built: they find the name that was
/// asked for, and nothing behind the question.
pub proof fn lemma_query_is_read(id: u16, name: Seq<char>, qtype: u16)
    requires
        args::query_bytes(id, name, qtype) is Ok,
        forall|i: int|
            0 <= i < text::split(name, '.').len() ==> (#[trigger] text::split(name, '.')[i]).len()
                > 0,
    ensures
        ({
            let p = args::query_bytes(id, name, qtype)->Ok_0;
            &&& fixture::question_name(p) == Some(name)
            &&& fixture::end_of_question(p) == Some(p.len() as int)
            &&& wire::header(p).id == id
            &&& wire::header(p).flags == 0x0100
            &&& wire::header(p).qdcount == 1
            &&& wire::header(p).ancount == 0 && wire::header(p).nscount == 0 && wire::header(
                p,
            ).arcount == 0
            &&& wire::be16(p, p.len() - 4) == qtype
            &&& wire::be16(p, p.len() - 2) == 1
        }),
{
    let p = args::query_bytes(id, name, qtype)->Ok_0;
    let labels = text::split(name, '.');
    let b = args::label_bytes(labels)->Ok_0;
    assert(p.len() == 12 + b.len() + 5);
    assert(p.subrange(12int, 12int + b.len()) =~= b);
    lemma_labels_read(labels, p, 12);
    let next = 12int + b.len();
    assert(p[next] == 0);
    assert(fixture::text_labels(p, next) == Some(Seq::<Seq<char>>::empty()));
    assert(labels + Seq::<Seq<char>>::empty() =~= labels);
    text_laws::lemma_split_at_dots(name);
    assert(p.subrange(0, 2) =~= wire::bytes16(id));
    wire::lemma_be16_bytes(p, 0, id);
    assert(p.subrange(2, 4) =~= wire::bytes16(0x0100));
    wire::lemma_be16_bytes(p, 2, 0x0100);
    assert(p.subrange(4, 6) =~= wire::bytes16(1));
    wire::lemma_be16_bytes(p, 4, 1);
    assert(p.subrange(6, 8) =~= wire::bytes16(0));
    wire::lemma_be16_bytes(p, 6, 0);
    assert(p.subrange(8, 10) =~= wire::bytes16(0));
    wire::lemma_be16_bytes(p, 8, 0);
    assert(p.subrange(10, 12) =~= wire::bytes16(0));
    wire::lemma_be16_bytes(p, 10, 0);
    assert(p.subrange(p.len() - 4, p.len() - 2) =~= wire::bytes16(qtype));
    wire::lemma_be16_bytes(p, p.len() - 4, qtype);
    assert(p.subrange(p.len() - 2, p.len() as int) =~= wire::bytes16(1));
    wire::lemma_be16_bytes(p, p.len() - 2, 1);
}

/// A response of the servers answers the request: it has its identifier and its question, is marked
/// as a response, and counts the records that follow.
pub proof fn lemma_responses(request: Seq<u8>, answers: u16, authorities: u16, rest: Seq<u8>)
    requires
        request.len() >= 12,
        fixture::end_of_question(request) is Some,
        12 <= fixture::end_of_question(request)->0 <= request.len(),
    ensures
        ({
            let p = fixture::response_start(request, answers, authorities) + rest;
            let end = fixture::end_of_question(request)->0;
            &&& wire::header(p).id == wire::header(request).id
            &&& wire::header(p).flags == 0x8180
            &&& wire::header(p).qdcount == 1
            &&& wire::header(p).ancount == answers
            &&& wire::header(p).nscount == authorities
            &&& wire::header(p).arcount == 0
            &&& p.subrange(12, end) == request.subrange(12, end)
            &&& p.skip(end) == rest
        }),
{
    let p = fixture::response_start(request, answers, authorities) + rest;
    let end = fixture::end_of_question(request)->0;
    assert(p[0] == request[0] && p[1] == request[1]);
    assert(p.subrange(2, 4) =~= wire::bytes16(0x8180));
    wire::lemma_be16_bytes(p, 2, 0x8180);
    assert(p.subrange(4, 6) =~= wire::bytes16(1));
    wire::lemma_be16_bytes(p, 4, 1);
    assert(p.subrange(6, 8) =~= wire::bytes16(answers));
    wire::lemma_be16_bytes(p, 6, answers);
    assert(p.subrange(8, 10) =~= wire::bytes16(authorities));
    wire::lemma_be16_bytes(p, 8, authorities);
    assert(p.subrange(10, 12) =~= wire::bytes16(0));
    wire::lemma_be16_bytes(p, 10, 0);
    assert(p.subrange(12, end) =~= request.subrange(12, end));
    assert(p.skip(end) =~= rest);
}

/// A response with an address ends with that address and has one answer; a referral has none and
/// one record in its authority section.
pub proof fn lemma_response_kinds(request: Seq<u8>, ip: Seq<u8>, zone: Seq<char>, host: Seq<char>)
    requires
        request.len() >= 12,
        ip.len() == 4,
        fixture::end_of_question(request) is Some,
        12 <= fixture::end_of_question(request)->0 <= request.len(),
    ensures
        ({
            let a = fixture::address_response(request, ip);
            let r = fixture::referral_response(request, zone, host);
            &&& wire::header(a).ancount == 1 && wire::header(a).nscount == 0
            &&& a.skip(a.len() - 4) == ip
            &&& wire::header(r).ancount == 0 && wire::header(r).nscount == 1
            &&& wire::header(a).id == wire::header(request).id
            &&& wire::header(r).id == wire::header(request).id
        }),
{
    let a = fixture::address_response(request, ip);
    let r = fixture::referral_response(request, zone, host);
    let s = fixture::response_start(request, 1, 0);
    let t = fixture::response_start(request, 0, 1);
    let more = a.skip(s.len() as int);
    assert(a =~= s + more);
    lemma_responses(request, 1, 0, more);
    let rest = r.skip(t.len() as int);
    assert(r =~= t + rest);
    lemma_responses(request, 0, 1, rest);
    assert(a.skip(a.len() - 4) =~= ip);
}

/// The signing server answers for addresses below its zone, for the keys of its three zones and
/// for the digests of the two that have a parent.
pub proof fn lemma_fixture_answers(qname: Seq<char>, qtype: u16, below: Seq<char>)
    ensures
        ({
            let r = fixture::fixture_answer(qname, qtype);
            &&& r is RootKeys || r is ComKeys || r is ChildKeys ==> qtype == 48
            &&& r is ComDigests || r is ChildDigests ==> qtype == 43
            &&& r is Address ==> qtype == 1
            &&& r is ChildKeys || r is ChildDigests ==> qname == "example.com."@
            &&& r is ComKeys || r is ComDigests ==> qname == "com."@
            &&& r is RootKeys ==> qname == "."@
            &&& qtype != 1 && qtype != 43 && qtype != 48 ==> r is Nothing
        }),
        fixture::fixture_answer(below + ".example.com."@, 1) is Address,
        fixture::fixture_answer("."@, 48) is RootKeys,
        fixture::fixture_answer("com."@, 48) is ComKeys,
        fixture::fixture_answer("com."@, 43) is ComDigests,
        fixture::fixture_answer("example.com."@, 48) is ChildKeys,
        fixture::fixture_answer("example.com."@, 43) is ChildDigests,
{
    reveal_strlit(".");
    reveal_strlit("com.");
    reveal_strlit("example.com.");
    assert("."@.len() == 1 && "com."@.len() == 4 && "example.com."@.len() == 12);
    let s = below + ".example.com."@;
    let tail = ".example.com."@;
    assert(s.subrange(s.len() - tail.len(), s.len() as int) =~= tail);
}

/// A signature is good at the time it is made, from a minute before to five minutes after.
pub proof fn lemma_window(now: u32)
    ensures
        fixture::window(now).0 <= now <= fixture::window(now).1,
        now >= 60 ==> now - fixture::window(now).0 == 60,
        now <= u32::MAX - 300 ==> fixture::window(now).1 - now == 300,
{
}

/// A zone signs its own key, and the zone right above it signs the digest of that key.
pub proof fn lemma_who_signs(answer: FixtureAnswer)
    ensures
        ({
            let plan = signing::plan_of(answer);
            &&& plan is Some <==> !(answer is Address) && !(answer is Nothing)
            &&& plan is Some && !plan->0.digests ==> plan->0.signer == plan->0.owner
            &&& plan is Some && plan->0.digests ==> signing::zone_labels(plan->0.owner).len() > 0
                && signing::zone_labels(plan->0.signer) == signing::zone_labels(
                plan->0.owner,
            ).skip(1)
            &&& plan is Some ==> (plan->0.digests <==> answer is ComDigests || answer
                is ChildDigests)
            &&& plan is Some && plan->0.digests ==> signing::planned_type(plan->0) == 43
            &&& plan is Some && !plan->0.digests ==> signing::planned_type(plan->0) == 48
        }),
{
    let child = signing::zone_labels(FixtureZone::Child);
    let com = signing::zone_labels(FixtureZone::Com);
    let root = signing::zone_labels(FixtureZone::Root);
    assert(child.skip(1) =~= com);
    assert(com.skip(1) =~= root);
}

/// The signing server answers with the set that was asked for, under the name of its zone; what it
/// does not know it answers without records, and an address it signs with the key of its zone.
pub proof fn lemma_responder(
    sets: responder::FixtureV,
    m: responder::RequestV,
    packet: Seq<u8>,
    name: Seq<Seq<u8>>,
    text: Seq<char>,
    qtype: u16,
)
    requires
        m.question == Some((name, text, qtype)),
    ensures
        ({
            let r = responder::next_step(sets, Ok(m), packet);
            let answer = fixture::fixture_answer(text, qtype);
            &&& answer is Address ==> r == Ok::<responder::StepV, responder::FixtureErrorV>(
                responder::StepV::SignAddress(name, FixtureZone::Child),
            )
            &&& answer is Nothing ==> r == Ok::<responder::StepV, responder::FixtureErrorV>(
                responder::StepV::Send(fixture::response_start(packet, 0, 0)),
            )
            &&& answer is RootKeys ==> r == responder::sent(
                responder::reply_bytes(
                    responder::reply_to(m, Seq::empty(), qtype, sets.root_keys),
                ),
            )
            &&& answer is ComDigests ==> r == responder::sent(
                responder::reply_bytes(
                    responder::reply_to(m, seq![seq![99u8, 111, 109]], qtype, sets.com_digests),
                ),
            )
            &&& answer is ComKeys ==> r == responder::sent(
                responder::reply_bytes(
                    responder::reply_to(m, seq![seq![99u8, 111, 109]], qtype, sets.com_keys),
                ),
            )
        }),
{
}

/// A reply comes back under the identifier of its request, with its recursion flag and with what
/// its OPT record said.
pub proof fn lemma_reply(m: responder::RequestV, name: Seq<Seq<u8>>, t: u16, set: Seq<Seq<u8>>)
    ensures
        ({
            let r = responder::reply_to(m, name, t, set);
            &&& r.id == m.id
            &&& r.recursion_desired == m.recursion_desired
            &&& r.recursion_available
            &&& r.edns == m.edns
            &&& r.name == name && r.query_type == t && r.answers == set
        }),
{
}

/// What changed between two times and what there was before make what there is after.
pub proof fn lemma_delta(after: StatsSnapshot, before: StatsSnapshot)
    requires
        stats::differences_fit(after, before),
    ensures
        ({
            let d = stats::delta_of(after, before);
            &&& before.forwarder_failovers + d.forwarder_failovers == after.forwarder_failovers
            &&& before.iterative_requests_started + d.iterative_requests_started
                == after.iterative_requests_started
            &&& before.iterative_referral_hops + d.iterative_referral_hops
                == after.iterative_referral_hops
            &&& before.iterative_retry_queries + d.iterative_retry_queries
                == after.iterative_retry_queries
            &&& before.iterative_successes + d.iterative_successes == after.iterative_successes
            &&& before.iterative_failures + d.iterative_failures == after.iterative_failures
            &&& before.iterative_fallbacks + d.iterative_fallbacks == after.iterative_fallbacks
            &&& before.iterative_loop_detected + d.iterative_loop_detected
                == after.iterative_loop_detected
            &&& before.delegation_cache_hit + d.delegation_cache_hit == after.delegation_cache_hit
            &&& before.delegation_cache_miss + d.delegation_cache_miss
                == after.delegation_cache_miss
            &&& before.delegation_cache_written + d.delegation_cache_written
                == after.delegation_cache_written
            &&& before.delegation_cache_write_skipped + d.delegation_cache_write_skipped
                == after.delegation_cache_write_skipped
            &&& before.referral_validation_rejected + d.referral_validation_rejected
                == after.referral_validation_rejected
            &&& before.delegation_cache_fallback_to_root + d.delegation_cache_fallback_to_root
                == after.delegation_cache_fallback_to_root
        }),
{
}

/// Whether a share is a part of the requests that were started; there is none where none were.
pub open spec fn is_share(r: Option<stats::Ratio>, part: i64, started: i64) -> bool {
    match r {
        Some(x) => started > 0 && x.part == part && x.whole == started,
        None => started <= 0,
    }
}

/// Every share is one of the requests that were started in between.
pub proof fn lemma_shares(after: StatsSnapshot, before: StatsSnapshot)
    requires
        stats::differences_fit(after, before),
    ensures
        ({
            let d = stats::delta_of(after, before);
            let n = d.iterative_requests_started;
            &&& is_share(d.iterative_fallback_ratio, d.iterative_fallbacks, n)
            &&& is_share(d.iterative_referral_ratio, d.iterative_referral_hops, n)
            &&& is_share(d.iterative_retry_ratio, d.iterative_retry_queries, n)
            &&& is_share(d.delegation_cache_hit_ratio, d.delegation_cache_hit, n)
            &&& is_share(
                d.delegation_cache_write_skipped_ratio,
                d.delegation_cache_write_skipped,
                n,
            )
            &&& is_share(d.referral_validation_reject_ratio, d.referral_validation_rejected, n)
        }),
{
}

/// A counter is the number under its key, and zero where there is none.
pub proof fn lemma_counter(o: json_doc::ObjectV, key: Seq<char>, n: u64)
    ensures
        json_doc::lookup(o, key) == Some(JsonV::Unsigned(n)) && n <= i64::MAX ==> stats::counter(
            o,
            key,
        ) == n,
        json_doc::lookup(o, key) is None ==> stats::counter(o, key) == 0,
{
}

/// The counters of the resolver stand under their names in its object, those of delegations under
/// theirs among the events.
pub proof fn lemma_counters(v: JsonV, resolver: JsonV, metrics: JsonV, events: JsonV)
    requires
        v is Object,
        resolver is Object,
        metrics is Object,
        events is Object,
        json_doc::lookup(v->Object_0, "resolver"@) == Some(resolver),
        json_doc::lookup(v->Object_0, "metrics"@) == Some(metrics),
        json_doc::lookup(metrics->Object_0, "iterative_events"@) == Some(events),
    ensures
        ({
            let s = stats::snapshot_of(v)->Ok_0;
            let r = resolver->Object_0;
            let e = events->Object_0;
            &&& stats::snapshot_of(v) is Ok
            &&& s.forwarder_failovers == stats::counter(r, "forwarder_failovers"@)
            &&& s.iterative_requests_started == stats::counter(r, "iterative_requests_started"@)
            &&& s.iterative_referral_hops == stats::counter(r, "iterative_referral_hops"@)
            &&& s.iterative_retry_queries == stats::counter(r, "iterative_retry_queries"@)
            &&& s.iterative_successes == stats::counter(r, "iterative_successes"@)
            &&& s.iterative_failures == stats::counter(r, "iterative_failures"@)
            &&& s.iterative_fallbacks == stats::counter(r, "iterative_fallbacks"@)
            &&& s.iterative_loop_detected == stats::counter(r, "iterative_loop_detected"@)
            &&& s.delegation_cache_hit == stats::counter(e, "delegation_cache_hit"@)
            &&& s.delegation_cache_miss == stats::counter(e, "delegation_cache_miss"@)
            &&& s.delegation_cache_written == stats::counter(e, "delegation_cache_written"@)
            &&& s.delegation_cache_write_skipped == stats::counter(
                e,
                "delegation_cache_write_skipped"@,
            )
            &&& s.referral_validation_rejected == stats::counter(e, "referral_validation_rejected"@)
            &&& s.delegation_cache_fallback_to_root == stats::counter(
                e,
                "delegation_cache_fallback_to_root"@,
            )
        }),
{
}

/// The body of an answer is what stands behind the first empty line; an answer without one has no
/// body.
pub proof fn lemma_body(head: Seq<char>, body: Seq<char>)
    requires
        !head.contains('\r'),
    ensures
        stats::body_of(head + seq!['\r', '\n', '\r', '\n'] + body) == Some(body),
        stats::body_of(head) is None,
    decreases head.len(),
{
    let blank = seq!['\r', '\n', '\r', '\n'];
    let all = head + blank + body;
    if head.len() == 0 {
        assert(all.skip(4) =~= body);
        assert(all[0] == '\r' && all[1] == '\n' && all[2] == '\r' && all[3] == '\n');
    } else {
        let rest = head.skip(1);
        assert(!rest.contains('\r')) by {
            if rest.contains('\r') {
                let i = choose|i: int| 0 <= i < rest.len() && rest[i] == '\r';
                assert(head[i + 1] == '\r');
            }
        }
        lemma_body(rest, body);
        assert(all.skip(1) =~= rest + blank + body);
        assert(all[0] == head[0]);
        assert(head[0] != '\r') by {
            assert(head.contains(head[0]));
        }
    }
}

/// Where an answer has a body, an empty line stands in front of it.
pub proof fn lemma_body_behind_an_empty_line(s: Seq<char>)
    requires
        stats::body_of(s) is Some,
    ensures
        ({
            let n = s.len() - stats::body_of(s)->0.len();
            &&& n >= 4
            &&& s.skip(n) == stats::body_of(s)->0
            &&& s[n - 4] == '\r' && s[n - 3] == '\n' && s[n - 2] == '\r' && s[n - 1] == '\n'
        }),
    decreases s.len(),
{
    if !(s[0] == '\r' && s[1] == '\n' && s[2] == '\r' && s[3] == '\n') {
        lemma_body_behind_an_empty_line(s.skip(1));
        let n = s.len() - stats::body_of(s)->0.len();
        assert(s.skip(1).skip(n - 1) =~= s.skip(n));
        assert(s.skip(1)[n - 5] == s[n - 4] && s.skip(1)[n - 4] == s[n - 3] && s.skip(1)[n - 3]
            == s[n - 2] && s.skip(1)[n - 2] == s[n - 1]);
    }
}

/// The data of a signature record can be read field by field: what it covers, how and by whom it
/// was made, and from when to when it is good.
pub proof fn lemma_signature_fields(h: signing::SignatureHeadV, signature: Seq<u8>)
    requires
        signing::is_writable(h.signer_name),
    ensures
        ({
            let d = signing::signature_data(h, signature)->0;
            &&& signing::signature_data(h, signature) is Some
            &&& wire::be16(d, 0) == h.type_covered
            &&& d[2] == h.algorithm
            &&& d[3] == h.labels
            &&& wire::be32(d, 4) == h.original_ttl
            &&& wire::be32(d, 8) == h.expiration
            &&& wire::be32(d, 12) == h.inception
            &&& wire::be16(d, 16) == h.key_tag
            &&& d.skip(d.len() - signature.len()) == signature
        }),
{
    let d = signing::signature_data(h, signature)->0;
    let name = signing::wire_name(h.signer_name)->0;
    assert(d.subrange(0, 2) =~= wire::bytes16(h.type_covered));
    wire::lemma_be16_bytes(d, 0, h.type_covered);
    assert(d.subrange(4, 8) =~= wire::bytes32(h.original_ttl));
    wire::lemma_be32_bytes(d, 4, h.original_ttl);
    assert(d.subrange(8, 12) =~= wire::bytes32(h.expiration));
    wire::lemma_be32_bytes(d, 8, h.expiration);
    assert(d.subrange(12, 16) =~= wire::bytes32(h.inception));
    wire::lemma_be32_bytes(d, 12, h.inception);
    assert(d.subrange(16, 18) =~= wire::bytes16(h.key_tag));
    wire::lemma_be16_bytes(d, 16, h.key_tag);
    assert(d.skip(d.len() - signature.len()) =~= signature);
}

/// What is said with a signature: it covers the type it is made for, with the time to live of the
/// records, is good now, and names the zone and the key that made it.
pub proof fn lemma_signature_head(
    owner: Seq<Seq<u8>>,
    covered: u16,
    signer: FixtureZone,
    key: Seq<u8>,
    now: u32,
)
    ensures
        ({
            let h = signing::head_of(owner, covered, signer, key, now);
            &&& h is Some <==> signing::is_writable(owner) && key.len() <= 65531
            &&& h is Some ==> {
                &&& h->0.type_covered == covered
                &&& h->0.algorithm == 13
                &&& h->0.original_ttl == 300
                &&& h->0.inception <= now <= h->0.expiration
                &&& h->0.signer_name == signing::zone_labels(signer)
                &&& rrsets::tag(signing::zone_key(key)) == Some(h->0.key_tag)
            }
        }),
{
}

/// The key of a zone is one that may sign keys, and its record carries it as it is.
pub proof fn lemma_zone_keys(key: Seq<u8>, z: FixtureZone)
    requires
        key.len() <= 65531,
    ensures
        signing::zone_key(key).flags == 257,
        signing::zone_key(key).algorithm == 13,
        signing::zone_key(key).public_key == key,
        ({
            let r = signing::key_record(z, key);
            &&& r is Some
            &&& r->0.skip(r->0.len() - key.len()) == key
            &&& wire::be16(r->0, r->0.len() - key.len() - 4) == 257
            &&& r->0[r->0.len() - key.len() - 2] == 3
            &&& r->0[r->0.len() - key.len() - 1] == 13
        }),
{
    let name = signing::zone_labels(z);
    reveal_with_fuel(names::wire_length, 4);
    assert(names::wire_length(name) <= 255);
    assert(signing::is_writable(name));
    let data = rrsets::key_bytes(signing::zone_key(key));
    let r = signing::key_record(z, key)->0;
    let n = r.len() - key.len();
    assert(r.skip(r.len() - data.len()) =~= data);
    assert(r.skip(n) =~= key);
    assert(r[n - 4] == r.skip(r.len() - data.len())[0]);
    assert(r[n - 3] == r.skip(r.len() - data.len())[1]);
    assert(r[n - 2] == r.skip(r.len() - data.len())[2]);
    assert(r[n - 1] == r.skip(r.len() - data.len())[3]);
}

/// A digest record names the tag of the key, the algorithms of key and digest, and the digest.
pub proof fn lemma_digest_fields(tag: u16, digest: Seq<u8>)
    ensures
        ({
            let d = signing::digest_data(tag, digest);
            &&& wire::be16(d, 0) == tag
            &&& d[2] == 13
            &&& d[3] == 2
            &&& d.skip(4) == digest
        }),
{
    let d = signing::digest_data(tag, digest);
    assert(d.subrange(0, 2) =~= wire::bytes16(tag));
    wire::lemma_be16_bytes(d, 0, tag);
    assert(d.skip(4) =~= digest);
}

/// A set that is planned begins with the key of its zone or, where it holds digests, with the
/// digest of that key; a key without a tag has no digest.
pub proof fn lemma_planned_records(plan: signing::SetPlan, key: Seq<u8>)
    ensures
        !plan.digests ==> signing::planned_record(plan, key) == signing::key_record(plan.owner, key),
        plan.digests && rrsets::tag(signing::zone_key(key)) is None ==> signing::planned_record(
            plan,
            key,
        ) is None,
        plan.digests && signing::planned_record(plan, key) is Some ==> signing::planned_record(
            plan,
            key,
        ) == signing::record_of(
            signing::zone_labels(plan.owner),
            43,
            signing::digest_data(
                rrsets::tag(signing::zone_key(key))->0,
                signing::key_digest(signing::zone_labels(plan.owner), signing::zone_key(key), 2)->0,
            ),
        ),
{
}

/// The bootstrap server knows the name server of the benchmark in letters of any case.
pub proof fn lemma_bootstrap(id: u16, name: Seq<char>, qtype: u16)
    requires
        args::query_bytes(id, name, qtype) is Ok,
        forall|i: int|
            0 <= i < text::split(name, '.').len() ==> (#[trigger] text::split(name, '.')[i]).len()
                > 0,
    ensures
        fixture::asks_for_server(args::query_bytes(id, name, qtype)->Ok_0) <==> text::lower(name)
            == text::lower("ns1.bench.test"@),
{
    lemma_query_is_read(id, name, qtype);
}

/// The figures of an answer are those of the document in its body; an answer without a body, with
/// one that is no JSON or without the figures of the resolver gives none.
pub proof fn lemma_stats(head: Seq<char>, body: Seq<char>)
    requires
        !head.contains('\r'),
    ensures
        stats::stats_of(head) == Err::<StatsSnapshot, stats::StatsError>(stats::StatsError::NoBody),
        ({
            let answer = head + seq!['\r', '\n', '\r', '\n'] + body;
            &&& json_doc::json_document(body) is None ==> stats::stats_of(answer) == Err::<
                StatsSnapshot,
                stats::StatsError,
            >(stats::StatsError::NoJson)
            &&& json_doc::json_document(body) is Some ==> stats::stats_of(answer)
                == stats::snapshot_of(json_doc::json_document(body)->0)
        }),
{
    lemma_body(head, body);
}

/// A measured request counts once, under what became of it; one that is not measured does not
/// count.
pub proof fn lemma_tally(t: args::Tally, outcome: args::Outcome)
    requires
        t.total_requests < u64::MAX,
        t.successes < u64::MAX,
        t.timeouts < u64::MAX,
        t.errors < u64::MAX,
    ensures
        args::tallied(t, outcome, false) == t,
        ({
            let n = args::tallied(t, outcome, true);
            &&& n.total_requests == t.total_requests + 1
            &&& n.successes == t.successes + (if outcome is Answered {
                1int
            } else {
                0
            })
            &&& n.timeouts == t.timeouts + (if outcome is TimedOut {
                1int
            } else {
                0
            })
            &&& n.errors == t.errors + (if outcome is Failed {
                1int
            } else {
                0
            })
        }),
{
}

} // verus!
