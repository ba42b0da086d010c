//! What holds of what is read out of packets and of what is written into responses, in the terms of
//! their records.
use crate::codec::address;
use crate::codec::answer;
use crate::codec::edns;
use crate::codec::name;
use crate::codec::query;
use crate::codec::referral;
use crate::codec::repeated;
use crate::codec::respond;
use crate::codec::rr;
use crate::codec::wire;
use crate::ip;
use crate::text;
use crate::text_laws;
use vstd::prelude::*;
use vstd::utf8::*;

verus! {

/// A response over UDP is limited by what the request says, but never to less than 512 bytes, and
/// to 4096 where it says nothing.
pub proof fn lemma_udp_limit(p: Seq<u8>)
    ensures
        edns::udp_limit(p) >= 512,
        match edns::edns(p) {
            Some(e) => edns::udp_limit(p) >= e.udp_payload_size && (edns::udp_limit(p)
                == e.udp_payload_size || edns::udp_limit(p) == 512),
            None => edns::udp_limit(p) == 4096,
        },
{
}

/// The flags of a response say that it is one and that recursion is available, repeat the opcode
/// and the wish for recursion of the request, and hold what is added; nothing else is set.
pub proof fn lemma_response_flags(request: u16, extra: u16)
    ensures
        respond::response_flags(request, extra) & 0x8080 == 0x8080,
        respond::response_flags(request, extra) & 0x7900 == (request | extra) & 0x7900,
        respond::response_flags(request, extra) & 0x067f == extra & 0x067f,
{
    assert((0x8000u16 | (request & 0x7800) | (request & 0x0100) | 0x0080u16 | extra) & 0x8080
        == 0x8080 && (0x8000u16 | (request & 0x7800) | (request & 0x0100) | 0x0080u16 | extra)
        & 0x7900 == (request | extra) & 0x7900 && (0x8000u16 | (request & 0x7800) | (request
        & 0x0100) | 0x0080u16 | extra) & 0x067f == extra & 0x067f) by (bit_vector);
}

/// The types of records that have data in text.
pub open spec fn written_types() -> Seq<u16> {
    seq![1u16, 2u16, 5u16, 12u16, 15u16, 16u16, 28u16]
}

/// The name of a type that has data in text is read as the type, whatever its case; any other word
/// stands for the type that is asked for.
#[verifier::spinoff_prover]
pub proof fn lemma_type_names(t: u16, asked: u16)
    ensures
        written_types().contains(t) ==> respond::type_number(query::type_label(t), asked) == t
            && respond::type_number(text::lower(query::type_label(t)), asked) == t,
        respond::type_number("SOA"@, asked) == asked,
{
    reveal_strlit("A");
    reveal_strlit("NS");
    reveal_strlit("CNAME");
    reveal_strlit("SOA");
    reveal_strlit("PTR");
    reveal_strlit("MX");
    reveal_strlit("TXT");
    reveal_strlit("AAAA");
    lemma_capital("A"@);
    lemma_capital("NS"@);
    lemma_capital("CNAME"@);
    lemma_capital("SOA"@);
    lemma_capital("PTR"@);
    lemma_capital("MX"@);
    lemma_capital("TXT"@);
    lemma_capital("AAAA"@);
    assert("A"@.len() == 1 && "NS"@.len() == 2 && "MX"@.len() == 2 && "SOA"@.len() == 3
        && "PTR"@.len() == 3 && "TXT"@.len() == 3 && "AAAA"@.len() == 4 && "CNAME"@.len() == 5);
    assert("NS"@[0] == 'N' && "MX"@[0] == 'M' && "SOA"@[0] == 'S' && "PTR"@[0] == 'P' && "TXT"@[0]
        == 'T');
    if written_types().contains(t) {
        let i = choose|i: int| 0 <= i < written_types().len() && written_types()[i] == t;
        assert(t == 1 || t == 2 || t == 5 || t == 12 || t == 15 || t == 16 || t == 28);
    }
}

proof fn lemma_capital(s: Seq<char>)
    requires
        forall|i: int| 0 <= i < s.len() ==> 'A' <= #[trigger] s[i] <= 'Z',
    ensures
        text::upper(s) == s,
        text::upper(text::lower(s)) == s,
{
    assert(text::upper(s) =~= s);
    text_laws::lemma_lower(s);
}

/// The data of an option is that of the first one of its code.
pub proof fn lemma_first_option(options: Seq<edns::OptionV>, code: u16, i: int)
    requires
        0 <= i <= options.len(),
        i < options.len() ==> options[i].code == code,
        forall|j: int| 0 <= j < i ==> (#[trigger] options[j]).code != code,
    ensures
        edns::option_data(options, code) == (if i < options.len() {
            Some(options[i].data)
        } else {
            None
        }),
    decreases options.len(),
{
    if options.len() > 0 && i > 0 {
        let rest = options.drop_first();
        assert(options[0].code != code);
        assert forall|j: int| 0 <= j < i - 1 implies (#[trigger] rest[j]).code != code by {
            assert(rest[j] == options[j + 1]);
        }
        lemma_first_option(rest, code, i - 1);
    }
}

/// The endpoint of an address record with four bytes of data is the socket address of these and
/// the port; data of another length and records of other types have none.
pub proof fn lemma_endpoint(rr_type: u16, data: Seq<u8>, port: u16)
    ensures
        rr_type == 1 && data.len() == 4 ==> address::endpoint_of(rr_type, data, port) == Some(
            text_laws::socket_text(data, port),
        ) && ip::socket_port(text_laws::socket_text(data, port)) == Some(port as nat),
        rr_type == 28 && data.len() == 16 ==> address::endpoint_of(rr_type, data, port) is Some
            && address::endpoint_of(rr_type, data, port)->0 == seq!['['] + ip::ipv6_text(data)
            + seq![']', ':'] + text::decimal(port as nat),
        !(rr_type == 1 && data.len() == 4) && !(rr_type == 28 && data.len() == 16)
            ==> address::endpoint_of(rr_type, data, port) is None,
{
    reveal_strlit(":");
    reveal_strlit("[");
    reveal_strlit("]:");
    if rr_type == 1 && data.len() == 4 {
        text_laws::lemma_socket_round_trip(data, port);
        assert(address::endpoint_of(rr_type, data, port)->0 =~= text_laws::socket_text(data, port));
    }
    if rr_type == 28 && data.len() == 16 {
        assert("["@ =~= seq!['[']);
        assert("]:"@ =~= seq![']', ':']);
    }
}

/// The address of a record is read back from its text where it is an address of the Internet
/// class with four bytes of data; records of other classes or types have none.
pub proof fn lemma_address(p: Seq<u8>, r: rr::Rr)
    requires
        0 <= r.rdata <= r.end <= p.len(),
    ensures
        address::address_of(p, r) is Some <==> r.rr_class == 1 && ((r.rr_type == 1 && r.end
            - r.rdata == 4) || (r.rr_type == 28 && r.end - r.rdata == 16)),
        r.rr_type == 1 ==> (address::address_of(p, r) matches Some(a) ==> ip::ipv4_value(a) == Some(
            p.subrange(r.rdata, r.end),
        )),
        r.rr_type == 28 ==> (address::address_of(p, r) matches Some(a) ==> a == ip::ipv6_text(
            p.subrange(r.rdata, r.end),
        )),
{
    if address::address_of(p, r) is Some && r.rr_type == 1 {
        ip::lemma_ipv4_round_trip(p.subrange(r.rdata, r.end));
    }
}

proof fn lemma_position(list: Seq<Seq<char>>, x: Seq<char>)
    ensures
        ({
            let k = address::position(list, x);
            &&& 0 <= k <= list.len()
            &&& k < list.len() ==> list[k] == x
            &&& forall|i: int| 0 <= i < k ==> #[trigger] list[i] != x
        }),
    decreases list.len(),
{
    if list.len() > 0 && list[0] != x {
        let rest = list.drop_first();
        lemma_position(rest, x);
        assert forall|i: int| 0 <= i < address::position(list, x) implies #[trigger] list[i] != x by {
            if i > 0 {
                assert(rest[i - 1] == list[i]);
            }
        }
    }
}

/// An address that is preferred ranks by its first place among the preferred ones, before every
/// address that is not; those rank by their places in the answer.
pub proof fn lemma_ranks(preferred: Seq<Seq<char>>, a: Seq<char>, b: Seq<char>, i: int, j: int)
    requires
        0 <= i,
        0 <= j,
    ensures
        preferred.contains(a) ==> ({
            let k = address::rank_of(preferred, a, i);
            0 <= k < preferred.len() && preferred[k] == a && forall|n: int|
                0 <= n < k ==> #[trigger] preferred[n] != a
        }),
        preferred.contains(a) && !preferred.contains(b) ==> address::rank_of(preferred, a, i)
            < address::rank_of(preferred, b, j),
        !preferred.contains(a) && !preferred.contains(b) && i < j ==> address::rank_of(
            preferred,
            a,
            i,
        ) < address::rank_of(preferred, b, j),
{
    lemma_position(preferred, a);
    lemma_position(preferred, b);
    if preferred.contains(a) {
        let n = choose|n: int| 0 <= n < preferred.len() && preferred[n] == a;
        assert(address::position(preferred, a) <= n);
    }
    if address::position(preferred, b) < preferred.len() {
        assert(preferred.contains(b));
    }
    if address::position(preferred, a) < preferred.len() {
        assert(preferred.contains(a));
    }
}

pub open spec fn by_rank(list: Seq<address::Ranked>) -> bool {
    forall|i: int, j: int|
        0 <= i <= j < list.len() ==> (#[trigger] list[i]).rank <= (#[trigger] list[j]).rank
}

proof fn lemma_insert(sorted: Seq<address::Ranked>, x: address::Ranked)
    requires
        by_rank(sorted),
    ensures
        by_rank(address::insert_ranked(sorted, x)),
        forall|k: int|
            0 <= k < address::insert_ranked(sorted, x).len() ==> (
            #[trigger] address::insert_ranked(sorted, x)[k]) == x || sorted.contains(
                address::insert_ranked(sorted, x)[k],
            ),
    decreases sorted.len(),
{
    let all = address::insert_ranked(sorted, x);
    if sorted.len() == 0 {
    } else if sorted[0].rank <= x.rank {
        let rest = sorted.drop_first();
        assert(forall|k: int| 0 <= k < rest.len() ==> #[trigger] rest[k] == sorted[k + 1]);
        lemma_insert(rest, x);
        let tail = address::insert_ranked(rest, x);
        assert(all == seq![sorted[0]] + tail);
        assert forall|k: int| 0 <= k < all.len() implies (#[trigger] all[k]) == x
            || sorted.contains(all[k]) by {
            if k == 0 {
                assert(sorted[0] == all[k]);
            } else {
                assert(all[k] == tail[k - 1]);
                if tail[k - 1] != x {
                    let n = choose|n: int| 0 <= n < rest.len() && rest[n] == tail[k - 1];
                    assert(sorted[n + 1] == all[k]);
                }
            }
        }
        assert forall|i: int, j: int| 0 <= i <= j < all.len() implies (#[trigger] all[i]).rank <= (
        #[trigger] all[j]).rank by {
            if i > 0 {
                assert(all[i] == tail[i - 1] && all[j] == tail[j - 1]);
            } else if j > 0 {
                assert(all[j] == x || sorted.contains(all[j]));
                if all[j] != x {
                    let n = choose|n: int| 0 <= n < sorted.len() && sorted[n] == all[j];
                    assert(sorted[0].rank <= sorted[n].rank);
                }
            }
        }
    } else {
        assert(all == seq![x] + sorted);
        assert forall|k: int| 0 <= k < all.len() implies (#[trigger] all[k]) == x
            || sorted.contains(all[k]) by {
            if k > 0 {
                assert(sorted[k - 1] == all[k]);
            }
        }
        assert forall|i: int, j: int| 0 <= i <= j < all.len() implies (#[trigger] all[i]).rank <= (
        #[trigger] all[j]).rank by {
            if i > 0 {
                assert(all[i] == sorted[i - 1] && all[j] == sorted[j - 1]);
            } else if j > 0 {
                assert(all[j] == sorted[j - 1]);
                assert(sorted[0].rank <= sorted[j - 1].rank);
            }
        }
    }
}

/// The address records of an answer are put in the order of their ranks.
pub proof fn lemma_ordered_by_rank(p: Seq<u8>, list: Seq<rr::Rr>, preferred: Seq<Seq<char>>)
    ensures
        by_rank(address::ranked(p, list, preferred)),
    decreases list.len(),
{
    if list.len() > 0 {
        lemma_ordered_by_rank(p, list.drop_last(), preferred);
        if let Some(a) = address::address_of(p, list.last()) {
            lemma_insert(
                address::ranked(p, list.drop_last(), preferred),
                address::Ranked {
                    rank: address::rank_of(preferred, a, list.len() - 1),
                    rr: list.last(),
                },
            );
        }
    }
}

/// What is found in the answers to a question: a record of the type, and one that is an alias,
/// count where they belong to the name that was asked for, whatever its case and dots at its end,
/// and are of the Internet class; an alias counts only where its data can be read.
pub proof fn lemma_answer_analysis(p: Seq<u8>, qname: Seq<char>, t: u16)
    requires
        answer::analysis(p, qname, t) is Some,
    ensures
        ({
            let a = answer::analysis(p, qname, t)->0;
            let list = answer::named_answers(p);
            &&& a.rcode == p[3] % 16
            &&& a.has_target_record <==> exists|i: int|
                0 <= i < list.len() && (#[trigger] list[i]).rr.rr_type == t && list[i].rr.rr_class
                    == 1 && text::norm(list[i].owner) == text::norm(qname)
            &&& a.has_owner_cname <==> exists|i: int|
                0 <= i < list.len() && (#[trigger] list[i]).rr.rr_type == 5 && list[i].rr.rr_class
                    == 1 && text::norm(list[i].owner) == text::norm(qname) && name::name_at(
                    p,
                    list[i].rr.rdata,
                ) is Some
        }),
{
    let list = answer::named_answers(p);
    assert(wire::header(p).flags == p[2] * 256 + p[3]);
    assert(wire::header(p).flags % 16 == p[3] % 16);
    if exists|i: int|
        0 <= i < list.len() && (#[trigger] list[i]).rr.rr_type == t && list[i].rr.rr_class == 1
            && text::norm(list[i].owner) == text::norm(qname) {
        let i = choose|i: int|
            0 <= i < list.len() && (#[trigger] list[i]).rr.rr_type == t && list[i].rr.rr_class == 1
                && text::norm(list[i].owner) == text::norm(qname);
        assert(answer::is_record_for(list[i], qname, t));
    }
    if exists|i: int|
        0 <= i < list.len() && (#[trigger] list[i]).rr.rr_type == 5 && list[i].rr.rr_class == 1
            && text::norm(list[i].owner) == text::norm(qname) && name::name_at(
            p,
            list[i].rr.rdata,
        ) is Some {
        let i = choose|i: int|
            0 <= i < list.len() && (#[trigger] list[i]).rr.rr_type == 5 && list[i].rr.rr_class == 1
                && text::norm(list[i].owner) == text::norm(qname) && name::name_at(
                p,
                list[i].rr.rdata,
            ) is Some;
        assert(answer::is_alias_of(p, list[i], qname));
    }
}

/// Whether a record is an alias of the Internet class to a name other than the root.
pub open spec fn points_to(p: Seq<u8>, r: rr::NamedRr, target: Seq<char>) -> bool {
    r.rr.rr_type == 5 && r.rr.rr_class == 1 && target.len() > 0 && (name::name_at(
        p,
        r.rr.rdata,
    ) matches Some(t) && t.0 == target)
}

/// The first target of a list is that of the first alias to a name other than the root.
pub proof fn lemma_first_target(p: Seq<u8>, list: Seq<rr::NamedRr>)
    ensures
        match answer::first_target(p, list) {
            Some(t) => exists|i: int|
                0 <= i < list.len() && points_to(p, #[trigger] list[i], t) && forall|j: int,
                    u: Seq<char>|
                    0 <= j < i ==> !#[trigger] points_to(p, list[j], u),
            None => forall|j: int, u: Seq<char>|
                0 <= j < list.len() ==> !#[trigger] points_to(p, list[j], u),
        },
    decreases list.len(),
{
    if list.len() > 0 {
        let rest = list.drop_first();
        assert(forall|j: int| 0 < j < list.len() ==> #[trigger] list[j] == rest[j - 1]);
        if let Some(t) = answer::cname_target(p, list[0]) {
            assert(points_to(p, list[0], t));
        } else {
            lemma_first_target(p, rest);
            assert(forall|u: Seq<char>| !#[trigger] points_to(p, list[0], u));
            match answer::first_target(p, rest) {
                Some(t) => {
                    let i = choose|i: int|
                        0 <= i < rest.len() && points_to(p, #[trigger] rest[i], t) && forall|j: int,
                            u: Seq<char>|
                            0 <= j < i ==> !#[trigger] points_to(p, rest[j], u);
                    assert(points_to(p, list[i + 1], t));
                    assert forall|j: int, u: Seq<char>| 0 <= j < i + 1 implies !#[trigger] points_to(
                        p,
                        list[j],
                        u,
                    ) by {
                        if j > 0 {
                            assert(!points_to(p, rest[j - 1], u));
                        }
                    }
                },
                None => {
                    assert forall|j: int, u: Seq<char>|
                        0 <= j < list.len() implies !#[trigger] points_to(p, list[j], u) by {
                        if j > 0 {
                            assert(!points_to(p, rest[j - 1], u));
                        }
                    }
                },
            }
        }
    }
}

/// An alias of an answer has an owner and a target with names and the time to live of its record;
/// every such record of the Internet class is among the aliases, and no other.
pub proof fn lemma_aliases(p: Seq<u8>, list: Seq<rr::NamedRr>, c: answer::CnameV)
    ensures
        list.filter_map(|r: rr::NamedRr| answer::cname_of(p, r)).contains(c) <==> exists|i: int|
            0 <= i < list.len() && points_to(p, #[trigger] list[i], c.1) && list[i].owner == c.0
                && c.0.len() > 0 && list[i].rr.ttl == c.2,
{
    let f = |r: rr::NamedRr| answer::cname_of(p, r);
    repeated::lemma_kept(list, f);
    let all = list.filter_map(f);
    if all.contains(c) {
        let i = choose|i: int| 0 <= i < list.len() && f(#[trigger] list[i]) == Some(c);
        assert(points_to(p, list[i], c.1));
    }
    if exists|i: int|
        0 <= i < list.len() && points_to(p, #[trigger] list[i], c.1) && list[i].owner == c.0
            && c.0.len() > 0 && list[i].rr.ttl == c.2 {
        let i = choose|i: int|
            0 <= i < list.len() && points_to(p, #[trigger] list[i], c.1) && list[i].owner == c.0
                && c.0.len() > 0 && list[i].rr.ttl == c.2;
        assert(f(list[i]) == Some(c));
    }
}

/// The endpoints of an answer are those of its address records of the Internet class, in order and
/// each once.
pub proof fn lemma_answer_endpoints(p: Seq<u8>, port: u16, e: Seq<char>)
    requires
        p.len() >= 12,
        rr::scan_complete(p),
    ensures
        text::increasing(answer::answer_endpoints(p, port)),
        answer::answer_endpoints(p, port).contains(e) <==> exists|i: int|
            0 <= i < answer::named_answers(p).len() && (
            #[trigger] answer::named_answers(p)[i]).rr.rr_class == 1 && address::endpoint_of(
                answer::named_answers(p)[i].rr.rr_type,
                p.subrange(
                    answer::named_answers(p)[i].rr.rdata,
                    answer::named_answers(p)[i].rr.end,
                ),
                port,
            ) == Some(e),
{
    let list = answer::named_answers(p);
    let f = |r: rr::NamedRr| answer::answer_endpoint(p, r, port);
    repeated::lemma_kept(list, f);
    let all = list.filter_map(f);
    text::lemma_sorted_set(all);
    if all.contains(e) {
        let i = choose|i: int| 0 <= i < list.len() && f(#[trigger] list[i]) == Some(e);
        assert(list[i].rr.rr_class == 1);
    }
    if exists|i: int|
        0 <= i < list.len() && (#[trigger] list[i]).rr.rr_class == 1 && address::endpoint_of(
            list[i].rr.rr_type,
            p.subrange(list[i].rr.rdata, list[i].rr.end),
            port,
        ) == Some(e) {
        let i = choose|i: int|
            0 <= i < list.len() && (#[trigger] list[i]).rr.rr_class == 1 && address::endpoint_of(
                list[i].rr.rr_type,
                p.subrange(list[i].rr.rdata, list[i].rr.end),
                port,
            ) == Some(e);
        assert(f(list[i]) == Some(e));
    }
}

/// A name lies in a zone exactly where it is the zone or some text, a dot and the zone, both
/// without regard to case and to dots at their ends; every name lies in the root zone, and none
/// in one without a name.
pub proof fn lemma_in_zone(name: Seq<char>, zone: Seq<char>)
    ensures
        text::trim(zone) != seq!['.'] && text::norm(zone).len() > 0 ==> (referral::is_in_zone(
            name,
            zone,
        ) <==> text::norm(name) == text::norm(zone) || exists|head: Seq<char>| #[trigger]
            head.push('.') + text::norm(zone) == text::norm(name)),
        text::trim(zone) == seq!['.'] ==> referral::is_in_zone(name, zone),
        text::trim(zone) != seq!['.'] && text::norm(zone).len() == 0 ==> !referral::is_in_zone(
            name,
            zone,
        ),
{
    let n = text::norm(name);
    let z = text::norm(zone);
    if text::trim(zone) != seq!['.'] && z.len() > 0 {
        text_laws::lemma_under(n, z);
        if n.len() > z.len() {
            let at = n.len() - z.len() - 1;
            if n.skip(at + 1) == z && n[at] == '.' {
                assert(n.take(at).push('.') + z =~= n) by {
                    assert forall|i: int| 0 <= i < n.len() implies (n.take(at).push('.') + z)[i]
                        == #[trigger] n[i] by {
                        if i > at {
                            assert(n.skip(at + 1)[i - at - 1] == n[i]);
                        }
                    }
                }
            }
            if exists|head: Seq<char>| #[trigger] head.push('.') + z == n {
                let head = choose|head: Seq<char>| #[trigger] head.push('.') + z == n;
                assert(n.skip(at + 1) =~= z);
                assert(n[at] == '.');
            }
        }
    }
}

/// Whether a record of the Internet class of the authority section names a server of a zone.
pub open spec fn delegates(r: rr::NamedRr) -> bool {
    r.section == rr::DnsSection::Authority && r.rr.rr_type == 2 && r.rr.rr_class == 1
}

/// A referral names the zones of the delegations of the authority section, the servers that they
/// name and the endpoints of the address records of the additional section, each list in order and
/// without repetition, and says whether the authority section has start-of-authority data; records
/// of other classes and sections do not count.
pub proof fn lemma_referral(p: Seq<u8>, x: Seq<char>)
    requires
        referral::referral(p) is Some,
    ensures
        ({
            let a = referral::referral(p)->0;
            let list = rr::scanned(p);
            &&& text::increasing(a.authority_zones)
            &&& text::increasing(a.authority_ns_hostnames)
            &&& text::increasing(a.glue_nameservers)
            &&& a.authority_zones.contains(x) <==> exists|i: int|
                0 <= i < list.len() && delegates(#[trigger] list[i]) && list[i].owner.len() > 0
                    && text::norm(list[i].owner) == x
            &&& a.authority_ns_hostnames.contains(x) <==> exists|i: int|
                0 <= i < list.len() && delegates(#[trigger] list[i]) && (name::name_at(
                    p,
                    list[i].rr.rdata,
                ) matches Some(h) && h.0.len() > 0 && text::norm(h.0) == x)
            &&& a.glue_nameservers.contains(x) <==> exists|i: int|
                0 <= i < list.len() && (#[trigger] list[i]).section == rr::DnsSection::Additional
                    && list[i].rr.rr_class == 1 && address::endpoint_of(
                    list[i].rr.rr_type,
                    p.subrange(list[i].rr.rdata, list[i].rr.end),
                    53,
                ) == Some(x)
            &&& a.has_authority_soa <==> exists|i: int|
                0 <= i < list.len() && (#[trigger] list[i]).section == rr::DnsSection::Authority
                    && list[i].rr.rr_type == 6 && list[i].rr.rr_class == 1
        }),
{
    let list = rr::scanned(p);
    let f = |r: rr::NamedRr| referral::zone_of(r);
    let g = |r: rr::NamedRr| referral::host_of(p, r);
    let h = |r: rr::NamedRr| referral::glue_of(p, r);
    repeated::lemma_kept(list, f);
    repeated::lemma_kept(list, g);
    repeated::lemma_kept(list, h);
    text::lemma_sorted_set(list.filter_map(f));
    text::lemma_sorted_set(list.filter_map(g));
    text::lemma_sorted_set(list.filter_map(h));
    if list.filter_map(f).contains(x) {
        let i = choose|i: int| 0 <= i < list.len() && f(#[trigger] list[i]) == Some(x);
        assert(delegates(list[i]));
    }
    if exists|i: int|
        0 <= i < list.len() && delegates(#[trigger] list[i]) && list[i].owner.len() > 0
            && text::norm(list[i].owner) == x {
        let i = choose|i: int|
            0 <= i < list.len() && delegates(#[trigger] list[i]) && list[i].owner.len() > 0
                && text::norm(list[i].owner) == x;
        assert(f(list[i]) == Some(x));
    }
    if list.filter_map(g).contains(x) {
        let i = choose|i: int| 0 <= i < list.len() && g(#[trigger] list[i]) == Some(x);
        assert(delegates(list[i]));
    }
    if exists|i: int|
        0 <= i < list.len() && delegates(#[trigger] list[i]) && (name::name_at(
            p,
            list[i].rr.rdata,
        ) matches Some(n) && n.0.len() > 0 && text::norm(n.0) == x) {
        let i = choose|i: int|
            0 <= i < list.len() && delegates(#[trigger] list[i]) && (name::name_at(
                p,
                list[i].rr.rdata,
            ) matches Some(n) && n.0.len() > 0 && text::norm(n.0) == x);
        assert(g(list[i]) == Some(x));
    }
    if list.filter_map(h).contains(x) {
        let i = choose|i: int| 0 <= i < list.len() && h(#[trigger] list[i]) == Some(x);
        assert(list[i].section == rr::DnsSection::Additional);
    }
    if exists|i: int|
        0 <= i < list.len() && (#[trigger] list[i]).section == rr::DnsSection::Additional
            && list[i].rr.rr_class == 1 && address::endpoint_of(
            list[i].rr.rr_type,
            p.subrange(list[i].rr.rdata, list[i].rr.end),
            53,
        ) == Some(x) {
        let i = choose|i: int|
            0 <= i < list.len() && (#[trigger] list[i]).section == rr::DnsSection::Additional
                && list[i].rr.rr_class == 1 && address::endpoint_of(
                list[i].rr.rr_type,
                p.subrange(list[i].rr.rdata, list[i].rr.end),
                53,
            ) == Some(x);
        assert(h(list[i]) == Some(x));
    }
    if exists|i: int|
        0 <= i < list.len() && (#[trigger] list[i]).section == rr::DnsSection::Authority
            && list[i].rr.rr_type == 6 && list[i].rr.rr_class == 1 {
        let i = choose|i: int|
            0 <= i < list.len() && (#[trigger] list[i]).section == rr::DnsSection::Authority
                && list[i].rr.rr_type == 6 && list[i].rr.rr_class == 1;
        assert(referral::is_authority_soa(list[i]));
    }
}

/// A referral may be followed only where it has zones and every one of them is the name that was
/// asked for or above it; one zone beside that spoils it.
pub proof fn lemma_one_foreign_zone_spoils(
    qname: Seq<char>,
    a: referral::ReferralV,
    i: int,
)
    ensures
        a.authority_zones.len() == 0 ==> !referral::zones_valid(qname, a),
        0 <= i < a.authority_zones.len() && !referral::is_in_zone(qname, a.authority_zones[i])
            ==> !referral::zones_valid(qname, a),
        a.authority_zones.len() > 0 && (forall|k: int|
            0 <= k < a.authority_zones.len() ==> referral::is_in_zone(
                qname,
                #[trigger] a.authority_zones[k],
            )) ==> referral::zones_valid(qname, a),
        a.authority_zones == seq![qname] && text::norm(qname).len() > 0 ==> referral::zones_valid(
            qname,
            a,
        ),
{
    if a.authority_zones == seq![qname] && text::norm(qname).len() > 0 {
        assert(a.authority_zones[0] == qname);
        assert(referral::is_in_zone(qname, qname));
    }
}

/// Full glue for servers inside the zones, without start-of-authority data, is trusted fully; each
/// of start-of-authority data and a server outside the zones takes a fifth of that, and glue for
/// less than all servers takes a fifth, for less than half of them two.
pub proof fn lemma_trust(a: referral::ReferralV)
    ensures
        ({
            let ns = a.authority_ns_hostnames.len();
            let glue = a.glue_nameservers.len();
            let clean = referral::ReferralV { has_authority_soa: false, ..a };
            let marked = referral::ReferralV { has_authority_soa: true, ..a };
            &&& referral::trust(clean) == referral::trust(marked) + 20
            &&& referral::trust(a) == 100 <==> glue >= ns && !a.has_authority_soa
                && referral::hosts_in_zone(a)
            &&& !a.has_authority_soa && referral::hosts_in_zone(a) ==> {
                &&& glue < ns && 2 * glue >= ns ==> referral::trust(a) == 80
                &&& 2 * glue < ns ==> referral::trust(a) == 60
            }
            &&& !a.has_authority_soa && glue >= ns && !referral::hosts_in_zone(a)
                ==> referral::trust(a) == 80
        }),
        referral::coverage(a).0 <= referral::coverage(a).1,
        referral::coverage(a).1 > 0,
        referral::coverage(a).0 == referral::coverage(a).1 <==> a.glue_nameservers.len()
            >= a.authority_ns_hostnames.len(),
{
}

/// Where the servers of a referral lie in its zones, each of them lies in one; a single server that
/// lies in none spoils it.
pub proof fn lemma_servers_in_zones(a: referral::ReferralV, i: int)
    requires
        0 <= i < a.authority_ns_hostnames.len(),
    ensures
        referral::hosts_in_zone(a) ==> exists|j: int|
            0 <= j < a.authority_zones.len() && referral::is_in_zone(
                a.authority_ns_hostnames[i],
                #[trigger] a.authority_zones[j],
            ),
        (forall|j: int|
            0 <= j < a.authority_zones.len() ==> !referral::is_in_zone(
                a.authority_ns_hostnames[i],
                #[trigger] a.authority_zones[j],
            )) ==> !referral::hosts_in_zone(a),
        a.authority_ns_hostnames.len() == 1 && (exists|j: int|
            0 <= j < a.authority_zones.len() && referral::is_in_zone(
                a.authority_ns_hostnames[i],
                #[trigger] a.authority_zones[j],
            )) ==> referral::hosts_in_zone(a),
{
    if referral::hosts_in_zone(a) {
        assert(referral::in_some_zone(a.authority_ns_hostnames[i], a.authority_zones));
    }
}

/// The texts that the data of a TXT record holds, one behind the other; nothing where a length does
/// not fit.
pub open spec fn txt_text(data: Seq<u8>) -> Option<Seq<u8>>
    decreases data.len(),
{
    if data.len() == 0 {
        Some(Seq::empty())
    } else if 1 + data[0] > data.len() {
        None
    } else {
        match txt_text(data.skip(1 + data[0])) {
            Some(rest) => Some(data.subrange(1, 1 + data[0]) + rest),
            None => None,
        }
    }
}

/// A text is read back from the data of a TXT record.
pub proof fn lemma_txt_round_trip(bytes: Seq<u8>)
    ensures
        txt_text(respond::txt_data(bytes)) == Some(bytes),
    decreases bytes.len(),
{
    let data = respond::txt_data(bytes);
    if bytes.len() == 0 {
        assert(bytes =~= Seq::empty());
    } else if bytes.len() <= 255 {
        assert(data.skip(1 + data[0]) =~= Seq::empty());
        assert(data.subrange(1, 1 + data[0]) =~= bytes);
        assert(txt_text(data.skip(1 + data[0])) == Some(Seq::<u8>::empty()));
        assert(bytes + Seq::<u8>::empty() =~= bytes);
    } else {
        let rest = bytes.skip(255);
        lemma_txt_round_trip(rest);
        assert(data.skip(1 + data[0]) =~= respond::txt_data(rest));
        assert(data.subrange(1, 1 + data[0]) =~= bytes.take(255));
        assert(bytes.take(255) + rest =~= bytes);
    }
}

/// The data of a record in text: the octets of an address, the labels of a name, the bytes of a
/// text in pieces; data that cannot be written, and that of other types, is refused.
pub proof fn lemma_data_in_text(answer: Seq<char>, t: u16, o: Seq<u8>)
    ensures
        o.len() == 4 ==> respond::rdata_of(1, ip::ipv4_text(o)) == Some(o),
        respond::rdata_of(5, answer) == name::name_bytes(answer),
        respond::rdata_of(2, answer) == respond::rdata_of(5, answer),
        respond::rdata_of(12, answer) == respond::rdata_of(5, answer),
        respond::rdata_of(16, answer) matches Some(d) && txt_text(d) == Some(encode_utf8(answer)),
        !written_types().contains(t) ==> respond::rdata_of(t, answer) is None,
{
    if o.len() == 4 {
        ip::lemma_ipv4_round_trip(o);
    }
    lemma_txt_round_trip(encode_utf8(answer));
    let l = written_types();
    assert(l[0] == 1 && l[1] == 2 && l[2] == 5 && l[3] == 12 && l[4] == 15 && l[5] == 16 && l[6]
        == 28);
}

proof fn lemma_space(s: Seq<char>)
    ensures
        ({
            let k = respond::first_space(s);
            &&& 0 <= k <= s.len()
            &&& k < s.len() ==> s[k] == ' '
            &&& forall|i: int| 0 <= i < k ==> #[trigger] s[i] != ' '
        }),
    decreases s.len(),
{
    if s.len() > 0 && s[0] != ' ' {
        let rest = s.drop_first();
        lemma_space(rest);
        assert forall|i: int| 0 <= i < respond::first_space(s) implies #[trigger] s[i] != ' ' by {
            if i > 0 {
                assert(rest[i - 1] == s[i]);
            }
        }
    }
}

/// The data of an MX record that is written as a number, a space and a host is the number in two
/// bytes and the name of the host.
pub proof fn lemma_mx_data(n: u16, host: Seq<char>)
    requires
        host.len() > 0,
        !text::is_white(host[0]),
        !text::is_white(host.last()),
        name::name_bytes(host) is Some,
    ensures
        respond::mx_data(text::decimal(n as nat).push(' ') + host) == Some(
            wire::bytes16(n) + name::name_bytes(host)->0,
        ),
{
    let a = text::decimal(n as nat);
    let s = a.push(' ') + host;
    text_laws::lemma_number_round_trip(n as nat, 0xffff);
    text_laws::lemma_decimal(n as nat);
    assert(text::is_digit(a[0]));
    assert(s[0] == a[0]);
    assert(s.last() == host.last());
    text_laws::lemma_trimmed(s);
    text_laws::lemma_trimmed(host);
    lemma_space(s);
    let k = respond::first_space(s);
    assert(s[a.len() as int] == ' ');
    assert(k == a.len()) by {
        if k < a.len() {
            assert(s[k] == a[k]);
            assert(text::is_digit(a[k]));
        }
    }
    assert(s.take(k) =~= a);
    assert(s.skip(k + 1) =~= host);
}

} // verus!
