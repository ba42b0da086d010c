//! What holds of alias chains and of responses that are cut: which records stay.
use crate::codec::answer;
use crate::codec::dns_rfc_patch;
use crate::codec::edns;
use crate::codec::name;
use crate::codec::query;
use crate::codec::repeated;
use crate::codec::rewrite;
use crate::codec::rr;
use crate::codec::wire;
use crate::text;
use vstd::prelude::*;

verus! {

/// Whether a record is one of class IN of a type and a name.
pub open spec fn stands_for(r: rr::NamedRr, target: Seq<char>, qtype: u16) -> bool {
    r.rr.rr_type == qtype && r.rr.rr_class == 1 && text::norm(r.owner) == text::norm(target)
}

/// The records at the end of a chain are those of the asked type and of the name that the chain
/// leads to, all of them and no others.
proof fn lemma_terminals(
    p: Seq<u8>,
    list: Seq<rr::NamedRr>,
    target: Seq<char>,
    qtype: u16,
    i: int,
    x: answer::RecordV,
)
    ensures
        ({
            let all = dns_rfc_patch::terminals(p, list, target, qtype);
            &&& 0 <= i < list.len() && stands_for(list[i], target, qtype) ==> all.contains(
                answer::record_of(p, list[i]),
            )
            &&& all.contains(x) ==> x.1 == qtype && x.2 == 1 && text::norm(x.0) == text::norm(
                target,
            )
        }),
{
    let f = |r: rr::NamedRr| dns_rfc_patch::terminal_of(p, r, target, qtype);
    repeated::lemma_kept(list, f);
    let all = dns_rfc_patch::terminals(p, list, target, qtype);
    if 0 <= i < list.len() && stands_for(list[i], target, qtype) {
        assert(f(list[i]) is Some);
    }
    if all.contains(x) {
        let k = choose|k: int| 0 <= k < list.len() && f(#[trigger] list[k]) == Some(x);
        assert(f(list[k]) == Some(answer::record_of(p, list[k])));
    }
}

/// What ends a chain is taken from the answers as soon as one of them is of the asked type and
/// name, and then all such answers are taken; whatever is taken is of that type and name.
pub proof fn lemma_chain_ends_in_the_answers(
    p: Seq<u8>,
    target: Seq<char>,
    qtype: u16,
    i: int,
    j: int,
    x: answer::RecordV,
)
    requires
        0 <= i < answer::named_answers(p).len(),
        0 <= j < answer::named_answers(p).len(),
        stands_for(answer::named_answers(p)[i], target, qtype),
        stands_for(answer::named_answers(p)[j], target, qtype),
    ensures
        ({
            let end = dns_rfc_patch::chain_end(p, target, qtype);
            &&& end is Some
            &&& end->0.contains(answer::record_of(p, answer::named_answers(p)[j]))
            &&& end->0.contains(x) ==> x.1 == qtype && x.2 == 1 && text::norm(x.0) == text::norm(
                target,
            )
        }),
{
    let list = answer::named_answers(p);
    lemma_terminals(p, list, target, qtype, i, x);
    lemma_terminals(p, list, target, qtype, j, x);
}

/// Where no answer is of the asked type and name, the additional records are looked at, and those
/// of that type and name end the chain.
pub proof fn lemma_chain_ends_in_the_additionals(
    p: Seq<u8>,
    target: Seq<char>,
    qtype: u16,
    j: int,
    x: answer::RecordV,
)
    requires
        forall|i: int|
            0 <= i < answer::named_answers(p).len() ==> !stands_for(
                #[trigger] answer::named_answers(p)[i],
                target,
                qtype,
            ),
        dns_rfc_patch::chain_end(p, target, qtype) is Some,
    ensures
        ({
            let list = dns_rfc_patch::named_additionals(p);
            let end = dns_rfc_patch::chain_end(p, target, qtype)->0;
            &&& 0 <= j < list.len() && stands_for(list[j], target, qtype) ==> end.contains(
                answer::record_of(p, list[j]),
            )
            &&& end.contains(x) ==> x.1 == qtype && x.2 == 1 && text::norm(x.0) == text::norm(target)
        }),
{
    let answers = answer::named_answers(p);
    let here = dns_rfc_patch::terminals(p, answers, target, qtype);
    let f = |r: rr::NamedRr| dns_rfc_patch::terminal_of(p, r, target, qtype);
    repeated::lemma_kept(answers, f);
    if here.len() > 0 {
        assert(here.contains(here[0]));
        let k = choose|k: int| 0 <= k < answers.len() && f(#[trigger] answers[k]) == Some(here[0]);
        assert(stands_for(answers[k], target, qtype));
    }
    lemma_terminals(p, dns_rfc_patch::named_additionals(p), target, qtype, j, x);
}

/// The links of a chain are the aliases of class IN among the answers, each with its own name, the
/// name it leads to and its time to live.
pub proof fn lemma_links(p: Seq<u8>, i: int, c: answer::CnameV)
    ensures
        ({
            let list = answer::named_answers(p);
            &&& 0 <= i < list.len() && list[i].rr.rr_type == 5 && list[i].rr.rr_class == 1
                && name::name_at(p, list[i].rr.rdata) is Some ==> dns_rfc_patch::links(p).contains(
                (list[i].owner, (name::name_at(p, list[i].rr.rdata)->0).0, list[i].rr.ttl),
            )
            &&& dns_rfc_patch::links(p).contains(c) ==> exists|k: int|
                0 <= k < list.len() && (#[trigger] list[k]).rr.rr_type == 5 && list[k].rr.rr_class
                    == 1 && list[k].owner == c.0 && list[k].rr.ttl == c.2
        }),
{
    let list = answer::named_answers(p);
    let f = |r: rr::NamedRr| dns_rfc_patch::link_of(p, r);
    repeated::lemma_kept(list, f);
    if 0 <= i < list.len() && list[i].rr.rr_type == 5 && list[i].rr.rr_class == 1 && name::name_at(
        p,
        list[i].rr.rdata,
    ) is Some {
        assert(f(list[i]) is Some);
    }
    if dns_rfc_patch::links(p).contains(c) {
        let k = choose|k: int| 0 <= k < list.len() && f(#[trigger] list[k]) == Some(c);
        assert(list[k].rr.rr_type == 5);
    }
}

/// An answer without an alias is left as it is, and so is one whose chain leads to nothing.
pub proof fn lemma_no_chain(p: Seq<u8>, qtype: u16)
    ensures
        dns_rfc_patch::chain_parts(p, qtype) is Some && dns_rfc_patch::links(p).len() == 0
            ==> dns_rfc_patch::chain_parts(p, qtype)->0 is None,
        dns_rfc_patch::chain_parts(p, qtype) is Some && dns_rfc_patch::links(p).len() > 0 && (
        dns_rfc_patch::chain_end(p, dns_rfc_patch::links(p).last().1, qtype) matches Some(end)
            && end.len() == 0) ==> dns_rfc_patch::chain_parts(p, qtype)->0 is None,
        p.len() < 12 ==> dns_rfc_patch::chain_parts(p, qtype) is None,
{
}

/// A response that is cut keeps its question. It answers the OPT record of its request where that
/// fits beside the question, and says nothing of it where it does not.
pub proof fn lemma_cut_responses(request: Seq<u8>, response: Seq<u8>)
    requires
        response.len() > edns::udp_limit(request),
    ensures
        ({
            let t = rewrite::truncated(request, response);
            let end = (query::first_question(response)->0).2;
            let opt = edns::opt_bytes(request);
            &&& t is Some <==> query::first_question(response) is Some
            &&& t is Some ==> t->0.len() >= end && t->0.subrange(12, end) == response.subrange(
                12,
                end,
            ) && t->0[4] == response[4] && t->0[5] == response[5]
            &&& t is Some && opt is Some && end + opt->0.len() <= edns::udp_limit(request)
                ==> t->0.skip(end) == opt->0 && wire::be16(t->0, 10) == 1
            &&& t is Some && (opt is None || end + opt->0.len() > edns::udp_limit(request))
                ==> t->0.len() == end && wire::be16(t->0, 10) == 0
        }),
{
    if query::first_question(response) is Some {
        query::lemma_first_question_end(response);
        let end = (query::first_question(response)->0).2;
        let t = rewrite::truncated(request, response)->0;
        let cut = rewrite::cut_to_question(response, end);
        assert(cut.len() == end);
        assert(t.subrange(12, end) =~= response.subrange(12, end));
        assert(t[4] == response[4] && t[5] == response[5]);
        if let Some(opt) = edns::opt_bytes(request) {
            if end + opt.len() <= edns::udp_limit(request) {
                assert(t.skip(end) =~= opt);
                assert(t.subrange(10, 12) =~= wire::bytes16(1));
                wire::lemma_be16_bytes(t, 10, 1);
            } else {
                assert(t.subrange(10, 12) =~= wire::bytes16(0));
                wire::lemma_be16_bytes(t, 10, 0);
            }
        } else {
            assert(t.subrange(10, 12) =~= wire::bytes16(0));
            wire::lemma_be16_bytes(t, 10, 0);
        }
    }
}

} // verus!
