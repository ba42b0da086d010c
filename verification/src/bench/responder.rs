//! The signing server of the benchmark: what it reads of a request, and what it replies.
use crate::bench::fixture;
use crate::bench::fixture::{build_empty_noerror_response, choose_answer, FixtureAnswer};
use crate::bench::signing;
use crate::bench::signing::{zone_name, FixtureZone};
use crate::dnssec::names;
use crate::dnssec::names::{labels_of, DnsName};
use hickory_proto::op::{Edns, Message, MessageType, Query};
use hickory_proto::rr::{Name, Record};
use hickory_proto::serialize::binary::BinDecodable;
use vstd::prelude::*;

verus! {

/// The first question of a request: the labels of its name, the text of its name, and its type.
#[derive(Debug)]
pub struct FixtureQuestion {
    pub name: DnsName,
    pub text: String,
    pub query_type: u16,
}

/// What the server reads of a request. The last field holds the size and the DO flag of its OPT
/// record.
#[derive(Debug)]
pub struct FixtureRequest {
    pub id: u16,
    pub recursion_desired: bool,
    pub question: Option<FixtureQuestion>,
    pub edns: Option<(u16, bool)>,
}

pub ghost struct RequestV {
    pub id: u16,
    pub recursion_desired: bool,
    pub question: Option<(Seq<Seq<u8>>, Seq<char>, u16)>,
    pub edns: Option<(u16, bool)>,
}

impl View for FixtureRequest {
    type V = RequestV;

    open spec fn view(&self) -> RequestV {
        RequestV {
            id: self.id,
            recursion_desired: self.recursion_desired,
            question: match self.question {
                Some(q) => Some((q.name@, q.text@, q.query_type)),
                None => None,
            },
            edns: self.edns,
        }
    }
}

pub open spec fn request_result(r: Result<FixtureRequest, String>) -> Result<RequestV, Seq<char>> {
    match r {
        Ok(m) => Ok(m@),
        Err(s) => Err(s@),
    }
}

/// What hickory-proto decodes of a request: its identifier, its recursion flag, its first question
/// and what its OPT record says. An error carries its words.
pub uninterp spec fn request_data(packet: Seq<u8>) -> Result<RequestV, Seq<char>>;

/// Calls `hickory_proto::op::Message::from_vec`, and `to_ascii` of the name of the first question.
/// The result is a function of the packet. A packet without a whole header gives an error.
#[verifier::external_body]
fn decode_request(packet: &[u8]) -> (r: Result<FixtureRequest, String>)
    ensures
        request_result(r) == request_data(packet@),
        r is Ok ==> packet@.len() >= 12,
{
    let m = Message::from_vec(packet).map_err(|e| e.to_string())?;
    Ok(FixtureRequest {
        id: m.id(),
        recursion_desired: m.recursion_desired(),
        question: m.query().map(|q| FixtureQuestion {
            name: labels_of(q.name()),
            text: q.name().to_ascii(),
            query_type: q.query_type().into(),
        }),
        edns: m.extensions().as_ref().map(|e| (e.max_payload(), e.flags().dnssec_ok)),
    })
}

/// A reply: its header, its question, the wire forms of its answers, and what its OPT record says.
#[derive(Debug)]
pub struct FixtureReply {
    pub id: u16,
    pub recursion_desired: bool,
    pub recursion_available: bool,
    pub name: DnsName,
    pub query_type: u16,
    pub answers: Vec<Vec<u8>>,
    pub edns: Option<(u16, bool)>,
}

pub ghost struct ReplyV {
    pub id: u16,
    pub recursion_desired: bool,
    pub recursion_available: bool,
    pub name: Seq<Seq<u8>>,
    pub query_type: u16,
    pub answers: Seq<Seq<u8>>,
    pub edns: Option<(u16, bool)>,
}

impl View for FixtureReply {
    type V = ReplyV;

    open spec fn view(&self) -> ReplyV {
        ReplyV {
            id: self.id,
            recursion_desired: self.recursion_desired,
            recursion_available: self.recursion_available,
            name: self.name@,
            query_type: self.query_type,
            answers: names::byte_views(self.answers@),
            edns: self.edns,
        }
    }
}

/// The packet that hickory-proto writes for a reply; none where it gives an error.
pub uninterp spec fn reply_bytes(m: ReplyV) -> Option<Seq<u8>>;

/// Calls `hickory_proto::op::Message::to_vec` on a response with these flags, this question of
/// class IN, the answers read back from their wire forms, and an OPT record of version zero
/// without options where there is one. An error, a name that is none, and an answer that cannot
/// be read back are `None`. The result is a function of the reply.
#[verifier::external_body]
fn encode_reply(m: &FixtureReply) -> (r: Option<Vec<u8>>)
    ensures
        signing::optional_bytes(r) == reply_bytes(m@),
{
    let name = Name::from_labels(m.name.labels.clone()).ok()?;
    let answers: Result<Vec<Record>, _> = m.answers.iter().map(|a| Record::from_bytes(a)).collect();
    let mut out = Message::new();
    out.set_id(m.id).set_message_type(MessageType::Response);
    out.set_recursion_desired(m.recursion_desired).set_recursion_available(m.recursion_available);
    out.add_query(Query::query(name, m.query_type.into())).add_answers(answers.ok()?);
    *out.extensions_mut() = m.edns.map(|(size, dnssec_ok)| {
        let mut edns = Edns::new();
        edns.set_max_payload(size).set_dnssec_ok(dnssec_ok);
        edns
    });
    out.to_vec().ok()
}

/// The reply to a request: its identifier, its recursion flag and what its OPT record says come
/// back, with the question and the answers that are given.
pub open spec fn reply_to(
    request: RequestV,
    name: names::NameV,
    query_type: u16,
    answers: Seq<Seq<u8>>,
) -> ReplyV {
    ReplyV {
        id: request.id,
        recursion_desired: request.recursion_desired,
        recursion_available: true,
        name,
        query_type,
        answers,
        edns: request.edns,
    }
}

/// Makes a copy of a list of wire forms.
fn copy_answers(list: &Vec<Vec<u8>>) -> (r: Vec<Vec<u8>>)
    ensures
        names::byte_views(r@) == names::byte_views(list@),
{
    let ghost all = names::byte_views(list@);
    let mut out: Vec<Vec<u8>> = Vec::new();
    let mut i: usize = 0;
    assert(names::byte_views(out@) =~= all.take(0));
    while i < list.len()
        invariant
            i <= list@.len(),
            all == names::byte_views(list@),
            names::byte_views(out@) == all.take(i as int),
        decreases list@.len() - i,
    {
        let ghost before = names::byte_views(out@);
        let copy = names::copy_bytes(&list[i]);
        out.push(copy);
        assert(all[i as int] == list@[i as int]@);
        assert(names::byte_views(out@) =~= before.push(copy@));
        assert(before.push(all[i as int]) =~= all.take(i + 1));
        i = i + 1;
    }
    assert(all.take(i as int) =~= all);
    out
}

/// The reply to a request.
pub fn build_reply(
    request: &FixtureRequest,
    name: &DnsName,
    query_type: u16,
    answers: &Vec<Vec<u8>>,
) -> (r: FixtureReply)
    ensures
        r@ == reply_to(request@, name@, query_type, names::byte_views(answers@)),
{
    FixtureReply {
        id: request.id,
        recursion_desired: request.recursion_desired,
        recursion_available: true,
        name: names::copy_name(name),
        query_type,
        answers: copy_answers(answers),
        edns: request.edns,
    }
}

/// The packet of the reply to a request that was decoded, or could not be.
pub open spec fn response_packet(
    request: Result<RequestV, Seq<char>>,
    name: names::NameV,
    query_type: u16,
    answers: Seq<Seq<u8>>,
) -> Option<Seq<u8>> {
    match request {
        Err(_) => None,
        Ok(m) => reply_bytes(reply_to(m, name, query_type, answers)),
    }
}

/// The packet of the reply to a request; none where the request cannot be read or the reply cannot
/// be written.
pub fn dnssec_response_packet(
    request: &[u8],
    qname: &DnsName,
    qtype: u16,
    answers: &Vec<Vec<u8>>,
) -> (r: Option<Vec<u8>>)
    ensures
        signing::optional_bytes(r) == response_packet(
            request_data(request@),
            qname@,
            qtype,
            names::byte_views(answers@),
        ),
{
    match decode_request(request) {
        Err(_) => None,
        Ok(m) => encode_reply(&build_reply(&m, qname, qtype, answers)),
    }
}

/// The wire forms of the sets that the server signs beforehand.
#[derive(Debug)]
pub struct DnssecFixture {
    pub root_keys: Vec<Vec<u8>>,
    pub com_keys: Vec<Vec<u8>>,
    pub child_keys: Vec<Vec<u8>>,
    pub com_digests: Vec<Vec<u8>>,
    pub child_digests: Vec<Vec<u8>>,
}

pub ghost struct FixtureV {
    pub root_keys: Seq<Seq<u8>>,
    pub com_keys: Seq<Seq<u8>>,
    pub child_keys: Seq<Seq<u8>>,
    pub com_digests: Seq<Seq<u8>>,
    pub child_digests: Seq<Seq<u8>>,
}

impl View for DnssecFixture {
    type V = FixtureV;

    open spec fn view(&self) -> FixtureV {
        FixtureV {
            root_keys: names::byte_views(self.root_keys@),
            com_keys: names::byte_views(self.com_keys@),
            child_keys: names::byte_views(self.child_keys@),
            com_digests: names::byte_views(self.com_digests@),
            child_digests: names::byte_views(self.child_digests@),
        }
    }
}

/// What the server does with a request: it sends a packet, or has the address record of a name
/// signed with the key of a zone and sends that.
#[derive(Debug)]
pub enum FixtureStep {
    Send(Vec<u8>),
    SignAddress(DnsName, FixtureZone),
}

pub ghost enum StepV {
    Send(Seq<u8>),
    SignAddress(Seq<Seq<u8>>, FixtureZone),
}

/// Why a request is not answered.
#[derive(Debug)]
pub enum FixtureError {
    /// The request is no message; the words of the decoder.
    Malformed(String),
    /// The request asks for nothing.
    NoQuestion,
    /// The reply cannot be written.
    Unwritable,
}

pub ghost enum FixtureErrorV {
    Malformed(Seq<char>),
    NoQuestion,
    Unwritable,
}

impl View for FixtureError {
    type V = FixtureErrorV;

    open spec fn view(&self) -> FixtureErrorV {
        match *self {
            FixtureError::Malformed(s) => FixtureErrorV::Malformed(s@),
            FixtureError::NoQuestion => FixtureErrorV::NoQuestion,
            FixtureError::Unwritable => FixtureErrorV::Unwritable,
        }
    }
}

impl View for FixtureStep {
    type V = StepV;

    open spec fn view(&self) -> StepV {
        match *self {
            FixtureStep::Send(b) => StepV::Send(b@),
            FixtureStep::SignAddress(n, z) => StepV::SignAddress(n@, z),
        }
    }
}

pub open spec fn step_result(r: Result<FixtureStep, FixtureError>) -> Result<
    StepV,
    FixtureErrorV,
> {
    match r {
        Ok(s) => Ok(s@),
        Err(e) => Err(e@),
    }
}

/// The packet of a reply that is sent, where it can be written.
pub open spec fn sent(packet: Option<Seq<u8>>) -> Result<StepV, FixtureErrorV> {
    match packet {
        Some(b) => Ok(StepV::Send(b)),
        None => Err(FixtureErrorV::Unwritable),
    }
}

/// The wire forms of the set that is answered with, and the zone that it belongs to.
pub open spec fn set_of(sets: FixtureV, answer: FixtureAnswer) -> Option<
    (FixtureZone, Seq<Seq<u8>>),
> {
    match answer {
        FixtureAnswer::RootKeys => Some((FixtureZone::Root, sets.root_keys)),
        FixtureAnswer::ComKeys => Some((FixtureZone::Com, sets.com_keys)),
        FixtureAnswer::ChildKeys => Some((FixtureZone::Child, sets.child_keys)),
        FixtureAnswer::ComDigests => Some((FixtureZone::Com, sets.com_digests)),
        FixtureAnswer::ChildDigests => Some((FixtureZone::Child, sets.child_digests)),
        FixtureAnswer::Address => None,
        FixtureAnswer::Nothing => None,
    }
}

/// The sets that are answered with are those that are planned, each under the zone it is planned
/// for.
pub proof fn lemma_planned_sets(sets: FixtureV, answer: FixtureAnswer)
    ensures
        set_of(sets, answer) is Some <==> signing::plan_of(answer) is Some,
        set_of(sets, answer) matches Some((zone, _)) ==> signing::plan_of(answer)->0.owner == zone,
{
}

/// What the server does with a request that was decoded, or could not be.
pub open spec fn next_step(
    sets: FixtureV,
    request: Result<RequestV, Seq<char>>,
    packet: Seq<u8>,
) -> Result<StepV, FixtureErrorV> {
    match request {
        Err(s) => Err(FixtureErrorV::Malformed(s)),
        Ok(m) => match m.question {
            None => Err(FixtureErrorV::NoQuestion),
            Some((name, text, query_type)) => {
                let answer = fixture::fixture_answer(text, query_type);
                match set_of(sets, answer) {
                    Some((zone, set)) => sent(
                        reply_bytes(reply_to(m, signing::zone_labels(zone), query_type, set)),
                    ),
                    None => if answer == FixtureAnswer::Address {
                        Ok(StepV::SignAddress(name, FixtureZone::Child))
                    } else {
                        Ok(StepV::Send(fixture::response_start(packet, 0, 0)))
                    },
                }
            },
        },
    }
}

impl DnssecFixture {
    fn send_set(&self, m: &FixtureRequest, zone: FixtureZone, query_type: u16, set: &Vec<Vec<u8>>)
        -> (r: Result<FixtureStep, FixtureError>)
        ensures
            step_result(r) == sent(
                reply_bytes(
                    reply_to(
                        m@,
                        signing::zone_labels(zone),
                        query_type,
                        names::byte_views(set@),
                    ),
                ),
            ),
    {
        match encode_reply(&build_reply(m, &zone_name(zone), query_type, set)) {
            Some(b) => Ok(FixtureStep::Send(b)),
            None => Err(FixtureError::Unwritable),
        }
    }

    /// What the server does with a request that was decoded.
    pub fn respond_to(&self, m: FixtureRequest, packet: &[u8]) -> (r: Result<
        FixtureStep,
        FixtureError,
    >)
        requires
            packet@.len() >= 12,
        ensures
            step_result(r) == next_step(self@, Ok(m@), packet@),
    {
        let (answer, query_type) = match &m.question {
            None => {
                return Err(FixtureError::NoQuestion);
            },
            Some(q) => (choose_answer(q.text.as_str(), q.query_type), q.query_type),
        };
        match answer {
            FixtureAnswer::RootKeys => {
                self.send_set(&m, FixtureZone::Root, query_type, &self.root_keys)
            },
            FixtureAnswer::ComKeys => {
                self.send_set(&m, FixtureZone::Com, query_type, &self.com_keys)
            },
            FixtureAnswer::ChildKeys => {
                self.send_set(&m, FixtureZone::Child, query_type, &self.child_keys)
            },
            FixtureAnswer::ComDigests => {
                self.send_set(&m, FixtureZone::Com, query_type, &self.com_digests)
            },
            FixtureAnswer::ChildDigests => {
                self.send_set(&m, FixtureZone::Child, query_type, &self.child_digests)
            },
            FixtureAnswer::Address => match m.question {
                Some(q) => Ok(FixtureStep::SignAddress(q.name, FixtureZone::Child)),
                None => Err(FixtureError::NoQuestion),
            },
            FixtureAnswer::Nothing => Ok(FixtureStep::Send(build_empty_noerror_response(packet))),
        }
    }

    /// What the server does with a request.
    pub fn respond(&self, request: &[u8]) -> (r: Result<FixtureStep, FixtureError>)
        ensures
            step_result(r) == next_step(self@, request_data(request@), request@),
    {
        match decode_request(request) {
            Err(s) => Err(FixtureError::Malformed(s)),
            Ok(m) => self.respond_to(m, request),
        }
    }
}

} // verus!
