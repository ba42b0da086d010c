//! The course of one query over a transport: what a server does next, given what it has learnt.
use crate::codec::invariants;
use crate::codec::respond;
use crate::codec::respond::CodecError;
use crate::codec::wire;
use crate::context::Protocol;
use crate::ingress;
use crate::ingress::{answer_query, denial, take_in, HttpRefusal, Intake, Query};
use vstd::prelude::*;

verus! {

/// What a server learns about a query, one thing after another.
pub enum Event {
    /// Its packet came in.
    Arrived,
    /// The policy allows it or not; a denial has a response code.
    Judged(bool, u16),
    /// It was resolved; nothing where that failed.
    Resolved(Option<Vec<u8>>),
}

/// Where an answer comes from.
#[derive(Debug, Clone, Copy, PartialEq, Eq, Structural)]
pub enum Source {
    /// The protocol itself.
    Protocol,
    /// The policy.
    Policy,
    /// The resolver.
    Resolver,
    /// A failure of the resolver.
    Failure,
}

/// What is noted of a query that comes to its end.
#[derive(Debug, Clone, Copy, PartialEq, Eq, Structural)]
pub struct Note {
    pub source: Source,
    pub rcode: u16,
    /// Whether the request counts in the metrics.
    pub measured: bool,
    /// Whether the query counts as answered well.
    pub success: bool,
}

/// What a server does next.
pub enum Action {
    /// Asks the policy about the query.
    Judge,
    /// Asks the resolver for an answer.
    Resolve,
    /// Sends an answer.
    Send(Vec<u8>),
    /// Waits for the next packet.
    Skip,
    /// Closes the stream.
    Close(CodecError),
    /// Refuses a request over HTTP.
    Refuse(HttpRefusal),
}

/// What a server does next, and what it notes.
pub struct Move {
    /// The query that the packet is, told where it is taken up.
    pub query: Option<Query>,
    pub action: Action,
    pub note: Option<Note>,
}

pub ghost enum EventV {
    Arrived,
    Judged(bool, u16),
    Resolved(Option<Seq<u8>>),
}

pub ghost enum ActionV {
    Judge,
    Resolve,
    Send(Seq<u8>),
    Skip,
    Close(CodecError),
    Refuse(HttpRefusal),
}

pub ghost struct MoveV {
    pub query: Option<ingress::QueryV>,
    pub action: ActionV,
    pub note: Option<Note>,
}

impl View for Event {
    type V = EventV;

    open spec fn view(&self) -> EventV {
        match *self {
            Event::Arrived => EventV::Arrived,
            Event::Judged(allowed, rcode) => EventV::Judged(allowed, rcode),
            Event::Resolved(Some(p)) => EventV::Resolved(Some(p@)),
            Event::Resolved(None) => EventV::Resolved(None),
        }
    }
}

impl View for Action {
    type V = ActionV;

    open spec fn view(&self) -> ActionV {
        match *self {
            Action::Judge => ActionV::Judge,
            Action::Resolve => ActionV::Resolve,
            Action::Send(p) => ActionV::Send(p@),
            Action::Skip => ActionV::Skip,
            Action::Close(e) => ActionV::Close(e),
            Action::Refuse(e) => ActionV::Refuse(e),
        }
    }
}

impl View for Move {
    type V = MoveV;

    open spec fn view(&self) -> MoveV {
        MoveV {
            query: match self.query {
                Some(q) => Some(q@),
                None => None,
            },
            action: self.action@,
            note: self.note,
        }
    }
}

/// What a server does where no answer can be made: over HTTP it says so; over a stream it closes
/// it, unless only the fallback for a failed resolution could not be made.
pub open spec fn unanswerable(protocol: Protocol, e: CodecError, fallback: bool) -> ActionV {
    match protocol {
        Protocol::Doh => ActionV::Refuse(HttpRefusal::Unanswerable),
        Protocol::Udp => ActionV::Skip,
        Protocol::Tcp => if fallback {
            ActionV::Skip
        } else {
            ActionV::Close(e)
        },
        Protocol::Dot => if fallback {
            ActionV::Skip
        } else {
            ActionV::Close(e)
        },
    }
}

/// The end of a query that is refused: the answer goes out and is noted.
pub open spec fn refused(
    protocol: Protocol,
    query: Option<ingress::QueryV>,
    response: Result<Seq<u8>, CodecError>,
    source: Source,
    rcode: u16,
) -> MoveV {
    match response {
        Ok(p) => MoveV {
            query,
            action: ActionV::Send(p),
            note: Some(Note { source, rcode, measured: true, success: false }),
        },
        Err(e) => MoveV { query, action: unanswerable(protocol, e, false), note: None },
    }
}

/// What a server does with a packet, given what it learnt last.
pub open spec fn next_move(protocol: Protocol, p: Seq<u8>, event: EventV) -> MoveV {
    match event {
        EventV::Arrived => match ingress::taken_in(p) {
            ingress::IntakeV::Malformed => MoveV {
                query: None,
                action: if protocol == Protocol::Doh {
                    ActionV::Refuse(HttpRefusal::Malformed)
                } else {
                    ActionV::Skip
                },
                note: None,
            },
            ingress::IntakeV::UnsupportedVersion(q, r) => refused(
                protocol,
                Some(q),
                Ok(r),
                Source::Protocol,
                respond::DNS_RCODE_BADVERS,
            ),
            ingress::IntakeV::Unanswerable(e) => refused(
                protocol,
                None,
                Err(e),
                Source::Protocol,
                respond::DNS_RCODE_BADVERS,
            ),
            ingress::IntakeV::Query(q) => MoveV {
                query: Some(q),
                action: ActionV::Judge,
                note: None,
            },
        },
        EventV::Judged(allowed, rcode) => match ingress::denied(p, allowed, rcode) {
            None => MoveV { query: None, action: ActionV::Resolve, note: None },
            Some(response) => refused(protocol, None, response, Source::Policy, rcode),
        },
        EventV::Resolved(Some(packet)) => MoveV {
            query: None,
            action: ActionV::Send(packet),
            note: Some(
                Note {
                    source: Source::Resolver,
                    rcode: ingress::code_of(packet),
                    measured: true,
                    success: ingress::code_of(packet) == 0,
                },
            ),
        },
        EventV::Resolved(None) => MoveV {
            query: None,
            action: match respond::rcode_response(p, respond::DNS_RCODE_SERVFAIL) {
                Ok(packet) => ActionV::Send(packet),
                Err(e) => unanswerable(protocol, e, true),
            },
            note: Some(
                Note {
                    source: Source::Failure,
                    rcode: respond::DNS_RCODE_SERVFAIL,
                    measured: protocol == Protocol::Doh,
                    success: false,
                },
            ),
        },
    }
}

fn give_up(protocol: Protocol, e: CodecError, fallback: bool) -> (r: Action)
    ensures
        r@ == unanswerable(protocol, e, fallback),
{
    match protocol {
        Protocol::Doh => Action::Refuse(HttpRefusal::Unanswerable),
        Protocol::Udp => Action::Skip,
        Protocol::Tcp | Protocol::Dot => if fallback {
            Action::Skip
        } else {
            Action::Close(e)
        },
    }
}

fn refuse(
    protocol: Protocol,
    query: Option<Query>,
    response: Result<Vec<u8>, CodecError>,
    source: Source,
    rcode: u16,
) -> (r: Move)
    ensures
        r@ == refused(
            protocol,
            (match query {
                Some(q) => Some(q@),
                None => None,
            }),
            respond::result_view(response),
            source,
            rcode,
        ),
{
    match response {
        Ok(p) => Move {
            query,
            action: Action::Send(p),
            note: Some(Note { source, rcode, measured: true, success: false }),
        },
        Err(e) => Move { query, action: give_up(protocol, e, false), note: None },
    }
}

/// What a server does with a packet, given what it learnt last.
pub fn proceed(protocol: Protocol, packet: &[u8], event: Event) -> (r: Move)
    ensures
        r@ == next_move(protocol, packet@, event@),
{
    match event {
        Event::Arrived => match take_in(packet) {
            Intake::Malformed => Move {
                query: None,
                action: if protocol == Protocol::Doh {
                    Action::Refuse(HttpRefusal::Malformed)
                } else {
                    Action::Skip
                },
                note: None,
            },
            Intake::UnsupportedVersion(q, r) => refuse(
                protocol,
                Some(q),
                Ok(r),
                Source::Protocol,
                respond::DNS_RCODE_BADVERS,
            ),
            Intake::Unanswerable(e) => refuse(
                protocol,
                None,
                Err(e),
                Source::Protocol,
                respond::DNS_RCODE_BADVERS,
            ),
            Intake::Query(q) => Move { query: Some(q), action: Action::Judge, note: None },
        },
        Event::Judged(allowed, rcode) => match denial(packet, allowed, rcode) {
            None => Move { query: None, action: Action::Resolve, note: None },
            Some(response) => refuse(protocol, None, response, Source::Policy, rcode),
        },
        Event::Resolved(Some(resolved)) => match answer_query(packet, Some(resolved)) {
            Ok(o) => Move {
                query: None,
                action: Action::Send(o.packet),
                note: Some(
                    Note {
                        source: Source::Resolver,
                        rcode: o.rcode,
                        measured: true,
                        success: o.success,
                    },
                ),
            },
            Err(e) => Move { query: None, action: give_up(protocol, e, true), note: None },
        },
        Event::Resolved(None) => Move {
            query: None,
            action: match answer_query(packet, None) {
                Ok(o) => Action::Send(o.packet),
                Err(e) => give_up(protocol, e, true),
            },
            note: Some(
                Note {
                    source: Source::Failure,
                    rcode: respond::DNS_RCODE_SERVFAIL,
                    measured: protocol == Protocol::Doh,
                    success: false,
                },
            ),
        },
    }
}

/// Whether a query has come to its end.
pub open spec fn is_last(action: ActionV) -> bool {
    !(action is Judge) && !(action is Resolve)
}

/// A query takes its course step by step: its arrival leads to the policy or to the end, the
/// decision of the policy to the resolver or to the end, and what the resolver gives to the end.
pub proof fn lemma_course(protocol: Protocol, p: Seq<u8>, event: EventV)
    ensures
        ({
            let m = next_move(protocol, p, event);
            &&& m.action is Judge ==> event is Arrived
            &&& m.action is Resolve ==> event is Judged
            &&& event is Resolved ==> is_last(m.action)
        }),
{
}

/// An answer that goes out is noted, and nothing is noted before the end.
pub proof fn lemma_noted(protocol: Protocol, p: Seq<u8>, event: EventV)
    ensures
        ({
            let m = next_move(protocol, p, event);
            &&& m.action is Send ==> m.note is Some
            &&& !is_last(m.action) ==> m.note is None
        }),
{
}

/// A query that is taken up when its packet comes in, be it judged next or refused at once, is
/// told by the identifier, the name and the type it has.
pub proof fn lemma_told(protocol: Protocol, p: Seq<u8>)
    ensures
        ({
            let m = next_move(protocol, p, EventV::Arrived);
            &&& m.action is Judge || m.note is Some ==> m.query == Some(ingress::query_of(p))
            &&& p.len() < 12 ==> m.query is None
        }),
{
}

/// Every answer that the server makes itself is one to the request: under its identifier, marked
/// as a response, with the lower bits of the response code, and without records of its own but an
/// EDNS record.
pub proof fn lemma_refusal_answers_request(protocol: Protocol, p: Seq<u8>, event: EventV)
    requires
        !(event matches EventV::Resolved(Some(_))),
        next_move(protocol, p, event).action is Send,
    ensures
        ({
            let m = next_move(protocol, p, event);
            let h = wire::header(m.action->Send_0);
            &&& h.id == wire::header(p).id
            &&& h.flags & 0x8000 == 0x8000
            &&& h.flags & 0x000F == m.note->0.rcode & 0x000F
            &&& h.ancount == 0 && h.nscount == 0 && h.arcount <= 1
        }),
{
    match event {
        EventV::Arrived => {
            invariants::lemma_rcode_response(p, respond::DNS_RCODE_BADVERS);
        },
        EventV::Judged(_, rcode) => {
            invariants::lemma_rcode_response(p, rcode);
        },
        EventV::Resolved(_) => {
            invariants::lemma_rcode_response(p, respond::DNS_RCODE_SERVFAIL);
        },
    }
}

/// A query over a datagram or a stream is never answered with an HTTP status, and only a stream
/// is closed.
pub proof fn lemma_transport(protocol: Protocol, p: Seq<u8>, event: EventV)
    ensures
        ({
            let a = next_move(protocol, p, event).action;
            &&& a is Refuse ==> protocol == Protocol::Doh
            &&& a is Close ==> protocol == Protocol::Tcp || protocol == Protocol::Dot
            &&& a is Skip ==> protocol != Protocol::Doh
        }),
{
}

} // verus!
