//! What happens to a query between its arrival and its answer, apart from the sending itself.
use crate::admin::requests;
use crate::codec::edns;
use crate::codec::query;
use crate::codec::respond;
use crate::codec::respond::CodecError;
use crate::codec::wire;
use crate::config::types;
use crate::text;
use vstd::prelude::*;

verus! {

/// A query that is to be decided on and resolved.
#[derive(Debug, Clone)]
pub struct Query {
    pub request_id: u16,
    pub query_name: Option<String>,
    pub query_type: Option<u16>,
}

/// What is done with a packet that comes in.
pub enum Intake {
    /// It is too short for a query and is dropped.
    Malformed,
    /// It is a query that is answered at once: its EDNS version is not supported.
    UnsupportedVersion(Query, Vec<u8>),
    /// It would be answered at once, but no answer can be made of it.
    Unanswerable(CodecError),
    /// It is a query.
    Query(Query),
}

/// A query: its identifier, its name and its type.
pub type QueryV = (u16, Option<Seq<char>>, Option<u16>);

impl View for Query {
    type V = QueryV;

    open spec fn view(&self) -> QueryV {
        (self.request_id, types::optional_view(self.query_name), self.query_type)
    }
}

pub ghost enum IntakeV {
    Malformed,
    UnsupportedVersion(QueryV, Seq<u8>),
    Unanswerable(CodecError),
    Query(QueryV),
}

pub open spec fn intake_view(i: Intake) -> IntakeV {
    match i {
        Intake::Malformed => IntakeV::Malformed,
        Intake::UnsupportedVersion(q, p) => IntakeV::UnsupportedVersion(q@, p@),
        Intake::Unanswerable(e) => IntakeV::Unanswerable(e),
        Intake::Query(q) => IntakeV::Query(q@),
    }
}

/// Whether the EDNS version of a packet is supported; one without EDNS is.
pub open spec fn version_supported(p: Seq<u8>) -> bool {
    edns::edns(p) matches Some(e) ==> e.version == 0
}

/// The query that a packet is: the name and the type are those of its first question.
pub open spec fn query_of(p: Seq<u8>) -> QueryV {
    match query::first_question(p) {
        Some((n, t, _)) => (wire::header(p).id, Some(n), Some(t)),
        None => (wire::header(p).id, None, None),
    }
}

/// What is done with a packet that comes in.
pub open spec fn taken_in(p: Seq<u8>) -> IntakeV {
    if p.len() < 12 {
        IntakeV::Malformed
    } else if !version_supported(p) {
        match respond::rcode_response(p, respond::DNS_RCODE_BADVERS) {
            Ok(response) => IntakeV::UnsupportedVersion(query_of(p), response),
            Err(e) => IntakeV::Unanswerable(e),
        }
    } else {
        IntakeV::Query(query_of(p))
    }
}

/// Decides what is done with a packet that comes in.
pub fn take_in(packet: &[u8]) -> (r: Intake)
    ensures
        intake_view(r) == taken_in(packet@),
{
    match query::parse_request_overview(packet) {
        None => Intake::Malformed,
        Some(overview) => {
            let query = Query {
                request_id: overview.id,
                query_name: overview.query_name,
                query_type: overview.query_type,
            };
            if !edns::edns_version_supported(packet) {
                match respond::build_badvers_response(packet) {
                    Ok(response) => Intake::UnsupportedVersion(query, response),
                    Err(e) => Intake::Unanswerable(e),
                }
            } else {
                Intake::Query(query)
            }
        },
    }
}

/// The answer to a query that the policy denies; nothing where it is allowed.
pub open spec fn denied(p: Seq<u8>, allowed: bool, rcode: u16) -> Option<
    Result<Seq<u8>, CodecError>,
> {
    if allowed {
        None
    } else {
        Some(respond::rcode_response(p, rcode))
    }
}

/// The answer to a query that the policy denies; nothing where it is allowed.
pub fn denial(packet: &[u8], allowed: bool, rcode: u16) -> (r: Option<Result<Vec<u8>, CodecError>>)
    ensures
        denied(packet@, allowed, rcode) == (match r {
            Some(x) => Some(respond::result_view(x)),
            None => None,
        }),
{
    if allowed {
        None
    } else {
        Some(respond::build_response_with_rcode(packet, rcode))
    }
}

/// An answer that goes out, with its response code.
#[derive(Debug, Clone)]
pub struct Outgoing {
    pub packet: Vec<u8>,
    pub rcode: u16,
    /// Whether the query counts as answered well.
    pub success: bool,
}

/// The response code of an answer; that of a failure where it is too short to have one.
pub open spec fn code_of(p: Seq<u8>) -> u16 {
    if p.len() < 12 {
        2
    } else {
        query::rcode_of(p)
    }
}

pub open spec fn outgoing_view(r: Result<Outgoing, CodecError>) -> Result<
    (Seq<u8>, u16, bool),
    CodecError,
> {
    match r {
        Ok(o) => Ok((o.packet@, o.rcode, o.success)),
        Err(e) => Err(e),
    }
}

/// What goes out for a query: what it was resolved to, or a failure where it could not be.
pub open spec fn answered(p: Seq<u8>, resolved: Option<Seq<u8>>) -> Result<
    (Seq<u8>, u16, bool),
    CodecError,
> {
    match resolved {
        Some(packet) => Ok((packet, code_of(packet), code_of(packet) == 0)),
        None => match respond::rcode_response(p, respond::DNS_RCODE_SERVFAIL) {
            Ok(packet) => Ok((packet, code_of(packet), false)),
            Err(e) => Err(e),
        },
    }
}

fn rcode_or_failure(packet: &[u8]) -> (r: u16)
    ensures
        r == code_of(packet@),
{
    match query::response_code(packet) {
        Some(c) => c,
        None => 2,
    }
}

/// What goes out for a query that was resolved, or could not be.
pub fn answer_query(packet: &[u8], resolved: Option<Vec<u8>>) -> (r: Result<Outgoing, CodecError>)
    ensures
        outgoing_view(r) == answered(
            packet@,
            (match resolved {
                Some(p) => Some(p@),
                None => None,
            }),
        ),
{
    match resolved {
        Some(response) => {
            let rcode = rcode_or_failure(response.as_slice());
            Ok(Outgoing { packet: response, rcode, success: rcode == 0 })
        },
        None => match respond::build_servfail_response(packet) {
            Ok(response) => {
                let rcode = rcode_or_failure(response.as_slice());
                Ok(Outgoing { packet: response, rcode, success: false })
            },
            Err(e) => Err(e),
        },
    }
}

/// The most bytes of a query over a stream.
pub const MAX_STREAM_MESSAGE: usize = 4096;

/// How many bytes of a query follow the two bytes in front of it; nothing where the stream is to
/// be closed.
pub fn stream_message_length(high: u8, low: u8) -> (r: Option<usize>)
    ensures
        r == (if 1 <= high * 256 + low <= MAX_STREAM_MESSAGE {
            Some((high * 256 + low) as usize)
        } else {
            None
        }),
{
    let len: usize = high as usize * 256 + low as usize;
    if len == 0 || len > MAX_STREAM_MESSAGE {
        None
    } else {
        Some(len)
    }
}

/// An answer as it goes over a stream: two bytes of its length, and the answer.
pub open spec fn stream_frame(p: Seq<u8>) -> Seq<u8> {
    wire::bytes16((p.len() % 0x1_0000) as u16) + p
}

/// An answer as it goes over a stream.
pub fn frame_for_stream(packet: &[u8]) -> (r: Vec<u8>)
    ensures
        r@ == stream_frame(packet@),
{
    let mut out: Vec<u8> = Vec::new();
    let len: u16 = (packet.len() % 0x1_0000) as u16;
    wire::push_u16(&mut out, len);
    wire::push_bytes(&mut out, packet);
    assert(out@ =~= stream_frame(packet@));
    out
}

/// A query that was put on a stream is read back whole.
pub proof fn lemma_stream_round_trip(p: Seq<u8>)
    requires
        1 <= p.len() <= MAX_STREAM_MESSAGE,
    ensures
        stream_frame(p)[0] * 256 + stream_frame(p)[1] == p.len(),
        stream_frame(p).skip(2) == p,
{
    let f = stream_frame(p);
    assert(f[0] == (p.len() / 256) as u8 && f[1] == (p.len() % 256) as u8);
    assert(f.skip(2) =~= p);
}

/// Why a query over HTTP is refused.
#[derive(Debug, Clone, Copy, PartialEq, Eq, Structural)]
pub enum HttpRefusal {
    MissingParameter,
    InvalidParameter,
    WrongContentType,
    /// The body is no query.
    Malformed,
    /// No answer can be made.
    Unanswerable,
}

impl HttpRefusal {
    pub open spec fn status_code(self) -> u16 {
        match self {
            HttpRefusal::MissingParameter => 400,
            HttpRefusal::InvalidParameter => 400,
            HttpRefusal::WrongContentType => 415,
            HttpRefusal::Malformed => 400,
            HttpRefusal::Unanswerable => 500,
        }
    }

    pub open spec fn text(self) -> Seq<char> {
        match self {
            HttpRefusal::MissingParameter => "missing 'dns' query parameter"@,
            HttpRefusal::InvalidParameter => "invalid base64url in 'dns' parameter"@,
            HttpRefusal::WrongContentType => "Content-Type must be application/dns-message"@,
            HttpRefusal::Malformed => ""@,
            HttpRefusal::Unanswerable => ""@,
        }
    }

    /// The HTTP status of the answer.
    pub fn status(self) -> (r: u16)
        ensures
            r == self.status_code(),
    {
        match self {
            HttpRefusal::MissingParameter => 400,
            HttpRefusal::InvalidParameter => 400,
            HttpRefusal::WrongContentType => 415,
            HttpRefusal::Malformed => 400,
            HttpRefusal::Unanswerable => 500,
        }
    }

    /// The body of the answer.
    pub fn message(self) -> (r: &'static str)
        ensures
            r@ == self.text(),
    {
        match self {
            HttpRefusal::MissingParameter => "missing 'dns' query parameter",
            HttpRefusal::InvalidParameter => "invalid base64url in 'dns' parameter",
            HttpRefusal::WrongContentType => "Content-Type must be application/dns-message",
            HttpRefusal::Malformed => "",
            HttpRefusal::Unanswerable => "",
        }
    }
}

#[verifier::external_type_specification]
#[verifier::external_body]
pub struct ExDecodeError(data_encoding::DecodeError);

/// The bytes that a text writes in the URL-safe base 64 alphabet without padding.
pub uninterp spec fn base64url_bytes(s: Seq<char>) -> Option<Seq<u8>>;

/// `data_encoding::BASE64URL_NOPAD.decode` on the bytes of the text: what it writes, or an error
/// where it is no such text. Which texts write which bytes is left to the name.
#[verifier::external_body]
fn decode_base64url(s: &str) -> (r: Result<Vec<u8>, data_encoding::DecodeError>)
    ensures
        match r {
            Ok(v) => base64url_bytes(s@) == Some(v@),
            Err(_) => base64url_bytes(s@) is None,
        },
{
    data_encoding::BASE64URL_NOPAD.decode(s.as_bytes())
}

/// The query in the `dns` parameter of a GET request.
pub open spec fn get_query(parameter: Option<Seq<char>>) -> Result<Seq<u8>, HttpRefusal> {
    match parameter {
        None => Err(HttpRefusal::MissingParameter),
        Some(s) => get_query_decoded(base64url_bytes(s)),
    }
}

/// The query of a GET request whose parameter was decoded, or could not be.
pub open spec fn get_query_decoded(decoded: Option<Seq<u8>>) -> Result<Seq<u8>, HttpRefusal> {
    match decoded {
        None => Err(HttpRefusal::InvalidParameter),
        Some(b) => Ok(b),
    }
}

pub open spec fn bytes_result(r: Result<Vec<u8>, HttpRefusal>) -> Result<Seq<u8>, HttpRefusal> {
    match r {
        Ok(v) => Ok(v@),
        Err(e) => Err(e),
    }
}

/// The query of a GET request whose parameter was decoded, or could not be.
pub fn query_of_decoded(decoded: Option<Vec<u8>>) -> (r: Result<Vec<u8>, HttpRefusal>)
    ensures
        bytes_result(r) == get_query_decoded(
            (match decoded {
                Some(b) => Some(b@),
                None => None,
            }),
        ),
{
    match decoded {
        None => Err(HttpRefusal::InvalidParameter),
        Some(b) => Ok(b),
    }
}

/// The query of a GET request.
pub fn query_of_get(parameter: Option<&str>) -> (r: Result<Vec<u8>, HttpRefusal>)
    ensures
        bytes_result(r) == get_query(requests::str_view(parameter)),
{
    match parameter {
        None => Err(HttpRefusal::MissingParameter),
        Some(s) => match decode_base64url(s) {
            Ok(b) => query_of_decoded(Some(b)),
            Err(_) => query_of_decoded(None),
        },
    }
}

/// The content type of queries and answers over HTTP.
pub const DNS_MESSAGE_CONTENT_TYPE: &'static str = "application/dns-message";

/// Whether the body of a POST request is taken for a query: its content type begins with that of
/// queries. An absent content type counts as empty.
pub open spec fn post_accepted(content_type: Option<Seq<char>>) -> bool {
    content_type is Some && requests::after_prefix(
        content_type->0,
        "application/dns-message"@,
    ) is Some
}

/// Whether the body of a POST request is taken for a query.
pub fn check_post(content_type: Option<&str>) -> (r: Result<(), HttpRefusal>)
    ensures
        r == (if post_accepted(requests::str_view(content_type)) {
            Ok(())
        } else {
            Err(HttpRefusal::WrongContentType)
        }),
{
    match content_type {
        None => Err(HttpRefusal::WrongContentType),
        Some(t) => match requests::strip_prefix(t, "application/dns-message") {
            Some(_) => Ok(()),
            None => Err(HttpRefusal::WrongContentType),
        },
    }
}

} // verus!
