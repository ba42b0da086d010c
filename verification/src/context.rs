//! A request on its way through the server.
use vstd::prelude::*;

verus! {

/// The transport that a request came by.
#[derive(Debug, Clone, Copy, PartialEq, Eq, Structural)]
pub enum Protocol {
    Udp,
    Tcp,
    Dot,
    Doh,
}

impl Protocol {
    pub open spec fn label(self) -> Seq<char> {
        match self {
            Protocol::Udp => "udp"@,
            Protocol::Tcp => "tcp"@,
            Protocol::Dot => "dot"@,
            Protocol::Doh => "doh"@,
        }
    }

    /// The name of the transport in logs and metrics.
    pub fn as_str(self) -> (r: &'static str)
        ensures
            r@ == self.label(),
    {
        match self {
            Protocol::Udp => "udp",
            Protocol::Tcp => "tcp",
            Protocol::Dot => "dot",
            Protocol::Doh => "doh",
        }
    }
}

/// What is known of a request before it is answered. The client is given by the text of its
/// address, the time of arrival in milliseconds.
#[derive(Debug, Clone)]
pub struct RequestContext {
    pub request_id: u16,
    pub protocol: Protocol,
    pub client_addr: String,
    pub query_name: Option<String>,
    pub query_type: Option<u16>,
    pub recv_at: u64,
}

} // verus!
