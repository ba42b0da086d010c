//! What can go wrong in the server.
use crate::text;
use vstd::prelude::*;

verus! {

#[derive(Debug, Clone)]
pub enum DnsError {
    /// A packet that is no DNS message.
    MalformedPacket { reason: String },
    DnssecValidationFailed { qname: String, qtype: String, reason: String },
    CacheError { operation: String, reason: String },
    UpstreamUnavailable { address: String, reason: String },
    InvalidConfig { reason: String },
    /// A thread failed while it held the lock of a component.
    MutexPoisoned { component: String, reason: String },
    RateLimitExceeded { client: String, limit: u32 },
    Io { reason: String },
}

impl DnsError {
    pub open spec fn text(self) -> Seq<char> {
        match self {
            DnsError::MalformedPacket { reason } => "malformed DNS packet: "@ + reason@,
            DnsError::DnssecValidationFailed {
                qname,
                qtype,
                reason,
            } => "DNSSEC validation failed for "@ + qname@ + "/"@ + qtype@ + ": "@ + reason@,
            DnsError::CacheError { operation, reason } => "cache operation failed: "@ + operation@
                + " — "@ + reason@,
            DnsError::UpstreamUnavailable { address, reason } => "upstream "@ + address@
                + " unavailable: "@ + reason@,
            DnsError::InvalidConfig { reason } => "invalid configuration: "@ + reason@,
            DnsError::MutexPoisoned { component, reason } => "mutex poisoned on "@ + component@
                + ": "@ + reason@,
            DnsError::RateLimitExceeded { client, limit } => "rate limit exceeded for "@ + client@
                + ": "@ + text::decimal(limit as nat) + "/s"@,
            DnsError::Io { reason } => "I/O error: "@ + reason@,
        }
    }

    /// The error in words.
    pub fn message(&self) -> (r: String)
        ensures
            r@ == self.text(),
    {
        match self {
            DnsError::MalformedPacket { reason } => text::concat(
                "malformed DNS packet: ",
                reason.as_str(),
            ),
            DnsError::DnssecValidationFailed { qname, qtype, reason } => {
                let mut s = text::concat("DNSSEC validation failed for ", qname.as_str());
                s.append("/");
                s.append(qtype.as_str());
                s.append(": ");
                s.append(reason.as_str());
                s
            },
            DnsError::CacheError { operation, reason } => {
                let mut s = text::concat("cache operation failed: ", operation.as_str());
                s.append(" — ");
                s.append(reason.as_str());
                s
            },
            DnsError::UpstreamUnavailable { address, reason } => {
                let mut s = text::concat("upstream ", address.as_str());
                s.append(" unavailable: ");
                s.append(reason.as_str());
                s
            },
            DnsError::InvalidConfig { reason } => text::concat(
                "invalid configuration: ",
                reason.as_str(),
            ),
            DnsError::MutexPoisoned { component, reason } => {
                let mut s = text::concat("mutex poisoned on ", component.as_str());
                s.append(": ");
                s.append(reason.as_str());
                s
            },
            DnsError::RateLimitExceeded { client, limit } => {
                let mut s = text::concat("rate limit exceeded for ", client.as_str());
                s.append(": ");
                s.append(text::decimal_of(*limit as u64).as_str());
                s.append("/s");
                s
            },
            DnsError::Io { reason } => text::concat("I/O error: ", reason.as_str()),
        }
    }

    /// The error of a lock whose holder failed.
    pub fn mutex_poisoned(component: &str, reason: &str) -> (r: Self)
        ensures
            r matches DnsError::MutexPoisoned { component: c, reason: w } && c@ == component@ && w@
                == reason@,
    {
        DnsError::MutexPoisoned { component: component.to_owned(), reason: reason.to_owned() }
    }
}

} // verus!
