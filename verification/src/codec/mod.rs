//! The DNS wire format.

pub mod address;
pub mod answer;
pub mod appended;
pub mod chain_laws;
pub mod dns;
pub mod dns_rfc_patch;
pub mod edns;
pub mod glue;
pub mod invariants;
pub mod laws;
pub mod name;
pub mod plain;
pub mod plain_laws;
pub mod query;
pub mod query_laws;
pub mod read_back;
pub mod reading_laws;
pub mod referral;
pub mod repeated;
pub mod respond;
pub mod rewrite;
pub mod rr;
pub mod ttl;
pub mod ttl_laws;
pub mod wire;
