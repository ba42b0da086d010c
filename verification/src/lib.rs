//! Verified core of the CogniDNS server: the DNS wire codec and the rules around it.

pub mod admin;
pub mod bench;
pub mod cache;
pub mod codec;
pub mod config;
pub mod context;
pub mod control;
pub mod ctl_cli;
pub mod ctl_config;
pub mod ctl_laws;
pub mod decimal;
pub mod decimal_laws;
pub mod dnssec;
pub mod error;
pub mod exchange;
pub mod health;
pub mod health_laws;
pub mod ingress;
pub mod ip;
pub mod json_doc;
pub mod probe;
pub mod text;
pub mod text_laws;
pub mod tls;
pub mod toml_doc;
pub mod transport_laws;
