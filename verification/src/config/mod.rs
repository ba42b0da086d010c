//! The server's settings: their model, their defaults and their rules.
pub mod copies;
pub mod default_laws;
pub mod files;
pub mod laws;
pub mod loading;
pub mod misplaced;
pub mod record_laws;
pub mod records;
pub mod rules;
pub mod types;
pub mod validate;

pub use crate::config::types::{
    AppConfig, AuthoritativeSource, AuthoritativeZone, DnsView, DnssecConfig, DohConfig, DotConfig,
    IterativeAddressFamily, LoggingConfig, NsHostnameResolveMode, PreWarmZone, StaticRecord,
    ViewQueryMode, ViewRecord, ZoneSoa,
};
