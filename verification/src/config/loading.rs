//! How the content of data files joins the settings that name them.
use crate::config::types::{AppConfig, AuthoritativeZone, DnsView, StaticRecord};
use vstd::prelude::*;

verus! {

/// What was read from the data files of the top level or of a view; nothing where none is named.
pub struct DataFiles {
    pub static_records: Option<Vec<StaticRecord>>,
    pub blocked_domains: Option<Vec<String>>,
    pub zones: Option<Vec<AuthoritativeZone>>,
    /// The zones of a directory.
    pub zones_in_directory: Vec<AuthoritativeZone>,
}

/// The content of a file takes the place of what the settings hold themselves.
pub open spec fn replaced<T>(own: Vec<T>, loaded: Option<Vec<T>>) -> Vec<T> {
    match loaded {
        Some(list) => list,
        None => own,
    }
}

fn replace<T>(own: Vec<T>, loaded: Option<Vec<T>>) -> (r: Vec<T>)
    ensures
        r == replaced(own, loaded),
{
    match loaded {
        Some(list) => list,
        None => own,
    }
}

fn joined(first: Vec<AuthoritativeZone>, second: Vec<AuthoritativeZone>) -> (r: Vec<
    AuthoritativeZone,
>)
    ensures
        r@ == first@ + second@,
{
    let mut all = first;
    let mut rest = second;
    all.append(&mut rest);
    all
}

/// Takes the content of the files of the top level over: records, blocked domains and the file of
/// zones take the place of what the settings hold; the zones of the directory follow.
pub fn take_data_files(cfg: AppConfig, files: DataFiles) -> (r: AppConfig)
    ensures
        r.static_records == replaced(cfg.static_records, files.static_records),
        r.blocked_domains == replaced(cfg.blocked_domains, files.blocked_domains),
        r.authoritative_zones@ == replaced(cfg.authoritative_zones, files.zones)@
            + files.zones_in_directory@,
        r == (AppConfig {
            static_records: r.static_records,
            blocked_domains: r.blocked_domains,
            authoritative_zones: r.authoritative_zones,
            ..cfg
        }),
{
    let mut out = cfg;
    out.static_records = replace(out.static_records, files.static_records);
    out.blocked_domains = replace(out.blocked_domains, files.blocked_domains);
    let zones = replace(out.authoritative_zones, files.zones);
    out.authoritative_zones = joined(zones, files.zones_in_directory);
    out
}

/// Takes the content of the files of a view over: records and blocked domains take the place of
/// what the view holds; the zones of the file and those of the directory follow its own.
pub fn take_view_files(view: DnsView, files: DataFiles) -> (r: DnsView)
    ensures
        r.static_records == replaced(view.static_records, files.static_records),
        r.blocked_domains == replaced(view.blocked_domains, files.blocked_domains),
        r.authoritative_zones@ == view.authoritative_zones@ + (match files.zones {
            Some(list) => list@,
            None => Seq::empty(),
        }) + files.zones_in_directory@,
        r == (DnsView {
            static_records: r.static_records,
            blocked_domains: r.blocked_domains,
            authoritative_zones: r.authoritative_zones,
            ..view
        }),
{
    let mut out = view;
    out.static_records = replace(out.static_records, files.static_records);
    out.blocked_domains = replace(out.blocked_domains, files.blocked_domains);
    let from_file = replace(Vec::new(), files.zones);
    let zones = joined(out.authoritative_zones, from_file);
    out.authoritative_zones = joined(zones, files.zones_in_directory);
    out
}

} // verus!
