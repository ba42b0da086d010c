//! Copies of settings.
use crate::config::records::copy_records;
use crate::config::types;
use crate::config::types::{
    AuthoritativeSource, AuthoritativeZone, DnsView, PreWarmZone, ViewRecord, ZoneSoa,
};
use crate::decimal::Decimal;
use crate::text;
use vstd::prelude::*;

verus! {

pub fn copy_texts(list: &Vec<String>) -> (c: Vec<String>)
    ensures
        text::views(c@) == text::views(list@),
{
    let mut out: Vec<String> = Vec::new();
    let mut i: usize = 0;
    while i < list.len()
        invariant
            i <= list@.len(),
            out@.len() == i,
            forall|k: int| 0 <= k < i ==> (#[trigger] out@[k])@ == list@[k]@,
        decreases list@.len() - i,
    {
        out.push(list[i].clone());
        i = i + 1;
    }
    assert(text::views(out@) =~= text::views(list@));
    out
}

pub fn copy_optional_text(s: &Option<String>) -> (c: Option<String>)
    ensures
        types::optional_view(c) == types::optional_view(*s),
{
    match s {
        Some(t) => Some(t.clone()),
        None => None,
    }
}

pub fn copy_decimal(d: &Decimal) -> (c: Decimal)
    ensures
        c.text@ == d.text@,
{
    Decimal { text: d.text.clone() }
}

pub fn copy_soa(s: &ZoneSoa) -> (c: ZoneSoa)
    ensures
        c@ == s@,
{
    ZoneSoa {
        mname: s.mname.clone(),
        rname: s.rname.clone(),
        serial: s.serial,
        refresh: s.refresh,
        retry: s.retry,
        expire: s.expire,
        minimum_ttl: s.minimum_ttl,
    }
}

pub fn copy_zone(z: &AuthoritativeZone) -> (c: AuthoritativeZone)
    ensures
        c@ == z@,
{
    AuthoritativeZone {
        name: z.name.clone(),
        default_ttl: z.default_ttl,
        soa: match &z.soa {
            Some(s) => Some(copy_soa(s)),
            None => None,
        },
        records: copy_records(&z.records),
    }
}

pub fn copy_zones(list: &Vec<AuthoritativeZone>) -> (c: Vec<AuthoritativeZone>)
    ensures
        types::zone_views(c@) == types::zone_views(list@),
{
    let mut out: Vec<AuthoritativeZone> = Vec::new();
    let mut i: usize = 0;
    while i < list.len()
        invariant
            i <= list@.len(),
            out@.len() == i,
            forall|k: int| 0 <= k < i ==> (#[trigger] out@[k])@ == list@[k]@,
        decreases list@.len() - i,
    {
        out.push(copy_zone(&list[i]));
        i = i + 1;
    }
    assert(types::zone_views(out@) =~= types::zone_views(list@));
    out
}

pub fn copy_short_records(list: &Vec<ViewRecord>) -> (c: Vec<ViewRecord>)
    ensures
        types::short_record_views(c@) == types::short_record_views(list@),
{
    let mut out: Vec<ViewRecord> = Vec::new();
    let mut i: usize = 0;
    while i < list.len()
        invariant
            i <= list@.len(),
            out@.len() == i,
            forall|k: int| 0 <= k < i ==> (#[trigger] out@[k])@ == list@[k]@,
        decreases list@.len() - i,
    {
        out.push(
            ViewRecord { domain_name: list[i].domain_name.clone(), ip: list[i].ip.clone() },
        );
        i = i + 1;
    }
    assert(types::short_record_views(out@) =~= types::short_record_views(list@));
    out
}

pub fn copy_sources(list: &Vec<AuthoritativeSource>) -> (c: Vec<AuthoritativeSource>)
    ensures
        types::source_views(c@) == types::source_views(list@),
{
    let mut out: Vec<AuthoritativeSource> = Vec::new();
    let mut i: usize = 0;
    while i < list.len()
        invariant
            i <= list@.len(),
            out@.len() == i,
            forall|k: int| 0 <= k < i ==> (#[trigger] out@[k])@ == list@[k]@,
        decreases list@.len() - i,
    {
        let s = &list[i];
        out.push(
            AuthoritativeSource {
                qname: s.qname.clone(),
                qtype: s.qtype.clone(),
                source: s.source.clone(),
                ttl: s.ttl,
            },
        );
        i = i + 1;
    }
    assert(types::source_views(out@) =~= types::source_views(list@));
    out
}

pub fn copy_prewarm_zones(list: &Vec<PreWarmZone>) -> (c: Vec<PreWarmZone>)
    ensures
        types::prewarm_views(c@) == types::prewarm_views(list@),
{
    let mut out: Vec<PreWarmZone> = Vec::new();
    let mut i: usize = 0;
    while i < list.len()
        invariant
            i <= list@.len(),
            out@.len() == i,
            forall|k: int| 0 <= k < i ==> (#[trigger] out@[k])@ == list@[k]@,
        decreases list@.len() - i,
    {
        let z = &list[i];
        out.push(
            PreWarmZone {
                zone: z.zone.clone(),
                ns_endpoints: copy_texts(&z.ns_endpoints),
                ns_hostnames: copy_texts(&z.ns_hostnames),
                ttl_secs: z.ttl_secs,
            },
        );
        i = i + 1;
    }
    assert(types::prewarm_views(out@) =~= types::prewarm_views(list@));
    out
}

pub fn copy_view(v: &DnsView) -> (c: DnsView)
    ensures
        c@ == v@,
{
    DnsView {
        name: v.name.clone(),
        summary: copy_optional_text(&v.summary),
        client_cidrs: copy_texts(&v.client_cidrs),
        static_records_file: copy_optional_text(&v.static_records_file),
        static_records: copy_records(&v.static_records),
        authoritative_records: copy_records(&v.authoritative_records),
        records: copy_short_records(&v.records),
        blocked_domains_file: copy_optional_text(&v.blocked_domains_file),
        blocked_domains: copy_texts(&v.blocked_domains),
        authoritative_zones_file: copy_optional_text(&v.authoritative_zones_file),
        authoritative_zones_dir: copy_optional_text(&v.authoritative_zones_dir),
        authoritative_zones: copy_zones(&v.authoritative_zones),
        query_mode: v.query_mode,
        enable_recursion: v.enable_recursion,
        view_static_cname_expand_for_address_queries:
            v.view_static_cname_expand_for_address_queries,
        view_authoritative_cname_expand_for_address_queries:
            v.view_authoritative_cname_expand_for_address_queries,
    }
}

pub fn copy_views(list: &Vec<DnsView>) -> (c: Vec<DnsView>)
    ensures
        types::dns_views(c@) == types::dns_views(list@),
{
    let mut out: Vec<DnsView> = Vec::new();
    let mut i: usize = 0;
    while i < list.len()
        invariant
            i <= list@.len(),
            out@.len() == i,
            forall|k: int| 0 <= k < i ==> (#[trigger] out@[k])@ == list@[k]@,
        decreases list@.len() - i,
    {
        out.push(copy_view(&list[i]));
        i = i + 1;
    }
    assert(types::dns_views(out@) =~= types::dns_views(list@));
    out
}

} // verus!
