//! Referrals: the servers that a response points to, and whether it may be followed.
use crate::codec::address;
use crate::codec::name;
use crate::codec::rr;
use crate::codec::wire;
use crate::text;
use vstd::prelude::*;

verus! {

#[derive(Debug, Clone)]
pub struct DnsReferralAnalysis {
    pub glue_nameservers: Vec<String>,
    pub authority_ns_hostnames: Vec<String>,
    pub authority_zones: Vec<String>,
    pub has_authority_soa: bool,
}

/// What a referral holds.
pub ghost struct ReferralV {
    pub glue_nameservers: Seq<Seq<char>>,
    pub authority_ns_hostnames: Seq<Seq<char>>,
    pub authority_zones: Seq<Seq<char>>,
    pub has_authority_soa: bool,
}

impl View for DnsReferralAnalysis {
    type V = ReferralV;

    open spec fn view(&self) -> ReferralV {
        ReferralV {
            glue_nameservers: text::views(self.glue_nameservers@),
            authority_ns_hostnames: text::views(self.authority_ns_hostnames@),
            authority_zones: text::views(self.authority_zones@),
            has_authority_soa: self.has_authority_soa,
        }
    }
}

/// A part of a whole.
#[derive(Debug, Clone, Copy, PartialEq, Eq, Structural)]
pub struct Ratio {
    pub part: usize,
    pub whole: usize,
}

/// The verdict on a referral.
#[derive(Debug, Clone)]
pub struct ReferralSecurityValidation {
    pub is_valid: bool,
    pub rejection_reason: Option<String>,
    pub trust_level: u8,
    pub authority_zones_valid: bool,
    pub bailiwick_valid: bool,
    pub glue_coverage: Ratio,
}

pub open spec fn is_authority_ns(r: rr::NamedRr) -> bool {
    r.rr.rr_class == 1 && r.section == rr::DnsSection::Authority && r.rr.rr_type == 2
}

/// The zone that an authority NS record delegates.
pub open spec fn zone_of(r: rr::NamedRr) -> Option<Seq<char>> {
    if is_authority_ns(r) && r.owner.len() > 0 {
        Some(text::norm(r.owner))
    } else {
        None
    }
}

/// The server that an authority NS record names.
pub open spec fn host_of(p: Seq<u8>, r: rr::NamedRr) -> Option<Seq<char>> {
    if is_authority_ns(r) {
        match name::name_at(p, r.rr.rdata) {
            Some((h, _)) if h.len() > 0 => Some(text::norm(h)),
            _ => None,
        }
    } else {
        None
    }
}

pub open spec fn is_authority_soa(r: rr::NamedRr) -> bool {
    r.rr.rr_class == 1 && r.section == rr::DnsSection::Authority && r.rr.rr_type == 6
}

/// The endpoint that an additional record gives.
pub open spec fn glue_of(p: Seq<u8>, r: rr::NamedRr) -> Option<Seq<char>> {
    if r.rr.rr_class == 1 && r.section == rr::DnsSection::Additional {
        address::endpoint_of(r.rr.rr_type, p.subrange(r.rr.rdata, r.rr.end), 53)
    } else {
        None
    }
}

/// What a response refers to: its lists in increasing order, each text once; none where a record
/// is malformed.
pub open spec fn referral(p: Seq<u8>) -> Option<ReferralV> {
    if p.len() < 12 || !rr::scan_complete(p) {
        None
    } else {
        let list = rr::scanned(p);
        Some(
            ReferralV {
                glue_nameservers: text::sorted_set(
                    list.filter_map(|r: rr::NamedRr| glue_of(p, r)),
                ),
                authority_ns_hostnames: text::sorted_set(
                    list.filter_map(|r: rr::NamedRr| host_of(p, r)),
                ),
                authority_zones: text::sorted_set(list.filter_map(|r: rr::NamedRr| zone_of(r))),
                has_authority_soa: exists|i: int|
                    0 <= i < list.len() && is_authority_soa(#[trigger] list[i]),
            },
        )
    }
}

/// Endpoints by host name.
pub type GlueV = Seq<(Seq<char>, Seq<Seq<char>>)>;

pub open spec fn glue_views(v: Seq<(String, Vec<String>)>) -> GlueV {
    v.map_values(|e: (String, Vec<String>)| (e.0@, text::views(e.1@)))
}

/// The position of the entry for `host`, or the length where there is none.
pub open spec fn glue_index(map: GlueV, host: Seq<char>) -> int
    decreases map.len(),
{
    if map.len() == 0 || map[0].0 == host {
        0
    } else {
        1 + glue_index(map.drop_first(), host)
    }
}

/// The map with an endpoint put behind those of its host; a new host comes last.
pub open spec fn glue_add(map: GlueV, host: Seq<char>, endpoint: Seq<char>) -> GlueV {
    let k = glue_index(map, host);
    if k < map.len() {
        map.update(k, (host, map[k].1.push(endpoint)))
    } else {
        map.push((host, seq![endpoint]))
    }
}

/// The endpoints that the additional records of a list give, by host name.
pub open spec fn glue_map(p: Seq<u8>, list: Seq<rr::NamedRr>) -> GlueV
    decreases list.len(),
{
    if list.len() == 0 {
        Seq::empty()
    } else {
        let before = glue_map(p, list.drop_last());
        match glue_of(p, list.last()) {
            None => before,
            Some(e) => glue_add(before, text::norm(list.last().owner), e),
        }
    }
}

/// No host has two entries.
pub open spec fn glue_distinct(map: GlueV) -> bool {
    forall|i: int, j: int| 0 <= i < j < map.len() ==> (#[trigger] map[i]).0 != (#[trigger] map[j]).0
}

/// Whether `name` is `zone` or lies under it; everything lies under a lone dot, white space around
/// it or not, and nothing under an empty zone.
pub open spec fn is_in_zone(name: Seq<char>, zone: Seq<char>) -> bool {
    let n = text::norm(name);
    let z = text::norm(zone);
    text::trim(zone) == seq!['.'] || (z.len() > 0 && (n == z || (n.len() > z.len() && n.skip(
        n.len() - z.len(),
    ) == z && n[n.len() - z.len() - 1] == '.')))
}

/// Whether every zone of the referral is the name asked for or above it, and there is one.
pub open spec fn zones_valid(qname: Seq<char>, a: ReferralV) -> bool {
    a.authority_zones.len() > 0 && forall|i: int|
        0 <= i < a.authority_zones.len() ==> is_in_zone(qname, #[trigger] a.authority_zones[i])
}

/// Whether every name server lies in one of the referral's zones.
pub open spec fn hosts_in_zone(a: ReferralV) -> bool {
    forall|i: int|
        0 <= i < a.authority_ns_hostnames.len() ==> in_some_zone(
            #[trigger] a.authority_ns_hostnames[i],
            a.authority_zones,
        )
}

pub open spec fn in_some_zone(host: Seq<char>, zones: Seq<Seq<char>>) -> bool {
    exists|j: int| 0 <= j < zones.len() && is_in_zone(host, #[trigger] zones[j])
}

/// How many of the name servers the glue covers, at most all of them.
pub open spec fn coverage(a: ReferralV) -> (nat, nat) {
    let ns = a.authority_ns_hostnames.len();
    let glue = a.glue_nameservers.len();
    if ns == 0 {
        (1, 1)
    } else if glue >= ns {
        (ns, ns)
    } else {
        (glue, ns)
    }
}

/// The trust in a referral whose zones are valid: 80, twenty more with full glue, twenty less
/// with glue for less than half, with an SOA record, and with a server outside the zones.
pub open spec fn trust(a: ReferralV) -> int {
    let c = coverage(a);
    80 + (if c.0 >= c.1 {
        20int
    } else if 2 * c.0 < c.1 {
        -20
    } else {
        0
    }) - (if a.has_authority_soa {
        20int
    } else {
        0
    }) - (if hosts_in_zone(a) {
        0int
    } else {
        20
    })
}

pub proof fn lemma_glue_index(map: GlueV, host: Seq<char>)
    ensures
        0 <= glue_index(map, host) <= map.len(),
        glue_index(map, host) < map.len() ==> map[glue_index(map, host)].0 == host,
        forall|i: int| 0 <= i < glue_index(map, host) ==> (#[trigger] map[i]).0 != host,
    decreases map.len(),
{
    if map.len() > 0 && map[0].0 != host {
        let rest = map.drop_first();
        lemma_glue_index(rest, host);
        assert forall|i: int| 0 <= i < glue_index(map, host) implies (#[trigger] map[i]).0
            != host by {
            if i > 0 {
                assert(map[i] == rest[i - 1]);
            }
        }
    }
}

/// Collecting endpoints gives each host one entry.
pub proof fn lemma_glue_distinct(p: Seq<u8>, list: Seq<rr::NamedRr>)
    ensures
        glue_distinct(glue_map(p, list)),
    decreases list.len(),
{
    if list.len() > 0 {
        let before = glue_map(p, list.drop_last());
        lemma_glue_distinct(p, list.drop_last());
        if let Some(e) = glue_of(p, list.last()) {
            let host = text::norm(list.last().owner);
            lemma_glue_index(before, host);
        }
    }
}

fn under_dot(zone: &str) -> (r: bool)
    ensures
        r == (text::trim(zone@) == seq!['.']),
{
    let t = text::trim_chars(text::chars_of(zone).as_slice());
    if t.len() == 1 && t[0] == '.' {
        assert(t@ =~= seq!['.']);
        true
    } else {
        false
    }
}

/// Whether `name` is `zone` or lies under it.
pub fn domain_is_same_or_subdomain_of(name: &str, zone: &str) -> (r: bool)
    ensures
        r == is_in_zone(name@, zone@),
{
    if under_dot(zone) {
        return true;
    }
    let n = text::chars_of(text::normalized(name).as_str());
    let z = text::chars_of(text::normalized(zone).as_str());
    if z.len() == 0 || n.len() < z.len() {
        return false;
    }
    let size: usize = n.len();
    let start: usize = size - z.len();
    let mut i: usize = 0;
    while i < z.len()
        invariant
            i <= z@.len(),
            size == n@.len(),
            start + z@.len() == n@.len(),
            z@.len() > 0,
            n@ == text::norm(name@),
            z@ == text::norm(zone@),
            text::trim(zone@) != seq!['.'],
            forall|k: int| 0 <= k < i ==> n@[start + k] == z@[k],
        decreases z@.len() - i,
    {
        if n[start + i] != z[i] {
            assert(n@.skip(start as int)[i as int] == n@[start + i]);
            assert(n@.skip(start as int) != z@);
            assert(start == 0 ==> n@.skip(0) =~= n@);
            return false;
        }
        i += 1;
    }
    assert(n@.skip(start as int) =~= z@);
    if start == 0 {
        assert(n@ =~= z@);
        true
    } else {
        n[start - 1] == '.'
    }
}

/// The servers that a response refers to.
pub fn analyze_referral_targets(packet: &[u8]) -> (r: Option<DnsReferralAnalysis>)
    ensures
        (match r {
            Some(v) => Some(v@),
            None => None,
        }) == referral(packet@),
{
    let header = match wire::parse_header(packet) {
        None => {
            return None;
        },
        Some(h) => h,
    };
    let (records, complete) = rr::scan_resource_records(packet, header);
    if !complete {
        return None;
    }
    let ghost p = packet@;
    let ghost list = rr::scanned(p);
    let ghost fg = |r: rr::NamedRr| glue_of(p, r);
    let ghost fh = |r: rr::NamedRr| host_of(p, r);
    let ghost fz = |r: rr::NamedRr| zone_of(r);
    let mut glue: Vec<String> = Vec::new();
    let mut hosts: Vec<String> = Vec::new();
    let mut zones: Vec<String> = Vec::new();
    let mut soa = false;
    let mut i: usize = 0;
    assert(list.take(0).filter_map(fg) =~= Seq::empty());
    assert(list.take(0).filter_map(fh) =~= Seq::empty());
    assert(list.take(0).filter_map(fz) =~= Seq::empty());
    assert(text::views(glue@) =~= Seq::empty());
    while i < records.len()
        invariant
            i <= records@.len(),
            p == packet@,
            list == rr::named_rrs(records@),
            fg == (|r: rr::NamedRr| glue_of(p, r)),
            fh == (|r: rr::NamedRr| host_of(p, r)),
            fz == (|r: rr::NamedRr| zone_of(r)),
            forall|k: int|
                0 <= k < records@.len() ==> (#[trigger] records@[k]).rr.rdata <= records@[k].rr.end
                    <= p.len(),
            text::views(glue@) == text::sorted_set(list.take(i as int).filter_map(fg)),
            text::views(hosts@) == text::sorted_set(list.take(i as int).filter_map(fh)),
            text::views(zones@) == text::sorted_set(list.take(i as int).filter_map(fz)),
            soa == exists|k: int| 0 <= k < i && is_authority_soa(#[trigger] list[k]),
        decreases records@.len() - i,
    {
        let r = &records[i];
        assert(list[i as int] == records@[i as int]@);
        proof {
            list.lemma_filter_map_take_succ(fg, i as int);
            list.lemma_filter_map_take_succ(fh, i as int);
            list.lemma_filter_map_take_succ(fz, i as int);
        }
        let ghost g0 = list.take(i as int).filter_map(fg);
        let ghost h0 = list.take(i as int).filter_map(fh);
        let ghost z0 = list.take(i as int).filter_map(fz);
        if r.rr.rr_class == 1 {
            if r.section == rr::DnsSection::Authority && r.rr.rr_type == 2 {
                if !r.owner.as_str().is_empty() {
                    let z = text::normalized(r.owner.as_str());
                    let ghost v = z@;
                    text::insert_sorted(&mut zones, z);
                    assert(z0.push(v).drop_last() =~= z0);
                    assert(list.take(i + 1).filter_map(fz) =~= z0.push(v));
                }
                if let Some((h, _)) = name::parse_name(packet, r.rr.rdata) {
                    if !h.as_str().is_empty() {
                        let host = text::normalized(h.as_str());
                        let ghost v = host@;
                        text::insert_sorted(&mut hosts, host);
                        assert(h0.push(v).drop_last() =~= h0);
                        assert(list.take(i + 1).filter_map(fh) =~= h0.push(v));
                    }
                }
            } else if r.section == rr::DnsSection::Authority && r.rr.rr_type == 6 {
                soa = true;
            } else if r.section == rr::DnsSection::Additional {
                let data = wire::part(packet, r.rr.rdata, r.rr.end);
                if let Some(e) = address::endpoint_from_rdata_with_port(
                    r.rr.rr_type,
                    data.as_slice(),
                    53,
                ) {
                    let ghost v = e@;
                    text::insert_sorted(&mut glue, e);
                    assert(g0.push(v).drop_last() =~= g0);
                    assert(list.take(i + 1).filter_map(fg) =~= g0.push(v));
                }
            }
        }
        assert(g0 + Seq::<Seq<char>>::empty() =~= g0);
        assert(h0 + Seq::<Seq<char>>::empty() =~= h0);
        assert(z0 + Seq::<Seq<char>>::empty() =~= z0);
        i += 1;
    }
    assert(list.take(i as int) =~= list);
    Some(
        DnsReferralAnalysis {
            glue_nameservers: glue,
            authority_ns_hostnames: hosts,
            authority_zones: zones,
            has_authority_soa: soa,
        },
    )
}

fn add_glue(map: &mut Vec<(String, Vec<String>)>, host: String, endpoint: String)
    ensures
        glue_views(final(map)@) == glue_add(glue_views(old(map)@), host@, endpoint@),
{
    let ghost m = glue_views(map@);
    let mut i: usize = 0;
    assert(m.skip(0) =~= m);
    while i < map.len()
        invariant
            i <= map@.len(),
            *map == *old(map),
            m == glue_views(map@),
            glue_index(m, host@) == i + glue_index(m.skip(i as int), host@),
        decreases map@.len() - i,
    {
        assert(m.skip(i as int)[0] == m[i as int]);
        assert(m.skip(i as int).drop_first() =~= m.skip(i + 1));
        if text::same(map[i].0.as_str(), host.as_str()) {
            let ghost list = map@[i as int].1@;
            map[i].1.push(endpoint);
            assert(text::views(map@[i as int].1@) =~= text::views(list).push(endpoint@));
            assert(glue_views(map@) =~= m.update(
                i as int,
                (host@, m[i as int].1.push(endpoint@)),
            ));
            return ;
        }
        i += 1;
    }
    let mut list: Vec<String> = Vec::new();
    list.push(endpoint);
    assert(text::views(list@) =~= seq![endpoint@]);
    map.push((host, list));
    assert(glue_views(map@) =~= m.push((host@, seq![endpoint@])));
}

/// The endpoints that the additional section gives for each host, hosts in the order in which
/// they appear. A malformed record ends the list.
pub fn build_ns_hostname_glue_map(packet: &[u8]) -> (r: Vec<(String, Vec<String>)>)
    ensures
        glue_views(r@) == (if packet@.len() < 12 {
            Seq::empty()
        } else {
            glue_map(packet@, rr::scanned(packet@))
        }),
        glue_distinct(glue_views(r@)),
{
    let mut map: Vec<(String, Vec<String>)> = Vec::new();
    assert(glue_views(map@) =~= Seq::empty());
    let header = match wire::parse_header(packet) {
        None => {
            return map;
        },
        Some(h) => h,
    };
    let (records, _) = rr::scan_resource_records(packet, header);
    let ghost p = packet@;
    let ghost list = rr::scanned(p);
    let mut i: usize = 0;
    assert(list.take(0) =~= Seq::empty());
    while i < records.len()
        invariant
            i <= records@.len(),
            p == packet@,
            list == rr::named_rrs(records@),
            forall|k: int|
                0 <= k < records@.len() ==> (#[trigger] records@[k]).rr.rdata <= records@[k].rr.end
                    <= p.len(),
            glue_views(map@) == glue_map(p, list.take(i as int)),
        decreases records@.len() - i,
    {
        let r = &records[i];
        assert(list.take(i + 1).drop_last() =~= list.take(i as int));
        assert(list.take(i + 1).last() == records@[i as int]@);
        if r.rr.rr_class == 1 && r.section == rr::DnsSection::Additional {
            let data = wire::part(packet, r.rr.rdata, r.rr.end);
            if let Some(e) = address::endpoint_from_rdata_with_port(
                r.rr.rr_type,
                data.as_slice(),
                53,
            ) {
                add_glue(&mut map, text::normalized(r.owner.as_str()), e);
            }
        }
        i += 1;
    }
    assert(list.take(i as int) =~= list);
    proof {
        lemma_glue_distinct(p, list);
    }
    map
}

fn check_zones(qname: &str, zones: &Vec<String>) -> (r: bool)
    ensures
        r == (zones@.len() > 0 && forall|i: int|
            0 <= i < zones@.len() ==> is_in_zone(qname@, #[trigger] text::views(zones@)[i])),
{
    let ghost list = text::views(zones@);
    if zones.len() == 0 {
        return false;
    }
    let mut i: usize = 0;
    while i < zones.len()
        invariant
            i <= zones@.len(),
            list == text::views(zones@),
            forall|k: int| 0 <= k < i ==> is_in_zone(qname@, #[trigger] list[k]),
        decreases zones@.len() - i,
    {
        assert(list[i as int] == zones@[i as int]@);
        if !domain_is_same_or_subdomain_of(qname, zones[i].as_str()) {
            return false;
        }
        i += 1;
    }
    true
}

fn check_host(host: &str, zones: &Vec<String>) -> (r: bool)
    ensures
        r == in_some_zone(host@, text::views(zones@)),
{
    let ghost list = text::views(zones@);
    let mut i: usize = 0;
    while i < zones.len()
        invariant
            i <= zones@.len(),
            list == text::views(zones@),
            forall|k: int| 0 <= k < i ==> !is_in_zone(host@, #[trigger] list[k]),
        decreases zones@.len() - i,
    {
        assert(list[i as int] == zones@[i as int]@);
        if domain_is_same_or_subdomain_of(host, zones[i].as_str()) {
            return true;
        }
        i += 1;
    }
    false
}

fn check_hosts(analysis: &DnsReferralAnalysis) -> (r: bool)
    ensures
        r == hosts_in_zone(analysis@),
{
    let ghost list = text::views(analysis.authority_ns_hostnames@);
    let mut i: usize = 0;
    while i < analysis.authority_ns_hostnames.len()
        invariant
            i <= analysis.authority_ns_hostnames@.len(),
            list == text::views(analysis.authority_ns_hostnames@),
            forall|k: int|
                0 <= k < i ==> in_some_zone(
                    #[trigger] list[k],
                    text::views(analysis.authority_zones@),
                ),
        decreases analysis.authority_ns_hostnames@.len() - i,
    {
        assert(list[i as int] == analysis.authority_ns_hostnames@[i as int]@);
        if !check_host(
            analysis.authority_ns_hostnames[i].as_str(),
            &analysis.authority_zones,
        ) {
            assert(analysis@.authority_ns_hostnames[i as int] == list[i as int]);
            return false;
        }
        i += 1;
    }
    true
}

/// Whether a referral that came as an answer for `qname` may be followed, and how far it is to
/// be trusted.
pub fn validate_referral_security(qname: &str, analysis: &DnsReferralAnalysis) -> (r:
    ReferralSecurityValidation)
    ensures
        r.is_valid == zones_valid(qname@, analysis@),
        r.authority_zones_valid == r.is_valid,
        (match r.rejection_reason {
            Some(s) => Some(s@),
            None => None,
        }) == (if r.is_valid {
            None
        } else {
            Some("invalid_authority_zone"@)
        }),
        r.trust_level == (if r.is_valid {
            trust(analysis@)
        } else {
            0
        }),
        r.bailiwick_valid == (r.is_valid && hosts_in_zone(analysis@)),
        (r.glue_coverage.part as nat, r.glue_coverage.whole as nat) == (if r.is_valid {
            coverage(analysis@)
        } else {
            (0, 1)
        }),
{
    if !check_zones(qname, &analysis.authority_zones) {
        return ReferralSecurityValidation {
            is_valid: false,
            rejection_reason: Some("invalid_authority_zone".to_owned()),
            trust_level: 0,
            authority_zones_valid: false,
            bailiwick_valid: false,
            glue_coverage: Ratio { part: 0, whole: 1 },
        };
    }
    let in_zone = check_hosts(analysis);
    let ns: usize = analysis.authority_ns_hostnames.len();
    let glue: usize = analysis.glue_nameservers.len();
    let covered: (usize, usize) = if ns == 0 {
        (1, 1)
    } else if glue >= ns {
        (ns, ns)
    } else {
        (glue, ns)
    };
    let mut trust_level: u8 = 80;
    if covered.0 >= covered.1 {
        trust_level = trust_level + 20;
    } else if covered.0 < covered.1 - covered.0 {
        trust_level = trust_level - 20;
    }
    if analysis.has_authority_soa {
        trust_level = trust_level - 20;
    }
    if !in_zone {
        trust_level = trust_level - 20;
    }
    ReferralSecurityValidation {
        is_valid: true,
        rejection_reason: None,
        trust_level,
        authority_zones_valid: true,
        bailiwick_valid: in_zone,
        glue_coverage: Ratio { part: covered.0, whole: covered.1 },
    }
}

/// The endpoints that the additional section gives.
pub fn extract_glue_nameservers(packet: &[u8]) -> (r: Vec<String>)
    ensures
        text::views(r@) == (match referral(packet@) {
            Some(v) => v.glue_nameservers,
            None => Seq::empty(),
        }),
{
    match analyze_referral_targets(packet) {
        Some(v) => v.glue_nameservers,
        None => {
            let none: Vec<String> = Vec::new();
            assert(text::views(none@) =~= Seq::empty());
            none
        },
    }
}

/// The name servers that the authority section names.
pub fn extract_authority_ns_hostnames(packet: &[u8]) -> (r: Vec<String>)
    ensures
        text::views(r@) == (match referral(packet@) {
            Some(v) => v.authority_ns_hostnames,
            None => Seq::empty(),
        }),
{
    match analyze_referral_targets(packet) {
        Some(v) => v.authority_ns_hostnames,
        None => {
            let none: Vec<String> = Vec::new();
            assert(text::views(none@) =~= Seq::empty());
            none
        },
    }
}

} // verus!
