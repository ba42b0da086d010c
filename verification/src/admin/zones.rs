//! Zones: how they are named, built and changed.
use crate::admin::overview;
use crate::admin::overview::find_view;
use crate::admin::paths;
use crate::admin::values;
use crate::admin::views;
use crate::config::copies::copy_zone;
use crate::config::rules;
use crate::config::rules::is_blank;
use crate::config::types;
use crate::config::types::{AppConfig, AuthoritativeZone, DnsView, StaticRecord, ZoneSoa};
use crate::json_doc;
use crate::json_doc::{get_text, get_unsigned, JsonValue};
use crate::text;
use crate::toml_doc;
use vstd::prelude::*;

verus! {

/// Blocked domains as they are stored: in plain form, none of them blank, each once, in the order
/// of their first occurrence.
pub open spec fn stored_domains(list: Seq<Seq<char>>) -> Seq<Seq<char>>
    decreases list.len(),
{
    if list.len() == 0 {
        Seq::empty()
    } else {
        let done = stored_domains(list.drop_last());
        let name = text::plain_name(list.last());
        if name.len() == 0 || done.contains(name) {
            done
        } else {
            done.push(name)
        }
    }
}

/// No stored domain is blank or occurs twice, and every domain that is not blank is stored.
pub proof fn lemma_stored_domains(list: Seq<Seq<char>>)
    ensures
        stored_domains(list).no_duplicates(),
        forall|d: Seq<char>| #[trigger] stored_domains(list).contains(d) ==> d.len() > 0,
        forall|i: int|
            0 <= i < list.len() && text::plain_name(#[trigger] list[i]).len() > 0 ==> stored_domains(
                list,
            ).contains(text::plain_name(list[i])),
    decreases list.len(),
{
    if list.len() > 0 {
        let rest = list.drop_last();
        lemma_stored_domains(rest);
        let done = stored_domains(rest);
        let name = text::plain_name(list.last());
        let all = stored_domains(list);
        if !(name.len() == 0 || done.contains(name)) {
            assert(all == done.push(name));
            assert(all[done.len() as int] == name);
            assert forall|d: Seq<char>| #[trigger] all.contains(d) implies d.len() > 0 by {
                let k = choose|k: int| 0 <= k < all.len() && all[k] == d;
                if k < done.len() {
                    assert(done[k] == d);
                    assert(done.contains(d));
                }
            }
        }
        assert forall|i: int|
            0 <= i < list.len() && text::plain_name(#[trigger] list[i]).len() > 0 implies all.contains(
            text::plain_name(list[i]),
        ) by {
            if i < list.len() - 1 {
                assert(rest[i] == list[i]);
                let d = text::plain_name(list[i]);
                let k = choose|k: int| 0 <= k < done.len() && done[k] == d;
                assert(all[k] == d);
            }
        }
    }
}

fn holds(list: &Vec<String>, s: &str) -> (r: bool)
    ensures
        r == text::views(list@).contains(s@),
{
    let ghost all = text::views(list@);
    let mut i: usize = 0;
    while i < list.len()
        invariant
            i <= list@.len(),
            all == text::views(list@),
            forall|k: int| 0 <= k < i ==> #[trigger] all[k] != s@,
        decreases list@.len() - i,
    {
        assert(all[i as int] == list@[i as int]@);
        if text::same(list[i].as_str(), s) {
            return true;
        }
        i = i + 1;
    }
    false
}

/// Blocked domains as they are stored.
pub fn normalize_blocked_domains(input: &Vec<String>) -> (r: Vec<String>)
    ensures
        text::views(r@) == stored_domains(text::views(input@)),
{
    let ghost all = text::views(input@);
    let mut out: Vec<String> = Vec::new();
    let mut i: usize = 0;
    assert(all.take(0) =~= Seq::empty());
    assert(text::views(out@) =~= Seq::empty());
    while i < input.len()
        invariant
            i <= input@.len(),
            all == text::views(input@),
            text::views(out@) == stored_domains(all.take(i as int)),
        decreases input@.len() - i,
    {
        assert(all.take(i + 1).drop_last() =~= all.take(i as int));
        assert(all[i as int] == input@[i as int]@);
        let name = text::plain_name_of(input[i].as_str());
        let ghost before = text::views(out@);
        if text::chars_of(name.as_str()).len() > 0 && !holds(&out, name.as_str()) {
            out.push(name);
            assert(text::views(out@) =~= before.push(name@));
        }
        i = i + 1;
    }
    assert(all.take(i as int) =~= all);
    out
}

/// The labels of a name, without empty ones.
pub open spec fn labels(name: Seq<char>) -> Seq<Seq<char>> {
    text::split(name, '.').filter(|l: Seq<char>| l.len() > 0)
}

/// The longest list of labels with which both lists end.
pub open spec fn common_suffix(a: Seq<Seq<char>>, b: Seq<Seq<char>>) -> Seq<Seq<char>>
    decreases a.len(),
{
    if a.len() > 0 && b.len() > 0 && a.last() == b.last() {
        common_suffix(a.drop_last(), b.drop_last()).push(a.last())
    } else {
        Seq::empty()
    }
}

/// The labels with which all names end; nothing where there are none.
pub open spec fn shared_labels(names: Seq<Seq<char>>) -> Option<Seq<Seq<char>>>
    decreases names.len(),
{
    if names.len() == 0 {
        None
    } else {
        let last = labels(names.last());
        let shared = if names.len() == 1 {
            last
        } else {
            match shared_labels(names.drop_last()) {
                Some(s) => common_suffix(s, last),
                None => Seq::empty(),
            }
        };
        if shared.len() == 0 {
            None
        } else {
            Some(shared)
        }
    }
}

/// The plain names of records, without blank ones.
pub open spec fn record_names(records: Seq<types::StaticRecordV>) -> Seq<Seq<char>> {
    records.map_values(|r: types::StaticRecordV| text::plain_name(r.qname)).filter(
        |n: Seq<char>| n.len() > 0,
    )
}

/// The name of the zone that holds all records.
pub open spec fn inferred_zone(records: Seq<types::StaticRecordV>) -> Option<Seq<char>> {
    match shared_labels(record_names(records)) {
        Some(s) => Some(text::join_dots(s)),
        None => None,
    }
}

/// A common suffix is a suffix of both lists.
pub proof fn lemma_common_suffix(a: Seq<Seq<char>>, b: Seq<Seq<char>>)
    ensures
        common_suffix(a, b).is_suffix_of(a),
        common_suffix(a, b).is_suffix_of(b),
    decreases a.len(),
{
    if a.len() > 0 && b.len() > 0 && a.last() == b.last() {
        let x = a.drop_last();
        let y = b.drop_last();
        lemma_common_suffix(x, y);
        let c = common_suffix(x, y);
        assert(x.subrange(x.len() - c.len(), x.len() as int).push(a.last()) =~= a.subrange(
            a.len() - c.len() - 1,
            a.len() as int,
        ));
        assert(y.subrange(y.len() - c.len(), y.len() as int).push(b.last()) =~= b.subrange(
            b.len() - c.len() - 1,
            b.len() as int,
        ));
    } else {
        let e = Seq::<Seq<char>>::empty();
        assert(e =~= a.subrange(a.len() as int, a.len() as int));
        assert(e =~= b.subrange(b.len() as int, b.len() as int));
    }
}

/// Every name ends with the labels that all names share.
pub proof fn lemma_shared_labels(names: Seq<Seq<char>>, i: int)
    requires
        0 <= i < names.len(),
        shared_labels(names) is Some,
    ensures
        shared_labels(names)->0.is_suffix_of(labels(names[i])),
    decreases names.len(),
{
    let last = labels(names.last());
    if names.len() == 1 {
        assert(last =~= last.subrange(0, last.len() as int));
    } else {
        let rest = names.drop_last();
        let s = shared_labels(rest)->0;
        lemma_common_suffix(s, last);
        if i < names.len() - 1 {
            lemma_shared_labels(rest, i);
            let c = common_suffix(s, last);
            let all = labels(names[i]);
            assert(rest[i] == names[i]);
            assert(c =~= all.subrange(all.len() - c.len(), all.len() as int)) by {
                assert(s == all.subrange(all.len() - s.len(), all.len() as int));
                assert(c == s.subrange(s.len() - c.len(), s.len() as int));
            }
        }
    }
}

fn labels_of(name: &str) -> (r: Vec<String>)
    ensures
        text::views(r@) == labels(name@),
{
    let chars = text::chars_of(name);
    let parts = text::split_chars(chars.as_slice(), '.');
    let ghost all = text::split(name@, '.');
    let ghost keep = |l: Seq<char>| l.len() > 0;
    let mut out: Vec<String> = Vec::new();
    let mut i: usize = 0;
    assert(all.take(0).filter(keep) =~= Seq::empty()) by {
        reveal(Seq::filter);
    }
    assert(text::views(out@) =~= Seq::empty());
    while i < parts.len()
        invariant
            i <= parts@.len(),
            all == text::char_views(parts@),
            keep == (|l: Seq<char>| l.len() > 0),
            text::views(out@) == all.take(i as int).filter(keep),
        decreases parts@.len() - i,
    {
        assert(all[i as int] == parts@[i as int]@);
        assert(all.take(i + 1).drop_last() =~= all.take(i as int));
        let ghost before = text::views(out@);
        proof {
            reveal(Seq::filter);
        }
        if parts[i].len() > 0 {
            let s = text::string_of(parts[i].as_slice());
            out.push(s);
            assert(text::views(out@) =~= before.push(s@));
        }
        i = i + 1;
    }
    assert(all.take(i as int) =~= all);
    out
}

fn shared_suffix(a: &Vec<String>, b: &Vec<String>) -> (r: Vec<String>)
    ensures
        text::views(r@) == common_suffix(text::views(a@), text::views(b@)),
{
    let ghost x = text::views(a@);
    let ghost y = text::views(b@);
    let n: usize = a.len();
    let m: usize = b.len();
    let mut k: usize = 0;
    assert(x.take(n as int) =~= x && y.take(m as int) =~= y);
    assert(common_suffix(x, y) =~= common_suffix(x, y) + x.skip(n as int));
    while k < n && k < m && text::same(a[n - 1 - k].as_str(), b[m - 1 - k].as_str())
        invariant
            n == a@.len(),
            m == b@.len(),
            k <= n,
            k <= m,
            x == text::views(a@),
            y == text::views(b@),
            common_suffix(x, y) == common_suffix(x.take(n - k), y.take(m - k)) + x.skip(n - k),
        decreases n - k,
    {
        let ghost p = x.take(n - k);
        let ghost q = y.take(m - k);
        proof {
            assert(p.last() == a@[n - 1 - k]@ && q.last() == b@[m - 1 - k]@);
            assert(p.drop_last() =~= x.take(n - k - 1));
            assert(q.drop_last() =~= y.take(m - k - 1));
            assert(common_suffix(p, q) == common_suffix(p.drop_last(), q.drop_last()).push(
                p.last(),
            ));
            assert(common_suffix(p.drop_last(), q.drop_last()).push(p.last()) + x.skip(n - k)
                =~= common_suffix(p.drop_last(), q.drop_last()) + x.skip(n - k - 1));
        }
        k = k + 1;
    }
    proof {
        let p = x.take(n - k);
        let q = y.take(m - k);
        if k < n && k < m {
            assert(p.last() == a@[n - 1 - k]@ && q.last() == b@[m - 1 - k]@);
        }
        assert(common_suffix(p, q) =~= Seq::empty());
        assert(common_suffix(x, y) =~= x.skip(n - k));
    }
    let mut out: Vec<String> = Vec::new();
    let mut i: usize = n - k;
    while i < n
        invariant
            n == a@.len(),
            k <= n,
            n - k <= i <= n,
            out@.len() == i - (n - k),
            forall|j: int| 0 <= j < out@.len() ==> (#[trigger] out@[j])@ == a@[n - k + j]@,
        decreases n - i,
    {
        out.push(a[i].clone());
        i = i + 1;
    }
    assert(text::views(out@) =~= x.skip(n - k));
    out
}

fn names_of(records: &Vec<StaticRecord>) -> (r: Vec<String>)
    ensures
        text::views(r@) == record_names(types::record_views(records@)),
{
    let ghost all = types::record_views(records@).map_values(
        |r: types::StaticRecordV| text::plain_name(r.qname),
    );
    let ghost keep = |n: Seq<char>| n.len() > 0;
    let mut out: Vec<String> = Vec::new();
    let mut i: usize = 0;
    assert(all.take(0).filter(keep) =~= Seq::empty()) by {
        reveal(Seq::filter);
    }
    assert(text::views(out@) =~= Seq::empty());
    while i < records.len()
        invariant
            i <= records@.len(),
            all == types::record_views(records@).map_values(
                |r: types::StaticRecordV| text::plain_name(r.qname),
            ),
            keep == (|n: Seq<char>| n.len() > 0),
            text::views(out@) == all.take(i as int).filter(keep),
        decreases records@.len() - i,
    {
        assert(all[i as int] == text::plain_name(records@[i as int].qname@));
        assert(all.take(i + 1).drop_last() =~= all.take(i as int));
        let ghost before = text::views(out@);
        proof {
            reveal(Seq::filter);
        }
        let name = text::plain_name_of(records[i].qname.as_str());
        if text::chars_of(name.as_str()).len() > 0 {
            out.push(name);
            assert(text::views(out@) =~= before.push(name@));
        }
        i = i + 1;
    }
    assert(all.take(i as int) =~= all);
    out
}

proof fn lemma_no_shared_labels(names: Seq<Seq<char>>, i: int)
    requires
        0 < i <= names.len(),
        shared_labels(names.take(i)) is None,
    ensures
        shared_labels(names) is None,
    decreases names.len(),
{
    if i < names.len() {
        assert(names.drop_last().take(i) =~= names.take(i));
        lemma_no_shared_labels(names.drop_last(), i);
    } else {
        assert(names.take(i) =~= names);
    }
}

/// The name of the zone that holds all records.
pub fn infer_authoritative_zone_name(records: &Vec<StaticRecord>) -> (r: Option<String>)
    ensures
        types::optional_view(r) == inferred_zone(types::record_views(records@)),
{
    let names = names_of(records);
    let ghost all = text::views(names@);
    if names.len() == 0 {
        return None;
    }
    let mut shared = labels_of(names[0].as_str());
    proof {
        assert(all.take(1).last() == names@[0]@);
    }
    if shared.len() == 0 {
        proof {
            assert(text::views(shared@).len() == 0);
            lemma_no_shared_labels(all, 1);
        }
        return None;
    }
    let mut i: usize = 1;
    while i < names.len()
        invariant
            1 <= i <= names@.len(),
            all == text::views(names@),
            all == record_names(types::record_views(records@)),
            shared_labels(all.take(i as int)) == Some(text::views(shared@)),
        decreases names@.len() - i,
    {
        let ghost before = text::views(shared@);
        proof {
            assert(all.take(i + 1).drop_last() =~= all.take(i as int));
            assert(all.take(i + 1).last() == names@[i as int]@);
        }
        shared = shared_suffix(&shared, &labels_of(names[i].as_str()));
        if shared.len() == 0 {
            proof {
                assert(text::views(shared@).len() == 0);
                lemma_no_shared_labels(all, i + 1);
            }
            return None;
        }
        i = i + 1;
    }
    assert(all.take(i as int) =~= all);
    Some(text::join(&shared))
}

/// The start-of-authority data of a zone that has none of its own.
pub open spec fn default_soa(zone: Seq<char>, ttl: u32) -> types::ZoneSoaV {
    let name = text::plain_name(zone);
    let base = if name.len() == 0 {
        "local"@
    } else {
        name
    };
    types::ZoneSoaV {
        mname: "ns1."@ + base + "."@,
        rname: "hostmaster."@ + base + "."@,
        serial: 1,
        refresh: 3600,
        retry: 600,
        expire: 86400,
        minimum_ttl: ttl,
    }
}

/// The start-of-authority data of a zone that has none of its own.
pub fn build_default_zone_soa(zone_name: &str, ttl: u32) -> (r: ZoneSoa)
    ensures
        r@ == default_soa(zone_name@, ttl),
{
    let name = text::plain_name_of(zone_name);
    let base = if text::chars_of(name.as_str()).len() == 0 {
        "local".to_owned()
    } else {
        name
    };
    ZoneSoa {
        mname: text::concat(text::concat("ns1.", base.as_str()).as_str(), "."),
        rname: text::concat(text::concat("hostmaster.", base.as_str()).as_str(), "."),
        serial: 1,
        refresh: 3600,
        retry: 600,
        expire: 86400,
        minimum_ttl: ttl,
    }
}

/// Whether two names name the same zone: they differ at most in case and in dots at their ends.
pub open spec fn same_zone(a: Seq<char>, b: Seq<char>) -> bool {
    text::norm(a) == text::norm(b)
}

/// Whether two names name the same zone.
pub fn is_same_zone_name(lhs: &str, rhs: &str) -> (r: bool)
    ensures
        r == same_zone(lhs@, rhs@),
{
    text::same(text::normalized(lhs).as_str(), text::normalized(rhs).as_str())
}

/// The name of the file of a zone in a directory of zones.
pub open spec fn zone_file(zone: Seq<char>) -> Seq<char> {
    if text::plain_name(zone).len() == 0 {
        "zone.toml"@
    } else {
        text::plain_name(zone) + ".toml"@
    }
}

/// The name of the file of a zone in a directory of zones.
pub fn zone_file_name(zone_name: &str) -> (r: String)
    ensures
        r@ == zone_file(zone_name@),
{
    let stem = text::plain_name_of(zone_name);
    if text::chars_of(stem.as_str()).len() == 0 {
        "zone.toml".to_owned()
    } else {
        text::concat(stem.as_str(), ".toml")
    }
}

/// The first of the names that names the zone.
pub open spec fn zone_position(stems: Seq<Seq<char>>, zone: Seq<char>) -> Option<int>
    decreases stems.len(),
{
    if stems.len() == 0 {
        None
    } else if same_zone(stems[0], zone) {
        Some(0)
    } else {
        match zone_position(stems.skip(1), zone) {
            Some(i) => Some(i + 1),
            None => None,
        }
    }
}

/// The file of a zone among the files of a directory, given by their names without extension.
pub fn find_zone_file(stems: &Vec<String>, zone_name: &str) -> (r: Option<usize>)
    ensures
        zone_position(text::views(stems@), zone_name@) == (match r {
            Some(i) => Some(i as int),
            None => None,
        }),
{
    let ghost all = text::views(stems@);
    let mut i: usize = 0;
    assert(all.skip(0) =~= all);
    while i < stems.len()
        invariant
            i <= stems@.len(),
            all == text::views(stems@),
            zone_position(all, zone_name@) == (match zone_position(all.skip(i as int), zone_name@) {
                Some(k) => Some(k + i),
                None => None,
            }),
        decreases stems@.len() - i,
    {
        assert(all.skip(i as int)[0] == stems@[i as int]@);
        if is_same_zone_name(stems[i].as_str(), zone_name) {
            return Some(i);
        }
        assert(all.skip(i as int).skip(1) =~= all.skip(i + 1));
        i = i + 1;
    }
    None
}

/// The zone of the given name among those of the view of the given name.
pub open spec fn existing_zone(
    list: Seq<types::DnsViewV>,
    view: Seq<char>,
    zone: Seq<char>,
) -> Option<types::AuthoritativeZoneV> {
    let i = overview::view_index(list, view);
    if i < list.len() {
        first_same_zone(list[i].authoritative_zones, zone)
    } else {
        None
    }
}

pub open spec fn first_same_zone(
    zones: Seq<types::AuthoritativeZoneV>,
    zone: Seq<char>,
) -> Option<types::AuthoritativeZoneV>
    decreases zones.len(),
{
    if zones.len() == 0 {
        None
    } else if same_zone(zones[0].name, zone) {
        Some(zones[0])
    } else {
        first_same_zone(zones.skip(1), zone)
    }
}

pub open spec fn least_ttl(records: Seq<types::StaticRecordV>) -> Option<u32>
    decreases records.len(),
{
    if records.len() == 0 {
        None
    } else {
        match least_ttl(records.drop_last()) {
            Some(t) => if t <= records.last().ttl {
                Some(t)
            } else {
                Some(records.last().ttl)
            },
            None => Some(records.last().ttl),
        }
    }
}

/// The name of the zone that records of a view go to.
pub open spec fn zone_name_for(
    given: Option<Seq<char>>,
    records: Seq<types::StaticRecordV>,
    view: Seq<char>,
) -> Seq<char> {
    if given is Some && !rules::blank(given->0) {
        text::trim(given->0)
    } else if inferred_zone(records) is Some {
        inferred_zone(records)->0
    } else {
        view
    }
}

/// The zone with the given name and records: its time to live is the least of its records, and
/// what else it needs it takes from the zone that was there.
pub open spec fn rebuilt_zone(
    name: Seq<char>,
    records: Seq<types::StaticRecordV>,
    existing: Option<types::AuthoritativeZoneV>,
) -> types::AuthoritativeZoneV {
    let ttl: u32 = match least_ttl(records) {
        Some(t) => t,
        None => match existing {
            Some(z) => z.default_ttl,
            None => 300,
        },
    };
    let soa = match existing {
        Some(z) => match z.soa {
            Some(s) => s,
            None => default_soa(name, ttl),
        },
        None => default_soa(name, ttl),
    };
    types::AuthoritativeZoneV { name, default_ttl: ttl, soa: Some(soa), records }
}

fn find_same_zone(zones: &Vec<AuthoritativeZone>, zone: &str) -> (r: Option<AuthoritativeZone>)
    ensures
        first_same_zone(types::zone_views(zones@), zone@) == (match r {
            Some(z) => Some(z@),
            None => None,
        }),
{
    let ghost all = types::zone_views(zones@);
    let mut i: usize = 0;
    assert(all.skip(0) =~= all);
    while i < zones.len()
        invariant
            i <= zones@.len(),
            all == types::zone_views(zones@),
            first_same_zone(all, zone@) == first_same_zone(all.skip(i as int), zone@),
        decreases zones@.len() - i,
    {
        assert(all.skip(i as int)[0] == zones@[i as int]@);
        if is_same_zone_name(zones[i].name.as_str(), zone) {
            return Some(copy_zone(&zones[i]));
        }
        assert(all.skip(i as int).skip(1) =~= all.skip(i + 1));
        i = i + 1;
    }
    None
}

fn smallest_ttl(records: &Vec<StaticRecord>) -> (r: Option<u32>)
    ensures
        r == least_ttl(types::record_views(records@)),
{
    let ghost all = types::record_views(records@);
    let mut least: Option<u32> = None;
    let mut i: usize = 0;
    assert(all.take(0) =~= Seq::empty());
    while i < records.len()
        invariant
            i <= records@.len(),
            all == types::record_views(records@),
            least == least_ttl(all.take(i as int)),
        decreases records@.len() - i,
    {
        assert(all.take(i + 1).drop_last() =~= all.take(i as int));
        assert(all[i as int] == records@[i as int]@);
        let ttl: u32 = records[i].ttl;
        least =
        match least {
            Some(t) => if t <= ttl {
                Some(t)
            } else {
                Some(ttl)
            },
            None => Some(ttl),
        };
        i = i + 1;
    }
    assert(all.take(i as int) =~= all);
    least
}

/// The zone that the given records of a view make up.
pub fn zone_for_records(
    cfg: &AppConfig,
    view: &str,
    zone_name: &Option<String>,
    records: Vec<StaticRecord>,
) -> (r: AuthoritativeZone)
    ensures
        ({
            let new = types::record_views(records@);
            let name = zone_name_for(types::optional_view(*zone_name), new, view@);
            r@ == rebuilt_zone(name, new, existing_zone(types::dns_views(cfg.views@), view@, name))
        }),
{
    let given = match zone_name {
        Some(s) => if is_blank(s.as_str()) {
            None
        } else {
            Some(text::trimmed(s.as_str()))
        },
        None => None,
    };
    let name = match given {
        Some(s) => s,
        None => match infer_authoritative_zone_name(&records) {
            Some(s) => s,
            None => view.to_owned(),
        },
    };
    let i = find_view(&cfg.views, view);
    let existing = if i < cfg.views.len() {
        assert(types::dns_views(cfg.views@)[i as int] == cfg.views@[i as int]@);
        find_same_zone(&cfg.views[i].authoritative_zones, name.as_str())
    } else {
        None
    };
    let ttl: u32 = match smallest_ttl(&records) {
        Some(t) => t,
        None => match &existing {
            Some(z) => z.default_ttl,
            None => 300,
        },
    };
    let soa = match existing {
        Some(z) => match z.soa {
            Some(s) => s,
            None => build_default_zone_soa(name.as_str(), ttl),
        },
        None => build_default_zone_soa(name.as_str(), ttl),
    };
    AuthoritativeZone { name, default_ttl: ttl, soa: Some(soa), records }
}

/// The zones without those of the given name but for case.
pub open spec fn zones_without(
    zones: Seq<types::AuthoritativeZoneV>,
    name: Seq<char>,
) -> Seq<types::AuthoritativeZoneV> {
    zones.filter(|z: types::AuthoritativeZoneV| !rules::fold_eq(z.name, name))
}

/// Deletes a zone from a list; says whether it was there.
pub fn delete_zone_from_list(zones: &mut Vec<AuthoritativeZone>, zone_name: &str) -> (r: bool)
    ensures
        types::zone_views(final(zones)@) == zones_without(
            types::zone_views(old(zones)@),
            zone_name@,
        ),
        r == (final(zones)@.len() != old(zones)@.len()),
{
    let ghost all = types::zone_views(zones@);
    let ghost keep = |z: types::AuthoritativeZoneV| !rules::fold_eq(z.name, zone_name@);
    let n: usize = zones.len();
    let mut out: Vec<AuthoritativeZone> = Vec::new();
    let mut i: usize = 0;
    assert(all.take(0).filter(keep) =~= Seq::empty()) by {
        reveal(Seq::filter);
    }
    assert(types::zone_views(out@) =~= Seq::empty());
    while i < n
        invariant
            i <= n,
            n == zones@.len(),
            *zones == *old(zones),
            all == types::zone_views(zones@),
            keep == (|z: types::AuthoritativeZoneV| !rules::fold_eq(z.name, zone_name@)),
            types::zone_views(out@) == all.take(i as int).filter(keep),
        decreases n - i,
    {
        assert(all[i as int] == zones@[i as int]@);
        assert(all.take(i + 1).drop_last() =~= all.take(i as int));
        let ghost before = types::zone_views(out@);
        proof {
            reveal(Seq::filter);
        }
        if !text::same_fold(zones[i].name.as_str(), zone_name) {
            let kept = copy_zone(&zones[i]);
            out.push(kept);
            assert(types::zone_views(out@) =~= before.push(kept@));
        }
        i = i + 1;
    }
    assert(all.take(i as int) =~= all);
    let removed = out.len() != n;
    assert(types::zone_views(out@).len() == out@.len());
    *zones = out;
    removed
}

/// A field of start-of-authority data that is wrong.
#[derive(Debug, Clone, Copy, PartialEq, Eq, Structural)]
pub enum SoaField {
    Mname,
    Rname,
    Serial,
    Refresh,
    Retry,
    Expire,
    MinimumTtl,
}

/// Why start-of-authority data is refused.
#[derive(Debug, Clone, Copy, PartialEq, Eq, Structural)]
pub enum SoaError {
    NotObject,
    Missing(SoaField),
    OutOfRange(SoaField),
}

impl SoaField {
    pub open spec fn key(self) -> Seq<char> {
        match self {
            SoaField::Mname => "mname"@,
            SoaField::Rname => "rname"@,
            SoaField::Serial => "serial"@,
            SoaField::Refresh => "refresh"@,
            SoaField::Retry => "retry"@,
            SoaField::Expire => "expire"@,
            SoaField::MinimumTtl => "minimum_ttl"@,
        }
    }

    /// The name of the field.
    pub fn name(self) -> (r: String)
        ensures
            r@ == self.key(),
    {
        match self {
            SoaField::Mname => "mname".to_owned(),
            SoaField::Rname => "rname".to_owned(),
            SoaField::Serial => "serial".to_owned(),
            SoaField::Refresh => "refresh".to_owned(),
            SoaField::Retry => "retry".to_owned(),
            SoaField::Expire => "expire".to_owned(),
            SoaField::MinimumTtl => "minimum_ttl".to_owned(),
        }
    }
}

impl SoaError {
    pub open spec fn text(self) -> Seq<char> {
        match self {
            SoaError::NotObject => "soa payload must be a JSON object"@,
            SoaError::Missing(f) => "soa payload missing field: "@ + f.key(),
            SoaError::OutOfRange(f) => "soa payload field out of range: "@ + f.key(),
        }
    }

    /// The reason in words.
    pub fn message(self) -> (r: String)
        ensures
            r@ == self.text(),
    {
        match self {
            SoaError::NotObject => "soa payload must be a JSON object".to_owned(),
            SoaError::Missing(f) => text::concat(
                "soa payload missing field: ",
                f.name().as_str(),
            ),
            SoaError::OutOfRange(f) => text::concat(
                "soa payload field out of range: ",
                f.name().as_str(),
            ),
        }
    }
}

pub open spec fn soa_text(t: json_doc::ObjectV, f: SoaField) -> Result<Seq<char>, SoaError> {
    match json_doc::text_at(t, f.key()) {
        Some(s) => Ok(s),
        None => Err(SoaError::Missing(f)),
    }
}

pub open spec fn soa_number(t: json_doc::ObjectV, f: SoaField) -> Result<u32, SoaError> {
    match json_doc::unsigned_at(t, f.key()) {
        Some(n) => if n <= u32::MAX {
            Ok(n as u32)
        } else {
            Err(SoaError::OutOfRange(f))
        },
        None => Err(SoaError::Missing(f)),
    }
}

/// The first error among the fields, in the order of the record.
pub open spec fn soa_error(t: json_doc::ObjectV) -> Option<SoaError> {
    if soa_text(t, SoaField::Mname) is Err {
        Some(soa_text(t, SoaField::Mname)->Err_0)
    } else if soa_text(t, SoaField::Rname) is Err {
        Some(soa_text(t, SoaField::Rname)->Err_0)
    } else if soa_number(t, SoaField::Serial) is Err {
        Some(soa_number(t, SoaField::Serial)->Err_0)
    } else if soa_number(t, SoaField::Refresh) is Err {
        Some(soa_number(t, SoaField::Refresh)->Err_0)
    } else if soa_number(t, SoaField::Retry) is Err {
        Some(soa_number(t, SoaField::Retry)->Err_0)
    } else if soa_number(t, SoaField::Expire) is Err {
        Some(soa_number(t, SoaField::Expire)->Err_0)
    } else if soa_number(t, SoaField::MinimumTtl) is Err {
        Some(soa_number(t, SoaField::MinimumTtl)->Err_0)
    } else {
        None
    }
}

/// The start-of-authority data that a JSON document writes.
pub open spec fn soa_of_json(v: json_doc::JsonV) -> Result<types::ZoneSoaV, SoaError> {
    match v {
        json_doc::JsonV::Object(t) => match soa_error(t) {
            Some(e) => Err(e),
            None => Ok(
                types::ZoneSoaV {
                    mname: soa_text(t, SoaField::Mname)->Ok_0,
                    rname: soa_text(t, SoaField::Rname)->Ok_0,
                    serial: soa_number(t, SoaField::Serial)->Ok_0,
                    refresh: soa_number(t, SoaField::Refresh)->Ok_0,
                    retry: soa_number(t, SoaField::Retry)->Ok_0,
                    expire: soa_number(t, SoaField::Expire)->Ok_0,
                    minimum_ttl: soa_number(t, SoaField::MinimumTtl)->Ok_0,
                },
            ),
        },
        _ => Err(SoaError::NotObject),
    }
}

fn read_soa_text(t: &Vec<(String, JsonValue)>, f: SoaField) -> (r: Result<String, SoaError>)
    ensures
        match soa_text(json_doc::object_view(t@), f) {
            Ok(s) => r is Ok && r->Ok_0@ == s,
            Err(e) => r is Err && r->Err_0 == e,
        },
{
    match get_text(t, f.name().as_str()) {
        Some(s) => Ok(s),
        None => Err(SoaError::Missing(f)),
    }
}

fn read_soa_number(t: &Vec<(String, JsonValue)>, f: SoaField) -> (r: Result<u32, SoaError>)
    ensures
        r == soa_number(json_doc::object_view(t@), f),
{
    match get_unsigned(t, f.name().as_str()) {
        Some(n) => if n <= 0xffff_ffff {
            Ok(n as u32)
        } else {
            Err(SoaError::OutOfRange(f))
        },
        None => Err(SoaError::Missing(f)),
    }
}

/// Reads start-of-authority data from a JSON document.
pub fn parse_zone_soa_payload(payload: &JsonValue) -> (r: Result<ZoneSoa, SoaError>)
    ensures
        match soa_of_json(payload@) {
            Ok(s) => r is Ok && r->Ok_0@ == s,
            Err(e) => r is Err && r->Err_0 == e,
        },
{
    match payload {
        JsonValue::Object(t) => {
            proof {
                json_doc::lemma_object_view(*t);
            }
            let mname = match read_soa_text(t, SoaField::Mname) {
                Ok(s) => s,
                Err(e) => return Err(e),
            };
            let rname = match read_soa_text(t, SoaField::Rname) {
                Ok(s) => s,
                Err(e) => return Err(e),
            };
            let serial: u32 = match read_soa_number(t, SoaField::Serial) {
                Ok(n) => n,
                Err(e) => return Err(e),
            };
            let refresh: u32 = match read_soa_number(t, SoaField::Refresh) {
                Ok(n) => n,
                Err(e) => return Err(e),
            };
            let retry: u32 = match read_soa_number(t, SoaField::Retry) {
                Ok(n) => n,
                Err(e) => return Err(e),
            };
            let expire: u32 = match read_soa_number(t, SoaField::Expire) {
                Ok(n) => n,
                Err(e) => return Err(e),
            };
            let minimum_ttl: u32 = match read_soa_number(t, SoaField::MinimumTtl) {
                Ok(n) => n,
                Err(e) => return Err(e),
            };
            Ok(ZoneSoa { mname, rname, serial, refresh, retry, expire, minimum_ttl })
        },
        _ => Err(SoaError::NotObject),
    }
}

/// The first zone with the given name but for case.
pub open spec fn folded_index(zones: Seq<types::AuthoritativeZoneV>, name: Seq<char>) -> int
    decreases zones.len(),
{
    if zones.len() == 0 || rules::fold_eq(zones[0].name, name) {
        0
    } else {
        1 + folded_index(zones.skip(1), name)
    }
}

/// The zones with other start-of-authority data in the first of the given name.
pub open spec fn zones_with_soa(
    zones: Seq<types::AuthoritativeZoneV>,
    name: Seq<char>,
    soa: types::ZoneSoaV,
) -> Seq<types::AuthoritativeZoneV> {
    let i = folded_index(zones, name);
    if i < zones.len() {
        zones.update(i, types::AuthoritativeZoneV { soa: Some(soa), ..zones[i] })
    } else {
        zones
    }
}

/// Writes start-of-authority data into the first zone of the given name; says whether there was
/// one. Data that cannot be read changes nothing.
pub fn update_zone_soa_in_list(
    zones: &mut Vec<AuthoritativeZone>,
    zone_name: &str,
    payload: &JsonValue,
) -> (r: Result<bool, SoaError>)
    ensures
        match soa_of_json(payload@) {
            Ok(soa) => {
                &&& r is Ok
                &&& r->Ok_0 == (folded_index(types::zone_views(old(zones)@), zone_name@) < old(
                    zones,
                )@.len())
                &&& types::zone_views(final(zones)@) == zones_with_soa(
                    types::zone_views(old(zones)@),
                    zone_name@,
                    soa,
                )
            },
            Err(e) => r is Err && r->Err_0 == e && *final(zones) == *old(zones),
        },
{
    let soa = match parse_zone_soa_payload(payload) {
        Ok(s) => s,
        Err(e) => return Err(e),
    };
    let ghost all = types::zone_views(zones@);
    let n: usize = zones.len();
    let mut i: usize = 0;
    assert(all.skip(0) =~= all);
    while i < n && !text::same_fold(zones[i].name.as_str(), zone_name)
        invariant
            i <= n,
            n == zones@.len(),
            *zones == *old(zones),
            all == types::zone_views(zones@),
            folded_index(all, zone_name@) == i + folded_index(all.skip(i as int), zone_name@),
        decreases n - i,
    {
        assert(all.skip(i as int)[0] == zones@[i as int]@);
        assert(all.skip(i as int).skip(1) =~= all.skip(i + 1));
        i = i + 1;
    }
    if i < n {
        assert(all.skip(i as int)[0] == zones@[i as int]@);
        let old_zone = copy_zone(&zones[i]);
        let new = AuthoritativeZone { soa: Some(soa), ..old_zone };
        zones.set(i, new);
        assert(types::zone_views(zones@) =~= all.update(i as int, new@));
        Ok(true)
    } else {
        Ok(false)
    }
}

/// Where the zones of a view are kept.
pub enum ZoneTarget {
    Inline,
    File(String),
    Directory(String),
}

pub ghost enum ZoneTargetV {
    Inline,
    File(Seq<char>),
    Directory(Seq<char>),
}

pub open spec fn target_view(t: ZoneTarget) -> ZoneTargetV {
    match t {
        ZoneTarget::Inline => ZoneTargetV::Inline,
        ZoneTarget::File(s) => ZoneTargetV::File(s@),
        ZoneTarget::Directory(s) => ZoneTargetV::Directory(s@),
    }
}

pub open spec fn is_set(path: Option<Seq<char>>) -> bool {
    path is Some && !rules::blank(path->0)
}

/// Where the zones of the view of the given name are kept: in its directory, else in its file,
/// else in the configuration itself.
pub open spec fn zone_target(list: Seq<types::DnsViewV>, view: Seq<char>) -> Option<ZoneTargetV> {
    let i = overview::view_index(list, view);
    if i >= list.len() {
        None
    } else if is_set(list[i].authoritative_zones_dir) {
        Some(ZoneTargetV::Directory(text::trim(list[i].authoritative_zones_dir->0)))
    } else if is_set(list[i].authoritative_zones_file) {
        Some(ZoneTargetV::File(text::trim(list[i].authoritative_zones_file->0)))
    } else {
        Some(ZoneTargetV::Inline)
    }
}

fn set_path(path: &Option<String>) -> (r: Option<String>)
    ensures
        r is Some <==> is_set(types::optional_view(*path)),
        r matches Some(s) ==> s@ == text::trim(path->0@),
{
    match path {
        Some(s) => if is_blank(s.as_str()) {
            None
        } else {
            Some(text::trimmed(s.as_str()))
        },
        None => None,
    }
}

/// Where the zones of a view are kept; nothing where there is no such view.
pub fn resolve_authoritative_zone_mutation_target(cfg: &AppConfig, view_name: &str) -> (r: Option<
    ZoneTarget,
>)
    ensures
        zone_target(types::dns_views(cfg.views@), view_name@) == (match r {
            Some(t) => Some(target_view(t)),
            None => None,
        }),
{
    let i = find_view(&cfg.views, view_name);
    if i >= cfg.views.len() {
        return None;
    }
    assert(types::dns_views(cfg.views@)[i as int] == cfg.views@[i as int]@);
    let view: &DnsView = &cfg.views[i];
    if let Some(dir) = set_path(&view.authoritative_zones_dir) {
        return Some(ZoneTarget::Directory(dir));
    }
    if let Some(file) = set_path(&view.authoritative_zones_file) {
        return Some(ZoneTarget::File(file));
    }
    Some(ZoneTarget::Inline)
}

} // verus!
