//! What holds of the zones of views across the requests that change them.
use crate::admin::overview;
use crate::admin::zones;
use crate::config::types;
use crate::json_doc;
use crate::text;
use vstd::prelude::*;

verus! {

proof fn lemma_view_found(list: Seq<types::DnsViewV>, name: Seq<char>, i: int)
    requires
        0 <= i <= list.len(),
        i < list.len() ==> text::lower(list[i].name) == text::lower(name),
        forall|j: int| 0 <= j < i ==> text::lower((#[trigger] list[j]).name) != text::lower(name),
    ensures
        overview::view_index(list, name) == i,
    decreases list.len(),
{
    if list.len() > 0 && i > 0 {
        let rest = list.skip(1);
        assert(list[0].name == list[0].name);
        assert forall|j: int| 0 <= j < i - 1 implies text::lower((#[trigger] rest[j]).name)
            != text::lower(name) by {
            assert(rest[j] == list[j + 1]);
        }
        lemma_view_found(rest, name, i - 1);
    }
}

proof fn lemma_zone_found(list: Seq<types::AuthoritativeZoneV>, name: Seq<char>, i: int)
    requires
        0 <= i <= list.len(),
        i < list.len() ==> text::norm(list[i].name) == text::norm(name),
        forall|j: int| 0 <= j < i ==> text::norm((#[trigger] list[j]).name) != text::norm(name),
    ensures
        zones::first_same_zone(list, name) == (if i < list.len() {
            Some(list[i])
        } else {
            None
        }),
    decreases list.len(),
{
    if list.len() > 0 && i > 0 {
        let rest = list.skip(1);
        assert(list[0].name == list[0].name);
        assert forall|j: int| 0 <= j < i - 1 implies text::norm((#[trigger] rest[j]).name)
            != text::norm(name) by {
            assert(rest[j] == list[j + 1]);
        }
        lemma_zone_found(rest, name, i - 1);
    }
}

/// The time to live of a zone is at most that of each of its records, and that of one of them.
proof fn lemma_least_ttl(records: Seq<types::StaticRecordV>)
    ensures
        match zones::least_ttl(records) {
            Some(t) => (forall|i: int|
                0 <= i < records.len() ==> t <= (#[trigger] records[i]).ttl) && exists|i: int|
                0 <= i < records.len() && t == (#[trigger] records[i]).ttl,
            None => records.len() == 0,
        },
    decreases records.len(),
{
    if records.len() > 0 {
        let start = records.drop_last();
        lemma_least_ttl(start);
        assert(forall|i: int| 0 <= i < start.len() ==> #[trigger] records[i] == start[i]);
        assert(records[records.len() - 1] == records.last());
        if let Some(t) = zones::least_ttl(start) {
            let k = choose|i: int| 0 <= i < start.len() && t == (#[trigger] start[i]).ttl;
            assert(records[k] == start[k]);
        }
    }
}

/// Where the view has a zone of the name already, with start-of-authority data of its own, the
/// zone that takes its place has the same data. `v` is the first view of the name, `z` its first
/// zone of the name.
pub proof fn lemma_rebuilt_zone_keeps_its_soa(
    list: Seq<types::DnsViewV>,
    view: Seq<char>,
    given: Option<Seq<char>>,
    records: Seq<types::StaticRecordV>,
    v: int,
    z: int,
)
    requires
        0 <= v < list.len(),
        text::lower(list[v].name) == text::lower(view),
        forall|j: int| 0 <= j < v ==> text::lower((#[trigger] list[j]).name) != text::lower(view),
        0 <= z < list[v].authoritative_zones.len(),
        text::norm(list[v].authoritative_zones[z].name) == text::norm(
            zones::zone_name_for(given, records, view),
        ),
        forall|j: int|
            0 <= j < z ==> text::norm((#[trigger] list[v].authoritative_zones[j]).name)
                != text::norm(zones::zone_name_for(given, records, view)),
        list[v].authoritative_zones[z].soa is Some,
    ensures
        ({
            let name = zones::zone_name_for(given, records, view);
            let new = zones::rebuilt_zone(
                name,
                records,
                zones::existing_zone(list, view, name),
            );
            &&& new.soa == list[v].authoritative_zones[z].soa
            &&& new.name == name
            &&& new.records == records
            &&& records.len() == 0 ==> new.default_ttl
                == list[v].authoritative_zones[z].default_ttl
        }),
{
    let name = zones::zone_name_for(given, records, view);
    lemma_view_found(list, view, v);
    lemma_zone_found(list[v].authoritative_zones, name, z);
    lemma_least_ttl(records);
}

/// Where no view has the name, or the view has no zone of the name, or the zone has no
/// start-of-authority data, the new zone has default data: it names the first server and the
/// host master of the zone, starts with the first serial, and its minimum is the time to live of
/// the zone.
pub proof fn lemma_new_zone_has_default_soa(
    list: Seq<types::DnsViewV>,
    view: Seq<char>,
    given: Option<Seq<char>>,
    records: Seq<types::StaticRecordV>,
    v: int,
    z: int,
)
    requires
        0 <= v <= list.len(),
        v < list.len() ==> text::lower(list[v].name) == text::lower(view),
        forall|j: int| 0 <= j < v ==> text::lower((#[trigger] list[j]).name) != text::lower(view),
        v < list.len() ==> {
            let name = zones::zone_name_for(given, records, view);
            let known = list[v].authoritative_zones;
            &&& 0 <= z <= known.len()
            &&& z < known.len() ==> text::norm(known[z].name) == text::norm(name) && known[z].soa
                is None
            &&& forall|j: int|
                0 <= j < z ==> text::norm((#[trigger] known[j]).name) != text::norm(name)
        },
        text::plain_name(zones::zone_name_for(given, records, view)).len() > 0,
    ensures
        ({
            let name = zones::zone_name_for(given, records, view);
            let plain = text::plain_name(name);
            let new = zones::rebuilt_zone(
                name,
                records,
                zones::existing_zone(list, view, name),
            );
            &&& new.soa matches Some(s)
            &&& s.mname == "ns1."@ + plain + "."@
            &&& s.rname == "hostmaster."@ + plain + "."@
            &&& s.serial == 1
            &&& s.minimum_ttl == new.default_ttl
            &&& s.retry < s.refresh < s.expire
        }),
{
    let name = zones::zone_name_for(given, records, view);
    lemma_view_found(list, view, v);
    if v < list.len() {
        lemma_zone_found(list[v].authoritative_zones, name, z);
    }
}

/// The zone that records make up lives as long as the one of them that lives shortest, whatever
/// zone was there before.
pub proof fn lemma_zone_lives_as_its_records(
    name: Seq<char>,
    records: Seq<types::StaticRecordV>,
    existing: Option<types::AuthoritativeZoneV>,
)
    requires
        records.len() > 0,
    ensures
        ({
            let new = zones::rebuilt_zone(name, records, existing);
            &&& forall|i: int|
                0 <= i < records.len() ==> new.default_ttl <= (#[trigger] records[i]).ttl
            &&& exists|i: int| 0 <= i < records.len() && new.default_ttl == (#[trigger] records[i]).ttl
        }),
{
    lemma_least_ttl(records);
}

/// Records go to the zone that is named for them, without the blanks around its name; where no
/// name is given, to the zone whose name all of them end with.
pub proof fn lemma_records_go_to_the_named_zone(
    name: Seq<char>,
    records: Seq<types::StaticRecordV>,
    view: Seq<char>,
)
    ensures
        text::trim(name).len() > 0 ==> zones::zone_name_for(Some(name), records, view)
            == text::trim(name),
        text::trim(name).len() == 0 ==> zones::zone_name_for(Some(name), records, view)
            == zones::zone_name_for(None, records, view),
        zones::inferred_zone(records) matches Some(z) ==> zones::zone_name_for(None, records, view)
            == z,
        zones::inferred_zone(records) is None ==> zones::zone_name_for(None, records, view) == view,
{
}

/// A zone that is deleted is gone, whatever the case of its name; the other zones are kept in
/// their order.
pub proof fn lemma_deleted_zone_is_gone(
    list: Seq<types::AuthoritativeZoneV>,
    name: Seq<char>,
)
    ensures
        forall|i: int|
            0 <= i < zones::zones_without(list, name).len() ==> text::lower(
                (#[trigger] zones::zones_without(list, name)[i]).name,
            ) != text::lower(name),
        forall|i: int|
            0 <= i < list.len() && text::lower((#[trigger] list[i]).name) != text::lower(name)
                ==> zones::zones_without(list, name).contains(list[i]),
        (forall|i: int|
            0 <= i < list.len() ==> text::lower((#[trigger] list[i]).name) != text::lower(name))
            <==> zones::zones_without(list, name) == list,
    decreases list.len(),
{
    reveal(Seq::filter);
    let f = |z: types::AuthoritativeZoneV| !crate::config::rules::fold_eq(z.name, name);
    let kept = list.filter(f);
    list.filter_lemma(f);
    list.lemma_filter_len(f);
    assert(zones::zones_without(list, name) == kept);
    assert forall|i: int| 0 <= i < kept.len() implies text::lower((#[trigger] kept[i]).name)
        != text::lower(name) by {
        assert(f(kept[i]));
    }
    assert forall|i: int|
        0 <= i < list.len() && text::lower((#[trigger] list[i]).name) != text::lower(
            name,
        ) implies kept.contains(list[i]) by {
        assert(f(list[i]));
    }
    if list.len() > 0 {
        let start = list.drop_last();
        lemma_deleted_zone_is_gone(start, name);
        start.lemma_filter_len(f);
        assert(list[list.len() - 1] == list.last());
        assert(forall|i: int| 0 <= i < start.len() ==> #[trigger] start[i] == list[i]);
        assert(zones::zones_without(start, name) == start.filter(f));
        if forall|i: int|
            0 <= i < list.len() ==> text::lower((#[trigger] list[i]).name) != text::lower(name) {
            assert(f(list.last()));
            assert(kept =~= list);
        } else if kept == list {
            let i = choose|i: int|
                0 <= i < list.len() && text::lower((#[trigger] list[i]).name) == text::lower(name);
            assert(f(kept[i]));
        }
    } else {
        assert(kept =~= list);
    }
}

/// Start-of-authority data that is written into the zones stands in the first zone of the name,
/// whatever its case; everything else is as it was.
pub proof fn lemma_soa_is_written_once(
    list: Seq<types::AuthoritativeZoneV>,
    name: Seq<char>,
    soa: types::ZoneSoaV,
    i: int,
)
    requires
        0 <= i <= list.len(),
        i < list.len() ==> text::lower(list[i].name) == text::lower(name),
        forall|j: int| 0 <= j < i ==> text::lower((#[trigger] list[j]).name) != text::lower(name),
    ensures
        ({
            let new = zones::zones_with_soa(list, name, soa);
            &&& new.len() == list.len()
            &&& i < list.len() ==> new[i].soa == Some(soa) && new[i].name == list[i].name
                && new[i].default_ttl == list[i].default_ttl && new[i].records == list[i].records
            &&& forall|j: int| 0 <= j < list.len() && j != i ==> #[trigger] new[j] == list[j]
        }),
        zones::folded_index(list, name) == i,
    decreases list.len(),
{
    if list.len() > 0 && i > 0 {
        let rest = list.skip(1);
        assert(list[0].name == list[0].name);
        assert forall|j: int| 0 <= j < i - 1 implies text::lower((#[trigger] rest[j]).name)
            != text::lower(name) by {
            assert(rest[j] == list[j + 1]);
        }
        lemma_soa_is_written_once(rest, name, soa, i - 1);
    }
}

/// Start-of-authority data is read from an object that has two texts and five numbers of 32 bits
/// under the names of the fields, each field from its own; it is refused otherwise.
pub proof fn lemma_soa_fields_are_read(t: json_doc::ObjectV)
    ensures
        ({
            let r = zones::soa_of_json(json_doc::JsonV::Object(t));
            &&& r is Ok <==> {
                &&& json_doc::text_at(t, "mname"@) is Some
                &&& json_doc::text_at(t, "rname"@) is Some
                &&& json_doc::unsigned_at(t, "serial"@) matches Some(n) && n <= 0xffff_ffff
                &&& json_doc::unsigned_at(t, "refresh"@) matches Some(n) && n <= 0xffff_ffff
                &&& json_doc::unsigned_at(t, "retry"@) matches Some(n) && n <= 0xffff_ffff
                &&& json_doc::unsigned_at(t, "expire"@) matches Some(n) && n <= 0xffff_ffff
                &&& json_doc::unsigned_at(t, "minimum_ttl"@) matches Some(n) && n <= 0xffff_ffff
            }
            &&& r matches Ok(s) ==> {
                &&& Some(s.mname) == json_doc::text_at(t, "mname"@)
                &&& Some(s.rname) == json_doc::text_at(t, "rname"@)
                &&& s.serial == json_doc::unsigned_at(t, "serial"@)->0
                &&& s.refresh == json_doc::unsigned_at(t, "refresh"@)->0
                &&& s.retry == json_doc::unsigned_at(t, "retry"@)->0
                &&& s.expire == json_doc::unsigned_at(t, "expire"@)->0
                &&& s.minimum_ttl == json_doc::unsigned_at(t, "minimum_ttl"@)->0
            }
        }),
{
}

/// The zones of a view are kept in its directory where it has one, in its file where it has only
/// that, and in the configuration where it has neither; a blank path counts as none.
pub proof fn lemma_directory_before_file(
    list: Seq<types::DnsViewV>,
    view: Seq<char>,
    v: int,
)
    requires
        0 <= v <= list.len(),
        v < list.len() ==> text::lower(list[v].name) == text::lower(view),
        forall|j: int| 0 <= j < v ==> text::lower((#[trigger] list[j]).name) != text::lower(view),
    ensures
        ({
            let t = zones::zone_target(list, view);
            if v == list.len() {
                t is None
            } else {
                match (list[v].authoritative_zones_dir, list[v].authoritative_zones_file) {
                    (Some(d), f) => if text::trim(d).len() > 0 {
                        t == Some(zones::ZoneTargetV::Directory(text::trim(d)))
                    } else {
                        t == zones::zone_target(
                            seq![
                                types::DnsViewV { authoritative_zones_dir: None, ..list[v] },
                            ],
                            view,
                        )
                    },
                    (None, Some(f)) => t == Some(
                        if text::trim(f).len() > 0 {
                            zones::ZoneTargetV::File(text::trim(f))
                        } else {
                            zones::ZoneTargetV::Inline
                        },
                    ),
                    (None, None) => t == Some(zones::ZoneTargetV::Inline),
                }
            }
        }),
{
    lemma_view_found(list, view, v);
    if v < list.len() {
        let one = seq![types::DnsViewV { authoritative_zones_dir: None, ..list[v] }];
        assert(overview::view_index(one, view) == 0);
    }
}

/// The file of a zone is found by the name of the zone: the first name that differs from it at
/// most in case and in dots at its end.
pub proof fn lemma_zone_file_is_the_first_of_the_name(
    stems: Seq<Seq<char>>,
    zone: Seq<char>,
    i: int,
)
    requires
        0 <= i <= stems.len(),
        i < stems.len() ==> text::norm(stems[i]) == text::norm(zone),
        forall|j: int| 0 <= j < i ==> text::norm(#[trigger] stems[j]) != text::norm(zone),
    ensures
        zones::zone_position(stems, zone) == (if i < stems.len() {
            Some(i)
        } else {
            None
        }),
    decreases stems.len(),
{
    if stems.len() > 0 && i > 0 {
        let rest = stems.skip(1);
        assert(stems[0] == stems[0]);
        assert forall|j: int| 0 <= j < i - 1 implies text::norm(#[trigger] rest[j]) != text::norm(
            zone,
        ) by {
            assert(rest[j] == stems[j + 1]);
        }
        lemma_zone_file_is_the_first_of_the_name(rest, zone, i - 1);
    }
}

/// The labels that all of some names share are the longest: the first name goes on with another
/// label than some other name, or ends there.
proof fn lemma_common_suffix_longest(a: Seq<Seq<char>>, b: Seq<Seq<char>>, s: Seq<Seq<char>>)
    requires
        s.is_suffix_of(a),
        s.is_suffix_of(b),
    ensures
        s.len() <= zones::common_suffix(a, b).len(),
    decreases s.len(),
{
    if s.len() > 0 {
        assert(a.last() == a.subrange(a.len() - s.len(), a.len() as int)[s.len() - 1]);
        assert(b.last() == b.subrange(b.len() - s.len(), b.len() as int)[s.len() - 1]);
        assert(a.last() == s.last() && b.last() == s.last());
        assert(s.drop_last() =~= a.drop_last().subrange(
            a.len() - s.len(),
            a.len() - 1,
        ));
        assert(s.drop_last() =~= b.drop_last().subrange(
            b.len() - s.len(),
            b.len() - 1,
        ));
        lemma_common_suffix_longest(a.drop_last(), b.drop_last(), s.drop_last());
    }
}

/// No zone name is longer than the inferred one among those that all names end with.
pub proof fn lemma_inferred_zone_is_the_longest(names: Seq<Seq<char>>, s: Seq<Seq<char>>)
    requires
        names.len() > 0,
        s.len() > 0,
        forall|i: int| 0 <= i < names.len() ==> s.is_suffix_of(#[trigger] zones::labels(names[i])),
    ensures
        zones::shared_labels(names) matches Some(t) && s.len() <= t.len() && s.is_suffix_of(t),
    decreases names.len(),
{
    let last = zones::labels(names.last());
    assert(s.is_suffix_of(zones::labels(names[names.len() - 1])));
    if names.len() > 1 {
        let start = names.drop_last();
        assert forall|i: int| 0 <= i < start.len() implies s.is_suffix_of(
            #[trigger] zones::labels(start[i]),
        ) by {
            assert(s.is_suffix_of(zones::labels(names[i])));
        }
        lemma_inferred_zone_is_the_longest(start, s);
        let t = zones::shared_labels(start)->0;
        lemma_common_suffix_longest(t, last, s);
        let c = zones::common_suffix(t, last);
        zones::lemma_common_suffix(t, last);
        assert(c == last.subrange(last.len() - c.len(), last.len() as int));
        assert(s =~= c.subrange(c.len() - s.len(), c.len() as int)) by {
            assert(s == last.subrange(last.len() - s.len(), last.len() as int));
        }
    }
}

} // verus!
