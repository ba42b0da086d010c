//! Records, zones and lists as TOML values, and the reading and writing of whole documents.
use crate::admin::error::AdminError;
use crate::config::types;
use crate::config::types::{AuthoritativeSource, AuthoritativeZone, StaticRecord, ZoneSoa};
use crate::text;
use crate::toml_doc;
use crate::toml_doc::{copy_value, parse_document, print_document, put, Table, TomlValue};
use vstd::prelude::*;

verus! {

pub open spec fn texts_toml(list: Seq<Seq<char>>) -> toml_doc::TomlV {
    toml_doc::TomlV::Array(list.map_values(|s: Seq<char>| toml_doc::TomlV::Str(s)))
}

pub open spec fn record_toml(r: types::StaticRecordV) -> toml_doc::TomlV {
    toml_doc::TomlV::Table(
        seq![
            ("qname"@, toml_doc::TomlV::Str(r.qname)),
            ("qtype"@, toml_doc::TomlV::Str(r.qtype)),
            ("answer"@, toml_doc::TomlV::Str(r.answer)),
            ("ttl"@, toml_doc::TomlV::Int(r.ttl as i64)),
        ],
    )
}

pub open spec fn records_toml(list: Seq<types::StaticRecordV>) -> toml_doc::TomlV {
    toml_doc::TomlV::Array(list.map_values(|r: types::StaticRecordV| record_toml(r)))
}

pub open spec fn soa_toml(s: types::ZoneSoaV) -> toml_doc::TomlV {
    toml_doc::TomlV::Table(
        seq![
            ("mname"@, toml_doc::TomlV::Str(s.mname)),
            ("rname"@, toml_doc::TomlV::Str(s.rname)),
            ("serial"@, toml_doc::TomlV::Int(s.serial as i64)),
            ("refresh"@, toml_doc::TomlV::Int(s.refresh as i64)),
            ("retry"@, toml_doc::TomlV::Int(s.retry as i64)),
            ("expire"@, toml_doc::TomlV::Int(s.expire as i64)),
            ("minimum_ttl"@, toml_doc::TomlV::Int(s.minimum_ttl as i64)),
        ],
    )
}

/// A zone; one without start-of-authority data has no `soa` key.
pub open spec fn zone_toml(z: types::AuthoritativeZoneV) -> toml_doc::TomlV {
    let head = seq![
        ("name"@, toml_doc::TomlV::Str(z.name)),
        ("default_ttl"@, toml_doc::TomlV::Int(z.default_ttl as i64)),
    ];
    let soa = match z.soa {
        Some(s) => seq![("soa"@, soa_toml(s))],
        None => Seq::empty(),
    };
    toml_doc::TomlV::Table(head + soa + seq![("records"@, records_toml(z.records))])
}

pub open spec fn zones_toml(list: Seq<types::AuthoritativeZoneV>) -> toml_doc::TomlV {
    toml_doc::TomlV::Array(list.map_values(|z: types::AuthoritativeZoneV| zone_toml(z)))
}

pub open spec fn source_toml(s: types::AuthoritativeSourceV) -> toml_doc::TomlV {
    toml_doc::TomlV::Table(
        seq![
            ("qname"@, toml_doc::TomlV::Str(s.qname)),
            ("qtype"@, toml_doc::TomlV::Str(s.qtype)),
            ("source"@, toml_doc::TomlV::Str(s.source)),
            ("ttl"@, toml_doc::TomlV::Int(s.ttl as i64)),
        ],
    )
}

pub open spec fn sources_toml(list: Seq<types::AuthoritativeSourceV>) -> toml_doc::TomlV {
    toml_doc::TomlV::Array(list.map_values(|s: types::AuthoritativeSourceV| source_toml(s)))
}

/// The table with several values written one after the other.
pub open spec fn with_entries(t: toml_doc::TableV, entries: toml_doc::TableV) -> toml_doc::TableV
    decreases entries.len(),
{
    if entries.len() == 0 {
        t
    } else {
        toml_doc::with_entry(
            with_entries(t, entries.drop_last()),
            entries.last().0,
            entries.last().1,
        )
    }
}

/// A key that is not written keeps its value, and one that is written once has the new value.
pub proof fn lemma_with_entries(t: toml_doc::TableV, entries: toml_doc::TableV, key: Seq<char>)
    ensures
        (forall|i: int| 0 <= i < entries.len() ==> (#[trigger] entries[i]).0 != key)
            ==> toml_doc::lookup(with_entries(t, entries), key) == toml_doc::lookup(t, key),
        toml_doc::distinct_keys(entries) ==> forall|i: int|
            0 <= i < entries.len() && (#[trigger] entries[i]).0 == key ==> toml_doc::lookup(
                with_entries(t, entries),
                key,
            ) == Some(entries[i].1),
    decreases entries.len(),
{
    if entries.len() > 0 {
        let rest = entries.drop_last();
        let last = entries.last();
        lemma_with_entries(t, rest, key);
        toml_doc::lemma_with_entry(with_entries(t, rest), last.0, last.1, key);
        if toml_doc::distinct_keys(entries) {
            assert(toml_doc::distinct_keys(rest)) by {
                assert forall|i: int, j: int| 0 <= i < j < rest.len() implies (
                #[trigger] rest[i]).0 != (#[trigger] rest[j]).0 by {
                    assert(rest[i] == entries[i] && rest[j] == entries[j]);
                }
            }
            assert forall|i: int|
                0 <= i < entries.len() && (
                #[trigger] entries[i]).0 == key implies toml_doc::lookup(
                with_entries(t, entries),
                key,
            ) == Some(entries[i].1) by {
                if i < entries.len() - 1 {
                    assert(rest[i] == entries[i]);
                    assert(entries[entries.len() - 1] == last);
                }
            }
        }
        if forall|i: int| 0 <= i < entries.len() ==> (#[trigger] entries[i]).0 != key {
            assert(entries[entries.len() - 1].0 != key);
            assert forall|i: int| 0 <= i < rest.len() implies (#[trigger] rest[i]).0 != key by {
                assert(rest[i] == entries[i]);
            }
        }
    }
}

/// The top-level table of a configuration file.
pub open spec fn root_table(raw: Seq<char>) -> Result<toml_doc::TableV, AdminError> {
    match toml_doc::toml_document(raw) {
        None => Err(AdminError::InvalidToml),
        Some(toml_doc::TomlV::Table(t)) => Ok(t),
        Some(_) => Err(AdminError::RootNotTable),
    }
}

/// The text of a table as a document.
pub open spec fn printed(t: toml_doc::TableV) -> Result<Seq<char>, AdminError> {
    match toml_doc::toml_pretty(toml_doc::TomlV::Table(t)) {
        Some(s) => Ok(s),
        None => Err(AdminError::UnwritableToml),
    }
}

pub fn text_value(s: &str) -> (r: TomlValue)
    ensures
        r@ == toml_doc::TomlV::Str(s@),
{
    TomlValue::Str(s.to_owned())
}

/// An array of texts.
pub fn string_array(values: &Vec<String>) -> (r: TomlValue)
    ensures
        r@ == texts_toml(text::views(values@)),
{
    let mut out: Vec<TomlValue> = Vec::new();
    let mut i: usize = 0;
    while i < values.len()
        invariant
            i <= values@.len(),
            out@.len() == i,
            forall|k: int|
                0 <= k < i ==> (#[trigger] out@[k])@ == toml_doc::TomlV::Str(values@[k]@),
        decreases values@.len() - i,
    {
        out.push(text_value(values[i].as_str()));
        i = i + 1;
    }
    proof {
        toml_doc::lemma_array_view(out);
        assert(toml_doc::array_view(out@) =~= texts_toml(text::views(values@))->Array_0);
    }
    TomlValue::Array(out)
}

/// Appends an entry to a table.
pub fn push_entry(t: &mut Table, key: &str, value: TomlValue)
    ensures
        toml_doc::table_view(final(t)@) == toml_doc::table_view(old(t)@).push((key@, value@)),
{
    let ghost before = toml_doc::table_view(t@);
    t.push((key.to_owned(), value));
    assert(toml_doc::table_view(t@) =~= before.push((key@, value@)));
}

/// A table value.
pub fn table_value(t: Table) -> (r: TomlValue)
    ensures
        r@ == toml_doc::TomlV::Table(toml_doc::table_view(t@)),
{
    proof {
        toml_doc::lemma_table_view(t);
    }
    TomlValue::Table(t)
}

pub fn record_value(r: &StaticRecord) -> (v: TomlValue)
    ensures
        v@ == record_toml(r@),
{
    let mut t: Table = Vec::new();
    push_entry(&mut t, "qname", text_value(r.qname.as_str()));
    push_entry(&mut t, "qtype", text_value(r.qtype.as_str()));
    push_entry(&mut t, "answer", text_value(r.answer.as_str()));
    push_entry(&mut t, "ttl", TomlValue::Int(r.ttl as i64));
    assert(toml_doc::table_view(t@) =~= record_toml(r@)->Table_0);
    table_value(t)
}

pub fn records_value(list: &Vec<StaticRecord>) -> (v: TomlValue)
    ensures
        v@ == records_toml(types::record_views(list@)),
{
    let mut out: Vec<TomlValue> = Vec::new();
    let mut i: usize = 0;
    while i < list.len()
        invariant
            i <= list@.len(),
            out@.len() == i,
            forall|k: int| 0 <= k < i ==> (#[trigger] out@[k])@ == record_toml(list@[k]@),
        decreases list@.len() - i,
    {
        out.push(record_value(&list[i]));
        i = i + 1;
    }
    proof {
        toml_doc::lemma_array_view(out);
        assert(toml_doc::array_view(out@) =~= records_toml(
            types::record_views(list@),
        )->Array_0);
    }
    TomlValue::Array(out)
}

pub fn soa_value(s: &ZoneSoa) -> (v: TomlValue)
    ensures
        v@ == soa_toml(s@),
{
    let mut t: Table = Vec::new();
    push_entry(&mut t, "mname", text_value(s.mname.as_str()));
    push_entry(&mut t, "rname", text_value(s.rname.as_str()));
    push_entry(&mut t, "serial", TomlValue::Int(s.serial as i64));
    push_entry(&mut t, "refresh", TomlValue::Int(s.refresh as i64));
    push_entry(&mut t, "retry", TomlValue::Int(s.retry as i64));
    push_entry(&mut t, "expire", TomlValue::Int(s.expire as i64));
    push_entry(&mut t, "minimum_ttl", TomlValue::Int(s.minimum_ttl as i64));
    assert(toml_doc::table_view(t@) =~= soa_toml(s@)->Table_0);
    table_value(t)
}

pub fn zone_value(z: &AuthoritativeZone) -> (v: TomlValue)
    ensures
        v@ == zone_toml(z@),
{
    let mut t: Table = Vec::new();
    push_entry(&mut t, "name", text_value(z.name.as_str()));
    push_entry(&mut t, "default_ttl", TomlValue::Int(z.default_ttl as i64));
    if let Some(soa) = &z.soa {
        push_entry(&mut t, "soa", soa_value(soa));
    }
    push_entry(&mut t, "records", records_value(&z.records));
    assert(toml_doc::table_view(t@) =~= zone_toml(z@)->Table_0);
    table_value(t)
}

pub fn zones_value(list: &Vec<AuthoritativeZone>) -> (v: TomlValue)
    ensures
        v@ == zones_toml(types::zone_views(list@)),
{
    let mut out: Vec<TomlValue> = Vec::new();
    let mut i: usize = 0;
    while i < list.len()
        invariant
            i <= list@.len(),
            out@.len() == i,
            forall|k: int| 0 <= k < i ==> (#[trigger] out@[k])@ == zone_toml(list@[k]@),
        decreases list@.len() - i,
    {
        out.push(zone_value(&list[i]));
        i = i + 1;
    }
    proof {
        toml_doc::lemma_array_view(out);
        assert(toml_doc::array_view(out@) =~= zones_toml(types::zone_views(list@))->Array_0);
    }
    TomlValue::Array(out)
}

pub fn sources_value(list: &Vec<AuthoritativeSource>) -> (v: TomlValue)
    ensures
        v@ == sources_toml(types::source_views(list@)),
{
    let mut out: Vec<TomlValue> = Vec::new();
    let mut i: usize = 0;
    while i < list.len()
        invariant
            i <= list@.len(),
            out@.len() == i,
            forall|k: int| 0 <= k < i ==> (#[trigger] out@[k])@ == source_toml(list@[k]@),
        decreases list@.len() - i,
    {
        let s = &list[i];
        let mut t: Table = Vec::new();
        push_entry(&mut t, "qname", text_value(s.qname.as_str()));
        push_entry(&mut t, "qtype", text_value(s.qtype.as_str()));
        push_entry(&mut t, "source", text_value(s.source.as_str()));
        push_entry(&mut t, "ttl", TomlValue::Int(s.ttl as i64));
        assert(toml_doc::table_view(t@) =~= source_toml(s@)->Table_0);
        out.push(table_value(t));
        i = i + 1;
    }
    proof {
        toml_doc::lemma_array_view(out);
        assert(toml_doc::array_view(out@) =~= sources_toml(types::source_views(list@))->Array_0);
    }
    TomlValue::Array(out)
}

/// Writes several values one after the other.
pub fn put_all(t: &mut Table, entries: &Table)
    ensures
        toml_doc::table_view(final(t)@) == with_entries(
            toml_doc::table_view(old(t)@),
            toml_doc::table_view(entries@),
        ),
{
    let ghost before = toml_doc::table_view(t@);
    let ghost all = toml_doc::table_view(entries@);
    let mut i: usize = 0;
    assert(all.take(0) =~= Seq::empty());
    while i < entries.len()
        invariant
            i <= entries@.len(),
            all == toml_doc::table_view(entries@),
            toml_doc::table_view(t@) == with_entries(before, all.take(i as int)),
        decreases entries@.len() - i,
    {
        assert(all.take(i + 1).drop_last() =~= all.take(i as int));
        assert(all[i as int] == (entries@[i as int].0@, entries@[i as int].1@));
        put(t, entries[i].0.as_str(), copy_value(&entries[i].1));
        i = i + 1;
    }
    assert(all.take(i as int) =~= all);
}

/// Reads a configuration file into its top-level table.
pub fn load_toml_root_table(raw: &str) -> (r: Result<Table, AdminError>)
    ensures
        match root_table(raw@) {
            Ok(t) => r is Ok && toml_doc::table_view(r->Ok_0@) == t,
            Err(e) => r is Err && r->Err_0 == e,
        },
{
    match parse_document(raw) {
        Err(_) => Err(AdminError::InvalidToml),
        Ok(TomlValue::Table(t)) => {
            proof {
                toml_doc::lemma_table_view(t);
            }
            Ok(t)
        },
        Ok(_) => Err(AdminError::RootNotTable),
    }
}

/// Writes a table as a document.
pub fn print_table(t: Table) -> (r: Result<String, AdminError>)
    ensures
        match printed(toml_doc::table_view(t@)) {
            Ok(s) => r is Ok && r->Ok_0@ == s,
            Err(e) => r is Err && r->Err_0 == e,
        },
{
    match print_document(&table_value(t)) {
        Ok(s) => Ok(s),
        Err(_) => Err(AdminError::UnwritableToml),
    }
}

} // verus!
