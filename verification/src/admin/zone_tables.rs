//! Changes of the zones in a configuration file.
use crate::admin::error::AdminError;
use crate::admin::paths;
use crate::admin::paths::find_named_view;
use crate::admin::values;
use crate::admin::values::{
    load_toml_root_table, print_table, push_entry, table_value, zone_value, zones_value,
};
use crate::admin::views;
use crate::admin::views::{is_view, load_views, store_views};
use crate::config::types;
use crate::config::types::AuthoritativeZone;
use crate::json_doc;
use crate::json_doc::{get_integer, get_text, JsonValue};
use crate::toml_doc;
use crate::toml_doc::{copy_value, get, put, Table, TomlValue};
use vstd::prelude::*;

verus! {

/// The zones of the top level; an empty list where there are none.
pub open spec fn zones_of(t: toml_doc::TableV) -> Result<Seq<toml_doc::TomlV>, AdminError> {
    match toml_doc::lookup(t, "authoritative_zones"@) {
        None => Ok(Seq::empty()),
        Some(toml_doc::TomlV::Array(a)) => Ok(a),
        Some(_) => Err(AdminError::ZonesNotArray),
    }
}

pub open spec fn with_zones(t: toml_doc::TableV, zones: Seq<toml_doc::TomlV>) -> toml_doc::TableV {
    toml_doc::with_entry(t, "authoritative_zones"@, toml_doc::TomlV::Array(zones))
}

/// The list with a zone in the place of the first of its name, or at the end.
pub open spec fn zones_with(list: Seq<toml_doc::TomlV>, zone: types::AuthoritativeZoneV) -> Seq<
    toml_doc::TomlV,
> {
    let i = paths::named_index(list, zone.name);
    if i < list.len() {
        list.update(i, values::zone_toml(zone))
    } else {
        list.push(values::zone_toml(zone))
    }
}

pub open spec fn zone_upserted(raw: Seq<char>, zone: types::AuthoritativeZoneV) -> Result<
    Seq<char>,
    AdminError,
> {
    match values::root_table(raw) {
        Err(e) => Err(e),
        Ok(t) => match zones_of(t) {
            Err(e) => Err(e),
            Ok(list) => values::printed(with_zones(t, zones_with(list, zone))),
        },
    }
}

/// The zones of the top level.
pub fn load_zones(t: &Table) -> (r: Result<Vec<TomlValue>, AdminError>)
    ensures
        match zones_of(toml_doc::table_view(t@)) {
            Ok(a) => r is Ok && toml_doc::array_view(r->Ok_0@) == a,
            Err(e) => r is Err && r->Err_0 == e,
        },
{
    match get(t, "authoritative_zones") {
        None => {
            let list: Vec<TomlValue> = Vec::new();
            assert(toml_doc::array_view(list@) =~= Seq::empty());
            Ok(list)
        },
        Some(value) => match copy_value(value) {
            TomlValue::Array(a) => {
                proof {
                    toml_doc::lemma_array_view(a);
                }
                Ok(a)
            },
            _ => Err(AdminError::ZonesNotArray),
        },
    }
}

fn store_zones(t: &mut Table, zones: Vec<TomlValue>)
    ensures
        toml_doc::table_view(final(t)@) == with_zones(
            toml_doc::table_view(old(t)@),
            toml_doc::array_view(zones@),
        ),
{
    proof {
        toml_doc::lemma_array_view(zones);
    }
    put(t, "authoritative_zones", TomlValue::Array(zones));
}

/// Writes a zone into the list of the top level.
pub fn upsert_authoritative_zone_in_raw(raw: &str, zone: &AuthoritativeZone) -> (r: Result<
    String,
    AdminError,
>)
    ensures
        match zone_upserted(raw@, zone@) {
            Ok(s) => r is Ok && r->Ok_0@ == s,
            Err(e) => r is Err && r->Err_0 == e,
        },
{
    match load_toml_root_table(raw) {
        Err(e) => Err(e),
        Ok(t) => {
            let mut t = t;
            match load_zones(&t) {
                Err(e) => Err(e),
                Ok(list) => {
                    let mut list = list;
                    let ghost all = toml_doc::array_view(list@);
                    let i = find_named_view(&list, zone.name.as_str());
                    let value = zone_value(zone);
                    if i < list.len() {
                        list.set(i, value);
                        assert(toml_doc::array_view(list@) =~= all.update(i as int, value@));
                    } else {
                        list.push(value);
                        assert(toml_doc::array_view(list@) =~= all.push(value@));
                    }
                    store_zones(&mut t, list);
                    print_table(t)
                },
            }
        },
    }
}

/// The list without the zones of the given name but for case.
pub open spec fn items_without(list: Seq<toml_doc::TomlV>, name: Seq<char>) -> Seq<
    toml_doc::TomlV,
> {
    list.filter(|v: toml_doc::TomlV| !views::has_name(v, name))
}

/// The configuration after a zone of the top level is deleted, and whether there was one.
pub open spec fn zone_deleted(t: toml_doc::TableV, name: Seq<char>) -> Result<
    (toml_doc::TableV, bool),
    AdminError,
> {
    match toml_doc::lookup(t, "authoritative_zones"@) {
        None => Ok((t, false)),
        Some(_) => match zones_of(t) {
            Err(e) => Err(e),
            Ok(list) => Ok(
                (
                    with_zones(t, items_without(list, name)),
                    items_without(list, name).len() != list.len(),
                ),
            ),
        },
    }
}

pub open spec fn zone_deleted_raw(raw: Seq<char>, name: Seq<char>) -> Result<
    (Seq<char>, bool),
    AdminError,
> {
    match values::root_table(raw) {
        Err(e) => Err(e),
        Ok(t) => match zone_deleted(t, name) {
            Err(e) => Err(e),
            Ok((new, found)) => match values::printed(new) {
                Err(e) => Err(e),
                Ok(s) => Ok((s, found)),
            },
        },
    }
}

fn retain_other_items(list: &Vec<TomlValue>, name: &str) -> (r: Vec<TomlValue>)
    ensures
        toml_doc::array_view(r@) == items_without(toml_doc::array_view(list@), name@),
{
    let ghost all = toml_doc::array_view(list@);
    let ghost keep = |v: toml_doc::TomlV| !views::has_name(v, name@);
    let mut out: Vec<TomlValue> = Vec::new();
    let mut i: usize = 0;
    assert(all.take(0).filter(keep) =~= Seq::empty()) by {
        reveal(Seq::filter);
    }
    assert(toml_doc::array_view(out@) =~= Seq::empty());
    while i < list.len()
        invariant
            i <= list@.len(),
            all == toml_doc::array_view(list@),
            keep == (|v: toml_doc::TomlV| !views::has_name(v, name@)),
            toml_doc::array_view(out@) == all.take(i as int).filter(keep),
        decreases list@.len() - i,
    {
        assert(all[i as int] == list@[i as int]@);
        assert(all.take(i + 1).drop_last() =~= all.take(i as int));
        let ghost before = toml_doc::array_view(out@);
        proof {
            reveal(Seq::filter);
        }
        if !is_view(&list[i], name) {
            let kept = copy_value(&list[i]);
            out.push(kept);
            assert(toml_doc::array_view(out@) =~= before.push(kept@));
        }
        i = i + 1;
    }
    assert(all.take(i as int) =~= all);
    out
}

/// Deletes a zone from the list of the top level; says whether it was there.
pub fn delete_authoritative_zone_in_raw(raw: &str, zone_name: &str) -> (r: Result<
    (String, bool),
    AdminError,
>)
    ensures
        match zone_deleted_raw(raw@, zone_name@) {
            Ok((s, found)) => r is Ok && r->Ok_0.0@ == s && r->Ok_0.1 == found,
            Err(e) => r is Err && r->Err_0 == e,
        },
{
    match load_toml_root_table(raw) {
        Err(e) => Err(e),
        Ok(t) => {
            let mut t = t;
            let mut found = false;
            if get(&t, "authoritative_zones").is_some() {
                match load_zones(&t) {
                    Err(e) => return Err(e),
                    Ok(list) => {
                        let kept = retain_other_items(&list, zone_name);
                        found = kept.len() != list.len();
                        store_zones(&mut t, kept);
                    },
                }
            }
            match print_table(t) {
                Err(e) => Err(e),
                Ok(s) => Ok((s, found)),
            }
        },
    }
}

/// The entry of a text that a JSON object has.
pub open spec fn json_text_entry(t: json_doc::ObjectV, key: Seq<char>) -> toml_doc::TableV {
    match json_doc::text_at(t, key) {
        Some(s) => seq![(key, toml_doc::TomlV::Str(s))],
        None => Seq::empty(),
    }
}

/// The entry of an integer that a JSON object has.
pub open spec fn json_integer_entry(t: json_doc::ObjectV, key: Seq<char>) -> toml_doc::TableV {
    match json_doc::integer_at(t, key) {
        Some(n) => seq![(key, toml_doc::TomlV::Int(n))],
        None => Seq::empty(),
    }
}

/// The start-of-authority data that a JSON object has, as far as it has any.
pub open spec fn soa_entries(t: json_doc::ObjectV) -> toml_doc::TableV {
    json_text_entry(t, "mname"@) + json_text_entry(t, "rname"@) + json_integer_entry(t, "serial"@)
        + json_integer_entry(t, "refresh"@) + json_integer_entry(t, "retry"@)
        + json_integer_entry(t, "expire"@) + json_integer_entry(t, "minimum_ttl"@)
}

/// The list with other start-of-authority data in the first zone of the given name.
pub open spec fn items_with_soa(
    list: Seq<toml_doc::TomlV>,
    name: Seq<char>,
    soa: toml_doc::TableV,
) -> Seq<toml_doc::TomlV> {
    let i = paths::named_index(list, name);
    if i < list.len() {
        list.update(
            i,
            toml_doc::TomlV::Table(
                toml_doc::with_entry(list[i]->Table_0, "soa"@, toml_doc::TomlV::Table(soa)),
            ),
        )
    } else {
        list
    }
}

/// The configuration after start-of-authority data is written into a zone of the top level, and
/// whether it was. Data that is no JSON object changes nothing.
pub open spec fn soa_updated(
    t: toml_doc::TableV,
    name: Seq<char>,
    payload: json_doc::JsonV,
) -> Result<(toml_doc::TableV, bool), AdminError> {
    match toml_doc::lookup(t, "authoritative_zones"@) {
        None => Ok((t, false)),
        Some(_) => match zones_of(t) {
            Err(e) => Err(e),
            Ok(list) => match payload {
                json_doc::JsonV::Object(o) => Ok(
                    (
                        with_zones(t, items_with_soa(list, name, soa_entries(o))),
                        paths::named_index(list, name) < list.len(),
                    ),
                ),
                _ => Ok((with_zones(t, list), false)),
            },
        },
    }
}

pub open spec fn soa_updated_raw(
    raw: Seq<char>,
    name: Seq<char>,
    payload: json_doc::JsonV,
) -> Result<(Seq<char>, bool), AdminError> {
    match values::root_table(raw) {
        Err(e) => Err(e),
        Ok(t) => match soa_updated(t, name, payload) {
            Err(e) => Err(e),
            Ok((new, found)) => match values::printed(new) {
                Err(e) => Err(e),
                Ok(s) => Ok((s, found)),
            },
        },
    }
}

fn push_json_text(t: &mut Table, o: &Vec<(String, JsonValue)>, key: &str)
    ensures
        toml_doc::table_view(final(t)@) == toml_doc::table_view(old(t)@) + json_text_entry(
            json_doc::object_view(o@),
            key@,
        ),
{
    let ghost before = toml_doc::table_view(t@);
    if let Some(s) = get_text(o, key) {
        push_entry(t, key, TomlValue::Str(s));
    }
    assert(toml_doc::table_view(t@) =~= before + json_text_entry(
        json_doc::object_view(o@),
        key@,
    ));
}

fn push_json_integer(t: &mut Table, o: &Vec<(String, JsonValue)>, key: &str)
    ensures
        toml_doc::table_view(final(t)@) == toml_doc::table_view(old(t)@) + json_integer_entry(
            json_doc::object_view(o@),
            key@,
        ),
{
    let ghost before = toml_doc::table_view(t@);
    if let Some(n) = get_integer(o, key) {
        push_entry(t, key, TomlValue::Int(n));
    }
    assert(toml_doc::table_view(t@) =~= before + json_integer_entry(
        json_doc::object_view(o@),
        key@,
    ));
}

fn soa_table(o: &Vec<(String, JsonValue)>) -> (r: Table)
    ensures
        toml_doc::table_view(r@) == soa_entries(json_doc::object_view(o@)),
{
    let mut t: Table = Vec::new();
    push_json_text(&mut t, o, "mname");
    push_json_text(&mut t, o, "rname");
    push_json_integer(&mut t, o, "serial");
    push_json_integer(&mut t, o, "refresh");
    push_json_integer(&mut t, o, "retry");
    push_json_integer(&mut t, o, "expire");
    push_json_integer(&mut t, o, "minimum_ttl");
    assert(toml_doc::table_view(t@) =~= soa_entries(json_doc::object_view(o@)));
    t
}

fn put_soa(list: &mut Vec<TomlValue>, name: &str, soa: Table) -> (r: bool)
    ensures
        toml_doc::array_view(final(list)@) == items_with_soa(
            toml_doc::array_view(old(list)@),
            name@,
            toml_doc::table_view(soa@),
        ),
        r == (paths::named_index(toml_doc::array_view(old(list)@), name@) < old(list)@.len()),
{
    let ghost all = toml_doc::array_view(list@);
    let i = find_named_view(list, name);
    if i >= list.len() {
        return false;
    }
    assert(all[i as int] == list@[i as int]@);
    if let TomlValue::Table(zone) = copy_value(&list[i]) {
        proof {
            toml_doc::lemma_table_view(zone);
        }
        let mut zone = zone;
        put(&mut zone, "soa", table_value(soa));
        let new = table_value(zone);
        list.set(i, new);
        assert(toml_doc::array_view(list@) =~= all.update(i as int, new@));
    }
    true
}

/// Writes start-of-authority data into a zone of the top level; says whether it did.
pub fn update_authoritative_zone_soa_in_raw(
    raw: &str,
    zone_name: &str,
    payload: &JsonValue,
) -> (r: Result<(String, bool), AdminError>)
    ensures
        match soa_updated_raw(raw@, zone_name@, payload@) {
            Ok((s, found)) => r is Ok && r->Ok_0.0@ == s && r->Ok_0.1 == found,
            Err(e) => r is Err && r->Err_0 == e,
        },
{
    match load_toml_root_table(raw) {
        Err(e) => Err(e),
        Ok(t) => {
            let mut t = t;
            let mut found = false;
            if get(&t, "authoritative_zones").is_some() {
                match load_zones(&t) {
                    Err(e) => return Err(e),
                    Ok(list) => {
                        let mut list = list;
                        if let JsonValue::Object(o) = payload {
                            proof {
                                json_doc::lemma_object_view(*o);
                            }
                            found = put_soa(&mut list, zone_name, soa_table(o));
                        }
                        store_zones(&mut t, list);
                    },
                }
            }
            match print_table(t) {
                Err(e) => Err(e),
                Ok(s) => Ok((s, found)),
            }
        },
    }
}

/// The zones that a view has in the configuration itself.
pub open spec fn inline_zones(t: toml_doc::TableV, view: Seq<char>) -> Result<
    Option<toml_doc::TomlV>,
    AdminError,
> {
    match views::views_of(t) {
        Err(e) => Err(e),
        Ok(list) => {
            let i = paths::named_index(list, view);
            if i < list.len() {
                Ok(toml_doc::lookup(list[i]->Table_0, "authoritative_zones"@))
            } else {
                Ok(None)
            }
        },
    }
}

/// A document that holds the zones of a view and nothing else.
pub open spec fn inline_zones_raw(raw: Seq<char>, view: Seq<char>) -> Result<
    Option<Seq<char>>,
    AdminError,
> {
    match values::root_table(raw) {
        Err(e) => Err(e),
        Ok(t) => match inline_zones(t, view) {
            Err(e) => Err(e),
            Ok(None) => Ok(None),
            Ok(Some(zones)) => match values::printed(seq![("zones"@, zones)]) {
                Err(e) => Err(e),
                Ok(s) => Ok(Some(s)),
            },
        },
    }
}

/// The zones that a view has in the configuration itself, as a document with the one key `zones`;
/// nothing where there is no such view or it has none.
pub fn view_zones_in_raw(raw: &str, view_name: &str) -> (r: Result<Option<String>, AdminError>)
    ensures
        match inline_zones_raw(raw@, view_name@) {
            Ok(s) => r is Ok && types::optional_view(r->Ok_0) == s,
            Err(e) => r is Err && r->Err_0 == e,
        },
{
    match load_toml_root_table(raw) {
        Err(e) => Err(e),
        Ok(t) => match load_views(&t) {
            Err(e) => Err(e),
            Ok(list) => {
                let i = find_named_view(&list, view_name);
                if i >= list.len() {
                    return Ok(None);
                }
                assert(toml_doc::array_view(list@)[i as int] == list@[i as int]@);
                if let TomlValue::Table(view) = &list[i] {
                    proof {
                        toml_doc::lemma_table_view(*view);
                    }
                    match get(view, "authoritative_zones") {
                        None => Ok(None),
                        Some(zones) => {
                            let mut document: Table = Vec::new();
                            push_entry(&mut document, "zones", copy_value(zones));
                            assert(toml_doc::table_view(document@) =~= seq![("zones"@, zones@)]);
                            match print_table(document) {
                                Err(e) => Err(e),
                                Ok(s) => Ok(Some(s)),
                            }
                        },
                    }
                } else {
                    Ok(None)
                }
            },
        },
    }
}

/// The configuration in which a view has other zones in the configuration itself.
pub open spec fn zones_replaced(
    t: toml_doc::TableV,
    view: Seq<char>,
    zones: Seq<types::AuthoritativeZoneV>,
) -> Result<toml_doc::TableV, AdminError> {
    match views::views_of(t) {
        Err(e) => Err(e),
        Ok(list) => {
            let i = paths::named_index(list, view);
            if i < list.len() {
                Ok(
                    views::with_views(
                        t,
                        list.update(
                            i,
                            toml_doc::TomlV::Table(
                                toml_doc::with_entry(
                                    list[i]->Table_0,
                                    "authoritative_zones"@,
                                    values::zones_toml(zones),
                                ),
                            ),
                        ),
                    ),
                )
            } else {
                Ok(t)
            }
        },
    }
}

pub open spec fn zones_replaced_raw(
    raw: Seq<char>,
    view: Seq<char>,
    zones: Seq<types::AuthoritativeZoneV>,
) -> Result<Seq<char>, AdminError> {
    match values::root_table(raw) {
        Err(e) => Err(e),
        Ok(t) => match zones_replaced(t, view, zones) {
            Err(e) => Err(e),
            Ok(new) => values::printed(new),
        },
    }
}

/// Replaces the zones that a view has in the configuration itself.
pub fn replace_view_zones_in_raw(
    raw: &str,
    view_name: &str,
    zones: &Vec<AuthoritativeZone>,
) -> (r: Result<String, AdminError>)
    ensures
        match zones_replaced_raw(raw@, view_name@, types::zone_views(zones@)) {
            Ok(s) => r is Ok && r->Ok_0@ == s,
            Err(e) => r is Err && r->Err_0 == e,
        },
{
    match load_toml_root_table(raw) {
        Err(e) => Err(e),
        Ok(t) => {
            let mut t = t;
            match load_views(&t) {
                Err(e) => Err(e),
                Ok(list) => {
                    let mut list = list;
                    let ghost all = toml_doc::array_view(list@);
                    let i = find_named_view(&list, view_name);
                    if i < list.len() {
                        assert(all[i as int] == list@[i as int]@);
                        if let TomlValue::Table(view) = copy_value(&list[i]) {
                            proof {
                                toml_doc::lemma_table_view(view);
                            }
                            let mut view = view;
                            put(&mut view, "authoritative_zones", zones_value(zones));
                            let new = table_value(view);
                            list.set(i, new);
                            assert(toml_doc::array_view(list@) =~= all.update(i as int, new@));
                        }
                        store_views(&mut t, list);
                    }
                    print_table(t)
                },
            }
        },
    }
}

} // verus!
