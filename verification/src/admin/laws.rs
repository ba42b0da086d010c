//! What holds of configurations across the requests that change them.
use crate::admin::paths;
use crate::admin::sections;
use crate::admin::sections::ConfigSectionsPayload;
use crate::admin::values;
use crate::admin::views;
use crate::admin::views::ViewUpsertRequest;
use crate::admin::zone_tables;
use crate::config::rules;
use crate::config::types;
use crate::text;
use crate::toml_doc;
use vstd::prelude::*;

verus! {

/// Writing the sections leaves every setting as it was that is not among theirs.
pub proof fn lemma_sections_keep_other_settings(
    t: toml_doc::TableV,
    s: ConfigSectionsPayload,
    key: Seq<char>,
)
    requires
        forall|i: int|
            0 <= i < sections::section_entries(s).len() ==> (
            #[trigger] sections::section_entries(s)[i]).0 != key,
    ensures
        toml_doc::lookup(values::with_entries(t, sections::section_entries(s)), key)
            == toml_doc::lookup(t, key),
{
    values::lemma_with_entries(t, sections::section_entries(s), key);
}

/// A configuration gives back the list of views that was put into it, and its other settings are
/// as they were.
pub proof fn lemma_views_round_trip(
    t: toml_doc::TableV,
    list: Seq<toml_doc::TomlV>,
    key: Seq<char>,
)
    ensures
        views::views_of(views::with_views(t, list)) == Ok::<
            Seq<toml_doc::TomlV>,
            crate::admin::error::AdminError,
        >(list),
        key != "views"@ ==> toml_doc::lookup(views::with_views(t, list), key) == toml_doc::lookup(
            t,
            key,
        ),
{
    toml_doc::lemma_with_entry(t, "views"@, toml_doc::TomlV::Array(list), key);
}

/// A configuration gives back the list of zones that was put into it, and its other settings are
/// as they were.
pub proof fn lemma_zones_round_trip(
    t: toml_doc::TableV,
    list: Seq<toml_doc::TomlV>,
    key: Seq<char>,
)
    ensures
        zone_tables::zones_of(zone_tables::with_zones(t, list)) == Ok::<
            Seq<toml_doc::TomlV>,
            crate::admin::error::AdminError,
        >(list),
        key != "authoritative_zones"@ ==> toml_doc::lookup(zone_tables::with_zones(t, list), key)
            == toml_doc::lookup(t, key),
{
    toml_doc::lemma_with_entry(t, "authoritative_zones"@, toml_doc::TomlV::Array(list), key);
}

/// Taking a key out leaves the others as they were.
pub proof fn lemma_without_other(t: toml_doc::TableV, key: Seq<char>, other: Seq<char>)
    requires
        key != other,
    ensures
        toml_doc::lookup(toml_doc::without_entry(t, key), other) == toml_doc::lookup(t, other),
    decreases t.len(),
{
    if t.len() > 0 {
        if t[0].0 != key {
            lemma_without_other(t.skip(1), key, other);
            let rest = toml_doc::without_entry(t.skip(1), key);
            assert((seq![t[0]] + rest).skip(1) =~= rest);
        }
    }
}

/// The view that a request makes has the name that the request gives it.
pub proof fn lemma_changed_view_name(t: toml_doc::TableV, req: ViewUpsertRequest)
    ensures
        views::view_name(toml_doc::TomlV::Table(views::changed_view(t, req))) == Some(
            views::target_name(req),
        ),
{
    reveal_strlit("name");
    reveal_strlit("summary");
    reveal_strlit("query_mode");
    reveal_strlit("client_cidrs");
    reveal_strlit("static_records");
    reveal_strlit("blocked_domains");
    reveal_strlit("enable_recursion");
    reveal_strlit("view_static_cname_expand_for_address_queries");
    reveal_strlit("view_authoritative_cname_expand_for_address_queries");
    let n = "name"@;
    assert("summary"@.len() != n.len() && "query_mode"@.len() != n.len() && "client_cidrs"@.len()
        != n.len() && "static_records"@.len() != n.len() && "blocked_domains"@.len() != n.len()
        && "enable_recursion"@.len() != n.len()
        && "view_static_cname_expand_for_address_queries"@.len() != n.len()
        && "view_authoritative_cname_expand_for_address_queries"@.len() != n.len());
    let value = toml_doc::TomlV::Str(views::target_name(req));
    let named = toml_doc::with_entry(t, n, value);
    toml_doc::lemma_with_entry(t, n, value, n);
    // The heading.
    let summarized = if views::summary_text(req).len() == 0 {
        toml_doc::without_entry(named, "summary"@)
    } else {
        toml_doc::with_entry(
            named,
            "summary"@,
            toml_doc::TomlV::Str(views::summary_text(req)),
        )
    };
    lemma_without_other(named, "summary"@, n);
    toml_doc::lemma_with_entry(
        named,
        "summary"@,
        toml_doc::TomlV::Str(views::summary_text(req)),
        n,
    );
    let mode = toml_doc::TomlV::Str(views::mode_text(req));
    let with_mode = toml_doc::with_entry(summarized, "query_mode"@, mode);
    toml_doc::lemma_with_entry(summarized, "query_mode"@, mode, n);
    let clients = values::texts_toml(text::views(req.client_cidrs@));
    toml_doc::lemma_with_entry(with_mode, "client_cidrs"@, clients, n);
    let heading = views::with_heading(t, req);
    assert(toml_doc::lookup(heading, n) == Some(value));
    // The data.
    let records = values::records_toml(types::record_views(req.static_records@));
    let recorded = if views::has_file(heading, "static_records_file"@) {
        toml_doc::without_entry(heading, "static_records"@)
    } else {
        toml_doc::with_entry(heading, "static_records"@, records)
    };
    lemma_without_other(heading, "static_records"@, n);
    toml_doc::lemma_with_entry(heading, "static_records"@, records, n);
    let domains = values::texts_toml(text::views(req.blocked_domains@));
    let blocked = if views::has_file(recorded, "blocked_domains_file"@) {
        toml_doc::without_entry(recorded, "blocked_domains"@)
    } else {
        toml_doc::with_entry(recorded, "blocked_domains"@, domains)
    };
    lemma_without_other(recorded, "blocked_domains"@, n);
    toml_doc::lemma_with_entry(recorded, "blocked_domains"@, domains, n);
    let recursion = toml_doc::TomlV::Bool(req.enable_recursion);
    toml_doc::lemma_with_entry(blocked, "enable_recursion"@, recursion, n);
    let data = views::with_data(heading, req);
    assert(toml_doc::lookup(data, n) == Some(value));
    // The switches.
    lemma_switch(
        data,
        "view_static_cname_expand_for_address_queries"@,
        req.view_static_cname_expand_for_address_queries,
        n,
    );
    let first = views::with_switch(
        data,
        "view_static_cname_expand_for_address_queries"@,
        req.view_static_cname_expand_for_address_queries,
    );
    lemma_switch(
        first,
        "view_authoritative_cname_expand_for_address_queries"@,
        req.view_authoritative_cname_expand_for_address_queries,
        n,
    );
}

/// Writing a switch leaves the other keys as they were.
pub proof fn lemma_switch(t: toml_doc::TableV, key: Seq<char>, value: Option<bool>, other: Seq<char>)
    requires
        key != other,
    ensures
        toml_doc::lookup(views::with_switch(t, key, value), other) == toml_doc::lookup(t, other),
{
    if let Some(b) = value {
        toml_doc::lemma_with_entry(t, key, toml_doc::TomlV::Bool(b), other);
    }
}

/// After a request the list of views holds the view under its name, and every other view of it as
/// it was and where it was.
pub proof fn lemma_upserted(list: Seq<toml_doc::TomlV>, req: ViewUpsertRequest)
    requires
        views::upserted_views(list, req) is Ok,
    ensures
        ({
            let new = views::upserted_views(list, req)->Ok_0;
            let i = views::trimmed_index(list, views::lookup_name(req));
            &&& 0 <= i < new.len()
            &&& list.len() <= new.len() <= list.len() + 1
            &&& views::view_name(new[i]) == Some(views::target_name(req))
            &&& forall|k: int| 0 <= k < list.len() && k != i ==> #[trigger] new[k] == list[k]
        }),
{
    let i = views::trimmed_index(list, views::lookup_name(req));
    lemma_index_bounds(list, views::lookup_name(req));
    if i < list.len() {
        lemma_changed_view_name(list[i]->Table_0, req);
    } else {
        lemma_changed_view_name(Seq::empty(), req);
    }
}

proof fn lemma_index_bounds(list: Seq<toml_doc::TomlV>, name: Seq<char>)
    ensures
        0 <= views::trimmed_index(list, name) <= list.len(),
    decreases list.len(),
{
    if list.len() > 0 && !views::has_trimmed_name(list[0], name) {
        lemma_index_bounds(list.skip(1), name);
    }
}

/// After a view is deleted no view has its name, and the others are still there.
pub proof fn lemma_deleted(list: Seq<toml_doc::TomlV>, name: Seq<char>)
    ensures
        ({
            let new = views::without_view(list, name);
            &&& forall|i: int|
                0 <= i < new.len() ==> !views::has_trimmed_name(#[trigger] new[i], name)
            &&& forall|i: int|
                0 <= i < list.len() && !views::has_trimmed_name(
                    #[trigger] list[i],
                    name,
                ) ==> new.contains(list[i])
        }),
{
    let f = |v: toml_doc::TomlV| !views::has_trimmed_name(v, name);
    list.filter_lemma(f);
    let new = views::without_view(list, name);
    assert forall|i: int| 0 <= i < new.len() implies !views::has_trimmed_name(
        #[trigger] new[i],
        name,
    ) by {
        assert(f(new[i]));
    }
    assert forall|i: int| 0 <= i < list.len() && !views::has_trimmed_name(
        #[trigger] list[i],
        name,
    ) implies new.contains(list[i]) by {
        assert(f(list[i]));
    }
}

/// The default view keeps its name, and no other view gets it.
pub proof fn lemma_default_view_keeps_its_name(req: ViewUpsertRequest)
    requires
        views::name_error(req) is None,
    ensures
        rules::fold_eq(views::lookup_name(req), "default"@) <==> rules::fold_eq(
            views::target_name(req),
            "default"@,
        ),
{
}

/// After a zone is put into the list of zones, the list holds it, and every other zone as it was
/// and where it was.
pub proof fn lemma_zone_upserted(list: Seq<toml_doc::TomlV>, zone: types::AuthoritativeZoneV)
    ensures
        ({
            let new = zone_tables::zones_with(list, zone);
            let i = paths::named_index(list, zone.name);
            &&& 0 <= i < new.len()
            &&& new[i] == values::zone_toml(zone)
            &&& forall|k: int| 0 <= k < list.len() && k != i ==> #[trigger] new[k] == list[k]
        }),
{
    lemma_named_bounds(list, zone.name);
}

proof fn lemma_named_bounds(list: Seq<toml_doc::TomlV>, name: Seq<char>)
    ensures
        0 <= paths::named_index(list, name) <= list.len(),
    decreases list.len(),
{
    if list.len() > 0 && !views::has_name(list[0], name) {
        lemma_named_bounds(list.skip(1), name);
    }
}

/// After a zone is deleted no zone of the list has its name.
pub proof fn lemma_zone_deleted(list: Seq<toml_doc::TomlV>, name: Seq<char>)
    ensures
        forall|i: int|
            0 <= i < zone_tables::items_without(list, name).len() ==> !views::has_name(
                #[trigger] zone_tables::items_without(list, name)[i],
                name,
            ),
{
    let f = |v: toml_doc::TomlV| !views::has_name(v, name);
    list.filter_lemma(f);
    let new = zone_tables::items_without(list, name);
    assert forall|i: int| 0 <= i < new.len() implies !views::has_name(#[trigger] new[i], name) by {
        assert(f(new[i]));
    }
}

/// The names of the settings that say where the data of a view is kept differ.
proof fn lemma_path_keys(view: Seq<char>)
    ensures
        toml_doc::distinct_keys(paths::path_entries(view)),
{
    reveal_strlit("authoritative_zones_dir");
    reveal_strlit("static_records_file");
    reveal_strlit("blocked_domains_file");
    let entries = paths::path_entries(view);
    assert(entries[0].0.len() != entries[1].0.len() && entries[0].0.len() != entries[2].0.len()
        && entries[1].0.len() != entries[2].0.len());
}

/// A view that is told where its data is kept has those places afterwards, and every other
/// setting, also the data that it holds itself, as it was; the other views are as they were.
pub proof fn lemma_data_paths_keep_the_rest(
    list: Seq<toml_doc::TomlV>,
    view: Seq<char>,
    key: Seq<char>,
)
    ensures
        ({
            let i = paths::named_index(list, view);
            let new = paths::placed_views(list, view);
            let entries = paths::path_entries(view);
            &&& 0 <= i < new.len()
            &&& new.len() == (if i < list.len() {
                list.len()
            } else {
                list.len() + 1
            })
            &&& new[i] is Table
            &&& forall|k: int| 0 <= k < list.len() && k != i ==> #[trigger] new[k] == list[k]
            &&& i < list.len() ==> {
                &&& (forall|k: int| 0 <= k < entries.len() ==> (#[trigger] entries[k]).0 != key)
                    ==> toml_doc::lookup(new[i]->Table_0, key) == toml_doc::lookup(
                    list[i]->Table_0,
                    key,
                )
                &&& forall|k: int|
                    0 <= k < entries.len() && (#[trigger] entries[k]).0 == key
                        ==> toml_doc::lookup(new[i]->Table_0, key) == Some(entries[k].1)
            }
        }),
{
    let i = paths::named_index(list, view);
    lemma_named_bounds(list, view);
    lemma_path_keys(view);
    if i < list.len() {
        values::lemma_with_entries(list[i]->Table_0, paths::path_entries(view), key);
    }
}

} // verus!
