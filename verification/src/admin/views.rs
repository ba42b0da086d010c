//! Changes of the views in a configuration file.
use crate::admin::error::AdminError;
use crate::admin::values;
use crate::admin::values::{
    load_toml_root_table,
    print_table,
    records_value,
    string_array,
    table_value,
};
use crate::config::rules;
use crate::config::rules::is_blank;
use crate::config::types;
use crate::config::types::StaticRecord;
use crate::text;
use crate::toml_doc;
use crate::toml_doc::{copy_value, get, put, remove, Table, TomlValue};
use vstd::prelude::*;

verus! {

/// A request to add or change a view.
pub struct ViewUpsertRequest {
    pub name: String,
    pub previous_name: Option<String>,
    pub summary: Option<String>,
    pub query_mode: String,
    pub client_cidrs: Vec<String>,
    pub static_records: Vec<StaticRecord>,
    pub blocked_domains: Vec<String>,
    pub enable_recursion: bool,
    pub view_static_cname_expand_for_address_queries: Option<bool>,
    pub view_authoritative_cname_expand_for_address_queries: Option<bool>,
}

/// The name in an item of the list of views.
pub open spec fn view_name(v: toml_doc::TomlV) -> Option<Seq<char>> {
    match v {
        toml_doc::TomlV::Table(t) => match toml_doc::lookup(t, "name"@) {
            Some(toml_doc::TomlV::Str(s)) => Some(s),
            _ => None,
        },
        _ => None,
    }
}

/// Whether an item of the list is the view with the given name, but for case and white space
/// round its own name.
pub open spec fn has_trimmed_name(v: toml_doc::TomlV, name: Seq<char>) -> bool {
    view_name(v) is Some && rules::fold_eq(text::trim(view_name(v)->0), name)
}

/// Whether an item of the list is the view with the given name, but for case.
pub open spec fn has_name(v: toml_doc::TomlV, name: Seq<char>) -> bool {
    view_name(v) is Some && rules::fold_eq(view_name(v)->0, name)
}

/// The position of the first view with the given name; the length of the list where there is none.
pub open spec fn trimmed_index(views: Seq<toml_doc::TomlV>, name: Seq<char>) -> int
    decreases views.len(),
{
    if views.len() == 0 || has_trimmed_name(views[0], name) {
        0
    } else {
        1 + trimmed_index(views.skip(1), name)
    }
}

/// The name under which a request wants its view.
pub open spec fn target_name(req: ViewUpsertRequest) -> Seq<char> {
    text::trim(req.name@)
}

/// The name under which the view of a request stands so far.
pub open spec fn lookup_name(req: ViewUpsertRequest) -> Seq<char> {
    match req.previous_name {
        Some(s) => text::trim(s@),
        None => target_name(req),
    }
}

pub open spec fn mode_text(req: ViewUpsertRequest) -> Seq<char> {
    if rules::blank(req.query_mode@) {
        "global_fallback"@
    } else {
        text::trim(req.query_mode@)
    }
}

pub open spec fn summary_text(req: ViewUpsertRequest) -> Seq<char> {
    match req.summary {
        Some(s) => text::trim(s@),
        None => Seq::empty(),
    }
}

/// Why the names in a request are refused.
pub open spec fn name_error(req: ViewUpsertRequest) -> Option<AdminError> {
    if target_name(req).len() == 0 {
        Some(AdminError::ViewNameRequired)
    } else if lookup_name(req).len() == 0 {
        Some(AdminError::PreviousNameInvalid)
    } else if rules::fold_eq(target_name(req), "default"@) != rules::fold_eq(
        lookup_name(req),
        "default"@,
    ) {
        Some(AdminError::DefaultNameImmutable)
    } else {
        None
    }
}

/// Whether a setting of a view is a text that is not blank.
pub open spec fn has_file(t: toml_doc::TableV, key: Seq<char>) -> bool {
    match toml_doc::lookup(t, key) {
        Some(toml_doc::TomlV::Str(s)) => !rules::blank(s),
        _ => false,
    }
}

/// The table with an optional switch written where it is given.
pub open spec fn with_switch(t: toml_doc::TableV, key: Seq<char>, value: Option<bool>) ->
    toml_doc::TableV {
    match value {
        Some(b) => toml_doc::with_entry(t, key, toml_doc::TomlV::Bool(b)),
        None => t,
    }
}

pub open spec fn with_switches(t: toml_doc::TableV, req: ViewUpsertRequest) -> toml_doc::TableV {
    with_switch(
        with_switch(
            t,
            "view_static_cname_expand_for_address_queries"@,
            req.view_static_cname_expand_for_address_queries,
        ),
        "view_authoritative_cname_expand_for_address_queries"@,
        req.view_authoritative_cname_expand_for_address_queries,
    )
}

/// The heading of a view: its name, summary, mode and clients. A blank summary is removed.
pub open spec fn with_heading(t: toml_doc::TableV, req: ViewUpsertRequest) -> toml_doc::TableV {
    let named = toml_doc::with_entry(t, "name"@, toml_doc::TomlV::Str(target_name(req)));
    let summarized = if summary_text(req).len() == 0 {
        toml_doc::without_entry(named, "summary"@)
    } else {
        toml_doc::with_entry(named, "summary"@, toml_doc::TomlV::Str(summary_text(req)))
    };
    toml_doc::with_entry(
        toml_doc::with_entry(summarized, "query_mode"@, toml_doc::TomlV::Str(mode_text(req))),
        "client_cidrs"@,
        values::texts_toml(text::views(req.client_cidrs@)),
    )
}

/// A view with its data: where a view keeps records or blocked domains in a file, its own list is
/// removed, otherwise it is replaced.
pub open spec fn with_data(t: toml_doc::TableV, req: ViewUpsertRequest) -> toml_doc::TableV {
    let recorded = if has_file(t, "static_records_file"@) {
        toml_doc::without_entry(t, "static_records"@)
    } else {
        toml_doc::with_entry(
            t,
            "static_records"@,
            values::records_toml(types::record_views(req.static_records@)),
        )
    };
    let blocked = if has_file(recorded, "blocked_domains_file"@) {
        toml_doc::without_entry(recorded, "blocked_domains"@)
    } else {
        toml_doc::with_entry(
            recorded,
            "blocked_domains"@,
            values::texts_toml(text::views(req.blocked_domains@)),
        )
    };
    toml_doc::with_entry(
        blocked,
        "enable_recursion"@,
        toml_doc::TomlV::Bool(req.enable_recursion),
    )
}

/// The view that a request makes of an existing one.
pub open spec fn changed_view(t: toml_doc::TableV, req: ViewUpsertRequest) -> toml_doc::TableV {
    with_switches(with_data(with_heading(t, req), req), req)
}

/// The view that a request adds.
pub open spec fn new_view(req: ViewUpsertRequest) -> toml_doc::TableV {
    changed_view(Seq::empty(), req)
}

/// Whether another view than the one to change has the wanted name already, among those that
/// stand before it.
pub open spec fn name_taken(views: Seq<toml_doc::TomlV>, req: ViewUpsertRequest) -> bool {
    exists|i: int|
        0 <= i < trimmed_index(views, lookup_name(req)) && has_trimmed_name(
            #[trigger] views[i],
            target_name(req),
        )
}

/// The list of views after a request.
pub open spec fn upserted_views(views: Seq<toml_doc::TomlV>, req: ViewUpsertRequest) -> Result<
    Seq<toml_doc::TomlV>,
    AdminError,
> {
    let i = trimmed_index(views, lookup_name(req));
    if name_taken(views, req) {
        Err(AdminError::ViewNameTaken)
    } else if i < views.len() {
        Ok(
            views.update(
                i,
                toml_doc::TomlV::Table(changed_view(views[i]->Table_0, req)),
            ),
        )
    } else if req.previous_name is Some {
        Err(AdminError::PreviousNameNotFound)
    } else {
        Ok(views.push(toml_doc::TomlV::Table(new_view(req))))
    }
}

/// The list of views of a configuration; an empty one where there is none.
pub open spec fn views_of(t: toml_doc::TableV) -> Result<Seq<toml_doc::TomlV>, AdminError> {
    match toml_doc::lookup(t, "views"@) {
        None => Ok(Seq::empty()),
        Some(toml_doc::TomlV::Array(a)) => Ok(a),
        Some(_) => Err(AdminError::ViewsNotArray),
    }
}

/// A configuration with another list of views.
pub open spec fn with_views(t: toml_doc::TableV, views: Seq<toml_doc::TomlV>) -> toml_doc::TableV {
    toml_doc::with_entry(t, "views"@, toml_doc::TomlV::Array(views))
}

/// The configuration after a request to add or change a view.
pub open spec fn upserted(t: toml_doc::TableV, req: ViewUpsertRequest) -> Result<
    toml_doc::TableV,
    AdminError,
> {
    match views_of(t) {
        Err(e) => Err(e),
        Ok(views) => match upserted_views(views, req) {
            Err(e) => Err(e),
            Ok(new) => Ok(with_views(t, new)),
        },
    }
}

pub open spec fn upserted_raw(raw: Seq<char>, req: ViewUpsertRequest) -> Result<
    Seq<char>,
    AdminError,
> {
    match name_error(req) {
        Some(e) => Err(e),
        None => match values::root_table(raw) {
            Err(e) => Err(e),
            Ok(t) => match upserted(t, req) {
                Err(e) => Err(e),
                Ok(new) => values::printed(new),
            },
        },
    }
}

proof fn lemma_trimmed_index(views: Seq<toml_doc::TomlV>, name: Seq<char>, i: int)
    requires
        0 <= i <= views.len(),
        forall|k: int| 0 <= k < i ==> !has_trimmed_name(#[trigger] views[k], name),
        i < views.len() ==> has_trimmed_name(views[i], name),
    ensures
        trimmed_index(views, name) == i,
    decreases views.len(),
{
    if views.len() > 0 && i > 0 {
        assert(!has_trimmed_name(views[0], name));
        let rest = views.skip(1);
        assert forall|k: int| 0 <= k < i - 1 implies !has_trimmed_name(
            #[trigger] rest[k],
            name,
        ) by {
            assert(rest[k] == views[k + 1]);
        }
        lemma_trimmed_index(rest, name, i - 1);
    }
}

/// The name in an item of the list of views.
pub fn name_of_view(v: &TomlValue) -> (r: Option<String>)
    ensures
        types::optional_view(r) == view_name(v@),
{
    match v {
        TomlValue::Table(t) => {
            proof {
                toml_doc::lemma_table_view(*t);
            }
            match get(t, "name") {
                Some(TomlValue::Str(s)) => Some(s.clone()),
                _ => None,
            }
        },
        _ => None,
    }
}

fn is_view_trimmed(v: &TomlValue, name: &str) -> (r: bool)
    ensures
        r == has_trimmed_name(v@, name@),
{
    match name_of_view(v) {
        Some(n) => text::same_fold(text::trimmed(n.as_str()).as_str(), name),
        None => false,
    }
}

/// Whether an item of the list is the view with the given name, but for case.
pub fn is_view(v: &TomlValue, name: &str) -> (r: bool)
    ensures
        r == has_name(v@, name@),
{
    match name_of_view(v) {
        Some(n) => text::same_fold(n.as_str(), name),
        None => false,
    }
}

fn file_given(t: &Table, key: &str) -> (r: bool)
    ensures
        r == has_file(toml_doc::table_view(t@), key@),
{
    match get(t, key) {
        Some(TomlValue::Str(s)) => !is_blank(s.as_str()),
        _ => false,
    }
}

fn put_switch(t: &mut Table, key: &str, value: Option<bool>)
    ensures
        toml_doc::table_view(final(t)@) == with_switch(
            toml_doc::table_view(old(t)@),
            key@,
            value,
        ),
{
    if let Some(b) = value {
        put(t, key, TomlValue::Bool(b));
    }
}

fn change_view(t: Table, req: &ViewUpsertRequest) -> (r: Table)
    ensures
        toml_doc::table_view(r@) == changed_view(toml_doc::table_view(t@), *req),
{
    let mut t = t;
    let ghost before = toml_doc::table_view(t@);
    put(&mut t, "name", TomlValue::Str(text::trimmed(req.name.as_str())));
    let summary = match &req.summary {
        Some(s) => text::trimmed(s.as_str()),
        None => "".to_owned(),
    };
    proof {
        reveal_strlit("");
        assert(summary@ =~= summary_text(*req));
    }
    if text::chars_of(summary.as_str()).len() == 0 {
        remove(&mut t, "summary");
    } else {
        put(&mut t, "summary", TomlValue::Str(summary));
    }
    let mode = if is_blank(req.query_mode.as_str()) {
        "global_fallback".to_owned()
    } else {
        text::trimmed(req.query_mode.as_str())
    };
    put(&mut t, "query_mode", TomlValue::Str(mode));
    put(&mut t, "client_cidrs", string_array(&req.client_cidrs));
    assert(toml_doc::table_view(t@) == with_heading(before, *req));
    if file_given(&t, "static_records_file") {
        remove(&mut t, "static_records");
    } else {
        put(&mut t, "static_records", records_value(&req.static_records));
    }
    if file_given(&t, "blocked_domains_file") {
        remove(&mut t, "blocked_domains");
    } else {
        put(&mut t, "blocked_domains", string_array(&req.blocked_domains));
    }
    put(&mut t, "enable_recursion", TomlValue::Bool(req.enable_recursion));
    put_switch(
        &mut t,
        "view_static_cname_expand_for_address_queries",
        req.view_static_cname_expand_for_address_queries,
    );
    put_switch(
        &mut t,
        "view_authoritative_cname_expand_for_address_queries",
        req.view_authoritative_cname_expand_for_address_queries,
    );
    t
}

/// The list of views of a configuration.
pub fn load_views(t: &Table) -> (r: Result<Vec<TomlValue>, AdminError>)
    ensures
        match views_of(toml_doc::table_view(t@)) {
            Ok(a) => r is Ok && toml_doc::array_view(r->Ok_0@) == a,
            Err(e) => r is Err && r->Err_0 == e,
        },
{
    match get(t, "views") {
        None => {
            let list: Vec<TomlValue> = Vec::new();
            assert(toml_doc::array_view(list@) =~= Seq::empty());
            Ok(list)
        },
        Some(value) => match copy_value(value) {
            TomlValue::Array(a) => {
                proof {
                    toml_doc::lemma_array_view(a);
                }
                Ok(a)
            },
            _ => Err(AdminError::ViewsNotArray),
        },
    }
}

/// Writes the list of views of a configuration.
pub fn store_views(t: &mut Table, views: Vec<TomlValue>)
    ensures
        toml_doc::table_view(final(t)@) == with_views(
            toml_doc::table_view(old(t)@),
            toml_doc::array_view(views@),
        ),
{
    proof {
        toml_doc::lemma_array_view(views);
    }
    put(t, "views", TomlValue::Array(views));
}

fn upsert_in_views(views: Vec<TomlValue>, req: &ViewUpsertRequest) -> (r: Result<
    Vec<TomlValue>,
    AdminError,
>)
    ensures
        match upserted_views(toml_doc::array_view(views@), *req) {
            Ok(a) => r is Ok && toml_doc::array_view(r->Ok_0@) == a,
            Err(e) => r is Err && r->Err_0 == e,
        },
{
    let mut views = views;
    let ghost all = toml_doc::array_view(views@);
    let target = text::trimmed(req.name.as_str());
    let wanted = match &req.previous_name {
        Some(s) => text::trimmed(s.as_str()),
        None => text::trimmed(req.name.as_str()),
    };
    let mut taken = false;
    let mut i: usize = 0;
    while i < views.len() && !is_view_trimmed(&views[i], wanted.as_str())
        invariant
            i <= views@.len(),
            all == toml_doc::array_view(views@),
            target@ == target_name(*req),
            wanted@ == lookup_name(*req),
            forall|k: int| 0 <= k < i ==> !has_trimmed_name(#[trigger] all[k], wanted@),
            taken == exists|k: int| 0 <= k < i && has_trimmed_name(#[trigger] all[k], target@),
        decreases views@.len() - i,
    {
        assert(all[i as int] == views@[i as int]@);
        if is_view_trimmed(&views[i], target.as_str()) {
            assert(has_trimmed_name(all[i as int], target@));
            taken = true;
        }
        i = i + 1;
    }
    proof {
        if i < views@.len() {
            assert(all[i as int] == views@[i as int]@);
        }
        lemma_trimmed_index(all, wanted@, i as int);
    }
    if taken {
        return Err(AdminError::ViewNameTaken);
    }
    assert(!name_taken(all, *req));
    if i < views.len() {
        assert(all[i as int] == views@[i as int]@);
        match copy_value(&views[i]) {
            TomlValue::Table(t) => {
                proof {
                    toml_doc::lemma_table_view(t);
                }
                let new = table_value(change_view(t, req));
                views.set(i, new);
                assert(toml_doc::array_view(views@) =~= all.update(i as int, new@));
                Ok(views)
            },
            _ => Ok(views),
        }
    } else if req.previous_name.is_some() {
        Err(AdminError::PreviousNameNotFound)
    } else {
        let empty: Table = Vec::new();
        assert(toml_doc::table_view(empty@) =~= Seq::empty());
        let new = table_value(change_view(empty, req));
        views.push(new);
        assert(toml_doc::array_view(views@) =~= all.push(new@));
        Ok(views)
    }
}

/// Adds or changes a view in the table of a configuration.
pub fn upsert_view_in_table(t: Table, req: &ViewUpsertRequest) -> (r: Result<Table, AdminError>)
    ensures
        match upserted(toml_doc::table_view(t@), *req) {
            Ok(new) => r is Ok && toml_doc::table_view(r->Ok_0@) == new,
            Err(e) => r is Err && r->Err_0 == e,
        },
{
    let mut t = t;
    match load_views(&t) {
        Err(e) => Err(e),
        Ok(views) => match upsert_in_views(views, req) {
            Err(e) => Err(e),
            Ok(new) => {
                store_views(&mut t, new);
                Ok(t)
            },
        },
    }
}

fn check_names(req: &ViewUpsertRequest) -> (r: Option<AdminError>)
    ensures
        r == name_error(*req),
{
    if is_blank(req.name.as_str()) {
        return Some(AdminError::ViewNameRequired);
    }
    let target = text::trimmed(req.name.as_str());
    let wanted = match &req.previous_name {
        Some(s) => text::trimmed(s.as_str()),
        None => text::trimmed(req.name.as_str()),
    };
    if text::chars_of(wanted.as_str()).len() == 0 {
        return Some(AdminError::PreviousNameInvalid);
    }
    if text::same_fold(target.as_str(), "default") != text::same_fold(wanted.as_str(), "default") {
        return Some(AdminError::DefaultNameImmutable);
    }
    None
}

/// Adds or changes a view in a configuration file. A success always reports that it took effect.
pub fn upsert_view_in_raw(raw: &str, req: &ViewUpsertRequest) -> (r: Result<
    (String, bool),
    AdminError,
>)
    ensures
        match upserted_raw(raw@, *req) {
            Ok(s) => r is Ok && r->Ok_0.0@ == s && r->Ok_0.1,
            Err(e) => r is Err && r->Err_0 == e,
        },
{
    if let Some(e) = check_names(req) {
        return Err(e);
    }
    match load_toml_root_table(raw) {
        Err(e) => Err(e),
        Ok(t) => match upsert_view_in_table(t, req) {
            Err(e) => Err(e),
            Ok(new) => match print_table(new) {
                Err(e) => Err(e),
                Ok(s) => Ok((s, true)),
            },
        },
    }
}

/// The list without the views of the given name.
pub open spec fn without_view(views: Seq<toml_doc::TomlV>, name: Seq<char>) -> Seq<
    toml_doc::TomlV,
> {
    views.filter(|v: toml_doc::TomlV| !has_trimmed_name(v, name))
}

/// The configuration after a view is deleted, and whether there was such a view.
pub open spec fn view_deleted(t: toml_doc::TableV, name: Seq<char>) -> Result<
    (toml_doc::TableV, bool),
    AdminError,
> {
    match toml_doc::lookup(t, "views"@) {
        None => Ok((t, false)),
        Some(_) => match views_of(t) {
            Err(e) => Err(e),
            Ok(views) => Ok(
                (
                    with_views(t, without_view(views, name)),
                    without_view(views, name).len() < views.len(),
                ),
            ),
        },
    }
}

pub open spec fn view_deleted_raw(raw: Seq<char>, name: Seq<char>) -> Result<
    (Seq<char>, bool),
    AdminError,
> {
    let wanted = text::trim(name);
    if wanted.len() == 0 {
        Err(AdminError::ViewNameRequired)
    } else if rules::fold_eq(wanted, "default"@) {
        Err(AdminError::DefaultViewUndeletable)
    } else {
        match values::root_table(raw) {
            Err(e) => Err(e),
            Ok(t) => match view_deleted(t, wanted) {
                Err(e) => Err(e),
                Ok((new, found)) => match values::printed(new) {
                    Err(e) => Err(e),
                    Ok(s) => Ok((s, found)),
                },
            },
        }
    }
}

fn retain_other_views(views: &Vec<TomlValue>, name: &str) -> (r: Vec<TomlValue>)
    ensures
        toml_doc::array_view(r@) == without_view(toml_doc::array_view(views@), name@),
{
    let ghost all = toml_doc::array_view(views@);
    let ghost keep = |v: toml_doc::TomlV| !has_trimmed_name(v, name@);
    let mut out: Vec<TomlValue> = Vec::new();
    let mut i: usize = 0;
    assert(all.take(0).filter(keep) =~= Seq::empty()) by {
        reveal(Seq::filter);
    }
    assert(toml_doc::array_view(out@) =~= Seq::empty());
    while i < views.len()
        invariant
            i <= views@.len(),
            all == toml_doc::array_view(views@),
            keep == (|v: toml_doc::TomlV| !has_trimmed_name(v, name@)),
            toml_doc::array_view(out@) == all.take(i as int).filter(keep),
        decreases views@.len() - i,
    {
        assert(all[i as int] == views@[i as int]@);
        assert(all.take(i + 1).drop_last() =~= all.take(i as int));
        let ghost before = toml_doc::array_view(out@);
        proof {
            reveal(Seq::filter);
        }
        if !is_view_trimmed(&views[i], name) {
            let kept = copy_value(&views[i]);
            out.push(kept);
            assert(toml_doc::array_view(out@) =~= before.push(kept@));
        }
        i = i + 1;
    }
    assert(all.take(i as int) =~= all);
    out
}

/// Deletes a view from the table of a configuration.
pub fn delete_view_in_table(t: Table, name: &str) -> (r: Result<(Table, bool), AdminError>)
    ensures
        match view_deleted(toml_doc::table_view(t@), name@) {
            Ok((new, found)) => r is Ok && toml_doc::table_view(r->Ok_0.0@) == new && r->Ok_0.1
                == found,
            Err(e) => r is Err && r->Err_0 == e,
        },
{
    let mut t = t;
    if get(&t, "views").is_none() {
        return Ok((t, false));
    }
    match load_views(&t) {
        Err(e) => Err(e),
        Ok(views) => {
            let kept = retain_other_views(&views, name);
            let found = kept.len() < views.len();
            store_views(&mut t, kept);
            Ok((t, found))
        },
    }
}

/// Deletes a view from a configuration file.
pub fn delete_view_in_raw(raw: &str, view_name: &str) -> (r: Result<(String, bool), AdminError>)
    ensures
        match view_deleted_raw(raw@, view_name@) {
            Ok((s, found)) => r is Ok && r->Ok_0.0@ == s && r->Ok_0.1 == found,
            Err(e) => r is Err && r->Err_0 == e,
        },
{
    if is_blank(view_name) {
        return Err(AdminError::ViewNameRequired);
    }
    let wanted = text::trimmed(view_name);
    if text::same_fold(wanted.as_str(), "default") {
        return Err(AdminError::DefaultViewUndeletable);
    }
    match load_toml_root_table(raw) {
        Err(e) => Err(e),
        Ok(t) => match delete_view_in_table(t, wanted.as_str()) {
            Err(e) => Err(e),
            Ok((new, found)) => match print_table(new) {
                Err(e) => Err(e),
                Ok(s) => Ok((s, found)),
            },
        },
    }
}

} // verus!
