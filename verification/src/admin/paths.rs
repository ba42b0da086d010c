//! Where the data of a view is kept.
use crate::admin::error::AdminError;
use crate::admin::values;
use crate::admin::values::{
    load_toml_root_table, print_table, push_entry, put_all, table_value, text_value,
};
use crate::admin::views;
use crate::admin::views::{is_view, load_views, store_views};
use crate::text;
use crate::toml_doc;
use crate::toml_doc::{copy_value, Table, TomlValue};
use vstd::prelude::*;

verus! {

/// A control character.
pub open spec fn is_control(c: char) -> bool {
    (c as u32) < 0x20 || (0x7f <= (c as u32) && (c as u32) <= 0x9f)
}

/// A character of the name of a directory: those that a file system may refuse are replaced.
pub open spec fn directory_char(c: char) -> char {
    if c == '<' || c == '>' || c == ':' || c == '"' || c == '/' || c == '\\' || c == '|' || c
        == '?' || c == '*' || is_control(c) {
        '_'
    } else {
        c
    }
}

/// The name of the directory of a view.
pub open spec fn directory_name(view: Seq<char>) -> Seq<char> {
    let name = text::trim(view).map_values(|c: char| directory_char(c));
    if name.len() == 0 {
        "default"@
    } else {
        name
    }
}

/// The directory of a view.
pub open spec fn view_directory(view: Seq<char>) -> Seq<char> {
    "config/"@ + directory_name(view)
}

pub open spec fn static_records_path(view: Seq<char>) -> Seq<char> {
    view_directory(view) + "/static_records.toml"@
}

pub open spec fn blocked_domains_path(view: Seq<char>) -> Seq<char> {
    view_directory(view) + "/blocked_domains.toml"@
}

/// The name of a view's directory holds no separator, so it names a directory below `config`.
pub proof fn lemma_directory_name(view: Seq<char>)
    ensures
        !directory_name(view).contains('/'),
        !directory_name(view).contains('\\'),
        directory_name(view).len() > 0,
{
    let name = text::trim(view).map_values(|c: char| directory_char(c));
    if name.len() == 0 {
        reveal_strlit("default");
    } else {
        assert forall|i: int| 0 <= i < name.len() implies name[i] != '/' && name[i] != '\\' by {
            assert(name[i] == directory_char(text::trim(view)[i]));
        }
    }
}

fn replaced_char(c: char) -> (r: char)
    ensures
        r == directory_char(c),
{
    let n: u32 = c as u32;
    if c == '<' || c == '>' || c == ':' || c == '"' || c == '/' || c == '\\' || c == '|' || c
        == '?' || c == '*' || n < 0x20 || (0x7f <= n && n <= 0x9f) {
        '_'
    } else {
        c
    }
}

/// The name of the directory of a view.
pub fn sanitize_view_name_for_dir(view_name: &str) -> (r: String)
    ensures
        r@ == directory_name(view_name@),
{
    let chars = text::chars_of(text::trimmed(view_name).as_str());
    let ghost name = text::trim(view_name@).map_values(|c: char| directory_char(c));
    let mut out = String::new();
    let mut i: usize = 0;
    assert(out@ =~= name.take(0));
    while i < chars.len()
        invariant
            i <= chars@.len(),
            chars@ == text::trim(view_name@),
            name == text::trim(view_name@).map_values(|c: char| directory_char(c)),
            out@ == name.take(i as int),
        decreases chars@.len() - i,
    {
        out.push(replaced_char(chars[i]));
        assert(name.take(i as int).push(name[i as int]) =~= name.take(i + 1));
        i = i + 1;
    }
    assert(name.take(i as int) =~= name);
    if chars.len() == 0 {
        return "default".to_owned();
    }
    out
}

/// The directory of a view.
pub fn view_data_dir_relative(view_name: &str) -> (r: String)
    ensures
        r@ == view_directory(view_name@),
{
    text::concat("config/", sanitize_view_name_for_dir(view_name).as_str())
}

/// The file of the static records of a view.
pub fn view_static_records_file_relative(view_name: &str) -> (r: String)
    ensures
        r@ == static_records_path(view_name@),
{
    text::concat(view_data_dir_relative(view_name).as_str(), "/static_records.toml")
}

/// The file of the blocked domains of a view.
pub fn view_blocked_domains_file_relative(view_name: &str) -> (r: String)
    ensures
        r@ == blocked_domains_path(view_name@),
{
    text::concat(view_data_dir_relative(view_name).as_str(), "/blocked_domains.toml")
}

/// The settings that say where the data of a view is kept.
pub open spec fn path_entries(view: Seq<char>) -> toml_doc::TableV {
    seq![
        ("authoritative_zones_dir"@, toml_doc::TomlV::Str(view_directory(view))),
        ("static_records_file"@, toml_doc::TomlV::Str(static_records_path(view))),
        ("blocked_domains_file"@, toml_doc::TomlV::Str(blocked_domains_path(view))),
    ]
}

/// A view that has nothing yet but the places of its data.
pub open spec fn bare_view(view: Seq<char>) -> toml_doc::TableV {
    seq![("name"@, toml_doc::TomlV::Str(view))] + path_entries(view) + seq![
        ("client_cidrs"@, toml_doc::TomlV::Array(Seq::empty())),
        ("query_mode"@, toml_doc::TomlV::Str("global_fallback"@)),
        ("enable_recursion"@, toml_doc::TomlV::Bool(true)),
    ]
}

/// The position of the first view with the given name but for case.
pub open spec fn named_index(list: Seq<toml_doc::TomlV>, name: Seq<char>) -> int
    decreases list.len(),
{
    if list.len() == 0 || views::has_name(list[0], name) {
        0
    } else {
        1 + named_index(list.skip(1), name)
    }
}

/// The list of views in which the given view has its places; it is added where it is missing.
pub open spec fn placed_views(list: Seq<toml_doc::TomlV>, view: Seq<char>) -> Seq<toml_doc::TomlV> {
    let i = named_index(list, view);
    if i < list.len() {
        list.update(
            i,
            toml_doc::TomlV::Table(values::with_entries(list[i]->Table_0, path_entries(view))),
        )
    } else {
        list.push(toml_doc::TomlV::Table(bare_view(view)))
    }
}

/// The configuration in which a view has the places of its data.
pub open spec fn placed(t: toml_doc::TableV, view: Seq<char>) -> Result<
    toml_doc::TableV,
    AdminError,
> {
    match views::views_of(t) {
        Err(e) => Err(e),
        Ok(list) => Ok(views::with_views(t, placed_views(list, view))),
    }
}

pub open spec fn placed_raw(raw: Seq<char>, view: Seq<char>) -> Result<Seq<char>, AdminError> {
    match values::root_table(raw) {
        Err(e) => Err(e),
        Ok(t) => match placed(t, view) {
            Err(e) => Err(e),
            Ok(new) => values::printed(new),
        },
    }
}

/// The position of the first view with the given name but for case.
pub fn find_named_view(list: &Vec<TomlValue>, name: &str) -> (r: usize)
    ensures
        r == named_index(toml_doc::array_view(list@), name@),
        r <= list@.len(),
        r < list@.len() ==> views::has_name(toml_doc::array_view(list@)[r as int], name@),
{
    let ghost all = toml_doc::array_view(list@);
    let mut i: usize = 0;
    assert(all.skip(0) =~= all);
    while i < list.len()
        invariant
            i <= list@.len(),
            all == toml_doc::array_view(list@),
            named_index(all, name@) == i + named_index(all.skip(i as int), name@),
        decreases list@.len() - i,
    {
        assert(all.skip(i as int)[0] == list@[i as int]@);
        if is_view(&list[i], name) {
            assert(all[i as int] == list@[i as int]@);
            return i;
        }
        assert(all.skip(i as int).skip(1) =~= all.skip(i + 1));
        i = i + 1;
    }
    i
}

fn path_table(view: &str) -> (r: Table)
    ensures
        toml_doc::table_view(r@) == path_entries(view@),
{
    let mut t: Table = Vec::new();
    push_entry(
        &mut t,
        "authoritative_zones_dir",
        TomlValue::Str(view_data_dir_relative(view)),
    );
    push_entry(
        &mut t,
        "static_records_file",
        TomlValue::Str(view_static_records_file_relative(view)),
    );
    push_entry(
        &mut t,
        "blocked_domains_file",
        TomlValue::Str(view_blocked_domains_file_relative(view)),
    );
    assert(toml_doc::table_view(t@) =~= path_entries(view@));
    t
}

fn bare_view_table(view: &str) -> (r: Table)
    ensures
        toml_doc::table_view(r@) == bare_view(view@),
{
    let mut t: Table = Vec::new();
    push_entry(&mut t, "name", text_value(view));
    push_entry(
        &mut t,
        "authoritative_zones_dir",
        TomlValue::Str(view_data_dir_relative(view)),
    );
    push_entry(
        &mut t,
        "static_records_file",
        TomlValue::Str(view_static_records_file_relative(view)),
    );
    push_entry(
        &mut t,
        "blocked_domains_file",
        TomlValue::Str(view_blocked_domains_file_relative(view)),
    );
    let none: Vec<TomlValue> = Vec::new();
    proof {
        toml_doc::lemma_array_view(none);
        assert(toml_doc::array_view(none@) =~= Seq::empty());
    }
    push_entry(&mut t, "client_cidrs", TomlValue::Array(none));
    push_entry(&mut t, "query_mode", text_value("global_fallback"));
    push_entry(&mut t, "enable_recursion", TomlValue::Bool(true));
    assert(toml_doc::table_view(t@) =~= bare_view(view@));
    t
}

/// Gives a view the places of its data in the table of a configuration.
pub fn ensure_view_data_paths_in_table(t: Table, view: &str) -> (r: Result<Table, AdminError>)
    ensures
        match placed(toml_doc::table_view(t@), view@) {
            Ok(new) => r is Ok && toml_doc::table_view(r->Ok_0@) == new,
            Err(e) => r is Err && r->Err_0 == e,
        },
{
    let mut t = t;
    match load_views(&t) {
        Err(e) => Err(e),
        Ok(list) => {
            let mut list = list;
            let ghost all = toml_doc::array_view(list@);
            let i = find_named_view(&list, view);
            if i < list.len() {
                assert(all[i as int] == list@[i as int]@);
                if let TomlValue::Table(old) = copy_value(&list[i]) {
                    proof {
                        toml_doc::lemma_table_view(old);
                    }
                    let mut changed = old;
                    put_all(&mut changed, &path_table(view));
                    let new = table_value(changed);
                    list.set(i, new);
                    assert(toml_doc::array_view(list@) =~= all.update(i as int, new@));
                }
            } else {
                let new = table_value(bare_view_table(view));
                list.push(new);
                assert(toml_doc::array_view(list@) =~= all.push(new@));
            }
            store_views(&mut t, list);
            Ok(t)
        },
    }
}

/// Gives a view the places of its data in a configuration file. The view is there afterwards, so
/// a success always reports that it was found.
pub fn ensure_view_data_paths_in_raw(raw: &str, view_name: &str) -> (r: Result<
    (String, bool),
    AdminError,
>)
    ensures
        match placed_raw(raw@, view_name@) {
            Ok(s) => r is Ok && r->Ok_0.0@ == s && r->Ok_0.1,
            Err(e) => r is Err && r->Err_0 == e,
        },
{
    match load_toml_root_table(raw) {
        Err(e) => Err(e),
        Ok(t) => match ensure_view_data_paths_in_table(t, view_name) {
            Err(e) => Err(e),
            Ok(new) => match print_table(new) {
                Err(e) => Err(e),
                Ok(s) => Ok((s, true)),
            },
        },
    }
}

} // verus!
