//! Where the data files of a view lie, what is written into them, and how changes to them are
//! taken back.
use crate::admin::error::AdminError;
use crate::admin::values;
use crate::admin::values::{
    print_table, push_entry, records_value, string_array, zone_value, zones_value,
};
use crate::config::types;
use crate::config::types::{AuthoritativeZone, StaticRecord};
use crate::text;
use crate::toml_doc;
use crate::toml_doc::{Table, TomlValue};
use vstd::prelude::*;

verus! {

/// Where a file is looked for: under its own path where that is absolute or there already,
/// otherwise below the directory of the configuration file.
pub fn resolve_relative_config_path(target: &str, absolute: bool, exists: bool, below: &str) -> (r:
    String)
    ensures
        r@ == (if absolute || exists {
            target@
        } else {
            below@
        }),
{
    if absolute || exists {
        target.to_owned()
    } else {
        below.to_owned()
    }
}

/// Where a file is made: under its own path where that is absolute, otherwise below the directory
/// of the configuration file. `shortened` is the path below that directory without a first
/// component that repeats the directory's name, where there is one and more follows it.
pub fn resolve_path_relative_to_config_for_creation(
    target: &str,
    absolute: bool,
    below: &str,
    shortened: Option<&str>,
) -> (r: String)
    ensures
        r@ == (if absolute {
            target@
        } else {
            match shortened {
                Some(s) => s@,
                None => below@,
            }
        }),
{
    if absolute {
        return target.to_owned();
    }
    match shortened {
        Some(s) => s.to_owned(),
        None => below.to_owned(),
    }
}

/// What a file held before it was changed, nothing where it was not there.
#[derive(Debug)]
pub struct Backup {
    pub path: String,
    pub content: Option<String>,
}

/// A path and what the file there held.
pub type BackupV = (Seq<char>, Option<Seq<char>>);

impl View for Backup {
    type V = (Seq<char>, Option<Seq<char>>);

    open spec fn view(&self) -> (Seq<char>, Option<Seq<char>>) {
        (self.path@, types::optional_view(self.content))
    }
}

pub open spec fn backup_views(list: Seq<Backup>) -> Seq<BackupV> {
    list.map_values(|b: Backup| b@)
}

/// The files of a disk by their paths.
pub type Disk = Map<Seq<char>, Seq<char>>;

pub open spec fn content_at(disk: Disk, path: Seq<char>) -> Option<Seq<char>> {
    if disk.contains_key(path) {
        Some(disk[path])
    } else {
        None
    }
}

pub open spec fn with_content(disk: Disk, path: Seq<char>, content: Option<Seq<char>>) -> Disk {
    match content {
        Some(c) => disk.insert(path, c),
        None => disk.remove(path),
    }
}

pub open spec fn is_backed_up(list: Seq<BackupV>, path: Seq<char>) -> bool {
    exists|i: int| 0 <= i < list.len() && (#[trigger] list[i]).0 == path
}

/// The backups with that of one more file; a file that has one keeps it.
pub open spec fn remembered(list: Seq<BackupV>, path: Seq<char>, content: Option<Seq<char>>) ->
    Seq<BackupV> {
    if is_backed_up(list, path) {
        list
    } else {
        list.push((path, content))
    }
}

/// The disk after the backups were put back, the last one first.
pub open spec fn restored(list: Seq<BackupV>, disk: Disk) -> Disk
    decreases list.len(),
{
    if list.len() == 0 {
        disk
    } else {
        restored(list.drop_last(), with_content(disk, list.last().0, list.last().1))
    }
}

/// Whether the backups hold what every file held that has changed since.
pub open spec fn are_complete(list: Seq<BackupV>, before: Disk, now: Disk) -> bool {
    &&& forall|i: int|
        0 <= i < list.len() ==> (#[trigger] list[i]).1 == content_at(before, list[i].0)
    &&& forall|path: Seq<char>|
        !is_backed_up(list, path) ==> #[trigger] content_at(now, path) == content_at(before, path)
}

/// A file that is remembered and then written leaves the backups complete.
pub proof fn lemma_remembered_is_complete(
    list: Seq<BackupV>,
    before: Disk,
    now: Disk,
    path: Seq<char>,
    content: Seq<char>,
)
    requires
        are_complete(list, before, now),
    ensures
        are_complete(
            remembered(list, path, content_at(now, path)),
            before,
            now.insert(path, content),
        ),
{
    let next = remembered(list, path, content_at(now, path));
    assert(is_backed_up(next, path)) by {
        if !is_backed_up(list, path) {
            assert(next[next.len() - 1].0 == path);
        }
    }
    assert forall|p: Seq<char>| !is_backed_up(next, p) implies #[trigger] content_at(
        now.insert(path, content),
        p,
    ) == content_at(before, p) by {
        assert(p != path);
        assert(!is_backed_up(list, p)) by {
            if is_backed_up(list, p) {
                let i = choose|i: int| 0 <= i < list.len() && (#[trigger] list[i]).0 == p;
                assert(next[i].0 == p);
            }
        }
        assert(content_at(now, p) == content_at(before, p));
    }
}

/// Putting back complete backups gives the disk as it was.
pub proof fn lemma_restored(list: Seq<BackupV>, before: Disk, now: Disk)
    requires
        are_complete(list, before, now),
    ensures
        restored(list, now) == before,
    decreases list.len(),
{
    if list.len() == 0 {
        assert forall|p: Seq<char>| #[trigger] now.dom().contains(p) == before.dom().contains(p) by {
            assert(!is_backed_up(list, p));
            assert(content_at(now, p) == content_at(before, p));
        }
        assert(now.dom() =~= before.dom());
        assert forall|p: Seq<char>| now.dom().contains(p) implies #[trigger] now[p] == before[p] by {
            assert(!is_backed_up(list, p));
            assert(content_at(now, p) == content_at(before, p));
        }
        assert(now =~= before);
    } else {
        let rest = list.drop_last();
        let last = list.last();
        let next = with_content(now, last.0, last.1);
        assert(last == list[list.len() - 1]);
        assert forall|p: Seq<char>| !is_backed_up(rest, p) implies #[trigger] content_at(next, p)
            == content_at(before, p) by {
            if p != last.0 {
                assert(!is_backed_up(list, p)) by {
                    if is_backed_up(list, p) {
                        let i = choose|i: int| 0 <= i < list.len() && (#[trigger] list[i]).0 == p;
                        assert(rest[i].0 == p);
                    }
                }
                assert(content_at(now, p) == content_at(before, p));
            }
        }
        assert forall|i: int| 0 <= i < rest.len() implies (#[trigger] rest[i]).1 == content_at(
            before,
            rest[i].0,
        ) by {
            assert(rest[i] == list[i]);
        }
        lemma_restored(rest, before, next);
    }
}

/// Remembers what a file held before it is written.
pub fn remember(list: &mut Vec<Backup>, path: &str, content: Option<String>)
    ensures
        backup_views(final(list)@) == remembered(
            backup_views(old(list)@),
            path@,
            types::optional_view(content),
        ),
{
    let ghost all = backup_views(list@);
    let mut i: usize = 0;
    while i < list.len()
        invariant
            i <= list@.len(),
            all == backup_views(list@),
            all == backup_views(old(list)@),
            forall|k: int| 0 <= k < i ==> (#[trigger] all[k]).0 != path@,
        decreases list@.len() - i,
    {
        assert(all[i as int] == list@[i as int]@);
        if text::same(list[i].path.as_str(), path) {
            return;
        }
        i = i + 1;
    }
    let backup = Backup { path: path.to_owned(), content };
    list.push(backup);
    assert(backup_views(list@) =~= all.push(backup@));
}

/// The text of a document with one key, or why it cannot be written.
fn single_entry(key: &str, value: TomlValue) -> (r: Result<String, AdminError>)
    ensures
        match values::printed(seq![(key@, value@)]) {
            Ok(s) => r is Ok && r->Ok_0@ == s,
            Err(e) => r is Err && r->Err_0 == e,
        },
{
    let mut t: Table = Vec::new();
    push_entry(&mut t, key, value);
    assert(toml_doc::table_view(t@) =~= seq![(key@, value@)]);
    print_table(t)
}

/// The text of a file of static records.
pub fn serialize_static_records_file(records: &Vec<StaticRecord>) -> (r: Result<
    String,
    AdminError,
>)
    ensures
        match values::printed(
            seq![("static_records"@, values::records_toml(types::record_views(records@)))],
        ) {
            Ok(s) => r is Ok && r->Ok_0@ == s,
            Err(e) => r is Err && r->Err_0 == e,
        },
{
    single_entry("static_records", records_value(records))
}

/// The text of a file of blocked domains.
pub fn serialize_blocked_domains_file(blocked_domains: &Vec<String>) -> (r: Result<
    String,
    AdminError,
>)
    ensures
        match values::printed(
            seq![("blocked_domains"@, values::texts_toml(text::views(blocked_domains@)))],
        ) {
            Ok(s) => r is Ok && r->Ok_0@ == s,
            Err(e) => r is Err && r->Err_0 == e,
        },
{
    single_entry("blocked_domains", string_array(blocked_domains))
}

/// The text of a file of zones.
pub fn serialize_zones_file(zones: &Vec<AuthoritativeZone>) -> (r: Result<String, AdminError>)
    ensures
        match values::printed(seq![("zones"@, values::zones_toml(types::zone_views(zones@)))]) {
            Ok(s) => r is Ok && r->Ok_0@ == s,
            Err(e) => r is Err && r->Err_0 == e,
        },
{
    single_entry("zones", zones_value(zones))
}

/// The text of the file of one zone.
pub fn serialize_zone_file(zone: &AuthoritativeZone) -> (r: Result<String, AdminError>)
    ensures
        match values::printed(values::zone_toml(zone@)->Table_0) {
            Ok(s) => r is Ok && r->Ok_0@ == s,
            Err(e) => r is Err && r->Err_0 == e,
        },
{
    match zone_value(zone) {
        TomlValue::Table(t) => {
            proof {
                toml_doc::lemma_table_view(t);
            }
            print_table(t)
        },
        _ => Err(AdminError::RootNotTable),
    }
}

} // verus!
