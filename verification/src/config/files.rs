//! What the data files beside the configuration file mean for the settings.
use crate::config::rules;
use crate::config::rules::is_blank;
use crate::config::types;
use crate::config::types::AuthoritativeZone;
use crate::text;
use vstd::prelude::*;

verus! {

/// A file of a zone directory: its name without the extension, and the zone that it holds, where
/// it could be read.
pub struct ZoneFile {
    pub stem: String,
    pub zone: Option<AuthoritativeZone>,
}

pub open spec fn zone_option_view(z: Option<AuthoritativeZone>) -> Option<
    types::AuthoritativeZoneV,
> {
    match z {
        Some(zone) => Some(zone@),
        None => None,
    }
}

/// Whether a file of a zone directory is taken for a zone by its name.
pub open spec fn names_zone_file(stem: Seq<char>) -> bool {
    !rules::fold_eq(stem, "static_records"@) && !rules::fold_eq(stem, "blocked_domains"@)
}

/// The zone of a file: under its own name, or under that of the file where it has none.
pub open spec fn zone_of_file(stem: Seq<char>, zone: Option<types::AuthoritativeZoneV>) -> Option<
    types::AuthoritativeZoneV,
> {
    match zone {
        Some(z) if names_zone_file(stem) => {
            let name = if rules::blank(z.name) {
                stem
            } else {
                z.name
            };
            if rules::blank(name) {
                None
            } else {
                Some(types::AuthoritativeZoneV { name, ..z })
            }
        },
        _ => None,
    }
}

pub open spec fn zones_of_files(files: Seq<ZoneFile>) -> Seq<types::AuthoritativeZoneV> {
    files.filter_map(|f: ZoneFile| zone_of_file(f.stem@, zone_option_view(f.zone)))
}

/// Whether a file of a zone directory is taken for a zone by its name.
pub fn is_zone_file(stem: &str) -> (r: bool)
    ensures
        r == names_zone_file(stem@),
{
    !text::same_fold(stem, "static_records") && !text::same_fold(stem, "blocked_domains")
}

/// Whether a file of static records is read as JSON, by the extension of its name; any other is read
/// as TOML.
pub fn is_json_file(extension: Option<&str>) -> (r: bool)
    ensures
        r == (extension is Some && rules::fold_eq(extension->0@, "json"@)),
{
    match extension {
        Some(e) => text::same_fold(e, "json"),
        None => false,
    }
}

fn take_zone(stem: &str, zone: AuthoritativeZone) -> (r: Option<AuthoritativeZone>)
    ensures
        zone_option_view(r) == zone_of_file(stem@, Some(zone@)),
{
    if !is_zone_file(stem) {
        return None;
    }
    let name = if is_blank(zone.name.as_str()) {
        stem.to_owned()
    } else {
        zone.name
    };
    if is_blank(name.as_str()) {
        return None;
    }
    Some(
        AuthoritativeZone {
            name,
            default_ttl: zone.default_ttl,
            soa: zone.soa,
            records: zone.records,
        },
    )
}

/// The zones of a directory whose files are given in the order of their names.
pub fn zones_from_files(files: Vec<ZoneFile>) -> (r: Vec<AuthoritativeZone>)
    ensures
        types::zone_views(r@) == zones_of_files(files@),
{
    let ghost all = files@;
    let ghost f = |f: ZoneFile| zone_of_file(f.stem@, zone_option_view(f.zone));
    let mut files = files;
    let mut out: Vec<AuthoritativeZone> = Vec::new();
    let mut rest: Vec<ZoneFile> = Vec::new();
    let n: usize = files.len();
    while files.len() > 0
        invariant
            files@.len() <= all.len(),
            files@ == all.take(files@.len() as int),
            rest@.len() + files@.len() == all.len(),
            forall|k: int| 0 <= k < rest@.len() ==> #[trigger] rest@[k] == all[all.len() - 1 - k],
        decreases files@.len(),
    {
        if let Some(file) = files.pop() {
            rest.push(file);
        }
    }
    assert(all.take(0) =~= Seq::empty());
    assert(types::zone_views(out@) =~= all.take(0).filter_map(f)) by {
        reveal(Seq::filter_map);
    }
    let mut i: usize = 0;
    while rest.len() > 0
        invariant
            rest@.len() + i == all.len(),
            forall|k: int| 0 <= k < rest@.len() ==> #[trigger] rest@[k] == all[all.len() - 1 - k],
            f == (|f: ZoneFile| zone_of_file(f.stem@, zone_option_view(f.zone))),
            types::zone_views(out@) == all.take(i as int).filter_map(f),
            all.len() == n,
        decreases rest@.len(),
    {
        let ghost before = types::zone_views(out@);
        proof {
            all.lemma_filter_map_take_succ(f, i as int);
        }
        if let Some(file) = rest.pop() {
            assert(file == all[i as int]);
            if let Some(zone) = file.zone {
                if let Some(taken) = take_zone(file.stem.as_str(), zone) {
                    out.push(taken);
                    assert(types::zone_views(out@) =~= before.push(taken@));
                }
            }
        }
        i = i + 1;
    }
    assert(all.take(i as int) =~= all);
    out
}

/// The path of a data file beside the configuration file.
///
/// `direct` is the target below the directory of the configuration file; `shortened` is the same
/// without a leading component that repeats that directory's name.
pub open spec fn data_path(
    target: Seq<char>,
    absolute: bool,
    direct: Seq<char>,
    direct_exists: bool,
    shortened: Option<Seq<char>>,
    shortened_exists: bool,
) -> Seq<char> {
    if absolute {
        target
    } else if !direct_exists && shortened is Some && shortened_exists {
        shortened->0
    } else {
        direct
    }
}

/// Picks the path of a data file from what the file system says of the candidates.
pub fn resolve_path_relative_to_config(
    target: String,
    absolute: bool,
    direct: String,
    direct_exists: bool,
    shortened: Option<String>,
    shortened_exists: bool,
) -> (r: String)
    ensures
        r@ == data_path(
            target@,
            absolute,
            direct@,
            direct_exists,
            (match shortened {
                Some(s) => Some(s@),
                None => None,
            }),
            shortened_exists,
        ),
{
    if absolute {
        return target;
    }
    if direct_exists {
        return direct;
    }
    if shortened_exists {
        if let Some(path) = shortened {
            return path;
        }
    }
    direct
}

/// The target of an optional path: nothing where it is absent or blank.
pub fn configured_target(target: &Option<String>) -> (r: Option<String>)
    ensures
        match r {
            Some(t) => target is Some && t@ == text::trim(target->0@) && t@.len() > 0,
            None => target is None || rules::blank(target->0@),
        },
{
    match target {
        None => None,
        Some(path) => {
            if is_blank(path.as_str()) {
                None
            } else {
                Some(text::trimmed(path.as_str()))
            }
        },
    }
}

} // verus!
