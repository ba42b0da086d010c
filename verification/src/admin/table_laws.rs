//! What holds of the views, zones and records that requests write into a configuration: what is
//! given is found under its own name.
use crate::admin::error::AdminError;
use crate::admin::laws;
use crate::admin::paths;
use crate::admin::plans;
use crate::admin::plans::Change;
use crate::admin::sections;
use crate::admin::sections::ConfigSectionsPayload;
use crate::admin::values;
use crate::admin::views;
use crate::admin::views::ViewUpsertRequest;
use crate::admin::zone_tables;
use crate::admin::zones;
use crate::config::types;
use crate::json_doc;
use crate::text;
use crate::toml_doc;
use crate::toml_doc::TableV;
use crate::toml_doc::TomlV;
use vstd::prelude::*;

verus! {

/// The table that a value is; an empty one where it is none.
pub open spec fn fields(v: TomlV) -> TableV {
    match v {
        TomlV::Table(t) => t,
        _ => Seq::empty(),
    }
}

/// Whether a setting is a list of the given texts.
pub open spec fn lists(v: Option<TomlV>, list: Seq<String>) -> bool {
    match v {
        Some(TomlV::Array(a)) => a.len() == list.len() && forall|i: int|
            0 <= i < a.len() ==> #[trigger] a[i] == TomlV::Str(list[i]@),
        _ => false,
    }
}

proof fn lemma_lists(list: Seq<String>)
    ensures
        lists(Some(values::texts_toml(text::views(list))), list),
{
}

proof fn lemma_skip(t: TableV)
    requires
        t.len() > 0,
    ensures
        t.skip(1).len() == t.len() - 1,
        forall|i: int| 0 <= i < t.len() - 1 ==> #[trigger] t.skip(1)[i] == t[i + 1],
{
}

/// A table whose keys differ has each value under its key.
pub proof fn lemma_own_value(t: TableV, i: int)
    requires
        0 <= i < t.len(),
        forall|k: int| 0 <= k < i ==> (#[trigger] t[k]).0 != t[i].0,
    ensures
        toml_doc::lookup(t, t[i].0) == Some(t[i].1),
    decreases t.len(),
{
    if i > 0 {
        lemma_skip(t);
        let rest = t.skip(1);
        assert(rest[i - 1] == t[i]);
        assert forall|k: int| 0 <= k < i - 1 implies (#[trigger] rest[k]).0 != rest[i - 1].0 by {
            assert(rest[k] == t[k + 1]);
        }
        lemma_own_value(rest, i - 1);
        assert(t[0].0 != t[i].0);
    }
}

/// A record is written with its name, its type, its data and its time to live, each under its own
/// key.
pub proof fn lemma_record_is_written(r: types::StaticRecordV)
    ensures
        ({
            let t = fields(values::record_toml(r));
            &&& toml_doc::lookup(t, "qname"@) == Some(TomlV::Str(r.qname))
            &&& toml_doc::lookup(t, "qtype"@) == Some(TomlV::Str(r.qtype))
            &&& toml_doc::lookup(t, "answer"@) == Some(TomlV::Str(r.answer))
            &&& toml_doc::lookup(t, "ttl"@) == Some(TomlV::Int(r.ttl as i64))
        }),
{
    reveal_strlit("qname");
    reveal_strlit("qtype");
    reveal_strlit("answer");
    reveal_strlit("ttl");
    assert("qname"@[1] == 'n' && "qtype"@[1] == 't');
    assert("qname"@.len() == 5 && "qtype"@.len() == 5 && "answer"@.len() == 6 && "ttl"@.len() == 3);
    let t = fields(values::record_toml(r));
    lemma_own_value(t, 0);
    lemma_own_value(t, 1);
    lemma_own_value(t, 2);
    lemma_own_value(t, 3);
}

/// A source is written with its name, its type, its place and its time to live, each under its own
/// key.
pub proof fn lemma_source_is_written(s: types::AuthoritativeSourceV)
    ensures
        ({
            let t = fields(values::source_toml(s));
            &&& toml_doc::lookup(t, "qname"@) == Some(TomlV::Str(s.qname))
            &&& toml_doc::lookup(t, "qtype"@) == Some(TomlV::Str(s.qtype))
            &&& toml_doc::lookup(t, "source"@) == Some(TomlV::Str(s.source))
            &&& toml_doc::lookup(t, "ttl"@) == Some(TomlV::Int(s.ttl as i64))
        }),
{
    reveal_strlit("qname");
    reveal_strlit("qtype");
    reveal_strlit("source");
    reveal_strlit("ttl");
    assert("qname"@[1] == 'n' && "qtype"@[1] == 't');
    assert("qname"@.len() == 5 && "qtype"@.len() == 5 && "source"@.len() == 6 && "ttl"@.len() == 3);
    let t = fields(values::source_toml(s));
    lemma_own_value(t, 0);
    lemma_own_value(t, 1);
    lemma_own_value(t, 2);
    lemma_own_value(t, 3);
}

/// Start-of-authority data is written with its two names and its five numbers, each under its own
/// key.
pub proof fn lemma_soa_is_written(s: types::ZoneSoaV)
    ensures
        ({
            let t = fields(values::soa_toml(s));
            &&& toml_doc::lookup(t, "mname"@) == Some(TomlV::Str(s.mname))
            &&& toml_doc::lookup(t, "rname"@) == Some(TomlV::Str(s.rname))
            &&& toml_doc::lookup(t, "serial"@) == Some(TomlV::Int(s.serial as i64))
            &&& toml_doc::lookup(t, "refresh"@) == Some(TomlV::Int(s.refresh as i64))
            &&& toml_doc::lookup(t, "retry"@) == Some(TomlV::Int(s.retry as i64))
            &&& toml_doc::lookup(t, "expire"@) == Some(TomlV::Int(s.expire as i64))
            &&& toml_doc::lookup(t, "minimum_ttl"@) == Some(TomlV::Int(s.minimum_ttl as i64))
        }),
{
    reveal_strlit("mname");
    reveal_strlit("rname");
    reveal_strlit("serial");
    reveal_strlit("refresh");
    reveal_strlit("retry");
    reveal_strlit("expire");
    reveal_strlit("minimum_ttl");
    assert("mname"@[0] == 'm' && "rname"@[0] == 'r' && "retry"@[0] == 'r' && "rname"@[1] == 'n'
        && "retry"@[1] == 'e' && "serial"@[0] == 's' && "expire"@[0] == 'e');
    assert("mname"@.len() == 5 && "rname"@.len() == 5 && "serial"@.len() == 6 && "refresh"@.len()
        == 7 && "retry"@.len() == 5 && "expire"@.len() == 6 && "minimum_ttl"@.len() == 11);
    let t = fields(values::soa_toml(s));
    lemma_own_value(t, 0);
    lemma_own_value(t, 1);
    lemma_own_value(t, 2);
    lemma_own_value(t, 3);
    lemma_own_value(t, 4);
    lemma_own_value(t, 5);
    lemma_own_value(t, 6);
}

/// Whether a setting is a list of the given records, one after the other.
pub open spec fn lists_records(v: Option<TomlV>, records: Seq<types::StaticRecordV>) -> bool {
    match v {
        Some(TomlV::Array(a)) => a.len() == records.len() && forall|i: int|
            0 <= i < a.len() ==> #[trigger] a[i] == values::record_toml(records[i]),
        _ => false,
    }
}

/// A zone is written with its name, its time to live, its records in their order, and with
/// start-of-authority data where it has any.
pub proof fn lemma_zone_is_written(z: types::AuthoritativeZoneV)
    ensures
        ({
            let t = fields(values::zone_toml(z));
            &&& toml_doc::lookup(t, "name"@) == Some(TomlV::Str(z.name))
            &&& toml_doc::lookup(t, "default_ttl"@) == Some(TomlV::Int(z.default_ttl as i64))
            &&& lists_records(toml_doc::lookup(t, "records"@), z.records)
            &&& z.soa is Some ==> toml_doc::lookup(t, "soa"@) == Some(values::soa_toml(z.soa->0))
            &&& z.soa is None ==> toml_doc::lookup(t, "soa"@) is None
            &&& views::view_name(values::zone_toml(z)) == Some(z.name)
        }),
{
    reveal_strlit("name");
    reveal_strlit("default_ttl");
    reveal_strlit("soa");
    reveal_strlit("records");
    assert("name"@.len() == 4 && "default_ttl"@.len() == 11 && "soa"@.len() == 3 && "records"@.len()
        == 7);
    let t = fields(values::zone_toml(z));
    lemma_own_value(t, 0);
    lemma_own_value(t, 1);
    lemma_own_value(t, 2);
    if z.soa is Some {
        lemma_own_value(t, 3);
    } else {
        assert(t.len() == 3);
        reveal_with_fuel(toml_doc::lookup, 4);
        lemma_skip(t);
        lemma_skip(t.skip(1));
        lemma_skip(t.skip(1).skip(1));
    }
}

/// Zones are written one after the other.
pub proof fn lemma_zones_are_written(list: Seq<types::AuthoritativeZoneV>, i: int)
    requires
        0 <= i < list.len(),
    ensures
        values::zones_toml(list) is Array,
        values::zones_toml(list)->Array_0.len() == list.len(),
        values::zones_toml(list)->Array_0[i] == values::zone_toml(list[i]),
{
}

/// A zone that is prepared at the start is written with its name, its servers and its time.
pub proof fn lemma_prewarm_is_written(z: types::PreWarmZoneV)
    ensures
        ({
            let t = fields(sections::prewarm_toml(z));
            &&& toml_doc::lookup(t, "zone"@) == Some(TomlV::Str(z.zone))
            &&& toml_doc::lookup(t, "ns_endpoints"@) == Some(values::texts_toml(z.ns_endpoints))
            &&& toml_doc::lookup(t, "ns_hostnames"@) == Some(values::texts_toml(z.ns_hostnames))
            &&& toml_doc::lookup(t, "ttl_secs"@) == Some(TomlV::Int(z.ttl_secs as i64))
        }),
{
    reveal_strlit("zone");
    reveal_strlit("ns_endpoints");
    reveal_strlit("ns_hostnames");
    reveal_strlit("ttl_secs");
    assert("ns_endpoints"@[3] == 'e' && "ns_hostnames"@[3] == 'h');
    assert("zone"@.len() == 4 && "ns_endpoints"@.len() == 12 && "ns_hostnames"@.len() == 12
        && "ttl_secs"@.len() == 8);
    let t = fields(sections::prewarm_toml(z));
    lemma_own_value(t, 0);
    lemma_own_value(t, 1);
    lemma_own_value(t, 2);
    lemma_own_value(t, 3);
}

/// The lengths of the names of the settings of a view, by which they differ.
proof fn lemma_view_keys()
    ensures
        "name"@.len() == 4,
        "summary"@.len() == 7,
        "query_mode"@.len() == 10,
        "client_cidrs"@.len() == 12,
        "static_records"@.len() == 14,
        "blocked_domains"@.len() == 15,
        "enable_recursion"@.len() == 16,
        "static_records_file"@.len() == 19,
        "blocked_domains_file"@.len() == 20,
        "view_static_cname_expand_for_address_queries"@.len() == 44,
        "view_authoritative_cname_expand_for_address_queries"@.len() == 51,
{
    reveal_strlit("name");
    reveal_strlit("summary");
    reveal_strlit("query_mode");
    reveal_strlit("client_cidrs");
    reveal_strlit("static_records");
    reveal_strlit("blocked_domains");
    reveal_strlit("enable_recursion");
    reveal_strlit("static_records_file");
    reveal_strlit("blocked_domains_file");
    reveal_strlit("view_static_cname_expand_for_address_queries");
    reveal_strlit("view_authoritative_cname_expand_for_address_queries");
}

/// What a key of the heading has.
proof fn lemma_heading(t: TableV, req: ViewUpsertRequest, k: Seq<char>)
    ensures
        ({
            let v = views::with_heading(t, req);
            &&& k == "client_cidrs"@ ==> toml_doc::lookup(v, k) == Some(
                values::texts_toml(text::views(req.client_cidrs@)),
            )
            &&& k == "query_mode"@ ==> toml_doc::lookup(v, k) == Some(
                TomlV::Str(views::mode_text(req)),
            )
            &&& k == "summary"@ && views::summary_text(req).len() > 0 ==> toml_doc::lookup(v, k)
                == Some(TomlV::Str(views::summary_text(req)))
            &&& k != "client_cidrs"@ && k != "query_mode"@ && k != "summary"@ && k != "name"@
                ==> toml_doc::lookup(v, k) == toml_doc::lookup(t, k)
        }),
{
    lemma_view_keys();
    let name = TomlV::Str(views::target_name(req));
    let named = toml_doc::with_entry(t, "name"@, name);
    toml_doc::lemma_with_entry(t, "name"@, name, k);
    let summary = TomlV::Str(views::summary_text(req));
    let summarized = if views::summary_text(req).len() == 0 {
        toml_doc::without_entry(named, "summary"@)
    } else {
        toml_doc::with_entry(named, "summary"@, summary)
    };
    if k != "summary"@ {
        laws::lemma_without_other(named, "summary"@, k);
    }
    toml_doc::lemma_with_entry(named, "summary"@, summary, k);
    let mode = TomlV::Str(views::mode_text(req));
    toml_doc::lemma_with_entry(summarized, "query_mode"@, mode, k);
    toml_doc::lemma_with_entry(
        toml_doc::with_entry(summarized, "query_mode"@, mode),
        "client_cidrs"@,
        values::texts_toml(text::views(req.client_cidrs@)),
        k,
    );
}

/// What a key of the data has.
proof fn lemma_data(t: TableV, req: ViewUpsertRequest, k: Seq<char>)
    ensures
        ({
            let v = views::with_data(t, req);
            &&& k == "enable_recursion"@ ==> toml_doc::lookup(v, k) == Some(
                TomlV::Bool(req.enable_recursion),
            )
            &&& k == "static_records"@ && !views::has_file(t, "static_records_file"@)
                ==> toml_doc::lookup(v, k) == Some(
                values::records_toml(types::record_views(req.static_records@)),
            )
            &&& k == "blocked_domains"@ && !views::has_file(t, "blocked_domains_file"@)
                ==> toml_doc::lookup(v, k) == Some(
                values::texts_toml(text::views(req.blocked_domains@)),
            )
            &&& k != "enable_recursion"@ && k != "static_records"@ && k != "blocked_domains"@
                ==> toml_doc::lookup(v, k) == toml_doc::lookup(t, k)
        }),
{
    lemma_view_keys();
    let records = values::records_toml(types::record_views(req.static_records@));
    let recorded = if views::has_file(t, "static_records_file"@) {
        toml_doc::without_entry(t, "static_records"@)
    } else {
        toml_doc::with_entry(t, "static_records"@, records)
    };
    laws::lemma_without_other(t, "static_records"@, "blocked_domains_file"@);
    toml_doc::lemma_with_entry(t, "static_records"@, records, "blocked_domains_file"@);
    if k != "static_records"@ {
        laws::lemma_without_other(t, "static_records"@, k);
    }
    toml_doc::lemma_with_entry(t, "static_records"@, records, k);
    let domains = values::texts_toml(text::views(req.blocked_domains@));
    let blocked = if views::has_file(recorded, "blocked_domains_file"@) {
        toml_doc::without_entry(recorded, "blocked_domains"@)
    } else {
        toml_doc::with_entry(recorded, "blocked_domains"@, domains)
    };
    if k != "blocked_domains"@ {
        laws::lemma_without_other(recorded, "blocked_domains"@, k);
    }
    toml_doc::lemma_with_entry(recorded, "blocked_domains"@, domains, k);
    toml_doc::lemma_with_entry(
        blocked,
        "enable_recursion"@,
        TomlV::Bool(req.enable_recursion),
        k,
    );
}

/// What a key has after the switches are written.
proof fn lemma_switches(t: TableV, req: ViewUpsertRequest, k: Seq<char>)
    ensures
        ({
            let v = views::with_switches(t, req);
            let a = req.view_static_cname_expand_for_address_queries;
            let b = req.view_authoritative_cname_expand_for_address_queries;
            &&& k == "view_static_cname_expand_for_address_queries"@ && a is Some
                ==> toml_doc::lookup(v, k) == Some(TomlV::Bool(a->0))
            &&& k == "view_authoritative_cname_expand_for_address_queries"@ && b is Some
                ==> toml_doc::lookup(v, k) == Some(TomlV::Bool(b->0))
            &&& (k != "view_static_cname_expand_for_address_queries"@ || a is None) && (k
                != "view_authoritative_cname_expand_for_address_queries"@ || b is None)
                ==> toml_doc::lookup(v, k) == toml_doc::lookup(t, k)
        }),
{
    lemma_view_keys();
    let a = req.view_static_cname_expand_for_address_queries;
    let b = req.view_authoritative_cname_expand_for_address_queries;
    let first = views::with_switch(t, "view_static_cname_expand_for_address_queries"@, a);
    if let Some(x) = a {
        toml_doc::lemma_with_entry(
            t,
            "view_static_cname_expand_for_address_queries"@,
            TomlV::Bool(x),
            k,
        );
    }
    if let Some(x) = b {
        toml_doc::lemma_with_entry(
            first,
            "view_authoritative_cname_expand_for_address_queries"@,
            TomlV::Bool(x),
            k,
        );
    }
}

/// The view that a request makes has what the request says: its mode, or the fallback where it
/// names none, its clients, its recursion, its summary where there is one, and the switches that
/// are given. Records and blocked domains are its own where it keeps them in no file.
pub proof fn lemma_view_is_as_requested(t: TableV, req: ViewUpsertRequest)
    ensures
        ({
            let v = views::changed_view(t, req);
            let mode = text::trim(req.query_mode@);
            let a = req.view_static_cname_expand_for_address_queries;
            let b = req.view_authoritative_cname_expand_for_address_queries;
            &&& toml_doc::lookup(v, "query_mode"@) == Some(
                TomlV::Str(
                    if mode.len() == 0 {
                        "global_fallback"@
                    } else {
                        mode
                    },
                ),
            )
            &&& lists(toml_doc::lookup(v, "client_cidrs"@), req.client_cidrs@)
            &&& toml_doc::lookup(v, "enable_recursion"@) == Some(TomlV::Bool(req.enable_recursion))
            &&& req.summary is Some && text::trim(req.summary->0@).len() > 0 ==> toml_doc::lookup(
                v,
                "summary"@,
            ) == Some(TomlV::Str(text::trim(req.summary->0@)))
            &&& toml_doc::lookup(t, "static_records_file"@) is None ==> lists_records(
                toml_doc::lookup(v, "static_records"@),
                types::record_views(req.static_records@),
            )
            &&& toml_doc::lookup(t, "blocked_domains_file"@) is None ==> lists(
                toml_doc::lookup(v, "blocked_domains"@),
                req.blocked_domains@,
            )
            &&& toml_doc::lookup(v, "view_static_cname_expand_for_address_queries"@) == (match a {
                Some(x) => Some(TomlV::Bool(x)),
                None => toml_doc::lookup(t, "view_static_cname_expand_for_address_queries"@),
            })
            &&& toml_doc::lookup(v, "view_authoritative_cname_expand_for_address_queries"@) == (
            match b {
                Some(x) => Some(TomlV::Bool(x)),
                None => toml_doc::lookup(t, "view_authoritative_cname_expand_for_address_queries"@),
            })
        }),
{
    lemma_view_keys();
    lemma_lists(req.client_cidrs@);
    lemma_lists(req.blocked_domains@);
    lemma_at(t, req, "query_mode"@);
    lemma_at(t, req, "client_cidrs"@);
    lemma_at(t, req, "enable_recursion"@);
    lemma_at(t, req, "summary"@);
    lemma_at(t, req, "static_records"@);
    lemma_at(t, req, "blocked_domains"@);
    lemma_at(t, req, "view_static_cname_expand_for_address_queries"@);
    lemma_at(t, req, "view_authoritative_cname_expand_for_address_queries"@);
}

proof fn lemma_at(t: TableV, req: ViewUpsertRequest, k: Seq<char>)
    ensures
        ({
            let h = views::with_heading(t, req);
            let d = views::with_data(h, req);
            let v = views::changed_view(t, req);
            &&& (k == "query_mode"@ || k == "client_cidrs"@ || k == "summary"@) ==> toml_doc::lookup(
                v,
                k,
            ) == toml_doc::lookup(h, k)
            &&& (k == "enable_recursion"@ || k == "static_records"@ || k == "blocked_domains"@)
                ==> toml_doc::lookup(v, k) == toml_doc::lookup(d, k)
            &&& k == "query_mode"@ ==> toml_doc::lookup(h, k) == Some(
                TomlV::Str(views::mode_text(req)),
            )
            &&& k == "client_cidrs"@ ==> toml_doc::lookup(h, k) == Some(
                values::texts_toml(text::views(req.client_cidrs@)),
            )
            &&& k == "summary"@ && views::summary_text(req).len() > 0 ==> toml_doc::lookup(h, k)
                == Some(TomlV::Str(views::summary_text(req)))
            &&& k == "enable_recursion"@ ==> toml_doc::lookup(d, k) == Some(
                TomlV::Bool(req.enable_recursion),
            )
            &&& k == "static_records"@ && !views::has_file(t, "static_records_file"@)
                ==> toml_doc::lookup(d, k) == Some(
                values::records_toml(types::record_views(req.static_records@)),
            )
            &&& k == "blocked_domains"@ && !views::has_file(t, "blocked_domains_file"@)
                ==> toml_doc::lookup(d, k) == Some(
                values::texts_toml(text::views(req.blocked_domains@)),
            )
            &&& k == "view_static_cname_expand_for_address_queries"@ ==> toml_doc::lookup(v, k) == (
            match req.view_static_cname_expand_for_address_queries {
                Some(x) => Some(TomlV::Bool(x)),
                None => toml_doc::lookup(t, k),
            })
            &&& k == "view_authoritative_cname_expand_for_address_queries"@ ==> toml_doc::lookup(
                v,
                k,
            ) == (match req.view_authoritative_cname_expand_for_address_queries {
                Some(x) => Some(TomlV::Bool(x)),
                None => toml_doc::lookup(t, k),
            })
        }),
{
    lemma_view_keys();
    let h = views::with_heading(t, req);
    lemma_heading(t, req, k);
    lemma_heading(t, req, "static_records_file"@);
    lemma_heading(t, req, "blocked_domains_file"@);
    lemma_data(h, req, k);
    lemma_switches(views::with_data(h, req), req, k);
}

/// A view that keeps its records in a file keeps that file, and so with blocked domains; every
/// setting that no request speaks of is as it was.
pub proof fn lemma_view_keeps_the_rest(t: TableV, req: ViewUpsertRequest, k: Seq<char>)
    requires
        k != "name"@,
        k != "summary"@,
        k != "query_mode"@,
        k != "client_cidrs"@,
        k != "static_records"@,
        k != "blocked_domains"@,
        k != "enable_recursion"@,
        k != "view_static_cname_expand_for_address_queries"@,
        k != "view_authoritative_cname_expand_for_address_queries"@,
    ensures
        toml_doc::lookup(views::changed_view(t, req), k) == toml_doc::lookup(t, k),
{
    let h = views::with_heading(t, req);
    lemma_heading(t, req, k);
    lemma_data(h, req, k);
    lemma_switches(views::with_data(h, req), req, k);
}

/// Whether an item of the list of views has a name, but for case and white space round it.
pub open spec fn is_called(v: TomlV, name: Seq<char>) -> bool {
    match views::view_name(v) {
        Some(s) => text::lower(text::trim(s)) == text::lower(name),
        None => false,
    }
}

/// Where a name stands first in the list of views.
pub proof fn lemma_first_called(list: Seq<TomlV>, name: Seq<char>)
    ensures
        ({
            let i = views::trimmed_index(list, name);
            &&& 0 <= i <= list.len()
            &&& i < list.len() ==> is_called(list[i], name)
            &&& forall|k: int| 0 <= k < i ==> !is_called(#[trigger] list[k], name)
        }),
    decreases list.len(),
{
    if list.len() > 0 && !views::has_trimmed_name(list[0], name) {
        lemma_first_called(list.skip(1), name);
        let i = views::trimmed_index(list, name);
        assert forall|k: int| 0 <= k < i implies !is_called(#[trigger] list[k], name) by {
            if k > 0 {
                assert(list.skip(1)[k - 1] == list[k]);
            }
        }
    }
}

/// A view under a name that no view has is put at the end; one that is to be renamed must be
/// there, and its new name must not stand before it; any other is changed in its place.
pub proof fn lemma_view_goes_to_its_place(list: Seq<TomlV>, req: ViewUpsertRequest)
    ensures
        ({
            let name = text::trim(req.name@);
            let r = views::upserted_views(list, req);
            let unknown = forall|i: int|
                0 <= i < list.len() ==> !is_called(#[trigger] list[i], views::lookup_name(req));
            &&& req.previous_name is None ==> r is Ok
            &&& req.previous_name is None && unknown ==> r->Ok_0.len() == list.len() + 1
                && r->Ok_0.drop_last() == list
            &&& req.previous_name is None && !unknown ==> r->Ok_0.len() == list.len()
            &&& req.previous_name is Some && unknown && (forall|i: int|
                0 <= i < list.len() ==> !is_called(#[trigger] list[i], name)) ==> r == Err::<
                Seq<TomlV>,
                AdminError,
            >(AdminError::PreviousNameNotFound)
            &&& req.previous_name is Some && unknown ==> r is Err
            &&& req.previous_name is Some && r is Ok ==> r->Ok_0.len() == list.len()
        }),
        req.previous_name is None ==> views::lookup_name(req) == text::trim(req.name@),
        req.previous_name is Some ==> views::lookup_name(req) == text::trim(
            req.previous_name->0@,
        ),
{
    let looked = views::lookup_name(req);
    lemma_first_called(list, looked);
    let i = views::trimmed_index(list, looked);
    if req.previous_name is None && views::name_taken(list, req) {
        let k = choose|k: int|
            0 <= k < i && views::has_trimmed_name(#[trigger] list[k], views::target_name(req));
        assert(is_called(list[k], looked));
    }
    if views::name_taken(list, req) {
        let k = choose|k: int|
            0 <= k < i && views::has_trimmed_name(#[trigger] list[k], views::target_name(req));
        assert(is_called(list[k], text::trim(req.name@)));
    }
    if i == list.len() && req.previous_name is None {
        assert(views::upserted_views(list, req)->Ok_0.drop_last() =~= list);
    }
}

/// A view is renamed only to a name that no view before it has.
pub proof fn lemma_names_do_not_collide(list: Seq<TomlV>, req: ViewUpsertRequest, k: int)
    requires
        0 <= k < views::trimmed_index(list, views::lookup_name(req)),
        is_called(list[k], text::trim(req.name@)),
    ensures
        views::upserted_views(list, req) == Err::<Seq<TomlV>, AdminError>(
            AdminError::ViewNameTaken,
        ),
{
    assert(views::has_trimmed_name(list[k], views::target_name(req)));
}

/// A name of nothing but white space is refused, and so is giving the name of the default view to
/// another or another to it.
pub proof fn lemma_refused_names(req: ViewUpsertRequest)
    ensures
        text::trim(req.name@).len() == 0 ==> views::name_error(req) == Some(
            AdminError::ViewNameRequired,
        ),
        req.previous_name is Some && text::trim(req.previous_name->0@).len() == 0
            ==> views::name_error(req) is Some,
        req.previous_name is None && text::trim(req.name@).len() > 0 ==> views::name_error(req)
            is None,
        req.previous_name is Some && text::lower(text::trim(req.previous_name->0@)) != text::lower(
            "default"@,
        ) && text::lower(text::trim(req.name@)) == text::lower("default"@) ==> views::name_error(
            req,
        ) is Some,
        req.previous_name is Some && text::lower(text::trim(req.previous_name->0@)) == text::lower(
            "default"@,
        ) && text::lower(text::trim(req.name@)) != text::lower("default"@) ==> views::name_error(
            req,
        ) is Some,
{
}

/// The default view cannot be deleted, nor can one without a name.
pub proof fn lemma_default_view_stays(raw: Seq<char>, name: Seq<char>)
    ensures
        text::trim(name).len() > 0 && text::lower(text::trim(name)) == text::lower("default"@)
            ==> views::view_deleted_raw(raw, name) == Err::<(Seq<char>, bool), AdminError>(
            AdminError::DefaultViewUndeletable,
        ),
        text::trim(name).len() == 0 ==> views::view_deleted_raw(raw, name) == Err::<
            (Seq<char>, bool),
            AdminError,
        >(AdminError::ViewNameRequired),
{
}

/// A list keeps its length under a filter exactly where nothing is dropped.
proof fn lemma_filtered(list: Seq<TomlV>, f: spec_fn(TomlV) -> bool)
    ensures
        list.filter(f).len() <= list.len(),
        list.filter(f).len() == list.len() <==> forall|i: int|
            0 <= i < list.len() ==> f(#[trigger] list[i]),
    decreases list.len(),
{
    reveal(Seq::filter);
    if list.len() > 0 {
        let rest = list.drop_last();
        lemma_filtered(rest, f);
        if list.filter(f).len() == list.len() {
            assert forall|i: int| 0 <= i < list.len() implies f(#[trigger] list[i]) by {
                if i < list.len() - 1 {
                    assert(rest[i] == list[i]);
                }
            }
        }
        if forall|i: int| 0 <= i < list.len() ==> f(#[trigger] list[i]) {
            assert forall|i: int| 0 <= i < rest.len() implies f(#[trigger] rest[i]) by {
                assert(rest[i] == list[i]);
            }
            assert(f(list[list.len() - 1]));
        }
    }
}

/// A view counts as deleted exactly where there was one of its name.
pub proof fn lemma_deleted_where_it_was(t: TableV, list: Seq<TomlV>, name: Seq<char>)
    requires
        toml_doc::lookup(t, "views"@) == Some(TomlV::Array(list)),
    ensures
        views::view_deleted(t, name) is Ok,
        views::view_deleted(t, name)->Ok_0.1 <==> exists|i: int|
            0 <= i < list.len() && is_called(#[trigger] list[i], name),
{
    let f = |v: TomlV| !views::has_trimmed_name(v, name);
    lemma_filtered(list, f);
    if views::view_deleted(t, name)->Ok_0.1 {
        let i = choose|i: int| 0 <= i < list.len() && !f(#[trigger] list[i]);
        assert(is_called(list[i], name));
    }
    if exists|i: int| 0 <= i < list.len() && is_called(#[trigger] list[i], name) {
        let i = choose|i: int| 0 <= i < list.len() && is_called(#[trigger] list[i], name);
        assert(!f(list[i]));
    }
}

/// Whether an item of a list has a name, but for case.
pub open spec fn is_named(v: TomlV, name: Seq<char>) -> bool {
    match views::view_name(v) {
        Some(s) => text::lower(s) == text::lower(name),
        None => false,
    }
}

/// Where a name stands first in a list.
pub proof fn lemma_first_named(list: Seq<TomlV>, name: Seq<char>)
    ensures
        ({
            let i = paths::named_index(list, name);
            &&& 0 <= i <= list.len()
            &&& i < list.len() ==> is_named(list[i], name)
            &&& forall|k: int| 0 <= k < i ==> !is_named(#[trigger] list[k], name)
        }),
    decreases list.len(),
{
    if list.len() > 0 && !views::has_name(list[0], name) {
        lemma_first_named(list.skip(1), name);
        let i = paths::named_index(list, name);
        assert forall|k: int| 0 <= k < i implies !is_named(#[trigger] list[k], name) by {
            if k > 0 {
                assert(list.skip(1)[k - 1] == list[k]);
            }
        }
    }
}

/// A zone counts as deleted exactly where there was one of its name; where the configuration has
/// no zones it is left as it was.
pub proof fn lemma_zone_deleted_where_it_was(t: TableV, list: Seq<TomlV>, name: Seq<char>)
    ensures
        toml_doc::lookup(t, "authoritative_zones"@) == Some(TomlV::Array(list)) ==> {
            &&& zone_tables::zone_deleted(t, name) is Ok
            &&& zone_tables::zone_deleted(t, name)->Ok_0.1 <==> exists|i: int|
                0 <= i < list.len() && is_named(#[trigger] list[i], name)
        },
        toml_doc::lookup(t, "authoritative_zones"@) is None ==> zone_tables::zone_deleted(t, name)
            == Ok::<(TableV, bool), AdminError>((t, false)),
{
    let f = |v: TomlV| !views::has_name(v, name);
    lemma_filtered(list, f);
    if exists|i: int| 0 <= i < list.len() && is_named(#[trigger] list[i], name) {
        let i = choose|i: int| 0 <= i < list.len() && is_named(#[trigger] list[i], name);
        assert(!f(list[i]));
    }
    if exists|i: int| 0 <= i < list.len() && !f(#[trigger] list[i]) {
        let i = choose|i: int| 0 <= i < list.len() && !f(#[trigger] list[i]);
        assert(is_named(list[i], name));
    }
}

/// A zone that is written stands in the place of the first of its name, and at the end where there
/// is none; no other is moved.
pub proof fn lemma_zone_goes_to_its_place(list: Seq<TomlV>, z: types::AuthoritativeZoneV, k: int)
    ensures
        ({
            let new = zone_tables::zones_with(list, z);
            &&& new.contains(values::zone_toml(z))
            &&& 0 <= k < list.len() && is_named(list[k], z.name) && (forall|i: int|
                0 <= i < k ==> !is_named(#[trigger] list[i], z.name)) ==> new == list.update(
                k,
                values::zone_toml(z),
            )
            &&& (forall|i: int| 0 <= i < list.len() ==> !is_named(#[trigger] list[i], z.name))
                ==> new == list.push(values::zone_toml(z))
        }),
{
    lemma_first_named(list, z.name);
    let i = paths::named_index(list, z.name);
    let new = zone_tables::zones_with(list, z);
    assert(new[i] == values::zone_toml(z));
    if 0 <= k < list.len() && is_named(list[k], z.name) {
        assert(i <= k);
    }
}

/// Start-of-authority data is written into the first zone of the name and counts exactly where
/// there is one; the zone keeps everything else, and so do the others. Data that is no object
/// changes nothing.
pub proof fn lemma_soa_goes_to_its_zone(
    t: TableV,
    list: Seq<TomlV>,
    name: Seq<char>,
    payload: json_doc::JsonV,
    key: Seq<char>,
)
    requires
        toml_doc::lookup(t, "authoritative_zones"@) == Some(TomlV::Array(list)),
    ensures
        ({
            let r = zone_tables::soa_updated(t, name, payload);
            let new = zone_tables::zones_of(r->Ok_0.0)->Ok_0;
            let i = paths::named_index(list, name);
            &&& r is Ok
            &&& !(payload is Object) ==> !r->Ok_0.1 && new == list
            &&& payload is Object ==> (r->Ok_0.1 <==> exists|k: int|
                0 <= k < list.len() && is_named(#[trigger] list[k], name))
            &&& payload is Object && r->Ok_0.1 ==> {
                &&& new.len() == list.len()
                &&& toml_doc::lookup(fields(new[i]), "soa"@) == Some(
                    TomlV::Table(zone_tables::soa_entries(payload->Object_0)),
                )
                &&& list[i] is Table && key != "soa"@ ==> toml_doc::lookup(fields(new[i]), key)
                    == toml_doc::lookup(fields(list[i]), key)
                &&& forall|k: int| 0 <= k < list.len() && k != i ==> #[trigger] new[k] == list[k]
            }
        }),
{
    lemma_first_named(list, name);
    let i = paths::named_index(list, name);
    let r = zone_tables::soa_updated(t, name, payload);
    if payload is Object {
        let soa = zone_tables::soa_entries(payload->Object_0);
        let items = zone_tables::items_with_soa(list, name, soa);
        laws::lemma_zones_round_trip(t, items, key);
        if i < list.len() {
            assert(is_named(list[i], name));
            toml_doc::lemma_with_entry(list[i]->Table_0, "soa"@, TomlV::Table(soa), key);
        }
    } else {
        laws::lemma_zones_round_trip(t, list, key);
    }
}

/// What is written into a view is what is read from it: its zones come back, and every other
/// setting of the configuration is as it was.
pub proof fn lemma_replaced_zones_come_back(
    t: TableV,
    list: Seq<TomlV>,
    view: Seq<char>,
    zones: Seq<types::AuthoritativeZoneV>,
    key: Seq<char>,
)
    requires
        toml_doc::lookup(t, "views"@) == Some(TomlV::Array(list)),
        exists|k: int| 0 <= k < list.len() && is_named(#[trigger] list[k], view),
    ensures
        ({
            let r = zone_tables::zones_replaced(t, view, zones);
            &&& r is Ok
            &&& zone_tables::inline_zones(r->Ok_0, view) == Ok::<Option<TomlV>, AdminError>(
                Some(values::zones_toml(zones)),
            )
            &&& key != "views"@ ==> toml_doc::lookup(r->Ok_0, key) == toml_doc::lookup(t, key)
        }),
{
    reveal_strlit("name");
    reveal_strlit("authoritative_zones");
    assert("name"@.len() == 4 && "authoritative_zones"@.len() == 19);
    lemma_first_named(list, view);
    let i = paths::named_index(list, view);
    let k = choose|k: int| 0 <= k < list.len() && is_named(#[trigger] list[k], view);
    assert(i <= k);
    let z = values::zones_toml(zones);
    let item = toml_doc::with_entry(list[i]->Table_0, "authoritative_zones"@, z);
    let new = list.update(i, TomlV::Table(item));
    laws::lemma_views_round_trip(t, new, key);
    toml_doc::lemma_with_entry(list[i]->Table_0, "authoritative_zones"@, z, "name"@);
    assert(is_named(new[i], view));
    lemma_first_named(new, view);
    let j = paths::named_index(new, view);
    assert(j <= i);
    if j < i {
        assert(new[j] == list[j]);
    }
}

/// A new view is told the places of its data below its own directory; it has no clients yet, the
/// fallback mode and recursion.
pub proof fn lemma_bare_view(view: Seq<char>)
    ensures
        ({
            let t = paths::bare_view(view);
            &&& toml_doc::lookup(t, "name"@) == Some(TomlV::Str(view))
            &&& toml_doc::lookup(t, "static_records_file"@) == Some(
                TomlV::Str("config/"@ + paths::directory_name(view) + "/static_records.toml"@),
            )
            &&& toml_doc::lookup(t, "blocked_domains_file"@) == Some(
                TomlV::Str("config/"@ + paths::directory_name(view) + "/blocked_domains.toml"@),
            )
            &&& toml_doc::lookup(t, "authoritative_zones_dir"@) == Some(
                TomlV::Str("config/"@ + paths::directory_name(view)),
            )
            &&& toml_doc::lookup(t, "client_cidrs"@) == Some(TomlV::Array(Seq::empty()))
            &&& toml_doc::lookup(t, "query_mode"@) == Some(TomlV::Str("global_fallback"@))
            &&& toml_doc::lookup(t, "enable_recursion"@) == Some(TomlV::Bool(true))
        }),
{
    lemma_view_keys();
    reveal_strlit("authoritative_zones_dir");
    assert("authoritative_zones_dir"@.len() == 23);
    let t = paths::bare_view(view);
    lemma_own_value(t, 0);
    lemma_own_value(t, 1);
    lemma_own_value(t, 2);
    lemma_own_value(t, 3);
    lemma_own_value(t, 4);
    lemma_own_value(t, 5);
    lemma_own_value(t, 6);
}

/// A request on a view changes the list of views and no other setting; where the views are no list
/// it is refused.
pub proof fn lemma_upserted_config(t: TableV, req: ViewUpsertRequest, key: Seq<char>)
    ensures
        ({
            let r = views::upserted(t, req);
            let before = match toml_doc::lookup(t, "views"@) {
                Some(TomlV::Array(a)) => a,
                _ => Seq::empty(),
            };
            &&& toml_doc::lookup(t, "views"@) is Some && !(toml_doc::lookup(t, "views"@)->0 is Array)
                ==> r == Err::<TableV, AdminError>(AdminError::ViewsNotArray)
            &&& r is Ok ==> {
                &&& toml_doc::lookup(r->Ok_0, "views"@) == Some(
                    TomlV::Array(views::upserted_views(before, req)->Ok_0),
                )
                &&& key != "views"@ ==> toml_doc::lookup(r->Ok_0, key) == toml_doc::lookup(t, key)
            }
            &&& (toml_doc::lookup(t, "views"@) is None || toml_doc::lookup(t, "views"@)->0 is Array)
                ==> (r is Ok <==> views::upserted_views(before, req) is Ok)
        }),
{
    let r = views::upserted(t, req);
    if r is Ok {
        let list = views::views_of(t)->Ok_0;
        let new = views::upserted_views(list, req)->Ok_0;
        toml_doc::lemma_with_entry(t, "views"@, TomlV::Array(new), key);
    }
}

/// Giving a view the places of its data changes the list of views and no other setting.
pub proof fn lemma_placed_config(t: TableV, view: Seq<char>, key: Seq<char>)
    ensures
        ({
            let r = paths::placed(t, view);
            let before = match toml_doc::lookup(t, "views"@) {
                Some(TomlV::Array(a)) => a,
                _ => Seq::empty(),
            };
            &&& r is Ok <==> toml_doc::lookup(t, "views"@) is None || toml_doc::lookup(
                t,
                "views"@,
            )->0 is Array
            &&& r is Ok ==> toml_doc::lookup(r->Ok_0, "views"@) == Some(
                TomlV::Array(paths::placed_views(before, view)),
            )
            &&& r is Ok && key != "views"@ ==> toml_doc::lookup(r->Ok_0, key) == toml_doc::lookup(
                t,
                key,
            )
        }),
{
    let r = paths::placed(t, view);
    if r is Ok {
        let list = views::views_of(t)->Ok_0;
        toml_doc::lemma_with_entry(
            t,
            "views"@,
            TomlV::Array(paths::placed_views(list, view)),
            key,
        );
    }
}

/// A configuration file that is no TOML, or whose top is no table, is left alone by every request
/// that would change it.
pub proof fn lemma_broken_files_are_left(
    raw: Seq<char>,
    req: ViewUpsertRequest,
    name: Seq<char>,
    z: types::AuthoritativeZoneV,
    payload: json_doc::JsonV,
    s: ConfigSectionsPayload,
)
    requires
        views::name_error(req) is None,
    ensures
        ({
            let e = if toml_doc::toml_document(raw) is None {
                AdminError::InvalidToml
            } else {
                AdminError::RootNotTable
            };
            toml_doc::toml_document(raw) is None || !(toml_doc::toml_document(raw)->0 is Table) ==> {
                &&& views::upserted_raw(raw, req) == Err::<Seq<char>, AdminError>(e)
                &&& paths::placed_raw(raw, name) == Err::<Seq<char>, AdminError>(e)
                &&& zone_tables::zone_upserted(raw, z) == Err::<Seq<char>, AdminError>(e)
                &&& zone_tables::zone_deleted_raw(raw, name) == Err::<(Seq<char>, bool), AdminError>(
                    e,
                )
                &&& zone_tables::soa_updated_raw(raw, name, payload) == Err::<
                    (Seq<char>, bool),
                    AdminError,
                >(e)
                &&& zone_tables::inline_zones_raw(raw, name) == Err::<
                    Option<Seq<char>>,
                    AdminError,
                >(e)
                &&& zone_tables::zones_replaced_raw(raw, name, seq![z]) == Err::<
                    Seq<char>,
                    AdminError,
                >(e)
                &&& sections::updated_config(raw, s) == Err::<Seq<char>, AdminError>(e)
            }
        }),
{
}

/// What a request writes is the changed table as a document, and it says whether it met what it
/// was to change.
pub proof fn lemma_changed_files(
    raw: Seq<char>,
    t: TableV,
    list: Seq<TomlV>,
    name: Seq<char>,
    z: types::AuthoritativeZoneV,
)
    requires
        toml_doc::toml_document(raw) == Some(TomlV::Table(t)),
        toml_doc::lookup(t, "authoritative_zones"@) == Some(TomlV::Array(list)),
    ensures
        ({
            let new = toml_doc::with_entry(
                t,
                "authoritative_zones"@,
                TomlV::Array(zone_tables::zones_with(list, z)),
            );
            let left = toml_doc::with_entry(
                t,
                "authoritative_zones"@,
                TomlV::Array(zone_tables::items_without(list, name)),
            );
            let r = zone_tables::zone_deleted_raw(raw, name);
            &&& zone_tables::zone_upserted(raw, z) == (match toml_doc::toml_pretty(
                TomlV::Table(new),
            ) {
                Some(s) => Ok::<Seq<char>, AdminError>(s),
                None => Err::<Seq<char>, AdminError>(AdminError::UnwritableToml),
            })
            &&& r is Ok ==> toml_doc::toml_pretty(TomlV::Table(left)) == Some((r->Ok_0).0)
            &&& r is Ok ==> ((r->Ok_0).1 <==> exists|i: int|
                0 <= i < list.len() && is_named(#[trigger] list[i], name))
        }),
{
    lemma_zone_deleted_where_it_was(t, list, name);
}

/// A text and what ends it.
proof fn lemma_ends(a: Seq<char>, b: Seq<char>)
    ensures
        (a + b).len() >= b.len(),
        (a + b).skip((a + b).len() - b.len()) == b,
{
    assert((a + b).skip((a + b).len() - b.len()) =~= b);
}

/// Whether a text ends with another.
pub open spec fn ends_with(s: Seq<char>, part: Seq<char>) -> bool {
    s.len() >= part.len() && s.skip(s.len() - part.len()) == part
}

/// What is said of a change names the view or the zone that was changed.
pub proof fn lemma_changes_are_named(view: Seq<char>, zone: Seq<char>)
    ensures
        ends_with(plans::change_text(Change::ViewUpserted, view, zone), view),
        ends_with(plans::change_text(Change::ViewDeleted, view, zone), view),
        ends_with(plans::change_text(Change::ViewDataUpdated, view, zone), view),
        ends_with(plans::change_text(Change::ViewZoneUpserted, view, zone), view + "/"@ + zone),
        ends_with(plans::change_text(Change::ViewZoneDeleted, view, zone), view + "/"@ + zone),
        ends_with(plans::change_text(Change::ViewZoneSoaUpdated, view, zone), view + "/"@ + zone),
        ends_with(plans::change_text(Change::ZoneUpserted, view, zone), zone),
        ends_with(plans::change_text(Change::ZoneDeleted, view, zone), zone),
        ends_with(plans::change_text(Change::ZoneSoaUpdated, view, zone), zone),
{
    lemma_ends("view upserted: "@, view);
    lemma_ends("view deleted: "@, view);
    lemma_ends("view data updated: "@, view);
    let both = view + "/"@ + zone;
    lemma_ends("view authoritative zone upserted: "@, both);
    assert("view authoritative zone upserted: "@ + view + "/"@ + zone
        =~= "view authoritative zone upserted: "@ + both);
    lemma_ends("view authoritative zone deleted: "@, both);
    assert("view authoritative zone deleted: "@ + view + "/"@ + zone
        =~= "view authoritative zone deleted: "@ + both);
    lemma_ends("view authoritative zone SOA updated: "@, both);
    assert("view authoritative zone SOA updated: "@ + view + "/"@ + zone
        =~= "view authoritative zone SOA updated: "@ + both);
    lemma_ends("authoritative zone upserted: "@, zone);
    lemma_ends("authoritative zone deleted: "@, zone);
    lemma_ends("authoritative zone SOA updated: "@, zone);
}

/// The file of a zone has the name of the zone, without white space and final dots, and the
/// extension of TOML.
pub proof fn lemma_zone_file_name(zone: Seq<char>)
    ensures
        ends_with(zones::zone_file(zone), ".toml"@),
        text::plain_name(zone).len() > 0 ==> zones::zone_file(zone) == text::plain_name(zone)
            + ".toml"@,
        zones::zone_file(zone).len() > 5,
{
    reveal_strlit("zone.toml");
    reveal_strlit(".toml");
    lemma_ends(text::plain_name(zone), ".toml"@);
    assert("zone.toml"@.skip(4) =~= ".toml"@);
}

} // verus!
