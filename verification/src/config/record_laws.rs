//! What holds of the rules on records, zones and views.
use crate::codec::respond;
use crate::config::laws;
use crate::config::records;
use crate::config::rules;
use crate::config::types;
use crate::config::types::{AuthoritativeSource, DnsView, ViewRecord};
use crate::config::validate;
use crate::ip;
use crate::text;
use crate::text_laws;
use vstd::prelude::*;

verus! {

proof fn lemma_first_space(s: Seq<char>)
    ensures
        ({
            let k = respond::first_space(s);
            &&& 0 <= k <= s.len()
            &&& k < s.len() ==> s[k] == ' '
            &&& forall|i: int| 0 <= i < k ==> #[trigger] s[i] != ' '
        }),
    decreases s.len(),
{
    if s.len() > 0 && s[0] != ' ' {
        let rest = s.drop_first();
        lemma_first_space(rest);
        assert forall|i: int| 0 <= i < respond::first_space(s) implies #[trigger] s[i] != ' ' by {
            if i > 0 {
                assert(rest[i - 1] == s[i]);
            }
        }
    }
}

/// The data of an MX record is a number of 16 bits, a space, and something behind it.
pub proof fn lemma_mx_answer(answer: Seq<char>, path: Seq<char>)
    ensures
        records::mx_answer_error(answer, path) is None <==> exists|a: Seq<char>, b: Seq<char>|
            text::trim(answer) == #[trigger] (a.push(' ') + b) && !a.contains(' ')
                && text::uint_value(a, 65535) is Some && laws::says_something(b),
{
    let t = text::trim(answer);
    let k = respond::first_space(t);
    lemma_first_space(t);
    if records::mx_answer_error(answer, path) is None {
        let a = t.take(k);
        let b = t.skip(k + 1);
        laws::lemma_not_blank(b);
        assert(t =~= a.push(' ') + b);
        assert(!a.contains(' ')) by {
            if a.contains(' ') {
                let i = choose|i: int| 0 <= i < a.len() && a[i] == ' ';
                assert(t[i] == ' ');
            }
        }
    }
    if exists|a: Seq<char>, b: Seq<char>|
        t == #[trigger] (a.push(' ') + b) && !a.contains(' ') && text::uint_value(a, 65535) is Some
            && laws::says_something(b) {
        let (a, b) = choose|a: Seq<char>, b: Seq<char>|
            t == #[trigger] (a.push(' ') + b) && !a.contains(' ') && text::uint_value(a, 65535)
                is Some && laws::says_something(b);
        assert(t[a.len() as int] == ' ');
        assert(k == a.len()) by {
            if k < a.len() {
                assert(a[k] == t[k]);
                assert(a.contains(' '));
            }
        }
        assert(t.take(k) =~= a);
        assert(t.skip(k + 1) =~= b);
        laws::lemma_not_blank(b);
    }
}

/// The types of records that are served by themselves, and whose data is any text.
pub open spec fn text_types() -> Seq<Seq<char>> {
    seq!["CNAME"@, "NS"@, "PTR"@, "TXT"@]
}

/// A record is valid exactly where its name, type and data are not blank, its time to live is
/// positive, and its data fits its type: an IPv4 address, an IPv6 address, a preference and a
/// host, or any text; other types are not served.
pub proof fn lemma_record(r: types::StaticRecordV, path: Seq<char>, note: Seq<char>)
    ensures
        records::record_error(r, path, note) is None <==> {
            let t = text::upper(text::trim(r.qtype));
            &&& laws::says_something(r.qname)
            &&& laws::says_something(r.qtype)
            &&& laws::says_something(r.answer)
            &&& r.ttl > 0
            &&& (t == "A"@ && ip::ipv4_value(r.answer) is Some) || (t == "AAAA"@ && ip::ipv6_value(
                r.answer,
            ) is Some) || text_types().contains(t) || (t == "MX"@ && records::mx_answer_error(
                r.answer,
                path,
            ) is None)
        },
{
    laws::lemma_not_blank(r.qname);
    laws::lemma_not_blank(r.qtype);
    laws::lemma_not_blank(r.answer);
    reveal_strlit("A");
    reveal_strlit("AAAA");
    reveal_strlit("CNAME");
    reveal_strlit("NS");
    reveal_strlit("PTR");
    reveal_strlit("TXT");
    reveal_strlit("MX");
    let l = text_types();
    assert(l[0] == "CNAME"@ && l[1] == "NS"@ && l[2] == "PTR"@ && l[3] == "TXT"@);
    assert("CNAME"@[0] == 'C' && "NS"@[0] == 'N' && "PTR"@[0] == 'P' && "TXT"@[0] == 'T' && "MX"@[0]
        == 'M');
    assert("A"@.len() == 1 && "AAAA"@.len() == 4 && "A"@[0] == 'A' && "AAAA"@[0] == 'A');
}

/// A list of static records is valid exactly where each of them is.
pub proof fn lemma_static_records(list: Seq<types::StaticRecordV>, path: Seq<char>)
    ensures
        validate::static_records_error(list, path) is None <==> forall|i: int|
            0 <= i < list.len() ==> records::static_record_error(
                #[trigger] list[i],
                records::item_path(path, i),
            ) is None,
{
    let checks = list.map(
        |i: int, r: types::StaticRecordV|
            records::static_record_error(r, records::item_path(path, i)),
    );
    laws::lemma_first_none(checks);
    if validate::static_records_error(list, path) is None {
        assert forall|i: int| 0 <= i < list.len() implies records::static_record_error(
            #[trigger] list[i],
            records::item_path(path, i),
        ) is None by {
            assert(checks[i] is None);
        }
    } else {
        let i = choose|i: int| 0 <= i < checks.len() && (#[trigger] checks[i]) is Some;
        assert(records::static_record_error(list[i], records::item_path(path, i)) is Some);
    }
}

/// A zone is valid exactly where it has a name, a positive time to live, start-of-authority data
/// without blank names where it has such data, and valid records.
pub proof fn lemma_zone(z: types::AuthoritativeZoneV, path: Seq<char>)
    ensures
        records::zone_error(z, path) is None <==> {
            &&& laws::says_something(z.name)
            &&& z.default_ttl > 0
            &&& z.soa matches Some(soa) ==> laws::says_something(soa.mname)
                && laws::says_something(soa.rname)
            &&& forall|i: int|
                0 <= i < z.records.len() ==> records::zone_record_error(
                    #[trigger] z.records[i],
                    records::item_path(path + ".records"@, i),
                ) is None
        },
{
    laws::lemma_not_blank(z.name);
    if z.soa is Some {
        laws::lemma_not_blank(z.soa->0.mname);
        laws::lemma_not_blank(z.soa->0.rname);
    }
    let checks = z.records.map(
        |i: int, r: types::StaticRecordV|
            records::zone_record_error(r, records::item_path(path + ".records"@, i)),
    );
    laws::lemma_first_none(checks);
    if rules::first(checks) is None {
        assert forall|i: int| 0 <= i < z.records.len() implies records::zone_record_error(
            #[trigger] z.records[i],
            records::item_path(path + ".records"@, i),
        ) is None by {
            assert(checks[i] is None);
        }
    } else {
        let i = choose|i: int| 0 <= i < checks.len() && (#[trigger] checks[i]) is Some;
        assert(records::zone_record_error(
            z.records[i],
            records::item_path(path + ".records"@, i),
        ) is Some);
    }
}

/// A short record is valid exactly where it has a name and an address; a source exactly where its
/// name, type and place are not blank and its time to live is positive.
pub proof fn lemma_short_records_and_sources(
    r: ViewRecord,
    s: AuthoritativeSource,
    path: Seq<char>,
)
    ensures
        records::legacy_record_error(r, path) is None <==> laws::says_something(r.domain_name@) && (
        ip::ipv4_value(r.ip@) is Some || ip::ipv6_value(r.ip@) is Some),
        records::source_error(s, path) is None <==> laws::says_something(s.qname@)
            && laws::says_something(s.qtype@) && laws::says_something(s.source@) && s.ttl > 0,
{
    laws::lemma_not_blank(r.domain_name@);
    laws::lemma_not_blank(s.qname@);
    laws::lemma_not_blank(s.qtype@);
    laws::lemma_not_blank(s.source@);
}

/// A short record stands for an address record of its name: of the type of the address, which is
/// read back from its data where it is an IPv4 address.
pub proof fn lemma_short_record_stands_for_address(view: Seq<char>, r: ViewRecord)
    ensures
        match records::legacy_record(view, r) {
            Ok(s) => {
                &&& s.qname == r.domain_name@
                &&& ip::ipv4_value(r.ip@) matches Some(o) ==> s.qtype == "A"@ && (o.len() == 4
                    ==> ip::ipv4_value(s.answer) == Some(o))
                &&& ip::ipv4_value(r.ip@) is None ==> s.qtype == "AAAA"@ && ip::ipv6_value(r.ip@)
                    is Some
                &&& s.ttl == 300
            },
            Err(_) => ip::ipv4_value(r.ip@) is None && ip::ipv6_value(r.ip@) is None,
        },
{
    if let Some(o) = ip::ipv4_value(r.ip@) {
        if o.len() == 4 {
            ip::lemma_ipv4_round_trip(o);
        }
    }
}

/// Short records stand for as many records, in their order.
pub proof fn lemma_short_records_in_order(view: Seq<char>, list: Seq<ViewRecord>)
    ensures
        match records::legacy_records(view, list) {
            Ok(out) => out.len() == list.len() && forall|i: int|
                0 <= i < list.len() ==> records::legacy_record(view, #[trigger] list[i]) == Ok::<
                    types::StaticRecordV,
                    Seq<char>,
                >(out[i]),
            Err(_) => exists|i: int|
                0 <= i < list.len() && records::legacy_record(view, #[trigger] list[i]) is Err,
        },
    decreases list.len(),
{
    if list.len() > 0 {
        let start = list.drop_last();
        lemma_short_records_in_order(view, start);
        assert(forall|i: int| 0 <= i < start.len() ==> #[trigger] list[i] == start[i]);
        assert(list[list.len() - 1] == list.last());
        if records::legacy_records(view, start) is Err {
            let i = choose|i: int|
                0 <= i < start.len() && records::legacy_record(view, #[trigger] start[i]) is Err;
            assert(records::legacy_record(view, list[i]) is Err);
        }
    }
}

proof fn lemma_short_list(v: DnsView)
    ensures
        validate::legacy_list_error(v) is None <==> forall|i: int|
            0 <= i < v.records@.len() ==> records::legacy_record_error(
                #[trigger] v.records@[i],
                records::item_path(validate::view_path(v.name@, ".records"@), i),
            ) is None,
{
    let path = validate::view_path(v.name@, ".records"@);
    let checks = v.records@.map(
        |i: int, r: types::ViewRecord|
            records::legacy_record_error(
                r,
                records::item_path(validate::view_path(v.name@, ".records"@), i),
            ),
    );
    laws::lemma_first_none(checks);
    if validate::legacy_list_error(v) is None {
        assert forall|i: int| 0 <= i < v.records@.len() implies records::legacy_record_error(
            #[trigger] v.records@[i],
            records::item_path(path, i),
        ) is None by {
            assert(checks[i] is None);
        }
    } else {
        let i = choose|i: int| 0 <= i < checks.len() && (#[trigger] checks[i]) is Some;
        assert(records::legacy_record_error(v.records@[i], records::item_path(path, i)) is Some);
    }
}

proof fn lemma_zone_list(v: DnsView)
    ensures
        validate::view_zones_error(v) is None <==> forall|i: int|
            0 <= i < v.authoritative_zones@.len() ==> records::zone_error(
                #[trigger] types::zone_views(v.authoritative_zones@)[i],
                records::item_path(validate::view_path(v.name@, ".authoritative_zones"@), i),
            ) is None,
{
    let path = validate::view_path(v.name@, ".authoritative_zones"@);
    let zones = types::zone_views(v.authoritative_zones@);
    let checks = zones.map(
        |i: int, z: types::AuthoritativeZoneV|
            records::zone_error(
                z,
                records::item_path(validate::view_path(v.name@, ".authoritative_zones"@), i),
            ),
    );
    laws::lemma_first_none(checks);
    if validate::view_zones_error(v) is None {
        assert forall|i: int| 0 <= i < zones.len() implies records::zone_error(
            #[trigger] zones[i],
            records::item_path(path, i),
        ) is None by {
            assert(checks[i] is None);
        }
    } else {
        let i = choose|i: int| 0 <= i < checks.len() && (#[trigger] checks[i]) is Some;
        assert(records::zone_error(zones[i], records::item_path(path, i)) is Some);
    }
}

/// A view is valid exactly where it has a name, its clients are networks, no blocked domain is
/// blank, it has no records outside of zones that it would be authoritative for, and its records
/// and zones are valid.
pub proof fn lemma_view(v: DnsView)
    ensures
        validate::view_error(v) is None <==> {
            &&& laws::says_something(v.name@)
            &&& forall|i: int|
                0 <= i < v.client_cidrs@.len() ==> ip::is_network(
                    #[trigger] text::views(v.client_cidrs@)[i],
                )
            &&& laws::all_say_something(text::views(v.blocked_domains@))
            &&& validate::static_records_error(
                types::record_views(v.static_records@),
                validate::view_path(v.name@, ".static_records"@),
            ) is None
            &&& v.authoritative_records@.len() == 0
            &&& forall|i: int|
                0 <= i < v.records@.len() ==> records::legacy_record_error(
                    #[trigger] v.records@[i],
                    records::item_path(validate::view_path(v.name@, ".records"@), i),
                ) is None
            &&& forall|i: int|
                0 <= i < v.authoritative_zones@.len() ==> records::zone_error(
                    #[trigger] types::zone_views(v.authoritative_zones@)[i],
                    records::item_path(validate::view_path(v.name@, ".authoritative_zones"@), i),
                ) is None
        },
{
    laws::lemma_not_blank(v.name@);
    laws::lemma_networks(
        text::views(v.client_cidrs@),
        "invalid CIDR in "@ + validate::view_path(v.name@, ".client_cidrs: "@),
    );
    laws::lemma_no_blank_items(
        text::views(v.blocked_domains@),
        validate::view_path(v.name@, ".blocked_domains contains an empty domain"@),
    );
    lemma_short_list(v);
    lemma_zone_list(v);
}

/// The views are valid exactly where each of them is, and so are the sources.
pub proof fn lemma_views_and_sources(views: Seq<DnsView>, sources: Seq<AuthoritativeSource>)
    ensures
        validate::views_error(views) is None <==> forall|i: int|
            0 <= i < views.len() ==> validate::view_error(#[trigger] views[i]) is None,
        validate::sources_error(sources) is None <==> forall|i: int|
            0 <= i < sources.len() ==> records::source_error(
                #[trigger] sources[i],
                records::item_path("authoritative_sources"@, i),
            ) is None,
{
    let a = views.map_values(|v: DnsView| validate::view_error(v));
    laws::lemma_first_none(a);
    if validate::views_error(views) is None {
        assert forall|i: int| 0 <= i < views.len() implies validate::view_error(
            #[trigger] views[i],
        ) is None by {
            assert(a[i] is None);
        }
    } else {
        let i = choose|i: int| 0 <= i < a.len() && (#[trigger] a[i]) is Some;
        assert(validate::view_error(views[i]) is Some);
    }
    let b = sources.map(
        |i: int, s: AuthoritativeSource|
            records::source_error(s, records::item_path("authoritative_sources"@, i)),
    );
    laws::lemma_first_none(b);
    if validate::sources_error(sources) is None {
        assert forall|i: int| 0 <= i < sources.len() implies records::source_error(
            #[trigger] sources[i],
            records::item_path("authoritative_sources"@, i),
        ) is None by {
            assert(b[i] is None);
        }
    } else {
        let i = choose|i: int| 0 <= i < b.len() && (#[trigger] b[i]) is Some;
        assert(records::source_error(
            sources[i],
            records::item_path("authoritative_sources"@, i),
        ) is Some);
    }
}

/// A host name is made of labels of one to 63 letters, digits and inner hyphens; a dot at its end
/// changes nothing.
pub proof fn lemma_host_name(s: Seq<char>)
    ensures
        rules::is_dns_name(s) ==> {
            let labels = text::split(rules::without_last_dot(s), '.');
            &&& 1 <= s.len() <= 254
            &&& text::join_dots(labels) == rules::without_last_dot(s)
            &&& forall|i: int|
                0 <= i < labels.len() ==> 1 <= (#[trigger] labels[i]).len() <= 63
                    && labels[i][0] != '-' && labels[i].last() != '-'
            &&& forall|i: int, k: int|
                0 <= i < labels.len() && 0 <= k < labels[i].len() ==> {
                    let c = #[trigger] labels[i][k];
                    text::is_digit(c) || 'a' <= text::lower_char(c) <= 'z' || c == '-'
                }
        },
        s.len() > 0 && s.last() != '.' ==> rules::is_dns_name(s.push('.')) == rules::is_dns_name(s),
{
    text_laws::lemma_split_at_dots(rules::without_last_dot(s));
    assert(s.push('.').drop_last() =~= s);
    if rules::is_dns_name(s) {
        let labels = text::split(rules::without_last_dot(s), '.');
        assert forall|i: int, k: int| 0 <= i < labels.len() && 0 <= k < labels[i].len() implies {
            let c = #[trigger] labels[i][k];
            text::is_digit(c) || 'a' <= text::lower_char(c) <= 'z' || c == '-'
        } by {
            assert(rules::is_host_label(labels[i]));
            assert(rules::is_host_char(labels[i][k]));
            text_laws::lemma_lower_char(labels[i][k]);
        }
    }
}

/// Whether a character may stand in a host name.
pub open spec fn of_host(c: char) -> bool {
    text::is_digit(c) || 'a' <= c <= 'z' || 'A' <= c <= 'Z' || c == '-'
}

/// Whether a text is a label of a host name.
pub open spec fn is_label(s: Seq<char>) -> bool {
    &&& 1 <= s.len() <= 63
    &&& s[0] != '-'
    &&& s[s.len() - 1] != '-'
    &&& forall|k: int| 0 <= k < s.len() ==> of_host(#[trigger] s[k])
}

proof fn lemma_label(s: Seq<char>)
    ensures
        rules::is_host_label(s) <==> is_label(s),
{
    if rules::is_host_label(s) {
        assert forall|k: int| 0 <= k < s.len() implies of_host(#[trigger] s[k]) by {
            assert(rules::is_host_char(s[k]));
        }
    }
    if is_label(s) {
        assert forall|k: int| 0 <= k < s.len() implies rules::is_host_char(#[trigger] s[k]) by {
            assert(of_host(s[k]));
        }
    }
}

/// A text is a host name exactly where it has 1 to 253 characters but for a dot at its end and
/// everything between its dots is a label.
pub proof fn lemma_host_names(s: Seq<char>)
    requires
        s.len() > 0,
        s.last() != '.',
    ensures
        rules::is_dns_name(s) <==> s.len() <= 253 && forall|i: int|
            0 <= i < text::split(s, '.').len() ==> is_label(#[trigger] text::split(s, '.')[i]),
        rules::is_dns_name(s) == rules::is_dns_name(s.push('.')),
        !rules::is_dns_name(Seq::empty()),
        !rules::is_dns_name(seq!['.']),
{
    let labels = text::split(s, '.');
    assert forall|i: int| 0 <= i < labels.len() implies rules::is_host_label(#[trigger] labels[i])
        == is_label(labels[i]) by {
        lemma_label(labels[i]);
    }
    if rules::is_dns_name(s) {
        assert forall|i: int| 0 <= i < labels.len() implies is_label(#[trigger] labels[i]) by {
            assert(rules::is_host_label(labels[i]));
        }
    }
    assert(s.push('.').drop_last() =~= s);
    assert(seq!['.'].drop_last() =~= Seq::<char>::empty());
}

} // verus!
