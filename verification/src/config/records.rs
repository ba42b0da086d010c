//! Rules on records, zones and sources, and the records that a view serves.
use crate::codec::name;
use crate::codec::respond;
use crate::config::rules;
use crate::config::rules::{broken, is_blank, ConfigError};
use crate::config::types;
use crate::config::types::{
    default_static_record_ttl, AuthoritativeSource, AuthoritativeZone, DnsView, StaticRecord,
    ViewRecord,
};
use crate::ip;
use crate::text;
use vstd::prelude::*;
use vstd::slice::slice_subrange;

verus! {

/// The rule on the data of an MX record: a preference, a space and a host.
pub open spec fn mx_answer_error(answer: Seq<char>, path: Seq<char>) -> Option<Seq<char>> {
    let t = text::trim(answer);
    let k = respond::first_space(t);
    if text::uint_value(t.take(k), 0xFFFF) is None {
        Some(
            "invalid MX priority in "@ + path + ".answer (expected 'priority exchange'): "@ + t,
        )
    } else if k >= t.len() || rules::blank(t.skip(k + 1)) {
        Some("missing MX exchange in "@ + path + ".answer: "@ + t)
    } else {
        None
    }
}

/// The rule on the data of a record of the given type; `note` ends the message on a type that is
/// not served.
pub open spec fn answer_error(
    qtype: Seq<char>,
    answer: Seq<char>,
    path: Seq<char>,
    note: Seq<char>,
) -> Option<Seq<char>> {
    let t = text::upper(text::trim(qtype));
    if t == "A"@ {
        if ip::ipv4_value(answer) is None {
            Some("invalid IPv4 address in "@ + path + ".answer: "@ + answer)
        } else {
            None
        }
    } else if t == "AAAA"@ {
        if ip::ipv6_value(answer) is None {
            Some("invalid IPv6 address in "@ + path + ".answer: "@ + answer)
        } else {
            None
        }
    } else if t == "CNAME"@ || t == "NS"@ || t == "PTR"@ || t == "TXT"@ {
        None
    } else if t == "MX"@ {
        mx_answer_error(answer, path)
    } else {
        Some(path + note)
    }
}

/// The first rule that a record breaks.
pub open spec fn record_error(
    r: types::StaticRecordV,
    path: Seq<char>,
    note: Seq<char>,
) -> Option<Seq<char>> {
    if rules::blank(r.qname) {
        Some(path + ".qname must not be empty"@)
    } else if rules::blank(r.qtype) {
        Some(path + ".qtype must not be empty"@)
    } else if rules::blank(r.answer) {
        Some(path + ".answer must not be empty"@)
    } else if r.ttl == 0 {
        Some(path + ".ttl must be greater than 0"@)
    } else {
        answer_error(r.qtype, r.answer, path, note)
    }
}

pub open spec fn static_record_error(r: types::StaticRecordV, path: Seq<char>) -> Option<
    Seq<char>,
> {
    record_error(
        r,
        path,
        ".qtype must be one of A|AAAA|CNAME|MX|TXT|NS|PTR in current version"@,
    )
}

pub open spec fn zone_record_error(r: types::StaticRecordV, path: Seq<char>) -> Option<Seq<char>> {
    record_error(r, path, ".qtype must be one of A|AAAA|CNAME|MX|TXT|NS|PTR"@)
}

/// The path of an item of a list: `list[index]`.
pub open spec fn item_path(list: Seq<char>, index: int) -> Seq<char> {
    list + "["@ + text::decimal(index as nat) + "]"@
}

/// The first rule that a zone breaks.
pub open spec fn zone_error(z: types::AuthoritativeZoneV, path: Seq<char>) -> Option<Seq<char>> {
    if rules::blank(z.name) {
        Some(path + ".name must not be empty"@)
    } else if z.default_ttl == 0 {
        Some(path + ".default_ttl must be greater than 0"@)
    } else if z.soa is Some && rules::blank(z.soa->0.mname) {
        Some(path + ".soa.mname must not be empty"@)
    } else if z.soa is Some && rules::blank(z.soa->0.rname) {
        Some(path + ".soa.rname must not be empty"@)
    } else {
        rules::first(
            z.records.map(
                |i: int, r: types::StaticRecordV|
                    zone_record_error(r, item_path(path + ".records"@, i)),
            ),
        )
    }
}

/// The first rule that an address record of a view in its short form breaks.
pub open spec fn legacy_record_error(r: ViewRecord, path: Seq<char>) -> Option<Seq<char>> {
    if rules::blank(r.domain_name@) {
        Some(path + ".domain_name must not be empty"@)
    } else if !ip::is_address(r.ip@) {
        Some("invalid IP in legacy "@ + path + ": "@ + r.ip@)
    } else {
        None
    }
}

/// The first rule that a source breaks.
pub open spec fn source_error(s: AuthoritativeSource, path: Seq<char>) -> Option<Seq<char>> {
    if rules::blank(s.qname@) {
        Some(path + ".qname must not be empty"@)
    } else if rules::blank(s.qtype@) {
        Some(path + ".qtype must not be empty"@)
    } else if rules::blank(s.source@) {
        Some(path + ".source must not be empty"@)
    } else if s.ttl == 0 {
        Some(path + ".ttl must be greater than 0"@)
    } else {
        None
    }
}

fn space_at(t: &[char]) -> (k: usize)
    ensures
        k == respond::first_space(t@),
        k <= t@.len(),
{
    let mut k: usize = 0;
    assert(t@.skip(0) =~= t@);
    while k < t.len() && t[k] != ' '
        invariant
            k <= t@.len(),
            respond::first_space(t@) == k + respond::first_space(t@.skip(k as int)),
        decreases t@.len() - k,
    {
        assert(t@.skip(k as int).drop_first() =~= t@.skip(k + 1));
        k += 1;
    }
    k
}

/// The four texts in a row.
pub fn concat4(a: &str, b: &str, c: &str, d: &str) -> (r: String)
    ensures
        r@ == a@ + b@ + c@ + d@,
{
    let mut s = text::concat(a, b);
    s.append(c);
    s.append(d);
    s
}

fn validate_mx_answer(answer: &str, path: &str) -> (r: Result<(), ConfigError>)
    ensures
        rules::error_text(r) == mx_answer_error(answer@, path@),
{
    let t = text::trim_chars(text::chars_of(answer).as_slice());
    let k = space_at(t.as_slice());
    let shown = text::string_of(t.as_slice());
    assert(t@.subrange(0, k as int) =~= t@.take(k as int));
    if text::parse_uint(slice_subrange(t.as_slice(), 0, k), 0xFFFF).is_none() {
        return broken(
            concat4(
                "invalid MX priority in ",
                path,
                ".answer (expected 'priority exchange'): ",
                shown.as_str(),
            ).as_str(),
        );
    }
    if k < t.len() {
        let exchange = slice_subrange(t.as_slice(), k + 1, t.len());
        assert(exchange@ =~= t@.skip(k + 1));
        if text::trim_chars(exchange).len() > 0 {
            return Ok(());
        }
    }
    broken(concat4("missing MX exchange in ", path, ".answer: ", shown.as_str()).as_str())
}

fn validate_answer(qtype: &str, answer: &str, path: &str, note: &str) -> (r: Result<
    (),
    ConfigError,
>)
    ensures
        rules::error_text(r) == answer_error(qtype@, answer@, path@, note@),
{
    let upper = text::to_upper(text::trimmed(qtype).as_str());
    let t = upper.as_str();
    if text::same(t, "A") {
        if ip::parse_ipv4(answer).is_none() {
            return broken(concat4("invalid IPv4 address in ", path, ".answer: ", answer).as_str());
        }
        Ok(())
    } else if text::same(t, "AAAA") {
        if ip::parse_ipv6(answer).is_none() {
            return broken(concat4("invalid IPv6 address in ", path, ".answer: ", answer).as_str());
        }
        Ok(())
    } else if text::same(t, "CNAME") || text::same(t, "NS") || text::same(t, "PTR") || text::same(
        t,
        "TXT",
    ) {
        Ok(())
    } else if text::same(t, "MX") {
        validate_mx_answer(answer, path)
    } else {
        broken(text::concat(path, note).as_str())
    }
}

fn validate_record(record: &StaticRecord, path: &str, note: &str) -> (r: Result<(), ConfigError>)
    ensures
        rules::error_text(r) == record_error(record@, path@, note@),
{
    if is_blank(record.qname.as_str()) {
        return broken(text::concat(path, ".qname must not be empty").as_str());
    }
    if is_blank(record.qtype.as_str()) {
        return broken(text::concat(path, ".qtype must not be empty").as_str());
    }
    if is_blank(record.answer.as_str()) {
        return broken(text::concat(path, ".answer must not be empty").as_str());
    }
    if record.ttl == 0 {
        return broken(text::concat(path, ".ttl must be greater than 0").as_str());
    }
    validate_answer(record.qtype.as_str(), record.answer.as_str(), path, note)
}

/// Checks a static record; `path` is how the messages name it.
pub fn validate_static_like_record(record: &StaticRecord, path: &str) -> (r: Result<
    (),
    ConfigError,
>)
    ensures
        rules::error_text(r) == static_record_error(record@, path@),
{
    validate_record(
        record,
        path,
        ".qtype must be one of A|AAAA|CNAME|MX|TXT|NS|PTR in current version",
    )
}

/// Checks a record of a zone; `path` is how the messages name it.
pub fn validate_zone_record(record: &StaticRecord, path: &str) -> (r: Result<(), ConfigError>)
    ensures
        rules::error_text(r) == zone_record_error(record@, path@),
{
    validate_record(record, path, ".qtype must be one of A|AAAA|CNAME|MX|TXT|NS|PTR")
}

/// The path of an item of a list.
pub fn path_of_item(list: &str, index: usize) -> (r: String)
    ensures
        r@ == item_path(list@, index as int),
{
    concat4(list, "[", text::decimal_of(index as u64).as_str(), "]")
}

/// Checks a zone; `path` is how the messages name it.
pub fn validate_authoritative_zone(zone: &AuthoritativeZone, path: &str) -> (r: Result<
    (),
    ConfigError,
>)
    ensures
        rules::error_text(r) == zone_error(zone@, path@),
{
    if is_blank(zone.name.as_str()) {
        return broken(text::concat(path, ".name must not be empty").as_str());
    }
    if zone.default_ttl == 0 {
        return broken(text::concat(path, ".default_ttl must be greater than 0").as_str());
    }
    match &zone.soa {
        Some(soa) => {
            if is_blank(soa.mname.as_str()) {
                return broken(text::concat(path, ".soa.mname must not be empty").as_str());
            }
            if is_blank(soa.rname.as_str()) {
                return broken(text::concat(path, ".soa.rname must not be empty").as_str());
            }
        },
        None => {},
    }
    let list = text::concat(path, ".records");
    let ghost check = |i: int, r: types::StaticRecordV|
        zone_record_error(r, item_path(path@ + ".records"@, i));
    let ghost checks = zone@.records.map(check);
    let mut i: usize = 0;
    while i < zone.records.len()
        invariant
            i <= zone.records@.len(),
            list@ == path@ + ".records"@,
            check == (|i: int, r: types::StaticRecordV|
                zone_record_error(r, item_path(path@ + ".records"@, i))),
            checks == zone@.records.map(check),
            rules::first(checks) == zone_error(zone@, path@),
            forall|k: int| 0 <= k < i ==> (#[trigger] checks[k]) is None,
        decreases zone.records@.len() - i,
    {
        let r = validate_zone_record(
            &zone.records[i],
            path_of_item(list.as_str(), i).as_str(),
        );
        assert(checks[i as int] == check(i as int, zone.records@[i as int]@));
        if r.is_err() {
            proof {
                rules::lemma_first(checks, i as int);
            }
            return r;
        }
        i = i + 1;
    }
    proof {
        rules::lemma_first(checks, i as int);
    }
    Ok(())
}

/// Checks an address record of a view in its short form.
pub fn validate_legacy_view_record(record: &ViewRecord, path: &str) -> (r: Result<(), ConfigError>)
    ensures
        rules::error_text(r) == legacy_record_error(*record, path@),
{
    if is_blank(record.domain_name.as_str()) {
        return broken(text::concat(path, ".domain_name must not be empty").as_str());
    }
    if !ip::parses_as_address(record.ip.as_str()) {
        return broken(
            concat4("invalid IP in legacy ", path, ": ", record.ip.as_str()).as_str(),
        );
    }
    Ok(())
}

/// Checks a source.
pub fn validate_authoritative_source(source: &AuthoritativeSource, path: &str) -> (r: Result<
    (),
    ConfigError,
>)
    ensures
        rules::error_text(r) == source_error(*source, path@),
{
    if is_blank(source.qname.as_str()) {
        return broken(text::concat(path, ".qname must not be empty").as_str());
    }
    if is_blank(source.qtype.as_str()) {
        return broken(text::concat(path, ".qtype must not be empty").as_str());
    }
    if is_blank(source.source.as_str()) {
        return broken(text::concat(path, ".source must not be empty").as_str());
    }
    if source.ttl == 0 {
        return broken(text::concat(path, ".ttl must be greater than 0").as_str());
    }
    Ok(())
}

/// The address that a text writes, in the form in which it is printed.
pub open spec fn address_text(s: Seq<char>) -> Seq<char> {
    if ip::ipv4_value(s) is Some {
        ip::ipv4_text(ip::ipv4_value(s)->0)
    } else {
        ip::ipv6_text(ip::ipv6_value(s)->0)
    }
}

/// The static record that a short record stands for, or what is wrong with it.
pub open spec fn legacy_record(view: Seq<char>, r: ViewRecord) -> Result<
    types::StaticRecordV,
    Seq<char>,
> {
    if ip::is_address(r.ip@) {
        Ok(
            types::StaticRecordV {
                qname: r.domain_name@,
                qtype: if ip::ipv4_value(r.ip@) is Some {
                    "A"@
                } else {
                    "AAAA"@
                },
                answer: address_text(r.ip@),
                ttl: 300,
            },
        )
    } else {
        Err(
            "invalid IP in legacy views."@ + view + ".records for domain "@ + r.domain_name@
                + ": "@ + r.ip@,
        )
    }
}

/// The static records that short records stand for, or what is wrong with the first wrong one.
pub open spec fn legacy_records(view: Seq<char>, list: Seq<ViewRecord>) -> Result<
    Seq<types::StaticRecordV>,
    Seq<char>,
>
    decreases list.len(),
{
    if list.len() == 0 {
        Ok(Seq::empty())
    } else {
        match legacy_records(view, list.drop_last()) {
            Err(e) => Err(e),
            Ok(done) => match legacy_record(view, list.last()) {
                Err(e) => Err(e),
                Ok(r) => Ok(done.push(r)),
            },
        }
    }
}

/// An error among the first records is the error of the whole list.
proof fn lemma_legacy_error(view: Seq<char>, list: Seq<ViewRecord>, i: int)
    requires
        0 <= i <= list.len(),
        legacy_records(view, list.take(i)) is Err,
    ensures
        legacy_records(view, list) == legacy_records(view, list.take(i)),
    decreases list.len(),
{
    if i == list.len() {
        assert(list.take(i) =~= list);
    } else {
        assert(list.drop_last().take(i) =~= list.take(i));
        lemma_legacy_error(view, list.drop_last(), i);
    }
}

/// A copy of a record.
pub fn copy_record(r: &StaticRecord) -> (c: StaticRecord)
    ensures
        c@ == r@,
{
    StaticRecord {
        qname: r.qname.clone(),
        qtype: r.qtype.clone(),
        answer: r.answer.clone(),
        ttl: r.ttl,
    }
}

/// A copy of a list of records.
pub fn copy_records(list: &Vec<StaticRecord>) -> (c: Vec<StaticRecord>)
    ensures
        types::record_views(c@) == types::record_views(list@),
{
    let mut out: Vec<StaticRecord> = Vec::new();
    let mut i: usize = 0;
    while i < list.len()
        invariant
            i <= list@.len(),
            out@.len() == i,
            forall|k: int| 0 <= k < i ==> (#[trigger] out@[k])@ == list@[k]@,
        decreases list@.len() - i,
    {
        out.push(copy_record(&list[i]));
        i = i + 1;
    }
    assert(types::record_views(out@) =~= types::record_views(list@));
    out
}

impl DnsView {
    /// The static records of the view, with those of the short list behind them.
    pub fn effective_static_records(&self) -> (r: Result<Vec<StaticRecord>, ConfigError>)
        ensures
            match legacy_records(self.name@, self.records@) {
                Ok(more) => r is Ok && types::record_views(r->Ok_0@) == types::record_views(
                    self.static_records@,
                ) + more,
                Err(e) => r is Err && r->Err_0.message@ == e,
            },
    {
        let mut out = copy_records(&self.static_records);
        let ghost start = types::record_views(self.static_records@);
        let mut i: usize = 0;
        assert(self.records@.take(0) =~= Seq::empty());
        assert(types::record_views(out@) =~= start + Seq::empty());
        while i < self.records.len()
            invariant
                i <= self.records@.len(),
                start == types::record_views(self.static_records@),
                legacy_records(self.name@, self.records@.take(i as int)) matches Ok(done)
                    && types::record_views(out@) == start + done,
            decreases self.records@.len() - i,
        {
            let ghost done = legacy_records(self.name@, self.records@.take(i as int))->Ok_0;
            assert(self.records@.take(i + 1).drop_last() =~= self.records@.take(i as int));
            match self.convert_legacy_record(&self.records[i]) {
                Ok(record) => {
                    let ghost before = types::record_views(out@);
                    out.push(record);
                    assert(types::record_views(out@) =~= before.push(record@));
                    assert(before.push(record@) =~= start + done.push(record@));
                },
                Err(e) => {
                    proof {
                        lemma_legacy_error(self.name@, self.records@, i + 1);
                    }
                    return Err(e);
                },
            }
            i = i + 1;
        }
        assert(self.records@.take(i as int) =~= self.records@);
        Ok(out)
    }

    /// The authoritative records of the view.
    pub fn effective_authoritative_records(&self) -> (r: Vec<StaticRecord>)
        ensures
            types::record_views(r@) == types::record_views(self.authoritative_records@),
    {
        copy_records(&self.authoritative_records)
    }

    /// The static record that a short record stands for.
    pub fn convert_legacy_record(&self, record: &ViewRecord) -> (r: Result<
        StaticRecord,
        ConfigError,
    >)
        ensures
            match legacy_record(self.name@, *record) {
                Ok(v) => r is Ok && r->Ok_0@ == v,
                Err(e) => r is Err && r->Err_0.message@ == e,
            },
    {
        let (qtype, answer) = match ip::parse_ipv4(record.ip.as_str()) {
            Some(octets) => ("A", ip::format_ipv4(octets.as_slice())),
            None => match ip::parse_ipv6(record.ip.as_str()) {
                Some(octets) => ("AAAA", ip::format_ipv6(octets.as_slice())),
                None => {
                    let mut message = concat4(
                        "invalid IP in legacy views.",
                        self.name.as_str(),
                        ".records for domain ",
                        record.domain_name.as_str(),
                    );
                    message.append(": ");
                    message.append(record.ip.as_str());
                    return Err(ConfigError { message });
                },
            },
        };
        Ok(
            StaticRecord {
                qname: record.domain_name.clone(),
                qtype: qtype.to_owned(),
                answer,
                ttl: default_static_record_ttl(),
            },
        )
    }
}

/// Whether the names in the data of a record can be written.
pub open spec fn names_writable(typenum: u16, answer: Seq<char>) -> bool {
    if typenum == 5 || typenum == 2 || typenum == 12 {
        name::name_bytes(answer) is Some
    } else if typenum == 15 {
        let t = text::trim(answer);
        name::name_bytes(text::trim(t.skip(respond::first_space(t) + 1))) is Some
    } else {
        true
    }
}

/// A record that keeps the rules is one that can be answered with, whatever is asked for, unless a
/// name in its data cannot be written.
pub proof fn lemma_valid_record_can_be_answered(
    r: types::StaticRecordV,
    path: Seq<char>,
    note: Seq<char>,
    asked: u16,
)
    requires
        record_error(r, path, note) is None,
        text::trim(r.qtype) == r.qtype,
        names_writable(respond::type_number(r.qtype, asked), r.answer),
    ensures
        respond::rdata_of(respond::type_number(r.qtype, asked), r.answer) is Some,
{
    reveal_strlit("A");
    reveal_strlit("AAAA");
    reveal_strlit("CNAME");
    reveal_strlit("NS");
    reveal_strlit("MX");
    reveal_strlit("TXT");
    reveal_strlit("PTR");
    let t = text::upper(r.qtype);
    assert(t.len() == "PTR"@.len() ==> t != "MX"@);
    assert(t.len() == "TXT"@.len() ==> t != "MX"@);
}

} // verus!
