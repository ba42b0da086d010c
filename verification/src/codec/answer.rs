//! What an answer section says about a name.
use crate::codec::address;
use crate::codec::name;
use crate::codec::rr;
use crate::codec::rr::DnsRecordView;
use crate::codec::wire;
use crate::text;
use vstd::prelude::*;

verus! {

#[derive(Debug, Clone)]
pub struct DnsAnswerAnalysis {
    pub rcode: u16,
    pub has_target_record: bool,
    pub has_owner_cname: bool,
    pub first_cname: Option<String>,
    pub cname_records: Vec<(String, String, u32)>,
}

#[derive(Debug, Clone)]
pub struct DnsAnswerFollowupAnalysis {
    pub analysis: DnsAnswerAnalysis,
    pub dname_records: Vec<(String, u16, u16, u32, Vec<u8>)>,
}

/// An alias: its owner, its target and its time to live.
pub type CnameV = (Seq<char>, Seq<char>, u32);

/// A record on its own: owner, type, class, time to live and data.
pub type RecordV = (Seq<char>, u16, u16, u32, Seq<u8>);

pub open spec fn cname_views(v: Seq<(String, String, u32)>) -> Seq<CnameV> {
    v.map_values(|r: (String, String, u32)| (r.0@, r.1@, r.2))
}

pub open spec fn record_views(v: Seq<(String, u16, u16, u32, Vec<u8>)>) -> Seq<RecordV> {
    v.map_values(|r: (String, u16, u16, u32, Vec<u8>)| (r.0@, r.1, r.2, r.3, r.4@))
}

/// What is found in an answer section.
pub ghost struct AnalysisV {
    pub rcode: u16,
    pub has_target_record: bool,
    pub has_owner_cname: bool,
    pub first_cname: Option<Seq<char>>,
    pub cname_records: Seq<CnameV>,
    pub dname_records: Seq<RecordV>,
}

/// The records of the answer section whose names can be read.
pub open spec fn named_answers(p: Seq<u8>) -> Seq<rr::NamedRr> {
    match rr::question_end(p) {
        None => Seq::empty(),
        Some(q) => rr::named_list(p, q, wire::header(p).ancount as nat, rr::DnsSection::Answer),
    }
}

/// Whether the names of all records of the answer section can be read.
pub open spec fn answers_complete(p: Seq<u8>) -> bool {
    match rr::question_end(p) {
        None => false,
        Some(q) => rr::named_end(p, q, wire::header(p).ancount as nat) is Some,
    }
}

/// The name in the data of an alias record of class IN, unless it is the root or cannot be
/// read.
pub open spec fn cname_target(p: Seq<u8>, r: rr::NamedRr) -> Option<Seq<char>> {
    if r.rr.rr_class == 1 && r.rr.rr_type == 5 {
        match name::name_at(p, r.rr.rdata) {
            Some((t, _)) if t.len() > 0 => Some(t),
            _ => None,
        }
    } else {
        None
    }
}

/// An alias record with a name on both sides.
pub open spec fn cname_of(p: Seq<u8>, r: rr::NamedRr) -> Option<CnameV> {
    match cname_target(p, r) {
        Some(t) if r.owner.len() > 0 => Some((r.owner, t, r.rr.ttl)),
        _ => None,
    }
}

/// The record on its own.
pub open spec fn record_of(p: Seq<u8>, r: rr::NamedRr) -> RecordV {
    (r.owner, r.rr.rr_type, r.rr.rr_class, r.rr.ttl, p.subrange(r.rr.rdata, r.rr.end))
}

/// Whether the record is of `rr_type`, of class IN, and belongs to `qname`.
pub open spec fn is_record_for(r: rr::NamedRr, qname: Seq<char>, rr_type: u16) -> bool {
    r.rr.rr_class == 1 && r.rr.rr_type == rr_type && text::norm(r.owner) == text::norm(qname)
}

/// Whether the alias record belongs to `qname` and its data can be read.
pub open spec fn is_alias_of(p: Seq<u8>, r: rr::NamedRr, qname: Seq<char>) -> bool {
    is_record_for(r, qname, 5) && name::name_at(p, r.rr.rdata) is Some
}

/// The first value that a record of the list has.
pub open spec fn first_target(p: Seq<u8>, list: Seq<rr::NamedRr>) -> Option<Seq<char>>
    decreases list.len(),
{
    if list.len() == 0 {
        None
    } else if cname_target(p, list[0]) is Some {
        cname_target(p, list[0])
    } else {
        first_target(p, list.drop_first())
    }
}

pub open spec fn dname_of(p: Seq<u8>, r: rr::NamedRr) -> Option<RecordV> {
    if r.rr.rr_class == 1 && r.rr.rr_type == 39 {
        Some(record_of(p, r))
    } else {
        None
    }
}

/// What the answer section says about `qname`; none where a record is malformed.
pub open spec fn analysis(p: Seq<u8>, qname: Seq<char>, target_type: u16) -> Option<AnalysisV> {
    if p.len() < 12 || !answers_complete(p) {
        None
    } else {
        let list = named_answers(p);
        Some(
            AnalysisV {
                rcode: (wire::header(p).flags % 16) as u16,
                has_target_record: exists|i: int|
                    0 <= i < list.len() && is_record_for(#[trigger] list[i], qname, target_type),
                has_owner_cname: exists|i: int|
                    0 <= i < list.len() && is_alias_of(p, #[trigger] list[i], qname),
                first_cname: first_target(p, list),
                cname_records: list.filter_map(|r: rr::NamedRr| cname_of(p, r)),
                dname_records: list.filter_map(|r: rr::NamedRr| dname_of(p, r)),
            },
        )
    }
}

pub open spec fn followup_view(v: DnsAnswerFollowupAnalysis) -> AnalysisV {
    AnalysisV {
        rcode: v.analysis.rcode,
        has_target_record: v.analysis.has_target_record,
        has_owner_cname: v.analysis.has_owner_cname,
        first_cname: address::text_view(v.analysis.first_cname),
        cname_records: cname_views(v.analysis.cname_records@),
        dname_records: record_views(v.dname_records@),
    }
}

/// Reads the records of the answer section and tells whether all of them could be read.
pub fn read_answers(packet: &[u8]) -> (r: Option<(Vec<DnsRecordView>, bool)>)
    ensures
        r is Some <==> packet@.len() >= 12,
        r matches Some((list, complete)) ==> {
            &&& rr::named_rrs(list@) == named_answers(packet@)
            &&& complete == answers_complete(packet@)
            &&& forall|i: int|
                0 <= i < list@.len() ==> (#[trigger] list@[i]).rr.rdata <= list@[i].rr.end
                    <= packet@.len()
        },
{
    let header = match wire::parse_header(packet) {
        None => {
            return None;
        },
        Some(h) => h,
    };
    let mut list: Vec<DnsRecordView> = Vec::new();
    assert(rr::named_rrs(list@) =~= Seq::empty());
    match rr::skip_question_section(packet, header) {
        None => Some((list, false)),
        Some(q) => {
            let end = rr::read_named(packet, q, header.ancount, rr::DnsSection::Answer, &mut list);
            assert(rr::named_rrs(list@) =~= named_answers(packet@));
            proof {
                rr::lemma_named_list_bounds(
                    packet@,
                    q as int,
                    header.ancount as nat,
                    rr::DnsSection::Answer,
                );
                assert forall|i: int| 0 <= i < list@.len() implies (#[trigger] list@[i]).rr.rdata
                    <= list@[i].rr.end <= packet@.len() by {
                    assert(rr::named_rrs(list@)[i] == list@[i]@);
                }
            }
            Some((list, end.is_some()))
        },
    }
}

fn target_of(packet: &[u8], r: &DnsRecordView) -> (t: Option<String>)
    ensures
        address::text_view(t) == cname_target(packet@, r@),
{
    if r.rr.rr_class == 1 && r.rr.rr_type == 5 {
        match name::parse_name(packet, r.rr.rdata) {
            Some((t, _)) => if t.as_str().is_empty() {
                None
            } else {
                Some(t)
            },
            None => None,
        }
    } else {
        None
    }
}

fn belongs_to(r: &DnsRecordView, target: &str, rr_type: u16, Ghost(qname): Ghost<Seq<char>>) -> (b:
    bool)
    requires
        target@ == text::norm(qname),
    ensures
        b == is_record_for(r@, qname, rr_type),
{
    r.rr.rr_class == 1 && r.rr.rr_type == rr_type && text::same(
        text::normalized(r.owner.as_str()).as_str(),
        target,
    )
}

/// What the answer section says about `qname`.
pub fn analyze_answer_for_name(packet: &[u8], qname: &str, target_type: u16) -> (r: Option<
    DnsAnswerAnalysis,
>)
    ensures
        r is Some <==> analysis(packet@, qname@, target_type) is Some,
        r matches Some(v) ==> {
            let a = analysis(packet@, qname@, target_type)->0;
            &&& v.rcode == a.rcode
            &&& v.has_target_record == a.has_target_record
            &&& v.has_owner_cname == a.has_owner_cname
            &&& address::text_view(v.first_cname) == a.first_cname
            &&& cname_views(v.cname_records@) == a.cname_records
        },
{
    match analyze_answer_for_name_with_dnames(packet, qname, target_type) {
        Some(v) => Some(v.analysis),
        None => None,
    }
}

/// What the answer section says about `qname`, and its DNAME records.
pub fn analyze_answer_for_name_with_dnames(packet: &[u8], qname: &str, target_type: u16) -> (r:
    Option<DnsAnswerFollowupAnalysis>)
    ensures
        (match r {
            Some(v) => Some(followup_view(v)),
            None => None,
        }) == analysis(packet@, qname@, target_type),
{
    let header = match wire::parse_header(packet) {
        None => {
            return None;
        },
        Some(h) => h,
    };
    let (records, complete) = match read_answers(packet) {
        None => {
            return None;
        },
        Some(v) => v,
    };
    if !complete {
        return None;
    }
    let ghost p = packet@;
    let ghost q = qname@;
    let ghost list = named_answers(p);
    let ghost fc = |r: rr::NamedRr| cname_of(p, r);
    let ghost fd = |r: rr::NamedRr| dname_of(p, r);
    let target = text::normalized(qname);
    let mut has_target_record = false;
    let mut has_owner_cname = false;
    let mut first_cname: Option<String> = None;
    let mut cname_records: Vec<(String, String, u32)> = Vec::new();
    let mut dname_records: Vec<(String, u16, u16, u32, Vec<u8>)> = Vec::new();
    let mut i: usize = 0;
    assert(list.skip(0) =~= list);
    assert(cname_views(cname_records@) =~= list.take(0).filter_map(fc));
    assert(record_views(dname_records@) =~= list.take(0).filter_map(fd));
    while i < records.len()
        invariant
            i <= records@.len(),
            p == packet@,
            q == qname@,
            list == rr::named_rrs(records@),
            fc == (|r: rr::NamedRr| cname_of(p, r)),
            fd == (|r: rr::NamedRr| dname_of(p, r)),
            target@ == text::norm(q),
            forall|k: int|
                0 <= k < records@.len() ==> (#[trigger] records@[k]).rr.rdata <= records@[k].rr.end
                    <= p.len(),
            has_target_record == exists|k: int|
                0 <= k < i && is_record_for(#[trigger] list[k], q, target_type),
            has_owner_cname == exists|k: int| 0 <= k < i && is_alias_of(p, #[trigger] list[k], q),
            first_target(p, list) == (if first_cname is Some {
                address::text_view(first_cname)
            } else {
                first_target(p, list.skip(i as int))
            }),
            cname_views(cname_records@) == list.take(i as int).filter_map(fc),
            record_views(dname_records@) == list.take(i as int).filter_map(fd),
        decreases records@.len() - i,
    {
        let r = &records[i];
        assert(list[i as int] == records@[i as int]@);
        assert(list.skip(i as int)[0] == list[i as int]);
        assert(list.skip(i as int).drop_first() =~= list.skip(i + 1));
        proof {
            list.lemma_filter_map_take_succ(fc, i as int);
            list.lemma_filter_map_take_succ(fd, i as int);
        }
        if belongs_to(r, target.as_str(), target_type, Ghost(q)) {
            has_target_record = true;
        }
        if belongs_to(r, target.as_str(), 5, Ghost(q)) && name::parse_name(
            packet,
            r.rr.rdata,
        ).is_some() {
            has_owner_cname = true;
        }
        let ghost cnames = cname_views(cname_records@);
        let ghost dnames = record_views(dname_records@);
        if let Some(t) = target_of(packet, r) {
            if first_cname.is_none() {
                first_cname = Some(t.clone());
            }
            if !r.owner.as_str().is_empty() {
                let entry = (r.owner.clone(), t, r.rr.ttl);
                cname_records.push(entry);
                assert(cname_views(cname_records@) =~= cnames.push((entry.0@, entry.1@, entry.2)));
            }
        }
        if r.rr.rr_class == 1 && r.rr.rr_type == 39 {
            let entry = (
                r.owner.clone(),
                r.rr.rr_type,
                r.rr.rr_class,
                r.rr.ttl,
                wire::part(packet, r.rr.rdata, r.rr.end),
            );
            dname_records.push(entry);
            assert(record_views(dname_records@) =~= dnames.push(
                (entry.0@, entry.1, entry.2, entry.3, entry.4@),
            ));
        }
        assert(cname_views(cname_records@) =~= list.take(i + 1).filter_map(fc));
        assert(record_views(dname_records@) =~= list.take(i + 1).filter_map(fd));
        i += 1;
    }
    assert(list.take(i as int) =~= list);
    Some(
        DnsAnswerFollowupAnalysis {
            analysis: DnsAnswerAnalysis {
                rcode: header.flags % 16,
                has_target_record,
                has_owner_cname,
                first_cname,
                cname_records,
            },
            dname_records,
        },
    )
}

/// Whether a record of the answer section has the type.
pub fn answer_has_record_type(packet: &[u8], target_type: u16) -> (r: bool)
    ensures
        r == (packet@.len() >= 12 && exists|i: int|
            0 <= i < named_answers(packet@).len() && (#[trigger] named_answers(
                packet@,
            )[i]).rr.rr_type == target_type),
{
    let (records, _) = match read_answers(packet) {
        None => {
            return false;
        },
        Some(v) => v,
    };
    let ghost list = named_answers(packet@);
    let mut i: usize = 0;
    while i < records.len()
        invariant
            i <= records@.len(),
            packet@.len() >= 12,
            list == named_answers(packet@),
            list == rr::named_rrs(records@),
            forall|k: int| 0 <= k < i ==> (#[trigger] list[k]).rr.rr_type != target_type,
        decreases records@.len() - i,
    {
        assert(list[i as int] == records@[i as int]@);
        if records[i].rr.rr_type == target_type {
            return true;
        }
        i += 1;
    }
    false
}

/// Whether a record of the answer section has the type and belongs to `qname`.
pub fn answer_has_record_type_for_name(packet: &[u8], qname: &str, target_type: u16) -> (r: bool)
    ensures
        r == (packet@.len() >= 12 && exists|i: int|
            0 <= i < named_answers(packet@).len() && is_record_for(
                #[trigger] named_answers(packet@)[i],
                qname@,
                target_type,
            )),
{
    let (records, _) = match read_answers(packet) {
        None => {
            return false;
        },
        Some(v) => v,
    };
    let ghost list = named_answers(packet@);
    let target = text::normalized(qname);
    let mut i: usize = 0;
    while i < records.len()
        invariant
            i <= records@.len(),
            packet@.len() >= 12,
            list == named_answers(packet@),
            list == rr::named_rrs(records@),
            target@ == text::norm(qname@),
            forall|k: int|
                0 <= k < i ==> !is_record_for(#[trigger] list[k], qname@, target_type),
        decreases records@.len() - i,
    {
        assert(list[i as int] == records@[i as int]@);
        if belongs_to(&records[i], target.as_str(), target_type, Ghost(qname@)) {
            return true;
        }
        i += 1;
    }
    false
}

/// Whether the answer section holds an alias of `qname`.
pub fn answer_has_cname_for_name(packet: &[u8], qname: &str) -> (r: bool)
    ensures
        r == (packet@.len() >= 12 && exists|i: int|
            0 <= i < named_answers(packet@).len() && is_record_for(
                #[trigger] named_answers(packet@)[i],
                qname@,
                5,
            )),
{
    answer_has_record_type_for_name(packet, qname, 5)
}

/// The target of the first alias in the answer section.
pub fn extract_first_answer_cname(packet: &[u8]) -> (r: Option<String>)
    ensures
        address::text_view(r) == (if packet@.len() < 12 {
            None
        } else {
            first_target(packet@, named_answers(packet@))
        }),
{
    let (records, _) = match read_answers(packet) {
        None => {
            return None;
        },
        Some(v) => v,
    };
    let ghost p = packet@;
    let ghost list = named_answers(p);
    let mut i: usize = 0;
    assert(list.skip(0) =~= list);
    while i < records.len()
        invariant
            i <= records@.len(),
            p == packet@,
            p.len() >= 12,
            list == named_answers(p),
            list == rr::named_rrs(records@),
            first_target(p, list) == first_target(p, list.skip(i as int)),
        decreases records@.len() - i,
    {
        assert(list.skip(i as int)[0] == records@[i as int]@);
        assert(list.skip(i as int).drop_first() =~= list.skip(i + 1));
        let t = target_of(packet, &records[i]);
        if t.is_some() {
            return t;
        }
        i += 1;
    }
    None
}

/// The aliases in the answer section; none where a record of the packet is malformed.
pub open spec fn cname_answers(p: Seq<u8>) -> Seq<CnameV> {
    if p.len() < 12 || !rr::scan_complete(p) {
        Seq::empty()
    } else {
        named_answers(p).filter_map(|r: rr::NamedRr| cname_of(p, r))
    }
}

/// Reads the answer records of a packet none of whose records is malformed.
pub fn read_scanned_answers(packet: &[u8]) -> (r: Option<Vec<DnsRecordView>>)
    ensures
        r is Some <==> packet@.len() >= 12 && rr::scan_complete(packet@),
        r matches Some(list) ==> rr::named_rrs(list@) == named_answers(packet@) && forall|i: int|
            0 <= i < list@.len() ==> (#[trigger] list@[i]).rr.rdata <= list@[i].rr.end
                <= packet@.len(),
{
    let header = match wire::parse_header(packet) {
        None => {
            return None;
        },
        Some(h) => h,
    };
    let (_, complete) = rr::scan_resource_records(packet, header);
    if !complete {
        return None;
    }
    match read_answers(packet) {
        Some((list, _)) => Some(list),
        None => None,
    }
}

/// The aliases in the answer section.
pub fn extract_answer_cname_records(packet: &[u8]) -> (r: Vec<(String, String, u32)>)
    ensures
        cname_views(r@) == cname_answers(packet@),
{
    let mut out: Vec<(String, String, u32)> = Vec::new();
    assert(cname_views(out@) =~= Seq::empty());
    let records = match read_scanned_answers(packet) {
        None => {
            return out;
        },
        Some(v) => v,
    };
    let ghost p = packet@;
    let ghost list = named_answers(p);
    let ghost fc = |r: rr::NamedRr| cname_of(p, r);
    let mut i: usize = 0;
    assert(list.take(0).filter_map(fc) =~= Seq::empty());
    while i < records.len()
        invariant
            i <= records@.len(),
            p == packet@,
            list == rr::named_rrs(records@),
            fc == (|r: rr::NamedRr| cname_of(p, r)),
            cname_views(out@) == list.take(i as int).filter_map(fc),
        decreases records@.len() - i,
    {
        let r = &records[i];
        assert(list[i as int] == records@[i as int]@);
        proof {
            list.lemma_filter_map_take_succ(fc, i as int);
        }
        let ghost before = cname_views(out@);
        if let Some(t) = target_of(packet, r) {
            if !r.owner.as_str().is_empty() {
                let entry = (r.owner.clone(), t, r.rr.ttl);
                out.push(entry);
                assert(cname_views(out@) =~= before.push((entry.0@, entry.1@, entry.2)));
            }
        }
        assert(cname_views(out@) =~= list.take(i + 1).filter_map(fc));
        i += 1;
    }
    assert(list.take(i as int) =~= list);
    out
}

pub open spec fn record_of_type(p: Seq<u8>, r: rr::NamedRr, rr_type: u16) -> Option<RecordV> {
    if r.rr.rr_type == rr_type {
        Some(record_of(p, r))
    } else {
        None
    }
}

/// The answer records of a type; none where a record of the packet is malformed.
pub open spec fn answers_of_type(p: Seq<u8>, rr_type: u16) -> Seq<RecordV> {
    if p.len() < 12 || !rr::scan_complete(p) {
        Seq::empty()
    } else {
        named_answers(p).filter_map(|r: rr::NamedRr| record_of_type(p, r, rr_type))
    }
}

/// The answer records of a type.
pub fn extract_answer_records_by_type(packet: &[u8], wanted_rr_type: u16) -> (r: Vec<
    (String, u16, u16, u32, Vec<u8>),
>)
    ensures
        record_views(r@) == answers_of_type(packet@, wanted_rr_type),
{
    let mut out: Vec<(String, u16, u16, u32, Vec<u8>)> = Vec::new();
    assert(record_views(out@) =~= Seq::empty());
    let records = match read_scanned_answers(packet) {
        None => {
            return out;
        },
        Some(v) => v,
    };
    let ghost p = packet@;
    let ghost list = named_answers(p);
    let ghost f = |r: rr::NamedRr| record_of_type(p, r, wanted_rr_type);
    let mut i: usize = 0;
    assert(list.take(0).filter_map(f) =~= Seq::empty());
    while i < records.len()
        invariant
            i <= records@.len(),
            p == packet@,
            list == rr::named_rrs(records@),
            f == (|r: rr::NamedRr| record_of_type(p, r, wanted_rr_type)),
            forall|k: int|
                0 <= k < records@.len() ==> (#[trigger] records@[k]).rr.rdata <= records@[k].rr.end
                    <= p.len(),
            record_views(out@) == list.take(i as int).filter_map(f),
        decreases records@.len() - i,
    {
        let r = &records[i];
        assert(list[i as int] == records@[i as int]@);
        proof {
            list.lemma_filter_map_take_succ(f, i as int);
        }
        let ghost before = record_views(out@);
        if r.rr.rr_type == wanted_rr_type {
            let entry = (
                r.owner.clone(),
                r.rr.rr_type,
                r.rr.rr_class,
                r.rr.ttl,
                wire::part(packet, r.rr.rdata, r.rr.end),
            );
            out.push(entry);
            assert(record_views(out@) =~= before.push(
                (entry.0@, entry.1, entry.2, entry.3, entry.4@),
            ));
        }
        assert(record_views(out@) =~= list.take(i + 1).filter_map(f));
        i += 1;
    }
    assert(list.take(i as int) =~= list);
    out
}

pub open spec fn answer_endpoint(p: Seq<u8>, r: rr::NamedRr, port: u16) -> Option<Seq<char>> {
    if r.rr.rr_class == 1 {
        address::endpoint_of(r.rr.rr_type, p.subrange(r.rr.rdata, r.rr.end), port)
    } else {
        None
    }
}

/// The endpoints at the addresses in the answer section, in increasing order, each once; none
/// where a record of the packet is malformed.
pub open spec fn answer_endpoints(p: Seq<u8>, port: u16) -> Seq<Seq<char>> {
    if p.len() < 12 || !rr::scan_complete(p) {
        Seq::empty()
    } else {
        text::sorted_set(
            named_answers(p).filter_map(|r: rr::NamedRr| answer_endpoint(p, r, port)),
        )
    }
}

pub fn extract_answer_ip_endpoints(packet: &[u8]) -> (r: Vec<String>)
    ensures
        text::views(r@) == answer_endpoints(packet@, 53),
{
    extract_answer_ip_endpoints_with_port(packet, 53)
}

/// The endpoints at the addresses in the answer section.
pub fn extract_answer_ip_endpoints_with_port(packet: &[u8], port: u16) -> (r: Vec<String>)
    ensures
        text::views(r@) == answer_endpoints(packet@, port),
{
    let mut out: Vec<String> = Vec::new();
    assert(text::views(out@) =~= Seq::empty());
    let records = match read_scanned_answers(packet) {
        None => {
            return out;
        },
        Some(v) => v,
    };
    let ghost p = packet@;
    let ghost list = named_answers(p);
    let ghost f = |r: rr::NamedRr| answer_endpoint(p, r, port);
    let mut i: usize = 0;
    assert(list.take(0).filter_map(f) =~= Seq::empty());
    while i < records.len()
        invariant
            i <= records@.len(),
            p == packet@,
            list == rr::named_rrs(records@),
            f == (|r: rr::NamedRr| answer_endpoint(p, r, port)),
            forall|k: int|
                0 <= k < records@.len() ==> (#[trigger] records@[k]).rr.rdata <= records@[k].rr.end
                    <= p.len(),
            text::views(out@) == text::sorted_set(list.take(i as int).filter_map(f)),
        decreases records@.len() - i,
    {
        let r = &records[i];
        assert(list[i as int] == records@[i as int]@);
        proof {
            list.lemma_filter_map_take_succ(f, i as int);
        }
        let ghost before = list.take(i as int).filter_map(f);
        if r.rr.rr_class == 1 {
            let data = wire::part(packet, r.rr.rdata, r.rr.end);
            if let Some(e) = address::endpoint_from_rdata_with_port(
                r.rr.rr_type,
                data.as_slice(),
                port,
            ) {
                let ghost v = e@;
                text::insert_sorted(&mut out, e);
                assert(list.take(i + 1).filter_map(f) =~= before.push(v));
                assert(before.push(v).drop_last() =~= before);
            }
        }
        assert(text::views(out@) =~= text::sorted_set(list.take(i + 1).filter_map(f)));
        i += 1;
    }
    assert(list.take(i as int) =~= list);
    out
}

} // verus!
