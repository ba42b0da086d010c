//! Resource records and the sections of a packet.
use crate::codec::name;
use crate::codec::wire;
use crate::codec::wire::DnsHeader;
use vstd::prelude::*;

verus! {

/// A resource record as it lies in a packet: where it starts, what its fixed fields hold, and
/// where its data starts and ends.
pub ghost struct Rr {
    pub start: int,
    pub rr_type: u16,
    pub rr_class: u16,
    pub ttl: u32,
    pub rdata: int,
    pub end: int,
}

/// The record at `off`, if its name, its fixed fields and its data lie inside the packet.
pub open spec fn rr_at(p: Seq<u8>, off: int) -> Option<Rr> {
    match name::name_end(p, off) {
        None => None,
        Some(e) => if e + 10 > p.len() || e + 10 + wire::be16(p, e + 8) > p.len() {
            None
        } else {
            Some(
                Rr {
                    start: off,
                    rr_type: wire::be16(p, e),
                    rr_class: wire::be16(p, e + 2),
                    ttl: wire::be32(p, e + 4),
                    rdata: e + 10,
                    end: e + 10 + wire::be16(p, e + 8),
                },
            )
        },
    }
}

/// The records from `off` on, up to `n` of them: the list stops before the first that is
/// malformed.
pub open spec fn rr_list(p: Seq<u8>, off: int, n: nat) -> Seq<Rr>
    decreases n,
{
    if n == 0 {
        Seq::empty()
    } else {
        match rr_at(p, off) {
            None => Seq::empty(),
            Some(r) => seq![r] + rr_list(p, r.end, (n - 1) as nat),
        }
    }
}

/// Where `n` records from `off` on end, if none of them is malformed.
pub open spec fn rr_end(p: Seq<u8>, off: int, n: nat) -> Option<int>
    decreases n,
{
    if n == 0 {
        Some(off)
    } else {
        match rr_at(p, off) {
            None => None,
            Some(r) => rr_end(p, r.end, (n - 1) as nat),
        }
    }
}

/// Where `n` questions from `off` on end.
pub open spec fn questions_end(p: Seq<u8>, off: int, n: nat) -> Option<int>
    decreases n,
{
    if n == 0 {
        Some(off)
    } else {
        match name::name_end(p, off) {
            None => None,
            Some(e) => if e + 4 > p.len() {
                None
            } else {
                questions_end(p, e + 4, (n - 1) as nat)
            },
        }
    }
}

/// Where the question section ends.
pub open spec fn question_end(p: Seq<u8>) -> Option<int> {
    questions_end(p, 12, wire::header(p).qdcount as nat)
}

/// Where the answer section ends.
pub open spec fn answer_end(p: Seq<u8>) -> Option<int> {
    match question_end(p) {
        None => None,
        Some(q) => rr_end(p, q, wire::header(p).ancount as nat),
    }
}

/// Where the additional section starts.
pub open spec fn additional_start(p: Seq<u8>) -> Option<int> {
    match answer_end(p) {
        None => None,
        Some(a) => rr_end(p, a, wire::header(p).nscount as nat),
    }
}

/// The records of the answer section, up to the first that is malformed.
pub open spec fn answers(p: Seq<u8>) -> Seq<Rr> {
    match question_end(p) {
        None => Seq::empty(),
        Some(q) => rr_list(p, q, wire::header(p).ancount as nat),
    }
}

/// The records of the additional section, up to the first that is malformed.
pub open spec fn additionals(p: Seq<u8>) -> Seq<Rr> {
    match additional_start(p) {
        None => Seq::empty(),
        Some(a) => rr_list(p, a, wire::header(p).arcount as nat),
    }
}

#[derive(Debug, Clone, Copy, PartialEq, Eq, Structural)]
pub enum DnsSection {
    Answer,
    Authority,
    Additional,
}

/// A record whose owner name can be read, and the section it stands in.
pub ghost struct NamedRr {
    pub section: DnsSection,
    pub owner: Seq<char>,
    pub rr: Rr,
}

pub open spec fn named_at(p: Seq<u8>, off: int, section: DnsSection) -> Option<NamedRr> {
    match (name::name_at(p, off), rr_at(p, off)) {
        (Some((owner, _)), Some(rr)) => Some(NamedRr { section, owner, rr }),
        _ => None,
    }
}

/// The records from `off` on whose names can be read, up to `n` of them; the list stops before
/// the first record that is malformed.
pub open spec fn named_list(p: Seq<u8>, off: int, n: nat, section: DnsSection) -> Seq<NamedRr>
    decreases n,
{
    if n == 0 {
        Seq::empty()
    } else {
        match named_at(p, off, section) {
            None => Seq::empty(),
            Some(r) => seq![r] + named_list(p, r.rr.end, (n - 1) as nat, section),
        }
    }
}

/// Where `n` records from `off` on end, if the names of all of them can be read.
pub open spec fn named_end(p: Seq<u8>, off: int, n: nat) -> Option<int>
    decreases n,
{
    if n == 0 {
        Some(off)
    } else {
        match named_at(p, off, DnsSection::Answer) {
            None => None,
            Some(r) => named_end(p, r.rr.end, (n - 1) as nat),
        }
    }
}

/// The records of all sections in order, up to the first that is malformed.
pub open spec fn scanned(p: Seq<u8>) -> Seq<NamedRr> {
    let h = wire::header(p);
    match question_end(p) {
        None => Seq::empty(),
        Some(q) => {
            let an = named_list(p, q, h.ancount as nat, DnsSection::Answer);
            match named_end(p, q, h.ancount as nat) {
                None => an,
                Some(a) => {
                    let ns = named_list(p, a, h.nscount as nat, DnsSection::Authority);
                    match named_end(p, a, h.nscount as nat) {
                        None => an + ns,
                        Some(b) => an + ns + named_list(
                            p,
                            b,
                            h.arcount as nat,
                            DnsSection::Additional,
                        ),
                    }
                },
            }
        },
    }
}

/// Whether the question section and every record of the packet can be read.
pub open spec fn scan_complete(p: Seq<u8>) -> bool {
    let h = wire::header(p);
    match question_end(p) {
        None => false,
        Some(q) => match named_end(p, q, h.ancount as nat) {
            None => false,
            Some(a) => match named_end(p, a, h.nscount as nat) {
                None => false,
                Some(b) => named_end(p, b, h.arcount as nat) is Some,
            },
        },
    }
}

/// A record lies inside the packet.
pub proof fn lemma_rr_bounds(p: Seq<u8>, off: int)
    ensures
        rr_at(p, off) matches Some(r) ==> 0 <= off < r.rdata <= r.end <= p.len() && off + 11 <= r.rdata
            && name::name_end(p, off) == Some(r.rdata - 10),
{
    name::lemma_name_end_bounds(p, off);
}

/// The section does not change whether a record can be read.
pub proof fn lemma_named_section(p: Seq<u8>, off: int, a: DnsSection, b: DnsSection)
    ensures
        named_at(p, off, a) is Some <==> named_at(p, off, b) is Some,
        named_at(p, off, a) matches Some(r) ==> named_at(p, off, b)->0.rr == r.rr,
{
}

/// Records whose names can be read are records.
pub proof fn lemma_named_end_is_rr_end(p: Seq<u8>, off: int, n: nat)
    ensures
        named_end(p, off, n) matches Some(e) ==> rr_end(p, off, n) == Some(e),
    decreases n,
{
    if n > 0 {
        if let Some(r) = named_at(p, off, DnsSection::Answer) {
            lemma_named_end_is_rr_end(p, r.rr.end, (n - 1) as nat);
        }
    }
}

/// The list holds all `n` records exactly where they have an end; every record lies inside the
/// packet, and neighbours touch.
pub proof fn lemma_rr_list(p: Seq<u8>, off: int, n: nat)
    requires
        0 <= off,
    ensures
        rr_list(p, off, n).len() <= n,
        rr_list(p, off, n).len() == n <==> rr_end(p, off, n) is Some,
        forall|i: int|
            0 <= i < rr_list(p, off, n).len() ==> {
                let r = #[trigger] rr_list(p, off, n)[i];
                off <= r.start < r.rdata <= r.end <= p.len() && rr_at(p, r.start) == Some(r)
            },
        rr_end(p, off, n) matches Some(e) ==> off <= e && (n > 0 ==> e <= p.len()),
        rr_list(p, off, n).len() > 0 ==> rr_list(p, off, n)[0].start == off,
        forall|i: int|
            0 < i < rr_list(p, off, n).len() ==> (#[trigger] rr_list(p, off, n)[i]).start
                == rr_list(p, off, n)[i - 1].end,
        rr_end(p, off, n) matches Some(e) ==> n > 0 ==> rr_list(p, off, n).last().end == e,
    decreases n,
{
    if n > 0 {
        lemma_rr_bounds(p, off);
        if let Some(r) = rr_at(p, off) {
            let rest = rr_list(p, r.end, (n - 1) as nat);
            lemma_rr_list(p, r.end, (n - 1) as nat);
            let all = rr_list(p, off, n);
            assert(all =~= seq![r] + rest);
            assert forall|i: int| 0 <= i < all.len() implies {
                let s = #[trigger] all[i];
                off <= s.start < s.rdata <= s.end <= p.len() && rr_at(p, s.start) == Some(s)
            } by {
                if i > 0 {
                    assert(all[i] == rest[i - 1]);
                }
            }
            assert forall|i: int| 0 < i < all.len() implies (#[trigger] all[i]).start == all[i
                - 1].end by {
                assert(all[i] == rest[i - 1]);
                if i > 1 {
                    assert(all[i - 1] == rest[i - 2]);
                }
            }
        }
    }
}

#[derive(Debug, Clone, Copy)]
pub struct DnsRr {
    pub start: usize,
    pub rr_type: u16,
    pub rr_class: u16,
    pub ttl: u32,
    pub rdata: usize,
    pub end: usize,
}

impl View for DnsRr {
    type V = Rr;

    open spec fn view(&self) -> Rr {
        Rr {
            start: self.start as int,
            rr_type: self.rr_type,
            rr_class: self.rr_class,
            ttl: self.ttl,
            rdata: self.rdata as int,
            end: self.end as int,
        }
    }
}

/// The records of a list.
pub open spec fn rrs(v: Seq<DnsRr>) -> Seq<Rr> {
    v.map_values(|r: DnsRr| r@)
}

#[derive(Debug, Clone)]
pub struct DnsRecordView {
    pub section: DnsSection,
    pub owner: String,
    pub rr: DnsRr,
}

impl View for DnsRecordView {
    type V = NamedRr;

    open spec fn view(&self) -> NamedRr {
        NamedRr { section: self.section, owner: self.owner@, rr: self.rr@ }
    }
}

/// The records of a list.
pub open spec fn named_rrs(v: Seq<DnsRecordView>) -> Seq<NamedRr> {
    v.map_values(|r: DnsRecordView| r@)
}

/// An offset as the specifications speak of it.
pub open spec fn offset_view(r: Option<usize>) -> Option<int> {
    match r {
        Some(e) => Some(e as int),
        None => None,
    }
}

/// Reads the record at `offset`.
pub fn read_rr(packet: &[u8], offset: usize) -> (r: Option<DnsRr>)
    ensures
        rr_at(packet@, offset as int) == (match r {
            Some(v) => Some(v@),
            None => None,
        }),
        r matches Some(v) ==> v.start == offset && offset < v.rdata <= v.end <= packet@.len(),
{
    match name::skip_name(packet, offset) {
        None => None,
        Some(e) => {
            if packet.len() - e < 10 {
                return None;
            }
            let rdlen: usize = wire::read_u16(packet, e + 8) as usize;
            if packet.len() - e - 10 < rdlen {
                return None;
            }
            Some(
                DnsRr {
                    start: offset,
                    rr_type: wire::read_u16(packet, e),
                    rr_class: wire::read_u16(packet, e + 2),
                    ttl: wire::read_u32(packet, e + 4),
                    rdata: e + 10,
                    end: e + 10 + rdlen,
                },
            )
        },
    }
}

/// Skips the record at `offset`.
pub fn skip_rr(packet: &[u8], offset: usize) -> (r: Option<usize>)
    ensures
        offset_view(r) == (match rr_at(packet@, offset as int) {
            Some(v) => Some(v.end),
            None => None,
        }),
        r matches Some(e) ==> offset < e <= packet@.len(),
{
    match read_rr(packet, offset) {
        Some(v) => Some(v.end),
        None => None,
    }
}

/// Skips `n` records.
pub fn skip_rrs(packet: &[u8], offset: usize, n: u16) -> (r: Option<usize>)
    ensures
        offset_view(r) == rr_end(packet@, offset as int, n as nat),
        r matches Some(e) ==> offset <= e && (e <= packet@.len() || e == offset),
{
    let mut at: usize = offset;
    let mut i: u16 = 0;
    while i < n
        invariant
            i <= n,
            offset <= at,
            at <= packet@.len() || at == offset,
            rr_end(packet@, offset as int, n as nat) == rr_end(
                packet@,
                at as int,
                (n - i) as nat,
            ),
        decreases n - i,
    {
        match skip_rr(packet, at) {
            None => {
                return None;
            },
            Some(next) => {
                at = next;
            },
        }
        i += 1;
    }
    Some(at)
}

/// Skips the question section.
pub fn skip_question_section(packet: &[u8], header: DnsHeader) -> (r: Option<usize>)
    requires
        packet@.len() >= 12,
        header == wire::header(packet@),
    ensures
        offset_view(r) == question_end(packet@),
        r matches Some(e) ==> 12 <= e <= packet@.len(),
{
    let mut at: usize = 12;
    let mut i: u16 = 0;
    while i < header.qdcount
        invariant
            i <= header.qdcount,
            12 <= at <= packet@.len(),
            header == wire::header(packet@),
            question_end(packet@) == questions_end(
                packet@,
                at as int,
                (header.qdcount - i) as nat,
            ),
        decreases header.qdcount - i,
    {
        match name::skip_name(packet, at) {
            None => {
                return None;
            },
            Some(e) => {
                if packet.len() - e < 4 {
                    return None;
                }
                at = e + 4;
            },
        }
        i += 1;
    }
    Some(at)
}

/// The end of the answer section.
pub fn skip_answers(packet: &[u8], header: DnsHeader) -> (r: Option<usize>)
    requires
        packet@.len() >= 12,
        header == wire::header(packet@),
    ensures
        offset_view(r) == answer_end(packet@),
        r matches Some(e) ==> 12 <= e <= packet@.len() && question_end(packet@) is Some
            && question_end(packet@)->0 <= e,
{
    match skip_question_section(packet, header) {
        None => None,
        Some(q) => skip_rrs(packet, q, header.ancount),
    }
}

/// The start of the additional section.
pub fn skip_to_additional(packet: &[u8], header: DnsHeader) -> (r: Option<usize>)
    requires
        packet@.len() >= 12,
        header == wire::header(packet@),
    ensures
        offset_view(r) == additional_start(packet@),
        r matches Some(e) ==> 12 <= e <= packet@.len(),
{
    match skip_answers(packet, header) {
        None => None,
        Some(a) => skip_rrs(packet, a, header.nscount),
    }
}

/// Reads up to `n` records, and tells where they end if none of them is malformed.
pub fn read_rrs(packet: &[u8], offset: usize, n: u16) -> (r: (Vec<DnsRr>, Option<usize>))
    requires
        offset <= packet@.len(),
    ensures
        rrs(r.0@) == rr_list(packet@, offset as int, n as nat),
        offset_view(r.1) == rr_end(packet@, offset as int, n as nat),
        r.1 is Some <==> r.0@.len() == n,
        r.0@.len() <= n,
        r.1 matches Some(e) ==> offset <= e <= packet@.len(),
        forall|i: int|
            0 <= i < r.0@.len() ==> offset <= (#[trigger] r.0@[i]).start < r.0@[i].rdata
                <= r.0@[i].end <= packet@.len(),
{
    let mut out: Vec<DnsRr> = Vec::new();
    let mut at: usize = offset;
    let mut i: u16 = 0;
    let ghost p = packet@;
    assert(rrs(out@) =~= Seq::empty());
    assert(rr_list(p, offset as int, n as nat) =~= Seq::empty() + rr_list(
        p,
        offset as int,
        n as nat,
    ));
    proof {
        lemma_rr_list(p, offset as int, n as nat);
    }
    while i < n
        invariant
            i <= n,
            p == packet@,
            out@.len() == i,
            offset <= at <= packet@.len(),
            rr_list(p, offset as int, n as nat) == rrs(out@) + rr_list(
                p,
                at as int,
                (n - i) as nat,
            ),
            rr_end(p, offset as int, n as nat) == rr_end(p, at as int, (n - i) as nat),
            rr_list(p, offset as int, n as nat).len() == n <==> rr_end(
                p,
                offset as int,
                n as nat,
            ) is Some,
            forall|k: int|
                0 <= k < out@.len() ==> offset <= (#[trigger] out@[k]).start < out@[k].rdata
                    <= out@[k].end <= packet@.len(),
        decreases n - i,
    {
        let ghost before = rrs(out@);
        match read_rr(packet, at) {
            None => {
                assert(rr_list(p, offset as int, n as nat) =~= rrs(out@));
                return (out, None);
            },
            Some(r) => {
                out.push(r);
                let ghost rest = rr_list(p, r.end as int, (n - i - 1) as nat);
                assert(rrs(out@) =~= before.push(r@));
                assert(before + (seq![r@] + rest) =~= rrs(out@) + rest);
                at = r.end;
            },
        }
        i += 1;
    }
    assert(rr_list(p, offset as int, n as nat) =~= rrs(out@));
    (out, Some(at))
}

/// Reads up to `n` records with their names into `out`, and tells where they end if none of
/// them is malformed.
pub fn read_named(
    packet: &[u8],
    offset: usize,
    n: u16,
    section: DnsSection,
    out: &mut Vec<DnsRecordView>,
) -> (r: Option<usize>)
    requires
        offset <= packet@.len(),
    ensures
        named_rrs(final(out)@) == named_rrs(old(out)@) + named_list(
            packet@,
            offset as int,
            n as nat,
            section,
        ),
        offset_view(r) == named_end(packet@, offset as int, n as nat),
        r matches Some(e) ==> offset <= e <= packet@.len(),
{
    let mut at: usize = offset;
    let mut i: u16 = 0;
    let ghost p = packet@;
    let ghost start = named_rrs(out@);
    while i < n
        invariant
            i <= n,
            p == packet@,
            offset <= at <= packet@.len(),
            start + named_list(p, offset as int, n as nat, section) == named_rrs(out@)
                + named_list(p, at as int, (n - i) as nat, section),
            named_end(p, offset as int, n as nat) == named_end(p, at as int, (n - i) as nat),
            start == named_rrs(old(out)@),
        decreases n - i,
    {
        let ghost before = named_rrs(out@);
        proof {
            lemma_named_section(p, at as int, section, DnsSection::Answer);
        }
        match (name::parse_name(packet, at), read_rr(packet, at)) {
            (Some((owner, _)), Some(rr)) => {
                let record = DnsRecordView { section, owner, rr };
                let ghost rest = named_list(p, rr.end as int, (n - i - 1) as nat, section);
                let ghost v = record@;
                out.push(record);
                assert(named_rrs(out@) =~= before.push(v));
                assert(before + (seq![v] + rest) =~= named_rrs(out@) + rest);
                at = rr.end;
            },
            _ => {
                assert(named_rrs(out@) + Seq::<NamedRr>::empty() =~= named_rrs(out@));
                return None;
            },
        }
        i += 1;
    }
    assert(named_rrs(out@) + Seq::<NamedRr>::empty() =~= named_rrs(out@));
    Some(at)
}

/// Reads the records of all sections, up to the first that is malformed, and tells whether the
/// whole packet could be read.
pub fn scan_resource_records(packet: &[u8], header: DnsHeader) -> (r: (Vec<DnsRecordView>, bool))
    requires
        packet@.len() >= 12,
        header == wire::header(packet@),
    ensures
        named_rrs(r.0@) == scanned(packet@),
        r.1 == scan_complete(packet@),
        forall|i: int|
            0 <= i < r.0@.len() ==> (#[trigger] r.0@[i]).rr.rdata <= r.0@[i].rr.end
                <= packet@.len(),
{
    let mut out: Vec<DnsRecordView> = Vec::new();
    let ghost p = packet@;
    assert(named_rrs(out@) =~= Seq::empty());
    let complete = match skip_question_section(packet, header) {
        None => false,
        Some(q) => match read_named(packet, q, header.ancount, DnsSection::Answer, &mut out) {
            None => false,
            Some(a) => match read_named(
                packet,
                a,
                header.nscount,
                DnsSection::Authority,
                &mut out,
            ) {
                None => false,
                Some(b) => read_named(
                    packet,
                    b,
                    header.arcount,
                    DnsSection::Additional,
                    &mut out,
                ).is_some(),
            },
        },
    };
    assert(named_rrs(out@) =~= scanned(p));
    proof {
        lemma_scanned_bounds(p);
        assert forall|i: int| 0 <= i < out@.len() implies (#[trigger] out@[i]).rr.rdata
            <= out@[i].rr.end <= p.len() by {
            assert(named_rrs(out@)[i] == out@[i]@);
        }
    }
    (out, complete)
}

pub proof fn lemma_named_list_bounds(p: Seq<u8>, off: int, n: nat, section: DnsSection)
    ensures
        forall|i: int|
            0 <= i < named_list(p, off, n, section).len() ==> {
                let r = #[trigger] named_list(p, off, n, section)[i];
                0 < r.rr.rdata <= r.rr.end <= p.len() && r.section == section
            },
    decreases n,
{
    if n > 0 {
        lemma_rr_bounds(p, off);
        if let Some(r) = named_at(p, off, section) {
            lemma_named_list_bounds(p, r.rr.end, (n - 1) as nat, section);
        }
    }
}

/// The data of every scanned record lies inside the packet.
pub proof fn lemma_scanned_bounds(p: Seq<u8>)
    ensures
        forall|i: int|
            0 <= i < scanned(p).len() ==> 0 < (#[trigger] scanned(p)[i]).rr.rdata
                <= scanned(p)[i].rr.end <= p.len(),
{
    let h = wire::header(p);
    if let Some(q) = question_end(p) {
        lemma_named_list_bounds(p, q, h.ancount as nat, DnsSection::Answer);
        if let Some(a) = named_end(p, q, h.ancount as nat) {
            lemma_named_list_bounds(p, a, h.nscount as nat, DnsSection::Authority);
            if let Some(b) = named_end(p, a, h.nscount as nat) {
                lemma_named_list_bounds(p, b, h.arcount as nat, DnsSection::Additional);
            }
        }
    }
}

} // verus!
