//! Records without name compression.
use crate::codec::edns;
use crate::codec::name;
use crate::codec::respond;
use crate::codec::rr;
use crate::codec::wire;
use vstd::prelude::*;
use vstd::slice::*;

verus! {

/// How the data of a record type begins that holds names: bytes of fixed number, character
/// strings, and names, whatever may follow.
pub ghost struct LayoutV {
    pub fixed: nat,
    pub strings: nat,
    pub names: nat,
}

/// The layout of a record type whose data may hold compressed names; no names for any other type.
pub open spec fn layout_of(rr_type: u16) -> LayoutV {
    if rr_type == 2 || rr_type == 3 || rr_type == 4 || rr_type == 5 || rr_type == 7 || rr_type == 8
        || rr_type == 9 || rr_type == 12 || rr_type == 30 || rr_type == 39 {
        // NS, MD, MF, CNAME, MB, MG, MR, PTR, NXT, DNAME
        LayoutV { fixed: 0, strings: 0, names: 1 }
    } else if rr_type == 6 || rr_type == 14 || rr_type == 17 {
        // SOA, MINFO, RP
        LayoutV { fixed: 0, strings: 0, names: 2 }
    } else if rr_type == 15 || rr_type == 18 || rr_type == 21 || rr_type == 36 {
        // MX, AFSDB, RT, KX
        LayoutV { fixed: 2, strings: 0, names: 1 }
    } else if rr_type == 26 {
        // PX
        LayoutV { fixed: 2, strings: 0, names: 2 }
    } else if rr_type == 33 {
        // SRV
        LayoutV { fixed: 6, strings: 0, names: 1 }
    } else if rr_type == 35 {
        // NAPTR
        LayoutV { fixed: 4, strings: 3, names: 1 }
    } else if rr_type == 24 {
        // SIG
        LayoutV { fixed: 18, strings: 0, names: 1 }
    } else {
        LayoutV { fixed: 0, strings: 0, names: 0 }
    }
}

/// Where `n` character strings from `off` on end, if they do so up to `end`.
pub open spec fn strings_end(p: Seq<u8>, off: int, n: nat, end: int) -> Option<int>
    decreases n,
{
    if off > end {
        None
    } else if n == 0 {
        Some(off)
    } else if off == end {
        None
    } else {
        strings_end(p, off + 1 + p[off], (n - 1) as nat, end)
    }
}

/// The bytes of the name that starts at `off` as they are without compression, and where it ends in
/// the packet. A label takes at most 63 bytes; at most sixteen pointers are followed.
pub open spec fn plain_name(p: Seq<u8>, off: int, depth: nat) -> Option<(Seq<u8>, int)>
    decreases 17 - depth, p.len() - off,
{
    if depth > 16 || off < 0 || off >= p.len() {
        None
    } else if p[off] >= 192 {
        if off + 1 >= p.len() {
            None
        } else {
            match plain_name(p, name::pointer_target(p, off), depth + 1) {
                None => None,
                Some((b, _)) => Some((b, off + 2)),
            }
        }
    } else if p[off] == 0 {
        Some((seq![0u8], off + 1))
    } else if p[off] > 63 || off + 1 + p[off] > p.len() {
        None
    } else {
        match plain_name(p, off + 1 + p[off], depth) {
            None => None,
            Some((rest, end)) => Some((p.subrange(off, off + 1 + p[off]) + rest, end)),
        }
    }
}

/// `n` names from `off` on as they are without compression, and where they end in the packet. None
/// where a name cannot be followed, or ends behind `end`.
pub open spec fn plain_names(p: Seq<u8>, off: int, n: nat, end: int) -> Option<(Seq<u8>, int)>
    decreases n,
{
    if n == 0 {
        Some((Seq::empty(), off))
    } else {
        match plain_name(p, off, 0) {
            None => None,
            Some((b, e)) => match plain_names(p, e, (n - 1) as nat, end) {
                Some((rest, last)) if e <= end => Some((b + rest, last)),
                _ => None,
            },
        }
    }
}

/// Where the names in the data of a record begin, the names without compression, and where they
/// end. None where the data does not hold the names that its type asks for.
pub open spec fn names_in(p: Seq<u8>, r: rr::NamedRr) -> Option<(int, Seq<u8>, int)> {
    let layout = layout_of(r.rr.rr_type);
    match strings_end(p, r.rr.rdata + layout.fixed, layout.strings, r.rr.end) {
        None => None,
        Some(at) => match plain_names(p, at, layout.names, r.rr.end) {
            None => None,
            Some((names, e)) => Some((at, names, e)),
        },
    }
}

/// Whether a record is an alias of class IN.
pub open spec fn is_alias(r: rr::NamedRr) -> bool {
    r.rr.rr_type == 5 && r.rr.rr_class == 1
}

/// The data of a record with each name in it written without compression and all other bytes as
/// they are. The data of an alias of class IN is its name alone, and none where the name cannot
/// be read or written; other data that does not hold the names that its type asks for stays as
/// it is.
pub open spec fn plain_data(p: Seq<u8>, r: rr::NamedRr) -> Option<Seq<u8>> {
    if is_alias(r) {
        match name::name_at(p, r.rr.rdata) {
            None => None,
            Some((t, _)) => name::name_bytes(t),
        }
    } else {
        match names_in(p, r) {
            None => Some(p.subrange(r.rr.rdata, r.rr.end)),
            Some((at, names, e)) => Some(
                p.subrange(r.rr.rdata, at) + names + p.subrange(e, r.rr.end),
            ),
        }
    }
}

/// A record without name compression in its owner name and in its data.
pub open spec fn plain_record(p: Seq<u8>, r: rr::NamedRr) -> Option<Seq<u8>> {
    match (name::name_bytes(r.owner), plain_data(p, r)) {
        (Some(owner), Some(data)) => Some(
            owner + respond::rr_tail(r.rr.rr_type, r.rr.rr_class, r.rr.ttl, data),
        ),
        _ => None,
    }
}

/// The records of a list without name compression; none where one cannot be written.
pub open spec fn plain_records(p: Seq<u8>, list: Seq<rr::NamedRr>) -> Option<Seq<u8>>
    decreases list.len(),
{
    if list.len() == 0 {
        Some(Seq::empty())
    } else {
        match (plain_records(p, list.drop_last()), plain_record(p, list.last())) {
            (Some(before), Some(r)) => Some(before + r),
            _ => None,
        }
    }
}

/// How the data of a record type begins that holds names.
struct Layout {
    fixed: usize,
    strings: usize,
    names: usize,
}

fn find_layout(rr_type: u16) -> (r: Layout)
    ensures
        layout_of(rr_type) == (LayoutV {
            fixed: r.fixed as nat,
            strings: r.strings as nat,
            names: r.names as nat,
        }),
        r.fixed <= 18,
{
    match rr_type {
        2 | 3 | 4 | 5 | 7 | 8 | 9 | 12 | 30 | 39 => Layout { fixed: 0, strings: 0, names: 1 },
        6 | 14 | 17 => Layout { fixed: 0, strings: 0, names: 2 },
        15 | 18 | 21 | 36 => Layout { fixed: 2, strings: 0, names: 1 },
        26 => Layout { fixed: 2, strings: 0, names: 2 },
        33 => Layout { fixed: 6, strings: 0, names: 1 },
        35 => Layout { fixed: 4, strings: 3, names: 1 },
        24 => Layout { fixed: 18, strings: 0, names: 1 },
        _ => Layout { fixed: 0, strings: 0, names: 0 },
    }
}

/// Skips `n` character strings.
fn skip_strings(packet: &[u8], offset: usize, n: usize, end: usize) -> (r: Option<usize>)
    requires
        end <= packet@.len(),
    ensures
        strings_end(packet@, offset as int, n as nat, end as int) == (match r {
            Some(e) => Some(e as int),
            None => None,
        }),
        r matches Some(e) ==> offset <= e <= end,
{
    let mut at: usize = offset;
    let mut left: usize = n;
    while left > 0
        invariant
            end <= packet@.len(),
            offset <= at,
            at == offset || at <= end,
            left <= n,
            strings_end(packet@, offset as int, n as nat, end as int) == strings_end(
                packet@,
                at as int,
                left as nat,
                end as int,
            ),
        decreases left,
    {
        if at >= end {
            return None;
        }
        let len = packet[at] as usize;
        if len >= end - at {
            assert(strings_end(
                packet@,
                at + 1 + packet@[at as int],
                (left - 1) as nat,
                end as int,
            ) is None);
            return None;
        }
        at = at + 1 + len;
        left = left - 1;
    }
    if at > end {
        None
    } else {
        Some(at)
    }
}

/// Appends the name at `offset` without compression; tells where it ends in the packet.
fn push_plain_name(packet: &[u8], offset: usize, out: &mut Vec<u8>) -> (r: Option<usize>)
    ensures
        r is Some <==> plain_name(packet@, offset as int, 0) is Some,
        r matches Some(e) ==> plain_name(packet@, offset as int, 0) matches Some((b, end)) && end
            == e && final(out)@ == old(out)@ + b && offset < e <= packet@.len(),
{
    let ghost p = packet@;
    let ghost start = out@;
    let mut at: usize = offset;
    let mut depth: usize = 0;
    let mut end: Option<usize> = None;
    let ghost mut done: Seq<u8> = Seq::empty();
    assert(start + done =~= start);
    assert(plain_name(p, at as int, 0) matches Some((rest, e)) ==> done + rest =~= rest);
    loop
        invariant
            p == packet@,
            start == old(out)@,
            depth <= 16,
            end is None ==> offset <= at && depth == 0,
            end matches Some(e) ==> offset < e <= p.len(),
            out@ == start + done,
            plain_name(p, offset as int, 0) == (match plain_name(p, at as int, depth as nat) {
                None => None,
                Some((rest, e)) => Some(
                    (
                        done + rest,
                        match end {
                            Some(first) => first as int,
                            None => e,
                        },
                    ),
                ),
            }),
        decreases 17 - depth, p.len() - at,
    {
        if at >= packet.len() {
            return None;
        }
        let len = packet[at];
        if len >= 192 {
            if packet.len() - at < 2 {
                return None;
            }
            if depth == 16 {
                assert(plain_name(p, name::pointer_target(p, at as int), 17) is None);
                return None;
            }
            if end.is_none() {
                end = Some(at + 2);
            }
            at = (len as usize - 192) * 256 + packet[at + 1] as usize;
            depth += 1;
        } else if len == 0 {
            out.push(0);
            assert(out@ =~= start + (done + seq![0u8]));
            return match end {
                Some(first) => Some(first),
                None => Some(at + 1),
            };
        } else {
            if len > 63 || len as usize > packet.len() - at - 1 {
                return None;
            }
            let next = at + 1 + len as usize;
            let ghost before = done;
            let ghost label = p.subrange(at as int, next as int);
            wire::push_bytes(out, slice_subrange(packet, at, next));
            proof {
                done = before + label;
                if let Some((rest, _)) = plain_name(p, next as int, depth as nat) {
                    assert(before + (label + rest) =~= done + rest);
                }
            }
            assert(out@ =~= start + done);
            at = next;
        }
    }
}

/// Writes `n` names without compression; also tells where they end in the packet.
fn write_plain_names(packet: &[u8], offset: usize, n: usize, end: usize) -> (r: Option<
    (Vec<u8>, usize),
>)
    requires
        offset <= end <= packet@.len(),
    ensures
        plain_names(packet@, offset as int, n as nat, end as int) == (match r {
            Some((b, e)) => Some((b@, e as int)),
            None => None,
        }),
        r matches Some((_, e)) ==> offset <= e <= end,
    decreases n,
{
    let mut out: Vec<u8> = Vec::new();
    if n == 0 {
        assert(out@ =~= Seq::empty());
        return Some((out, offset));
    }
    match push_plain_name(packet, offset, &mut out) {
        None => None,
        Some(next) => {
            assert(out@ =~= (plain_name(packet@, offset as int, 0)->0).0);
            if next > end {
                return None;
            }
            match write_plain_names(packet, next, n - 1, end) {
                None => None,
                Some((rest, last)) => {
                    wire::push_bytes(&mut out, rest.as_slice());
                    Some((out, last))
                },
            }
        },
    }
}

/// Where the names in the data of a record begin, the names without compression, and where they
/// end.
fn read_names(packet: &[u8], r: &rr::DnsRecordView) -> (found: Option<(usize, Vec<u8>, usize)>)
    requires
        r.rr.rdata <= r.rr.end <= packet@.len(),
    ensures
        names_in(packet@, r@) == (match found {
            Some((at, names, e)) => Some((at as int, names@, e as int)),
            None => None,
        }),
        found matches Some((at, _, e)) ==> r.rr.rdata <= at <= e <= r.rr.end,
{
    let layout = find_layout(r.rr.rr_type);
    if layout.fixed > r.rr.end - r.rr.rdata {
        return None;
    }
    match skip_strings(packet, r.rr.rdata + layout.fixed, layout.strings, r.rr.end) {
        None => None,
        Some(at) => match write_plain_names(packet, at, layout.names, r.rr.end) {
            None => None,
            Some((names, e)) => Some((at, names, e)),
        },
    }
}

/// The data of a record without name compression.
fn write_plain_data(packet: &[u8], r: &rr::DnsRecordView) -> (data: Option<Vec<u8>>)
    requires
        r.rr.rdata <= r.rr.end <= packet@.len(),
    ensures
        edns::bytes_view(data) == plain_data(packet@, r@),
{
    if r.rr.rr_type == 5 && r.rr.rr_class == 1 {
        return match name::parse_name(packet, r.rr.rdata) {
            None => None,
            Some((t, _)) => {
                let mut data: Vec<u8> = Vec::new();
                if name::encode_name(t.as_str(), &mut data).is_none() {
                    return None;
                }
                assert(data@ =~= name::name_bytes(t@)->0);
                Some(data)
            },
        };
    }
    match read_names(packet, r) {
        None => Some(wire::part(packet, r.rr.rdata, r.rr.end)),
        Some((at, names, e)) => {
            let mut data = wire::part(packet, r.rr.rdata, at);
            wire::push_bytes(&mut data, names.as_slice());
            wire::push_bytes(&mut data, slice_subrange(packet, e, r.rr.end));
            Some(data)
        },
    }
}

/// Appends a record without name compression; false where it cannot be written.
pub(crate) fn push_plain_record(packet: &[u8], r: &rr::DnsRecordView, out: &mut Vec<u8>) -> (ok: bool)
    requires
        r.rr.rdata <= r.rr.end <= packet@.len(),
    ensures
        ok == (plain_record(packet@, r@) is Some),
        ok ==> final(out)@ == old(out)@ + plain_record(packet@, r@)->0,
{
    let ghost start = out@;
    if name::encode_name(r.owner.as_str(), out).is_none() {
        return false;
    }
    match write_plain_data(packet, r) {
        None => false,
        Some(data) => {
            respond::push_rr_tail(
                out,
                r.rr.rr_type,
                r.rr.rr_class,
                r.rr.ttl,
                data.as_slice(),
            );
            assert(out@ =~= start + plain_record(packet@, r@)->0);
            true
        },
    }
}

pub(crate) proof fn lemma_plain_records_prefix(p: Seq<u8>, list: Seq<rr::NamedRr>, i: int)
    requires
        0 <= i <= list.len(),
        plain_records(p, list.take(i)) is None,
    ensures
        plain_records(p, list) is None,
    decreases list.len(),
{
    if i < list.len() {
        assert(list.drop_last().take(i) =~= list.take(i));
        lemma_plain_records_prefix(p, list.drop_last(), i);
    } else {
        assert(list.take(i) =~= list);
    }
}

} // verus!
