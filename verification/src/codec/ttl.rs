//! Times to live: what a cache takes from a response, and their decay.
use crate::codec::name;
use crate::codec::rr;
use crate::codec::wire;
use vstd::prelude::*;

verus! {

/// The number of records that the header counts.
pub open spec fn record_count(p: Seq<u8>) -> nat {
    (wire::header(p).ancount + wire::header(p).nscount + wire::header(p).arcount) as nat
}

/// The smallest time to live in a list, OPT records left out.
pub open spec fn min_ttl(list: Seq<rr::Rr>) -> Option<u32>
    decreases list.len(),
{
    if list.len() == 0 {
        None
    } else {
        let r = list.last();
        match min_ttl(list.drop_last()) {
            None => if r.rr_type == 41 {
                None
            } else {
                Some(r.ttl)
            },
            Some(t) => if r.rr_type == 41 || t <= r.ttl {
                Some(t)
            } else {
                Some(r.ttl)
            },
        }
    }
}

/// How long a response may be cached: the smallest time to live of its records; not at all
/// where it has none or one of them is malformed.
pub open spec fn cache_ttl(p: Seq<u8>) -> Option<u32> {
    if p.len() < 12 {
        None
    } else {
        match rr::question_end(p) {
            None => None,
            Some(q) => if rr::rr_end(p, q, record_count(p)) is None {
                None
            } else {
                min_ttl(rr::rr_list(p, q, record_count(p)))
            },
        }
    }
}

/// What an authority SOA record allows for a negative answer: the smaller of its time to live
/// and its minimum field.
pub open spec fn soa_ttl(p: Seq<u8>, r: rr::NamedRr) -> Option<u32> {
    if r.section != rr::DnsSection::Authority || r.rr.rr_class != 1 || r.rr.rr_type != 6 {
        None
    } else {
        match name::name_at(p, r.rr.rdata) {
            None => None,
            Some((_, m)) => match name::name_at(p, m) {
                None => None,
                Some((_, e)) => if e + 20 > p.len() {
                    None
                } else if r.rr.ttl <= wire::be32(p, e + 16) {
                    Some(r.rr.ttl)
                } else {
                    Some(wire::be32(p, e + 16))
                },
            },
        }
    }
}

/// The first time that a record of the list gives.
pub open spec fn first_soa_ttl(p: Seq<u8>, list: Seq<rr::NamedRr>) -> Option<u32>
    decreases list.len(),
{
    if list.len() == 0 {
        None
    } else if soa_ttl(p, list[0]) is Some {
        soa_ttl(p, list[0])
    } else {
        first_soa_ttl(p, list.drop_first())
    }
}

/// How long a negative answer may be cached.
pub open spec fn negative_ttl(p: Seq<u8>) -> Option<u32> {
    if p.len() < 12 {
        None
    } else {
        first_soa_ttl(p, rr::scanned(p))
    }
}

pub open spec fn sub_floor(a: u32, b: u32) -> u32 {
    if a <= b {
        0
    } else {
        (a - b) as u32
    }
}

/// The packet with the times to live of `n` records from `off` on lowered by `secs`, down to
/// zero. A malformed record ends the walk; where only its data reaches past the packet its
/// time to live is still lowered.
pub open spec fn decayed_from(p: Seq<u8>, off: int, n: nat, secs: u32) -> Seq<u8>
    decreases n,
{
    if n == 0 {
        p
    } else {
        match name::name_end(p, off) {
            None => p,
            Some(e) => if e + 10 > p.len() {
                p
            } else {
                let q = wire::put32(p, e + 4, sub_floor(wire::be32(p, e + 4), secs));
                let next = e + 10 + wire::be16(p, e + 8);
                if next > p.len() {
                    q
                } else {
                    decayed_from(q, next, (n - 1) as nat, secs)
                }
            },
        }
    }
}

/// A response that was cached `secs` seconds ago, as it is served now.
pub open spec fn decayed(p: Seq<u8>, secs: u32) -> Seq<u8> {
    if p.len() < 12 {
        p
    } else {
        match rr::question_end(p) {
            None => p,
            Some(q) => decayed_from(p, q, record_count(p), secs),
        }
    }
}

/// Seconds as a 32-bit number of them.
pub open spec fn cap_secs(secs: u64) -> u32 {
    if secs > u32::MAX {
        u32::MAX
    } else {
        secs as u32
    }
}

/// How long, in seconds, a response may be cached.
pub fn extract_cache_ttl(packet: &[u8]) -> (r: Option<u64>)
    ensures
        r == (match cache_ttl(packet@) {
            Some(t) => Some(t as u64),
            None => None,
        }),
{
    let header = match wire::parse_header(packet) {
        None => {
            return None;
        },
        Some(h) => h,
    };
    let start = match rr::skip_question_section(packet, header) {
        None => {
            return None;
        },
        Some(s) => s,
    };
    let total: usize = header.ancount as usize + header.nscount as usize + header.arcount as usize;
    let mut smallest: Option<u32> = None;
    let mut at: usize = start;
    let mut i: usize = 0;
    let ghost p = packet@;
    let ghost done = Seq::<rr::Rr>::empty();
    assert(done + rr::rr_list(p, start as int, total as nat) =~= rr::rr_list(
        p,
        start as int,
        total as nat,
    ));
    while i < total
        invariant
            i <= total,
            p == packet@,
            at <= p.len(),
            total == record_count(p),
            p.len() >= 12,
            rr::question_end(p) == Some(start as int),
            rr::rr_list(p, start as int, total as nat) == done + rr::rr_list(
                p,
                at as int,
                (total - i) as nat,
            ),
            rr::rr_end(p, start as int, total as nat) == rr::rr_end(
                p,
                at as int,
                (total - i) as nat,
            ),
            smallest == min_ttl(done),
        decreases total - i,
    {
        match rr::read_rr(packet, at) {
            None => {
                return None;
            },
            Some(r) => {
                proof {
                    let rest = rr::rr_list(p, r.end as int, (total - i - 1) as nat);
                    assert(done + (seq![r@] + rest) =~= done.push(r@) + rest);
                    assert(done.push(r@).drop_last() =~= done);
                    done = done.push(r@);
                }
                if r.rr_type != 41 {
                    smallest =
                    match smallest {
                        None => Some(r.ttl),
                        Some(t) => if t <= r.ttl {
                            Some(t)
                        } else {
                            Some(r.ttl)
                        },
                    };
                }
                at = r.end;
            },
        }
        i += 1;
    }
    assert(done + Seq::<rr::Rr>::empty() =~= done);
    match smallest {
        Some(t) => Some(t as u64),
        None => None,
    }
}

/// How long, in seconds, a negative answer may be cached.
pub fn extract_negative_cache_ttl(packet: &[u8]) -> (r: Option<u64>)
    ensures
        r == (match negative_ttl(packet@) {
            Some(t) => Some(t as u64),
            None => None,
        }),
{
    let header = match wire::parse_header(packet) {
        None => {
            return None;
        },
        Some(h) => h,
    };
    let (records, _) = rr::scan_resource_records(packet, header);
    let ghost p = packet@;
    let ghost list = rr::scanned(p);
    let size: usize = packet.len();
    let mut i: usize = 0;
    assert(list.skip(0) =~= list);
    while i < records.len()
        invariant
            i <= records.len(),
            p == packet@,
            size == p.len(),
            p.len() >= 12,
            list == rr::scanned(p),
            list == rr::named_rrs(records@),
            first_soa_ttl(p, list) == first_soa_ttl(p, list.skip(i as int)),
        decreases records.len() - i,
    {
        let r = &records[i];
        assert(list.skip(i as int)[0] == records@[i as int]@);
        assert(list.skip(i as int).drop_first() =~= list.skip(i + 1));
        if r.section == rr::DnsSection::Authority && r.rr.rr_class == 1 && r.rr.rr_type == 6 {
            if let Some((_, m)) = name::parse_name(packet, r.rr.rdata) {
                let rname: usize = r.rr.rdata + m;
                if let Some((_, k)) = name::parse_name(packet, rname) {
                    let fields: usize = rname + k;
                    if size - fields >= 20 {
                        let minimum = wire::read_u32(packet, fields + 16);
                        return Some(
                            if r.rr.ttl <= minimum {
                                r.rr.ttl as u64
                            } else {
                                minimum as u64
                            },
                        );
                    }
                }
            }
        }
        i += 1;
    }
    None
}

/// Lowers the times to live of a response that was cached `elapsed_secs` seconds ago.
pub fn decay_response_ttl_in_place(packet: &mut [u8], elapsed_secs: u64)
    ensures
        final(packet)@ == decayed(old(packet)@, cap_secs(elapsed_secs)),
{
    let header = match wire::parse_header(packet) {
        None => {
            return ;
        },
        Some(h) => h,
    };
    let secs: u32 = if elapsed_secs > u32::MAX as u64 {
        u32::MAX
    } else {
        elapsed_secs as u32
    };
    let start = match rr::skip_question_section(packet, header) {
        None => {
            return ;
        },
        Some(s) => s,
    };
    let total: usize = header.ancount as usize + header.nscount as usize + header.arcount as usize;
    let mut at: usize = start;
    let mut i: usize = 0;
    while i < total
        invariant
            i <= total,
            at <= packet@.len(),
            packet@.len() == old(packet)@.len(),
            secs == cap_secs(elapsed_secs),
            decayed(old(packet)@, secs) == decayed_from(
                packet@,
                at as int,
                (total - i) as nat,
                secs,
            ),
        decreases total - i,
    {
        match name::skip_name(packet, at) {
            None => {
                return ;
            },
            Some(e) => {
                if packet.len() - e < 10 {
                    return ;
                }
                let ttl = wire::read_u32(packet, e + 4);
                let left: u32 = if ttl <= secs {
                    0
                } else {
                    ttl - secs
                };
                let rdlen: usize = wire::read_u16(packet, e + 8) as usize;
                packet[e + 4] = (left / 0x100_0000) as u8;
                packet[e + 5] = (left / 0x1_0000 % 256) as u8;
                packet[e + 6] = (left / 0x100 % 256) as u8;
                packet[e + 7] = (left % 256) as u8;
                if packet.len() - e - 10 < rdlen {
                    return ;
                }
                at = e + 10 + rdlen;
            },
        }
        i += 1;
    }
}

} // verus!
