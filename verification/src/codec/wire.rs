//! Big-endian integers in packets, and the packet header.
use vstd::prelude::*;
use vstd::slice::*;

verus! {

/// The 16-bit big-endian integer at `i`.
pub open spec fn be16(p: Seq<u8>, i: int) -> u16 {
    (p[i] * 256 + p[i + 1]) as u16
}

/// The 32-bit big-endian integer at `i`.
pub open spec fn be32(p: Seq<u8>, i: int) -> u32 {
    (p[i] * 0x100_0000 + p[i + 1] * 0x1_0000 + p[i + 2] * 0x100 + p[i + 3]) as u32
}

/// Big-endian bytes of a 16-bit integer.
pub open spec fn bytes16(v: u16) -> Seq<u8> {
    seq![(v / 256) as u8, (v % 256) as u8]
}

/// Big-endian bytes of a 32-bit integer.
pub open spec fn bytes32(v: u32) -> Seq<u8> {
    seq![
        (v / 0x100_0000) as u8,
        (v / 0x1_0000 % 256) as u8,
        (v / 0x100 % 256) as u8,
        (v % 256) as u8,
    ]
}

/// `p` with the two bytes at `i` replaced by those of `v`.
pub open spec fn put16(p: Seq<u8>, i: int, v: u16) -> Seq<u8> {
    p.update(i, (v / 256) as u8).update(i + 1, (v % 256) as u8)
}

/// `p` with the four bytes at `i` replaced by those of `v`.
pub open spec fn put32(p: Seq<u8>, i: int, v: u32) -> Seq<u8> {
    p.update(i, (v / 0x100_0000) as u8).update(i + 1, (v / 0x1_0000 % 256) as u8).update(
        i + 2,
        (v / 0x100 % 256) as u8,
    ).update(i + 3, (v % 256) as u8)
}

/// The length of `n` bytes as it is written into a 16-bit field: its low 16 bits.
pub open spec fn len16(n: nat) -> u16 {
    (n % 65536) as u16
}

#[derive(Debug, Clone, Copy)]
pub struct DnsHeader {
    pub id: u16,
    pub flags: u16,
    pub qdcount: u16,
    pub ancount: u16,
    pub nscount: u16,
    pub arcount: u16,
}

/// The header of a packet of at least twelve bytes.
pub open spec fn header(p: Seq<u8>) -> DnsHeader {
    DnsHeader {
        id: be16(p, 0),
        flags: be16(p, 2),
        qdcount: be16(p, 4),
        ancount: be16(p, 6),
        nscount: be16(p, 8),
        arcount: be16(p, 10),
    }
}

/// The twelve bytes of a header.
pub open spec fn header_bytes(h: DnsHeader) -> Seq<u8> {
    bytes16(h.id) + bytes16(h.flags) + bytes16(h.qdcount) + bytes16(h.ancount) + bytes16(h.nscount)
        + bytes16(h.arcount)
}

/// A 16-bit integer is read back from its bytes.
pub proof fn lemma_be16_bytes(p: Seq<u8>, i: int, v: u16)
    requires
        0 <= i,
        i + 2 <= p.len(),
        p.subrange(i, i + 2) == bytes16(v),
    ensures
        be16(p, i) == v,
{
    assert(p[i] == p.subrange(i, i + 2)[0]);
    assert(p[i + 1] == p.subrange(i, i + 2)[1]);
}

/// A 32-bit integer is read back from its bytes.
pub proof fn lemma_be32_bytes(p: Seq<u8>, i: int, v: u32)
    requires
        0 <= i,
        i + 4 <= p.len(),
        p.subrange(i, i + 4) == bytes32(v),
    ensures
        be32(p, i) == v,
{
    let q = p.subrange(i, i + 4);
    assert(p[i] == q[0]);
    assert(p[i + 1] == q[1]);
    assert(p[i + 2] == q[2]);
    assert(p[i + 3] == q[3]);
}

/// A header is read back from its bytes.
pub proof fn lemma_header_bytes(p: Seq<u8>, h: DnsHeader)
    requires
        p.len() >= 12,
        p.take(12) == header_bytes(h),
    ensures
        header(p) == h,
{
    let q = header_bytes(h);
    assert forall|i: int| 0 <= i < 12 implies p[i] == #[trigger] q[i] by {
        assert(p.take(12)[i] == p[i]);
    }
    assert(q[0] == (h.id / 256) as u8 && q[1] == (h.id % 256) as u8);
    assert(q[2] == (h.flags / 256) as u8 && q[3] == (h.flags % 256) as u8);
    assert(q[4] == (h.qdcount / 256) as u8 && q[5] == (h.qdcount % 256) as u8);
    assert(q[6] == (h.ancount / 256) as u8 && q[7] == (h.ancount % 256) as u8);
    assert(q[8] == (h.nscount / 256) as u8 && q[9] == (h.nscount % 256) as u8);
    assert(q[10] == (h.arcount / 256) as u8 && q[11] == (h.arcount % 256) as u8);
}

pub fn read_u16(p: &[u8], i: usize) -> (r: u16)
    requires
        i + 1 < p@.len(),
    ensures
        r == be16(p@, i as int),
{
    p[i] as u16 * 256 + p[i + 1] as u16
}

pub fn read_u32(p: &[u8], i: usize) -> (r: u32)
    requires
        i + 3 < p@.len(),
    ensures
        r == be32(p@, i as int),
{
    p[i] as u32 * 0x100_0000 + p[i + 1] as u32 * 0x1_0000 + p[i + 2] as u32 * 0x100 + p[i
        + 3] as u32
}

pub fn push_u16(out: &mut Vec<u8>, v: u16)
    ensures
        final(out)@ == old(out)@ + bytes16(v),
{
    out.push((v / 256) as u8);
    out.push((v % 256) as u8);
    assert(out@ =~= old(out)@ + bytes16(v));
}

pub fn push_u32(out: &mut Vec<u8>, v: u32)
    ensures
        final(out)@ == old(out)@ + bytes32(v),
{
    out.push((v / 0x100_0000) as u8);
    out.push((v / 0x1_0000 % 256) as u8);
    out.push((v / 0x100 % 256) as u8);
    out.push((v % 256) as u8);
    assert(out@ =~= old(out)@ + bytes32(v));
}

pub fn push_bytes(out: &mut Vec<u8>, bytes: &[u8])
    ensures
        final(out)@ == old(out)@ + bytes@,
{
    out.extend_from_slice(bytes);
    assert(out@ =~= old(out)@ + bytes@);
}

pub fn put_u16(out: &mut Vec<u8>, i: usize, v: u16)
    requires
        i + 1 < old(out)@.len(),
    ensures
        final(out)@ == put16(old(out)@, i as int, v),
{
    let _n: usize = out.len();
    out[i] = (v / 256) as u8;
    out[i + 1] = (v % 256) as u8;
}

/// The bytes from `start` to `end`.
pub fn part(p: &[u8], start: usize, end: usize) -> (r: Vec<u8>)
    requires
        start <= end <= p@.len(),
    ensures
        r@ == p@.subrange(start as int, end as int),
{
    slice_to_vec(slice_subrange(p, start, end))
}

/// Equality of byte strings.
pub fn same_bytes(a: &[u8], b: &[u8]) -> (r: bool)
    ensures
        r == (a@ == b@),
{
    if a.len() != b.len() {
        return false;
    }
    let mut i: usize = 0;
    while i < a.len()
        invariant
            i <= a.len(),
            a@.len() == b@.len(),
            forall|k: int| 0 <= k < i ==> a@[k] == b@[k],
        decreases a.len() - i,
    {
        if a[i] != b[i] {
            return false;
        }
        i += 1;
    }
    assert(a@ =~= b@);
    true
}

/// The header of `packet`, or nothing where the packet is shorter than a header.
pub fn parse_header(packet: &[u8]) -> (r: Option<DnsHeader>)
    ensures
        r == (if packet@.len() < 12 { None } else { Some(header(packet@)) }),
{
    if packet.len() < 12 {
        return None;
    }
    Some(
        DnsHeader {
            id: read_u16(packet, 0),
            flags: read_u16(packet, 2),
            qdcount: read_u16(packet, 4),
            ancount: read_u16(packet, 6),
            nscount: read_u16(packet, 8),
            arcount: read_u16(packet, 10),
        },
    )
}

/// Appends the twelve bytes of a header.
pub fn push_header(out: &mut Vec<u8>, h: DnsHeader)
    ensures
        final(out)@ == old(out)@ + header_bytes(h),
{
    push_u16(out, h.id);
    push_u16(out, h.flags);
    push_u16(out, h.qdcount);
    push_u16(out, h.ancount);
    push_u16(out, h.nscount);
    push_u16(out, h.arcount);
    assert(out@ =~= old(out)@ + header_bytes(h));
}

} // verus!
