//! Domain names on the wire.
use crate::codec::wire;
use crate::text;
use vstd::prelude::*;
use vstd::slice::*;
use vstd::utf8::*;

verus! {

/// Where the name that starts at `off` ends: behind its root label or its compression pointer.
pub open spec fn name_end(p: Seq<u8>, off: int) -> Option<int>
    decreases p.len() - off,
{
    if off < 0 || off >= p.len() {
        None
    } else if p[off] >= 192 {
        if off + 1 >= p.len() {
            None
        } else {
            Some(off + 2)
        }
    } else if p[off] == 0 {
        Some(off + 1)
    } else if off + 1 + p[off] > p.len() {
        None
    } else {
        name_end(p, off + 1 + p[off])
    }
}

/// The target of the compression pointer at `off`.
pub open spec fn pointer_target(p: Seq<u8>, off: int) -> int {
    (p[off] - 192) * 256 + p[off + 1]
}

/// The parts of the name that starts at `off`, and where it ends. A compression pointer
/// contributes the text of the name it points to as one part; at most sixteen pointers are
/// followed.
pub open spec fn labels_at(p: Seq<u8>, off: int, depth: nat) -> Option<(Seq<Seq<char>>, int)>
    decreases 17 - depth, p.len() - off,
{
    if depth > 16 || off < 0 || off >= p.len() {
        None
    } else if p[off] >= 192 {
        if off + 1 >= p.len() {
            None
        } else {
            match labels_at(p, pointer_target(p, off), depth + 1) {
                None => None,
                Some((labels, _)) => {
                    let suffix = text::join_dots(labels);
                    Some((if suffix.len() > 0 { seq![suffix] } else { Seq::empty() }, off + 2))
                },
            }
        }
    } else if p[off] == 0 {
        Some((Seq::empty(), off + 1))
    } else if off + 1 + p[off] > p.len() {
        None
    } else {
        let label = p.subrange(off + 1, off + 1 + p[off]);
        if !valid_utf8(label) {
            None
        } else {
            match labels_at(p, off + 1 + p[off], depth) {
                None => None,
                Some((rest, end)) => Some((seq![decode_utf8(label)] + rest, end)),
            }
        }
    }
}

/// The text of the name that starts at `off`, and where it ends.
pub open spec fn name_at(p: Seq<u8>, off: int) -> Option<(Seq<char>, int)> {
    match labels_at(p, off, 0) {
        None => None,
        Some((labels, end)) => Some((text::join_dots(labels), end)),
    }
}

/// The bytes written for a list of labels, and whether all of them could be written: a label
/// takes one to 63 bytes.
pub open spec fn encode_labels(labels: Seq<Seq<char>>) -> (Seq<u8>, bool)
    decreases labels.len(),
{
    if labels.len() == 0 {
        (seq![0u8], true)
    } else {
        let bytes = encode_utf8(labels[0]);
        if bytes.len() == 0 || bytes.len() > 63 {
            (Seq::empty(), false)
        } else {
            let rest = encode_labels(labels.drop_first());
            (seq![bytes.len() as u8] + bytes + rest.0, rest.1)
        }
    }
}

/// The text that is split into labels: no white space around it and at most one final dot
/// taken off.
pub open spec fn absolute(name: Seq<char>) -> Seq<char> {
    let t = text::trim(name);
    if t.len() > 0 && t.last() == '.' {
        t.drop_last()
    } else {
        t
    }
}

/// The bytes written for a name, and whether the name could be written whole.
pub open spec fn encode_name_spec(name: Seq<char>) -> (Seq<u8>, bool) {
    let t = absolute(name);
    if t.len() == 0 {
        (seq![0u8], true)
    } else {
        encode_labels(text::split(t, '.'))
    }
}

/// The bytes of a name that can be written whole.
pub open spec fn name_bytes(name: Seq<char>) -> Option<Seq<u8>> {
    if encode_name_spec(name).1 {
        Some(encode_name_spec(name).0)
    } else {
        None
    }
}

/// The end of a name lies behind its start and inside the packet.
pub proof fn lemma_name_end_bounds(p: Seq<u8>, off: int)
    ensures
        name_end(p, off) matches Some(e) ==> 0 <= off < e <= p.len(),
    decreases p.len() - off,
{
    if 0 <= off < p.len() && p[off] < 192 && p[off] != 0 && off + 1 + p[off] <= p.len() {
        lemma_name_end_bounds(p, off + 1 + p[off]);
    }
}

/// A name that can be read ends where skipping it ends.
pub proof fn lemma_read_and_skip_agree(p: Seq<u8>, off: int, depth: nat)
    ensures
        labels_at(p, off, depth) matches Some((_, end)) ==> name_end(p, off) == Some(end),
    decreases p.len() - off,
{
    if 0 <= off < p.len() && p[off] < 192 && p[off] != 0 && off + 1 + p[off] <= p.len() {
        lemma_read_and_skip_agree(p, off + 1 + p[off], depth);
    }
}

/// Skips the name at `offset`.
pub fn skip_name(packet: &[u8], offset: usize) -> (r: Option<usize>)
    ensures
        name_end(packet@, offset as int) == (match r {
            Some(e) => Some(e as int),
            None => None,
        }),
        r matches Some(e) ==> offset < e <= packet@.len(),
{
    let mut at: usize = offset;
    loop
        invariant
            offset <= at,
            at <= packet@.len() || at == offset,
            name_end(packet@, offset as int) == name_end(packet@, at as int),
        decreases packet@.len() - at,
    {
        if at >= packet.len() {
            return None;
        }
        let len = packet[at];
        if len >= 192 {
            if packet.len() - at < 2 {
                return None;
            }
            return Some(at + 2);
        }
        at += 1;
        if len == 0 {
            return Some(at);
        }
        if len as usize > packet.len() - at {
            return None;
        }
        at += len as usize;
    }
}

/// The name at `offset` and the number of bytes it takes there.
pub fn parse_name(packet: &[u8], offset: usize) -> (r: Option<(String, usize)>)
    ensures
        name_at(packet@, offset as int) == (match r {
            Some((name, consumed)) => Some((name@, offset + consumed)),
            None => None,
        }),
        r matches Some((_, consumed)) ==> 0 < consumed && offset + consumed <= packet@.len()
            && name_end(packet@, offset as int) == Some(offset + consumed),
{
    proof {
        lemma_read_and_skip_agree(packet@, offset as int, 0);
        lemma_name_end_bounds(packet@, offset as int);
    }
    match parse_name_with_depth(packet, offset, 0) {
        Some((name, end)) => Some((name, end - offset)),
        None => None,
    }
}

fn parse_name_with_depth(packet: &[u8], offset: usize, depth: usize) -> (r: Option<(String, usize)>)
    requires
        depth <= 17,
    ensures
        labels_at(packet@, offset as int, depth as nat) is Some <==> r is Some,
        r matches Some((name, end)) ==> labels_at(packet@, offset as int, depth as nat) matches Some(
            (labels, e),
        ) && name@ == text::join_dots(labels) && e == end,
    decreases 17 - depth,
{
    if depth > 16 || offset >= packet.len() {
        return None;
    }
    let mut labels: Vec<String> = Vec::new();
    let mut at: usize = offset;
    let ghost p = packet@;
    let ghost d = depth as nat;
    assert(text::views(labels@) =~= Seq::empty());
    assert(match labels_at(p, at as int, d) {
        Some((rest, e)) => Seq::<Seq<char>>::empty() + rest =~= rest,
        None => true,
    });
    loop
        invariant
            p == packet@,
            d == depth,
            depth <= 16,
            at <= packet@.len(),
            labels_at(p, offset as int, d) == (match labels_at(p, at as int, d) {
                Some((rest, e)) => Some((text::views(labels@) + rest, e)),
                None => None,
            }),
        decreases packet@.len() - at,
    {
        if at >= packet.len() {
            return None;
        }
        let len = packet[at];
        if len >= 192 {
            if packet.len() - at < 2 {
                return None;
            }
            let ptr: usize = (len as usize - 192) * 256 + packet[at + 1] as usize;
            match parse_name_with_depth(packet, ptr, depth + 1) {
                None => {
                    return None;
                },
                Some((suffix, _)) => {
                    let ghost before = text::views(labels@);
                    if !suffix.as_str().is_empty() {
                        labels.push(suffix);
                        assert(text::views(labels@) =~= before + seq![suffix@]);
                    } else {
                        assert(before + Seq::<Seq<char>>::empty() =~= before);
                    }
                    return Some((text::join(&labels), at + 2));
                },
            }
        }
        if len == 0 {
            assert(text::views(labels@) + Seq::<Seq<char>>::empty() =~= text::views(labels@));
            return Some((text::join(&labels), at + 1));
        }
        if len as usize > packet.len() - at - 1 {
            return None;
        }
        match text::utf8_text(slice_subrange(packet, at + 1, at + 1 + len as usize)) {
            None => {
                return None;
            },
            Some(label) => {
                let ghost before = text::views(labels@);
                let ghost next = labels_at(p, at + 1 + len, d);
                labels.push(label);
                assert(text::views(labels@) =~= before.push(label@));
                assert(next matches Some((rest, e)) ==> before + (seq![label@] + rest)
                    =~= before.push(label@) + rest);
                at += 1 + len as usize;
            },
        }
    }
}

/// Appends `name`. Where a label cannot be written, what precedes it stays appended.
pub fn encode_name(name: &str, out: &mut Vec<u8>) -> (r: Option<()>)
    ensures
        final(out)@ == old(out)@ + encode_name_spec(name@).0,
        r is Some <==> encode_name_spec(name@).1,
{
    let all = text::chars_of(name);
    let mut chars = text::trim_chars(all.as_slice());
    if chars.len() > 0 && chars[chars.len() - 1] == '.' {
        let ghost full = chars@;
        chars.pop();
        assert(chars@ =~= full.drop_last());
    }
    assert(chars@ == absolute(name@));
    if chars.len() == 0 {
        out.push(0);
        assert(out@ =~= old(out)@ + encode_name_spec(name@).0);
        return Some(());
    }
    let labels = text::split_chars(chars.as_slice(), '.');
    let ghost spec_labels = text::char_views(labels@);
    let ghost start = out@;
    let mut i: usize = 0;
    assert(spec_labels.skip(0) =~= spec_labels);
    while i < labels.len()
        invariant
            i <= labels.len(),
            spec_labels == text::char_views(labels@),
            start + encode_labels(spec_labels).0 == out@ + encode_labels(
                spec_labels.skip(i as int),
            ).0,
            encode_labels(spec_labels).1 == encode_labels(spec_labels.skip(i as int)).1,
            encode_name_spec(name@) == encode_labels(spec_labels),
            start == old(out)@,
        decreases labels.len() - i,
    {
        let label = text::string_of(labels[i].as_slice());
        let bytes = label.as_str().as_bytes();
        let ghost rest = spec_labels.skip(i as int);
        assert(rest[0] == spec_labels[i as int] && spec_labels[i as int] == labels@[i as int]@);
        assert(bytes@ == encode_utf8(rest[0]));
        assert(rest.drop_first() =~= spec_labels.skip(i + 1));
        if bytes.len() == 0 || bytes.len() > 63 {
            assert(out@ =~= start + encode_labels(spec_labels).0);
            return None;
        }
        let ghost before = out@;
        out.push(bytes.len() as u8);
        wire::push_bytes(out, bytes);
        assert(out@ + encode_labels(spec_labels.skip(i + 1)).0 =~= before + encode_labels(rest).0);
        i += 1;
    }
    assert(spec_labels.skip(i as int) =~= Seq::empty());
    out.push(0);
    assert(out@ =~= start + encode_labels(spec_labels).0);
    Some(())
}

} // verus!
