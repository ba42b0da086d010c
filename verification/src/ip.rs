//! IP addresses as octets and as text.
use crate::text;
use hickory_proto::rr::rdata::AAAA;
use hickory_proto::serialize::binary::BinDecodable;
use vstd::prelude::*;

verus! {

pub open spec fn decimals(o: Seq<u8>) -> Seq<Seq<char>> {
    o.map_values(|b: u8| text::decimal(b as nat))
}

/// Dotted decimal notation of four octets.
pub open spec fn ipv4_text(o: Seq<u8>) -> Seq<char> {
    text::join_dots(decimals(o))
}

/// The octet that `s` writes in decimal: one to three digits, no zero before another digit.
pub open spec fn octet_value(s: Seq<char>) -> Option<u8> {
    if 1 <= s.len() <= 3 && text::all_digits(s) && (s.len() > 1 ==> s[0] != '0') && text::digits_value(s) <= 255 {
        Some(text::digits_value(s) as u8)
    } else {
        None
    }
}

/// The address that `s` writes in dotted decimal notation.
pub open spec fn ipv4_value(s: Seq<char>) -> Option<Seq<u8>> {
    let parts = text::split(s, '.');
    if parts.len() == 4 && octet_value(parts[0]) is Some && octet_value(parts[1]) is Some
        && octet_value(parts[2]) is Some && octet_value(parts[3]) is Some {
        Some(
            seq![
                octet_value(parts[0])->0,
                octet_value(parts[1])->0,
                octet_value(parts[2])->0,
                octet_value(parts[3])->0,
            ],
        )
    } else {
        None
    }
}

proof fn lemma_join_drop(parts: Seq<Seq<char>>)
    requires
        parts.len() > 0,
        forall|i: int| 0 <= i < parts.len() ==> !(#[trigger] parts[i]).contains('.'),
    ensures
        text::split(text::join_dots(parts), '.') == parts,
    decreases parts.len(),
{
    if parts.len() == 1 {
        lemma_split_plain(parts[0]);
        assert(parts =~= seq![parts[0]]);
    } else {
        let start = parts.drop_last();
        assert forall|i: int| 0 <= i < start.len() implies !(#[trigger] start[i]).contains('.') by {
            assert(start[i] == parts[i]);
        }
        lemma_join_drop(start);
        let head = text::join_dots(start).push('.');
        assert(head.drop_last() =~= text::join_dots(start));
        assert(text::split(head, '.') == start.push(Seq::empty()));
        assert(!parts[parts.len() - 1].contains('.'));
        lemma_split_append(head, parts.last());
        let all = text::split(head + parts.last(), '.');
        assert(all =~= parts);
    }
}

proof fn lemma_split_plain(s: Seq<char>)
    requires
        !s.contains('.'),
    ensures
        text::split(s, '.') == seq![s],
    decreases s.len(),
{
    if s.len() > 0 {
        let start = s.drop_last();
        assert(!start.contains('.')) by {
            if start.contains('.') {
                let i = choose|i: int| 0 <= i < start.len() && start[i] == '.';
                assert(s[i] == '.');
            }
        }
        lemma_split_plain(start);
        assert(s[s.len() - 1] != '.');
        assert(s =~= start.push(s.last()));
        assert(text::split(s, '.') =~= seq![s]);
    } else {
        assert(s =~= Seq::empty());
    }
}

/// A text without dots goes to the last piece.
proof fn lemma_split_append(head: Seq<char>, s: Seq<char>)
    requires
        !s.contains('.'),
    ensures
        ({
            let before = text::split(head, '.');
            before.len() >= 1 && text::split(head + s, '.') == before.update(
                before.len() - 1,
                before.last() + s,
            )
        }),
    decreases s.len(),
{
    let before = text::split(head, '.');
    text::lemma_split_len(head, '.');
    if s.len() == 0 {
        assert(head + s =~= head);
        assert(before.last() + s =~= before.last());
        assert(before.update(before.len() - 1, before.last()) =~= before);
    } else {
        let start = s.drop_last();
        assert(!start.contains('.')) by {
            if start.contains('.') {
                let i = choose|i: int| 0 <= i < start.len() && start[i] == '.';
                assert(s[i] == '.');
            }
        }
        lemma_split_append(head, start);
        let all = head + s;
        assert(all.drop_last() =~= head + start);
        assert(s[s.len() - 1] != '.');
        assert(all.last() == s.last());
        let mid = before.update(before.len() - 1, before.last() + start);
        assert(mid.update(mid.len() - 1, mid.last().push(s.last())) =~= before.update(
            before.len() - 1,
            before.last() + s,
        )) by {
            assert((before.last() + start).push(s.last()) =~= before.last() + s);
        }
    }
}

proof fn lemma_octet(b: u8)
    ensures
        octet_value(text::decimal(b as nat)) == Some(b),
        !text::decimal(b as nat).contains('.'),
{
    reveal_with_fuel(text::decimal, 4);
    reveal_with_fuel(text::digits_value, 4);
    let n = b as nat;
    let s = text::decimal(n);
    if n < 10 {
        assert(s.drop_last() =~= Seq::empty());
    } else if n < 100 {
        let t = text::decimal(n / 10);
        assert(s.drop_last() =~= t);
        assert(t.drop_last() =~= Seq::empty());
        assert(s.len() == 2 && s[0] == t[0]);
    } else {
        let t = text::decimal(n / 10);
        let u = text::decimal(n / 10 / 10);
        assert(n / 10 / 10 < 10);
        assert(s.drop_last() =~= t);
        assert(t.drop_last() =~= u);
        assert(u.drop_last() =~= Seq::empty());
        assert(s.len() == 3 && s[0] == u[0] && s[1] == t[1]);
    }
    assert(forall|i: int| 0 <= i < s.len() ==> text::is_digit(#[trigger] s[i]));
}

/// Four octets are read back from their text.
pub proof fn lemma_ipv4_round_trip(o: Seq<u8>)
    requires
        o.len() == 4,
    ensures
        ipv4_value(ipv4_text(o)) == Some(o),
{
    let parts = decimals(o);
    assert forall|i: int| 0 <= i < parts.len() implies !(#[trigger] parts[i]).contains('.') by {
        lemma_octet(o[i]);
    }
    lemma_join_drop(parts);
    lemma_octet(o[0]);
    lemma_octet(o[1]);
    lemma_octet(o[2]);
    lemma_octet(o[3]);
    assert(ipv4_value(ipv4_text(o))->0 =~= o);
}

/// The text of an IPv6 address of sixteen octets.
pub uninterp spec fn ipv6_text(octets: Seq<u8>) -> Seq<char>;

/// The sixteen octets of the IPv6 address that a text writes.
pub uninterp spec fn ipv6_value(s: Seq<char>) -> Option<Seq<u8>>;

/// `Display` of `hickory_proto`'s `AAAA`, which is that of the standard IPv6 address, for the
/// address with these octets. What the text looks like is left to the name.
#[verifier::external_body]
pub(crate) fn format_ipv6(octets: &[u8]) -> (r: String)
    requires
        octets@.len() == 16,
    ensures
        r@ == ipv6_text(octets@),
{
    AAAA::from_bytes(octets).map(|a| a.to_string()).unwrap_or_default()
}

/// `FromStr` of `hickory_proto`'s `AAAA`, which is that of the standard IPv6 address: sixteen
/// octets, or nothing where the text is no such address. Which texts are is left to the name.
#[verifier::external_body]
pub(crate) fn parse_ipv6(s: &str) -> (r: Option<Vec<u8>>)
    ensures
        r is Some <==> ipv6_value(s@) is Some,
        r matches Some(v) ==> v@ == ipv6_value(s@)->0 && v@.len() == 16,
{
    s.parse::<AAAA>().ok().map(|a| a.octets().to_vec())
}

/// Dotted decimal notation of four octets.
pub fn format_ipv4(octets: &[u8]) -> (r: String)
    requires
        octets@.len() == 4,
    ensures
        r@ == ipv4_text(octets@),
{
    let mut parts: Vec<String> = Vec::new();
    let mut i: usize = 0;
    while i < octets.len()
        invariant
            i <= octets@.len(),
            text::views(parts@) == decimals(octets@.take(i as int)),
        decreases octets@.len() - i,
    {
        let ghost before = text::views(parts@);
        parts.push(text::decimal_of(octets[i] as u64));
        assert(text::views(parts@) =~= before.push(text::decimal(octets@[i as int] as nat)));
        assert(decimals(octets@.take(i + 1)) =~= before.push(
            text::decimal(octets@[i as int] as nat),
        ));
        i += 1;
    }
    assert(octets@.take(i as int) =~= octets@);
    text::join(&parts)
}

fn parse_octet(s: &[char]) -> (r: Option<u8>)
    ensures
        r == octet_value(s@),
{
    if s.len() == 0 || s.len() > 3 || (s.len() > 1 && s[0] == '0') || s[0] == '+' {
        assert(s@.len() > 0 && s@[0] == '+' ==> !text::is_digit(s@[0]));
        return None;
    }
    match text::parse_uint(s, 255) {
        Some(v) => Some(v as u8),
        None => None,
    }
}

/// The octets of an IPv4 address in dotted decimal notation.
pub fn parse_ipv4(s: &str) -> (r: Option<Vec<u8>>)
    ensures
        r is Some <==> ipv4_value(s@) is Some,
        r matches Some(v) ==> v@ == ipv4_value(s@)->0 && v@.len() == 4,
{
    let chars = text::chars_of(s);
    let parts = text::split_chars(chars.as_slice(), '.');
    let ghost spec_parts = text::split(s@, '.');
    assert forall|i: int| 0 <= i < parts@.len() implies spec_parts[i] == (
    #[trigger] parts@[i])@ by {
        assert(text::char_views(parts@)[i] == parts@[i]@);
    }
    if parts.len() != 4 {
        return None;
    }
    match (
        parse_octet(parts[0].as_slice()),
        parse_octet(parts[1].as_slice()),
        parse_octet(parts[2].as_slice()),
        parse_octet(parts[3].as_slice()),
    ) {
        (Some(a), Some(b), Some(c), Some(d)) => {
            let mut out: Vec<u8> = Vec::new();
            out.push(a);
            out.push(b);
            out.push(c);
            out.push(d);
            assert(out@ =~= ipv4_value(s@)->0);
            Some(out)
        },
        _ => None,
    }
}

/// A decimal number without a sign that is at most `max`.
pub open spec fn plain_number(s: Seq<char>, max: nat) -> Option<nat> {
    if s.len() > 0 && s[0] != '+' {
        text::uint_value(s, max)
    } else {
        None
    }
}

/// Whether `s` is an IPv6 address, with or without a numeric scope behind a percent sign.
pub open spec fn is_scoped_ipv6(s: Seq<char>) -> bool {
    let parts = text::split(s, '%');
    if parts.len() == 1 {
        ipv6_value(parts[0]) is Some
    } else {
        parts.len() == 2 && ipv6_value(parts[0]) is Some && plain_number(parts[1], u32::MAX as nat)
            is Some
    }
}

/// The port of the socket address that `s` writes, `a.b.c.d:port` or `[v6]:port`.
pub open spec fn socket_port(s: Seq<char>) -> Option<nat> {
    if s.len() > 0 && s[0] == '[' {
        let parts = text::split(s.skip(1), ']');
        if parts.len() == 2 && is_scoped_ipv6(parts[0]) && parts[1].len() > 0 && parts[1][0]
            == ':' {
            plain_number(parts[1].skip(1), u16::MAX as nat)
        } else {
            None
        }
    } else {
        let parts = text::split(s, ':');
        if parts.len() == 2 && ipv4_value(parts[0]) is Some {
            plain_number(parts[1], u16::MAX as nat)
        } else {
            None
        }
    }
}

fn parse_plain_number(s: &[char], max: u64) -> (r: Option<u64>)
    requires
        max <= 0xffff_ffff,
    ensures
        plain_number(s@, max as nat) == (match r {
            Some(v) => Some(v as nat),
            None => None,
        }),
{
    if s.len() > 0 && s[0] != '+' {
        text::parse_uint(s, max)
    } else {
        None
    }
}

fn scoped_ipv6(s: &[char]) -> (r: bool)
    ensures
        r == is_scoped_ipv6(s@),
{
    let parts = text::split_chars(s, '%');
    let ghost spec_parts = text::split(s@, '%');
    assert(text::char_views(parts@) == spec_parts);
    assert(spec_parts[0] == parts@[0]@);
    if parts.len() > 2 {
        return false;
    }
    let address = text::string_of(parts[0].as_slice());
    if parse_ipv6(address.as_str()).is_none() {
        return false;
    }
    if parts.len() == 2 {
        assert(spec_parts[1] == parts@[1]@);
        return parse_plain_number(parts[1].as_slice(), 0xffff_ffff).is_some();
    }
    true
}

/// The port of a socket address in text.
pub fn parse_socket_port(s: &str) -> (r: Option<u64>)
    ensures
        socket_port(s@) == (match r {
            Some(v) => Some(v as nat),
            None => None,
        }),
{
    let chars = text::chars_of(s);
    if chars.len() > 0 && chars[0] == '[' {
        let rest = vstd::slice::slice_subrange(chars.as_slice(), 1, chars.len());
        assert(rest@ =~= s@.skip(1));
        let parts = text::split_chars(rest, ']');
        let ghost spec_parts = text::split(s@.skip(1), ']');
        assert(text::char_views(parts@) == spec_parts);
        if parts.len() != 2 {
            return None;
        }
        assert(spec_parts[0] == parts@[0]@ && spec_parts[1] == parts@[1]@);
        if !scoped_ipv6(parts[0].as_slice()) || parts[1].len() == 0 || parts[1][0] != ':' {
            return None;
        }
        let port = vstd::slice::slice_subrange(parts[1].as_slice(), 1, parts[1].len());
        assert(port@ =~= spec_parts[1].skip(1));
        parse_plain_number(port, 0xffff)
    } else {
        let parts = text::split_chars(chars.as_slice(), ':');
        let ghost spec_parts = text::split(s@, ':');
        assert(text::char_views(parts@) == spec_parts);
        if parts.len() != 2 {
            return None;
        }
        assert(spec_parts[0] == parts@[0]@ && spec_parts[1] == parts@[1]@);
        let address = text::string_of(parts[0].as_slice());
        if parse_ipv4(address.as_str()).is_none() {
            return None;
        }
        parse_plain_number(parts[1].as_slice(), 0xffff)
    }
}

/// Whether a text writes an IP network, an address with a prefix length.
pub uninterp spec fn is_network(s: Seq<char>) -> bool;

/// `FromStr` of `ipnet`'s `IpNet`: whether the text parses. Which texts do is left to the name.
#[verifier::external_body]
pub(crate) fn parses_as_network(s: &str) -> (r: bool)
    ensures
        r == is_network(s@),
{
    s.parse::<ipnet::IpNet>().is_ok()
}

/// Whether a text writes an IP address of either family.
pub open spec fn is_address(s: Seq<char>) -> bool {
    ipv4_value(s) is Some || ipv6_value(s) is Some
}

/// Whether `s` writes an IP address of either family.
pub fn parses_as_address(s: &str) -> (r: bool)
    ensures
        r == is_address(s@),
{
    parse_ipv4(s).is_some() || parse_ipv6(s).is_some()
}

} // verus!
