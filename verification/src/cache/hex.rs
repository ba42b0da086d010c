//! Bytes as hexadecimal text.
use crate::text;
use vstd::prelude::*;

verus! {

pub open spec fn hex_digit(n: u8) -> char {
    if n < 10 {
        (n + 48) as char
    } else {
        (n + 87) as char
    }
}

/// Two digits for each byte, small letters.
pub open spec fn hex_text(data: Seq<u8>) -> Seq<char>
    decreases data.len(),
{
    if data.len() == 0 {
        Seq::empty()
    } else {
        seq![hex_digit((data[0] / 16) as u8), hex_digit((data[0] % 16) as u8)] + hex_text(
            data.skip(1),
        )
    }
}

/// The value of a digit in either case.
pub open spec fn digit_value(c: char) -> Option<u8> {
    if '0' <= c && c <= '9' {
        Some((c as u32 - 48) as u8)
    } else if 'a' <= c && c <= 'f' {
        Some((c as u32 - 87) as u8)
    } else if 'A' <= c && c <= 'F' {
        Some((c as u32 - 55) as u8)
    } else {
        None
    }
}

/// The bytes that pairs of digits write.
pub open spec fn hex_bytes(s: Seq<char>) -> Option<Seq<u8>>
    decreases s.len(),
{
    if s.len() == 0 {
        Some(Seq::empty())
    } else if s.len() == 1 {
        None
    } else {
        match (digit_value(s[0]), digit_value(s[1]), hex_bytes(s.skip(2))) {
            (Some(hi), Some(lo), Some(rest)) => Some(seq![(hi * 16 + lo) as u8] + rest),
            _ => None,
        }
    }
}

/// Whether a text is made of pairs of digits, in either case.
pub open spec fn is_hex(s: Seq<char>) -> bool {
    s.len() % 2 == 0 && forall|i: int| 0 <= i < s.len() ==> digit_value(#[trigger] s[i]) is Some
}

/// A text can be read if and only if it is made of pairs of digits: one byte for each pair, the
/// first digit counting sixteen times.
pub proof fn lemma_hex_bytes(s: Seq<char>)
    ensures
        hex_bytes(s) is Some <==> is_hex(s),
        hex_bytes(s) matches Some(b) ==> b.len() * 2 == s.len() && forall|i: int|
            0 <= i < b.len() ==> #[trigger] b[i] == digit_value(s[2 * i])->0 * 16 + digit_value(
                s[2 * i + 1],
            )->0,
    decreases s.len(),
{
    if s.len() > 1 {
        let rest = s.skip(2);
        lemma_hex_bytes(rest);
        if is_hex(s) {
            assert forall|i: int| 0 <= i < rest.len() implies digit_value(
                #[trigger] rest[i],
            ) is Some by {
                assert(rest[i] == s[i + 2]);
            }
        }
        if hex_bytes(s) is Some {
            let b = hex_bytes(s)->0;
            let inner = hex_bytes(rest)->0;
            assert forall|i: int| 0 <= i < s.len() implies digit_value(
                #[trigger] s[i],
            ) is Some by {
                if i >= 2 {
                    assert(s[i] == rest[i - 2]);
                }
            }
            assert forall|i: int| 0 <= i < b.len() implies #[trigger] b[i] == digit_value(
                s[2 * i],
            )->0 * 16 + digit_value(s[2 * i + 1])->0 by {
                if i > 0 {
                    assert(b[i] == inner[i - 1]);
                    assert(rest[2 * (i - 1)] == s[2 * i]);
                    assert(rest[2 * (i - 1) + 1] == s[2 * i + 1]);
                }
            }
        }
    } else if s.len() == 1 {
        assert(s.len() % 2 == 1);
    }
}

/// What is written in hexadecimal can be read back.
pub proof fn lemma_hex_round_trip(data: Seq<u8>)
    ensures
        hex_bytes(hex_text(data)) == Some(data),
    decreases data.len(),
{
    if data.len() > 0 {
        let rest = data.skip(1);
        lemma_hex_round_trip(rest);
        let s = hex_text(data);
        assert(s.skip(2) =~= hex_text(rest));
        let hi = (data[0] / 16) as u8;
        let lo = (data[0] % 16) as u8;
        assert(s[0] == hex_digit(hi) && s[1] == hex_digit(lo));
        assert(digit_value(hex_digit(hi)) == Some(hi));
        assert(digit_value(hex_digit(lo)) == Some(lo));
        assert(seq![data[0]] + rest =~= data);
    } else {
        assert(data =~= Seq::empty());
    }
}

fn digit_of(n: u8) -> (r: char)
    requires
        n < 16,
    ensures
        r == hex_digit(n),
{
    if n < 10 {
        (n + 48) as char
    } else {
        (n + 87) as char
    }
}

/// Bytes as hexadecimal text.
pub fn encode_hex(data: &[u8]) -> (r: String)
    ensures
        r@ == hex_text(data@),
{
    let mut out = String::new();
    let mut i: usize = 0;
    assert(data@.skip(0) =~= data@);
    while i < data.len()
        invariant
            i <= data@.len(),
            hex_text(data@) == out@ + hex_text(data@.skip(i as int)),
        decreases data@.len() - i,
    {
        let ghost before = out@;
        let ghost rest = data@.skip(i as int);
        let b: u8 = data[i];
        out.push(digit_of(b / 16));
        out.push(digit_of(b % 16));
        assert(rest.skip(1) =~= data@.skip(i + 1));
        assert(before + hex_text(rest) =~= out@ + hex_text(rest.skip(1)));
        i = i + 1;
    }
    assert(out@ =~= hex_text(data@));
    out
}

fn value_of(c: char) -> (r: Option<u8>)
    ensures
        r == digit_value(c),
        r matches Some(v) ==> v < 16,
{
    let n: u32 = c as u32;
    if '0' <= c && c <= '9' {
        Some((n - 48) as u8)
    } else if 'a' <= c && c <= 'f' {
        Some((n - 87) as u8)
    } else if 'A' <= c && c <= 'F' {
        Some((n - 55) as u8)
    } else {
        None
    }
}

proof fn lemma_unreadable(s: Seq<char>, i: int)
    requires
        0 <= i <= s.len(),
        i % 2 == 0,
        hex_bytes(s.skip(i)) is None,
    ensures
        hex_bytes(s) is None,
    decreases i,
{
    if i == 0 {
        assert(s.skip(0) =~= s);
    } else {
        assert(s.skip(i - 2).skip(2) =~= s.skip(i));
        lemma_unreadable(s, i - 2);
    }
}

proof fn lemma_appended(s: Seq<char>, done: Seq<u8>, i: int)
    requires
        0 <= i <= s.len(),
        i % 2 == 0,
        hex_bytes(s.take(i)) == Some(done),
        hex_bytes(s.skip(i)) is Some,
    ensures
        hex_bytes(s) == Some(done + hex_bytes(s.skip(i))->0),
    decreases i,
{
    let rest = hex_bytes(s.skip(i))->0;
    if i == 0 {
        assert(s.skip(0) =~= s);
        assert(done + rest =~= rest);
    } else {
        let t = s.skip(2);
        assert(s.take(i).skip(2) =~= t.take(i - 2));
        assert(t.skip(i - 2) =~= s.skip(i));
        let inner = hex_bytes(t.take(i - 2))->0;
        lemma_appended(t, inner, i - 2);
        assert(done =~= seq![done[0]] + inner);
        assert(seq![done[0]] + (inner + rest) =~= done + rest);
    }
}

/// The bytes that hexadecimal text writes; nothing where it is no such text.
pub fn decode_hex(s: &str) -> (r: Option<Vec<u8>>)
    ensures
        hex_bytes(s@) == (match r {
            Some(v) => Some(v@),
            None => None,
        }),
{
    let chars = text::chars_of(s);
    let n: usize = chars.len();
    let mut out: Vec<u8> = Vec::new();
    let mut i: usize = 0;
    assert(s@.take(0) =~= Seq::empty());
    assert(out@ =~= Seq::empty());
    while n - i >= 2
        invariant
            i <= n,
            i % 2 == 0,
            n == chars@.len(),
            chars@ == s@,
            hex_bytes(s@.take(i as int)) == Some(out@),
        decreases n - i,
    {
        let ghost rest = s@.skip(i as int);
        assert(rest[0] == s@[i as int] && rest[1] == s@[i + 1]);
        match (value_of(chars[i]), value_of(chars[i + 1])) {
            (Some(hi), Some(lo)) => {
                let ghost t = s@.take(i + 2);
                let ghost before = out@;
                proof {
                    assert(t.take(i as int) =~= s@.take(i as int));
                    let tail = t.skip(i as int);
                    assert(tail[0] == s@[i as int] && tail[1] == s@[i + 1]);
                    assert(tail.skip(2) =~= Seq::empty());
                    assert(hex_bytes(tail.skip(2)) == Some(Seq::<u8>::empty()));
                    assert(hex_bytes(tail) == Some(seq![(hi * 16 + lo) as u8] + Seq::empty()));
                    lemma_appended(t, before, i as int);
                }
                out.push(hi * 16 + lo);
                assert(out@ =~= before + (seq![(hi * 16 + lo) as u8] + Seq::empty()));
            },
            _ => {
                proof {
                    lemma_unreadable(s@, i as int);
                }
                return None;
            },
        }
        i = i + 2;
    }
    if n - i == 1 {
        proof {
            lemma_unreadable(s@, i as int);
        }
        return None;
    }
    assert(s@.take(i as int) =~= s@);
    Some(out)
}

} // verus!
