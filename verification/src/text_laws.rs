//! What holds of texts: how they are trimmed, folded, split, joined and read as numbers.
use crate::ip;
use crate::text;
use vstd::prelude::*;

verus! {

pub open spec fn all_white(s: Seq<char>) -> bool {
    forall|i: int| 0 <= i < s.len() ==> text::is_white(#[trigger] s[i])
}

proof fn lemma_trim_start(s: Seq<char>)
    ensures
        ({
            let t = text::trim_start(s);
            &&& t.len() <= s.len()
            &&& t == s.skip(s.len() - t.len())
            &&& all_white(s.take(s.len() - t.len()))
            &&& t.len() > 0 ==> !text::is_white(t[0])
        }),
    decreases s.len(),
{
    if s.len() > 0 && text::is_white(s[0]) {
        let rest = s.drop_first();
        lemma_trim_start(rest);
        let t = text::trim_start(s);
        let k = s.len() - t.len();
        assert forall|i: int| 0 <= i < s.take(k).len() implies text::is_white(
            #[trigger] s.take(k)[i],
        ) by {
            if i > 0 {
                assert(s.take(k)[i] == rest.take(k - 1)[i - 1]);
            }
        }
        assert(t =~= s.skip(k));
    } else {
        assert(s.skip(0) =~= s);
    }
}

proof fn lemma_trim_end(s: Seq<char>)
    ensures
        ({
            let t = text::trim_end(s);
            &&& t.len() <= s.len()
            &&& t == s.take(t.len() as int)
            &&& all_white(s.skip(t.len() as int))
            &&& t.len() > 0 ==> !text::is_white(t.last())
        }),
    decreases s.len(),
{
    if s.len() > 0 && text::is_white(s.last()) {
        let start = s.drop_last();
        lemma_trim_end(start);
        let t = text::trim_end(s);
        let k = t.len() as int;
        assert forall|i: int| 0 <= i < s.skip(k).len() implies text::is_white(
            #[trigger] s.skip(k)[i],
        ) by {
            if i < s.len() - k - 1 {
                assert(s.skip(k)[i] == start.skip(k)[i]);
            }
        }
        assert(t =~= s.take(k));
    } else {
        assert(s.take(s.len() as int) =~= s);
    }
}

/// A text is what stands before its trimmed form, the trimmed form, and what stands behind it; the
/// outer parts are white space, and the trimmed form has none at its ends.
pub proof fn lemma_trim(s: Seq<char>) -> (r: (Seq<char>, Seq<char>))
    ensures
        s == r.0 + text::trim(s) + r.1,
        all_white(r.0),
        all_white(r.1),
        text::trim(s).len() > 0 ==> !text::is_white(text::trim(s)[0]) && !text::is_white(
            text::trim(s).last(),
        ),
{
    let a = text::trim_start(s);
    lemma_trim_start(s);
    lemma_trim_end(a);
    let t = text::trim(s);
    let before = s.take(s.len() - a.len());
    let behind = a.skip(t.len() as int);
    assert(s =~= before + t + behind);
    if t.len() > 0 {
        assert(t[0] == a[0]);
    }
    (before, behind)
}

/// A text is blank exactly where every character of it is white space.
pub proof fn lemma_blank(s: Seq<char>)
    ensures
        text::trim(s).len() == 0 <==> all_white(s),
{
    let (before, behind) = lemma_trim(s);
    let t = text::trim(s);
    if t.len() == 0 {
        assert forall|i: int| 0 <= i < s.len() implies text::is_white(#[trigger] s[i]) by {
            if i < before.len() {
                assert(s[i] == before[i]);
            } else {
                assert(s[i] == behind[i - before.len()]);
            }
        }
    } else {
        assert(s[before.len() as int] == t[0]);
    }
}

/// A text without white space at its ends is its own trimmed form.
pub proof fn lemma_trimmed(s: Seq<char>)
    requires
        s.len() > 0 ==> !text::is_white(s[0]) && !text::is_white(s.last()),
    ensures
        text::trim(s) == s,
{
}

/// Trimming a second time changes nothing.
pub proof fn lemma_trim_again(s: Seq<char>)
    ensures
        text::trim(text::trim(s)) == text::trim(s),
{
    let r = lemma_trim(s);
    lemma_trimmed(text::trim(s));
}

/// Blanks, tabulators and the ends of lines are white space; letters, digits and the marks of
/// names, addresses and paths are none.
pub proof fn lemma_white(c: char)
    ensures
        c == ' ' || c == '\t' || c == '\n' || c == '\r' ==> text::is_white(c),
        '!' <= c <= '~' ==> !text::is_white(c),
{
}

/// A letter in lower case is the letter that it was; nothing but capital letters changes.
pub proof fn lemma_lower_char(c: char)
    ensures
        'A' <= c <= 'Z' ==> text::lower_char(c) as u32 == c as u32 + 32,
        'A' <= c <= 'Z' ==> 'a' <= text::lower_char(c) <= 'z',
        !('A' <= c <= 'Z') ==> text::lower_char(c) == c,
        'a' <= c <= 'z' ==> text::upper_char(c) as u32 + 32 == c as u32,
        'a' <= c <= 'z' ==> 'A' <= text::upper_char(c) <= 'Z',
        !('a' <= c <= 'z') ==> text::upper_char(c) == c,
        text::lower_char(text::upper_char(c)) == text::lower_char(c),
{
}

/// Folding keeps the length of a text, has no capital letter left, and is done once and for all;
/// upper and lower case of a text fold to the same.
pub proof fn lemma_lower(s: Seq<char>)
    ensures
        text::lower(s).len() == s.len(),
        forall|i: int|
            0 <= i < s.len() ==> !('A' <= #[trigger] text::lower(s)[i] && text::lower(s)[i] <= 'Z'),
        text::lower(text::lower(s)) == text::lower(s),
        text::lower(text::upper(s)) == text::lower(s),
        text::upper(text::lower(s)) == text::upper(s),
{
    assert forall|i: int| 0 <= i < s.len() implies !('A' <= #[trigger] text::lower(s)[i]
        && text::lower(s)[i] <= 'Z') by {
        lemma_lower_char(s[i]);
    }
    assert(text::lower(text::lower(s)) =~= text::lower(s));
    assert forall|i: int| 0 <= i < s.len() implies text::lower(text::upper(s))[i] == #[trigger]
        text::lower(s)[i] by {
        lemma_lower_char(s[i]);
    }
    assert(text::lower(text::upper(s)) =~= text::lower(s));
    assert forall|i: int| 0 <= i < s.len() implies text::upper(text::lower(s))[i] == #[trigger]
        text::upper(s)[i] by {
        lemma_lower_char(s[i]);
    }
    assert(text::upper(text::lower(s)) =~= text::upper(s));
}

/// A text is its form without dots at the end, and dots.
pub proof fn lemma_trim_dots(s: Seq<char>)
    ensures
        ({
            let t = text::trim_dots(s);
            &&& t.len() <= s.len()
            &&& t == s.take(t.len() as int)
            &&& t.len() > 0 ==> t.last() != '.'
            &&& forall|i: int| t.len() <= i < s.len() ==> #[trigger] s[i] == '.'
        }),
    decreases s.len(),
{
    if s.len() > 0 && s.last() == '.' {
        let start = s.drop_last();
        lemma_trim_dots(start);
        let t = text::trim_dots(s);
        assert(t =~= s.take(t.len() as int));
        assert forall|i: int| t.len() <= i < s.len() implies #[trigger] s[i] == '.' by {
            if i < s.len() - 1 {
                assert(start[i] == s[i]);
            }
        }
    } else {
        assert(s.take(s.len() as int) =~= s);
    }
}

/// A name is compared without regard to case and to dots at its end.
pub proof fn lemma_norm(s: Seq<char>)
    ensures
        text::norm(s.push('.')) == text::norm(s),
        text::norm(text::lower(s)) == text::norm(s),
        text::norm(s).len() > 0 ==> text::norm(s).last() != '.',
    decreases s.len(),
{
    assert(s.push('.').drop_last() =~= s);
    lemma_trim_dots(s);
    let t = text::trim_dots(s);
    if t.len() > 0 {
        assert(text::norm(s).last() == text::lower_char(t.last()));
    }
    lemma_lower(s);
    if s.len() > 0 {
        assert(text::lower(s).last() == text::lower_char(s.last()));
        if s.last() == '.' {
            lemma_norm(s.drop_last());
            assert(text::lower(s).drop_last() =~= text::lower(s.drop_last()));
        }
    }
}

/// Texts put together with a separator between neighbours.
pub open spec fn join_with(parts: Seq<Seq<char>>, sep: char) -> Seq<char>
    decreases parts.len(),
{
    if parts.len() == 0 {
        Seq::empty()
    } else if parts.len() == 1 {
        parts[0]
    } else {
        join_with(parts.drop_last(), sep).push(sep) + parts.last()
    }
}

proof fn lemma_join_longer(parts: Seq<Seq<char>>, sep: char, c: char)
    requires
        parts.len() > 0,
    ensures
        join_with(parts.update(parts.len() - 1, parts.last().push(c)), sep) == join_with(
            parts,
            sep,
        ).push(c),
{
    let longer = parts.update(parts.len() - 1, parts.last().push(c));
    if parts.len() > 1 {
        assert(longer.drop_last() =~= parts.drop_last());
    }
    assert(join_with(longer, sep) =~= join_with(parts, sep).push(c));
}

/// The pieces of a text hold no separator, and put together with it they are the text.
pub proof fn lemma_split(s: Seq<char>, sep: char)
    ensures
        text::split(s, sep).len() >= 1,
        join_with(text::split(s, sep), sep) == s,
        forall|i: int|
            0 <= i < text::split(s, sep).len() ==> !(#[trigger] text::split(s, sep)[i]).contains(
                sep,
            ),
    decreases s.len(),
{
    if s.len() > 0 {
        let start = s.drop_last();
        let before = text::split(start, sep);
        let all = text::split(s, sep);
        lemma_split(start, sep);
        if s.last() == sep {
            assert(all.drop_last() =~= before);
            assert(join_with(all, sep) =~= s);
            assert forall|i: int| 0 <= i < all.len() implies !(#[trigger] all[i]).contains(sep) by {
                if i < before.len() {
                    assert(all[i] == before[i]);
                }
            }
        } else {
            lemma_join_longer(before, sep, s.last());
            assert(start.push(s.last()) =~= s);
            assert forall|i: int| 0 <= i < all.len() implies !(#[trigger] all[i]).contains(sep) by {
                assert(!before[i].contains(sep));
                if i == before.len() - 1 {
                    if all[i].contains(sep) {
                        let k = choose|k: int| 0 <= k < all[i].len() && all[i][k] == sep;
                        if k < before[i].len() {
                            assert(before[i][k] == sep);
                        }
                    }
                }
            }
        }
    } else {
        assert(s =~= Seq::empty());
        assert(text::split(s, sep)[0] =~= Seq::empty());
    }
}

proof fn lemma_join_is_dotted(parts: Seq<Seq<char>>)
    ensures
        join_with(parts, '.') == text::join_dots(parts),
    decreases parts.len(),
{
    if parts.len() > 1 {
        lemma_join_is_dotted(parts.drop_last());
    }
}

/// Labels put together with dots are split at the dots again.
pub proof fn lemma_split_at_dots(s: Seq<char>)
    ensures
        text::join_dots(text::split(s, '.')) == s,
{
    lemma_split(s, '.');
    lemma_join_is_dotted(text::split(s, '.'));
}

proof fn lemma_split_one(s: Seq<char>, sep: char)
    requires
        !s.contains(sep),
    ensures
        text::split(s, sep) == seq![s],
    decreases s.len(),
{
    if s.len() > 0 {
        let start = s.drop_last();
        assert(!start.contains(sep)) by {
            if start.contains(sep) {
                let i = choose|i: int| 0 <= i < start.len() && start[i] == sep;
                assert(s[i] == sep);
            }
        }
        lemma_split_one(start, sep);
        assert(s[s.len() - 1] != sep);
        assert(s =~= start.push(s.last()));
        assert(text::split(s, sep) =~= seq![s]);
    } else {
        assert(s =~= Seq::empty());
    }
}

proof fn lemma_split_more(head: Seq<char>, s: Seq<char>, sep: char)
    requires
        !s.contains(sep),
    ensures
        ({
            let before = text::split(head, sep);
            before.len() >= 1 && text::split(head + s, sep) == before.update(
                before.len() - 1,
                before.last() + s,
            )
        }),
    decreases s.len(),
{
    let before = text::split(head, sep);
    text::lemma_split_len(head, sep);
    if s.len() == 0 {
        assert(head + s =~= head);
        assert(before.last() + s =~= before.last());
        assert(before.update(before.len() - 1, before.last()) =~= before);
    } else {
        let start = s.drop_last();
        assert(!start.contains(sep)) by {
            if start.contains(sep) {
                let i = choose|i: int| 0 <= i < start.len() && start[i] == sep;
                assert(s[i] == sep);
            }
        }
        lemma_split_more(head, start, sep);
        let all = head + s;
        assert(all.drop_last() =~= head + start);
        assert(s[s.len() - 1] != sep);
        let mid = before.update(before.len() - 1, before.last() + start);
        assert((before.last() + start).push(s.last()) =~= before.last() + s);
        assert(mid.update(mid.len() - 1, mid.last().push(s.last())) =~= before.update(
            before.len() - 1,
            before.last() + s,
        ));
    }
}

/// Two texts without the separator, put together with it, are split into the two.
pub proof fn lemma_split_two(a: Seq<char>, b: Seq<char>, sep: char)
    requires
        !a.contains(sep),
        !b.contains(sep),
    ensures
        text::split(a.push(sep) + b, sep) == seq![a, b],
{
    lemma_split_one(a, sep);
    let head = a.push(sep);
    assert(head.drop_last() =~= a);
    assert(text::split(head, sep) =~= seq![a, Seq::empty()]);
    lemma_split_more(head, b, sep);
    assert(Seq::<char>::empty() + b =~= b);
    assert(text::split(head + b, sep) =~= seq![a, b]);
}

/// A number is read back from its decimal notation, which has no zero before another digit.
pub proof fn lemma_decimal(n: nat)
    ensures
        text::digits_value(text::decimal(n)) == n,
        text::all_digits(text::decimal(n)),
        text::decimal(n).len() >= 1,
        n > 0 ==> text::decimal(n)[0] != '0',
    decreases n,
{
    let s = text::decimal(n);
    if n < 10 {
        assert(s.drop_last() =~= Seq::empty());
        assert(text::digits_value(s.drop_last()) == 0);
    } else {
        lemma_decimal(n / 10);
        assert(s.drop_last() =~= text::decimal(n / 10));
        assert(s[0] == text::decimal(n / 10)[0]);
        assert forall|i: int| 0 <= i < s.len() implies text::is_digit(#[trigger] s[i]) by {
            if i < s.len() - 1 {
                assert(s[i] == text::decimal(n / 10)[i]);
            }
        }
    }
}

/// A number is read from its decimal notation, with or without a plus sign, exactly where it does
/// not exceed the bound.
pub proof fn lemma_number_round_trip(n: nat, max: nat)
    ensures
        text::uint_value(text::decimal(n), max) == (if n <= max {
            Some(n)
        } else {
            None
        }),
        text::uint_value(seq!['+'] + text::decimal(n), max) == text::uint_value(
            text::decimal(n),
            max,
        ),
{
    lemma_decimal(n);
    let s = text::decimal(n);
    assert(text::is_digit(s[0]));
    assert((seq!['+'] + s).drop_first() =~= s);
}

proof fn lemma_digits_bound(s: Seq<char>)
    requires
        text::all_digits(s),
    ensures
        !s.contains(':'),
        !s.contains('.'),
{
    assert forall|i: int| 0 <= i < s.len() implies s[i] != ':' && s[i] != '.' by {
        assert(text::is_digit(s[i]));
    }
}

/// The text of a socket address: an IPv4 address, a colon and a port.
pub open spec fn socket_text(o: Seq<u8>, port: u16) -> Seq<char> {
    ip::ipv4_text(o).push(':') + text::decimal(port as nat)
}

proof fn lemma_joined_plain(parts: Seq<Seq<char>>)
    requires
        forall|i: int| 0 <= i < parts.len() ==> text::all_digits(#[trigger] parts[i]),
    ensures
        forall|k: int|
            0 <= k < text::join_dots(parts).len() ==> text::is_digit(
                #[trigger] text::join_dots(parts)[k],
            ) || text::join_dots(parts)[k] == '.',
    decreases parts.len(),
{
    let s = text::join_dots(parts);
    if parts.len() == 1 {
        assert(text::all_digits(parts[0]));
    } else if parts.len() > 1 {
        let start = parts.drop_last();
        assert forall|i: int| 0 <= i < start.len() implies text::all_digits(#[trigger] start[i]) by {
            assert(start[i] == parts[i]);
        }
        lemma_joined_plain(start);
        assert(text::all_digits(parts[parts.len() - 1]));
        let head = text::join_dots(start);
        assert forall|k: int| 0 <= k < s.len() implies text::is_digit(#[trigger] s[k]) || s[k]
            == '.' by {
            if k < head.len() {
                assert(s[k] == head[k]);
            } else if k > head.len() {
                assert(s[k] == parts.last()[k - head.len() - 1]);
            }
        }
    }
}

/// The port of a socket address is read back from its text, which has no white space around it.
pub proof fn lemma_socket_round_trip(o: Seq<u8>, port: u16)
    requires
        o.len() == 4,
    ensures
        ip::socket_port(socket_text(o, port)) == Some(port as nat),
        text::trim(socket_text(o, port)) == socket_text(o, port),
        socket_text(o, port).len() > 0,
{
    let host = ip::ipv4_text(o);
    let tail = text::decimal(port as nat);
    let s = socket_text(o, port);
    let parts = ip::decimals(o);
    assert forall|i: int| 0 <= i < parts.len() implies text::all_digits(#[trigger] parts[i]) by {
        lemma_decimal(o[i] as nat);
    }
    lemma_joined_plain(parts);
    lemma_decimal(port as nat);
    lemma_digits_bound(tail);
    assert(!host.contains(':'));
    lemma_split_two(host, tail, ':');
    ip::lemma_ipv4_round_trip(o);
    lemma_number_round_trip(port as nat, u16::MAX as nat);
    assert(text::is_digit(tail[0]));
    assert(s.last() == tail.last());
    assert(text::is_digit(tail[tail.len() - 1]));
    if host.len() > 0 {
        assert(s[0] == host[0]);
    } else {
        assert(s[0] == ':');
    }
    lemma_trimmed(s);
}

/// A name lies under a domain exactly where it is the domain, or some text, a dot and the domain.
pub proof fn lemma_under(name: Seq<char>, domain: Seq<char>)
    ensures
        text::is_under(name, domain) <==> name == domain || exists|head: Seq<char>| #[trigger]
            head.push('.') + domain == name,
{
    if name != domain && text::is_under(name, domain) {
        let head = name.take(name.len() - domain.len() - 1);
        let tail = name.skip(name.len() - domain.len() - 1);
        let whole = head.push('.') + domain;
        assert(tail == seq!['.'] + domain);
        assert forall|i: int| 0 <= i < name.len() implies whole[i] == #[trigger] name[i] by {
            if i >= head.len() {
                assert(tail[i - head.len()] == (seq!['.'] + domain)[i - head.len()]);
            }
        }
        assert(whole =~= name);
    }
    if exists|head: Seq<char>| #[trigger] head.push('.') + domain == name {
        let head = choose|head: Seq<char>| #[trigger] head.push('.') + domain == name;
        assert(name.skip(name.len() - domain.len() - 1) =~= seq!['.'] + domain);
    }
}

} // verus!
