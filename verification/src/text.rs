//! Text helpers: strings as sequences of characters.
use vstd::prelude::*;
use vstd::string::*;
use vstd::utf8::*;

verus! {

/// `String::push` appends one character.
pub assume_specification[ String::push ](s: &mut String, c: char)
    ensures
        final(s)@ == old(s)@.push(c),
;

/// `std::str::from_utf8` accepts exactly the well-formed UTF-8 byte strings and decodes them.
#[verifier::external_body]
pub(crate) fn utf8_text(bytes: &[u8]) -> (r: Option<String>)
    ensures
        r is Some <==> valid_utf8(bytes@),
        r matches Some(s) ==> s@ == decode_utf8(bytes@),
{
    std::str::from_utf8(bytes).ok().map(|s| s.to_string())
}

/// Lower case of an ASCII letter; every other character is kept.
pub open spec fn lower_char(c: char) -> char {
    if 'A' <= c <= 'Z' {
        ((c as u8) + 32) as u8 as char
    } else {
        c
    }
}

/// Upper case of an ASCII letter; every other character is kept.
pub open spec fn upper_char(c: char) -> char {
    if 'a' <= c <= 'z' {
        ((c as u8) - 32) as u8 as char
    } else {
        c
    }
}

pub open spec fn lower(s: Seq<char>) -> Seq<char> {
    s.map_values(|c: char| lower_char(c))
}

pub open spec fn upper(s: Seq<char>) -> Seq<char> {
    s.map_values(|c: char| upper_char(c))
}

/// The characters of Unicode's `White_Space` property.
pub open spec fn is_white(c: char) -> bool {
    let n = c as u32;
    ||| 0x09 <= n <= 0x0D
    ||| n == 0x20
    ||| n == 0x85
    ||| n == 0xA0
    ||| n == 0x1680
    ||| 0x2000 <= n <= 0x200A
    ||| n == 0x2028
    ||| n == 0x2029
    ||| n == 0x202F
    ||| n == 0x205F
    ||| n == 0x3000
}

/// `s` without the white space at its end.
pub open spec fn trim_end(s: Seq<char>) -> Seq<char>
    decreases s.len(),
{
    if s.len() > 0 && is_white(s.last()) {
        trim_end(s.drop_last())
    } else {
        s
    }
}

/// `s` without the white space at its start.
pub open spec fn trim_start(s: Seq<char>) -> Seq<char>
    decreases s.len(),
{
    if s.len() > 0 && is_white(s[0]) {
        trim_start(s.drop_first())
    } else {
        s
    }
}

/// `s` without the white space around it.
pub open spec fn trim(s: Seq<char>) -> Seq<char> {
    trim_end(trim_start(s))
}

/// `s` without the dots at its end.
pub open spec fn trim_dots(s: Seq<char>) -> Seq<char>
    decreases s.len(),
{
    if s.len() > 0 && s.last() == '.' {
        trim_dots(s.drop_last())
    } else {
        s
    }
}

/// The form in which domain names are compared: no dots at the end, ASCII letters in lower case.
pub open spec fn norm(s: Seq<char>) -> Seq<char> {
    lower(trim_dots(s))
}

/// The pieces of `s` between the separators: each separator opens a new, empty piece.
pub open spec fn split(s: Seq<char>, sep: char) -> Seq<Seq<char>>
    decreases s.len(),
{
    if s.len() == 0 {
        seq![Seq::empty()]
    } else {
        let before = split(s.drop_last(), sep);
        if s.last() == sep {
            before.push(Seq::empty())
        } else {
            before.update(before.len() - 1, before.last().push(s.last()))
        }
    }
}

/// The parts, with a dot between neighbours.
pub open spec fn join_dots(parts: Seq<Seq<char>>) -> Seq<char>
    decreases parts.len(),
{
    if parts.len() == 0 {
        Seq::empty()
    } else if parts.len() == 1 {
        parts[0]
    } else {
        join_dots(parts.drop_last()).push('.') + parts.last()
    }
}

/// Decimal notation of `n`.
pub open spec fn decimal(n: nat) -> Seq<char>
    decreases n,
{
    if n < 10 {
        seq![('0' as u8 + n) as u8 as char]
    } else {
        decimal(n / 10).push(('0' as u8 + n % 10) as u8 as char)
    }
}

/// The views of a list of strings.
pub open spec fn views(v: Seq<String>) -> Seq<Seq<char>> {
    v.map_values(|s: String| s@)
}

/// The views of a list of character lists.
pub open spec fn char_views(v: Seq<Vec<char>>) -> Seq<Seq<char>> {
    v.map_values(|s: Vec<char>| s@)
}

pub proof fn lemma_split_len(s: Seq<char>, sep: char)
    ensures
        split(s, sep).len() >= 1,
    decreases s.len(),
{
    if s.len() > 0 {
        lemma_split_len(s.drop_last(), sep);
    }
}

/// The characters of `s`.
pub fn chars_of(s: &str) -> (r: Vec<char>)
    ensures
        r@ == s@,
{
    let mut out: Vec<char> = Vec::new();
    for c in it: s.chars()
        invariant
            out@ == s@.take(it.index() as int),
            it.seq() == s@,
    {
        out.push(c);
        assert(out@ =~= s@.take(it.index() + 1));
    }
    assert(out@ =~= s@);
    out
}

/// The string made of `chars`.
pub fn string_of(chars: &[char]) -> (r: String)
    ensures
        r@ == chars@,
{
    let mut out = String::new();
    let mut i: usize = 0;
    while i < chars.len()
        invariant
            i <= chars.len(),
            out@ == chars@.take(i as int),
        decreases chars.len() - i,
    {
        out.push(chars[i]);
        assert(out@ =~= chars@.take(i + 1));
        i += 1;
    }
    assert(out@ =~= chars@);
    out
}

/// Equality of texts.
pub fn same(a: &str, b: &str) -> (r: bool)
    ensures
        r == (a@ == b@),
{
    a.to_owned() == b.to_owned()
}

/// Equality of texts, ASCII letters compared without case.
pub fn same_fold(a: &str, b: &str) -> (r: bool)
    ensures
        r == (lower(a@) == lower(b@)),
{
    to_lower(a) == to_lower(b)
}

fn lower_one(c: char) -> (r: char)
    ensures
        r == lower_char(c),
{
    if 'A' <= c && c <= 'Z' {
        ((c as u8) + 32) as char
    } else {
        c
    }
}

fn upper_one(c: char) -> (r: char)
    ensures
        r == upper_char(c),
{
    if 'a' <= c && c <= 'z' {
        ((c as u8) - 32) as char
    } else {
        c
    }
}

/// ASCII lower case.
pub fn to_lower(s: &str) -> (r: String)
    ensures
        r@ == lower(s@),
{
    let chars = chars_of(s);
    let mut out = String::new();
    let mut i: usize = 0;
    while i < chars.len()
        invariant
            i <= chars.len(),
            chars@ == s@,
            out@ == lower(s@.take(i as int)),
        decreases chars.len() - i,
    {
        out.push(lower_one(chars[i]));
        assert(out@ =~= lower(s@.take(i + 1)));
        i += 1;
    }
    assert(s@.take(i as int) =~= s@);
    out
}

/// ASCII upper case.
pub fn to_upper(s: &str) -> (r: String)
    ensures
        r@ == upper(s@),
{
    let chars = chars_of(s);
    let mut out = String::new();
    let mut i: usize = 0;
    while i < chars.len()
        invariant
            i <= chars.len(),
            chars@ == s@,
            out@ == upper(s@.take(i as int)),
        decreases chars.len() - i,
    {
        out.push(upper_one(chars[i]));
        assert(out@ =~= upper(s@.take(i + 1)));
        i += 1;
    }
    assert(s@.take(i as int) =~= s@);
    out
}

/// Whether a character is white space.
pub fn white(c: char) -> (r: bool)
    ensures
        r == is_white(c),
{
    let n: u32 = c as u32;
    (0x09 <= n && n <= 0x0D) || n == 0x20 || n == 0x85 || n == 0xA0 || n == 0x1680 || (0x2000
        <= n && n <= 0x200A) || n == 0x2028 || n == 0x2029 || n == 0x202F || n == 0x205F || n
        == 0x3000
}

/// The characters of `s` without the white space around it.
pub fn trim_chars(s: &[char]) -> (r: Vec<char>)
    ensures
        r@ == trim(s@),
{
    let mut start: usize = 0;
    assert(s@.subrange(0, s@.len() as int) =~= s@);
    while start < s.len() && white(s[start])
        invariant
            start <= s.len(),
            trim_start(s@) == trim_start(s@.subrange(start as int, s@.len() as int)),
        decreases s.len() - start,
    {
        assert(s@.subrange(start as int, s@.len() as int).drop_first() =~= s@.subrange(
            start + 1,
            s@.len() as int,
        ));
        start += 1;
    }
    let mut end: usize = s.len();
    assert(trim_start(s@) == s@.subrange(start as int, s@.len() as int));
    while end > start && white(s[end - 1])
        invariant
            start <= end <= s.len(),
            trim(s@) == trim_end(s@.subrange(start as int, end as int)),
        decreases end,
    {
        assert(s@.subrange(start as int, end as int).drop_last() =~= s@.subrange(
            start as int,
            end - 1,
        ));
        end -= 1;
    }
    assert(trim(s@) == s@.subrange(start as int, end as int));
    vstd::slice::slice_to_vec(vstd::slice::slice_subrange(s, start, end))
}

/// `s` without the white space around it.
pub fn trimmed(s: &str) -> (r: String)
    ensures
        r@ == trim(s@),
{
    string_of(trim_chars(chars_of(s).as_slice()).as_slice())
}

/// `s` without the dots at its end.
pub fn undotted(s: &str) -> (r: String)
    ensures
        r@ == trim_dots(s@),
{
    let chars = chars_of(s);
    let mut end: usize = chars.len();
    assert(chars@.take(end as int) =~= s@);
    while end > 0 && chars[end - 1] == '.'
        invariant
            end <= chars.len(),
            chars@ == s@,
            trim_dots(s@) == trim_dots(chars@.take(end as int)),
        decreases end,
    {
        assert(chars@.take(end as int).drop_last() =~= chars@.take(end - 1));
        end -= 1;
    }
    assert(trim_dots(s@) == chars@.take(end as int));
    string_of(vstd::slice::slice_subrange(chars.as_slice(), 0, end))
}

/// The form in which domain names are compared.
pub fn normalized(s: &str) -> (r: String)
    ensures
        r@ == norm(s@),
{
    to_lower(undotted(s).as_str())
}

/// The pieces of `s` between the separators.
pub fn split_chars(s: &[char], sep: char) -> (r: Vec<Vec<char>>)
    ensures
        char_views(r@) == split(s@, sep),
        r@.len() >= 1,
{
    let mut out: Vec<Vec<char>> = Vec::new();
    let mut cur: Vec<char> = Vec::new();
    let mut i: usize = 0;
    assert(char_views(out@).push(cur@) =~= split(s@.take(0), sep));
    while i < s.len()
        invariant
            i <= s.len(),
            char_views(out@).push(cur@) == split(s@.take(i as int), sep),
        decreases s.len() - i,
    {
        let c = s[i];
        assert(s@.take(i + 1).drop_last() =~= s@.take(i as int));
        let ghost before = char_views(out@).push(cur@);
        if c == sep {
            let piece = cur;
            cur = Vec::new();
            out.push(piece);
            assert(char_views(out@) =~= before);
        } else {
            let ghost prior = cur@;
            cur.push(c);
            assert(char_views(out@).push(cur@) =~= before.update(
                before.len() - 1,
                before.last().push(c),
            ));
        }
        i += 1;
    }
    assert(s@.take(i as int) =~= s@);
    let ghost pieces = char_views(out@).push(cur@);
    out.push(cur);
    assert(char_views(out@) =~= pieces);
    out
}

/// The parts, with a dot between neighbours.
pub fn join(parts: &Vec<String>) -> (r: String)
    ensures
        r@ == join_dots(views(parts@)),
{
    let mut out = String::new();
    let mut i: usize = 0;
    while i < parts.len()
        invariant
            i <= parts.len(),
            out@ == join_dots(views(parts@.take(i as int))),
        decreases parts.len() - i,
    {
        let ghost parts_before = views(parts@.take(i as int));
        let ghost parts_after = views(parts@.take(i + 1));
        assert(parts_after.drop_last() =~= parts_before);
        assert(parts_after.last() == parts@[i as int]@);
        if i > 0 {
            out.push('.');
        }
        out.append(parts[i].as_str());
        assert(out@ =~= join_dots(parts_after));
        i += 1;
    }
    assert(parts@.take(i as int) =~= parts@);
    out
}

/// `a` and `b`, one behind the other.
pub fn concat(a: &str, b: &str) -> (r: String)
    ensures
        r@ == a@ + b@,
{
    let mut out = a.to_owned();
    out.append(b);
    out
}

/// Decimal notation of `n`.
pub fn decimal_of(n: u64) -> (r: String)
    ensures
        r@ == decimal(n as nat),
    decreases n,
{
    if n < 10 {
        let mut out = String::new();
        out.push((48 + n as u8) as char);
        assert(out@ =~= decimal(n as nat));
        out
    } else {
        let mut out = decimal_of(n / 10);
        out.push((48 + (n % 10) as u8) as char);
        out
    }
}

/// Whether `c` is an ASCII digit.
pub open spec fn is_digit(c: char) -> bool {
    '0' <= c <= '9'
}

/// The number that a string of digits writes in decimal.
pub open spec fn digits_value(s: Seq<char>) -> nat
    decreases s.len(),
{
    if s.len() == 0 {
        0
    } else {
        digits_value(s.drop_last()) * 10 + (s.last() as u32 - '0' as u32) as nat
    }
}

pub open spec fn all_digits(s: Seq<char>) -> bool {
    forall|i: int| 0 <= i < s.len() ==> is_digit(#[trigger] s[i])
}

/// `s` without a plus sign at its start.
pub open spec fn unsigned(s: Seq<char>) -> Seq<char> {
    if s.len() > 0 && s[0] == '+' {
        s.drop_first()
    } else {
        s
    }
}

/// The number that `s` writes in decimal, an optional plus sign before it, if it is at most
/// `max`.
pub open spec fn uint_value(s: Seq<char>, max: nat) -> Option<nat> {
    let digits = unsigned(s);
    if digits.len() == 0 || !all_digits(digits) || digits_value(digits) > max {
        None
    } else {
        Some(digits_value(digits))
    }
}

/// Reads a decimal number of at most `max`, an optional plus sign before it.
pub fn parse_uint(s: &[char], max: u64) -> (r: Option<u64>)
    ensures
        uint_value(s@, max as nat) == (match r {
            Some(v) => Some(v as nat),
            None => None,
        }),
{
    let start: usize = if s.len() > 0 && s[0] == '+' {
        1
    } else {
        0
    };
    let ghost digits = s@.subrange(start as int, s@.len() as int);
    assert(digits =~= unsigned(s@));
    if s.len() == start {
        return None;
    }
    let mut value: u128 = 0;
    let mut over = false;
    let mut i: usize = start;
    assert(digits.take(0) =~= Seq::empty());
    while i < s.len()
        invariant
            start <= i <= s@.len(),
            start <= 1,
            digits == s@.subrange(start as int, s@.len() as int),
            digits == unsigned(s@),
            forall|k: int| 0 <= k < i - start ==> is_digit(#[trigger] digits[k]),
            !over ==> value == digits_value(digits.take(i - start)) && value <= max,
            over ==> digits_value(digits.take(i - start)) > max,
        decreases s@.len() - i,
    {
        let c = s[i];
        assert(digits[i - start] == c);
        if c < '0' || c > '9' {
            assert(!is_digit(digits[i - start]));
            return None;
        }
        assert(digits.take(i - start + 1).drop_last() =~= digits.take(i - start));
        if !over {
            value = value * 10 + (c as u32 - 48) as u128;
            if value > max as u128 {
                over = true;
            }
        }
        i += 1;
    }
    assert(digits.take(i - start) =~= digits);
    if over {
        None
    } else {
        Some(value as u64)
    }
}

/// The order of texts: by the code points of their characters, a prefix before what it starts.
pub open spec fn lt(a: Seq<char>, b: Seq<char>) -> bool
    decreases a.len(),
{
    if b.len() == 0 {
        false
    } else if a.len() == 0 {
        true
    } else if a[0] == b[0] {
        lt(a.drop_first(), b.drop_first())
    } else {
        a[0] < b[0]
    }
}

/// A list in increasing order, with `x` put where it belongs unless it is there.
pub open spec fn insert_text(sorted: Seq<Seq<char>>, x: Seq<char>) -> Seq<Seq<char>>
    decreases sorted.len(),
{
    if sorted.len() == 0 {
        seq![x]
    } else if lt(sorted[0], x) {
        seq![sorted[0]] + insert_text(sorted.drop_first(), x)
    } else if sorted[0] == x {
        sorted
    } else {
        seq![x] + sorted
    }
}

/// The texts of a list in increasing order, each once.
pub open spec fn sorted_set(list: Seq<Seq<char>>) -> Seq<Seq<char>>
    decreases list.len(),
{
    if list.len() == 0 {
        Seq::empty()
    } else {
        insert_text(sorted_set(list.drop_last()), list.last())
    }
}

/// Strictly increasing.
pub open spec fn increasing(s: Seq<Seq<char>>) -> bool {
    forall|i: int, j: int| 0 <= i < j < s.len() ==> lt(#[trigger] s[i], #[trigger] s[j])
}

pub proof fn lemma_lt_irreflexive(a: Seq<char>)
    ensures
        !lt(a, a),
    decreases a.len(),
{
    if a.len() > 0 {
        lemma_lt_irreflexive(a.drop_first());
    }
}

pub proof fn lemma_lt_transitive(a: Seq<char>, b: Seq<char>, c: Seq<char>)
    requires
        lt(a, b),
        lt(b, c),
    ensures
        lt(a, c),
    decreases a.len(),
{
    if a.len() > 0 && b.len() > 0 && c.len() > 0 && a[0] == b[0] && b[0] == c[0] {
        lemma_lt_transitive(a.drop_first(), b.drop_first(), c.drop_first());
    }
}

pub proof fn lemma_lt_total(a: Seq<char>, b: Seq<char>)
    ensures
        lt(a, b) || lt(b, a) || a == b,
    decreases a.len(),
{
    if a.len() == 0 || b.len() == 0 {
        if a.len() == 0 && b.len() == 0 {
            assert(a =~= b);
        }
    } else if a[0] == b[0] {
        lemma_lt_total(a.drop_first(), b.drop_first());
        if a.drop_first() == b.drop_first() {
            assert(a =~= seq![a[0]] + a.drop_first());
            assert(b =~= seq![b[0]] + b.drop_first());
        }
    }
}

/// Putting a text into an increasing list keeps it increasing and adds that text alone.
pub proof fn lemma_insert_text(sorted: Seq<Seq<char>>, x: Seq<char>)
    requires
        increasing(sorted),
    ensures
        increasing(insert_text(sorted, x)),
        forall|y: Seq<char>| #[trigger]
            insert_text(sorted, x).contains(y) <==> sorted.contains(y) || y == x,
    decreases sorted.len(),
{
    let out = insert_text(sorted, x);
    if sorted.len() == 0 {
        assert(out =~= seq![x]);
        assert(out[0] == x);
    } else if lt(sorted[0], x) {
        let rest = sorted.drop_first();
        assert forall|i: int, j: int| 0 <= i < j < rest.len() implies lt(
            #[trigger] rest[i],
            #[trigger] rest[j],
        ) by {
            assert(lt(sorted[i + 1], sorted[j + 1]));
        }
        lemma_insert_text(rest, x);
        let tail = insert_text(rest, x);
        assert(out =~= seq![sorted[0]] + tail);
        assert forall|i: int, j: int| 0 <= i < j < out.len() implies lt(
            #[trigger] out[i],
            #[trigger] out[j],
        ) by {
            assert(out[j] == tail[j - 1]);
            if i == 0 {
                assert(tail.contains(tail[j - 1]));
                if tail[j - 1] != x {
                    assert(rest.contains(tail[j - 1]));
                    let k = choose|k: int| 0 <= k < rest.len() && rest[k] == tail[j - 1];
                    assert(lt(sorted[0], sorted[k + 1]));
                }
            } else {
                assert(out[i] == tail[i - 1]);
            }
        }
        assert forall|y: Seq<char>| #[trigger] out.contains(y) <==> sorted.contains(y) || y
            == x by {
            if out.contains(y) {
                let k = choose|k: int| 0 <= k < out.len() && out[k] == y;
                if k == 0 {
                    assert(sorted[0] == y);
                } else {
                    assert(tail[k - 1] == y);
                    assert(tail.contains(y));
                    if y != x {
                        assert(rest.contains(y));
                        let m = choose|m: int| 0 <= m < rest.len() && rest[m] == y;
                        assert(sorted[m + 1] == y);
                    }
                }
            }
            if sorted.contains(y) || y == x {
                if sorted.contains(y) && y == sorted[0] {
                    assert(out[0] == y);
                } else {
                    if sorted.contains(y) {
                        let m = choose|m: int| 0 <= m < sorted.len() && sorted[m] == y;
                        assert(rest[m - 1] == y);
                        assert(rest.contains(y));
                    }
                    assert(tail.contains(y));
                    let k = choose|k: int| 0 <= k < tail.len() && tail[k] == y;
                    assert(out[k + 1] == y);
                }
            }
        }
    } else if sorted[0] == x {
        assert(sorted.contains(x));
    } else {
        lemma_lt_total(sorted[0], x);
        assert(out =~= seq![x] + sorted);
        assert forall|i: int, j: int| 0 <= i < j < out.len() implies lt(
            #[trigger] out[i],
            #[trigger] out[j],
        ) by {
            assert(out[j] == sorted[j - 1]);
            if i == 0 {
                if j > 1 {
                    assert(lt(sorted[0], sorted[j - 1]));
                    lemma_lt_transitive(x, sorted[0], sorted[j - 1]);
                }
            } else {
                assert(out[i] == sorted[i - 1]);
            }
        }
        assert forall|y: Seq<char>| #[trigger] out.contains(y) <==> sorted.contains(y) || y
            == x by {
            if out.contains(y) {
                let k = choose|k: int| 0 <= k < out.len() && out[k] == y;
                if k > 0 {
                    assert(sorted[k - 1] == y);
                }
            }
            if sorted.contains(y) {
                let k = choose|k: int| 0 <= k < sorted.len() && sorted[k] == y;
                assert(out[k + 1] == y);
            }
            assert(out[0] == x);
        }
    }
}

/// Texts in increasing order are the same list where they are the same texts.
pub proof fn lemma_same_order(a: Seq<Seq<char>>, b: Seq<Seq<char>>)
    requires
        increasing(a),
        increasing(b),
        forall|x: Seq<char>| #[trigger] a.contains(x) <==> b.contains(x),
    ensures
        a == b,
    decreases a.len(),
{
    if a.len() == 0 {
        if b.len() > 0 {
            assert(b.contains(b[0]));
            assert(a.contains(b[0]));
        }
        assert(a =~= b);
    } else {
        assert(a.contains(a[0]));
        let i = choose|i: int| 0 <= i < b.len() && b[i] == a[0];
        assert(b.contains(b[0]));
        assert(a.contains(b[0]));
        let j = choose|j: int| 0 <= j < a.len() && a[j] == b[0];
        if i > 0 && j > 0 {
            assert(lt(b[0], b[i]) && lt(a[0], a[j]));
            lemma_lt_transitive(a[0], b[0], a[0]);
            lemma_lt_irreflexive(a[0]);
        }
        assert(a[0] == b[0]);
        let c = a.drop_first();
        let d = b.drop_first();
        assert forall|x: Seq<char>| #[trigger] b.contains(x) implies a.contains(x) by {
            assert(a.contains(x) <==> b.contains(x));
        }
        assert forall|x: Seq<char>| #[trigger] c.contains(x) implies d.contains(x) by {
            lemma_rest(a, b, x);
        }
        assert forall|x: Seq<char>| #[trigger] d.contains(x) implies c.contains(x) by {
            lemma_rest(b, a, x);
        }
        lemma_same_order(c, d);
        assert(a =~= seq![a[0]] + c);
        assert(b =~= seq![b[0]] + d);
    }
}

proof fn lemma_rest(a: Seq<Seq<char>>, b: Seq<Seq<char>>, x: Seq<char>)
    requires
        increasing(a),
        a.len() > 0,
        b.len() > 0,
        a[0] == b[0],
        forall|y: Seq<char>| #[trigger] a.contains(y) ==> b.contains(y),
        a.drop_first().contains(x),
    ensures
        b.drop_first().contains(x),
{
    let c = a.drop_first();
    let k = choose|k: int| 0 <= k < c.len() && c[k] == x;
    assert(a[k + 1] == x);
    assert(a.contains(x));
    assert(lt(a[0], a[k + 1]));
    lemma_lt_irreflexive(x);
    let m = choose|m: int| 0 <= m < b.len() && b[m] == x;
    assert(b.drop_first()[m - 1] == x);
}

/// Sorting a list without repetition gives an increasing list of the same texts.
pub proof fn lemma_sorted_set(list: Seq<Seq<char>>)
    ensures
        increasing(sorted_set(list)),
        forall|y: Seq<char>| #[trigger] sorted_set(list).contains(y) <==> list.contains(y),
    decreases list.len(),
{
    if list.len() > 0 {
        let before = list.drop_last();
        lemma_sorted_set(before);
        lemma_insert_text(sorted_set(before), list.last());
        assert forall|y: Seq<char>| #[trigger] sorted_set(list).contains(y) <==> list.contains(
            y,
        ) by {
            if list.contains(y) {
                let k = choose|k: int| 0 <= k < list.len() && list[k] == y;
                if k < list.len() - 1 {
                    assert(before[k] == y);
                    assert(before.contains(y));
                }
            }
            if before.contains(y) {
                let k = choose|k: int| 0 <= k < before.len() && before[k] == y;
                assert(list[k] == y);
            }
            assert(list[list.len() - 1] == list.last());
        }
    }
}

fn less(a: &[char], b: &[char]) -> (r: bool)
    ensures
        r == lt(a@, b@),
{
    let mut i: usize = 0;
    assert(a@.skip(0) =~= a@ && b@.skip(0) =~= b@);
    while i < a.len() && i < b.len()
        invariant
            i <= a@.len(),
            i <= b@.len(),
            lt(a@, b@) == lt(a@.skip(i as int), b@.skip(i as int)),
        decreases a@.len() - i,
    {
        assert(a@.skip(i as int)[0] == a@[i as int]);
        assert(b@.skip(i as int)[0] == b@[i as int]);
        assert(a@.skip(i as int).drop_first() =~= a@.skip(i + 1));
        assert(b@.skip(i as int).drop_first() =~= b@.skip(i + 1));
        if a[i] != b[i] {
            return a[i] < b[i];
        }
        i += 1;
    }
    i < b.len()
}

/// Whether `a` comes before `b` in the order of texts.
pub fn text_less(a: &str, b: &str) -> (r: bool)
    ensures
        r == lt(a@, b@),
{
    less(chars_of(a).as_slice(), chars_of(b).as_slice())
}

/// Puts `x` where it belongs in a list in increasing order, unless it is there.
pub fn insert_sorted(sorted: &mut Vec<String>, x: String)
    ensures
        views(final(sorted)@) == insert_text(views(old(sorted)@), x@),
{
    let mut i: usize = 0;
    let ghost s = views(sorted@);
    assert(s.skip(0) =~= s);
    assert(s.take(0) =~= Seq::empty());
    assert(s.take(0) + insert_text(s.skip(0), x@) =~= insert_text(s, x@));
    while i < sorted.len() && text_less(sorted[i].as_str(), x.as_str())
        invariant
            i <= sorted@.len(),
            s == views(sorted@),
            *sorted == *old(sorted),
            insert_text(s, x@) == s.take(i as int) + insert_text(s.skip(i as int), x@),
        decreases sorted@.len() - i,
    {
        let ghost rest = s.skip(i as int);
        assert(rest[0] == sorted@[i as int]@);
        assert(rest.drop_first() =~= s.skip(i + 1));
        assert(s.take(i + 1) =~= s.take(i as int).push(rest[0]));
        assert(s.take(i as int) + (seq![rest[0]] + insert_text(s.skip(i + 1), x@)) =~= s.take(
            i + 1,
        ) + insert_text(s.skip(i + 1), x@));
        i += 1;
    }
    let ghost rest = s.skip(i as int);
    if i < sorted.len() {
        assert(rest[0] == sorted@[i as int]@);
        if same(sorted[i].as_str(), x.as_str()) {
            assert(s.take(i as int) + rest =~= s);
            return ;
        }
    }
    sorted.insert(i, x);
    assert(views(sorted@) =~= s.take(i as int) + insert_text(rest, x@));
}

/// How a text is quoted for a reader, with its control characters escaped.
pub uninterp spec fn quoted(s: Seq<char>) -> Seq<char>;

/// `Debug` of `str`: the text in double quotes with escapes. The escapes are left to the name.
#[verifier::external_body]
pub(crate) fn quote(s: &str) -> (r: String)
    ensures
        r@ == quoted(s@),
{
    format!("{:?}", s)
}

/// A name as it is compared: without white space round it, dots at its end and capital letters.
pub open spec fn plain_name(s: Seq<char>) -> Seq<char> {
    norm(trim(s))
}

/// A name as it is compared.
pub fn plain_name_of(s: &str) -> (r: String)
    ensures
        r@ == plain_name(s@),
{
    normalized(trimmed(s).as_str())
}

/// Whether a name is a domain or lies below it.
pub open spec fn is_under(name: Seq<char>, domain: Seq<char>) -> bool {
    name == domain || seq!['.'] + domain == name.skip(name.len() - domain.len() - 1)
        && name.len() > domain.len()
}

/// Whether a name is a domain or lies below it.
pub fn lies_under(name: &str, domain: &str) -> (r: bool)
    ensures
        r == is_under(name@, domain@),
{
    let a = chars_of(name);
    let b = chars_of(domain);
    let n: usize = a.len();
    let m: usize = b.len();
    if n < m {
        return false;
    }
    let mut k: usize = 0;
    while k < m
        invariant
            n == a@.len(),
            m == b@.len(),
            m <= n,
            k <= m,
            a@ == name@,
            b@ == domain@,
            forall|j: int| 0 <= j < k ==> a@[n - m + j] == #[trigger] b@[j],
        decreases m - k,
    {
        if a[n - m + k] != b[k] {
            proof {
                if n > m {
                    let tail = name@.skip(n - m - 1);
                    assert(tail[k + 1] == a@[n - m + k]);
                    assert((seq!['.'] + domain@)[k + 1] == b@[k as int]);
                }
            }
            return false;
        }
        k = k + 1;
    }
    if n == m {
        assert(name@ =~= domain@);
        return true;
    }
    proof {
        let tail = name@.skip(n - m - 1);
        assert(tail[0] == a@[n - m - 1]);
        if a@[n - m - 1] == '.' {
            assert(seq!['.'] + domain@ =~= tail);
        } else {
            assert((seq!['.'] + domain@)[0] == '.');
        }
    }
    a[n - m - 1] == '.'
}

} // verus!
