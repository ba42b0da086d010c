//! Real numbers as decimal text, and the comparisons that settings need.
use crate::text;
use vstd::prelude::*;

verus! {

/// A real number by its decimal text: digits with at most one point, after an optional minus
/// sign; or one of `NaN`, `inf` and `-inf`.
#[derive(Debug, Clone)]
pub struct Decimal {
    pub text: String,
}

pub open spec fn has_nonzero_digit(s: Seq<char>) -> bool {
    exists|i: int| 0 <= i < s.len() && '1' <= #[trigger] s[i] <= '9'
}

/// Whether the number that `s` writes is below zero.
pub open spec fn is_negative(s: Seq<char>) -> bool {
    s.len() > 0 && s[0] == '-' && (s == "-inf"@ || has_nonzero_digit(s))
}

/// A number between zero and one: whether it is one, and otherwise its digits after the point.
pub ghost struct UnitV {
    pub one: bool,
    pub fraction: Seq<char>,
}

pub open spec fn unsigned_unit(s: Seq<char>) -> Option<UnitV> {
    let parts = text::split(s, '.');
    let fraction = if parts.len() == 2 {
        parts[1]
    } else {
        Seq::empty()
    };
    if parts.len() > 2 || !text::all_digits(fraction) {
        None
    } else if parts[0] == seq!['0'] {
        Some(UnitV { one: false, fraction })
    } else if parts[0] == seq!['1'] && !has_nonzero_digit(fraction) {
        Some(UnitV { one: true, fraction })
    } else {
        None
    }
}

/// The number that `s` writes, where it lies between zero and one.
pub open spec fn unit_value(s: Seq<char>) -> Option<UnitV> {
    if s.len() > 0 && s[0] == '-' {
        if has_nonzero_digit(s) {
            None
        } else {
            unsigned_unit(s.skip(1))
        }
    } else {
        unsigned_unit(s)
    }
}

/// Order of two fractions by their digits after the point.
pub open spec fn fraction_lt(a: Seq<char>, b: Seq<char>) -> bool
    decreases a.len() + b.len(),
{
    if a.len() == 0 {
        has_nonzero_digit(b)
    } else if b.len() == 0 {
        false
    } else if a[0] == b[0] {
        fraction_lt(a.skip(1), b.skip(1))
    } else {
        a[0] < b[0]
    }
}

pub open spec fn unit_lt(a: UnitV, b: UnitV) -> bool {
    (!a.one && b.one) || (a.one == b.one && fraction_lt(a.fraction, b.fraction))
}

/// Whether both texts write numbers between zero and one, the first below the second.
pub open spec fn is_below(a: Seq<char>, b: Seq<char>) -> bool {
    match (unit_value(a), unit_value(b)) {
        (Some(x), Some(y)) => unit_lt(x, y),
        _ => false,
    }
}

struct Unit {
    one: bool,
    fraction: Vec<char>,
}

fn some_nonzero_digit(s: &[char]) -> (r: bool)
    ensures
        r == has_nonzero_digit(s@),
{
    let mut i: usize = 0;
    while i < s.len()
        invariant
            i <= s@.len(),
            forall|j: int| 0 <= j < i ==> !('1' <= #[trigger] s@[j] <= '9'),
        decreases s@.len() - i,
    {
        if '1' <= s[i] && s[i] <= '9' {
            assert('1' <= s@[i as int] <= '9');
            return true;
        }
        i = i + 1;
    }
    false
}

fn only_digits(s: &[char]) -> (r: bool)
    ensures
        r == text::all_digits(s@),
{
    let mut i: usize = 0;
    while i < s.len()
        invariant
            i <= s@.len(),
            forall|j: int| 0 <= j < i ==> text::is_digit(#[trigger] s@[j]),
        decreases s@.len() - i,
    {
        if !('0' <= s[i] && s[i] <= '9') {
            assert(!text::is_digit(s@[i as int]));
            return false;
        }
        i = i + 1;
    }
    true
}

fn read_unsigned_unit(s: &[char]) -> (r: Option<Unit>)
    ensures
        match r {
            Some(u) => unsigned_unit(s@) == Some(UnitV { one: u.one, fraction: u.fraction@ }),
            None => unsigned_unit(s@) is None,
        },
{
    let parts = text::split_chars(s, '.');
    let ghost spec_parts = text::split(s@, '.');
    assert(text::char_views(parts@) == spec_parts);
    assert(spec_parts[0] == parts@[0]@);
    if parts.len() > 2 {
        return None;
    }
    let fraction = if parts.len() == 2 {
        assert(spec_parts[1] == parts@[1]@);
        vstd::slice::slice_to_vec(parts[1].as_slice())
    } else {
        Vec::new()
    };
    if !only_digits(fraction.as_slice()) {
        return None;
    }
    let whole = &parts[0];
    if whole.len() == 1 && whole[0] == '0' {
        assert(whole@ =~= seq!['0']);
        Some(Unit { one: false, fraction })
    } else if whole.len() == 1 && whole[0] == '1' && !some_nonzero_digit(fraction.as_slice()) {
        assert(whole@ =~= seq!['1']);
        Some(Unit { one: true, fraction })
    } else {
        None
    }
}

fn fraction_less(a: &[char], b: &[char]) -> (r: bool)
    ensures
        r == fraction_lt(a@, b@),
{
    let mut i: usize = 0;
    assert(a@.skip(0) =~= a@ && b@.skip(0) =~= b@);
    while i < a.len() && i < b.len()
        invariant
            i <= a@.len(),
            i <= b@.len(),
            fraction_lt(a@, b@) == fraction_lt(a@.skip(i as int), b@.skip(i as int)),
        decreases a@.len() - i,
    {
        assert(a@.skip(i as int)[0] == a@[i as int] && b@.skip(i as int)[0] == b@[i as int]);
        if a[i] != b[i] {
            return a[i] < b[i];
        }
        assert(a@.skip(i as int).skip(1) =~= a@.skip(i + 1));
        assert(b@.skip(i as int).skip(1) =~= b@.skip(i + 1));
        i = i + 1;
    }
    if i < a.len() {
        return false;
    }
    let rest = vstd::slice::slice_subrange(b, i, b.len());
    assert(rest@ =~= b@.skip(i as int));
    some_nonzero_digit(rest)
}

impl Decimal {
    /// The number with the given decimal text.
    pub fn new(text: &str) -> (r: Self)
        ensures
            r.text@ == text@,
    {
        Decimal { text: text.to_owned() }
    }

    /// Whether the number is below zero.
    pub fn negative(&self) -> (r: bool)
        ensures
            r == is_negative(self.text@),
    {
        let chars = text::chars_of(self.text.as_str());
        chars.len() > 0 && chars[0] == '-' && (text::same(self.text.as_str(), "-inf")
            || some_nonzero_digit(chars.as_slice()))
    }

    fn unit(&self) -> (r: Option<Unit>)
        ensures
            match r {
                Some(u) => unit_value(self.text@) == Some(
                    UnitV { one: u.one, fraction: u.fraction@ },
                ),
                None => unit_value(self.text@) is None,
            },
    {
        let chars = text::chars_of(self.text.as_str());
        if chars.len() > 0 && chars[0] == '-' {
            if some_nonzero_digit(chars.as_slice()) {
                return None;
            }
            let rest = vstd::slice::slice_subrange(chars.as_slice(), 1, chars.len());
            assert(rest@ =~= self.text@.skip(1));
            read_unsigned_unit(rest)
        } else {
            read_unsigned_unit(chars.as_slice())
        }
    }

    /// Whether the number lies between zero and one, both bounds in.
    pub fn within_unit(&self) -> (r: bool)
        ensures
            r == (unit_value(self.text@) is Some),
    {
        self.unit().is_some()
    }

    /// Whether both numbers lie between zero and one and this one is the smaller.
    pub fn below(&self, other: &Decimal) -> (r: bool)
        ensures
            r == is_below(self.text@, other.text@),
    {
        match (self.unit(), other.unit()) {
            (Some(a), Some(b)) => (!a.one && b.one) || (a.one == b.one && fraction_less(
                a.fraction.as_slice(),
                b.fraction.as_slice(),
            )),
            _ => false,
        }
    }
}

} // verus!
