//! What holds of decimal texts: they are ordered as the numbers that they write.
use crate::decimal;
use crate::decimal::UnitV;
use crate::text;
use crate::text_laws;
use vstd::prelude::*;

verus! {

pub open spec fn digit(c: char) -> int {
    c as int - '0' as int
}

pub open spec fn pow10(n: nat) -> int
    decreases n,
{
    if n == 0 {
        1
    } else {
        10 * pow10((n - 1) as nat)
    }
}

/// The number that the first `n` digits write, with zeros behind them where there are fewer.
pub open spec fn scaled(s: Seq<char>, n: nat) -> int
    decreases n,
{
    if n == 0 || s.len() == 0 {
        0
    } else {
        digit(s[0]) * pow10((n - 1) as nat) + scaled(s.skip(1), (n - 1) as nat)
    }
}

proof fn lemma_rest_digits(s: Seq<char>)
    requires
        text::all_digits(s),
        s.len() > 0,
    ensures
        text::all_digits(s.skip(1)),
        0 <= digit(s[0]) <= 9,
{
    assert forall|i: int| 0 <= i < s.skip(1).len() implies '0' <= #[trigger] s.skip(1)[i]
        <= '9' by {
        assert(s.skip(1)[i] == s[i + 1]);
    }
}

/// A number of `n` digits lies between zero and ten to the `n`.
pub proof fn lemma_scaled_bound(s: Seq<char>, n: nat)
    requires
        text::all_digits(s),
    ensures
        0 <= scaled(s, n) < pow10(n),
    decreases n,
{
    if n > 0 {
        lemma_scaled_bound(s, (n - 1) as nat);
        if s.len() > 0 {
            lemma_rest_digits(s);
            lemma_scaled_bound(s.skip(1), (n - 1) as nat);
            let d = digit(s[0]);
            let p = pow10((n - 1) as nat);
            assert(0 <= d * p <= 9 * p) by (nonlinear_arith)
                requires
                    0 <= d <= 9,
                    p > 0,
            ;
        }
    }
}

/// The digits write zero exactly where none of them is another.
pub proof fn lemma_scaled_zero(s: Seq<char>, n: nat)
    requires
        text::all_digits(s),
        s.len() <= n,
    ensures
        scaled(s, n) > 0 <==> decimal::has_nonzero_digit(s),
    decreases n,
{
    if s.len() > 0 {
        let m = (n - 1) as nat;
        let rest = s.skip(1);
        lemma_rest_digits(s);
        lemma_scaled_zero(rest, m);
        lemma_scaled_bound(rest, m);
        let d = digit(s[0]);
        let p = pow10(m);
        assert(d > 0 ==> d * p > 0) by (nonlinear_arith)
            requires
                p > 0,
        ;
        assert(d == 0 ==> d * p == 0) by (nonlinear_arith);
        if decimal::has_nonzero_digit(s) {
            let i = choose|i: int| 0 <= i < s.len() && '1' <= #[trigger] s[i] <= '9';
            if i > 0 {
                assert(rest[i - 1] == s[i]);
            }
        }
        if decimal::has_nonzero_digit(rest) {
            let i = choose|i: int| 0 <= i < rest.len() && '1' <= #[trigger] rest[i] <= '9';
            assert(s[i + 1] == rest[i]);
        }
        if d > 0 {
            assert('1' <= s[0] <= '9');
        }
    }
}

/// Fractions are ordered by their digits after the point as the numbers that they write are.
pub proof fn lemma_fraction_order(a: Seq<char>, b: Seq<char>, n: nat)
    requires
        text::all_digits(a),
        text::all_digits(b),
        a.len() <= n,
        b.len() <= n,
    ensures
        decimal::fraction_lt(a, b) <==> scaled(a, n) < scaled(b, n),
    decreases n,
{
    lemma_scaled_bound(a, n);
    lemma_scaled_bound(b, n);
    if a.len() == 0 {
        lemma_scaled_zero(b, n);
    } else if b.len() > 0 {
        let m = (n - 1) as nat;
        lemma_rest_digits(a);
        lemma_rest_digits(b);
        let p = pow10(m);
        let x = digit(a[0]);
        let y = digit(b[0]);
        let u = scaled(a.skip(1), m);
        let v = scaled(b.skip(1), m);
        lemma_scaled_bound(a.skip(1), m);
        lemma_scaled_bound(b.skip(1), m);
        if a[0] == b[0] {
            lemma_fraction_order(a.skip(1), b.skip(1), m);
        } else if x < y {
            assert(x * p + u < y * p + v) by (nonlinear_arith)
                requires
                    x + 1 <= y,
                    0 <= u < p,
                    0 <= v < p,
            ;
        } else {
            assert(x * p + u > y * p + v) by (nonlinear_arith)
                requires
                    y + 1 <= x,
                    0 <= u < p,
                    0 <= v < p,
            ;
        }
    }
}

/// A text of a digit, a point and more digits lies between zero and one exactly where it begins
/// with `0`, or is one.
pub proof fn lemma_unit_texts(whole: char, f: Seq<char>)
    requires
        whole != '.',
        whole != '-',
        text::all_digits(f),
    ensures
        ({
            let u = decimal::unit_value(seq![whole, '.'] + f);
            &&& whole == '0' ==> u == Some(UnitV { one: false, fraction: f })
            &&& whole == '1' ==> (u is Some <==> !decimal::has_nonzero_digit(f))
            &&& whole != '0' && whole != '1' ==> u is None
        }),
{
    let s = seq![whole, '.'] + f;
    let head = seq![whole];
    assert(!head.contains('.'));
    assert(!f.contains('.')) by {
        assert forall|i: int| 0 <= i < f.len() implies f[i] != '.' by {
            assert('0' <= f[i] <= '9');
        }
    }
    text_laws::lemma_split_two(head, f, '.');
    assert(head.push('.') + f =~= s);
    let parts = text::split(s, '.');
    assert(s[0] == whole);
    if whole != '0' && whole != '1' {
        assert(parts[0][0] == whole);
        assert(seq!['0'][0] == '0' && seq!['1'][0] == '1');
    }
    if whole == '1' {
        assert(parts[0][0] == '1');
        assert(seq!['0'][0] == '0');
    }
}

/// Numbers between zero and one are ordered as their digits after the point say, to whatever number
/// of places; one is above all of them that are below it.
pub proof fn lemma_below(a: Seq<char>, b: Seq<char>, n: nat)
    requires
        text::all_digits(a),
        text::all_digits(b),
        a.len() <= n,
        b.len() <= n,
    ensures
        decimal::is_below(seq!['0', '.'] + a, seq!['0', '.'] + b) <==> scaled(a, n) < scaled(b, n),
        !decimal::has_nonzero_digit(b) ==> decimal::is_below(
            seq!['0', '.'] + a,
            seq!['1', '.'] + b,
        ) && !decimal::is_below(seq!['1', '.'] + b, seq!['0', '.'] + a),
{
    lemma_unit_texts('0', a);
    lemma_unit_texts('0', b);
    lemma_unit_texts('1', b);
    lemma_fraction_order(a, b, n);
    if !decimal::has_nonzero_digit(b) {
        let u = decimal::unit_value(seq!['1', '.'] + b)->0;
        let s = seq!['1', '.'] + b;
        let head = seq!['1'];
        assert(!head.contains('.'));
        assert(!b.contains('.')) by {
            assert forall|i: int| 0 <= i < b.len() implies b[i] != '.' by {
                assert('0' <= b[i] <= '9');
            }
        }
        text_laws::lemma_split_two(head, b, '.');
        assert(head.push('.') + b =~= s);
        assert(text::split(s, '.')[0][0] == '1');
        assert(seq!['0'][0] == '0');
        assert(u.one);
    }
}

/// A text writes a number below zero exactly where a minus sign stands before a digit other than
/// zero, or before infinity.
pub proof fn lemma_negative(s: Seq<char>)
    requires
        text::all_digits(s),
    ensures
        decimal::is_negative(seq!['-'] + s) <==> decimal::has_nonzero_digit(s),
        !decimal::is_negative(s),
        decimal::has_nonzero_digit(s) ==> decimal::unit_value(seq!['-'] + s) is None,
{
    reveal_strlit("-inf");
    let t = seq!['-'] + s;
    if t == "-inf"@ {
        assert(t[1] == 'i');
        assert(t[1] == s[0]);
        assert('0' <= s[0] <= '9');
    }
    if decimal::has_nonzero_digit(t) {
        let i = choose|i: int| 0 <= i < t.len() && '1' <= #[trigger] t[i] <= '9';
        assert(i > 0);
        assert(s[i - 1] == t[i]);
    }
    if decimal::has_nonzero_digit(s) {
        let i = choose|i: int| 0 <= i < s.len() && '1' <= #[trigger] s[i] <= '9';
        assert(t[i + 1] == s[i]);
    }
    if s.len() > 0 {
        assert('0' <= s[0] <= '9');
    }
}

} // verus!
