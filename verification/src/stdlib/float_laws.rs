//! Floats are ordered by their amounts, and their texts come to them.

use super::order::{float_le, key_le, magnitude_le, text_le, whole_len};
use super::primitives::{
    all_digits_of, exponent_of, float_str, is_nonzero, point_from, scientific, unsigned,
    without_last_zeros, zeros_from,
};
use crate::eval::value::ValueV;
use crate::numerals::{all_digits, digit_value, digits_value, is_digit};
use crate::text::int_text;
use vstd::prelude::*;
use vstd::string::*;

verus! {

/// A power of ten.
pub open spec fn ten(n: nat) -> nat
    decreases n,
{
    if n == 0 {
        1
    } else {
        10 * ten((n - 1) as nat)
    }
}

proof fn lemma_front(s: Seq<char>)
    requires
        s.len() > 0,
    ensures
        digits_value(s) == digit_value(s[0]) * ten((s.len() - 1) as nat) + digits_value(
            s.drop_first(),
        ),
    decreases s.len(),
{
    if s.len() == 1 {
        reveal_with_fuel(digits_value, 2);
        assert(s.drop_first() =~= Seq::empty());
        assert(s.drop_last() =~= Seq::empty());
        let d = digit_value(s[0]);
        let t = ten(0);
        assert(d * t == d) by (nonlinear_arith)
            requires
                t == 1,
        ;
        assert(s.last() == s[0]);
    } else {
        let less = s.drop_last();
        lemma_front(less);
        let d = digit_value(s[0]);
        let t = ten((s.len() - 2) as nat);
        assert(ten((s.len() - 1) as nat) == 10 * t);
        assert(s.drop_first().drop_last() =~= less.drop_first());
        assert(s.drop_first().last() == s.last());
        assert(less[0] == s[0]);
        let u = 10 * t;
        assert(10 * (d * t) == d * u) by (nonlinear_arith)
            requires
                u == 10 * t,
        ;
        assert(digits_value(less) == d * t + digits_value(less.drop_first()));
        assert(digits_value(s) == 10 * digits_value(less) + digit_value(s.last()));
        assert(digits_value(s.drop_first()) == 10 * digits_value(less.drop_first()) + digit_value(
            s.last(),
        ));
    }
}

proof fn lemma_bound(s: Seq<char>)
    requires
        all_digits(s),
    ensures
        digits_value(s) < ten(s.len()),
    decreases s.len(),
{
    if s.len() > 0 {
        let rest = s.drop_first();
        lemma_front(s);
        assert forall|i: int| 0 <= i < rest.len() implies is_digit(#[trigger] rest[i]) by {
            assert(is_digit(s[i + 1]));
        }
        lemma_bound(rest);
        assert(is_digit(s[0]));
        let d = digit_value(s[0]);
        let t = ten((s.len() - 1) as nat);
        assert(d <= 9);
        assert(d * t <= 9 * t) by (nonlinear_arith)
            requires
                d <= 9,
        ;
    }
}

/// Of two numbers with as many digits the one with the smaller first digit is the smaller one.
proof fn lemma_heads(a: Seq<char>, b: Seq<char>)
    requires
        a.len() == b.len(),
        a.len() > 0,
        all_digits(a),
        all_digits(b),
    ensures
        a[0] < b[0] ==> digits_value(a) < digits_value(b),
        a[0] == b[0] ==> (digits_value(a) <= digits_value(b)) == (digits_value(a.drop_first())
            <= digits_value(b.drop_first())),
        all_digits(a.drop_first()),
        all_digits(b.drop_first()),
{
    lemma_front(a);
    lemma_front(b);
    assert forall|i: int| 0 <= i < a.len() - 1 implies is_digit(#[trigger] a.drop_first()[i]) by {
        assert(is_digit(a[i + 1]));
    }
    assert forall|i: int| 0 <= i < b.len() - 1 implies is_digit(#[trigger] b.drop_first()[i]) by {
        assert(is_digit(b[i + 1]));
    }
    lemma_bound(a.drop_first());
    assert(is_digit(a[0]) && is_digit(b[0]));
    if a[0] < b[0] {
        let d = digit_value(a[0]);
        let e = digit_value(b[0]);
        let t = ten((a.len() - 1) as nat);
        assert(d + 1 <= e);
        assert(d * t + t <= e * t) by (nonlinear_arith)
            requires
                d + 1 <= e,
        ;
    }
}

spec fn zeros(n: int) -> Seq<char> {
    Seq::new(n as nat, |i: int| '0')
}

proof fn lemma_zeros(n: int)
    requires
        0 <= n,
    ensures
        digits_value(zeros(n)) == 0,
    decreases n,
{
    if n > 0 {
        lemma_zeros(n - 1);
        assert(zeros(n).drop_last() =~= zeros(n - 1));
    }
}

proof fn lemma_more_zeros(n: int, s: Seq<char>)
    requires
        0 <= n,
    ensures
        digits_value(zeros(n) + s) == digits_value(s),
    decreases s.len(),
{
    if s.len() == 0 {
        assert(zeros(n) + s =~= zeros(n));
        lemma_zeros(n);
    } else {
        assert((zeros(n) + s).drop_last() =~= zeros(n) + s.drop_last());
        assert((zeros(n) + s).last() == s.last());
        lemma_more_zeros(n, s.drop_last());
    }
}

/// A number with a digit that is not zero is more than zero.
proof fn lemma_positive(s: Seq<char>, i: int)
    requires
        all_digits(s),
        0 <= i < s.len(),
        s[i] != '0',
    ensures
        digits_value(s) > 0,
    decreases s.len(),
{
    if i == s.len() - 1 {
        assert(is_digit(s[i]));
    } else {
        let less = s.drop_last();
        assert forall|j: int| 0 <= j < less.len() implies is_digit(#[trigger] less[j]) by {
            assert(is_digit(s[j]));
        }
        lemma_positive(less, i);
    }
}

/// The spelling of a number without a sign: its whole part, and its fraction where it has one.
pub open spec fn spelled(w: Seq<char>, f: Seq<char>) -> Seq<char> {
    if f.len() == 0 {
        w
    } else {
        w + (seq!['.'] + f)
    }
}

/// The whole part and the fraction are digits, without a zero more than they need.
pub open spec fn shortest(w: Seq<char>, f: Seq<char>) -> bool {
    &&& all_digits(w)
    &&& all_digits(f)
    &&& w.len() > 0
    &&& w.len() > 1 ==> w[0] != '0'
    &&& f.len() > 0 ==> f.last() != '0'
}

/// A number times ten to the `k`, where its fraction has no more than `k` digits.
pub open spec fn amount(w: Seq<char>, f: Seq<char>, k: int) -> nat {
    digits_value(w + (f + Seq::new((k - f.len()) as nat, |i: int| '0')))
}

spec fn padded(f: Seq<char>, k: int) -> Seq<char> {
    f + zeros(k - f.len())
}

proof fn lemma_padded(f: Seq<char>, k: int)
    requires
        all_digits(f),
        f.len() <= k,
    ensures
        all_digits(padded(f, k)),
        padded(f, k).len() == k,
        f.len() > 0 ==> padded(f, k).drop_first() == padded(f.drop_first(), k - 1),
        f.len() > 0 ==> padded(f, k)[0] == f[0],
        f.len() == 0 ==> padded(f, k) == zeros(k),
{
    let p = padded(f, k);
    assert forall|i: int| 0 <= i < p.len() implies is_digit(#[trigger] p[i]) by {
        if i < f.len() {
            assert(is_digit(f[i]));
        }
    }
    if f.len() > 0 {
        assert(p.drop_first() =~= padded(f.drop_first(), k - 1));
    } else {
        assert(p =~= zeros(k));
    }
}

proof fn lemma_fractions(f: Seq<char>, g: Seq<char>, k: int)
    requires
        all_digits(f),
        all_digits(g),
        f.len() <= k,
        g.len() <= k,
        f.len() > 0 ==> f.last() != '0',
        g.len() > 0 ==> g.last() != '0',
    ensures
        text_le(f, g) == (digits_value(padded(f, k)) <= digits_value(padded(g, k))),
    decreases f.len(),
{
    lemma_padded(f, k);
    lemma_padded(g, k);
    if f.len() == 0 {
        lemma_zeros(k);
    } else if g.len() == 0 {
        lemma_zeros(k);
        lemma_positive(padded(f, k), f.len() - 1);
    } else {
        let a = padded(f, k);
        let b = padded(g, k);
        lemma_heads(a, b);
        lemma_heads(b, a);
        if f[0] == g[0] {
            let f1 = f.drop_first();
            let g1 = g.drop_first();
            assert forall|i: int| 0 <= i < f1.len() implies is_digit(#[trigger] f1[i]) by {
                assert(is_digit(f[i + 1]));
            }
            assert forall|i: int| 0 <= i < g1.len() implies is_digit(#[trigger] g1[i]) by {
                assert(is_digit(g[i + 1]));
            }
            lemma_fractions(f1, g1, k - 1);
        }
    }
}

proof fn lemma_whole(w: Seq<char>, f: Seq<char>)
    requires
        all_digits(w),
    ensures
        whole_len(spelled(w, f)) == w.len(),
    decreases w.len(),
{
    let s = spelled(w, f);
    if w.len() > 0 {
        assert(is_digit(w[0]));
        assert(s[0] == w[0]);
        let rest = w.drop_first();
        assert(s.drop_first() =~= spelled(rest, f));
        assert forall|i: int| 0 <= i < rest.len() implies is_digit(#[trigger] rest[i]) by {
            assert(is_digit(w[i + 1]));
        }
        lemma_whole(rest, f);
    } else if f.len() > 0 {
        assert(s[0] == '.');
    }
}

proof fn lemma_same_length(w: Seq<char>, f: Seq<char>, v: Seq<char>, g: Seq<char>, k: int)
    requires
        all_digits(w),
        all_digits(v),
        w.len() == v.len(),
        all_digits(f),
        all_digits(g),
        f.len() <= k,
        g.len() <= k,
        f.len() > 0 ==> f.last() != '0',
        g.len() > 0 ==> g.last() != '0',
    ensures
        text_le(spelled(w, f), spelled(v, g)) == (digits_value(w + padded(f, k)) <= digits_value(
            v + padded(g, k),
        )),
    decreases w.len(),
{
    let s = spelled(w, f);
    let t = spelled(v, g);
    let a = w + padded(f, k);
    let b = v + padded(g, k);
    lemma_padded(f, k);
    lemma_padded(g, k);
    if w.len() == 0 {
        assert(a =~= padded(f, k));
        assert(b =~= padded(g, k));
        lemma_fractions(f, g, k);
        if f.len() > 0 {
            assert(s[0] == '.');
            assert(s.drop_first() =~= f);
        }
        if g.len() > 0 {
            assert(t[0] == '.');
            assert(t.drop_first() =~= g);
        }
    } else {
        assert(s[0] == w[0]);
        assert(t[0] == v[0]);
        assert forall|i: int| 0 <= i < a.len() implies is_digit(#[trigger] a[i]) by {
            if i < w.len() {
                assert(is_digit(w[i]));
            } else {
                assert(is_digit(padded(f, k)[i - w.len()]));
            }
        }
        assert forall|i: int| 0 <= i < b.len() implies is_digit(#[trigger] b[i]) by {
            if i < v.len() {
                assert(is_digit(v[i]));
            } else {
                assert(is_digit(padded(g, k)[i - v.len()]));
            }
        }
        lemma_heads(a, b);
        lemma_heads(b, a);
        let w1 = w.drop_first();
        let v1 = v.drop_first();
        assert(s.drop_first() =~= spelled(w1, f));
        assert(t.drop_first() =~= spelled(v1, g));
        assert(a.drop_first() =~= w1 + padded(f, k));
        assert(b.drop_first() =~= v1 + padded(g, k));
        assert forall|i: int| 0 <= i < w1.len() implies is_digit(#[trigger] w1[i]) by {
            assert(is_digit(w[i + 1]));
        }
        assert forall|i: int| 0 <= i < v1.len() implies is_digit(#[trigger] v1[i]) by {
            assert(is_digit(v[i + 1]));
        }
        lemma_same_length(w1, f, v1, g, k);
    }
}

/// A number with a longer whole part is more.
proof fn lemma_longer(w: Seq<char>, f: Seq<char>, v: Seq<char>, g: Seq<char>, k: int)
    requires
        shortest(w, f),
        shortest(v, g),
        f.len() <= k,
        g.len() <= k,
        w.len() < v.len(),
    ensures
        amount(w, f, k) < amount(v, g, k),
{
    let a = w + padded(f, k);
    let b = v + padded(g, k);
    let n = v.len() - w.len();
    lemma_padded(f, k);
    lemma_padded(g, k);
    let c = zeros(n) + a;
    lemma_more_zeros(n, a);
    assert forall|i: int| 0 <= i < c.len() implies is_digit(#[trigger] c[i]) by {
        if i >= n {
            if i - n < w.len() {
                assert(is_digit(w[i - n]));
            } else {
                assert(is_digit(padded(f, k)[i - n - w.len()]));
            }
        }
    }
    assert forall|i: int| 0 <= i < b.len() implies is_digit(#[trigger] b[i]) by {
        if i < v.len() {
            assert(is_digit(v[i]));
        } else {
            assert(is_digit(padded(g, k)[i - v.len()]));
        }
    }
    assert(is_digit(v[0]));
    assert(c[0] == '0');
    assert(b[0] == v[0]);
    lemma_heads(c, b);
    lemma_amount(w, f, k);
    lemma_amount(v, g, k);
}

proof fn lemma_amount(w: Seq<char>, f: Seq<char>, k: int)
    ensures
        amount(w, f, k) == digits_value(w + padded(f, k)),
{
    assert(zeros(k - f.len()) =~= Seq::new((k - f.len()) as nat, |i: int| '0'));
}

proof fn lemma_magnitudes(w: Seq<char>, f: Seq<char>, v: Seq<char>, g: Seq<char>, k: int)
    requires
        shortest(w, f),
        shortest(v, g),
        f.len() <= k,
        g.len() <= k,
    ensures
        magnitude_le(spelled(w, f), spelled(v, g)) == (amount(w, f, k) <= amount(v, g, k)),
{
    reveal_strlit("inf");
    lemma_whole(w, f);
    lemma_whole(v, g);
    lemma_amount(w, f, k);
    lemma_amount(v, g, k);
    assert(is_digit(w[0]) && is_digit(v[0]));
    assert(spelled(w, f)[0] == w[0]);
    assert(spelled(v, g)[0] == v[0]);
    assert("inf"@[0] == 'i');
    if w.len() < v.len() {
        lemma_longer(w, f, v, g, k);
    } else if v.len() < w.len() {
        lemma_longer(v, g, w, f, k);
    } else {
        lemma_same_length(w, f, v, g, k);
    }
}

/// A number is nothing only where it is spelled `0`.
proof fn lemma_nothing(w: Seq<char>, f: Seq<char>, k: int)
    requires
        shortest(w, f),
        f.len() <= k,
    ensures
        (amount(w, f, k) == 0) == (spelled(w, f) == seq!['0']),
{
    let a = w + padded(f, k);
    lemma_amount(w, f, k);
    lemma_padded(f, k);
    assert forall|i: int| 0 <= i < a.len() implies is_digit(#[trigger] a[i]) by {
        if i < w.len() {
            assert(is_digit(w[i]));
        } else {
            assert(is_digit(padded(f, k)[i - w.len()]));
        }
    }
    if f.len() > 0 {
        assert(a[w.len() + f.len() - 1] == f.last());
        lemma_positive(a, w.len() + f.len() - 1);
        assert(spelled(w, f).len() > 1);
    } else if w[0] != '0' {
        assert(a[0] == w[0]);
        lemma_positive(a, 0);
        assert(spelled(w, f)[0] != '0');
    } else {
        assert(w =~= seq!['0']);
        assert(a =~= zeros(k + 1));
        lemma_zeros(k + 1);
    }
}

/// A float: a number with or without a minus.
pub open spec fn float_of(minus: bool, w: Seq<char>, f: Seq<char>) -> Seq<char> {
    if minus {
        seq!['-'] + spelled(w, f)
    } else {
        spelled(w, f)
    }
}

/// What a float comes to, times ten to the `k`.
pub open spec fn signed_amount(minus: bool, w: Seq<char>, f: Seq<char>, k: int) -> int {
    if minus {
        -(amount(w, f, k) as int)
    } else {
        amount(w, f, k) as int
    }
}

/// Floats are ordered by their amounts, both sides of zero, and zero with a minus is zero.
pub proof fn law_floats_are_ordered_by_amount(
    minus: bool,
    w: Seq<char>,
    f: Seq<char>,
    other_minus: bool,
    v: Seq<char>,
    g: Seq<char>,
    k: int,
)
    requires
        shortest(w, f),
        shortest(v, g),
        f.len() <= k,
        g.len() <= k,
    ensures
        key_le(
            ValueV::Float(float_of(minus, w, f)),
            ValueV::Float(float_of(other_minus, v, g)),
        ) == (signed_amount(minus, w, f, k) <= signed_amount(other_minus, v, g, k)),
{
    let x = float_of(minus, w, f);
    let y = float_of(other_minus, v, g);
    let s = spelled(w, f);
    let t = spelled(v, g);
    reveal_strlit("NaN");
    reveal_strlit("-0");
    lemma_magnitudes(w, f, v, g, k);
    lemma_magnitudes(v, g, w, f, k);
    lemma_nothing(w, f, k);
    lemma_nothing(v, g, k);
    assert(is_digit(w[0]) && is_digit(v[0]));
    assert(s[0] == w[0] && t[0] == v[0]);
    assert("NaN"@[0] == 'N');
    assert(x[0] != 'N' && y[0] != 'N');
    assert("-0"@ =~= seq!['-'] + seq!['0']);
    if minus {
        assert(x.drop_first() =~= s);
        assert((x == "-0"@) == (s == seq!['0'])) by {
            if x == "-0"@ {
                assert(s =~= ("-0"@).drop_first());
                assert(("-0"@).drop_first() =~= seq!['0']);
            }
        }
    }
    if other_minus {
        assert(y.drop_first() =~= t);
        assert((y == "-0"@) == (t == seq!['0'])) by {
            if y == "-0"@ {
                assert(t =~= ("-0"@).drop_first());
                assert(("-0"@).drop_first() =~= seq!['0']);
            }
        }
    }
    assert(key_le(ValueV::Float(x), ValueV::Float(y)) == float_le(x, y));
}

proof fn lemma_ten(a: nat, b: nat)
    ensures
        ten(a + b) == ten(a) * ten(b),
        ten(a) > 0,
        ten(a) <= ten(a + b),
    decreases a + b,
{
    let t = ten(a);
    if b == 0 {
        assert(t * 1 == t) by (nonlinear_arith);
        if a > 0 {
            lemma_ten((a - 1) as nat, 0);
        }
    } else {
        lemma_ten(a, (b - 1) as nat);
        let u = ten((b - 1) as nat);
        assert(ten(a + b) == 10 * ten((a + b - 1) as nat));
        assert(10 * (t * u) == t * (10 * u)) by (nonlinear_arith);
    }
}

proof fn lemma_times(s: Seq<char>, n: int)
    requires
        0 <= n,
    ensures
        digits_value(s + zeros(n)) == digits_value(s) * ten(n as nat),
    decreases n,
{
    let v = digits_value(s);
    if n == 0 {
        assert(s + zeros(n) =~= s);
        assert(v * 1 == v) by (nonlinear_arith);
    } else {
        lemma_times(s, n - 1);
        assert((s + zeros(n)).drop_last() =~= s + zeros(n - 1));
        assert((s + zeros(n)).last() == '0');
        let t = ten((n - 1) as nat);
        assert(10 * (v * t) == v * (10 * t)) by (nonlinear_arith);
    }
}

proof fn lemma_point(w: Seq<char>, f: Seq<char>, i: int)
    requires
        all_digits(w),
        0 <= i <= w.len(),
    ensures
        point_from(spelled(w, f), i) == w.len(),
    decreases w.len() - i,
{
    let s = spelled(w, f);
    if i < w.len() {
        assert(is_digit(w[i]));
        assert(s[i] == w[i]);
        lemma_point(w, f, i + 1);
    } else if f.len() > 0 {
        assert(s[i] == '.');
    }
}

proof fn lemma_lead(s: Seq<char>, i: int)
    requires
        0 <= i <= s.len(),
    ensures
        i <= zeros_from(s, i) <= s.len(),
        forall|j: int| i <= j < zeros_from(s, i) ==> s[j] == '0',
        zeros_from(s, i) < s.len() ==> s[zeros_from(s, i)] != '0',
    decreases s.len() - i,
{
    if i < s.len() && s[i] == '0' {
        lemma_lead(s, i + 1);
    }
}

proof fn lemma_trail(s: Seq<char>)
    ensures
        without_last_zeros(s).len() <= s.len(),
        s == without_last_zeros(s) + zeros(s.len() - without_last_zeros(s).len()),
        without_last_zeros(s).len() > 0 ==> without_last_zeros(s).last() != '0',
    decreases s.len(),
{
    let m = without_last_zeros(s);
    if s.len() > 0 && s.last() == '0' {
        let less = s.drop_last();
        lemma_trail(less);
        assert(s =~= less.push('0'));
        assert(s =~= m + zeros(s.len() - m.len()));
    } else {
        assert(s =~= m + zeros(0));
    }
}

/// Digits with a point behind the first of them, where there are more.
pub open spec fn mantissa(m: Seq<char>) -> Seq<char> {
    if m.len() > 1 {
        m.take(1) + "."@ + m.skip(1)
    } else {
        m
    }
}

/// The digits `m`, with a point behind the first of them, times ten to the `e`, are the digits
/// `ds` with a point before the last `n` of them.
pub open spec fn same_amount(m: Seq<char>, e: int, ds: Seq<char>, n: int) -> bool {
    exists|trail: nat|
        #![trigger ten(trail)]
        digits_value(m) * ten(trail) == digits_value(ds) && e - (m.len() - 1) == trail - n
}

#[verifier::spinoff_prover]
proof fn lemma_digits(w: Seq<char>, f: Seq<char>)
    requires
        shortest(w, f),
    ensures
        ({
            let s = spelled(w, f);
            let ds = w + f;
            let lead = zeros_from(ds, 0);
            let n = ds.len() - lead;
            &&& point_from(s, 0) == w.len()
            &&& all_digits_of(s) == ds
            &&& 0 <= lead <= ds.len()
            &&& (lead < ds.len()) == (digits_value(ds) > 0)
            &&& digits_value(ds) == digits_value(ds.skip(lead))
            &&& lead < ds.len() ==> ten((n - 1) as nat) <= digits_value(ds) < ten(n as nat)
            &&& lead < ds.len() ==> ds[lead] != '0'
            &&& all_digits(ds)
        }),
{
    let s = spelled(w, f);
    let ds = w + f;
    lemma_point(w, f, 0);
    if f.len() > 0 {
        assert(s.take(w.len() as int) + s.skip(w.len() as int + 1) =~= ds);
    } else {
        assert(ds =~= s);
    }
    assert forall|i: int| 0 <= i < ds.len() implies is_digit(#[trigger] ds[i]) by {
        if i < w.len() {
            assert(is_digit(w[i]));
        } else {
            assert(is_digit(f[i - w.len()]));
        }
    }
    lemma_lead(ds, 0);
    let lead = zeros_from(ds, 0);
    let rest = ds.skip(lead);
    assert(ds =~= zeros(lead) + rest);
    lemma_more_zeros(lead, rest);
    if lead < ds.len() {
        assert forall|i: int| 0 <= i < rest.len() implies is_digit(#[trigger] rest[i]) by {
            assert(is_digit(ds[lead + i]));
        }
        lemma_bound(rest);
        lemma_front(rest);
        assert(rest[0] == ds[lead]);
        assert(is_digit(rest[0]));
        let d = digit_value(rest[0]);
        let t = ten((rest.len() - 1) as nat);
        assert(d >= 1);
        assert(d * t >= t) by (nonlinear_arith)
            requires
                d >= 1,
        ;
        lemma_positive(ds, lead);
    } else {
        assert(rest =~= Seq::empty());
    }
}

/// A float is large where it is ten to the sixteenth or more, and small where it is more than
/// nothing and less than ten to the minus fourth.
pub open spec fn large_or_small(w: Seq<char>, f: Seq<char>) -> bool {
    let n = digits_value(w + f);
    n > 0 && (n >= ten(16 + f.len()) || n * ten(4) < ten(f.len()))
}

#[verifier::spinoff_prover]
proof fn lemma_thresholds(w: Seq<char>, f: Seq<char>)
    requires
        shortest(w, f),
        digits_value(w + f) > 0,
    ensures
        large_or_small(w, f) == (exponent_of(spelled(w, f)) >= 16 || exponent_of(spelled(w, f))
            < -4),
        is_nonzero(spelled(w, f)),
{
    lemma_digits(w, f);
    let ds = w + f;
    let lead = zeros_from(ds, 0);
    let n = (ds.len() - lead) as nat;
    let v = digits_value(ds);
    let a = f.len();
    if n - 1 >= 16 + a {
        lemma_ten(16 + a, (n - 1 - 16 - a) as nat);
    } else {
        lemma_ten(n, (16 + a - n) as nat);
    }
    lemma_ten(n, 4);
    lemma_ten((n - 1) as nat, 4);
    let t = ten(4);
    let hi = ten(n);
    let lo = ten((n - 1) as nat);
    lemma_ten(4, 0);
    assert(v * t < hi * t) by (nonlinear_arith)
        requires
            v < hi,
            t > 0,
    ;
    assert(v * t >= lo * t) by (nonlinear_arith)
        requires
            v >= lo,
    ;
    if n + 4 <= a {
        lemma_ten(n + 4, (a - n - 4) as nat);
    } else {
        lemma_ten(a, (n + 3 - a) as nat);
    }
}

/// A float that is neither large nor small is written as it is, with a fraction in any case. One
/// that is has one digit before the point and a power of ten, and comes to the same amount.
#[verifier::spinoff_prover]
pub proof fn law_float_texts_come_to_the_same(minus: bool, w: Seq<char>, f: Seq<char>)
    requires
        shortest(w, f),
    ensures
        !large_or_small(w, f) ==> float_str(float_of(minus, w, f)) == (if f.len() > 0 {
            float_of(minus, w, f)
        } else {
            float_of(minus, w, f) + ".0"@
        }),
        large_or_small(w, f) ==> exists|m: Seq<char>, e: int|
            float_str(float_of(minus, w, f)) == (if minus {
                "-"@
            } else {
                ""@
            }) + (#[trigger] mantissa(m) + "e"@ + #[trigger] int_text(e)) && m.len() > 0 && m[0]
                != '0' && m.last() != '0' && same_amount(m, e, w + f, f.len() as int),
{
    let x = float_of(minus, w, f);
    let s = spelled(w, f);
    let ds = w + f;
    reveal_strlit("NaN");
    reveal_strlit("inf");
    reveal_strlit("-inf");
    lemma_digits(w, f);
    assert(is_digit(w[0]));
    assert(s[0] == w[0]);
    assert("NaN"@[0] == 'N' && "inf"@[0] == 'i' && "-inf"@[0] == '-' && "-inf"@[1] == 'i');
    assert("-inf"@.len() == 4);
    if minus {
        assert(x.skip(1) =~= s);
        assert(x[1] == s[0]);
    }
    assert(unsigned(x) == s);
    assert(x != "NaN"@ && x != "inf"@ && x != "-inf"@);
    assert(x.contains('.') == (f.len() > 0)) by {
        let at = if minus {
            1int
        } else {
            0int
        };
        if f.len() > 0 {
            assert(x[at + w.len()] == '.');
        } else if x.contains('.') {
            let j = choose|j: int| 0 <= j < x.len() && x[j] == '.';
            assert(j >= at);
            assert(x[j] == w[j - at]);
            assert(is_digit(w[j - at]));
        }
    }
    if digits_value(ds) > 0 {
        lemma_thresholds(w, f);
        if large_or_small(w, f) {
            let lead = zeros_from(ds, 0);
            let rest = ds.skip(lead);
            let m = without_last_zeros(rest);
            lemma_trail(rest);
            let trail = (rest.len() - m.len()) as nat;
            lemma_times(m, trail as int);
            assert(rest[0] == ds[lead]);
            if m.len() == 0 {
                assert(rest[0] == zeros(trail as int)[0]);
            }
            assert(m[0] == rest[0]);
            let e = w.len() - 1 - lead;
            assert(digits_value(m) * ten(trail) == digits_value(ds));
            assert(same_amount(m, e, ds, f.len() as int));
            assert(scientific(s) == mantissa(m) + "e"@ + int_text(e));
        }
    } else {
        assert(!is_nonzero(s));
    }
}

} // verus!
