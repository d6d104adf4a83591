//! The `rand` namespace: a small generator, seeded from whatever the caller has at hand.

use super::{none_v, none_value, some_v, some_value};
use crate::eval::value::{bool_value, int_value, values_view, Value, ValueV};
use vstd::prelude::*;

verus! {

/// `x` with its bits turned left by `k` places.
pub open spec fn turned(x: u64, k: u64) -> u64 {
    (x << k) | (x >> (64 - k) as u64)
}

fn turn(x: u64, k: u64) -> (r: u64)
    requires
        0 < k < 64,
    ensures
        r == turned(x, k),
{
    (x << k) | (x >> (64 - k))
}

/// A seed from a time, a process and an address.
pub open spec fn mixed(secs: u64, nanos: u64, pid: u64, address: u64) -> u64 {
    secs.wrapping_mul(1_000_000_007).wrapping_add(nanos).wrapping_add(turned(pid, 32)).wrapping_add(
        turned(address, 17),
    )
}

/// A seed from a time, a process and an address.
pub fn seed_of(secs: u64, nanos: u64, pid: u64, address: u64) -> (r: u64)
    ensures
        r == mixed(secs, nanos, pid, address),
{
    secs.wrapping_mul(1_000_000_007).wrapping_add(nanos).wrapping_add(turn(pid, 32)).wrapping_add(
        turn(address, 17),
    )
}

/// The state that follows a state of the seed expander.
pub open spec fn expander_next(s: u64) -> u64 {
    s.wrapping_add(0x9E37_79B9_7F4A_7C15)
}

/// What the seed expander gives in a state.
pub open spec fn expander_out(s: u64) -> u64 {
    let a = (s ^ (s >> 30)).wrapping_mul(0xBF58_476D_1CE4_E5B9);
    let b = (a ^ (a >> 27)).wrapping_mul(0x94D0_49BB_1331_11EB);
    b ^ (b >> 31)
}

fn expand(s: u64) -> (r: u64)
    ensures
        r == expander_out(s),
{
    let a: u64 = (s ^ (s >> 30)).wrapping_mul(0xBF58_476D_1CE4_E5B9);
    let b: u64 = (a ^ (a >> 27)).wrapping_mul(0x94D0_49BB_1331_11EB);
    b ^ (b >> 31)
}

/// A generator of numbers: four words that change with every draw.
#[derive(Clone, Copy, Debug, PartialEq, Eq, Structural)]
pub struct Prng {
    pub a: u64,
    pub b: u64,
    pub c: u64,
    pub d: u64,
}

/// The generator that a seed starts.
pub open spec fn started(seed: u64) -> Prng {
    let s1 = expander_next(seed);
    let s2 = expander_next(s1);
    let s3 = expander_next(s2);
    let s4 = expander_next(s3);
    Prng {
        a: expander_out(s1),
        b: expander_out(s2),
        c: expander_out(s3),
        d: expander_out(s4),
    }
}

/// The number that a generator draws next.
pub open spec fn drawn(p: Prng) -> u64 {
    turned(p.b.wrapping_mul(5), 7).wrapping_mul(9)
}

/// The generator after a draw.
pub open spec fn after_draw(p: Prng) -> Prng {
    let c = p.c ^ p.a;
    let d = p.d ^ p.b;
    Prng { a: p.a ^ d, b: p.b ^ c, c: c ^ (p.b << 17u64), d: turned(d, 45) }
}

impl Prng {
    /// The generator that a seed starts.
    pub fn from_seed(seed: u64) -> (r: Prng)
        ensures
            r == started(seed),
    {
        let s1: u64 = seed.wrapping_add(0x9E37_79B9_7F4A_7C15);
        let s2: u64 = s1.wrapping_add(0x9E37_79B9_7F4A_7C15);
        let s3: u64 = s2.wrapping_add(0x9E37_79B9_7F4A_7C15);
        let s4: u64 = s3.wrapping_add(0x9E37_79B9_7F4A_7C15);
        Prng { a: expand(s1), b: expand(s2), c: expand(s3), d: expand(s4) }
    }

    /// Draws a number.
    pub fn next_u64(&mut self) -> (r: u64)
        ensures
            r == drawn(*old(self)),
            *final(self) == after_draw(*old(self)),
    {
        let r: u64 = turn(self.b.wrapping_mul(5), 7).wrapping_mul(9);
        let c: u64 = self.c ^ self.a;
        let d: u64 = self.d ^ self.b;
        let shifted: u64 = self.b << 17u64;
        *self = Prng { a: self.a ^ d, b: self.b ^ c, c: c ^ shifted, d: turn(d, 45) };
        r
    }
}

/// A number below `bound` and the generator after it; where there is none, zero without a draw.
pub open spec fn below(p: Prng, bound: u64) -> (u64, Prng) {
    if bound == 0 {
        (0, p)
    } else {
        (drawn(p) % bound, after_draw(p))
    }
}

fn uniform_below(p: &mut Prng, bound: u64) -> (r: u64)
    ensures
        (r, *final(p)) == below(*old(p), bound),
{
    if bound == 0 {
        0
    } else {
        p.next_u64() % bound
    }
}

/// An integer from `lo` up to, not including, `hi`; `lo` where there is none.
pub open spec fn int_drawn(p: Prng, lo: i64, hi: i64) -> (i64, Prng) {
    if hi <= lo {
        (lo, p)
    } else {
        let (offset, q) = below(p, (hi - lo) as u64);
        ((lo + offset) as i64, q)
    }
}

/// `int`: an integer from `lo` up to, not including, `hi`; `lo` where there is none.
pub fn int_(p: &mut Prng, lo: i64, hi: i64) -> (r: Value)
    ensures
        r@ == ValueV::Int(int_drawn(*old(p), lo, hi).0),
        *final(p) == int_drawn(*old(p), lo, hi).1,
{
    if hi <= lo {
        return int_value(lo);
    }
    let width: u64 = (hi as i128 - lo as i128) as u64;
    let offset: u64 = uniform_below(p, width);
    let n: i128 = lo as i128 + offset as i128;
    int_value(n as i64)
}

/// `float`: the numerator of a fraction over 2^53.
pub fn float_numerator(p: &mut Prng) -> (r: u64)
    ensures
        r == drawn(*old(p)) >> 11u64,
        r < 0x20_0000_0000_0000,
        *final(p) == after_draw(*old(p)),
{
    let n: u64 = p.next_u64();
    assert(n >> 11u64 < 0x20_0000_0000_0000) by (bit_vector);
    n >> 11u64
}

/// `bool`: true or false.
pub fn bool_(p: &mut Prng) -> (r: Value)
    ensures
        r@ == ValueV::Bool(drawn(*old(p)) & 1 == 1),
        *final(p) == after_draw(*old(p)),
{
    let n: u64 = p.next_u64();
    bool_value(n & 1 == 1)
}

/// `choice`: an item of a list, if it has any.
pub fn choice(p: &mut Prng, xs: &[Value]) -> (r: Value)
    ensures
        r@ == (if xs@.len() == 0 {
            none_v()
        } else {
            some_v(values_view(xs@)[below(*old(p), xs@.len() as u64).0 as int])
        }),
        *final(p) == below(*old(p), xs@.len() as u64).1,
{
    let n: usize = xs.len();
    if n == 0 {
        return none_value();
    }
    let at: u64 = uniform_below(p, n as u64);
    some_value(xs[at as usize].copy())
}

/// A list with two of its items exchanged.
pub open spec fn exchanged(xs: Seq<ValueV>, i: int, j: int) -> Seq<ValueV> {
    xs.update(i, xs[j]).update(j, xs[i])
}

/// The list once the items up to the `i`-th have been exchanged with earlier ones, from the last
/// on down, and the generator after that.
pub open spec fn shuffled_from(p: Prng, xs: Seq<ValueV>, i: int) -> (Seq<ValueV>, Prng)
    decreases i,
{
    if i < 1 {
        (xs, p)
    } else {
        let (j, q) = below(p, (i + 1) as u64);
        shuffled_from(q, exchanged(xs, i, j as int), i - 1)
    }
}

fn exchange(xs: &mut Vec<Value>, i: usize, j: usize)
    requires
        i < old(xs)@.len(),
        j <= i,
    ensures
        values_view(final(xs)@) == exchanged(values_view(old(xs)@), i as int, j as int),
{
    let ghost before = xs@;
    if i != j {
        let a = xs.remove(i);
        let b = xs.remove(j);
        xs.insert(j, a);
        xs.insert(i, b);
        assert(xs@ =~= before.update(i as int, before[j as int]).update(
            j as int,
            before[i as int],
        ));
    }
    assert(values_view(xs@) =~= exchanged(values_view(before), i as int, j as int));
}

/// `shuffle`: puts the items of a list in another order.
pub fn shuffle(p: &mut Prng, xs: &mut Vec<Value>)
    ensures
        (values_view(final(xs)@), *final(p)) == shuffled_from(
            *old(p),
            values_view(old(xs)@),
            old(xs)@.len() - 1,
        ),
{
    let n: usize = xs.len();
    if n < 2 {
        return;
    }
    let ghost whole = shuffled_from(*p, values_view(xs@), n - 1);
    let mut i: usize = n - 1;
    while i >= 1
        invariant
            i < n,
            xs@.len() == n,
            shuffled_from(*p, values_view(xs@), i as int) == whole,
        decreases i,
    {
        let j: u64 = uniform_below(p, i as u64 + 1);
        let ghost before = values_view(xs@);
        exchange(xs, i, j as usize);
        assert(values_view(xs@).len() == n);
        i = i - 1;
    }
}

/// A drawn integer lies in its range.
pub proof fn law_int_lies_in_its_range(p: Prng, lo: i64, hi: i64)
    ensures
        lo < hi ==> lo <= int_drawn(p, lo, hi).0 < hi,
        lo >= hi ==> int_drawn(p, lo, hi) == (lo, p),
{
    if lo < hi {
        let width = (hi - lo) as u64;
        assert(drawn(p) % width < width) by (nonlinear_arith)
            requires
                width > 0,
        ;
    }
}

/// A chosen item is one of the list.
pub proof fn law_choice_is_an_item(p: Prng, n: u64)
    requires
        n > 0,
    ensures
        below(p, n).0 < n,
{
    assert(drawn(p) % n < n) by (nonlinear_arith)
        requires
            n > 0,
    ;
}

proof fn lemma_exchanged(xs: Seq<ValueV>, i: int, j: int)
    requires
        0 <= j <= i < xs.len(),
    ensures
        exchanged(xs, i, j).len() == xs.len(),
        exchanged(xs, i, j).to_multiset() =~= xs.to_multiset(),
{
    broadcast use vstd::seq_lib::group_to_multiset_ensures;
    let ys = exchanged(xs, i, j);
    if i == j {
        assert(ys =~= xs);
    } else {
        let a = xs[i];
        let b = xs[j];
        let rest = xs.remove(i).remove(j);
        assert(xs =~= rest.insert(j, b).insert(i, a));
        assert(ys =~= rest.insert(j, a).insert(i, b));
    }
}

/// A shuffled list has the same items as before.
pub proof fn law_shuffle_keeps_the_items(p: Prng, xs: Seq<ValueV>, i: int)
    requires
        i < xs.len() <= u64::MAX,
    ensures
        shuffled_from(p, xs, i).0.len() == xs.len(),
        shuffled_from(p, xs, i).0.to_multiset() =~= xs.to_multiset(),
    decreases i,
{
    if i >= 1 {
        let (j, q) = below(p, (i + 1) as u64);
        law_choice_is_an_item(p, (i + 1) as u64);
        lemma_exchanged(xs, i, j as int);
        law_shuffle_keeps_the_items(q, exchanged(xs, i, j as int), i - 1);
    }
}

} // verus!
