//! Where the lines of a text come from.

use crate::text::{chomped, lines_from, lines_of};
use vstd::prelude::*;

verus! {

/// A text that a line can follow: it is empty, or ends with a line feed.
pub open spec fn ends_line(s: Seq<char>) -> bool {
    s.len() == 0 || s.last() == '\n'
}

/// A text without line feeds.
pub open spec fn one_line(s: Seq<char>) -> bool {
    forall|i: int| 0 <= i < s.len() ==> #[trigger] s[i] != '\n'
}

proof fn lemma_lines_shift(
    a: Seq<char>,
    r: Seq<char>,
    k: int,
    part: Seq<char>,
    out: Seq<Seq<char>>,
)
    requires
        0 <= k <= r.len(),
    ensures
        lines_from(a + r, a.len() + k, part, out) == out + lines_from(r, k, part, Seq::empty()),
    decreases r.len() - k,
{
    let s = a + r;
    if k < r.len() {
        assert(s[a.len() + k] == r[k]);
        if r[k] == '\n' {
            let line = chomped(part);
            lemma_lines_shift(a, r, k + 1, Seq::empty(), out.push(line));
            lemma_lines_shift(Seq::empty(), r, k + 1, Seq::empty(), seq![line]);
            assert(Seq::<char>::empty() + r =~= r);
            assert(Seq::<Seq<char>>::empty().push(line) =~= seq![line]);
            let rest = lines_from(r, k + 1, Seq::empty(), Seq::empty());
            assert(out.push(line) + rest =~= out + (seq![line] + rest));
        } else {
            lemma_lines_shift(a, r, k + 1, part.push(r[k]), out);
        }
    } else {
        assert(out.push(part) =~= out + Seq::<Seq<char>>::empty().push(part));
        assert(out =~= out + Seq::<Seq<char>>::empty());
    }
}

proof fn lemma_lines_before(
    a: Seq<char>,
    r: Seq<char>,
    i: int,
    part: Seq<char>,
    out: Seq<Seq<char>>,
)
    requires
        0 <= i <= a.len(),
        ends_line(a),
        i == a.len() ==> part.len() == 0,
    ensures
        lines_from(a + r, i, part, out) == lines_from(a, i, part, out) + lines_of(r),
    decreases a.len() - i,
{
    if i < a.len() {
        assert((a + r)[i] == a[i]);
        if a[i] == '\n' {
            lemma_lines_before(a, r, i + 1, Seq::empty(), out.push(chomped(part)));
        } else {
            assert(a[a.len() - 1] == '\n');
            lemma_lines_before(a, r, i + 1, part.push(a[i]), out);
        }
    } else {
        assert(part =~= Seq::empty());
        lemma_lines_shift(a, r, 0, part, out);
    }
}

/// The lines of a text that ends with a line feed come before those of what follows it.
pub proof fn lemma_lines_join(a: Seq<char>, r: Seq<char>)
    requires
        ends_line(a),
    ensures
        lines_of(a + r) == lines_of(a) + lines_of(r),
{
    lemma_lines_before(a, r, 0, Seq::empty(), Seq::empty());
}

proof fn lemma_line_part(m: Seq<char>, z: Seq<char>, i: int)
    requires
        0 <= i <= m.len(),
        one_line(m),
    ensures
        lines_from(m + z, i, m.take(i), Seq::empty()) == lines_from(
            m + z,
            m.len() as int,
            m,
            Seq::empty(),
        ),
    decreases m.len() - i,
{
    if i < m.len() {
        assert((m + z)[i] == m[i]);
        assert(m.take(i).push(m[i]) =~= m.take(i + 1));
        lemma_line_part(m, z, i + 1);
    } else {
        assert(m.take(i) =~= m);
    }
}

/// The first line of a text is what stands before the first line feed.
pub proof fn lemma_lines_first(m: Seq<char>, z: Seq<char>)
    requires
        one_line(m),
        z.len() > 0,
        z[0] == '\n',
    ensures
        lines_of(m + z) == seq![chomped(m)] + lines_of(z.drop_first()),
{
    assert(m.take(0) =~= Seq::empty());
    lemma_line_part(m, z, 0);
    let s = m + z;
    assert(s[m.len() as int] == '\n');
    let a = m.push('\n');
    assert(s =~= a + z.drop_first());
    lemma_lines_shift(a, z.drop_first(), 0, Seq::empty(), Seq::empty().push(chomped(m)));
    assert(Seq::<Seq<char>>::empty().push(chomped(m)) =~= seq![chomped(m)]);
}

/// A text without line feeds is its own line, unless it is empty.
pub proof fn lemma_lines_only(m: Seq<char>)
    requires
        one_line(m),
        m.len() > 0,
    ensures
        lines_of(m) == seq![m],
{
    assert(m.take(0) =~= Seq::empty());
    lemma_line_part(m, Seq::empty(), 0);
    assert(m + Seq::empty() =~= m);
    assert(Seq::<Seq<char>>::empty().push(m) =~= seq![m]);
}

/// The line `m` between what ends with a line feed and what starts with one, or is empty.
pub proof fn lemma_lines_around(a: Seq<char>, m: Seq<char>, z: Seq<char>)
    requires
        ends_line(a),
        one_line(m),
        m.len() > 0,
        z.len() == 0 || z[0] == '\n',
    ensures
        lines_of(a + m + z) == lines_of(a) + seq![
            if z.len() > 0 {
                chomped(m)
            } else {
                m
            },
        ] + lines_of(
            if z.len() > 0 {
                z.drop_first()
            } else {
                z
            },
        ),
{
    assert(a + m + z =~= a + (m + z));
    lemma_lines_join(a, m + z);
    if z.len() > 0 {
        lemma_lines_first(m, z);
        assert(lines_of(a) + (seq![chomped(m)] + lines_of(z.drop_first())) =~= lines_of(a) + seq![
            chomped(m),
        ] + lines_of(z.drop_first()));
    } else {
        assert(m + z =~= m);
        lemma_lines_only(m);
        assert(lines_of(z) =~= Seq::empty());
        assert(lines_of(a) + seq![m] =~= lines_of(a) + seq![m] + lines_of(z));
    }
}

} // verus!
