//! What holds of filters, sums, concatenations, repetitions, trimming and headers.

use super::collections::{concatenated, int_sum, joined, kept};
use super::collections_laws::law_insert_gives_a_key_its_value;
use super::envns::check_args_from;
use super::http::header_entries_from;
use super::primitives::repeated;
use crate::eval::keys::KeyV;
use crate::eval::value::{distinct_keys, inserted, looked_up, ValueV};
use crate::text::{is_space, trim_left, trim_right, trimmed};
use vstd::prelude::*;

verus! {

/// A filter goes item by item: what it keeps of two lists, one after the other, is what it keeps
/// of each, and of a single item it keeps the item where the answer is true and nothing where it
/// is not.
pub proof fn law_filters_go_item_by_item<A>(
    a: Seq<A>,
    b: Seq<A>,
    x: Seq<ValueV>,
    y: Seq<ValueV>,
    item: A,
)
    requires
        a.len() == x.len(),
        b.len() == y.len(),
    ensures
        kept(a + b, x + y) == kept(a, x) + kept(b, y),
        kept(seq![item], seq![ValueV::Bool(true)]) == seq![item],
        kept(seq![item], seq![ValueV::Bool(false)]) == Seq::<A>::empty(),
    decreases y.len(),
{
    reveal_with_fuel(kept, 2);
    let yes = seq![ValueV::Bool(true)];
    let no = seq![ValueV::Bool(false)];
    assert(kept(seq![item], yes) =~= seq![item]);
    assert(kept(seq![item], no) =~= Seq::<A>::empty());
    if y.len() == 0 {
        assert(x + y =~= x);
        lemma_kept_within(a, a + b, x);
        assert(kept(a, x) + kept(b, y) =~= kept(a, x));
    } else {
        let n = y.len() - 1;
        law_filters_go_item_by_item(a, b.drop_last(), x, y.drop_last(), item);
        assert((x + y).drop_last() =~= x + y.drop_last());
        lemma_kept_within(a + b.drop_last(), a + b, x + y.drop_last());
        lemma_kept_within(b.drop_last(), b, y.drop_last());
        assert((x + y).last() == y.last());
        assert((a + b)[x.len() + n] == b[n]);
        assert(kept(a + b, x + y) =~= kept(a, x) + kept(b, y));
    }
}

proof fn lemma_kept_within<A>(some: Seq<A>, more: Seq<A>, answers: Seq<ValueV>)
    requires
        answers.len() <= some.len() <= more.len(),
        forall|i: int| 0 <= i < some.len() ==> some[i] == more[i],
    ensures
        kept(some, answers) == kept(more, answers),
    decreases answers.len(),
{
    if answers.len() > 0 {
        lemma_kept_within(some, more, answers.drop_last());
    }
}

/// The integers among the values from the `i`-th on, added up.
pub open spec fn total_from(items: Seq<ValueV>, i: int) -> int
    decreases items.len() - i,
{
    if 0 <= i < items.len() {
        total_from(items, i + 1) + (match items[i] {
            ValueV::Int(n) => n as int,
            _ => 0,
        })
    } else {
        0
    }
}

proof fn lemma_total(items: Seq<ValueV>, i: int)
    requires
        items.len() > 0,
        0 <= i <= items.len() - 1,
    ensures
        total_from(items, i) == total_from(items.drop_last(), i) + (match items.last() {
            ValueV::Int(n) => n as int,
            _ => 0,
        }),
    decreases items.len() - i,
{
    if i + 1 < items.len() {
        lemma_total(items, i + 1);
    } else {
        assert(total_from(items, i + 1) == 0);
    }
}

/// A sum is that of the integers, from whichever end they are added up. Where there is none, the
/// integers of some first items add up to more than fits.
pub proof fn law_sums_add_up(items: Seq<ValueV>)
    ensures
        int_sum(items) matches Some(t) ==> t == total_from(items, 0) && i64::MIN <= t <= i64::MAX,
        int_sum(items) is None ==> exists|n: int|
            0 <= n <= items.len() && !(i64::MIN <= #[trigger] total_from(items.take(n), 0)
                <= i64::MAX),
    decreases items.len(),
{
    if items.len() > 0 {
        let less = items.drop_last();
        law_sums_add_up(less);
        lemma_total(items, 0);
        if int_sum(items) is None {
            if int_sum(less) is None {
                let n = choose|n: int|
                    0 <= n <= less.len() && !(i64::MIN <= #[trigger] total_from(less.take(n), 0)
                        <= i64::MAX);
                assert(less.take(n) =~= items.take(n));
            } else {
                assert(items.take(items.len() as int) =~= items);
            }
        }
    }
}

/// The lists that the items of a list are turned into stand one after the other.
pub proof fn law_lists_stand_one_after_the_other(a: Seq<ValueV>, b: Seq<ValueV>, x: Seq<ValueV>)
    ensures
        concatenated(a + b) == concatenated(a) + concatenated(b),
        concatenated(seq![ValueV::List(x)]) == x,
        concatenated(Seq::empty()) == Seq::<ValueV>::empty(),
    decreases b.len(),
{
    let one = seq![ValueV::List(x)];
    reveal_with_fuel(concatenated, 2);
    assert(one.drop_last() =~= Seq::empty());
    assert(concatenated(one) =~= x);
    if b.len() == 0 {
        assert(a + b =~= a);
        assert(concatenated(a) + concatenated(b) =~= concatenated(a));
    } else {
        law_lists_stand_one_after_the_other(a, b.drop_last(), x);
        assert((a + b).drop_last() =~= a + b.drop_last());
        assert(concatenated(a + b) =~= concatenated(a) + concatenated(b));
    }
}

/// Texts are joined as parts of a text are: what splitting took apart, joining puts together.
pub proof fn law_lists_join_as_texts_do(items: Seq<ValueV>, sep: Seq<char>)
    ensures
        joined(items, sep) == super::primitives::joined(
            Seq::new(items.len(), |i: int| items[i]->Str_0),
            sep,
        ),
    decreases items.len(),
{
    let parts = Seq::new(items.len(), |i: int| items[i]->Str_0);
    if items.len() > 1 {
        let less = items.drop_last();
        law_lists_join_as_texts_do(less, sep);
        assert(parts.drop_last() =~= Seq::new(less.len(), |i: int| less[i]->Str_0));
    }
}

/// A text that is repeated so many times and then so many times more is repeated as often as
/// both. Once is the text itself, and never, or less, is nothing.
pub proof fn law_repetitions_add_up(s: Seq<char>, m: int, n: int)
    requires
        m >= 0,
        n >= 0,
    ensures
        repeated(s, m + n) == repeated(s, m) + repeated(s, n),
        repeated(s, 1) == s,
        repeated(s, -n) == Seq::<char>::empty(),
    decreases n,
{
    reveal_with_fuel(repeated, 2);
    assert(repeated(s, 1) =~= s);
    if n == 0 {
        assert(repeated(s, m) + repeated(s, n) =~= repeated(s, m));
    } else {
        law_repetitions_add_up(s, m, n - 1);
        assert(repeated(s, m + n) =~= repeated(s, m) + repeated(s, n));
    }
}

/// A text of white space alone.
pub open spec fn all_space(s: Seq<char>) -> bool {
    forall|i: int| 0 <= i < s.len() ==> is_space(#[trigger] s[i])
}

proof fn lemma_left(s: Seq<char>)
    ensures
        trim_left(s).len() <= s.len(),
        all_space(s.take(s.len() - trim_left(s).len())),
        s.skip(s.len() - trim_left(s).len()) == trim_left(s),
        trim_left(s).len() > 0 ==> !is_space(trim_left(s)[0]),
    decreases s.len(),
{
    if s.len() > 0 && is_space(s[0]) {
        let less = s.drop_first();
        lemma_left(less);
        let n = s.len() - trim_left(s).len();
        assert forall|i: int| 0 <= i < n implies is_space(#[trigger] s.take(n)[i]) by {
            if i > 0 {
                assert(less.take(n - 1)[i - 1] == s[i]);
            }
        }
        assert(s.skip(n) =~= less.skip(n - 1));
    } else {
        assert(s.skip(0) =~= s);
    }
}

proof fn lemma_right(s: Seq<char>)
    ensures
        trim_right(s).len() <= s.len(),
        all_space(s.skip(trim_right(s).len() as int)),
        s.take(trim_right(s).len() as int) == trim_right(s),
        trim_right(s).len() > 0 ==> !is_space(trim_right(s).last()),
    decreases s.len(),
{
    if s.len() > 0 && is_space(s.last()) {
        let less = s.drop_last();
        lemma_right(less);
        let n = trim_right(s).len() as int;
        assert forall|i: int| 0 <= i < s.len() - n implies is_space(#[trigger] s.skip(n)[i]) by {
            if i < less.len() - n {
                assert(less.skip(n)[i] == s[n + i]);
            }
        }
        assert(s.take(n) =~= less.take(n));
    } else {
        assert(s.take(s.len() as int) =~= s);
    }
}

/// Trimming takes white space away, at the start, at the end or at both, all of it, and nothing
/// else.
pub proof fn law_trimming_takes_white_space_away(s: Seq<char>)
    ensures
        exists|a: Seq<char>|
            all_space(a) && s == #[trigger] (a + trim_left(s)),
        exists|b: Seq<char>|
            all_space(b) && s == #[trigger] (trim_right(s) + b),
        exists|a: Seq<char>, b: Seq<char>|
            all_space(a) && all_space(b) && s == #[trigger] (a + trimmed(s) + b),
        trim_left(s).len() > 0 ==> !is_space(trim_left(s)[0]),
        trim_right(s).len() > 0 ==> !is_space(trim_right(s).last()),
        trimmed(s).len() > 0 ==> !is_space(trimmed(s)[0]) && !is_space(trimmed(s).last()),
{
    lemma_left(s);
    lemma_right(s);
    let l = trim_left(s);
    lemma_right(l);
    let t = trimmed(s);
    let a = s.take(s.len() - l.len());
    let b = l.skip(t.len() as int);
    let c = s.skip(trim_right(s).len() as int);
    assert(s =~= a + l);
    assert(l =~= t + b);
    assert(s =~= a + t + b);
    assert(s =~= trim_right(s) + c);
    assert(t.len() > 0 ==> t[0] == l[0]);
}

proof fn lemma_headers(
    headers: Seq<(Seq<char>, Seq<char>)>,
    i: int,
    out: Seq<(KeyV, ValueV)>,
    name: Seq<char>,
)
    requires
        0 <= i <= headers.len(),
        distinct_keys(out),
    ensures
        distinct_keys(header_entries_from(headers, i, out)),
        (forall|j: int| i <= j < headers.len() ==> (#[trigger] headers[j]).0 != name) ==> looked_up(
            header_entries_from(headers, i, out),
            KeyV::Str(name),
        ) == looked_up(out, KeyV::Str(name)),
        forall|j: int|
            i <= j < headers.len() && (#[trigger] headers[j]).0 == name && (forall|k: int|
                j < k < headers.len() ==> (#[trigger] headers[k]).0 != name) ==> looked_up(
                header_entries_from(headers, i, out),
                KeyV::Str(name),
            ) == Some(ValueV::Str(headers[j].1)),
    decreases headers.len() - i,
{
    if i < headers.len() {
        let k = KeyV::Str(headers[i].0);
        let v = ValueV::Str(headers[i].1);
        law_insert_gives_a_key_its_value(out, k, v, KeyV::Str(name));
        lemma_headers(headers, i + 1, inserted(out, k, v), name);
    }
}

/// Of the headers with a name the last one counts, and a name that no header has is not there.
pub proof fn law_the_last_header_counts(headers: Seq<(Seq<char>, Seq<char>)>, name: Seq<char>)
    ensures
        ({
            let entries = header_entries_from(headers, 0, Seq::empty());
            &&& distinct_keys(entries)
            &&& (forall|j: int| 0 <= j < headers.len() ==> (#[trigger] headers[j]).0 != name)
                ==> looked_up(entries, KeyV::Str(name)) is None
            &&& forall|j: int|
                0 <= j < headers.len() && (#[trigger] headers[j]).0 == name && (forall|k: int|
                    j < k < headers.len() ==> (#[trigger] headers[k]).0 != name) ==> looked_up(
                    entries,
                    KeyV::Str(name),
                ) == Some(ValueV::Str(headers[j].1))
        }),
{
    lemma_headers(headers, 0, Seq::empty(), name);
}

/// The arguments of a check go one by one: a flag adds nothing wherever it stands, and what
/// comes after the file stays as it is.
pub proof fn law_flags_are_no_arguments(
    before: Seq<Seq<char>>,
    after: Seq<Seq<char>>,
    found: bool,
    i: int,
    out: Seq<Seq<char>>,
)
    requires
        0 <= i <= before.len(),
    ensures
        check_args_from(before + seq!["--apply"@] + after, i, found, out) == check_args_from(
            before + after,
            i,
            found,
            out,
        ),
        (forall|j: int| i <= j < before.len() ==> #[trigger] before[j] != "--apply"@)
            ==> check_args_from(before, i, true, out) == out + before.skip(i),
        i < before.len() && before[i] != "--apply"@ ==> check_args_from(before, i, false, out)
            == check_args_from(before, i + 1, true, out),
    decreases before.len() - i,
{
    let one = before + seq!["--apply"@] + after;
    let two = before + after;
    if i < before.len() {
        assert(one[i] == before[i]);
        assert(two[i] == before[i]);
        law_flags_are_no_arguments(before, after, found, i + 1, out);
        law_flags_are_no_arguments(before, after, true, i + 1, out);
        law_flags_are_no_arguments(before, after, true, i + 1, out.push(before[i]));
        assert(out.push(before[i]) + before.skip(i + 1) =~= out + before.skip(i));
    } else {
        assert(one[i] == "--apply"@);
        lemma_same_rest(one, i + 1, two, i, found, out);
        assert(out + before.skip(i) =~= out);
    }
}

proof fn lemma_same_rest(
    one: Seq<Seq<char>>,
    i: int,
    two: Seq<Seq<char>>,
    j: int,
    found: bool,
    out: Seq<Seq<char>>,
)
    requires
        0 <= i <= one.len(),
        0 <= j <= two.len(),
        one.len() - i == two.len() - j,
        forall|k: int| 0 <= k < one.len() - i ==> #[trigger] one[i + k] == two[j + k],
    ensures
        check_args_from(one, i, found, out) == check_args_from(two, j, found, out),
    decreases one.len() - i,
{
    if i < one.len() {
        assert(one[i + 0] == two[j + 0]);
        assert forall|k: int| 0 <= k < one.len() - (i + 1) implies #[trigger] one[i + 1 + k]
            == two[j + 1 + k] by {
            assert(one[i + (k + 1)] == two[j + (k + 1)]);
        }
        lemma_same_rest(one, i + 1, two, j + 1, found, out);
        lemma_same_rest(one, i + 1, two, j + 1, true, out);
        lemma_same_rest(one, i + 1, two, j + 1, true, out.push(one[i]));
    }
}

} // verus!
