//! The lines of TOML texts.

use super::dynamic::{float_text, Tree};
use super::json::{escaped, escaped_from, quoted};
use super::json_laws::{lemma_digits, lemma_parts, stands};
use super::toml::{
    inline_branches, inline_items, inline_text, key_char, plain_key, root_lines, separator,
    toml_text, written_key,
};
use super::toml_laws::lemma_line;
use crate::numerals::is_digit;
use crate::stdlib::primitives::{
    all_digits_of, is_negative, point_from, scientific, unsigned, without_last_zeros, zeros_from,
};
use crate::text::{chomped, digits, int_text, lines_from, lines_of};
use vstd::prelude::*;
use vstd::string::*;

verus! {

/// A text without line ends.
pub open spec fn flat(s: Seq<char>) -> bool {
    forall|j: int| 0 <= j < s.len() ==> #[trigger] s[j] != '\n' && s[j] != '\r'
}

/// The spelling of no float in a tree has a line end. The spelling of a number has none.
pub open spec fn floats_flat(t: Tree) -> bool
    decreases t,
{
    match t {
        Tree::Float(x) => flat(x),
        Tree::List(items) => forall|i: int|
            0 <= i < items.len() ==> floats_flat(#[trigger] items[i]),
        Tree::Dict(branches) => forall|i: int|
            0 <= i < branches.len() ==> floats_flat((#[trigger] branches[i]).1),
        _ => true,
    }
}

proof fn lemma_join(a: Seq<char>, b: Seq<char>)
    requires
        flat(a),
        flat(b),
    ensures
        flat(a + b),
{
    assert forall|j: int| 0 <= j < (a + b).len() implies #[trigger] (a + b)[j] != '\n' && (a + b)[j]
        != '\r' by {
        if j < a.len() {
            assert(a[j] != '\n');
        } else {
            assert(b[j - a.len()] != '\n');
        }
    }
}

proof fn lemma_escaped_flat(c: char)
    ensures
        flat(escaped(c)),
{
}

proof fn lemma_body_flat(x: Seq<char>, i: int)
    requires
        0 <= i,
    ensures
        flat(escaped_from(x, i)),
    decreases x.len() - i,
{
    if i < x.len() {
        lemma_body_flat(x, i + 1);
        lemma_escaped_flat(x[i]);
        lemma_join(escaped(x[i]), escaped_from(x, i + 1));
    }
}

proof fn lemma_quoted_flat(x: Seq<char>)
    ensures
        flat(quoted(x)),
{
    lemma_body_flat(x, 0);
    lemma_join(seq!['"'], escaped_from(x, 0));
    lemma_join(seq!['"'] + escaped_from(x, 0), seq!['"']);
}

proof fn lemma_key_flat(k: Seq<char>)
    ensures
        flat(written_key(k)),
{
    lemma_quoted_flat(k);
    if plain_key(k) {
        assert forall|j: int| 0 <= j < k.len() implies #[trigger] k[j] != '\n' && k[j] != '\r' by {
            assert(key_char(k[j]));
        }
    }
}

proof fn lemma_int_flat(n: int)
    ensures
        flat(int_text(n)),
{
    let m = if n < 0 {
        (-n) as nat
    } else {
        n as nat
    };
    lemma_digits(m);
    let ds = digits(m);
    assert forall|j: int| 0 <= j < ds.len() implies #[trigger] ds[j] != '\n' && ds[j] != '\r' by {
        assert(is_digit(ds[j]));
    }
    lemma_join(seq!['-'], ds);
    assert(int_text(n) =~= ds || int_text(n) =~= seq!['-'] + ds);
}

proof fn lemma_marks()
    ensures
        flat("true"@) && flat("false"@) && flat("["@) && flat("]"@) && flat("{ "@) && flat(" }"@),
        flat("0"@) && flat("0.0"@) && flat("[]"@) && flat("{ }"@) && flat("\"\""@) && flat(" = "@),
        flat(", "@) && flat(".0"@),
{
    reveal_strlit("true");
    reveal_strlit("false");
    reveal_strlit("[");
    reveal_strlit("]");
    reveal_strlit("{ ");
    reveal_strlit(" }");
    reveal_strlit("0");
    reveal_strlit("0.0");
    reveal_strlit("[]");
    reveal_strlit("{ }");
    reveal_strlit("\"\"");
    reveal_strlit(" = ");
    reveal_strlit(", ");
    reveal_strlit(".0");
}

proof fn lemma_items_flat(items: Seq<Tree>, i: int)
    requires
        0 <= i,
        forall|j: int| 0 <= j < items.len() ==> flat(inline_text(#[trigger] items[j])),
    ensures
        flat(inline_items(items, i)),
    decreases items.len() - i,
{
    lemma_marks();
    if i < items.len() {
        lemma_items_flat(items, i + 1);
        lemma_join(separator(i == 0), inline_text(items[i]));
        lemma_join(separator(i == 0) + inline_text(items[i]), inline_items(items, i + 1));
    }
}

/// An entry as it is written, at the root or in an inline table.
pub open spec fn entry_line(b: (Seq<char>, Tree)) -> Seq<char> {
    written_key(b.0) + " = "@ + inline_text(b.1)
}

proof fn lemma_entry_flat(b: (Seq<char>, Tree))
    requires
        flat(inline_text(b.1)),
    ensures
        flat(entry_line(b)),
{
    lemma_marks();
    lemma_key_flat(b.0);
    lemma_join(written_key(b.0), " = "@);
    lemma_join(written_key(b.0) + " = "@, inline_text(b.1));
}

proof fn lemma_branches_flat(branches: Seq<(Seq<char>, Tree)>, i: int, first: bool)
    requires
        0 <= i,
        forall|j: int| 0 <= j < branches.len() ==> flat(inline_text((#[trigger] branches[j]).1)),
    ensures
        flat(inline_branches(branches, i, first)),
    decreases branches.len() - i,
{
    lemma_marks();
    if i < branches.len() {
        if branches[i].1 is Null {
            lemma_branches_flat(branches, i + 1, first);
        } else {
            lemma_branches_flat(branches, i + 1, false);
            lemma_entry_flat(branches[i]);
            let e = entry_line(branches[i]);
            lemma_join(separator(first), e);
            lemma_join(separator(first) + e, inline_branches(branches, i + 1, false));
            assert(inline_branches(branches, i, first) =~= separator(first) + e + inline_branches(
                branches,
                i + 1,
                false,
            ));
        }
    }
}

proof fn lemma_last_zeros(s: Seq<char>)
    ensures
        without_last_zeros(s).len() <= s.len(),
        without_last_zeros(s) == s.take(without_last_zeros(s).len() as int),
    decreases s.len(),
{
    if s.len() > 0 && s.last() == '0' {
        lemma_last_zeros(s.drop_last());
        let n = without_last_zeros(s).len() as int;
        assert(s.take(n) =~= s.drop_last().take(n));
    } else {
        assert(s.take(s.len() as int) =~= s);
    }
}

proof fn lemma_point_within(s: Seq<char>, i: int)
    requires
        0 <= i <= s.len(),
    ensures
        i <= point_from(s, i) <= s.len(),
    decreases s.len() - i,
{
    if i < s.len() && s[i] != '.' {
        lemma_point_within(s, i + 1);
    }
}

proof fn lemma_zeros_within(s: Seq<char>, i: int)
    requires
        0 <= i <= s.len(),
    ensures
        i <= zeros_from(s, i) <= s.len(),
    decreases s.len() - i,
{
    if i < s.len() && s[i] == '0' {
        lemma_zeros_within(s, i + 1);
    }
}

proof fn lemma_float_flat(x: Seq<char>)
    requires
        flat(x),
    ensures
        flat(float_text(x)),
{
    lemma_marks();
    reveal_strlit("");
    reveal_strlit("-");
    reveal_strlit(".");
    reveal_strlit("e");
    reveal_strlit("0.0");
    lemma_join(x, ".0"@);
    let s = unsigned(x);
    lemma_point_within(s, 0);
    let ds = all_digits_of(s);
    assert(flat(s)) by {
        assert forall|j: int| 0 <= j < s.len() implies #[trigger] s[j] != '\n' && s[j] != '\r' by {
            assert(x[j] != '\n' && x[j] != '\r');
            if is_negative(x) {
                assert(s[j] == x[j + 1]);
            }
        }
    }
    assert(flat(ds)) by {
        let p = point_from(s, 0);
        if p < s.len() {
            lemma_join(s.take(p), s.skip(p + 1));
        }
    }
    lemma_zeros_within(ds, 0);
    let lead = zeros_from(ds, 0);
    lemma_last_zeros(ds.skip(lead));
    let m = without_last_zeros(ds.skip(lead));
    assert(flat(m)) by {
        assert forall|j: int| 0 <= j < m.len() implies #[trigger] m[j] != '\n' && m[j] != '\r' by {
            assert(m[j] == ds[lead + j]);
        }
    }
    let e = point_from(s, 0) - 1 - lead;
    lemma_int_flat(e);
    let mantissa = if m.len() > 1 {
        m.take(1) + "."@ + m.skip(1)
    } else {
        m
    };
    if m.len() > 1 {
        lemma_join(m.take(1), "."@);
        lemma_join(m.take(1) + "."@, m.skip(1));
    }
    lemma_join(mantissa, "e"@);
    lemma_join(mantissa + "e"@, int_text(e));
    lemma_join("-"@, scientific(s));
    lemma_join(""@, scientific(s));
}

proof fn lemma_inline_flat(t: Tree)
    requires
        floats_flat(t),
    ensures
        flat(inline_text(t)),
    decreases t,
{
    lemma_marks();
    match t {
        Tree::Int(n) => {
            lemma_int_flat(n as int);
        },
        Tree::Float(x) => {
            lemma_float_flat(x);
        },
        Tree::Str(x) => {
            lemma_quoted_flat(x);
        },
        Tree::List(items) => {
            assert forall|j: int| 0 <= j < items.len() implies flat(
                inline_text(#[trigger] items[j]),
            ) by {
                lemma_inline_flat(items[j]);
            }
            lemma_items_flat(items, 0);
            lemma_join("["@, inline_items(items, 0));
            lemma_join("["@ + inline_items(items, 0), "]"@);
        },
        Tree::Dict(branches) => {
            assert forall|j: int| 0 <= j < branches.len() implies flat(
                inline_text((#[trigger] branches[j]).1),
            ) by {
                lemma_inline_flat(branches[j].1);
            }
            lemma_branches_flat(branches, 0, true);
            lemma_join("{ "@, inline_branches(branches, 0, true));
            lemma_join("{ "@ + inline_branches(branches, 0, true), " }"@);
        },
        _ => {},
    }
}

// ---------------------------------------------------------------------------
// Lines
// ---------------------------------------------------------------------------

/// The entries from the `i`-th on that are not null, as they are written.
pub open spec fn entry_lines(branches: Seq<(Seq<char>, Tree)>, i: int) -> Seq<Seq<char>>
    decreases branches.len() - i,
{
    if !(0 <= i < branches.len()) {
        Seq::empty()
    } else if branches[i].1 is Null {
        entry_lines(branches, i + 1)
    } else {
        seq![entry_line(branches[i])] + entry_lines(branches, i + 1)
    }
}

proof fn lemma_root(
    s: Seq<char>,
    pos: int,
    branches: Seq<(Seq<char>, Tree)>,
    i: int,
    out: Seq<Seq<char>>,
)
    requires
        0 <= i <= branches.len(),
        forall|j: int| 0 <= j < branches.len() ==> flat(inline_text((#[trigger] branches[j]).1)),
        stands(s, pos, root_lines(branches, i)),
        pos + root_lines(branches, i).len() == s.len(),
    ensures
        lines_from(s, pos, Seq::empty(), out) == out + entry_lines(branches, i),
    decreases branches.len() - i,
{
    let nothing = Seq::<char>::empty();
    if i >= branches.len() {
        assert(out + entry_lines(branches, i) =~= out);
    } else if branches[i].1 is Null {
        lemma_root(s, pos, branches, i + 1, out);
    } else {
        let t = entry_line(branches[i]);
        let rest = root_lines(branches, i + 1);
        lemma_entry_flat(branches[i]);
        reveal_strlit("\n");
        reveal_strlit(" = ");
        assert("\n"@ =~= seq!['\n']);
        assert(root_lines(branches, i) =~= t + (seq!['\n'] + rest));
        lemma_parts(s, pos, t, seq!['\n'] + rest);
        lemma_parts(s, pos + t.len(), seq!['\n'], rest);
        lemma_line(s, pos, t, 0, nothing, out);
        assert(nothing + t.skip(0) =~= t);
        assert(s[pos + t.len() + 0] == seq!['\n'][0]);
        assert(t.len() > 0);
        assert(t.last() == t[t.len() - 1]);
        assert(chomped(t) == t);
        lemma_root(s, pos + t.len() + 1, branches, i + 1, out.push(t));
        assert(out.push(t) + entry_lines(branches, i + 1) =~= out + entry_lines(branches, i));
    }
}

/// The text of a table has one line for each entry that is not null, in the order of the
/// entries, and no other lines.
pub proof fn law_toml_has_a_line_for_each_entry(branches: Seq<(Seq<char>, Tree)>)
    requires
        floats_flat(Tree::Dict(branches)),
    ensures
        lines_of(toml_text(Tree::Dict(branches))) == entry_lines(branches, 0),
{
    let t = Tree::Dict(branches);
    assert(t->Dict_0 == branches);
    assert forall|j: int| 0 <= j < branches.len() implies flat(
        inline_text((#[trigger] branches[j]).1),
    ) by {
        reveal_with_fuel(floats_flat, 2);
        assert(floats_flat(t->Dict_0[j].1));
        lemma_inline_flat(branches[j].1);
    }
    let s = toml_text(t);
    assert(stands(s, 0, s));
    lemma_root(s, 0, branches, 0, Seq::empty());
    assert(Seq::<Seq<char>>::empty() + entry_lines(branches, 0) =~= entry_lines(branches, 0));
}

// ---------------------------------------------------------------------------
// Nulls
// ---------------------------------------------------------------------------

/// A tree without the entries that are null, at every depth.
pub open spec fn pruned(t: Tree) -> Tree
    decreases t, 0int,
{
    match t {
        Tree::List(items) => Tree::List(
            Seq::new(
                items.len(),
                |i: int|
                    if 0 <= i < items.len() {
                        pruned(items[i])
                    } else {
                        arbitrary()
                    },
            ),
        ),
        Tree::Dict(branches) => Tree::Dict(branches_pruned(branches, 0)),
        _ => t,
    }
}

pub open spec fn branches_pruned(branches: Seq<(Seq<char>, Tree)>, i: int) -> Seq<
    (Seq<char>, Tree),
>
    decreases branches, branches.len() - i,
{
    if !(0 <= i < branches.len()) {
        Seq::empty()
    } else if branches[i].1 is Null {
        branches_pruned(branches, i + 1)
    } else {
        seq![(branches[i].0, pruned(branches[i].1))] + branches_pruned(branches, i + 1)
    }
}

proof fn lemma_branches_shift(
    head: Seq<(Seq<char>, Tree)>,
    tail: Seq<(Seq<char>, Tree)>,
    j: int,
    first: bool,
)
    requires
        0 <= j <= tail.len(),
    ensures
        inline_branches(head + tail, head.len() + j, first) == inline_branches(tail, j, first),
        root_lines(head + tail, head.len() + j) == root_lines(tail, j),
    decreases tail.len() - j,
{
    if j < tail.len() {
        assert((head + tail)[head.len() + j] == tail[j]);
        lemma_branches_shift(head, tail, j + 1, first);
        lemma_branches_shift(head, tail, j + 1, false);
    }
}

proof fn lemma_pruned_branches(branches: Seq<(Seq<char>, Tree)>, i: int, first: bool)
    requires
        0 <= i <= branches.len(),
        forall|j: int|
            0 <= j < branches.len() ==> inline_text(pruned((#[trigger] branches[j]).1))
                == inline_text(branches[j].1),
    ensures
        inline_branches(branches_pruned(branches, i), 0, first) == inline_branches(
            branches,
            i,
            first,
        ),
        root_lines(branches_pruned(branches, i), 0) == root_lines(branches, i),
    decreases branches.len() - i,
{
    if i < branches.len() {
        let b = branches[i];
        if b.1 is Null {
            lemma_pruned_branches(branches, i + 1, first);
        } else {
            let head = seq![(b.0, pruned(b.1))];
            let tail = branches_pruned(branches, i + 1);
            lemma_pruned_branches(branches, i + 1, false);
            lemma_branches_shift(head, tail, 0, false);
            assert((head + tail)[0] == head[0]);
            assert(!(pruned(b.1) is Null));
        }
    }
}

proof fn lemma_pruned_items(items: Seq<Tree>, kept: Seq<Tree>, i: int)
    requires
        0 <= i,
        kept.len() == items.len(),
        forall|j: int|
            0 <= j < items.len() ==> inline_text(#[trigger] kept[j]) == inline_text(items[j]),
    ensures
        inline_items(kept, i) == inline_items(items, i),
    decreases items.len() - i,
{
    if i < items.len() {
        lemma_pruned_items(items, kept, i + 1);
        assert(inline_text(kept[i]) == inline_text(items[i]));
    }
}

proof fn lemma_pruned(t: Tree)
    ensures
        inline_text(pruned(t)) == inline_text(t),
    decreases t,
{
    match t {
        Tree::List(items) => {
            let kept = pruned(t)->List_0;
            assert forall|j: int| 0 <= j < items.len() implies inline_text(#[trigger] kept[j])
                == inline_text(items[j]) by {
                lemma_pruned(items[j]);
            }
            lemma_pruned_items(items, kept, 0);
        },
        Tree::Dict(branches) => {
            assert forall|j: int| 0 <= j < branches.len() implies inline_text(
                pruned((#[trigger] branches[j]).1),
            ) == inline_text(branches[j].1) by {
                lemma_pruned(branches[j].1);
            }
            lemma_pruned_branches(branches, 0, true);
        },
        _ => {},
    }
}

/// Entries that are null leave no trace: without them, at every depth, the text is the same.
pub proof fn law_toml_leaves_nulls_out(t: Tree)
    ensures
        toml_text(pruned(t)) == toml_text(t),
{
    lemma_pruned(t);
    if let Tree::Dict(branches) = t {
        assert forall|j: int| 0 <= j < branches.len() implies inline_text(
            pruned((#[trigger] branches[j]).1),
        ) == inline_text(branches[j].1) by {
            lemma_pruned(branches[j].1);
        }
        lemma_pruned_branches(branches, 0, true);
    }
}

} // verus!
