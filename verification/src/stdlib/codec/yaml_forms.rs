//! Ways to write YAML other than the one that is used for writing it.

use super::dynamic::{branches_of, ddict_v, dlist_v, dstr_v, dyn_of, tree_of, Tree};
use super::dynamic::{lemma_dict_smaller, lemma_tree};
use super::json::Reading;
use super::json_laws::stands;
use super::toml::{passed, Within};
use super::toml_laws::lemma_trim;
use super::yaml::{
    is_block, ascii_lower, behind_dash, block, colon_from, colon_of, comment_from, deeper_from, flows,
    is_item, is_pair, last_quote, mapping, nested, pair_item, same_word, scalar_of, scalar_text,
    sequence, uncommented, undoubled_from, written_key, yaml_of, LineV,
};
use super::yaml_laws::{
    child_rows, ends, entries_read_back, item_rows, key_fits, lemma_content,
    lemma_first_row, lemma_key, lemma_mapping, lemma_pair_row, lemma_reads_back, lemma_rows_lines,
    pair_rows, raw, reads_back, row_reads, row_text, rows, rows_read, rows_stand, rows_text,
    yaml_holdable,
};
use crate::eval::keys::KeyV;
use crate::eval::value::ValueV;
use crate::text::{is_space, starts_with, trimmed};
use vstd::prelude::*;
use vstd::string::*;

verus! {

/// Lines that are read as they are written come to what their block comes to.
proof fn lemma_document(read: Reading, rs: Seq<LineV>, v: ValueV)
    requires
        rows_read(rs),
        rs.len() > 0,
        block(read, rs, 0, rs[0].indent, 0) == Ok::<(ValueV, int), Seq<char>>(
            (v, rs.len() as int),
        ),
    ensures
        yaml_of(read, rows_text(rs, 0)) == Ok::<ValueV, Seq<char>>(v),
{
    let s = rows_text(rs, 0);
    assert(stands(s, 0, s));
    assert forall|j: int| 0 <= j < rs.len() implies super::yaml_laws::one_line(#[trigger] rs[j]) by {
        assert(row_reads(rs[j]));
    }
    lemma_rows_lines(s, 0, rs, 0, Seq::empty());
    assert(Seq::<Seq<char>>::empty() + raw(rs).skip(0) =~= raw(rs));
    lemma_content(rs, 0, Seq::empty());
    assert(Seq::<LineV>::empty() + rs.skip(0) =~= rs);
}

// ---------------------------------------------------------------------------
// Indentation
// ---------------------------------------------------------------------------

/// A document may be indented as a whole, by any number of spaces.
pub proof fn law_yaml_documents_may_be_indented(read: Reading, v: ValueV, n: int)
    requires
        yaml_holdable(read, v, 0),
        is_block(tree_of(v)),
        0 <= n,
    ensures
        yaml_of(read, rows_text(rows(tree_of(v), n), 0)) == Ok::<ValueV, Seq<char>>(v),
{
    let rs = rows(tree_of(v), n);
    lemma_reads_back(read, v, n, 0);
    lemma_first_row(tree_of(v), n);
    assert(rows_stand(rs, 0, rs));
    assert(ends(rs, 0 + rs.len() as int, n));
    assert(block(read, rs, 0, n, 0) == Ok::<(ValueV, int), Seq<char>>((v, rs.len() as int)));
    lemma_document(read, rs, v);
}

/// What stands below a key may be indented by any number of spaces, as long as it is indented.
pub proof fn law_yaml_blocks_may_be_indented_further(
    read: Reading,
    k: Seq<char>,
    v: ValueV,
    n: int,
)
    requires
        key_fits(k),
        yaml_holdable(read, v, 1),
        is_block(tree_of(v)),
        0 < n,
    ensures
        yaml_of(
            read,
            written_key(k) + seq![':'] + seq!['\n'] + rows_text(rows(tree_of(v), n), 0),
        ) == Ok::<ValueV, Seq<char>>(ddict_v(seq![(KeyV::Str(k), v)])),
{
    let t = tree_of(v);
    let below = rows(t, n);
    let c = written_key(k) + seq![':'];
    let first = LineV { indent: 0, content: c };
    let rs = seq![first] + below;
    lemma_reads_back(read, v, n, 1);
    lemma_first_row(t, n);
    lemma_key(k);
    lemma_pair_row(read, k, Seq::empty(), v, 0, true);
    assert(rows_read(rs)) by {
        assert forall|j: int| 0 <= j < rs.len() implies row_reads(#[trigger] rs[j]) by {
            if j > 0 {
                assert(rs[j] == below[j - 1]);
            }
        }
    }
    assert(rs[0] == first && rs[1] == below[0]);
    assert(rows_stand(rs, 1, below)) by {
        assert forall|j: int| 0 <= j < below.len() implies rs[1 + j] == #[trigger] below[j] by {}
    }
    assert(ends(rs, 1 + below.len() as int, n));
    assert(block(read, rs, 1, n, 1) == Ok::<(ValueV, int), Seq<char>>((v, rs.len() as int)));
    assert(nested(read, rs, 0, 0, 0) == Ok::<(ValueV, int), Seq<char>>((v, rs.len() as int)));
    let none = Seq::<(KeyV, ValueV)>::empty();
    assert(none.push((KeyV::Str(k), v)) =~= seq![(KeyV::Str(k), v)]);
    assert(!crate::eval::value::has_key(none, KeyV::Str(k)));
    reveal_with_fuel(mapping, 2);
    assert(mapping(read, rs, 0, 0, 0, none) == Ok::<(ValueV, int), Seq<char>>(
        (ddict_v(seq![(KeyV::Str(k), v)]), rs.len() as int),
    ));
    lemma_document(read, rs, ddict_v(seq![(KeyV::Str(k), v)]));
    assert(super::yaml_laws::spaces(0) =~= Seq::empty());
    assert(row_text(first) =~= c);
    lemma_rows_first(first, below);
    assert(rows_text(rs, 0) =~= c + seq!['\n'] + rows_text(below, 0));
}

proof fn lemma_rows_first(first: LineV, below: Seq<LineV>)
    ensures
        rows_text(seq![first] + below, 0) == row_text(first) + seq!['\n'] + rows_text(below, 0),
{
    let rs = seq![first] + below;
    assert(rs[0] == first);
    lemma_rows_behind(first, below, 0);
}

proof fn lemma_rows_behind(first: LineV, below: Seq<LineV>, i: int)
    requires
        0 <= i <= below.len(),
    ensures
        rows_text(seq![first] + below, i + 1) == rows_text(below, i),
    decreases below.len() - i,
{
    let rs = seq![first] + below;
    if i < below.len() {
        assert(rs[i + 1] == below[i]);
        lemma_rows_behind(first, below, i + 1);
    }
}

// ---------------------------------------------------------------------------
// Items that are mappings
// ---------------------------------------------------------------------------

/// A mapping as an item of a sequence that is indented by `n`, with its first pair behind the
/// dash.
pub open spec fn compact_rows(t: Tree, n: int) -> Seq<LineV> {
    let rs = rows(t, n + 2);
    seq![LineV { indent: n, content: seq!['-', ' '] + rs[0].content }] + rs.skip(1)
}

/// The items of a sequence from the `i`-th on, each of which is a mapping.
pub open spec fn compact_items(items: Seq<ValueV>, i: int, n: int) -> Seq<LineV>
    decreases items.len() - i,
{
    if 0 <= i < items.len() {
        compact_rows(tree_of(items[i]), n) + compact_items(items, i + 1, n)
    } else {
        Seq::empty()
    }
}

proof fn lemma_rows_indent(t: Tree, n: int)
    ensures
        forall|j: int| 0 <= j < rows(t, n).len() ==> (#[trigger] rows(t, n)[j]).indent >= n,
    decreases t, 1int, 0int,
{
    match t {
        Tree::Dict(branches) => {
            lemma_pairs_indent(branches, 0, n);
            if branches.len() > 0 {
                assert(rows(t, n) == pair_rows(branches, 0, n));
            }
        },
        Tree::List(items) => {
            lemma_items_indent(items, 0, n);
            if items.len() > 0 {
                assert(rows(t, n) == item_rows(items, 0, n));
            }
        },
        _ => {},
    }
}

proof fn lemma_child_indent(head: Seq<char>, t: Tree, n: int)
    ensures
        forall|j: int|
            0 <= j < child_rows(head, t, n).len() ==> (#[trigger] child_rows(head, t, n)[j]).indent
                >= n,
    decreases t, 2int, 0int,
{
    if is_block(t) {
        lemma_rows_indent(t, n + 2);
        let below = rows(t, n + 2);
        let all = child_rows(head, t, n);
        assert forall|j: int| 0 <= j < all.len() implies (#[trigger] all[j]).indent >= n by {
            if j > 0 {
                assert(all[j] == below[j - 1]);
            }
        }
    }
}

proof fn lemma_pairs_indent(branches: Seq<(Seq<char>, Tree)>, i: int, n: int)
    ensures
        forall|j: int|
            0 <= j < pair_rows(branches, i, n).len() ==> (#[trigger] pair_rows(
                branches,
                i,
                n,
            )[j]).indent >= n,
    decreases branches, 0int, branches.len() - i,
{
    if 0 <= i < branches.len() {
        let head = written_key(branches[i].0) + seq![':'];
        let a = child_rows(head, branches[i].1, n);
        let b = pair_rows(branches, i + 1, n);
        assert(decreases_to!(branches => branches[i]));
        assert(decreases_to!(branches[i] => branches[i].1));
        lemma_child_indent(head, branches[i].1, n);
        lemma_pairs_indent(branches, i + 1, n);
        let all = pair_rows(branches, i, n);
        assert forall|j: int| 0 <= j < all.len() implies (#[trigger] all[j]).indent >= n by {
            if j < a.len() {
                assert(all[j] == a[j]);
            } else {
                assert(all[j] == b[j - a.len()]);
            }
        }
    }
}

proof fn lemma_items_indent(items: Seq<Tree>, i: int, n: int)
    ensures
        forall|j: int|
            0 <= j < item_rows(items, i, n).len() ==> (#[trigger] item_rows(items, i, n)[j]).indent
                >= n,
    decreases items, 0int, items.len() - i,
{
    if 0 <= i < items.len() {
        let a = child_rows(seq!['-'], items[i], n);
        let b = item_rows(items, i + 1, n);
        lemma_child_indent(seq!['-'], items[i], n);
        lemma_items_indent(items, i + 1, n);
        let all = item_rows(items, i, n);
        assert forall|j: int| 0 <= j < all.len() implies (#[trigger] all[j]).indent >= n by {
            if j < a.len() {
                assert(all[j] == a[j]);
            } else {
                assert(all[j] == b[j - a.len()]);
            }
        }
    }
}

/// The lines of an item that are indented further than its dash.
proof fn lemma_deeper(lines: Seq<LineV>, at: int, below: Seq<LineV>, n: int)
    requires
        rows_stand(lines, at, below),
        forall|j: int| 0 <= j < below.len() ==> (#[trigger] below[j]).indent >= n,
        ends(lines, at + below.len(), n),
    ensures
        deeper_from(lines, at, n) == below,
    decreases below.len(),
{
    if below.len() > 0 {
        assert(lines[at + 0] == below[0]);
        let rest = below.skip(1);
        assert(rows_stand(lines, at + 1, rest)) by {
            assert forall|j: int| 0 <= j < rest.len() implies lines[at + 1 + j]
                == #[trigger] rest[j] by {
                assert(lines[at + (j + 1)] == below[j + 1]);
            }
        }
        assert forall|j: int| 0 <= j < rest.len() implies (#[trigger] rest[j]).indent >= n by {
            assert(rest[j] == below[j + 1]);
        }
        lemma_deeper(lines, at + 1, rest, n);
        assert(seq![below[0]] + rest =~= below);
    } else {
        assert(below =~= Seq::empty());
    }
}

/// A list of mappings, each of which YAML can hold.
pub open spec fn mappings(read: Reading, items: Seq<ValueV>, depth: int) -> bool {
    forall|i: int|
        0 <= i < items.len() ==> dyn_of(#[trigger] items[i]) is Dict && yaml_holdable(
            read,
            items[i],
            depth,
        )
}

proof fn lemma_comment_shift(c: Seq<char>, j: int, w: Within)
    requires
        c.len() > 0,
        c[0] != '#',
        0 <= j <= c.len(),
        j == 0 ==> w == Within::Nothing,
    ensures
        comment_from(seq!['-', ' '] + c, j + 2, w) == comment_from(c, j, w) + 2,
    decreases c.len() - j,
{
    let s = seq!['-', ' '] + c;
    if j < c.len() {
        assert(s[j + 2] == c[j]);
        if j > 0 {
            assert(s[j + 1] == c[j - 1]);
        }
        if !(c[j] == '#' && w == Within::Nothing && (j == 0 || c[j - 1] == ' ' || c[j - 1]
            == '\t')) {
            lemma_comment_shift(c, j + 1, passed(c[j], w));
        }
    }
}

/// The line of a dash with a pair behind it.
proof fn lemma_dash_row(c: Seq<char>, n: int)
    requires
        0 <= n,
        row_reads(LineV { indent: n + 2, content: c }),
        c[0] != '#',
    ensures
        row_reads(LineV { indent: n, content: seq!['-', ' '] + c }),
        is_item(seq!['-', ' '] + c),
        behind_dash(seq!['-', ' '] + c) == c,
{
    let s = seq!['-', ' '] + c;
    reveal_strlit("-");
    reveal_strlit("- ");
    reveal_strlit("---");
    reveal_strlit("...");
    reveal_strlit("--- ");
    assert(s[0] == '-' && s[1] == ' ');
    assert(s.last() == c.last());
    assert(s.skip(2) =~= c);
    lemma_trim(Seq::empty(), c, Seq::empty());
    assert(s.take(2) =~= "- "@);
    assert(s.len() > 1);
    assert("---"@[1] == '-');
    assert("..."@[0] == '.');
    assert(!starts_with(s, "--- "@)) by {
        if starts_with(s, "--- "@) {
            assert(s.take(4)[1] == ' ');
            assert("--- "@[1] == '-');
        }
    }
    assert(s != "---"@ && s != "..."@);
    lemma_comment_shift(c, 0, Within::Nothing);
    assert(uncommented(c) == c);
    assert(comment_from(c, 0, Within::Nothing) == c.len()) by {
        lemma_comment_bounds(c, 0, Within::Nothing);
    }
    assert(comment_from(s, 0, Within::Nothing) == comment_from(s, 1, Within::Nothing));
    assert(comment_from(s, 1, Within::Nothing) == comment_from(s, 2, Within::Nothing));
    assert(uncommented(s) =~= s);
    assert forall|j: int| 0 <= j < s.len() implies #[trigger] s[j] != '\n' by {
        if j >= 2 {
            assert(s[j] == c[j - 2]);
        }
    }
    assert(!is_space('-'));
}

proof fn lemma_comment_bounds(s: Seq<char>, i: int, w: Within)
    requires
        0 <= i <= s.len(),
    ensures
        i <= comment_from(s, i, w) <= s.len(),
    decreases s.len() - i,
{
    if i < s.len() {
        lemma_comment_bounds(s, i + 1, passed(s[i], w));
    }
}

/// An item with its first pair behind the dash is the mapping of its pairs.
#[verifier::spinoff_prover]
proof fn lemma_one_item(
    read: Reading,
    lines: Seq<LineV>,
    at: int,
    v: ValueV,
    n: int,
    depth: int,
)
    requires
        0 <= n,
        depth <= 255,
        dyn_of(v) is Dict,
        yaml_holdable(read, v, depth + 1),
        rows_stand(lines, at, compact_rows(tree_of(v), n)),
        ends(lines, at + compact_rows(tree_of(v), n).len(), n + 2),
    ensures
        rows_read(compact_rows(tree_of(v), n)),
        compact_rows(tree_of(v), n).len() > 0,
        compact_rows(tree_of(v), n)[0].indent == n,
        is_item(compact_rows(tree_of(v), n)[0].content),
        ({
            let rest = behind_dash(compact_rows(tree_of(v), n)[0].content);
            &&& rest.len() > 0
            &&& is_pair(rest)
            &&& pair_item(read, lines, at, n, rest, depth + 1) == Ok::<(ValueV, int), Seq<char>>(
                (v, at + compact_rows(tree_of(v), n).len()),
            )
        }),
{
    let t = tree_of(v);
    let entries = dyn_of(v)->Dict_0;
    lemma_dict_smaller(v);
    lemma_tree(v);
    lemma_reads_back(read, v, n + 2, depth + 1);
    let rs = rows(t, n + 2);
    lemma_first_row(t, n + 2);
    lemma_rows_indent(t, n + 2);
    let e0 = entries[0];
    assert(e0.0 matches KeyV::Str(k) && key_fits(k));
    let k = e0.0->Str_0;
    let t0 = tree_of(e0.1);
    assert(branches_of(entries)[0] == (k, t0));
    assert(yaml_holdable(read, e0.1, depth + 2));
    lemma_reads_back(read, e0.1, n + 4, depth + 2);
    lemma_pair_row(read, k, scalar_text(t0), e0.1, n + 2, is_block(t0));
    lemma_key_start(k);
    let cr = child_rows(written_key(k) + seq![':'], t0, n + 2);
    assert(rs[0] == cr[0]);
    let c = rs[0].content;
    assert(c[0] == written_key(k)[0]);
    lemma_dash_row(c, n);
    let mine = compact_rows(t, n);
    let below = rs.skip(1);
    assert(rows_stand(lines, at + 1, below)) by {
        assert forall|j: int| 0 <= j < below.len() implies lines[at + 1 + j]
            == #[trigger] below[j] by {
            assert(mine[j + 1] == below[j]);
            assert(lines[at + (j + 1)] == mine[j + 1]);
        }
    }
    assert forall|j: int| 0 <= j < below.len() implies (#[trigger] below[j]).indent >= n + 2 by {
        assert(below[j] == rs[j + 1]);
    }
    lemma_deeper(lines, at + 1, below, n + 2);
    let inner = seq![LineV { indent: n + 2, content: c }] + below;
    assert(inner =~= rs);
    assert forall|j: int| 0 <= j < entries.len() implies reads_back(
        read,
        (#[trigger] entries[j]).1,
        n + 4,
        depth + 2,
    ) by {
        assert(yaml_holdable(read, entries[j].1, depth + 2));
        lemma_reads_back(read, entries[j].1, n + 4, depth + 2);
    }
    assert(entries_read_back(read, entries, n + 2 + 2, depth + 1 + 1));
    assert(rows_stand(rs, 0, pair_rows(branches_of(entries), 0, n + 2)));
    assert(entries.take(0) =~= Seq::empty());
    lemma_mapping(read, rs, 0, entries, 0, n + 2, depth + 1);
    assert forall|j: int| 0 <= j < mine.len() implies row_reads(#[trigger] mine[j]) by {
        if j > 0 {
            assert(mine[j] == rs[j]);
        }
    }
}

proof fn lemma_compact_first(items: Seq<ValueV>, i: int, n: int)
    requires
        0 <= i < items.len(),
    ensures
        compact_items(items, i, n).len() > 0,
        compact_items(items, i, n)[0].indent == n,
{
    let mine = compact_rows(tree_of(items[i]), n);
    assert(compact_items(items, i, n)[0] == mine[0]);
}

#[verifier::spinoff_prover]
proof fn lemma_compact(
    read: Reading,
    lines: Seq<LineV>,
    at: int,
    items: Seq<ValueV>,
    i: int,
    n: int,
    depth: int,
)
    requires
        0 <= i <= items.len(),
        0 <= n,
        depth <= 255,
        mappings(read, items, depth + 1),
        rows_stand(lines, at, compact_items(items, i, n)),
        ends(lines, at + compact_items(items, i, n).len(), n),
    ensures
        rows_read(compact_items(items, i, n)),
        i < items.len() ==> is_item(compact_items(items, i, n)[0].content),
        sequence(read, lines, at, n, depth, items.take(i)) == Ok::<(ValueV, int), Seq<char>>(
            (dlist_v(items), at + compact_items(items, i, n).len()),
        ),
    decreases items.len() - i,
{
    if i < items.len() {
        let v = items[i];
        assert(dyn_of(items[i]) is Dict);
        assert(yaml_holdable(read, items[i], depth + 1));
        let mine = compact_rows(tree_of(v), n);
        let rest = compact_items(items, i + 1, n);
        let all = compact_items(items, i, n);
        let next = at + mine.len();
        assert(all == mine + rest);
        super::yaml_laws::lemma_rows_split(lines, at, mine, rest);
        assert(ends(lines, next, n + 2)) by {
            if i + 1 < items.len() {
                lemma_compact_first(items, i + 1, n);
                assert(lines[next + 0] == rest[0]);
            }
        }
        lemma_one_item(read, lines, at, v, n, depth);
        assert(lines[at + 0] == mine[0]);
        assert(all[0] == mine[0]);
        assert(items.take(i).push(v) =~= items.take(i + 1));
        lemma_compact(read, lines, next, items, i + 1, n, depth);
        assert forall|j: int| 0 <= j < all.len() implies row_reads(#[trigger] all[j]) by {
            if j >= mine.len() {
                assert(all[j] == rest[j - mine.len()]);
            } else {
                assert(all[j] == mine[j]);
            }
        }
    } else {
        assert(items.take(i) =~= items);
    }
}

proof fn lemma_key_start(k: Seq<char>)
    requires
        key_fits(k),
    ensures
        written_key(k)[0] != '#',
        !flows(written_key(k)),
{
    lemma_key(k);
}

/// An item of a sequence that is a mapping may have its first pair behind the dash, and the other
/// pairs below it.
pub proof fn law_yaml_items_may_start_with_a_pair(read: Reading, items: Seq<ValueV>, n: int)
    requires
        0 <= n,
        items.len() > 0,
        mappings(read, items, 1),
    ensures
        yaml_of(read, rows_text(compact_items(items, 0, n), 0)) == Ok::<ValueV, Seq<char>>(
            dlist_v(items),
        ),
{
    let rs = compact_items(items, 0, n);
    assert(rows_stand(rs, 0, rs));
    assert(items.take(0) =~= Seq::empty());
    lemma_compact_first(items, 0, n);
    lemma_compact(read, rs, 0, items, 0, n, 0);
    lemma_document(read, rs, dlist_v(items));
}

// ---------------------------------------------------------------------------
// Scalars
// ---------------------------------------------------------------------------

/// A line of its own that is no item and no pair is a scalar.
proof fn lemma_scalar_line(read: Reading, x: Seq<char>)
    requires
        row_reads(LineV { indent: 0, content: x }),
        !is_item(x),
        colon_of(x) is None,
    ensures
        scalar_of(read, x) matches Ok(v) ==> yaml_of(read, x + seq!['\n']) == Ok::<
            ValueV,
            Seq<char>,
        >(v),
{
    let r = LineV { indent: 0, content: x };
    let rs = seq![r];
    if let Ok(v) = scalar_of(read, x) {
        assert(rs[0] == r);
        assert(rows_read(rs));
        lemma_document(read, rs, v);
        assert(super::yaml_laws::spaces(0) =~= Seq::empty());
        reveal_with_fuel(rows_text, 2);
        assert(rows_text(rs, 0) =~= x + seq!['\n']);
    }
}

/// A text with its single quotes doubled, from the `i`-th character on.
pub open spec fn doubled_from(x: Seq<char>, i: int) -> Seq<char>
    decreases x.len() - i,
{
    if !(0 <= i < x.len()) {
        Seq::empty()
    } else if x[i] == '\'' {
        seq!['\'', '\''] + doubled_from(x, i + 1)
    } else {
        seq![x[i]] + doubled_from(x, i + 1)
    }
}

proof fn lemma_undoubled(s: Seq<char>, pos: int, x: Seq<char>, i: int)
    requires
        0 <= i <= x.len(),
        stands(s, pos, doubled_from(x, i)),
        pos + doubled_from(x, i).len() == s.len(),
    ensures
        undoubled_from(s, pos) == x.skip(i),
    decreases x.len() - i,
{
    if i < x.len() {
        let w = doubled_from(x, i);
        let rest = doubled_from(x, i + 1);
        assert(s[pos + 0] == w[0]);
        if x[i] == '\'' {
            assert(s[pos + 1] == w[1]);
            assert(stands(s, pos + 2, rest)) by {
                assert forall|j: int| 0 <= j < rest.len() implies s[pos + 2 + j]
                    == #[trigger] rest[j] by {
                    assert(s[pos + (j + 2)] == w[j + 2]);
                }
            }
            lemma_undoubled(s, pos + 2, x, i + 1);
            assert(seq!['\''] + x.skip(i + 1) =~= x.skip(i));
        } else {
            assert(stands(s, pos + 1, rest)) by {
                assert forall|j: int| 0 <= j < rest.len() implies s[pos + 1 + j]
                    == #[trigger] rest[j] by {
                    assert(s[pos + (j + 1)] == w[j + 1]);
                }
            }
            lemma_undoubled(s, pos + 1, x, i + 1);
            assert(seq![x[i]] + x.skip(i + 1) =~= x.skip(i));
        }
    } else {
        assert(x.skip(i) =~= Seq::empty());
    }
}

/// Inside single quotes neither a comment nor a pair starts.
proof fn lemma_single_hides(s: Seq<char>, pos: int, x: Seq<char>, i: int)
    requires
        0 <= i <= x.len(),
        0 < pos,
        stands(s, pos, doubled_from(x, i) + seq!['\'']),
        pos + doubled_from(x, i).len() + 1 == s.len(),
        forall|j: int| 0 <= j < x.len() ==> #[trigger] x[j] != '\n',
    ensures
        comment_from(s, pos, Within::Literal) == s.len(),
        colon_from(s, pos, Within::Literal) is None,
        forall|j: int| pos <= j < s.len() ==> #[trigger] s[j] != '\n',
    decreases x.len() - i,
{
    let w = doubled_from(x, i) + seq!['\''];
    assert(s[pos + 0] == w[0]);
    if i < x.len() {
        let rest = doubled_from(x, i + 1) + seq!['\''];
        let step: int = if x[i] == '\'' {
            2
        } else {
            1
        };
        if step == 2 {
            assert(s[pos + 1] == w[1]);
            assert(passed('\'', Within::Literal) == Within::Nothing);
            assert(passed('\'', Within::Nothing) == Within::Literal);
            assert(comment_from(s, pos, Within::Literal) == comment_from(
                s,
                pos + 1,
                Within::Nothing,
            ));
            assert(comment_from(s, pos + 1, Within::Nothing) == comment_from(
                s,
                pos + 2,
                Within::Literal,
            ));
            assert(colon_from(s, pos, Within::Literal) == colon_from(s, pos + 1, Within::Nothing));
            assert(colon_from(s, pos + 1, Within::Nothing) == colon_from(
                s,
                pos + 2,
                Within::Literal,
            ));
        } else {
            assert(passed(x[i], Within::Literal) == Within::Literal);
        }
        assert(stands(s, pos + step, rest)) by {
            assert forall|j: int| 0 <= j < rest.len() implies s[pos + step + j]
                == #[trigger] rest[j] by {
                assert(s[pos + (j + step)] == w[j + step]);
            }
        }
        lemma_single_hides(s, pos + step, x, i + 1);
        assert forall|j: int| pos <= j < s.len() implies #[trigger] s[j] != '\n' by {
            if j < pos + step {
                assert(s[pos + (j - pos)] == w[j - pos]);
            }
        }
    } else {
        assert(w =~= seq!['\'']);
        assert(passed('\'', Within::Literal) == Within::Nothing);
        assert(comment_from(s, pos + 1, Within::Nothing) == s.len());
        assert(colon_from(s, pos + 1, Within::Nothing) is None);
    }
}

/// A text in single quotes, in which its own single quotes are doubled, reads as that text.
pub proof fn law_yaml_reads_single_quotes(read: Reading, x: Seq<char>)
    requires
        forall|j: int| 0 <= j < x.len() ==> #[trigger] x[j] != '\n',
    ensures
        yaml_of(read, seq!['\''] + doubled_from(x, 0) + seq!['\''] + seq!['\n']) == Ok::<
            ValueV,
            Seq<char>,
        >(dstr_v(x)),
{
    let body = doubled_from(x, 0);
    let s = seq!['\''] + body + seq!['\''];
    let rest = body + seq!['\''];
    assert(s =~= seq!['\''] + rest);
    assert(stands(s, 1, rest)) by {
        assert forall|j: int| 0 <= j < rest.len() implies s[1 + j] == #[trigger] rest[j] by {}
    }
    lemma_single_hides(s, 1, x, 0);
    assert(s[0] == '\'' && s.last() == '\'');
    assert(passed('\'', Within::Nothing) == Within::Literal);
    assert(comment_from(s, 0, Within::Nothing) == s.len());
    assert(colon_of(s) is None);
    assert(uncommented(s) =~= s);
    reveal_strlit("-");
    reveal_strlit("- ");
    reveal_strlit("---");
    reveal_strlit("...");
    reveal_strlit("--- ");
    reveal_strlit("~");
    reveal_strlit("null");
    reveal_strlit("true");
    reveal_strlit("false");
    assert("-"@[0] == '-' && "- "@[0] == '-' && "---"@[0] == '-' && "..."@[0] == '.' && "--- "@[0]
        == '-' && "~"@[0] == '~');
    assert(!starts_with(s, "- "@)) by {
        if starts_with(s, "- "@) {
            assert(s.take(2)[0] == '\'');
        }
    }
    assert(!starts_with(s, "--- "@)) by {
        if starts_with(s, "--- "@) {
            assert(s.take(4)[0] == '\'');
        }
    }
    assert(!is_space('\''));
    assert forall|j: int| 0 <= j < s.len() implies #[trigger] s[j] != '\n' by {}
    lemma_trim(Seq::empty(), s, Seq::empty());
    assert(!same_word(s, "null"@)) by {
        assert("null"@[0] == 'n');
        assert(ascii_lower(s[0]) == '\'');
    }
    assert(!same_word(s, "true"@)) by {
        assert("true"@[0] == 't');
        assert(ascii_lower(s[0]) == '\'');
    }
    assert(!same_word(s, "false"@)) by {
        assert("false"@[0] == 'f');
        assert(ascii_lower(s[0]) == '\'');
    }
    assert(s.drop_first() =~= rest);
    let n = rest.len() as int;
    assert(rest[n - 1] == '\'');
    assert(last_quote(rest, n) == Some(n - 1));
    assert(rest.skip(n) =~= Seq::empty());
    assert(trimmed(Seq::<char>::empty()).len() == 0);
    assert(rest.take(n - 1) =~= body);
    assert(stands(body, 0, body));
    lemma_undoubled(body, 0, x, 0);
    assert(x.skip(0) =~= x);
    lemma_scalar_line(read, s);
}

} // verus!
