//! White space in JSON texts.

use super::dynamic::{
    branches_of, ddict_v, dlist_v, dyn_of, lemma_dict_smaller, lemma_list_smaller, lemma_tree,
    tree_of, trees_of, DynV, Tree,
};
use super::json::{
    elements, is_ws, json_of, json_text_by, members, quoted, value_at, ws, FloatText, Reading,
};
use super::json_laws::{ends_at, holdable, lemma_parts, lemma_quoted, lemma_value, stands};
use super::toml_laws::lemma_new_key;
use crate::eval::keys::KeyV;
use crate::eval::value::ValueV;
use vstd::prelude::*;

verus! {

/// White space, or nothing.
pub open spec fn blank(gap: Seq<char>) -> bool {
    forall|i: int|
        0 <= i < gap.len() ==> #[trigger] gap[i] == ' ' || gap[i] == '\t' || gap[i] == '\n'
            || gap[i] == '\r'
}

/// A tree as JSON text with white space between all its parts.
pub open spec fn spaced(float: FloatText, gap: Seq<char>, t: Tree) -> Seq<char>
    decreases t, 0int,
{
    match t {
        Tree::List(items) => seq!['['] + (gap + (spaced_items(float, gap, items, 0) + seq![']'])),
        Tree::Dict(branches) => seq!['{'] + (gap + (spaced_branches(float, gap, branches, 0)
            + seq!['}'])),
        _ => json_text_by(float, t),
    }
}

/// The items from the `i`-th on, each with white space behind it.
pub open spec fn spaced_items(float: FloatText, gap: Seq<char>, items: Seq<Tree>, i: int) -> Seq<char>
    decreases items, items.len() - i,
{
    if !(0 <= i < items.len()) {
        Seq::empty()
    } else if i + 1 == items.len() {
        spaced(float, gap, items[i]) + gap
    } else {
        spaced(float, gap, items[i]) + (gap + (seq![','] + (gap + spaced_items(
            float,
            gap,
            items,
            i + 1,
        ))))
    }
}

/// The members from the `i`-th on, with white space around the colon and behind the value.
pub open spec fn spaced_branches(
    float: FloatText,
    gap: Seq<char>,
    branches: Seq<(Seq<char>, Tree)>,
    i: int,
) -> Seq<char>
    decreases branches, branches.len() - i,
{
    if !(0 <= i < branches.len()) {
        Seq::empty()
    } else {
        quoted(branches[i].0) + (gap + (seq![':'] + (gap + (spaced(float, gap, branches[i].1) + (
        gap + (if i + 1 == branches.len() {
            Seq::empty()
        } else {
            seq![','] + (gap + spaced_branches(float, gap, branches, i + 1))
        }))))))
    }
}

proof fn lemma_gap(s: Seq<char>, pos: int, gap: Seq<char>, k: int)
    requires
        blank(gap),
        0 <= k <= gap.len(),
        stands(s, pos, gap),
        pos + gap.len() < s.len() ==> !is_ws(s[pos + gap.len()]),
    ensures
        ws(s, pos + k) == pos + gap.len(),
    decreases gap.len() - k,
{
    if k < gap.len() {
        assert(s[pos + k] == gap[k]);
        lemma_gap(s, pos, gap, k + 1);
    }
}

/// Wherever a value stands with white space in it, it is read.
spec fn reads(read: Reading, float: FloatText, gap: Seq<char>, v: ValueV, depth: int) -> bool {
    let w = spaced(float, gap, tree_of(v));
    &&& w.len() > 0
    &&& !is_ws(w[0])
    &&& w[0] != ']'
    &&& forall|s: Seq<char>, pos: int|
        stands(s, pos, w) && ends_at(s, pos + w.len()) ==> #[trigger] value_at(read, s, pos, depth)
            == Ok::<(ValueV, int), Seq<char>>((v, pos + w.len()))
}

/// Reading starts at the same place whether or not the white space before it was skipped.
proof fn lemma_skip(read: Reading, s: Seq<char>, pos: int, depth: int)
    ensures
        value_at(read, s, ws(s, pos), depth) == value_at(read, s, pos, depth),
        ws(s, ws(s, pos)) == ws(s, pos),
    decreases s.len() - pos,
{
    lemma_ws_twice(s, pos);
}

proof fn lemma_ws_twice(s: Seq<char>, pos: int)
    ensures
        ws(s, ws(s, pos)) == ws(s, pos),
    decreases s.len() - pos,
{
    if 0 <= pos < s.len() && is_ws(s[pos]) {
        lemma_ws_twice(s, pos + 1);
    }
}

#[verifier::spinoff_prover]
proof fn lemma_items(
    read: Reading,
    float: FloatText,
    gap: Seq<char>,
    items: Seq<ValueV>,
    s: Seq<char>,
    pos: int,
    i: int,
    depth: int,
)
    requires
        blank(gap),
        0 <= depth <= 256,
        0 <= i < items.len(),
        forall|j: int| 0 <= j < items.len() ==> reads(read, float, gap, #[trigger] items[j], depth + 1),
        stands(s, pos, spaced_items(float, gap, trees_of(items), i) + seq![']']),
    ensures
        forall|from: int| #[trigger]
            ws(s, from) == pos && from <= pos ==> elements(read, s, from, depth, items.take(i)) == Ok::<
                (ValueV, int),
                Seq<char>,
            >(
                (
                    dlist_v(items),
                    pos + spaced_items(float, gap, trees_of(items), i).len() + 1,
                ),
            ),
    decreases items.len() - i,
{
    let trees = trees_of(items);
    let v = items[i];
    assert(reads(read, float, gap, items[i], depth + 1));
    assert(trees[i] == tree_of(v));
    let w = spaced(float, gap, tree_of(v));
    let all = spaced_items(float, gap, trees, i) + seq![']'];
    let more = if i + 1 == items.len() {
        seq![']']
    } else {
        seq![','] + (gap + (spaced_items(float, gap, trees, i + 1) + seq![']']))
    };
    assert(all =~= w + (gap + more));
    lemma_parts(s, pos, w, gap + more);
    let q = pos + w.len();
    lemma_parts(s, q, gap, more);
    let e = q + gap.len();
    assert(s[e + 0] == more[0]);
    lemma_gap(s, q, gap, 0);
    assert(ends_at(s, q)) by {
        if gap.len() > 0 {
            assert(s[q + 0] == gap[0]);
        }
    }
    assert(value_at(read, s, pos, depth + 1) == Ok::<(ValueV, int), Seq<char>>((v, q)));
    assert(s[pos + 0] == w[0]);
    assert(items.take(i).push(v) =~= items.take(i + 1));
    if i + 1 < items.len() {
        let tail = spaced_items(float, gap, trees, i + 1) + seq![']'];
        lemma_parts(s, e, seq![','], gap + tail);
        lemma_parts(s, e + 1, gap, tail);
        let next = e + 1 + gap.len();
        assert(trees[i + 1] == tree_of(items[i + 1]));
        let w2 = spaced(float, gap, trees[i + 1]);
        assert(reads(read, float, gap, items[i + 1], depth + 1));
        assert(tail[0] == w2[0]);
        assert(s[next + 0] == tail[0]);
        lemma_gap(s, e + 1, gap, 0);
        lemma_items(read, float, gap, items, s, next, i + 1, depth);
        assert(ws(s, e + 1) == next);
    } else {
        assert(items.take(i + 1) =~= items);
    }
    assert forall|from: int| #[trigger] ws(s, from) == pos && from <= pos implies elements(
        read,
        s,
        from,
        depth,
        items.take(i),
    ) == Ok::<(ValueV, int), Seq<char>>(
        (dlist_v(items), pos + spaced_items(float, gap, trees, i).len() + 1),
    ) by {
        lemma_skip(read, s, from, depth + 1);
    }
}

/// A member with white space in it, and what follows it.
spec fn member_text(
    float: FloatText,
    gap: Seq<char>,
    k: Seq<char>,
    v: ValueV,
    more: Seq<char>,
) -> Seq<char> {
    quoted(k) + (gap + (seq![':'] + (gap + (spaced(float, gap, tree_of(v)) + (gap + more)))))
}

/// Where what follows a member starts.
spec fn member_len(float: FloatText, gap: Seq<char>, k: Seq<char>, v: ValueV) -> nat {
    quoted(k).len() + gap.len() + 1 + gap.len() + spaced(float, gap, tree_of(v)).len() + gap.len()
}

#[verifier::spinoff_prover]
proof fn lemma_member(
    read: Reading,
    float: FloatText,
    gap: Seq<char>,
    k: Seq<char>,
    v: ValueV,
    more: Seq<char>,
    s: Seq<char>,
    pos: int,
    depth: int,
)
    requires
        blank(gap),
        0 <= depth <= 256,
        reads(read, float, gap, v, depth + 1),
        stands(s, pos, member_text(float, gap, k, v, more)),
        more.len() > 0,
        more[0] == ',' || more[0] == '}',
    ensures
        stands(s, pos + member_len(float, gap, k, v), more),
        s[pos] == '"',
        pos < s.len(),
        ({
            let e = pos + member_len(float, gap, k, v);
            let w = spaced(float, gap, tree_of(v));
            let p0 = pos + quoted(k).len();
            let p2 = p0 + gap.len() + 1;
            let p3 = p2 + gap.len();
            &&& super::json::string_rest(s, pos + 1, Seq::empty()) == Ok::<
                (Seq<char>, int),
                Seq<char>,
            >((k, p0))
            &&& ws(s, p0) == p2 - 1
            &&& p2 - 1 < s.len()
            &&& s[p2 - 1] == ':'
            &&& ws(s, p2) == p3
            &&& value_at(read, s, p3, depth + 1) == Ok::<(ValueV, int), Seq<char>>(
                (v, p3 + w.len()),
            )
            &&& ws(s, p3 + w.len()) == e
            &&& e < s.len()
            &&& s[e] == more[0]
        }),
{
    let key = quoted(k);
    let w = spaced(float, gap, tree_of(v));
    let r4 = gap + more;
    let r3 = w + r4;
    let r2 = gap + r3;
    let r1 = seq![':'] + r2;
    let r0 = gap + r1;
    lemma_parts(s, pos, key, r0);
    let p0 = pos + key.len();
    lemma_parts(s, p0, gap, r1);
    let p1 = p0 + gap.len();
    lemma_parts(s, p1, seq![':'], r2);
    let p2 = p1 + 1;
    lemma_parts(s, p2, gap, r3);
    let p3 = p2 + gap.len();
    lemma_parts(s, p3, w, r4);
    let p4 = p3 + w.len();
    lemma_parts(s, p4, gap, more);
    let e = p4 + gap.len();
    lemma_quoted(s, pos, k);
    assert(s[p1 + 0] == seq![':'][0]);
    assert(s[p3 + 0] == w[0]);
    assert(s[e + 0] == more[0]);
    lemma_gap(s, p0, gap, 0);
    lemma_gap(s, p2, gap, 0);
    lemma_gap(s, p4, gap, 0);
    assert(ends_at(s, p4)) by {
        if gap.len() > 0 {
            assert(s[p4 + 0] == gap[0]);
        }
    }
}

#[verifier::spinoff_prover]
proof fn lemma_member_step(
    read: Reading,
    float: FloatText,
    gap: Seq<char>,
    k: Seq<char>,
    v: ValueV,
    more: Seq<char>,
    s: Seq<char>,
    from: int,
    pos: int,
    depth: int,
    before: Seq<(KeyV, ValueV)>,
)
    requires
        blank(gap),
        0 <= depth <= 256,
        reads(read, float, gap, v, depth + 1),
        stands(s, pos, member_text(float, gap, k, v, more)),
        more.len() > 0,
        more[0] == ',' || more[0] == '}',
        ws(s, from) == pos,
        from <= pos,
    ensures
        stands(s, pos + member_len(float, gap, k, v), more),
        ({
            let e = pos + member_len(float, gap, k, v);
            let after = crate::eval::value::inserted(before, KeyV::Str(k), v);
            members(read, s, from, depth, before) == (if more[0] == ',' {
                members(read, s, e + 1, depth, after)
            } else {
                Ok::<(ValueV, int), Seq<char>>((ddict_v(after), e + 1))
            })
        }),
{
    lemma_member(read, float, gap, k, v, more, s, pos, depth);
}

/// What follows a member of `entries`.
spec fn after_branch(
    float: FloatText,
    gap: Seq<char>,
    b: Seq<(Seq<char>, Tree)>,
    i: int,
) -> Seq<char> {
    if i + 1 == b.len() {
        seq!['}']
    } else {
        seq![','] + (gap + (spaced_branches(float, gap, b, i + 1) + seq!['}']))
    }
}

#[verifier::spinoff_prover]
proof fn lemma_branch_text(
    float: FloatText,
    gap: Seq<char>,
    b: Seq<(Seq<char>, Tree)>,
    i: int,
    v: ValueV,
)
    requires
        0 <= i < b.len(),
        b[i].1 == tree_of(v),
    ensures
        spaced_branches(float, gap, b, i) + seq!['}'] == member_text(
            float,
            gap,
            b[i].0,
            v,
            after_branch(float, gap, b, i),
        ),
        spaced_branches(float, gap, b, i).len() + 1 == member_len(float, gap, b[i].0, v)
            + after_branch(float, gap, b, i).len(),
        quoted(b[i].0)[0] == '"',
        (spaced_branches(float, gap, b, i) + seq!['}'])[0] == '"',
{
    let end = seq!['}'];
    let t = if i + 1 == b.len() {
        Seq::empty()
    } else {
        seq![','] + (gap + spaced_branches(float, gap, b, i + 1))
    };
    assert(t + end =~= after_branch(float, gap, b, i));
    let w = spaced(float, gap, b[i].1);
    let t1 = gap + t;
    let t2 = w + t1;
    let t3 = gap + t2;
    let t4 = seq![':'] + t3;
    let t5 = gap + t4;
    let t6 = quoted(b[i].0) + t5;
    assert(t1 + end =~= gap + (t + end));
    assert(t2 + end =~= w + (t1 + end));
    assert(t3 + end =~= gap + (t2 + end));
    assert(t4 + end =~= seq![':'] + (t3 + end));
    assert(t5 + end =~= gap + (t4 + end));
    assert(t6 + end =~= quoted(b[i].0) + (t5 + end));
    assert(spaced_branches(float, gap, b, i) == t6);
    assert(quoted(b[i].0)[0] == '"');
}

#[verifier::spinoff_prover]
proof fn lemma_branches(
    read: Reading,
    float: FloatText,
    gap: Seq<char>,
    entries: Seq<(KeyV, ValueV)>,
    s: Seq<char>,
    from: int,
    pos: int,
    i: int,
    depth: int,
)
    requires
        blank(gap),
        0 <= depth <= 256,
        0 <= i < entries.len(),
        crate::eval::value::distinct_keys(entries),
        forall|j: int|
            0 <= j < entries.len() ==> (#[trigger] entries[j]).0 is Str && reads(
                read,
                float,
                gap,
                entries[j].1,
                depth + 1,
            ),
        stands(s, pos, spaced_branches(float, gap, branches_of(entries), i) + seq!['}']),
        ws(s, from) == pos,
        from <= pos,
    ensures
        members(read, s, from, depth, entries.take(i)) == Ok::<(ValueV, int), Seq<char>>(
            (
                ddict_v(entries),
                pos + spaced_branches(float, gap, branches_of(entries), i).len() + 1,
            ),
        ),
    decreases entries.len() - i,
{
    let b = branches_of(entries);
    let v = entries[i].1;
    let k = entries[i].0->Str_0;
    assert(entries[i].0 is Str && reads(read, float, gap, entries[i].1, depth + 1));
    assert(b[i] == (k, tree_of(v)));
    let more = after_branch(float, gap, b, i);
    lemma_branch_text(float, gap, b, i, v);
    lemma_member_step(read, float, gap, k, v, more, s, from, pos, depth, entries.take(i));
    let e = pos + member_len(float, gap, k, v);
    lemma_new_key(entries, i);
    if i + 1 < entries.len() {
        let tail = spaced_branches(float, gap, b, i + 1) + seq!['}'];
        lemma_parts(s, e, seq![','], gap + tail);
        lemma_parts(s, e + 1, gap, tail);
        let next = e + 1 + gap.len();
        assert(b[i + 1].1 == tree_of(entries[i + 1].1));
        lemma_branch_text(float, gap, b, i + 1, entries[i + 1].1);
        assert(s[next + 0] == tail[0]);
        lemma_gap(s, e + 1, gap, 0);
        lemma_branches(read, float, gap, entries, s, e + 1, next, i + 1, depth);
    } else {
        assert(entries.take(i + 1) =~= entries);
    }
}

#[verifier::spinoff_prover]
#[verifier::rlimit(60)]
proof fn lemma_reads_list(
    read: Reading,
    float: FloatText,
    gap: Seq<char>,
    v: ValueV,
    items: Seq<ValueV>,
    depth: int,
)
    requires
        blank(gap),
        0 <= depth <= 256,
        dyn_of(v) == DynV::List(items),
        v == dlist_v(items),
        forall|j: int| 0 <= j < items.len() ==> reads(read, float, gap, #[trigger] items[j], depth + 1),
    ensures
        reads(read, float, gap, v, depth),
{
    let w = spaced(float, gap, tree_of(v));
    lemma_tree(v);
    let trees = trees_of(items);
    let body = spaced_items(float, gap, trees, 0) + seq![']'];
    assert(w =~= seq!['['] + (gap + body));
    assert forall|s: Seq<char>, pos: int|
        stands(s, pos, w) && ends_at(s, pos + w.len()) implies #[trigger] value_at(
        read,
        s,
        pos,
        depth,
    ) == Ok::<(ValueV, int), Seq<char>>((v, pos + w.len())) by {
        lemma_parts(s, pos, seq!['['], gap + body);
        lemma_parts(s, pos + 1, gap, body);
        assert(s[pos + 0] == seq!['['][0]);
        let at = pos + 1 + gap.len();
        assert(s[at + 0] == body[0]);
        if items.len() == 0 {
            assert(items =~= Seq::empty());
            lemma_gap(s, pos + 1, gap, 0);
        } else {
            assert(trees[0] == tree_of(items[0]));
            assert(reads(read, float, gap, items[0], depth + 1));
            assert(body[0] == spaced(float, gap, trees[0])[0]);
            lemma_gap(s, pos + 1, gap, 0);
            assert(items.take(0) =~= Seq::empty());
            lemma_items(read, float, gap, items, s, at, 0, depth);
            assert(ws(s, at) == at);
        }
    }
}

#[verifier::spinoff_prover]
#[verifier::rlimit(60)]
proof fn lemma_reads_dict(
    read: Reading,
    float: FloatText,
    gap: Seq<char>,
    v: ValueV,
    entries: Seq<(KeyV, ValueV)>,
    depth: int,
)
    requires
        blank(gap),
        0 <= depth <= 256,
        dyn_of(v) == DynV::Dict(entries),
        v == ddict_v(entries),
        crate::eval::value::distinct_keys(entries),
        forall|j: int|
            0 <= j < entries.len() ==> (#[trigger] entries[j]).0 is Str && reads(
                read,
                float,
                gap,
                entries[j].1,
                depth + 1,
            ),
    ensures
        reads(read, float, gap, v, depth),
{
    let w = spaced(float, gap, tree_of(v));
    lemma_tree(v);
    let b = branches_of(entries);
    let body = spaced_branches(float, gap, b, 0) + seq!['}'];
    assert(w =~= seq!['{'] + (gap + body));
    assert forall|s: Seq<char>, pos: int|
        stands(s, pos, w) && ends_at(s, pos + w.len()) implies #[trigger] value_at(
        read,
        s,
        pos,
        depth,
    ) == Ok::<(ValueV, int), Seq<char>>((v, pos + w.len())) by {
        lemma_parts(s, pos, seq!['{'], gap + body);
        lemma_parts(s, pos + 1, gap, body);
        assert(s[pos + 0] == seq!['{'][0]);
        let at = pos + 1 + gap.len();
        assert(s[at + 0] == body[0]);
        if entries.len() == 0 {
            assert(entries =~= Seq::empty());
            lemma_gap(s, pos + 1, gap, 0);
        } else {
            assert(quoted(b[0].0)[0] == '"');
            assert(body[0] == quoted(b[0].0)[0]);
            lemma_gap(s, pos + 1, gap, 0);
            assert(entries.take(0) =~= Seq::empty());
            assert(ws(s, at) == at);
            lemma_branches(read, float, gap, entries, s, at, at, 0, depth);
        }
    }
}

proof fn lemma_reads(read: Reading, float: FloatText, gap: Seq<char>, v: ValueV, depth: int)
    requires
        blank(gap),
        0 <= depth,
        holdable(read, float, v, depth),
    ensures
        reads(read, float, gap, v, depth),
    decreases v,
{
    match dyn_of(v) {
        DynV::List(items) => {
            lemma_list_smaller(v);
            assert forall|j: int| 0 <= j < items.len() implies reads(
                read,
                float,
                gap,
                #[trigger] items[j],
                depth + 1,
            ) by {
                assert(holdable(read, float, items[j], depth + 1));
                lemma_reads(read, float, gap, items[j], depth + 1);
            }
            lemma_reads_list(read, float, gap, v, items, depth);
        },
        DynV::Dict(entries) => {
            lemma_dict_smaller(v);
            assert forall|j: int| 0 <= j < entries.len() implies (#[trigger] entries[j]).0 is Str
                && reads(read, float, gap, entries[j].1, depth + 1) by {
                assert(holdable(read, float, entries[j].1, depth + 1));
                lemma_reads(read, float, gap, entries[j].1, depth + 1);
            }
            lemma_reads_dict(read, float, gap, v, entries, depth);
        },
        _ => {
            lemma_reads_scalar(read, float, gap, v, depth);
        },
    }
}

proof fn lemma_reads_scalar(read: Reading, float: FloatText, gap: Seq<char>, v: ValueV, depth: int)
    requires
        0 <= depth,
        holdable(read, float, v, depth),
        !(dyn_of(v) is List),
        !(dyn_of(v) is Dict),
    ensures
        reads(read, float, gap, v, depth),
{
    lemma_tree(v);
    let w = spaced(float, gap, tree_of(v));
    assert(w == json_text_by(float, tree_of(v)));
    assert(stands(w, 0, w));
    lemma_value(read, float, v, w, 0, depth);
    assert forall|s: Seq<char>, pos: int|
        stands(s, pos, w) && ends_at(s, pos + w.len()) implies #[trigger] value_at(
        read,
        s,
        pos,
        depth,
    ) == Ok::<(ValueV, int), Seq<char>>((v, pos + w.len())) by {
        lemma_value(read, float, v, s, pos, depth);
    }
}

/// White space between the parts of a JSON text, before it and behind it, means nothing.
pub proof fn law_json_white_space_means_nothing(
    read: Reading,
    float: FloatText,
    gap: Seq<char>,
    v: ValueV,
)
    requires
        blank(gap),
        holdable(read, float, v, 0),
    ensures
        json_of(read, gap + (spaced(float, gap, tree_of(v)) + gap)) == Ok::<ValueV, Seq<char>>(v),
{
    let w = spaced(float, gap, tree_of(v));
    let s = gap + (w + gap);
    lemma_reads(read, float, gap, v, 0);
    assert(stands(s, 0, s));
    lemma_parts(s, 0, gap, w + gap);
    lemma_parts(s, gap.len() as int, w, gap);
    let at = gap.len() as int;
    assert(s[at + 0] == w[0]);
    lemma_gap(s, 0, gap, 0);
    assert(ends_at(s, at + w.len())) by {
        if gap.len() > 0 {
            assert(s[at + w.len() + 0] == gap[0]);
        }
    }
    assert(value_at(read, s, at, 0) == Ok::<(ValueV, int), Seq<char>>((v, at + w.len())));
    lemma_gap(s, at + w.len(), gap, 0);
}

/// Anything but white space behind a JSON value is refused.
pub proof fn law_json_values_stand_alone(
    read: Reading,
    float: FloatText,
    gap: Seq<char>,
    v: ValueV,
    rest: Seq<char>,
)
    requires
        blank(gap),
        gap.len() > 0,
        holdable(read, float, v, 0),
        rest.len() > 0,
        !blank(rest.take(1)),
    ensures
        json_of(read, spaced(float, gap, tree_of(v)) + (gap + rest)) is Err,
{
    let w = spaced(float, gap, tree_of(v));
    let s = w + (gap + rest);
    lemma_reads(read, float, gap, v, 0);
    assert(stands(s, 0, s));
    lemma_parts(s, 0, w, gap + rest);
    lemma_parts(s, w.len() as int, gap, rest);
    assert(s[0int + 0] == w[0]);
    assert(s[w.len() as int + 0] == gap[0]);
    let e = w.len() as int + gap.len();
    assert(s[e + 0] == rest[0]);
    assert(!is_ws(rest[0])) by {
        if is_ws(rest[0]) {
            assert(blank(rest.take(1)));
        }
    }
    lemma_gap(s, w.len() as int, gap, 0);
    assert(value_at(read, s, 0, 0) == Ok::<(ValueV, int), Seq<char>>((v, 0int + w.len())));
}

} // verus!
