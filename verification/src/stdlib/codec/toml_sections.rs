//! Where the entries of TOML documents are found: sections, elements of arrays, dotted keys; and
//! comments.

use super::dynamic::{branches_of, ddict_v, dlist_v, tree_of};
use super::json::Reading;
use super::json_laws::{lemma_parts, stands};
use super::toml::{
    appended, bare_keys_from, brackets_from, comment_from, document_from, equals_from, finished,
    finished_entries, inline_text, inside, line_read, logical_from, passed, path_of, put,
    root_lines, segments_from, toml_of, uncommented, written_key, DocV, GoalV, Within,
};
use super::toml_laws::{
    at_rest, bare, calm, entries_fit, entry_text, entry_texts, key_fits, lemma_calm_join,
    lemma_calm_loose, lemma_calm_no_line_end, lemma_calm_wrapped, lemma_entry, lemma_key,
    lemma_lines, lemma_logical, lemma_new_key, lemma_reads_back, lemma_trim, reads_back, scanned,
    tame, toml_holdable,
};
use super::yaml_comments::unquoted;
use crate::eval::keys::KeyV;
use crate::eval::value::{has_key, inserted, key_index, looked_up, ValueV};
use crate::text::{chomped, is_space, lines_of, trimmed};
use crate::text_laws::{
    ends_line, lemma_lines_around, lemma_lines_first, lemma_lines_join, one_line,
};
use vstd::prelude::*;
use vstd::string::*;

verus! {

// ---------------------------------------------------------------------------
// Paths
// ---------------------------------------------------------------------------

/// The keys of a path from the `i`-th on, with dots between them.
pub open spec fn dotted(path: Seq<Seq<char>>, i: int) -> Seq<char>
    decreases path.len() - i,
{
    if !(0 <= i < path.len()) {
        Seq::empty()
    } else if i + 1 == path.len() {
        written_key(path[i])
    } else {
        written_key(path[i]) + seq!['.'] + dotted(path, i + 1)
    }
}

/// A path whose keys can be written.
pub open spec fn path_fits(path: Seq<Seq<char>>) -> bool {
    path.len() > 0 && forall|i: int| 0 <= i < path.len() ==> key_fits(#[trigger] path[i])
}

/// Scanning a key in a text goes past it.
proof fn lemma_segment_within(
    s: Seq<char>,
    pos: int,
    p: Seq<char>,
    j: int,
    w: Within,
    part: Seq<char>,
    out: Seq<Seq<char>>,
)
    requires
        stands(s, pos, p),
        0 <= j <= p.len(),
        tame(p, j, w),
    ensures
        segments_from(s, pos + j, w, part, out) == segments_from(
            s,
            pos + p.len(),
            Within::Nothing,
            part + p.skip(j),
            out,
        ),
    decreases p.len() - j,
{
    if j < p.len() {
        assert(s[pos + j] == p[j]);
        lemma_segment_within(s, pos, p, j + 1, passed(p[j], w), part.push(p[j]), out);
        assert(part.push(p[j]) + p.skip(j + 1) =~= part + p.skip(j));
    } else {
        assert(part + p.skip(j) =~= part);
    }
}

spec fn written_path(path: Seq<Seq<char>>) -> Seq<Seq<char>> {
    Seq::new(path.len(), |i: int| written_key(path[i]))
}

proof fn lemma_segments(s: Seq<char>, pos: int, path: Seq<Seq<char>>, i: int, out: Seq<Seq<char>>)
    requires
        path_fits(path),
        0 <= i < path.len(),
        stands(s, pos, dotted(path, i)),
        pos + dotted(path, i).len() == s.len(),
    ensures
        segments_from(s, pos, Within::Nothing, Seq::empty(), out) == out + written_path(path).skip(
            i,
        ),
    decreases path.len() - i,
{
    let k = path[i];
    assert(key_fits(k));
    lemma_key(k);
    let w = written_key(k);
    let nothing = Seq::<char>::empty();
    lemma_trim(nothing, w, nothing);
    assert(nothing + w.skip(0) =~= w);
    assert(written_path(path)[i] == w);
    if i + 1 == path.len() {
        lemma_segment_within(s, pos, w, 0, Within::Nothing, nothing, out);
        assert(out.push(w) =~= out + written_path(path).skip(i));
    } else {
        let rest = dotted(path, i + 1);
        assert(dotted(path, i) =~= w + (seq!['.'] + rest));
        lemma_parts(s, pos, w, seq!['.'] + rest);
        lemma_parts(s, pos + w.len(), seq!['.'], rest);
        lemma_segment_within(s, pos, w, 0, Within::Nothing, nothing, out);
        assert(s[pos + w.len() + 0] == seq!['.'][0]);
        lemma_segments(s, pos + w.len() + 1, path, i + 1, out.push(w));
        assert(out.push(w) + written_path(path).skip(i + 1) =~= out + written_path(path).skip(i));
    }
}

proof fn lemma_bare_keys(path: Seq<Seq<char>>, i: int, out: Seq<Seq<char>>)
    requires
        path_fits(path),
        0 <= i <= path.len(),
    ensures
        bare_keys_from(written_path(path), i, out) == Ok::<Seq<Seq<char>>, Seq<char>>(
            out + path.skip(i),
        ),
    decreases path.len() - i,
{
    if i < path.len() {
        assert(key_fits(path[i]));
        lemma_key(path[i]);
        lemma_bare_keys(path, i + 1, out.push(path[i]));
        assert(out.push(path[i]) + path.skip(i + 1) =~= out + path.skip(i));
    } else {
        assert(out + path.skip(i) =~= out);
    }
}

proof fn lemma_dotted(path: Seq<Seq<char>>, i: int)
    requires
        path_fits(path),
        0 <= i < path.len(),
    ensures
        bare(dotted(path, i)),
        dotted(path, i)[0] != '[',
        calm(dotted(path, i), 0, at_rest(), false),
    decreases path.len() - i,
{
    assert(key_fits(path[i]));
    lemma_key(path[i]);
    let w = written_key(path[i]);
    if i + 1 < path.len() {
        lemma_dotted(path, i + 1);
        let rest = dotted(path, i + 1);
        let dot = seq!['.'];
        assert(calm(dot, 0, at_rest(), false)) by {
            assert(scanned('.', at_rest()) == at_rest());
            assert(calm(dot, 1, at_rest(), false));
        }
        lemma_calm_join(w, dot, false);
        lemma_calm_join(w + dot, rest, false);
        assert(dotted(path, i)[0] == w[0]);
        assert(dotted(path, i).last() == rest.last());
    }
}

proof fn lemma_path_of(path: Seq<Seq<char>>)
    requires
        path_fits(path),
    ensures
        path_of(dotted(path, 0)) == Ok::<Seq<Seq<char>>, Seq<char>>(path),
{
    let s = dotted(path, 0);
    let none = Seq::<Seq<char>>::empty();
    assert(stands(s, 0, s));
    lemma_segments(s, 0, path, 0, none);
    assert(none + written_path(path).skip(0) =~= written_path(path));
    lemma_bare_keys(path, 0, none);
    assert(none + path.skip(0) =~= path);
}

// ---------------------------------------------------------------------------
// Headers and entries
// ---------------------------------------------------------------------------

/// The header of a table.
pub open spec fn table_header(path: Seq<Seq<char>>) -> Seq<char> {
    seq!['['] + dotted(path, 0) + seq![']']
}

/// The header of another element of an array of tables.
pub open spec fn element_header(path: Seq<Seq<char>>) -> Seq<char> {
    seq!['['] + (seq!['['] + dotted(path, 0) + seq![']']) + seq![']']
}

/// The lines of some entries, one below the other.
pub open spec fn entry_lines(entries: Seq<(KeyV, ValueV)>) -> Seq<char> {
    root_lines(branches_of(entries), 0)
}

/// A header and the entries below it.
pub open spec fn section(header: Seq<char>, entries: Seq<(KeyV, ValueV)>) -> Seq<char> {
    header + seq!['\n'] + entry_lines(entries)
}

/// Entries that TOML can hold.
pub open spec fn entries_hold(read: Reading, entries: Seq<(KeyV, ValueV)>) -> bool {
    &&& entries_fit(entries)
    &&& forall|i: int| 0 <= i < entries.len() ==> toml_holdable(read, (#[trigger] entries[i]).1, 0)
}

/// `ts` are lines that stand for themselves.
spec fn whole_lines(ts: Seq<Seq<char>>) -> bool {
    forall|j: int| 0 <= j < ts.len() ==> bare(#[trigger] ts[j]) && calm(ts[j], 0, at_rest(), true)
}

proof fn lemma_headers(path: Seq<Seq<char>>)
    requires
        path_fits(path),
    ensures
        bare(table_header(path)),
        calm(table_header(path), 0, at_rest(), true),
        bare(element_header(path)),
        calm(element_header(path), 0, at_rest(), true),
        one_line(table_header(path)),
        one_line(element_header(path)),
{
    lemma_dotted(path, 0);
    let d = dotted(path, 0);
    lemma_calm_loose(d, 0, at_rest());
    lemma_calm_wrapped('[', d, ']');
    let t = table_header(path);
    lemma_calm_loose(t, 0, at_rest());
    lemma_calm_wrapped('[', t, ']');
    let e = element_header(path);
    lemma_calm_loose(e, 0, at_rest());
    assert(t[0] == '[' && t.last() == ']');
    assert(e[0] == '[' && e.last() == ']');
    assert(!is_space('[') && !is_space(']'));
    lemma_calm_no_line_end(t, 0, at_rest(), true);
    lemma_calm_no_line_end(e, 0, at_rest(), true);
}

proof fn lemma_entry_lines(read: Reading, entries: Seq<(KeyV, ValueV)>)
    requires
        entries_hold(read, entries),
    ensures
        lines_of(entry_lines(entries)) == entry_texts(entries),
        whole_lines(entry_texts(entries)),
        forall|j: int| 0 <= j < entries.len() ==> reads_back(read, (#[trigger] entries[j]).1, 0),
{
    assert forall|j: int| 0 <= j < entries.len() implies reads_back(
        read,
        (#[trigger] entries[j]).1,
        0,
    ) by {
        lemma_reads_back(read, entries[j].1, 0);
    }
    assert forall|j: int| 0 <= j < entries.len() implies bare(entry_text(#[trigger] entries[j]))
        && calm(entry_text(entries[j]), 0, at_rest(), true) by {
        assert(entries[j].0 matches KeyV::Str(k) && key_fits(k));
        lemma_entry(read, entries[j], 0);
    }
    let s = entry_lines(entries);
    let none = Seq::<Seq<char>>::empty();
    assert(stands(s, 0, s));
    lemma_lines(s, 0, entries, 0, none);
    assert(none + entry_texts(entries).skip(0) =~= entry_texts(entries));
}

proof fn lemma_section_lines(
    read: Reading,
    before: Seq<char>,
    header: Seq<char>,
    entries: Seq<(KeyV, ValueV)>,
)
    requires
        ends_line(before),
        entries_hold(read, entries),
        bare(header),
        calm(header, 0, at_rest(), true),
        one_line(header),
    ensures
        lines_of(before + section(header, entries)) == lines_of(before) + (seq![header]
            + entry_texts(entries)),
        whole_lines(seq![header] + entry_texts(entries)),
{
    lemma_entry_lines(read, entries);
    let z = seq!['\n'] + entry_lines(entries);
    assert(section(header, entries) =~= header + z);
    assert(z.drop_first() =~= entry_lines(entries));
    lemma_lines_join(before, section(header, entries));
    lemma_lines_first(header, z);
    assert(is_space('\r'));
    assert(chomped(header) == header);
}

/// Lines that stand for themselves follow the logical lines before them.
proof fn lemma_logical_follow(
    ls: Seq<Seq<char>>,
    ts: Seq<Seq<char>>,
    i: int,
    buffer: Seq<char>,
    depth: int,
    out: Seq<Seq<char>>,
)
    requires
        0 <= i <= ls.len(),
        whole_lines(ts),
        depth == 0 ==> buffer.len() == 0,
        logical_from(ls, i, buffer, depth, out) is Ok,
    ensures
        logical_from(ls + ts, i, buffer, depth, out) == Ok::<Seq<Seq<char>>, Seq<char>>(
            logical_from(ls, i, buffer, depth, out)->Ok_0 + ts,
        ),
    decreases ls.len() - i,
{
    let all = ls + ts;
    if i < ls.len() {
        assert(all[i] == ls[i]);
        let part = uncommented(ls[i]);
        let next = depth + brackets_from(part, 0, Within::Nothing);
        if trimmed(part).len() == 0 && depth == 0 {
            lemma_logical_follow(ls, ts, i + 1, buffer, depth, out);
        } else if next == 0 {
            lemma_logical_follow(
                ls,
                ts,
                i + 1,
                Seq::empty(),
                0,
                out.push(appended(buffer, trimmed(part))),
            );
        } else if next > 0 {
            lemma_logical_follow(ls, ts, i + 1, appended(buffer, trimmed(part)), next, out);
        }
    } else {
        assert(buffer =~= Seq::empty());
        lemma_logical_shift(ls, ts, 0, out);
        assert(ts.skip(0) =~= ts);
    }
}

proof fn lemma_logical_shift(ls: Seq<Seq<char>>, ts: Seq<Seq<char>>, j: int, out: Seq<Seq<char>>)
    requires
        0 <= j <= ts.len(),
        whole_lines(ts),
    ensures
        logical_from(ls + ts, ls.len() + j, Seq::empty(), 0, out) == Ok::<
            Seq<Seq<char>>,
            Seq<char>,
        >(out + ts.skip(j)),
    decreases ts.len() - j,
{
    let nothing = Seq::<char>::empty();
    if j < ts.len() {
        let t = ts[j];
        assert((ls + ts)[ls.len() + j] == t);
        assert(bare(t));
        lemma_logical(seq![t], 0, out);
        super::toml_laws::lemma_calm_comment(t, 0, at_rest(), true);
        assert(uncommented(t) =~= t);
        super::toml_laws::lemma_calm_brackets(t, 0, at_rest(), true);
        lemma_trim(nothing, t, nothing);
        assert(appended(nothing, t) == t);
        lemma_logical_shift(ls, ts, j + 1, out.push(t));
        assert(out.push(t) + ts.skip(j + 1) =~= out + ts.skip(j));
    } else {
        assert(trimmed(nothing).len() == 0);
        assert(out + ts.skip(j) =~= out);
    }
}

/// The state behind all logical lines from the `i`-th on.
spec fn state_behind(read: Reading, ls: Seq<Seq<char>>, i: int, doc: DocV) -> Result<
    DocV,
    Seq<char>,
>
    decreases ls.len() - i,
{
    if !(0 <= i < ls.len()) {
        Ok(doc)
    } else {
        match line_read(read, doc, ls[i]) {
            Ok(next) => state_behind(read, ls, i + 1, next),
            Err(m) => Err(m),
        }
    }
}

proof fn lemma_document_state(read: Reading, ls: Seq<Seq<char>>, i: int, doc: DocV)
    ensures
        document_from(read, ls, i, doc) == match state_behind(read, ls, i, doc) {
            Ok(d) => Ok::<ValueV, Seq<char>>(ddict_v(finished_entries(d.root))),
            Err(m) => Err(m),
        },
    decreases ls.len() - i,
{
    if 0 <= i < ls.len() {
        match line_read(read, doc, ls[i]) {
            Ok(next) => {
                lemma_document_state(read, ls, i + 1, next);
            },
            Err(_) => {},
        }
    }
}

proof fn lemma_state_follow(
    read: Reading,
    ls: Seq<Seq<char>>,
    ts: Seq<Seq<char>>,
    i: int,
    doc: DocV,
)
    requires
        0 <= i <= ls.len(),
        state_behind(read, ls, i, doc) is Ok,
    ensures
        state_behind(read, ls + ts, i, doc) == state_behind(
            read,
            ts,
            0,
            state_behind(read, ls, i, doc)->Ok_0,
        ),
    decreases ls.len() - i,
{
    if i < ls.len() {
        assert((ls + ts)[i] == ls[i]);
        lemma_state_follow(read, ls, ts, i + 1, line_read(read, doc, ls[i])->Ok_0);
    } else {
        lemma_state_shift(read, ls, ts, 0, doc);
    }
}

proof fn lemma_state_shift(
    read: Reading,
    ls: Seq<Seq<char>>,
    ts: Seq<Seq<char>>,
    j: int,
    doc: DocV,
)
    requires
        0 <= j <= ts.len(),
    ensures
        state_behind(read, ls + ts, ls.len() + j, doc) == state_behind(read, ts, j, doc),
    decreases ts.len() - j,
{
    if j < ts.len() {
        assert((ls + ts)[ls.len() + j] == ts[j]);
        match line_read(read, doc, ts[j]) {
            Ok(next) => {
                lemma_state_shift(read, ls, ts, j + 1, next);
            },
            Err(_) => {},
        }
    }
}

spec fn new_doc() -> DocV {
    DocV { root: Seq::empty(), current: Seq::empty() }
}

/// The state behind a text.
spec fn state_of(read: Reading, s: Seq<char>) -> DocV {
    state_behind(
        read,
        logical_from(lines_of(s), 0, Seq::empty(), 0, Seq::empty())->Ok_0,
        0,
        new_doc(),
    )->Ok_0
}

/// What a text comes to when lines that stand for themselves follow.
proof fn lemma_follow(read: Reading, before: Seq<char>, whole: Seq<char>, ts: Seq<Seq<char>>)
    requires
        toml_of(read, before) is Ok,
        lines_of(whole) == lines_of(before) + ts,
        whole_lines(ts),
    ensures
        toml_of(read, before) == Ok::<ValueV, Seq<char>>(
            ddict_v(finished_entries(state_of(read, before).root)),
        ),
        toml_of(read, whole) == match state_behind(read, ts, 0, state_of(read, before)) {
            Ok(d) => Ok::<ValueV, Seq<char>>(ddict_v(finished_entries(d.root))),
            Err(m) => Err(m),
        },
        state_behind(read, ts, 0, state_of(read, before)) matches Ok(d) ==> state_of(read, whole)
            == d,
{
    let nothing = Seq::<char>::empty();
    let none = Seq::<Seq<char>>::empty();
    let ls = logical_from(lines_of(before), 0, nothing, 0, none)->Ok_0;
    lemma_logical_follow(lines_of(before), ts, 0, nothing, 0, none);
    lemma_document_state(read, ls, 0, new_doc());
    lemma_document_state(read, ls + ts, 0, new_doc());
    lemma_state_follow(read, ls, ts, 0, new_doc());
}

// ---------------------------------------------------------------------------
// Lines read
// ---------------------------------------------------------------------------

proof fn lemma_header_read(read: Reading, doc: DocV, path: Seq<Seq<char>>)
    requires
        path_fits(path),
    ensures
        line_read(read, doc, table_header(path)) == match put(doc.root, path, 0, GoalV::Table) {
            Ok(root) => Ok::<DocV, Seq<char>>(DocV { root, current: path }),
            Err(m) => Err(m),
        },
        line_read(read, doc, element_header(path)) == match put(
            doc.root,
            path,
            0,
            GoalV::Element,
        ) {
            Ok(root) => Ok::<DocV, Seq<char>>(DocV { root, current: path }),
            Err(m) => Err(m),
        },
{
    lemma_dotted(path, 0);
    lemma_headers(path);
    lemma_path_of(path);
    let d = dotted(path, 0);
    let nothing = Seq::<char>::empty();
    let t = table_header(path);
    let e = element_header(path);
    lemma_trim(nothing, t, nothing);
    lemma_trim(nothing, e, nothing);
    lemma_trim(nothing, d, nothing);
    assert(t[0] == '[' && t[1] == d[0]);
    assert(inside(t) =~= d);
    assert(e[0] == '[' && e[1] == '[');
    assert(e[e.len() - 1] == ']' && e[e.len() - 2] == ']');
    assert(e.subrange(2, e.len() - 2) =~= d);
}

proof fn lemma_entry_read(read: Reading, doc: DocV, e: (KeyV, ValueV))
    requires
        e.0 matches KeyV::Str(k) && key_fits(k),
        reads_back(read, e.1, 0),
    ensures
        line_read(read, doc, entry_text(e)) == match put(
            doc.root,
            doc.current.push(e.0->Str_0),
            0,
            GoalV::Leaf(e.1),
        ) {
            Ok(root) => Ok::<DocV, Seq<char>>(DocV { root, current: doc.current }),
            Err(m) => Err(m),
        },
{
    let k = e.0->Str_0;
    let t = entry_text(e);
    lemma_entry(read, e, 0);
    lemma_key(k);
    lemma_trim(Seq::empty(), t, Seq::empty());
    lemma_trim(Seq::empty(), inline_text(tree_of(e.1)), Seq::empty());
    assert(doc.current + seq![k] =~= doc.current.push(k));
}

// ---------------------------------------------------------------------------
// Tables inside tables
// ---------------------------------------------------------------------------

/// Tables inside each other, one for each key of a path from the `i`-th on, and the entries in the
/// innermost one.
pub open spec fn nest(path: Seq<Seq<char>>, i: int, entries: Seq<(KeyV, ValueV)>) -> ValueV
    decreases path.len() - i,
{
    if !(0 <= i < path.len()) {
        ddict_v(entries)
    } else {
        ddict_v(seq![(KeyV::Str(path[i]), nest(path, i + 1, entries))])
    }
}

/// The same before the document is finished.
spec fn raw_nest(path: Seq<Seq<char>>, i: int, entries: Seq<(KeyV, ValueV)>) -> Seq<(KeyV, ValueV)>
    decreases path.len() - i,
{
    if !(0 <= i < path.len()) {
        entries
    } else {
        seq![(KeyV::Str(path[i]), ValueV::Dict(raw_nest(path, i + 1, entries)))]
    }
}

proof fn lemma_one(k: KeyV, v: ValueV)
    ensures
        has_key(seq![(k, v)], k),
        looked_up(seq![(k, v)], k) == Some(v),
        forall|w: ValueV| #[trigger] inserted(seq![(k, v)], k, w) == seq![(k, w)],
{
    let es = seq![(k, v)];
    assert(es[0].0 == k);
    assert(has_key(es, k));
    assert(key_index(es, k) == 0);
    assert forall|w: ValueV| #[trigger] inserted(es, k, w) == seq![(k, w)] by {
        assert(es.update(0, (k, w)) =~= seq![(k, w)]);
    }
}

proof fn lemma_nothing(k: KeyV)
    ensures
        looked_up(Seq::empty(), k) is None,
        forall|w: ValueV| #[trigger] inserted(Seq::empty(), k, w) == seq![(k, w)],
{
    let none = Seq::<(KeyV, ValueV)>::empty();
    assert(!has_key(none, k));
    assert forall|w: ValueV| #[trigger] inserted(none, k, w) == seq![(k, w)] by {
        assert(none.push((k, w)) =~= seq![(k, w)]);
    }
}

/// A new last entry.
proof fn lemma_last(root: Seq<(KeyV, ValueV)>, k: KeyV, v: ValueV)
    requires
        !has_key(root, k),
    ensures
        has_key(root.push((k, v)), k),
        looked_up(root.push((k, v)), k) == Some(v),
        forall|w: ValueV| #[trigger]
            inserted(root.push((k, v)), k, w) == root.push((k, w)),
{
    let es = root.push((k, v));
    let n = root.len() as int;
    assert(es[n].0 == k);
    assert(has_key(es, k));
    let i = key_index(es, k);
    if i != n {
        assert(root[i].0 == k);
    }
    assert forall|w: ValueV| #[trigger] inserted(es, k, w) == root.push((k, w)) by {
        assert(es.update(n, (k, w)) =~= root.push((k, w)));
    }
}

proof fn lemma_put_new(path: Seq<Seq<char>>, i: int)
    requires
        0 <= i < path.len(),
    ensures
        put(Seq::empty(), path, i, GoalV::Table) == Ok::<Seq<(KeyV, ValueV)>, Seq<char>>(
            raw_nest(path, i, Seq::empty()),
        ),
    decreases path.len() - i,
{
    let none = Seq::<(KeyV, ValueV)>::empty();
    lemma_nothing(KeyV::Str(path[i]));
    reveal_with_fuel(raw_nest, 2);
    if i + 1 < path.len() {
        lemma_put_new(path, i + 1);
    }
}

proof fn lemma_put_inner(
    path: Seq<Seq<char>>,
    i: int,
    entries: Seq<(KeyV, ValueV)>,
    k: Seq<char>,
    v: ValueV,
)
    requires
        0 <= i <= path.len(),
        !has_key(entries, KeyV::Str(k)),
    ensures
        put(raw_nest(path, i, entries), path.push(k), i, GoalV::Leaf(v)) == Ok::<
            Seq<(KeyV, ValueV)>,
            Seq<char>,
        >(raw_nest(path, i, entries.push((KeyV::Str(k), v)))),
    decreases path.len() - i,
{
    let p = path.push(k);
    if i < path.len() {
        assert(p[i] == path[i]);
        lemma_put_inner(path, i + 1, entries, k, v);
        lemma_one(KeyV::Str(path[i]), ValueV::Dict(raw_nest(path, i + 1, entries)));
    } else {
        assert(p[i] == k);
    }
}

/// Below the header of a new table the entries go there, one by one.
proof fn lemma_section_state(
    read: Reading,
    root: Seq<(KeyV, ValueV)>,
    path: Seq<Seq<char>>,
    entries: Seq<(KeyV, ValueV)>,
    j: int,
)
    requires
        path_fits(path),
        entries_hold(read, entries),
        forall|i: int| 0 <= i < entries.len() ==> reads_back(read, (#[trigger] entries[i]).1, 0),
        !has_key(root, KeyV::Str(path[0])),
        0 <= j <= entries.len(),
    ensures
        state_behind(
            read,
            entry_texts(entries),
            j,
            DocV {
                root: root.push(
                    (KeyV::Str(path[0]), ValueV::Dict(raw_nest(path, 1, entries.take(j)))),
                ),
                current: path,
            },
        ) == Ok::<DocV, Seq<char>>(
            DocV {
                root: root.push((KeyV::Str(path[0]), ValueV::Dict(raw_nest(path, 1, entries)))),
                current: path,
            },
        ),
    decreases entries.len() - j,
{
    let key = KeyV::Str(path[0]);
    let held = raw_nest(path, 1, entries.take(j));
    let doc = DocV { root: root.push((key, ValueV::Dict(held))), current: path };
    if j < entries.len() {
        let e = entries[j];
        assert(e.0 matches KeyV::Str(k) && key_fits(k));
        let k = e.0->Str_0;
        lemma_entry_read(read, doc, e);
        lemma_new_key(entries, j);
        lemma_last(root, key, ValueV::Dict(held));
        lemma_put_inner(path, 1, entries.take(j), k, e.1);
        assert(path.push(k)[0] == path[0]);
        assert(entries.take(j).push((KeyV::Str(k), e.1)) =~= entries.take(j + 1));
        lemma_section_state(read, root, path, entries, j + 1);
    } else {
        assert(entries.take(j) =~= entries);
    }
}

proof fn lemma_finished_nest(
    read: Reading,
    path: Seq<Seq<char>>,
    i: int,
    entries: Seq<(KeyV, ValueV)>,
)
    requires
        0 <= i <= path.len(),
        entries_hold(read, entries),
    ensures
        finished(ValueV::Dict(raw_nest(path, i, entries))) == nest(path, i, entries),
    decreases path.len() - i,
{
    let raw = raw_nest(path, i, entries);
    assert(finished(ValueV::Dict(raw)) == ddict_v(finished_entries(raw))) by {
        lemma_finished(raw);
    }
    if i < path.len() {
        lemma_finished_nest(read, path, i + 1, entries);
        assert(finished_entries(raw) =~= seq![(KeyV::Str(path[i]), nest(path, i + 1, entries))]);
    } else {
        lemma_finished_entries(read, entries);
    }
}

proof fn lemma_finished(raw: Seq<(KeyV, ValueV)>)
    ensures
        finished(ValueV::Dict(raw)) == ddict_v(finished_entries(raw)),
{
    let v = finished(ValueV::Dict(raw));
    assert(v == ddict_v(v->Enum_fields[0]->Dict_0));
    assert(v->Enum_fields[0]->Dict_0 =~= finished_entries(raw));
}

proof fn lemma_finished_entries(read: Reading, entries: Seq<(KeyV, ValueV)>)
    requires
        entries_hold(read, entries),
    ensures
        finished_entries(entries) == entries,
{
    assert(finished_entries(entries) =~= entries) by {
        assert forall|j: int| 0 <= j < entries.len() implies finished_entries(entries)[j]
            == #[trigger] entries[j] by {
            assert(toml_holdable(read, entries[j].1, 0));
            assert(finished(entries[j].1) == entries[j].1);
        }
    }
}

proof fn lemma_same_keys(root: Seq<(KeyV, ValueV)>, k: KeyV)
    ensures
        has_key(finished_entries(root), k) == has_key(root, k),
{
    let f = finished_entries(root);
    if has_key(root, k) {
        let i = choose|i: int| 0 <= i < root.len() && (#[trigger] root[i]).0 == k;
        assert(f[i].0 == k);
    }
    if has_key(f, k) {
        let i = choose|i: int| 0 <= i < f.len() && (#[trigger] f[i]).0 == k;
        assert(root[i].0 == k);
    }
}

/// Dynamic tables are the same just where their entries are.
proof fn lemma_table_entries(a: Seq<(KeyV, ValueV)>, b: Seq<(KeyV, ValueV)>)
    requires
        ddict_v(a) == ddict_v(b),
    ensures
        a == b,
{
    assert(ddict_v(a)->Enum_fields[0] == ValueV::Dict(a));
    assert(ddict_v(b)->Enum_fields[0] == ValueV::Dict(b));
}

/// A header names its table from the root, whatever sections came before: the entries below it
/// are found in tables inside each other, one for each key of the path, of which the outermost is
/// a new entry of the root. What the text before it came to stays.
pub proof fn law_toml_sections_stand_at_the_root(
    read: Reading,
    before: Seq<char>,
    held: Seq<(KeyV, ValueV)>,
    path: Seq<Seq<char>>,
    entries: Seq<(KeyV, ValueV)>,
)
    requires
        ends_line(before),
        toml_of(read, before) == Ok::<ValueV, Seq<char>>(ddict_v(held)),
        path_fits(path),
        !has_key(held, KeyV::Str(path[0])),
        entries_hold(read, entries),
    ensures
        toml_of(read, before + section(table_header(path), entries)) == Ok::<ValueV, Seq<char>>(
            ddict_v(held.push((KeyV::Str(path[0]), nest(path, 1, entries)))),
        ),
{
    let header = table_header(path);
    let whole = before + section(header, entries);
    let ts = seq![header] + entry_texts(entries);
    lemma_headers(path);
    lemma_entry_lines(read, entries);
    lemma_section_lines(read, before, header, entries);
    lemma_follow(read, before, whole, ts);
    let doc = state_of(read, before);
    let root = doc.root;
    let key = KeyV::Str(path[0]);
    lemma_table_entries(finished_entries(root), held);
    lemma_same_keys(root, key);
    lemma_header_read(read, doc, path);
    let none = Seq::<(KeyV, ValueV)>::empty();
    reveal_with_fuel(raw_nest, 2);
    assert(put(root, path, 0, GoalV::Table) == Ok::<Seq<(KeyV, ValueV)>, Seq<char>>(
        root.push((key, ValueV::Dict(raw_nest(path, 1, none)))),
    )) by {
        if path.len() > 1 {
            lemma_put_new(path, 1);
        }
    }
    let next = DocV {
        root: root.push((key, ValueV::Dict(raw_nest(path, 1, none)))),
        current: path,
    };
    assert(ts[0] == header);
    assert(line_read(read, doc, ts[0]) == Ok::<DocV, Seq<char>>(next));
    lemma_state_shift(read, seq![header], entry_texts(entries), 0, next);
    assert(entries.take(0) =~= none);
    lemma_section_state(read, root, path, entries, 0);
    lemma_finished_nest(read, path, 1, entries);
    let last = root.push((key, ValueV::Dict(raw_nest(path, 1, entries))));
    assert(finished_entries(last) =~= held.push((key, nest(path, 1, entries))));
}

proof fn lemma_sub_state(
    read: Reading,
    root: Seq<(KeyV, ValueV)>,
    top: Seq<char>,
    first: Seq<(KeyV, ValueV)>,
    rest: Seq<Seq<char>>,
    entries: Seq<(KeyV, ValueV)>,
    j: int,
)
    requires
        key_fits(top),
        path_fits(rest),
        entries_hold(read, entries),
        forall|i: int| 0 <= i < entries.len() ==> reads_back(read, (#[trigger] entries[i]).1, 0),
        !has_key(root, KeyV::Str(top)),
        !has_key(first, KeyV::Str(rest[0])),
        0 <= j <= entries.len(),
    ensures
        state_behind(
            read,
            entry_texts(entries),
            j,
            DocV {
                root: sub_root(root, top, first, rest, entries.take(j)),
                current: seq![top] + rest,
            },
        ) == Ok::<DocV, Seq<char>>(
            DocV {
                root: sub_root(root, top, first, rest, entries),
                current: seq![top] + rest,
            },
        ),
    decreases entries.len() - j,
{
    let path = seq![top] + rest;
    let key = KeyV::Str(top);
    let sub = KeyV::Str(rest[0]);
    let held = ValueV::Dict(raw_nest(rest, 1, entries.take(j)));
    let doc = DocV { root: sub_root(root, top, first, rest, entries.take(j)), current: path };
    if j < entries.len() {
        let e = entries[j];
        assert(e.0 matches KeyV::Str(k) && key_fits(k));
        let k = e.0->Str_0;
        lemma_entry_read(read, doc, e);
        lemma_new_key(entries, j);
        let after = entries.take(j).push((KeyV::Str(k), e.1));
        assert(after =~= entries.take(j + 1));
        lemma_last(root, key, ValueV::Dict(first.push((sub, held))));
        lemma_last(first, sub, held);
        lemma_put_inner(rest, 1, entries.take(j), k, e.1);
        let p = path.push(k);
        let q = rest.push(k);
        assert(p =~= seq![top] + q);
        lemma_put_shift(raw_nest(rest, 1, entries.take(j)), top, q, 1, GoalV::Leaf(e.1));
        assert(p[0] == top && p[1] == rest[0]);
        assert(put(first.push((sub, held)), p, 1, GoalV::Leaf(e.1)) == Ok::<
            Seq<(KeyV, ValueV)>,
            Seq<char>,
        >(first.push((sub, ValueV::Dict(raw_nest(rest, 1, after))))));
        lemma_sub_state(read, root, top, first, rest, entries, j + 1);
    } else {
        assert(entries.take(j) =~= entries);
    }
}

/// The root with a table that holds entries and then tables inside each other.
spec fn sub_root(
    root: Seq<(KeyV, ValueV)>,
    top: Seq<char>,
    first: Seq<(KeyV, ValueV)>,
    rest: Seq<Seq<char>>,
    entries: Seq<(KeyV, ValueV)>,
) -> Seq<(KeyV, ValueV)> {
    root.push(
        (
            KeyV::Str(top),
            ValueV::Dict(first.push((KeyV::Str(rest[0]), ValueV::Dict(raw_nest(rest, 1, entries))))),
        ),
    )
}

/// What is put below the first key of a path does not depend on that key.
proof fn lemma_put_shift(
    table: Seq<(KeyV, ValueV)>,
    top: Seq<char>,
    q: Seq<Seq<char>>,
    i: int,
    goal: GoalV,
)
    requires
        0 <= i < q.len(),
    ensures
        put(table, seq![top] + q, i + 1, goal) == put(table, q, i, goal),
    decreases q.len() - i,
{
    let p = seq![top] + q;
    assert(p[i + 1] == q[i]);
    if i + 1 < q.len() {
        lemma_put_shift(Seq::empty(), top, q, i + 1, goal);
        match looked_up(table, KeyV::Str(q[i])) {
            Some(ValueV::Dict(inner)) => {
                lemma_put_shift(inner, top, q, i + 1, goal);
            },
            Some(ValueV::List(items)) => {
                if items.len() > 0 && items.last() is Dict {
                    lemma_put_shift(items.last()->Dict_0, top, q, i + 1, goal);
                }
            },
            _ => {},
        }
    }
}

/// A header whose path starts with a table that is there already names a table inside that one,
/// behind the entries that it has.
pub proof fn law_toml_subsections_stand_in_their_table(
    read: Reading,
    before: Seq<char>,
    held: Seq<(KeyV, ValueV)>,
    top: Seq<char>,
    first: Seq<(KeyV, ValueV)>,
    rest: Seq<Seq<char>>,
    entries: Seq<(KeyV, ValueV)>,
)
    requires
        ends_line(before),
        toml_of(read, before) == Ok::<ValueV, Seq<char>>(ddict_v(held)),
        key_fits(top),
        !has_key(held, KeyV::Str(top)),
        entries_hold(read, first),
        path_fits(rest),
        !has_key(first, KeyV::Str(rest[0])),
        entries_hold(read, entries),
    ensures
        toml_of(
            read,
            before + section(table_header(seq![top]), first) + section(
                table_header(seq![top] + rest),
                entries,
            ),
        ) == Ok::<ValueV, Seq<char>>(
            ddict_v(
                held.push(
                    (
                        KeyV::Str(top),
                        ddict_v(first.push((KeyV::Str(rest[0]), nest(rest, 1, entries)))),
                    ),
                ),
            ),
        ),
{
    let one = seq![top];
    let path = one + rest;
    let key = KeyV::Str(top);
    let sub = KeyV::Str(rest[0]);
    let none = Seq::<(KeyV, ValueV)>::empty();
    assert(one[0] == top);
    assert(path_fits(one));
    assert(path_fits(path)) by {
        assert forall|i: int| 0 <= i < path.len() implies key_fits(#[trigger] path[i]) by {
            if i > 0 {
                assert(path[i] == rest[i - 1]);
            }
        }
    }
    let h1 = table_header(one);
    let h2 = table_header(path);
    let t1 = seq![h1] + entry_texts(first);
    let t2 = seq![h2] + entry_texts(entries);
    let middle = before + section(h1, first);
    let whole = middle + section(h2, entries);
    lemma_headers(one);
    lemma_headers(path);
    lemma_entry_lines(read, first);
    lemma_entry_lines(read, entries);
    lemma_section_lines(read, before, h1, first);
    lemma_follow(read, before, middle, t1);
    let doc = state_of(read, before);
    let root = doc.root;
    lemma_table_entries(finished_entries(root), held);
    lemma_same_keys(root, key);
    reveal_with_fuel(raw_nest, 2);
    lemma_header_read(read, doc, one);
    let next = DocV { root: root.push((key, ValueV::Dict(none))), current: one };
    assert(t1[0] == h1);
    assert(line_read(read, doc, h1) == Ok::<DocV, Seq<char>>(next));
    lemma_state_shift(read, seq![h1], entry_texts(first), 0, next);
    assert(first.take(0) =~= none);
    lemma_section_state(read, root, one, first, 0);
    let half = DocV { root: root.push((key, ValueV::Dict(first))), current: one };
    assert(state_of(read, middle) == half);
    // The second section.
    lemma_ends(h1, first);
    lemma_section_lines(read, middle, h2, entries);
    lemma_follow(read, middle, whole, t2);
    lemma_header_read(read, half, path);
    lemma_last(root, key, ValueV::Dict(first));
    assert(path[0] == top && path[1] == rest[0]);
    let begun = sub_root(root, top, first, rest, none);
    assert(put(half.root, path, 0, GoalV::Table) == Ok::<Seq<(KeyV, ValueV)>, Seq<char>>(begun))
        by {
        lemma_put_shift(first, top, rest, 0, GoalV::Table);
        if rest.len() > 1 {
            lemma_put_new(rest, 1);
        }
    }
    let opened = DocV { root: begun, current: path };
    assert(t2[0] == h2);
    lemma_state_shift(read, seq![h2], entry_texts(entries), 0, opened);
    assert(entries.take(0) =~= none);
    lemma_sub_state(read, root, top, first, rest, entries, 0);
    // The values.
    let raw = first.push((sub, ValueV::Dict(raw_nest(rest, 1, entries))));
    lemma_finished_nest(read, rest, 1, entries);
    lemma_finished_entries(read, first);
    lemma_finished(raw);
    assert(finished_entries(raw) =~= first.push((sub, nest(rest, 1, entries))));
    assert(finished_entries(sub_root(root, top, first, rest, entries)) =~= held.push(
        (key, ddict_v(first.push((sub, nest(rest, 1, entries))))),
    ));
}

proof fn lemma_entry_lines_end(branches: Seq<(Seq<char>, super::dynamic::Tree)>, i: int)
    ensures
        root_lines(branches, i).len() == 0 || root_lines(branches, i).last() == '\n',
    decreases branches.len() - i,
{
    if 0 <= i < branches.len() {
        lemma_entry_lines_end(branches, i + 1);
        reveal_strlit("\n");
        assert("\n"@.last() == '\n');
    }
}

proof fn lemma_ends(header: Seq<char>, entries: Seq<(KeyV, ValueV)>)
    ensures
        forall|before: Seq<char>| ends_line(#[trigger] (before + section(header, entries))),
{
    lemma_entry_lines_end(branches_of(entries), 0);
}

// ---------------------------------------------------------------------------
// Arrays of tables
// ---------------------------------------------------------------------------

/// Sections with the same header for an element, one for each group of entries from the `i`-th on.
pub open spec fn element_sections(key: Seq<char>, groups: Seq<Seq<(KeyV, ValueV)>>) -> Seq<char>
    decreases groups.len(),
{
    if groups.len() == 0 {
        Seq::empty()
    } else {
        element_sections(key, groups.drop_last()) + section(
            element_header(seq![key]),
            groups.last(),
        )
    }
}

spec fn raw_elements(groups: Seq<Seq<(KeyV, ValueV)>>) -> Seq<ValueV> {
    Seq::new(groups.len(), |i: int| ValueV::Dict(groups[i]))
}

proof fn lemma_element_state(
    read: Reading,
    root: Seq<(KeyV, ValueV)>,
    key: Seq<char>,
    items: Seq<ValueV>,
    entries: Seq<(KeyV, ValueV)>,
    j: int,
)
    requires
        key_fits(key),
        entries_hold(read, entries),
        forall|i: int| 0 <= i < entries.len() ==> reads_back(read, (#[trigger] entries[i]).1, 0),
        !has_key(root, KeyV::Str(key)),
        0 <= j <= entries.len(),
    ensures
        state_behind(
            read,
            entry_texts(entries),
            j,
            DocV {
                root: root.push(
                    (KeyV::Str(key), ValueV::List(items.push(ValueV::Dict(entries.take(j))))),
                ),
                current: seq![key],
            },
        ) == Ok::<DocV, Seq<char>>(
            DocV {
                root: root.push((KeyV::Str(key), ValueV::List(items.push(ValueV::Dict(entries))))),
                current: seq![key],
            },
        ),
    decreases entries.len() - j,
{
    let name = KeyV::Str(key);
    let held = items.push(ValueV::Dict(entries.take(j)));
    let doc = DocV { root: root.push((name, ValueV::List(held))), current: seq![key] };
    if j < entries.len() {
        let e = entries[j];
        assert(e.0 matches KeyV::Str(k) && key_fits(k));
        let k = e.0->Str_0;
        lemma_entry_read(read, doc, e);
        lemma_new_key(entries, j);
        let after = entries.take(j + 1);
        assert(entries.take(j).push((KeyV::Str(k), e.1)) =~= after);
        lemma_last(root, name, ValueV::List(held));
        let p = seq![key].push(k);
        assert(p[0] == key && p[1] == k);
        assert(held.last() == ValueV::Dict(entries.take(j)));
        assert(held.drop_last() =~= items);
        assert(put(entries.take(j), p, 1, GoalV::Leaf(e.1)) == Ok::<
            Seq<(KeyV, ValueV)>,
            Seq<char>,
        >(after));
        lemma_element_state(read, root, key, items, entries, j + 1);
    } else {
        assert(entries.take(j) =~= entries);
    }
}

proof fn lemma_elements(
    read: Reading,
    before: Seq<char>,
    held: Seq<(KeyV, ValueV)>,
    key: Seq<char>,
    groups: Seq<Seq<(KeyV, ValueV)>>,
)
    requires
        ends_line(before),
        toml_of(read, before) == Ok::<ValueV, Seq<char>>(ddict_v(held)),
        key_fits(key),
        !has_key(held, KeyV::Str(key)),
        forall|i: int| 0 <= i < groups.len() ==> entries_hold(read, #[trigger] groups[i]),
    ensures
        ({
            let whole = before + element_sections(key, groups);
            let root = state_of(read, before).root;
            &&& ends_line(whole)
            &&& toml_of(read, whole) is Ok
            &&& finished_entries(root) == held
            &&& state_of(read, whole).root == if groups.len() == 0 {
                root
            } else {
                root.push((KeyV::Str(key), ValueV::List(raw_elements(groups))))
            }
            &&& toml_of(read, whole) == Ok::<ValueV, Seq<char>>(
                ddict_v(finished_entries(state_of(read, whole).root)),
            )
        }),
    decreases groups.len(),
{
    let one = seq![key];
    let name = KeyV::Str(key);
    let none = Seq::<(KeyV, ValueV)>::empty();
    assert(one[0] == key);
    assert(path_fits(one));
    let root = state_of(read, before).root;
    assert(lines_of(before) + Seq::<Seq<char>>::empty() =~= lines_of(before));
    lemma_follow(read, before, before, Seq::empty());
    lemma_table_entries(finished_entries(root), held);
    lemma_same_keys(root, name);
    if groups.len() == 0 {
        assert(before + element_sections(key, groups) =~= before);
    } else {
        let less = groups.drop_last();
        let entries = groups.last();
        assert(entries_hold(read, groups[groups.len() - 1]));
        lemma_elements(read, before, held, key, less);
        let middle = before + element_sections(key, less);
        let h = element_header(one);
        let whole = middle + section(h, entries);
        assert(before + element_sections(key, groups) =~= whole);
        lemma_headers(one);
        lemma_entry_lines(read, entries);
        lemma_section_lines(read, middle, h, entries);
        let ts = seq![h] + entry_texts(entries);
        lemma_follow(read, middle, whole, ts);
        lemma_ends(h, entries);
        let doc = state_of(read, middle);
        lemma_header_read(read, doc, one);
        let items = raw_elements(less);
        let empty = ValueV::Dict(none);
        assert(put(doc.root, one, 0, GoalV::Element) == Ok::<Seq<(KeyV, ValueV)>, Seq<char>>(
            root.push((name, ValueV::List(items.push(empty)))),
        )) by {
            if less.len() == 0 {
                assert(items.push(empty) =~= seq![empty]);
            } else {
                lemma_last(root, name, ValueV::List(items));
            }
        }
        let next = DocV {
            root: root.push((name, ValueV::List(items.push(empty)))),
            current: one,
        };
        assert(ts[0] == h);
        lemma_state_shift(read, seq![h], entry_texts(entries), 0, next);
        assert(entries.take(0) =~= none);
        lemma_element_state(read, root, key, items, entries, 0);
        assert(items.push(ValueV::Dict(entries)) =~= raw_elements(groups));
    }
}

/// Each header of an element of an array starts another table: sections with the same header come
/// to an array with a table for each, in their order, at the root.
pub proof fn law_toml_elements_make_up_an_array(
    read: Reading,
    before: Seq<char>,
    held: Seq<(KeyV, ValueV)>,
    key: Seq<char>,
    groups: Seq<Seq<(KeyV, ValueV)>>,
)
    requires
        ends_line(before),
        toml_of(read, before) == Ok::<ValueV, Seq<char>>(ddict_v(held)),
        key_fits(key),
        !has_key(held, KeyV::Str(key)),
        groups.len() > 0,
        forall|i: int| 0 <= i < groups.len() ==> entries_hold(read, #[trigger] groups[i]),
    ensures
        toml_of(read, before + element_sections(key, groups)) == Ok::<ValueV, Seq<char>>(
            ddict_v(
                held.push(
                    (
                        KeyV::Str(key),
                        dlist_v(Seq::new(groups.len(), |i: int| ddict_v(groups[i]))),
                    ),
                ),
            ),
        ),
{
    lemma_elements(read, before, held, key, groups);
    let root = state_of(read, before).root;
    let items = raw_elements(groups);
    let tables = Seq::new(groups.len(), |i: int| ddict_v(groups[i]));
    let v = finished(ValueV::List(items));
    assert(v == dlist_v(tables)) by {
        assert(v == dlist_v(v->Enum_fields[0]->List_0));
        let got = v->Enum_fields[0]->List_0;
        assert(got.len() == tables.len());
        assert forall|i: int| 0 <= i < tables.len() implies got[i] == tables[i] by {
            assert(items[i] == ValueV::Dict(groups[i]));
            assert(entries_hold(read, groups[i]));
            lemma_finished(groups[i]);
            lemma_finished_entries(read, groups[i]);
        }
        assert(got =~= tables);
    }
    assert(finished_entries(root.push((KeyV::Str(key), ValueV::List(items)))) =~= held.push(
        (KeyV::Str(key), dlist_v(tables)),
    ));
}

// ---------------------------------------------------------------------------
// Dotted keys
// ---------------------------------------------------------------------------

proof fn lemma_dotted_equals(s: Seq<char>, pos: int, path: Seq<Seq<char>>, i: int)
    requires
        path_fits(path),
        0 <= i < path.len(),
        stands(s, pos, dotted(path, i)),
    ensures
        equals_from(s, pos, Within::Nothing) == equals_from(
            s,
            pos + dotted(path, i).len(),
            Within::Nothing,
        ),
    decreases path.len() - i,
{
    assert(key_fits(path[i]));
    lemma_key(path[i]);
    let w = written_key(path[i]);
    if i + 1 == path.len() {
        lemma_equals_within(s, pos, w, 0, Within::Nothing);
    } else {
        let rest = dotted(path, i + 1);
        assert(dotted(path, i) =~= w + (seq!['.'] + rest));
        lemma_parts(s, pos, w, seq!['.'] + rest);
        lemma_parts(s, pos + w.len(), seq!['.'], rest);
        lemma_equals_within(s, pos, w, 0, Within::Nothing);
        assert(s[pos + w.len() + 0] == seq!['.'][0]);
        assert(passed('.', Within::Nothing) == Within::Nothing);
        lemma_dotted_equals(s, pos + w.len() + 1, path, i + 1);
    }
}

proof fn lemma_equals_within(s: Seq<char>, pos: int, p: Seq<char>, j: int, w: Within)
    requires
        stands(s, pos, p),
        0 <= j <= p.len(),
        tame(p, j, w),
    ensures
        equals_from(s, pos + j, w) == equals_from(s, pos + p.len(), Within::Nothing),
    decreases p.len() - j,
{
    if j < p.len() {
        assert(s[pos + j] == p[j]);
        lemma_equals_within(s, pos, p, j + 1, passed(p[j], w));
    }
}

/// A dotted key and its value.
pub open spec fn dotted_entry(path: Seq<Seq<char>>, v: ValueV) -> Seq<char> {
    dotted(path, 0) + " = "@ + inline_text(tree_of(v))
}

proof fn lemma_put_leaf(path: Seq<Seq<char>>, i: int, v: ValueV)
    requires
        0 <= i < path.len(),
    ensures
        put(Seq::empty(), path, i, GoalV::Leaf(v)) == Ok::<Seq<(KeyV, ValueV)>, Seq<char>>(
            raw_nest(path.drop_last(), i, seq![(KeyV::Str(path.last()), v)]),
        ),
    decreases path.len() - i,
{
    lemma_nothing(KeyV::Str(path[i]));
    if i + 1 < path.len() {
        lemma_put_leaf(path, i + 1, v);
        assert(path.drop_last()[i] == path[i]);
    }
}

/// A dotted key at the start of a document is found under its path, in tables inside each other.
pub proof fn law_toml_dotted_keys_are_paths(read: Reading, path: Seq<Seq<char>>, v: ValueV)
    requires
        path_fits(path),
        toml_holdable(read, v, 0),
    ensures
        toml_of(read, dotted_entry(path, v)) == Ok::<ValueV, Seq<char>>(
            nest(path.drop_last(), 0, seq![(KeyV::Str(path.last()), v)]),
        ),
{
    lemma_reads_back(read, v, 0);
    lemma_dotted(path, 0);
    lemma_path_of(path);
    let w = dotted(path, 0);
    let x = inline_text(tree_of(v));
    let t = dotted_entry(path, v);
    reveal_strlit(" = ");
    let mid = " = "@;
    assert(mid =~= seq![' ', '=', ' ']);
    let at = w.len() as int + 1;
    assert(t =~= w + (mid + x));
    assert(t[0] == w[0]);
    assert(t.last() == x.last());
    assert(stands(t, 0, w)) by {
        assert forall|j: int| 0 <= j < w.len() implies t[0 + j] == #[trigger] w[j] by {}
    }
    lemma_dotted_equals(t, 0, path, 0);
    assert(t[w.len() as int] == ' ');
    assert(t[at] == '=');
    assert(passed(' ', Within::Nothing) == Within::Nothing);
    assert(equals_from(t, w.len() as int, Within::Nothing) == equals_from(t, at, Within::Nothing));
    assert(equals_from(t, 0, Within::Nothing) == Some(at));
    assert(t.take(at) =~= Seq::<char>::empty() + w + seq![' ']);
    lemma_trim(Seq::empty(), w, seq![' ']);
    assert(t.skip(at + 1) =~= seq![' '] + x + Seq::<char>::empty());
    lemma_trim(seq![' '], x, Seq::empty());
    assert(calm(mid, 0, at_rest(), true)) by {
        assert(scanned(' ', at_rest()) == at_rest());
        assert(scanned('=', at_rest()) == at_rest());
        assert(calm(mid, 3, at_rest(), true));
        assert(calm(mid, 2, at_rest(), true));
        assert(calm(mid, 1, at_rest(), true));
    }
    lemma_calm_loose(w, 0, at_rest());
    lemma_calm_loose(x, 0, at_rest());
    lemma_calm_join(w, mid, true);
    lemma_calm_join(w + mid, x, true);
    assert(w + mid + x =~= t);
    lemma_calm_no_line_end(t, 0, at_rest(), true);
    crate::text_laws::lemma_lines_only(t);
    let none = Seq::<Seq<char>>::empty();
    lemma_logical(seq![t], 0, none);
    assert(none + seq![t].skip(0) =~= seq![t]);
    lemma_trim(Seq::empty(), t, Seq::empty());
    assert(none + path =~= path);
    lemma_put_leaf(path, 0, v);
    let raw = raw_nest(path.drop_last(), 0, seq![(KeyV::Str(path.last()), v)]);
    let doc = DocV { root: raw, current: none };
    assert(line_read(read, new_doc(), t) == Ok::<DocV, Seq<char>>(doc));
    reveal_with_fuel(document_from, 3);
    let leaf = seq![(KeyV::Str(path.last()), v)];
    assert(entries_hold(read, leaf)) by {
        assert(key_fits(path[path.len() - 1]));
    }
    lemma_finished_nest(read, path.drop_last(), 0, leaf);
    lemma_finished(raw);
}

// ---------------------------------------------------------------------------
// Comments
// ---------------------------------------------------------------------------

proof fn lemma_hash(x: Seq<char>, t: Seq<char>, j: int)
    requires
        0 <= j <= x.len(),
        unquoted(x),
    ensures
        comment_from(x + (seq!['#'] + t), j, Within::Nothing) == comment_from(
            x,
            j,
            Within::Nothing,
        ),
        0 <= comment_from(x, j, Within::Nothing) <= x.len(),
    decreases x.len() - j,
{
    let s = x + (seq!['#'] + t);
    if j < x.len() {
        assert(s[j] == x[j]);
        assert(x[j] != '"' && x[j] != '\'');
        lemma_hash(x, t, j + 1);
    } else {
        assert(s[j] == '#');
    }
}

proof fn lemma_same_logical(
    a: Seq<Seq<char>>,
    b: Seq<Seq<char>>,
    i: int,
    buffer: Seq<char>,
    depth: int,
    out: Seq<Seq<char>>,
)
    requires
        a.len() == b.len(),
        forall|j: int| 0 <= j < a.len() ==> uncommented(#[trigger] a[j]) == uncommented(b[j]),
    ensures
        logical_from(a, i, buffer, depth, out) == logical_from(b, i, buffer, depth, out),
    decreases a.len() - i,
{
    if 0 <= i < a.len() {
        let part = uncommented(a[i]);
        assert(uncommented(a[i]) == uncommented(b[i]));
        let next = depth + brackets_from(part, 0, Within::Nothing);
        if trimmed(part).len() == 0 && depth == 0 {
            lemma_same_logical(a, b, i + 1, buffer, depth, out);
        } else if next == 0 {
            lemma_same_logical(
                a,
                b,
                i + 1,
                Seq::empty(),
                0,
                out.push(appended(buffer, trimmed(part))),
            );
        } else if next > 0 {
            lemma_same_logical(a, b, i + 1, appended(buffer, trimmed(part)), next, out);
        }
    }
}

/// A hash outside quotes ends what a line holds: with or without what stands from there on, the
/// text reads the same, in any place of it.
pub proof fn law_toml_comments_end_lines(
    read: Reading,
    before: Seq<char>,
    x: Seq<char>,
    t: Seq<char>,
    after: Seq<char>,
)
    requires
        ends_line(before),
        x.len() > 0,
        one_line(x),
        unquoted(x),
        x.last() != '\r',
        one_line(t),
        after.len() == 0 || after[0] == '\n',
    ensures
        toml_of(read, before + (x + (seq!['#'] + t)) + after) == toml_of(read, before + x + after),
{
    let l = x + (seq!['#'] + t);
    assert forall|i: int| 0 <= i < l.len() implies #[trigger] l[i] != '\n' by {
        if i > x.len() {
            assert(l[i] == t[i - x.len() - 1]);
        } else if i < x.len() {
            assert(l[i] == x[i]);
        }
    }
    lemma_lines_around(before, x, after);
    lemma_lines_around(before, l, after);
    lemma_hash(x, t, 0);
    let n = comment_from(x, 0, Within::Nothing);
    assert(l.take(n) =~= x.take(n));
    let u = chomped(t);
    if t.len() > 0 {
        assert(l.last() == t.last());
    } else {
        assert(l.last() == '#');
    }
    assert(chomped(l) =~= x + (seq!['#'] + u));
    lemma_hash(x, u, 0);
    assert((x + (seq!['#'] + u)).take(n) =~= x.take(n));
    let a = lines_of(before + x + after);
    let b = lines_of(before + l + after);
    lemma_same_logical(a, b, 0, Seq::empty(), 0, Seq::empty());
}

} // verus!
