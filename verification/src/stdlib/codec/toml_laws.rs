//! Reading back what was written as TOML.

use super::dynamic::{
    branches_of, dbool_v, ddict_v, dfloat_v, dint_v, dlist_v, dstr_v, dyn_of, float_text, key_text,
    lemma_dict_smaller, lemma_list_smaller, lemma_tree, tree_of, trees_of, DynV,
};
use super::escapes::{hex_end, unescape, unescaped_from};
use super::json::{escaped, escaped_from, quoted, Reading};
use super::json_laws::{
    is_decimal, lemma_decimal_chars, lemma_digits, lemma_int_text, lemma_parts, minus_len, splits,
    stands,
};
use super::toml::{
    appended, bare_key, bare_keys_from, between_digits, bracket, brackets_from, cleaned_from,
    comment_from, document_from, entries_of_parts, equals_from, finished, finished_entries,
    fraction_fits, inline_branches, inline_items, inline_text, inside, items_of_parts, key_char,
    leading_zero, logical_from, mark_from, number_of, parts_from, parts_of, passed, path_of,
    plain_key, point_from, put, root_lines, segments_from, separator, separators_fit, sign_len,
    toml_of, toml_text, uncommented, value_of, written_key, DocV, GoalV, Within,
};
use crate::eval::keys::KeyV;
use crate::eval::value::{distinct_keys, has_key, inserted, ValueV};
use crate::numerals::{hex_char, hex_digit, hex_of, hex_value, is_digit};
use crate::stdlib::regexns::starts_as_date;
use crate::text::{chomped, digits, int_text, is_space, lines_from, trim_left, trim_right, trimmed};
use vstd::prelude::*;
use vstd::string::*;

verus! {

// ---------------------------------------------------------------------------
// Scanning
// ---------------------------------------------------------------------------

/// Where the readers stand in a text: in which kind of string, and inside how many brackets.
pub ghost struct Scan {
    pub within: Within,
    pub depth: int,
}

pub open spec fn at_rest() -> Scan {
    Scan { within: Within::Nothing, depth: 0 }
}

pub open spec fn scanned(c: char, t: Scan) -> Scan {
    Scan { within: passed(c, t.within), depth: t.depth + bracket(c, t.within) }
}

/// A character parts nothing where it stands: it ends no line, starts no comment, and is no
/// comma or equals sign outside strings and brackets unless these may stand there.
pub open spec fn allowed(c: char, t: Scan, loose: bool) -> bool {
    &&& c != '\n'
    &&& t.depth >= 0
    &&& t.within == Within::Nothing ==> c != '#'
    &&& t.within == Within::Nothing && (c == ',' || c == '=') ==> t.depth > 0 || loose
}

/// Scanning `p` from `k` on parts nothing and comes to rest.
pub open spec fn calm(p: Seq<char>, k: int, t: Scan, loose: bool) -> bool
    decreases p.len() - k,
{
    if !(0 <= k < p.len()) {
        t == at_rest()
    } else {
        allowed(p[k], t, loose) && calm(p, k + 1, scanned(p[k], t), loose)
    }
}

pub proof fn lemma_calm_shift(a: Seq<char>, b: Seq<char>, j: int, t: Scan, loose: bool)
    requires
        0 <= j <= b.len(),
    ensures
        calm(a + b, a.len() + j, t, loose) == calm(b, j, t, loose),
    decreases b.len() - j,
{
    if j < b.len() {
        assert((a + b)[a.len() + j] == b[j]);
        lemma_calm_shift(a, b, j + 1, scanned(b[j], t), loose);
    }
}

proof fn lemma_calm_join_from(a: Seq<char>, b: Seq<char>, k: int, t: Scan, loose: bool)
    requires
        0 <= k <= a.len(),
        calm(a, k, t, loose),
        calm(b, 0, at_rest(), loose),
    ensures
        calm(a + b, k, t, loose),
    decreases a.len() - k,
{
    if k < a.len() {
        assert((a + b)[k] == a[k]);
        lemma_calm_join_from(a, b, k + 1, scanned(a[k], t), loose);
    } else {
        lemma_calm_shift(a, b, 0, t, loose);
    }
}

pub proof fn lemma_calm_join(a: Seq<char>, b: Seq<char>, loose: bool)
    requires
        calm(a, 0, at_rest(), loose),
        calm(b, 0, at_rest(), loose),
    ensures
        calm(a + b, 0, at_rest(), loose),
{
    lemma_calm_join_from(a, b, 0, at_rest(), loose);
}

pub proof fn lemma_calm_loose(p: Seq<char>, k: int, t: Scan)
    requires
        calm(p, k, t, false),
    ensures
        calm(p, k, t, true),
    decreases p.len() - k,
{
    if 0 <= k < p.len() {
        lemma_calm_loose(p, k + 1, scanned(p[k], t));
    }
}

/// Inside brackets commas and equals signs part nothing.
proof fn lemma_calm_inside(p: Seq<char>, close: char, k: int, t: Scan)
    requires
        close == ']' || close == '}',
        0 <= k <= p.len(),
        calm(p, k, t, true),
    ensures
        calm(p.push(close), k, Scan { depth: t.depth + 1, ..t }, false),
    decreases p.len() - k,
{
    let q = p.push(close);
    let deeper = Scan { depth: t.depth + 1, ..t };
    if k < p.len() {
        assert(q[k] == p[k]);
        lemma_calm_inside(p, close, k + 1, scanned(p[k], t));
        assert(scanned(p[k], deeper) == (Scan {
            depth: scanned(p[k], t).depth + 1,
            ..scanned(p[k], t)
        }));
    } else {
        assert(q[k] == close);
        assert(scanned(close, deeper) == at_rest());
        assert(calm(q, k + 1, at_rest(), false));
    }
}

pub proof fn lemma_calm_wrapped(open: char, p: Seq<char>, close: char)
    requires
        (open == '[' && close == ']') || (open == '{' && close == '}'),
        calm(p, 0, at_rest(), true),
    ensures
        calm(seq![open] + p + seq![close], 0, at_rest(), false),
{
    lemma_calm_inside(p, close, 0, at_rest());
    let q = p.push(close);
    let w = seq![open] + q;
    assert(seq![open] + p + seq![close] =~= w);
    let t = Scan { depth: 1, ..at_rest() };
    assert(scanned(open, at_rest()) == t);
    lemma_calm_shift(seq![open], q, 0, t, false);
    assert(w[0] == open);
}

pub proof fn lemma_calm_no_line_end(p: Seq<char>, k: int, t: Scan, loose: bool)
    requires
        0 <= k,
        calm(p, k, t, loose),
    ensures
        forall|j: int| k <= j < p.len() ==> #[trigger] p[j] != '\n',
    decreases p.len() - k,
{
    if k < p.len() {
        lemma_calm_no_line_end(p, k + 1, scanned(p[k], t), loose);
    }
}

pub proof fn lemma_calm_brackets(p: Seq<char>, k: int, t: Scan, loose: bool)
    requires
        0 <= k,
        calm(p, k, t, loose),
    ensures
        brackets_from(p, k, t.within) == -t.depth,
    decreases p.len() - k,
{
    if k < p.len() {
        lemma_calm_brackets(p, k + 1, scanned(p[k], t), loose);
    }
}

pub proof fn lemma_calm_comment(p: Seq<char>, k: int, t: Scan, loose: bool)
    requires
        0 <= k,
        calm(p, k, t, loose),
    ensures
        comment_from(p, k, t.within) == p.len(),
    decreases p.len() - k,
{
    if k < p.len() {
        lemma_calm_comment(p, k + 1, scanned(p[k], t), loose);
    }
}

/// A calm text stays in one part.
proof fn lemma_calm_part(
    s: Seq<char>,
    pos: int,
    p: Seq<char>,
    k: int,
    t: Scan,
    part: Seq<char>,
    out: Seq<Seq<char>>,
)
    requires
        stands(s, pos, p),
        0 <= k <= p.len(),
        calm(p, k, t, false),
    ensures
        parts_from(s, pos + k, t.within, t.depth, part, out) == parts_from(
            s,
            pos + p.len(),
            Within::Nothing,
            0,
            part + p.skip(k),
            out,
        ),
    decreases p.len() - k,
{
    if k < p.len() {
        assert(s[pos + k] == p[k]);
        lemma_calm_part(s, pos, p, k + 1, scanned(p[k], t), part.push(p[k]), out);
        assert(part.push(p[k]) + p.skip(k + 1) =~= part + p.skip(k));
    } else {
        assert(part + p.skip(k) =~= part);
    }
}

// ---------------------------------------------------------------------------
// Trimming
// ---------------------------------------------------------------------------

/// A text with something in it and without white space around it.
pub open spec fn bare(s: Seq<char>) -> bool {
    s.len() > 0 && !is_space(s[0]) && !is_space(s.last())
}

/// Nothing, or one space.
pub open spec fn gap(s: Seq<char>) -> bool {
    s.len() == 0 || s == seq![' ']
}

pub proof fn lemma_trim(lead: Seq<char>, s: Seq<char>, tail: Seq<char>)
    requires
        gap(lead),
        bare(s),
        gap(tail),
    ensures
        trimmed(lead + s + tail) == s,
        trimmed(s) == s,
{
    let whole = lead + s + tail;
    let rest = s + tail;
    reveal_with_fuel(trim_left, 2);
    reveal_with_fuel(trim_right, 2);
    assert(rest[0] == s[0]);
    if lead.len() > 0 {
        assert(whole[0] == ' ');
        assert(whole.drop_first() =~= rest);
    } else {
        assert(whole =~= rest);
    }
    assert(trim_left(whole) == rest);
    if tail.len() > 0 {
        assert(rest.last() == ' ');
        assert(rest.drop_last() =~= s);
    } else {
        assert(rest =~= s);
    }
}

proof fn lemma_trim_gap(s: Seq<char>)
    requires
        forall|i: int| 0 <= i < s.len() ==> #[trigger] s[i] == ' ',
    ensures
        trimmed(s).len() == 0,
    decreases s.len(),
{
    if s.len() > 0 {
        let rest = s.drop_first();
        assert forall|i: int| 0 <= i < rest.len() implies #[trigger] rest[i] == ' ' by {
            assert(s[i + 1] == ' ');
        }
        lemma_trim_gap(rest);
        assert(s[0] == ' ');
    }
}

// ---------------------------------------------------------------------------
// Strings
// ---------------------------------------------------------------------------

proof fn lemma_control(s: Seq<char>, pos: int, c: char, label: Seq<char>)
    requires
        (c as u32) < 0x20,
        stands(s, pos, seq!['u', '0', '0', hex_char((c as nat) / 16), hex_char((c as nat) % 16)]),
    ensures
        unescape(label, s, pos) == Ok::<(char, int), Seq<char>>((c, pos + 5)),
{
    let u = seq!['u', '0', '0', hex_char((c as nat) / 16), hex_char((c as nat) % 16)];
    let w = seq!['0', '0', hex_char((c as nat) / 16), hex_char((c as nat) % 16)];
    assert(u =~= seq!['u'] + w);
    lemma_parts(s, pos, seq!['u'], w);
    assert(s[pos + 0] == u[0]);
    assert(s.subrange(pos + 1, hex_end(s, pos + 1)) =~= w);
    let w3 = w.drop_last();
    let w2 = w3.drop_last();
    let w1 = w2.drop_last();
    assert(w1.drop_last() =~= Seq::empty());
    assert(hex_value(w1.drop_last()) == Some(0nat));
    assert(hex_value(w1) == Some(0nat));
    assert(hex_value(w2) == Some(0nat));
    assert(hex_digit(w3.last()) == Some((c as nat) / 16));
    assert(hex_value(w3) == Some((c as nat) / 16));
    assert(hex_digit(w.last()) == Some((c as nat) % 16));
    assert(hex_value(w) == Some((16 * ((c as nat) / 16) + (c as nat) % 16) as nat));
    assert(hex_of(w) == Some(c as nat));
}

/// The body of a quoted string reads back.
pub proof fn lemma_unescaped(
    label: Seq<char>,
    s: Seq<char>,
    pos: int,
    x: Seq<char>,
    i: int,
    out: Seq<char>,
)
    requires
        0 <= i <= x.len(),
        stands(s, pos, escaped_from(x, i)),
        pos + escaped_from(x, i).len() == s.len(),
    ensures
        unescaped_from(label, s, pos, out) == Ok::<Seq<char>, Seq<char>>(out + x.skip(i)),
    decreases x.len() - i,
{
    if i < x.len() {
        let c = x[i];
        let w = escaped(c);
        let rest = escaped_from(x, i + 1);
        lemma_parts(s, pos, w, rest);
        assert(s[pos + 0] == w[0]);
        if c == '"' || c == '\\' || c == '\n' || c == '\r' || c == '\t' {
            assert(s[pos + 1] == w[1]);
        } else if (c as u32) < 0x20 {
            let tail = seq!['u', '0', '0', hex_char((c as nat) / 16), hex_char((c as nat) % 16)];
            assert(w =~= seq!['\\'] + tail);
            lemma_parts(s, pos, seq!['\\'], tail);
            lemma_control(s, pos + 1, c, label);
        }
        lemma_unescaped(label, s, pos + w.len(), x, i + 1, out.push(c));
        assert(out.push(c) + x.skip(i + 1) =~= out + x.skip(i));
    } else {
        assert(out + x.skip(i) =~= out);
    }
}

proof fn lemma_control_digits(c: char)
    requires
        (c as u32) < 0x20,
    ensures
        hex_digit(hex_char((c as nat) / 16)) == Some((c as nat) / 16),
        hex_digit(hex_char((c as nat) % 16)) == Some((c as nat) % 16),
{
}

proof fn lemma_calm_body(x: Seq<char>, i: int)
    requires
        0 <= i <= x.len(),
    ensures
        calm(escaped_from(x, i) + seq!['"'], 0, Scan { within: Within::Basic, depth: 0 }, false),
    decreases x.len() - i,
{
    let t = Scan { within: Within::Basic, depth: 0 };
    let p = escaped_from(x, i) + seq!['"'];
    if i < x.len() {
        let c = x[i];
        let w = escaped(c);
        let q = escaped_from(x, i + 1) + seq!['"'];
        lemma_calm_body(x, i + 1);
        assert(p =~= w + q);
        lemma_calm_shift(w, q, 0, t, false);
        if w.len() == 1 {
            assert(p[0] == c);
            assert(scanned(c, t) == t);
        } else {
            let behind = Scan { within: Within::Escape, depth: 0 };
            assert(p[0] == '\\');
            assert(scanned('\\', t) == behind);
            assert(p[1] == w[1]);
            assert(scanned(w[1], behind) == t);
            if c != '"' && c != '\\' && c != '\n' && c != '\r' && c != '\t' {
                assert((c as u32) < 0x20);
                assert(p[2] == w[2] && p[3] == w[3] && p[4] == w[4] && p[5] == w[5]);
                assert(scanned(w[2], t) == t);
                assert(scanned(w[3], t) == t);
                lemma_control_digits(c);
                assert(scanned(w[4], t) == t);
                assert(scanned(w[5], t) == t);
                assert(calm(p, 6, t, false));
                assert(calm(p, 5, t, false));
                assert(calm(p, 4, t, false));
                assert(calm(p, 3, t, false));
                assert(calm(p, 2, t, false));
            }
            assert(calm(p, 2, t, false));
            assert(calm(p, 1, behind, false));
        }
    } else {
        assert(p =~= seq!['"']);
        assert(scanned('"', t) == at_rest());
        assert(calm(p, 1, at_rest(), false));
    }
}

/// Whatever a text holds, in its quotes it parts nothing.
proof fn lemma_calm_text(x: Seq<char>)
    ensures
        calm(quoted(x), 0, at_rest(), false),
{
    lemma_calm_body(x, 0);
    let q = escaped_from(x, 0) + seq!['"'];
    let t = Scan { within: Within::Basic, depth: 0 };
    assert(quoted(x) =~= seq!['"'] + q);
    lemma_calm_shift(seq!['"'], q, 0, t, false);
    assert(scanned('"', at_rest()) == t);
    assert(quoted(x)[0] == '"');
}

// ---------------------------------------------------------------------------
// Keys
// ---------------------------------------------------------------------------

/// A key that is written as it is, with or without quotes around it.
pub open spec fn key_fits(k: Seq<char>) -> bool {
    forall|i: int| 0 <= i < k.len() ==> escaped(#[trigger] k[i]) == seq![k[i]]
}

pub open spec fn parts_a_key(c: char) -> bool {
    c == '.' || c == '=' || c == ',' || c == '#' || c == '[' || c == ']' || c == '{' || c == '}'
}

/// Scanning a key from `j` on parts nothing.
pub open spec fn tame(p: Seq<char>, j: int, w: Within) -> bool
    decreases p.len() - j,
{
    if !(0 <= j < p.len()) {
        w == Within::Nothing
    } else {
        &&& p[j] != '\n'
        &&& p[j] != '\\'
        &&& w == Within::Nothing ==> !parts_a_key(p[j])
        &&& tame(p, j + 1, passed(p[j], w))
    }
}

proof fn lemma_tame_calm(p: Seq<char>, j: int, w: Within)
    requires
        0 <= j,
        tame(p, j, w),
    ensures
        calm(p, j, Scan { within: w, depth: 0 }, false),
    decreases p.len() - j,
{
    let t = Scan { within: w, depth: 0 };
    if j < p.len() {
        lemma_tame_calm(p, j + 1, passed(p[j], w));
        assert(scanned(p[j], t) == (Scan {
            within: passed(p[j], w),
            depth: 0,
        }));
    } else {
        assert(t == at_rest());
    }
}

pub proof fn lemma_tame_equals(s: Seq<char>, p: Seq<char>, j: int, w: Within)
    requires
        stands(s, 0, p),
        0 <= j <= p.len(),
        tame(p, j, w),
    ensures
        equals_from(s, j, w) == equals_from(s, p.len() as int, Within::Nothing),
    decreases p.len() - j,
{
    if j < p.len() {
        assert(s[0 + j] == p[j]);
        lemma_tame_equals(s, p, j + 1, passed(p[j], w));
    }
}

proof fn lemma_tame_segment(
    p: Seq<char>,
    j: int,
    w: Within,
    part: Seq<char>,
    out: Seq<Seq<char>>,
)
    requires
        0 <= j <= p.len(),
        tame(p, j, w),
    ensures
        segments_from(p, j, w, part, out) == out.push(trimmed(part + p.skip(j))),
    decreases p.len() - j,
{
    if j < p.len() {
        lemma_tame_segment(p, j + 1, passed(p[j], w), part.push(p[j]), out);
        assert(part.push(p[j]) + p.skip(j + 1) =~= part + p.skip(j));
    } else {
        assert(part + p.skip(j) =~= part);
    }
}

proof fn lemma_plain_tame(k: Seq<char>, j: int)
    requires
        plain_key(k),
        0 <= j,
    ensures
        tame(k, j, Within::Nothing),
    decreases k.len() - j,
{
    if j < k.len() {
        assert(key_char(k[j]));
        lemma_plain_tame(k, j + 1);
    }
}

proof fn lemma_quoted_tame(k: Seq<char>, j: int)
    requires
        key_fits(k),
        0 <= j <= k.len(),
    ensures
        tame(seq!['"'] + k + seq!['"'], j + 1, Within::Basic),
    decreases k.len() - j,
{
    let p = seq!['"'] + k + seq!['"'];
    if j < k.len() {
        assert(p[j + 1] == k[j]);
        assert(escaped(k[j]) == seq![k[j]]);
        assert(escaped(k[j]).len() == 1);
        lemma_quoted_tame(k, j + 1);
    } else {
        assert(p[j + 1] == '"');
        assert(tame(p, j + 2, Within::Nothing));
    }
}

proof fn lemma_kept(k: Seq<char>, i: int)
    requires
        key_fits(k),
        0 <= i <= k.len(),
    ensures
        escaped_from(k, i) == k.skip(i),
    decreases k.len() - i,
{
    if i < k.len() {
        lemma_kept(k, i + 1);
        assert(escaped(k[i]) == seq![k[i]]);
        assert(escaped_from(k, i) =~= k.skip(i));
    } else {
        assert(escaped_from(k, i) =~= k.skip(i));
    }
}

/// A key reads back.
pub proof fn lemma_key(k: Seq<char>)
    requires
        key_fits(k),
    ensures
        bare(written_key(k)),
        written_key(k)[0] != '[',
        tame(written_key(k), 0, Within::Nothing),
        calm(written_key(k), 0, at_rest(), false),
        bare_key(written_key(k)) == Ok::<Seq<char>, Seq<char>>(k),
        path_of(written_key(k)) == Ok::<Seq<Seq<char>>, Seq<char>>(seq![k]),
{
    let w = written_key(k);
    if plain_key(k) {
        lemma_plain_tame(k, 0);
        assert(key_char(k[0]));
        assert(key_char(k[k.len() - 1]));
    } else {
        lemma_kept(k, 0);
        assert(k.skip(0) =~= k);
        assert(w =~= seq!['"'] + k + seq!['"']);
        lemma_quoted_tame(k, 0);
        assert(w[0] == '"');
        assert(w.last() == '"');
        assert(inside(w) =~= k);
    }
    lemma_tame_calm(w, 0, Within::Nothing);
    lemma_trim(Seq::empty(), w, Seq::empty());
    lemma_tame_segment(w, 0, Within::Nothing, Seq::empty(), Seq::empty());
    assert(Seq::<char>::empty() + w.skip(0) =~= w);
    let parts = Seq::<Seq<char>>::empty().push(w);
    assert(parts[0] == w);
    assert(bare_keys_from(parts, 1, Seq::<Seq<char>>::empty().push(k)) == Ok::<
        Seq<Seq<char>>,
        Seq<char>,
    >(Seq::<Seq<char>>::empty().push(k)));
    assert(Seq::<Seq<char>>::empty().push(k) =~= seq![k]);
}

// ---------------------------------------------------------------------------
// Numbers
// ---------------------------------------------------------------------------

/// Digits, a sign and a point.
pub open spec fn number_like(s: Seq<char>) -> bool {
    forall|i: int|
        0 <= i < s.len() ==> is_digit(#[trigger] s[i]) || s[i] == '-' || s[i] == '.' || s[i] == 'e'
}

proof fn lemma_number_calm(s: Seq<char>, j: int)
    requires
        number_like(s),
        0 <= j,
    ensures
        calm(s, j, at_rest(), false),
        cleaned_from(s, j) == (if j < s.len() {
            s.skip(j)
        } else {
            Seq::empty()
        }),
    decreases s.len() - j,
{
    if j < s.len() {
        assert(is_digit(s[j]) || s[j] == '-' || s[j] == '.' || s[j] == 'e');
        assert(scanned(s[j], at_rest()) == at_rest());
        lemma_number_calm(s, j + 1);
        assert(cleaned_from(s, j) =~= s.skip(j));
    }
}

proof fn lemma_number_bare(s: Seq<char>)
    requires
        number_like(s),
        s.len() > 0,
    ensures
        bare(s),
        s[0] != '"' && s[0] != '\'' && s[0] != '[' && s[0] != '{' && s[0] != 't' && s[0] != 'f',
        separators_fit(s),
        cleaned_from(s, 0) == s,
{
    assert(is_digit(s[0]) || s[0] == '-' || s[0] == '.' || s[0] == 'e');
    assert(is_digit(s[s.len() - 1]) || s[s.len() - 1] == '-' || s[s.len() - 1] == '.' || s[s.len() - 1] == 'e');
    assert forall|i: int| 0 <= i < s.len() && #[trigger] s[i] == '_' implies between_digits(
        s,
        i,
    ) by {
        assert(is_digit(s[i]) || s[i] == '-' || s[i] == '.' || s[i] == 'e');
    }
    lemma_number_calm(s, 0);
    assert(s.skip(0) =~= s);
}

/// The mark of a float comes first at `m`.
proof fn lemma_mark(s: Seq<char>, i: int, m: int)
    requires
        0 <= i <= m <= s.len(),
        number_like(s),
        forall|j: int| i <= j < m ==> #[trigger] s[j] != '.' && s[j] != 'e',
        m < s.len() ==> s[m] == '.' || s[m] == 'e',
    ensures
        mark_from(s, i) == m,
    decreases m - i,
{
    if i < m {
        assert(is_digit(s[i]) || s[i] == '-' || s[i] == '.' || s[i] == 'e');
        lemma_mark(s, i + 1, m);
    }
}

/// The first point stands at `p`, or nowhere.
proof fn lemma_point(s: Seq<char>, i: int, p: int)
    requires
        0 <= i <= p <= s.len(),
        forall|j: int| i <= j < p ==> #[trigger] s[j] != '.',
        p < s.len() ==> s[p] == '.',
    ensures
        point_from(s, i) == p,
    decreases p - i,
{
    if i < p {
        lemma_point(s, i + 1, p);
    }
}

/// A number is read by the reader of numbers.
proof fn lemma_plain_value(read: Reading, s: Seq<char>, depth: int)
    requires
        number_like(s),
        s.len() > 0,
        s.len() > 4 && s[4] == '-' ==> s[3] == 'e',
        depth <= 256,
    ensures
        value_of(read, s, depth) == number_of(read, s),
{
    lemma_number_bare(s);
    lemma_trim(Seq::empty(), s, Seq::empty());
    reveal_strlit("true");
    reveal_strlit("false");
    assert("true"@[0] == 't');
    assert("false"@[0] == 'f');
    assert(!starts_as_date(s)) by {
        if s.len() > 4 && s[4] == '-' {
            assert(!is_digit(s[3]));
        }
    }
}

proof fn lemma_int_value(read: Reading, n: i64, depth: int)
    requires
        depth <= 256,
    ensures
        bare(int_text(n as int)),
        calm(int_text(n as int), 0, at_rest(), false),
        value_of(read, int_text(n as int), depth) == Ok::<ValueV, Seq<char>>(dint_v(n)),
{
    let s = int_text(n as int);
    lemma_int_text(n);
    let m = if n < 0 {
        (-(n as int)) as nat
    } else {
        n as nat
    };
    lemma_digits(m);
    let ds = digits(m);
    let lead = if n < 0 {
        seq!['-']
    } else {
        Seq::empty()
    };
    assert(s =~= lead + ds);
    assert forall|i: int| 0 <= i < s.len() implies is_digit(#[trigger] s[i]) || s[i] == '-' by {
        if i >= lead.len() {
            assert(s[i] == ds[i - lead.len()]);
            assert(is_digit(ds[i - lead.len()]));
        }
    }
    assert(number_like(s));
    lemma_number_calm(s, 0);
    lemma_number_bare(s);
    if s.len() > 4 {
        assert(s[4] == ds[4 - lead.len()]);
        assert(is_digit(ds[4 - lead.len()]));
    }
    lemma_plain_value(read, s, depth);
    assert forall|j: int| 0 <= j < s.len() implies #[trigger] s[j] != '.' by {
        assert(is_digit(s[j]) || s[j] == '-');
    }
    lemma_mark(s, 0, s.len() as int);
    lemma_mark(s, sign_len(s), s.len() as int);
    assert(s[lead.len() as int] == ds[0]);
    assert(is_digit(ds[0]));
    assert(sign_len(s) == lead.len());
    assert(!leading_zero(s));
}

proof fn lemma_float_value(read: Reading, x: Seq<char>, depth: int)
    requires
        is_decimal(float_text(x)),
        read(float_text(x)) == Some(x),
        depth <= 256,
    ensures
        bare(float_text(x)),
        calm(float_text(x), 0, at_rest(), false),
        value_of(read, float_text(x), depth) == Ok::<ValueV, Seq<char>>(dfloat_v(x)),
{
    let s = float_text(x);
    let (dot, mark) = choose|dot: int, mark: int| #[trigger] splits(s, dot, mark);
    assert(splits(s, dot, mark));
    lemma_decimal_chars(s, dot, mark);
    let lead = minus_len(s);
    assert(number_like(s));
    if s.len() > 4 && s[4] == '-' {
        assert(s[mark] == 'e');
    }
    lemma_number_calm(s, 0);
    lemma_number_bare(s);
    lemma_plain_value(read, s, depth);
    assert(is_digit(s[lead]));
    assert(sign_len(s) == lead);
    lemma_mark(s, 0, dot);
    lemma_mark(s, lead, dot);
    assert(!leading_zero(s));
    if dot < mark {
        lemma_point(s, 0, dot);
        assert(is_digit(s[dot + 1]));
    } else {
        lemma_point(s, 0, s.len() as int);
    }
    assert(fraction_fits(s));
}

// ---------------------------------------------------------------------------
// Lists of texts
// ---------------------------------------------------------------------------

/// Texts with commas between them, from the `i`-th on.
pub open spec fn joined(ts: Seq<Seq<char>>, i: int) -> Seq<char>
    decreases ts.len() - i,
{
    if 0 <= i < ts.len() {
        separator(i == 0) + ts[i] + joined(ts, i + 1)
    } else {
        Seq::empty()
    }
}

proof fn lemma_joined_calm(ts: Seq<Seq<char>>, i: int)
    requires
        0 <= i,
        forall|j: int| 0 <= j < ts.len() ==> calm(#[trigger] ts[j], 0, at_rest(), true),
    ensures
        calm(joined(ts, i), 0, at_rest(), true),
    decreases ts.len() - i,
{
    if i < ts.len() {
        lemma_joined_calm(ts, i + 1);
        let sep = separator(i == 0);
        assert(calm(sep, 0, at_rest(), true)) by {
            reveal_strlit(", ");
            if i > 0 {
                assert(sep[0] == ',' && sep[1] == ' ');
                assert(scanned(',', at_rest()) == at_rest());
                assert(scanned(' ', at_rest()) == at_rest());
                assert(calm(sep, 2, at_rest(), true));
                assert(calm(sep, 1, at_rest(), true));
            }
        }
        assert(calm(ts[i], 0, at_rest(), true));
        lemma_calm_join(sep, ts[i], true);
        lemma_calm_join(sep + ts[i], joined(ts, i + 1), true);
    }
}

/// The parts behind the `i`-th text, whose own part has been read.
proof fn lemma_parts_rest(
    s: Seq<char>,
    pos: int,
    ts: Seq<Seq<char>>,
    i: int,
    lead: Seq<char>,
    tail: Seq<char>,
    out: Seq<Seq<char>>,
)
    requires
        0 < i <= ts.len(),
        gap(lead),
        gap(tail),
        stands(s, pos, joined(ts, i) + tail),
        pos + joined(ts, i).len() + tail.len() == s.len(),
        forall|j: int|
            0 <= j < ts.len() ==> bare(#[trigger] ts[j]) && calm_part(ts[j]),
        out.len() == i - 1,
        forall|j: int| 0 <= j < out.len() ==> trimmed(#[trigger] out[j]) == ts[j],
    ensures
        ({
            let r = parts_from(s, pos, Within::Nothing, 0, lead + ts[i - 1], out);
            r.len() == ts.len() && forall|j: int|
                0 <= j < ts.len() ==> trimmed(#[trigger] r[j]) == ts[j]
        }),
    decreases ts.len() - i,
{
    let part = lead + ts[i - 1];
    lemma_trim(lead, ts[i - 1], Seq::empty());
    assert(lead + ts[i - 1] + Seq::empty() =~= part);
    if i < ts.len() {
        let more = out.push(part);
        let rest = joined(ts, i + 1) + tail;
        assert(joined(ts, i) + tail =~= ", "@ + (ts[i] + rest));
        reveal_strlit(", ");
        assert(", "@.len() == 2);
        lemma_parts(s, pos, ", "@, ts[i] + rest);
        lemma_parts(s, pos + 2, ts[i], rest);
        assert(s[pos + 0] == ", "@[0]);
        assert(s[pos + 1] == ", "@[1]);
        let nothing = Seq::<char>::empty();
        assert(parts_from(s, pos, Within::Nothing, 0, part, out) == parts_from(
            s,
            pos + 1,
            Within::Nothing,
            0,
            nothing,
            more,
        ));
        assert(parts_from(s, pos + 1, Within::Nothing, 0, nothing, more) == parts_from(
            s,
            pos + 2,
            Within::Nothing,
            0,
            nothing.push(' '),
            more,
        ));
        assert(nothing.push(' ') =~= seq![' ']);
        assert(calm_part(ts[i]));
        lemma_part(s, pos + 2, ts[i], seq![' '], more);
        lemma_parts_rest(s, pos + 2 + ts[i].len(), ts, i + 1, seq![' '], tail, more);
    } else {
        assert(joined(ts, i) + tail =~= tail);
        lemma_trim(lead, ts[i - 1], tail);
        if tail.len() > 0 {
            assert(s[pos + 0] == tail[0]);
            assert(part.push(' ') =~= lead + ts[i - 1] + tail);
            assert(parts_from(s, pos, Within::Nothing, 0, part, out) == parts_from(
                s,
                pos + 1,
                Within::Nothing,
                0,
                part.push(' '),
                out,
            ));
        }
    }
}

/// A text stays in one part, whatever stands around it.
pub open spec fn calm_part(p: Seq<char>) -> bool {
    forall|s: Seq<char>, pos: int, part: Seq<char>, out: Seq<Seq<char>>|
        stands(s, pos, p) ==> #[trigger] parts_from(s, pos, Within::Nothing, 0, part, out)
            == parts_from(s, pos + p.len(), Within::Nothing, 0, part + p, out)
}

proof fn lemma_part(
    s: Seq<char>,
    pos: int,
    p: Seq<char>,
    part: Seq<char>,
    out: Seq<Seq<char>>,
)
    requires
        calm_part(p),
        stands(s, pos, p),
    ensures
        parts_from(s, pos, Within::Nothing, 0, part, out) == parts_from(
            s,
            pos + p.len(),
            Within::Nothing,
            0,
            part + p,
            out,
        ),
{
}

proof fn lemma_calm_is_part(p: Seq<char>)
    requires
        calm(p, 0, at_rest(), false),
    ensures
        calm_part(p),
{
    assert forall|s: Seq<char>, pos: int, part: Seq<char>, out: Seq<Seq<char>>|
        stands(s, pos, p) implies #[trigger] parts_from(s, pos, Within::Nothing, 0, part, out)
        == parts_from(s, pos + p.len(), Within::Nothing, 0, part + p, out) by {
        lemma_calm_part(s, pos, p, 0, at_rest(), part, out);
        assert(p.skip(0) =~= p);
    }
}

/// Texts with commas between them are parted again.
proof fn lemma_parts_joined(ts: Seq<Seq<char>>, edge: Seq<char>)
    requires
        gap(edge),
        forall|j: int|
            0 <= j < ts.len() ==> bare(#[trigger] ts[j]) && calm_part(ts[j]),
    ensures
        ({
            let r = parts_of(edge + joined(ts, 0) + edge);
            r.len() == ts.len() && forall|j: int|
                0 <= j < ts.len() ==> trimmed(#[trigger] r[j]) == ts[j]
        }),
{
    let s = edge + joined(ts, 0) + edge;
    let nothing = Seq::<char>::empty();
    let none = Seq::<Seq<char>>::empty();
    if ts.len() == 0 {
        assert(s =~= edge + edge);
        assert forall|j: int| 0 <= j < s.len() implies #[trigger] s[j] == ' ' by {}
        lemma_gap_parts(s, 0, nothing);
    } else {
        let rest = joined(ts, 1) + edge;
        assert(separator(true) + ts[0] =~= ts[0]);
        assert(s =~= edge + (ts[0] + rest));
        assert(stands(s, 0, s));
        lemma_parts(s, 0, edge, ts[0] + rest);
        lemma_parts(s, edge.len() as int, ts[0], rest);
        if edge.len() > 0 {
            assert(s[0int + 0] == edge[0]);
            assert(nothing.push(' ') =~= edge);
            assert(parts_of(s) == parts_from(
                s,
                1,
                Within::Nothing,
                0,
                edge,
                none,
            ));
        } else {
            assert(edge =~= nothing);
        }
        assert(calm_part(ts[0]));
        lemma_part(s, edge.len() as int, ts[0], edge, none);
        lemma_parts_rest(s, edge.len() + ts[0].len() as int, ts, 1, edge, edge, none);
    }
}

proof fn lemma_gap_parts(s: Seq<char>, i: int, part: Seq<char>)
    requires
        0 <= i <= s.len(),
        forall|j: int| 0 <= j < s.len() ==> #[trigger] s[j] == ' ',
        forall|j: int| 0 <= j < part.len() ==> #[trigger] part[j] == ' ',
    ensures
        parts_from(s, i, Within::Nothing, 0, part, Seq::empty()).len() == 0,
    decreases s.len() - i,
{
    if i < s.len() {
        assert(s[i] == ' ');
        lemma_gap_parts(s, i + 1, part.push(' '));
    } else {
        lemma_trim_gap(part);
    }
}

// ---------------------------------------------------------------------------
// Values
// ---------------------------------------------------------------------------

/// A value that TOML can hold, inside `depth` inline containers. Nothing in it is null, the keys
/// of tables differ and are written as they are, and floats are written so that they read back.
pub open spec fn toml_holdable(read: Reading, v: ValueV, depth: int) -> bool
    decreases v,
{
    &&& depth <= 256
    &&& match dyn_of(v) {
        DynV::Bool(b) => v == dbool_v(b),
        DynV::Int(n) => v == dint_v(n),
        DynV::Float(x) => v == dfloat_v(x) && is_decimal(float_text(x)) && read(float_text(x))
            == Some(x),
        DynV::Str(x) => v == dstr_v(x),
        DynV::List(items) => {
            proof {
                lemma_list_smaller(v);
            }
            v == dlist_v(items) && forall|i: int|
                0 <= i < items.len() ==> toml_holdable(read, #[trigger] items[i], depth + 1)
        },
        DynV::Dict(entries) => {
            proof {
                lemma_dict_smaller(v);
            }
            v == ddict_v(entries) && entries_fit(entries) && forall|i: int|
                0 <= i < entries.len() ==> toml_holdable(
                    read,
                    (#[trigger] entries[i]).1,
                    depth + 1,
                )
        },
        _ => false,
    }
}

/// The keys of a table differ and are written as they are.
pub open spec fn entries_fit(entries: Seq<(KeyV, ValueV)>) -> bool {
    &&& distinct_keys(entries)
    &&& forall|i: int|
        0 <= i < entries.len() ==> ((#[trigger] entries[i]).0 matches KeyV::Str(k) && key_fits(k))
}

/// What was written for a value reads back as it.
pub open spec fn reads_back(read: Reading, v: ValueV, depth: int) -> bool {
    let t = inline_text(tree_of(v));
    &&& !(tree_of(v) is Null)
    &&& bare(t)
    &&& calm(t, 0, at_rest(), false)
    &&& value_of(read, t, depth) == Ok::<ValueV, Seq<char>>(v)
}

spec fn item_texts(items: Seq<ValueV>) -> Seq<Seq<char>> {
    Seq::new(items.len(), |i: int| inline_text(tree_of(items[i])))
}

pub open spec fn entry_text(e: (KeyV, ValueV)) -> Seq<char> {
    written_key(key_text(e.0)) + " = "@ + inline_text(tree_of(e.1))
}

pub open spec fn entry_texts(entries: Seq<(KeyV, ValueV)>) -> Seq<Seq<char>> {
    Seq::new(entries.len(), |i: int| entry_text(entries[i]))
}

proof fn lemma_items_joined(items: Seq<ValueV>, i: int)
    requires
        0 <= i,
    ensures
        inline_items(trees_of(items), i) == joined(item_texts(items), i),
    decreases items.len() - i,
{
    if i < items.len() {
        lemma_items_joined(items, i + 1);
    }
}

proof fn lemma_entries_joined(entries: Seq<(KeyV, ValueV)>, i: int)
    requires
        0 <= i,
        forall|j: int| 0 <= j < entries.len() ==> !(tree_of((#[trigger] entries[j]).1) is Null),
    ensures
        inline_branches(branches_of(entries), i, i == 0) == joined(entry_texts(entries), i),
    decreases entries.len() - i,
{
    if i < entries.len() {
        lemma_entries_joined(entries, i + 1);
        let b = branches_of(entries)[i];
        assert(b == (key_text(entries[i].0), tree_of(entries[i].1)));
        assert(!(tree_of(entries[i].1) is Null));
        let rest = joined(entry_texts(entries), i + 1);
        assert(separator(i == 0) + written_key(b.0) + " = "@ + inline_text(b.1) + rest
            =~= separator(i == 0) + entry_text(entries[i]) + rest);
    }
}

proof fn lemma_items_read(
    read: Reading,
    parts: Seq<Seq<char>>,
    items: Seq<ValueV>,
    i: int,
    depth: int,
)
    requires
        0 <= i <= items.len(),
        depth <= 256,
        parts.len() == items.len(),
        forall|j: int|
            0 <= j < items.len() ==> trimmed(#[trigger] parts[j]) == item_texts(items)[j],
        forall|j: int| 0 <= j < items.len() ==> reads_back(read, #[trigger] items[j], depth + 1),
    ensures
        items_of_parts(read, parts, i, depth, items.take(i)) == Ok::<ValueV, Seq<char>>(
            dlist_v(items),
        ),
    decreases items.len() - i,
{
    if i < items.len() {
        assert(reads_back(read, items[i], depth + 1));
        assert(trimmed(parts[i]) == item_texts(items)[i]);
        assert(items.take(i).push(items[i]) =~= items.take(i + 1));
        lemma_items_read(read, parts, items, i + 1, depth);
    } else {
        assert(items.take(i) =~= items);
    }
}

proof fn lemma_list(read: Reading, v: ValueV, items: Seq<ValueV>, depth: int)
    requires
        dyn_of(v) == DynV::List(items),
        v == dlist_v(items),
        depth <= 256,
        forall|j: int| 0 <= j < items.len() ==> reads_back(read, #[trigger] items[j], depth + 1),
    ensures
        reads_back(read, v, depth),
{
    lemma_tree(v);
    let ts = item_texts(items);
    lemma_items_joined(items, 0);
    let body = joined(ts, 0);
    let t = inline_text(tree_of(v));
    reveal_strlit("[");
    reveal_strlit("]");
    assert(t =~= seq!['['] + body + seq![']']);
    assert forall|j: int| 0 <= j < ts.len() implies bare(#[trigger] ts[j]) && calm_part(ts[j])
        && calm(ts[j], 0, at_rest(), true) by {
        assert(reads_back(read, items[j], depth + 1));
        lemma_calm_is_part(ts[j]);
        lemma_calm_loose(ts[j], 0, at_rest());
    }
    lemma_joined_calm(ts, 0);
    lemma_calm_wrapped('[', body, ']');
    assert(t[0] == '[' && t.last() == ']');
    lemma_trim(Seq::empty(), t, Seq::empty());
    assert(inside(t) =~= body);
    let nothing = Seq::<char>::empty();
    lemma_parts_joined(ts, nothing);
    assert(nothing + body + nothing =~= body);
    assert(items.take(0) =~= Seq::empty());
    lemma_items_read(read, parts_of(body), items, 0, depth);
    reveal_strlit("true");
    reveal_strlit("false");
    assert("true"@[0] == 't' && "false"@[0] == 'f');
}

/// A key and a value with an equals sign between them stay in one part.
proof fn lemma_entry_part(w: Seq<char>, x: Seq<char>)
    requires
        calm_part(w),
        calm_part(x),
    ensures
        calm_part(w + seq![' ', '=', ' '] + x),
{
    let mid = seq![' ', '=', ' '];
    let t = w + mid + x;
    assert forall|s: Seq<char>, pos: int, part: Seq<char>, out: Seq<Seq<char>>|
        stands(s, pos, t) implies #[trigger] parts_from(s, pos, Within::Nothing, 0, part, out)
        == parts_from(s, pos + t.len(), Within::Nothing, 0, part + t, out) by {
        assert(t =~= w + (mid + x));
        lemma_parts(s, pos, w, mid + x);
        let p1 = pos + w.len();
        lemma_parts(s, p1, mid, x);
        lemma_part(s, pos, w, part, out);
        assert(s[p1 + 0] == ' ');
        assert(s[p1 + 1] == '=');
        assert(s[p1 + 2] == ' ');
        let a = (part + w).push(' ');
        let b = a.push('=');
        let c = b.push(' ');
        assert(parts_from(s, p1, Within::Nothing, 0, part + w, out) == parts_from(
            s,
            p1 + 1,
            Within::Nothing,
            0,
            a,
            out,
        ));
        assert(parts_from(s, p1 + 1, Within::Nothing, 0, a, out) == parts_from(
            s,
            p1 + 2,
            Within::Nothing,
            0,
            b,
            out,
        ));
        assert(parts_from(s, p1 + 2, Within::Nothing, 0, b, out) == parts_from(
            s,
            p1 + 3,
            Within::Nothing,
            0,
            c,
            out,
        ));
        lemma_part(s, p1 + 3, x, c, out);
        assert(c + x =~= part + t);
    }
}

/// An entry of a table reads back.
#[verifier::spinoff_prover]
#[verifier::rlimit(60)]
pub proof fn lemma_entry(read: Reading, e: (KeyV, ValueV), depth: int)
    requires
        e.0 matches KeyV::Str(k) && key_fits(k),
        reads_back(read, e.1, depth),
    ensures
        ({
            let k = e.0->Str_0;
            let t = entry_text(e);
            let at = written_key(k).len() as int + 1;
            &&& bare(t)
            &&& t[0] != '['
            &&& calm(t, 0, at_rest(), true)
            &&& calm_part(t)
            &&& equals_from(t, 0, Within::Nothing) == Some(at)
            &&& trimmed(t.take(at)) == written_key(k)
            &&& trimmed(t.skip(at + 1)) == inline_text(tree_of(e.1))
        }),
{
    let k = e.0->Str_0;
    lemma_key(k);
    let w = written_key(k);
    let x = inline_text(tree_of(e.1));
    let t = entry_text(e);
    reveal_strlit(" = ");
    let mid = " = "@;
    assert(mid =~= seq![' ', '=', ' ']);
    assert(t =~= w + mid + x);
    assert(t[0] == w[0]);
    assert(t.last() == x.last());
    let at = w.len() as int + 1;
    // The equals sign.
    assert(stands(t, 0, w)) by {
        assert forall|j: int| 0 <= j < w.len() implies t[0 + j] == #[trigger] w[j] by {}
    }
    lemma_tame_equals(t, w, 0, Within::Nothing);
    assert(t[w.len() as int] == ' ');
    assert(t[at] == '=');
    assert(equals_from(t, w.len() as int, Within::Nothing) == equals_from(
        t,
        at,
        Within::Nothing,
    ));
    // The pieces on both sides of it.
    assert(t.take(at) =~= Seq::<char>::empty() + w + seq![' ']);
    lemma_trim(Seq::empty(), w, seq![' ']);
    assert(t.skip(at + 1) =~= seq![' '] + x + Seq::<char>::empty());
    lemma_trim(seq![' '], x, Seq::empty());
    // The whole.
    assert(calm(mid, 0, at_rest(), true)) by {
        assert(scanned(' ', at_rest()) == at_rest());
        assert(scanned('=', at_rest()) == at_rest());
        assert(calm(mid, 3, at_rest(), true));
        assert(calm(mid, 2, at_rest(), true));
        assert(calm(mid, 1, at_rest(), true));
    }
    lemma_calm_loose(w, 0, at_rest());
    lemma_calm_loose(x, 0, at_rest());
    lemma_calm_join(w, mid, true);
    lemma_calm_join(w + mid, x, true);
    lemma_calm_is_part(w);
    lemma_calm_is_part(x);
    lemma_entry_part(w, x);
    assert(w + seq![' ', '=', ' '] + x =~= t);
}

pub proof fn lemma_new_key(entries: Seq<(KeyV, ValueV)>, i: int)
    requires
        distinct_keys(entries),
        0 <= i < entries.len(),
    ensures
        !has_key(entries.take(i), entries[i].0),
        inserted(entries.take(i), entries[i].0, entries[i].1) == entries.take(i + 1),
{
    let before = entries.take(i);
    if has_key(before, entries[i].0) {
        let j = choose|j: int| 0 <= j < before.len() && (#[trigger] before[j]).0 == entries[i].0;
        assert(entries[j].0 == entries[i].0);
    }
    assert(before.push((entries[i].0, entries[i].1)) =~= entries.take(i + 1));
}

proof fn lemma_entries_read(
    read: Reading,
    parts: Seq<Seq<char>>,
    entries: Seq<(KeyV, ValueV)>,
    i: int,
    depth: int,
)
    requires
        0 <= i <= entries.len(),
        depth <= 256,
        entries_fit(entries),
        parts.len() == entries.len(),
        forall|j: int|
            0 <= j < entries.len() ==> trimmed(#[trigger] parts[j]) == entry_texts(entries)[j],
        forall|j: int|
            0 <= j < entries.len() ==> reads_back(read, (#[trigger] entries[j]).1, depth + 1),
    ensures
        entries_of_parts(read, parts, i, depth, entries.take(i)) == Ok::<ValueV, Seq<char>>(
            ddict_v(entries),
        ),
    decreases entries.len() - i,
{
    if i < entries.len() {
        let e = entries[i];
        assert(reads_back(read, e.1, depth + 1));
        assert(e.0 matches KeyV::Str(k) && key_fits(k));
        let k = e.0->Str_0;
        lemma_entry(read, e, depth + 1);
        lemma_key(k);
        lemma_trim(Seq::empty(), inline_text(tree_of(e.1)), Seq::empty());
        assert(trimmed(parts[i]) == entry_texts(entries)[i]);
        lemma_new_key(entries, i);
        lemma_entries_read(read, parts, entries, i + 1, depth);
    } else {
        assert(entries.take(i) =~= entries);
    }
}

proof fn lemma_table(read: Reading, v: ValueV, entries: Seq<(KeyV, ValueV)>, depth: int)
    requires
        dyn_of(v) == DynV::Dict(entries),
        v == ddict_v(entries),
        depth <= 256,
        entries_fit(entries),
        forall|j: int|
            0 <= j < entries.len() ==> reads_back(read, (#[trigger] entries[j]).1, depth + 1),
    ensures
        reads_back(read, v, depth),
{
    lemma_tree(v);
    let ts = entry_texts(entries);
    assert forall|j: int| 0 <= j < entries.len() implies !(tree_of((#[trigger] entries[j]).1)
        is Null) by {
        assert(reads_back(read, entries[j].1, depth + 1));
    }
    lemma_entries_joined(entries, 0);
    let core = joined(ts, 0);
    let gap1 = seq![' '];
    let body = gap1 + core + gap1;
    let t = inline_text(tree_of(v));
    reveal_strlit("{ ");
    reveal_strlit(" }");
    assert("{ "@ =~= seq!['{', ' ']);
    assert(" }"@ =~= seq![' ', '}']);
    assert(t =~= seq!['{'] + body + seq!['}']);
    assert forall|j: int| 0 <= j < ts.len() implies bare(#[trigger] ts[j]) && calm_part(ts[j])
        && calm(ts[j], 0, at_rest(), true) by {
        assert(reads_back(read, entries[j].1, depth + 1));
        assert(entries[j].0 matches KeyV::Str(k) && key_fits(k));
        lemma_entry(read, entries[j], depth + 1);
    }
    lemma_joined_calm(ts, 0);
    assert(calm(gap1, 0, at_rest(), true)) by {
        assert(scanned(' ', at_rest()) == at_rest());
        assert(calm(gap1, 1, at_rest(), true));
    }
    lemma_calm_join(gap1, core, true);
    lemma_calm_join(gap1 + core, gap1, true);
    lemma_calm_wrapped('{', body, '}');
    assert(t[0] == '{' && t.last() == '}');
    lemma_trim(Seq::empty(), t, Seq::empty());
    assert(inside(t) =~= body);
    lemma_parts_joined(ts, gap1);
    assert(entries.take(0) =~= Seq::empty());
    lemma_entries_read(read, parts_of(body), entries, 0, depth);
    reveal_strlit("true");
    reveal_strlit("false");
    assert("true"@[0] == 't' && "false"@[0] == 'f');
}

proof fn lemma_text_value(read: Reading, v: ValueV, x: Seq<char>, depth: int)
    requires
        dyn_of(v) == DynV::Str(x),
        v == dstr_v(x),
        depth <= 256,
    ensures
        reads_back(read, v, depth),
{
    lemma_tree(v);
    lemma_calm_text(x);
    let t = quoted(x);
    assert(t[0] == '"' && t.last() == '"');
    lemma_trim(Seq::empty(), t, Seq::empty());
    let body = escaped_from(x, 0);
    assert(inside(t) =~= body);
    assert(stands(body, 0, body));
    lemma_unescaped("TOML"@, body, 0, x, 0, Seq::empty());
    assert(Seq::<char>::empty() + x.skip(0) =~= x);
    if t.len() >= 3 && t[1] == '"' {
        assert(t[1] == body[0]);
        assert(body[0] == escaped(x[0])[0]);
    }
}

pub proof fn lemma_reads_back(read: Reading, v: ValueV, depth: int)
    requires
        toml_holdable(read, v, depth),
    ensures
        reads_back(read, v, depth),
    decreases v,
{
    lemma_tree(v);
    match dyn_of(v) {
        DynV::Bool(b) => {
            reveal_strlit("true");
            reveal_strlit("false");
            let t = if b {
                "true"@
            } else {
                "false"@
            };
            lemma_word_calm(t, 0);
            assert(t.last() == 'e');
            lemma_trim(Seq::empty(), t, Seq::empty());
            assert("true"@ != "false"@) by {
                assert("true"@[0] == 't' && "false"@[0] == 'f');
            }
        },
        DynV::Int(n) => {
            lemma_int_value(read, n, depth);
        },
        DynV::Float(x) => {
            lemma_float_value(read, x, depth);
        },
        DynV::Str(x) => {
            lemma_text_value(read, v, x, depth);
        },
        DynV::List(items) => {
            lemma_list_smaller(v);
            assert forall|j: int| 0 <= j < items.len() implies reads_back(
                read,
                #[trigger] items[j],
                depth + 1,
            ) by {
                lemma_reads_back(read, items[j], depth + 1);
            }
            lemma_list(read, v, items, depth);
        },
        DynV::Dict(entries) => {
            lemma_dict_smaller(v);
            assert forall|j: int| 0 <= j < entries.len() implies reads_back(
                read,
                (#[trigger] entries[j]).1,
                depth + 1,
            ) by {
                lemma_reads_back(read, entries[j].1, depth + 1);
            }
            lemma_table(read, v, entries, depth);
        },
        _ => {},
    }
}

proof fn lemma_word_calm(s: Seq<char>, k: int)
    requires
        0 <= k,
        forall|i: int| 0 <= i < s.len() ==> 'a' <= #[trigger] s[i] <= 'z',
    ensures
        calm(s, k, at_rest(), false),
    decreases s.len() - k,
{
    if k < s.len() {
        assert('a' <= s[k] <= 'z');
        assert(scanned(s[k], at_rest()) == at_rest());
        lemma_word_calm(s, k + 1);
    }
}

// ---------------------------------------------------------------------------
// Documents
// ---------------------------------------------------------------------------

pub proof fn lemma_line(
    s: Seq<char>,
    pos: int,
    p: Seq<char>,
    k: int,
    part: Seq<char>,
    out: Seq<Seq<char>>,
)
    requires
        stands(s, pos, p),
        0 <= k <= p.len(),
        forall|j: int| 0 <= j < p.len() ==> #[trigger] p[j] != '\n',
    ensures
        lines_from(s, pos + k, part, out) == lines_from(s, pos + p.len(), part + p.skip(k), out),
    decreases p.len() - k,
{
    if k < p.len() {
        assert(s[pos + k] == p[k]);
        lemma_line(s, pos, p, k + 1, part.push(p[k]), out);
        assert(part.push(p[k]) + p.skip(k + 1) =~= part + p.skip(k));
    } else {
        assert(part + p.skip(k) =~= part);
    }
}

#[verifier::spinoff_prover]
#[verifier::rlimit(60)]
pub proof fn lemma_lines(
    s: Seq<char>,
    pos: int,
    entries: Seq<(KeyV, ValueV)>,
    i: int,
    out: Seq<Seq<char>>,
)
    requires
        0 <= i <= entries.len(),
        forall|j: int| 0 <= j < entries.len() ==> !(tree_of((#[trigger] entries[j]).1) is Null),
        forall|j: int|
            0 <= j < entries.len() ==> bare(entry_text(#[trigger] entries[j])) && calm(
                entry_text(entries[j]),
                0,
                at_rest(),
                true,
            ),
        stands(s, pos, root_lines(branches_of(entries), i)),
        pos + root_lines(branches_of(entries), i).len() == s.len(),
    ensures
        lines_from(s, pos, Seq::empty(), out) == out + entry_texts(entries).skip(i),
    decreases entries.len() - i,
{
    let nothing = Seq::<char>::empty();
    if i < entries.len() {
        let b = branches_of(entries)[i];
        assert(b == (key_text(entries[i].0), tree_of(entries[i].1)));
        let t = entry_text(entries[i]);
        assert(bare(t));
        let rest = root_lines(branches_of(entries), i + 1);
        reveal_strlit("\n");
        assert("\n"@ =~= seq!['\n']);
        assert(root_lines(branches_of(entries), i) =~= t + (seq!['\n'] + rest));
        lemma_parts(s, pos, t, seq!['\n'] + rest);
        lemma_parts(s, pos + t.len(), seq!['\n'], rest);
        lemma_calm_no_line_end(t, 0, at_rest(), true);
        lemma_line(s, pos, t, 0, nothing, out);
        assert(nothing + t.skip(0) =~= t);
        assert(s[pos + t.len() + 0] == seq!['\n'][0]);
        assert(chomped(t) == t);
        lemma_lines(s, pos + t.len() + 1, entries, i + 1, out.push(t));
        assert(out.push(t) + entry_texts(entries).skip(i + 1) =~= out + entry_texts(
            entries,
        ).skip(i));
    } else {
        assert(out + entry_texts(entries).skip(i) =~= out);
    }
}

pub proof fn lemma_logical(ts: Seq<Seq<char>>, i: int, out: Seq<Seq<char>>)
    requires
        0 <= i <= ts.len(),
        forall|j: int|
            0 <= j < ts.len() ==> bare(#[trigger] ts[j]) && calm(ts[j], 0, at_rest(), true),
    ensures
        logical_from(ts, i, Seq::empty(), 0, out) == Ok::<Seq<Seq<char>>, Seq<char>>(
            out + ts.skip(i),
        ),
    decreases ts.len() - i,
{
    let nothing = Seq::<char>::empty();
    if i < ts.len() {
        let t = ts[i];
        assert(bare(t));
        lemma_calm_comment(t, 0, at_rest(), true);
        assert(uncommented(t) =~= t);
        lemma_calm_brackets(t, 0, at_rest(), true);
        lemma_trim(nothing, t, nothing);
        assert(appended(nothing, t) == t);
        lemma_logical(ts, i + 1, out.push(t));
        assert(out.push(t) + ts.skip(i + 1) =~= out + ts.skip(i));
    } else {
        assert(trimmed(nothing).len() == 0);
        assert(out + ts.skip(i) =~= out);
    }
}

proof fn lemma_document(read: Reading, entries: Seq<(KeyV, ValueV)>, i: int)
    requires
        0 <= i <= entries.len(),
        entries_fit(entries),
        forall|j: int|
            0 <= j < entries.len() ==> reads_back(read, (#[trigger] entries[j]).1, 0),
    ensures
        document_from(
            read,
            entry_texts(entries),
            i,
            DocV { root: entries.take(i), current: Seq::empty() },
        ) == Ok::<ValueV, Seq<char>>(ddict_v(finished_entries(entries))),
    decreases entries.len() - i,
{
    let ts = entry_texts(entries);
    let doc = DocV { root: entries.take(i), current: Seq::<Seq<char>>::empty() };
    if i < entries.len() {
        let e = entries[i];
        assert(reads_back(read, e.1, 0));
        assert(e.0 matches KeyV::Str(k) && key_fits(k));
        let k = e.0->Str_0;
        let t = ts[i];
        lemma_entry(read, e, 0);
        lemma_key(k);
        lemma_trim(Seq::empty(), t, Seq::empty());
        lemma_trim(Seq::empty(), inline_text(tree_of(e.1)), Seq::empty());
        lemma_new_key(entries, i);
        assert(doc.current + seq![k] =~= seq![k]);
        assert(put(doc.root, seq![k], 0, GoalV::Leaf(e.1)) == Ok::<
            Seq<(KeyV, ValueV)>,
            Seq<char>,
        >(entries.take(i + 1)));
        lemma_document(read, entries, i + 1);
    } else {
        assert(entries.take(i) =~= entries);
    }
}

/// TOML can hold every text.
pub proof fn law_toml_holds_texts(read: Reading, x: Seq<char>, depth: int)
    requires
        depth <= 256,
    ensures
        toml_holdable(read, dstr_v(x), depth),
{
    reveal_strlit("Null");
    reveal_strlit("Str");
    assert("Str"@.len() != "Null"@.len());
    assert(dyn_of(dstr_v(x)) == DynV::Str(x));
}

/// What was written as TOML reads back: a table with values that TOML can hold.
pub proof fn law_toml_reads_back_what_it_wrote(
    read: Reading,
    v: ValueV,
    entries: Seq<(KeyV, ValueV)>,
)
    requires
        dyn_of(v) == DynV::Dict(entries),
        v == ddict_v(entries),
        entries_fit(entries),
        forall|i: int|
            0 <= i < entries.len() ==> toml_holdable(read, (#[trigger] entries[i]).1, 0),
    ensures
        toml_of(read, toml_text(tree_of(v))) == Ok::<ValueV, Seq<char>>(v),
{
    lemma_tree(v);
    let s = toml_text(tree_of(v));
    let ts = entry_texts(entries);
    assert forall|j: int| 0 <= j < entries.len() implies reads_back(
        read,
        (#[trigger] entries[j]).1,
        0,
    ) by {
        lemma_reads_back(read, entries[j].1, 0);
    }
    assert forall|j: int| 0 <= j < entries.len() implies bare(entry_text(#[trigger] entries[j]))
        && calm(entry_text(entries[j]), 0, at_rest(), true) by {
        assert(reads_back(read, entries[j].1, 0));
        assert(entries[j].0 matches KeyV::Str(k) && key_fits(k));
        lemma_entry(read, entries[j], 0);
    }
    assert(stands(s, 0, s));
    let none = Seq::<Seq<char>>::empty();
    lemma_lines(s, 0, entries, 0, none);
    assert(none + ts.skip(0) =~= ts);
    assert forall|j: int| 0 <= j < ts.len() implies bare(#[trigger] ts[j]) && calm(
        ts[j],
        0,
        at_rest(),
        true,
    ) by {
        assert(bare(entry_text(entries[j])));
    }
    lemma_logical(ts, 0, none);
    assert(entries.take(0) =~= Seq::empty());
    lemma_document(read, entries, 0);
    assert(finished_entries(entries) =~= entries) by {
        assert forall|j: int| 0 <= j < entries.len() implies finished_entries(entries)[j]
            == #[trigger] entries[j] by {
            assert(toml_holdable(read, entries[j].1, 0));
            assert(finished(entries[j].1) == entries[j].1);
        }
    }
}

} // verus!
