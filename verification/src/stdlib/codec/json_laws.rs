//! Reading back what was written as JSON.

use super::dynamic::{
    branches_of, dbool_v, ddict_v, dfloat_v, dint_v, dlist_v, dstr_v, dyn_of, lemma_tree, null_v,
    tree_of, trees_of, DynV,
};
use super::json::{
    branches_from, codec_floats, comma_before, digits_end, elements, escape, escaped, escaped_from,
    exponent_end, fraction_end, is_ws, items_from, json_of, json_text, json_text_by, keyword,
    members, number, quoted, string_rest, unicode_escape, value_at, whole_end, ws, FloatText,
    Reading,
};
use crate::eval::keys::KeyV;
use crate::eval::value::{distinct_keys, has_key, inserted, ValueV};
use crate::numerals::{
    all_digits, digits_value, hex_char, hex_digit, hex_of, hex_value, int_of, is_digit,
};
use crate::text::{digit, digits, int_text};
use vstd::prelude::*;

verus! {

/// The text `w` stands in `s` at `pos`.
pub open spec fn stands(s: Seq<char>, pos: int, w: Seq<char>) -> bool {
    &&& 0 <= pos
    &&& pos + w.len() <= s.len()
    &&& forall|k: int| 0 <= k < w.len() ==> s[pos + k] == #[trigger] w[k]
}

/// What follows a value that was written: the end, white space, or what separates or closes.
pub open spec fn ends_at(s: Seq<char>, pos: int) -> bool {
    pos == s.len() || (0 <= pos < s.len() && (s[pos] == ',' || s[pos] == ']' || s[pos] == '}'
        || is_ws(s[pos])))
}

/// A decimal number with a fraction or an exponent, and without needless zeros before its whole
/// part.
pub open spec fn is_decimal(t: Seq<char>) -> bool {
    exists|dot: int, mark: int| #[trigger] splits(t, dot, mark)
}

/// How many characters the sign of a number takes.
pub open spec fn minus_len(t: Seq<char>) -> int {
    if t.len() > 0 && t[0] == '-' {
        1
    } else {
        0
    }
}

/// Where the digits of the exponent at `mark` start.
pub open spec fn power_start(t: Seq<char>, mark: int) -> int {
    if mark + 1 < t.len() && t[mark + 1] == '-' {
        mark + 2
    } else {
        mark + 1
    }
}

/// The characters of a text from `a` up to `b` are digits.
pub open spec fn digits_within(t: Seq<char>, a: int, b: int) -> bool {
    forall|i: int| a <= i < b ==> is_digit(#[trigger] t[i])
}

/// The whole part of a number ends at `dot`, where its fraction starts if it has one, and its
/// exponent starts at `mark` if it has one.
pub open spec fn splits(t: Seq<char>, dot: int, mark: int) -> bool {
    let lead = minus_len(t);
    &&& lead < dot <= mark <= t.len()
    &&& dot < mark || mark < t.len()
    &&& digits_within(t, lead, dot)
    &&& t[lead] != '0' || dot == lead + 1
    &&& dot < mark ==> t[dot] == '.' && dot + 1 < mark && digits_within(t, dot + 1, mark)
    &&& mark < t.len() ==> {
        &&& t[mark] == 'e'
        &&& power_start(t, mark) < t.len()
        &&& digits_within(t, power_start(t, mark), t.len() as int)
    }
}

/// The characters of such a number.
pub proof fn lemma_decimal_chars(t: Seq<char>, dot: int, mark: int)
    requires
        splits(t, dot, mark),
    ensures
        forall|i: int|
            0 <= i < t.len() ==> is_digit(#[trigger] t[i]) || t[i] == '-' || t[i] == '.' || t[i]
                == 'e',
        forall|i: int| 0 <= i < t.len() && #[trigger] t[i] == '.' ==> i == dot && dot < mark,
        forall|i: int| 0 <= i < t.len() && #[trigger] t[i] == 'e' ==> i == mark,
        forall|i: int| 0 <= i < t.len() && #[trigger] t[i] == '-' ==> i == 0 || i == mark + 1,
        is_digit(t[t.len() - 1]),
{
    let lead = minus_len(t);
    assert forall|i: int| 0 <= i < t.len() implies {
        ||| is_digit(#[trigger] t[i])
        ||| t[i] == '-' && (i == 0 || i == mark + 1)
        ||| t[i] == '.' && i == dot && dot < mark
        ||| t[i] == 'e' && i == mark
    } by {
        if lead <= i < dot {
        } else if dot < i < mark {
        } else if mark < t.len() && power_start(t, mark) <= i {
        }
    }
}

/// A dynamic value that JSON can hold, inside `depth` containers: keys are texts and differ,
/// floats are written so that they read back, and containers do not nest too deep.
pub open spec fn holdable(read: Reading, float: FloatText, v: ValueV, depth: int) -> bool
    decreases v,
{
    &&& depth <= 256
    &&& match dyn_of(v) {
        DynV::Null => v == null_v(),
        DynV::Bool(b) => v == dbool_v(b),
        DynV::Int(n) => v == dint_v(n),
        DynV::Float(x) => v == dfloat_v(x) && is_decimal(float(x)) && read(float(x))
            == Some(x),
        DynV::Str(x) => v == dstr_v(x),
        DynV::List(items) => {
            proof {
                super::dynamic::lemma_list_smaller(v);
            }
            v == dlist_v(items) && forall|i: int|
                0 <= i < items.len() ==> holdable(read, float, #[trigger] items[i], depth + 1)
        },
        DynV::Dict(entries) => {
            proof {
                super::dynamic::lemma_dict_smaller(v);
            }
            v == ddict_v(entries) && distinct_keys(entries) && forall|i: int|
                0 <= i < entries.len() ==> (#[trigger] entries[i]).0 is Str && holdable(
                    read,
                    float,
                    entries[i].1,
                    depth + 1,
                )
        },
        _ => false,
    }
}

pub proof fn lemma_parts(s: Seq<char>, pos: int, a: Seq<char>, b: Seq<char>)
    requires
        stands(s, pos, a + b),
    ensures
        stands(s, pos, a),
        stands(s, pos + a.len(), b),
{
    assert forall|k: int| 0 <= k < a.len() implies s[pos + k] == #[trigger] a[k] by {
        assert((a + b)[k] == a[k]);
    }
    assert forall|k: int| 0 <= k < b.len() implies s[pos + a.len() + k] == #[trigger] b[k] by {
        assert((a + b)[a.len() + k] == b[k]);
    }
}

proof fn lemma_subrange(s: Seq<char>, pos: int, w: Seq<char>)
    requires
        stands(s, pos, w),
    ensures
        s.subrange(pos, pos + w.len()) == w,
{
    assert(s.subrange(pos, pos + w.len()) =~= w);
}

// ---------------------------------------------------------------------------
// Numbers
// ---------------------------------------------------------------------------

pub proof fn lemma_digits(n: nat)
    ensures
        digits(n).len() > 0,
        all_digits(digits(n)),
        digits_value(digits(n)) == n,
        n > 0 ==> digits(n)[0] != '0',
        n == 0 ==> digits(n).len() == 1,
    decreases n,
{
    if n < 10 {
        assert(digits(n) =~= seq![digit(n)]);
        reveal_with_fuel(digits_value, 2);
        assert(digits(n).drop_last() =~= Seq::empty());
    } else {
        lemma_digits(n / 10);
        let head = digits(n / 10);
        assert(digits(n).drop_last() =~= head);
        assert forall|i: int| 0 <= i < digits(n).len() implies is_digit(
            #[trigger] digits(n)[i],
        ) by {
            if i < head.len() {
                assert(is_digit(head[i]));
            }
        }
        assert(digits(n)[0] == head[0]);
    }
}

proof fn lemma_digits_run(s: Seq<char>, pos: int, w: Seq<char>)
    requires
        stands(s, pos, w),
        all_digits(w),
        pos + w.len() == s.len() || !is_digit(s[pos + w.len()]),
    ensures
        digits_end(s, pos) == pos + w.len(),
    decreases w.len(),
{
    if w.len() > 0 {
        assert(is_digit(w[0]));
        assert(s[pos + 0] == w[0]);
        let rest = w.drop_first();
        assert forall|k: int| 0 <= k < rest.len() implies s[pos + 1 + k] == #[trigger] rest[k] by {
            assert(w[k + 1] == rest[k]);
        }
        assert forall|i: int| 0 <= i < rest.len() implies is_digit(#[trigger] rest[i]) by {
            assert(is_digit(w[i + 1]));
        }
        lemma_digits_run(s, pos + 1, rest);
    }
}

pub proof fn lemma_int_text(n: i64)
    ensures
        int_of(int_text(n as int)) == Some(n),
        int_text(n as int).len() > 0,
        int_text(n as int)[0] == '-' || is_digit(int_text(n as int)[0]),
{
    if n < 0 {
        let m = (-(n as int)) as nat;
        lemma_digits(m);
        assert(int_text(n as int).drop_first() =~= digits(m));
    } else {
        lemma_digits(n as nat);
        assert(is_digit(digits(n as nat)[0]));
    }
}

proof fn lemma_int(read: Reading, s: Seq<char>, pos: int, n: i64)
    requires
        stands(s, pos, int_text(n as int)),
        ends_at(s, pos + int_text(n as int).len()),
    ensures
        number(read, s, pos) == Ok::<(ValueV, int), Seq<char>>(
            (dint_v(n), pos + int_text(n as int).len()),
        ),
{
    let w = int_text(n as int);
    lemma_int_text(n);
    lemma_subrange(s, pos, w);
    let m = if n < 0 {
        (-(n as int)) as nat
    } else {
        n as nat
    };
    lemma_digits(m);
    let ds = digits(m);
    let a = if n < 0 {
        pos + 1
    } else {
        pos
    };
    if n < 0 {
        assert(w =~= seq!['-'] + ds);
        lemma_parts(s, pos, seq!['-'], ds);
        assert(s[pos + 0] == seq!['-'][0]);
    } else {
        assert(w[0] == ds[0]);
        assert(is_digit(ds[0]));
        assert(s[pos + 0] == w[0]);
    }
    assert(s[a + 0] == ds[0]);
    assert(is_digit(ds[0]));
    lemma_digits_run(s, a, ds);
    if m > 0 {
        assert(whole_end(s, pos) == Ok::<int, Seq<char>>(a + ds.len()));
    }
}

/// The digits of `t` from `a` up to `b` are a run in `s`, where `t` stands at `pos`.
proof fn lemma_run(s: Seq<char>, pos: int, t: Seq<char>, a: int, b: int)
    requires
        stands(s, pos, t),
        0 <= a <= b <= t.len(),
        digits_within(t, a, b),
        pos + b == s.len() || !is_digit(s[pos + b]),
    ensures
        digits_end(s, pos + a) == pos + b,
{
    let w = t.subrange(a, b);
    assert forall|k: int| 0 <= k < w.len() implies s[pos + a + k] == #[trigger] w[k] by {
        assert(s[pos + (a + k)] == t[a + k]);
    }
    assert forall|k: int| 0 <= k < w.len() implies is_digit(#[trigger] w[k]) by {
        assert(is_digit(t[a + k]));
    }
    lemma_digits_run(s, pos + a, w);
}

proof fn lemma_decimal(read: Reading, float: FloatText, s: Seq<char>, pos: int, x: Seq<char>)
    requires
        is_decimal(float(x)),
        read(float(x)) == Some(x),
        stands(s, pos, float(x)),
        ends_at(s, pos + float(x).len()),
    ensures
        number(read, s, pos) == Ok::<(ValueV, int), Seq<char>>(
            (dfloat_v(x), pos + float(x).len()),
        ),
        pos < s.len(),
        s[pos] == '-' || is_digit(s[pos]),
{
    let t = float(x);
    lemma_subrange(s, pos, t);
    let (dot, mark) = choose|dot: int, mark: int| #[trigger] splits(t, dot, mark);
    assert(splits(t, dot, mark));
    let lead = minus_len(t);
    let end = t.len() as int;
    assert forall|k: int| 0 <= k < t.len() implies s[pos + k] == #[trigger] t[k] by {}
    assert(s[pos + 0] == t[0]);
    assert(is_digit(t[lead]) && s[pos + lead] == t[lead]);
    lemma_run(s, pos, t, lead, dot);
    if lead + 1 < dot {
        assert(is_digit(t[lead + 1]) && s[pos + lead + 1] == t[lead + 1]);
    }
    assert(whole_end(s, pos) == Ok::<int, Seq<char>>(pos + dot));
    if dot < mark {
        assert(s[pos + dot] == t[dot]);
        lemma_run(s, pos, t, dot + 1, mark);
    } else if mark < end {
        assert(s[pos + mark] == t[mark]);
    }
    assert(fraction_end(s, pos, pos + dot) == Ok::<(int, bool), Seq<char>>(
        (pos + mark, dot < mark),
    ));
    if mark < end {
        assert(s[pos + mark] == t[mark]);
        let from = power_start(t, mark);
        assert(s[pos + mark + 1] == t[mark + 1]);
        assert(is_digit(t[from]) && s[pos + from] == t[from]);
        lemma_run(s, pos, t, from, end);
    }
    assert(exponent_end(s, pos, pos + mark) == Ok::<(int, bool), Seq<char>>(
        (pos + end, mark < end),
    ));
}

// ---------------------------------------------------------------------------
// Strings
// ---------------------------------------------------------------------------

proof fn lemma_control(s: Seq<char>, pos: int, c: char)
    requires
        (c as u32) < 0x20,
        stands(s, pos, seq!['0', '0', hex_char((c as nat) / 16), hex_char((c as nat) % 16)]),
    ensures
        unicode_escape(s, pos) == Ok::<(char, int), Seq<char>>((c, pos + 4)),
{
    let w = seq!['0', '0', hex_char((c as nat) / 16), hex_char((c as nat) % 16)];
    lemma_subrange(s, pos, w);
    let w3 = w.drop_last();
    let w2 = w3.drop_last();
    let w1 = w2.drop_last();
    assert(w1.drop_last() =~= Seq::empty());
    assert(hex_value(w1.drop_last()) == Some(0nat));
    assert(hex_value(w1) == Some(0nat));
    assert(hex_value(w2) == Some(0nat));
    assert(hex_digit(w3.last()) == Some((c as nat) / 16));
    assert(hex_value(w3) == Some((c as nat) / 16));
    assert(hex_digit(w.last()) == Some((c as nat) % 16));
    assert(hex_value(w) == Some((16 * ((c as nat) / 16) + (c as nat) % 16) as nat));
    assert(hex_of(w) == Some(c as nat));
}

proof fn lemma_escaped(s: Seq<char>, pos: int, c: char)
    requires
        stands(s, pos, escaped(c)),
    ensures
        escaped(c).len() > 0,
        pos < s.len(),
        s[pos] != '"',
        if s[pos] == '\\' {
            escape(s, pos + 1) == Ok::<(char, int), Seq<char>>((c, pos + escaped(c).len()))
        } else {
            s[pos] == c && (c as u32) >= 0x20 && escaped(c).len() == 1
        },
{
    let w = escaped(c);
    assert(s[pos + 0] == w[0]);
    if c == '"' || c == '\\' || c == '\n' || c == '\r' || c == '\t' {
        assert(s[pos + 1] == w[1]);
    } else if (c as u32) < 0x20 {
        assert(s[pos + 1] == w[1]);
        let tail = seq!['0', '0', hex_char((c as nat) / 16), hex_char((c as nat) % 16)];
        assert(w =~= seq!['\\', 'u'] + tail);
        lemma_parts(s, pos, seq!['\\', 'u'], tail);
        lemma_control(s, pos + 2, c);
    }
}

proof fn lemma_string(s: Seq<char>, pos: int, x: Seq<char>, i: int, out: Seq<char>)
    requires
        0 <= i <= x.len(),
        stands(s, pos, escaped_from(x, i)),
        pos + escaped_from(x, i).len() < s.len(),
        s[pos + escaped_from(x, i).len()] == '"',
    ensures
        string_rest(s, pos, out) == Ok::<(Seq<char>, int), Seq<char>>(
            (out + x.skip(i), pos + escaped_from(x, i).len() + 1),
        ),
    decreases x.len() - i,
{
    if i < x.len() {
        let c = x[i];
        lemma_parts(s, pos, escaped(c), escaped_from(x, i + 1));
        lemma_escaped(s, pos, c);
        lemma_string(s, pos + escaped(c).len(), x, i + 1, out.push(c));
        assert(out.push(c) + x.skip(i + 1) =~= out + x.skip(i));
    } else {
        assert(out + x.skip(i) =~= out);
    }
}

pub proof fn lemma_quoted(s: Seq<char>, pos: int, x: Seq<char>)
    requires
        stands(s, pos, quoted(x)),
    ensures
        quoted(x).len() >= 2,
        pos < s.len(),
        s[pos] == '"',
        string_rest(s, pos + 1, Seq::empty()) == Ok::<(Seq<char>, int), Seq<char>>(
            (x, pos + quoted(x).len()),
        ),
{
    let inner = escaped_from(x, 0);
    assert(quoted(x) =~= seq!['"'] + (inner + seq!['"']));
    lemma_parts(s, pos, seq!['"'], inner + seq!['"']);
    lemma_parts(s, pos + 1, inner, seq!['"']);
    assert(s[pos + 0] == seq!['"'][0]);
    assert(s[pos + 1 + inner.len() + 0] == seq!['"'][0]);
    lemma_string(s, pos + 1, x, 0, Seq::empty());
    assert(Seq::empty() + x.skip(0) =~= x);
}

// ---------------------------------------------------------------------------
// Values
// ---------------------------------------------------------------------------

proof fn lemma_keyword(s: Seq<char>, pos: int, word: Seq<char>, i: int)
    requires
        0 <= i <= word.len(),
        stands(s, pos - i, word),
    ensures
        keyword(s, pos, word, i) == Ok::<int, Seq<char>>(pos - i + word.len()),
    decreases word.len() - i,
{
    if i < word.len() {
        assert(s[pos - i + i] == word[i]);
        lemma_keyword(s, pos + 1, word, i + 1);
    }
}

/// What was written for a value reads back as it.
#[verifier::spinoff_prover]
#[verifier::rlimit(60)]
pub proof fn lemma_value(read: Reading, float: FloatText, v: ValueV, s: Seq<char>, pos: int, depth: int)
    requires
        0 <= depth,
        holdable(read, float, v, depth),
        stands(s, pos, json_text_by(float, tree_of(v))),
        ends_at(s, pos + json_text_by(float, tree_of(v)).len()),
    ensures
        json_text_by(float, tree_of(v)).len() > 0,
        !is_ws(s[pos]),
        s[pos] != ']',
        value_at(read, s, pos, depth) == Ok::<(ValueV, int), Seq<char>>(
            (v, pos + json_text_by(float, tree_of(v)).len()),
        ),
    decreases v, 1int, 0int,
{
    let w = json_text_by(float, tree_of(v));
    lemma_tree(v);
    match dyn_of(v) {
        DynV::Null => {
            reveal_strlit("null");
            assert(s[pos + 0] == w[0]);
            lemma_keyword(s, pos, "null"@, 0);
        },
        DynV::Bool(b) => {
            reveal_strlit("true");
            reveal_strlit("false");
            assert(s[pos + 0] == w[0]);
            if b {
                lemma_keyword(s, pos, "true"@, 0);
            } else {
                lemma_keyword(s, pos, "false"@, 0);
            }
        },
        DynV::Int(n) => {
            lemma_int_text(n);
            assert(s[pos + 0] == w[0]);
            lemma_int(read, s, pos, n);
        },
        DynV::Float(x) => {
            lemma_decimal(read, float, s, pos, x);
        },
        DynV::Str(x) => {
            lemma_quoted(s, pos, x);
        },
        DynV::List(items) => {
            super::dynamic::lemma_list_smaller(v);
            let inner = items_from(float, trees_of(items), 0);
            assert(w =~= seq!['['] + (inner + seq![']']));
            lemma_parts(s, pos, seq!['['], inner + seq![']']);
            lemma_parts(s, pos + 1, inner, seq![']']);
            assert(s[pos + 0] == seq!['['][0]);
            assert(s[pos + 1 + inner.len() + 0] == seq![']'][0]);
            if items.len() == 0 {
                assert(items =~= Seq::empty());
            } else {
                assert(comma_before(0) + json_text_by(float, trees_of(items)[0]) + items_from(float, 
                    trees_of(items),
                    1,
                ) =~= json_text_by(float, trees_of(items)[0]) + items_from(float, trees_of(items), 1));
                lemma_parts(
                    s,
                    pos + 1,
                    json_text_by(float, trees_of(items)[0]),
                    items_from(float, trees_of(items), 1),
                );
                lemma_items_end(float, s, pos + 1 + json_text_by(float, trees_of(items)[0]).len(), items, 1);
                lemma_value(read, float, items[0], s, pos + 1, depth + 1);
                assert(items.take(0) =~= Seq::empty());
                assert(ws(s, pos + 1) == pos + 1);
                lemma_elements(read, float, v, items, s, pos + 1, 0, depth);
            }
        },
        DynV::Dict(entries) => {
            super::dynamic::lemma_dict_smaller(v);
            let branches = branches_of(entries);
            let inner = branches_from(float, branches, 0);
            assert(w =~= seq!['{'] + (inner + seq!['}']));
            lemma_parts(s, pos, seq!['{'], inner + seq!['}']);
            lemma_parts(s, pos + 1, inner, seq!['}']);
            assert(s[pos + 0] == seq!['{'][0]);
            assert(s[pos + 1 + inner.len() + 0] == seq!['}'][0]);
            if entries.len() == 0 {
                assert(entries =~= Seq::empty());
            } else {
                let rest = seq![':'] + json_text_by(float, branches[0].1) + branches_from(float, branches, 1);
                assert(inner =~= quoted(branches[0].0) + rest);
                lemma_parts(s, pos + 1, quoted(branches[0].0), rest);
                lemma_quoted(s, pos + 1, branches[0].0);
                assert(entries.take(0) =~= Seq::empty());
                assert(ws(s, pos + 1) == pos + 1);
                lemma_members(read, float, v, entries, s, pos + 1, 0, depth);
            }
        },
        _ => {},
    }
}

/// What follows an item of a list is a comma or the closing bracket.
proof fn lemma_items_end(float: FloatText, s: Seq<char>, pos: int, items: Seq<ValueV>, i: int)
    requires
        0 < i <= items.len(),
        stands(s, pos, items_from(float, trees_of(items), i)),
        pos + items_from(float, trees_of(items), i).len() < s.len(),
        s[pos + items_from(float, trees_of(items), i).len()] == ']',
    ensures
        ends_at(s, pos),
        s[pos] == (if i < items.len() {
            ','
        } else {
            ']'
        }),
{
    if i < items.len() {
        let tail = json_text_by(float, trees_of(items)[i]) + items_from(float, trees_of(items), i + 1);
        assert(items_from(float, trees_of(items), i) =~= seq![','] + tail);
        lemma_parts(s, pos, seq![','], tail);
        assert(s[pos + 0] == seq![','][0]);
    }
}

/// The rest of a list, whose `i`-th item stands at `pos`, reads back.
#[verifier::spinoff_prover]
#[verifier::rlimit(60)]
proof fn lemma_elements(
    read: Reading,
    float: FloatText,
    v: ValueV,
    items: Seq<ValueV>,
    s: Seq<char>,
    pos: int,
    i: int,
    depth: int,
)
    requires
        0 <= depth,
        dyn_of(v) == DynV::List(items),
        holdable(read, float, v, depth),
        0 <= i < items.len(),
        stands(s, pos, json_text_by(float, tree_of(items[i])) + items_from(float, trees_of(items), i + 1)),
        pos + json_text_by(float, tree_of(items[i])).len() + items_from(float, trees_of(items), i + 1).len()
            < s.len(),
        s[pos + json_text_by(float, tree_of(items[i])).len() + items_from(float, trees_of(items), i + 1).len()]
            == ']',
    ensures
        elements(read, s, pos, depth, items.take(i)) == Ok::<(ValueV, int), Seq<char>>(
            (
                v,
                pos + json_text_by(float, tree_of(items[i])).len() + items_from(float, 
                    trees_of(items),
                    i + 1,
                ).len() + 1,
            ),
        ),
    decreases v, 0int, items.len() - i,
{
    super::dynamic::lemma_list_smaller(v);
    let first = json_text_by(float, tree_of(items[i]));
    let more = items_from(float, trees_of(items), i + 1);
    lemma_parts(s, pos, first, more);
    let q = pos + first.len();
    lemma_items_end(float, s, q, items, i + 1);
    lemma_value(read, float, items[i], s, pos, depth + 1);
    assert(ws(s, q) == q);
    assert(items.take(i).push(items[i]) =~= items.take(i + 1));
    if i + 1 < items.len() {
        let tail = json_text_by(float, tree_of(items[i + 1])) + items_from(float, trees_of(items), i + 2);
        assert(more =~= seq![','] + tail);
        lemma_parts(s, q, seq![','], tail);
        lemma_elements(read, float, v, items, s, q + 1, i + 1, depth);
    } else {
        assert(items.take(i + 1) =~= items);
    }
}

/// What follows a member of an object is a comma or the closing brace.
proof fn lemma_members_end(float: FloatText, s: Seq<char>, pos: int, entries: Seq<(KeyV, ValueV)>, i: int)
    requires
        0 < i <= entries.len(),
        stands(s, pos, branches_from(float, branches_of(entries), i)),
        pos + branches_from(float, branches_of(entries), i).len() < s.len(),
        s[pos + branches_from(float, branches_of(entries), i).len()] == '}',
    ensures
        ends_at(s, pos),
        s[pos] == (if i < entries.len() {
            ','
        } else {
            '}'
        }),
{
    if i < entries.len() {
        let b = branches_of(entries);
        let tail = quoted(b[i].0) + seq![':'] + json_text_by(float, b[i].1) + branches_from(float, b, i + 1);
        assert(branches_from(float, b, i) =~= seq![','] + tail);
        lemma_parts(s, pos, seq![','], tail);
        assert(s[pos + 0] == seq![','][0]);
    }
}

/// The rest of an object, whose `i`-th member stands at `pos`, reads back.
#[verifier::spinoff_prover]
#[verifier::rlimit(60)]
proof fn lemma_members(
    read: Reading,
    float: FloatText,
    v: ValueV,
    entries: Seq<(KeyV, ValueV)>,
    s: Seq<char>,
    pos: int,
    i: int,
    depth: int,
)
    requires
        0 <= depth,
        dyn_of(v) == DynV::Dict(entries),
        holdable(read, float, v, depth),
        0 <= i < entries.len(),
        stands(s, pos, member_text(float, entries, i)),
        pos + member_text(float, entries, i).len() < s.len(),
        s[pos + member_text(float, entries, i).len()] == '}',
    ensures
        members(read, s, pos, depth, entries.take(i)) == Ok::<(ValueV, int), Seq<char>>(
            (v, pos + member_text(float, entries, i).len() + 1),
        ),
    decreases v, 0int, entries.len() - i,
{
    super::dynamic::lemma_dict_smaller(v);
    let b = branches_of(entries);
    let key = quoted(b[i].0);
    let val = json_text_by(float, b[i].1);
    let more = branches_from(float, b, i + 1);
    assert(member_text(float, entries, i) =~= key + (seq![':'] + (val + more)));
    lemma_parts(s, pos, key, seq![':'] + (val + more));
    lemma_quoted(s, pos, b[i].0);
    let q = pos + key.len();
    lemma_parts(s, q, seq![':'], val + more);
    assert(s[q + 0] == seq![':'][0]);
    lemma_parts(s, q + 1, val, more);
    let e = q + 1 + val.len();
    assert(e + more.len() == pos + member_text(float, entries, i).len());
    lemma_members_end(float, s, e, entries, i + 1);
    assert(entries[i].0 is Str);
    lemma_value(read, float, entries[i].1, s, q + 1, depth + 1);
    assert(ws(s, pos) == pos);
    assert(ws(s, q) == q);
    assert(ws(s, q + 1) == q + 1);
    assert(ws(s, e) == e);
    assert(!has_key(entries.take(i), entries[i].0)) by {
        if has_key(entries.take(i), entries[i].0) {
            let j = choose|j: int|
                0 <= j < entries.take(i).len() && (#[trigger] entries.take(i)[j]).0
                    == entries[i].0;
            assert(entries[j].0 == entries[i].0);
        }
    }
    assert(inserted(entries.take(i), entries[i].0, entries[i].1) =~= entries.take(i + 1));
    if i + 1 < entries.len() {
        assert(more =~= seq![','] + member_text(float, entries, i + 1));
        lemma_parts(s, e, seq![','], member_text(float, entries, i + 1));
        lemma_members(read, float, v, entries, s, e + 1, i + 1, depth);
    } else {
        assert(entries.take(i + 1) =~= entries);
    }
}

/// The members of an object from the `i`-th on, without a comma before them.
spec fn member_text(float: FloatText, entries: Seq<(KeyV, ValueV)>, i: int) -> Seq<char> {
    let b = branches_of(entries);
    quoted(b[i].0) + seq![':'] + json_text_by(float, b[i].1) + branches_from(float, b, i + 1)
}

/// What a value was written as in JSON, with floats written by `float`, reads back as that value.
pub proof fn law_json_reads_back_whatever_writes_floats(read: Reading, float: FloatText, v: ValueV)
    requires
        holdable(read, float, v, 0),
    ensures
        json_of(read, json_text_by(float, tree_of(v))) == Ok::<ValueV, Seq<char>>(v),
{
    let s = json_text_by(float, tree_of(v));
    assert(stands(s, 0, s));
    lemma_value(read, float, v, s, 0, 0);
    assert(ws(s, 0) == 0);
    assert(ws(s, s.len() as int) == s.len());
}

/// What a value was written as in JSON reads back as that value.
pub proof fn law_json_reads_back_what_it_wrote(read: Reading, v: ValueV)
    requires
        holdable(read, codec_floats(), v, 0),
    ensures
        json_of(read, json_text(tree_of(v))) == Ok::<ValueV, Seq<char>>(v),
{
    law_json_reads_back_whatever_writes_floats(read, codec_floats(), v);
}

} // verus!
