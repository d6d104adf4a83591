//! Reading back what was written as YAML.

use super::dynamic::{
    branches_of, dbool_v, ddict_v, dfloat_v, dint_v, dlist_v, dstr_v, dyn_of, float_text,
    lemma_dict_smaller, lemma_list_smaller, lemma_tree, null_v, tree_of, trees_of, DynV, Tree,
};
use super::escapes::{unescaped, unescaped_from};
use super::json::Reading;
use super::json_laws::{
    is_decimal, lemma_decimal_chars, lemma_digits, lemma_int_text, lemma_parts, minus_len, splits,
    stands,
};
use super::toml::{passed, Within};
use super::toml_laws::{bare, lemma_line, lemma_new_key, lemma_trim};
use super::yaml::{
    ambiguous, ascii_lower, behind_dash, block, child_text, colon_from, colon_of, comment_from,
    content_from, double_from, float_char, float_like, float_mark, flows, guarded, guarded_from,
    in_quotes, indent_of, is_block, is_item, items_from, mapping, nested, node_text, pairs_from,
    parts_documents, plain_key, plain_or_unquoted, same_word, scalar_of, scalar_text, sequence, unsupported,
    tab_leads, uncommented, width, widths, written_key, written_text, yaml_of, yaml_text, LineV,
};
use crate::eval::keys::KeyV;
use crate::eval::value::{distinct_keys, ValueV};
use crate::numerals::{all_digits, int_of, is_digit};
use crate::text::{
    chomped, digits, int_text, is_space, lines_from, starts_with, trim_left, trim_right, trimmed,
};
use vstd::prelude::*;
use vstd::string::*;

verus! {

// ---------------------------------------------------------------------------
// Quoted texts
// ---------------------------------------------------------------------------

proof fn lemma_unguarded(s: Seq<char>, pos: int, x: Seq<char>, i: int, lines: bool, out: Seq<char>)
    requires
        0 <= i <= x.len(),
        stands(s, pos, guarded_from(x, i, lines)),
        pos + guarded_from(x, i, lines).len() == s.len(),
    ensures
        unescaped_from("YAML"@, s, pos, out) == Ok::<Seq<char>, Seq<char>>(out + x.skip(i)),
    decreases x.len() - i,
{
    if i < x.len() {
        let w = guarded(x[i], lines);
        lemma_parts(s, pos, w, guarded_from(x, i + 1, lines));
        assert(s[pos + 0] == w[0]);
        if w.len() == 2 {
            assert(s[pos + 1] == w[1]);
        }
        lemma_unguarded(s, pos + w.len(), x, i + 1, lines, out.push(x[i]));
        assert(out.push(x[i]) + x.skip(i + 1) =~= out + x.skip(i));
    } else {
        assert(out + x.skip(i) =~= out);
    }
}

proof fn lemma_double(s: Seq<char>, pos: int, x: Seq<char>, i: int, lines: bool)
    requires
        0 <= i <= x.len(),
        stands(s, pos, guarded_from(x, i, lines) + seq!['"']),
        pos + guarded_from(x, i, lines).len() + 1 == s.len(),
    ensures
        double_from(s, pos, false) == unescaped("YAML"@, s.take(s.len() - 1)),
    decreases x.len() - i,
{
    if i < x.len() {
        let w = guarded(x[i], lines);
        let rest = guarded_from(x, i + 1, lines) + seq!['"'];
        assert(guarded_from(x, i, lines) + seq!['"'] =~= w + rest);
        lemma_parts(s, pos, w, rest);
        assert(s[pos + 0] == w[0]);
        if w.len() == 2 {
            assert(s[pos + 1] == w[1]);
            assert(double_from(s, pos, false) == double_from(s, pos + 1, true));
            assert(double_from(s, pos + 1, true) == double_from(s, pos + 2, false));
        } else {
            assert(double_from(s, pos, false) == double_from(s, pos + 1, false));
        }
        lemma_double(s, pos + w.len(), x, i + 1, lines);
    } else {
        assert(guarded_from(x, i, lines) + seq!['"'] =~= seq!['"']);
        assert(s[pos + 0] == seq!['"'][0]);
        assert(s.skip(pos + 1) =~= Seq::empty());
    }
}

/// A text in quotes reads back.
proof fn lemma_in_quotes(x: Seq<char>, lines: bool)
    ensures
        bare(in_quotes(x, lines)),
        in_quotes(x, lines)[0] == '"',
        double_from(in_quotes(x, lines).drop_first(), 0, false) == Ok::<Seq<char>, Seq<char>>(x),
{
    let t = in_quotes(x, lines);
    let body = guarded_from(x, 0, lines);
    let s = t.drop_first();
    assert(s =~= body + seq!['"']);
    assert(t.last() == '"');
    assert(stands(s, 0, s));
    lemma_double(s, 0, x, 0, lines);
    assert(s.take(s.len() - 1) =~= body);
    assert(stands(body, 0, body));
    lemma_unguarded(body, 0, x, 0, lines, Seq::empty());
    assert(Seq::<char>::empty() + x.skip(0) =~= x);
}

// ---------------------------------------------------------------------------
// Comments
// ---------------------------------------------------------------------------

/// Where a value stands at the end of a line, no comment starts in it.
pub open spec fn holds_no_comment(x: Seq<char>) -> bool {
    forall|s: Seq<char>, pos: int|
        stands(s, pos, x) && pos + x.len() == s.len() ==> #[trigger] comment_from(
            s,
            pos,
            Within::Nothing,
        ) == s.len()
}

proof fn lemma_no_hash_from(s: Seq<char>, i: int, w: Within)
    requires
        0 <= i,
        forall|j: int| i <= j < s.len() ==> #[trigger] s[j] != '#',
    ensures
        comment_from(s, i, w) == s.len(),
    decreases s.len() - i,
{
    if i < s.len() {
        assert(s[i] != '#');
        lemma_no_hash_from(s, i + 1, passed(s[i], w));
    }
}

proof fn lemma_no_hash(x: Seq<char>)
    requires
        !x.contains('#'),
    ensures
        holds_no_comment(x),
{
    assert forall|s: Seq<char>, pos: int|
        stands(s, pos, x) && pos + x.len() == s.len() implies #[trigger] comment_from(
        s,
        pos,
        Within::Nothing,
    ) == s.len() by {
        assert forall|j: int| pos <= j < s.len() implies #[trigger] s[j] != '#' by {
            assert(s[pos + (j - pos)] == x[j - pos]);
            assert(x.contains(x[j - pos]));
        }
        lemma_no_hash_from(s, pos, Within::Nothing);
    }
}

/// In quotes neither a comment nor a pair starts.
proof fn lemma_body_hides(s: Seq<char>, pos: int, x: Seq<char>, i: int, lines: bool)
    requires
        0 <= i <= x.len(),
        stands(s, pos, guarded_from(x, i, lines) + seq!['"']),
        pos + guarded_from(x, i, lines).len() + 1 == s.len(),
    ensures
        comment_from(s, pos, Within::Basic) == s.len(),
        colon_from(s, pos, Within::Basic) is None,
    decreases x.len() - i,
{
    if i < x.len() {
        let w = guarded(x[i], lines);
        let rest = guarded_from(x, i + 1, lines) + seq!['"'];
        assert(guarded_from(x, i, lines) + seq!['"'] =~= w + rest);
        lemma_parts(s, pos, w, rest);
        assert(s[pos + 0] == w[0]);
        if w.len() == 2 {
            assert(s[pos + 1] == w[1]);
            assert(comment_from(s, pos, Within::Basic) == comment_from(s, pos + 1, Within::Escape));
            assert(comment_from(s, pos + 1, Within::Escape) == comment_from(
                s,
                pos + 2,
                Within::Basic,
            ));
            assert(colon_from(s, pos, Within::Basic) == colon_from(s, pos + 1, Within::Escape));
            assert(colon_from(s, pos + 1, Within::Escape) == colon_from(
                s,
                pos + 2,
                Within::Basic,
            ));
        }
        lemma_body_hides(s, pos + w.len(), x, i + 1, lines);
    } else {
        assert(guarded_from(x, i, lines) + seq!['"'] =~= seq!['"']);
        assert(s[pos + 0] == seq!['"'][0]);
        assert(comment_from(s, pos + 1, Within::Nothing) == s.len());
        assert(colon_from(s, pos + 1, Within::Nothing) is None);
    }
}

proof fn lemma_quotes_hide(x: Seq<char>, lines: bool)
    ensures
        holds_no_comment(in_quotes(x, lines)),
        colon_of(in_quotes(x, lines)) is None,
{
    let t = in_quotes(x, lines);
    let rest = guarded_from(x, 0, lines) + seq!['"'];
    assert(t =~= seq!['"'] + rest);
    assert forall|s: Seq<char>, pos: int|
        stands(s, pos, t) && pos + t.len() == s.len() implies #[trigger] comment_from(
        s,
        pos,
        Within::Nothing,
    ) == s.len() by {
        lemma_parts(s, pos, seq!['"'], rest);
        assert(s[pos + 0] == seq!['"'][0]);
        lemma_body_hides(s, pos + 1, x, 0, lines);
    }
    assert(stands(t, 0, t));
    lemma_parts(t, 0, seq!['"'], rest);
    assert(t[0] == '"');
    lemma_body_hides(t, 1, x, 0, lines);
}

proof fn lemma_guarded_lines(x: Seq<char>, i: int)
    requires
        0 <= i,
    ensures
        forall|j: int|
            0 <= j < guarded_from(x, i, true).len() ==> #[trigger] guarded_from(x, i, true)[j]
                != '\n',
    decreases x.len() - i,
{
    if i < x.len() {
        lemma_guarded_lines(x, i + 1);
        let w = guarded(x[i], true);
        let rest = guarded_from(x, i + 1, true);
        assert forall|j: int| 0 <= j < (w + rest).len() implies #[trigger] (w + rest)[j]
            != '\n' by {
            if j >= w.len() {
                assert(rest[j - w.len()] != '\n');
            }
        }
    }
}

// ---------------------------------------------------------------------------
// Scalars
// ---------------------------------------------------------------------------

/// A value that is written in one line and reads back from it.
pub open spec fn scalar_fits(read: Reading, v: ValueV) -> bool {
    match dyn_of(v) {
        DynV::Null => v == null_v(),
        DynV::Bool(b) => v == dbool_v(b),
        DynV::Int(n) => v == dint_v(n),
        DynV::Float(x) => v == dfloat_v(x) && is_decimal(float_text(x)) && read(float_text(x))
            == Some(x),
        DynV::Str(x) => v == dstr_v(x),
        _ => false,
    }
}

/// Digits, signs, a point and the mark of an exponent: the characters of numbers.
spec fn number_like(s: Seq<char>) -> bool {
    forall|i: int|
        0 <= i < s.len() ==> is_digit(#[trigger] s[i]) || s[i] == '-' || s[i] == '.' || s[i] == 'e'
}

proof fn lemma_no_colon(s: Seq<char>, i: int, w: Within)
    requires
        0 <= i,
        forall|j: int| 0 <= j < s.len() ==> #[trigger] s[j] != ':',
    ensures
        colon_from(s, i, w) is None,
    decreases s.len() - i,
{
    if i < s.len() {
        assert(s[i] != ':');
        lemma_no_colon(s, i + 1, passed(s[i], w));
    }
}

/// What is known of the text of a scalar.
pub open spec fn scalar_reads(read: Reading, x: Seq<char>, v: ValueV) -> bool {
    &&& bare(x)
    &&& holds_no_comment(x)
    &&& forall|j: int| 0 <= j < x.len() ==> #[trigger] x[j] != '\n'
    &&& scalar_of(read, x) == Ok::<ValueV, Seq<char>>(v)
    &&& !is_item(x)
}

proof fn lemma_number(read: Reading, x: Seq<char>)
    requires
        number_like(x),
        x.len() > 0,
        is_digit(x.last()),
    ensures
        bare(x),
        holds_no_comment(x),
        forall|j: int| 0 <= j < x.len() ==> #[trigger] x[j] != '\n',
        colon_of(x) is None,
        !is_item(x),
        scalar_of(read, x) == match int_of(x) {
            Some(n) => Ok::<ValueV, Seq<char>>(dint_v(n)),
            None => if float_like(x) {
                match read(x) {
                    Some(y) => Ok(dfloat_v(y)),
                    None => Ok(dstr_v(x)),
                }
            } else {
                Ok(dstr_v(x))
            },
        },
        !parts_documents(x),
{
    assert(is_digit(x[0]) || x[0] == '-' || x[0] == '.' || x[0] == 'e');
    let l = x.len() - 1;
    assert(is_digit(x[l]) || x[l] == '-' || x[l] == '.' || x[l] == 'e');
    lemma_trim(Seq::empty(), x, Seq::empty());
    assert forall|j: int| 0 <= j < x.len() implies #[trigger] x[j] != '\n' && x[j] != ':' && x[j]
        != '#' && x[j] != ' ' by {
        assert(is_digit(x[j]) || x[j] == '-' || x[j] == '.' || x[j] == 'e');
    }
    assert(!x.contains('#'));
    lemma_no_hash(x);
    lemma_no_colon(x, 0, Within::Nothing);
    reveal_strlit("~");
    reveal_strlit("null");
    reveal_strlit("true");
    reveal_strlit("false");
    assert("~"@[0] == '~');
    assert(!same_word(x, "null"@)) by {
        assert("null"@[0] == 'n');
        assert(ascii_lower(x[0]) == x[0]);
    }
    assert(!same_word(x, "true"@)) by {
        assert("true"@[0] == 't');
        assert(ascii_lower(x[0]) == x[0]);
    }
    assert(!same_word(x, "false"@)) by {
        assert("false"@[0] == 'f');
        assert(ascii_lower(x[0]) == x[0]);
    }
    reveal_strlit("-");
    reveal_strlit("- ");
    assert("- "@[1] == ' ');
    if starts_with(x, "- "@) {
        assert(x[1] == ' ');
    }
    reveal_strlit("---");
    reveal_strlit("...");
    reveal_strlit("--- ");
    assert("..."@[2] == '.');
    assert("..."@.last() == '.');
    assert("---"@.last() == '-');
    assert("--- "@[3] == ' ');
    if starts_with(x, "--- "@) {
        assert(x[3] == ' ');
    }
}

proof fn lemma_int(read: Reading, n: i64)
    ensures
        scalar_reads(read, int_text(n as int), dint_v(n)),
        colon_of(int_text(n as int)) is None,
        !parts_documents(int_text(n as int)),
{
    let s = int_text(n as int);
    lemma_int_text(n);
    let m = if n < 0 {
        (-(n as int)) as nat
    } else {
        n as nat
    };
    lemma_digits(m);
    let ds = digits(m);
    let lead = if n < 0 {
        seq!['-']
    } else {
        Seq::empty()
    };
    assert(s =~= lead + ds);
    assert forall|i: int| 0 <= i < s.len() implies is_digit(#[trigger] s[i]) || s[i] == '-'
        || s[i] == '.' by {
        if i >= lead.len() {
            assert(s[i] == ds[i - lead.len()]);
            assert(is_digit(ds[i - lead.len()]));
        }
    }
    assert(s.last() == ds[ds.len() - 1]);
    assert(is_digit(ds[ds.len() - 1]));
    lemma_number(read, s);
}

proof fn lemma_float(read: Reading, x: Seq<char>)
    requires
        is_decimal(float_text(x)),
        read(float_text(x)) == Some(x),
    ensures
        scalar_reads(read, float_text(x), dfloat_v(x)),
        colon_of(float_text(x)) is None,
        !parts_documents(float_text(x)),
{
    let s = float_text(x);
    let (dot, mark) = choose|dot: int, mark: int| #[trigger] splits(s, dot, mark);
    assert(splits(s, dot, mark));
    lemma_decimal_chars(s, dot, mark);
    let lead = minus_len(s);
    lemma_number(read, s);
    let at = if dot < mark {
        dot
    } else {
        mark
    };
    assert(float_mark(s[at]));
    assert(is_digit(s[s.len() - 1]));
    assert forall|i: int| 0 <= i < s.len() implies float_char(#[trigger] s[i]) by {
        assert(is_digit(s[i]) || s[i] == '-' || s[i] == '.' || s[i] == 'e');
    }
    assert(float_like(s));
    assert(!all_digits(s) && !all_digits(s.drop_first())) by {
        assert(!is_digit(s[at]));
        assert(s.drop_first()[at - 1] == s[at]);
    }
    assert(int_of(s) is None);
}

proof fn lemma_word(read: Reading, x: Seq<char>, v: ValueV)
    requires
        (x == "null"@ && v == null_v()) || (x == "true"@ && v == dbool_v(true)) || (x == "false"@
            && v == dbool_v(false)),
    ensures
        scalar_reads(read, x, v),
        colon_of(x) is None,
        !parts_documents(x),
{
    reveal_strlit("null");
    reveal_strlit("true");
    reveal_strlit("false");
    reveal_strlit("~");
    reveal_strlit("-");
    reveal_strlit("- ");
    reveal_strlit("---");
    reveal_strlit("...");
    reveal_strlit("--- ");
    assert forall|j: int| 0 <= j < x.len() implies 'a' <= #[trigger] x[j] <= 'z' by {}
    assert('a' <= x[0] <= 'z');
    assert('a' <= x[x.len() - 1] <= 'z');
    lemma_trim(Seq::empty(), x, Seq::empty());
    assert(!x.contains('#'));
    lemma_no_hash(x);
    lemma_no_colon(x, 0, Within::Nothing);
    assert("---"@[0] == '-' && "..."@[0] == '.' && "--- "@[0] == '-' && "- "@[0] == '-' && "-"@[0]
        == '-' && "~"@[0] == '~');
    assert("null"@[0] == 'n' && "true"@[0] == 't' && "false"@[0] == 'f');
    assert forall|j: int| 0 <= j < x.len() implies ascii_lower(#[trigger] x[j]) == x[j] by {
        assert('a' <= x[j] <= 'z');
    }
    assert(ascii_lower(x[0]) == x[0]);
    assert(same_word(x, x));
}

/// A text reads back from how it is written.
proof fn lemma_text(read: Reading, x: Seq<char>)
    ensures
        scalar_reads(read, written_text(x), dstr_v(x)),
        colon_of(written_text(x)) is None,
        !parts_documents(written_text(x)),
{
    let t = written_text(x);
    reveal_strlit("-");
    reveal_strlit("- ");
    reveal_strlit("---");
    reveal_strlit("...");
    reveal_strlit("--- ");
    assert("---"@[0] == '-' && "..."@[0] == '.' && "--- "@[0] == '-' && "- "@[0] == '-' && "-"@[0]
        == '-');
    if ambiguous(x) {
        lemma_in_quotes(x, true);
        lemma_trim(Seq::empty(), t, Seq::empty());
        lemma_quotes_hide(x, true);
        lemma_guarded_lines(x, 0);
        assert forall|j: int| 0 <= j < t.len() implies #[trigger] t[j] != '\n' by {
            if 0 < j < t.len() - 1 {
                assert(t[j] == guarded_from(x, 0, true)[j - 1]);
            }
        }
        reveal_strlit("~");
        reveal_strlit("null");
        reveal_strlit("true");
        reveal_strlit("false");
        assert("~"@[0] == '~' && "null"@[0] == 'n' && "true"@[0] == 't' && "false"@[0] == 'f');
        assert(ascii_lower(t[0]) == '"');
    } else {
        assert(bare(x)) by {
            lemma_trimmed_is_bare(x);
        }
        lemma_no_hash(x);
        assert forall|j: int| 0 <= j < x.len() implies #[trigger] x[j] != '\n' by {
            assert(x.contains(x[j]));
        }
    }
}

proof fn lemma_trimmed_is_bare(x: Seq<char>)
    requires
        trimmed(x) == x,
        x.len() > 0,
    ensures
        bare(x),
{
    lemma_left_shorter(x);
    lemma_right_shorter(trim_left(x));
    assert(trim_left(x).len() == x.len());
    if is_space(x[0]) {
        lemma_left_shorter(x.drop_first());
    }
    assert(trim_left(x) == x);
    if is_space(x.last()) {
        lemma_right_shorter(x.drop_last());
    }
}

proof fn lemma_left_shorter(x: Seq<char>)
    ensures
        trim_left(x).len() <= x.len(),
    decreases x.len(),
{
    if x.len() > 0 {
        lemma_left_shorter(x.drop_first());
    }
}

proof fn lemma_right_shorter(x: Seq<char>)
    ensures
        trim_right(x).len() <= x.len(),
    decreases x.len(),
{
    if x.len() > 0 {
        lemma_right_shorter(x.drop_last());
    }
}

proof fn lemma_scalar(read: Reading, v: ValueV)
    requires
        scalar_fits(read, v),
    ensures
        scalar_reads(read, scalar_text(tree_of(v)), v),
        !is_block(tree_of(v)),
        colon_of(scalar_text(tree_of(v))) is None,
        !parts_documents(scalar_text(tree_of(v))),
{
    lemma_tree(v);
    match dyn_of(v) {
        DynV::Null => {
            lemma_word(read, "null"@, v);
        },
        DynV::Bool(b) => {
            lemma_word(
                read,
                if b {
                    "true"@
                } else {
                    "false"@
                },
                v,
            );
        },
        DynV::Int(n) => {
            lemma_int(read, n);
        },
        DynV::Float(x) => {
            lemma_float(read, x);
        },
        DynV::Str(x) => {
            lemma_text(read, x);
        },
        _ => {},
    }
}

// ---------------------------------------------------------------------------
// Keys
// ---------------------------------------------------------------------------

/// Scanning a key from `k` on meets no line end, no comment and no end of the key, and comes to
/// the end of all quotes.
pub open spec fn quiet(p: Seq<char>, k: int, w: Within) -> bool
    decreases p.len() - k,
{
    if !(0 <= k < p.len()) {
        w == Within::Nothing
    } else {
        &&& p[k] != '\n'
        &&& w == Within::Nothing && p[k] == '#' ==> k > 0 && p[k - 1] != ' ' && p[k - 1] != '\t'
        &&& w == Within::Nothing && p[k] == ':' ==> k + 1 == p.len() || (p[k + 1] != ' ' && p[k
            + 1] != '\t')
        &&& quiet(p, k + 1, passed(p[k], w))
    }
}

/// A key that reads back. Written as it is, it starts with no quote and with nothing that is
/// unsupported, and the quotes in it are closed; written in quotes, it is one line.
pub open spec fn key_fits(k: Seq<char>) -> bool {
    if plain_key(k) {
        &&& k[0] != '"' && k[0] != '\''
        &&& unsupported(k[0]) is None
        &&& quiet(k, 0, Within::Nothing)
    } else {
        !k.contains('\n')
    }
}

proof fn lemma_body_quiet(p: Seq<char>, pos: int, x: Seq<char>, i: int)
    requires
        0 <= i <= x.len(),
        !x.contains('\n'),
        stands(p, pos, guarded_from(x, i, false) + seq!['"']),
        pos + guarded_from(x, i, false).len() + 1 == p.len(),
    ensures
        quiet(p, pos, Within::Basic),
    decreases x.len() - i,
{
    if i < x.len() {
        assert(x.contains(x[i]));
        let w = guarded(x[i], false);
        let rest = guarded_from(x, i + 1, false) + seq!['"'];
        assert(guarded_from(x, i, false) + seq!['"'] =~= w + rest);
        lemma_parts(p, pos, w, rest);
        lemma_body_quiet(p, pos + w.len(), x, i + 1);
        assert(p[pos + 0] == w[0]);
        if w.len() == 2 {
            assert(p[pos + 1] == w[1]);
            assert(quiet(p, pos + 1, Within::Escape));
        }
    } else {
        assert(guarded_from(x, i, false) + seq!['"'] =~= seq!['"']);
        assert(p[pos + 0] == seq!['"'][0]);
        assert(quiet(p, pos + 1, Within::Nothing));
    }
}

proof fn lemma_key_quiet(k: Seq<char>)
    requires
        key_fits(k),
    ensures
        quiet(written_key(k), 0, Within::Nothing),
{
    if !plain_key(k) {
        let t = in_quotes(k, false);
        let rest = guarded_from(k, 0, false) + seq!['"'];
        assert(t =~= seq!['"'] + rest);
        assert(stands(t, 0, t));
        lemma_parts(t, 0, seq!['"'], rest);
        assert(t[0] == '"');
        lemma_body_quiet(t, 1, k, 0);
    }
}

proof fn lemma_quiet_comment(s: Seq<char>, p: Seq<char>, k: int, w: Within)
    requires
        stands(s, 0, p),
        0 <= k <= p.len(),
        quiet(p, k, w),
    ensures
        comment_from(s, k, w) == comment_from(s, p.len() as int, Within::Nothing),
    decreases p.len() - k,
{
    if k < p.len() {
        assert(s[0 + k] == p[k]);
        if k > 0 {
            assert(s[0 + (k - 1)] == p[k - 1]);
        }
        lemma_quiet_comment(s, p, k + 1, passed(p[k], w));
    }
}

proof fn lemma_quiet_colon(s: Seq<char>, p: Seq<char>, k: int, w: Within)
    requires
        stands(s, 0, p),
        p.len() < s.len(),
        s[p.len() as int] == ':',
        0 <= k <= p.len(),
        quiet(p, k, w),
    ensures
        colon_from(s, k, w) == colon_from(s, p.len() as int, Within::Nothing),
    decreases p.len() - k,
{
    if k < p.len() {
        assert(s[0 + k] == p[k]);
        if k + 1 < p.len() {
            assert(s[0 + (k + 1)] == p[k + 1]);
        }
        lemma_quiet_colon(s, p, k + 1, passed(p[k], w));
    }
}

proof fn lemma_quiet_lines(p: Seq<char>, k: int, w: Within)
    requires
        0 <= k,
        quiet(p, k, w),
    ensures
        forall|j: int| k <= j < p.len() ==> #[trigger] p[j] != '\n',
    decreases p.len() - k,
{
    if k < p.len() {
        lemma_quiet_lines(p, k + 1, passed(p[k], w));
    }
}

pub proof fn lemma_key(k: Seq<char>)
    requires
        key_fits(k),
    ensures
        bare(written_key(k)),
        written_key(k)[0] != '-',
        !flows(written_key(k)),
        plain_or_unquoted(written_key(k)) == Ok::<Seq<char>, Seq<char>>(k),
        quiet(written_key(k), 0, Within::Nothing),
{
    lemma_key_quiet(k);
    if plain_key(k) {
        lemma_trimmed_is_bare(k);
    } else {
        lemma_in_quotes(k, false);
    }
}

// ---------------------------------------------------------------------------
// Lines
// ---------------------------------------------------------------------------

pub open spec fn spaces(n: int) -> Seq<char> {
    Seq::new(
        if n > 0 {
            n as nat
        } else {
            0
        },
        |i: int| ' ',
    )
}

/// The lines that a tree is written as, from an indentation of `n` on.
pub open spec fn rows(t: Tree, n: int) -> Seq<LineV>
    decreases t, 1int, 0int,
{
    match t {
        Tree::Dict(branches) => if branches.len() > 0 {
            pair_rows(branches, 0, n)
        } else {
            seq![LineV { indent: n, content: scalar_text(t) }]
        },
        Tree::List(items) => if items.len() > 0 {
            item_rows(items, 0, n)
        } else {
            seq![LineV { indent: n, content: scalar_text(t) }]
        },
        _ => seq![LineV { indent: n, content: scalar_text(t) }],
    }
}

/// The lines of what follows a key or a dash.
pub open spec fn child_rows(head: Seq<char>, t: Tree, n: int) -> Seq<LineV>
    decreases t, 2int, 0int,
{
    if is_block(t) {
        seq![LineV { indent: n, content: head }] + rows(t, n + 2)
    } else {
        seq![LineV { indent: n, content: head + seq![' '] + scalar_text(t) }]
    }
}

pub open spec fn pair_rows(branches: Seq<(Seq<char>, Tree)>, i: int, n: int) -> Seq<LineV>
    decreases branches, 0int, branches.len() - i,
{
    if 0 <= i < branches.len() {
        child_rows(written_key(branches[i].0) + seq![':'], branches[i].1, n) + pair_rows(
            branches,
            i + 1,
            n,
        )
    } else {
        Seq::empty()
    }
}

pub open spec fn item_rows(items: Seq<Tree>, i: int, n: int) -> Seq<LineV>
    decreases items, 0int, items.len() - i,
{
    if 0 <= i < items.len() {
        child_rows(seq!['-'], items[i], n) + item_rows(items, i + 1, n)
    } else {
        Seq::empty()
    }
}

pub open spec fn row_text(r: LineV) -> Seq<char> {
    spaces(r.indent) + r.content
}

pub open spec fn rows_text(rs: Seq<LineV>, i: int) -> Seq<char>
    decreases rs.len() - i,
{
    if 0 <= i < rs.len() {
        row_text(rs[i]) + seq!['\n'] + rows_text(rs, i + 1)
    } else {
        Seq::empty()
    }
}

proof fn lemma_rows_text_shift(a: Seq<LineV>, b: Seq<LineV>, j: int)
    requires
        0 <= j <= b.len(),
    ensures
        rows_text(a + b, a.len() + j) == rows_text(b, j),
    decreases b.len() - j,
{
    if j < b.len() {
        assert((a + b)[a.len() + j] == b[j]);
        lemma_rows_text_shift(a, b, j + 1);
    }
}

proof fn lemma_rows_text_join(a: Seq<LineV>, b: Seq<LineV>, i: int)
    requires
        0 <= i <= a.len(),
    ensures
        rows_text(a + b, i) == rows_text(a, i) + rows_text(b, 0),
    decreases a.len() - i,
{
    if i < a.len() {
        assert((a + b)[i] == a[i]);
        lemma_rows_text_join(a, b, i + 1);
        assert(rows_text(a + b, i) =~= rows_text(a, i) + rows_text(b, 0));
    } else {
        lemma_rows_text_shift(a, b, 0);
        assert(rows_text(a + b, i) =~= rows_text(a, i) + rows_text(b, 0));
    }
}

proof fn lemma_one_row(r: LineV)
    ensures
        rows_text(seq![r], 0) == row_text(r) + seq!['\n'],
{
    let rs = seq![r];
    assert(rows_text(rs, 1) =~= Seq::empty());
    assert(rows_text(rs, 0) =~= row_text(r) + seq!['\n']);
}

proof fn lemma_child_rows(head: Seq<char>, t: Tree, n: int)
    requires
        0 <= n,
        is_block(t) ==> node_text(t, spaces(n + 2)) == rows_text(rows(t, n + 2), 0),
    ensures
        rows_text(child_rows(head, t, n), 0) == spaces(n) + head + child_text(t, spaces(n)),
{
    reveal_strlit("\n");
    reveal_strlit("  ");
    reveal_strlit(" ");
    assert("\n"@ =~= seq!['\n']);
    assert(" "@ =~= seq![' ']);
    assert(spaces(n) + "  "@ =~= spaces(n + 2));
    let line = LineV { indent: n, content: head };
    if is_block(t) {
        lemma_rows_text_join(seq![line], rows(t, n + 2), 0);
        lemma_one_row(line);
        assert(spaces(n) + head + ("\n"@ + node_text(t, spaces(n + 2))) =~= spaces(n) + head + seq![
            '\n',
        ] + rows_text(rows(t, n + 2), 0));
    } else {
        let full = LineV { indent: n, content: head + seq![' '] + scalar_text(t) };
        lemma_one_row(full);
        assert(spaces(n) + (head + seq![' '] + scalar_text(t)) + seq!['\n'] =~= spaces(n) + head + (
        " "@ + scalar_text(t) + "\n"@));
    }
}

proof fn lemma_pair_rows(branches: Seq<(Seq<char>, Tree)>, i: int, n: int)
    requires
        0 <= i,
        0 <= n,
        forall|j: int|
            0 <= j < branches.len() && is_block((#[trigger] branches[j]).1) ==> node_text(
                branches[j].1,
                spaces(n + 2),
            ) == rows_text(rows(branches[j].1, n + 2), 0),
    ensures
        pairs_from(branches, i, spaces(n)) == rows_text(pair_rows(branches, i, n), 0),
    decreases branches.len() - i,
{
    if i < branches.len() {
        let b = branches[i];
        let head = written_key(b.0) + seq![':'];
        lemma_pair_rows(branches, i + 1, n);
        lemma_child_rows(head, b.1, n);
        lemma_rows_text_join(child_rows(head, b.1, n), pair_rows(branches, i + 1, n), 0);
        reveal_strlit(":");
        assert(":"@ =~= seq![':']);
        let rest = pairs_from(branches, i + 1, spaces(n));
        assert(spaces(n) + written_key(b.0) + ":"@ + child_text(b.1, spaces(n)) + rest =~= spaces(n)
            + head + child_text(b.1, spaces(n)) + rest);
    }
}

proof fn lemma_item_rows(items: Seq<Tree>, i: int, n: int)
    requires
        0 <= i,
        0 <= n,
        forall|j: int|
            0 <= j < items.len() && is_block(#[trigger] items[j]) ==> node_text(
                items[j],
                spaces(n + 2),
            ) == rows_text(rows(items[j], n + 2), 0),
    ensures
        items_from(items, i, spaces(n)) == rows_text(item_rows(items, i, n), 0),
    decreases items.len() - i,
{
    if i < items.len() {
        let head = seq!['-'];
        lemma_item_rows(items, i + 1, n);
        lemma_child_rows(head, items[i], n);
        lemma_rows_text_join(child_rows(head, items[i], n), item_rows(items, i + 1, n), 0);
        reveal_strlit("-");
        assert("-"@ =~= head);
        let rest = items_from(items, i + 1, spaces(n));
        assert(spaces(n) + "-"@ + child_text(items[i], spaces(n)) + rest =~= spaces(n) + head
            + child_text(items[i], spaces(n)) + rest);
    }
}

/// A tree that is written as a block is written as its lines.
proof fn lemma_node_rows(t: Tree, n: int)
    requires
        is_block(t),
        0 <= n,
    ensures
        node_text(t, spaces(n)) == rows_text(rows(t, n), 0),
    decreases t,
{
    match t {
        Tree::Dict(branches) => {
            assert forall|j: int|
                0 <= j < branches.len() && is_block((#[trigger] branches[j]).1) implies node_text(
                branches[j].1,
                spaces(n + 2),
            ) == rows_text(rows(branches[j].1, n + 2), 0) by {
                lemma_node_rows(branches[j].1, n + 2);
            }
            lemma_pair_rows(branches, 0, n);
        },
        Tree::List(items) => {
            assert forall|j: int| 0 <= j < items.len() && is_block(#[trigger] items[j]) implies
                node_text(items[j], spaces(n + 2)) == rows_text(rows(items[j], n + 2), 0) by {
                lemma_node_rows(items[j], n + 2);
            }
            lemma_item_rows(items, 0, n);
        },
        _ => {},
    }
}

// ---------------------------------------------------------------------------
// Reading lines
// ---------------------------------------------------------------------------

/// A line that is read as it was written.
pub open spec fn row_reads(r: LineV) -> bool {
    &&& 0 <= r.indent
    &&& bare(r.content)
    &&& uncommented(r.content) == r.content
    &&& !parts_documents(r.content)
    &&& forall|j: int| 0 <= j < r.content.len() ==> #[trigger] r.content[j] != '\n'
}

pub open spec fn rows_read(rs: Seq<LineV>) -> bool {
    forall|j: int| 0 <= j < rs.len() ==> row_reads(#[trigger] rs[j])
}

pub open spec fn raw(rs: Seq<LineV>) -> Seq<Seq<char>> {
    Seq::new(rs.len(), |i: int| row_text(rs[i]))
}

/// A line that ends nowhere but at its end.
pub open spec fn one_line(r: LineV) -> bool {
    &&& bare(r.content)
    &&& forall|j: int| 0 <= j < r.content.len() ==> #[trigger] r.content[j] != '\n'
}

proof fn lemma_row_text(r: LineV)
    requires
        one_line(r),
    ensures
        row_text(r).len() > 0,
        chomped(row_text(r)) == row_text(r),
        forall|j: int| 0 <= j < row_text(r).len() ==> #[trigger] row_text(r)[j] != '\n',
{
    let t = row_text(r);
    let n = spaces(r.indent).len();
    assert forall|j: int| 0 <= j < t.len() implies #[trigger] t[j] != '\n' by {
        if j >= n {
            assert(t[j] == r.content[j - n]);
        }
    }
    assert(t.last() == r.content.last());
}

#[verifier::spinoff_prover]
pub proof fn lemma_rows_lines(s: Seq<char>, pos: int, rs: Seq<LineV>, i: int, out: Seq<Seq<char>>)
    requires
        0 <= i <= rs.len(),
        forall|j: int| 0 <= j < rs.len() ==> one_line(#[trigger] rs[j]),
        stands(s, pos, rows_text(rs, i)),
        pos + rows_text(rs, i).len() == s.len(),
    ensures
        lines_from(s, pos, Seq::empty(), out) == out + raw(rs).skip(i),
    decreases rs.len() - i,
{
    let nothing = Seq::<char>::empty();
    if i < rs.len() {
        let r = rs[i];
        assert(one_line(r));
        let t = row_text(r);
        lemma_row_text(r);
        let rest = rows_text(rs, i + 1);
        assert(rows_text(rs, i) =~= t + (seq!['\n'] + rest));
        lemma_parts(s, pos, t, seq!['\n'] + rest);
        lemma_parts(s, pos + t.len(), seq!['\n'], rest);
        lemma_line(s, pos, t, 0, nothing, out);
        assert(nothing + t.skip(0) =~= t);
        assert(s[pos + t.len() + 0] == seq!['\n'][0]);
        lemma_rows_lines(s, pos + t.len() + 1, rs, i + 1, out.push(t));
        assert(out.push(t) + raw(rs).skip(i + 1) =~= out + raw(rs).skip(i));
    } else {
        assert(out + raw(rs).skip(i) =~= out);
    }
}

pub proof fn lemma_trim_spaces(n: int, c: Seq<char>)
    requires
        bare(c),
    ensures
        trim_left(spaces(n) + c) == c,
    decreases n,
{
    let s = spaces(n) + c;
    if n > 0 {
        lemma_trim_spaces(n - 1, c);
        assert(s[0] == ' ');
        assert(s.drop_first() =~= spaces(n - 1) + c);
    } else {
        assert(s =~= c);
    }
}

pub proof fn lemma_widths(n: int, c: Seq<char>, k: int)
    requires
        0 <= k <= n,
    ensures
        widths(spaces(n) + c, k) == k,
    decreases k,
{
    if k > 0 {
        lemma_widths(n, c, k - 1);
        assert((spaces(n) + c)[k - 1] == ' ');
        assert(width(' ') == 1);
    }
}

pub proof fn lemma_no_tab(n: int, c: Seq<char>, i: int)
    requires
        0 <= i <= n,
        bare(c),
    ensures
        !tab_leads(spaces(n) + c, i),
    decreases n - i,
{
    let s = spaces(n) + c;
    if i < n {
        assert(s[i] == ' ');
        lemma_no_tab(n, c, i + 1);
    } else {
        assert(s[i] == c[0]);
    }
}

pub proof fn lemma_content(rs: Seq<LineV>, i: int, out: Seq<LineV>)
    requires
        0 <= i <= rs.len(),
        rows_read(rs),
    ensures
        content_from(raw(rs), i, out) == Ok::<Seq<LineV>, Seq<char>>(out + rs.skip(i)),
    decreases rs.len() - i,
{
    if i < rs.len() {
        let r = rs[i];
        assert(row_reads(r));
        let c = r.content;
        let n = r.indent;
        let line = row_text(r);
        assert(raw(rs)[i] == line);
        assert(line.last() == c.last());
        assert(trim_right(line) == line);
        lemma_trim_spaces(n, c);
        lemma_widths(n, c, n);
        lemma_no_tab(n, c, 0);
        lemma_trim(Seq::empty(), c, Seq::empty());
        assert(trim_right(c) == c);
        assert(indent_of(line) == n);
        lemma_content(rs, i + 1, out.push(r));
        assert(out.push(r) + rs.skip(i + 1) =~= out + rs.skip(i));
    } else {
        assert(out + rs.skip(i) =~= out);
    }
}

// ---------------------------------------------------------------------------
// Values
// ---------------------------------------------------------------------------

/// A value that YAML can hold, inside `depth` containers. No container is empty, the keys of a
/// mapping differ and read back, floats are written so that they read back, and containers do
/// not nest too deep.
pub open spec fn yaml_holdable(read: Reading, v: ValueV, depth: int) -> bool
    decreases v,
{
    match dyn_of(v) {
        DynV::List(items) => {
            proof {
                lemma_list_smaller(v);
            }
            &&& depth <= 256
            &&& v == dlist_v(items)
            &&& items.len() > 0
            &&& forall|i: int|
                0 <= i < items.len() ==> yaml_holdable(read, #[trigger] items[i], depth + 1)
        },
        DynV::Dict(entries) => {
            proof {
                lemma_dict_smaller(v);
            }
            &&& depth <= 256
            &&& v == ddict_v(entries)
            &&& entries_fit(entries)
            &&& forall|i: int|
                0 <= i < entries.len() ==> yaml_holdable(
                    read,
                    (#[trigger] entries[i]).1,
                    depth + 1,
                )
        },
        _ => scalar_fits(read, v),
    }
}

/// The keys of a mapping differ and read back.
pub open spec fn entries_fit(entries: Seq<(KeyV, ValueV)>) -> bool {
    &&& entries.len() > 0
    &&& distinct_keys(entries)
    &&& forall|i: int|
        0 <= i < entries.len() ==> ((#[trigger] entries[i]).0 matches KeyV::Str(k) && key_fits(k))
}

pub proof fn lemma_pair_row(read: Reading, k: Seq<char>, x: Seq<char>, v: ValueV, n: int, alone: bool)
    requires
        0 <= n,
        key_fits(k),
        alone || scalar_reads(read, x, v),
    ensures
        ({
            let w = written_key(k);
            let c = if alone {
                w + seq![':']
            } else {
                w + seq![':'] + seq![' '] + x
            };
            &&& row_reads(LineV { indent: n, content: c })
            &&& !is_item(c)
            &&& c[0] == w[0]
            &&& colon_of(c) == Some(w.len() as int)
            &&& trimmed(c.take(w.len() as int)) == w
            &&& alone ==> trimmed(c.skip(w.len() as int + 1)).len() == 0
            &&& !alone ==> trimmed(c.skip(w.len() as int + 1)) == x && x.len() > 0
        }),
{
    lemma_key(k);
    let w = written_key(k);
    let m = w.len() as int;
    let tail = if alone {
        Seq::empty()
    } else {
        seq![' '] + x
    };
    let c = if alone {
        w + seq![':']
    } else {
        w + seq![':'] + seq![' '] + x
    };
    assert(c =~= w + seq![':'] + tail);
    assert(stands(c, 0, w)) by {
        assert forall|j: int| 0 <= j < w.len() implies c[0 + j] == #[trigger] w[j] by {}
    }
    assert(c[m] == ':');
    lemma_quiet_comment(c, w, 0, Within::Nothing);
    lemma_quiet_colon(c, w, 0, Within::Nothing);
    lemma_quiet_lines(w, 0, Within::Nothing);
    lemma_trim(Seq::empty(), w, Seq::empty());
    assert(c.take(m) =~= w);
    assert(c[0] == w[0]);
    if alone {
        assert(c.last() == ':');
        assert(c.skip(m + 1) =~= Seq::empty());
        assert(comment_from(c, m, Within::Nothing) == comment_from(
            c,
            m + 1,
            Within::Nothing,
        ));
    } else {
        assert(c[m + 1] == ' ');
        assert(c.skip(m + 1) =~= seq![' '] + x + Seq::<char>::empty());
        lemma_trim(seq![' '], x, Seq::empty());
        assert(c.last() == x.last());
        assert(stands(c, m + 2, x)) by {
            assert forall|j: int| 0 <= j < x.len() implies c[m + 2 + j] == #[trigger] x[j] by {}
        }
        assert(comment_from(c, m + 2, Within::Nothing) == c.len());
        assert(comment_from(c, m, Within::Nothing) == comment_from(
            c,
            m + 1,
            Within::Nothing,
        ));
        assert(comment_from(c, m + 1, Within::Nothing) == comment_from(
            c,
            m + 2,
            Within::Nothing,
        ));
    }
    assert(uncommented(c) =~= c);
    assert forall|j: int| 0 <= j < c.len() implies #[trigger] c[j] != '\n' by {
        if j < m {
            assert(c[j] == w[j]);
        } else if j > m + 1 {
            assert(c[j] == x[j - m - 2]);
        }
    }
    reveal_strlit("-");
    reveal_strlit("- ");
    reveal_strlit("---");
    reveal_strlit("...");
    reveal_strlit("--- ");
    assert("---"@[0] == '-' && "--- "@[0] == '-' && "- "@[0] == '-' && "-"@[0] == '-');
    if c == "..."@ {
        assert("..."@[m] == '.');
    }
}

proof fn lemma_item_row(read: Reading, x: Seq<char>, v: ValueV, n: int, alone: bool)
    requires
        0 <= n,
        alone || scalar_reads(read, x, v),
    ensures
        ({
            let c = if alone {
                seq!['-']
            } else {
                seq!['-'] + seq![' '] + x
            };
            &&& row_reads(LineV { indent: n, content: c })
            &&& is_item(c)
            &&& alone ==> behind_dash(c).len() == 0
            &&& !alone ==> behind_dash(c) == x && x.len() > 0
        }),
{
    reveal_strlit("-");
    reveal_strlit("- ");
    reveal_strlit("---");
    reveal_strlit("...");
    reveal_strlit("--- ");
    assert("-"@ =~= seq!['-']);
    assert("- "@ =~= seq!['-', ' ']);
    assert("..."@[0] == '.' && "---"@[1] == '-' && "--- "@[1] == '-' && "---"@.len() == 3
        && "--- "@.len() == 4);
    let c = if alone {
        seq!['-']
    } else {
        seq!['-'] + seq![' '] + x
    };
    assert(c[0] == '-');
    if alone {
        assert(c.last() == '-');
        assert(comment_from(c, 0, Within::Nothing) == comment_from(
            c,
            1,
            Within::Nothing,
        ));
    } else {
        assert(c[1] == ' ');
        assert(c.last() == x.last());
        assert(stands(c, 2, x)) by {
            assert forall|j: int| 0 <= j < x.len() implies c[2 + j] == #[trigger] x[j] by {}
        }
        assert(comment_from(c, 2, Within::Nothing) == c.len());
        assert(comment_from(c, 0, Within::Nothing) == comment_from(
            c,
            1,
            Within::Nothing,
        ));
        assert(comment_from(c, 1, Within::Nothing) == comment_from(
            c,
            2,
            Within::Nothing,
        ));
        assert(c.skip(2) =~= x);
        lemma_trim(Seq::empty(), x, Seq::empty());
        assert(starts_with(c, "- "@)) by {
            assert(c.take(2) =~= "- "@);
        }
        if starts_with(c, "--- "@) {
            assert(c.take(4)[1] == '-');
        }
        assert forall|j: int| 0 <= j < c.len() implies #[trigger] c[j] != '\n' by {
            if j >= 2 {
                assert(c[j] == x[j - 2]);
            }
        }
    }
    assert(uncommented(c) =~= c);
}

// ---------------------------------------------------------------------------
// Blocks
// ---------------------------------------------------------------------------

/// Some lines stand among others, from a place on.
pub open spec fn rows_stand(lines: Seq<LineV>, at: int, rs: Seq<LineV>) -> bool {
    &&& 0 <= at
    &&& at + rs.len() <= lines.len()
    &&& forall|j: int| 0 <= j < rs.len() ==> lines[at + j] == #[trigger] rs[j]
}

/// Nothing of a block that is indented by `n` stands at a place.
pub open spec fn ends(lines: Seq<LineV>, at: int, n: int) -> bool {
    at < lines.len() ==> lines[at].indent < n
}

/// Wherever the lines of a value stand, its block is read as that value.
pub open spec fn parses(read: Reading, v: ValueV, n: int, depth: int) -> bool {
    let rs = rows(tree_of(v), n);
    forall|lines: Seq<LineV>, at: int|
        rows_stand(lines, at, rs) && ends(lines, at + rs.len(), n) ==> #[trigger] block(
            read,
            lines,
            at,
            n,
            depth,
        ) == Ok::<(ValueV, int), Seq<char>>((v, at + rs.len()))
}

/// A value reads back from behind a key or a dash: from its line, or from the lines below.
pub open spec fn reads_back(read: Reading, v: ValueV, n: int, depth: int) -> bool {
    if is_block(tree_of(v)) {
        &&& parses(read, v, n, depth)
        &&& rows_read(rows(tree_of(v), n))
    } else {
        scalar_reads(read, scalar_text(tree_of(v)), v)
    }
}

pub proof fn lemma_rows_split(lines: Seq<LineV>, at: int, a: Seq<LineV>, b: Seq<LineV>)
    requires
        rows_stand(lines, at, a + b),
    ensures
        rows_stand(lines, at, a),
        rows_stand(lines, at + a.len(), b),
{
    assert forall|j: int| 0 <= j < a.len() implies lines[at + j] == #[trigger] a[j] by {
        assert((a + b)[j] == a[j]);
    }
    assert forall|j: int| 0 <= j < b.len() implies lines[at + a.len() + j] == #[trigger] b[j] by {
        assert((a + b)[a.len() + j] == b[j]);
    }
}

proof fn lemma_rows_read_join(a: Seq<LineV>, b: Seq<LineV>)
    requires
        rows_read(a),
        rows_read(b),
    ensures
        rows_read(a + b),
{
    assert forall|j: int| 0 <= j < (a + b).len() implies row_reads(#[trigger] (a + b)[j]) by {
        if j < a.len() {
            assert(row_reads(a[j]));
        } else {
            assert(row_reads(b[j - a.len()]));
        }
    }
}

pub proof fn lemma_first_row(t: Tree, n: int)
    requires
        is_block(t),
    ensures
        rows(t, n).len() > 0,
        rows(t, n)[0].indent == n,
{
    match t {
        Tree::Dict(branches) => {
            let head = written_key(branches[0].0) + seq![':'];
            assert(child_rows(head, branches[0].1, n)[0].indent == n);
            assert(rows(t, n)[0] == child_rows(head, branches[0].1, n)[0]);
        },
        Tree::List(items) => {
            assert(child_rows(seq!['-'], items[0], n)[0].indent == n);
            assert(rows(t, n)[0] == child_rows(seq!['-'], items[0], n)[0]);
        },
        _ => {},
    }
}

/// What stands behind a key or a dash with nothing else in its line.
proof fn lemma_nested(
    read: Reading,
    lines: Seq<LineV>,
    at: int,
    head: Seq<char>,
    v: ValueV,
    n: int,
    depth: int,
)
    requires
        depth <= 256,
        is_block(tree_of(v)),
        parses(read, v, n + 2, depth + 1),
        rows_stand(lines, at, child_rows(head, tree_of(v), n)),
        ends(lines, at + child_rows(head, tree_of(v), n).len(), n + 2),
    ensures
        nested(read, lines, at, n, depth) == Ok::<(ValueV, int), Seq<char>>(
            (v, at + child_rows(head, tree_of(v), n).len()),
        ),
{
    let t = tree_of(v);
    let first = seq![LineV { indent: n, content: head }];
    lemma_first_row(t, n + 2);
    lemma_rows_split(lines, at, first, rows(t, n + 2));
    assert(lines[at + 1 + 0] == rows(t, n + 2)[0]);
    assert(block(read, lines, at + 1, n + 2, depth + 1) == Ok::<(ValueV, int), Seq<char>>(
        (v, at + 1 + rows(t, n + 2).len()),
    ));
}

pub open spec fn entries_read_back(
    read: Reading,
    entries: Seq<(KeyV, ValueV)>,
    n: int,
    depth: int,
) -> bool {
    forall|j: int|
        0 <= j < entries.len() ==> reads_back(read, (#[trigger] entries[j]).1, n, depth)
}

spec fn items_read_back(read: Reading, items: Seq<ValueV>, n: int, depth: int) -> bool {
    forall|j: int|
        0 <= j < items.len() ==> reads_back(read, #[trigger] items[j], n, depth) && (!is_block(
            tree_of(items[j]),
        ) ==> colon_of(scalar_text(tree_of(items[j]))) is None)
}

pub proof fn lemma_pair_rows_read(
    read: Reading,
    entries: Seq<(KeyV, ValueV)>,
    i: int,
    n: int,
    depth: int,
)
    requires
        0 <= i <= entries.len(),
        0 <= n,
        entries_fit(entries),
        entries_read_back(read, entries, n + 2, depth),
    ensures
        rows_read(pair_rows(branches_of(entries), i, n)),
    decreases entries.len() - i,
{
    let branches = branches_of(entries);
    if i < entries.len() {
        let e = entries[i];
        assert(reads_back(read, e.1, n + 2, depth));
        assert(e.0 matches KeyV::Str(k) && key_fits(k));
        let k = e.0->Str_0;
        let t = tree_of(e.1);
        assert(branches[i] == (k, t));
        let head = written_key(k) + seq![':'];
        lemma_pair_row(read, k, scalar_text(t), e.1, n, is_block(t));
        let cr = child_rows(head, t, n);
        if is_block(t) {
            let first = seq![LineV { indent: n, content: head }];
            assert(rows_read(first));
            lemma_rows_read_join(first, rows(t, n + 2));
        }
        assert(rows_read(cr));
        lemma_pair_rows_read(read, entries, i + 1, n, depth);
        lemma_rows_read_join(cr, pair_rows(branches, i + 1, n));
    }
}

proof fn lemma_item_rows_read(read: Reading, items: Seq<ValueV>, i: int, n: int, depth: int)
    requires
        0 <= i <= items.len(),
        0 <= n,
        items_read_back(read, items, n + 2, depth),
    ensures
        rows_read(item_rows(trees_of(items), i, n)),
    decreases items.len() - i,
{
    let trees = trees_of(items);
    if i < items.len() {
        assert(reads_back(read, items[i], n + 2, depth));
        let t = tree_of(items[i]);
        assert(trees[i] == t);
        lemma_item_row(read, scalar_text(t), items[i], n, is_block(t));
        let cr = child_rows(seq!['-'], t, n);
        if is_block(t) {
            let first = seq![LineV { indent: n, content: seq!['-'] }];
            assert(rows_read(first));
            lemma_rows_read_join(first, rows(t, n + 2));
        }
        assert(rows_read(cr));
        lemma_item_rows_read(read, items, i + 1, n, depth);
        lemma_rows_read_join(cr, item_rows(trees, i + 1, n));
    }
}

pub proof fn lemma_mapping(
    read: Reading,
    lines: Seq<LineV>,
    at: int,
    entries: Seq<(KeyV, ValueV)>,
    i: int,
    n: int,
    depth: int,
)
    requires
        0 <= i <= entries.len(),
        0 <= n,
        depth <= 256,
        entries_fit(entries),
        entries_read_back(read, entries, n + 2, depth + 1),
        rows_stand(lines, at, pair_rows(branches_of(entries), i, n)),
        ends(lines, at + pair_rows(branches_of(entries), i, n).len(), n),
    ensures
        mapping(read, lines, at, n, depth, entries.take(i)) == Ok::<(ValueV, int), Seq<char>>(
            (ddict_v(entries), at + pair_rows(branches_of(entries), i, n).len()),
        ),
    decreases entries.len() - i,
{
    let branches = branches_of(entries);
    if i < entries.len() {
        let e = entries[i];
        assert(reads_back(read, e.1, n + 2, depth + 1));
        assert(e.0 matches KeyV::Str(k) && key_fits(k));
        let k = e.0->Str_0;
        let t = tree_of(e.1);
        assert(branches[i] == (k, t));
        let head = written_key(k) + seq![':'];
        let cr = child_rows(head, t, n);
        let rest = pair_rows(branches, i + 1, n);
        let next = at + cr.len();
        lemma_rows_split(lines, at, cr, rest);
        lemma_pair_row(read, k, scalar_text(t), e.1, n, is_block(t));
        lemma_key(k);
        lemma_new_key(entries, i);
        assert(lines[at + 0] == cr[0]);
        assert(ends(lines, next, n + 2)) by {
            if i + 1 < entries.len() {
                let follow = child_rows(
                    written_key(branches[i + 1].0) + seq![':'],
                    branches[i + 1].1,
                    n,
                );
                assert(rest[0] == follow[0]);
                assert(lines[next + 0] == rest[0]);
            }
        }
        if is_block(t) {
            lemma_nested(read, lines, at, head, e.1, n, depth);
        }
        lemma_mapping(read, lines, next, entries, i + 1, n, depth);
    } else {
        assert(entries.take(i) =~= entries);
    }
}

proof fn lemma_sequence(
    read: Reading,
    lines: Seq<LineV>,
    at: int,
    items: Seq<ValueV>,
    i: int,
    n: int,
    depth: int,
)
    requires
        0 <= i <= items.len(),
        0 <= n,
        depth <= 256,
        items_read_back(read, items, n + 2, depth + 1),
        rows_stand(lines, at, item_rows(trees_of(items), i, n)),
        ends(lines, at + item_rows(trees_of(items), i, n).len(), n),
    ensures
        sequence(read, lines, at, n, depth, items.take(i)) == Ok::<(ValueV, int), Seq<char>>(
            (dlist_v(items), at + item_rows(trees_of(items), i, n).len()),
        ),
    decreases items.len() - i,
{
    let trees = trees_of(items);
    if i < items.len() {
        let v = items[i];
        assert(reads_back(read, v, n + 2, depth + 1));
        let t = tree_of(v);
        assert(trees[i] == t);
        let head = seq!['-'];
        let cr = child_rows(head, t, n);
        let rest = item_rows(trees, i + 1, n);
        let next = at + cr.len();
        lemma_rows_split(lines, at, cr, rest);
        lemma_item_row(read, scalar_text(t), v, n, is_block(t));
        assert(lines[at + 0] == cr[0]);
        assert(ends(lines, next, n + 2)) by {
            if i + 1 < items.len() {
                let follow = child_rows(head, trees[i + 1], n);
                assert(rest[0] == follow[0]);
                assert(lines[next + 0] == rest[0]);
            }
        }
        if is_block(t) {
            lemma_nested(read, lines, at, head, v, n, depth);
        }
        assert(items.take(i).push(v) =~= items.take(i + 1));
        lemma_sequence(read, lines, next, items, i + 1, n, depth);
    } else {
        assert(items.take(i) =~= items);
    }
}

proof fn lemma_dict_parses(
    read: Reading,
    v: ValueV,
    entries: Seq<(KeyV, ValueV)>,
    n: int,
    depth: int,
)
    requires
        dyn_of(v) == DynV::Dict(entries),
        v == ddict_v(entries),
        0 <= n,
        depth <= 256,
        entries_fit(entries),
        entries_read_back(read, entries, n + 2, depth + 1),
    ensures
        reads_back(read, v, n, depth),
{
    lemma_tree(v);
    let branches = branches_of(entries);
    let t = tree_of(v);
    let rs = rows(t, n);
    lemma_pair_rows_read(read, entries, 0, n, depth + 1);
    assert forall|lines: Seq<LineV>, at: int|
        rows_stand(lines, at, rs) && ends(lines, at + rs.len(), n) implies #[trigger] block(
        read,
        lines,
        at,
        n,
        depth,
    ) == Ok::<(ValueV, int), Seq<char>>((v, at + rs.len())) by {
        assert(entries[0].0 matches KeyV::Str(k) && key_fits(k));
        let k = entries[0].0->Str_0;
        let t0 = tree_of(entries[0].1);
        assert(branches[0] == (k, t0));
        assert(reads_back(read, entries[0].1, n + 2, depth + 1));
        lemma_pair_row(read, k, scalar_text(t0), entries[0].1, n, is_block(t0));
        lemma_first_row(t, n);
        let cr = child_rows(written_key(k) + seq![':'], t0, n);
        assert(rs[0] == cr[0]);
        assert(lines[at + 0] == rs[0]);
        assert(entries.take(0) =~= Seq::empty());
        lemma_mapping(read, lines, at, entries, 0, n, depth);
    }
}

proof fn lemma_list_parses(read: Reading, v: ValueV, items: Seq<ValueV>, n: int, depth: int)
    requires
        dyn_of(v) == DynV::List(items),
        v == dlist_v(items),
        items.len() > 0,
        0 <= n,
        depth <= 256,
        items_read_back(read, items, n + 2, depth + 1),
    ensures
        reads_back(read, v, n, depth),
{
    lemma_tree(v);
    let trees = trees_of(items);
    let t = tree_of(v);
    let rs = rows(t, n);
    lemma_item_rows_read(read, items, 0, n, depth + 1);
    assert forall|lines: Seq<LineV>, at: int|
        rows_stand(lines, at, rs) && ends(lines, at + rs.len(), n) implies #[trigger] block(
        read,
        lines,
        at,
        n,
        depth,
    ) == Ok::<(ValueV, int), Seq<char>>((v, at + rs.len())) by {
        let t0 = tree_of(items[0]);
        assert(trees[0] == t0);
        assert(reads_back(read, items[0], n + 2, depth + 1));
        lemma_item_row(read, scalar_text(t0), items[0], n, is_block(t0));
        lemma_first_row(t, n);
        let cr = child_rows(seq!['-'], t0, n);
        assert(rs[0] == cr[0]);
        assert(lines[at + 0] == rs[0]);
        assert(items.take(0) =~= Seq::empty());
        lemma_sequence(read, lines, at, items, 0, n, depth);
    }
}

pub proof fn lemma_reads_back(read: Reading, v: ValueV, n: int, depth: int)
    requires
        yaml_holdable(read, v, depth),
        0 <= n,
    ensures
        reads_back(read, v, n, depth),
    decreases v,
{
    match dyn_of(v) {
        DynV::List(items) => {
            lemma_list_smaller(v);
            assert forall|j: int| 0 <= j < items.len() implies reads_back(
                read,
                #[trigger] items[j],
                n + 2,
                depth + 1,
            ) && (!is_block(tree_of(items[j])) ==> colon_of(
                scalar_text(tree_of(items[j])),
            ) is None) by {
                let x = items[j];
                assert(yaml_holdable(read, x, depth + 1));
                lemma_reads_back(read, x, n + 2, depth + 1);
                lemma_tree(x);
                if !is_block(tree_of(x)) {
                    lemma_scalar(read, x);
                }
            }
            lemma_list_parses(read, v, items, n, depth);
        },
        DynV::Dict(entries) => {
            lemma_dict_smaller(v);
            assert forall|j: int| 0 <= j < entries.len() implies reads_back(
                read,
                (#[trigger] entries[j]).1,
                n + 2,
                depth + 1,
            ) by {
                assert(yaml_holdable(read, entries[j].1, depth + 1));
                lemma_reads_back(read, entries[j].1, n + 2, depth + 1);
            }
            lemma_dict_parses(read, v, entries, n, depth);
        },
        _ => {
            lemma_scalar(read, v);
        },
    }
}

proof fn lemma_root(read: Reading, v: ValueV)
    requires
        yaml_holdable(read, v, 0),
    ensures
        parses(read, v, 0, 0),
        rows_read(rows(tree_of(v), 0)),
        rows(tree_of(v), 0).len() > 0,
        rows(tree_of(v), 0)[0].indent == 0,
        node_text(tree_of(v), spaces(0)) == rows_text(rows(tree_of(v), 0), 0),
{
    let t = tree_of(v);
    let rs = rows(t, 0);
    lemma_reads_back(read, v, 0, 0);
    if is_block(t) {
        lemma_first_row(t, 0);
        lemma_node_rows(t, 0);
    } else {
        lemma_tree(v);
        lemma_scalar(read, v);
        let c = scalar_text(t);
        let row = LineV { indent: 0, content: c };
        assert(rs == seq![row]);
        assert(stands(c, 0, c));
        assert(comment_from(c, 0, Within::Nothing) == c.len());
        assert(uncommented(c) =~= c);
        assert(row_reads(row));
        lemma_one_row(row);
        reveal_strlit("\n");
        assert("\n"@ =~= seq!['\n']);
        assert forall|lines: Seq<LineV>, at: int|
            rows_stand(lines, at, rs) && ends(lines, at + rs.len(), 0) implies #[trigger] block(
            read,
            lines,
            at,
            0,
            0,
        ) == Ok::<(ValueV, int), Seq<char>>((v, at + rs.len())) by {
            assert(lines[at + 0] == rs[0]);
        }
    }
}

/// YAML can hold every text.
pub proof fn law_yaml_holds_texts(read: Reading, x: Seq<char>, depth: int)
    ensures
        yaml_holdable(read, dstr_v(x), depth),
{
    reveal_strlit("Null");
    reveal_strlit("Str");
    assert("Str"@.len() != "Null"@.len());
    assert(dyn_of(dstr_v(x)) == DynV::Str(x));
}

/// What was written as YAML reads back: a value that YAML can hold.
pub proof fn law_yaml_reads_back_what_it_wrote(read: Reading, v: ValueV)
    requires
        yaml_holdable(read, v, 0),
    ensures
        yaml_of(read, yaml_text(tree_of(v))) == Ok::<ValueV, Seq<char>>(v),
{
    let t = tree_of(v);
    let rs = rows(t, 0);
    let s = yaml_text(t);
    lemma_root(read, v);
    assert(spaces(0) =~= Seq::empty());
    assert(s == rows_text(rs, 0));
    assert(stands(s, 0, s));
    assert forall|j: int| 0 <= j < rs.len() implies one_line(#[trigger] rs[j]) by {
        assert(row_reads(rs[j]));
    }
    lemma_rows_lines(s, 0, rs, 0, Seq::empty());
    assert(Seq::<Seq<char>>::empty() + raw(rs).skip(0) =~= raw(rs));
    lemma_content(rs, 0, Seq::empty());
    assert(Seq::<LineV>::empty() + rs.skip(0) =~= rs);
    assert(rows_stand(rs, 0, rs));
    assert(block(read, rs, 0, 0, 0) == Ok::<(ValueV, int), Seq<char>>((v, rs.len() as int)));
}

} // verus!
