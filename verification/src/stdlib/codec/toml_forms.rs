//! Ways to write TOML other than the one that is used for writing it.

use super::dynamic::{ddict_v, dstr_v};
use super::json::Reading;
use super::json_laws::stands;
use super::toml::{
    between_digits, cleaned_from, document_from, equals_from, finished, finished_entries, inside,
    line_read, number_of, passed, put, separators_fit, toml_of, value_of, written_key, DocV, GoalV,
    Within,
};
use super::toml_laws::{
    at_rest, bare, calm, key_fits, lemma_calm_join, lemma_calm_loose, lemma_calm_no_line_end,
    lemma_key, lemma_logical, lemma_tame_equals, lemma_trim, scanned, Scan,
};
use crate::eval::keys::KeyV;
use crate::eval::value::{has_key, ValueV};
use crate::numerals::is_digit;
use crate::stdlib::regexns::starts_as_date;
use crate::text::is_space;
use vstd::prelude::*;
use vstd::string::*;

verus! {

/// A key with a value that is written as `x`.
pub open spec fn pair(k: Seq<char>, x: Seq<char>) -> Seq<char> {
    written_key(k) + " = "@ + x
}

/// A document of one pair is a table with that entry, whatever the value is written as.
#[verifier::spinoff_prover]
proof fn lemma_pair(read: Reading, k: Seq<char>, x: Seq<char>, v: ValueV)
    requires
        key_fits(k),
        bare(x),
        calm(x, 0, at_rest(), false),
        value_of(read, x, 0) == Ok::<ValueV, Seq<char>>(v),
        v is Enum,
    ensures
        toml_of(read, pair(k, x)) == Ok::<ValueV, Seq<char>>(ddict_v(seq![(KeyV::Str(k), v)])),
{
    lemma_key(k);
    let w = written_key(k);
    let t = pair(k, x);
    reveal_strlit(" = ");
    let mid = " = "@;
    assert(mid =~= seq![' ', '=', ' ']);
    let at = w.len() as int + 1;
    assert(t =~= w + (mid + x));
    assert(t[0] == w[0]);
    assert(t.last() == x.last());
    assert(stands(t, 0, w)) by {
        assert forall|j: int| 0 <= j < w.len() implies t[0 + j] == #[trigger] w[j] by {}
    }
    lemma_tame_equals(t, w, 0, Within::Nothing);
    assert(t[w.len() as int] == ' ');
    assert(t[at] == '=');
    assert(passed(' ', Within::Nothing) == Within::Nothing);
    assert(equals_from(t, w.len() as int, Within::Nothing) == equals_from(t, at, Within::Nothing));
    assert(t.take(at) =~= Seq::<char>::empty() + w + seq![' ']);
    lemma_trim(Seq::empty(), w, seq![' ']);
    assert(t.skip(at + 1) =~= seq![' '] + x + Seq::<char>::empty());
    lemma_trim(seq![' '], x, Seq::empty());
    assert(calm(mid, 0, at_rest(), true)) by {
        assert(scanned(' ', at_rest()) == at_rest());
        assert(scanned('=', at_rest()) == at_rest());
        assert(calm(mid, 3, at_rest(), true));
        assert(calm(mid, 2, at_rest(), true));
        assert(calm(mid, 1, at_rest(), true));
    }
    lemma_calm_loose(w, 0, at_rest());
    lemma_calm_loose(x, 0, at_rest());
    lemma_calm_join(w, mid, true);
    lemma_calm_join(w + mid, x, true);
    assert(w + mid + x =~= t);
    lemma_calm_no_line_end(t, 0, at_rest(), true);
    crate::text_laws::lemma_lines_only(t);
    let none = Seq::<Seq<char>>::empty();
    lemma_logical(seq![t], 0, none);
    assert(none + seq![t].skip(0) =~= seq![t]);
    lemma_trim(Seq::empty(), t, Seq::empty());
    let nothing = Seq::<(KeyV, ValueV)>::empty();
    assert(!has_key(nothing, KeyV::Str(k)));
    let root = seq![(KeyV::Str(k), v)];
    assert(nothing.push((KeyV::Str(k), v)) =~= root);
    assert(none + seq![k] =~= seq![k]);
    assert(put(nothing, seq![k], 0, GoalV::Leaf(v)) == Ok::<Seq<(KeyV, ValueV)>, Seq<char>>(root));
    let doc = DocV { root: nothing, current: none };
    let next = DocV { root, current: none };
    assert(line_read(read, doc, t) == Ok::<DocV, Seq<char>>(next));
    reveal_with_fuel(document_from, 3);
    assert(finished(v) == v);
    assert(finished_entries(root) =~= root);
}

// ---------------------------------------------------------------------------
// Strings in single quotes
// ---------------------------------------------------------------------------

/// A text that can stand in single quotes.
pub open spec fn literal(x: Seq<char>) -> bool {
    forall|i: int| 0 <= i < x.len() ==> #[trigger] x[i] != '\'' && x[i] != '\n'
}

proof fn lemma_literal_calm(x: Seq<char>, j: int)
    requires
        literal(x),
        0 <= j <= x.len(),
    ensures
        calm(
            seq!['\''] + x + seq!['\''],
            j + 1,
            Scan { within: Within::Literal, depth: 0 },
            false,
        ),
    decreases x.len() - j,
{
    let s = seq!['\''] + x + seq!['\''];
    let t = Scan { within: Within::Literal, depth: 0 };
    if j < x.len() {
        assert(s[j + 1] == x[j]);
        assert(x[j] != '\'' && x[j] != '\n');
        lemma_literal_calm(x, j + 1);
        assert(scanned(x[j], t) == t);
    } else {
        assert(s[j + 1] == '\'');
        assert(scanned('\'', t) == at_rest());
        assert(calm(s, j + 2, at_rest(), false));
    }
}

/// What stands in single quotes is taken as it is: backslashes, hashes, brackets and equals signs
/// mean nothing there.
pub proof fn law_toml_takes_single_quotes_as_they_are(read: Reading, k: Seq<char>, x: Seq<char>)
    requires
        key_fits(k),
        literal(x),
    ensures
        toml_of(read, pair(k, seq!['\''] + x + seq!['\''])) == Ok::<ValueV, Seq<char>>(
            ddict_v(seq![(KeyV::Str(k), dstr_v(x))]),
        ),
{
    let s = seq!['\''] + x + seq!['\''];
    assert(s[0] == '\'' && s.last() == '\'');
    assert(!is_space('\''));
    lemma_literal_calm(x, 0);
    assert(scanned('\'', at_rest()) == (Scan { within: Within::Literal, depth: 0 }));
    assert(calm(s, 0, at_rest(), false));
    lemma_trim(Seq::empty(), s, Seq::empty());
    assert(inside(s) =~= x);
    assert(!(s.len() >= 3 && s[1] == '\'' && s[2] == '\'')) by {
        if s.len() >= 3 && s[1] == '\'' {
            if x.len() > 0 {
                assert(s[1] == x[0]);
            }
        }
    }
    assert(value_of(read, s, 0) == Ok::<ValueV, Seq<char>>(dstr_v(x)));
    lemma_pair(read, k, s, dstr_v(x));
}

// ---------------------------------------------------------------------------
// Underscores in numbers
// ---------------------------------------------------------------------------

/// Digits and underscores.
pub open spec fn digits_parted(s: Seq<char>) -> bool {
    forall|i: int| 0 <= i < s.len() ==> is_digit(#[trigger] s[i]) || s[i] == '_'
}

proof fn lemma_cleaned(a: Seq<char>, b: Seq<char>, i: int)
    requires
        0 <= i <= a.len(),
    ensures
        cleaned_from(a + seq!['_'] + b, i) == cleaned_from(a + b, i),
    decreases a.len() - i,
{
    let s = a + seq!['_'] + b;
    let t = a + b;
    if i < a.len() {
        assert(s[i] == a[i] && t[i] == a[i]);
        lemma_cleaned(a, b, i + 1);
    } else {
        assert(s[i] == '_');
        lemma_cleaned_tail(a, b, 0);
    }
}

proof fn lemma_cleaned_tail(a: Seq<char>, b: Seq<char>, j: int)
    requires
        0 <= j <= b.len(),
    ensures
        cleaned_from(a + seq!['_'] + b, a.len() + 1 + j) == cleaned_from(a + b, a.len() + j),
    decreases b.len() - j,
{
    let s = a + seq!['_'] + b;
    let t = a + b;
    if j < b.len() {
        assert(s[a.len() + 1 + j] == b[j] && t[a.len() + j] == b[j]);
        lemma_cleaned_tail(a, b, j + 1);
    }
}

/// An underscore between two digits of an integer changes nothing.
pub proof fn law_toml_underscores_part_digits(
    read: Reading,
    k: Seq<char>,
    a: Seq<char>,
    b: Seq<char>,
    v: ValueV,
)
    requires
        digits_parted(a),
        digits_parted(b),
        a.len() > 0,
        b.len() > 0,
        is_digit(a.last()),
        is_digit(b[0]),
        number_of(read, a + b) == Ok::<ValueV, Seq<char>>(v),
    ensures
        value_of(read, a + b, 0) == Ok::<ValueV, Seq<char>>(v),
        value_of(read, a + seq!['_'] + b, 0) == Ok::<ValueV, Seq<char>>(v),
{
    let s = a + seq!['_'] + b;
    let t = a + b;
    lemma_cleaned(a, b, 0);
    assert(separators_fit(t));
    assert forall|i: int| 0 <= i < s.len() && #[trigger] s[i] == '_' implies between_digits(s, i) by {
        if i < a.len() {
            assert(t[i] == '_');
            assert(between_digits(t, i));
            assert(i + 1 < a.len()) by {
                if i + 1 == a.len() {
                    assert(a.last() == s[i]);
                }
            }
            assert(s[i - 1] == t[i - 1] && s[i + 1] == t[i + 1]);
        } else if i == a.len() {
            assert(s[i - 1] == a.last() && s[i + 1] == b[0]);
        } else {
            assert(t[i - 1] == '_') by {
                assert(s[i] == b[i - a.len() - 1]);
            }
            assert(between_digits(t, i - 1));
            assert(i - 1 > a.len()) by {
                if i - 1 == a.len() {
                    assert(s[i] == b[0]);
                }
            }
            assert(s[i - 1] == t[i - 2] && s[i + 1] == t[i]);
        }
    }
    assert(separators_fit(s));
    lemma_digits_plain(read, s, a, b);
    lemma_digits_plain(read, t, a, b);
    assert(number_of(read, s) == Ok::<ValueV, Seq<char>>(v));
}

proof fn lemma_digits_plain(read: Reading, s: Seq<char>, a: Seq<char>, b: Seq<char>)
    requires
        s.len() > 0,
        digits_parted(s) || (digits_parted(a) && digits_parted(b) && (s == a + b || s == a + seq![
            '_',
        ] + b)),
    ensures
        value_of(read, s, 0) == number_of(read, s),
{
    assert forall|i: int| 0 <= i < s.len() implies is_digit(#[trigger] s[i]) || s[i] == '_' by {
        if !digits_parted(s) {
            if i < a.len() {
                assert(s[i] == a[i]);
            } else if s == a + b {
                assert(s[i] == b[i - a.len()]);
            } else if i > a.len() {
                assert(s[i] == b[i - a.len() - 1]);
            }
        }
    }
    let n = s.len() - 1;
    assert(is_digit(s[0]) || s[0] == '_');
    assert(is_digit(s[n]) || s[n] == '_');
    assert(!is_space(s[0]) && !is_space(s[n]));
    lemma_trim(Seq::empty(), s, Seq::empty());
    reveal_strlit("true");
    reveal_strlit("false");
    assert("true"@[0] == 't' && "false"@[0] == 'f');
    assert(!starts_as_date(s)) by {
        if s.len() > 4 {
            assert(is_digit(s[4]) || s[4] == '_');
        }
    }
}

/// An underscore in an integer that does not stand between two digits is an error.
pub proof fn law_toml_underscores_stand_between_digits(read: Reading, s: Seq<char>, i: int)
    requires
        digits_parted(s),
        0 <= i < s.len(),
        s[i] == '_',
        i == 0 || i + 1 == s.len() || s[i - 1] == '_' || s[i + 1] == '_',
    ensures
        value_of(read, s, 0) is Err,
{
    lemma_digits_plain(read, s, s, s);
    assert(!between_digits(s, i));
    assert(!separators_fit(s));
}

} // verus!
