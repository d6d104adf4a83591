//! Conversions between the primitive types, and the methods of texts.

use super::codec::dynamic::has_char;
use super::codec::json::Reading;
use super::codec::lower::int_as_float;
use super::collections::outcome;
use super::fs::{bytes_v, bytes_value};
use super::{
    err_v, err_value, error_v, error_value, none_v, none_value, ok_v, ok_value, option_v,
    option_value, some_v, some_value, strs_v, strs_value,
};
use crate::diagnostics::{DiagnosticView, Span};
use crate::eval::value::{
    bool_value, float_value, int_value, lemma_value_view, str_value, Value, ValueV,
};
use crate::eval::{out_of_range, out_of_range_view, overflow, overflow_view, Abort};
use crate::numerals::{int_of, is_digit, read_float, reading, steady};
use crate::stdlib::codec::json_laws::{lemma_digits, lemma_int_text};
use crate::text::{
    bytes_of, char_text, chars_of, digits, has_prefix_at, int_text, int_to_text, is_space, join2,
    nat_to_text, no_text, same_text, starts_with, sub_text, texts, trim, trim_end, trim_left,
    trim_right, trim_start, trimmed,
};
use vstd::prelude::*;
use vstd::string::*;
use vstd::utf8::*;

verus! {

// ---------------------------------------------------------------------------
// Conversions
// ---------------------------------------------------------------------------

/// `int` of a float: the float without its fraction, `truncated`, which is there where it lies in
/// the range of the integers. Elsewhere the run is aborted.
pub fn int_from_float(truncated: Option<i64>, span: Span) -> (r: Result<Value, Abort>)
    ensures
        outcome(r) == (match truncated {
            Some(n) => Ok::<ValueV, DiagnosticView>(ValueV::Int(n)),
            None => Err(overflow_view(span)),
        }),
{
    match truncated {
        Some(n) => Ok(int_value(n)),
        None => Err(overflow(span)),
    }
}

/// `float` of an integer. Floats are read with `read`, from a number to its spelling.
pub fn float_from_int<F: Fn(String) -> Option<String>>(x: i64, read: &F) -> (r: Value)
    requires
        steady(*read),
    ensures
        r@ == ValueV::Float(int_as_float(reading(*read), x)),
{
    match read_float(read, int_to_text(x)) {
        Some(f) => float_value(f),
        None => float_value(int_to_text(x)),
    }
}

pub open spec fn is_negative(x: Seq<char>) -> bool {
    x.len() > 0 && x[0] == '-'
}

/// A float's spelling without its sign.
pub open spec fn unsigned(x: Seq<char>) -> Seq<char> {
    if is_negative(x) {
        x.skip(1)
    } else {
        x
    }
}

/// Where the point stands from the `i`-th character on, or the end where there is none.
pub open spec fn point_from(s: Seq<char>, i: int) -> int
    decreases s.len() - i,
{
    if !(0 <= i < s.len()) {
        s.len() as int
    } else if s[i] == '.' {
        i
    } else {
        point_from(s, i + 1)
    }
}

/// The digits of a number without its point.
pub open spec fn all_digits_of(s: Seq<char>) -> Seq<char> {
    let p = point_from(s, 0);
    if p < s.len() {
        s.take(p) + s.skip(p + 1)
    } else {
        s
    }
}

/// How many zeros stand at the front, from the `i`-th digit on counted with those before it.
pub open spec fn zeros_from(s: Seq<char>, i: int) -> int
    decreases s.len() - i,
{
    if 0 <= i < s.len() && s[i] == '0' {
        zeros_from(s, i + 1)
    } else {
        i
    }
}

/// Some digits without the zeros at their end.
pub open spec fn without_last_zeros(s: Seq<char>) -> Seq<char>
    decreases s.len(),
{
    if s.len() > 0 && s.last() == '0' {
        without_last_zeros(s.drop_last())
    } else {
        s
    }
}

/// The power of ten of the first digit that is not zero.
pub open spec fn exponent_of(s: Seq<char>) -> int {
    point_from(s, 0) - 1 - zeros_from(all_digits_of(s), 0)
}

/// Some digit is not zero.
pub open spec fn is_nonzero(s: Seq<char>) -> bool {
    zeros_from(all_digits_of(s), 0) < all_digits_of(s).len()
}

/// A number in scientific notation: one digit before the point.
pub open spec fn scientific(s: Seq<char>) -> Seq<char> {
    let ds = all_digits_of(s);
    scientific_of(ds, zeros_from(ds, 0), point_from(s, 0))
}

/// A float as text: with a point always, and in scientific notation where it is large (1e16 or
/// more) or small (less than 1e-4).
pub open spec fn float_str(x: Seq<char>) -> Seq<char> {
    let s = unsigned(x);
    if x == "NaN"@ {
        "nan"@
    } else if x == "inf"@ || x == "-inf"@ {
        x
    } else if is_nonzero(s) && (exponent_of(s) >= 16 || exponent_of(s) < -4) {
        (if is_negative(x) {
            "-"@
        } else {
            ""@
        }) + scientific(s)
    } else if x.contains('.') {
        x
    } else {
        x + ".0"@
    }
}

fn point_in(s: &Vec<char>, from: usize) -> (r: usize)
    requires
        from <= s@.len(),
    ensures
        from <= r <= s@.len(),
        r - from == point_from(s@.skip(from as int), 0),
{
    let ghost t = s@.skip(from as int);
    let mut i: usize = from;
    while i < s.len()
        invariant
            from <= i <= s@.len(),
            t == s@.skip(from as int),
            point_from(t, i - from) == point_from(t, 0),
        decreases s@.len() - i,
    {
        assert(t[i - from] == s@[i as int]);
        if s[i] == '.' {
            return i;
        }
        i = i + 1;
    }
    i
}

fn digits_in(s: &Vec<char>, from: usize, point: usize) -> (r: Vec<char>)
    requires
        from <= point <= s@.len(),
        point - from == point_from(s@.skip(from as int), 0),
    ensures
        r@ == all_digits_of(s@.skip(from as int)),
{
    let ghost t = s@.skip(from as int);
    let mut out: Vec<char> = Vec::new();
    let mut i: usize = from;
    while i < s.len()
        invariant
            from <= i <= s@.len(),
            from <= point <= s@.len(),
            t == s@.skip(from as int),
            out@ == (if i <= point {
                t.take(i - from)
            } else {
                t.take(point - from) + t.subrange(point - from + 1, i - from)
            }),
        decreases s@.len() - i,
    {
        if i != point {
            out.push(s[i]);
        }
        assert(out@ =~= if i + 1 <= point {
            t.take(i + 1 - from)
        } else {
            t.take(point - from) + t.subrange(point - from + 1, i + 1 - from)
        });
        i = i + 1;
    }
    assert(out@ =~= all_digits_of(t));
    out
}

/// A number in scientific notation, of its digits, how many of them are zeros at the front, and
/// how many stand before the point.
pub open spec fn scientific_of(ds: Seq<char>, lead: int, whole: int) -> Seq<char> {
    let m = without_last_zeros(ds.skip(lead));
    (if m.len() > 1 {
        m.take(1) + "."@ + m.skip(1)
    } else {
        m
    }) + "e"@ + int_text(whole - 1 - lead)
}

fn scientific_text(ds: &Vec<char>, lead: usize, whole: usize) -> (r: String)
    requires
        lead < ds@.len(),
    ensures
        r@ == scientific_of(ds@, lead as int, whole as int),
{
    let mut last: usize = ds.len();
    let ghost all = ds@.skip(lead as int);
    assert(ds@.subrange(lead as int, last as int) =~= all);
    while last > lead && ds[last - 1] == '0'
        invariant
            lead <= last <= ds@.len(),
            without_last_zeros(ds@.subrange(lead as int, last as int)) == without_last_zeros(all),
        decreases last,
    {
        assert(ds@.subrange(lead as int, last as int).drop_last() =~= ds@.subrange(
            lead as int,
            last - 1,
        ));
        last = last - 1;
    }
    let ghost m = ds@.subrange(lead as int, last as int);
    assert(m == without_last_zeros(all));
    let mut out = String::new();
    if last - lead > 1 {
        let first = sub_text(ds, lead, lead + 1);
        let rest = sub_text(ds, lead + 1, last);
        out.append(first.as_str());
        out.append(".");
        out.append(rest.as_str());
        assert(first@ =~= m.take(1));
        assert(rest@ =~= m.skip(1));
        assert(out@ =~= m.take(1) + "."@ + m.skip(1));
    } else {
        let one = sub_text(ds, lead, last);
        out.append(one.as_str());
        assert(out@ =~= m);
    }
    let ghost mantissa = out@;
    out.append("e");
    let ghost e = whole - 1 - lead;
    if whole > lead {
        let text = nat_to_text((whole - 1 - lead) as u64);
        out.append(text.as_str());
        assert(out@ =~= mantissa + "e"@ + int_text(e));
    } else {
        let text = nat_to_text(lead as u64 - whole as u64 + 1);
        out.append("-");
        out.append(text.as_str());
        proof {
            reveal_strlit("-");
            assert("-"@ =~= seq!['-']);
        }
        assert(out@ =~= mantissa + "e"@ + int_text(e));
    }
    out
}

/// A float with the spelling `x` as text.
pub fn format_float(x: &str) -> (r: String)
    ensures
        r@ == float_str(x@),
{
    if same_text(x, "NaN") {
        return "nan".to_owned();
    }
    if same_text(x, "inf") || same_text(x, "-inf") {
        return x.to_owned();
    }
    let v = chars_of(x);
    let from: usize = if v.len() > 0 && v[0] == '-' {
        1
    } else {
        0
    };
    let ghost s = unsigned(x@);
    assert(v@.skip(from as int) =~= s);
    let point: usize = point_in(&v, from);
    let ds = digits_in(&v, from, point);
    let mut lead: usize = 0;
    while lead < ds.len() && ds[lead] == '0'
        invariant
            lead <= ds@.len(),
            zeros_from(ds@, lead as int) == zeros_from(ds@, 0),
        decreases ds@.len() - lead,
    {
        lead = lead + 1;
    }
    let whole: usize = point - from;
    // The exponent is `whole - 1 - lead`.
    if lead < ds.len() && (whole as u128 >= lead as u128 + 17 || whole as u128 + 3 < lead as u128) {
        let mut out = String::new();
        if from == 1 {
            out.append("-");
        }
        proof {
            reveal_strlit("");
            assert(out@ =~= if is_negative(x@) {
                "-"@
            } else {
                ""@
            });
        }
        let text = scientific_text(&ds, lead, whole);
        out.append(text.as_str());
        return out;
    }
    if has_char(x, '.') {
        x.to_owned()
    } else {
        join2(x, ".0")
    }
}

/// A value that `str` takes.
pub open spec fn has_str(v: ValueV) -> bool {
    v is Int || v is Float || v is Bool
}

/// A value as text.
pub open spec fn str_of(v: ValueV) -> Seq<char> {
    match v {
        ValueV::Int(n) => int_text(n as int),
        ValueV::Float(x) => float_str(x),
        ValueV::Bool(b) => if b {
            "true"@
        } else {
            "false"@
        },
        _ => Seq::empty(),
    }
}

/// `str`: a value as text.
pub fn str_from_value(x: &Value) -> (r: Value)
    requires
        has_str(x@),
    ensures
        r@ == ValueV::Str(str_of(x@)),
{
    proof {
        lemma_value_view(*x);
    }
    match x {
        Value::Int(n) => str_value(int_to_text(*n)),
        Value::Float(f) => str_value(format_float(f.as_str())),
        Value::Bool(b) => {
            if *b {
                str_value("true".to_owned())
            } else {
                str_value("false".to_owned())
            }
        },
        _ => str_value(String::new()),
    }
}

/// `to_str` of an integer.
pub fn int_to_str(x: i64) -> (r: Value)
    ensures
        r@ == ValueV::Str(int_text(x as int)),
{
    str_value(int_to_text(x))
}

/// `to_str` of a float with the spelling `x`.
pub fn float_to_str(x: &str) -> (r: Value)
    ensures
        r@ == ValueV::Str(float_str(x@)),
{
    str_value(format_float(x))
}

// ---------------------------------------------------------------------------
// Texts
// ---------------------------------------------------------------------------

/// A number of characters or an index, as an integer of the language.
pub open spec fn count_v(n: int) -> ValueV {
    ValueV::Int(
        if n <= i64::MAX {
            n as i64
        } else {
            i64::MAX
        },
    )
}

fn count_value(n: usize) -> (r: Value)
    ensures
        r@ == count_v(n as int),
{
    if n as u64 <= i64::MAX as u64 {
        int_value(n as i64)
    } else {
        int_value(i64::MAX)
    }
}

/// `len`: how many characters a text has.
pub fn str_len(s: &str) -> (r: Value)
    ensures
        r@ == count_v(s@.len() as int),
{
    let v = chars_of(s);
    count_value(v.len())
}

/// `get`: the character at an index, if there is one.
pub fn str_get(s: &str, i: i64) -> (r: Value)
    ensures
        r@ == (if 0 <= i < s@.len() {
            some_v(ValueV::Str(seq![s@[i as int]]))
        } else {
            none_v()
        }),
{
    let v = chars_of(s);
    if i >= 0 && (i as u64) < v.len() as u64 {
        let text = char_text(v[i as usize]);
        assert(text@ =~= seq![s@[i as int]]);
        some_value(str_value(text))
    } else {
        none_value()
    }
}

/// The characters of a text, each as a text.
pub open spec fn singles(s: Seq<char>) -> Seq<Seq<char>> {
    Seq::new(s.len(), |i: int| seq![s[i]])
}

fn single_texts(v: &Vec<char>) -> (r: Vec<String>)
    ensures
        texts(r@) == singles(v@),
{
    let mut out: Vec<String> = Vec::new();
    let mut i: usize = 0;
    while i < v.len()
        invariant
            i <= v@.len(),
            out@.len() == i,
            forall|j: int| 0 <= j < i ==> (#[trigger] out@[j])@ == seq![v@[j]],
        decreases v@.len() - i,
    {
        let text = char_text(v[i]);
        assert(text@ =~= seq![v@[i as int]]);
        out.push(text);
        i = i + 1;
    }
    assert(texts(out@) =~= singles(v@));
    out
}

/// `chars`: the characters of a text, each as a text.
pub fn str_chars(s: &str) -> (r: Value)
    ensures
        r@ == strs_v(singles(s@)),
{
    let v = chars_of(s);
    let items = single_texts(&v);
    strs_value(&items)
}

/// `bytes`: the bytes of a text.
pub fn str_bytes(s: &str) -> (r: Value)
    ensures
        r@ == bytes_v(encode_utf8(s@)),
{
    let b = bytes_of(s);
    bytes_value(&b)
}

/// The parts of a text from the `i`-th character on, of which `out` and a part of the next one
/// have been seen.
pub open spec fn split_from(
    s: Seq<char>,
    sep: Seq<char>,
    i: int,
    part: Seq<char>,
    out: Seq<Seq<char>>,
) -> Seq<Seq<char>>
    decreases s.len() - i,
{
    if !(0 <= i < s.len()) {
        out.push(part)
    } else if sep.len() > 0 && starts_with(s.skip(i), sep) {
        split_from(s, sep, i + sep.len(), Seq::empty(), out.push(part))
    } else {
        split_from(s, sep, i + 1, part.push(s[i]), out)
    }
}

/// What stands before, between and after the separators of a text. An empty separator stands
/// between all characters, and before the first and after the last.
pub open spec fn split_of(s: Seq<char>, sep: Seq<char>) -> Seq<Seq<char>> {
    if sep.len() == 0 {
        seq![Seq::<char>::empty()] + singles(s) + seq![Seq::<char>::empty()]
    } else {
        split_from(s, sep, 0, Seq::empty(), Seq::empty())
    }
}

/// `split`: the parts of a text between separators.
pub fn str_split(s: &str, sep: &str) -> (r: Value)
    ensures
        r@ == strs_v(split_of(s@, sep@)),
{
    let v = chars_of(s);
    let p = chars_of(sep);
    if p.len() == 0 {
        let mut items = single_texts(&v);
        items.insert(0, String::new());
        items.push(String::new());
        assert(texts(items@) =~= split_of(s@, sep@)) by {
            assert(items@[0]@ =~= Seq::<char>::empty());
            assert(items@[(s@.len() + 1) as int]@ =~= Seq::<char>::empty());
        }
        return strs_value(&items);
    }
    let mut out: Vec<String> = Vec::new();
    let mut from: usize = 0;
    let mut i: usize = 0;
    assert(v@.subrange(0, 0) =~= Seq::empty());
    assert(texts(out@) =~= Seq::empty());
    while i < v.len()
        invariant
            v@ == s@,
            p@ == sep@,
            p@.len() > 0,
            from <= i <= v@.len(),
            split_from(v@, p@, i as int, v@.subrange(from as int, i as int), texts(out@))
                == split_from(v@, p@, 0, Seq::empty(), Seq::empty()),
        decreases v@.len() - i,
    {
        let ghost part = v@.subrange(from as int, i as int);
        let ghost seen = texts(out@);
        if has_prefix_at(&v, i, &p) {
            let piece = sub_text(&v, from, i);
            out.push(piece);
            assert(texts(out@) =~= seen.push(part));
            assert(v@.skip(i as int).len() >= p@.len());
            i = i + p.len();
            from = i;
            assert(v@.subrange(i as int, i as int) =~= Seq::empty());
        } else {
            assert(part.push(v@[i as int]) =~= v@.subrange(from as int, i + 1));
            i = i + 1;
        }
    }
    let ghost seen = texts(out@);
    let piece = sub_text(&v, from, i);
    out.push(piece);
    assert(texts(out@) =~= seen.push(v@.subrange(from as int, i as int)));
    strs_value(&out)
}

/// `trim`: a text without the white space around it.
pub fn str_trim(s: &str) -> (r: Value)
    ensures
        r@ == ValueV::Str(trimmed(s@)),
{
    str_value(trim(s))
}

/// `trim_start`: a text without its leading white space.
pub fn str_trim_start(s: &str) -> (r: Value)
    ensures
        r@ == ValueV::Str(trim_left(s@)),
{
    str_value(trim_start(s))
}

/// `trim_end`: a text without its trailing white space.
pub fn str_trim_end(s: &str) -> (r: Value)
    ensures
        r@ == ValueV::Str(trim_right(s@)),
{
    str_value(trim_end(s))
}

/// A text with capital letters for small ones, by the case mapping of Unicode.
pub uninterp spec fn upper_of(s: Seq<char>) -> Seq<char>;

/// A text with small letters for capital ones, by the case mapping of Unicode.
pub uninterp spec fn lower_of(s: Seq<char>) -> Seq<char>;

/// `str::to_uppercase`: the text in capital letters.
#[verifier::external_body]
fn upper(s: &str) -> (r: String)
    ensures
        r@ == upper_of(s@),
{
    s.to_uppercase()
}

/// `str::to_lowercase`: the text in small letters.
#[verifier::external_body]
fn lower(s: &str) -> (r: String)
    ensures
        r@ == lower_of(s@),
{
    s.to_lowercase()
}

/// `to_upper`: a text in capital letters.
pub fn str_to_upper(s: &str) -> (r: Value)
    ensures
        r@ == ValueV::Str(upper_of(s@)),
{
    str_value(upper(s))
}

/// `to_lower`: a text in small letters.
pub fn str_to_lower(s: &str) -> (r: Value)
    ensures
        r@ == ValueV::Str(lower_of(s@)),
{
    str_value(lower(s))
}

/// `is_empty`: whether a text has no character.
pub fn str_is_empty(s: &str) -> (r: Value)
    ensures
        r@ == ValueV::Bool(s@.len() == 0),
{
    bool_value(no_text(s))
}

/// `to_str` of a text: the text.
pub fn str_to_str(s: &str) -> (r: Value)
    ensures
        r@ == ValueV::Str(s@),
{
    str_value(s.to_owned())
}

/// Where a text first stands in another, from the `i`-th character on.
pub open spec fn place_from(s: Seq<char>, needle: Seq<char>, i: int) -> Option<int>
    decreases s.len() + 1 - i,
{
    if !(0 <= i <= s.len()) {
        None
    } else if starts_with(s.skip(i), needle) {
        Some(i)
    } else {
        place_from(s, needle, i + 1)
    }
}

fn place_of(s: &str, needle: &str) -> (r: Option<usize>)
    ensures
        match r {
            Some(i) => place_from(s@, needle@, 0) == Some(i as int),
            None => place_from(s@, needle@, 0) is None,
        },
{
    let v = chars_of(s);
    let p = chars_of(needle);
    let n: usize = v.len();
    let mut i: usize = 0;
    while i < n
        invariant
            v@ == s@,
            p@ == needle@,
            n == v@.len(),
            i <= n,
            place_from(v@, p@, i as int) == place_from(v@, p@, 0),
        decreases n - i,
    {
        if has_prefix_at(&v, i, &p) {
            return Some(i);
        }
        i = i + 1;
    }
    if has_prefix_at(&v, n, &p) {
        return Some(n);
    }
    assert(place_from(v@, p@, n + 1) is None);
    None
}

/// `contains`: whether a text stands in another.
pub fn str_contains(s: &str, needle: &str) -> (r: Value)
    ensures
        r@ == ValueV::Bool(place_from(s@, needle@, 0) is Some),
{
    match place_of(s, needle) {
        Some(_) => bool_value(true),
        None => bool_value(false),
    }
}

/// `starts_with`: whether a text starts with another.
pub fn str_starts_with(s: &str, prefix: &str) -> (r: Value)
    ensures
        r@ == ValueV::Bool(starts_with(s@, prefix@)),
{
    let v = chars_of(s);
    let p = chars_of(prefix);
    assert(v@.skip(0) =~= v@);
    bool_value(has_prefix_at(&v, 0, &p))
}

/// A text ends with another.
pub open spec fn ends_with(s: Seq<char>, suffix: Seq<char>) -> bool {
    suffix.len() <= s.len() && s.skip(s.len() - suffix.len()) == suffix
}

/// `ends_with`: whether a text ends with another.
pub fn str_ends_with(s: &str, suffix: &str) -> (r: Value)
    ensures
        r@ == ValueV::Bool(ends_with(s@, suffix@)),
{
    let v = chars_of(s);
    let p = chars_of(suffix);
    if p.len() > v.len() {
        return bool_value(false);
    }
    let from: usize = v.len() - p.len();
    let ghost tail = v@.skip(from as int);
    assert(tail.take(p@.len() as int) =~= tail);
    bool_value(has_prefix_at(&v, from, &p))
}

/// A text from the `i`-th character on, with every separator replaced.
pub open spec fn replaced_from(s: Seq<char>, from: Seq<char>, to: Seq<char>, i: int) -> Seq<char>
    decreases s.len() - i,
{
    if !(0 <= i < s.len()) {
        Seq::empty()
    } else if from.len() > 0 && starts_with(s.skip(i), from) {
        to + replaced_from(s, from, to, i + from.len())
    } else {
        seq![s[i]] + replaced_from(s, from, to, i + 1)
    }
}

/// The characters from the `i`-th on, each with a text after it.
pub open spec fn spaced_from(s: Seq<char>, to: Seq<char>, i: int) -> Seq<char>
    decreases s.len() - i,
{
    if 0 <= i < s.len() {
        seq![s[i]] + to + spaced_from(s, to, i + 1)
    } else {
        Seq::empty()
    }
}

/// A text with every occurrence of another replaced. An empty one occurs between all characters,
/// and before the first and after the last.
pub open spec fn replaced(s: Seq<char>, from: Seq<char>, to: Seq<char>) -> Seq<char> {
    if from.len() == 0 {
        to + spaced_from(s, to, 0)
    } else {
        replaced_from(s, from, to, 0)
    }
}

/// `replace`: a text with every occurrence of another replaced.
pub fn str_replace(s: &str, from: &str, to: &str) -> (r: Value)
    ensures
        r@ == ValueV::Str(replaced(s@, from@, to@)),
{
    let v = chars_of(s);
    let p = chars_of(from);
    let mut out = String::new();
    let mut i: usize = 0;
    if p.len() == 0 {
        out.append(to);
        let ghost whole = replaced(s@, from@, to@);
        assert(out@ + spaced_from(v@, to@, 0) =~= whole);
        while i < v.len()
            invariant
                v@ == s@,
                i <= v@.len(),
                out@ + spaced_from(v@, to@, i as int) == whole,
            decreases v@.len() - i,
        {
            let ghost before = out@;
            out.push(v[i]);
            out.append(to);
            assert(out@ + spaced_from(v@, to@, i + 1) =~= before + spaced_from(
                v@,
                to@,
                i as int,
            ));
            i = i + 1;
        }
        assert(out@ =~= whole);
        return str_value(out);
    }
    let ghost whole = replaced_from(v@, p@, to@, 0);
    assert(out@ + whole =~= whole);
    while i < v.len()
        invariant
            v@ == s@,
            p@ == from@,
            p@.len() > 0,
            i <= v@.len(),
            out@ + replaced_from(v@, p@, to@, i as int) == whole,
        decreases v@.len() - i,
    {
        let ghost before = out@;
        if has_prefix_at(&v, i, &p) {
            assert(v@.skip(i as int).len() >= p@.len());
            out.append(to);
            assert(out@ + replaced_from(v@, p@, to@, i + p@.len()) =~= before + replaced_from(
                v@,
                p@,
                to@,
                i as int,
            ));
            i = i + p.len();
        } else {
            out.push(v[i]);
            assert(out@ + replaced_from(v@, p@, to@, i + 1) =~= before + replaced_from(
                v@,
                p@,
                to@,
                i as int,
            ));
            i = i + 1;
        }
    }
    assert(out@ =~= whole);
    str_value(out)
}

/// A text, so many times.
pub open spec fn repeated(s: Seq<char>, n: int) -> Seq<char>
    decreases n,
{
    if n <= 0 {
        Seq::empty()
    } else {
        repeated(s, n - 1) + s
    }
}

/// `repeat`: a text, so many times; not at all where the number is negative.
pub fn str_repeat(s: &str, n: i64) -> (r: Value)
    requires
        encode_utf8(s@).len() * n <= isize::MAX,
    ensures
        r@ == ValueV::Str(repeated(s@, n as int)),
{
    let mut out = String::new();
    let mut i: i64 = 0;
    assert(out@ =~= repeated(s@, 0));
    while i < n
        invariant
            0 <= i,
            i <= n || n < 0 && i == 0,
            out@ == repeated(s@, i as int),
        decreases n - i,
    {
        out.append(s);
        i = i + 1;
    }
    str_value(out)
}

/// `find`: where a text first stands in another, counted in characters.
pub fn str_find(s: &str, needle: &str) -> (r: Value)
    ensures
        r@ == option_v(
            match place_from(s@, needle@, 0) {
                Some(i) => Some(count_v(i)),
                None => None,
            },
        ),
{
    match place_of(s, needle) {
        Some(i) => option_value(Some(count_value(i))),
        None => option_value(None),
    }
}

/// `slice`: the characters from one index up to another; the run is aborted where they are not
/// there.
pub fn str_slice(s: &str, start: i64, end: i64, span: Span) -> (r: Result<Value, Abort>)
    ensures
        outcome(r) == (if 0 <= start <= end <= s@.len() {
            Ok::<ValueV, DiagnosticView>(ValueV::Str(s@.subrange(start as int, end as int)))
        } else {
            Err(out_of_range_view(span, "str slice"@))
        }),
{
    let v = chars_of(s);
    if 0 <= start && start <= end && end as u64 <= v.len() as u64 {
        Ok(str_value(sub_text(&v, start as usize, end as usize)))
    } else {
        Err(out_of_range(span, "str slice"))
    }
}

/// What is wrong with a text that is no integer.
pub uninterp spec fn int_complaint(s: Seq<char>) -> Seq<char>;

/// `str::parse` as an `i64`: digits with an optional sign, in the range of the type; elsewhere
/// the message of the error.
#[verifier::external_body]
fn parse_i64(s: &str) -> (r: Result<i64, String>)
    ensures
        match r {
            Ok(n) => int_of(s@) == Some(n),
            Err(m) => int_of(s@) is None && m@ == int_complaint(s@),
        },
{
    s.parse::<i64>().map_err(|e| e.to_string())
}

/// What `parse_int` makes of what a text was read as.
pub open spec fn parsed_int_v(read: Result<i64, Seq<char>>) -> ValueV {
    match read {
        Ok(n) => ok_v(ValueV::Int(n)),
        Err(m) => err_v(error_v("decode"@, "invalid int literal: "@ + m)),
    }
}

/// What `parse_int` makes of what a text was read as.
pub fn parsed_int(read: Result<i64, String>) -> (r: Value)
    ensures
        r@ == parsed_int_v(
            match read {
                Ok(n) => Ok(n),
                Err(m) => Err(m@),
            },
        ),
{
    match read {
        Ok(n) => ok_value(int_value(n)),
        Err(m) => err_value(error_value("decode", join2("invalid int literal: ", m.as_str()))),
    }
}

/// The result of `parse_int`.
pub open spec fn parse_int_v(s: Seq<char>) -> ValueV {
    parsed_int_v(
        match int_of(trimmed(s)) {
            Some(n) => Ok(n),
            None => Err(int_complaint(trimmed(s))),
        },
    )
}

/// `parse_int`: the integer that a text writes, white space around it left out.
pub fn str_parse_int(s: &str) -> (r: Value)
    ensures
        r@ == parse_int_v(s@),
{
    let t = trim(s);
    parsed_int(parse_i64(t.as_str()))
}

/// The result of `parse_float`.
pub open spec fn parse_float_v(read: Reading, s: Seq<char>) -> ValueV {
    match read(trimmed(s)) {
        Some(x) => ok_v(ValueV::Float(x)),
        None => err_v(
            error_v(
                "decode"@,
                if trimmed(s).len() == 0 {
                    "invalid float literal: cannot parse float from empty string"@
                } else {
                    "invalid float literal: invalid float literal"@
                },
            ),
        ),
    }
}

/// `parse_float`: the float that a text writes, white space around it left out. Floats are read
/// with `read`, from what the text has to their spelling.
pub fn str_parse_float<F: Fn(String) -> Option<String>>(s: &str, read: &F) -> (r: Value)
    requires
        steady(*read),
    ensures
        r@ == parse_float_v(reading(*read), s@),
{
    let t = trim(s);
    let empty = no_text(t.as_str());
    match read_float(read, t) {
        Some(x) => ok_value(float_value(x)),
        None => {
            let message = if empty {
                "invalid float literal: cannot parse float from empty string".to_owned()
            } else {
                "invalid float literal: invalid float literal".to_owned()
            };
            err_value(error_value("decode", message))
        },
    }
}

// ---------------------------------------------------------------------------
// Laws
// ---------------------------------------------------------------------------

/// An integer that was written as text reads back.
pub proof fn law_integers_read_back(n: i64)
    ensures
        parse_int_v(int_text(n as int)) == ok_v(ValueV::Int(n)),
{
    let w = int_text(n as int);
    lemma_int_text(n);
    let m = if n < 0 {
        (-(n as int)) as nat
    } else {
        n as nat
    };
    lemma_digits(m);
    assert(is_digit(digits(m)[digits(m).len() - 1]));
    assert(w.last() == digits(m).last());
    assert(!is_space(w[0]));
    assert(!is_space(w.last()));
    assert(trimmed(w) == w);
}

/// Some parts with a text between them.
pub open spec fn joined(parts: Seq<Seq<char>>, sep: Seq<char>) -> Seq<char>
    decreases parts.len(),
{
    if parts.len() == 0 {
        Seq::empty()
    } else if parts.len() == 1 {
        parts[0]
    } else {
        joined(parts.drop_last(), sep) + sep + parts.last()
    }
}

proof fn lemma_joined_push(parts: Seq<Seq<char>>, part: Seq<char>, c: char, sep: Seq<char>)
    ensures
        joined(parts.push(part.push(c)), sep) == joined(parts.push(part), sep).push(c),
{
    assert(parts.push(part.push(c)).drop_last() =~= parts);
    assert(parts.push(part).drop_last() =~= parts);
    assert(joined(parts.push(part.push(c)), sep) =~= joined(parts.push(part), sep).push(c));
}

proof fn lemma_split_joined(
    s: Seq<char>,
    sep: Seq<char>,
    to: Seq<char>,
    i: int,
    part: Seq<char>,
    out: Seq<Seq<char>>,
)
    requires
        sep.len() > 0,
        0 <= i <= s.len(),
    ensures
        joined(split_from(s, sep, i, part, out), to) == joined(out.push(part), to)
            + replaced_from(s, sep, to, i),
    decreases s.len() - i,
{
    let head = joined(out.push(part), to);
    if i == s.len() {
        assert(head + replaced_from(s, sep, to, i) =~= head);
    } else if starts_with(s.skip(i), sep) {
        let next = out.push(part).push(Seq::empty());
        assert(s.skip(i).len() >= sep.len());
        lemma_split_joined(s, sep, to, i + sep.len(), Seq::empty(), out.push(part));
        assert(next.drop_last() =~= out.push(part));
        assert(joined(next, to) =~= head + to);
        assert(head + to + replaced_from(s, sep, to, i + sep.len()) =~= head + replaced_from(
            s,
            sep,
            to,
            i,
        ));
    } else {
        lemma_split_joined(s, sep, to, i + 1, part.push(s[i]), out);
        lemma_joined_push(out, part, s[i], to);
        assert(head.push(s[i]) + replaced_from(s, sep, to, i + 1) =~= head + replaced_from(
            s,
            sep,
            to,
            i,
        ));
    }
}

proof fn lemma_singles_joined(s: Seq<char>, to: Seq<char>, i: int)
    requires
        0 <= i <= s.len(),
    ensures
        joined(seq![Seq::<char>::empty()] + singles(s).take(i), to) + to + spaced_from(s, to, i)
            == to + spaced_from(s, to, 0),
    decreases i,
{
    let parts = seq![Seq::<char>::empty()] + singles(s).take(i);
    if i == 0 {
        assert(parts =~= seq![Seq::<char>::empty()]);
        assert(Seq::<char>::empty() + to + spaced_from(s, to, 0) =~= to + spaced_from(s, to, 0));
    } else {
        let before = seq![Seq::<char>::empty()] + singles(s).take(i - 1);
        lemma_singles_joined(s, to, i - 1);
        assert(parts.drop_last() =~= before);
        assert(parts.last() =~= seq![s[i - 1]]);
        assert(joined(parts, to) + to + spaced_from(s, to, i) =~= joined(before, to) + to
            + spaced_from(s, to, i - 1));
    }
}

/// To replace a text is to split by it and to join with the other.
pub proof fn law_replacing_is_splitting_and_joining(
    s: Seq<char>,
    from: Seq<char>,
    to: Seq<char>,
)
    ensures
        joined(split_of(s, from), to) == replaced(s, from, to),
{
    if from.len() == 0 {
        let n = s.len() as int;
        lemma_singles_joined(s, to, n);
        let parts = split_of(s, from);
        assert(parts.drop_last() =~= seq![Seq::<char>::empty()] + singles(s).take(n));
        assert(spaced_from(s, to, n) =~= Seq::empty());
        assert(joined(parts, to) =~= joined(parts.drop_last(), to) + to + spaced_from(s, to, n));
    } else {
        lemma_split_joined(s, from, to, 0, Seq::empty(), Seq::empty());
        let one = Seq::<Seq<char>>::empty().push(Seq::empty());
        assert(joined(one, to) =~= Seq::empty());
        assert(Seq::<char>::empty() + replaced_from(s, from, to, 0) =~= replaced_from(
            s,
            from,
            to,
            0,
        ));
    }
}

proof fn lemma_replaced_by_itself(s: Seq<char>, sep: Seq<char>, i: int)
    requires
        sep.len() > 0,
        0 <= i <= s.len(),
    ensures
        replaced_from(s, sep, sep, i) == s.skip(i),
    decreases s.len() - i,
{
    if i == s.len() {
        assert(s.skip(i) =~= Seq::empty());
    } else if starts_with(s.skip(i), sep) {
        lemma_replaced_by_itself(s, sep, i + sep.len());
        assert(s.skip(i) =~= s.skip(i).take(sep.len() as int) + s.skip(i + sep.len()));
    } else {
        lemma_replaced_by_itself(s, sep, i + 1);
        assert(s.skip(i) =~= seq![s[i]] + s.skip(i + 1));
    }
}

proof fn lemma_spaced_by_nothing(s: Seq<char>, i: int)
    requires
        0 <= i <= s.len(),
    ensures
        spaced_from(s, Seq::empty(), i) == s.skip(i),
    decreases s.len() - i,
{
    if i < s.len() {
        lemma_spaced_by_nothing(s, i + 1);
        assert(spaced_from(s, Seq::empty(), i) =~= s.skip(i));
    } else {
        assert(s.skip(i) =~= Seq::empty());
    }
}

/// The parts of a text, joined with the separator, are the text.
pub proof fn law_joining_undoes_splitting(s: Seq<char>, sep: Seq<char>)
    ensures
        joined(split_of(s, sep), sep) == s,
{
    law_replacing_is_splitting_and_joining(s, sep, sep);
    assert(s.skip(0) =~= s);
    if sep.len() == 0 {
        assert(sep =~= Seq::empty());
        lemma_spaced_by_nothing(s, 0);
        assert(replaced(s, sep, sep) =~= s);
    } else {
        lemma_replaced_by_itself(s, sep, 0);
    }
}

proof fn lemma_characters_joined(s: Seq<char>)
    ensures
        joined(singles(s), Seq::empty()) == s,
    decreases s.len(),
{
    let parts = singles(s);
    if s.len() == 1 {
        assert(parts[0] =~= s);
    } else if s.len() > 1 {
        assert(parts.drop_last() =~= singles(s.drop_last()));
        lemma_characters_joined(s.drop_last());
        assert(s.drop_last() + Seq::<char>::empty() + parts.last() =~= s);
    } else {
        assert(s =~= Seq::empty());
    }
}

/// The characters of a text are as many as its length says, each is a text of one character, and
/// joined they are the text. Lengths stop at the greatest integer.
pub proof fn law_characters_make_up_a_text(s: Seq<char>)
    ensures
        ({
            let items = strs_v(singles(s))->List_0;
            &&& items.len() == s.len()
            &&& count_v(s.len() as int) matches ValueV::Int(n) && n == if items.len() <= i64::MAX {
                items.len() as int
            } else {
                i64::MAX as int
            }
            &&& forall|i: int|
                0 <= i < items.len() ==> (#[trigger] items[i]) == ValueV::Str(seq![s[i]])
        }),
        joined(singles(s), Seq::empty()) == s,
{
    lemma_characters_joined(s);
}

/// Two slices that meet make up the slice of both.
pub proof fn law_slices_meet(s: Seq<char>, a: int, b: int, c: int)
    requires
        0 <= a <= b <= c <= s.len(),
    ensures
        s.subrange(a, b) + s.subrange(b, c) == s.subrange(a, c),
{
    assert(s.subrange(a, b) + s.subrange(b, c) =~= s.subrange(a, c));
}

/// Where a text is found, it stands, and nowhere before.
pub proof fn law_found_text_stands_there(s: Seq<char>, needle: Seq<char>, i: int)
    requires
        0 <= i <= s.len(),
    ensures
        match place_from(s, needle, i) {
            Some(k) => i <= k && k + needle.len() <= s.len() && s.subrange(k, k + needle.len())
                == needle && forall|j: int|
                i <= j < k ==> !starts_with(#[trigger] s.skip(j), needle),
            None => forall|j: int|
                i <= j <= s.len() ==> !starts_with(#[trigger] s.skip(j), needle),
        },
    decreases s.len() - i,
{
    if starts_with(s.skip(i), needle) {
        assert(s.subrange(i, i + needle.len()) =~= s.skip(i).take(needle.len() as int));
    } else if i < s.len() {
        law_found_text_stands_there(s, needle, i + 1);
    } else {
        assert(place_from(s, needle, i + 1) is None);
    }
}

} // verus!
