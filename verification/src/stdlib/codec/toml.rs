//! TOML: tables, arrays of tables, inline tables and arrays, strings, numbers and booleans.
//! Dates and multi-line strings are refused.

use super::dynamic::{
    branches_of, dbool_v, ddict_v, dfloat_v, dint_v, dlist_v, dstr_v, dyn_bool, dyn_dict, dyn_float,
    dyn_int, dyn_list, dyn_parts, dyn_str, float_text, format_float_default, lemma_tree,
    map_key_as_str, tree_of, trees_of, Dynamic, Tree,
};
use super::escapes::{parse_escaped_string_body, string_result, unescaped};
use super::json::{parsed, quoted, write_json_string, Reading};
use crate::eval::keys::{str_key, KeyV};
use crate::eval::value::{
    dict_value, has_key, inserted, lemma_value_view, list_value, looked_up, values_view, void_value,
    Dict, Value, ValueV,
};
use crate::numerals::{
    int_of, int_of_chars, is_digit, is_digit_char, read_float, reading, steady,
};
use crate::stdlib::regexns::{regex_is_match, starts_as_date};
use crate::text::{
    chars_of, int_text, int_to_text, join2, join3, no_text, same_text, split_lines, sub_text,
    text_of, texts, trim, trimmed,
};
use crate::types::{lemma_ty_view, Ty, TyV};
use vstd::prelude::*;
use vstd::string::*;

verus! {

/// How deep inline containers may nest.
pub const MAX_INLINE_DEPTH: usize = 256;

// ---------------------------------------------------------------------------
// Quotes and brackets
// ---------------------------------------------------------------------------

/// Which kind of string the reader is in, and whether it stands behind a backslash there.
#[derive(Clone, Copy, Debug, PartialEq, Eq, Structural)]
pub enum Within {
    Nothing,
    Basic,
    Escape,
    Literal,
}

/// Where the reader is behind the character `c`. In a basic string a backslash takes the next
/// character with it, so that a quote behind one ends nothing.
pub open spec fn passed(c: char, w: Within) -> Within {
    match w {
        Within::Nothing => if c == '"' {
            Within::Basic
        } else if c == '\'' {
            Within::Literal
        } else {
            Within::Nothing
        },
        Within::Basic => if c == '\\' {
            Within::Escape
        } else if c == '"' {
            Within::Nothing
        } else {
            Within::Basic
        },
        Within::Escape => Within::Basic,
        Within::Literal => if c == '\'' {
            Within::Nothing
        } else {
            Within::Literal
        },
    }
}

pub(crate) fn pass(c: char, w: Within) -> (r: Within)
    ensures
        r == passed(c, w),
{
    match w {
        Within::Nothing => if c == '"' {
            Within::Basic
        } else if c == '\'' {
            Within::Literal
        } else {
            Within::Nothing
        },
        Within::Basic => if c == '\\' {
            Within::Escape
        } else if c == '"' {
            Within::Nothing
        } else {
            Within::Basic
        },
        Within::Escape => Within::Basic,
        Within::Literal => if c == '\'' {
            Within::Nothing
        } else {
            Within::Literal
        },
    }
}

/// Where the comment from `i` on starts, or the end where there is none.
pub open spec fn comment_from(s: Seq<char>, i: int, w: Within) -> int
    decreases s.len() - i,
{
    if !(0 <= i < s.len()) {
        s.len() as int
    } else if s[i] == '#' && w == Within::Nothing {
        i
    } else {
        comment_from(s, i + 1, passed(s[i], w))
    }
}

/// A line without its comment.
pub open spec fn uncommented(s: Seq<char>) -> Seq<char> {
    s.take(comment_from(s, 0, Within::Nothing))
}

fn strip_toml_comment(source: &str) -> (r: String)
    ensures
        r@ == uncommented(source@),
{
    let s = chars_of(source);
    let mut w = Within::Nothing;
    let mut i: usize = 0;
    while i < s.len()
        invariant
            s@ == source@,
            i <= s@.len(),
            comment_from(s@, i as int, w) == comment_from(s@, 0, Within::Nothing),
        decreases s@.len() - i,
    {
        let c = s[i];
        if c == '#' && w == Within::Nothing {
            assert(s@.subrange(0, i as int) =~= s@.take(i as int));
            return sub_text(&s, 0, i);
        }
        w = pass(c, w);
        i = i + 1;
    }
    assert(s@.subrange(0, i as int) =~= s@.take(i as int));
    sub_text(&s, 0, i)
}

/// How many more brackets `s` opens than it closes, from `i` on.
pub open spec fn brackets_from(s: Seq<char>, i: int, w: Within) -> int
    decreases s.len() - i,
{
    if !(0 <= i < s.len()) {
        0
    } else {
        bracket(s[i], w) + brackets_from(s, i + 1, passed(s[i], w))
    }
}

/// What a character counts for among brackets.
pub open spec fn bracket(c: char, w: Within) -> int {
    if w != Within::Nothing {
        0
    } else if c == '[' || c == '{' {
        1
    } else if c == ']' || c == '}' {
        -1
    } else {
        0
    }
}

fn bracket_delta(source: &str) -> (r: i128)
    ensures
        r == brackets_from(source@, 0, Within::Nothing),
        -(usize::MAX as int) <= r <= usize::MAX,
{
    let s = chars_of(source);
    let mut w = Within::Nothing;
    let mut delta: i128 = 0;
    let mut i: usize = 0;
    while i < s.len()
        invariant
            s@ == source@,
            i <= s@.len(),
            -(i as int) <= delta <= i,
            delta + brackets_from(s@, i as int, w) == brackets_from(s@, 0, Within::Nothing),
        decreases s@.len() - i,
    {
        let c = s[i];
        if w == Within::Nothing {
            if c == '[' || c == '{' {
                delta = delta + 1;
            } else if c == ']' || c == '}' {
                delta = delta - 1;
            }
        }
        w = pass(c, w);
        i = i + 1;
    }
    delta
}

// ---------------------------------------------------------------------------
// Logical lines
// ---------------------------------------------------------------------------

pub open spec fn appended(buffer: Seq<char>, part: Seq<char>) -> Seq<char> {
    if buffer.len() > 0 {
        buffer.push(' ') + part
    } else {
        part
    }
}

/// The logical lines of the lines from the `i`-th on: lines are joined as long as brackets are
/// open, and comments and blank lines are left out.
pub open spec fn logical_from(
    lines: Seq<Seq<char>>,
    i: int,
    buffer: Seq<char>,
    depth: int,
    out: Seq<Seq<char>>,
) -> Result<Seq<Seq<char>>, Seq<char>>
    decreases lines.len() - i,
{
    if !(0 <= i < lines.len()) {
        if depth != 0 || trimmed(buffer).len() > 0 {
            Err("TOML: unbalanced brackets"@)
        } else {
            Ok(out)
        }
    } else {
        let bare = uncommented(lines[i]);
        let next = depth + brackets_from(bare, 0, Within::Nothing);
        if trimmed(bare).len() == 0 && depth == 0 {
            logical_from(lines, i + 1, buffer, depth, out)
        } else if next < 0 {
            Err("TOML: unbalanced brackets"@)
        } else if next == 0 {
            logical_from(
                lines,
                i + 1,
                Seq::empty(),
                0,
                out.push(appended(buffer, trimmed(bare))),
            )
        } else {
            logical_from(lines, i + 1, appended(buffer, trimmed(bare)), next, out)
        }
    }
}

fn join_logical_lines(text: &str) -> (r: Result<Vec<String>, String>)
    ensures
        match r {
            Ok(v) => logical_from(
                crate::text::lines_of(text@),
                0,
                Seq::empty(),
                0,
                Seq::empty(),
            ) == Ok::<Seq<Seq<char>>, Seq<char>>(texts(v@)),
            Err(m) => logical_from(
                crate::text::lines_of(text@),
                0,
                Seq::empty(),
                0,
                Seq::empty(),
            ) == Err::<Seq<Seq<char>>, Seq<char>>(m@),
        },
{
    let lines = split_lines(text);
    let ghost ls = texts(lines@);
    let mut out: Vec<String> = Vec::new();
    let mut buffer = String::new();
    let mut depth: u128 = 0;
    let mut i: usize = 0;
    assert(texts(out@) =~= Seq::empty());
    assert(buffer@ =~= Seq::empty());
    while i < lines.len()
        invariant
            ls == texts(lines@),
            ls == crate::text::lines_of(text@),
            i <= lines@.len(),
            depth <= i * usize::MAX,
            logical_from(ls, i as int, buffer@, depth as int, texts(out@)) == logical_from(
                ls,
                0,
                Seq::empty(),
                0,
                Seq::empty(),
            ),
        decreases lines@.len() - i,
    {
        assert(ls[i as int] == lines@[i as int]@);
        let stripped = strip_toml_comment(lines[i].as_str());
        let bare = trim(stripped.as_str());
        let ghost before = buffer@;
        if no_text(bare.as_str()) && depth == 0 {
            assert(depth <= (i + 1) * usize::MAX) by (nonlinear_arith)
                requires
                    depth == 0,
            ;
        } else {
            if !no_text(buffer.as_str()) {
                buffer.push(' ');
            }
            buffer.append(bare.as_str());
            assert(buffer@ =~= appended(before, bare@));
            let delta: i128 = bracket_delta(stripped.as_str());
            assert((i + 1) * usize::MAX == i * usize::MAX + usize::MAX) by (nonlinear_arith);
            assert(i * usize::MAX + usize::MAX <= u128::MAX) by (nonlinear_arith)
                requires
                    i < usize::MAX,
                    usize::MAX <= 0xffff_ffff_ffff_ffff,
            ;
            if delta < 0 {
                let less: u128 = (0 - delta) as u128;
                if depth < less {
                    return Err("TOML: unbalanced brackets".to_owned());
                }
                depth = depth - less;
            } else {
                depth = depth + delta as u128;
            }
            if depth == 0 {
                let ghost seen = texts(out@);
                let ghost whole = buffer@;
                out.push(buffer);
                assert(texts(out@) =~= seen.push(whole));
                buffer = String::new();
                assert(buffer@ =~= Seq::empty());
            }
        }
        i = i + 1;
    }
    let rest = trim(buffer.as_str());
    if depth != 0 || !no_text(rest.as_str()) {
        return Err("TOML: unbalanced brackets".to_owned());
    }
    Ok(out)
}

// ---------------------------------------------------------------------------
// Keys
// ---------------------------------------------------------------------------

/// Where the first `=` outside strings stands, from `i` on.
pub open spec fn equals_from(s: Seq<char>, i: int, w: Within) -> Option<int>
    decreases s.len() - i,
{
    if !(0 <= i < s.len()) {
        None
    } else if s[i] == '=' && w == Within::Nothing {
        Some(i)
    } else {
        equals_from(s, i + 1, passed(s[i], w))
    }
}

fn find_top_level_eq(s: &Vec<char>) -> (r: Option<usize>)
    ensures
        match r {
            Some(i) => equals_from(s@, 0, Within::Nothing) == Some(i as int) && i < s@.len(),
            None => equals_from(s@, 0, Within::Nothing) is None,
        },
{
    let mut w = Within::Nothing;
    let mut i: usize = 0;
    while i < s.len()
        invariant
            i <= s@.len(),
            equals_from(s@, i as int, w) == equals_from(s@, 0, Within::Nothing),
        decreases s@.len() - i,
    {
        if s[i] == '=' && w == Within::Nothing {
            return Some(i);
        }
        w = pass(s[i], w);
        i = i + 1;
    }
    None
}

/// `s` starts and ends with `c`, and has something between or nothing.
pub open spec fn enclosed(s: Seq<char>, open: char, close: char) -> bool {
    s.len() >= 2 && s[0] == open && s.last() == close
}

pub open spec fn inside(s: Seq<char>) -> Seq<char> {
    s.subrange(1, s.len() - 1)
}

fn is_enclosed(s: &Vec<char>, open: char, close: char) -> (r: bool)
    ensures
        r == enclosed(s@, open, close),
{
    s.len() >= 2 && s[0] == open && s[s.len() - 1] == close
}

fn inside_of(s: &Vec<char>) -> (r: String)
    requires
        s@.len() >= 2,
    ensures
        r@ == inside(s@),
{
    sub_text(s, 1, s.len() - 1)
}

/// A key without the quotes around it.
pub open spec fn bare_key(s: Seq<char>) -> Result<Seq<char>, Seq<char>> {
    if enclosed(s, '"', '"') || enclosed(s, '\'', '\'') {
        Ok(inside(s))
    } else if s.len() == 0 {
        Err("TOML: empty key"@)
    } else {
        Ok(s)
    }
}

fn unquote_key(s: &str) -> (r: Result<String, String>)
    ensures
        string_result(r) == bare_key(s@),
{
    let v = chars_of(s);
    if is_enclosed(&v, '"', '"') || is_enclosed(&v, '\'', '\'') {
        Ok(inside_of(&v))
    } else if v.len() == 0 {
        Err("TOML: empty key".to_owned())
    } else {
        Ok(s.to_owned())
    }
}

/// The segments of a dotted key from `i` on.
pub open spec fn segments_from(
    s: Seq<char>,
    i: int,
    w: Within,
    part: Seq<char>,
    out: Seq<Seq<char>>,
) -> Seq<Seq<char>>
    decreases s.len() - i,
{
    if !(0 <= i < s.len()) {
        out.push(trimmed(part))
    } else if s[i] == '.' && w == Within::Nothing {
        segments_from(s, i + 1, w, Seq::empty(), out.push(trimmed(part)))
    } else {
        segments_from(s, i + 1, passed(s[i], w), part.push(s[i]), out)
    }
}

/// Keys without quotes, from the `i`-th on.
pub open spec fn bare_keys_from(parts: Seq<Seq<char>>, i: int, out: Seq<Seq<char>>) -> Result<
    Seq<Seq<char>>,
    Seq<char>,
>
    decreases parts.len() - i,
{
    if !(0 <= i < parts.len()) {
        Ok(out)
    } else {
        match bare_key(parts[i]) {
            Ok(k) => bare_keys_from(parts, i + 1, out.push(k)),
            Err(m) => Err(m),
        }
    }
}

/// The path that a dotted key writes.
pub open spec fn path_of(s: Seq<char>) -> Result<Seq<Seq<char>>, Seq<char>> {
    bare_keys_from(
        segments_from(s, 0, Within::Nothing, Seq::empty(), Seq::empty()),
        0,
        Seq::empty(),
    )
}

pub open spec fn path_result(r: Result<Vec<String>, String>) -> Result<
    Seq<Seq<char>>,
    Seq<char>,
> {
    match r {
        Ok(v) => Ok(texts(v@)),
        Err(m) => Err(m@),
    }
}

proof fn lemma_some_segment(
    s: Seq<char>,
    i: int,
    w: Within,
    part: Seq<char>,
    out: Seq<Seq<char>>,
)
    ensures
        segments_from(s, i, w, part, out).len() > out.len(),
    decreases s.len() - i,
{
    if 0 <= i < s.len() {
        if s[i] == '.' && w == Within::Nothing {
            lemma_some_segment(s, i + 1, w, Seq::empty(), out.push(trimmed(part)));
        } else {
            lemma_some_segment(s, i + 1, passed(s[i], w), part.push(s[i]), out);
        }
    }
}

/// The segments of a dotted key; there is at least one.
fn split_dotted_key(s: &str) -> (r: Result<Vec<String>, String>)
    ensures
        path_result(r) == path_of(s@),
        r matches Ok(v) ==> v@.len() > 0,
{
    let v = chars_of(s);
    let mut parts: Vec<String> = Vec::new();
    let mut part = String::new();
    let mut w = Within::Nothing;
    let mut i: usize = 0;
    let ghost all = segments_from(s@, 0, Within::Nothing, Seq::empty(), Seq::empty());
    assert(texts(parts@) =~= Seq::empty());
    assert(part@ =~= Seq::empty());
    while i < v.len()
        invariant
            v@ == s@,
            i <= v@.len(),
            segments_from(v@, i as int, w, part@, texts(parts@)) == all,
        decreases v@.len() - i,
    {
        let c = v[i];
        if c == '.' && w == Within::Nothing {
            let ghost seen = texts(parts@);
            let piece = trim(part.as_str());
            parts.push(piece);
            assert(texts(parts@) =~= seen.push(trimmed(part@)));
            part = String::new();
            assert(part@ =~= Seq::empty());
        } else {
            w = pass(c, w);
            part.push(c);
        }
        i = i + 1;
    }
    let ghost seen = texts(parts@);
    let last = trim(part.as_str());
    parts.push(last);
    assert(texts(parts@) =~= seen.push(trimmed(part@)));
    proof {
        lemma_some_segment(s@, 0, Within::Nothing, Seq::empty(), Seq::empty());
    }
    let mut out: Vec<String> = Vec::new();
    let mut j: usize = 0;
    assert(texts(out@) =~= Seq::empty());
    while j < parts.len()
        invariant
            texts(parts@) == all,
            all == segments_from(s@, 0, Within::Nothing, Seq::empty(), Seq::empty()),
            j <= parts@.len(),
            out@.len() == j,
            bare_keys_from(all, j as int, texts(out@)) == bare_keys_from(all, 0, Seq::empty()),
        decreases parts@.len() - j,
    {
        let ghost keys = texts(out@);
        assert(all[j as int] == parts@[j as int]@);
        match unquote_key(parts[j].as_str()) {
            Ok(k) => {
                out.push(k);
                assert(texts(out@) =~= keys.push(k@));
            },
            Err(m) => {
                return Err(m);
            },
        }
        j = j + 1;
    }
    Ok(out)
}

// ---------------------------------------------------------------------------
// Values
// ---------------------------------------------------------------------------

/// The parts of a list from `i` on, parted by commas outside strings and brackets.
pub open spec fn parts_from(
    s: Seq<char>,
    i: int,
    w: Within,
    depth: int,
    part: Seq<char>,
    out: Seq<Seq<char>>,
) -> Seq<Seq<char>>
    decreases s.len() - i,
{
    if !(0 <= i < s.len()) {
        if trimmed(part).len() > 0 {
            out.push(part)
        } else {
            out
        }
    } else if s[i] == ',' && w == Within::Nothing && depth == 0 {
        parts_from(s, i + 1, w, depth, Seq::empty(), out.push(part))
    } else {
        parts_from(
            s,
            i + 1,
            passed(s[i], w),
            depth + bracket(s[i], w),
            part.push(s[i]),
            out,
        )
    }
}

pub open spec fn parts_of(s: Seq<char>) -> Seq<Seq<char>> {
    parts_from(s, 0, Within::Nothing, 0, Seq::empty(), Seq::empty())
}

fn split_top_level_commas(s: &str) -> (r: Vec<String>)
    ensures
        texts(r@) == parts_of(s@),
{
    let v = chars_of(s);
    let mut parts: Vec<String> = Vec::new();
    let mut part = String::new();
    let mut w = Within::Nothing;
    let mut depth: i128 = 0;
    let mut i: usize = 0;
    assert(texts(parts@) =~= Seq::empty());
    assert(part@ =~= Seq::empty());
    while i < v.len()
        invariant
            v@ == s@,
            i <= v@.len(),
            -(i as int) <= depth <= i,
            parts_from(v@, i as int, w, depth as int, part@, texts(parts@)) == parts_of(s@),
        decreases v@.len() - i,
    {
        let c = v[i];
        if c == ',' && w == Within::Nothing && depth == 0 {
            let ghost seen = texts(parts@);
            let ghost piece = part@;
            parts.push(part);
            assert(texts(parts@) =~= seen.push(piece));
            part = String::new();
            assert(part@ =~= Seq::empty());
        } else {
            if w == Within::Nothing {
                if c == '[' || c == '{' {
                    depth = depth + 1;
                } else if c == ']' || c == '}' {
                    depth = depth - 1;
                }
            }
            w = pass(c, w);
            part.push(c);
        }
        i = i + 1;
    }
    let rest = trim(part.as_str());
    if !no_text(rest.as_str()) {
        let ghost seen = texts(parts@);
        let ghost piece = part@;
        parts.push(part);
        assert(texts(parts@) =~= seen.push(piece));
    }
    parts
}

/// An underscore at `i` stands between digits.
pub open spec fn between_digits(s: Seq<char>, i: int) -> bool {
    0 < i < s.len() - 1 && is_digit(s[i - 1]) && is_digit(s[i + 1])
}

/// Every underscore stands between digits.
pub open spec fn separators_fit(s: Seq<char>) -> bool {
    forall|i: int| 0 <= i < s.len() && #[trigger] s[i] == '_' ==> between_digits(s, i)
}

/// A number without its underscores, from the `i`-th character on.
pub open spec fn cleaned_from(s: Seq<char>, i: int) -> Seq<char>
    decreases s.len() - i,
{
    if !(0 <= i < s.len()) {
        Seq::empty()
    } else if s[i] == '_' {
        cleaned_from(s, i + 1)
    } else {
        seq![s[i]] + cleaned_from(s, i + 1)
    }
}

/// Where the first of the marks of a float stands, from `i` on.
pub open spec fn mark_from(s: Seq<char>, i: int) -> int
    decreases s.len() - i,
{
    if !(0 <= i < s.len()) || s[i] == '.' || s[i] == 'e' || s[i] == 'E' {
        i
    } else {
        mark_from(s, i + 1)
    }
}

/// Where the first point stands, from `i` on.
pub open spec fn point_from(s: Seq<char>, i: int) -> int
    decreases s.len() - i,
{
    if !(0 <= i < s.len()) || s[i] == '.' {
        i
    } else {
        point_from(s, i + 1)
    }
}

pub open spec fn sign_len(s: Seq<char>) -> int {
    if s.len() > 0 && (s[0] == '+' || s[0] == '-') {
        1
    } else {
        0
    }
}

/// The whole part has more than one digit and starts with zero.
pub open spec fn leading_zero(s: Seq<char>) -> bool {
    mark_from(s, sign_len(s)) - sign_len(s) > 1 && s[sign_len(s)] == '0'
}

/// What follows the first point starts with a digit, if there is a point.
pub open spec fn fraction_fits(s: Seq<char>) -> bool {
    let p = point_from(s, 0);
    p >= s.len() || (p + 1 < s.len() && is_digit(s[p + 1]))
}

/// The number that a text writes.
pub open spec fn number_of(read: Reading, source: Seq<char>) -> Result<ValueV, Seq<char>> {
    let s = cleaned_from(source, 0);
    if !separators_fit(source) {
        Err("TOML: invalid numeric separator: "@ + source)
    } else if leading_zero(s) {
        Err("TOML: leading zero in number: "@ + source)
    } else if mark_from(s, 0) < s.len() {
        if !fraction_fits(s) {
            Err("TOML: invalid float literal: "@ + source)
        } else {
            match read(s) {
                Some(x) => Ok(dfloat_v(x)),
                None => Err("TOML: invalid number literal: "@ + source),
            }
        }
    } else {
        match int_of(s) {
            Some(n) => Ok(dint_v(n)),
            None => Err("TOML: invalid value: "@ + source),
        }
    }
}

fn separators_ok(s: &Vec<char>) -> (r: bool)
    ensures
        r == separators_fit(s@),
{
    let len: usize = s.len();
    let mut i: usize = 0;
    while i < len
        invariant
            len == s@.len(),
            i <= len,
            forall|j: int| 0 <= j < i && #[trigger] s@[j] == '_' ==> between_digits(s@, j),
        decreases len - i,
    {
        if s[i] == '_' {
            if i == 0 || i + 1 == len || !is_digit_char(s[i - 1]) || !is_digit_char(s[i + 1]) {
                assert(s@[i as int] == '_' && !between_digits(s@, i as int));
                return false;
            }
        }
        i = i + 1;
    }
    true
}

fn clean(s: &Vec<char>) -> (r: Vec<char>)
    ensures
        r@ == cleaned_from(s@, 0),
{
    let mut out: Vec<char> = Vec::new();
    let mut i: usize = 0;
    assert(out@ + cleaned_from(s@, 0) =~= cleaned_from(s@, 0));
    while i < s.len()
        invariant
            i <= s@.len(),
            out@ + cleaned_from(s@, i as int) == cleaned_from(s@, 0),
        decreases s@.len() - i,
    {
        let ghost before = out@;
        if s[i] != '_' {
            out.push(s[i]);
            assert(out@ + cleaned_from(s@, i + 1) =~= before + cleaned_from(s@, i as int));
        }
        i = i + 1;
    }
    assert(out@ + cleaned_from(s@, i as int) =~= out@);
    out
}

fn find_mark(s: &Vec<char>, start: usize) -> (r: usize)
    requires
        start <= s@.len(),
    ensures
        r == mark_from(s@, start as int),
        start <= r <= s@.len(),
{
    let mut i: usize = start;
    while i < s.len() && s[i] != '.' && s[i] != 'e' && s[i] != 'E'
        invariant
            start <= i <= s@.len(),
            mark_from(s@, i as int) == mark_from(s@, start as int),
        decreases s@.len() - i,
    {
        i = i + 1;
    }
    i
}

fn find_point(s: &Vec<char>) -> (r: usize)
    ensures
        r == point_from(s@, 0),
        r <= s@.len(),
{
    let mut i: usize = 0;
    while i < s.len() && s[i] != '.'
        invariant
            i <= s@.len(),
            point_from(s@, i as int) == point_from(s@, 0),
        decreases s@.len() - i,
    {
        i = i + 1;
    }
    i
}

fn parse_number<F: Fn(String) -> Option<String>>(read: &F, source: &str) -> (r: Result<
    Value,
    String,
>)
    requires
        steady(*read),
    ensures
        parsed(r) == number_of(reading(*read), source@),
{
    let v = chars_of(source);
    if !separators_ok(&v) {
        return Err(join2("TOML: invalid numeric separator: ", source));
    }
    let s = clean(&v);
    let len: usize = s.len();
    let sign: usize = if len > 0 && (s[0] == '+' || s[0] == '-') {
        1
    } else {
        0
    };
    if find_mark(&s, sign) - sign > 1 && s[sign] == '0' {
        return Err(join2("TOML: leading zero in number: ", source));
    }
    if find_mark(&s, 0) < len {
        let p: usize = find_point(&s);
        if p < len && !(p + 1 < len && is_digit_char(s[p + 1])) {
            return Err(join2("TOML: invalid float literal: ", source));
        }
        match read_float(read, text_of(&s)) {
            Some(x) => Ok(dyn_float(x)),
            None => Err(join2("TOML: invalid number literal: ", source)),
        }
    } else {
        match int_of_chars(&s) {
            Some(n) => Ok(dyn_int(n)),
            None => Err(join2("TOML: invalid value: ", source)),
        }
    }
}

fn looks_like_datetime(s: &str) -> (r: bool)
    ensures
        r == starts_as_date(s@),
{
    match regex_is_match("^\\d{4}-", s) {
        Ok(b) => b,
        Err(_) => false,
    }
}

/// What a text that is no string, boolean or container stands for, by whether it starts as a
/// date does.
pub open spec fn plain_of(read: Reading, s: Seq<char>, date: bool) -> Result<ValueV, Seq<char>> {
    if date {
        Err("TOML: datetime literals are not supported: "@ + s)
    } else {
        number_of(read, s)
    }
}

/// Reads a text that is no string, boolean or container. `date` tells whether it starts as a
/// date does.
pub fn parse_plain<F: Fn(String) -> Option<String>>(read: &F, source: &str, date: bool) -> (r:
    Result<Value, String>)
    requires
        steady(*read),
    ensures
        parsed(r) == plain_of(reading(*read), source@, date),
{
    if date {
        return Err(join2("TOML: datetime literals are not supported: ", source));
    }
    parse_number(read, source)
}

/// The value that a text writes, inside `depth` containers.
pub open spec fn value_of(read: Reading, text: Seq<char>, depth: int) -> Result<ValueV, Seq<char>>
    decreases 257 - depth, 1int, 0int,
{
    let s = trimmed(text);
    if depth > 256 {
        Err("TOML: inline container nesting exceeds 256"@)
    } else if s.len() == 0 {
        Err("TOML: value is empty"@)
    } else if enclosed(s, '"', '"') {
        if s.len() >= 3 && s[1] == '"' && s[2] == '"' {
            Err("TOML: multi-line strings are not supported"@)
        } else {
            match unescaped("TOML"@, inside(s)) {
                Ok(t) => Ok(dstr_v(t)),
                Err(m) => Err(m),
            }
        }
    } else if enclosed(s, '\'', '\'') {
        if s.len() >= 3 && s[1] == '\'' && s[2] == '\'' {
            Err("TOML: multi-line strings are not supported"@)
        } else {
            Ok(dstr_v(inside(s)))
        }
    } else if s == "true"@ {
        Ok(dbool_v(true))
    } else if s == "false"@ {
        Ok(dbool_v(false))
    } else if enclosed(s, '[', ']') {
        items_of_parts(read, parts_of(inside(s)), 0, depth, Seq::empty())
    } else if enclosed(s, '{', '}') {
        entries_of_parts(read, parts_of(inside(s)), 0, depth, Seq::empty())
    } else {
        plain_of(read, s, starts_as_date(s))
    }
}

/// The items of an inline array from the `i`-th part on; `depth` is that of the array.
pub open spec fn items_of_parts(
    read: Reading,
    parts: Seq<Seq<char>>,
    i: int,
    depth: int,
    items: Seq<ValueV>,
) -> Result<ValueV, Seq<char>>
    decreases 257 - depth, 0int, parts.len() - i,
    when depth <= 256
{
    if !(0 <= i < parts.len()) {
        Ok(dlist_v(items))
    } else if trimmed(parts[i]).len() == 0 {
        items_of_parts(read, parts, i + 1, depth, items)
    } else {
        match value_of(read, trimmed(parts[i]), depth + 1) {
            Ok(v) => items_of_parts(read, parts, i + 1, depth, items.push(v)),
            Err(m) => Err(m),
        }
    }
}

/// The entries of an inline table from the `i`-th part on; `depth` is that of the table.
pub open spec fn entries_of_parts(
    read: Reading,
    parts: Seq<Seq<char>>,
    i: int,
    depth: int,
    entries: Seq<(KeyV, ValueV)>,
) -> Result<ValueV, Seq<char>>
    decreases 257 - depth, 0int, parts.len() - i,
    when depth <= 256
{
    let part = trimmed(parts[i]);
    if !(0 <= i < parts.len()) {
        Ok(ddict_v(entries))
    } else if part.len() == 0 {
        entries_of_parts(read, parts, i + 1, depth, entries)
    } else {
        match equals_from(part, 0, Within::Nothing) {
            None => Err("TOML: inline table entry is missing '=': "@ + part),
            Some(eq) => match bare_key(trimmed(part.take(eq))) {
                Err(m) => Err(m),
                Ok(key) => match value_of(read, trimmed(part.skip(eq + 1)), depth + 1) {
                    Err(m) => Err(m),
                    Ok(v) => if has_key(entries, KeyV::Str(key)) {
                        Err("TOML: duplicate key in inline table"@)
                    } else {
                        entries_of_parts(
                            read,
                            parts,
                            i + 1,
                            depth,
                            inserted(entries, KeyV::Str(key), v),
                        )
                    },
                },
            },
        }
    }
}

pub(crate) fn rest_text(v: &Vec<char>, from: usize) -> (r: String)
    requires
        from <= v@.len(),
    ensures
        r@ == v@.skip(from as int),
{
    let n: usize = v.len();
    assert(v@.subrange(from as int, n as int) =~= v@.skip(from as int));
    sub_text(v, from, n)
}

pub(crate) fn head_text(v: &Vec<char>, to: usize) -> (r: String)
    requires
        to <= v@.len(),
    ensures
        r@ == v@.take(to as int),
{
    assert(v@.subrange(0, to as int) =~= v@.take(to as int));
    sub_text(v, 0, to)
}

fn parse_value_at<F: Fn(String) -> Option<String>>(read: &F, text: &str, depth: usize) -> (r: Result<
    Value,
    String,
>)
    requires
        steady(*read),
        depth <= 257,
    ensures
        parsed(r) == value_of(reading(*read), text@, depth as int),
    decreases 257 - depth, 1int,
{
    if depth > MAX_INLINE_DEPTH {
        return Err("TOML: inline container nesting exceeds 256".to_owned());
    }
    let source = trim(text);
    let s = chars_of(source.as_str());
    if s.len() == 0 {
        return Err("TOML: value is empty".to_owned());
    }
    if is_enclosed(&s, '"', '"') {
        if s.len() >= 3 && s[1] == '"' && s[2] == '"' {
            return Err("TOML: multi-line strings are not supported".to_owned());
        }
        let inner = inside_of(&s);
        let body = chars_of(inner.as_str());
        return match parse_escaped_string_body("TOML", &body) {
            Ok(t) => Ok(dyn_str(t)),
            Err(m) => Err(m),
        };
    }
    if is_enclosed(&s, '\'', '\'') {
        if s.len() >= 3 && s[1] == '\'' && s[2] == '\'' {
            return Err("TOML: multi-line strings are not supported".to_owned());
        }
        return Ok(dyn_str(inside_of(&s)));
    }
    if same_text(source.as_str(), "true") {
        return Ok(dyn_bool(true));
    }
    if same_text(source.as_str(), "false") {
        return Ok(dyn_bool(false));
    }
    if is_enclosed(&s, '[', ']') {
        let inner = inside_of(&s);
        return parse_inline_array(read, inner.as_str(), depth);
    }
    if is_enclosed(&s, '{', '}') {
        let inner = inside_of(&s);
        return parse_inline_table(read, inner.as_str(), depth);
    }
    let date = looks_like_datetime(source.as_str());
    parse_plain(read, source.as_str(), date)
}

fn parse_inline_array<F: Fn(String) -> Option<String>>(read: &F, inner: &str, depth: usize) -> (r:
    Result<Value, String>)
    requires
        steady(*read),
        depth <= 256,
    ensures
        parsed(r) == items_of_parts(
            reading(*read),
            parts_of(inner@),
            0,
            depth as int,
            Seq::empty(),
        ),
    decreases 257 - depth, 0int,
{
    let parts = split_top_level_commas(inner);
    let ghost ps = parts_of(inner@);
    let mut items: Vec<Value> = Vec::new();
    let mut i: usize = 0;
    assert(values_view(items@) =~= Seq::empty());
    while i < parts.len()
        invariant
            steady(*read),
            depth <= 256,
            ps == texts(parts@),
            ps == parts_of(inner@),
            i <= parts@.len(),
            items_of_parts(reading(*read), ps, i as int, depth as int, values_view(items@))
                == items_of_parts(reading(*read), ps, 0, depth as int, Seq::empty()),
        decreases parts@.len() - i,
    {
        assert(ps[i as int] == parts@[i as int]@);
        let part = trim(parts[i].as_str());
        if !no_text(part.as_str()) {
            match parse_value_at(read, part.as_str(), depth + 1) {
                Ok(v) => {
                    let ghost seen = values_view(items@);
                    items.push(v);
                    assert(values_view(items@) =~= seen.push(v@));
                },
                Err(m) => {
                    return Err(m);
                },
            }
        }
        i = i + 1;
    }
    Ok(dyn_list(items))
}

fn parse_inline_table<F: Fn(String) -> Option<String>>(read: &F, inner: &str, depth: usize) -> (r:
    Result<Value, String>)
    requires
        steady(*read),
        depth <= 256,
    ensures
        parsed(r) == entries_of_parts(
            reading(*read),
            parts_of(inner@),
            0,
            depth as int,
            Seq::empty(),
        ),
    decreases 257 - depth, 0int,
{
    let parts = split_top_level_commas(inner);
    let ghost ps = parts_of(inner@);
    let mut map = Dict::new();
    let mut i: usize = 0;
    while i < parts.len()
        invariant
            steady(*read),
            depth <= 256,
            ps == texts(parts@),
            ps == parts_of(inner@),
            i <= parts@.len(),
            entries_of_parts(reading(*read), ps, i as int, depth as int, map@)
                == entries_of_parts(reading(*read), ps, 0, depth as int, Seq::empty()),
        decreases parts@.len() - i,
    {
        assert(ps[i as int] == parts@[i as int]@);
        let part = trim(parts[i].as_str());
        if !no_text(part.as_str()) {
            let p = chars_of(part.as_str());
            let eq: usize = match find_top_level_eq(&p) {
                Some(eq) => eq,
                None => {
                    return Err(
                        join2("TOML: inline table entry is missing '=': ", part.as_str()),
                    );
                },
            };
            let head = head_text(&p, eq);
            let name = trim(head.as_str());
            let key = match unquote_key(name.as_str()) {
                Ok(k) => str_key(k),
                Err(m) => {
                    return Err(m);
                },
            };
            let tail = rest_text(&p, eq + 1);
            let text = trim(tail.as_str());
            let v = match parse_value_at(read, text.as_str(), depth + 1) {
                Ok(v) => v,
                Err(m) => {
                    return Err(m);
                },
            };
            match map.index_of(&key) {
                Some(_) => {
                    return Err("TOML: duplicate key in inline table".to_owned());
                },
                None => {},
            }
            let _old = map.insert(key, v);
        }
        i = i + 1;
    }
    Ok(dyn_dict(map))
}

// ---------------------------------------------------------------------------
// Tables
// ---------------------------------------------------------------------------
//
// While a document is read, a table is a dictionary, an array of tables a list of
// dictionaries, and anything else a value that was set.

/// What is put into a table.
pub enum Goal {
    Table,
    Element,
    Leaf(Value),
}

pub ghost enum GoalV {
    Table,
    Element,
    Leaf(ValueV),
}

impl Goal {
    pub open spec fn view(&self) -> GoalV {
        match *self {
            Goal::Table => GoalV::Table,
            Goal::Element => GoalV::Element,
            Goal::Leaf(v) => GoalV::Leaf(v@),
        }
    }
}

/// A table with something put under `name`: a table where there is nothing yet, another element
/// of an array of tables, or a value where there is nothing yet.
pub open spec fn placed(table: Seq<(KeyV, ValueV)>, name: Seq<char>, goal: GoalV) -> Result<
    Seq<(KeyV, ValueV)>,
    Seq<char>,
> {
    let key = KeyV::Str(name);
    let empty = ValueV::Dict(Seq::empty());
    match (goal, looked_up(table, key)) {
        (GoalV::Table, Some(_)) => Ok(table),
        (GoalV::Table, None) => Ok(inserted(table, key, empty)),
        (GoalV::Element, None) => Ok(inserted(table, key, ValueV::List(seq![empty]))),
        (GoalV::Element, Some(ValueV::List(items))) => Ok(
            inserted(table, key, ValueV::List(items.push(empty))),
        ),
        (GoalV::Element, Some(_)) => Err("TOML: '"@ + name + "' is already defined as a table"@),
        (GoalV::Leaf(_), Some(_)) => Err("TOML: duplicate key '"@ + name + "'"@),
        (GoalV::Leaf(v), None) => Ok(inserted(table, key, v)),
    }
}

/// A table with something put at the path from its `i`-th segment on. Tables on the way are
/// made where they lack, and an array of tables is entered at its last element.
pub open spec fn put(table: Seq<(KeyV, ValueV)>, path: Seq<Seq<char>>, i: int, goal: GoalV) -> Result<
    Seq<(KeyV, ValueV)>,
    Seq<char>,
>
    decreases path.len() - i,
{
    if i + 1 >= path.len() {
        placed(table, path[i], goal)
    } else {
        let key = KeyV::Str(path[i]);
        match looked_up(table, key) {
            None => match put(Seq::empty(), path, i + 1, goal) {
                Ok(t) => Ok(inserted(table, key, ValueV::Dict(t))),
                Err(m) => Err(m),
            },
            Some(ValueV::Dict(inner)) => match put(inner, path, i + 1, goal) {
                Ok(t) => Ok(inserted(table, key, ValueV::Dict(t))),
                Err(m) => Err(m),
            },
            Some(ValueV::List(items)) => if items.len() > 0 && items.last() is Dict {
                match put(items.last()->Dict_0, path, i + 1, goal) {
                    Ok(t) => Ok(
                        inserted(
                            table,
                            key,
                            ValueV::List(items.drop_last().push(ValueV::Dict(t))),
                        ),
                    ),
                    Err(m) => Err(m),
                }
            } else {
                Err("TOML: array of tables is empty: "@ + path[i])
            },
            Some(_) => Err("TOML: '"@ + path[i] + "' is already defined as a value"@),
        }
    }
}

pub open spec fn table_result(r: Result<(), String>, table: Seq<(KeyV, ValueV)>) -> Result<
    Seq<(KeyV, ValueV)>,
    Seq<char>,
> {
    match r {
        Ok(_) => Ok(table),
        Err(m) => Err(m@),
    }
}

fn place(table: &mut Dict, name: &String, goal: Goal) -> (r: Result<(), String>)
    ensures
        table_result(r, final(table)@) == placed(old(table)@, name@, goal@),
{
    let key = str_key(name.clone());
    let ghost k = KeyV::Str(name@);
    let ghost before = table@;
    match (goal, table.index_of(&key)) {
        (Goal::Table, Some(_)) => Ok(()),
        (Goal::Table, None) => {
            let _old = table.insert(key, dict_value(Dict::new()));
            Ok(())
        },
        (Goal::Element, None) => {
            let empty = dict_value(Dict::new());
            let items = vec![empty];
            assert(values_view(items@) =~= seq![empty@]);
            let _old = table.insert(key, list_value(items));
            Ok(())
        },
        (Goal::Element, Some(at)) => {
            let node = table.replace_at(at, void_value());
            proof {
                lemma_value_view(node);
            }
            match node {
                Value::List(items) => {
                    let mut more = items;
                    let ghost seen = values_view(more@);
                    let empty = dict_value(Dict::new());
                    let ghost e = empty@;
                    more.push(empty);
                    assert(values_view(more@) =~= seen.push(e));
                    let list = list_value(more);
                    let ghost l = list@;
                    let _old = table.replace_at(at, list);
                    assert(table@ =~= before.update(at as int, (k, l)));
                    Ok(())
                },
                _ => Err(join3("TOML: '", name.as_str(), "' is already defined as a table")),
            }
        },
        (Goal::Leaf(_), Some(_)) => Err(join3("TOML: duplicate key '", name.as_str(), "'")),
        (Goal::Leaf(v), None) => {
            let _old = table.insert(key, v);
            Ok(())
        },
    }
}

fn put_at(table: &mut Dict, path: &Vec<String>, i: usize, goal: Goal) -> (r: Result<(), String>)
    requires
        i < path@.len(),
    ensures
        table_result(r, final(table)@) == put(old(table)@, texts(path@), i as int, goal@),
    decreases path@.len() - i,
{
    let ghost names = texts(path@);
    let ghost before = table@;
    let len: usize = path.len();
    if i + 1 >= len {
        return place(table, &path[i], goal);
    }
    let key = str_key(path[i].clone());
    let ghost k = KeyV::Str(names[i as int]);
    let at: usize = match table.index_of(&key) {
        Some(at) => at,
        None => {
            let mut inner = Dict::new();
            return match put_at(&mut inner, path, i + 1, goal) {
                Ok(_) => {
                    let _old = table.insert(key, dict_value(inner));
                    Ok(())
                },
                Err(m) => Err(m),
            };
        },
    };
    let node = table.replace_at(at, void_value());
    proof {
        lemma_value_view(node);
    }
    match node {
        Value::Dict(d) => {
            let mut inner = d;
            match put_at(&mut inner, path, i + 1, goal) {
                Ok(_) => {
                    let v = dict_value(inner);
                    let ghost vv = v@;
                    let _old = table.replace_at(at, v);
                    assert(table@ =~= before.update(at as int, (k, vv)));
                    Ok(())
                },
                Err(m) => Err(m),
            }
        },
        Value::List(items) => {
            let mut rest = items;
            let ghost all = values_view(rest@);
            let last = rest.pop();
            match last {
                Some(tail) => {
                    proof {
                        lemma_value_view(tail);
                        assert(values_view(rest@) =~= all.drop_last());
                        assert(all.last() == tail@);
                    }
                    match tail {
                        Value::Dict(d) => {
                            let mut inner = d;
                            match put_at(&mut inner, path, i + 1, goal) {
                                Ok(_) => {
                                    let v = dict_value(inner);
                                    let ghost vv = v@;
                                    rest.push(v);
                                    assert(values_view(rest@) =~= all.drop_last().push(vv));
                                    let list = list_value(rest);
                                    let ghost l = list@;
                                    let _old = table.replace_at(at, list);
                                    assert(table@ =~= before.update(at as int, (k, l)));
                                    Ok(())
                                },
                                Err(m) => Err(m),
                            }
                        },
                        _ => Err(join2("TOML: array of tables is empty: ", path[i].as_str())),
                    }
                },
                None => Err(join2("TOML: array of tables is empty: ", path[i].as_str())),
            }
        },
        _ => Err(join3("TOML: '", path[i].as_str(), "' is already defined as a value")),
    }
}

/// What was read, as a dynamic value.
pub open spec fn finished(v: ValueV) -> ValueV
    decreases v,
{
    match v {
        ValueV::Dict(entries) => ddict_v(
            Seq::new(
                entries.len(),
                |i: int|
                    if 0 <= i < entries.len() {
                        (entries[i].0, finished(entries[i].1))
                    } else {
                        arbitrary()
                    },
            ),
        ),
        ValueV::List(items) => dlist_v(
            Seq::new(
                items.len(),
                |i: int|
                    if 0 <= i < items.len() {
                        finished(items[i])
                    } else {
                        arbitrary()
                    },
            ),
        ),
        _ => v,
    }
}

pub open spec fn finished_entries(entries: Seq<(KeyV, ValueV)>) -> Seq<(KeyV, ValueV)> {
    Seq::new(entries.len(), |i: int| (entries[i].0, finished(entries[i].1)))
}

pub open spec fn finished_items(items: Seq<ValueV>) -> Seq<ValueV> {
    Seq::new(items.len(), |i: int| finished(items[i]))
}

proof fn lemma_finished(v: ValueV)
    ensures
        finished(v) == match v {
            ValueV::Dict(entries) => ddict_v(finished_entries(entries)),
            ValueV::List(items) => dlist_v(finished_items(items)),
            _ => v,
        },
{
    match v {
        ValueV::Dict(entries) => {
            assert(finished(v)->Enum_fields[0]->Dict_0 =~= finished_entries(entries));
        },
        ValueV::List(items) => {
            assert(finished(v)->Enum_fields[0]->List_0 =~= finished_items(items));
        },
        _ => {},
    }
}

fn finish(v: &Value) -> (r: Value)
    ensures
        r@ == finished(v@),
    decreases v, 1int,
{
    proof {
        lemma_value_view(*v);
        lemma_finished(v@);
    }
    match v {
        Value::Dict(d) => {
            return finalize(d);
        },
        Value::List(items) => {
            let ghost vs = values_view(items@);
            let mut out: Vec<Value> = Vec::new();
            let mut i: usize = 0;
            while i < items.len()
                invariant
                    v matches Value::List(w) && w == items,
                    vs == values_view(items@),
                    i <= items@.len(),
                    out@.len() == i,
                    forall|j: int| 0 <= j < i ==> (#[trigger] out@[j])@ == finished(vs[j]),
                decreases items@.len() - i,
            {
                proof {
                    assert(decreases_to!(*v => *items));
                    assert(decreases_to!(*items => items@));
                    assert(decreases_to!(items@ => items@[i as int]));
                }
                let x = finish(&items[i]);
                out.push(x);
                i = i + 1;
            }
            assert(values_view(out@) =~= finished_items(vs));
            return dyn_list(out);
        },
        _ => {
            return v.copy();
        },
    }
}

/// A table that was read, as a dynamic value.
fn finalize(d: &Dict) -> (r: Value)
    ensures
        r@ == ddict_v(finished_entries(d@)),
    decreases d, 0int,
{
    let ghost entries = d@;
    let n: usize = d.len();
    let mut out = Dict::new();
    let mut i: usize = 0;
    assert(finished_entries(entries).take(0) =~= Seq::empty());
    while i < n
        invariant
            entries == d@,
            n == entries.len(),
            crate::eval::value::distinct_keys(entries),
            i <= n,
            out@ == finished_entries(entries).take(i as int),
        decreases n - i,
    {
        let k = d.key_at(i);
        let v = finish(d.value_at(i));
        let ghost done = out@;
        proof {
            if has_key(done, k@) {
                let j = choose|j: int| 0 <= j < done.len() && (#[trigger] done[j]).0 == k@;
                assert(entries[j].0 == entries[i as int].0);
            }
            assert(done.push((k@, v@)) =~= finished_entries(entries).take(i + 1));
        }
        let _old = out.insert(k, v);
        i = i + 1;
    }
    assert(finished_entries(entries).take(n as int) =~= finished_entries(entries));
    dyn_dict(out)
}

// ---------------------------------------------------------------------------
// Documents
// ---------------------------------------------------------------------------

pub open spec fn is_element_header(s: Seq<char>) -> bool {
    s.len() >= 2 && s[0] == '[' && s[1] == '['
}

pub open spec fn element_header_closed(s: Seq<char>) -> bool {
    s.len() >= 4 && s[s.len() - 1] == ']' && s[s.len() - 2] == ']'
}

/// The state of reading a document: the root table, and the table that keys go to.
pub ghost struct DocV {
    pub root: Seq<(KeyV, ValueV)>,
    pub current: Seq<Seq<char>>,
}

/// The state behind a logical line.
pub open spec fn line_read(read: Reading, doc: DocV, text: Seq<char>) -> Result<DocV, Seq<char>> {
    let s = trimmed(text);
    if s.len() == 0 {
        Ok(doc)
    } else if is_element_header(s) {
        if !element_header_closed(s) {
            Err("TOML: invalid array-of-tables header: "@ + s)
        } else {
            header_read(doc, path_of(trimmed(s.subrange(2, s.len() - 2))), GoalV::Element)
        }
    } else if s[0] == '[' {
        if !enclosed(s, '[', ']') {
            Err("TOML: invalid table header: "@ + s)
        } else {
            header_read(doc, path_of(trimmed(inside(s))), GoalV::Table)
        }
    } else {
        match equals_from(s, 0, Within::Nothing) {
            None => Err("TOML: no '=' found: "@ + s),
            Some(eq) => match path_of(trimmed(s.take(eq))) {
                Err(m) => Err(m),
                Ok(path) => match value_of(read, trimmed(s.skip(eq + 1)), 0) {
                    Err(m) => Err(m),
                    Ok(v) => match put(doc.root, doc.current + path, 0, GoalV::Leaf(v)) {
                        Err(m) => Err(m),
                        Ok(root) => Ok(DocV { root, current: doc.current }),
                    },
                },
            },
        }
    }
}

/// The state behind the header of a table.
pub open spec fn header_read(
    doc: DocV,
    path: Result<Seq<Seq<char>>, Seq<char>>,
    goal: GoalV,
) -> Result<DocV, Seq<char>> {
    match path {
        Err(m) => Err(m),
        Ok(p) => match put(doc.root, p, 0, goal) {
            Err(m) => Err(m),
            Ok(root) => Ok(DocV { root, current: p }),
        },
    }
}

/// The document that the logical lines from the `i`-th on complete.
pub open spec fn document_from(read: Reading, lines: Seq<Seq<char>>, i: int, doc: DocV) -> Result<
    ValueV,
    Seq<char>,
>
    decreases lines.len() - i,
{
    if !(0 <= i < lines.len()) {
        Ok(ddict_v(finished_entries(doc.root)))
    } else {
        match line_read(read, doc, lines[i]) {
            Ok(next) => document_from(read, lines, i + 1, next),
            Err(m) => Err(m),
        }
    }
}

/// What a TOML text stands for.
pub open spec fn toml_of(read: Reading, s: Seq<char>) -> Result<ValueV, Seq<char>> {
    match logical_from(crate::text::lines_of(s), 0, Seq::empty(), 0, Seq::empty()) {
        Err(m) => Err(m),
        Ok(lines) => document_from(
            read,
            lines,
            0,
            DocV { root: Seq::empty(), current: Seq::empty() },
        ),
    }
}

fn append_path(base: &Vec<String>, more: &Vec<String>) -> (r: Vec<String>)
    ensures
        texts(r@) == texts(base@) + texts(more@),
{
    let mut out: Vec<String> = Vec::new();
    let mut i: usize = 0;
    while i < base.len()
        invariant
            i <= base@.len(),
            out@.len() == i,
            forall|j: int| 0 <= j < i ==> (#[trigger] out@[j])@ == base@[j]@,
        decreases base@.len() - i,
    {
        out.push(base[i].clone());
        i = i + 1;
    }
    let mut j: usize = 0;
    while j < more.len()
        invariant
            j <= more@.len(),
            out@.len() == base@.len() + j,
            forall|k: int| 0 <= k < base@.len() ==> (#[trigger] out@[k])@ == base@[k]@,
            forall|k: int| base@.len() <= k < out@.len() ==> (#[trigger] out@[k])@ == more@[k
                - base@.len()]@,
        decreases more@.len() - j,
    {
        out.push(more[j].clone());
        j = j + 1;
    }
    assert(texts(out@) =~= texts(base@) + texts(more@));
    out
}

/// The state of reading a document.
struct Document {
    root: Dict,
    current: Vec<String>,
}

impl Document {
    spec fn view(&self) -> DocV {
        DocV { root: self.root@, current: texts(self.current@) }
    }

    spec fn result(&self, r: Result<(), String>) -> Result<DocV, Seq<char>> {
        match r {
            Ok(_) => Ok(self.view()),
            Err(m) => Err(m@),
        }
    }

    fn read_header(&mut self, key: &str, goal: Goal) -> (r: Result<(), String>)
        ensures
            final(self).result(r) == header_read(old(self)@, path_of(trimmed(key@)), goal@),
    {
        let name = trim(key);
        let path = match split_dotted_key(name.as_str()) {
            Ok(p) => p,
            Err(m) => {
                return Err(m);
            },
        };
        match put_at(&mut self.root, &path, 0, goal) {
            Ok(_) => {},
            Err(m) => {
                return Err(m);
            },
        }
        self.current = path;
        Ok(())
    }

    fn read_line<F: Fn(String) -> Option<String>>(&mut self, read: &F, text: &str) -> (r: Result<
        (),
        String,
    >)
        requires
            steady(*read),
        ensures
            final(self).result(r) == line_read(reading(*read), old(self)@, text@),
    {
        let line = trim(text);
        let s = chars_of(line.as_str());
        let len: usize = s.len();
        if len == 0 {
            return Ok(());
        }
        if len >= 2 && s[0] == '[' && s[1] == '[' {
            if !(len >= 4 && s[len - 1] == ']' && s[len - 2] == ']') {
                return Err(join2("TOML: invalid array-of-tables header: ", line.as_str()));
            }
            let key = sub_text(&s, 2, len - 2);
            return self.read_header(key.as_str(), Goal::Element);
        }
        if s[0] == '[' {
            if !is_enclosed(&s, '[', ']') {
                return Err(join2("TOML: invalid table header: ", line.as_str()));
            }
            let key = inside_of(&s);
            return self.read_header(key.as_str(), Goal::Table);
        }
        let eq: usize = match find_top_level_eq(&s) {
            Some(eq) => eq,
            None => {
                return Err(join2("TOML: no '=' found: ", line.as_str()));
            },
        };
        let head = head_text(&s, eq);
        let key = trim(head.as_str());
        let path = match split_dotted_key(key.as_str()) {
            Ok(p) => p,
            Err(m) => {
                return Err(m);
            },
        };
        let tail = rest_text(&s, eq + 1);
        let source = trim(tail.as_str());
        let v = match parse_value_at(read, source.as_str(), 0) {
            Ok(v) => v,
            Err(m) => {
                return Err(m);
            },
        };
        let whole = append_path(&self.current, &path);
        assert(texts(whole@).len() > 0);
        put_at(&mut self.root, &whole, 0, Goal::Leaf(v))
    }
}

/// Reads a TOML text as a dynamic value. Floats are read with `read`, from what the text has to
/// their spelling.
pub fn parse_to_dynamic<F: Fn(String) -> Option<String>>(text: &str, read: &F) -> (r: Result<
    Value,
    String,
>)
    requires
        steady(*read),
    ensures
        parsed(r) == toml_of(reading(*read), text@),
{
    let lines = match join_logical_lines(text) {
        Ok(lines) => lines,
        Err(m) => {
            return Err(m);
        },
    };
    let ghost ls = texts(lines@);
    let mut doc = Document { root: Dict::new(), current: Vec::new() };
    let mut i: usize = 0;
    assert(doc@.current =~= Seq::empty());
    while i < lines.len()
        invariant
            steady(*read),
            ls == texts(lines@),
            toml_of(reading(*read), text@) == document_from(reading(*read), ls, i as int, doc@),
            i <= lines@.len(),
        decreases lines@.len() - i,
    {
        assert(ls[i as int] == lines@[i as int]@);
        match doc.read_line(read, lines[i].as_str()) {
            Ok(_) => {},
            Err(m) => {
                return Err(m);
            },
        }
        i = i + 1;
    }
    Ok(finalize(&doc.root))
}

// ---------------------------------------------------------------------------
// Writing
// ---------------------------------------------------------------------------

/// Whether values of a type can stand at the root of a document: dictionaries with texts as keys
/// and named types, and no others. A list or a set there is an error.
pub fn is_valid_root_type(ty: &Ty) -> (r: bool)
    ensures
        r == ((ty@ matches TyV::Dict(k, _) && *k is Str) || ty@ is Named),
{
    proof {
        lemma_ty_view(*ty);
    }
    match ty {
        Ty::Dict(key, _) => {
            proof {
                lemma_ty_view(**key);
            }
            match **key {
                Ty::Str => true,
                _ => false,
            }
        },
        Ty::Named { name, args } => true,
        _ => false,
    }
}

/// A key that needs no quotes.
pub open spec fn plain_key(s: Seq<char>) -> bool {
    s.len() > 0 && forall|i: int| 0 <= i < s.len() ==> key_char(#[trigger] s[i])
}

pub open spec fn key_char(c: char) -> bool {
    ('a' <= c <= 'z') || ('A' <= c <= 'Z') || ('0' <= c <= '9') || c == '_' || c == '-'
}

pub open spec fn written_key(s: Seq<char>) -> Seq<char> {
    if plain_key(s) {
        s
    } else {
        quoted(s)
    }
}

fn format_toml_key(key: &str) -> (r: String)
    ensures
        r@ == written_key(key@),
{
    let v = chars_of(key);
    let mut plain = v.len() > 0;
    let mut i: usize = 0;
    while i < v.len()
        invariant
            v@ == key@,
            i <= v@.len(),
            plain ==> v@.len() > 0 && forall|j: int| 0 <= j < i ==> key_char(#[trigger] v@[j]),
            !plain ==> !plain_key(v@),
        decreases v@.len() - i,
    {
        let c = v[i];
        if !(('a' <= c && c <= 'z') || ('A' <= c && c <= 'Z') || ('0' <= c && c <= '9') || c == '_'
            || c == '-') {
            assert(!key_char(v@[i as int]));
            plain = false;
        }
        i = i + 1;
    }
    if plain {
        key.to_owned()
    } else {
        let mut out = String::new();
        write_json_string(key, &mut out);
        assert(out@ =~= quoted(key@));
        out
    }
}

pub open spec fn separator(first: bool) -> Seq<char> {
    if first {
        Seq::empty()
    } else {
        ", "@
    }
}

/// A tree as an inline value.
pub open spec fn inline_text(t: Tree) -> Seq<char>
    decreases t, 0int,
{
    match t {
        Tree::Bool(b) => if b {
            "true"@
        } else {
            "false"@
        },
        Tree::Int(n) => int_text(n as int),
        Tree::Float(x) => float_text(x),
        Tree::Str(x) => quoted(x),
        Tree::List(items) => "["@ + inline_items(items, 0) + "]"@,
        Tree::Dict(branches) => "{ "@ + inline_branches(branches, 0, true) + " }"@,
        Tree::Odd(name) => if name == "Bool"@ {
            "false"@
        } else if name == "Int"@ {
            "0"@
        } else if name == "Float"@ {
            "0.0"@
        } else if name == "List"@ {
            "[]"@
        } else if name == "Dict"@ {
            "{ }"@
        } else {
            "\"\""@
        },
        Tree::Null => "\"\""@,
        Tree::NotDynamic => "\"\""@,
    }
}

pub open spec fn inline_items(items: Seq<Tree>, i: int) -> Seq<char>
    decreases items, items.len() - i,
{
    if 0 <= i < items.len() {
        separator(i == 0) + inline_text(items[i]) + inline_items(items, i + 1)
    } else {
        Seq::empty()
    }
}

/// The entries of an inline table from the `i`-th on; those that are null are left out.
pub open spec fn inline_branches(branches: Seq<(Seq<char>, Tree)>, i: int, first: bool) -> Seq<char>
    decreases branches, branches.len() - i,
{
    if !(0 <= i < branches.len()) {
        Seq::empty()
    } else if branches[i].1 is Null {
        inline_branches(branches, i + 1, first)
    } else {
        separator(first) + written_key(branches[i].0) + " = "@ + inline_text(branches[i].1)
            + inline_branches(branches, i + 1, false)
    }
}

/// The lines of the root table from the `i`-th entry on; those that are null are left out.
pub open spec fn root_lines(branches: Seq<(Seq<char>, Tree)>, i: int) -> Seq<char>
    decreases branches.len() - i,
{
    if !(0 <= i < branches.len()) {
        Seq::empty()
    } else if branches[i].1 is Null {
        root_lines(branches, i + 1)
    } else {
        written_key(branches[i].0) + " = "@ + inline_text(branches[i].1) + "\n"@ + root_lines(
            branches,
            i + 1,
        )
    }
}

/// A tree as TOML text.
pub open spec fn toml_text(t: Tree) -> Seq<char> {
    match t {
        Tree::Dict(branches) => root_lines(branches, 0),
        Tree::Odd(name) => if name == "Dict"@ {
            Seq::empty()
        } else {
            "value = "@ + inline_text(t) + "\n"@
        },
        _ => "value = "@ + inline_text(t) + "\n"@,
    }
}

fn is_dynamic_null(v: &Value) -> (r: bool)
    ensures
        r == (tree_of(v@) is Null),
{
    proof {
        lemma_tree(v@);
    }
    match dyn_parts(v) {
        Dynamic::Null => true,
        _ => false,
    }
}

fn write_inline_items(items: &Vec<Value>, out: &mut String)
    ensures
        final(out)@ == old(out)@ + inline_items(trees_of(values_view(items@)), 0),
    decreases items, 0int,
{
    let ghost start = out@;
    let ghost trees = trees_of(values_view(items@));
    let mut i: usize = 0;
    while i < items.len()
        invariant
            i <= items@.len(),
            trees == trees_of(values_view(items@)),
            out@ + inline_items(trees, i as int) == start + inline_items(trees, 0),
        decreases items@.len() - i,
    {
        let ghost before = out@;
        if i > 0 {
            out.append(", ");
        }
        assert(out@ =~= before + separator(i == 0));
        proof {
            assert(decreases_to!(*items => items@));
            assert(decreases_to!(items@ => items@[i as int]));
        }
        write_inline(&items[i], out);
        assert(out@ + inline_items(trees, i + 1) =~= before + inline_items(trees, i as int));
        i = i + 1;
    }
    assert(out@ =~= start + inline_items(trees, 0));
}

fn write_inline_entries(d: &Dict, out: &mut String)
    ensures
        final(out)@ == old(out)@ + inline_branches(branches_of(d@), 0, true),
    decreases d, 0int,
{
    let ghost start = out@;
    let ghost branches = branches_of(d@);
    let n: usize = d.len();
    let mut first = true;
    let mut i: usize = 0;
    while i < n
        invariant
            n == d@.len(),
            i <= n,
            branches == branches_of(d@),
            out@ + inline_branches(branches, i as int, first) == start + inline_branches(
                branches,
                0,
                true,
            ),
        decreases n - i,
    {
        let ghost before = out@;
        let v = d.value_at(i);
        if !is_dynamic_null(v) {
            let ghost was = first;
            if !first {
                out.append(", ");
            }
            assert(out@ =~= before + separator(first));
            let k = d.key_at(i);
            let name = map_key_as_str(&k);
            let key = format_toml_key(name.as_str());
            out.append(key.as_str());
            out.append(" = ");
            write_inline(v, out);
            first = false;
            assert(out@ + inline_branches(branches, i + 1, false) =~= before + inline_branches(
                branches,
                i as int,
                was,
            ));
        }
        i = i + 1;
    }
    assert(out@ =~= start + inline_branches(branches, 0, true));
}

fn write_inline(value: &Value, out: &mut String)
    ensures
        final(out)@ == old(out)@ + inline_text(tree_of(value@)),
    decreases value, 1int,
{
    let ghost start = out@;
    proof {
        lemma_tree(value@);
    }
    match dyn_parts(value) {
        Dynamic::Bool(b) => {
            out.append(
                if b {
                    "true"
                } else {
                    "false"
                },
            );
        },
        Dynamic::Int(n) => {
            let text = int_to_text(n);
            out.append(text.as_str());
        },
        Dynamic::Float(x) => {
            let text = format_float_default(x.as_str());
            out.append(text.as_str());
        },
        Dynamic::Str(x) => {
            write_json_string(x.as_str(), out);
        },
        Dynamic::List(items) => {
            out.append("[");
            write_inline_items(items, out);
            out.append("]");
            assert(out@ =~= start + inline_text(tree_of(value@)));
        },
        Dynamic::Dict(d) => {
            out.append("{ ");
            write_inline_entries(d, out);
            out.append(" }");
            assert(out@ =~= start + inline_text(tree_of(value@)));
        },
        Dynamic::Odd(name) => {
            if same_text(name.as_str(), "Bool") {
                out.append("false");
            } else if same_text(name.as_str(), "Int") {
                out.append("0");
            } else if same_text(name.as_str(), "Float") {
                out.append("0.0");
            } else if same_text(name.as_str(), "List") {
                out.append("[]");
            } else if same_text(name.as_str(), "Dict") {
                out.append("{ }");
            } else {
                out.append("\"\"");
            }
        },
        Dynamic::Null => {
            out.append("\"\"");
        },
        Dynamic::NotDynamic => {
            out.append("\"\"");
        },
    }
}

fn write_root(d: &Dict, out: &mut String)
    ensures
        final(out)@ == old(out)@ + root_lines(branches_of(d@), 0),
{
    let ghost start = out@;
    let ghost branches = branches_of(d@);
    let n: usize = d.len();
    let mut i: usize = 0;
    while i < n
        invariant
            n == d@.len(),
            i <= n,
            branches == branches_of(d@),
            out@ + root_lines(branches, i as int) == start + root_lines(branches, 0),
        decreases n - i,
    {
        let ghost before = out@;
        let v = d.value_at(i);
        if !is_dynamic_null(v) {
            let k = d.key_at(i);
            let name = map_key_as_str(&k);
            let key = format_toml_key(name.as_str());
            out.append(key.as_str());
            out.append(" = ");
            write_inline(v, out);
            out.append("\n");
            assert(out@ + root_lines(branches, i + 1) =~= before + root_lines(
                branches,
                i as int,
            ));
        }
        i = i + 1;
    }
    assert(out@ =~= start + root_lines(branches, 0));
}

/// Writes a dynamic value as TOML text: a line for each entry of the root, and anything deeper
/// inline.
pub fn dynamic_to_string(value: &Value) -> (r: String)
    ensures
        r@ == toml_text(tree_of(value@)),
{
    let mut out = String::new();
    proof {
        lemma_tree(value@);
    }
    assert(out@ =~= Seq::empty());
    match dyn_parts(value) {
        Dynamic::Dict(d) => {
            write_root(d, &mut out);
            assert(out@ =~= toml_text(tree_of(value@)));
            return out;
        },
        Dynamic::Odd(name) => {
            if same_text(name.as_str(), "Dict") {
                return out;
            }
        },
        _ => {},
    }
    out.append("value = ");
    write_inline(value, &mut out);
    out.append("\n");
    assert(out@ =~= toml_text(tree_of(value@)));
    out
}

} // verus!
