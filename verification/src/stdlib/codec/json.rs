//! JSON: the standard notation, without extensions.

use super::dynamic::{
    branches_of, dbool_v, ddict_v, dfloat_v, dint_v, dlist_v, dstr_v, dyn_bool, dyn_dict, dyn_float,
    dyn_int, dyn_list, dyn_null, dyn_parts, dyn_str, float_text, format_float_default, lemma_tree,
    map_key_as_str, null_v, tree_of, trees_of, Dynamic, Tree,
};
use crate::eval::keys::{str_key, KeyV};
use crate::eval::value::{inserted, values_view, Dict, Value, ValueV};
use crate::numerals::{
    char_at, char_of, hex_char, hex_char_of, hex_of, hex_of_chars, int_of, int_of_chars, is_digit,
    is_digit_char, read_float, reading, steady,
};
use crate::text::{
    char_text, chars_of, code_of, digits, int_text, int_to_text, join2, join3, join5, nat_to_text, sub_text,
};
use vstd::prelude::*;
use vstd::string::*;

verus! {

/// How deep containers may nest.
pub const MAX_NESTING_DEPTH: usize = 256;

// ---------------------------------------------------------------------------
// What a JSON text stands for
// ---------------------------------------------------------------------------

/// How floats are read: the spelling of the float that a text writes, if it writes one.
pub type Reading = spec_fn(Seq<char>) -> Option<Seq<char>>;

pub open spec fn is_ws(c: char) -> bool {
    c == ' ' || c == '\t' || c == '\n' || c == '\r'
}

/// Where the white space from `pos` on ends.
pub open spec fn ws(s: Seq<char>, pos: int) -> int
    decreases s.len() - pos,
{
    if 0 <= pos < s.len() && is_ws(s[pos]) {
        ws(s, pos + 1)
    } else {
        pos
    }
}

/// Takes the character `c` at `pos`.
pub open spec fn expected(s: Seq<char>, pos: int, c: char) -> Result<int, Seq<char>> {
    if pos >= s.len() {
        Err("JSON: input ended before '"@ + seq![c] + "'"@)
    } else if s[pos] == c {
        Ok(pos + 1)
    } else {
        Err(
            "JSON: expected '"@ + seq![c] + "' at position "@ + digits(pos as nat)
                + " but found '"@ + seq![s[pos]] + "'"@,
        )
    }
}

/// Takes the rest of a word, from its `i`-th character on, at `pos`.
pub open spec fn keyword(s: Seq<char>, pos: int, word: Seq<char>, i: int) -> Result<int, Seq<char>>
    decreases word.len() - i,
{
    if 0 <= i < word.len() {
        match expected(s, pos, word[i]) {
            Ok(next) => keyword(s, next, word, i + 1),
            Err(m) => Err(m),
        }
    } else {
        Ok(pos)
    }
}

/// Where the digits from `pos` on end.
pub open spec fn digits_end(s: Seq<char>, pos: int) -> int
    decreases s.len() - pos,
{
    if 0 <= pos < s.len() && is_digit(s[pos]) {
        digits_end(s, pos + 1)
    } else {
        pos
    }
}

/// The four hexadecimal digits at `pos`.
pub open spec fn hex4(s: Seq<char>, pos: int) -> Result<(nat, int), Seq<char>> {
    if pos + 4 > s.len() {
        Err("JSON: \\u escape is missing digits"@)
    } else {
        match hex_of(s.subrange(pos, pos + 4)) {
            Some(n) => Ok((n, pos + 4)),
            None => Err("JSON: invalid \\u escape '"@ + s.subrange(pos, pos + 4) + "'"@),
        }
    }
}

/// The character of the `\u` escape whose digits start at `pos`; a high surrogate needs a low
/// one after it.
pub open spec fn unicode_escape(s: Seq<char>, pos: int) -> Result<(char, int), Seq<char>> {
    match hex4(s, pos) {
        Err(m) => Err(m),
        Ok((high, p)) => if 0xD800 <= high <= 0xDBFF {
            match expected(s, p, '\\') {
                Err(m) => Err(m),
                Ok(p1) => match expected(s, p1, 'u') {
                    Err(m) => Err(m),
                    Ok(p2) => match hex4(s, p2) {
                        Err(m) => Err(m),
                        Ok((low, p3)) => if !(0xDC00 <= low <= 0xDFFF) {
                            Err("JSON: invalid surrogate pair"@)
                        } else {
                            code_point((0x10000 + (high - 0xD800) * 0x400 + (low - 0xDC00)) as nat, p3)
                        },
                    },
                },
            }
        } else {
            code_point(high, p)
        },
    }
}

pub open spec fn code_point(cp: nat, pos: int) -> Result<(char, int), Seq<char>> {
    match char_at(cp) {
        Some(c) => Ok((c, pos)),
        None => Err("JSON: invalid Unicode code point"@),
    }
}

/// The character of the escape at `pos`, which follows a backslash.
pub open spec fn escape(s: Seq<char>, pos: int) -> Result<(char, int), Seq<char>> {
    if pos >= s.len() {
        Err("JSON: string ended in the middle of an escape"@)
    } else {
        let c = s[pos];
        if c == '"' || c == '\\' || c == '/' {
            Ok((c, pos + 1))
        } else if c == 'b' {
            Ok(('\u{8}', pos + 1))
        } else if c == 'f' {
            Ok(('\u{c}', pos + 1))
        } else if c == 'n' {
            Ok(('\n', pos + 1))
        } else if c == 'r' {
            Ok(('\r', pos + 1))
        } else if c == 't' {
            Ok(('\t', pos + 1))
        } else if c == 'u' {
            unicode_escape(s, pos + 1)
        } else {
            Err("JSON: invalid escape '\\"@ + seq![c] + "'"@)
        }
    }
}

/// The rest of the string of which `out` has been read, up to its closing quote.
pub open spec fn string_rest(s: Seq<char>, pos: int, out: Seq<char>) -> Result<
    (Seq<char>, int),
    Seq<char>,
>
    decreases s.len() - pos,
{
    if !(0 <= pos < s.len()) {
        Err("JSON: string was not closed"@)
    } else if s[pos] == '"' {
        Ok((out, pos + 1))
    } else if s[pos] == '\\' {
        match escape(s, pos + 1) {
            Ok((c, next)) => string_rest(s, next, out.push(c)),
            Err(m) => Err(m),
        }
    } else if (s[pos] as u32) < 0x20 {
        Err("JSON: a control character cannot appear directly in a string"@)
    } else {
        string_rest(s, pos + 1, out.push(s[pos]))
    }
}

/// Where the integer part of the number at `pos` ends.
pub open spec fn whole_end(s: Seq<char>, pos: int) -> Result<int, Seq<char>> {
    let a = if 0 <= pos < s.len() && s[pos] == '-' {
        pos + 1
    } else {
        pos
    };
    if a >= s.len() || !is_digit(s[a]) {
        Err("JSON: invalid number literal at position "@ + digits(pos as nat))
    } else if s[a] == '0' && a + 1 < s.len() && is_digit(s[a + 1]) {
        Err("JSON: leading zero in number at position "@ + digits(pos as nat))
    } else if s[a] == '0' {
        Ok(a + 1)
    } else {
        Ok(digits_end(s, a))
    }
}

/// Where the fraction at `b` ends, and whether there is one. The number starts at `pos`.
pub open spec fn fraction_end(s: Seq<char>, pos: int, b: int) -> Result<(int, bool), Seq<char>> {
    if b < s.len() && s[b] == '.' {
        let c = digits_end(s, b + 1);
        if c == b + 1 {
            Err("JSON: fraction requires digits at position "@ + digits(pos as nat))
        } else {
            Ok((c, true))
        }
    } else {
        Ok((b, false))
    }
}

/// Where the exponent at `b` ends, and whether there is one. The number starts at `pos`.
pub open spec fn exponent_end(s: Seq<char>, pos: int, b: int) -> Result<(int, bool), Seq<char>> {
    if b < s.len() && (s[b] == 'e' || s[b] == 'E') {
        let c = if b + 1 < s.len() && (s[b + 1] == '+' || s[b + 1] == '-') {
            b + 2
        } else {
            b + 1
        };
        let d = digits_end(s, c);
        if d == c {
            Err("JSON: exponent requires digits at position "@ + digits(pos as nat))
        } else {
            Ok((d, true))
        }
    } else {
        Ok((b, false))
    }
}

/// The float that a text writes.
pub open spec fn float_literal(read: Reading, text: Seq<char>, end: int) -> Result<
    (ValueV, int),
    Seq<char>,
> {
    match read(text) {
        Some(x) => Ok((dfloat_v(x), end)),
        None => Err("JSON: invalid number literal: "@ + text),
    }
}

/// The number at `pos`: an integer where it has neither fraction nor exponent and fits, and a
/// float otherwise.
pub open spec fn number(read: Reading, s: Seq<char>, pos: int) -> Result<(ValueV, int), Seq<char>> {
    match whole_end(s, pos) {
        Err(m) => Err(m),
        Ok(b) => match fraction_end(s, pos, b) {
            Err(m) => Err(m),
            Ok((c, has_fraction)) => match exponent_end(s, pos, c) {
                Err(m) => Err(m),
                Ok((end, has_exponent)) => {
                    let text = s.subrange(pos, end);
                    if has_fraction || has_exponent {
                        float_literal(read, text, end)
                    } else {
                        match int_of(text) {
                            Some(n) => Ok((dint_v(n), end)),
                            None => float_literal(read, text, end),
                        }
                    }
                },
            },
        },
    }
}

pub open spec fn constant(r: Result<int, Seq<char>>, v: ValueV) -> Result<
    (ValueV, int),
    Seq<char>,
> {
    match r {
        Ok(next) => Ok((v, next)),
        Err(m) => Err(m),
    }
}

/// The value at `start`, inside `depth` containers.
pub open spec fn value_at(read: Reading, s: Seq<char>, start: int, depth: int) -> Result<
    (ValueV, int),
    Seq<char>,
>
    decreases 257 - depth, 1int, 0int,
{
    let pos = ws(s, start);
    if depth > 256 {
        Err("JSON: nesting depth exceeds 256"@)
    } else if pos >= s.len() {
        Err("JSON: empty input"@)
    } else if s[pos] == '{' {
        let q = ws(s, pos + 1);
        if q < s.len() && s[q] == '}' {
            Ok((ddict_v(Seq::empty()), q + 1))
        } else {
            members(read, s, q, depth, Seq::empty())
        }
    } else if s[pos] == '[' {
        let q = ws(s, pos + 1);
        if q < s.len() && s[q] == ']' {
            Ok((dlist_v(Seq::empty()), q + 1))
        } else {
            elements(read, s, q, depth, Seq::empty())
        }
    } else if s[pos] == '"' {
        match string_rest(s, pos + 1, Seq::empty()) {
            Ok((text, next)) => Ok((dstr_v(text), next)),
            Err(m) => Err(m),
        }
    } else if s[pos] == 't' {
        constant(keyword(s, pos, "true"@, 0), dbool_v(true))
    } else if s[pos] == 'f' {
        constant(keyword(s, pos, "false"@, 0), dbool_v(false))
    } else if s[pos] == 'n' {
        constant(keyword(s, pos, "null"@, 0), null_v())
    } else if s[pos] == '-' || is_digit(s[pos]) {
        number(read, s, pos)
    } else {
        Err(
            "JSON: unexpected character '"@ + seq![s[pos]] + "' at position "@ + digits(
                pos as nat,
            ),
        )
    }
}

/// The members of an object from `pos` on, of which `entries` have been read.
pub open spec fn members(
    read: Reading,
    s: Seq<char>,
    pos: int,
    depth: int,
    entries: Seq<(KeyV, ValueV)>,
) -> Result<(ValueV, int), Seq<char>>
    decreases 257 - depth, 0int, s.len() - pos,
    when depth <= 256
{
    let p = ws(s, pos);
    if p >= s.len() || s[p] != '"' {
        Err("JSON: expected an object key (a string) at position "@ + digits(p as nat))
    } else {
        match string_rest(s, p + 1, Seq::empty()) {
            Err(m) => Err(m),
            Ok((key, q)) => match expected(s, ws(s, q), ':') {
                Err(m) => Err(m),
                Ok(q1) => match value_at(read, s, ws(s, q1), depth + 1) {
                    Err(m) => Err(m),
                    Ok((v, q2)) => {
                        let q3 = ws(s, q2);
                        let more = inserted(entries, KeyV::Str(key), v);
                        if q3 >= s.len() {
                            Err("JSON: object was not closed"@)
                        } else if s[q3] == ',' && pos <= q3 {
                            members(read, s, q3 + 1, depth, more)
                        } else if s[q3] == '}' {
                            Ok((ddict_v(more), q3 + 1))
                        } else {
                            Err(
                                "JSON: expected ',' or '}' at position "@ + digits(q3 as nat)
                                    + " but found '"@ + seq![s[q3]] + "'"@,
                            )
                        }
                    },
                },
            },
        }
    }
}

/// The elements of an array from `pos` on, of which `items` have been read.
pub open spec fn elements(
    read: Reading,
    s: Seq<char>,
    pos: int,
    depth: int,
    items: Seq<ValueV>,
) -> Result<(ValueV, int), Seq<char>>
    decreases 257 - depth, 0int, s.len() - pos,
    when depth <= 256
{
    match value_at(read, s, pos, depth + 1) {
        Err(m) => Err(m),
        Ok((v, q)) => {
            let q1 = ws(s, q);
            if q1 >= s.len() {
                Err("JSON: array was not closed"@)
            } else if s[q1] == ',' && pos <= q1 {
                elements(read, s, q1 + 1, depth, items.push(v))
            } else if s[q1] == ']' {
                Ok((dlist_v(items.push(v)), q1 + 1))
            } else {
                Err(
                    "JSON: expected ',' or ']' at position "@ + digits(q1 as nat)
                        + " but found '"@ + seq![s[q1]] + "'"@,
                )
            }
        },
    }
}

/// What a JSON text stands for.
pub open spec fn json_of(read: Reading, s: Seq<char>) -> Result<ValueV, Seq<char>> {
    match value_at(read, s, ws(s, 0), 0) {
        Err(m) => Err(m),
        Ok((v, q)) => {
            let end = ws(s, q);
            if end != s.len() {
                Err(
                    "JSON: extra characters after the value (position "@ + digits(end as nat)
                        + ")"@,
                )
            } else {
                Ok(v)
            }
        },
    }
}

// ---------------------------------------------------------------------------
// Reading
// ---------------------------------------------------------------------------

pub open spec fn pos_result(r: Result<usize, String>) -> Result<int, Seq<char>> {
    match r {
        Ok(p) => Ok(p as int),
        Err(m) => Err(m@),
    }
}

pub open spec fn char_result(r: Result<(char, usize), String>) -> Result<(char, int), Seq<char>> {
    match r {
        Ok((c, p)) => Ok((c, p as int)),
        Err(m) => Err(m@),
    }
}

pub open spec fn text_result(r: Result<(String, usize), String>) -> Result<
    (Seq<char>, int),
    Seq<char>,
> {
    match r {
        Ok((t, p)) => Ok((t@, p as int)),
        Err(m) => Err(m@),
    }
}

pub open spec fn value_result(r: Result<(Value, usize), String>) -> Result<
    (ValueV, int),
    Seq<char>,
> {
    match r {
        Ok((v, p)) => Ok((v@, p as int)),
        Err(m) => Err(m@),
    }
}

fn skip_ws(s: &Vec<char>, start: usize) -> (r: usize)
    requires
        start <= s@.len(),
    ensures
        r == ws(s@, start as int),
        start <= r <= s@.len(),
{
    let mut pos: usize = start;
    while pos < s.len() && (s[pos] == ' ' || s[pos] == '\t' || s[pos] == '\n' || s[pos] == '\r')
        invariant
            start <= pos <= s@.len(),
            ws(s@, pos as int) == ws(s@, start as int),
        decreases s@.len() - pos,
    {
        pos = pos + 1;
    }
    pos
}

fn expect_char(s: &Vec<char>, pos: usize, c: char) -> (r: Result<usize, String>)
    requires
        pos <= s@.len(),
    ensures
        pos_result(r) == expected(s@, pos as int, c),
        r matches Ok(p) ==> p == pos + 1 && p <= s@.len(),
{
    let wanted = char_text(c);
    if pos >= s.len() {
        return Err(join3("JSON: input ended before '", wanted.as_str(), "'"));
    }
    if s[pos] == c {
        return Ok(pos + 1);
    }
    let found = char_text(s[pos]);
    let at = nat_to_text(pos as u64);
    let head = join5(
        "JSON: expected '",
        wanted.as_str(),
        "' at position ",
        at.as_str(),
        " but found '",
    );
    Err(join3(head.as_str(), found.as_str(), "'"))
}

fn parse_keyword(s: &Vec<char>, start: usize, word: &str) -> (r: Result<usize, String>)
    requires
        start <= s@.len(),
    ensures
        pos_result(r) == keyword(s@, start as int, word@, 0),
        r matches Ok(p) ==> start <= p <= s@.len(),
{
    let w = chars_of(word);
    let mut pos: usize = start;
    let mut i: usize = 0;
    while i < w.len()
        invariant
            start <= pos <= s@.len(),
            i <= w@.len(),
            w@ == word@,
            keyword(s@, pos as int, w@, i as int) == keyword(s@, start as int, w@, 0),
        decreases w@.len() - i,
    {
        match expect_char(s, pos, w[i]) {
            Ok(next) => {
                pos = next;
            },
            Err(m) => {
                return Err(m);
            },
        }
        i = i + 1;
    }
    Ok(pos)
}

fn skip_digits(s: &Vec<char>, start: usize) -> (r: usize)
    requires
        start <= s@.len(),
    ensures
        r == digits_end(s@, start as int),
        start <= r <= s@.len(),
{
    let mut pos: usize = start;
    while pos < s.len() && is_digit_char(s[pos])
        invariant
            start <= pos <= s@.len(),
            digits_end(s@, pos as int) == digits_end(s@, start as int),
        decreases s@.len() - pos,
    {
        pos = pos + 1;
    }
    pos
}

fn copy_chars(s: &Vec<char>, from: usize, to: usize) -> (r: Vec<char>)
    requires
        from <= to <= s@.len(),
    ensures
        r@ == s@.subrange(from as int, to as int),
{
    let mut r: Vec<char> = Vec::new();
    let mut i: usize = from;
    while i < to
        invariant
            from <= i <= to <= s@.len(),
            r@ == s@.subrange(from as int, i as int),
        decreases to - i,
    {
        r.push(s[i]);
        assert(r@ =~= s@.subrange(from as int, i + 1));
        i = i + 1;
    }
    r
}

fn parse_hex4(s: &Vec<char>, pos: usize) -> (r: Result<(u32, usize), String>)
    requires
        pos <= s@.len(),
    ensures
        match r {
            Ok((n, p)) => hex4(s@, pos as int) == Ok::<(nat, int), Seq<char>>(
                (n as nat, p as int),
            ) && n < 0x10000 && p == pos + 4 && p <= s@.len(),
            Err(m) => hex4(s@, pos as int) == Err::<(nat, int), Seq<char>>(m@),
        },
{
    if s.len() - pos < 4 {
        return Err("JSON: \\u escape is missing digits".to_owned());
    }
    let hex = copy_chars(s, pos, pos + 4);
    match hex_of_chars(&hex) {
        Some(n) => Ok((n, pos + 4)),
        None => {
            let text = sub_text(s, pos, pos + 4);
            Err(join3("JSON: invalid \\u escape '", text.as_str(), "'"))
        },
    }
}

fn char_from(cp: u32, pos: usize) -> (r: Result<(char, usize), String>)
    ensures
        char_result(r) == code_point(cp as nat, pos as int),
        r matches Ok((_, p)) ==> p == pos,
{
    match char_of(cp) {
        Some(c) => Ok((c, pos)),
        None => Err("JSON: invalid Unicode code point".to_owned()),
    }
}

fn parse_unicode_escape(s: &Vec<char>, pos: usize) -> (r: Result<(char, usize), String>)
    requires
        pos <= s@.len(),
    ensures
        char_result(r) == unicode_escape(s@, pos as int),
        r matches Ok((_, p)) ==> pos < p <= s@.len(),
{
    let (high, p) = match parse_hex4(s, pos) {
        Ok(x) => x,
        Err(m) => {
            return Err(m);
        },
    };
    if !(0xD800 <= high && high <= 0xDBFF) {
        return char_from(high, p);
    }
    let p1: usize = match expect_char(s, p, '\\') {
        Ok(x) => x,
        Err(m) => {
            return Err(m);
        },
    };
    let p2: usize = match expect_char(s, p1, 'u') {
        Ok(x) => x,
        Err(m) => {
            return Err(m);
        },
    };
    let (low, p3) = match parse_hex4(s, p2) {
        Ok(x) => x,
        Err(m) => {
            return Err(m);
        },
    };
    if !(0xDC00 <= low && low <= 0xDFFF) {
        return Err("JSON: invalid surrogate pair".to_owned());
    }
    char_from(0x10000 + (high - 0xD800) * 0x400 + (low - 0xDC00), p3)
}

fn parse_escape(s: &Vec<char>, pos: usize) -> (r: Result<(char, usize), String>)
    requires
        pos <= s@.len(),
    ensures
        char_result(r) == escape(s@, pos as int),
        r matches Ok((_, p)) ==> pos < p <= s@.len(),
{
    if pos >= s.len() {
        return Err("JSON: string ended in the middle of an escape".to_owned());
    }
    let c = s[pos];
    if c == '"' || c == '\\' || c == '/' {
        Ok((c, pos + 1))
    } else if c == 'b' {
        Ok(('\u{8}', pos + 1))
    } else if c == 'f' {
        Ok(('\u{c}', pos + 1))
    } else if c == 'n' {
        Ok(('\n', pos + 1))
    } else if c == 'r' {
        Ok(('\r', pos + 1))
    } else if c == 't' {
        Ok(('\t', pos + 1))
    } else if c == 'u' {
        parse_unicode_escape(s, pos + 1)
    } else {
        let found = char_text(c);
        Err(join3("JSON: invalid escape '\\", found.as_str(), "'"))
    }
}

/// Reads the rest of a string, from behind its opening quote.
fn parse_string(s: &Vec<char>, start: usize) -> (r: Result<(String, usize), String>)
    requires
        start <= s@.len(),
    ensures
        text_result(r) == string_rest(s@, start as int, Seq::empty()),
        r matches Ok((_, p)) ==> start < p <= s@.len(),
{
    let mut out = String::new();
    let mut pos: usize = start;
    assert(out@ =~= Seq::empty());
    while pos < s.len()
        invariant
            start <= pos <= s@.len(),
            string_rest(s@, pos as int, out@) == string_rest(s@, start as int, Seq::empty()),
        decreases s@.len() - pos,
    {
        let c = s[pos];
        if c == '"' {
            return Ok((out, pos + 1));
        } else if c == '\\' {
            match parse_escape(s, pos + 1) {
                Ok((x, next)) => {
                    out.push(x);
                    pos = next;
                },
                Err(m) => {
                    return Err(m);
                },
            }
        } else if (c as u32) < 0x20 {
            return Err(
                "JSON: a control character cannot appear directly in a string".to_owned(),
            );
        } else {
            out.push(c);
            pos = pos + 1;
        }
    }
    Err("JSON: string was not closed".to_owned())
}

fn at_position(message: &str, pos: usize) -> (r: String)
    ensures
        r@ == message@ + digits(pos as nat),
{
    let at = nat_to_text(pos as u64);
    join2(message, at.as_str())
}

fn parse_whole(s: &Vec<char>, pos: usize) -> (r: Result<usize, String>)
    requires
        pos < s@.len(),
    ensures
        pos_result(r) == whole_end(s@, pos as int),
        r matches Ok(p) ==> pos < p <= s@.len(),
{
    let len: usize = s.len();
    let a: usize = if s[pos] == '-' {
        pos + 1
    } else {
        pos
    };
    if a >= len || !is_digit_char(s[a]) {
        return Err(at_position("JSON: invalid number literal at position ", pos));
    }
    if s[a] == '0' {
        if a + 1 < len && is_digit_char(s[a + 1]) {
            return Err(at_position("JSON: leading zero in number at position ", pos));
        }
        return Ok(a + 1);
    }
    let b: usize = skip_digits(s, a);
    proof {
        assert(digits_end(s@, a as int) == digits_end(s@, a + 1));
        lemma_digits_end(s@, a + 1);
    }
    Ok(b)
}

pub proof fn lemma_digits_end(s: Seq<char>, pos: int)
    requires
        0 <= pos <= s.len(),
    ensures
        pos <= digits_end(s, pos) <= s.len(),
    decreases s.len() - pos,
{
    if pos < s.len() && is_digit(s[pos]) {
        lemma_digits_end(s, pos + 1);
    }
}

fn parse_fraction(s: &Vec<char>, start: usize, b: usize) -> (r: Result<(usize, bool), String>)
    requires
        b <= s@.len(),
    ensures
        match r {
            Ok((p, has)) => fraction_end(s@, start as int, b as int) == Ok::<
                (int, bool),
                Seq<char>,
            >((p as int, has)) && b <= p <= s@.len(),
            Err(m) => fraction_end(s@, start as int, b as int) == Err::<(int, bool), Seq<char>>(
                m@,
            ),
        },
{
    if b < s.len() && s[b] == '.' {
        let c: usize = skip_digits(s, b + 1);
        if c == b + 1 {
            return Err(at_position("JSON: fraction requires digits at position ", start));
        }
        return Ok((c, true));
    }
    Ok((b, false))
}

fn parse_exponent(s: &Vec<char>, start: usize, b: usize) -> (r: Result<(usize, bool), String>)
    requires
        b <= s@.len(),
    ensures
        match r {
            Ok((p, has)) => exponent_end(s@, start as int, b as int) == Ok::<
                (int, bool),
                Seq<char>,
            >((p as int, has)) && b <= p <= s@.len(),
            Err(m) => exponent_end(s@, start as int, b as int) == Err::<(int, bool), Seq<char>>(
                m@,
            ),
        },
{
    if b < s.len() && (s[b] == 'e' || s[b] == 'E') {
        let c: usize = if b + 1 < s.len() && (s[b + 1] == '+' || s[b + 1] == '-') {
            b + 2
        } else {
            b + 1
        };
        let d: usize = skip_digits(s, c);
        if d == c {
            return Err(at_position("JSON: exponent requires digits at position ", start));
        }
        return Ok((d, true));
    }
    Ok((b, false))
}

fn parse_float<F: Fn(String) -> Option<String>>(
    read: &F,
    s: &Vec<char>,
    start: usize,
    end: usize,
) -> (r: Result<(Value, usize), String>)
    requires
        steady(*read),
        start <= end <= s@.len(),
    ensures
        value_result(r) == float_literal(
            reading(*read),
            s@.subrange(start as int, end as int),
            end as int,
        ),
        r matches Ok((_, p)) ==> p == end,
{
    let text = sub_text(s, start, end);
    match read_float(read, text) {
        Some(x) => Ok((dyn_float(x), end)),
        None => {
            let again = sub_text(s, start, end);
            Err(join2("JSON: invalid number literal: ", again.as_str()))
        },
    }
}

fn parse_number<F: Fn(String) -> Option<String>>(read: &F, s: &Vec<char>, pos: usize) -> (r: Result<
    (Value, usize),
    String,
>)
    requires
        steady(*read),
        pos < s@.len(),
    ensures
        value_result(r) == number(reading(*read), s@, pos as int),
        r matches Ok((_, p)) ==> pos < p <= s@.len(),
{
    let b: usize = match parse_whole(s, pos) {
        Ok(p) => p,
        Err(m) => {
            return Err(m);
        },
    };
    let (c, has_fraction) = match parse_fraction(s, pos, b) {
        Ok(x) => x,
        Err(m) => {
            return Err(m);
        },
    };
    let (end, has_exponent) = match parse_exponent(s, pos, c) {
        Ok(x) => x,
        Err(m) => {
            return Err(m);
        },
    };
    if has_fraction || has_exponent {
        return parse_float(read, s, pos, end);
    }
    let literal = copy_chars(s, pos, end);
    match int_of_chars(&literal) {
        Some(n) => Ok((dyn_int(n), end)),
        None => parse_float(read, s, pos, end),
    }
}

fn parse_value<F: Fn(String) -> Option<String>>(
    read: &F,
    s: &Vec<char>,
    start: usize,
    depth: usize,
) -> (r: Result<(Value, usize), String>)
    requires
        steady(*read),
        start <= s@.len(),
        depth <= 257,
    ensures
        value_result(r) == value_at(reading(*read), s@, start as int, depth as int),
        r matches Ok((_, p)) ==> start < p <= s@.len(),
    decreases 257 - depth, 1int, 0int,
{
    if depth > MAX_NESTING_DEPTH {
        return Err("JSON: nesting depth exceeds 256".to_owned());
    }
    let pos: usize = skip_ws(s, start);
    if pos >= s.len() {
        return Err("JSON: empty input".to_owned());
    }
    let c = s[pos];
    if c == '{' {
        let q: usize = skip_ws(s, pos + 1);
        if q < s.len() && s[q] == '}' {
            return Ok((dyn_dict(Dict::new()), q + 1));
        }
        return parse_object(read, s, q, depth);
    }
    if c == '[' {
        let q: usize = skip_ws(s, pos + 1);
        if q < s.len() && s[q] == ']' {
            let none: Vec<Value> = Vec::new();
            assert(values_view(none@) =~= Seq::empty());
            return Ok((dyn_list(none), q + 1));
        }
        return parse_array(read, s, q, depth);
    }
    if c == '"' {
        return match parse_string(s, pos + 1) {
            Ok((text, next)) => Ok((dyn_str(text), next)),
            Err(m) => Err(m),
        };
    }
    if c == 't' {
        return match parse_keyword(s, pos, "true") {
            Ok(next) => {
                proof {
                    lemma_keyword_len(s@, pos as int, "true"@, 0);
                    reveal_strlit("true");
                }
                Ok((dyn_bool(true), next))
            },
            Err(m) => Err(m),
        };
    }
    if c == 'f' {
        return match parse_keyword(s, pos, "false") {
            Ok(next) => {
                proof {
                    lemma_keyword_len(s@, pos as int, "false"@, 0);
                    reveal_strlit("false");
                }
                Ok((dyn_bool(false), next))
            },
            Err(m) => Err(m),
        };
    }
    if c == 'n' {
        return match parse_keyword(s, pos, "null") {
            Ok(next) => {
                proof {
                    lemma_keyword_len(s@, pos as int, "null"@, 0);
                    reveal_strlit("null");
                }
                Ok((dyn_null(), next))
            },
            Err(m) => Err(m),
        };
    }
    if c == '-' || is_digit_char(c) {
        return parse_number(read, s, pos);
    }
    let found = char_text(c);
    let head = join3("JSON: unexpected character '", found.as_str(), "' at position ");
    Err(at_position(head.as_str(), pos))
}

proof fn lemma_keyword_len(s: Seq<char>, pos: int, word: Seq<char>, i: int)
    requires
        0 <= i <= word.len(),
    ensures
        keyword(s, pos, word, i) matches Ok(p) ==> p == pos + word.len() - i,
    decreases word.len() - i,
{
    if i < word.len() {
        lemma_keyword_len(s, pos + 1, word, i + 1);
    }
}

fn parse_object<F: Fn(String) -> Option<String>>(
    read: &F,
    s: &Vec<char>,
    start: usize,
    depth: usize,
) -> (r: Result<(Value, usize), String>)
    requires
        steady(*read),
        start <= s@.len(),
        depth <= 256,
    ensures
        value_result(r) == members(
            reading(*read),
            s@,
            start as int,
            depth as int,
            Seq::empty(),
        ),
        r matches Ok((_, p)) ==> start < p <= s@.len(),
    decreases 257 - depth, 0int, s@.len() - start,
{
    let mut map = Dict::new();
    let mut pos: usize = start;
    loop
        invariant
            steady(*read),
            start <= pos <= s@.len(),
            depth <= 256,
            members(reading(*read), s@, pos as int, depth as int, map@) == members(
                reading(*read),
                s@,
                start as int,
                depth as int,
                Seq::empty(),
            ),
        decreases s@.len() - pos,
    {
        let p: usize = skip_ws(s, pos);
        if p >= s.len() || s[p] != '"' {
            return Err(
                at_position("JSON: expected an object key (a string) at position ", p),
            );
        }
        let (key, q) = match parse_string(s, p + 1) {
            Ok(x) => x,
            Err(m) => {
                return Err(m);
            },
        };
        let colon: usize = skip_ws(s, q);
        let q1: usize = match expect_char(s, colon, ':') {
            Ok(x) => x,
            Err(m) => {
                return Err(m);
            },
        };
        let at: usize = skip_ws(s, q1);
        let (v, q2) = match parse_value(read, s, at, depth + 1) {
            Ok(x) => x,
            Err(m) => {
                return Err(m);
            },
        };
        let q3: usize = skip_ws(s, q2);
        let _old = map.insert(str_key(key), v);
        if q3 >= s.len() {
            return Err("JSON: object was not closed".to_owned());
        }
        let c = s[q3];
        if c == ',' {
            pos = q3 + 1;
        } else if c == '}' {
            return Ok((dyn_dict(map), q3 + 1));
        } else {
            let found = char_text(c);
            let head = at_position("JSON: expected ',' or '}' at position ", q3);
            let tail = join2(head.as_str(), " but found '");
            return Err(join3(tail.as_str(), found.as_str(), "'"));
        }
    }
}

fn parse_array<F: Fn(String) -> Option<String>>(
    read: &F,
    s: &Vec<char>,
    start: usize,
    depth: usize,
) -> (r: Result<(Value, usize), String>)
    requires
        steady(*read),
        start <= s@.len(),
        depth <= 256,
    ensures
        value_result(r) == elements(
            reading(*read),
            s@,
            start as int,
            depth as int,
            Seq::empty(),
        ),
        r matches Ok((_, p)) ==> start < p <= s@.len(),
    decreases 257 - depth, 0int, s@.len() - start,
{
    let mut items: Vec<Value> = Vec::new();
    let mut pos: usize = start;
    assert(values_view(items@) =~= Seq::empty());
    loop
        invariant
            steady(*read),
            start <= pos <= s@.len(),
            depth <= 256,
            elements(reading(*read), s@, pos as int, depth as int, values_view(items@))
                == elements(reading(*read), s@, start as int, depth as int, Seq::empty()),
        decreases s@.len() - pos,
    {
        let (v, q) = match parse_value(read, s, pos, depth + 1) {
            Ok(x) => x,
            Err(m) => {
                return Err(m);
            },
        };
        let ghost seen = values_view(items@);
        let ghost vv = v@;
        items.push(v);
        assert(values_view(items@) =~= seen.push(vv));
        let q1: usize = skip_ws(s, q);
        if q1 >= s.len() {
            return Err("JSON: array was not closed".to_owned());
        }
        let c = s[q1];
        if c == ',' {
            pos = q1 + 1;
        } else if c == ']' {
            return Ok((dyn_list(items), q1 + 1));
        } else {
            let found = char_text(c);
            let head = at_position("JSON: expected ',' or ']' at position ", q1);
            let tail = join2(head.as_str(), " but found '");
            return Err(join3(tail.as_str(), found.as_str(), "'"));
        }
    }
}

/// What a text came to.
pub open spec fn parsed(r: Result<Value, String>) -> Result<ValueV, Seq<char>> {
    match r {
        Ok(v) => Ok(v@),
        Err(m) => Err(m@),
    }
}

/// Reads a JSON text as a dynamic value. Floats are read with `read`, from what the text has
/// to their spelling.
pub fn parse_to_dynamic<F: Fn(String) -> Option<String>>(text: &str, read: &F) -> (r: Result<
    Value,
    String,
>)
    requires
        steady(*read),
    ensures
        parsed(r) == json_of(reading(*read), text@),
{
    let s = chars_of(text);
    let start: usize = skip_ws(&s, 0);
    let (v, q) = match parse_value(read, &s, start, 0) {
        Ok(x) => x,
        Err(m) => {
            return Err(m);
        },
    };
    let end: usize = skip_ws(&s, q);
    if end != s.len() {
        let head = at_position("JSON: extra characters after the value (position ", end);
        return Err(join2(head.as_str(), ")"));
    }
    Ok(v)
}

// ---------------------------------------------------------------------------
// Writing
// ---------------------------------------------------------------------------

/// How a character of a string is written.
pub open spec fn escaped(c: char) -> Seq<char> {
    if c == '"' {
        seq!['\\', '"']
    } else if c == '\\' {
        seq!['\\', '\\']
    } else if c == '\n' {
        seq!['\\', 'n']
    } else if c == '\r' {
        seq!['\\', 'r']
    } else if c == '\t' {
        seq!['\\', 't']
    } else if (c as u32) < 0x20 {
        seq!['\\', 'u', '0', '0', hex_char((c as nat) / 16), hex_char((c as nat) % 16)]
    } else {
        seq![c]
    }
}

/// The characters of a string from the `i`-th on, as they are written.
pub open spec fn escaped_from(s: Seq<char>, i: int) -> Seq<char>
    decreases s.len() - i,
{
    if 0 <= i < s.len() {
        escaped(s[i]) + escaped_from(s, i + 1)
    } else {
        Seq::empty()
    }
}

/// A string as it is written.
pub open spec fn quoted(s: Seq<char>) -> Seq<char> {
    seq!['"'] + escaped_from(s, 0) + seq!['"']
}

/// A comma before all but the first of a list.
pub open spec fn comma_before(i: int) -> Seq<char> {
    if i > 0 {
        seq![',']
    } else {
        Seq::empty()
    }
}

/// How floats are written.
pub type FloatText = spec_fn(Seq<char>) -> Seq<char>;

/// How the codecs write floats.
pub open spec fn codec_floats() -> FloatText {
    |x: Seq<char>| float_text(x)
}

/// A tree as JSON text.
pub open spec fn json_text(t: Tree) -> Seq<char> {
    json_text_by(codec_floats(), t)
}

/// A tree as JSON text, in which floats are written by `float`.
pub open spec fn json_text_by(float: FloatText, t: Tree) -> Seq<char>
    decreases t, 0int,
{
    match t {
        Tree::Bool(b) => if b {
            "true"@
        } else {
            "false"@
        },
        Tree::Int(n) => int_text(n as int),
        Tree::Float(x) => float(x),
        Tree::Str(x) => quoted(x),
        Tree::List(items) => seq!['['] + items_from(float, items, 0) + seq![']'],
        Tree::Dict(branches) => seq!['{'] + branches_from(float, branches, 0) + seq!['}'],
        Tree::Odd(name) => if name == "Str"@ {
            "\"\""@
        } else if name == "List"@ {
            "[]"@
        } else if name == "Dict"@ {
            "{}"@
        } else {
            "null"@
        },
        Tree::Null => "null"@,
        Tree::NotDynamic => "null"@,
    }
}

pub open spec fn items_from(float: FloatText, items: Seq<Tree>, i: int) -> Seq<char>
    decreases items, items.len() - i,
{
    if 0 <= i < items.len() {
        comma_before(i) + json_text_by(float, items[i]) + items_from(float, items, i + 1)
    } else {
        Seq::empty()
    }
}

pub open spec fn branches_from(float: FloatText, branches: Seq<(Seq<char>, Tree)>, i: int) -> Seq<char>
    decreases branches, branches.len() - i,
{
    if 0 <= i < branches.len() {
        comma_before(i) + quoted(branches[i].0) + seq![':'] + json_text_by(float, branches[i].1)
            + branches_from(float, branches, i + 1)
    } else {
        Seq::empty()
    }
}

/// Appends a string as it is written.
pub fn write_json_string(s: &str, out: &mut String)
    ensures
        final(out)@ == old(out)@ + quoted(s@),
{
    let v = chars_of(s);
    let ghost start = out@;
    out.push('"');
    let mut i: usize = 0;
    assert(out@ + escaped_from(v@, 0) =~= start + (seq!['"'] + escaped_from(v@, 0)));
    while i < v.len()
        invariant
            i <= v@.len(),
            out@ + escaped_from(v@, i as int) == start + (seq!['"'] + escaped_from(v@, 0)),
        decreases v@.len() - i,
    {
        let c = v[i];
        let ghost before = out@;
        if c == '"' {
            out.push('\\');
            out.push('"');
        } else if c == '\\' {
            out.push('\\');
            out.push('\\');
        } else if c == '\n' {
            out.push('\\');
            out.push('n');
        } else if c == '\r' {
            out.push('\\');
            out.push('r');
        } else if c == '\t' {
            out.push('\\');
            out.push('t');
        } else if (c as u32) < 0x20 {
            let b: u8 = code_of(c) as u8;
            out.push('\\');
            out.push('u');
            out.push('0');
            out.push('0');
            out.push(hex_char_of(b / 16));
            out.push(hex_char_of(b % 16));
        } else {
            out.push(c);
        }
        assert(out@ =~= before + escaped(c));
        assert(out@ + escaped_from(v@, i + 1) =~= before + escaped_from(v@, i as int));
        i = i + 1;
    }
    assert(out@ =~= start + (seq!['"'] + escaped_from(v@, 0)));
    out.push('"');
    assert(out@ =~= start + quoted(s@));
}

fn write_items(items: &Vec<Value>, out: &mut String)
    ensures
        final(out)@ == old(out)@ + items_from(codec_floats(), trees_of(values_view(items@)), 0),
    decreases items, 0int,
{
    let ghost start = out@;
    let ghost trees = trees_of(values_view(items@));
    let mut i: usize = 0;
    while i < items.len()
        invariant
            i <= items@.len(),
            trees == trees_of(values_view(items@)),
            out@ + items_from(codec_floats(), trees, i as int) == start + items_from(codec_floats(), trees, 0),
        decreases items@.len() - i,
    {
        let ghost before = out@;
        if i > 0 {
            out.push(',');
        }
        assert(out@ =~= before + comma_before(i as int));
        proof {
            assert(decreases_to!(*items => items@));
            assert(decreases_to!(items@ => items@[i as int]));
        }
        write_value(&items[i], out);
        assert(out@ + items_from(codec_floats(), trees, i + 1) =~= before + items_from(codec_floats(), trees, i as int));
        i = i + 1;
    }
    assert(out@ =~= start + items_from(codec_floats(), trees, 0));
}

fn write_members(d: &Dict, out: &mut String)
    ensures
        final(out)@ == old(out)@ + branches_from(codec_floats(), branches_of(d@), 0),
    decreases d, 0int,
{
    let ghost start = out@;
    let ghost branches = branches_of(d@);
    let n: usize = d.len();
    let mut i: usize = 0;
    while i < n
        invariant
            n == d@.len(),
            i <= n,
            branches == branches_of(d@),
            out@ + branches_from(codec_floats(), branches, i as int) == start + branches_from(codec_floats(), branches, 0),
        decreases n - i,
    {
        let ghost before = out@;
        if i > 0 {
            out.push(',');
        }
        assert(out@ =~= before + comma_before(i as int));
        let k = d.key_at(i);
        let key = map_key_as_str(&k);
        write_json_string(key.as_str(), out);
        out.push(':');
        let v = d.value_at(i);
        write_value(v, out);
        assert(out@ + branches_from(codec_floats(), branches, i + 1) =~= before + branches_from(codec_floats(), 
            branches,
            i as int,
        ));
        i = i + 1;
    }
    assert(out@ =~= start + branches_from(codec_floats(), branches, 0));
}

fn write_value(value: &Value, out: &mut String)
    ensures
        final(out)@ == old(out)@ + json_text(tree_of(value@)),
    decreases value, 1int,
{
    let ghost start = out@;
    proof {
        lemma_tree(value@);
    }
    match dyn_parts(value) {
        Dynamic::Bool(b) => {
            out.append(
                if b {
                    "true"
                } else {
                    "false"
                },
            );
        },
        Dynamic::Int(n) => {
            let text = int_to_text(n);
            out.append(text.as_str());
        },
        Dynamic::Float(x) => {
            let text = format_float_default(x.as_str());
            out.append(text.as_str());
        },
        Dynamic::Str(x) => {
            write_json_string(x.as_str(), out);
        },
        Dynamic::List(items) => {
            out.push('[');
            write_items(items, out);
            out.push(']');
            assert(out@ =~= start + json_text(tree_of(value@)));
        },
        Dynamic::Dict(d) => {
            out.push('{');
            write_members(d, out);
            out.push('}');
            assert(out@ =~= start + json_text(tree_of(value@)));
        },
        Dynamic::Odd(name) => {
            if crate::text::same_text(name.as_str(), "Str") {
                out.append("\"\"");
            } else if crate::text::same_text(name.as_str(), "List") {
                out.append("[]");
            } else if crate::text::same_text(name.as_str(), "Dict") {
                out.append("{}");
            } else {
                out.append("null");
            }
        },
        Dynamic::Null => {
            out.append("null");
        },
        Dynamic::NotDynamic => {
            out.append("null");
        },
    }
}

/// Writes a dynamic value as JSON text.
pub fn dynamic_to_string(value: &Value) -> (r: String)
    ensures
        r@ == json_text(tree_of(value@)),
{
    let mut out = String::new();
    write_value(value, &mut out);
    assert(out@ =~= json_text(tree_of(value@)));
    out
}

} // verus!
