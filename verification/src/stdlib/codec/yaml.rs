//! YAML, a safe subset: block mappings, block sequences and scalars. Anchors, aliases, tags, flow
//! style and several documents in one text are refused.

use super::dynamic::{
    branches_of, dbool_v, ddict_v, dfloat_v, dint_v, dlist_v, dstr_v, dyn_bool, dyn_dict, dyn_float,
    dyn_int, dyn_list, dyn_null, dyn_parts, dyn_str, float_text, format_float_default, has_char,
    lemma_tree, map_key_as_str, null_v, tree_of, trees_of, Dynamic, Tree,
};
use super::escapes::{parse_escaped_string_body, string_result, unescaped};
use super::json::{parsed, value_result, Reading};
use super::toml::{head_text, pass, passed, rest_text, Within};
use crate::eval::keys::{str_key, KeyV};
use crate::eval::value::{inserted, values_view, Dict, Value, ValueV};
use crate::numerals::{
    int_of, int_of_text, is_digit, is_digit_char, read_float, reading, steady,
};
use crate::text::{
    chars_of, code_of, int_text, int_to_text, join2, lines_of, no_text, same_text, split_lines,
    starts_with, text_of, text_starts_with, texts, trim, trim_end, trim_left, trim_right,
    trim_start, trimmed,
};
use vstd::prelude::*;
use vstd::string::*;

verus! {

// ---------------------------------------------------------------------------
// Lines
// ---------------------------------------------------------------------------

/// A line that holds something: how far it is indented, and what stands there.
#[derive(Clone, Debug)]
pub struct Line {
    pub indent: u128,
    pub content: String,
}

pub ghost struct LineV {
    pub indent: int,
    pub content: Seq<char>,
}

impl Line {
    pub open spec fn view(&self) -> LineV {
        LineV { indent: self.indent as int, content: self.content@ }
    }
}

pub open spec fn lines_view(v: Seq<Line>) -> Seq<LineV> {
    Seq::new(v.len(), |i: int| v[i].view())
}

/// The bytes that a character takes in UTF-8.
pub open spec fn width(c: char) -> int {
    let u = c as u32;
    if u < 0x80 {
        1
    } else if u < 0x800 {
        2
    } else if u < 0x10000 {
        3
    } else {
        4
    }
}

/// The bytes that the first `n` characters take in UTF-8.
pub open spec fn widths(s: Seq<char>, n: int) -> int
    decreases n,
{
    if n <= 0 {
        0
    } else {
        widths(s, n - 1) + width(s[n - 1])
    }
}

/// How far a line is indented, in bytes.
pub open spec fn indent_of(s: Seq<char>) -> int {
    widths(s, s.len() - trim_left(s).len())
}

fn char_width(c: char) -> (r: u128)
    ensures
        r == width(c),
        r <= 4,
{
    let u: u32 = c as u32;
    if u < 0x80 {
        1
    } else if u < 0x800 {
        2
    } else if u < 0x10000 {
        3
    } else {
        4
    }
}

fn measure_indent(s: &str) -> (r: u128)
    ensures
        r == indent_of(s@),
        r <= 4 * usize::MAX,
{
    let v = chars_of(s);
    let len: usize = v.len();
    let n: usize = crate::text::skip_left(&v, 0, len);
    proof {
        assert(v@.subrange(0, len as int) =~= s@);
        assert(v@.subrange(n as int, len as int).len() == len - n);
    }
    let mut total: u128 = 0;
    let mut i: usize = 0;
    while i < n
        invariant
            i <= n <= v@.len(),
            total == widths(v@, i as int),
            total <= 4 * i,
        decreases n - i,
    {
        total = total + char_width(v[i]);
        i = i + 1;
    }
    total
}

/// A tab stands among the spaces and tabs that `s` starts with, from `i` on.
pub open spec fn tab_leads(s: Seq<char>, i: int) -> bool
    decreases s.len() - i,
{
    0 <= i < s.len() && (s[i] == '\t' || (s[i] == ' ' && tab_leads(s, i + 1)))
}

fn has_tab_indent(s: &str) -> (r: bool)
    ensures
        r == tab_leads(s@, 0),
{
    let v = chars_of(s);
    let mut i: usize = 0;
    while i < v.len()
        invariant
            v@ == s@,
            i <= v@.len(),
            tab_leads(v@, i as int) == tab_leads(v@, 0),
        decreases v@.len() - i,
    {
        if v[i] == '\t' {
            return true;
        }
        if v[i] != ' ' {
            return false;
        }
        i = i + 1;
    }
    false
}

/// Where the comment from `i` on starts, or the end where there is none. A comment starts a
/// line or follows white space.
pub open spec fn comment_from(s: Seq<char>, i: int, w: Within) -> int
    decreases s.len() - i,
{
    if !(0 <= i < s.len()) {
        s.len() as int
    } else if s[i] == '#' && w == Within::Nothing && (i == 0 || s[i - 1] == ' ' || s[i - 1]
        == '\t') {
        i
    } else {
        comment_from(s, i + 1, passed(s[i], w))
    }
}

/// A line without its comment.
pub open spec fn uncommented(s: Seq<char>) -> Seq<char> {
    s.take(comment_from(s, 0, Within::Nothing))
}

fn strip_comment(source: &str) -> (r: String)
    ensures
        r@ == uncommented(source@),
{
    let s = chars_of(source);
    let mut w = Within::Nothing;
    let mut i: usize = 0;
    while i < s.len()
        invariant
            s@ == source@,
            i <= s@.len(),
            comment_from(s@, i as int, w) == comment_from(s@, 0, Within::Nothing),
        decreases s@.len() - i,
    {
        let c = s[i];
        if c == '#' && w == Within::Nothing && (i == 0 || s[i - 1] == ' ' || s[i - 1] == '\t') {
            return head_text(&s, i);
        }
        w = pass(c, w);
        i = i + 1;
    }
    head_text(&s, i)
}

/// A line that parts documents.
pub open spec fn parts_documents(bare: Seq<char>) -> bool {
    bare == "---"@ || bare == "..."@ || starts_with(bare, "--- "@)
}

/// The lines that hold something, from the `i`-th on.
pub open spec fn content_from(lines: Seq<Seq<char>>, i: int, out: Seq<LineV>) -> Result<
    Seq<LineV>,
    Seq<char>,
>
    decreases lines.len() - i,
{
    if !(0 <= i < lines.len()) {
        Ok(out)
    } else {
        let line = trim_right(lines[i]);
        let content = uncommented(trim_left(line));
        if tab_leads(lines[i], 0) {
            Err("YAML: tab-character indentation is not supported"@)
        } else if parts_documents(trimmed(line)) {
            Err("YAML: multi-document input (---/...) is not supported"@)
        } else if trimmed(content).len() == 0 {
            content_from(lines, i + 1, out)
        } else {
            content_from(
                lines,
                i + 1,
                out.push(LineV { indent: indent_of(line), content: trim_right(content) }),
            )
        }
    }
}

/// Bounds the indentation of lines, inside `depth` containers.
pub open spec fn indents_fit(lines: Seq<LineV>, depth: int) -> bool {
    forall|i: int|
        0 <= i < lines.len() ==> (#[trigger] lines[i]).indent <= 0x8_0000_0000_0000_0000 + 2
            * depth
}

fn preprocess(text: &str) -> (r: Result<Vec<Line>, String>)
    ensures
        match r {
            Ok(v) => content_from(lines_of(text@), 0, Seq::empty()) == Ok::<
                Seq<LineV>,
                Seq<char>,
            >(lines_view(v@)) && indents_fit(lines_view(v@), 0),
            Err(m) => content_from(lines_of(text@), 0, Seq::empty()) == Err::<
                Seq<LineV>,
                Seq<char>,
            >(m@),
        },
{
    let lines = split_lines(text);
    let ghost ls = texts(lines@);
    let mut out: Vec<Line> = Vec::new();
    let mut i: usize = 0;
    assert(lines_view(out@) =~= Seq::empty());
    while i < lines.len()
        invariant
            ls == texts(lines@),
            ls == lines_of(text@),
            i <= lines@.len(),
            indents_fit(lines_view(out@), 0),
            content_from(ls, i as int, lines_view(out@)) == content_from(ls, 0, Seq::empty()),
        decreases lines@.len() - i,
    {
        assert(ls[i as int] == lines@[i as int]@);
        let raw = lines[i].as_str();
        if has_tab_indent(raw) {
            return Err("YAML: tab-character indentation is not supported".to_owned());
        }
        let line = trim_end(raw);
        let bare = trim(line.as_str());
        if same_text(bare.as_str(), "---") || same_text(bare.as_str(), "...") || text_starts_with(
            bare.as_str(),
            "--- ",
        ) {
            return Err("YAML: multi-document input (---/...) is not supported".to_owned());
        }
        let started = trim_start(line.as_str());
        let content = strip_comment(started.as_str());
        let held = trim(content.as_str());
        if !no_text(held.as_str()) {
            let ghost seen = lines_view(out@);
            let item = Line {
                indent: measure_indent(line.as_str()),
                content: trim_end(content.as_str()),
            };
            out.push(item);
            assert(lines_view(out@) =~= seen.push(item@));
        }
        i = i + 1;
    }
    Ok(out)
}

// ---------------------------------------------------------------------------
// Scalars
// ---------------------------------------------------------------------------

/// A character in lower case, where it is a letter of ASCII.
pub open spec fn ascii_lower(c: char) -> char {
    if 'A' <= c <= 'Z' {
        ((c as u32) + 32) as char
    } else {
        c
    }
}

/// `s` is `word`, but for the case of letters of ASCII. `word` has none in upper case.
pub open spec fn same_word(s: Seq<char>, word: Seq<char>) -> bool {
    s.len() == word.len() && forall|i: int|
        0 <= i < s.len() ==> ascii_lower(#[trigger] s[i]) == word[i]
}

fn lower_char(c: char) -> (r: char)
    ensures
        r == ascii_lower(c),
{
    if 'A' <= c && c <= 'Z' {
        let b: u8 = code_of(c) as u8 + 32;
        b as char
    } else {
        c
    }
}

fn is_word(s: &str, word: &str) -> (r: bool)
    ensures
        r == same_word(s@, word@),
{
    let v = chars_of(s);
    let w = chars_of(word);
    if v.len() != w.len() {
        return false;
    }
    let mut i: usize = 0;
    while i < v.len()
        invariant
            v@ == s@,
            w@ == word@,
            v@.len() == w@.len(),
            i <= v@.len(),
            forall|j: int| 0 <= j < i ==> ascii_lower(#[trigger] v@[j]) == w@[j],
        decreases v@.len() - i,
    {
        if lower_char(v[i]) != w[i] {
            assert(ascii_lower(v@[i as int]) != w@[i as int]);
            return false;
        }
        i = i + 1;
    }
    true
}

/// A line or a part of it that is written in flow style.
pub open spec fn flows(s: Seq<char>) -> bool {
    s.len() > 0 && (s[0] == '{' || s[0] == '[')
}

fn starts_with_flow_collection(v: &Vec<char>) -> (r: bool)
    ensures
        r == flows(v@),
{
    v.len() > 0 && (v[0] == '{' || v[0] == '[')
}

/// Where the first colon stands, from `i` on, that parts a key from its value: outside quotes,
/// and at the end or before white space.
pub open spec fn colon_from(s: Seq<char>, i: int, w: Within) -> Option<int>
    decreases s.len() - i,
{
    if !(0 <= i < s.len()) {
        None
    } else if s[i] == ':' && w == Within::Nothing && (i + 1 >= s.len() || s[i + 1] == ' ' || s[i
        + 1] == '\t') {
        Some(i)
    } else {
        colon_from(s, i + 1, passed(s[i], w))
    }
}

pub open spec fn colon_of(s: Seq<char>) -> Option<int> {
    colon_from(s, 0, Within::Nothing)
}

fn find_top_level_colon(s: &Vec<char>) -> (r: Option<usize>)
    ensures
        match r {
            Some(i) => colon_of(s@) == Some(i as int) && i < s@.len(),
            None => colon_of(s@) is None,
        },
{
    let len: usize = s.len();
    let mut w = Within::Nothing;
    let mut i: usize = 0;
    while i < len
        invariant
            len == s@.len(),
            i <= len,
            colon_from(s@, i as int, w) == colon_of(s@),
        decreases len - i,
    {
        if s[i] == ':' && w == Within::Nothing && (i + 1 >= len || s[i + 1] == ' ' || s[i + 1]
            == '\t') {
            return Some(i);
        }
        w = pass(s[i], w);
        i = i + 1;
    }
    None
}

/// The string in double quotes whose opening quote stands before `i`, up to its closing quote.
pub open spec fn double_from(s: Seq<char>, i: int, escaped: bool) -> Result<Seq<char>, Seq<char>>
    decreases s.len() - i,
{
    if !(0 <= i < s.len()) {
        Err("YAML: double-quoted string was not closed"@)
    } else if s[i] == '"' && !escaped {
        if trimmed(s.skip(i + 1)).len() > 0 {
            Err("YAML: trailing content after quoted scalar"@)
        } else {
            unescaped("YAML"@, s.take(i))
        }
    } else {
        double_from(s, i + 1, s[i] == '\\' && !escaped)
    }
}

fn parse_double_quoted(s: &Vec<char>) -> (r: Result<String, String>)
    ensures
        string_result(r) == double_from(s@, 0, false),
{
    let mut escaped = false;
    let mut i: usize = 0;
    while i < s.len()
        invariant
            i <= s@.len(),
            double_from(s@, i as int, escaped) == double_from(s@, 0, false),
        decreases s@.len() - i,
    {
        if s[i] == '"' && !escaped {
            let rest = rest_text(s, i + 1);
            let bare = trim(rest.as_str());
            if !no_text(bare.as_str()) {
                return Err("YAML: trailing content after quoted scalar".to_owned());
            }
            let inner = head_text(s, i);
            let body = chars_of(inner.as_str());
            return parse_escaped_string_body("YAML", &body);
        }
        escaped = s[i] == '\\' && !escaped;
        i = i + 1;
    }
    Err("YAML: double-quoted string was not closed".to_owned())
}

/// Where the last single quote stands before `n`.
pub open spec fn last_quote(s: Seq<char>, n: int) -> Option<int>
    decreases n,
{
    if n <= 0 {
        None
    } else if s[n - 1] == '\'' {
        Some(n - 1)
    } else {
        last_quote(s, n - 1)
    }
}

/// A text with its doubled single quotes made single, from `i` on.
pub open spec fn undoubled_from(s: Seq<char>, i: int) -> Seq<char>
    decreases s.len() - i,
{
    if !(0 <= i < s.len()) {
        Seq::empty()
    } else if s[i] == '\'' && i + 1 < s.len() && s[i + 1] == '\'' {
        seq!['\''] + undoubled_from(s, i + 2)
    } else {
        seq![s[i]] + undoubled_from(s, i + 1)
    }
}

/// The string in single quotes that follows an opening quote.
pub open spec fn single_of(s: Seq<char>) -> Result<Seq<char>, Seq<char>> {
    match last_quote(s, s.len() as int) {
        None => Err("YAML: single-quoted string was not closed"@),
        Some(end) => if trimmed(s.skip(end + 1)).len() > 0 {
            Err("YAML: trailing content after quoted scalar"@)
        } else {
            Ok(undoubled_from(s.take(end), 0))
        },
    }
}

fn undouble(s: &Vec<char>, end: usize) -> (r: String)
    requires
        end <= s@.len(),
    ensures
        r@ == undoubled_from(s@.take(end as int), 0),
{
    let ghost t = s@.take(end as int);
    let mut out = String::new();
    let mut i: usize = 0;
    assert(out@ + undoubled_from(t, 0) =~= undoubled_from(t, 0));
    while i < end
        invariant
            end <= s@.len(),
            t == s@.take(end as int),
            i <= end,
            out@ + undoubled_from(t, i as int) == undoubled_from(t, 0),
        decreases end - i,
    {
        let ghost before = out@;
        out.push(s[i]);
        if s[i] == '\'' && i + 1 < end && s[i + 1] == '\'' {
            assert(out@ + undoubled_from(t, i + 2) =~= before + undoubled_from(t, i as int));
            i = i + 2;
        } else {
            assert(out@ + undoubled_from(t, i + 1) =~= before + undoubled_from(t, i as int));
            i = i + 1;
        }
    }
    assert(out@ =~= undoubled_from(t, 0));
    out
}

fn parse_single_quoted(s: &Vec<char>) -> (r: Result<String, String>)
    ensures
        string_result(r) == single_of(s@),
{
    let mut n: usize = s.len();
    while n > 0 && s[n - 1] != '\''
        invariant
            n <= s@.len(),
            last_quote(s@, n as int) == last_quote(s@, s@.len() as int),
        decreases n,
    {
        n = n - 1;
    }
    if n == 0 {
        return Err("YAML: single-quoted string was not closed".to_owned());
    }
    let rest = rest_text(s, n);
    let bare = trim(rest.as_str());
    if !no_text(bare.as_str()) {
        return Err("YAML: trailing content after quoted scalar".to_owned());
    }
    Ok(undouble(s, n - 1))
}

/// Anchors, aliases, tags and flow style, none of which is supported, by the first character.
pub open spec fn unsupported(c: char) -> Option<Seq<char>> {
    if c == '&' || c == '*' {
        Some("YAML: anchors/aliases are not supported"@)
    } else if c == '!' {
        Some("YAML: tags are not supported"@)
    } else if c == '{' || c == '[' {
        Some("YAML: flow style is not supported"@)
    } else {
        None
    }
}

fn find_unsupported(c: char) -> (r: Option<String>)
    ensures
        match r {
            Some(m) => unsupported(c) == Some(m@),
            None => unsupported(c) is None,
        },
{
    if c == '&' || c == '*' {
        return Some("YAML: anchors/aliases are not supported".to_owned());
    }
    if c == '!' {
        return Some("YAML: tags are not supported".to_owned());
    }
    if c == '{' || c == '[' {
        return Some("YAML: flow style is not supported".to_owned());
    }
    None
}

/// A key, without the quotes around it.
pub open spec fn plain_or_unquoted(s: Seq<char>) -> Result<Seq<char>, Seq<char>> {
    if s.len() > 0 && unsupported(s[0]) is Some {
        Err(unsupported(s[0]).unwrap())
    } else if s.len() > 0 && s[0] == '"' {
        double_from(s.drop_first(), 0, false)
    } else if s.len() > 0 && s[0] == '\'' {
        single_of(s.drop_first())
    } else {
        Ok(s)
    }
}

fn without_first(v: &Vec<char>) -> (r: Vec<char>)
    requires
        v@.len() > 0,
    ensures
        r@ == v@.drop_first(),
{
    let text = rest_text(v, 1);
    let r = chars_of(text.as_str());
    assert(r@ =~= v@.drop_first());
    r
}

fn unquote_or_plain(s: &str) -> (r: Result<String, String>)
    ensures
        string_result(r) == plain_or_unquoted(s@),
{
    let v = chars_of(s);
    if v.len() > 0 {
        if let Some(m) = find_unsupported(v[0]) {
            return Err(m);
        }
    }
    if v.len() > 0 && v[0] == '"' {
        let rest = without_first(&v);
        return parse_double_quoted(&rest);
    }
    if v.len() > 0 && v[0] == '\'' {
        let rest = without_first(&v);
        return parse_single_quoted(&rest);
    }
    Ok(s.to_owned())
}

/// The characters of decimal numbers with a fraction or an exponent.
pub open spec fn float_char(c: char) -> bool {
    is_digit(c) || float_mark(c)
}

pub open spec fn float_mark(c: char) -> bool {
    c == '.' || c == 'e' || c == 'E' || c == '+' || c == '-'
}

/// A text made of digits and of marks of floats, with at least one of each.
pub open spec fn float_like(s: Seq<char>) -> bool {
    &&& forall|i: int| 0 <= i < s.len() ==> float_char(#[trigger] s[i])
    &&& exists|i: int| 0 <= i < s.len() && is_digit(#[trigger] s[i])
    &&& exists|i: int| 0 <= i < s.len() && float_mark(#[trigger] s[i])
}

fn looks_like_float(s: &str) -> (r: bool)
    ensures
        r == float_like(s@),
{
    let v = chars_of(s);
    let mut has_digit = false;
    let mut has_mark = false;
    let mut i: usize = 0;
    while i < v.len()
        invariant
            v@ == s@,
            i <= v@.len(),
            forall|j: int| 0 <= j < i ==> float_char(#[trigger] v@[j]),
            has_digit == exists|j: int| 0 <= j < i && is_digit(#[trigger] v@[j]),
            has_mark == exists|j: int| 0 <= j < i && float_mark(#[trigger] v@[j]),
        decreases v@.len() - i,
    {
        let c = v[i];
        if is_digit_char(c) {
            has_digit = true;
            assert(is_digit(v@[i as int]));
        } else if c == '.' || c == 'e' || c == 'E' || c == '+' || c == '-' {
            has_mark = true;
            assert(float_mark(v@[i as int]));
        } else {
            assert(!float_char(v@[i as int]));
            return false;
        }
        i = i + 1;
    }
    has_digit && has_mark
}

pub open spec fn str_or(r: Result<Seq<char>, Seq<char>>) -> Result<ValueV, Seq<char>> {
    match r {
        Ok(t) => Ok(dstr_v(t)),
        Err(m) => Err(m),
    }
}

/// The value that a scalar writes.
pub open spec fn scalar_of(read: Reading, text: Seq<char>) -> Result<ValueV, Seq<char>> {
    let s = trimmed(text);
    if s.len() == 0 || s == "~"@ || same_word(s, "null"@) {
        Ok(null_v())
    } else if unsupported(s[0]) is Some {
        Err(unsupported(s[0]).unwrap())
    } else if same_word(s, "true"@) {
        Ok(dbool_v(true))
    } else if same_word(s, "false"@) {
        Ok(dbool_v(false))
    } else if s[0] == '"' {
        str_or(double_from(s.drop_first(), 0, false))
    } else if s[0] == '\'' {
        str_or(single_of(s.drop_first()))
    } else {
        match int_of(s) {
            Some(n) => Ok(dint_v(n)),
            None => if float_like(s) {
                match read(s) {
                    Some(x) => Ok(dfloat_v(x)),
                    None => Ok(dstr_v(s)),
                }
            } else {
                Ok(dstr_v(s))
            },
        }
    }
}

fn parse_scalar<F: Fn(String) -> Option<String>>(read: &F, text: &str) -> (r: Result<
    Value,
    String,
>)
    requires
        steady(*read),
    ensures
        parsed(r) == scalar_of(reading(*read), text@),
{
    let s = trim(text);
    let v = chars_of(s.as_str());
    if v.len() == 0 || same_text(s.as_str(), "~") || is_word(s.as_str(), "null") {
        return Ok(dyn_null());
    }
    let c = v[0];
    if let Some(m) = find_unsupported(c) {
        return Err(m);
    }
    if is_word(s.as_str(), "true") {
        return Ok(dyn_bool(true));
    }
    if is_word(s.as_str(), "false") {
        return Ok(dyn_bool(false));
    }
    if c == '"' {
        let rest = without_first(&v);
        return match parse_double_quoted(&rest) {
            Ok(t) => Ok(dyn_str(t)),
            Err(m) => Err(m),
        };
    }
    if c == '\'' {
        let rest = without_first(&v);
        return match parse_single_quoted(&rest) {
            Ok(t) => Ok(dyn_str(t)),
            Err(m) => Err(m),
        };
    }
    match int_of_text(s.as_str()) {
        Some(n) => {
            return Ok(dyn_int(n));
        },
        None => {},
    }
    if looks_like_float(s.as_str()) {
        let again = text_of(&v);
        match read_float(read, again) {
            Some(x) => {
                return Ok(dyn_float(x));
            },
            None => {},
        }
    }
    Ok(dyn_str(s))
}

// ---------------------------------------------------------------------------
// Blocks
// ---------------------------------------------------------------------------

pub open spec fn is_item(content: Seq<char>) -> bool {
    content == "-"@ || starts_with(content, "- "@)
}

/// What stands in a line behind the dash.
pub open spec fn behind_dash(content: Seq<char>) -> Seq<char> {
    if content == "-"@ {
        Seq::empty()
    } else {
        trimmed(content.skip(2))
    }
}

/// A line that starts a mapping.
pub open spec fn is_pair(content: Seq<char>) -> bool {
    !flows(content) && colon_of(content) is Some
}

/// The block that starts at a line, inside `depth` containers.
pub open spec fn block(
    read: Reading,
    lines: Seq<LineV>,
    start: int,
    indent: int,
    depth: int,
) -> Result<(ValueV, int), Seq<char>>
    decreases 300 - depth, 2int, 0int,
{
    if depth > 256 {
        Err("YAML: nesting depth exceeds 256"@)
    } else if !(0 <= start < lines.len()) || lines[start].indent != indent {
        Err("YAML: block is empty or has invalid indentation"@)
    } else {
        let content = lines[start].content;
        if is_item(content) {
            sequence(read, lines, start, indent, depth, Seq::empty())
        } else if is_pair(content) {
            mapping(read, lines, start, indent, depth, Seq::empty())
        } else {
            match scalar_of(read, content) {
                Ok(v) => Ok((v, start + 1)),
                Err(m) => Err(m),
            }
        }
    }
}

/// What a line holds behind its key or its dash: a nested block where there is nothing in the
/// line itself and the next line is indented further, and nothing otherwise.
pub open spec fn nested(
    read: Reading,
    lines: Seq<LineV>,
    i: int,
    indent: int,
    depth: int,
) -> Result<(ValueV, int), Seq<char>>
    decreases 300 - depth, 0int, 0int,
    when depth <= 258
{
    if i + 1 < lines.len() && lines[i + 1].indent > indent {
        block(read, lines, i + 1, lines[i + 1].indent, depth + 1)
    } else {
        Ok((null_v(), i + 1))
    }
}

/// The rest of a mapping from the `i`-th line on.
pub open spec fn mapping(
    read: Reading,
    lines: Seq<LineV>,
    i: int,
    indent: int,
    depth: int,
    entries: Seq<(KeyV, ValueV)>,
) -> Result<(ValueV, int), Seq<char>>
    decreases 300 - depth, 1int, lines.len() - i,
    when depth <= 258
{
    if !(0 <= i < lines.len()) || lines[i].indent != indent || colon_of(
        lines[i].content,
    ) is None {
        Ok((ddict_v(entries), i))
    } else {
        let content = lines[i].content;
        let colon = colon_of(content).unwrap();
        let rest = trimmed(content.skip(colon + 1));
        match plain_or_unquoted(trimmed(content.take(colon))) {
            Err(m) => Err(m),
            Ok(key) => {
                let held = if rest.len() == 0 {
                    nested(read, lines, i, indent, depth)
                } else {
                    match scalar_of(read, rest) {
                        Ok(v) => Ok((v, i + 1)),
                        Err(m) => Err(m),
                    }
                };
                match held {
                    Err(m) => Err(m),
                    Ok((v, next)) => if i < next <= lines.len() {
                        mapping(
                            read,
                            lines,
                            next,
                            indent,
                            depth,
                            inserted(entries, KeyV::Str(key), v),
                        )
                    } else {
                        Err(Seq::empty())
                    },
                }
            },
        }
    }
}

/// The rest of a sequence from the `i`-th line on.
pub open spec fn sequence(
    read: Reading,
    lines: Seq<LineV>,
    i: int,
    indent: int,
    depth: int,
    items: Seq<ValueV>,
) -> Result<(ValueV, int), Seq<char>>
    decreases 300 - depth, 1int, lines.len() - i,
    when depth <= 257
{
    if !(0 <= i < lines.len()) || lines[i].indent != indent || !is_item(lines[i].content) {
        Ok((dlist_v(items), i))
    } else {
        let rest = behind_dash(lines[i].content);
        let held = if rest.len() == 0 {
            nested(read, lines, i, indent, depth)
        } else if is_pair(rest) {
            pair_item(read, lines, i, indent, rest, depth + 1)
        } else {
            match scalar_of(read, rest) {
                Ok(v) => Ok((v, i + 1)),
                Err(m) => Err(m),
            }
        };
        match held {
            Err(m) => Err(m),
            Ok((v, next)) => if i < next <= lines.len() {
                sequence(read, lines, next, indent, depth, items.push(v))
            } else {
                Err(Seq::empty())
            },
        }
    }
}

/// The lines from the `j`-th on that are indented by at least `indent`.
pub open spec fn deeper_from(lines: Seq<LineV>, j: int, indent: int) -> Seq<LineV>
    decreases lines.len() - j,
{
    if 0 <= j < lines.len() && lines[j].indent >= indent {
        seq![lines[j]] + deeper_from(lines, j + 1, indent)
    } else {
        Seq::empty()
    }
}

/// The mapping that an item of a sequence holds, whose first pair stands behind the dash: it is
/// read as if that pair stood in a line of its own, indented by two more.
pub open spec fn pair_item(
    read: Reading,
    lines: Seq<LineV>,
    i: int,
    seq_indent: int,
    first: Seq<char>,
    depth: int,
) -> Result<(ValueV, int), Seq<char>>
    decreases 300 - depth, 2int, 0int,
    when depth <= 258
{
    let inner = seq![LineV { indent: seq_indent + 2, content: first }] + deeper_from(
        lines,
        i + 1,
        seq_indent + 2,
    );
    match mapping(read, inner, 0, seq_indent + 2, depth, Seq::empty()) {
        Ok((v, used)) => Ok((v, i + used)),
        Err(m) => Err(m),
    }
}

/// What a YAML text stands for.
pub open spec fn yaml_of(read: Reading, s: Seq<char>) -> Result<ValueV, Seq<char>> {
    match content_from(lines_of(s), 0, Seq::empty()) {
        Err(m) => Err(m),
        Ok(lines) => if lines.len() == 0 {
            Ok(null_v())
        } else {
            match block(read, lines, 0, lines[0].indent, 0) {
                Err(m) => Err(m),
                Ok((v, next)) => if next != lines.len() {
                    Err("YAML: invalid indentation structure"@)
                } else {
                    Ok(v)
                },
            }
        },
    }
}

fn line_is_item(content: &str) -> (r: bool)
    ensures
        r == is_item(content@),
{
    same_text(content, "-") || text_starts_with(content, "- ")
}

fn line_is_pair(v: &Vec<char>) -> (r: bool)
    ensures
        r == is_pair(v@),
{
    if starts_with_flow_collection(v) {
        return false;
    }
    match find_top_level_colon(v) {
        Some(_) => true,
        None => false,
    }
}

fn parse_block<F: Fn(String) -> Option<String>>(
    read: &F,
    lines: &Vec<Line>,
    start: usize,
    indent: u128,
    depth: usize,
) -> (r: Result<(Value, usize), String>)
    requires
        steady(*read),
        depth <= 259,
        indents_fit(lines_view(lines@), depth as int),
        indent <= 0x8_0000_0000_0000_0000 + 2 * depth,
    ensures
        value_result(r) == block(
            reading(*read),
            lines_view(lines@),
            start as int,
            indent as int,
            depth as int,
        ),
        r matches Ok((_, p)) ==> start < p <= lines@.len(),
    decreases 300 - depth, 2int, 0int,
{
    if depth > 256 {
        return Err("YAML: nesting depth exceeds 256".to_owned());
    }
    if start >= lines.len() || lines[start].indent != indent {
        return Err("YAML: block is empty or has invalid indentation".to_owned());
    }
    assert(lines_view(lines@)[start as int] == lines@[start as int]@);
    let content = lines[start].content.as_str();
    if line_is_item(content) {
        let out = parse_sequence(read, lines, start, indent, depth);
        return out;
    }
    let v = chars_of(content);
    if line_is_pair(&v) {
        let out = parse_mapping(read, lines, start, indent, depth);
        return out;
    }
    match parse_scalar(read, content) {
        Ok(x) => Ok((x, start + 1)),
        Err(m) => Err(m),
    }
}

fn parse_nested<F: Fn(String) -> Option<String>>(
    read: &F,
    lines: &Vec<Line>,
    i: usize,
    indent: u128,
    depth: usize,
) -> (r: Result<(Value, usize), String>)
    requires
        steady(*read),
        depth <= 258,
        i < lines@.len(),
        indents_fit(lines_view(lines@), depth as int),
    ensures
        value_result(r) == nested(
            reading(*read),
            lines_view(lines@),
            i as int,
            indent as int,
            depth as int,
        ),
        r matches Ok((_, p)) ==> i < p <= lines@.len(),
    decreases 300 - depth, 0int, 0int,
{
    let len: usize = lines.len();
    if i + 1 < len && lines[i + 1].indent > indent {
        assert(lines_view(lines@)[i + 1] == lines@[i + 1]@);
        return parse_block(read, lines, i + 1, lines[i + 1].indent, depth + 1);
    }
    Ok((dyn_null(), i + 1))
}

fn parse_mapping<F: Fn(String) -> Option<String>>(
    read: &F,
    lines: &Vec<Line>,
    start: usize,
    indent: u128,
    depth: usize,
) -> (r: Result<(Value, usize), String>)
    requires
        steady(*read),
        depth <= 258,
        start < lines@.len(),
        lines@[start as int].indent == indent,
        colon_of(lines@[start as int].content@) is Some,
        indents_fit(lines_view(lines@), depth as int),
        indent <= 0x8_0000_0000_0000_0000 + 2 * depth,
    ensures
        value_result(r) == mapping(
            reading(*read),
            lines_view(lines@),
            start as int,
            indent as int,
            depth as int,
            Seq::empty(),
        ),
        r matches Ok((_, p)) ==> start < p <= lines@.len(),
    decreases 300 - depth, 1int, 0int,
{
    let ghost ls = lines_view(lines@);
    let len: usize = lines.len();
    let mut map = Dict::new();
    let mut i: usize = start;
    while i < len
        invariant
            steady(*read),
            depth <= 258,
            len == lines@.len(),
            ls == lines_view(lines@),
            indents_fit(ls, depth as int),
            start <= i <= len,
            i == start ==> start < len && lines@[start as int].indent == indent && colon_of(
                lines@[start as int].content@,
            ) is Some,
            mapping(reading(*read), ls, i as int, indent as int, depth as int, map@) == mapping(
                reading(*read),
                ls,
                start as int,
                indent as int,
                depth as int,
                Seq::empty(),
            ),
        decreases len - i,
    {
        assert(ls[i as int] == lines@[i as int]@);
        if lines[i].indent != indent {
            return Ok((dyn_dict(map), i));
        }
        let content = chars_of(lines[i].content.as_str());
        let _width: usize = content.len();
        let colon: usize = match find_top_level_colon(&content) {
            Some(at) => at,
            None => {
                return Ok((dyn_dict(map), i));
            },
        };
        let head = head_text(&content, colon);
        let name = trim(head.as_str());
        let key = match unquote_or_plain(name.as_str()) {
            Ok(k) => str_key(k),
            Err(m) => {
                return Err(m);
            },
        };
        let tail = rest_text(&content, colon + 1);
        let rest = trim(tail.as_str());
        if no_text(rest.as_str()) {
            match parse_nested(read, lines, i, indent, depth) {
                Ok((v, next)) => {
                    let _old = map.insert(key, v);
                    i = next;
                },
                Err(m) => {
                    return Err(m);
                },
            }
        } else {
            match parse_scalar(read, rest.as_str()) {
                Ok(v) => {
                    let _old = map.insert(key, v);
                    i = i + 1;
                },
                Err(m) => {
                    return Err(m);
                },
            }
        }
    }
    Ok((dyn_dict(map), i))
}

fn parse_sequence<F: Fn(String) -> Option<String>>(
    read: &F,
    lines: &Vec<Line>,
    start: usize,
    indent: u128,
    depth: usize,
) -> (r: Result<(Value, usize), String>)
    requires
        steady(*read),
        depth <= 256,
        start < lines@.len(),
        lines@[start as int].indent == indent,
        is_item(lines@[start as int].content@),
        indents_fit(lines_view(lines@), depth as int),
        indent <= 0x8_0000_0000_0000_0000 + 2 * depth,
    ensures
        value_result(r) == sequence(
            reading(*read),
            lines_view(lines@),
            start as int,
            indent as int,
            depth as int,
            Seq::empty(),
        ),
        r matches Ok((_, p)) ==> start < p <= lines@.len(),
    decreases 300 - depth, 1int, 0int,
{
    let ghost ls = lines_view(lines@);
    let len: usize = lines.len();
    let mut items: Vec<Value> = Vec::new();
    let mut i: usize = start;
    assert(values_view(items@) =~= Seq::empty());
    while i < len
        invariant
            steady(*read),
            depth <= 256,
            len == lines@.len(),
            ls == lines_view(lines@),
            indents_fit(ls, depth as int),
            indent <= 0x8_0000_0000_0000_0000 + 2 * depth,
            start <= i <= len,
            i == start ==> start < len && lines@[start as int].indent == indent && is_item(
                lines@[start as int].content@,
            ),
            sequence(
                reading(*read),
                ls,
                i as int,
                indent as int,
                depth as int,
                values_view(items@),
            ) == sequence(
                reading(*read),
                ls,
                start as int,
                indent as int,
                depth as int,
                Seq::empty(),
            ),
        decreases len - i,
    {
        assert(ls[i as int] == lines@[i as int]@);
        let content = lines[i].content.as_str();
        if lines[i].indent != indent || !line_is_item(content) {
            return Ok((dyn_list(items), i));
        }
        let rest = dash_rest(content);
        let r = chars_of(rest.as_str());
        let ghost seen = values_view(items@);
        let held = if r.len() == 0 {
            parse_nested(read, lines, i, indent, depth)
        } else if line_is_pair(&r) {
            parse_inline_mapping_item(read, lines, i, indent, rest, depth + 1)
        } else {
            match parse_scalar(read, rest.as_str()) {
                Ok(v) => Ok((v, i + 1)),
                Err(m) => Err(m),
            }
        };
        match held {
            Ok((v, next)) => {
                let ghost vv = v@;
                items.push(v);
                assert(values_view(items@) =~= seen.push(vv));
                i = next;
            },
            Err(m) => {
                return Err(m);
            },
        }
    }
    Ok((dyn_list(items), i))
}

fn dash_rest(content: &str) -> (r: String)
    requires
        is_item(content@),
    ensures
        r@ == behind_dash(content@),
{
    if same_text(content, "-") {
        let r = String::new();
        assert(r@ =~= Seq::empty());
        return r;
    }
    proof {
        reveal_strlit("- ");
    }
    let v = chars_of(content);
    let rest = rest_text(&v, 2);
    trim(rest.as_str())
}

fn parse_inline_mapping_item<F: Fn(String) -> Option<String>>(
    read: &F,
    lines: &Vec<Line>,
    i: usize,
    seq_indent: u128,
    first: String,
    depth: usize,
) -> (r: Result<(Value, usize), String>)
    requires
        steady(*read),
        1 <= depth <= 257,
        i < lines@.len(),
        is_pair(first@),
        indents_fit(lines_view(lines@), depth - 1),
        seq_indent <= 0x8_0000_0000_0000_0000 + 2 * (depth - 1),
    ensures
        value_result(r) == pair_item(
            reading(*read),
            lines_view(lines@),
            i as int,
            seq_indent as int,
            first@,
            depth as int,
        ),
        r matches Ok((_, p)) ==> i < p <= lines@.len(),
    decreases 300 - depth, 2int, 0int,
{
    let ghost ls = lines_view(lines@);
    let len: usize = lines.len();
    let inner_indent: u128 = seq_indent + 2;
    let mut inner: Vec<Line> = Vec::new();
    let ghost head = seq![LineV { indent: inner_indent as int, content: first@ }];
    inner.push(Line { indent: inner_indent, content: first });
    assert(lines_view(inner@) =~= head);
    let mut j: usize = i + 1;
    let ghost all = head + deeper_from(ls, i + 1, inner_indent as int);
    while j < len && lines[j].indent >= inner_indent
        invariant
            len == lines@.len(),
            ls == lines_view(lines@),
            indents_fit(ls, depth - 1),
            indents_fit(lines_view(inner@), depth as int),
            i < j <= len,
            inner@.len() == j - i,
            inner@[0]@ == head[0],
            head.len() == 1,
            lines_view(inner@) + deeper_from(ls, j as int, inner_indent as int) == all,
        decreases len - j,
    {
        let ghost seen = lines_view(inner@);
        assert(ls[j as int] == lines@[j as int]@);
        let copy = Line { indent: lines[j].indent, content: lines[j].content.clone() };
        inner.push(copy);
        assert(lines_view(inner@) =~= seen.push(ls[j as int]));
        assert(lines_view(inner@) + deeper_from(ls, j + 1, inner_indent as int) =~= seen
            + deeper_from(ls, j as int, inner_indent as int));
        j = j + 1;
    }
    proof {
        if j < len {
            assert(ls[j as int] == lines@[j as int]@);
        }
        assert(lines_view(inner@) + deeper_from(ls, j as int, inner_indent as int)
            =~= lines_view(inner@));
    }
    match parse_mapping(read, &inner, 0, inner_indent, depth) {
        Ok((v, used)) => Ok((v, i + used)),
        Err(m) => Err(m),
    }
}

/// Reads a YAML text as a dynamic value. Floats are read with `read`, from what the text has to
/// their spelling.
pub fn parse_to_dynamic<F: Fn(String) -> Option<String>>(text: &str, read: &F) -> (r: Result<
    Value,
    String,
>)
    requires
        steady(*read),
    ensures
        parsed(r) == yaml_of(reading(*read), text@),
{
    let lines = match preprocess(text) {
        Ok(lines) => lines,
        Err(m) => {
            return Err(m);
        },
    };
    if lines.len() == 0 {
        return Ok(dyn_null());
    }
    assert(lines_view(lines@)[0] == lines@[0]@);
    match parse_block(read, &lines, 0, lines[0].indent, 0) {
        Ok((v, next)) => {
            if next != lines.len() {
                Err("YAML: invalid indentation structure".to_owned())
            } else {
                Ok(v)
            }
        },
        Err(m) => Err(m),
    }
}

// ---------------------------------------------------------------------------
// Writing
// ---------------------------------------------------------------------------

/// A key that needs no quotes.
pub open spec fn plain_key(s: Seq<char>) -> bool {
    &&& s.len() > 0
    &&& trimmed(s) == s
    &&& s[0] != '-' && s[0] != '?' && s[0] != ':' && s[0] != '#'
    &&& !s.contains(':') && !s.contains('#') && !s.contains('\n') && !s.contains('\r')
}

/// A text with its backslashes and double quotes escaped, and its line feeds too where `lines`
/// is set, from `i` on.
pub open spec fn guarded_from(s: Seq<char>, i: int, lines: bool) -> Seq<char>
    decreases s.len() - i,
{
    if !(0 <= i < s.len()) {
        Seq::empty()
    } else {
        guarded(s[i], lines) + guarded_from(s, i + 1, lines)
    }
}

pub open spec fn guarded(c: char, lines: bool) -> Seq<char> {
    if c == '\\' {
        seq!['\\', '\\']
    } else if c == '"' {
        seq!['\\', '"']
    } else if c == '\n' && lines {
        seq!['\\', 'n']
    } else {
        seq![c]
    }
}

pub open spec fn in_quotes(s: Seq<char>, lines: bool) -> Seq<char> {
    seq!['"'] + guarded_from(s, 0, lines) + seq!['"']
}

pub open spec fn written_key(s: Seq<char>) -> Seq<char> {
    if plain_key(s) {
        s
    } else {
        in_quotes(s, false)
    }
}

fn quote(s: &str, lines: bool) -> (r: String)
    ensures
        r@ == in_quotes(s@, lines),
{
    let v = chars_of(s);
    let mut out = String::new();
    out.push('"');
    let mut i: usize = 0;
    assert(out@ + guarded_from(v@, 0, lines) =~= seq!['"'] + guarded_from(v@, 0, lines));
    while i < v.len()
        invariant
            i <= v@.len(),
            out@ + guarded_from(v@, i as int, lines) == seq!['"'] + guarded_from(v@, 0, lines),
        decreases v@.len() - i,
    {
        let ghost before = out@;
        let c = v[i];
        if c == '\\' {
            out.push('\\');
            out.push('\\');
        } else if c == '"' {
            out.push('\\');
            out.push('"');
        } else if c == '\n' && lines {
            out.push('\\');
            out.push('n');
        } else {
            out.push(c);
        }
        assert(out@ =~= before + guarded(c, lines));
        assert(out@ + guarded_from(v@, i + 1, lines) =~= before + guarded_from(
            v@,
            i as int,
            lines,
        ));
        i = i + 1;
    }
    assert(out@ =~= seq!['"'] + guarded_from(v@, 0, lines));
    out.push('"');
    assert(out@ =~= in_quotes(s@, lines));
    out
}

fn format_yaml_key(key: &str) -> (r: String)
    ensures
        r@ == written_key(key@),
{
    let v = chars_of(key);
    let bare = trim(key);
    if v.len() > 0 && same_text(bare.as_str(), key) && v[0] != '-' && v[0] != '?' && v[0] != ':'
        && v[0] != '#' && !has_char(key, ':') && !has_char(key, '#') && !has_char(key, '\n')
        && !has_char(key, '\r') {
        key.to_owned()
    } else {
        quote(key, false)
    }
}

/// A text that would not read back as itself without quotes.
pub open spec fn ambiguous(s: Seq<char>) -> bool {
    ||| s.len() == 0
    ||| trimmed(s) != s
    ||| same_word(s, "null"@)
    ||| s == "~"@
    ||| s == "..."@
    ||| same_word(s, "true"@)
    ||| same_word(s, "false"@)
    ||| int_of(s) is Some
    ||| float_like(s)
    ||| colon_of(s) is Some
    ||| s.contains('\n')
    ||| s.contains('#')
    ||| special_start(s[0])
}

pub open spec fn special_start(c: char) -> bool {
    c == '&' || c == '*' || c == '!' || c == '{' || c == '[' || c == '"' || c == '\'' || c == '-'
        || c == ' '
}

pub open spec fn written_text(s: Seq<char>) -> Seq<char> {
    if ambiguous(s) {
        in_quotes(s, true)
    } else {
        s
    }
}

fn quote_if_needed(s: &str) -> (r: String)
    ensures
        r@ == written_text(s@),
{
    let v = chars_of(s);
    if v.len() == 0 {
        return quote(s, true);
    }
    let bare = trim(s);
    let c = v[0];
    let number = match int_of_text(s) {
        Some(_) => true,
        None => false,
    };
    let pair = match find_top_level_colon(&v) {
        Some(_) => true,
        None => false,
    };
    if !same_text(bare.as_str(), s) || is_word(s, "null") || same_text(s, "~") || same_text(s, "...")
        || is_word(s, "true") || is_word(s, "false") || number || looks_like_float(s) || pair || has_char(s, '\n')
        || has_char(s, '#') || c == '&' || c == '*' || c == '!' || c == '{' || c == '[' || c == '"'
        || c == '\'' || c == '-' || c == ' ' {
        quote(s, true)
    } else {
        s.to_owned()
    }
}

/// A scalar, or an empty container, as it is written.
pub open spec fn scalar_text(t: Tree) -> Seq<char> {
    match t {
        Tree::Bool(b) => if b {
            "true"@
        } else {
            "false"@
        },
        Tree::Int(n) => int_text(n as int),
        Tree::Float(x) => float_text(x),
        Tree::Str(x) => written_text(x),
        Tree::List(items) => if items.len() == 0 {
            "[]"@
        } else {
            "null"@
        },
        Tree::Dict(branches) => if branches.len() == 0 {
            "{}"@
        } else {
            "null"@
        },
        Tree::Odd(name) => if name == "Str"@ {
            "\"\""@
        } else {
            "null"@
        },
        Tree::Null => "null"@,
        Tree::NotDynamic => "null"@,
    }
}

/// A tree that is written as a block of its own.
pub open spec fn is_block(t: Tree) -> bool {
    match t {
        Tree::List(items) => items.len() > 0,
        Tree::Dict(branches) => branches.len() > 0,
        _ => false,
    }
}

/// A tree as YAML text, each line behind `pad`.
pub open spec fn node_text(t: Tree, pad: Seq<char>) -> Seq<char>
    decreases t, 1int, 0int,
{
    match t {
        Tree::Dict(branches) => if branches.len() > 0 {
            pairs_from(branches, 0, pad)
        } else {
            pad + "{}\n"@
        },
        Tree::List(items) => if items.len() > 0 {
            items_from(items, 0, pad)
        } else {
            pad + "[]\n"@
        },
        Tree::Odd(name) => if name == "Dict"@ {
            pad + "{}\n"@
        } else if name == "List"@ {
            pad + "[]\n"@
        } else {
            pad + scalar_text(t) + "\n"@
        },
        _ => pad + scalar_text(t) + "\n"@,
    }
}

/// What follows a key or a dash.
pub open spec fn child_text(t: Tree, pad: Seq<char>) -> Seq<char>
    decreases t, 2int, 0int,
{
    if is_block(t) {
        "\n"@ + node_text(t, pad + "  "@)
    } else {
        " "@ + scalar_text(t) + "\n"@
    }
}

pub open spec fn pairs_from(branches: Seq<(Seq<char>, Tree)>, i: int, pad: Seq<char>) -> Seq<char>
    decreases branches, 0int, branches.len() - i,
{
    if 0 <= i < branches.len() {
        pad + written_key(branches[i].0) + ":"@ + child_text(branches[i].1, pad) + pairs_from(
            branches,
            i + 1,
            pad,
        )
    } else {
        Seq::empty()
    }
}

pub open spec fn items_from(items: Seq<Tree>, i: int, pad: Seq<char>) -> Seq<char>
    decreases items, 0int, items.len() - i,
{
    if 0 <= i < items.len() {
        pad + "-"@ + child_text(items[i], pad) + items_from(items, i + 1, pad)
    } else {
        Seq::empty()
    }
}

/// A tree as YAML text.
pub open spec fn yaml_text(t: Tree) -> Seq<char> {
    node_text(t, Seq::empty())
}

fn scalar_to_yaml(value: &Value) -> (r: String)
    ensures
        r@ == scalar_text(tree_of(value@)),
{
    proof {
        lemma_tree(value@);
    }
    match dyn_parts(value) {
        Dynamic::Bool(b) => if b {
            "true".to_owned()
        } else {
            "false".to_owned()
        },
        Dynamic::Int(n) => int_to_text(n),
        Dynamic::Float(x) => format_float_default(x.as_str()),
        Dynamic::Str(x) => quote_if_needed(x.as_str()),
        Dynamic::List(items) => if items.len() == 0 {
            "[]".to_owned()
        } else {
            "null".to_owned()
        },
        Dynamic::Dict(d) => if d.len() == 0 {
            "{}".to_owned()
        } else {
            "null".to_owned()
        },
        Dynamic::Odd(name) => if same_text(name.as_str(), "Str") {
            "\"\"".to_owned()
        } else {
            "null".to_owned()
        },
        Dynamic::Null => "null".to_owned(),
        Dynamic::NotDynamic => "null".to_owned(),
    }
}

fn write_pairs(d: &Dict, pad: &str, out: &mut String)
    ensures
        final(out)@ == old(out)@ + pairs_from(branches_of(d@), 0, pad@),
    decreases d, 0int,
{
    let ghost start = out@;
    let ghost branches = branches_of(d@);
    let n: usize = d.len();
    let mut i: usize = 0;
    while i < n
        invariant
            n == d@.len(),
            i <= n,
            branches == branches_of(d@),
            out@ + pairs_from(branches, i as int, pad@) == start + pairs_from(
                branches,
                0,
                pad@,
            ),
        decreases n - i,
    {
        let ghost before = out@;
        let v = d.value_at(i);
        let k = d.key_at(i);
        let name = map_key_as_str(&k);
        let key = format_yaml_key(name.as_str());
        out.append(pad);
        out.append(key.as_str());
        out.append(":");
        write_child(v, pad, out);
        assert(out@ + pairs_from(branches, i + 1, pad@) =~= before + pairs_from(
            branches,
            i as int,
            pad@,
        ));
        i = i + 1;
    }
    assert(out@ =~= start + pairs_from(branches, 0, pad@));
}

fn write_items(items: &Vec<Value>, pad: &str, out: &mut String)
    ensures
        final(out)@ == old(out)@ + items_from(trees_of(values_view(items@)), 0, pad@),
    decreases items, 0int,
{
    let ghost start = out@;
    let ghost trees = trees_of(values_view(items@));
    let mut i: usize = 0;
    while i < items.len()
        invariant
            i <= items@.len(),
            trees == trees_of(values_view(items@)),
            out@ + items_from(trees, i as int, pad@) == start + items_from(trees, 0, pad@),
        decreases items@.len() - i,
    {
        let ghost before = out@;
        out.append(pad);
        out.append("-");
        proof {
            assert(decreases_to!(*items => items@));
            assert(decreases_to!(items@ => items@[i as int]));
        }
        write_child(&items[i], pad, out);
        assert(out@ + items_from(trees, i + 1, pad@) =~= before + items_from(
            trees,
            i as int,
            pad@,
        ));
        i = i + 1;
    }
    assert(out@ =~= start + items_from(trees, 0, pad@));
}

fn write_node(value: &Value, pad: &str, out: &mut String)
    ensures
        final(out)@ == old(out)@ + node_text(tree_of(value@), pad@),
    decreases value, 1int,
{
    let ghost start = out@;
    proof {
        lemma_tree(value@);
    }
    match dyn_parts(value) {
        Dynamic::Dict(d) => {
            if d.len() > 0 {
                write_pairs(d, pad, out);
                return;
            }
            out.append(pad);
            out.append("{}\n");
            assert(out@ =~= start + node_text(tree_of(value@), pad@));
            return;
        },
        Dynamic::List(items) => {
            if items.len() > 0 {
                write_items(items, pad, out);
                return;
            }
            out.append(pad);
            out.append("[]\n");
            assert(out@ =~= start + node_text(tree_of(value@), pad@));
            return;
        },
        Dynamic::Odd(name) => {
            if same_text(name.as_str(), "Dict") {
                out.append(pad);
                out.append("{}\n");
                assert(out@ =~= start + node_text(tree_of(value@), pad@));
                return;
            }
            if same_text(name.as_str(), "List") {
                out.append(pad);
                out.append("[]\n");
                assert(out@ =~= start + node_text(tree_of(value@), pad@));
                return;
            }
        },
        _ => {},
    }
    let text = scalar_to_yaml(value);
    out.append(pad);
    out.append(text.as_str());
    out.append("\n");
    assert(out@ =~= start + node_text(tree_of(value@), pad@));
}

fn holds_block(value: &Value) -> (r: bool)
    ensures
        r == is_block(tree_of(value@)),
{
    proof {
        lemma_tree(value@);
    }
    match dyn_parts(value) {
        Dynamic::Dict(d) => d.len() > 0,
        Dynamic::List(items) => items.len() > 0,
        _ => false,
    }
}

fn write_child(value: &Value, pad: &str, out: &mut String)
    ensures
        final(out)@ == old(out)@ + child_text(tree_of(value@), pad@),
    decreases value, 2int,
{
    let ghost start = out@;
    if holds_block(value) {
        let deeper = join2(pad, "  ");
        out.append("\n");
        write_node(value, deeper.as_str(), out);
    } else {
        let text = scalar_to_yaml(value);
        out.append(" ");
        out.append(text.as_str());
        out.append("\n");
    }
    assert(out@ =~= start + child_text(tree_of(value@), pad@));
}

/// Writes a dynamic value as YAML text, in block style.
pub fn dynamic_to_string(value: &Value) -> (r: String)
    ensures
        r@ == yaml_text(tree_of(value@)),
{
    let mut out = String::new();
    let none = String::new();
    assert(none@ =~= Seq::empty());
    write_node(value, none.as_str(), &mut out);
    assert(out@ =~= yaml_text(tree_of(value@)));
    out
}

} // verus!
