//! Every way to write a character in a quoted string reads as that character.

use super::dynamic::dstr_v;
use super::escapes::{hex_end, unescape, unescaped, unescaped_from};
use super::json::{escape, hex4, json_of, string_rest, ws, Reading};
use super::json_laws::{lemma_parts, stands};
use crate::eval::value::ValueV;
use crate::numerals::{hex_digit, hex_of, hex_value};
use vstd::prelude::*;
use vstd::string::*;

verus! {

/// How a character is written: as it is, by a letter behind a backslash, or by the digits of its
/// code, with capital letters or small ones.
pub ghost enum Form {
    Plain,
    Letter,
    Digits(bool),
}

/// A hexadecimal digit.
pub open spec fn nibble(d: nat, capital: bool) -> char {
    if d < 10 {
        (48 + d) as char
    } else if capital {
        (55 + d) as char
    } else {
        (87 + d) as char
    }
}

/// The four digits of a number below 65536.
pub open spec fn four(u: nat, capital: bool) -> Seq<char> {
    seq![
        nibble(u / 4096, capital),
        nibble(u / 256 % 16, capital),
        nibble(u / 16 % 16, capital),
        nibble(u % 16, capital),
    ]
}

/// The letter that stands for a character behind a backslash in JSON.
pub open spec fn json_letter(c: char) -> Option<char> {
    if c == '"' || c == '\\' || c == '/' {
        Some(c)
    } else if c == '\u{8}' {
        Some('b')
    } else if c == '\u{c}' {
        Some('f')
    } else if c == '\n' {
        Some('n')
    } else if c == '\r' {
        Some('r')
    } else if c == '\t' {
        Some('t')
    } else {
        None
    }
}

/// The letter that stands for a character behind a backslash in TOML and YAML.
pub open spec fn letter(c: char) -> Option<char> {
    if c == '"' || c == '\\' {
        Some(c)
    } else if c == '\n' {
        Some('n')
    } else if c == '\r' {
        Some('r')
    } else if c == '\t' {
        Some('t')
    } else {
        None
    }
}

/// A character can be written in a form in JSON.
pub open spec fn json_form(c: char, form: Form) -> bool {
    match form {
        Form::Plain => c != '"' && c != '\\' && (c as u32) >= 0x20,
        Form::Letter => json_letter(c) is Some,
        Form::Digits(_) => true,
    }
}

/// A character as it is written in JSON. One that four digits cannot tell is written as two
/// numbers, the first of which carries the upper ten bits and the second the lower ten.
pub open spec fn json_coded(c: char, form: Form) -> Seq<char> {
    let u = c as nat;
    match form {
        Form::Plain => seq![c],
        Form::Letter => seq!['\\', json_letter(c).unwrap()],
        Form::Digits(capital) => if u < 0x10000 {
            seq!['\\', 'u'] + four(u, capital)
        } else {
            seq!['\\', 'u'] + four((0xD800 + (u - 0x10000) / 0x400) as nat, capital) + (seq![
                '\\',
                'u',
            ] + four((0xDC00 + (u - 0x10000) % 0x400) as nat, capital))
        },
    }
}

/// A text from the `i`-th character on, each character in its own form.
pub open spec fn json_coded_from(x: Seq<char>, forms: Seq<Form>, i: int) -> Seq<char>
    decreases x.len() - i,
{
    if 0 <= i < x.len() {
        json_coded(x[i], forms[i]) + json_coded_from(x, forms, i + 1)
    } else {
        Seq::empty()
    }
}

proof fn lemma_nibble(d: nat, capital: bool)
    requires
        d < 16,
    ensures
        hex_digit(nibble(d, capital)) == Some(d),
{
}

proof fn lemma_four(u: nat, capital: bool)
    requires
        u < 0x10000,
    ensures
        hex_of(four(u, capital)) == Some(u),
{
    let w = four(u, capital);
    let w3 = w.drop_last();
    let w2 = w3.drop_last();
    let w1 = w2.drop_last();
    assert(w1.drop_last() =~= Seq::empty());
    lemma_nibble(u / 4096, capital);
    lemma_nibble(u / 256 % 16, capital);
    lemma_nibble(u / 16 % 16, capital);
    lemma_nibble(u % 16, capital);
    assert(hex_value(w1.drop_last()) == Some(0nat));
    assert(w1.last() == w[0]);
    assert(hex_value(w1) == Some(u / 4096));
    assert(w2.last() == w[1]);
    assert(hex_value(w2) == Some((16 * (u / 4096) + u / 256 % 16) as nat));
    assert(16 * (u / 4096) + u / 256 % 16 == u / 256);
    assert(w3.last() == w[2]);
    assert(hex_value(w3) == Some((16 * (u / 256) + u / 16 % 16) as nat));
    assert(16 * (u / 256) + u / 16 % 16 == u / 16);
    assert(hex_value(w) == Some((16 * (u / 16) + u % 16) as nat));
}

proof fn lemma_hex4(s: Seq<char>, pos: int, u: nat, capital: bool)
    requires
        u < 0x10000,
        stands(s, pos, four(u, capital)),
    ensures
        hex4(s, pos) == Ok::<(nat, int), Seq<char>>((u, pos + 4)),
{
    lemma_four(u, capital);
    let w = four(u, capital);
    assert(s.subrange(pos, pos + 4) =~= w) by {
        assert forall|k: int| 0 <= k < 4 implies s[pos + k] == #[trigger] w[k] by {}
    }
}

proof fn lemma_code(c: char)
    ensures
        (c as nat) < 0xD800 || 0xE000 <= (c as nat) <= 0x10FFFF,
        ((c as nat) as char) == c,
{
}

proof fn lemma_json_coded(s: Seq<char>, pos: int, c: char, form: Form)
    requires
        json_form(c, form),
        stands(s, pos, json_coded(c, form)),
    ensures
        json_coded(c, form).len() > 0,
        pos < s.len(),
        s[pos] != '"',
        if s[pos] == '\\' {
            escape(s, pos + 1) == Ok::<(char, int), Seq<char>>(
                (c, pos + json_coded(c, form).len()),
            )
        } else {
            s[pos] == c && (c as u32) >= 0x20 && json_coded(c, form).len() == 1
        },
{
    let w = json_coded(c, form);
    let u = c as nat;
    lemma_code(c);
    assert(s[pos + 0] == w[0]);
    match form {
        Form::Plain => {},
        Form::Letter => {
            assert(s[pos + 1] == w[1]);
        },
        Form::Digits(capital) => {
            let head = seq!['\\', 'u'];
            if u < 0x10000 {
                lemma_parts(s, pos, head, four(u, capital));
                assert(s[pos + 1] == w[1]);
                lemma_hex4(s, pos + 2, u, capital);
            } else {
                let hi = (0xD800 + (u - 0x10000) / 0x400) as nat;
                let lo = (0xDC00 + (u - 0x10000) % 0x400) as nat;
                let a = head + four(hi, capital);
                let b = head + four(lo, capital);
                lemma_parts(s, pos, a, b);
                lemma_parts(s, pos, head, four(hi, capital));
                lemma_parts(s, pos + 6, head, four(lo, capital));
                assert(s[pos + 1] == a[1]);
                assert(s[pos + 6 + 0] == b[0]);
                assert(s[pos + 6 + 1] == b[1]);
                lemma_hex4(s, pos + 2, hi, capital);
                lemma_hex4(s, pos + 8, lo, capital);
                assert(0x10000 + (hi - 0xD800) * 0x400 + (lo - 0xDC00) == u);
            }
        },
    }
}

proof fn lemma_json_text(s: Seq<char>, pos: int, x: Seq<char>, forms: Seq<Form>, i: int, out: Seq<char>)
    requires
        0 <= i <= x.len(),
        forms.len() == x.len(),
        forall|k: int| 0 <= k < x.len() ==> json_form(#[trigger] x[k], forms[k]),
        stands(s, pos, json_coded_from(x, forms, i)),
        pos + json_coded_from(x, forms, i).len() < s.len(),
        s[pos + json_coded_from(x, forms, i).len()] == '"',
    ensures
        string_rest(s, pos, out) == Ok::<(Seq<char>, int), Seq<char>>(
            (out + x.skip(i), pos + json_coded_from(x, forms, i).len() + 1),
        ),
    decreases x.len() - i,
{
    if i < x.len() {
        let c = x[i];
        let w = json_coded(c, forms[i]);
        lemma_parts(s, pos, w, json_coded_from(x, forms, i + 1));
        lemma_json_coded(s, pos, c, forms[i]);
        lemma_json_text(s, pos + w.len(), x, forms, i + 1, out.push(c));
        assert(out.push(c) + x.skip(i + 1) =~= out + x.skip(i));
    } else {
        assert(out + x.skip(i) =~= out);
    }
}

/// In a JSON string every character may be written in any form that it has, and reads as that
/// character.
pub proof fn law_json_strings_read_in_any_form(read: Reading, x: Seq<char>, forms: Seq<Form>)
    requires
        forms.len() == x.len(),
        forall|k: int| 0 <= k < x.len() ==> json_form(#[trigger] x[k], forms[k]),
    ensures
        json_of(read, seq!['"'] + json_coded_from(x, forms, 0) + seq!['"']) == Ok::<
            ValueV,
            Seq<char>,
        >(dstr_v(x)),
{
    let body = json_coded_from(x, forms, 0);
    let s = seq!['"'] + body + seq!['"'];
    assert(s[0] == '"');
    assert(ws(s, 0) == 0);
    assert(stands(s, 1, body)) by {
        assert forall|k: int| 0 <= k < body.len() implies s[1 + k] == #[trigger] body[k] by {}
    }
    assert(s[1 + body.len() as int] == '"');
    lemma_json_text(s, 1, x, forms, 0, Seq::empty());
    assert(Seq::<char>::empty() + x.skip(0) =~= x);
    assert(ws(s, s.len() as int) == s.len());
}

// ---------------------------------------------------------------------------
// TOML and YAML
// ---------------------------------------------------------------------------

/// A character can be written in a form in TOML and YAML.
pub open spec fn has_form(c: char, form: Form) -> bool {
    match form {
        Form::Plain => c != '\\',
        Form::Letter => letter(c) is Some,
        Form::Digits(_) => (c as nat) < 0x10000,
    }
}

pub open spec fn coded(c: char, form: Form) -> Seq<char> {
    match form {
        Form::Plain => seq![c],
        Form::Letter => seq!['\\', letter(c).unwrap()],
        Form::Digits(capital) => seq!['\\', 'u'] + four(c as nat, capital),
    }
}

pub open spec fn coded_from(x: Seq<char>, forms: Seq<Form>, i: int) -> Seq<char>
    decreases x.len() - i,
{
    if 0 <= i < x.len() {
        coded(x[i], forms[i]) + coded_from(x, forms, i + 1)
    } else {
        Seq::empty()
    }
}

proof fn lemma_coded(label: Seq<char>, s: Seq<char>, pos: int, c: char, form: Form)
    requires
        has_form(c, form),
        stands(s, pos, coded(c, form)),
    ensures
        coded(c, form).len() > 0,
        pos < s.len(),
        if s[pos] == '\\' {
            unescape(label, s, pos + 1) == Ok::<(char, int), Seq<char>>(
                (c, pos + coded(c, form).len()),
            )
        } else {
            s[pos] == c && coded(c, form).len() == 1
        },
{
    let w = coded(c, form);
    lemma_code(c);
    assert(s[pos + 0] == w[0]);
    match form {
        Form::Plain => {},
        Form::Letter => {
            assert(s[pos + 1] == w[1]);
        },
        Form::Digits(capital) => {
            let t = four(c as nat, capital);
            lemma_parts(s, pos, seq!['\\', 'u'], t);
            assert(s[pos + 1] == w[1]);
            lemma_four(c as nat, capital);
            assert(s.subrange(pos + 2, hex_end(s, pos + 2)) =~= t) by {
                assert forall|k: int| 0 <= k < 4 implies s[pos + 2 + k] == #[trigger] t[k] by {}
            }
        },
    }
}

proof fn lemma_text(
    label: Seq<char>,
    s: Seq<char>,
    pos: int,
    x: Seq<char>,
    forms: Seq<Form>,
    i: int,
    out: Seq<char>,
)
    requires
        0 <= i <= x.len(),
        forms.len() == x.len(),
        forall|k: int| 0 <= k < x.len() ==> has_form(#[trigger] x[k], forms[k]),
        stands(s, pos, coded_from(x, forms, i)),
        pos + coded_from(x, forms, i).len() == s.len(),
    ensures
        unescaped_from(label, s, pos, out) == Ok::<Seq<char>, Seq<char>>(out + x.skip(i)),
    decreases x.len() - i,
{
    if i < x.len() {
        let c = x[i];
        let w = coded(c, forms[i]);
        lemma_parts(s, pos, w, coded_from(x, forms, i + 1));
        lemma_coded(label, s, pos, c, forms[i]);
        lemma_text(label, s, pos + w.len(), x, forms, i + 1, out.push(c));
        assert(out.push(c) + x.skip(i + 1) =~= out + x.skip(i));
    } else {
        assert(out + x.skip(i) =~= out);
    }
}

/// The body of a quoted string of TOML or YAML, with every character in any form that it has,
/// reads as the text of these characters.
pub proof fn law_quoted_bodies_read_in_any_form(label: Seq<char>, x: Seq<char>, forms: Seq<Form>)
    requires
        forms.len() == x.len(),
        forall|k: int| 0 <= k < x.len() ==> has_form(#[trigger] x[k], forms[k]),
    ensures
        unescaped(label, coded_from(x, forms, 0)) == Ok::<Seq<char>, Seq<char>>(x),
{
    let s = coded_from(x, forms, 0);
    assert(stands(s, 0, s));
    lemma_text(label, s, 0, x, forms, 0, Seq::empty());
    assert(Seq::<char>::empty() + x.skip(0) =~= x);
}

} // verus!
