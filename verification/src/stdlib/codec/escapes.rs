//! The escapes of quoted strings in TOML and YAML.

use crate::numerals::{char_at, char_of, hex_of, hex_of_chars};
use crate::text::{char_text, join2, join4};
use vstd::prelude::*;
use vstd::string::*;

verus! {

/// Where the digits of a `\u` escape end: behind four characters, or at the end of the text,
/// where there are too few.
pub open spec fn hex_end(s: Seq<char>, pos: int) -> int {
    if pos + 4 <= s.len() {
        pos + 4
    } else {
        s.len() as int
    }
}

/// The character of the escape at `pos`, which follows a backslash, and where it ends. A `\u`
/// takes exactly four hexadecimal digits.
pub open spec fn unescape(label: Seq<char>, s: Seq<char>, pos: int) -> Result<
    (char, int),
    Seq<char>,
> {
    if !(0 <= pos < s.len()) {
        Err(label + ": incomplete string escape"@)
    } else if s[pos] == 'n' {
        Ok(('\n', pos + 1))
    } else if s[pos] == 't' {
        Ok(('\t', pos + 1))
    } else if s[pos] == 'r' {
        Ok(('\r', pos + 1))
    } else if s[pos] == '"' || s[pos] == '\\' {
        Ok((s[pos], pos + 1))
    } else if s[pos] == 'u' {
        match hex_of(s.subrange(pos + 1, hex_end(s, pos + 1))) {
            None => Err(label + ": invalid \\u escape"@),
            Some(cp) => match char_at(cp) {
                None => Err(label + ": invalid Unicode code point"@),
                Some(c) => Ok((c, hex_end(s, pos + 1))),
            },
        }
    } else {
        Err(label + ": invalid escape '\\"@ + seq![s[pos]] + "'"@)
    }
}

/// The body of a quoted string from `pos` on, of which `out` has been read.
pub open spec fn unescaped_from(
    label: Seq<char>,
    s: Seq<char>,
    pos: int,
    out: Seq<char>,
) -> Result<Seq<char>, Seq<char>>
    decreases s.len() - pos,
{
    if !(0 <= pos < s.len()) {
        Ok(out)
    } else if s[pos] != '\\' {
        unescaped_from(label, s, pos + 1, out.push(s[pos]))
    } else {
        match unescape(label, s, pos + 1) {
            Ok((c, next)) => unescaped_from(label, s, next, out.push(c)),
            Err(m) => Err(m),
        }
    }
}

/// The text that the body of a quoted string writes.
pub open spec fn unescaped(label: Seq<char>, s: Seq<char>) -> Result<Seq<char>, Seq<char>> {
    unescaped_from(label, s, 0, Seq::empty())
}

pub open spec fn string_result(r: Result<String, String>) -> Result<Seq<char>, Seq<char>> {
    match r {
        Ok(t) => Ok(t@),
        Err(m) => Err(m@),
    }
}

fn parse_unescape(label: &str, s: &Vec<char>, pos: usize) -> (r: Result<(char, usize), String>)
    requires
        pos <= s@.len(),
    ensures
        match r {
            Ok((c, p)) => unescape(label@, s@, pos as int) == Ok::<(char, int), Seq<char>>(
                (c, p as int),
            ) && pos < p <= s@.len(),
            Err(m) => unescape(label@, s@, pos as int) == Err::<(char, int), Seq<char>>(m@),
        },
{
    let len: usize = s.len();
    if pos >= len {
        return Err(join2(label, ": incomplete string escape"));
    }
    let c = s[pos];
    if c == 'n' {
        return Ok(('\n', pos + 1));
    }
    if c == 't' {
        return Ok(('\t', pos + 1));
    }
    if c == 'r' {
        return Ok(('\r', pos + 1));
    }
    if c == '"' || c == '\\' {
        return Ok((c, pos + 1));
    }
    if c == 'u' {
        let mut hex: Vec<char> = Vec::new();
        let mut p: usize = pos + 1;
        while p < len && p - pos < 5
            invariant
                len == s@.len(),
                pos < len,
                pos + 1 <= p <= len,
                p <= pos + 5,
                hex@ == s@.subrange(pos + 1, p as int),
            decreases len - p,
        {
            hex.push(s[p]);
            assert(hex@ =~= s@.subrange(pos + 1, p + 1));
            p = p + 1;
        }
        assert(p == hex_end(s@, pos + 1));
        return match hex_of_chars(&hex) {
            None => Err(join2(label, ": invalid \\u escape")),
            Some(cp) => match char_of(cp) {
                None => Err(join2(label, ": invalid Unicode code point")),
                Some(x) => Ok((x, p)),
            },
        };
    }
    let found = char_text(c);
    Err(join4(label, ": invalid escape '\\", found.as_str(), "'"))
}

/// The text that the body `inner` of a quoted string writes. Messages start with `label`.
pub fn parse_escaped_string_body(label: &str, inner: &Vec<char>) -> (r: Result<String, String>)
    ensures
        string_result(r) == unescaped(label@, inner@),
{
    let mut out = String::new();
    let mut pos: usize = 0;
    assert(out@ =~= Seq::empty());
    while pos < inner.len()
        invariant
            pos <= inner@.len(),
            unescaped_from(label@, inner@, pos as int, out@) == unescaped(label@, inner@),
        decreases inner@.len() - pos,
    {
        if inner[pos] != '\\' {
            out.push(inner[pos]);
            pos = pos + 1;
        } else {
            match parse_unescape(label, inner, pos + 1) {
                Ok((c, next)) => {
                    out.push(c);
                    pos = next;
                },
                Err(m) => {
                    return Err(m);
                },
            }
        }
    }
    Ok(out)
}

} // verus!
