//! Reading numbers from text.

use crate::text::{chars_of, opt_text};
use vstd::prelude::*;
use vstd::string::*;

verus! {

pub open spec fn is_digit(c: char) -> bool {
    '0' <= c <= '9'
}

/// What a decimal digit counts for.
pub open spec fn digit_value(c: char) -> nat {
    (c as nat - 48) as nat
}

/// All characters are decimal digits.
pub open spec fn all_digits(s: Seq<char>) -> bool {
    forall|i: int| 0 <= i < s.len() ==> is_digit(#[trigger] s[i])
}

/// The number that some decimal digits write.
pub open spec fn digits_value(s: Seq<char>) -> nat
    decreases s.len(),
{
    if s.len() == 0 {
        0
    } else {
        10 * digits_value(s.drop_last()) + digit_value(s.last())
    }
}

/// The digits of an integer literal: what follows its sign, if it has one.
pub open spec fn unsigned_part(s: Seq<char>) -> Seq<char> {
    if s.len() > 0 && (s[0] == '+' || s[0] == '-') {
        s.drop_first()
    } else {
        s
    }
}

/// The integer that a text writes: digits with an optional sign, in the range of `i64`.
pub open spec fn int_of(s: Seq<char>) -> Option<i64> {
    let ds = unsigned_part(s);
    let n = digits_value(ds) as int;
    let i = if s.len() > 0 && s[0] == '-' {
        -n
    } else {
        n
    };
    if ds.len() > 0 && all_digits(ds) && i64::MIN <= i <= i64::MAX {
        Some(i as i64)
    } else {
        None
    }
}

pub fn is_digit_char(c: char) -> (r: bool)
    ensures
        r == is_digit(c),
{
    '0' <= c && c <= '9'
}

fn digit_of(c: char) -> (r: u64)
    requires
        is_digit(c),
    ensures
        r == digit_value(c),
        r < 10,
{
    (c as u64) - 48
}

/// The number that `v[from..]` writes in decimal digits; nothing where there are none, where
/// something else stands there, or where the number exceeds `limit`.
fn magnitude_from(v: &[char], from: usize, limit: u64) -> (r: Option<u64>)
    requires
        from <= v@.len(),
    ensures
        match r {
            Some(n) => {
                &&& v@.len() > from
                &&& all_digits(v@.skip(from as int))
                &&& n == digits_value(v@.skip(from as int))
                &&& n <= limit
            },
            None => {
                ||| v@.len() == from
                ||| !all_digits(v@.skip(from as int))
                ||| digits_value(v@.skip(from as int)) > limit
            },
        },
{
    let ghost ds = v@.skip(from as int);
    let len: usize = v.len();
    if len == from {
        return None;
    }
    let mut total: u64 = 0;
    let mut too_big = false;
    let mut i: usize = from;
    assert(ds.take(0) =~= Seq::empty());
    while i < len
        invariant
            len == v@.len(),
            from <= i <= len,
            ds == v@.skip(from as int),
            forall|j: int| 0 <= j < i - from ==> is_digit(#[trigger] ds[j]),
            too_big ==> digits_value(ds.take(i - from)) > limit,
            !too_big ==> total == digits_value(ds.take(i - from)) && total
                <= limit,
        decreases len - i,
    {
        let c = v[i];
        proof {
            assert(ds[i - from] == c);
            assert(ds.take(i + 1 - from).drop_last() =~= ds.take(i - from));
        }
        if !is_digit_char(c) {
            return None;
        }
        if !too_big {
            let next: u128 = 10 * (total as u128) + digit_of(c) as u128;
            if next > limit as u128 {
                too_big = true;
            } else {
                total = next as u64;
            }
        }
        i = i + 1;
    }
    assert(ds.take(len - from) =~= ds);
    if too_big {
        None
    } else {
        Some(total)
    }
}

/// The integer that some characters write.
pub fn int_of_chars(v: &[char]) -> (r: Option<i64>)
    ensures
        r == int_of(v@),
{
    if v.len() == 0 {
        return None;
    }
    let negative = v[0] == '-';
    let signed = negative || v[0] == '+';
    let from: usize = if signed {
        1
    } else {
        0
    };
    assert(v@.skip(from as int) =~= unsigned_part(v@));
    match magnitude_from(v, from, 0x8000_0000_0000_0000) {
        Some(n) => {
            if negative {
                Some((0 - n as i128) as i64)
            } else if n <= 0x7fff_ffff_ffff_ffff {
                Some(n as i64)
            } else {
                None
            }
        },
        None => None,
    }
}

/// The integer that a text writes.
pub fn int_of_text(s: &str) -> (r: Option<i64>)
    ensures
        r == int_of(s@),
{
    let v = chars_of(s);
    int_of_chars(&v)
}

/// The size that a text writes: digits after an optional plus, in the range of `usize`.
pub open spec fn size_of(s: Seq<char>) -> Option<nat> {
    let ds = if s.len() > 0 && s[0] == '+' {
        s.drop_first()
    } else {
        s
    };
    if ds.len() > 0 && all_digits(ds) && digits_value(ds) <= usize::MAX {
        Some(digits_value(ds))
    } else {
        None
    }
}

/// The size that a text writes.
pub fn size_of_text(s: &str) -> (r: Option<usize>)
    ensures
        match r {
            Some(n) => size_of(s@) == Some(n as nat),
            None => size_of(s@) is None,
        },
{
    let v = chars_of(s);
    let from: usize = if v.len() > 0 && v[0] == '+' {
        1
    } else {
        0
    };
    assert(v@.skip(from as int) =~= if s@.len() > 0 && s@[0] == '+' {
        s@.drop_first()
    } else {
        s@
    });
    match magnitude_from(&v, from, usize::MAX as u64) {
        Some(n) => Some(n as usize),
        None => None,
    }
}

// ---------------------------------------------------------------------------
// Hexadecimal
// ---------------------------------------------------------------------------

/// What a hexadecimal digit counts for.
pub open spec fn hex_digit(c: char) -> Option<nat> {
    if '0' <= c <= '9' {
        Some((c as nat - 48) as nat)
    } else if 'a' <= c <= 'f' {
        Some((c as nat - 87) as nat)
    } else if 'A' <= c <= 'F' {
        Some((c as nat - 55) as nat)
    } else {
        None
    }
}

/// The number that some hexadecimal digits write.
pub open spec fn hex_value(s: Seq<char>) -> Option<nat>
    decreases s.len(),
{
    if s.len() == 0 {
        Some(0)
    } else {
        match (hex_value(s.drop_last()), hex_digit(s.last())) {
            (Some(n), Some(d)) => Some(16 * n + d),
            _ => None,
        }
    }
}

/// The number that a text of four hexadecimal digits writes.
pub open spec fn hex_of(s: Seq<char>) -> Option<nat> {
    if s.len() == 4 {
        hex_value(s)
    } else {
        None
    }
}

pub fn hex_digit_of(c: char) -> (r: Option<u32>)
    ensures
        match r {
            Some(d) => hex_digit(c) == Some(d as nat) && d < 16,
            None => hex_digit(c) is None,
        },
{
    let u: u32 = c as u32;
    if '0' <= c && c <= '9' {
        Some(u - 48)
    } else if 'a' <= c && c <= 'f' {
        Some(u - 87)
    } else if 'A' <= c && c <= 'F' {
        Some(u - 55)
    } else {
        None
    }
}

proof fn lemma_not_hex(s: Seq<char>, n: int)
    requires
        0 <= n <= s.len(),
        hex_value(s.take(n)) is None,
    ensures
        hex_value(s) is None,
    decreases s.len() - n,
{
    if n == s.len() {
        assert(s.take(n) =~= s);
    } else {
        assert(s.take(n + 1).drop_last() =~= s.take(n));
        lemma_not_hex(s, n + 1);
    }
}

/// The number that four hexadecimal digits write; nothing where the text is no such digits.
pub fn hex_of_chars(v: &[char]) -> (r: Option<u32>)
    ensures
        match r {
            Some(n) => hex_of(v@) == Some(n as nat) && n < 0x10000,
            None => hex_of(v@) is None,
        },
{
    if v.len() != 4 {
        return None;
    }
    let mut total: u32 = 0;
    let ghost mut bound: int = 1;
    let mut i: usize = 0;
    assert(v@.take(0) =~= Seq::empty());
    while i < 4
        invariant
            v@.len() == 4,
            i <= 4,
            hex_value(v@.take(i as int)) == Some(total as nat),
            total < bound,
            i == 0 ==> bound == 1,
            i == 1 ==> bound == 0x10,
            i == 2 ==> bound == 0x100,
            i == 3 ==> bound == 0x1000,
            i == 4 ==> bound == 0x10000,
        decreases 4 - i,
    {
        assert(v@.take(i + 1).drop_last() =~= v@.take(i as int));
        match hex_digit_of(v[i]) {
            Some(d) => {
                total = 16 * total + d;
                proof {
                    bound = 16 * bound;
                }
            },
            None => {
                proof {
                    lemma_not_hex(v@, i + 1);
                }
                return None;
            },
        }
        i = i + 1;
    }
    assert(v@.take(4) =~= v@);
    Some(total)
}

/// The hexadecimal digit of a number below sixteen.
pub open spec fn hex_char(d: nat) -> char {
    if d < 10 {
        (48 + d) as char
    } else {
        (87 + d) as char
    }
}

pub fn hex_char_of(d: u8) -> (r: char)
    requires
        d < 16,
    ensures
        r == hex_char(d as nat),
{
    if d < 10 {
        let b: u8 = 48 + d;
        b as char
    } else {
        let b: u8 = 87 + d;
        b as char
    }
}

/// The character with a code point, if it has one.
pub open spec fn char_at(cp: nat) -> Option<char> {
    if cp < 0xD800 || 0xE000 <= cp <= 0x10FFFF {
        Some(cp as char)
    } else {
        None
    }
}

/// `char::from_u32` of std: the character with a code point, if it is one.
#[verifier::external_body]
pub(crate) fn char_of(cp: u32) -> (r: Option<char>)
    ensures
        r == char_at(cp as nat),
{
    char::from_u32(cp)
}

// ---------------------------------------------------------------------------
// Floats
// ---------------------------------------------------------------------------

/// `f` can read `text` as the float with the spelling `o`, or find that it is none.
pub open spec fn can_read<F: Fn(String) -> Option<String>>(
    f: F,
    text: Seq<char>,
    o: Option<Seq<char>>,
) -> bool {
    exists|s: String, r: Option<String>| #[trigger]
        call_ensures(f, (s,), r) && s@ == text && opt_text(r) == o
}

/// `f` reads any text, and reads the same text the same way each time.
pub open spec fn steady<F: Fn(String) -> Option<String>>(f: F) -> bool {
    &&& forall|s: String| call_requires(f, (s,))
    &&& forall|text: Seq<char>, a: Option<Seq<char>>, b: Option<Seq<char>>|
        #[trigger] can_read(f, text, a) && #[trigger] can_read(f, text, b) ==> a == b
}

/// How `f` reads.
pub open spec fn reading<F: Fn(String) -> Option<String>>(f: F) -> spec_fn(Seq<char>) -> Option<
    Seq<char>,
> {
    |text: Seq<char>| choose|o: Option<Seq<char>>| can_read(f, text, o)
}

/// Reads a float with `f`.
pub fn read_float<F: Fn(String) -> Option<String>>(f: &F, text: String) -> (r: Option<String>)
    requires
        steady(*f),
    ensures
        opt_text(r) == reading(*f)(text@),
{
    let ghost t = text@;
    let ghost s = text;
    let r = f(text);
    proof {
        assert(call_ensures(*f, (s,), r));
        assert(can_read(*f, t, opt_text(r)));
    }
    r
}

} // verus!
