//! Text: helpers whose meaning is stated over sequences of characters.

use vstd::prelude::*;
use vstd::string::*;
use vstd::utf8::*;

verus! {

/// `String::push` of std: appends one character.
pub assume_specification[ String::push ](s: &mut String, c: char)
    ensures
        final(s)@ == old(s)@.push(c),
;

/// The texts held by a sequence of strings.
pub open spec fn texts(v: Seq<String>) -> Seq<Seq<char>> {
    Seq::new(v.len(), |i: int| v[i]@)
}

/// The text held by an optional string.
pub open spec fn opt_text(o: Option<String>) -> Option<Seq<char>> {
    match o {
        Some(s) => Some(s@),
        None => None,
    }
}

/// Whether two texts are equal.
pub fn same_text(a: &str, b: &str) -> (r: bool)
    ensures
        r == (a@ == b@),
{
    a.to_owned() == b.to_owned()
}

/// Whether a text has no characters.
pub fn no_text(s: &str) -> (r: bool)
    ensures
        r == (s@.len() == 0),
{
    let r = same_text(s, "");
    proof {
        reveal_strlit("");
        if s@.len() == 0 {
            assert(s@ =~= ""@);
        }
    }
    r
}

/// Concatenates two texts.
pub fn join2(a: &str, b: &str) -> (r: String)
    ensures
        r@ == a@ + b@,
{
    let mut r = a.to_owned();
    r.append(b);
    r
}

/// Concatenates three texts.
pub fn join3(a: &str, b: &str, c: &str) -> (r: String)
    ensures
        r@ == a@ + b@ + c@,
{
    let mut r = a.to_owned();
    r.append(b);
    r.append(c);
    r
}

/// Concatenates four texts.
pub fn join4(a: &str, b: &str, c: &str, d: &str) -> (r: String)
    ensures
        r@ == a@ + b@ + c@ + d@,
{
    let mut r = join3(a, b, c);
    r.append(d);
    r
}

/// Concatenates five texts.
pub fn join5(a: &str, b: &str, c: &str, d: &str, e: &str) -> (r: String)
    ensures
        r@ == a@ + b@ + c@ + d@ + e@,
{
    let mut r = join4(a, b, c, d);
    r.append(e);
    r
}

/// The text of one character.
pub fn char_text(c: char) -> (r: String)
    ensures
        r@ == seq![c],
{
    let mut r = String::new();
    r.push(c);
    assert(r@ =~= seq![c]);
    r
}

/// The code point of a character.
pub fn code_of(c: char) -> (r: u32)
    ensures
        r == c as u32,
        r as nat == c as nat,
{
    c as u32
}

/// The characters of a text.
pub fn chars_of(s: &str) -> (r: Vec<char>)
    ensures
        r@ == s@,
{
    let mut r: Vec<char> = Vec::new();
    for c in it: s.chars()
        invariant
            r@ == it.seq().take(it.index() as int),
            it.seq() == s@,
    {
        r.push(c);
    }
    r
}

/// The text made of some characters.
pub fn text_of(v: &[char]) -> (r: String)
    ensures
        r@ == v@,
{
    sub_text(v, 0, v.len())
}

/// The text made of the characters from `from` up to `to`.
pub fn sub_text(v: &[char], from: usize, to: usize) -> (r: String)
    requires
        from <= to <= v@.len(),
    ensures
        r@ == v@.subrange(from as int, to as int),
{
    let mut r = String::new();
    let mut i: usize = from;
    while i < to
        invariant
            from <= i <= to <= v@.len(),
            r@ == v@.subrange(from as int, i as int),
        decreases to - i,
    {
        r.push(v[i]);
        assert(v@.subrange(from as int, i as int).push(v@[i as int]) =~= v@.subrange(
            from as int,
            i + 1,
        ));
        i = i + 1;
    }
    r
}

/// The white space characters: those with the Unicode property White_Space.
pub open spec fn is_space(c: char) -> bool {
    let u = c as u32;
    ||| 0x9 <= u <= 0xD
    ||| u == 0x20
    ||| u == 0x85
    ||| u == 0xA0
    ||| u == 0x1680
    ||| 0x2000 <= u <= 0x200A
    ||| u == 0x2028
    ||| u == 0x2029
    ||| u == 0x202F
    ||| u == 0x205F
    ||| u == 0x3000
}

pub fn space(c: char) -> (r: bool)
    ensures
        r == is_space(c),
{
    let u: u32 = c as u32;
    (0x9 <= u && u <= 0xD) || u == 0x20 || u == 0x85 || u == 0xA0 || u == 0x1680 || (0x2000 <= u
        && u <= 0x200A) || u == 0x2028 || u == 0x2029 || u == 0x202F || u == 0x205F || u == 0x3000
}

/// A text without its leading white space.
pub open spec fn trim_left(s: Seq<char>) -> Seq<char>
    decreases s.len(),
{
    if s.len() > 0 && is_space(s[0]) {
        trim_left(s.drop_first())
    } else {
        s
    }
}

/// A text without its trailing white space.
pub open spec fn trim_right(s: Seq<char>) -> Seq<char>
    decreases s.len(),
{
    if s.len() > 0 && is_space(s.last()) {
        trim_right(s.drop_last())
    } else {
        s
    }
}

/// A text without the white space around it.
pub open spec fn trimmed(s: Seq<char>) -> Seq<char> {
    trim_right(trim_left(s))
}

/// Where `v[from..to]` starts once its leading white space is left out.
pub fn skip_left(v: &[char], from: usize, to: usize) -> (r: usize)
    requires
        from <= to <= v@.len(),
    ensures
        from <= r <= to,
        v@.subrange(r as int, to as int) == trim_left(v@.subrange(from as int, to as int)),
{
    let mut i: usize = from;
    while i < to && space(v[i])
        invariant
            from <= i <= to <= v@.len(),
            trim_left(v@.subrange(i as int, to as int)) == trim_left(
                v@.subrange(from as int, to as int),
            ),
        decreases to - i,
    {
        assert(v@.subrange(i as int, to as int).drop_first() =~= v@.subrange(i + 1, to as int));
        i = i + 1;
    }
    i
}

/// Where `v[from..to]` ends once its trailing white space is left out.
pub fn skip_right(v: &[char], from: usize, to: usize) -> (r: usize)
    requires
        from <= to <= v@.len(),
    ensures
        from <= r <= to,
        v@.subrange(from as int, r as int) == trim_right(v@.subrange(from as int, to as int)),
{
    let mut j: usize = to;
    while j > from && space(v[j - 1])
        invariant
            from <= j <= to <= v@.len(),
            trim_right(v@.subrange(from as int, j as int)) == trim_right(
                v@.subrange(from as int, to as int),
            ),
        decreases j,
    {
        assert(v@.subrange(from as int, j as int).drop_last() =~= v@.subrange(from as int, j - 1));
        j = j - 1;
    }
    j
}

/// A text without the white space around it.
pub fn trim(s: &str) -> (r: String)
    ensures
        r@ == trimmed(s@),
{
    let v = chars_of(s);
    let n: usize = v.len();
    let i = skip_left(&v, 0, n);
    let j = skip_right(&v, i, n);
    assert(v@.subrange(0, n as int) =~= s@);
    sub_text(&v, i, j)
}

/// A text without its leading white space.
pub fn trim_start(s: &str) -> (r: String)
    ensures
        r@ == trim_left(s@),
{
    let v = chars_of(s);
    let n: usize = v.len();
    let i = skip_left(&v, 0, n);
    assert(v@.subrange(0, n as int) =~= s@);
    sub_text(&v, i, n)
}

/// A text without its trailing white space.
pub fn trim_end(s: &str) -> (r: String)
    ensures
        r@ == trim_right(s@),
{
    let v = chars_of(s);
    let n: usize = v.len();
    let j = skip_right(&v, 0, n);
    assert(v@.subrange(0, n as int) =~= s@);
    sub_text(&v, 0, j)
}

/// A line without the carriage return at its end.
pub open spec fn chomped(s: Seq<char>) -> Seq<char> {
    if s.len() > 0 && s.last() == '\r' {
        s.drop_last()
    } else {
        s
    }
}

/// The lines of a text from the `i`-th character on, of which `out` and a part of the next one
/// have been seen.
pub open spec fn lines_from(s: Seq<char>, i: int, part: Seq<char>, out: Seq<Seq<char>>) -> Seq<
    Seq<char>,
>
    decreases s.len() - i,
{
    if !(0 <= i < s.len()) {
        if part.len() > 0 {
            out.push(part)
        } else {
            out
        }
    } else if s[i] == '\n' {
        lines_from(s, i + 1, Seq::empty(), out.push(chomped(part)))
    } else {
        lines_from(s, i + 1, part.push(s[i]), out)
    }
}

/// The lines of a text: what stands before each line feed, without a carriage return, and what
/// follows the last one if there is anything.
pub open spec fn lines_of(s: Seq<char>) -> Seq<Seq<char>> {
    lines_from(s, 0, Seq::empty(), Seq::empty())
}

/// The lines of a text.
pub fn split_lines(s: &str) -> (r: Vec<String>)
    ensures
        texts(r@) == lines_of(s@),
{
    let v = chars_of(s);
    let mut out: Vec<String> = Vec::new();
    let mut from: usize = 0;
    let mut i: usize = 0;
    assert(v@.subrange(0, 0) =~= Seq::empty());
    assert(texts(out@) =~= Seq::empty());
    while i < v.len()
        invariant
            v@ == s@,
            from <= i <= v@.len(),
            lines_from(v@, i as int, v@.subrange(from as int, i as int), texts(out@)) == lines_of(
                v@,
            ),
        decreases v@.len() - i,
    {
        let ghost part = v@.subrange(from as int, i as int);
        let ghost seen = texts(out@);
        if v[i] == '\n' {
            let to: usize = if i > from && v[i - 1] == '\r' {
                i - 1
            } else {
                i
            };
            assert(v@.subrange(from as int, to as int) =~= chomped(part));
            let line = sub_text(&v, from, to);
            out.push(line);
            assert(texts(out@) =~= seen.push(chomped(part)));
            from = i + 1;
            assert(v@.subrange(i + 1, i + 1) =~= Seq::empty());
        } else {
            assert(part.push(v@[i as int]) =~= v@.subrange(from as int, i + 1));
        }
        i = i + 1;
    }
    let ghost part = v@.subrange(from as int, i as int);
    let ghost seen = texts(out@);
    if from < i {
        let line = sub_text(&v, from, i);
        out.push(line);
        assert(texts(out@) =~= seen.push(part));
    }
    out
}

/// `s` starts with `prefix`.
pub open spec fn starts_with(s: Seq<char>, prefix: Seq<char>) -> bool {
    prefix.len() <= s.len() && s.take(prefix.len() as int) == prefix
}

/// Whether the characters from `from` on start with `prefix`.
pub fn has_prefix_at(v: &[char], from: usize, prefix: &[char]) -> (r: bool)
    requires
        from <= v@.len(),
    ensures
        r == starts_with(v@.skip(from as int), prefix@),
{
    let n: usize = v.len();
    if prefix.len() > n - from {
        return false;
    }
    let mut i: usize = 0;
    while i < prefix.len()
        invariant
            n == v@.len(),
            i <= prefix@.len() <= n - from,
            from <= n,
            forall|j: int| 0 <= j < i ==> v@[from + j] == prefix@[j],
        decreases prefix@.len() - i,
    {
        if v[from + i] != prefix[i] {
            assert(v@.skip(from as int).take(prefix@.len() as int)[i as int] == v@[from + i]);
            return false;
        }
        i = i + 1;
    }
    assert(v@.skip(from as int).take(prefix@.len() as int) =~= prefix@);
    true
}

/// Whether a text starts with another.
pub fn text_starts_with(s: &str, prefix: &str) -> (r: bool)
    ensures
        r == starts_with(s@, prefix@),
{
    let v = chars_of(s);
    let p = chars_of(prefix);
    assert(v@.skip(0) =~= s@);
    has_prefix_at(&v, 0, &p)
}

/// The digits of a number, most significant first.
pub open spec fn digits(n: nat) -> Seq<char>
    decreases n,
{
    if n < 10 {
        seq![digit(n)]
    } else {
        digits(n / 10).push(digit(n % 10))
    }
}

/// The character of a decimal digit.
pub open spec fn digit(d: nat) -> char {
    (48 + d) as char
}

/// The decimal notation of an integer.
pub open spec fn int_text(i: int) -> Seq<char> {
    if i < 0 {
        seq!['-'] + digits((-i) as nat)
    } else {
        digits(i as nat)
    }
}

fn digit_char(d: u64) -> (r: char)
    requires
        d < 10,
    ensures
        r == digit(d as nat),
{
    let b: u8 = 48 + d as u8;
    b as char
}

fn push_digits(out: &mut String, n: u64)
    ensures
        final(out)@ == old(out)@ + digits(n as nat),
    decreases n,
{
    if n >= 10 {
        push_digits(out, n / 10);
    }
    out.push(digit_char(n % 10));
    assert(out@ =~= old(out)@ + digits(n as nat));
}

/// The decimal notation of an integer.
pub fn int_to_text(i: i64) -> (r: String)
    ensures
        r@ == int_text(i as int),
{
    let mut out = String::new();
    if i < 0 {
        out.push('-');
        let m: i128 = -(i as i128);
        push_digits(&mut out, m as u64);
        assert(out@ =~= seq!['-'] + digits((-(i as int)) as nat));
    } else {
        push_digits(&mut out, i as u64);
        assert(out@ =~= digits(i as nat));
    }
    out
}

/// The decimal notation of an unsigned number.
pub fn nat_to_text(n: u64) -> (r: String)
    ensures
        r@ == digits(n as nat),
{
    let mut out = String::new();
    push_digits(&mut out, n);
    assert(out@ =~= digits(n as nat));
    out
}

/// The parts of a text from the `i`-th character on, of which `out` and a part of the next one
/// have been seen.
pub open spec fn pieces_from(
    s: Seq<char>,
    sep: char,
    i: int,
    part: Seq<char>,
    out: Seq<Seq<char>>,
) -> Seq<Seq<char>>
    decreases s.len() - i,
{
    if !(0 <= i < s.len()) {
        out.push(part)
    } else if s[i] == sep {
        pieces_from(s, sep, i + 1, Seq::empty(), out.push(part))
    } else {
        pieces_from(s, sep, i + 1, part.push(s[i]), out)
    }
}

/// What stands before, between and after the separators of a text.
pub open spec fn pieces_of(s: Seq<char>, sep: char) -> Seq<Seq<char>> {
    pieces_from(s, sep, 0, Seq::empty(), Seq::empty())
}

pub proof fn lemma_some_piece(
    s: Seq<char>,
    sep: char,
    i: int,
    part: Seq<char>,
    out: Seq<Seq<char>>,
)
    ensures
        pieces_from(s, sep, i, part, out).len() > out.len(),
    decreases s.len() - i,
{
    if 0 <= i < s.len() {
        if s[i] == sep {
            lemma_some_piece(s, sep, i + 1, Seq::empty(), out.push(part));
        } else {
            lemma_some_piece(s, sep, i + 1, part.push(s[i]), out);
        }
    }
}

/// What stands before, between and after the separators of a text.
pub fn split_pieces(s: &str, sep: char) -> (r: Vec<String>)
    ensures
        texts(r@) == pieces_of(s@, sep),
        r@.len() > 0,
{
    let v = chars_of(s);
    let mut out: Vec<String> = Vec::new();
    let mut from: usize = 0;
    let mut i: usize = 0;
    assert(v@.subrange(0, 0) =~= Seq::empty());
    assert(texts(out@) =~= Seq::empty());
    while i < v.len()
        invariant
            v@ == s@,
            from <= i <= v@.len(),
            pieces_from(v@, sep, i as int, v@.subrange(from as int, i as int), texts(out@))
                == pieces_of(v@, sep),
        decreases v@.len() - i,
    {
        let ghost part = v@.subrange(from as int, i as int);
        let ghost seen = texts(out@);
        if v[i] == sep {
            let piece = sub_text(&v, from, i);
            out.push(piece);
            assert(texts(out@) =~= seen.push(part));
            from = i + 1;
            assert(v@.subrange(i + 1, i + 1) =~= Seq::empty());
        } else {
            assert(part.push(v@[i as int]) =~= v@.subrange(from as int, i + 1));
        }
        i = i + 1;
    }
    let ghost seen = texts(out@);
    let piece = sub_text(&v, from, i);
    out.push(piece);
    assert(texts(out@) =~= seen.push(v@.subrange(from as int, i as int)));
    out
}

/// A text without a carriage return at its end.
pub fn chomp(s: &str) -> (r: String)
    ensures
        r@ == chomped(s@),
{
    let v = chars_of(s);
    let n: usize = v.len();
    if n > 0 && v[n - 1] == '\r' {
        let r = sub_text(&v, 0, n - 1);
        assert(r@ =~= chomped(s@));
        r
    } else {
        s.to_owned()
    }
}

// ---------------------------------------------------------------------------
// Bytes
// ---------------------------------------------------------------------------

/// The bytes of a text.
pub fn bytes_of(s: &str) -> (r: Vec<u8>)
    ensures
        r@ == encode_utf8(s@),
{
    let b = s.as_bytes();
    let mut out: Vec<u8> = Vec::new();
    let mut i: usize = 0;
    while i < b.len()
        invariant
            i <= b@.len(),
            out@ == b@.take(i as int),
        decreases b@.len() - i,
    {
        out.push(b[i]);
        assert(out@ =~= b@.take(i + 1));
        i = i + 1;
    }
    assert(out@ =~= b@);
    out
}

/// Appends some bytes to others.
pub fn append_bytes(out: &mut Vec<u8>, more: &Vec<u8>)
    ensures
        final(out)@ == old(out)@ + more@,
{
    let ghost start = out@;
    let mut i: usize = 0;
    while i < more.len()
        invariant
            i <= more@.len(),
            out@ == start + more@.take(i as int),
        decreases more@.len() - i,
    {
        out.push(more[i]);
        assert(out@ =~= start + more@.take(i + 1));
        i = i + 1;
    }
    assert(out@ =~= start + more@);
}

/// `String::from_utf8`: the text that some bytes encode, if they are valid UTF-8.
#[verifier::external_body]
pub(crate) fn text_of_bytes(bytes: Vec<u8>) -> (r: Option<String>)
    ensures
        match r {
            Some(s) => valid_utf8(bytes@) && s@ == decode_utf8(bytes@),
            None => !valid_utf8(bytes@),
        },
{
    String::from_utf8(bytes).ok()
}

} // verus!
