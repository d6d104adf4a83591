//! `file` addresses and the paths that they name.

use crate::numerals::{hex_digit, hex_digit_of};
use crate::text::{
    append_bytes, bytes_of, char_text, chars_of, has_prefix_at, starts_with, text_of, text_of_bytes,
};
use vstd::prelude::*;
use vstd::string::*;
use vstd::utf8::*;

verus! {

pub open spec fn is_letter(c: char) -> bool {
    'a' <= c <= 'z' || 'A' <= c <= 'Z'
}

fn letter(c: char) -> (r: bool)
    ensures
        r == is_letter(c),
{
    ('a' <= c && c <= 'z') || ('A' <= c && c <= 'Z')
}

/// A path that starts with a drive letter.
pub open spec fn is_drive_path(path: Seq<char>) -> bool {
    path.len() >= 3 && is_letter(path[0]) && path[1] == ':' && path[2] == '/'
}

fn is_windows_drive_path(path: &Vec<char>, from: usize) -> (r: bool)
    requires
        from <= path@.len(),
    ensures
        r == is_drive_path(path@.skip(from as int)),
{
    path.len() - from >= 3 && letter(path[from]) && path[from + 1] == ':' && path[from + 2] == '/'
}

/// The bytes that a text stands for from the `i`-th character on: `%` and two hexadecimal digits
/// are a byte, and every other character is its own bytes.
pub open spec fn percent_bytes_from(s: Seq<char>, i: int, out: Seq<u8>) -> Option<Seq<u8>>
    decreases s.len() - i,
{
    if !(0 <= i < s.len()) {
        Some(out)
    } else if s[i] != '%' {
        percent_bytes_from(s, i + 1, out + encode_utf8(seq![s[i]]))
    } else if i + 2 >= s.len() {
        None
    } else {
        match (hex_digit(s[i + 1]), hex_digit(s[i + 2])) {
            (Some(h), Some(l)) => percent_bytes_from(s, i + 3, out.push((16 * h + l) as u8)),
            _ => None,
        }
    }
}

/// The text that a percent-encoded one stands for.
pub open spec fn percent_decoded(s: Seq<char>) -> Option<Seq<char>> {
    match percent_bytes_from(s, 0, Seq::empty()) {
        Some(b) => if valid_utf8(b) {
            Some(decode_utf8(b))
        } else {
            None
        },
        None => None,
    }
}

pub open spec fn opt_str(o: Option<String>) -> Option<Seq<char>> {
    match o {
        Some(s) => Some(s@),
        None => None,
    }
}

fn percent_decode(v: &Vec<char>) -> (r: Option<String>)
    ensures
        opt_str(r) == percent_decoded(v@),
{
    let mut bytes: Vec<u8> = Vec::new();
    let mut i: usize = 0;
    while i < v.len()
        invariant
            i <= v@.len(),
            percent_bytes_from(v@, i as int, bytes@) == percent_bytes_from(v@, 0, Seq::empty()),
        decreases v@.len() - i,
    {
        let c = v[i];
        if c != '%' {
            let text = char_text(c);
            let more = bytes_of(text.as_str());
            append_bytes(&mut bytes, &more);
            i = i + 1;
        } else {
            if v.len() - i <= 2 {
                return None;
            }
            match (hex_digit_of(v[i + 1]), hex_digit_of(v[i + 2])) {
                (Some(h), Some(l)) => {
                    bytes.push((16 * h + l) as u8);
                },
                _ => {
                    return None;
                },
            }
            i = i + 3;
        }
    }
    text_of_bytes(bytes)
}

/// A text with backslashes in place of its slashes.
pub open spec fn backslashed(s: Seq<char>) -> Seq<char> {
    Seq::new(
        s.len(),
        |i: int|
            if s[i] == '/' {
                '\\'
            } else {
                s[i]
            },
    )
}

/// The path that a `file` address names. On Windows a path with a drive letter has no slash
/// before it, and backslashes behind it.
pub open spec fn path_of_uri(uri: Seq<char>, windows: bool) -> Option<Seq<char>> {
    if !starts_with(uri, "file://"@) {
        None
    } else {
        let rest = uri.skip(7);
        if rest.len() == 0 || rest[0] != '/' {
            None
        } else {
            match percent_decoded(rest) {
                Some(path) => if windows && path.len() > 0 && path[0] == '/' && is_drive_path(
                    path.skip(1),
                ) {
                    Some(backslashed(path.skip(1)))
                } else {
                    Some(path)
                },
                None => None,
            }
        }
    }
}

/// The path that a `file` address names.
pub fn uri_to_path(uri: &str, windows: bool) -> (r: Option<String>)
    ensures
        opt_str(r) == path_of_uri(uri@, windows),
{
    let v = chars_of(uri);
    let head = chars_of("file://");
    proof {
        reveal_strlit("file://");
        assert(head@.len() == 7);
        assert(v@.skip(0) =~= v@);
    }
    if !has_prefix_at(&v, 0, &head) {
        return None;
    }
    let n: usize = v.len();
    let mut rest: Vec<char> = Vec::new();
    let mut i: usize = 7;
    while i < n
        invariant
            n == v@.len(),
            7 <= i <= n,
            rest@ == v@.subrange(7, i as int),
        decreases n - i,
    {
        rest.push(v[i]);
        assert(rest@ =~= v@.subrange(7, i + 1));
        i = i + 1;
    }
    assert(rest@ =~= uri@.skip(7));
    if rest.len() == 0 || rest[0] != '/' {
        return None;
    }
    let path = match percent_decode(&rest) {
        Some(path) => path,
        None => {
            return None;
        },
    };
    if windows {
        let p = chars_of(path.as_str());
        if p.len() > 0 && p[0] == '/' && is_windows_drive_path(&p, 1) {
            let mut short: Vec<char> = Vec::new();
            let mut k: usize = 1;
            while k < p.len()
                invariant
                    1 <= k <= p@.len(),
                    p@ == path@,
                    short@ == backslashed(path@.skip(1)).take(k - 1),
                decreases p@.len() - k,
            {
                let c = if p[k] == '/' {
                    '\\'
                } else {
                    p[k]
                };
                short.push(c);
                assert(short@ =~= backslashed(path@.skip(1)).take(k as int));
                k = k + 1;
            }
            assert(short@ =~= backslashed(path@.skip(1)));
            return Some(text_of(&short));
        }
    }
    Some(path)
}

/// A byte that stands for itself in an address.
pub open spec fn is_plain(b: u8, drive: bool) -> bool {
    ||| 48 <= b <= 57
    ||| 65 <= b <= 90
    ||| 97 <= b <= 122
    ||| b == 45 || b == 46 || b == 95 || b == 126 || b == 47
    ||| drive && b == 58
}

/// The digit of a number below sixteen, with capital letters.
pub open spec fn big_hex(d: int) -> char {
    if d < 10 {
        (48 + d) as char
    } else {
        (55 + d) as char
    }
}

fn hex_letter(d: u8) -> (r: char)
    requires
        d < 16,
    ensures
        r == big_hex(d as int),
{
    if d < 10 {
        let b: u8 = 48 + d;
        b as char
    } else {
        let b: u8 = 55 + d;
        b as char
    }
}

pub open spec fn encoded_byte(b: u8, drive: bool) -> Seq<char> {
    if is_plain(b, drive) {
        seq![b as char]
    } else {
        seq!['%', big_hex(b as int / 16), big_hex(b as int % 16)]
    }
}

/// The bytes from the `i`-th on, percent-encoded.
pub open spec fn encoded_from(bytes: Seq<u8>, i: int, drive: bool) -> Seq<char>
    decreases bytes.len() - i,
{
    if 0 <= i < bytes.len() {
        encoded_byte(bytes[i], drive) + encoded_from(bytes, i + 1, drive)
    } else {
        Seq::empty()
    }
}

/// A text, percent-encoded.
pub open spec fn percent_encoded(path: Seq<char>, drive: bool) -> Seq<char> {
    encoded_from(encode_utf8(path), 0, drive)
}

fn percent_encode(path: &str, drive: bool, out: &mut String)
    ensures
        final(out)@ == old(out)@ + percent_encoded(path@, drive),
{
    let bytes = bytes_of(path);
    let ghost start = out@;
    let ghost whole = start + encoded_from(bytes@, 0, drive);
    let mut i: usize = 0;
    while i < bytes.len()
        invariant
            i <= bytes@.len(),
            out@ + encoded_from(bytes@, i as int, drive) == whole,
        decreases bytes@.len() - i,
    {
        let b: u8 = bytes[i];
        let ghost before = out@;
        if (48 <= b && b <= 57) || (65 <= b && b <= 90) || (97 <= b && b <= 122) || b == 45 || b
            == 46 || b == 95 || b == 126 || b == 47 || (drive && b == 58) {
            out.push(b as char);
        } else {
            out.push('%');
            out.push(hex_letter(b / 16));
            out.push(hex_letter(b % 16));
        }
        assert(out@ =~= before + encoded_byte(b, drive));
        assert(out@ + encoded_from(bytes@, i + 1, drive) =~= before + encoded_from(
            bytes@,
            i as int,
            drive,
        ));
        i = i + 1;
    }
    assert(out@ =~= whole);
}

/// A path with slashes for backslashes.
pub open spec fn slashed(path: Seq<char>) -> Seq<char> {
    path.map_values(
        |c: char|
            if c == '\\' {
                '/'
            } else {
                c
            },
    )
}

/// The `file` address of a path.
pub open spec fn uri_of_path(path: Seq<char>) -> Seq<char> {
    let p = slashed(path);
    if is_drive_path(p) {
        "file://"@ + seq!['/'] + percent_encoded(p, true)
    } else {
        "file://"@ + percent_encoded(p, false)
    }
}

/// The `file` address of a path.
pub fn path_to_uri(path: &str) -> (r: String)
    ensures
        r@ == uri_of_path(path@),
{
    let v = chars_of(path);
    let mut p: Vec<char> = Vec::new();
    let mut i: usize = 0;
    while i < v.len()
        invariant
            v@ == path@,
            i <= v@.len(),
            p@ == slashed(path@).take(i as int),
        decreases v@.len() - i,
    {
        if v[i] == '\\' {
            p.push('/');
        } else {
            p.push(v[i]);
        }
        assert(p@ =~= slashed(path@).take(i + 1));
        i = i + 1;
    }
    assert(p@ =~= slashed(path@));
    assert(p@.skip(0) =~= p@);
    let drive = is_windows_drive_path(&p, 0);
    let mut uri = "file://".to_owned();
    if drive {
        uri.push('/');
    }
    let text = text_of(&p);
    percent_encode(text.as_str(), drive, &mut uri);
    assert(uri@ =~= uri_of_path(path@));
    uri
}

proof fn lemma_plain_byte(b: u8)
    requires
        b < 128,
    ensures
        encode_utf8(seq![b as char]) == seq![b],
{
    let c = seq![b as char];
    assert(is_ascii_chars(c));
    is_ascii_chars_encode_utf8(c);
    assert(encode_utf8(c) =~= seq![b]);
}

proof fn lemma_reads_back(s: Seq<char>, pos: int, bytes: Seq<u8>, i: int, drive: bool, out: Seq<u8>)
    requires
        0 <= i <= bytes.len(),
        0 <= pos <= s.len(),
        s.skip(pos) == encoded_from(bytes, i, drive),
    ensures
        percent_bytes_from(s, pos, out) == Some(out + bytes.skip(i)),
    decreases bytes.len() - i,
{
    if i < bytes.len() {
        let b = bytes[i];
        let head = encoded_byte(b, drive);
        let rest = encoded_from(bytes, i + 1, drive);
        assert(s.skip(pos).len() == head.len() + rest.len());
        assert forall|k: int| 0 <= k < head.len() implies s[pos + k] == #[trigger] head[k] by {
            assert(s.skip(pos)[k] == (head + rest)[k]);
        }
        assert(s.skip(pos + head.len()) =~= rest) by {
            assert forall|k: int| 0 <= k < rest.len() implies s[pos + head.len() + k]
                == #[trigger] rest[k] by {
                assert(s.skip(pos)[head.len() + k] == (head + rest)[head.len() + k]);
            }
        }
        if is_plain(b, drive) {
            lemma_plain_byte(b);
            assert(s[pos + 0] == head[0]);
            lemma_reads_back(s, pos + 1, bytes, i + 1, drive, out + seq![b]);
            assert(out + seq![b] + bytes.skip(i + 1) =~= out + bytes.skip(i));
        } else {
            assert(s[pos + 0] == head[0]);
            assert(s[pos + 1] == head[1]);
            assert(s[pos + 2] == head[2]);
            let h = b as int / 16;
            let l = b as int % 16;
            assert(hex_digit(big_hex(h)) == Some(h as nat));
            assert(hex_digit(big_hex(l)) == Some(l as nat));
            assert(16 * h + l == b);
            lemma_reads_back(s, pos + 3, bytes, i + 1, drive, out.push(b));
            assert(out.push(b) + bytes.skip(i + 1) =~= out + bytes.skip(i));
        }
    } else {
        assert(s.skip(pos).len() == 0);
        assert(out + bytes.skip(i) =~= out);
    }
}

/// A text that was percent-encoded decodes as itself.
pub proof fn law_percent_decoding_undoes_encoding(path: Seq<char>, drive: bool)
    ensures
        percent_decoded(percent_encoded(path, drive)) == Some(path),
{
    let b = encode_utf8(path);
    let s = percent_encoded(path, drive);
    assert(s.skip(0) =~= s);
    lemma_reads_back(s, 0, b, 0, drive, Seq::empty());
    assert(Seq::<u8>::empty() + b.skip(0) =~= b);
    encode_utf8_valid_utf8(path);
    encode_utf8_decode_utf8(path);
}

/// The address of an absolute path with slashes names that path.
pub proof fn law_address_of_a_path_names_it(path: Seq<char>)
    requires
        path.len() > 0,
        path[0] == '/',
        !path.contains('\\'),
    ensures
        path_of_uri(uri_of_path(path), false) == Some(path),
{
    let p = slashed(path);
    assert(p =~= path) by {
        assert forall|i: int| 0 <= i < path.len() implies p[i] == path[i] by {
            assert(path.contains(path[i]));
        }
    }
    let rest = percent_encoded(path, false);
    reveal_strlit("file://");
    let uri = uri_of_path(path);
    assert(!is_drive_path(path));
    assert(uri == "file://"@ + rest);
    assert(uri.take(7) =~= "file://"@);
    assert(uri.skip(7) =~= rest);
    law_percent_decoding_undoes_encoding(path, false);
    let bytes = encode_utf8(path);
    encode_utf8_first_scalar(path);
    assert(rest.len() > 0 && rest[0] == '/') by {
        assert(path =~= seq!['/'] + path.skip(1));
        lemma_plain_byte(47);
        assert(bytes.len() > 0 && bytes[0] == 47) by {
            assert(path.first() == '/');
            lemma_first_byte(path);
        }
        assert(encoded_byte(47, false) =~= seq!['/']);
    }
}

proof fn lemma_slash_bytes()
    ensures
        encode_scalar('/' as u32) == seq![47u8],
{
    let one = seq!['/'];
    assert(one[0] == 47u8 as char);
    lemma_plain_byte(47);
    assert(one =~= seq![47u8 as char]);
    assert(encode_utf8(one) == seq![47u8]);
    assert(one.drop_first() =~= Seq::empty());
    assert(encode_utf8(one) =~= encode_scalar('/' as u32) + encode_utf8(one.drop_first()));
    assert(encode_utf8(one.drop_first()) =~= Seq::<u8>::empty());
    assert(encode_scalar('/' as u32) =~= seq![47u8]);
}

proof fn lemma_first_byte(path: Seq<char>)
    requires
        path.len() > 0,
        path[0] == '/',
    ensures
        encode_utf8(path).len() > 0,
        encode_utf8(path)[0] == 47,
{
    lemma_slash_bytes();
    assert(encode_utf8(path) =~= encode_scalar('/' as u32) + encode_utf8(path.drop_first()));
}

proof fn lemma_encoded_behind(b: u8, bytes: Seq<u8>, i: int, drive: bool)
    requires
        0 <= i,
    ensures
        encoded_from(seq![b] + bytes, i + 1, drive) == encoded_from(bytes, i, drive),
    decreases bytes.len() - i,
{
    if i < bytes.len() {
        assert((seq![b] + bytes)[i + 1] == bytes[i]);
        lemma_encoded_behind(b, bytes, i + 1, drive);
    }
}

/// On Windows, the address of a path with a drive letter and backslashes names that path.
pub proof fn law_address_of_a_drive_path_names_it(path: Seq<char>)
    requires
        is_drive_path(slashed(path)),
        !path.contains('/'),
    ensures
        path_of_uri(uri_of_path(path), true) == Some(path),
{
    let p = slashed(path);
    let whole = seq!['/'] + p;
    let rest = seq!['/'] + percent_encoded(p, true);
    reveal_strlit("file://");
    let uri = uri_of_path(path);
    assert(uri =~= "file://"@ + rest);
    assert(uri.take(7) =~= "file://"@);
    assert(uri.skip(7) =~= rest);
    assert(rest == percent_encoded(whole, true)) by {
        let bytes = encode_utf8(p);
        assert(whole.drop_first() =~= p);
        assert(encode_utf8(whole) =~= encode_scalar('/' as u32) + bytes);
        lemma_slash_bytes();
        assert(encode_utf8(whole) =~= seq![47u8] + bytes);
        lemma_encoded_behind(47, bytes, 0, true);
        assert(encoded_byte(47, true) =~= seq!['/']);
    }
    law_percent_decoding_undoes_encoding(whole, true);
    assert(whole.skip(1) =~= p);
    assert(backslashed(p) =~= path) by {
        assert forall|i: int| 0 <= i < path.len() implies backslashed(p)[i] == path[i] by {
            assert(path.contains(path[i]));
        }
    }
}

} // verus!
