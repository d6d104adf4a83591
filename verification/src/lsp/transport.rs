//! Messages on the wire: headers, a blank line, and a body of as many bytes as they say.

use crate::numerals::{is_digit, size_of, size_of_text};
use crate::stdlib::codec::json_laws::lemma_digits;
use crate::text::{
    append_bytes, bytes_of, chars_of, digits, nat_to_text, same_text, sub_text, text_of_bytes, trim,
    trim_left, trim_right, trimmed,
};
use vstd::prelude::*;
use vstd::string::*;
use vstd::utf8::*;

verus! {

/// The largest body that is read.
pub const MAX_MESSAGE_SIZE: usize = 67108864;

/// Why a message cannot be read.
#[derive(Clone, Copy, Debug, PartialEq, Eq, Structural)]
pub enum TransportError {
    HeadersEnded,
    HeaderNotUtf8,
    HeaderNotTerminated,
    HeaderWithoutColon,
    InvalidLength,
    MissingLength,
    TooLarge,
    BodyEnded,
    BodyNotUtf8,
}

impl TransportError {
    pub open spec fn says(&self) -> Seq<char> {
        match *self {
            TransportError::HeadersEnded => "LSP headers ended before the blank line"@,
            TransportError::HeaderNotUtf8 => "LSP header is not UTF-8"@,
            TransportError::HeaderNotTerminated => "LSP header is not CRLF terminated"@,
            TransportError::HeaderWithoutColon => "LSP header is missing ':'"@,
            TransportError::InvalidLength => "invalid Content-Length"@,
            TransportError::MissingLength => "LSP message is missing Content-Length"@,
            TransportError::TooLarge => "LSP message exceeds the maximum size"@,
            TransportError::BodyEnded => "failed to fill whole buffer"@,
            TransportError::BodyNotUtf8 => "LSP body is not UTF-8"@,
        }
    }

    pub fn message(&self) -> (r: String)
        ensures
            r@ == self.says(),
    {
        match *self {
            TransportError::HeadersEnded => "LSP headers ended before the blank line".to_owned(),
            TransportError::HeaderNotUtf8 => "LSP header is not UTF-8".to_owned(),
            TransportError::HeaderNotTerminated => "LSP header is not CRLF terminated".to_owned(),
            TransportError::HeaderWithoutColon => "LSP header is missing ':'".to_owned(),
            TransportError::InvalidLength => "invalid Content-Length".to_owned(),
            TransportError::MissingLength => "LSP message is missing Content-Length".to_owned(),
            TransportError::TooLarge => "LSP message exceeds the maximum size".to_owned(),
            TransportError::BodyEnded => "failed to fill whole buffer".to_owned(),
            TransportError::BodyNotUtf8 => "LSP body is not UTF-8".to_owned(),
        }
    }
}

/// What a header line says.
#[derive(Clone, Copy, Debug, PartialEq, Eq, Structural)]
pub enum Header {
    Blank,
    Length(usize),
    Other,
}

/// Where a character first stands in a text from the `i`-th on.
pub open spec fn first_at(s: Seq<char>, c: char, i: int) -> Option<int>
    decreases s.len() - i,
{
    if !(0 <= i < s.len()) {
        None
    } else if s[i] == c {
        Some(i)
    } else {
        first_at(s, c, i + 1)
    }
}

pub open spec fn lower_char(c: char) -> char {
    if 'A' <= c <= 'Z' {
        (c as u32 + 32) as char
    } else {
        c
    }
}

/// A text with small letters for the capital ones of ASCII.
pub open spec fn lower_case(s: Seq<char>) -> Seq<char> {
    s.map_values(|c: char| lower_char(c))
}

/// What a header line says, its line end included.
pub open spec fn header_of(line: Seq<u8>) -> Result<Header, TransportError> {
    if line == seq![13u8, 10u8] {
        Ok(Header::Blank)
    } else if !valid_utf8(line) {
        Err(TransportError::HeaderNotUtf8)
    } else {
        let s = decode_utf8(line);
        let n = s.len() - 2;
        if !(n >= 0 && s[n] == '\r' && s[n + 1] == '\n') {
            Err(TransportError::HeaderNotTerminated)
        } else {
            match first_at(s.take(n), ':', 0) {
                None => Err(TransportError::HeaderWithoutColon),
                Some(k) => if lower_case(trimmed(s.subrange(0, k))) == "content-length"@ {
                    match size_of(trimmed(s.subrange(k + 1, n))) {
                        Some(size) => Ok(Header::Length(size as usize)),
                        None => Err(TransportError::InvalidLength),
                    }
                } else {
                    Ok(Header::Other)
                },
            }
        }
    }
}

fn lower(s: &str) -> (r: String)
    ensures
        r@ == lower_case(s@),
{
    let v = chars_of(s);
    let mut out = String::new();
    let mut i: usize = 0;
    assert(out@ =~= lower_case(s@).take(0));
    while i < v.len()
        invariant
            v@ == s@,
            i <= v@.len(),
            out@ == lower_case(s@).take(i as int),
        decreases v@.len() - i,
    {
        let c = v[i];
        if 'A' <= c && c <= 'Z' {
            let b: u8 = c as u8;
            out.push((b + 32) as char);
        } else {
            out.push(c);
        }
        assert(out@ =~= lower_case(s@).take(i + 1));
        i = i + 1;
    }
    assert(out@ =~= lower_case(s@));
    out
}

/// Reads a header line, its line end included.
pub fn read_header(line: Vec<u8>) -> (r: Result<Header, TransportError>)
    ensures
        r == header_of(line@),
{
    if line.len() == 2 && line[0] == 13 && line[1] == 10 {
        assert(line@ =~= seq![13u8, 10u8]);
        return Ok(Header::Blank);
    }
    assert(line@ != seq![13u8, 10u8]) by {
        if line@ == seq![13u8, 10u8] {
            assert(line@[0] == 13u8 && line@[1] == 10u8);
        }
    }
    let text = match text_of_bytes(line) {
        Some(text) => text,
        None => {
            return Err(TransportError::HeaderNotUtf8);
        },
    };
    let v = chars_of(text.as_str());
    if v.len() < 2 || v[v.len() - 2] != '\r' || v[v.len() - 1] != '\n' {
        return Err(TransportError::HeaderNotTerminated);
    }
    let n: usize = v.len() - 2;
    let ghost head = v@.take(n as int);
    let mut k: usize = 0;
    while k < n && v[k] != ':'
        invariant
            n + 2 == v@.len(),
            head == v@.take(n as int),
            k <= n,
            first_at(head, ':', k as int) == first_at(head, ':', 0),
        decreases n - k,
    {
        assert(head[k as int] == v@[k as int]);
        k = k + 1;
    }
    if k == n {
        return Err(TransportError::HeaderWithoutColon);
    }
    assert(head[k as int] == v@[k as int]);
    let raw_name = sub_text(&v, 0, k);
    let name = trim(raw_name.as_str());
    let small = lower(name.as_str());
    if !same_text(small.as_str(), "content-length") {
        return Ok(Header::Other);
    }
    let raw_value = sub_text(&v, k + 1, n);
    let value = trim(raw_value.as_str());
    match size_of_text(value.as_str()) {
        Some(size) => Ok(Header::Length(size)),
        None => Err(TransportError::InvalidLength),
    }
}

/// How many bytes the body has after the headers, the last of which that said so gave `length`.
pub open spec fn body_length(length: Option<usize>) -> Result<usize, TransportError> {
    match length {
        None => Err(TransportError::MissingLength),
        Some(n) => if n > MAX_MESSAGE_SIZE {
            Err(TransportError::TooLarge)
        } else {
            Ok(n)
        },
    }
}

pub fn body_size(length: Option<usize>) -> (r: Result<usize, TransportError>)
    ensures
        r == body_length(length),
{
    match length {
        None => Err(TransportError::MissingLength),
        Some(n) => {
            if n > MAX_MESSAGE_SIZE {
                Err(TransportError::TooLarge)
            } else {
                Ok(n)
            }
        },
    }
}

/// The text of a body.
pub open spec fn body_of(bytes: Seq<u8>) -> Result<Seq<char>, TransportError> {
    if valid_utf8(bytes) {
        Ok(decode_utf8(bytes))
    } else {
        Err(TransportError::BodyNotUtf8)
    }
}

pub fn body_text(bytes: Vec<u8>) -> (r: Result<String, TransportError>)
    ensures
        match r {
            Ok(s) => body_of(bytes@) == Ok::<Seq<char>, TransportError>(s@),
            Err(e) => body_of(bytes@) == Err::<Seq<char>, TransportError>(e),
        },
{
    match text_of_bytes(bytes) {
        Some(s) => Ok(s),
        None => Err(TransportError::BodyNotUtf8),
    }
}

/// Where the line that starts at `at` ends: after its line feed, or with the input.
pub open spec fn line_end(input: Seq<u8>, at: int) -> int
    decreases input.len() - at,
{
    if !(0 <= at < input.len()) {
        at
    } else if input[at] == 10 {
        at + 1
    } else {
        line_end(input, at + 1)
    }
}

pub proof fn lemma_line_end(input: Seq<u8>, at: int)
    requires
        0 <= at < input.len(),
    ensures
        at < line_end(input, at) <= input.len(),
    decreases input.len() - at,
{
    if input[at] != 10 {
        if at + 1 < input.len() {
            lemma_line_end(input, at + 1);
        } else {
            assert(line_end(input, at + 1) == at + 1);
        }
    }
}

/// What is known of a message while its headers are read: the length that the last header that
/// said so gave, and whether there was a line at all.
#[derive(Clone, Copy, Debug, PartialEq, Eq, Structural)]
pub struct Headers {
    pub length: Option<usize>,
    pub seen: bool,
}

/// What is to be read next: a line, a body of some bytes, or nothing more.
#[derive(Clone, Copy, Debug, PartialEq, Eq, Structural)]
pub enum Wanted {
    Line,
    Body(usize),
    Nothing,
}

/// Before any line.
pub open spec fn no_headers() -> Headers {
    Headers { length: None, seen: false }
}

/// What is known, and what is to be read next, once a line has been read. An empty line is the
/// end of the input: every other one ends with its line feed.
pub open spec fn line_taken(h: Headers, line: Seq<u8>) -> Result<
    (Headers, Wanted),
    TransportError,
> {
    if line.len() == 0 {
        if h.seen {
            Err(TransportError::HeadersEnded)
        } else {
            Ok((h, Wanted::Nothing))
        }
    } else {
        match header_of(line) {
            Err(e) => Err(e),
            Ok(Header::Other) => Ok((Headers { length: h.length, seen: true }, Wanted::Line)),
            Ok(Header::Length(n)) => Ok((Headers { length: Some(n), seen: true }, Wanted::Line)),
            Ok(Header::Blank) => match body_length(h.length) {
                Err(e) => Err(e),
                Ok(n) => Ok((Headers { length: h.length, seen: true }, Wanted::Body(n))),
            },
        }
    }
}

impl Headers {
    pub fn new() -> (r: Headers)
        ensures
            r == no_headers(),
    {
        Headers { length: None, seen: false }
    }

    /// Takes a line, its line feed included, and tells what is to be read next.
    pub fn take(&mut self, line: Vec<u8>) -> (r: Result<Wanted, TransportError>)
        ensures
            match r {
                Ok(wanted) => line_taken(*old(self), line@) == Ok::<
                    (Headers, Wanted),
                    TransportError,
                >((*final(self), wanted)),
                Err(e) => line_taken(*old(self), line@) == Err::<
                    (Headers, Wanted),
                    TransportError,
                >(e) && *final(self) == *old(self),
            },
    {
        if line.len() == 0 {
            return if self.seen {
                Err(TransportError::HeadersEnded)
            } else {
                Ok(Wanted::Nothing)
            };
        }
        match read_header(line) {
            Err(e) => Err(e),
            Ok(Header::Other) => {
                self.seen = true;
                Ok(Wanted::Line)
            },
            Ok(Header::Length(n)) => {
                self.length = Some(n);
                self.seen = true;
                Ok(Wanted::Line)
            },
            Ok(Header::Blank) => match body_size(self.length) {
                Ok(n) => {
                    self.seen = true;
                    Ok(Wanted::Body(n))
                },
                Err(e) => Err(e),
            },
        }
    }
}

/// The message that stands at `at` in the input, and where it ends; nothing if the input ends
/// there. Of its headers some may have been read already.
pub open spec fn message_at(input: Seq<u8>, at: int, h: Headers) -> Result<
    Option<(Seq<char>, int)>,
    TransportError,
>
    decreases input.len() - at,
{
    if !(0 <= at < input.len()) {
        match line_taken(h, Seq::empty()) {
            Err(e) => Err(e),
            Ok(_) => Ok(None),
        }
    } else {
        let end = line_end(input, at);
        proof {
            lemma_line_end(input, at);
        }
        match line_taken(h, input.subrange(at, end)) {
            Err(e) => Err(e),
            Ok((next, Wanted::Line)) => message_at(input, end, next),
            Ok((_, Wanted::Body(n))) => if end + n > input.len() {
                Err(TransportError::BodyEnded)
            } else {
                match body_of(input.subrange(end, end + n)) {
                    Ok(text) => Ok(Some((text, end + n))),
                    Err(e) => Err(e),
                }
            },
            Ok((_, Wanted::Nothing)) => Ok(None),
        }
    }
}

pub open spec fn message_result(r: Result<Option<(String, usize)>, TransportError>) -> Result<
    Option<(Seq<char>, int)>,
    TransportError,
> {
    match r {
        Ok(Some((s, at))) => Ok(Some((s@, at as int))),
        Ok(None) => Ok(None),
        Err(e) => Err(e),
    }
}

fn sub_bytes(input: &Vec<u8>, from: usize, to: usize) -> (r: Vec<u8>)
    requires
        from <= to <= input@.len(),
    ensures
        r@ == input@.subrange(from as int, to as int),
{
    let mut out: Vec<u8> = Vec::new();
    let mut i: usize = from;
    while i < to
        invariant
            from <= i <= to <= input@.len(),
            out@ == input@.subrange(from as int, i as int),
        decreases to - i,
    {
        out.push(input[i]);
        assert(out@ =~= input@.subrange(from as int, i + 1));
        i = i + 1;
    }
    out
}

/// Reads the message that stands at `at` in the input.
pub fn read_message(input: &Vec<u8>, at: usize) -> (r: Result<
    Option<(String, usize)>,
    TransportError,
>)
    requires
        at <= input@.len(),
    ensures
        message_result(r) == message_at(input@, at as int, no_headers()),
{
    let mut headers = Headers::new();
    let mut pos: usize = at;
    while pos < input.len()
        invariant
            at <= input@.len(),
            pos <= input@.len(),
            message_at(input@, pos as int, headers) == message_at(
                input@,
                at as int,
                no_headers(),
            ),
        decreases input@.len() - pos,
    {
        let mut end: usize = pos;
        proof {
            lemma_line_end(input@, pos as int);
        }
        while end < input.len() && input[end] != 10
            invariant
                pos <= end <= input@.len(),
                line_end(input@, end as int) == line_end(input@, pos as int),
            decreases input@.len() - end,
        {
            end = end + 1;
        }
        if end < input.len() {
            end = end + 1;
        }
        let line = sub_bytes(input, pos, end);
        match headers.take(line) {
            Err(e) => {
                return Err(e);
            },
            Ok(Wanted::Nothing) => {
                return Ok(None);
            },
            Ok(Wanted::Body(n)) => {
                if n > input.len() - end {
                    return Err(TransportError::BodyEnded);
                }
                let body = sub_bytes(input, end, end + n);
                return match body_text(body) {
                    Ok(s) => Ok(Some((s, end + n))),
                    Err(e) => Err(e),
                };
            },
            Ok(Wanted::Line) => {},
        }
        pos = end;
    }
    let nothing: Vec<u8> = Vec::new();
    assert(nothing@ =~= Seq::empty());
    match headers.take(nothing) {
        Err(e) => Err(e),
        Ok(_) => Ok(None),
    }
}

/// The headers of a body of `n` bytes.
pub open spec fn headers_for(n: nat) -> Seq<char> {
    "Content-Length: "@ + digits(n) + "\r\n\r\n"@
}

/// A message on the wire.
pub open spec fn framed(body: Seq<char>) -> Seq<u8> {
    encode_utf8(headers_for(encode_utf8(body).len())) + encode_utf8(body)
}

/// Appends a message to the output.
pub fn write_message(output: &mut Vec<u8>, body: &str)
    ensures
        final(output)@ == old(output)@ + framed(body@),
{
    let ghost start = output@;
    let bytes = bytes_of(body);
    let size = nat_to_text(bytes.len() as u64);
    let mut head = "Content-Length: ".to_owned();
    head.append(size.as_str());
    head.append("\r\n\r\n");
    let first = bytes_of(head.as_str());
    append_bytes(output, &first);
    append_bytes(output, &bytes);
    assert(output@ =~= start + framed(body@));
}

proof fn lemma_line_ends(input: Seq<u8>, at: int, end: int)
    requires
        0 <= at < end <= input.len(),
        input[end - 1] == 10,
        forall|i: int| at <= i < end - 1 ==> #[trigger] input[i] != 10,
    ensures
        line_end(input, at) == end,
    decreases end - at,
{
    if at + 1 < end {
        lemma_line_ends(input, at + 1, end);
    }
}

/// The first header line of a message.
pub open spec fn length_line(n: nat) -> Seq<char> {
    "Content-Length: "@ + digits(n) + "\r\n"@
}

proof fn lemma_length_line(n: nat)
    requires
        n <= MAX_MESSAGE_SIZE,
    ensures
        is_ascii_chars(length_line(n)),
        length_line(n).len() > 2,
        length_line(n).last() == '\n',
        forall|i: int| 0 <= i < length_line(n).len() - 1 ==> #[trigger] length_line(n)[i] != '\n',
        header_of(encode_utf8(length_line(n))) == Ok::<Header, TransportError>(
            Header::Length(n as usize),
        ),
{
    let h = length_line(n);
    reveal_strlit("Content-Length: ");
    reveal_strlit("content-length");
    reveal_strlit("\r\n");
    lemma_digits(n);
    let d = digits(n);
    let e = h.len() - 2;
    assert(e == 16 + d.len());
    assert(h[e] == '\r' && h[e + 1] == '\n');
    assert forall|i: int| 16 <= i < e implies is_digit(#[trigger] h[i]) by {
        assert(h[i] == d[i - 16]);
    }
    assert forall|i: int| 0 <= i < h.len() - 1 implies #[trigger] h[i] != '\n' && h[i]
        <= '\u{7f}' by {
        if i < 16 {
            assert(h[i] == "Content-Length: "@[i]);
        } else if i < e {
            assert(is_digit(h[i]));
        }
    }
    assert(is_ascii_chars(h));
    encode_utf8_valid_utf8(h);
    encode_utf8_decode_utf8(h);
    is_ascii_chars_encode_utf8(h);
    let head = h.take(e);
    assert(first_at(head, ':', 14) == Some(14int)) by {
        assert(head[14] == ':');
    }
    lemma_first(head, ':', 0, 14);
    let name = h.subrange(0, 14);
    assert(name[0] == 'C' && name.last() == 'h');
    assert(trim_left(name) == name);
    assert(trim_right(name) == name);
    assert(lower_case(name) =~= "content-length"@);
    let value = h.subrange(15, e);
    assert(value =~= seq![' '] + d);
    assert(value.drop_first() =~= d);
    assert(is_digit(d[0]));
    assert(is_digit(d[d.len() - 1]));
    assert(trim_left(d) == d);
    assert(trim_left(value) == d);
    assert(trim_right(d) == d);
    assert(encode_utf8(h).len() > 2);
}

proof fn lemma_first(s: Seq<char>, c: char, i: int, k: int)
    requires
        0 <= i <= k < s.len(),
        s[k] == c,
        forall|j: int| i <= j < k ==> #[trigger] s[j] != c,
    ensures
        first_at(s, c, i) == Some(k),
    decreases k - i,
{
    if i < k {
        lemma_first(s, c, i + 1, k);
    }
}

/// A message that was written reads back, wherever it stands, and the next one starts where it
/// ends.
pub proof fn law_messages_read_back(before: Seq<u8>, body: Seq<char>, after: Seq<u8>)
    requires
        encode_utf8(body).len() <= MAX_MESSAGE_SIZE,
    ensures
        message_at(before + framed(body) + after, before.len() as int, no_headers()) == Ok::<
            Option<(Seq<char>, int)>,
            TransportError,
        >(Some((body, (before.len() + framed(body).len()) as int))),
{
    let bytes = encode_utf8(body);
    let n = bytes.len();
    let h = length_line(n);
    let all = headers_for(n);
    let input = before + framed(body) + after;
    let at = before.len() as int;
    lemma_length_line(n);
    reveal_strlit("\r\n");
    reveal_strlit("\r\n\r\n");
    assert(all =~= h + seq!['\r', '\n']);
    assert(is_ascii_chars(all));
    is_ascii_chars_encode_utf8(all);
    is_ascii_chars_encode_utf8(h);
    assert forall|i: int| 0 <= i < all.len() implies #[trigger] input[at + i] == all[i] as u8 by {
        assert(input[at + i] == framed(body)[i]);
        assert(framed(body)[i] == encode_utf8(all)[i]);
    }
    let e1 = at + h.len();
    assert(input[e1 - 1] == 10) by {
        assert(input[at + (h.len() - 1)] == all[h.len() - 1] as u8);
        assert(all[h.len() - 1] == '\n');
    }
    assert forall|i: int| at <= i < e1 - 1 implies #[trigger] input[i] != 10 by {
        assert(input[at + (i - at)] == all[i - at] as u8);
        assert(all[i - at] == h[i - at]);
        assert(h[i - at] != '\n');
        assert(all[i - at] <= '\u{7f}');
    }
    lemma_line_ends(input, at, e1);
    let line = input.subrange(at, e1);
    assert(line =~= encode_utf8(h)) by {
        assert forall|i: int| 0 <= i < h.len() implies line[i] == #[trigger] encode_utf8(h)[i] by {
            assert(input[at + i] == all[i] as u8);
            assert(h[i] as u8 == encode_utf8(h)[i]);
        }
    }
    let e2 = e1 + 2;
    assert(input[at + h.len()] == 13u8 && input[at + (h.len() + 1)] == 10u8);
    lemma_line_ends(input, e1, e2);
    assert(input.subrange(e1, e2) =~= seq![13u8, 10u8]);
    assert(input.subrange(e2, e2 + n) =~= bytes);
    encode_utf8_valid_utf8(body);
    encode_utf8_decode_utf8(body);
    assert(message_at(input, e1, Headers { length: Some(n as usize), seen: true }) == Ok::<
        Option<(Seq<char>, int)>,
        TransportError,
    >(Some((body, e2 + n))));
}

/// An input that has ended holds no message.
pub proof fn law_no_message_after_the_end(input: Seq<u8>)
    ensures
        message_at(input, input.len() as int, no_headers()) == Ok::<
            Option<(Seq<char>, int)>,
            TransportError,
        >(None),
{
}

} // verus!
