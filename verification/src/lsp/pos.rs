//! Positions of the protocol, which count from zero and in units of an encoding.

use crate::diagnostics::{Position, Span};
use crate::text::{
    chars_of, chomp, chomped, code_of, lemma_some_piece, pieces_of, split_pieces, texts,
};
use vstd::prelude::*;
use vstd::string::*;

verus! {

/// What a column counts.
#[derive(Clone, Copy, Debug, PartialEq, Eq, Structural)]
pub enum Encoding {
    Utf16,
    Utf32,
}

pub open spec fn at_most(n: int) -> u32 {
    if n <= u32::MAX {
        n as u32
    } else {
        u32::MAX
    }
}

/// How many units a character takes.
pub open spec fn char_units(c: char, encoding: Encoding) -> int {
    if encoding == Encoding::Utf16 && c as u32 > 0xFFFF {
        2
    } else {
        1
    }
}

fn char_width(c: char, encoding: Encoding) -> (r: u32)
    ensures
        r == char_units(c, encoding),
{
    if encoding == Encoding::Utf16 && code_of(c) > 0xFFFF {
        2
    } else {
        1
    }
}

/// How many units the first `n` characters of a line take.
pub open spec fn units(line: Seq<char>, n: int, encoding: Encoding) -> int
    decreases n,
{
    if n <= 0 {
        0
    } else {
        units(line, n - 1, encoding) + char_units(line[n - 1], encoding)
    }
}

/// The lines of a text, among them an empty last one after a final line feed.
pub open spec fn all_lines(text: Seq<char>) -> Seq<Seq<char>> {
    pieces_of(text, '\n')
}

/// The line that a line number, counted from zero, stands for: the last one if there are not so
/// many.
pub open spec fn line_no(text: Seq<char>, requested: u32) -> int {
    if requested < all_lines(text).len() {
        requested as int
    } else {
        all_lines(text).len() - 1
    }
}

/// The content of that line.
pub open spec fn line_of(text: Seq<char>, requested: u32) -> Seq<char> {
    chomped(all_lines(text)[line_no(text, requested)])
}

fn line_at(text: &str, requested: u32) -> (r: (u32, String))
    ensures
        r.0 == line_no(text@, requested),
        r.1@ == line_of(text@, requested),
{
    let lines = split_pieces(text, '\n');
    let n: usize = lines.len();
    let at: usize = if (requested as u64) < n as u64 {
        requested as usize
    } else {
        n - 1
    };
    assert(texts(lines@)[at as int] == lines@[at as int]@);
    (at as u32, chomp(lines[at].as_str()))
}

/// The column, in units, of a column in characters: no further than the end of the line.
pub open spec fn column_to_lsp(line: Seq<char>, requested: u32, encoding: Encoding) -> u32 {
    at_most(
        units(
            line,
            if requested < line.len() {
                requested as int
            } else {
                line.len() as int
            },
            encoding,
        ),
    )
}

fn to_lsp_column(line: &str, requested: u32, encoding: Encoding) -> (r: u32)
    ensures
        r == column_to_lsp(line@, requested, encoding),
{
    let v = chars_of(line);
    let mut sum: u32 = 0;
    let mut i: usize = 0;
    while i < v.len() && (i as u64) < requested as u64
        invariant
            v@ == line@,
            i <= v@.len(),
            i <= requested,
            sum == at_most(units(v@, i as int, encoding)),
        decreases v@.len() - i,
    {
        let w: u32 = char_width(v[i], encoding);
        proof {
            lemma_units_grow(v@, 0, i as int, encoding);
        }
        sum = sum.saturating_add(w);
        i = i + 1;
    }
    sum
}

/// How many characters from the `i`-th on fit before a column, when those before it took `used`
/// units.
pub open spec fn fitting_from(
    line: Seq<char>,
    i: int,
    used: u32,
    requested: u32,
    encoding: Encoding,
) -> int
    decreases line.len() - i,
{
    if !(0 <= i < line.len()) {
        i
    } else {
        let next = at_most(used + char_units(line[i], encoding));
        if next > requested {
            i
        } else {
            fitting_from(line, i + 1, next, requested, encoding)
        }
    }
}

fn from_lsp_column(line: &str, requested: u32, encoding: Encoding) -> (r: u32)
    ensures
        r == at_most(fitting_from(line@, 0, 0, requested, encoding)),
{
    let v = chars_of(line);
    let mut column: u32 = 0;
    let mut used: u32 = 0;
    let mut i: usize = 0;
    while i < v.len()
        invariant
            v@ == line@,
            i <= v@.len(),
            column == at_most(i as int),
            fitting_from(v@, i as int, used, requested, encoding) == fitting_from(
                v@,
                0,
                0,
                requested,
                encoding,
            ),
        decreases v@.len() - i,
    {
        let w: u32 = char_width(v[i], encoding);
        let next: u32 = used.saturating_add(w);
        if next > requested {
            return column;
        }
        used = next;
        column = column.saturating_add(1);
        i = i + 1;
    }
    column
}

/// Positions count from one.
pub open spec fn from_zero(n: u32) -> u32 {
    if n == 0 {
        0
    } else {
        (n - 1) as u32
    }
}

/// A position in a text, as the protocol writes it.
pub open spec fn lsp_pos(text: Seq<char>, pos: Position, encoding: Encoding) -> (u32, u32) {
    (
        line_no(text, from_zero(pos.line)) as u32,
        column_to_lsp(line_of(text, from_zero(pos.line)), from_zero(pos.col), encoding),
    )
}

pub fn to_lsp_pos(text: &str, pos: Position, encoding: Encoding) -> (r: (u32, u32))
    ensures
        r == lsp_pos(text@, pos, encoding),
{
    let (line, line_text) = line_at(text, pos.line.saturating_sub(1));
    (line, to_lsp_column(line_text.as_str(), pos.col.saturating_sub(1), encoding))
}

/// The position in a text that the protocol writes so.
pub open spec fn pos_of_lsp(text: Seq<char>, line: u32, character: u32, encoding: Encoding) -> Position {
    Position {
        line: at_most(line_no(text, line) + 1),
        col: at_most(
            at_most(fitting_from(line_of(text, line), 0, 0, character, encoding)) + 1,
        ),
    }
}

pub fn from_lsp_pos(text: &str, line: u32, character: u32, encoding: Encoding) -> (r: Position)
    ensures
        r == pos_of_lsp(text@, line, character, encoding),
{
    let (at, line_text) = line_at(text, line);
    let col: u32 = from_lsp_column(line_text.as_str(), character, encoding);
    Position { line: at.saturating_add(1), col: col.saturating_add(1) }
}

/// The range of a span, as the protocol writes it.
pub open spec fn lsp_range(text: Seq<char>, span: Span, encoding: Encoding) -> (
    (u32, u32),
    (u32, u32),
) {
    (lsp_pos(text, span.start, encoding), lsp_pos(text, span.end, encoding))
}

pub fn span_to_range(text: &str, span: Span, encoding: Encoding) -> (r: ((u32, u32), (u32, u32)))
    ensures
        r == lsp_range(text@, span, encoding),
{
    (to_lsp_pos(text, span.start, encoding), to_lsp_pos(text, span.end, encoding))
}

/// Where a text ends.
pub open spec fn end_of(text: Seq<char>, encoding: Encoding) -> (u32, u32) {
    let last = chomped(all_lines(text).last());
    (
        at_most(all_lines(text).len() - 1),
        column_to_lsp(last, at_most(last.len() as int), encoding),
    )
}

pub fn document_end(text: &str, encoding: Encoding) -> (r: (u32, u32))
    ensures
        r == end_of(text@, encoding),
{
    let lines = split_pieces(text, '\n');
    let n: usize = lines.len();
    assert(texts(lines@)[n - 1] == lines@[n - 1]@);
    let last = chomp(lines[n - 1].as_str());
    let v = chars_of(last.as_str());
    let line: u32 = if (n - 1) as u64 <= u32::MAX as u64 {
        (n - 1) as u32
    } else {
        u32::MAX
    };
    let column: u32 = if v.len() as u64 <= u32::MAX as u64 {
        v.len() as u32
    } else {
        u32::MAX
    };
    (line, to_lsp_column(last.as_str(), column, encoding))
}

proof fn lemma_units_grow(line: Seq<char>, a: int, b: int, encoding: Encoding)
    requires
        0 <= a <= b,
    ensures
        units(line, a, encoding) + (b - a) <= units(line, b, encoding),
        a <= units(line, a, encoding),
    decreases a + b,
{
    if a < b {
        lemma_units_grow(line, a, b - 1, encoding);
    } else if a > 0 {
        lemma_units_grow(line, a - 1, b - 1, encoding);
    }
}

proof fn lemma_fitting(line: Seq<char>, i: int, k: int, encoding: Encoding)
    requires
        0 <= i <= k <= line.len(),
        units(line, k, encoding) < u32::MAX,
    ensures
        fitting_from(
            line,
            i,
            units(line, i, encoding) as u32,
            units(line, k, encoding) as u32,
            encoding,
        ) == k,
    decreases k - i,
{
    lemma_units_grow(line, i, k, encoding);
    lemma_units_grow(line, 0, i, encoding);
    if i < k {
        lemma_units_grow(line, i + 1, k, encoding);
        lemma_fitting(line, i + 1, k, encoding);
        assert(units(line, i + 1, encoding) == units(line, i, encoding) + char_units(
            line[i],
            encoding,
        ));
    } else if k < line.len() {
        assert(char_units(line[k], encoding) >= 1);
    }
}

/// A position that stands in a text is the same after a trip through the protocol.
pub proof fn law_positions_survive_the_protocol(
    text: Seq<char>,
    pos: Position,
    encoding: Encoding,
)
    requires
        1 <= pos.line <= all_lines(text).len(),
        1 <= pos.col <= line_of(text, (pos.line - 1) as u32).len() + 1,
        units(line_of(text, (pos.line - 1) as u32), pos.col - 1, encoding) < u32::MAX,
    ensures
        pos_of_lsp(
            text,
            lsp_pos(text, pos, encoding).0,
            lsp_pos(text, pos, encoding).1,
            encoding,
        ) == pos,
{
    let line = line_of(text, (pos.line - 1) as u32);
    lemma_fitting(line, 0, pos.col - 1, encoding);
    lemma_units_grow(line, 0, pos.col - 1, encoding);
}

/// Any position of the protocol names a place in the text.
pub proof fn law_positions_are_clamped(
    text: Seq<char>,
    line: u32,
    character: u32,
    encoding: Encoding,
)
    ensures
        1 <= pos_of_lsp(text, line, character, encoding).line <= all_lines(text).len(),
        1 <= pos_of_lsp(text, line, character, encoding).col <= line_of(text, line).len() + 1,
{
    lemma_some_piece(text, '\n', 0, Seq::empty(), Seq::empty());
    lemma_fitting_bound(line_of(text, line), 0, 0, character, encoding);
}

proof fn lemma_fitting_bound(
    line: Seq<char>,
    i: int,
    used: u32,
    requested: u32,
    encoding: Encoding,
)
    requires
        0 <= i <= line.len(),
    ensures
        i <= fitting_from(line, i, used, requested, encoding) <= line.len(),
    decreases line.len() - i,
{
    if i < line.len() {
        let next = at_most(used + char_units(line[i], encoding));
        lemma_fitting_bound(line, i + 1, next, requested, encoding);
    }
}

} // verus!
