//! Ways to write CSV other than the one that is used for writing it.

use super::csv::{rows_from, rows_of, Mode, Table};
use super::json_laws::{lemma_parts, stands};
use vstd::prelude::*;

verus! {

/// A field that needs no quotes.
pub open spec fn plain_field(x: Seq<char>) -> bool {
    forall|i: int|
        0 <= i < x.len() ==> #[trigger] x[i] != ',' && x[i] != '"' && x[i] != '\n' && x[i] != '\r'
}

/// A text with its quotes doubled, from the `i`-th character on.
pub open spec fn twice_from(x: Seq<char>, i: int) -> Seq<char>
    decreases x.len() - i,
{
    if !(0 <= i < x.len()) {
        Seq::empty()
    } else if x[i] == '"' {
        seq!['"', '"'] + twice_from(x, i + 1)
    } else {
        seq![x[i]] + twice_from(x, i + 1)
    }
}

/// A field, in quotes or as it is.
pub open spec fn cell(x: Seq<char>, quoted: bool) -> Seq<char> {
    if quoted {
        seq!['"'] + (twice_from(x, 0) + seq!['"'])
    } else {
        x
    }
}

/// The fields of a row from the `i`-th on, with commas between them.
pub open spec fn row_from(row: Seq<Seq<char>>, quoted: Seq<bool>, i: int) -> Seq<char>
    decreases row.len() - i,
{
    if !(0 <= i < row.len()) {
        Seq::empty()
    } else if i + 1 == row.len() {
        cell(row[i], quoted[i])
    } else {
        cell(row[i], quoted[i]) + (seq![','] + row_from(row, quoted, i + 1))
    }
}

/// A line feed, a carriage return, or both.
pub open spec fn line_end(end: Seq<char>) -> bool {
    end == seq!['\n'] || end == seq!['\r', '\n'] || end == seq!['\r']
}

/// The rows from the `i`-th on, each with a line end behind it.
pub open spec fn text_from(rows: Table, quoted: Seq<Seq<bool>>, end: Seq<char>, i: int) -> Seq<char>
    decreases rows.len() - i,
{
    if !(0 <= i < rows.len()) {
        Seq::empty()
    } else {
        row_from(rows[i], quoted[i], 0) + (end + text_from(rows, quoted, end, i + 1))
    }
}

/// Each field is in quotes or needs none.
pub open spec fn quoted_well(row: Seq<Seq<char>>, quoted: Seq<bool>) -> bool {
    &&& row.len() > 0
    &&& quoted.len() == row.len()
    &&& forall|i: int| 0 <= i < row.len() ==> quoted[i] || plain_field(#[trigger] row[i])
}

/// What a comma or a line end at `e` makes of the fields read so far.
spec fn ended(s: Seq<char>, e: int, rows: Table, row: Seq<Seq<char>>) -> Result<Table, Seq<char>> {
    if s[e] == ',' {
        rows_from(s, e + 1, rows, row, Seq::empty(), Mode::Plain, true)
    } else {
        rows_from(
            s,
            if s[e] == '\r' && e + 1 < s.len() && s[e + 1] == '\n' {
                e + 2
            } else {
                e + 1
            },
            rows.push(row),
            Seq::empty(),
            Seq::empty(),
            Mode::Plain,
            false,
        )
    }
}

spec fn at_end(s: Seq<char>, e: int) -> bool {
    0 <= e < s.len() && (s[e] == ',' || s[e] == '\n' || s[e] == '\r')
}

proof fn lemma_plain(
    s: Seq<char>,
    pos: int,
    x: Seq<char>,
    k: int,
    rows: Table,
    row: Seq<Seq<char>>,
    content: bool,
)
    requires
        plain_field(x),
        0 <= k <= x.len(),
        stands(s, pos, x),
        at_end(s, pos + x.len()),
    ensures
        rows_from(s, pos + k, rows, row, x.take(k), Mode::Plain, content) == ended(
            s,
            pos + x.len(),
            rows,
            row.push(x),
        ),
    decreases x.len() - k,
{
    if k < x.len() {
        assert(s[pos + k] == x[k]);
        assert(x[k] != ',' && x[k] != '"' && x[k] != '\n' && x[k] != '\r');
        assert(x.take(k).push(x[k]) =~= x.take(k + 1));
        lemma_plain(s, pos, x, k + 1, rows, row, true);
    } else {
        assert(x.take(k) =~= x);
    }
}

proof fn lemma_quoted(
    s: Seq<char>,
    pos: int,
    x: Seq<char>,
    k: int,
    rows: Table,
    row: Seq<Seq<char>>,
)
    requires
        0 <= k <= x.len(),
        0 <= pos,
        stands(s, pos, twice_from(x, k) + seq!['"']),
        at_end(s, pos + twice_from(x, k).len() + 1),
    ensures
        rows_from(s, pos, rows, row, x.take(k), Mode::Quoted, true) == ended(
            s,
            pos + twice_from(x, k).len() + 1,
            rows,
            row.push(x),
        ),
    decreases x.len() - k,
{
    let w = twice_from(x, k) + seq!['"'];
    assert(s[pos + 0] == w[0]);
    if k < x.len() {
        let rest = twice_from(x, k + 1) + seq!['"'];
        assert(x.take(k).push(x[k]) =~= x.take(k + 1));
        if x[k] == '"' {
            assert(w =~= seq!['"', '"'] + rest);
            lemma_parts(s, pos, seq!['"', '"'], rest);
            assert(s[pos + 1] == w[1]);
            lemma_quoted(s, pos + 2, x, k + 1, rows, row);
        } else {
            assert(w =~= seq![x[k]] + rest);
            lemma_parts(s, pos, seq![x[k]], rest);
            lemma_quoted(s, pos + 1, x, k + 1, rows, row);
        }
    } else {
        assert(w =~= seq!['"']);
        assert(x.take(k) =~= x);
        assert(s[pos + 1] != '"');
        assert(rows_from(s, pos, rows, row, x, Mode::Quoted, true) == rows_from(
            s,
            pos + 1,
            rows,
            row,
            x,
            Mode::Closed,
            true,
        ));
    }
}

proof fn lemma_cell(
    s: Seq<char>,
    pos: int,
    x: Seq<char>,
    quoted: bool,
    rows: Table,
    row: Seq<Seq<char>>,
    content: bool,
)
    requires
        quoted || plain_field(x),
        stands(s, pos, cell(x, quoted)),
        at_end(s, pos + cell(x, quoted).len()),
    ensures
        rows_from(s, pos, rows, row, Seq::empty(), Mode::Plain, content) == ended(
            s,
            pos + cell(x, quoted).len(),
            rows,
            row.push(x),
        ),
{
    assert(x.take(0) =~= Seq::empty());
    if quoted {
        let rest = twice_from(x, 0) + seq!['"'];
        lemma_parts(s, pos, seq!['"'], rest);
        assert(s[pos + 0] == seq!['"'][0]);
        lemma_quoted(s, pos + 1, x, 0, rows, row);
    } else {
        lemma_plain(s, pos, x, 0, rows, row, content);
    }
}

proof fn lemma_row(
    s: Seq<char>,
    pos: int,
    row: Seq<Seq<char>>,
    quoted: Seq<bool>,
    i: int,
    rows: Table,
    content: bool,
)
    requires
        quoted_well(row, quoted),
        0 <= i < row.len(),
        stands(s, pos, row_from(row, quoted, i)),
        at_end(s, pos + row_from(row, quoted, i).len()),
        s[pos + row_from(row, quoted, i).len()] != ',',
    ensures
        rows_from(s, pos, rows, row.take(i), Seq::empty(), Mode::Plain, content) == ended(
            s,
            pos + row_from(row, quoted, i).len(),
            rows,
            row,
        ),
    decreases row.len() - i,
{
    let c = cell(row[i], quoted[i]);
    assert(quoted[i] || plain_field(row[i]));
    assert(row.take(i).push(row[i]) =~= row.take(i + 1));
    if i + 1 == row.len() {
        lemma_cell(s, pos, row[i], quoted[i], rows, row.take(i), content);
        assert(row.take(i + 1) =~= row);
    } else {
        let rest = row_from(row, quoted, i + 1);
        lemma_parts(s, pos, c, seq![','] + rest);
        lemma_parts(s, pos + c.len(), seq![','], rest);
        assert(s[pos + c.len() + 0] == seq![','][0]);
        lemma_cell(s, pos, row[i], quoted[i], rows, row.take(i), content);
        lemma_row(s, pos + c.len() + 1, row, quoted, i + 1, rows, true);
    }
}

proof fn lemma_text(s: Seq<char>, pos: int, rows: Table, quoted: Seq<Seq<bool>>, end: Seq<char>, i: int)
    requires
        line_end(end),
        quoted.len() == rows.len(),
        forall|j: int| 0 <= j < rows.len() ==> quoted_well(#[trigger] rows[j], quoted[j]),
        0 <= i <= rows.len(),
        stands(s, pos, text_from(rows, quoted, end, i)),
        pos + text_from(rows, quoted, end, i).len() == s.len(),
    ensures
        rows_from(s, pos, rows.take(i), Seq::empty(), Seq::empty(), Mode::Plain, false) == Ok::<
            Table,
            Seq<char>,
        >(rows),
    decreases rows.len() - i,
{
    if i < rows.len() {
        let w = row_from(rows[i], quoted[i], 0);
        let rest = text_from(rows, quoted, end, i + 1);
        assert(quoted_well(rows[i], quoted[i]));
        lemma_parts(s, pos, w, end + rest);
        lemma_parts(s, pos + w.len(), end, rest);
        let e = pos + w.len();
        assert(s[e + 0] == end[0]);
        if end.len() == 2 {
            assert(s[e + 1] == end[1]);
        }
        assert(rows[i].take(0) =~= Seq::empty());
        lemma_row(s, pos, rows[i], quoted[i], 0, rows.take(i), false);
        assert(rows.take(i).push(rows[i]) =~= rows.take(i + 1));
        if end == seq!['\r'] && i + 1 < rows.len() {
            lemma_no_feed(rows[i + 1], quoted[i + 1], end, rest);
            assert(s[e + 1 + 0] == rest[0]);
        }
        lemma_text(s, e + end.len(), rows, quoted, end, i + 1);
    } else {
        assert(rows.take(i) =~= rows);
    }
}

/// A row does not start with a line feed, and the text of rows is not empty.
proof fn lemma_no_feed(row: Seq<Seq<char>>, quoted: Seq<bool>, end: Seq<char>, rest: Seq<char>)
    requires
        quoted_well(row, quoted),
        end == seq!['\r'],
        exists|more: Seq<char>| rest == row_from(row, quoted, 0) + (end + more),
    ensures
        rest.len() > 0,
        rest[0] != '\n',
{
    let more = choose|more: Seq<char>| rest == row_from(row, quoted, 0) + (end + more);
    let w = row_from(row, quoted, 0);
    let c = cell(row[0], quoted[0]);
    assert(quoted[0] || plain_field(row[0]));
    if w.len() == 0 {
        assert(rest[0] == end[0]);
    } else {
        assert(rest[0] == w[0]);
        if c.len() > 0 {
            assert(w[0] == c[0]);
            if !quoted[0] {
                assert(row[0][0] != '\n');
            }
        } else {
            assert(w[0] == ',');
        }
    }
}

/// The rows of a CSV text are the same whether lines end with a line feed, a carriage return or
/// both, and whether fields that need no quotes are in quotes or not.
pub proof fn law_csv_rows_read_in_any_form(rows: Table, quoted: Seq<Seq<bool>>, end: Seq<char>)
    requires
        line_end(end),
        quoted.len() == rows.len(),
        forall|j: int| 0 <= j < rows.len() ==> quoted_well(#[trigger] rows[j], quoted[j]),
    ensures
        rows_of(text_from(rows, quoted, end, 0)) == Ok::<Table, Seq<char>>(rows),
{
    let s = text_from(rows, quoted, end, 0);
    assert(stands(s, 0, s));
    assert(rows.take(0) =~= Seq::empty());
    lemma_text(s, 0, rows, quoted, end, 0);
}

} // verus!
