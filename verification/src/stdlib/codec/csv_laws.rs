//! Reading back what was written as CSV.

use super::csv::{
    blank, cell_of, cell_text, cells_from, column_from, columns_from, csv_text, doubled_from,
    field_text, header_of, kind_of, line_from, lines_from, record_cells, record_rows,
    records_from, records_of, rows_from, rows_of, CellKind, Mode, Table,
};
use super::dynamic::float_text;
use super::json::Reading;
use super::json_laws::{lemma_digits, lemma_int_text, lemma_parts, stands};
use crate::ast::ParamV;
use crate::eval::value::ValueV;
use crate::numerals::is_digit;
use crate::text::{digits, int_text, is_space, trimmed};
use vstd::prelude::*;

verus! {

/// What follows a field that was written.
spec fn field_ends(s: Seq<char>, at: int) -> bool {
    0 <= at < s.len() && (s[at] == ',' || s[at] == '\n')
}

/// What is left to read once the field `x` has been read up to the separator at `at`.
spec fn after_field(s: Seq<char>, at: int, rows: Table, row: Seq<Seq<char>>, x: Seq<char>) -> Result<
    Table,
    Seq<char>,
> {
    if s[at] == ',' {
        rows_from(s, at + 1, rows, row.push(x), Seq::empty(), Mode::Plain, true)
    } else {
        rows_from(
            s,
            at + 1,
            rows.push(row.push(x)),
            Seq::empty(),
            Seq::empty(),
            Mode::Plain,
            false,
        )
    }
}

proof fn lemma_plain(
    s: Seq<char>,
    i: int,
    x: Seq<char>,
    k: int,
    rows: Table,
    row: Seq<Seq<char>>,
    content: bool,
)
    requires
        0 <= k <= x.len(),
        !x.contains(','),
        !x.contains('"'),
        !x.contains('\n'),
        !x.contains('\r'),
        stands(s, i, x),
        field_ends(s, i + x.len()),
    ensures
        rows_from(s, i + k, rows, row, x.take(k), Mode::Plain, content) == after_field(
            s,
            i + x.len(),
            rows,
            row,
            x,
        ),
    decreases x.len() - k,
{
    if k < x.len() {
        assert(s[i + k] == x[k]);
        assert(x.contains(x[k]));
        assert(x.take(k).push(x[k]) =~= x.take(k + 1));
        lemma_plain(s, i, x, k + 1, rows, row, true);
    } else {
        assert(x.take(k) =~= x);
    }
}

proof fn lemma_quoted(
    s: Seq<char>,
    i: int,
    x: Seq<char>,
    k: int,
    rows: Table,
    row: Seq<Seq<char>>,
    content: bool,
)
    requires
        0 <= k <= x.len(),
        stands(s, i, doubled_from(x, k)),
        i + doubled_from(x, k).len() < s.len(),
        s[i + doubled_from(x, k).len()] == '"',
        field_ends(s, i + doubled_from(x, k).len() + 1),
    ensures
        rows_from(s, i, rows, row, x.take(k), Mode::Quoted, content) == after_field(
            s,
            i + doubled_from(x, k).len() + 1,
            rows,
            row,
            x,
        ),
    decreases x.len() - k,
{
    if k < x.len() {
        let c = x[k];
        let first = if c == '"' {
            seq!['"', '"']
        } else {
            seq![c]
        };
        lemma_parts(s, i, first, doubled_from(x, k + 1));
        assert(s[i + 0] == first[0]);
        assert(x.take(k).push(c) =~= x.take(k + 1));
        if c == '"' {
            assert(s[i + 1] == first[1]);
        }
        lemma_quoted(s, i + first.len(), x, k + 1, rows, row, content);
    } else {
        assert(doubled_from(x, k).len() == 0);
        assert(rows_from(s, i + 1, rows, row, x, Mode::Closed, content) == after_field(
            s,
            i + 1,
            rows,
            row,
            x,
        ));
        assert(x.take(k) =~= x);
    }
}

proof fn lemma_field(
    s: Seq<char>,
    i: int,
    x: Seq<char>,
    rows: Table,
    row: Seq<Seq<char>>,
    content: bool,
)
    requires
        stands(s, i, field_text(x)),
        field_ends(s, i + field_text(x).len()),
    ensures
        rows_from(s, i, rows, row, Seq::empty(), Mode::Plain, content) == after_field(
            s,
            i + field_text(x).len(),
            rows,
            row,
            x,
        ),
{
    assert(x.take(0) =~= Seq::empty());
    if x.contains(',') || x.contains('"') || x.contains('\n') || x.contains('\r') {
        let inner = doubled_from(x, 0);
        assert(field_text(x) =~= seq!['"'] + (inner + seq!['"']));
        lemma_parts(s, i, seq!['"'], inner + seq!['"']);
        lemma_parts(s, i + 1, inner, seq!['"']);
        assert(s[i + 0] == seq!['"'][0]);
        assert(s[i + 1 + inner.len() + 0] == seq!['"'][0]);
        lemma_quoted(s, i + 1, x, 0, rows, row, true);
    } else {
        lemma_plain(s, i, x, 0, rows, row, content);
    }
}

proof fn lemma_line(
    s: Seq<char>,
    i: int,
    row: Seq<Seq<char>>,
    k: int,
    rows: Table,
    content: bool,
)
    requires
        0 <= k < row.len(),
        stands(s, i, field_text(row[k]) + line_from(row, k + 1) + seq!['\n']),
    ensures
        rows_from(s, i, rows, row.take(k), Seq::empty(), Mode::Plain, content) == rows_from(
            s,
            i + (field_text(row[k]) + line_from(row, k + 1)).len() + 1,
            rows.push(row),
            Seq::empty(),
            Seq::empty(),
            Mode::Plain,
            false,
        ),
    decreases row.len() - k,
{
    let first = field_text(row[k]);
    let rest = line_from(row, k + 1);
    assert(first + rest + seq!['\n'] =~= first + (rest + seq!['\n']));
    lemma_parts(s, i, first, rest + seq!['\n']);
    let e = i + first.len();
    assert(row.take(k).push(row[k]) =~= row.take(k + 1));
    if k + 1 < row.len() {
        let tail = field_text(row[k + 1]) + line_from(row, k + 2);
        assert(rest =~= seq![','] + tail);
        assert(rest + seq!['\n'] =~= seq![','] + (tail + seq!['\n']));
        lemma_parts(s, e, seq![','], tail + seq!['\n']);
        assert(s[e + 0] == seq![','][0]);
        lemma_field(s, i, row[k], rows, row.take(k), content);
        lemma_line(s, e + 1, row, k + 1, rows, true);
    } else {
        assert(rest + seq!['\n'] =~= seq!['\n']);
        assert(s[e + 0] == (rest + seq!['\n'])[0]);
        lemma_field(s, i, row[k], rows, row.take(k), content);
        assert(row.take(k + 1) =~= row);
    }
}

proof fn lemma_lines(s: Seq<char>, i: int, rows: Table, k: int)
    requires
        0 <= k <= rows.len(),
        forall|j: int| 0 <= j < rows.len() ==> (#[trigger] rows[j]).len() > 0,
        stands(s, i, lines_from(rows, k)),
        i + lines_from(rows, k).len() == s.len(),
    ensures
        rows_from(s, i, rows.take(k), Seq::empty(), Seq::empty(), Mode::Plain, false) == Ok::<
            Table,
            Seq<char>,
        >(rows),
    decreases rows.len() - k,
{
    if k < rows.len() {
        let row = rows[k];
        assert(row.len() > 0);
        let line = line_from(row, 0);
        lemma_parts(s, i, line + seq!['\n'], lines_from(rows, k + 1));
        assert(line =~= field_text(row[0]) + line_from(row, 1));
        assert(row.take(0) =~= Seq::empty());
        lemma_line(s, i, row, 0, rows.take(k), false);
        assert(rows.take(k).push(row) =~= rows.take(k + 1));
        lemma_lines(s, i + line.len() + 1, rows, k + 1);
    } else {
        assert(rows.take(k) =~= rows);
    }
}

/// The rows that were written as CSV read back as they were.
pub proof fn law_csv_rows_read_back(rows: Table)
    requires
        forall|j: int| 0 <= j < rows.len() ==> (#[trigger] rows[j]).len() > 0,
    ensures
        rows_of(lines_from(rows, 0)) == Ok::<Table, Seq<char>>(rows),
{
    let s = lines_from(rows, 0);
    assert(stands(s, 0, s));
    assert(rows.take(0) =~= Seq::empty());
    lemma_lines(s, 0, rows, 0);
}

// ---------------------------------------------------------------------------
// Records
// ---------------------------------------------------------------------------

proof fn lemma_trim_bare(s: Seq<char>)
    requires
        s.len() > 0,
        !is_space(s[0]),
        !is_space(s.last()),
    ensures
        trimmed(s) == s,
{
}

/// A field of a record reads back from how it is written.
pub open spec fn cell_fits(read: Reading, v: ValueV, kind: CellKind) -> bool {
    match kind {
        CellKind::Int => v is Int,
        CellKind::Float => v matches ValueV::Float(x) && read(trimmed(float_text(x))) == Some(x),
        CellKind::Bool => v is Bool,
        CellKind::Str => v is Str,
    }
}

proof fn lemma_cell(read: Reading, v: ValueV, kind: CellKind)
    requires
        cell_fits(read, v, kind),
    ensures
        cell_of(read, cell_text(v, kind), kind) == Ok::<ValueV, Seq<char>>(v),
{
    match v {
        ValueV::Int(n) => {
            let w = int_text(n as int);
            lemma_int_text(n);
            let m = if n < 0 {
                (-(n as int)) as nat
            } else {
                n as nat
            };
            lemma_digits(m);
            assert(w.last() == digits(m).last());
            assert(is_digit(digits(m)[digits(m).len() - 1]));
            lemma_trim_bare(w);
        },
        ValueV::Bool(b) => {
            reveal_strlit("true");
            reveal_strlit("false");
            lemma_trim_bare("true"@);
            lemma_trim_bare("false"@);
        },
        _ => {},
    }
}

/// The fields of a struct that a table can hold: names that differ and have no white space
/// around them, and kinds that a cell can have.
pub open spec fn fit_fields(fields: Seq<ParamV>) -> bool {
    &&& fields.len() > 0
    &&& forall|i: int|
        0 <= i < fields.len() ==> trimmed((#[trigger] fields[i]).name) == fields[i].name
            && kind_of(fields[i].ty) is Some
    &&& forall|i: int, j: int|
        0 <= i < fields.len() && 0 <= j < fields.len() && (#[trigger] fields[i]).name == (
        #[trigger] fields[j]).name ==> i == j
}

/// A record of the struct `name` that a table can hold: its cells fit, and it is not just one
/// empty text.
pub open spec fn fit_record(read: Reading, name: Seq<char>, fields: Seq<ParamV>, v: ValueV) -> bool {
    v matches ValueV::Struct { ty_name, fields: values } && {
        &&& ty_name == name
        &&& values.len() == fields.len()
        &&& forall|i: int|
            0 <= i < fields.len() ==> cell_fits(
                read,
                #[trigger] values[i],
                kind_of(fields[i].ty).unwrap(),
            )
        &&& !blank(record_cells(fields, values))
    }
}

spec fn identity_columns(fields: Seq<ParamV>, n: int) -> Seq<(int, CellKind)> {
    Seq::new(n as nat, |i: int| (i, kind_of(fields[i].ty).unwrap()))
}

proof fn lemma_column(fields: Seq<ParamV>, i: int, k: int)
    requires
        fit_fields(fields),
        0 <= k <= i < fields.len(),
    ensures
        column_from(header_of(fields), fields[i].name, k) == Some(i),
    decreases i - k,
{
    let header = header_of(fields);
    assert(header[k] == fields[k].name);
    assert(trimmed(fields[k].name) == fields[k].name);
    if k < i {
        assert(fields[k].name != fields[i].name);
        lemma_column(fields, i, k + 1);
    }
}

proof fn lemma_columns(fields: Seq<ParamV>, i: int)
    requires
        fit_fields(fields),
        0 <= i <= fields.len(),
    ensures
        columns_from(header_of(fields), fields, i, identity_columns(fields, i)) == Ok::<
            Seq<(int, CellKind)>,
            Seq<char>,
        >(identity_columns(fields, fields.len() as int)),
    decreases fields.len() - i,
{
    if i < fields.len() {
        lemma_column(fields, i, 0);
        assert(kind_of(fields[i].ty) is Some);
        assert(identity_columns(fields, i).push((i, kind_of(fields[i].ty).unwrap()))
            =~= identity_columns(fields, i + 1));
        lemma_columns(fields, i + 1);
    }
}

proof fn lemma_cells(
    read: Reading,
    name: Seq<char>,
    fields: Seq<ParamV>,
    values: Seq<ValueV>,
    i: int,
)
    requires
        fit_fields(fields),
        fit_record(read, name, fields, ValueV::Struct { ty_name: name, fields: values }),
        0 <= i <= fields.len(),
    ensures
        cells_from(
            read,
            record_cells(fields, values),
            identity_columns(fields, fields.len() as int),
            i,
            values.take(i),
        ) == Ok::<Seq<ValueV>, Seq<char>>(values),
    decreases fields.len() - i,
{
    if i < fields.len() {
        assert(kind_of(fields[i].ty) is Some);
        lemma_cell(read, values[i], kind_of(fields[i].ty).unwrap());
        assert(values.take(i).push(values[i]) =~= values.take(i + 1));
        lemma_cells(read, name, fields, values, i + 1);
    } else {
        assert(values.take(i) =~= values);
    }
}

proof fn lemma_record_rows(
    read: Reading,
    name: Seq<char>,
    fields: Seq<ParamV>,
    rows: Seq<ValueV>,
)
    requires
        forall|i: int| 0 <= i < rows.len() ==> fit_record(read, name, fields, #[trigger] rows[i]),
    ensures
        record_rows(fields, rows).len() == rows.len(),
        forall|i: int|
            0 <= i < rows.len() ==> #[trigger] record_rows(fields, rows)[i] == record_cells(
                fields,
                rows[i]->Struct_fields,
            ),
    decreases rows.len(),
{
    if rows.len() > 0 {
        let before = rows.drop_last();
        assert forall|i: int| 0 <= i < before.len() implies fit_record(
            read,
            name,
            fields,
            #[trigger] before[i],
        ) by {
            assert(before[i] == rows[i]);
        }
        lemma_record_rows(read, name, fields, before);
        assert(fit_record(read, name, fields, rows[rows.len() - 1]));
        assert forall|i: int| 0 <= i < rows.len() implies #[trigger] record_rows(fields, rows)[i]
            == record_cells(fields, rows[i]->Struct_fields) by {
            if i < before.len() {
                assert(record_rows(fields, before)[i] == record_cells(
                    fields,
                    before[i]->Struct_fields,
                ));
            }
        }
    }
}

proof fn lemma_records(
    read: Reading,
    name: Seq<char>,
    fields: Seq<ParamV>,
    rows: Seq<ValueV>,
    table: Table,
    i: int,
)
    requires
        fit_fields(fields),
        forall|i: int| 0 <= i < rows.len() ==> fit_record(read, name, fields, #[trigger] rows[i]),
        table == seq![header_of(fields)] + record_rows(fields, rows),
        0 <= i <= rows.len(),
    ensures
        records_from(
            read,
            table,
            i + 1,
            identity_columns(fields, fields.len() as int),
            name,
            rows.take(i),
        ) == Ok::<Seq<ValueV>, Seq<char>>(rows),
    decreases rows.len() - i,
{
    lemma_record_rows(read, name, fields, rows);
    assert(table[0] == header_of(fields));
    if i < rows.len() {
        assert(fit_record(read, name, fields, rows[i]));
        let values = rows[i]->Struct_fields;
        assert(table[i + 1] == record_rows(fields, rows)[i]);
        assert(record_rows(fields, rows)[i] == record_cells(fields, values));
        assert(values.take(0) =~= Seq::empty());
        lemma_cells(read, name, fields, values, 0);
        assert(rows.take(i).push(rows[i]) =~= rows.take(i + 1));
        lemma_records(read, name, fields, rows, table, i + 1);
    } else {
        assert(rows.take(i) =~= rows);
    }
}

/// The records that were written as CSV read back as they were.
pub proof fn law_csv_records_read_back(
    read: Reading,
    name: Seq<char>,
    fields: Seq<ParamV>,
    rows: Seq<ValueV>,
)
    requires
        fit_fields(fields),
        forall|i: int| 0 <= i < rows.len() ==> fit_record(read, name, fields, #[trigger] rows[i]),
    ensures
        records_of(read, csv_text(fields, rows), name, fields) == Ok::<Seq<ValueV>, Seq<char>>(
            rows,
        ),
{
    let table = seq![header_of(fields)] + record_rows(fields, rows);
    lemma_record_rows(read, name, fields, rows);
    assert forall|j: int| 0 <= j < table.len() implies (#[trigger] table[j]).len() > 0 by {
        if j > 0 {
            assert(table[j] == record_rows(fields, rows)[j - 1]);
            assert(fit_record(read, name, fields, rows[j - 1]));
        }
    }
    law_csv_rows_read_back(table);
    assert(table[0] == header_of(fields));
    assert(identity_columns(fields, 0) =~= Seq::empty());
    lemma_columns(fields, 0);
    assert(rows.take(0) =~= Seq::empty());
    lemma_records(read, name, fields, rows, table, 0);
}

} // verus!
