//! Cells belong to the headings of their columns.

use super::csv::{
    blank, cell_of, cells_from, column_from, columns_from, dict_from, kind_of, records_from,
    CellKind, Table,
};
use super::dynamic::dstr_v;
use super::json::Reading;
use crate::ast::ParamV;
use crate::eval::keys::KeyV;
use crate::eval::value::{distinct_keys, inserted, looked_up, ValueV};
use crate::stdlib::collections_laws::law_insert_gives_a_key_its_value;
use crate::text::trimmed;
use vstd::prelude::*;

verus! {

/// The column with a heading: the first of those that have it.
pub open spec fn headed(header: Seq<Seq<char>>, name: Seq<char>, at: int) -> bool {
    &&& 0 <= at < header.len()
    &&& trimmed(header[at]) == name
    &&& forall|j: int| 0 <= j < at ==> trimmed(#[trigger] header[j]) != name
}

proof fn lemma_column(header: Seq<Seq<char>>, name: Seq<char>, i: int)
    requires
        0 <= i <= header.len(),
        forall|j: int| 0 <= j < i ==> trimmed(#[trigger] header[j]) != name,
    ensures
        match column_from(header, name, i) {
            Some(at) => headed(header, name, at),
            None => forall|j: int| 0 <= j < header.len() ==> trimmed(#[trigger] header[j]) != name,
        },
    decreases header.len() - i,
{
    if i < header.len() && trimmed(header[i]) != name {
        lemma_column(header, name, i + 1);
    }
}

/// A field has a column and a type that cells can have.
pub open spec fn has_column(header: Seq<Seq<char>>, field: ParamV) -> bool {
    kind_of(field.ty) is Some && exists|j: int|
        0 <= j < header.len() && trimmed(#[trigger] header[j]) == field.name
}

spec fn columns_fit(
    header: Seq<Seq<char>>,
    fields: Seq<ParamV>,
    columns: Seq<(int, CellKind)>,
) -> bool {
    forall|j: int|
        0 <= j < columns.len() ==> headed(header, fields[j].name, (#[trigger] columns[j]).0)
            && kind_of(fields[j].ty) == Some(columns[j].1)
}

proof fn lemma_columns(
    header: Seq<Seq<char>>,
    fields: Seq<ParamV>,
    i: int,
    columns: Seq<(int, CellKind)>,
)
    requires
        0 <= i <= fields.len(),
        columns.len() == i,
        columns_fit(header, fields, columns),
    ensures
        match columns_from(header, fields, i, columns) {
            Ok(all) => all.len() == fields.len() && columns_fit(header, fields, all),
            Err(_) => exists|j: int|
                i <= j < fields.len() && !has_column(header, #[trigger] fields[j]),
        },
    decreases fields.len() - i,
{
    if i < fields.len() {
        lemma_column(header, fields[i].name, 0);
        match (column_from(header, fields[i].name, 0), kind_of(fields[i].ty)) {
            (Some(at), Some(kind)) => {
                lemma_columns(header, fields, i + 1, columns.push((at, kind)));
            },
            _ => {
                assert(!has_column(header, fields[i]));
            },
        }
    }
}

/// The fields of a struct find their columns by the headings, whatever the order of the columns
/// and whatever other columns there are, unless one has no column, or none of the types that
/// cells can have.
pub proof fn law_csv_fields_find_their_columns(header: Seq<Seq<char>>, fields: Seq<ParamV>)
    ensures
        match columns_from(header, fields, 0, Seq::empty()) {
            Ok(columns) => columns.len() == fields.len() && forall|j: int|
                0 <= j < columns.len() ==> headed(
                    header,
                    fields[j].name,
                    (#[trigger] columns[j]).0,
                ) && kind_of(fields[j].ty) == Some(columns[j].1),
            Err(_) => exists|j: int|
                0 <= j < fields.len() && !has_column(header, #[trigger] fields[j]),
        },
{
    lemma_columns(header, fields, 0, Seq::empty());
}

spec fn cells_fit(
    read: Reading,
    row: Seq<Seq<char>>,
    columns: Seq<(int, CellKind)>,
    values: Seq<ValueV>,
) -> bool {
    forall|j: int|
        0 <= j < values.len() ==> cell_of(read, row[columns[j].0], columns[j].1) == Ok::<
            ValueV,
            Seq<char>,
        >(#[trigger] values[j])
}

proof fn lemma_cells(
    read: Reading,
    row: Seq<Seq<char>>,
    columns: Seq<(int, CellKind)>,
    i: int,
    values: Seq<ValueV>,
)
    requires
        0 <= i <= columns.len(),
        values.len() == i,
        cells_fit(read, row, columns, values),
        cells_from(read, row, columns, i, values) is Ok,
    ensures
        cells_from(read, row, columns, i, values)->Ok_0.len() == columns.len(),
        cells_fit(read, row, columns, cells_from(read, row, columns, i, values)->Ok_0),
    decreases columns.len() - i,
{
    if i < columns.len() {
        let v = cell_of(read, row[columns[i].0], columns[i].1)->Ok_0;
        lemma_cells(read, row, columns, i + 1, values.push(v));
    }
}

/// How many of the rows from the first one after the header up to the `i`-th are not blank.
pub open spec fn filled_before(rows: Table, i: int) -> nat
    decreases i,
{
    if i <= 1 {
        0
    } else {
        filled_before(rows, i - 1) + (if blank(rows[i - 1]) {
            0nat
        } else {
            1nat
        })
    }
}

/// A record has the values of a row.
pub open spec fn is_record(
    read: Reading,
    row: Seq<Seq<char>>,
    columns: Seq<(int, CellKind)>,
    name: Seq<char>,
    record: ValueV,
) -> bool {
    record matches ValueV::Struct { ty_name, fields } && ty_name == name && fields.len()
        == columns.len() && forall|j: int|
        0 <= j < fields.len() ==> cell_of(read, row[columns[j].0], columns[j].1) == Ok::<
            ValueV,
            Seq<char>,
        >(#[trigger] fields[j])
}

proof fn lemma_records(
    read: Reading,
    rows: Table,
    i: int,
    columns: Seq<(int, CellKind)>,
    name: Seq<char>,
    records: Seq<ValueV>,
)
    requires
        1 <= i,
        i <= rows.len(),
        records.len() == filled_before(rows, i),
        records_from(read, rows, i, columns, name, records) is Ok,
    ensures
        ({
            let all = records_from(read, rows, i, columns, name, records)->Ok_0;
            &&& all.len() == filled_before(rows, rows.len() as int)
            &&& all.len() >= records.len()
            &&& forall|r: int| 0 <= r < records.len() ==> #[trigger] all[r] == records[r]
            &&& forall|r: int|
                i <= r < rows.len() && !blank(#[trigger] rows[r]) ==> filled_before(rows, r)
                    < all.len() && is_record(
                    read,
                    rows[r],
                    columns,
                    name,
                    all[filled_before(rows, r) as int],
                )
        }),
    decreases rows.len() - i,
{
    if i < rows.len() {
        if blank(rows[i]) {
            lemma_records(read, rows, i + 1, columns, name, records);
        } else {
            let fields = cells_from(read, rows[i], columns, 0, Seq::empty())->Ok_0;
            lemma_cells(read, rows[i], columns, 0, Seq::empty());
            let record = ValueV::Struct { ty_name: name, fields };
            let more = records.push(record);
            lemma_records(read, rows, i + 1, columns, name, more);
            let all = records_from(read, rows, i, columns, name, records)->Ok_0;
            assert(all[records.len() as int] == more[records.len() as int]);
            assert(is_record(read, rows[i], columns, name, record));
            assert forall|r: int| 0 <= r < records.len() implies #[trigger] all[r]
                == records[r] by {
                assert(all[r] == more[r]);
            }
        }
    }
}

/// Each row that is not blank is a record, in the order of the rows, and each of its values is
/// that of the cell in its column; there are no other records.
pub proof fn law_csv_rows_are_records(
    read: Reading,
    rows: Table,
    columns: Seq<(int, CellKind)>,
    name: Seq<char>,
)
    requires
        rows.len() > 0,
        records_from(read, rows, 1, columns, name, Seq::empty()) is Ok,
    ensures
        ({
            let all = records_from(read, rows, 1, columns, name, Seq::empty())->Ok_0;
            &&& all.len() == filled_before(rows, rows.len() as int)
            &&& forall|r: int|
                1 <= r < rows.len() && !blank(#[trigger] rows[r]) ==> filled_before(rows, r)
                    < all.len() && is_record(
                    read,
                    rows[r],
                    columns,
                    name,
                    all[filled_before(rows, r) as int],
                )
        }),
{
    lemma_records(read, rows, 1, columns, name, Seq::empty());
}

proof fn lemma_dict(
    header: Seq<Seq<char>>,
    row: Seq<Seq<char>>,
    i: int,
    entries: Seq<(KeyV, ValueV)>,
    name: Seq<char>,
)
    requires
        0 <= i <= header.len(),
        distinct_keys(entries),
    ensures
        (forall|j: int| i <= j < header.len() ==> trimmed(#[trigger] header[j]) != name)
            ==> looked_up(dict_from(header, row, i, entries), KeyV::Str(name)) == looked_up(
            entries,
            KeyV::Str(name),
        ),
        forall|j: int|
            i <= j < header.len() && trimmed(#[trigger] header[j]) == name && (forall|k: int|
                j < k < header.len() ==> trimmed(#[trigger] header[k]) != name) ==> looked_up(
                dict_from(header, row, i, entries),
                KeyV::Str(name),
            ) == Some(dstr_v(row[j])),
    decreases header.len() - i,
{
    if i < header.len() {
        let k = KeyV::Str(trimmed(header[i]));
        let v = dstr_v(row[i]);
        law_insert_gives_a_key_its_value(entries, k, v, KeyV::Str(name));
        lemma_dict(header, row, i + 1, inserted(entries, k, v), name);
    }
}

/// A row as a dictionary has the text of each cell under the heading of its column; of columns
/// with the same heading the last one counts.
pub proof fn law_csv_cells_stand_under_their_headings(
    header: Seq<Seq<char>>,
    row: Seq<Seq<char>>,
    name: Seq<char>,
)
    ensures
        ({
            let entries = dict_from(header, row, 0, Seq::empty());
            &&& (forall|j: int| 0 <= j < header.len() ==> trimmed(#[trigger] header[j]) != name)
                ==> looked_up(entries, KeyV::Str(name)) is None
            &&& forall|j: int|
                0 <= j < header.len() && trimmed(#[trigger] header[j]) == name && (forall|k: int|
                    j < k < header.len() ==> trimmed(#[trigger] header[k]) != name) ==> looked_up(
                    entries,
                    KeyV::Str(name),
                ) == Some(dstr_v(row[j]))
        }),
{
    lemma_dict(header, row, 0, Seq::empty(), name);
}

} // verus!
