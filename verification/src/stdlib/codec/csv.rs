//! CSV: fields parted by commas, quoted where they hold commas, quotes or line breaks.

use super::dynamic::{dstr_v, dyn_str, float_text, format_float_default, has_char};
use super::json::Reading;
use crate::ast::{params_view, ParamV, StructDecl, TypeAnn, TypeAnnKind, TypeKindV, TypeV, types_view};
use crate::eval::keys::{str_key, KeyV};
use crate::eval::value::{
    bool_value, dict_value, float_value, inserted, int_value, lemma_value_view, list_value,
    str_value, struct_value, values_view, Dict, Value, ValueV,
};
use crate::numerals::{int_of, int_of_text, read_float, reading, steady};
use crate::stdlib::{err_v, err_value, error_v, error_value, ok_v, ok_value};
use crate::text::{
    chars_of, digits, int_text, int_to_text, join2, join3, join5, nat_to_text, no_text, same_text, texts,
    trim, trimmed,
};
use vstd::prelude::*;
use vstd::string::*;

verus! {

/// The kinds of fields that a record can have.
#[derive(Clone, Copy, Debug, PartialEq, Eq, Structural)]
pub enum CellKind {
    Int,
    Float,
    Bool,
    Str,
}

// ---------------------------------------------------------------------------
// Rows
// ---------------------------------------------------------------------------

/// Where in a field the reader is.
#[derive(Clone, Copy, Debug, PartialEq, Eq, Structural)]
pub enum Mode {
    /// Not in quotes.
    Plain,
    /// Inside quotes.
    Quoted,
    /// Behind the closing quote.
    Closed,
}

/// The rows of a table, each with its fields.
pub type Table = Seq<Seq<Seq<char>>>;

/// The rows of a text from the `i`-th character on, of which `rows`, the fields `row` of the
/// next one and a part of its next field have been read. `content` tells whether anything of
/// the row has been seen.
pub open spec fn rows_from(
    s: Seq<char>,
    i: int,
    rows: Table,
    row: Seq<Seq<char>>,
    field: Seq<char>,
    mode: Mode,
    content: bool,
) -> Result<Table, Seq<char>>
    decreases s.len() - i,
{
    if !(0 <= i < s.len()) {
        if mode == Mode::Quoted {
            Err("quoted field was not closed"@)
        } else if field.len() > 0 || row.len() > 0 || content {
            Ok(rows.push(row.push(field)))
        } else {
            Ok(rows)
        }
    } else {
        let c = s[i];
        if mode == Mode::Quoted {
            if c != '"' {
                rows_from(s, i + 1, rows, row, field.push(c), mode, content)
            } else if i + 1 < s.len() && s[i + 1] == '"' {
                rows_from(s, i + 2, rows, row, field.push('"'), mode, content)
            } else {
                rows_from(s, i + 1, rows, row, field, Mode::Closed, content)
            }
        } else if c == ',' {
            rows_from(s, i + 1, rows, row.push(field), Seq::empty(), Mode::Plain, true)
        } else if c == '\n' {
            rows_from(
                s,
                i + 1,
                rows.push(row.push(field)),
                Seq::empty(),
                Seq::empty(),
                Mode::Plain,
                false,
            )
        } else if c == '\r' {
            let next = if i + 1 < s.len() && s[i + 1] == '\n' {
                i + 2
            } else {
                i + 1
            };
            rows_from(
                s,
                next,
                rows.push(row.push(field)),
                Seq::empty(),
                Seq::empty(),
                Mode::Plain,
                false,
            )
        } else if mode == Mode::Closed {
            Err("characters after a closing quote are not allowed"@)
        } else if c == '"' {
            if field.len() == 0 {
                rows_from(s, i + 1, rows, row, field, Mode::Quoted, true)
            } else {
                Err("quote in an unquoted field"@)
            }
        } else {
            rows_from(s, i + 1, rows, row, field.push(c), mode, true)
        }
    }
}

/// The rows of a CSV text.
pub open spec fn rows_of(s: Seq<char>) -> Result<Table, Seq<char>> {
    rows_from(s, 0, Seq::empty(), Seq::empty(), Seq::empty(), Mode::Plain, false)
}

pub open spec fn table_view(v: Seq<Vec<String>>) -> Table {
    Seq::new(v.len(), |i: int| texts(v[i]@))
}

/// Reads the rows of a text.
pub fn parse_csv_rows(source: &str) -> (r: Result<Vec<Vec<String>>, String>)
    ensures
        match r {
            Ok(rows) => rows_of(source@) == Ok::<Table, Seq<char>>(table_view(rows@)),
            Err(m) => rows_of(source@) == Err::<Table, Seq<char>>(m@),
        },
{
    let s = chars_of(source);
    let mut rows: Vec<Vec<String>> = Vec::new();
    let mut row: Vec<String> = Vec::new();
    let mut field = String::new();
    let mut mode = Mode::Plain;
    let mut content = false;
    let mut i: usize = 0;
    assert(table_view(rows@) =~= Seq::empty());
    assert(texts(row@) =~= Seq::empty());
    assert(field@ =~= Seq::empty());
    while i < s.len()
        invariant
            s@ == source@,
            i <= s@.len(),
            rows_from(s@, i as int, table_view(rows@), texts(row@), field@, mode, content)
                == rows_of(s@),
        decreases s@.len() - i,
    {
        let c = s[i];
        let ghost table = table_view(rows@);
        let ghost cells = texts(row@);
        let ghost part = field@;
        if mode == Mode::Quoted {
            if c != '"' {
                field.push(c);
                i = i + 1;
            } else if i + 1 < s.len() && s[i + 1] == '"' {
                field.push('"');
                i = i + 2;
            } else {
                mode = Mode::Closed;
                i = i + 1;
            }
        } else if c == ',' {
            row.push(field);
            assert(texts(row@) =~= cells.push(part));
            field = String::new();
            assert(field@ =~= Seq::empty());
            mode = Mode::Plain;
            content = true;
            i = i + 1;
        } else if c == '\n' || c == '\r' {
            let next: usize = if c == '\r' && i + 1 < s.len() && s[i + 1] == '\n' {
                i + 2
            } else {
                i + 1
            };
            row.push(field);
            assert(texts(row@) =~= cells.push(part));
            rows.push(row);
            assert(table_view(rows@) =~= table.push(cells.push(part)));
            row = Vec::new();
            field = String::new();
            assert(texts(row@) =~= Seq::empty());
            assert(field@ =~= Seq::empty());
            mode = Mode::Plain;
            content = false;
            i = next;
        } else if mode == Mode::Closed {
            return Err("characters after a closing quote are not allowed".to_owned());
        } else if c == '"' {
            if no_text(field.as_str()) {
                mode = Mode::Quoted;
                content = true;
                i = i + 1;
            } else {
                return Err("quote in an unquoted field".to_owned());
            }
        } else {
            field.push(c);
            content = true;
            i = i + 1;
        }
    }
    if mode == Mode::Quoted {
        return Err("quoted field was not closed".to_owned());
    }
    let ghost table = table_view(rows@);
    let ghost cells = texts(row@);
    let ghost part = field@;
    if !no_text(field.as_str()) || row.len() > 0 || content {
        row.push(field);
        assert(texts(row@) =~= cells.push(part));
        rows.push(row);
        assert(table_view(rows@) =~= table.push(cells.push(part)));
    }
    Ok(rows)
}

// ---------------------------------------------------------------------------
// Cells
// ---------------------------------------------------------------------------

/// The kind of field that a type annotation calls for, if a record can have it.
pub open spec fn kind_of(ty: TypeV) -> Option<CellKind> {
    match ty.kind {
        TypeKindV::Named { name, args } => if args.len() > 0 {
            None
        } else if name == "int"@ {
            Some(CellKind::Int)
        } else if name == "float"@ {
            Some(CellKind::Float)
        } else if name == "bool"@ {
            Some(CellKind::Bool)
        } else if name == "str"@ {
            Some(CellKind::Str)
        } else {
            None
        },
        _ => None,
    }
}

fn field_kind(ty: &TypeAnn) -> (r: Option<CellKind>)
    ensures
        r == kind_of(ty@),
{
    match &ty.kind {
        TypeAnnKind::Named { name, args } => {
            assert(ty@.kind == ty.kind@);
            assert(types_view(args@).len() == args@.len());
            if args.len() > 0 {
                None
            } else if same_text(name.as_str(), "int") {
                Some(CellKind::Int)
            } else if same_text(name.as_str(), "float") {
                Some(CellKind::Float)
            } else if same_text(name.as_str(), "bool") {
                Some(CellKind::Bool)
            } else if same_text(name.as_str(), "str") {
                Some(CellKind::Str)
            } else {
                None
            }
        },
        _ => None,
    }
}

pub open spec fn misfit(cell: Seq<char>, kind: Seq<char>) -> Seq<char> {
    "'"@ + cell + "' cannot be interpreted as "@ + kind
}

/// The value of a cell.
pub open spec fn cell_of(read: Reading, cell: Seq<char>, kind: CellKind) -> Result<
    ValueV,
    Seq<char>,
> {
    match kind {
        CellKind::Int => match int_of(trimmed(cell)) {
            Some(n) => Ok(ValueV::Int(n)),
            None => Err(misfit(cell, "int"@)),
        },
        CellKind::Float => match read(trimmed(cell)) {
            Some(x) => Ok(ValueV::Float(x)),
            None => Err(misfit(cell, "float"@)),
        },
        CellKind::Bool => if trimmed(cell) == "true"@ {
            Ok(ValueV::Bool(true))
        } else if trimmed(cell) == "false"@ {
            Ok(ValueV::Bool(false))
        } else {
            Err(misfit(cell, "bool"@))
        },
        CellKind::Str => Ok(ValueV::Str(cell)),
    }
}

pub open spec fn cell_result(r: Result<Value, String>) -> Result<ValueV, Seq<char>> {
    match r {
        Ok(v) => Ok(v@),
        Err(m) => Err(m@),
    }
}

fn misfit_text(cell: &str, kind: &str) -> (r: String)
    ensures
        r@ == misfit(cell@, kind@),
{
    let head = join3("'", cell, "' cannot be interpreted as ");
    join2(head.as_str(), kind)
}

fn parse_cell<F: Fn(String) -> Option<String>>(read: &F, cell: &str, kind: CellKind) -> (r: Result<
    Value,
    String,
>)
    requires
        steady(*read),
    ensures
        cell_result(r) == cell_of(reading(*read), cell@, kind),
{
    match kind {
        CellKind::Int => {
            let bare = trim(cell);
            match int_of_text(bare.as_str()) {
                Some(n) => Ok(int_value(n)),
                None => Err(misfit_text(cell, "int")),
            }
        },
        CellKind::Float => {
            let bare = trim(cell);
            match read_float(read, bare) {
                Some(x) => Ok(float_value(x)),
                None => Err(misfit_text(cell, "float")),
            }
        },
        CellKind::Bool => {
            let bare = trim(cell);
            if same_text(bare.as_str(), "true") {
                Ok(bool_value(true))
            } else if same_text(bare.as_str(), "false") {
                Ok(bool_value(false))
            } else {
                Err(misfit_text(cell, "bool"))
            }
        },
        CellKind::Str => Ok(str_value(cell.to_owned())),
    }
}

/// A value as the text of a cell; a value of another kind has none.
pub open spec fn cell_text(v: ValueV, kind: CellKind) -> Seq<char> {
    match (kind, v) {
        (CellKind::Int, ValueV::Int(n)) => int_text(n as int),
        (CellKind::Float, ValueV::Float(x)) => float_text(x),
        (CellKind::Bool, ValueV::Bool(b)) => if b {
            "true"@
        } else {
            "false"@
        },
        (CellKind::Str, ValueV::Str(x)) => x,
        _ => Seq::empty(),
    }
}

fn format_cell(v: &Value, kind: CellKind) -> (r: String)
    ensures
        r@ == cell_text(v@, kind),
{
    proof {
        lemma_value_view(*v);
    }
    match (kind, v) {
        (CellKind::Int, Value::Int(n)) => {
            return int_to_text(*n);
        },
        (CellKind::Float, Value::Float(x)) => {
            return format_float_default(x.as_str());
        },
        (CellKind::Bool, Value::Bool(b)) => {
            return if *b {
                "true".to_owned()
            } else {
                "false".to_owned()
            };
        },
        (CellKind::Str, Value::Str(x)) => {
            return x.clone();
        },
        _ => {},
    }
    let r = String::new();
    assert(r@ =~= Seq::empty());
    r
}

/// A text with its quotes doubled, from the `i`-th character on.
pub open spec fn doubled_from(s: Seq<char>, i: int) -> Seq<char>
    decreases s.len() - i,
{
    if 0 <= i < s.len() {
        (if s[i] == '"' {
            seq!['"', '"']
        } else {
            seq![s[i]]
        }) + doubled_from(s, i + 1)
    } else {
        Seq::empty()
    }
}

/// A field as it is written.
pub open spec fn field_text(s: Seq<char>) -> Seq<char> {
    if s.contains(',') || s.contains('"') || s.contains('\n') || s.contains('\r') {
        seq!['"'] + doubled_from(s, 0) + seq!['"']
    } else {
        s
    }
}

/// A field as it is written: in quotes where it holds what parts fields or rows.
pub fn escape_csv_field(s: &str) -> (r: String)
    ensures
        r@ == field_text(s@),
{
    if !(has_char(s, ',') || has_char(s, '"') || has_char(s, '\n') || has_char(s, '\r')) {
        return s.to_owned();
    }
    let v = chars_of(s);
    let mut out = String::new();
    out.push('"');
    let mut i: usize = 0;
    assert(out@ + doubled_from(v@, 0) =~= seq!['"'] + doubled_from(v@, 0));
    while i < v.len()
        invariant
            i <= v@.len(),
            out@ + doubled_from(v@, i as int) == seq!['"'] + doubled_from(v@, 0),
        decreases v@.len() - i,
    {
        let ghost before = out@;
        let c = v[i];
        if c == '"' {
            out.push('"');
        }
        out.push(c);
        assert(out@ + doubled_from(v@, i + 1) =~= before + doubled_from(v@, i as int));
        i = i + 1;
    }
    assert(out@ =~= seq!['"'] + doubled_from(v@, 0));
    out.push('"');
    assert(out@ =~= field_text(s@));
    out
}

// ---------------------------------------------------------------------------
// Records
// ---------------------------------------------------------------------------

/// The first column from the `i`-th on whose heading is `name`.
pub open spec fn column_from(header: Seq<Seq<char>>, name: Seq<char>, i: int) -> Option<int>
    decreases header.len() - i,
{
    if !(0 <= i < header.len()) {
        None
    } else if trimmed(header[i]) == name {
        Some(i)
    } else {
        column_from(header, name, i + 1)
    }
}

fn find_column(header: &Vec<String>, name: &str) -> (r: Option<usize>)
    ensures
        match r {
            Some(i) => column_from(texts(header@), name@, 0) == Some(i as int) && i
                < header@.len(),
            None => column_from(texts(header@), name@, 0) is None,
        },
{
    let mut i: usize = 0;
    while i < header.len()
        invariant
            i <= header@.len(),
            column_from(texts(header@), name@, i as int) == column_from(
                texts(header@),
                name@,
                0,
            ),
        decreases header@.len() - i,
    {
        let heading = trim(header[i].as_str());
        if same_text(heading.as_str(), name) {
            return Some(i);
        }
        i = i + 1;
    }
    None
}

/// The columns of the fields from the `i`-th on, with their kinds.
pub open spec fn columns_from(
    header: Seq<Seq<char>>,
    fields: Seq<ParamV>,
    i: int,
    columns: Seq<(int, CellKind)>,
) -> Result<Seq<(int, CellKind)>, Seq<char>>
    decreases fields.len() - i,
{
    if !(0 <= i < fields.len()) {
        Ok(columns)
    } else {
        match column_from(header, fields[i].name, 0) {
            None => Err("csv: header is missing field '"@ + fields[i].name + "'"@),
            Some(at) => match kind_of(fields[i].ty) {
                None => Err(
                    "csv: field '"@ + fields[i].name
                        + "' has an unsupported type (only int/float/bool/str are allowed)"@,
                ),
                Some(kind) => columns_from(header, fields, i + 1, columns.push((at, kind))),
            },
        }
    }
}

pub open spec fn columns_view(v: Seq<(usize, CellKind)>) -> Seq<(int, CellKind)> {
    Seq::new(v.len(), |i: int| (v[i].0 as int, v[i].1))
}

fn find_columns(header: &Vec<String>, target: &StructDecl) -> (r: Result<
    Vec<(usize, CellKind)>,
    String,
>)
    ensures
        match r {
            Ok(columns) => columns_from(texts(header@), target@.fields, 0, Seq::empty()) == Ok::<
                Seq<(int, CellKind)>,
                Seq<char>,
            >(columns_view(columns@)) && forall|i: int|
                0 <= i < columns@.len() ==> (#[trigger] columns@[i]).0 < header@.len(),
            Err(m) => columns_from(texts(header@), target@.fields, 0, Seq::empty()) == Err::<
                Seq<(int, CellKind)>,
                Seq<char>,
            >(m@),
        },
{
    let ghost fields = params_view(target.fields@);
    let mut columns: Vec<(usize, CellKind)> = Vec::new();
    let mut i: usize = 0;
    assert(columns_view(columns@) =~= Seq::empty());
    while i < target.fields.len()
        invariant
            fields == params_view(target.fields@),
            i <= target.fields@.len(),
            columns_from(texts(header@), fields, i as int, columns_view(columns@))
                == columns_from(texts(header@), fields, 0, Seq::empty()),
            forall|i: int|
                0 <= i < columns@.len() ==> (#[trigger] columns@[i]).0 < header@.len(),
        decreases target.fields@.len() - i,
    {
        let name = target.fields[i].name.as_str();
        match find_column(header, name) {
            None => {
                return Err(join3("csv: header is missing field '", name, "'"));
            },
            Some(at) => match field_kind(&target.fields[i].ty) {
                None => {
                    return Err(
                        join3(
                            "csv: field '",
                            name,
                            "' has an unsupported type (only int/float/bool/str are allowed)",
                        ),
                    );
                },
                Some(kind) => {
                    let ghost seen = columns_view(columns@);
                    columns.push((at, kind));
                    assert(columns_view(columns@) =~= seen.push((at as int, kind)));
                },
            },
        }
        i = i + 1;
    }
    Ok(columns)
}

/// The values of the columns from the `i`-th on of a row.
pub open spec fn cells_from(
    read: Reading,
    row: Seq<Seq<char>>,
    columns: Seq<(int, CellKind)>,
    i: int,
    values: Seq<ValueV>,
) -> Result<Seq<ValueV>, Seq<char>>
    decreases columns.len() - i,
{
    if !(0 <= i < columns.len()) {
        Ok(values)
    } else {
        match cell_of(read, row[columns[i].0], columns[i].1) {
            Ok(v) => cells_from(read, row, columns, i + 1, values.push(v)),
            Err(m) => Err(m),
        }
    }
}

fn parse_row<F: Fn(String) -> Option<String>>(
    read: &F,
    row: &Vec<String>,
    columns: &Vec<(usize, CellKind)>,
) -> (r: Result<Vec<Value>, String>)
    requires
        steady(*read),
        forall|i: int| 0 <= i < columns@.len() ==> (#[trigger] columns@[i]).0 < row@.len(),
    ensures
        match r {
            Ok(values) => cells_from(
                reading(*read),
                texts(row@),
                columns_view(columns@),
                0,
                Seq::empty(),
            ) == Ok::<Seq<ValueV>, Seq<char>>(values_view(values@)),
            Err(m) => cells_from(
                reading(*read),
                texts(row@),
                columns_view(columns@),
                0,
                Seq::empty(),
            ) == Err::<Seq<ValueV>, Seq<char>>(m@),
        },
{
    let ghost cols = columns_view(columns@);
    let mut values: Vec<Value> = Vec::new();
    let mut i: usize = 0;
    assert(values_view(values@) =~= Seq::empty());
    while i < columns.len()
        invariant
            steady(*read),
            forall|i: int| 0 <= i < columns@.len() ==> (#[trigger] columns@[i]).0 < row@.len(),
            cols == columns_view(columns@),
            i <= columns@.len(),
            cells_from(reading(*read), texts(row@), cols, i as int, values_view(values@))
                == cells_from(reading(*read), texts(row@), cols, 0, Seq::empty()),
        decreases columns@.len() - i,
    {
        let (at, kind) = columns[i];
        assert(columns@[i as int].0 < row@.len());
        match parse_cell(read, row[at].as_str(), kind) {
            Ok(v) => {
                let ghost seen = values_view(values@);
                values.push(v);
                assert(values_view(values@) =~= seen.push(v@));
            },
            Err(m) => {
                return Err(m);
            },
        }
        i = i + 1;
    }
    Ok(values)
}

/// A row that holds nothing.
pub open spec fn blank(row: Seq<Seq<char>>) -> bool {
    row.len() == 1 && row[0].len() == 0
}

fn is_blank(row: &Vec<String>) -> (r: bool)
    ensures
        r == blank(texts(row@)),
{
    row.len() == 1 && no_text(row[0].as_str())
}

pub open spec fn count_mismatch(wanted: nat, got: nat) -> Seq<char> {
    "csv: field count mismatch (expected "@ + digits(wanted) + ", got "@ + digits(got) + ")"@
}

fn count_mismatch_text(wanted: usize, got: usize) -> (r: String)
    ensures
        r@ == count_mismatch(wanted as nat, got as nat),
{
    let w = nat_to_text(wanted as u64);
    let g = nat_to_text(got as u64);
    join5("csv: field count mismatch (expected ", w.as_str(), ", got ", g.as_str(), ")")
}

/// The records of the rows from the `i`-th on, blank ones left out.
pub open spec fn records_from(
    read: Reading,
    rows: Table,
    i: int,
    columns: Seq<(int, CellKind)>,
    name: Seq<char>,
    records: Seq<ValueV>,
) -> Result<Seq<ValueV>, Seq<char>>
    decreases rows.len() - i,
{
    if !(0 <= i < rows.len()) {
        Ok(records)
    } else if blank(rows[i]) {
        records_from(read, rows, i + 1, columns, name, records)
    } else if rows[i].len() != rows[0].len() {
        Err(count_mismatch(rows[0].len(), rows[i].len()))
    } else {
        match cells_from(read, rows[i], columns, 0, Seq::empty()) {
            Err(m) => Err(m),
            Ok(fields) => records_from(
                read,
                rows,
                i + 1,
                columns,
                name,
                records.push(ValueV::Struct { ty_name: name, fields }),
            ),
        }
    }
}

/// The records that a CSV text holds, by the fields of a struct.
pub open spec fn records_of(
    read: Reading,
    s: Seq<char>,
    name: Seq<char>,
    fields: Seq<ParamV>,
) -> Result<Seq<ValueV>, Seq<char>> {
    match rows_of(s) {
        Err(m) => Err("csv: "@ + m),
        Ok(rows) => if rows.len() == 0 {
            Err("csv: missing header row"@)
        } else {
            match columns_from(rows[0], fields, 0, Seq::empty()) {
                Err(m) => Err(m),
                Ok(columns) => records_from(read, rows, 1, columns, name, Seq::empty()),
            }
        },
    }
}

/// A list, or the error that decoding came to.
pub open spec fn decoded_list(r: Result<Seq<ValueV>, Seq<char>>) -> ValueV {
    match r {
        Ok(items) => ok_v(ValueV::List(items)),
        Err(m) => err_v(error_v("decode"@, m)),
    }
}

fn failure(message: String) -> (r: Value)
    ensures
        r@ == err_v(error_v("decode"@, message@)),
{
    err_value(error_value("decode", message))
}

/// Reads records of a struct from a CSV text, whose first row has the names of the columns.
/// Floats are read with `read`.
pub fn decode<F: Fn(String) -> Option<String>>(s: &str, target_struct: &StructDecl, read: &F) -> (r:
    Value)
    requires
        steady(*read),
    ensures
        r@ == decoded_list(
            records_of(reading(*read), s@, target_struct@.name, target_struct@.fields),
        ),
{
    let rows = match parse_csv_rows(s) {
        Ok(rows) => rows,
        Err(m) => {
            return failure(join2("csv: ", m.as_str()));
        },
    };
    if rows.len() == 0 {
        return failure("csv: missing header row".to_owned());
    }
    let columns = match find_columns(&rows[0], target_struct) {
        Ok(columns) => columns,
        Err(m) => {
            return failure(m);
        },
    };
    let ghost table = table_view(rows@);
    let ghost cols = columns_view(columns@);
    let ghost name = target_struct.name@;
    let mut out: Vec<Value> = Vec::new();
    let mut i: usize = 1;
    assert(values_view(out@) =~= Seq::empty());
    assert(table[0] == texts(rows@[0]@));
    while i < rows.len()
        invariant
            steady(*read),
            1 <= i <= rows@.len(),
            table == table_view(rows@),
            cols == columns_view(columns@),
            name == target_struct.name@,
            forall|i: int| 0 <= i < columns@.len() ==> (#[trigger] columns@[i]).0 < rows@[0]@.len(),
            rows_of(s@) == Ok::<Table, Seq<char>>(table),
            columns_from(table[0], target_struct@.fields, 0, Seq::empty()) == Ok::<
                Seq<(int, CellKind)>,
                Seq<char>,
            >(cols),
            records_from(reading(*read), table, i as int, cols, name, values_view(out@))
                == records_from(reading(*read), table, 1, cols, name, Seq::empty()),
        decreases rows@.len() - i,
    {
        assert(table[i as int] == texts(rows@[i as int]@));
        if !is_blank(&rows[i]) {
            let width: usize = rows[0].len();
            if rows[i].len() != width {
                return failure(count_mismatch_text(width, rows[i].len()));
            }
            match parse_row(read, &rows[i], &columns) {
                Ok(fields) => {
                    let ghost seen = values_view(out@);
                    let record = struct_value(target_struct.name.as_str(), fields);
                    out.push(record);
                    assert(values_view(out@) =~= seen.push(record@));
                },
                Err(m) => {
                    return failure(m);
                },
            }
        }
        i = i + 1;
    }
    ok_value(list_value(out))
}

// ---------------------------------------------------------------------------
// Rows of any shape
// ---------------------------------------------------------------------------

/// A row as a dictionary from headings to texts, from the `i`-th column on.
pub open spec fn dict_from(
    header: Seq<Seq<char>>,
    row: Seq<Seq<char>>,
    i: int,
    entries: Seq<(KeyV, ValueV)>,
) -> Seq<(KeyV, ValueV)>
    decreases header.len() - i,
{
    if 0 <= i < header.len() {
        dict_from(
            header,
            row,
            i + 1,
            inserted(entries, KeyV::Str(trimmed(header[i])), dstr_v(row[i])),
        )
    } else {
        entries
    }
}

fn row_dict(header: &Vec<String>, row: &Vec<String>) -> (r: Dict)
    requires
        row@.len() == header@.len(),
    ensures
        r@ == dict_from(texts(header@), texts(row@), 0, Seq::empty()),
{
    let mut d = Dict::new();
    let mut i: usize = 0;
    while i < header.len()
        invariant
            row@.len() == header@.len(),
            i <= header@.len(),
            dict_from(texts(header@), texts(row@), i as int, d@) == dict_from(
                texts(header@),
                texts(row@),
                0,
                Seq::empty(),
            ),
        decreases header@.len() - i,
    {
        let key = str_key(trim(header[i].as_str()));
        let cell = dyn_str(row[i].clone());
        let _old = d.insert(key, cell);
        i = i + 1;
    }
    d
}

/// The dictionaries of the rows from the `i`-th on, blank ones left out.
pub open spec fn dicts_from(rows: Table, i: int, out: Seq<ValueV>) -> Result<
    Seq<ValueV>,
    Seq<char>,
>
    decreases rows.len() - i,
{
    if !(0 <= i < rows.len()) {
        Ok(out)
    } else if blank(rows[i]) {
        dicts_from(rows, i + 1, out)
    } else if rows[i].len() != rows[0].len() {
        Err(count_mismatch(rows[0].len(), rows[i].len()))
    } else {
        dicts_from(
            rows,
            i + 1,
            out.push(ValueV::Dict(dict_from(rows[0], rows[i], 0, Seq::empty()))),
        )
    }
}

/// The rows of a CSV text as dictionaries.
pub open spec fn dicts_of(s: Seq<char>) -> Result<Seq<ValueV>, Seq<char>> {
    match rows_of(s) {
        Err(m) => Err("csv: "@ + m),
        Ok(rows) => if rows.len() == 0 {
            Err("csv: missing header row"@)
        } else {
            dicts_from(rows, 1, Seq::empty())
        },
    }
}

/// Reads rows of any shape from a CSV text; every cell is a text.
pub fn decode_rows(s: &str) -> (r: Value)
    ensures
        r@ == decoded_list(dicts_of(s@)),
{
    let rows = match parse_csv_rows(s) {
        Ok(rows) => rows,
        Err(m) => {
            return failure(join2("csv: ", m.as_str()));
        },
    };
    if rows.len() == 0 {
        return failure("csv: missing header row".to_owned());
    }
    let ghost table = table_view(rows@);
    let mut out: Vec<Value> = Vec::new();
    let mut i: usize = 1;
    assert(values_view(out@) =~= Seq::empty());
    while i < rows.len()
        invariant
            1 <= i <= rows@.len(),
            table == table_view(rows@),
            rows_of(s@) == Ok::<Table, Seq<char>>(table),
            dicts_from(table, i as int, values_view(out@)) == dicts_from(
                table,
                1,
                Seq::empty(),
            ),
        decreases rows@.len() - i,
    {
        assert(table[i as int] == texts(rows@[i as int]@));
        assert(table[0] == texts(rows@[0]@));
        if !is_blank(&rows[i]) {
            let width: usize = rows[0].len();
            if rows[i].len() != width {
                return failure(count_mismatch_text(width, rows[i].len()));
            }
            let ghost seen = values_view(out@);
            let v = dict_value(row_dict(&rows[0], &rows[i]));
            out.push(v);
            assert(values_view(out@) =~= seen.push(v@));
        }
        i = i + 1;
    }
    ok_value(list_value(out))
}

// ---------------------------------------------------------------------------
// Writing
// ---------------------------------------------------------------------------

/// The fields of a row from the `i`-th on, as they are written.
pub open spec fn line_from(row: Seq<Seq<char>>, i: int) -> Seq<char>
    decreases row.len() - i,
{
    if 0 <= i < row.len() {
        (if i > 0 {
            seq![',']
        } else {
            Seq::empty()
        }) + field_text(row[i]) + line_from(row, i + 1)
    } else {
        Seq::empty()
    }
}

/// The rows of a table from the `i`-th on, as they are written.
pub open spec fn lines_from(rows: Table, i: int) -> Seq<char>
    decreases rows.len() - i,
{
    if 0 <= i < rows.len() {
        line_from(rows[i], 0) + seq!['\n'] + lines_from(rows, i + 1)
    } else {
        Seq::empty()
    }
}

/// The names of the fields.
pub open spec fn header_of(fields: Seq<ParamV>) -> Seq<Seq<char>> {
    Seq::new(fields.len(), |i: int| fields[i].name)
}

/// The cells of a record, as far as it has values and the struct has fields.
pub open spec fn record_cells(fields: Seq<ParamV>, values: Seq<ValueV>) -> Seq<Seq<char>> {
    Seq::new(
        if fields.len() <= values.len() {
            fields.len()
        } else {
            values.len()
        },
        |i: int|
            cell_text(
                values[i],
                match kind_of(fields[i].ty) {
                    Some(kind) => kind,
                    None => CellKind::Str,
                },
            ),
    )
}

/// The rows of some records; what is no record is left out.
pub open spec fn record_rows(fields: Seq<ParamV>, rows: Seq<ValueV>) -> Table
    decreases rows.len(),
{
    if rows.len() == 0 {
        Seq::empty()
    } else {
        let before = record_rows(fields, rows.drop_last());
        match rows.last() {
            ValueV::Struct { ty_name, fields: values } => before.push(
                record_cells(fields, values),
            ),
            _ => before,
        }
    }
}

/// The text of a table of records: the names of the fields, and then a line for each record.
pub open spec fn csv_text(fields: Seq<ParamV>, rows: Seq<ValueV>) -> Seq<char> {
    lines_from(seq![header_of(fields)] + record_rows(fields, rows), 0)
}

fn write_line(row: &Vec<String>, out: &mut String)
    ensures
        final(out)@ == old(out)@ + (line_from(texts(row@), 0) + seq!['\n']),
{
    let ghost start = out@;
    let mut i: usize = 0;
    while i < row.len()
        invariant
            i <= row@.len(),
            out@ + line_from(texts(row@), i as int) == start + line_from(texts(row@), 0),
        decreases row@.len() - i,
    {
        let ghost before = out@;
        if i > 0 {
            out.push(',');
        }
        let cell = escape_csv_field(row[i].as_str());
        out.append(cell.as_str());
        assert(out@ + line_from(texts(row@), i + 1) =~= before + line_from(
            texts(row@),
            i as int,
        ));
        i = i + 1;
    }
    assert(out@ =~= start + line_from(texts(row@), 0));
    out.push('\n');
    assert(out@ =~= start + (line_from(texts(row@), 0) + seq!['\n']));
}

fn header_row(target: &StructDecl) -> (r: Vec<String>)
    ensures
        texts(r@) == header_of(target@.fields),
{
    let mut r: Vec<String> = Vec::new();
    let mut i: usize = 0;
    while i < target.fields.len()
        invariant
            i <= target.fields@.len(),
            r@.len() == i,
            forall|j: int| 0 <= j < i ==> (#[trigger] r@[j])@ == target.fields@[j].name@,
        decreases target.fields@.len() - i,
    {
        r.push(target.fields[i].name.clone());
        i = i + 1;
    }
    assert(texts(r@) =~= header_of(target@.fields));
    r
}

fn record_row(target: &StructDecl, values: &Vec<Value>) -> (r: Vec<String>)
    ensures
        texts(r@) == record_cells(target@.fields, values_view(values@)),
{
    let ghost fields = target@.fields;
    let ghost vs = values_view(values@);
    let mut r: Vec<String> = Vec::new();
    let mut i: usize = 0;
    while i < target.fields.len() && i < values.len()
        invariant
            fields == target@.fields,
            vs == values_view(values@),
            i <= target.fields@.len(),
            i <= values@.len(),
            r@.len() == i,
            forall|j: int|
                0 <= j < i ==> (#[trigger] r@[j])@ == record_cells(fields, vs)[j],
        decreases target.fields@.len() - i,
    {
        let kind = match field_kind(&target.fields[i].ty) {
            Some(kind) => kind,
            None => CellKind::Str,
        };
        let text = format_cell(&values[i], kind);
        assert(fields[i as int] == target.fields@[i as int]@);
        r.push(text);
        i = i + 1;
    }
    assert(texts(r@) =~= record_cells(fields, vs));
    r
}

proof fn lemma_lines_push(rows: Table, row: Seq<Seq<char>>, i: int)
    requires
        0 <= i <= rows.len(),
    ensures
        lines_from(rows.push(row), i) == lines_from(rows, i) + (line_from(row, 0) + seq!['\n']),
    decreases rows.len() - i,
{
    if i < rows.len() {
        lemma_lines_push(rows, row, i + 1);
        assert(lines_from(rows.push(row), i) =~= lines_from(rows, i) + (line_from(row, 0)
            + seq!['\n']));
    } else {
        assert(lines_from(rows.push(row), i + 1) =~= Seq::empty());
        assert(lines_from(rows.push(row), i) =~= lines_from(rows, i) + (line_from(row, 0)
            + seq!['\n']));
    }
}

/// Writes records of a struct as CSV.
pub fn encode(rows: &[Value], source_struct: &StructDecl) -> (r: String)
    ensures
        r@ == csv_text(source_struct@.fields, values_view(rows@)),
{
    let ghost fields = source_struct@.fields;
    let ghost vs = values_view(rows@);
    let ghost head = seq![header_of(fields)];
    let mut out = String::new();
    let header = header_row(source_struct);
    proof {
        assert(out@ =~= lines_from(Seq::empty(), 0));
        lemma_lines_push(Seq::empty(), header_of(fields), 0);
        assert(Seq::<Seq<Seq<char>>>::empty().push(header_of(fields)) =~= head);
    }
    write_line(&header, &mut out);
    let mut i: usize = 0;
    assert(vs.take(0) =~= Seq::empty());
    assert(head + record_rows(fields, vs.take(0)) =~= head);
    while i < rows.len()
        invariant
            fields == source_struct@.fields,
            vs == values_view(rows@),
            head == seq![header_of(fields)],
            i <= rows@.len(),
            out@ == lines_from(head + record_rows(fields, vs.take(i as int)), 0),
        decreases rows@.len() - i,
    {
        proof {
            lemma_value_view(rows@[i as int]);
            assert(vs.take(i + 1).drop_last() =~= vs.take(i as int));
            assert(vs.take(i + 1).last() == vs[i as int]);
        }
        match &rows[i] {
            Value::Struct(inst) => {
                let row = record_row(source_struct, &inst.fields);
                proof {
                    let before = record_rows(fields, vs.take(i as int));
                    let cells = record_cells(fields, values_view(inst.fields@));
                    lemma_lines_push(head + before, cells, 0);
                    assert((head + before).push(cells) =~= head + before.push(cells));
                }
                write_line(&row, &mut out);
            },
            _ => {},
        }
        i = i + 1;
    }
    assert(vs.take(i as int) =~= vs);
    out
}

} // verus!
