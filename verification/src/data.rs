//! Tables read from CSV text, with each cell typed by its text.
use vstd::prelude::*;

use crate::builtins::sleep::{decimal_value, digits_part, is_digit, parse_seconds};
use crate::table::Table;
use crate::text::{chars_of, copy_string, slice_chars, string_of, text_eq, views};

verus! {

/// What the csv crate reads from `raw` (with its first record taken as the
/// header): the header's fields and each later record's fields, or `None`
/// when the reader reports an error.
pub uninterp spec fn csv_fields(raw: Seq<char>) -> Option<(Seq<Seq<char>>, Seq<Seq<Seq<char>>>)>;

/// The views of a list of records.
pub open spec fn record_views(rows: Seq<Vec<String>>) -> Seq<Seq<Seq<char>>> {
    rows.map_values(|row: Vec<String>| views(row@))
}

/// An error message of the CSV reader: it says whether the header or a
/// record could not be read.
pub open spec fn csv_error_text(e: Seq<char>) -> bool {
    "Failed to read CSV headers: "@.is_prefix_of(e) || "Failed to read CSV row: "@.is_prefix_of(e)
}

/// Reads the header and the records of CSV text with the csv crate's
/// `Reader` (`from_reader`, `headers`, `records`). Claimed: the result is
/// the function `csv_fields` of the text, `Ok` exactly when the reader
/// reports no error; an error message starts by saying whether the header
/// or a record failed, and the reader's own description that follows is
/// left unsaid.
#[verifier::external_body]
fn read_csv(raw: &str) -> (r: Result<(Vec<String>, Vec<Vec<String>>), String>)
    ensures
        r is Ok <==> csv_fields(raw@) is Some,
        r matches Ok((h, rows)) ==> csv_fields(raw@) == Some((views(h@), record_views(rows@))),
        r matches Err(e) ==> csv_error_text(e@),
{
    let mut reader = csv::Reader::from_reader(raw.as_bytes());
    let headers: Vec<String> = match reader.headers() {
        Ok(h) => h.iter().map(String::from).collect(),
        Err(e) => return Err(format!("Failed to read CSV headers: {}", e)),
    };
    let rows: Result<Vec<Vec<String>>, csv::Error> =
        reader.records().map(|r| r.map(|rec| rec.iter().map(String::from).collect())).collect();
    match rows {
        Ok(rows) => Ok((headers, rows)),
        Err(e) => Err(format!("Failed to read CSV row: {}", e)),
    }
}

/// A number without its sign character, if it has one.
pub open spec fn number_part(s: Seq<char>) -> Seq<char> {
    if s.len() > 0 && (s[0] == '-' || s[0] == '+') {
        s.skip(1)
    } else {
        s
    }
}

/// Every character is a decimal digit.
pub open spec fn all_digits(ds: Seq<char>) -> bool {
    forall|i: int| 0 <= i < ds.len() ==> is_digit(#[trigger] ds[i])
}

/// `i64::from_str`: an optional sign and at least one decimal digit, with a
/// value in range.
pub open spec fn parse_i64(s: Seq<char>) -> Option<i64> {
    let ds = number_part(s);
    if ds.len() > 0 && all_digits(ds) {
        let v = decimal_value(ds);
        if s[0] == '-' {
            if -v >= i64::MIN {
                Some((-v) as i64)
            } else {
                None
            }
        } else {
            if v <= i64::MAX {
                Some(v as i64)
            } else {
                None
            }
        }
    } else {
        None
    }
}

/// `bool::from_str`: exactly `true` or `false`.
pub open spec fn parse_bool(s: Seq<char>) -> Option<bool> {
    if s == "true"@ {
        Some(true)
    } else if s == "false"@ {
        Some(false)
    } else {
        None
    }
}

/// A table cell, typed by its text.
#[derive(Debug, PartialEq)]
pub enum Cell {
    /// An empty field.
    Null,
    /// A field that reads as an `i64`.
    Int(i64),
    /// A field that reads as `true` or `false`.
    Bool(bool),
    /// Any other field, as it is.
    Text(String),
}

/// The cell a field gives: empty is `Null`, an integer `Int`, `true` or
/// `false` a `Bool`, anything else `Text`.
pub open spec fn cell_of(c: Cell, f: Seq<char>) -> bool {
    match c {
        Cell::Null => f.len() == 0,
        Cell::Int(i) => f.len() > 0 && parse_i64(f) == Some(i),
        Cell::Bool(b) => f.len() > 0 && parse_i64(f) is None && parse_bool(f) == Some(b),
        Cell::Text(t) => f.len() > 0 && parse_i64(f) is None && parse_bool(f) is None && t@ == f,
    }
}

/// The records that have one field per header, in order.
pub open spec fn full_rows(rows: Seq<Seq<Seq<char>>>, n: nat) -> Seq<Seq<Seq<char>>>
    decreases rows.len(),
{
    if rows.len() == 0 {
        Seq::empty()
    } else {
        let rest = full_rows(rows.drop_last(), n);
        if rows.last().len() == n {
            rest.push(rows.last())
        } else {
            rest
        }
    }
}

/// The cells are the typed fields of the record.
pub open spec fn typed_row(cells: Seq<Cell>, fields: Seq<Seq<char>>) -> bool {
    cells.len() == fields.len() && forall|j: int| 0 <= j < cells.len() ==> cell_of(#[trigger] cells[j], fields[j])
}

/// The table holds the header and, typed, the records that have one field
/// per header, in order.
pub open spec fn table_of(t: Table<Cell>, fields: Option<(Seq<Seq<char>>, Seq<Seq<Seq<char>>>)>) -> bool {
    match fields {
        Some((h, rows)) => {
            &&& t.wf()
            &&& views(t.headers@) == h
            &&& t.rows@.len() == full_rows(rows, h.len()).len()
            &&& forall|i: int|
                0 <= i < t.rows@.len() ==> typed_row(#[trigger] t.rows@[i]@, full_rows(rows, h.len())[i])
        },
        None => false,
    }
}

/// Reads a field as an `i64` the way `i64::from_str` does.
pub fn parse_int(f: &str) -> (r: Option<i64>)
    ensures
        r == parse_i64(f@),
{
    let c = chars_of(f);
    let start: usize = if c.len() > 0 && (c[0] == '-' || c[0] == '+') {
        1
    } else {
        0
    };
    let rest = slice_chars(&c, start, c.len());
    let ghost ds = number_part(f@);
    assert(c@ == f@);
    assert(rest@ =~= ds);
    if rest.len() == 0 || !('0' <= rest[0] && rest[0] <= '9') {
        proof {
            if ds.len() > 0 {
                assert(!is_digit(ds[0]));
            }
        }
        return None;
    }
    let text = string_of(&rest);
    assert(text@ == ds);
    assert(is_digit(ds[0]));
    assert(digits_part(text@) == ds);
    let p = parse_seconds(text.as_str());
    match p {
        None => {
            proof {
                if all_digits(ds) {
                    assert(decimal_value(ds) > u64::MAX);
                }
            }
            None
        },
        Some(v) => {
            proof {
                crate::builtins::sleep::lemma_decimal_nonneg(ds);
            }
            assert(v as int == decimal_value(ds));
            if c[0] == '-' {
                if v <= 9223372036854775808u64 {
                    if v == 9223372036854775808u64 {
                        Some(i64::MIN)
                    } else {
                        Some(-(v as i64))
                    }
                } else {
                    None
                }
            } else {
                if v <= 9223372036854775807u64 {
                    Some(v as i64)
                } else {
                    None
                }
            }
        },
    }
}

/// Types one field.
pub fn type_cell(f: &str) -> (r: Cell)
    ensures
        cell_of(r, f@),
{
    let n = chars_of(f).len();
    if n == 0 {
        return Cell::Null;
    }
    match parse_int(f) {
        Some(i) => Cell::Int(i),
        None => {
            if text_eq(f, "true") {
                Cell::Bool(true)
            } else if text_eq(f, "false") {
                Cell::Bool(false)
            } else {
                Cell::Text(copy_string(f))
            }
        },
    }
}

/// Builds the table of a header and records: each record with one field
/// per header becomes a row of typed cells, in order; the others are left
/// out.
pub fn cells_table(headers: Vec<String>, rows: &Vec<Vec<String>>) -> (t: Table<Cell>)
    ensures
        table_of(t, Some((views(headers@), record_views(rows@)))),
{
    let ghost h = views(headers@);
    let ghost rs = record_views(rows@);
    let mut table: Table<Cell> = Table::new(headers);
    let mut i: usize = 0;
    while i < rows.len()
        invariant
            i <= rows@.len(),
            rs == record_views(rows@),
            table.wf(),
            views(table.headers@) == h,
            table.rows@.len() == full_rows(rs.take(i as int), h.len()).len(),
            forall|k: int|
                0 <= k < table.rows@.len() ==> typed_row(
                    #[trigger] table.rows@[k]@,
                    full_rows(rs.take(i as int), h.len())[k],
                ),
        decreases rows.len() - i,
    {
        let ghost fields = rs[i as int];
        let mut cells: Vec<Cell> = Vec::new();
        let mut j: usize = 0;
        while j < rows[i].len()
            invariant
                i < rows@.len(),
                j <= rows@[i as int]@.len(),
                fields == views(rows@[i as int]@),
                cells@.len() == j,
                forall|k: int| 0 <= k < j ==> cell_of(#[trigger] cells@[k], fields[k]),
            decreases rows@[i as int]@.len() - j,
        {
            cells.push(type_cell(rows[i][j].as_str()));
            j = j + 1;
        }
        table.add_row(cells);
        proof {
            assert(rs.take(i + 1).drop_last() =~= rs.take(i as int));
            assert(rs.take(i + 1).last() == fields);
        }
        i = i + 1;
    }
    assert(rs.take(i as int) =~= rs);
    table
}

/// Reads CSV text into a table: the header row gives the column names and
/// each record with one field per column becomes a row of typed cells.
/// Fails exactly when the csv reader reports an error, with a message that
/// says whether the header or a record could not be read.
pub fn csv_cells(raw: &str) -> (r: Result<Table<Cell>, String>)
    ensures
        r is Ok <==> csv_fields(raw@) is Some,
        r matches Ok(t) ==> table_of(t, csv_fields(raw@)),
        r matches Err(e) ==> csv_error_text(e@),
{
    match read_csv(raw) {
        Ok((headers, rows)) => Ok(cells_table(headers, &rows)),
        Err(e) => Err(e),
    }
}

} // verus!
