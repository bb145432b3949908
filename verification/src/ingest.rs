//! Ingestion: records of raw fields turned into a table.
//!
//! The first record names the columns. In every other record the field of the
//! time column becomes the row's timestamp, and every other field becomes a
//! number or a missing cell. What number a text stands for is decided by a
//! reader that the caller supplies; the library decides which fields are read
//! at all. Rows are parsed in parallel and keep their order.

use vstd::prelude::*;
use vstd::utf8::{decode_utf8, valid_utf8};
use rayon::prelude::IntoParallelRefIterator;
use rayon::prelude::ParallelIterator;
use crate::headers::{find_time_column, time_column};
use crate::source::{csv_records, decode, read_records, LoadError};
use crate::table::{names, CsvRecord, ProcessedData, Row, Table};
use crate::text::{blank, is_blank, trim, trimmed};

verus! {

/// The reader takes every text.
pub open spec fn reads_all<F: Fn(&str) -> Option<u64>>(read: &F) -> bool {
    forall|text: &str| #[trigger] read.requires((text,))
}

/// `out` is what the reader gave for a text.
pub open spec fn reads<F: Fn(&str) -> Option<u64>>(read: &F, text: Seq<char>, out: Option<u64>) -> bool {
    exists|s: &str| s@ == text && #[trigger] read.ensures((s,), out)
}

/// The text of a field; the empty text where the field is not UTF-8.
pub open spec fn field_text(bytes: Seq<u8>) -> Seq<char> {
    if valid_utf8(bytes) {
        decode_utf8(bytes)
    } else {
        Seq::empty()
    }
}

/// The text of the field of a column; the empty text where the record has no
/// such field.
pub open spec fn field_at(fields: Seq<Seq<u8>>, column: int) -> Seq<char> {
    if 0 <= column < fields.len() {
        field_text(fields[column])
    } else {
        Seq::empty()
    }
}

/// A column index as an integer.
pub open spec fn column_of(column: Option<usize>) -> Option<int> {
    match column {
        Some(c) => Some(c as int),
        None => None,
    }
}

/// The timestamp of a record: the field of the time column as it stands,
/// unless it is blank or there is no time column.
pub open spec fn stamp_of(fields: Seq<Seq<u8>>, time: Option<int>) -> Option<Seq<char>> {
    match time {
        Some(c) => if blank(field_at(fields, c)) {
            None
        } else {
            Some(field_at(fields, c))
        },
        None => None,
    }
}

/// `out` is the cell of a column: missing in the time column and for a blank
/// field, else what the reader gave for the field's text.
pub open spec fn cell_reads<F: Fn(&str) -> Option<u64>>(
    read: &F,
    fields: Seq<Seq<u8>>,
    time: Option<int>,
    column: int,
    out: Option<u64>,
) -> bool {
    if time == Some(column) || blank(field_at(fields, column)) {
        out is None
    } else {
        reads(read, field_at(fields, column), out)
    }
}

/// `row` is a record parsed against `width` headers.
pub open spec fn row_reads<F: Fn(&str) -> Option<u64>>(
    read: &F,
    fields: Seq<Seq<u8>>,
    width: nat,
    time: Option<int>,
    row: Row,
) -> bool {
    &&& row.timestamp == stamp_of(fields, time)
    &&& row.values.len() == width
    &&& forall|c: int| 0 <= c < width ==> cell_reads(read, fields, time, c, #[trigger] row.values[c])
}

/// Whether every field of a header record is UTF-8.
pub open spec fn header_readable(fields: Seq<Seq<u8>>) -> bool {
    forall|i: int| 0 <= i < fields.len() ==> valid_utf8(#[trigger] fields[i])
}

/// The header names of a header record: each field's text, trimmed.
pub open spec fn header_names(fields: Seq<Seq<u8>>) -> Seq<Seq<char>> {
    Seq::new(fields.len(), |i: int| trimmed(decode_utf8(fields[i])))
}

/// `table` is what the records load to: the first record gives the headers,
/// each further record one row, in order. No record at all gives a table
/// without columns or rows.
pub open spec fn loaded<F: Fn(&str) -> Option<u64>>(read: &F, records: Seq<Seq<Seq<u8>>>, table: Table) -> bool {
    if records.len() == 0 {
        table.headers.len() == 0 && table.rows.len() == 0
    } else {
        &&& table.headers == header_names(records[0])
        &&& table.rows.len() == records.len() - 1
        &&& forall|r: int|
            0 <= r < table.rows.len() ==> row_reads(
                read,
                records[r + 1],
                table.headers.len(),
                time_column(table.headers),
                #[trigger] table.rows[r],
            )
    }
}

/// The trimmed header names of a header record, or `None` when a field is not
/// UTF-8.
pub fn resolve_headers(fields: &Vec<Vec<u8>>) -> (out: Option<Vec<String>>)
    ensures
        out is Some <==> header_readable(fields.deep_view()),
        out is Some ==> names(out->0@) == header_names(fields.deep_view()),
{
    let mut out: Vec<String> = Vec::new();
    let mut i: usize = 0;
    while i < fields.len()
        invariant
            i <= fields.len(),
            out@.len() == i,
            forall|k: int| 0 <= k < i ==> valid_utf8(#[trigger] fields.deep_view()[k]),
            forall|k: int| 0 <= k < i ==> (#[trigger] out@[k])@ == trimmed(decode_utf8(fields.deep_view()[k])),
        decreases fields.len() - i,
    {
        assert(fields.deep_view()[i as int] == fields@[i as int]@);
        match decode(fields[i].as_slice()) {
            Some(text) => {
                out.push(trim(text));
            },
            None => {
                return None;
            },
        }
        i = i + 1;
    }
    assert(names(out@) =~= header_names(fields.deep_view()));
    Some(out)
}

/// The text of the field of a column; the empty text where the record has no
/// such field or the field is not UTF-8.
pub fn field_of(fields: &Vec<Vec<u8>>, column: usize) -> (out: &str)
    ensures
        out@ == field_at(fields.deep_view(), column as int),
{
    if column < fields.len() {
        assert(fields.deep_view()[column as int] == fields@[column as int]@);
        match decode(fields[column].as_slice()) {
            Some(text) => text,
            None => {
                proof {
                    reveal_strlit("");
                }
                assert(""@ =~= Seq::<char>::empty());
                ""
            },
        }
    } else {
        proof {
            reveal_strlit("");
        }
        assert(""@ =~= Seq::<char>::empty());
        ""
    }
}

/// Parses one record against `width` headers.
pub fn parse_record<F: Fn(&str) -> Option<u64>>(
    fields: &Vec<Vec<u8>>,
    width: usize,
    time: Option<usize>,
    read: &F,
) -> (row: CsvRecord)
    requires
        reads_all(read),
    ensures
        row_reads(read, fields.deep_view(), width as nat, column_of(time), row@),
{
    let timestamp: Option<String> = match time {
        Some(c) => {
            let text = field_of(fields, c);
            if is_blank(text) {
                None
            } else {
                Some(text.to_owned())
            }
        },
        None => None,
    };
    let mut values: Vec<Option<u64>> = Vec::new();
    let mut c: usize = 0;
    while c < width
        invariant
            c <= width,
            reads_all(read),
            values@.len() == c,
            forall|k: int|
                0 <= k < c ==> cell_reads(read, fields.deep_view(), column_of(time), k, #[trigger] values@[k]),
        decreases width - c,
    {
        let is_time = match time {
            Some(t) => t == c,
            None => false,
        };
        let cell: Option<u64> = if is_time {
            None
        } else {
            let text = field_of(fields, c);
            if is_blank(text) {
                None
            } else {
                read(text)
            }
        };
        values.push(cell);
        c = c + 1;
    }
    CsvRecord { timestamp, values }
}

/// `rayon`'s `par_iter`, `map` and `collect` over the records: one row per
/// record, in the order of the records, each what `parse_record` returns for
/// its record.
#[verifier::external_body]
fn parse_records<F: Fn(&str) -> Option<u64> + Sync>(
    records: &Vec<Vec<Vec<u8>>>,
    width: usize,
    time: Option<usize>,
    read: &F,
) -> (rows: Vec<CsvRecord>)
    requires
        reads_all(read),
    ensures
        rows@.len() == records@.len(),
        forall|r: int|
            0 <= r < records@.len() ==> call_ensures(
                parse_record::<F>,
                (&records@[r], width, time, read),
                #[trigger] rows@[r],
            ),
{
    records.par_iter().map(|fields| parse_record(fields, width, time, read)).collect()
}

/// What `table_from_records` returns: a table loaded from the records when
/// the header row is UTF-8 or there is no record at all, else the header
/// error.
pub open spec fn table_read<F: Fn(&str) -> Option<u64>>(
    read: &F,
    records: Seq<Seq<Seq<u8>>>,
    out: Result<ProcessedData, LoadError>,
) -> bool {
    if records.len() > 0 && !header_readable(records[0]) {
        out is Err && out->Err_0 is Header
    } else {
        out is Ok && loaded(read, records, out->Ok_0@) && out->Ok_0@.well_formed()
    }
}

/// Builds a table from the records of one source, the header row first.
pub fn table_from_records<F: Fn(&str) -> Option<u64> + Sync>(records: Vec<Vec<Vec<u8>>>, read: &F) -> (out: Result<
    ProcessedData,
    LoadError,
>)
    requires
        reads_all(read),
    ensures
        table_read(read, records.deep_view(), out),
{
    let ghost all = records.deep_view();
    if records.len() == 0 {
        return Ok(ProcessedData::empty());
    }
    let mut header = records;
    let body = header.split_off(1);
    assert(header.deep_view()[0] == all[0]) by {
        assert(header@[0] == records@[0]);
    }
    let headers = match resolve_headers(&header[0]) {
        Some(headers) => headers,
        None => {
            return Err(LoadError::Header);
        },
    };
    let time = find_time_column(&headers);
    let rows = parse_records(&body, headers.len(), time, read);
    let table = ProcessedData { headers, rows };
    proof {
        assert(column_of(time) == time_column(table@.headers));
        assert forall|r: int| 0 <= r < table@.rows.len() implies row_reads(
            read,
            all[r + 1],
            table@.headers.len(),
            time_column(table@.headers),
            #[trigger] table@.rows[r],
        ) by {
            assert(table@.rows[r] == rows@[r]@);
            assert(body@[r] == records@[r + 1]);
            assert(body@[r].deep_view() == all[r + 1]);
            assert(call_ensures(parse_record::<F>, (&body@[r], headers.len(), time, read), rows@[r]));
        }
    }
    Ok(table)
}

/// Loads one comma-separated source from its bytes.
///
/// Fails exactly when the header row is not UTF-8. A short row, a long row, a
/// field that is not UTF-8 or not a number never fail the load: the cell is
/// missing.
pub fn read_csv<F: Fn(&str) -> Option<u64> + Sync>(bytes: &[u8], read: &F) -> (out: Result<ProcessedData, LoadError>)
    requires
        reads_all(read),
    ensures
        table_read(read, csv_records(bytes@), out),
{
    match read_records(bytes) {
        Ok(records) => table_from_records(records, read),
        Err(e) => Err(e),
    }
}

} // verus!
