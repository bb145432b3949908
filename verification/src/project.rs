//! Projection: a subset of the columns, whole or in batches of rows.

use vstd::prelude::*;
use crate::headers::{find_index, index_of};
use crate::table::{cell_at, copy_text, names, rows_of, tables_of, CsvRecord, ProcessedData, Row, Table};

verus! {

/// The number of rows in a batch, unless the caller picks another.
pub const BATCH_ROWS: usize = 5000;

/// The columns of those among the first `n` requested names that are
/// headers, in the order of the request.
pub open spec fn found(headers: Seq<Seq<char>>, requested: Seq<Seq<char>>, n: int) -> Seq<int>
    decreases n,
{
    if n <= 0 {
        Seq::empty()
    } else {
        let before = found(headers, requested, n - 1);
        let column = index_of(headers, requested[n - 1]);
        if column < headers.len() {
            before.push(column)
        } else {
            before
        }
    }
}

/// The cells of the given columns.
pub open spec fn picked(values: Seq<Option<u64>>, columns: Seq<int>) -> Seq<Option<u64>> {
    Seq::new(columns.len(), |i: int| cell_at(values, columns[i]))
}

/// A row reduced to the given columns, its timestamp unchanged.
pub open spec fn project_row(row: Row, columns: Seq<int>) -> Row {
    Row { timestamp: row.timestamp, values: picked(row.values, columns) }
}

/// The headers of the given columns.
pub open spec fn picked_headers(headers: Seq<Seq<char>>, columns: Seq<int>) -> Seq<Seq<char>> {
    Seq::new(columns.len(), |i: int| headers[columns[i]])
}

/// The rows from `start` up to `end`, reduced to the given columns.
pub open spec fn project_rows(rows: Seq<Row>, columns: Seq<int>, start: int, end: int) -> Seq<Row> {
    Seq::new((end - start) as nat, |r: int| project_row(rows[start + r], columns))
}

/// The table reduced to the requested columns: names that are no header are
/// dropped, the others keep the order of the request.
pub open spec fn projection(table: Table, requested: Seq<Seq<char>>) -> Table {
    let columns = found(table.headers, requested, requested.len() as int);
    Table {
        headers: picked_headers(table.headers, columns),
        rows: project_rows(table.rows, columns, 0, table.rows.len() as int),
    }
}

/// Where the batch that starts at `start` ends.
pub open spec fn batch_end(rows: int, start: int, size: int) -> int {
    if start + size < rows {
        start + size
    } else {
        rows
    }
}

/// The batch of at most `size` rows that starts at row `start`.
pub open spec fn batch_at(table: Table, requested: Seq<Seq<char>>, start: int, size: int) -> Table {
    let columns = found(table.headers, requested, requested.len() as int);
    Table {
        headers: picked_headers(table.headers, columns),
        rows: project_rows(table.rows, columns, start, batch_end(table.rows.len() as int, start, size)),
    }
}

/// The batches from row `start` on, in order.
pub open spec fn batches_from(table: Table, requested: Seq<Seq<char>>, start: int, size: int) -> Seq<Table>
    decreases table.rows.len() - start,
{
    if size <= 0 || start < 0 || start >= table.rows.len() {
        Seq::empty()
    } else {
        seq![batch_at(table, requested, start, size)] + batches_from(
            table,
            requested,
            batch_end(table.rows.len() as int, start, size),
            size,
        )
    }
}

/// The rows of a list of batches, one batch after the other.
pub open spec fn all_rows(batches: Seq<Table>) -> Seq<Row>
    decreases batches.len(),
{
    if batches.len() == 0 {
        Seq::empty()
    } else {
        batches[0].rows + all_rows(batches.drop_first())
    }
}

/// Column indices as integers.
pub open spec fn columns_view(columns: Seq<usize>) -> Seq<int> {
    columns.map_values(|c: usize| c as int)
}

/// What comes next in a batched export.
pub enum Emission {
    /// A batch, and the row at which the next one starts.
    Batch { data: ProcessedData, next: usize },
    /// Every row was handed out.
    End,
}

/// The columns of the requested names that are headers.
pub fn select_columns(headers: &Vec<String>, requested: &Vec<String>) -> (columns: Vec<usize>)
    ensures
        columns_view(columns@) == found(names(headers@), names(requested@), requested@.len() as int),
        forall|i: int| 0 <= i < columns@.len() ==> (#[trigger] columns@[i]) < headers@.len(),
{
    let mut columns: Vec<usize> = Vec::new();
    let mut n: usize = 0;
    while n < requested.len()
        invariant
            n <= requested.len(),
            columns_view(columns@) == found(names(headers@), names(requested@), n as int),
            forall|i: int| 0 <= i < columns@.len() ==> (#[trigger] columns@[i]) < headers@.len(),
        decreases requested.len() - n,
    {
        let column: usize = find_index(headers, requested[n].as_str());
        if column < headers.len() {
            columns.push(column);
            assert(columns_view(columns@) =~= found(names(headers@), names(requested@), n as int).push(
                column as int,
            ));
        }
        n = n + 1;
    }
    columns
}

/// The headers of the given columns.
fn pick_headers(headers: &Vec<String>, columns: &Vec<usize>) -> (out: Vec<String>)
    requires
        forall|i: int| 0 <= i < columns@.len() ==> (#[trigger] columns@[i]) < headers@.len(),
    ensures
        names(out@) == picked_headers(names(headers@), columns_view(columns@)),
{
    let mut out: Vec<String> = Vec::new();
    let mut i: usize = 0;
    while i < columns.len()
        invariant
            i <= columns.len(),
            out@.len() == i,
            forall|k: int| 0 <= k < columns@.len() ==> (#[trigger] columns@[k]) < headers@.len(),
            forall|k: int| 0 <= k < i ==> (#[trigger] out@[k])@ == headers@[columns@[k] as int]@,
        decreases columns.len() - i,
    {
        out.push(headers[columns[i]].clone());
        i = i + 1;
    }
    assert(names(out@) =~= picked_headers(names(headers@), columns_view(columns@)));
    out
}

/// A row reduced to the given columns.
pub fn pick_row(row: &CsvRecord, columns: &Vec<usize>) -> (out: CsvRecord)
    ensures
        out@ == project_row(row@, columns_view(columns@)),
{
    let mut values: Vec<Option<u64>> = Vec::new();
    let mut i: usize = 0;
    while i < columns.len()
        invariant
            i <= columns.len(),
            values@.len() == i,
            forall|k: int| 0 <= k < i ==> #[trigger] values@[k] == cell_at(row.values@, columns@[k] as int),
        decreases columns.len() - i,
    {
        let column: usize = columns[i];
        let cell: Option<u64> = if column < row.values.len() {
            row.values[column]
        } else {
            None
        };
        values.push(cell);
        i = i + 1;
    }
    assert(values@ =~= picked(row.values@, columns_view(columns@)));
    CsvRecord { timestamp: copy_text(&row.timestamp), values }
}

/// The rows from `start` up to `end`, reduced to the given columns.
fn pick_rows(rows: &Vec<CsvRecord>, columns: &Vec<usize>, start: usize, end: usize) -> (out: Vec<CsvRecord>)
    requires
        start <= end <= rows@.len(),
    ensures
        rows_of(out@) == project_rows(rows_of(rows@), columns_view(columns@), start as int, end as int),
{
    let mut out: Vec<CsvRecord> = Vec::new();
    let mut r: usize = start;
    while r < end
        invariant
            start <= r <= end <= rows@.len(),
            out@.len() == r - start,
            forall|k: int|
                0 <= k < r - start ==> (#[trigger] out@[k])@ == project_row(
                    rows@[start + k]@,
                    columns_view(columns@),
                ),
        decreases end - r,
    {
        out.push(pick_row(&rows[r], columns));
        r = r + 1;
    }
    assert(rows_of(out@) =~= project_rows(rows_of(rows@), columns_view(columns@), start as int, end as int));
    out
}

/// The table reduced to the requested columns.
///
/// Requested names that are no header are dropped; the others keep the order
/// of the request. Every row is kept, with its timestamp.
pub fn get_data(table: &ProcessedData, sensors: &Vec<String>) -> (out: ProcessedData)
    ensures
        out@ == projection(table@, names(sensors@)),
        out@.well_formed(),
{
    let columns = select_columns(&table.headers, sensors);
    let headers = pick_headers(&table.headers, &columns);
    let rows = pick_rows(&table.rows, &columns, 0, table.rows.len());
    ProcessedData { headers, rows }
}

/// The next step of a batched export that has handed out the rows before
/// `cursor`: the batch of at most `size` rows that starts there, or the end
/// signal when no row is left.
pub fn next_batch(table: &ProcessedData, sensors: &Vec<String>, cursor: usize, size: usize) -> (out: Emission)
    requires
        size > 0,
    ensures
        out is End <==> cursor >= table@.rows.len(),
        out is Batch ==> {
            &&& out->data@ == batch_at(table@, names(sensors@), cursor as int, size as int)
            &&& out->next == batch_end(table@.rows.len() as int, cursor as int, size as int)
            &&& cursor < out->next <= table@.rows.len()
            &&& out->data@.rows.len() == out->next - cursor
            &&& out->data@.well_formed()
        },
{
    let total: usize = table.rows.len();
    if cursor >= total {
        return Emission::End;
    }
    let end: usize = if size < total - cursor {
        cursor + size
    } else {
        total
    };
    let columns = select_columns(&table.headers, sensors);
    let headers = pick_headers(&table.headers, &columns);
    let rows = pick_rows(&table.rows, &columns, cursor, end);
    Emission::Batch { data: ProcessedData { headers, rows }, next: end }
}

/// Every batch of an export, in order.
pub fn export_batches(table: &ProcessedData, sensors: &Vec<String>, size: usize) -> (out: Vec<ProcessedData>)
    requires
        size > 0,
    ensures
        tables_of(out@) == batches_from(table@, names(sensors@), 0, size as int),
{
    let mut out: Vec<ProcessedData> = Vec::new();
    let mut cursor: usize = 0;
    let ghost whole = batches_from(table@, names(sensors@), 0, size as int);
    loop
        invariant
            size > 0,
            cursor <= table@.rows.len(),
            whole == batches_from(table@, names(sensors@), 0, size as int),
            whole == tables_of(out@) + batches_from(table@, names(sensors@), cursor as int, size as int),
        decreases table@.rows.len() - cursor,
    {
        match next_batch(table, sensors, cursor, size) {
            Emission::End => {
                assert(tables_of(out@) + Seq::<Table>::empty() =~= tables_of(out@));
                return out;
            },
            Emission::Batch { data, next } => {
                let ghost done = tables_of(out@);
                out.push(data);
                assert(tables_of(out@) =~= done.push(data@));
                assert(done + (seq![data@] + batches_from(table@, names(sensors@), next as int, size as int))
                    =~= done.push(data@) + batches_from(table@, names(sensors@), next as int, size as int));
                cursor = next;
            },
        }
    }
}

} // verus!
