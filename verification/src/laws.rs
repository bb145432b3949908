//! Laws that relate the operations of the library to each other.

use vstd::prelude::*;
use crate::cell::{against_of, single_of};
use crate::config::Operator;
use crate::derive::{derived, extended};
use crate::plan::Recipe;
use crate::headers::{addressed, index_of, lemma_index_of, lemma_index_of_appended, time_column};
use crate::ingest::{loaded, row_reads};
use crate::number::is_zero;
use crate::project::{all_rows, batch_at, batch_end, batches_from, found, picked, project_rows, projection};
use crate::table::{cell_at, Row, Table};

verus! {

/// No two headers are the same text.
pub open spec fn distinct(headers: Seq<Seq<char>>) -> bool {
    forall|i: int, j: int| 0 <= i < j < headers.len() ==> #[trigger] headers[i] != #[trigger] headers[j]
}

/// Requesting the headers themselves selects every column, in order.
pub proof fn lemma_found_all(headers: Seq<Seq<char>>, n: int)
    requires
        distinct(headers),
        0 <= n <= headers.len(),
    ensures
        found(headers, headers, n) == Seq::new(n as nat, |i: int| i),
    decreases n,
{
    if n > 0 {
        lemma_found_all(headers, n - 1);
        lemma_index_of(headers, headers[n - 1], 0);
        let column = index_of(headers, headers[n - 1]);
        if column < n - 1 {
            assert(headers[column] != headers[n - 1]);
        }
        assert(found(headers, headers, n) =~= Seq::new(n as nat, |i: int| i));
    } else {
        assert(found(headers, headers, n) =~= Seq::new(n as nat, |i: int| i));
    }
}

/// Projecting a table onto all of its own headers gives the table back,
/// provided its rows are as wide as its headers and no header occurs twice.
pub proof fn law_projecting_all_headers(table: Table)
    requires
        table.well_formed(),
        distinct(table.headers),
    ensures
        projection(table, table.headers) == table,
{
    let n = table.headers.len() as int;
    lemma_found_all(table.headers, n);
    let columns = found(table.headers, table.headers, n);
    let out = projection(table, table.headers);
    assert(out.headers =~= table.headers);
    assert forall|r: int| 0 <= r < table.rows.len() implies out.rows[r] == table.rows[r] by {
        assert(table.rows[r].values.len() == n);
        assert(picked(table.rows[r].values, columns) =~= table.rows[r].values);
    }
    assert(out.rows =~= table.rows);
}

/// The batches from any row on hold, one after the other, exactly the
/// projected rows from that row on: every row once, in order.
pub proof fn law_batches_cover(table: Table, requested: Seq<Seq<char>>, start: int, size: int)
    requires
        size > 0,
        0 <= start <= table.rows.len(),
    ensures
        all_rows(batches_from(table, requested, start, size)) == project_rows(
            table.rows,
            found(table.headers, requested, requested.len() as int),
            start,
            table.rows.len() as int,
        ),
    decreases table.rows.len() - start,
{
    let columns = found(table.headers, requested, requested.len() as int);
    let total = table.rows.len() as int;
    let run = batches_from(table, requested, start, size);
    if start >= total {
        assert(all_rows(run) =~= project_rows(table.rows, columns, start, total));
    } else {
        let end = batch_end(total, start, size);
        law_batches_cover(table, requested, end, size);
        let rest = batches_from(table, requested, end, size);
        assert(run.drop_first() =~= rest);
        assert(run[0] == batch_at(table, requested, start, size));
        assert(project_rows(table.rows, columns, start, end) + project_rows(table.rows, columns, end, total)
            =~= project_rows(table.rows, columns, start, total));
    }
}

/// All the batches of a table hold exactly the rows of its projection.
pub proof fn law_batches_are_the_projection(table: Table, requested: Seq<Seq<char>>, size: int)
    requires
        size > 0,
    ensures
        all_rows(batches_from(table, requested, 0, size)) == projection(table, requested).rows,
{
    law_batches_cover(table, requested, 0, size);
}

/// Dividing one sensor by a literal zero gives a missing cell in every row,
/// whatever the row holds and whatever the unit would answer.
pub proof fn law_division_by_zero_is_missing<F: Fn(Operator, u64, u64) -> u64>(
    unit: &F,
    column: int,
    operand: u64,
    values: Seq<Option<u64>>,
    out: Option<u64>,
)
    requires
        is_zero(operand),
        single_of(unit, column, Operator::Divide, operand, values, out),
    ensures
        out is None,
{
}

/// A row whose base cell is missing gets a missing cell, whatever the other
/// sensors hold.
pub proof fn law_missing_base_is_missing<F: Fn(Operator, u64, u64) -> u64>(
    unit: &F,
    base: int,
    others: Seq<int>,
    divide: bool,
    values: Seq<Option<u64>>,
    out: Option<u64>,
)
    requires
        cell_at(values, base) is None,
        against_of(unit, base, others, divide, values, out),
    ensures
        out is None,
{
}

/// A loaded table is as wide as its headers in every row, and holds nothing
/// in its time column.
pub proof fn law_loaded_is_well_formed<F: Fn(&str) -> Option<u64>>(
    read: &F,
    records: Seq<Seq<Seq<u8>>>,
    table: Table,
)
    requires
        loaded(read, records, table),
    ensures
        table.well_formed(),
        forall|r: int|
            0 <= r < table.rows.len() && time_column(table.headers) is Some ==> (#[trigger] table.rows[r]).values[time_column(
                table.headers,
            )->0] is None,
{
    if records.len() > 0 {
        crate::headers::lemma_time_column(table.headers, 0);
        assert forall|r: int| 0 <= r < table.rows.len() implies (#[trigger] table.rows[r]).values.len()
            == table.headers.len() && (time_column(table.headers) is Some ==> table.rows[r].values[time_column(
            table.headers,
        )->0] is None) by {
            assert(row_reads(read, records[r + 1], table.headers.len(), time_column(table.headers), table.rows[r]));
        }
    }
}

/// A table that was as wide as its headers in every row is so again once a
/// column has been derived.
pub proof fn law_derived_is_well_formed<F: Fn(Operator, u64, u64) -> u64>(
    unit: &F,
    recipe: Recipe,
    name: Seq<char>,
    before: Table,
    after: Table,
)
    requires
        before.well_formed(),
        derived(unit, recipe, name, before, after),
    ensures
        after.well_formed(),
{
    assert forall|r: int| 0 <= r < after.rows.len() implies (#[trigger] after.rows[r]).values.len()
        == after.headers.len() by {
        assert(extended(unit, recipe, before.rows[r], after.rows[r]));
        assert(before.rows[r].values.len() == before.headers.len());
    }
}

/// A projection is as wide as its headers in every row, whatever the table
/// and the request.
pub proof fn law_projection_is_well_formed(table: Table, requested: Seq<Seq<char>>)
    ensures
        projection(table, requested).well_formed(),
{
}

/// A derived column whose name was no header before is what a projection
/// onto that name gives: in every row the derived cell, under the row's
/// timestamp.
pub proof fn law_fresh_name_reads_back<F: Fn(Operator, u64, u64) -> u64>(
    unit: &F,
    recipe: Recipe,
    name: Seq<char>,
    before: Table,
    after: Table,
)
    requires
        before.well_formed(),
        derived(unit, recipe, name, before, after),
        index_of(before.headers, name) >= before.headers.len(),
    ensures
        projection(after, seq![name]).headers == seq![name],
        projection(after, seq![name]).rows.len() == before.rows.len(),
        forall|r: int|
            0 <= r < before.rows.len() ==> #[trigger] projection(after, seq![name]).rows[r] == (Row {
                timestamp: before.rows[r].timestamp,
                values: seq![after.rows[r].values.last()],
            }),
{
    let asked = seq![name];
    let width = before.headers.len() as int;
    lemma_index_of_appended(before.headers, name);
    lemma_index_of(before.headers, name, 0);
    assert(addressed(before.headers, name) == width);
    reveal_with_fuel(found, 2);
    let columns = found(after.headers, asked, 1);
    assert(columns =~= seq![width]);
    let out = projection(after, asked);
    assert(out.headers =~= seq![name]);
    assert forall|r: int| 0 <= r < before.rows.len() implies #[trigger] out.rows[r] == (Row {
        timestamp: before.rows[r].timestamp,
        values: seq![after.rows[r].values.last()],
    }) by {
        assert(extended(unit, recipe, before.rows[r], after.rows[r]));
        assert(before.rows[r].values.len() == width);
        assert(picked(after.rows[r].values, columns) =~= seq![after.rows[r].values.last()]);
    }
}

/// Dividing one sensor by a literal zero under a name that was no header
/// before, and reading the column back by that name, gives a missing cell in
/// every row.
pub proof fn law_division_by_zero_reads_back_missing<F: Fn(Operator, u64, u64) -> u64>(
    unit: &F,
    column: int,
    operand: u64,
    name: Seq<char>,
    before: Table,
    after: Table,
)
    requires
        is_zero(operand),
        before.well_formed(),
        derived(unit, Recipe::Single { column, operator: Operator::Divide, operand }, name, before, after),
        index_of(before.headers, name) >= before.headers.len(),
    ensures
        forall|r: int|
            0 <= r < before.rows.len() ==> (#[trigger] projection(after, seq![name]).rows[r]).values == seq![
                None::<u64>,
            ],
{
    let recipe = Recipe::Single { column, operator: Operator::Divide, operand };
    law_fresh_name_reads_back(unit, recipe, name, before, after);
    assert forall|r: int| 0 <= r < before.rows.len() implies (#[trigger] projection(after, seq![name]).rows[r]).values
        == seq![None::<u64>] by {
        assert(extended(unit, recipe, before.rows[r], after.rows[r]));
        assert(after.rows[r].values.last() is None);
        assert(seq![after.rows[r].values.last()] =~= seq![None::<u64>]);
    }
}

/// Subtracting from, or dividing, a base under a name that was no header
/// before, and reading the column back by that name, gives a missing cell in
/// every row whose base cell is missing.
pub proof fn law_missing_base_reads_back_missing<F: Fn(Operator, u64, u64) -> u64>(
    unit: &F,
    base: int,
    others: Seq<int>,
    divide: bool,
    name: Seq<char>,
    before: Table,
    after: Table,
    r: int,
)
    requires
        before.well_formed(),
        derived(unit, Recipe::Against { base, others, divide }, name, before, after),
        index_of(before.headers, name) >= before.headers.len(),
        0 <= r < before.rows.len(),
        cell_at(before.rows[r].values, base) is None,
    ensures
        projection(after, seq![name]).rows[r].values == seq![None::<u64>],
{
    let recipe = Recipe::Against { base, others, divide };
    law_fresh_name_reads_back(unit, recipe, name, before, after);
    assert(extended(unit, recipe, before.rows[r], after.rows[r]));
    assert(after.rows[r].values.last() is None);
    assert(seq![after.rows[r].values.last()] =~= seq![None::<u64>]);
}

} // verus!
