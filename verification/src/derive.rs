//! The derived-sensor engine: a new column computed from existing ones and
//! appended to the table.

use vstd::prelude::*;
use crate::cell::{accepts_all, cell_of, derive_cell};
use crate::config::{column_name, decode_config, name_column, DeriveConfig, DeriveError, Operator};
use crate::headers::{addressed, index_of, lemma_index_of_appended};
use crate::plan::{make_plan, recipe_of, Recipe};
use crate::table::{names, ProcessedData, Row, Table};

verus! {

/// A row with one derived cell appended.
pub open spec fn extended<F: Fn(Operator, u64, u64) -> u64>(unit: &F, recipe: Recipe, before: Row, after: Row) -> bool {
    &&& after.timestamp == before.timestamp
    &&& after.values.len() == before.values.len() + 1
    &&& after.values.drop_last() == before.values
    &&& cell_of(unit, recipe, before.values, after.values.last())
}

/// A table with one derived column appended: the name behind the headers,
/// and in every row the cell that the recipe yields for it.
pub open spec fn derived<F: Fn(Operator, u64, u64) -> u64>(
    unit: &F,
    recipe: Recipe,
    name: Seq<char>,
    before: Table,
    after: Table,
) -> bool {
    &&& after.headers == before.headers.push(name)
    &&& after.rows.len() == before.rows.len()
    &&& forall|r: int| 0 <= r < before.rows.len() ==> extended(unit, recipe, before.rows[r], #[trigger] after.rows[r])
}

/// Computes a new column from the selected ones and appends it to the table.
///
/// The selection and the configuration are checked first; if they are
/// rejected, the table is left as it was. Otherwise the column's name is
/// appended to the headers, every row gets the cell that the recipe yields for
/// it, and the name is returned.
///
/// The name is not compared with the headers that are there. A lookup by the
/// returned name finds the new column when no header had that name, and the
/// older column of that name otherwise.
pub fn derive_column<F: Fn(Operator, u64, u64) -> u64>(
    table: &mut ProcessedData,
    selected: &Vec<String>,
    config: &DeriveConfig,
    unit: &F,
) -> (out: Result<String, DeriveError>)
    requires
        accepts_all(unit),
    ensures
        match recipe_of(old(table)@.headers, names(selected@), *config) {
            Ok(recipe) => {
                &&& out is Ok
                &&& out->Ok_0@ == column_name(names(selected@), *config)
                &&& derived(unit, recipe, column_name(names(selected@), *config), old(table)@, final(table)@)
                &&& index_of(final(table)@.headers, column_name(names(selected@), *config)) == addressed(
                    old(table)@.headers,
                    column_name(names(selected@), *config),
                )
            },
            Err(e) => out is Err && out->Err_0 == e && *final(table) == *old(table),
        },
        old(table)@.well_formed() && out is Ok ==> final(table)@.well_formed(),
{
    let plan = match make_plan(&table.headers, selected, config) {
        Ok(plan) => plan,
        Err(e) => {
            return Err(e);
        },
    };
    let operation = match decode_config(config) {
        Ok(operation) => operation,
        Err(e) => {
            return Err(e);
        },
    };
    let name = name_column(selected, config, operation);
    let ghost before = table@;
    let mut r: usize = 0;
    while r < table.rows.len()
        invariant
            r <= table.rows@.len(),
            accepts_all(unit),
            table.headers == old(table).headers,
            table.rows@.len() == before.rows.len(),
            before == old(table)@,
            forall|k: int| 0 <= k < r ==> extended(unit, plan@, before.rows[k], #[trigger] table.rows@[k]@),
            forall|k: int| r <= k < table.rows@.len() ==> (#[trigger] table.rows@[k])@ == before.rows[k],
        decreases table.rows@.len() - r,
    {
        let cell = derive_cell(unit, &plan, &table.rows[r].values);
        let ghost row_before = table.rows@[r as int]@;
        table.rows[r].values.push(cell);
        assert(table.rows@[r as int]@.values.drop_last() =~= row_before.values);
        r = r + 1;
    }
    let text = name.clone();
    table.headers.push(name);
    proof {
        lemma_index_of_appended(before.headers, text@);
        assert(table@.headers =~= before.headers.push(text@));
        assert forall|k: int| 0 <= k < before.rows.len() implies extended(
            unit,
            plan@,
            before.rows[k],
            #[trigger] table@.rows[k],
        ) by {
            assert(table@.rows[k] == table.rows@[k]@);
        }
    }
    Ok(text)
}

} // verus!
