//! One derived cell: which cells of a row take part, when the result is
//! missing, and in what order the arithmetic unit is asked.
//!
//! The unit is a function from an operator and two bit patterns to the
//! pattern of the result, supplied by the caller. Contracts state what was
//! asked of it and how its answers were used.

use vstd::prelude::*;
use crate::config::{Aggregate, Operator};
use crate::number::{is_zero, lemma_ordered, ordered, sort_values, zero, ONE, TWO, ZERO};
use crate::plan::{indices, Plan, Recipe};
use crate::table::cell_at;

verus! {

/// The unit takes every request.
pub open spec fn accepts_all<F: Fn(Operator, u64, u64) -> u64>(unit: &F) -> bool {
    forall|operator: Operator, a: u64, b: u64| #[trigger] unit.requires((operator, a, b))
}

/// The present cells among the first `n` of the given columns, in order.
pub open spec fn present(values: Seq<Option<u64>>, columns: Seq<int>, n: int) -> Seq<u64>
    decreases n,
{
    if n <= 0 {
        Seq::empty()
    } else {
        let before = present(values, columns, n - 1);
        match cell_at(values, columns[n - 1]) {
            Some(v) => before.push(v),
            None => before,
        }
    }
}

/// The running result at `i` is what the unit gave for the one before it and
/// the value at `i`.
pub open spec fn links<F: Fn(Operator, u64, u64) -> u64>(
    unit: &F,
    operator: Operator,
    values: Seq<u64>,
    partial: Seq<u64>,
    i: int,
) -> bool {
    unit.ensures((operator, partial[i - 1], values[i]), partial[i])
}

/// `partial` holds the running results of combining the values from the
/// left: the first value, then what the unit gave for the result so far and
/// each next value.
pub open spec fn is_chain<F: Fn(Operator, u64, u64) -> u64>(
    unit: &F,
    operator: Operator,
    values: Seq<u64>,
    partial: Seq<u64>,
) -> bool {
    &&& partial.len() == values.len()
    &&& values.len() > 0 ==> partial[0] == values[0]
    &&& forall|i: int| 1 <= i < values.len() ==> #[trigger] links(unit, operator, values, partial, i)
}

/// `out` is what the unit gave for the values combined from the left.
pub open spec fn folds<F: Fn(Operator, u64, u64) -> u64>(
    unit: &F,
    operator: Operator,
    values: Seq<u64>,
    out: u64,
) -> bool {
    exists|partial: Seq<u64>|
        values.len() > 0 && #[trigger] is_chain(unit, operator, values, partial) && out == partial[values.len() - 1]
}

/// As many ones as there are things to count.
pub open spec fn ones(n: nat) -> Seq<u64> {
    Seq::new(n, |i: int| ONE)
}

/// `out` is what the unit gave for `n` counted in its own arithmetic: one,
/// then one added each time.
pub open spec fn counts<F: Fn(Operator, u64, u64) -> u64>(unit: &F, n: nat, out: u64) -> bool {
    folds(unit, Operator::Add, ones(n), out)
}

/// `out` is what the unit gave for the sum of the values; zero for none.
pub open spec fn totals<F: Fn(Operator, u64, u64) -> u64>(unit: &F, values: Seq<u64>, out: u64) -> bool {
    if values.len() == 0 {
        out == ZERO
    } else {
        folds(unit, Operator::Add, values, out)
    }
}

/// `out` is what the unit gave for `total` divided by `count`, where these
/// are its sum of the values and its count of them.
pub open spec fn mean_from<F: Fn(Operator, u64, u64) -> u64>(
    unit: &F,
    values: Seq<u64>,
    total: u64,
    count: u64,
    out: u64,
) -> bool {
    &&& folds(unit, Operator::Add, values, total)
    &&& counts(unit, values.len(), count)
    &&& unit.ensures((Operator::Divide, total, count), out)
}

/// `out` is what the unit gave for the mean: the sum divided by the count.
pub open spec fn averages<F: Fn(Operator, u64, u64) -> u64>(unit: &F, values: Seq<u64>, out: u64) -> bool {
    exists|total: u64, count: u64| #[trigger] mean_from(unit, values, total, count, out)
}

/// `out` is what the unit gave for `sum` divided by two, where `sum` is what
/// it gave for `low` and `high` added.
pub open spec fn midpoint_from<F: Fn(Operator, u64, u64) -> u64>(
    unit: &F,
    low: u64,
    high: u64,
    sum: u64,
    out: u64,
) -> bool {
    &&& unit.ensures((Operator::Add, low, high), sum)
    &&& unit.ensures((Operator::Divide, sum, TWO), out)
}

/// `out` is the median: the middle value in numeric order, or what the unit
/// gave for the two middle values added and divided by two.
pub open spec fn medians<F: Fn(Operator, u64, u64) -> u64>(unit: &F, values: Seq<u64>, out: u64) -> bool {
    let sorted = ordered(values, values.len() as int);
    let half = values.len() as int / 2;
    if values.len() % 2 == 1 {
        out == sorted[half]
    } else {
        exists|sum: u64| #[trigger] midpoint_from(unit, sorted[half - 1], sorted[half], sum, out)
    }
}

/// `out` is what a base cell and the unit's sum of the other cells yield:
/// what the unit gave for the base minus, or divided by, the sum; missing for
/// division by a zero sum.
pub open spec fn against_from<F: Fn(Operator, u64, u64) -> u64>(
    unit: &F,
    base: u64,
    others: Seq<u64>,
    divide: bool,
    total: u64,
    out: Option<u64>,
) -> bool {
    &&& totals(unit, others, total)
    &&& if divide {
        if is_zero(total) {
            out is None
        } else {
            out is Some && unit.ensures((Operator::Divide, base, total), out->0)
        }
    } else {
        out is Some && unit.ensures((Operator::Subtract, base, total), out->0)
    }
}

/// `out` is what one sensor against a literal operand yields for one row:
/// missing for a missing cell and for division by a zero operand, else the
/// unit's answer for the cell and the operand.
pub open spec fn single_of<F: Fn(Operator, u64, u64) -> u64>(
    unit: &F,
    column: int,
    operator: Operator,
    operand: u64,
    values: Seq<Option<u64>>,
    out: Option<u64>,
) -> bool {
    match cell_at(values, column) {
        None => out is None,
        Some(v) => if operator is Divide && is_zero(operand) {
            out is None
        } else {
            out is Some && unit.ensures((operator, v, operand), out->0)
        },
    }
}

/// `out` is what an aggregate yields for one row: missing when no selected
/// cell is present, else the aggregate of the present ones.
pub open spec fn combine_of<F: Fn(Operator, u64, u64) -> u64>(
    unit: &F,
    columns: Seq<int>,
    operation: Aggregate,
    values: Seq<Option<u64>>,
    out: Option<u64>,
) -> bool {
    let cells = present(values, columns, columns.len() as int);
    if cells.len() == 0 {
        out is None
    } else {
        out is Some && match operation {
            Aggregate::Sum => folds(unit, Operator::Add, cells, out->0),
            Aggregate::Product => folds(unit, Operator::Multiply, cells, out->0),
            Aggregate::Mean => averages(unit, cells, out->0),
            _ => medians(unit, cells, out->0),
        }
    }
}

/// `out` is what a base against the other sensors yields for one row: missing
/// for a missing base and for division by a zero sum, else the unit's answer
/// for the base and the sum of the other present cells.
pub open spec fn against_of<F: Fn(Operator, u64, u64) -> u64>(
    unit: &F,
    base: int,
    others: Seq<int>,
    divide: bool,
    values: Seq<Option<u64>>,
    out: Option<u64>,
) -> bool {
    match cell_at(values, base) {
        None => out is None,
        Some(b) => exists|total: u64| #[trigger]
            against_from(unit, b, present(values, others, others.len() as int), divide, total, out),
    }
}

/// `out` is what a recipe yields for one row, given what the unit answered.
pub open spec fn cell_of<F: Fn(Operator, u64, u64) -> u64>(
    unit: &F,
    recipe: Recipe,
    values: Seq<Option<u64>>,
    out: Option<u64>,
) -> bool {
    match recipe {
        Recipe::Single { column, operator, operand } => single_of(unit, column, operator, operand, values, out),
        Recipe::Combine { columns, operation } => combine_of(unit, columns, operation, values, out),
        Recipe::Against { base, others, divide } => against_of(unit, base, others, divide, values, out),
    }
}

/// The present cells of the given columns, in order.
pub fn present_cells(values: &Vec<Option<u64>>, columns: &Vec<usize>) -> (out: Vec<u64>)
    ensures
        out@ == present(values@, indices(columns@), columns@.len() as int),
{
    let mut out: Vec<u64> = Vec::new();
    let mut n: usize = 0;
    while n < columns.len()
        invariant
            n <= columns.len(),
            out@ == present(values@, indices(columns@), n as int),
        decreases columns.len() - n,
    {
        let column: usize = columns[n];
        if column < values.len() {
            match values[column] {
                Some(v) => {
                    out.push(v);
                },
                None => {},
            }
        }
        n = n + 1;
    }
    out
}

/// Combines the values from the left with one operator.
fn fold_values<F: Fn(Operator, u64, u64) -> u64>(unit: &F, operator: Operator, values: &Vec<u64>) -> (out: u64)
    requires
        accepts_all(unit),
        values@.len() > 0,
    ensures
        folds(unit, operator, values@, out),
{
    let mut acc: u64 = values[0];
    let ghost mut partial: Seq<u64> = seq![acc];
    let mut n: usize = 1;
    while n < values.len()
        invariant
            1 <= n <= values.len(),
            accepts_all(unit),
            partial.len() == n,
            partial[0] == values@[0],
            acc == partial[n - 1],
            forall|i: int| 1 <= i < n ==> #[trigger] links(unit, operator, values@, partial, i),
        decreases values.len() - n,
    {
        let next: u64 = unit(operator, acc, values[n]);
        proof {
            let ghost longer = partial.push(next);
            assert forall|i: int| 1 <= i < n + 1 implies #[trigger] links(unit, operator, values@, longer, i) by {
                if i < n {
                    assert(links(unit, operator, values@, partial, i));
                }
            }
            partial = longer;
        }
        acc = next;
        n = n + 1;
    }
    assert(is_chain(unit, operator, values@, partial));
    acc
}

/// Counts to `n` in the unit's arithmetic.
fn count_up<F: Fn(Operator, u64, u64) -> u64>(unit: &F, n: usize) -> (out: u64)
    requires
        accepts_all(unit),
        n > 0,
    ensures
        counts(unit, n as nat, out),
{
    let mut acc: u64 = ONE;
    let ghost mut partial: Seq<u64> = seq![acc];
    let mut k: usize = 1;
    while k < n
        invariant
            1 <= k <= n,
            accepts_all(unit),
            partial.len() == k,
            partial[0] == ONE,
            acc == partial[k - 1],
            forall|i: int| 1 <= i < k ==> #[trigger] links(unit, Operator::Add, ones(n as nat), partial, i),
        decreases n - k,
    {
        let next: u64 = unit(Operator::Add, acc, ONE);
        proof {
            let ghost longer = partial.push(next);
            assert forall|i: int| 1 <= i < k + 1 implies #[trigger] links(
                unit,
                Operator::Add,
                ones(n as nat),
                longer,
                i,
            ) by {
                if i < k {
                    assert(links(unit, Operator::Add, ones(n as nat), partial, i));
                }
            }
            partial = longer;
        }
        acc = next;
        k = k + 1;
    }
    assert(is_chain(unit, Operator::Add, ones(n as nat), partial));
    acc
}

/// The sum of the values; zero for none.
fn total_of<F: Fn(Operator, u64, u64) -> u64>(unit: &F, values: &Vec<u64>) -> (out: u64)
    requires
        accepts_all(unit),
    ensures
        totals(unit, values@, out),
{
    if values.len() == 0 {
        ZERO
    } else {
        fold_values(unit, Operator::Add, values)
    }
}

/// The mean of the values.
fn mean_of<F: Fn(Operator, u64, u64) -> u64>(unit: &F, values: &Vec<u64>) -> (out: u64)
    requires
        accepts_all(unit),
        values@.len() > 0,
    ensures
        averages(unit, values@, out),
{
    let total: u64 = fold_values(unit, Operator::Add, values);
    let count: u64 = count_up(unit, values.len());
    let out: u64 = unit(Operator::Divide, total, count);
    assert(mean_from(unit, values@, total, count, out));
    out
}

/// The median of the values.
fn median_of<F: Fn(Operator, u64, u64) -> u64>(unit: &F, values: &Vec<u64>) -> (out: u64)
    requires
        accepts_all(unit),
        values@.len() > 0,
    ensures
        medians(unit, values@, out),
{
    let sorted = sort_values(values);
    proof {
        lemma_ordered(values@, values@.len() as int);
    }
    let half: usize = values.len() / 2;
    if values.len() % 2 == 1 {
        sorted[half]
    } else {
        let sum: u64 = unit(Operator::Add, sorted[half - 1], sorted[half]);
        let out: u64 = unit(Operator::Divide, sum, TWO);
        assert(midpoint_from(unit, sorted@[half - 1], sorted@[half as int], sum, out));
        out
    }
}

/// One sensor against a literal operand, for one row.
fn single_cell<F: Fn(Operator, u64, u64) -> u64>(
    unit: &F,
    column: usize,
    operator: Operator,
    operand: u64,
    values: &Vec<Option<u64>>,
) -> (out: Option<u64>)
    requires
        accepts_all(unit),
    ensures
        single_of(unit, column as int, operator, operand, values@, out),
{
    if column >= values.len() {
        return None;
    }
    match values[column] {
        None => None,
        Some(v) => {
            let by_zero = match operator {
                Operator::Divide => zero(operand),
                _ => false,
            };
            if by_zero {
                None
            } else {
                Some(unit(operator, v, operand))
            }
        },
    }
}

/// Sum, mean, median or product of the present cells, for one row.
fn combined_cell<F: Fn(Operator, u64, u64) -> u64>(
    unit: &F,
    columns: &Vec<usize>,
    operation: Aggregate,
    values: &Vec<Option<u64>>,
) -> (out: Option<u64>)
    requires
        accepts_all(unit),
    ensures
        combine_of(unit, indices(columns@), operation, values@, out),
{
    let cells = present_cells(values, columns);
    if cells.len() == 0 {
        None
    } else {
        let value: u64 = match operation {
            Aggregate::Sum => fold_values(unit, Operator::Add, &cells),
            Aggregate::Product => fold_values(unit, Operator::Multiply, &cells),
            Aggregate::Mean => mean_of(unit, &cells),
            _ => median_of(unit, &cells),
        };
        Some(value)
    }
}

/// The base cell minus, or divided by, the sum of the others, for one row.
fn against_cell<F: Fn(Operator, u64, u64) -> u64>(
    unit: &F,
    base: usize,
    others: &Vec<usize>,
    divide: bool,
    values: &Vec<Option<u64>>,
) -> (out: Option<u64>)
    requires
        accepts_all(unit),
    ensures
        against_of(unit, base as int, indices(others@), divide, values@, out),
{
    if base >= values.len() {
        return None;
    }
    match values[base] {
        None => None,
        Some(b) => {
            let cells = present_cells(values, others);
            let total: u64 = total_of(unit, &cells);
            let out: Option<u64> = if divide {
                if zero(total) {
                    None
                } else {
                    Some(unit(Operator::Divide, b, total))
                }
            } else {
                Some(unit(Operator::Subtract, b, total))
            };
            assert(against_from(
                unit,
                b,
                present(values@, indices(others@), indices(others@).len() as int),
                divide,
                total,
                out,
            ));
            out
        },
    }
}

/// What a plan yields for one row.
pub fn derive_cell<F: Fn(Operator, u64, u64) -> u64>(unit: &F, plan: &Plan, values: &Vec<Option<u64>>) -> (out:
    Option<u64>)
    requires
        accepts_all(unit),
    ensures
        cell_of(unit, plan@, values@, out),
{
    match plan {
        Plan::Single { column, operator, operand } => single_cell(unit, *column, *operator, *operand, values),
        Plan::Combine { columns, operation } => combined_cell(unit, columns, *operation, values),
        Plan::Against { base, others, divide } => against_cell(unit, *base, others, *divide, values),
    }
}

} // verus!
