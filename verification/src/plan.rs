//! From a selection of sensors and a configuration to the recipe that is run
//! on every row, or to the error the request is rejected with.

use vstd::prelude::*;
use crate::config::{decode_config, operation_of, Aggregate, DeriveConfig, DeriveError, Operation, Operator};
use crate::headers::{find_index, index_of, lemma_index_of};
use crate::table::names;
use crate::text::text_eq;

verus! {

/// What is computed in each row, over column indices.
pub enum Recipe {
    /// `operator` applied to the cell of `column` and `operand`.
    Single { column: int, operator: Operator, operand: u64 },
    /// Sum, mean, median or product of the present cells of `columns`.
    Combine { columns: Seq<int>, operation: Aggregate },
    /// The cell of `base` minus, or divided by, the sum of the present cells
    /// of `others`.
    Against { base: int, others: Seq<int>, divide: bool },
}

/// What is computed in each row, ready to run.
pub enum Plan {
    Single { column: usize, operator: Operator, operand: u64 },
    Combine { columns: Vec<usize>, operation: Aggregate },
    Against { base: usize, others: Vec<usize>, divide: bool },
}

/// Column indices as integers.
pub open spec fn indices(columns: Seq<usize>) -> Seq<int> {
    columns.map_values(|c: usize| c as int)
}

impl View for Plan {
    type V = Recipe;

    open spec fn view(&self) -> Recipe {
        match *self {
            Plan::Single { column, operator, operand } => Recipe::Single { column: column as int, operator, operand },
            Plan::Combine { columns, operation } => Recipe::Combine { columns: indices(columns@), operation },
            Plan::Against { base, others, divide } => Recipe::Against {
                base: base as int,
                others: indices(others@),
                divide,
            },
        }
    }
}

/// Whether every one of the first `n` selected names is a header.
pub open spec fn all_known(headers: Seq<Seq<char>>, selected: Seq<Seq<char>>, n: int) -> bool {
    forall|i: int| 0 <= i < n && i < selected.len() ==> index_of(headers, #[trigger] selected[i]) < headers.len()
}

/// The columns of the selected names.
pub open spec fn columns_of(headers: Seq<Seq<char>>, selected: Seq<Seq<char>>) -> Seq<int> {
    Seq::new(selected.len(), |i: int| index_of(headers, selected[i]))
}

/// The columns of the first `n` selected names that are not the base.
pub open spec fn others_of(headers: Seq<Seq<char>>, selected: Seq<Seq<char>>, base: Seq<char>, n: int) -> Seq<int>
    decreases n,
{
    if n <= 0 {
        Seq::empty()
    } else {
        let before = others_of(headers, selected, base, n - 1);
        if selected[n - 1] == base {
            before
        } else {
            before.push(index_of(headers, selected[n - 1]))
        }
    }
}

/// Whether `name` is among the selected names.
pub open spec fn is_selected(selected: Seq<Seq<char>>, name: Seq<char>) -> bool {
    index_of(selected, name) < selected.len()
}

/// The recipe that a selection and a configuration ask for, or the error they
/// are rejected with. The checks come in this order: an empty selection, an
/// unknown sensor, the configuration itself, single mode with several
/// sensors, a base sensor that is absent or not selected.
pub open spec fn recipe_of(headers: Seq<Seq<char>>, selected: Seq<Seq<char>>, config: DeriveConfig) -> Result<
    Recipe,
    DeriveError,
> {
    if selected.len() == 0 {
        Err(DeriveError::EmptySelection)
    } else if !all_known(headers, selected, selected.len() as int) {
        Err(DeriveError::UnknownSensor)
    } else {
        match operation_of(config) {
            Err(e) => Err(e),
            Ok(Operation::Single { operator, operand }) => if selected.len() != 1 {
                Err(DeriveError::ModeMismatch)
            } else {
                Ok(Recipe::Single { column: index_of(headers, selected[0]), operator, operand })
            },
            Ok(Operation::Multi { operation }) => match operation {
                Aggregate::Subtract | Aggregate::Divide => match config.multi->0.base_sensor {
                    None => Err(DeriveError::MissingBase),
                    Some(base) => if !is_selected(selected, base@) {
                        Err(DeriveError::BaseNotSelected)
                    } else {
                        Ok(
                            Recipe::Against {
                                base: index_of(headers, base@),
                                others: others_of(headers, selected, base@, selected.len() as int),
                                divide: operation is Divide,
                            },
                        )
                    },
                },
                _ => Ok(Recipe::Combine { columns: columns_of(headers, selected), operation }),
            },
        }
    }
}

/// The plan that a selection and a configuration ask for, or the error they
/// are rejected with.
pub fn make_plan(headers: &Vec<String>, selected: &Vec<String>, config: &DeriveConfig) -> (out: Result<
    Plan,
    DeriveError,
>)
    ensures
        match recipe_of(names(headers@), names(selected@), *config) {
            Ok(recipe) => out is Ok && out->Ok_0@ == recipe,
            Err(e) => out is Err && out->Err_0 == e,
        },
{
    let ghost heads = names(headers@);
    let ghost picks = names(selected@);
    if selected.len() == 0 {
        return Err(DeriveError::EmptySelection);
    }
    let mut columns: Vec<usize> = Vec::new();
    let mut i: usize = 0;
    while i < selected.len()
        invariant
            i <= selected.len(),
            heads == names(headers@),
            picks == names(selected@),
            all_known(heads, picks, i as int),
            columns@.len() == i,
            forall|k: int| 0 <= k < i ==> (#[trigger] columns@[k]) as int == index_of(heads, picks[k]),
        decreases selected.len() - i,
    {
        let column: usize = find_index(headers, selected[i].as_str());
        if column >= headers.len() {
            assert(!all_known(heads, picks, picks.len() as int)) by {
                assert(index_of(heads, picks[i as int]) >= heads.len());
            }
            return Err(DeriveError::UnknownSensor);
        }
        columns.push(column);
        i = i + 1;
    }
    assert(indices(columns@) =~= columns_of(heads, picks));
    match decode_config(config) {
        Err(e) => Err(e),
        Ok(Operation::Single { operator, operand }) => {
            if selected.len() != 1 {
                Err(DeriveError::ModeMismatch)
            } else {
                Ok(Plan::Single { column: columns[0], operator, operand })
            }
        },
        Ok(Operation::Multi { operation }) => {
            let divide = match operation {
                Aggregate::Divide => true,
                Aggregate::Subtract => false,
                _ => {
                    return Ok(Plan::Combine { columns, operation });
                },
            };
            let base: &String = match &config.multi {
                Some(multi) => match &multi.base_sensor {
                    Some(base) => base,
                    None => {
                        return Err(DeriveError::MissingBase);
                    },
                },
                None => {
                    return Err(DeriveError::MissingBase);
                },
            };
            let place: usize = find_index(selected, base.as_str());
            if place >= selected.len() {
                return Err(DeriveError::BaseNotSelected);
            }
            proof {
                lemma_index_of(picks, base@, 0);
            }
            let base_column: usize = columns[place];
            let mut others: Vec<usize> = Vec::new();
            let mut k: usize = 0;
            while k < selected.len()
                invariant
                    k <= selected.len(),
                    picks == names(selected@),
                    columns@.len() == selected@.len(),
                    forall|j: int| 0 <= j < columns@.len() ==> (#[trigger] columns@[j]) as int == index_of(heads, picks[j]),
                    indices(others@) == others_of(heads, picks, base@, k as int),
                decreases selected.len() - k,
            {
                if !text_eq(selected[k].as_str(), base.as_str()) {
                    others.push(columns[k]);
                    assert(indices(others@) =~= others_of(heads, picks, base@, k as int).push(
                        index_of(heads, picks[k as int]),
                    ));
                }
                k = k + 1;
            }
            Ok(Plan::Against { base: base_column, others, divide })
        },
    }
}

} // verus!
