//! What a derivation is asked to do: the configuration as it arrives, the
//! operation it decodes to, and the name of the new column.

use vstd::prelude::*;
use vstd::string::StringExecFns;
use crate::table::names;
use crate::text::{blank, is_blank, text_eq};

verus! {

/// A binary operation on two numbers.
#[derive(Debug, Clone, Copy, PartialEq, Eq)]
pub enum Operator {
    Add,
    Subtract,
    Multiply,
    Divide,
    Power,
}

/// A way to combine the values of several sensors in one row.
#[derive(Debug, Clone, Copy, PartialEq, Eq)]
pub enum Aggregate {
    Sum,
    Mean,
    Median,
    Product,
    Subtract,
    Divide,
}

/// A decoded configuration.
#[derive(Debug, Clone, Copy, PartialEq, Eq)]
pub enum Operation {
    /// One sensor against a literal operand.
    Single { operator: Operator, operand: u64 },
    /// Several sensors combined.
    Multi { operation: Aggregate },
}

/// Why no column was derived.
#[derive(Debug, Clone, Copy, PartialEq, Eq)]
pub enum DeriveError {
    /// No sensor was selected.
    EmptySelection,
    /// A selected sensor is not a header of the table.
    UnknownSensor,
    /// The mode is neither "single" nor "multi".
    BadMode,
    /// The settings that the mode needs are absent.
    MissingConfig,
    /// The operator or operation is not one the engine knows.
    UnknownOperator,
    /// Single mode with more than one sensor selected.
    ModeMismatch,
    /// Subtract or divide without a base sensor.
    MissingBase,
    /// The base sensor is not among the selected ones.
    BaseNotSelected,
}

/// Settings of single mode: an operator by name ("add", "subtract",
/// "multiply", "divide", "power"), and the operand as a bit pattern and as
/// the text that stands for it in a column name.
#[derive(Debug, Clone, PartialEq)]
pub struct SingleConfig {
    pub operator: String,
    pub operand: u64,
    pub operand_text: String,
}

/// Settings of multi mode: an operation by name ("sum", "mean", "median",
/// "product", "subtract", "divide") and, for the last two, the base sensor.
#[derive(Debug, Clone, PartialEq)]
pub struct MultiConfig {
    pub operation: String,
    pub base_sensor: Option<String>,
}

/// A configuration as it arrives: a mode ("single" or "multi"), the settings
/// of either mode, and an optional name for the new column.
#[derive(Debug, Clone, PartialEq)]
pub struct DeriveConfig {
    pub mode: String,
    pub single: Option<SingleConfig>,
    pub multi: Option<MultiConfig>,
    pub custom_name: Option<String>,
}

/// The operator that a name stands for.
pub open spec fn operator_named(name: Seq<char>) -> Option<Operator> {
    if name == "add"@ {
        Some(Operator::Add)
    } else if name == "subtract"@ {
        Some(Operator::Subtract)
    } else if name == "multiply"@ {
        Some(Operator::Multiply)
    } else if name == "divide"@ {
        Some(Operator::Divide)
    } else if name == "power"@ {
        Some(Operator::Power)
    } else {
        None
    }
}

/// The operation that a name stands for.
pub open spec fn aggregate_named(name: Seq<char>) -> Option<Aggregate> {
    if name == "sum"@ {
        Some(Aggregate::Sum)
    } else if name == "mean"@ {
        Some(Aggregate::Mean)
    } else if name == "median"@ {
        Some(Aggregate::Median)
    } else if name == "product"@ {
        Some(Aggregate::Product)
    } else if name == "subtract"@ {
        Some(Aggregate::Subtract)
    } else if name == "divide"@ {
        Some(Aggregate::Divide)
    } else {
        None
    }
}

/// The symbol of an operator in a column name.
pub open spec fn symbol(operator: Operator) -> Seq<char> {
    match operator {
        Operator::Add => "+"@,
        Operator::Subtract => "-"@,
        Operator::Multiply => "*"@,
        Operator::Divide => "/"@,
        Operator::Power => "^"@,
    }
}

/// The word of an operation in a column name.
pub open spec fn word(operation: Aggregate) -> Seq<char> {
    match operation {
        Aggregate::Sum => "sum"@,
        Aggregate::Mean => "mean"@,
        Aggregate::Median => "median"@,
        Aggregate::Product => "product"@,
        Aggregate::Subtract => "subtract"@,
        Aggregate::Divide => "divide"@,
    }
}

/// What a configuration decodes to: the mode picks the settings, which must
/// be there and name a known operator or operation.
pub open spec fn operation_of(config: DeriveConfig) -> Result<Operation, DeriveError> {
    if config.mode@ == "single"@ {
        match config.single {
            None => Err(DeriveError::MissingConfig),
            Some(single) => match operator_named(single.operator@) {
                None => Err(DeriveError::UnknownOperator),
                Some(operator) => Ok(Operation::Single { operator, operand: single.operand }),
            },
        }
    } else if config.mode@ == "multi"@ {
        match config.multi {
            None => Err(DeriveError::MissingConfig),
            Some(multi) => match aggregate_named(multi.operation@) {
                None => Err(DeriveError::UnknownOperator),
                Some(operation) => Ok(Operation::Multi { operation }),
            },
        }
    } else {
        Err(DeriveError::BadMode)
    }
}

/// The first `n` names, separated by a comma and a space.
pub open spec fn joined(list: Seq<Seq<char>>, n: int) -> Seq<char>
    decreases n,
{
    if n <= 0 {
        Seq::empty()
    } else if n == 1 {
        list[0]
    } else {
        joined(list, n - 1) + ", "@ + list[n - 1]
    }
}

/// The name a column gets when the caller gives none: in single mode the
/// sensor, the operator's symbol and the operand, separated by spaces; in
/// multi mode the operation's word and the selected names in brackets.
pub open spec fn default_name(selected: Seq<Seq<char>>, config: DeriveConfig) -> Seq<char> {
    match operation_of(config) {
        Ok(Operation::Single { operator, operand }) => selected[0] + " "@ + symbol(operator) + " "@
            + config.single->0.operand_text@,
        Ok(Operation::Multi { operation }) => word(operation) + "("@ + joined(selected, selected.len() as int)
            + ")"@,
        Err(_) => Seq::empty(),
    }
}

/// The name of the new column: the caller's, unless it is absent or blank.
pub open spec fn column_name(selected: Seq<Seq<char>>, config: DeriveConfig) -> Seq<char> {
    match config.custom_name {
        Some(name) => if blank(name@) {
            default_name(selected, config)
        } else {
            name@
        },
        None => default_name(selected, config),
    }
}

/// The operator that a name stands for.
pub fn parse_operator(name: &str) -> (out: Option<Operator>)
    ensures
        out == operator_named(name@),
{
    if text_eq(name, "add") {
        Some(Operator::Add)
    } else if text_eq(name, "subtract") {
        Some(Operator::Subtract)
    } else if text_eq(name, "multiply") {
        Some(Operator::Multiply)
    } else if text_eq(name, "divide") {
        Some(Operator::Divide)
    } else if text_eq(name, "power") {
        Some(Operator::Power)
    } else {
        None
    }
}

/// The operation that a name stands for.
pub fn parse_aggregate(name: &str) -> (out: Option<Aggregate>)
    ensures
        out == aggregate_named(name@),
{
    if text_eq(name, "sum") {
        Some(Aggregate::Sum)
    } else if text_eq(name, "mean") {
        Some(Aggregate::Mean)
    } else if text_eq(name, "median") {
        Some(Aggregate::Median)
    } else if text_eq(name, "product") {
        Some(Aggregate::Product)
    } else if text_eq(name, "subtract") {
        Some(Aggregate::Subtract)
    } else if text_eq(name, "divide") {
        Some(Aggregate::Divide)
    } else {
        None
    }
}

/// Decodes a configuration into the operation it asks for.
pub fn decode_config(config: &DeriveConfig) -> (out: Result<Operation, DeriveError>)
    ensures
        out == operation_of(*config),
{
    if text_eq(config.mode.as_str(), "single") {
        match &config.single {
            None => Err(DeriveError::MissingConfig),
            Some(single) => match parse_operator(single.operator.as_str()) {
                None => Err(DeriveError::UnknownOperator),
                Some(operator) => Ok(Operation::Single { operator, operand: single.operand }),
            },
        }
    } else if text_eq(config.mode.as_str(), "multi") {
        match &config.multi {
            None => Err(DeriveError::MissingConfig),
            Some(multi) => match parse_aggregate(multi.operation.as_str()) {
                None => Err(DeriveError::UnknownOperator),
                Some(operation) => Ok(Operation::Multi { operation }),
            },
        }
    } else {
        Err(DeriveError::BadMode)
    }
}

/// The symbol of an operator in a column name.
pub fn symbol_text(operator: Operator) -> (out: &'static str)
    ensures
        out@ == symbol(operator),
{
    match operator {
        Operator::Add => "+",
        Operator::Subtract => "-",
        Operator::Multiply => "*",
        Operator::Divide => "/",
        Operator::Power => "^",
    }
}

/// The word of an operation in a column name.
pub fn word_text(operation: Aggregate) -> (out: &'static str)
    ensures
        out@ == word(operation),
{
    match operation {
        Aggregate::Sum => "sum",
        Aggregate::Mean => "mean",
        Aggregate::Median => "median",
        Aggregate::Product => "product",
        Aggregate::Subtract => "subtract",
        Aggregate::Divide => "divide",
    }
}

/// The name of the new column: the caller's, unless it is absent or blank.
pub(crate) fn name_column(selected: &Vec<String>, config: &DeriveConfig, operation: Operation) -> (out: String)
    requires
        selected@.len() > 0,
        operation_of(*config) == Ok::<Operation, DeriveError>(operation),
    ensures
        out@ == column_name(names(selected@), *config),
{
    match &config.custom_name {
        Some(name) => {
            if !is_blank(name.as_str()) {
                return name.clone();
            }
        },
        None => {},
    }
    match operation {
        Operation::Single { operator, operand } => {
            let mut out: String = selected[0].clone();
            out.append(" ");
            out.append(symbol_text(operator));
            out.append(" ");
            match &config.single {
                Some(single) => {
                    out.append(single.operand_text.as_str());
                },
                None => {},
            }
            out
        },
        Operation::Multi { operation } => {
            let mut out: String = word_text(operation).to_owned();
            out.append("(");
            let ghost prefix = out@;
            let mut i: usize = 0;
            while i < selected.len()
                invariant
                    i <= selected.len(),
                    out@ == prefix + joined(names(selected@), i as int),
                decreases selected.len() - i,
            {
                if i > 0 {
                    out.append(", ");
                }
                out.append(selected[i].as_str());
                assert(out@ =~= prefix + joined(names(selected@), i + 1));
                i = i + 1;
            }
            out.append(")");
            out
        },
    }
}

} // verus!
