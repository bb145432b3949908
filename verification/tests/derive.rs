use sensor_table::cell::derive_cell;
use sensor_table::config::{decode_config, Operation};
use sensor_table::plan::{make_plan, Plan};
use sensor_table::{
    derive_column, Aggregate, CsvRecord, DeriveConfig, DeriveError, MultiConfig, Operator, ProcessedData, SingleConfig,
};

fn unit(operator: Operator, a: u64, b: u64) -> u64 {
    let x = f64::from_bits(a);
    let y = f64::from_bits(b);
    let out = match operator {
        Operator::Add => x + y,
        Operator::Subtract => x - y,
        Operator::Multiply => x * y,
        Operator::Divide => x / y,
        Operator::Power => x.powf(y),
    };
    out.to_bits()
}

fn some(x: f64) -> Option<u64> {
    Some(x.to_bits())
}

fn texts(list: &[&str]) -> Vec<String> {
    list.iter().map(|s| s.to_string()).collect()
}

fn cells(list: &[Option<f64>]) -> Vec<Option<u64>> {
    list.iter().map(|c| c.map(f64::to_bits)).collect()
}

fn table(headers: &[&str], rows: &[&[Option<f64>]]) -> ProcessedData {
    ProcessedData {
        headers: texts(headers),
        rows: rows
            .iter()
            .enumerate()
            .map(|(i, values)| CsvRecord { timestamp: Some(format!("t{}", i)), values: cells(values) })
            .collect(),
    }
}

fn single(operator: &str, operand: f64) -> DeriveConfig {
    DeriveConfig {
        mode: "single".to_string(),
        single: Some(SingleConfig {
            operator: operator.to_string(),
            operand: operand.to_bits(),
            operand_text: operand.to_string(),
        }),
        multi: None,
        custom_name: None,
    }
}

fn multi(operation: &str, base: Option<&str>) -> DeriveConfig {
    DeriveConfig {
        mode: "multi".to_string(),
        single: None,
        multi: Some(MultiConfig { operation: operation.to_string(), base_sensor: base.map(|b| b.to_string()) }),
        custom_name: None,
    }
}

fn column(table: &ProcessedData) -> Vec<Option<f64>> {
    table.rows.iter().map(|r| r.values.last().unwrap().map(f64::from_bits)).collect()
}

#[test]
fn single_operators_compute_row_by_row() {
    let cases: [(&str, f64, f64, f64); 5] =
        [("add", 2.0, 1.5, 3.5), ("subtract", 2.0, 1.5, 0.5), ("multiply", 2.0, 1.5, 3.0), ("divide", 3.0, 1.5, 2.0), ("power", 2.0, 3.0, 8.0)];
    for (operator, value, operand, expected) in cases {
        let mut t = table(&["time", "A"], &[&[None, Some(value)], &[None, None]]);
        let name = derive_column(&mut t, &texts(&["A"]), &single(operator, operand), &unit).unwrap();
        assert_eq!(t.headers.last().unwrap(), &name);
        assert_eq!(column(&t), vec![Some(expected), None], "{}", operator);
    }
}

#[test]
fn divide_by_literal_zero_is_missing_in_every_row() {
    for zero in [0.0, -0.0] {
        let mut t = table(&["A"], &[&[Some(1.0)], &[Some(0.0)], &[None], &[Some(f64::INFINITY)], &[Some(-3.0)]]);
        derive_column(&mut t, &texts(&["A"]), &single("divide", zero), &unit).unwrap();
        assert_eq!(column(&t), vec![None, None, None, None, None]);
    }
}

#[test]
fn median_of_four_and_of_three_with_one_missing() {
    let mut t = table(
        &["a", "b", "c", "d"],
        &[&[Some(1.0), Some(2.0), Some(3.0), Some(4.0)], &[Some(4.0), Some(1.0), Some(3.0), Some(2.0)]],
    );
    derive_column(&mut t, &texts(&["a", "b", "c", "d"]), &multi("median", None), &unit).unwrap();
    assert_eq!(column(&t), vec![Some(2.5), Some(2.5)]);
    let mut t = table(&["a", "b", "c"], &[&[Some(1.0), None, Some(3.0)], &[Some(9.0), Some(1.0), Some(5.0)]]);
    derive_column(&mut t, &texts(&["a", "b", "c"]), &multi("median", None), &unit).unwrap();
    assert_eq!(column(&t), vec![Some(2.0), Some(5.0)]);
}

#[test]
fn subtract_takes_the_sum_of_the_others_from_the_base() {
    let mut t = table(
        &["B", "C", "D"],
        &[&[Some(10.0), Some(3.0), Some(2.0)], &[None, Some(3.0), Some(2.0)], &[Some(10.0), None, Some(2.0)], &[Some(10.0), None, None]],
    );
    derive_column(&mut t, &texts(&["B", "C", "D"]), &multi("subtract", Some("B")), &unit).unwrap();
    assert_eq!(column(&t), vec![Some(5.0), None, Some(8.0), Some(10.0)]);
}

#[test]
fn divide_by_the_sum_of_the_others_and_by_a_zero_sum() {
    let mut t = table(
        &["B", "C", "D"],
        &[&[Some(10.0), Some(3.0), Some(2.0)], &[Some(10.0), Some(2.0), Some(-2.0)], &[Some(10.0), None, None], &[None, Some(1.0), Some(1.0)]],
    );
    derive_column(&mut t, &texts(&["C", "B", "D"]), &multi("divide", Some("B")), &unit).unwrap();
    assert_eq!(column(&t), vec![Some(2.0), None, None, None]);
}

#[test]
fn sum_mean_product_use_the_present_cells_only() {
    let rows: &[&[Option<f64>]] = &[&[Some(1.0), Some(2.0), Some(6.0)], &[None, Some(2.0), Some(6.0)], &[None, None, None], &[Some(5.0), None, None]];
    let mut t = table(&["a", "b", "c"], rows);
    derive_column(&mut t, &texts(&["a", "b", "c"]), &multi("sum", None), &unit).unwrap();
    assert_eq!(column(&t), vec![Some(9.0), Some(8.0), None, Some(5.0)]);
    let mut t = table(&["a", "b", "c"], rows);
    derive_column(&mut t, &texts(&["a", "b", "c"]), &multi("mean", None), &unit).unwrap();
    assert_eq!(column(&t), vec![Some(3.0), Some(4.0), None, Some(5.0)]);
    let mut t = table(&["a", "b", "c"], rows);
    derive_column(&mut t, &texts(&["a", "b", "c"]), &multi("product", None), &unit).unwrap();
    assert_eq!(column(&t), vec![Some(12.0), Some(12.0), None, Some(5.0)]);
}

#[test]
fn the_column_is_appended_and_the_rest_is_untouched() {
    let mut t = table(&["time", "A", "B"], &[&[None, Some(1.0), Some(2.0)], &[None, Some(3.0), None]]);
    let before = t.clone();
    let name = derive_column(&mut t, &texts(&["A", "B"]), &multi("sum", None), &unit).unwrap();
    assert_eq!(name, "sum(A, B)");
    assert_eq!(t.headers, texts(&["time", "A", "B", "sum(A, B)"]));
    assert_eq!(t.rows.len(), 2);
    for (after, before) in t.rows.iter().zip(before.rows.iter()) {
        assert_eq!(after.timestamp, before.timestamp);
        assert_eq!(after.values.len(), t.headers.len());
        assert_eq!(&after.values[..3], &before.values[..]);
    }
    assert_eq!(column(&t), vec![Some(3.0), Some(3.0)]);
}

#[test]
fn a_derived_column_can_be_derived_from() {
    let mut t = table(&["A"], &[&[Some(2.0)]]);
    let first = derive_column(&mut t, &texts(&["A"]), &single("multiply", 3.0), &unit).unwrap();
    derive_column(&mut t, &vec![first], &single("add", 1.0), &unit).unwrap();
    assert_eq!(t.rows[0].values, cells(&[Some(2.0), Some(6.0), Some(7.0)]));
}

#[test]
fn names_default_and_custom() {
    let mut t = table(&["Temp"], &[&[Some(2.0)]]);
    assert_eq!(derive_column(&mut t, &texts(&["Temp"]), &single("add", 5.0), &unit).unwrap(), "Temp + 5");
    assert_eq!(derive_column(&mut t, &texts(&["Temp"]), &single("subtract", 2.5), &unit).unwrap(), "Temp - 2.5");
    assert_eq!(derive_column(&mut t, &texts(&["Temp"]), &single("multiply", 2.0), &unit).unwrap(), "Temp * 2");
    assert_eq!(derive_column(&mut t, &texts(&["Temp"]), &single("divide", 2.0), &unit).unwrap(), "Temp / 2");
    assert_eq!(derive_column(&mut t, &texts(&["Temp"]), &single("power", 2.0), &unit).unwrap(), "Temp ^ 2");
    assert_eq!(derive_column(&mut t, &texts(&["Temp"]), &multi("median", None), &unit).unwrap(), "median(Temp)");
    let mut custom = single("add", 1.0);
    custom.custom_name = Some("Offset".to_string());
    assert_eq!(derive_column(&mut t, &texts(&["Temp"]), &custom, &unit).unwrap(), "Offset");
    custom.custom_name = Some("  \t".to_string());
    assert_eq!(derive_column(&mut t, &texts(&["Temp"]), &custom, &unit).unwrap(), "Temp + 1");
    let mut t = table(&["B", "C", "D"], &[&[Some(1.0), Some(1.0), Some(1.0)]]);
    assert_eq!(
        derive_column(&mut t, &texts(&["B", "C", "D"]), &multi("subtract", Some("B")), &unit).unwrap(),
        "subtract(B, C, D)"
    );
}

#[test]
fn every_rejection_leaves_the_table_as_it_was() {
    let t = table(&["A", "B"], &[&[Some(1.0), Some(2.0)]]);
    let mut bad_mode = single("add", 1.0);
    bad_mode.mode = "both".to_string();
    let mut no_single = single("add", 1.0);
    no_single.single = None;
    let mut no_multi = multi("sum", None);
    no_multi.multi = None;
    let cases: Vec<(Vec<String>, DeriveConfig, DeriveError)> = vec![
        (texts(&[]), single("add", 1.0), DeriveError::EmptySelection),
        (texts(&["A", "Z"]), multi("sum", None), DeriveError::UnknownSensor),
        (texts(&["a"]), single("add", 1.0), DeriveError::UnknownSensor),
        (texts(&["A"]), bad_mode, DeriveError::BadMode),
        (texts(&["A"]), no_single, DeriveError::MissingConfig),
        (texts(&["A"]), no_multi, DeriveError::MissingConfig),
        (texts(&["A"]), single("modulo", 1.0), DeriveError::UnknownOperator),
        (texts(&["A"]), multi("max", None), DeriveError::UnknownOperator),
        (texts(&["A", "B"]), single("add", 1.0), DeriveError::ModeMismatch),
        (texts(&["A", "B"]), multi("subtract", None), DeriveError::MissingBase),
        (texts(&["A", "B"]), multi("divide", None), DeriveError::MissingBase),
        (texts(&["A"]), multi("divide", Some("B")), DeriveError::BaseNotSelected),
    ];
    for (selected, config, expected) in cases {
        let mut copy = t.clone();
        assert_eq!(derive_column(&mut copy, &selected, &config, &unit), Err(expected));
        assert_eq!(copy, t);
    }
}

#[test]
fn checks_come_in_their_order() {
    let t = table(&["A"], &[&[Some(1.0)]]);
    let mut bad_mode = single("add", 1.0);
    bad_mode.mode = "x".to_string();
    let mut copy = t.clone();
    assert_eq!(derive_column(&mut copy, &texts(&[]), &bad_mode, &unit), Err(DeriveError::EmptySelection));
    assert_eq!(derive_column(&mut copy, &texts(&["Z"]), &bad_mode, &unit), Err(DeriveError::UnknownSensor));
    assert_eq!(derive_column(&mut copy, &texts(&["A", "A"]), &bad_mode, &unit), Err(DeriveError::BadMode));
}

#[test]
fn configurations_decode_to_operations() {
    assert_eq!(
        decode_config(&single("power", 2.0)),
        Ok(Operation::Single { operator: Operator::Power, operand: 2.0f64.to_bits() })
    );
    assert_eq!(decode_config(&multi("product", None)), Ok(Operation::Multi { operation: Aggregate::Product }));
    assert_eq!(decode_config(&single("Add", 2.0)), Err(DeriveError::UnknownOperator));
}

#[test]
fn a_plan_names_the_columns() {
    let headers = texts(&["time", "B", "C", "D"]);
    match make_plan(&headers, &texts(&["C", "B", "D", "B"]), &multi("subtract", Some("B"))) {
        Ok(Plan::Against { base, others, divide }) => {
            assert_eq!(base, 1);
            assert_eq!(others, vec![2, 3]);
            assert!(!divide);
        },
        _ => panic!("an against plan was expected"),
    }
    match make_plan(&headers, &texts(&["D", "C"]), &multi("mean", None)) {
        Ok(Plan::Combine { columns, operation }) => {
            assert_eq!(columns, vec![3, 2]);
            assert_eq!(operation, Aggregate::Mean);
        },
        _ => panic!("a combine plan was expected"),
    }
}

#[test]
fn a_cell_outside_the_row_counts_as_missing() {
    let plan = Plan::Single { column: 5, operator: Operator::Add, operand: 1.0f64.to_bits() };
    assert_eq!(derive_cell(&unit, &plan, &cells(&[Some(1.0)])), None);
    let plan = Plan::Combine { columns: vec![0, 7], operation: Aggregate::Sum };
    assert_eq!(derive_cell(&unit, &plan, &cells(&[Some(1.0)])), some(1.0));
}

#[test]
fn power_has_no_domain_guard() {
    let mut t = table(&["A"], &[&[Some(-8.0)], &[Some(0.0)]]);
    derive_column(&mut t, &texts(&["A"]), &single("power", 0.5), &unit).unwrap();
    let out = column(&t);
    assert!(out[0].unwrap().is_nan());
    assert_eq!(out[1], Some(0.0));
}

#[test]
fn derived_tables_keep_rows_as_wide_as_headers() {
    let mut t = table(&["time", "A", "B"], &[&[None, Some(1.0), None], &[None, None, None]]);
    derive_column(&mut t, &texts(&["A", "B"]), &multi("mean", None), &unit).unwrap();
    derive_column(&mut t, &texts(&["A"]), &single("divide", 0.0), &unit).unwrap();
    for row in &t.rows {
        assert_eq!(row.values.len(), t.headers.len());
    }
}

#[test]
fn a_fresh_name_reads_back_the_derived_column() {
    let mut t = table(&["time", "A"], &[&[None, Some(4.0)], &[None, None]]);
    let name = derive_column(&mut t, &texts(&["A"]), &single("divide", 2.0), &unit).unwrap();
    let out = sensor_table::get_data(&t, &vec![name.clone()]);
    assert_eq!(out.headers, vec![name]);
    assert_eq!(out.rows[0].values, cells(&[Some(2.0)]));
    assert_eq!(out.rows[1].values, cells(&[None]));
    let zero = derive_column(&mut t, &texts(&["A"]), &single("divide", 0.0), &unit).unwrap();
    let out = sensor_table::get_data(&t, &vec![zero]);
    assert_eq!(out.rows[0].values, cells(&[None]));
    assert_eq!(out.rows[1].values, cells(&[None]));
}

#[test]
fn a_name_that_is_taken_is_appended_and_addresses_the_older_column() {
    let mut t = table(&["A", "B"], &[&[Some(1.0), Some(2.0)]]);
    let mut config = single("add", 10.0);
    config.custom_name = Some("B".to_string());
    let name = derive_column(&mut t, &texts(&["A"]), &config, &unit).unwrap();
    assert_eq!(name, "B");
    assert_eq!(t.headers, texts(&["A", "B", "B"]));
    assert_eq!(t.rows[0].values, cells(&[Some(1.0), Some(2.0), Some(11.0)]));
    let out = sensor_table::get_data(&t, &vec![name]);
    assert_eq!(out.rows[0].values, cells(&[Some(2.0)]));
}
