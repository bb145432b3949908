use sensor_table::{
    sample_data, CsvRecord, DeriveConfig, DeriveError, Emission, MergeError, Operator, ProcessedData, Session,
    SessionError, SingleConfig,
};

fn unit(operator: Operator, a: u64, b: u64) -> u64 {
    let x = f64::from_bits(a);
    let y = f64::from_bits(b);
    let out = match operator {
        Operator::Add => x + y,
        Operator::Subtract => x - y,
        Operator::Multiply => x * y,
        Operator::Divide => x / y,
        Operator::Power => x.powf(y),
    };
    out.to_bits()
}

fn texts(list: &[&str]) -> Vec<String> {
    list.iter().map(|s| s.to_string()).collect()
}

fn sample() -> ProcessedData {
    ProcessedData {
        headers: texts(&["time", "A"]),
        rows: vec![
            CsvRecord { timestamp: Some("t1".to_string()), values: vec![None, Some(1.0f64.to_bits())] },
            CsvRecord { timestamp: Some("t2".to_string()), values: vec![None, None] },
        ],
    }
}

fn add_one() -> DeriveConfig {
    DeriveConfig {
        mode: "single".to_string(),
        single: Some(SingleConfig { operator: "add".to_string(), operand: 1.0f64.to_bits(), operand_text: "1".to_string() }),
        multi: None,
        custom_name: None,
    }
}

#[test]
fn a_new_session_serves_nothing() {
    let mut session = Session::new();
    assert!(session.loaded_sources().is_empty());
    assert_eq!(session.get_data(&texts(&["A"])), Err(SessionError::NoData));
    assert_eq!(session.derive(&texts(&["A"]), &add_one(), &unit), Err(SessionError::NoData));
    assert!(matches!(session.next_batch(&texts(&["A"]), 0, 10), Err(SessionError::NoData)));
}

#[test]
fn a_load_reports_headers_and_row_count() {
    let mut session = Session::new();
    let summary = session.load(sample(), texts(&["a.csv", "b.csv"]));
    assert_eq!(summary.headers, texts(&["time", "A"]));
    assert_eq!(summary.total_rows, 2);
    assert_eq!(session.loaded_sources(), texts(&["a.csv", "b.csv"]));
    assert_eq!(sample().summary(), summary);
}

#[test]
fn a_load_replaces_what_was_there() {
    let mut session = Session::new();
    session.load(sample(), texts(&["a.csv"]));
    session.load(ProcessedData::empty(), texts(&["b.csv"]));
    assert_eq!(session.loaded_sources(), texts(&["b.csv"]));
    assert_eq!(session.get_data(&texts(&["A"])).unwrap().rows.len(), 0);
}

#[test]
fn a_derived_column_is_seen_by_later_reads() {
    let mut session = Session::new();
    session.load(sample(), texts(&["a.csv"]));
    let name = session.derive(&texts(&["A"]), &add_one(), &unit).unwrap();
    assert_eq!(name, "A + 1");
    let out = session.get_data(&vec![name.clone()]).unwrap();
    assert_eq!(out.headers, vec![name.clone()]);
    assert_eq!(out.rows[0].values, vec![Some(2.0f64.to_bits())]);
    assert_eq!(out.rows[1].values, vec![None]);
    match session.next_batch(&vec![name], 0, 1).unwrap() {
        Emission::Batch { data, next } => {
            assert_eq!(next, 1);
            assert_eq!(data.rows.len(), 1);
        },
        Emission::End => panic!("a batch was expected"),
    }
}

#[test]
fn a_rejected_derivation_changes_nothing() {
    let mut session = Session::new();
    session.load(sample(), texts(&["a.csv"]));
    assert_eq!(
        session.derive(&texts(&["Z"]), &add_one(), &unit),
        Err(SessionError::Rejected(DeriveError::UnknownSensor))
    );
    assert_eq!(session.table, Some(sample()));
}

#[test]
fn sample_data_hands_the_rows_back() {
    let rows = sample().rows;
    assert_eq!(sample_data(rows.clone()), rows);
}

#[test]
fn a_merged_load_puts_time_in_front_and_rows_in_order() {
    let table = ProcessedData {
        headers: texts(&["A", "Time"]),
        rows: vec![
            CsvRecord { timestamp: Some("t2".to_string()), values: vec![Some(2.0f64.to_bits()), None] },
            CsvRecord { timestamp: None, values: vec![Some(9.0f64.to_bits()), None] },
            CsvRecord { timestamp: Some("t1".to_string()), values: vec![Some(1.0f64.to_bits()), None] },
        ],
    };
    let mut session = Session::new();
    let summary = session.load_merged(&vec![table], texts(&["a.csv"])).unwrap();
    assert_eq!(summary.headers, texts(&["Time", "A"]));
    assert_eq!(summary.total_rows, 2);
    assert_eq!(session.loaded_sources(), texts(&["a.csv"]));
    let live = session.table.clone().unwrap();
    assert_eq!(live.headers, texts(&["Time", "A"]));
    assert_eq!(
        live.rows,
        vec![
            CsvRecord { timestamp: Some("t1".to_string()), values: vec![None, Some(1.0f64.to_bits())] },
            CsvRecord { timestamp: Some("t2".to_string()), values: vec![None, Some(2.0f64.to_bits())] },
        ]
    );
}

#[test]
fn a_load_of_no_table_leaves_the_session_as_it_was() {
    let mut session = Session::new();
    assert_eq!(session.load_merged(&Vec::new(), texts(&["x.csv"])), Err(MergeError::NoTables));
    assert_eq!(session.table, None);
    assert!(session.loaded_sources().is_empty());
    session.load_merged(&vec![sample()], texts(&["a.csv"])).unwrap();
    let before = session.table.clone();
    assert_eq!(session.load_merged(&Vec::new(), texts(&["x.csv"])), Err(MergeError::NoTables));
    assert_eq!(session.table, before);
    assert_eq!(session.loaded_sources(), texts(&["a.csv"]));
}
