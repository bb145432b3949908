use sensor_table::{export_batches, get_data, next_batch, CsvRecord, Emission, ProcessedData, BATCH_ROWS};

fn some(x: f64) -> Option<u64> {
    Some(x.to_bits())
}

fn texts(list: &[&str]) -> Vec<String> {
    list.iter().map(|s| s.to_string()).collect()
}

fn sample() -> ProcessedData {
    ProcessedData {
        headers: texts(&["time", "A", "B", "C"]),
        rows: vec![
            CsvRecord { timestamp: Some("t1".to_string()), values: vec![None, some(1.0), some(2.0), None] },
            CsvRecord { timestamp: None, values: vec![None, None, some(4.0), some(5.0)] },
        ],
    }
}

fn long(rows: usize) -> ProcessedData {
    ProcessedData {
        headers: texts(&["time", "n"]),
        rows: (0..rows)
            .map(|i| CsvRecord { timestamp: Some(format!("t{:06}", i)), values: vec![None, some(i as f64)] })
            .collect(),
    }
}

#[test]
fn the_reference_batch_size() {
    assert_eq!(BATCH_ROWS, 5000);
}

#[test]
fn projecting_all_headers_gives_the_table_back() {
    let table = sample();
    assert_eq!(get_data(&table, &table.headers), table);
}

#[test]
fn requested_columns_come_in_requested_order() {
    let out = get_data(&sample(), &texts(&["C", "A"]));
    assert_eq!(out.headers, texts(&["C", "A"]));
    assert_eq!(out.rows[0], CsvRecord { timestamp: Some("t1".to_string()), values: vec![None, some(1.0)] });
    assert_eq!(out.rows[1], CsvRecord { timestamp: None, values: vec![some(5.0), None] });
}

#[test]
fn names_that_are_no_header_are_dropped() {
    let out = get_data(&sample(), &texts(&["Z", "B", "b", "A"]));
    assert_eq!(out.headers, texts(&["B", "A"]));
    assert_eq!(out.rows[0].values, vec![some(2.0), some(1.0)]);
    let out = get_data(&sample(), &texts(&["Z"]));
    assert!(out.headers.is_empty());
    assert_eq!(out.rows.len(), 2);
    assert!(out.rows[0].values.is_empty());
}

#[test]
fn a_column_may_be_requested_twice() {
    let out = get_data(&sample(), &texts(&["A", "A"]));
    assert_eq!(out.headers, texts(&["A", "A"]));
    assert_eq!(out.rows[0].values, vec![some(1.0), some(1.0)]);
}

#[test]
fn twelve_thousand_rows_in_batches_of_five_thousand() {
    let table = long(12000);
    let requested = texts(&["time", "n"]);
    let mut sizes = Vec::new();
    let mut rows = Vec::new();
    let mut cursor = 0;
    let mut ends = 0;
    loop {
        match next_batch(&table, &requested, cursor, 5000) {
            Emission::Batch { data, next } => {
                assert_eq!(data.headers, requested);
                sizes.push(data.rows.len());
                rows.extend(data.rows);
                cursor = next;
            },
            Emission::End => {
                ends += 1;
                break;
            },
        }
    }
    assert_eq!(sizes, vec![5000, 5000, 2000]);
    assert_eq!(ends, 1);
    assert_eq!(rows, table.rows);
    assert!(matches!(next_batch(&table, &requested, cursor, 5000), Emission::End));
}

#[test]
fn all_batches_at_once() {
    let table = long(12000);
    let batches = export_batches(&table, &texts(&["n"]), BATCH_ROWS);
    let sizes: Vec<usize> = batches.iter().map(|b| b.rows.len()).collect();
    assert_eq!(sizes, vec![5000, 5000, 2000]);
    let whole = get_data(&table, &texts(&["n"]));
    let rows: Vec<CsvRecord> = batches.into_iter().flat_map(|b| b.rows).collect();
    assert_eq!(rows, whole.rows);
}

#[test]
fn batches_at_the_edges() {
    assert!(export_batches(&long(0), &texts(&["n"]), 10).is_empty());
    let sizes: Vec<usize> = export_batches(&long(10), &texts(&["n"]), 10).iter().map(|b| b.rows.len()).collect();
    assert_eq!(sizes, vec![10]);
    let sizes: Vec<usize> = export_batches(&long(11), &texts(&["n"]), 10).iter().map(|b| b.rows.len()).collect();
    assert_eq!(sizes, vec![10, 1]);
    let sizes: Vec<usize> = export_batches(&long(3), &texts(&["n"]), usize::MAX).iter().map(|b| b.rows.len()).collect();
    assert_eq!(sizes, vec![3]);
    assert!(matches!(next_batch(&long(3), &texts(&["n"]), 7, 2), Emission::End));
}
