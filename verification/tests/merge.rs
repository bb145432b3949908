use sensor_table::{merge_tables, read_csv, CsvRecord, MergeError, ProcessedData};

fn number(text: &str) -> Option<u64> {
    text.parse::<f64>().ok().map(f64::to_bits)
}

fn some(x: f64) -> Option<u64> {
    Some(x.to_bits())
}

fn texts(list: &[&str]) -> Vec<String> {
    list.iter().map(|s| s.to_string()).collect()
}

fn load(text: &str) -> ProcessedData {
    read_csv(text.as_bytes(), &number).unwrap()
}

fn row(ts: &str, values: Vec<Option<u64>>) -> CsvRecord {
    CsvRecord { timestamp: Some(ts.to_string()), values }
}

#[test]
fn no_tables_is_an_error() {
    assert_eq!(merge_tables(&Vec::new()), Err(MergeError::NoTables));
}

#[test]
fn end_to_end_two_files() {
    let first = load("Time,A,B\nt1,1,2\nt2,3,4\n");
    let second = load("Timestamp,B,C\nt1,20,5\n");
    let merged = merge_tables(&vec![first, second]).unwrap();
    assert_eq!(merged.headers, texts(&["Time", "A", "B", "C"]));
    assert_eq!(merged.rows.len(), 2);
    assert_eq!(merged.rows[0], row("t1", vec![None, some(1.0), some(20.0), some(5.0)]));
    assert_eq!(merged.rows[1], row("t2", vec![None, some(3.0), some(4.0), None]));
}

#[test]
fn a_single_file_merges_to_itself_with_time_in_front() {
    let table = load("A,Time,B\n1,t1,2\n3,t2,4\n");
    let merged = merge_tables(&vec![table]).unwrap();
    assert_eq!(merged.headers, texts(&["Time", "A", "B"]));
    assert_eq!(merged.rows, vec![row("t1", vec![None, some(1.0), some(2.0)]), row("t2", vec![None, some(3.0), some(4.0)])]);
}

#[test]
fn a_single_file_with_time_first_merges_to_itself() {
    let table = load("time,a,b\nt1,1,\nt2,,4\n");
    let merged = merge_tables(&vec![table.clone()]).unwrap();
    assert_eq!(merged, table);
}

#[test]
fn disjoint_timestamps_add_up() {
    let first = load("time,a\nt1,1\nt3,3\nt5,5\n");
    let second = load("time,b\nt2,2\nt4,4\n");
    let merged = merge_tables(&vec![first, second]).unwrap();
    assert_eq!(merged.rows.len(), 5);
    let stamps: Vec<String> = merged.rows.iter().map(|r| r.timestamp.clone().unwrap()).collect();
    assert_eq!(stamps, texts(&["t1", "t2", "t3", "t4", "t5"]));
    assert_eq!(merged.rows[1], row("t2", vec![None, None, some(2.0)]));
}

#[test]
fn a_shared_timestamp_is_one_row_and_the_later_file_wins_per_cell() {
    let first = load("time,a,b,c\nt1,1,2,\n");
    let second = load("time,a,b,c\nt1,10,,30\n");
    let merged = merge_tables(&vec![first, second]).unwrap();
    assert_eq!(merged.rows, vec![row("t1", vec![None, some(10.0), some(2.0), some(30.0)])]);
}

#[test]
fn rows_come_out_in_order_of_their_timestamp_text() {
    let first = load("time,a\n2024-01-03,3\n2024-01-01,1\n");
    let second = load("time,a\n2024-01-02,2\n10,0\n9,9\n");
    let merged = merge_tables(&vec![first, second]).unwrap();
    let stamps: Vec<String> = merged.rows.iter().map(|r| r.timestamp.clone().unwrap()).collect();
    assert_eq!(stamps, texts(&["10", "2024-01-01", "2024-01-02", "2024-01-03", "9"]));
}

#[test]
fn rows_without_timestamp_do_not_take_part() {
    let first = load("time,a\n,1\nt1,2\n");
    let second = load("a,b\n5,6\n");
    let merged = merge_tables(&vec![first, second]).unwrap();
    assert_eq!(merged.headers, texts(&["time", "a", "b"]));
    assert_eq!(merged.rows, vec![row("t1", vec![None, some(2.0), None])]);
}

#[test]
fn the_time_column_is_named_after_the_first_file() {
    let first = load("a,b\n1,2\n");
    let second = load("Time,a\nt1,1\n");
    let merged = merge_tables(&vec![first, second]).unwrap();
    assert_eq!(merged.headers, texts(&["timestamp", "a", "b"]));
    assert_eq!(merged.rows, vec![row("t1", vec![None, some(1.0), None])]);
}

#[test]
fn columns_are_matched_without_regard_to_case() {
    let first = load("time,Flow\nt1,1\n");
    let second = load("TIME,flow,Temp\nt1,,7\nt2,2,8\n");
    let merged = merge_tables(&vec![first, second]).unwrap();
    assert_eq!(merged.headers, texts(&["time", "Flow", "Temp"]));
    assert_eq!(merged.rows, vec![row("t1", vec![None, some(1.0), some(7.0)]), row("t2", vec![None, some(2.0), some(8.0)])]);
}

#[test]
fn duplicate_timestamps_within_a_file_fold_into_one_row() {
    let table = load("time,a,b\nt1,1,\nt1,,2\nt1,3,\n");
    let merged = merge_tables(&vec![table]).unwrap();
    assert_eq!(merged.rows, vec![row("t1", vec![None, some(3.0), some(2.0)])]);
}

#[test]
fn a_short_row_degrades_silently() {
    let table = ProcessedData {
        headers: texts(&["time", "a", "b"]),
        rows: vec![CsvRecord { timestamp: Some("t1".to_string()), values: vec![None, some(1.0)] }],
    };
    let merged = merge_tables(&vec![table]).unwrap();
    assert_eq!(merged.rows, vec![row("t1", vec![None, some(1.0), None])]);
}

#[test]
fn merged_rows_are_as_wide_as_the_headers() {
    let first = load("time,a\nt1,1\n");
    let second = load("time,b,c,d\nt0,1,2,3\nt1,4,5,6\n");
    let merged = merge_tables(&vec![first, second]).unwrap();
    for r in &merged.rows {
        assert_eq!(r.values.len(), merged.headers.len());
    }
}

#[test]
fn timestamps_are_told_apart_by_exact_text() {
    let first = load("time,a\nt1,1\n");
    let second = load("time,a\n\"t1 \",2\nT1,3\n");
    let merged = merge_tables(&vec![first, second]).unwrap();
    let stamps: Vec<String> = merged.rows.iter().map(|r| r.timestamp.clone().unwrap()).collect();
    assert_eq!(stamps, texts(&["T1", "t1", "t1 "]));
}

#[test]
fn a_long_row_degrades_silently() {
    let table = ProcessedData {
        headers: texts(&["time", "a"]),
        rows: vec![CsvRecord { timestamp: Some("t1".to_string()), values: vec![None, some(1.0), some(9.0), some(8.0)] }],
    };
    let merged = merge_tables(&vec![table]).unwrap();
    assert_eq!(merged.headers, texts(&["time", "a"]));
    assert_eq!(merged.rows, vec![row("t1", vec![None, some(1.0)])]);
}

#[test]
fn every_time_named_column_writes_to_the_first_slot() {
    let table = load("Time,Timestamp,A\nt1,5,1\n");
    assert_eq!(table.rows[0].values, vec![None, some(5.0), some(1.0)]);
    let merged = merge_tables(&vec![table]).unwrap();
    assert_eq!(merged.headers, texts(&["Time", "A"]));
    assert_eq!(merged.rows, vec![row("t1", vec![some(5.0), some(1.0)])]);
}

#[test]
fn three_files_fold_in_the_given_order() {
    let first = load("time,a\nt1,1\n");
    let second = load("time,a\nt1,2\n");
    let third = load("time,a,b\nt1,,3\n");
    let merged = merge_tables(&vec![first, second, third]).unwrap();
    assert_eq!(merged.rows, vec![row("t1", vec![None, some(2.0), some(3.0)])]);
}
