use sensor_table::headers::find_time_column;
use sensor_table::ingest::{parse_record, table_from_records};
use sensor_table::source::read_records;
use sensor_table::{read_csv, CsvRecord, LoadError, ProcessedData};

fn number(text: &str) -> Option<u64> {
    text.parse::<f64>().ok().map(f64::to_bits)
}

fn some(x: f64) -> Option<u64> {
    Some(x.to_bits())
}

fn texts(list: &[&str]) -> Vec<String> {
    list.iter().map(|s| s.to_string()).collect()
}

fn load(text: &str) -> ProcessedData {
    read_csv(text.as_bytes(), &number).unwrap()
}

#[test]
fn loads_headers_and_rows_in_order() {
    let table = load("Time,A,B\nt1,1,2\nt2,3,4\n");
    assert_eq!(table.headers, texts(&["Time", "A", "B"]));
    assert_eq!(table.rows.len(), 2);
    assert_eq!(table.rows[0], CsvRecord { timestamp: Some("t1".to_string()), values: vec![None, some(1.0), some(2.0)] });
    assert_eq!(table.rows[1], CsvRecord { timestamp: Some("t2".to_string()), values: vec![None, some(3.0), some(4.0)] });
}

#[test]
fn every_row_is_as_wide_as_the_headers() {
    let table = load("time,a,b,c\n1,2\n1,2,3,4,5,6\n\n,,,\nx\n");
    for row in &table.rows {
        assert_eq!(row.values.len(), table.headers.len());
    }
    assert_eq!(table.rows[0].values, vec![None, some(2.0), None, None]);
    assert_eq!(table.rows[1].values, vec![None, some(2.0), some(3.0), some(4.0)]);
}

#[test]
fn header_names_are_trimmed() {
    let table = load(" Timestamp , Flow rate ,\tTemp\n2024-01-01,1.5,2.5\n");
    assert_eq!(table.headers, texts(&["Timestamp", "Flow rate", "Temp"]));
    assert_eq!(find_time_column(&table.headers), Some(0));
    assert_eq!(table.rows[0].timestamp, Some("2024-01-01".to_string()));
}

#[test]
fn time_column_is_found_by_name_in_any_case() {
    assert_eq!(find_time_column(&texts(&["A", "TIME", "timestamp"])), Some(1));
    assert_eq!(find_time_column(&texts(&["A", "TimeStamp"])), Some(1));
    assert_eq!(find_time_column(&texts(&["A", "times", "stamp"])), None);
    assert_eq!(find_time_column(&texts(&[])), None);
}

#[test]
fn no_time_column_is_no_error() {
    let table = load("A,B\n1,2\n");
    assert_eq!(table.rows[0].timestamp, None);
    assert_eq!(table.rows[0].values, vec![some(1.0), some(2.0)]);
}

#[test]
fn time_column_need_not_come_first() {
    let table = load("A,Time,B\n1,t1,2\n");
    assert_eq!(table.rows[0].timestamp, Some("t1".to_string()));
    assert_eq!(table.rows[0].values, vec![some(1.0), None, some(2.0)]);
}

#[test]
fn blank_and_odd_fields_are_missing_not_zero() {
    let table = load("time,a,b,c,d\nt1,,  ,abc,0\n");
    assert_eq!(table.rows[0].values, vec![None, None, None, None, some(0.0)]);
}

#[test]
fn blank_timestamp_is_absent_but_keeps_its_slot() {
    let table = load("time,a\n  ,7\n");
    assert_eq!(table.rows[0].timestamp, None);
    assert_eq!(table.rows[0].values, vec![None, some(7.0)]);
}

#[test]
fn timestamp_is_kept_as_written() {
    let table = load("time,a\n\" 2024-01-01 \",7\n");
    assert_eq!(table.rows[0].timestamp, Some(" 2024-01-01 ".to_string()));
}

#[test]
fn numbers_are_read_as_the_reader_reads_them() {
    let table = load("a,b,c,d\n1e3,-2.5,inf,.5\n");
    assert_eq!(table.rows[0].values, vec![some(1000.0), some(-2.5), some(f64::INFINITY), some(0.5)]);
}

#[test]
fn a_field_that_is_not_utf8_is_missing() {
    let mut bytes = b"time,a\nt1,".to_vec();
    bytes.extend_from_slice(&[0xff, 0xfe]);
    bytes.extend_from_slice(b"\n");
    let table = read_csv(&bytes, &number).unwrap();
    assert_eq!(table.rows[0].values, vec![None, None]);
}

#[test]
fn a_timestamp_that_is_not_utf8_is_absent() {
    let mut bytes = b"time,a\n".to_vec();
    bytes.extend_from_slice(&[0xff, 0xfe]);
    bytes.extend_from_slice(b",5\n");
    let table = read_csv(&bytes, &number).unwrap();
    assert_eq!(table.rows[0].timestamp, None);
    assert_eq!(table.rows[0].values, vec![None, some(5.0)]);
}

#[test]
fn a_header_that_is_not_utf8_fails_the_load() {
    let mut bytes = b"time,".to_vec();
    bytes.extend_from_slice(&[0xff]);
    bytes.extend_from_slice(b"\nt1,5\n");
    assert_eq!(read_csv(&bytes, &number), Err(LoadError::Header));
}

#[test]
fn an_empty_source_is_an_empty_table() {
    let table = load("");
    assert!(table.headers.is_empty());
    assert!(table.rows.is_empty());
}

#[test]
fn headers_alone_give_no_rows() {
    let table = load("time,a\n");
    assert_eq!(table.headers, texts(&["time", "a"]));
    assert!(table.rows.is_empty());
}

#[test]
fn records_come_out_as_the_source_has_them() {
    let records = read_records(b"a,\"b,c\"\n1,2,3\n").unwrap();
    assert_eq!(records, vec![vec![b"a".to_vec(), b"b,c".to_vec()], vec![b"1".to_vec(), b"2".to_vec(), b"3".to_vec()]]);
}

#[test]
fn many_rows_keep_their_order() {
    let mut text = String::from("time,n\n");
    for i in 0..20000 {
        text.push_str(&format!("t{:05},{}\n", i, i));
    }
    let table = load(&text);
    assert_eq!(table.rows.len(), 20000);
    for (i, row) in table.rows.iter().enumerate() {
        assert_eq!(row.timestamp, Some(format!("t{:05}", i)));
        assert_eq!(row.values, vec![None, some(i as f64)]);
    }
}

#[test]
fn one_record_parses_against_the_width() {
    let fields = vec![b"t".to_vec(), b"1".to_vec()];
    let row = parse_record(&fields, 3, Some(0), &number);
    assert_eq!(row, CsvRecord { timestamp: Some("t".to_string()), values: vec![None, some(1.0), None] });
    let row = parse_record(&fields, 1, None, &number);
    assert_eq!(row, CsvRecord { timestamp: None, values: vec![None] });
}

#[test]
fn records_build_the_same_table() {
    let records = vec![vec![b"Time".to_vec(), b"A".to_vec()], vec![b"t1".to_vec(), b"2".to_vec()]];
    let table = table_from_records(records, &number).unwrap();
    assert_eq!(table, load("Time,A\nt1,2\n"));
}

#[test]
fn the_content_of_a_row_never_fails_a_load() {
    let sources: [&[u8]; 6] = [
        b"time,a\n\"unclosed,1\n",
        b"time,a\nt1,\"a\"b\"\n",
        b"time,a\n,,,,,,,\n",
        b"time,a\n\xff\xfe,\xc0\n",
        b"time,a\r\nt1,1\r\n\r\n\r\n",
        b"\n\n\n",
    ];
    for bytes in sources {
        assert!(read_csv(bytes, &number).is_ok());
        assert!(read_records(bytes).is_ok());
    }
}
