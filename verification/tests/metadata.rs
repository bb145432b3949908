use sensor_table::metadata::metadata_from_records;
use sensor_table::{load_metadata, LoadError, SensorMetadata};

fn entry(tag: &str, description: &str, unit: &str, component: &str) -> SensorMetadata {
    SensorMetadata {
        tag: tag.to_string(),
        description: description.to_string(),
        unit: unit.to_string(),
        component: component.to_string(),
    }
}

#[test]
fn loads_the_four_columns_by_name() {
    let list = load_metadata(b"Tag,Description,Unit,Component\nT1,Inlet temperature,C,Boiler\nP1,Pressure,bar,Pump\n").unwrap();
    assert_eq!(list, vec![entry("T1", "Inlet temperature", "C", "Boiler"), entry("P1", "Pressure", "bar", "Pump")]);
}

#[test]
fn columns_may_come_in_any_order_and_case() {
    let list = load_metadata(b"UNIT, tag ,other,component\nC,T1,x,Boiler\n").unwrap();
    assert_eq!(list, vec![entry("T1", "", "C", "Boiler")]);
}

#[test]
fn rows_with_a_blank_tag_are_left_out() {
    let list = load_metadata(b"tag,unit\n,C\n  ,bar\nT1,K\n\" T2\",m\n").unwrap();
    assert_eq!(list, vec![entry("T1", "", "K", ""), entry(" T2", "", "m", "")]);
}

#[test]
fn without_a_tag_column_nothing_is_listed() {
    assert_eq!(load_metadata(b"unit,description\nC,x\n").unwrap(), Vec::new());
    assert_eq!(load_metadata(b"").unwrap(), Vec::new());
}

#[test]
fn of_two_columns_with_one_name_the_last_counts() {
    let list = load_metadata(b"tag,unit,Tag\nA,C,B\n").unwrap();
    assert_eq!(list, vec![entry("B", "", "C", "")]);
}

#[test]
fn short_rows_give_empty_texts() {
    let list = load_metadata(b"tag,description,unit\nT1\nT2,d\n").unwrap();
    assert_eq!(list, vec![entry("T1", "", "", ""), entry("T2", "d", "", "")]);
}

#[test]
fn bytes_that_are_not_utf8_fail_the_load() {
    let mut bytes = b"tag,".to_vec();
    bytes.push(0xff);
    bytes.extend_from_slice(b"\nT1,x\n");
    assert_eq!(load_metadata(&bytes), Err(LoadError::Header));
    let mut bytes = b"tag,unit\nT1,".to_vec();
    bytes.push(0xff);
    bytes.extend_from_slice(b"\n");
    assert_eq!(load_metadata(&bytes), Err(LoadError::Record));
}

#[test]
fn records_give_the_same_list() {
    let records = vec![vec![b"tag".to_vec(), b"unit".to_vec()], vec![b"T1".to_vec(), b"C".to_vec()]];
    assert_eq!(metadata_from_records(&records), load_metadata(b"tag,unit\nT1,C\n"));
}
