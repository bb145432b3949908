//! The table model: headers, rows of optional numeric cells, and the
//! mathematical views that every contract speaks of.
//!
//! A numeric cell holds the bit pattern of an IEEE 754 binary64 value. The
//! library moves these patterns around, tests them for zero and orders them; it
//! never does arithmetic on them itself.

use vstd::prelude::*;

verus! {

/// One row: an optional timestamp and one optional value per header.
#[derive(Debug, Clone, PartialEq)]
pub struct CsvRecord {
    pub timestamp: Option<String>,
    pub values: Vec<Option<u64>>,
}

/// A table: header names and rows, index-aligned.
#[derive(Debug, Clone, PartialEq)]
pub struct ProcessedData {
    pub headers: Vec<String>,
    pub rows: Vec<CsvRecord>,
}

/// What a load reports back: the headers and the number of rows.
#[derive(Debug, Clone, PartialEq)]
pub struct CsvMetadata {
    pub headers: Vec<String>,
    pub total_rows: usize,
}

/// One entry of a sensor descriptor list.
#[derive(Debug, Clone, PartialEq)]
pub struct SensorMetadata {
    pub tag: String,
    pub description: String,
    pub unit: String,
    pub component: String,
}

/// The mathematical content of a row.
pub struct Row {
    pub timestamp: Option<Seq<char>>,
    pub values: Seq<Option<u64>>,
}

/// The mathematical content of a table.
pub struct Table {
    pub headers: Seq<Seq<char>>,
    pub rows: Seq<Row>,
}

/// The mathematical content of a descriptor entry.
pub struct Descriptor {
    pub tag: Seq<char>,
    pub description: Seq<char>,
    pub unit: Seq<char>,
    pub component: Seq<char>,
}

/// The contents of a list of texts.
pub open spec fn names(v: Seq<String>) -> Seq<Seq<char>> {
    v.map_values(|s: String| s@)
}

/// The contents of a list of rows.
pub open spec fn rows_of(v: Seq<CsvRecord>) -> Seq<Row> {
    v.map_values(|r: CsvRecord| r@)
}

/// The contents of a list of tables.
pub open spec fn tables_of(v: Seq<ProcessedData>) -> Seq<Table> {
    v.map_values(|t: ProcessedData| t@)
}

/// The contents of an optional text.
pub open spec fn text_of(t: Option<String>) -> Option<Seq<char>> {
    match t {
        Some(s) => Some(s@),
        None => None,
    }
}

impl View for CsvRecord {
    type V = Row;

    open spec fn view(&self) -> Row {
        Row { timestamp: text_of(self.timestamp), values: self.values@ }
    }
}

impl View for ProcessedData {
    type V = Table;

    open spec fn view(&self) -> Table {
        Table { headers: names(self.headers@), rows: rows_of(self.rows@) }
    }
}

impl View for SensorMetadata {
    type V = Descriptor;

    open spec fn view(&self) -> Descriptor {
        Descriptor {
            tag: self.tag@,
            description: self.description@,
            unit: self.unit@,
            component: self.component@,
        }
    }
}

/// The cell of a column, missing where the row has no such column.
pub open spec fn cell_at(values: Seq<Option<u64>>, column: int) -> Option<u64> {
    if 0 <= column < values.len() {
        values[column]
    } else {
        None
    }
}

impl Table {
    /// Every row holds exactly one cell per header.
    pub open spec fn well_formed(self) -> bool {
        forall|r: int| 0 <= r < self.rows.len() ==> (#[trigger] self.rows[r]).values.len() == self.headers.len()
    }
}

/// A copy of an optional text.
pub fn copy_text(text: &Option<String>) -> (out: Option<String>)
    ensures
        text_of(out) == text_of(*text),
{
    match text {
        Some(s) => Some(s.clone()),
        None => None,
    }
}

/// A copy of a list of texts.
pub fn copy_names(list: &Vec<String>) -> (out: Vec<String>)
    ensures
        names(out@) == names(list@),
{
    let mut out: Vec<String> = Vec::new();
    let mut i: usize = 0;
    while i < list.len()
        invariant
            i <= list.len(),
            out@.len() == i,
            forall|k: int| 0 <= k < i ==> (#[trigger] out@[k])@ == list@[k]@,
        decreases list.len() - i,
    {
        out.push(list[i].clone());
        i = i + 1;
    }
    assert(names(out@) =~= names(list@));
    out
}

impl ProcessedData {
    /// A table without columns or rows.
    pub fn empty() -> (out: ProcessedData)
        ensures
            out@.headers.len() == 0,
            out@.rows.len() == 0,
    {
        ProcessedData { headers: Vec::new(), rows: Vec::new() }
    }

    /// The headers and the row count, as reported after a load.
    pub fn summary(&self) -> (out: CsvMetadata)
        ensures
            names(out.headers@) == self@.headers,
            out.total_rows == self@.rows.len(),
    {
        CsvMetadata { headers: copy_names(&self.headers), total_rows: self.rows.len() }
    }
}

/// Hands the rows back as they are.
pub fn sample_data(data: Vec<CsvRecord>) -> (out: Vec<CsvRecord>)
    ensures
        out == data,
{
    data
}

} // verus!
