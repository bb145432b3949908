//! The sensor descriptor list: tag, description, unit and component of each
//! sensor, read from a source of its own and joined to nothing.

use vstd::prelude::*;
use vstd::utf8::{decode_utf8, valid_utf8};
use crate::ingest::{header_names, header_readable, resolve_headers};
use crate::source::{csv_records, decode, read_records, LoadError};
use crate::table::{names, Descriptor, SensorMetadata};
use crate::text::{blank, eq_ignore_case, is_blank, same_name};

verus! {

/// Index of the last among the first `n` headers that equals `word` up to
/// ASCII case.
pub open spec fn last_named(headers: Seq<Seq<char>>, word: Seq<char>, n: int) -> Option<int>
    decreases n,
{
    if n <= 0 {
        None
    } else if same_name(headers[n - 1], word) {
        Some(n - 1)
    } else {
        last_named(headers, word, n - 1)
    }
}

/// The text of the field of a column; the empty text where there is no such
/// column or the record has no such field.
pub open spec fn entry_text(fields: Seq<Seq<u8>>, column: Option<int>) -> Seq<char> {
    match column {
        Some(c) => if 0 <= c < fields.len() {
            decode_utf8(fields[c])
        } else {
            Seq::empty()
        },
        None => Seq::empty(),
    }
}

/// The entry that a record stands for under the given headers.
pub open spec fn descriptor_of(headers: Seq<Seq<char>>, fields: Seq<Seq<u8>>) -> Descriptor {
    let n = headers.len() as int;
    Descriptor {
        tag: entry_text(fields, last_named(headers, "tag"@, n)),
        description: entry_text(fields, last_named(headers, "description"@, n)),
        unit: entry_text(fields, last_named(headers, "unit"@, n)),
        component: entry_text(fields, last_named(headers, "component"@, n)),
    }
}

/// The entries of the records from the second up to the `n`-th, those with a
/// blank tag left out.
pub open spec fn descriptors(records: Seq<Seq<Seq<u8>>>, n: int) -> Seq<Descriptor>
    decreases n,
{
    if n <= 1 {
        Seq::empty()
    } else {
        let before = descriptors(records, n - 1);
        let entry = descriptor_of(header_names(records[0]), records[n - 1]);
        if blank(entry.tag) {
            before
        } else {
            before.push(entry)
        }
    }
}

/// Whether every field of every record from the second up to the `n`-th is
/// UTF-8.
pub open spec fn rows_readable(records: Seq<Seq<Seq<u8>>>, n: int) -> bool {
    forall|r: int| 1 <= r < n && r < records.len() ==> header_readable(#[trigger] records[r])
}

/// The contents of a descriptor list.
pub open spec fn entries_of(list: Seq<SensorMetadata>) -> Seq<Descriptor> {
    list.map_values(|m: SensorMetadata| m@)
}

/// What `metadata_from_records` returns: the header error when the header
/// row is not UTF-8, the record error when a later row is not, else the
/// entries of the rows.
pub open spec fn metadata_read(records: Seq<Seq<Seq<u8>>>, out: Result<Vec<SensorMetadata>, LoadError>) -> bool {
    if records.len() == 0 {
        out is Ok && out->Ok_0@.len() == 0
    } else if !header_readable(records[0]) {
        out is Err && out->Err_0 is Header
    } else if !rows_readable(records, records.len() as int) {
        out is Err && out->Err_0 is Record
    } else {
        out is Ok && entries_of(out->Ok_0@) == descriptors(records, records.len() as int)
    }
}

/// The last header that equals `word` up to ASCII case.
pub fn find_last(headers: &Vec<String>, word: &str) -> (out: Option<usize>)
    ensures
        out.is_some() == last_named(names(headers@), word@, headers@.len() as int).is_some(),
        out is Some ==> out->0 < headers@.len() && last_named(names(headers@), word@, headers@.len() as int) == Some(
            out->0 as int,
        ),
{
    let mut out: Option<usize> = None;
    let mut i: usize = 0;
    while i < headers.len()
        invariant
            i <= headers.len(),
            out.is_some() == last_named(names(headers@), word@, i as int).is_some(),
            out is Some ==> out->0 < i && last_named(names(headers@), word@, i as int) == Some(out->0 as int),
        decreases headers.len() - i,
    {
        if eq_ignore_case(headers[i].as_str(), word) {
            out = Some(i);
        }
        i = i + 1;
    }
    out
}

/// The texts of the fields of a record, or `None` when one is not UTF-8.
pub fn decode_fields(fields: &Vec<Vec<u8>>) -> (out: Option<Vec<String>>)
    ensures
        out is Some <==> header_readable(fields.deep_view()),
        out is Some ==> out->0@.len() == fields@.len(),
        out is Some ==> forall|i: int|
            0 <= i < fields@.len() ==> (#[trigger] out->0@[i])@ == decode_utf8(fields.deep_view()[i]),
{
    let mut out: Vec<String> = Vec::new();
    let mut i: usize = 0;
    while i < fields.len()
        invariant
            i <= fields.len(),
            out@.len() == i,
            forall|k: int| 0 <= k < i ==> valid_utf8(#[trigger] fields.deep_view()[k]),
            forall|k: int| 0 <= k < i ==> (#[trigger] out@[k])@ == decode_utf8(fields.deep_view()[k]),
        decreases fields.len() - i,
    {
        assert(fields.deep_view()[i as int] == fields@[i as int]@);
        match decode(fields[i].as_slice()) {
            Some(text) => {
                out.push(text.to_owned());
            },
            None => {
                return None;
            },
        }
        i = i + 1;
    }
    Some(out)
}

/// The text of a column in a decoded record; the empty text where there is
/// no such column or the record has no such field.
pub fn text_at(texts: &Vec<String>, column: Option<usize>) -> (out: String)
    ensures
        out@ == match column {
            Some(c) => if c < texts@.len() {
                texts@[c as int]@
            } else {
                Seq::<char>::empty()
            },
            None => Seq::<char>::empty(),
        },
{
    match column {
        Some(c) => if c < texts.len() {
            texts[c].clone()
        } else {
            String::new()
        },
        None => String::new(),
    }
}

/// Builds the descriptor list from the records of one source, the header row
/// first.
pub fn metadata_from_records(records: &Vec<Vec<Vec<u8>>>) -> (out: Result<Vec<SensorMetadata>, LoadError>)
    ensures
        metadata_read(records.deep_view(), out),
{
    let ghost all = records.deep_view();
    let mut list: Vec<SensorMetadata> = Vec::new();
    if records.len() == 0 {
        return Ok(list);
    }
    assert(all[0] == records@[0].deep_view());
    let headers = match resolve_headers(&records[0]) {
        Some(headers) => headers,
        None => {
            return Err(LoadError::Header);
        },
    };
    let tag = find_last(&headers, "tag");
    let description = find_last(&headers, "description");
    let unit = find_last(&headers, "unit");
    let component = find_last(&headers, "component");
    let mut r: usize = 1;
    assert(entries_of(list@) =~= descriptors(all, 1));
    while r < records.len()
        invariant
            1 <= r <= records.len(),
            all == records.deep_view(),
            header_readable(all[0]),
            names(headers@) == header_names(all[0]),
            rows_readable(all, r as int),
            entries_of(list@) == descriptors(all, r as int),
            tag.is_some() == last_named(names(headers@), "tag"@, headers@.len() as int).is_some(),
            tag is Some ==> last_named(names(headers@), "tag"@, headers@.len() as int) == Some(tag->0 as int),
            description.is_some() == last_named(names(headers@), "description"@, headers@.len() as int).is_some(),
            description is Some ==> last_named(names(headers@), "description"@, headers@.len() as int) == Some(
                description->0 as int,
            ),
            unit.is_some() == last_named(names(headers@), "unit"@, headers@.len() as int).is_some(),
            unit is Some ==> last_named(names(headers@), "unit"@, headers@.len() as int) == Some(unit->0 as int),
            component.is_some() == last_named(names(headers@), "component"@, headers@.len() as int).is_some(),
            component is Some ==> last_named(names(headers@), "component"@, headers@.len() as int) == Some(
                component->0 as int,
            ),
        decreases records.len() - r,
    {
        assert(all[r as int] == records@[r as int].deep_view());
        let texts = match decode_fields(&records[r]) {
            Some(texts) => texts,
            None => {
                assert(!rows_readable(all, all.len() as int));
                return Err(LoadError::Record);
            },
        };
        let entry = SensorMetadata {
            tag: text_at(&texts, tag),
            description: text_at(&texts, description),
            unit: text_at(&texts, unit),
            component: text_at(&texts, component),
        };
        assert(entry@ == descriptor_of(header_names(all[0]), all[r as int]));
        if !is_blank(entry.tag.as_str()) {
            let ghost before = entries_of(list@);
            list.push(entry);
            assert(entries_of(list@) =~= before.push(entry@));
        }
        r = r + 1;
    }
    Ok(list)
}

/// Loads a sensor descriptor list from the bytes of its source.
///
/// The columns are found by their header, "tag", "description", "unit" and
/// "component" in any letter case; of several with one name the last counts,
/// and a column that is absent gives empty texts. Rows with a blank tag are
/// left out. The load fails exactly when a field of the header row, or of a
/// later row, is not UTF-8.
pub fn load_metadata(bytes: &[u8]) -> (out: Result<Vec<SensorMetadata>, LoadError>)
    ensures
        metadata_read(csv_records(bytes@), out),
{
    match read_records(bytes) {
        Ok(records) => metadata_from_records(&records),
        Err(e) => Err(e),
    }
}

} // verus!
