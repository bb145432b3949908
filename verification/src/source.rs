//! Reading comma-separated records out of a byte buffer.
//!
//! Splitting bytes into records and fields is done by the `csv` crate. This
//! module declares what the library relies on from it and reads a buffer to
//! its end; everything past that point works on plain records.

use vstd::prelude::*;
use vstd::utf8::{decode_utf8, valid_utf8};

verus! {

/// `csv::Reader`, carried as an opaque value.
#[verifier::external_type_specification]
#[verifier::external_body]
#[verifier::reject_recursive_types(R)]
pub struct ExReader<R>(csv::Reader<R>);

/// `csv::Error`, carried as an opaque value.
#[verifier::external_type_specification]
#[verifier::external_body]
pub struct ExCsvError(csv::Error);

/// The records, each a list of fields, that a flexible reader without a
/// header row finds in a buffer.
pub uninterp spec fn csv_records(bytes: Seq<u8>) -> Seq<Seq<Seq<u8>>>;

/// The records that a reader has yet to hand out.
pub uninterp spec fn unread(reader: csv::Reader<&[u8]>) -> Seq<Seq<Seq<u8>>>;

/// Whether a reader was built to take records of differing lengths.
pub uninterp spec fn flexible(reader: csv::Reader<&[u8]>) -> bool;

/// Why a load produced no table.
#[derive(Debug, Clone, PartialEq)]
pub enum LoadError {
    /// The reader reported a failure; its own message. A flexible reader over
    /// bytes in memory never does, so no load of this library ends here.
    Source(String),
    /// A field of the header row is not UTF-8.
    Header,
    /// A field of a descriptor row is not UTF-8.
    Record,
}

/// `csv::ReaderBuilder::from_reader` on a byte slice, with `has_headers`
/// off, so that the first record is handed out like any other, and `flexible`
/// on, so that records may differ in length. The reader is flexible and
/// starts with all the records of the buffer unread.
#[verifier::external_body]
fn open_reader(bytes: &[u8]) -> (reader: csv::Reader<&[u8]>)
    ensures
        unread(reader) == csv_records(bytes@),
        flexible(reader),
{
    csv::ReaderBuilder::new().has_headers(false).flexible(true).from_reader(bytes)
}

/// `csv::Reader::read_byte_record` into a fresh `csv::ByteRecord`, with the
/// fields that `ByteRecord::iter` yields copied out. On a flexible reader over
/// a slice it does not fail: the slice cannot fail to be read, and a record is
/// refused only for its length, which a flexible reader never does. When it
/// reports a record, that record was the first unread one and is no longer
/// unread; when it reports none, nothing was unread and nothing is. The
/// reader stays flexible.
#[verifier::external_body]
fn read_fields(reader: &mut csv::Reader<&[u8]>) -> (out: Result<(bool, Vec<Vec<u8>>), csv::Error>)
    requires
        flexible(*old(reader)),
    ensures
        out is Ok,
        flexible(*final(reader)),
        match out {
            Ok((more, fields)) => if more {
                &&& unread(*old(reader)).len() > 0
                &&& fields.deep_view() == unread(*old(reader))[0]
                &&& unread(*final(reader)) == unread(*old(reader)).drop_first()
            } else {
                &&& unread(*old(reader)).len() == 0
                &&& unread(*final(reader)).len() == 0
            },
            Err(_) => true,
        },
{
    let mut record = csv::ByteRecord::new();
    let more = reader.read_byte_record(&mut record)?;
    Ok((more, record.iter().map(|field| field.to_vec()).collect()))
}

/// The `Display` text of a `csv::Error`. Nothing is claimed of it.
#[verifier::external_body]
fn describe(error: &csv::Error) -> String {
    error.to_string()
}

/// `std::str::from_utf8`: the text that the bytes encode, if they are valid
/// UTF-8, and nothing otherwise.
#[verifier::external_body]
pub(crate) fn decode(bytes: &[u8]) -> (out: Option<&str>)
    ensures
        out is Some <==> valid_utf8(bytes@),
        out is Some ==> out->0@ == decode_utf8(bytes@),
{
    std::str::from_utf8(bytes).ok()
}

/// Reads every record of a buffer, the header row included. It always
/// succeeds.
pub fn read_records(bytes: &[u8]) -> (out: Result<Vec<Vec<Vec<u8>>>, LoadError>)
    ensures
        out is Ok,
        out->Ok_0.deep_view() == csv_records(bytes@),
{
    let mut reader = open_reader(bytes);
    let mut records: Vec<Vec<Vec<u8>>> = Vec::new();
    loop
        invariant
            flexible(reader),
            records.deep_view() + unread(reader) == csv_records(bytes@),
        decreases unread(reader).len(),
    {
        let ghost done = records.deep_view();
        let ghost pending = unread(reader);
        match read_fields(&mut reader) {
            Err(error) => {
                return Err(LoadError::Source(describe(&error)));
            },
            Ok((more, fields)) => {
                if !more {
                    assert(done + pending =~= done);
                    return Ok(records);
                }
                records.push(fields);
                assert(records.deep_view() =~= done.push(pending[0]));
                assert(done.push(pending[0]) + pending.drop_first() =~= done + pending);
            },
        }
    }
}

} // verus!
