//! Comma-separated text, read and written by the `csv` crate.

use vstd::prelude::*;

verus! {

/// A table of text fields as contracts see it: rows of fields of characters.
pub open spec fn table_view(rows: Seq<Vec<String>>) -> Seq<Seq<Seq<char>>> {
    rows.map_values(|row: Vec<String>| row@.map_values(|field: String| field@))
}

/// The records that the `csv` crate reads from `data` with its default
/// settings, the header record left out; `None` where it reports an error.
pub uninterp spec fn csv_rows(data: Seq<u8>) -> Option<Seq<Seq<Seq<char>>>>;

/// The text that the `csv` crate writes for `rows` with its default
/// settings; `None` where it reports an error.
pub uninterp spec fn csv_text(rows: Seq<Seq<Seq<char>>>) -> Option<Seq<char>>;

/// Reads every record of `data` through `csv::Reader::records`. The reader
/// is built by `csv::Reader::from_reader`, so the first record is taken as a
/// header and left out. Nothing is claimed of the records but that they are
/// what the crate reads from these bytes; the first error ends the reading
/// and gives `None`.
#[verifier::external_body]
pub(crate) fn read_rows(data: &[u8]) -> (rows: Option<Vec<Vec<String>>>)
    ensures
        match rows {
            Some(table) => csv_rows(data@) == Some(table_view(table@)),
            None => csv_rows(data@).is_none(),
        },
{
    let mut reader = csv::Reader::from_reader(data);
    let mut table: Vec<Vec<String>> = Vec::new();
    for record in reader.records() {
        match record {
            Ok(fields) => table.push(fields.iter().map(String::from).collect()),
            Err(_) => return None,
        }
    }
    Some(table)
}

/// Writes `rows` through `csv::Writer::write_record` into a buffer in memory
/// and takes the buffer back with `csv::Writer::into_inner`. Nothing is
/// claimed of the text but that it is what the crate writes for these rows;
/// an error of the writer, which rows of unequal length cause, gives `None`.
#[verifier::external_body]
pub(crate) fn write_rows(rows: &Vec<Vec<String>>) -> (text: Option<String>)
    ensures
        match text {
            Some(written) => csv_text(table_view(rows@)) == Some(written@),
            None => csv_text(table_view(rows@)).is_none(),
        },
{
    let mut writer = csv::Writer::from_writer(Vec::new());
    for row in rows.iter() {
        if writer.write_record(row).is_err() {
            return None;
        }
    }
    match writer.into_inner() {
        Ok(bytes) => String::from_utf8(bytes).ok(),
        Err(_) => None,
    }
}

} // verus!
