//! Loading tabular game data: bytes in, trimmed records out. The csv
//! crate does the parsing; reading files is the driver's job.

use vstd::prelude::*;

verus! {

/// The records the csv format assigns to a byte sequence, each a row
/// of trimmed fields, after the leading header row; `None` where the
/// bytes are not valid UTF-8 or violate the format.
pub uninterp spec fn csv_records(bytes: Seq<u8>) -> Option<Seq<Seq<Seq<char>>>>;

/// Relies on csv::ReaderBuilder and csv::StringRecord::trim: the
/// records of the input after its header row, every field trimmed of
/// surrounding whitespace; the parse depends on the bytes alone, and
/// empty input holds no records. Input the parser rejects, and bytes
/// that are not UTF-8, give `None`.
#[verifier::external_body]
pub fn load_csv_from_bytes(bytes: &[u8]) -> (r: Option<Vec<Vec<String>>>)
    ensures
        r.deep_view() == csv_records(bytes@),
        bytes@.len() == 0 ==> r is Some && r->Some_0@.len() == 0,
{
    let Ok(text) = std::str::from_utf8(bytes) else { return None };
    let mut rdr = csv::ReaderBuilder::new().from_reader(text.as_bytes());
    let mut rows: Vec<Vec<String>> = Vec::new();
    for result in rdr.records() {
        let Ok(mut record) = result else { return None };
        record.trim();
        rows.push(record.iter().map(|f| f.to_string()).collect());
    }
    Some(rows)
}

} // verus!
