//! The trusted boundary to the CSV parser: the one place the library
//! calls into the csv crate. Parsing is named by `csv_table_of`;
//! everything the rest of the library proves about CSV sources goes
//! through that name.

use vstd::prelude::*;

verus! {

/// What parsing CSV bytes yields: `None` when a row is malformed (the
/// whole load is then aborted, no partial results), otherwise the field
/// table, the header row first.
pub uninterp spec fn csv_table_of(data: Seq<u8>) -> Option<Seq<Seq<Seq<char>>>>;

/// Relies on csv::ReaderBuilder and csv::Reader (headers read first,
/// the remaining records after them): success and the field table are a
/// function of the bytes alone.
#[verifier::external_body]
pub fn parse_csv(data: &[u8]) -> (r: Result<Vec<Vec<String>>, crate::error::Error>)
    ensures
        match r {
            Ok(rows) => csv_table_of(data@) == Some(crate::csvsrc::table_view(rows@)),
            Err(e) => csv_table_of(data@) is None && e == crate::error::Error::Parse,
        },
{
    let mut rdr = csv::ReaderBuilder::new().has_headers(true).from_reader(data);
    let headers: Vec<String> = match rdr.headers() {
        Ok(h) => h.iter().map(str::to_owned).collect(),
        Err(_) => return Err(crate::error::Error::Parse),
    };
    let mut rows = vec![headers];
    for rec in rdr.records() {
        match rec {
            Ok(sr) => rows.push(sr.iter().map(str::to_owned).collect()),
            Err(_) => return Err(crate::error::Error::Parse),
        }
    }
    Ok(rows)
}

} // verus!
