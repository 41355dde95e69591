//! Reading CSV bytes into records of text cells, with the `csv` crate.
//! Reading goes on record by record and stops at the first record that does
//! not read; what was read before it is kept, together with the error.

use vstd::prelude::*;

use crate::error::Error;
use crate::groups::{records_view, texts};

verus! {

/// One record as read: its cells, or the message of the error that stopped it.
pub open spec fn result_view(r: Result<Vec<String>, String>) -> Result<Seq<Seq<char>>, Seq<char>> {
    match r {
        Ok(cells) => Ok(texts(cells@)),
        Err(m) => Err(m@),
    }
}

pub open spec fn results_view(rs: Seq<Result<Vec<String>, String>>) -> Seq<
    Result<Seq<Seq<char>>, Seq<char>>,
> {
    rs.map_values(|r: Result<Vec<String>, String>| result_view(r))
}

/// What the `csv` crate reads from `bytes` with no header row and records of
/// any length: each record's cells, or the message of the error on it.
pub uninterp spec fn csv_records_of(bytes: Seq<u8>) -> Seq<Result<Seq<Seq<char>>, Seq<char>>>;

/// What the `csv` crate reads from `bytes` with a header row and records of
/// the header's length: the header's cells (or the message of its error),
/// then each further record's cells (or the message of the error on it).
pub uninterp spec fn csv_table_of(bytes: Seq<u8>) -> (
    Result<Seq<Seq<char>>, Seq<char>>,
    Seq<Result<Seq<Seq<char>>, Seq<char>>>,
);

/// The records read before the first error, and that error's message.
pub open spec fn read_until_error(rs: Seq<Result<Seq<Seq<char>>, Seq<char>>>) -> (
    Seq<Seq<Seq<char>>>,
    Option<Seq<char>>,
)
    decreases rs.len(),
{
    if rs.len() == 0 {
        (Seq::empty(), None)
    } else {
        let p = read_until_error(rs.drop_last());
        if p.1 is Some {
            p
        } else {
            match rs.last() {
                Ok(cells) => (p.0.push(cells), None),
                Err(m) => (p.0, Some(m)),
            }
        }
    }
}

/// Records read up to the first error, and that error.
pub struct CsvRecords {
    pub records: Vec<Vec<String>>,
    pub error: Option<Error>,
}

/// Whether `r` holds exactly the records and the error of `read`.
pub open spec fn holds_read(r: CsvRecords, read: (Seq<Seq<Seq<char>>>, Option<Seq<char>>)) -> bool {
    &&& records_view(r.records@) == read.0
    &&& match read.1 {
        Some(m) => r.error matches Some(Error::Csv(s)) && s@ == m,
        None => r.error is None,
    }
}

/// Reads the records of `bytes` with `csv::ReaderBuilder`, without a header
/// row and with records of any length (`flexible`). Claimed: each record
/// comes out as its cells, or as the message of its `csv::Error`, as the
/// name `csv_records_of` gives them for these bytes.
#[verifier::external_body]
fn csv_records(bytes: &[u8]) -> (r: Vec<Result<Vec<String>, String>>)
    ensures
        results_view(r@) == csv_records_of(bytes@),
{
    let mut rdr = csv::ReaderBuilder::new().has_headers(false).flexible(true).from_reader(bytes);
    let mut out = Vec::new();
    for rec in rdr.records() {
        out.push(rec.map(|cells| cells.iter().map(str::to_string).collect()).map_err(|e| e.to_string()));
    }
    out
}

/// Reads `bytes` with `csv::ReaderBuilder` and a header row: the header from
/// `Reader::headers`, then the further records. Claimed: header and records
/// come out as cells or as the message of their `csv::Error`, as the name
/// `csv_table_of` gives them for these bytes.
#[verifier::external_body]
fn csv_table(bytes: &[u8]) -> (r: (Result<Vec<String>, String>, Vec<Result<Vec<String>, String>>))
    ensures
        (result_view(r.0), results_view(r.1@)) == csv_table_of(bytes@),
{
    let mut rdr = csv::ReaderBuilder::new().has_headers(true).from_reader(bytes);
    let header = rdr.headers().map(|cells| cells.iter().map(str::to_string).collect()).map_err(|e| e.to_string());
    let mut out = Vec::new();
    for rec in rdr.records() {
        out.push(rec.map(|cells| cells.iter().map(str::to_string).collect()).map_err(|e| e.to_string()));
    }
    (header, out)
}

/// Keeps the records before the first error, and that error.
fn until_error(results: Vec<Result<Vec<String>, String>>) -> (r: CsvRecords)
    ensures
        holds_read(r, read_until_error(results_view(results@))),
{
    let ghost rs = results_view(results@);
    let mut records: Vec<Vec<String>> = Vec::new();
    let mut error: Option<Error> = None;
    let mut i: usize = 0;
    proof {
        assert(rs.take(0) =~= Seq::<Result<Seq<Seq<char>>, Seq<char>>>::empty());
        assert(records_view(records@) =~= Seq::<Seq<Seq<char>>>::empty());
    }
    while i < results.len()
        invariant
            i <= results.len(),
            rs == results_view(results@),
            holds_read((CsvRecords { records, error }), read_until_error(rs.take(i as int))),
        decreases results.len() - i,
    {
        proof {
            assert(rs.take(i + 1).drop_last() =~= rs.take(i as int));
            assert(rs.take(i + 1).last() == result_view(results@[i as int]));
        }
        if error.is_none() {
            match &results[i] {
                Ok(cells) => {
                    let ghost before = records@;
                    records.push(cells.clone());
                    proof {
                        assert(records_view(records@) =~= records_view(before).push(texts(cells@)));
                    }
                },
                Err(m) => {
                    error = Some(Error::Csv(m.clone()));
                },
            }
        }
        i = i + 1;
    }
    proof {
        assert(rs.take(results.len() as int) =~= rs);
    }
    CsvRecords { records, error }
}

/// The records of CSV bytes without a header row, records of any length.
pub fn read_records(bytes: &[u8]) -> (r: CsvRecords)
    ensures
        holds_read(r, read_until_error(csv_records_of(bytes@))),
{
    until_error(csv_records(bytes))
}

/// The header of CSV bytes with a header row (an error where it does not
/// read), and the further records of the header's length.
pub fn read_table(bytes: &[u8]) -> (r: (Result<Vec<String>, Error>, CsvRecords))
    ensures
        match csv_table_of(bytes@).0 {
            Ok(h) => r.0 matches Ok(hd) && texts(hd@) == h,
            Err(m) => r.0 matches Err(Error::Csv(s)) && s@ == m,
        },
        holds_read(r.1, read_until_error(csv_table_of(bytes@).1)),
{
    let (header, results) = csv_table(bytes);
    let h = match header {
        Ok(cells) => Ok(cells),
        Err(m) => Err(Error::Csv(m)),
    };
    (h, until_error(results))
}

} // verus!
