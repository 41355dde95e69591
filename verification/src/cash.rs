//! Cash reports: one cash flow per record (account, currency, date, amount,
//! running total).

use vstd::prelude::*;

use crate::date::{convert_date, day_of, has_ten_byte_prefix};
use crate::csv_input::{csv_table_of, holds_read, read_table, read_until_error, CsvRecords};
use crate::error::Error;

verus! {

/// One cash flow of a cash report (`N` is the amount).
pub struct CashFlow<N> {
    pub account: String,
    pub curr: String,
    pub date: i64,
    pub amount: N,
    pub total: N,
}

/// The message of a parse error.
pub open spec fn message_of<N>(p: Result<N, String>) -> Seq<char> {
    match p {
        Err(m) => m@,
        Ok(_) => Seq::empty(),
    }
}

impl<N: Copy> CashFlow<N> {
    /// The cash flow of one record of a cash report, given the record's
    /// cells and each cell read as a number (`parsed`, an error message
    /// where a cell is no number). A record must have five cells
    /// (`CashBerichtUngueltig`); then the date, the amount and the total
    /// must read, in that order.
    pub fn from_record(fields: &Vec<String>, parsed: &Vec<Result<N, String>>) -> (r: Result<
        Self,
        Error,
    >)
        requires
            parsed@.len() == fields@.len(),
            fields@.len() == 5 ==> has_ten_byte_prefix(fields@[2]@),
        ensures
            fields@.len() != 5 ==> r == Err::<Self, Error>(Error::CashBerichtUngueltig),
            fields@.len() == 5 && day_of(fields@[2]@) is None ==> r == Err::<Self, Error>(
                Error::FailedToParseDate,
            ),
            fields@.len() == 5 && day_of(fields@[2]@) is Some && parsed@[3] is Err ==> (r matches Err(
                Error::ParseFloatFailed(m),
            ) && m@ == message_of(parsed@[3])),
            fields@.len() == 5 && day_of(fields@[2]@) is Some && parsed@[3] is Ok && parsed@[4] is Err
                ==> (r matches Err(Error::ParseFloatFailed(m)) && m@ == message_of(parsed@[4])),
            r matches Ok(c) ==> {
                &&& fields@.len() == 5
                &&& c.account@ == fields@[0]@
                &&& c.curr@ == fields@[1]@
                &&& Some(c.date as int) == day_of(fields@[2]@)
                &&& parsed@[3] == Ok::<N, String>(c.amount)
                &&& parsed@[4] == Ok::<N, String>(c.total)
            },
            fields@.len() == 5 && day_of(fields@[2]@) is Some && parsed@[3] is Ok && parsed@[4] is Ok
                ==> r is Ok,
    {
        if fields.len() != 5 {
            return Err(Error::CashBerichtUngueltig);
        }
        let date = match convert_date(fields[2].as_str()) {
            Ok(d) => d,
            Err(e) => {
                return Err(e);
            },
        };
        let amount = match &parsed[3] {
            Ok(v) => *v,
            Err(m) => {
                return Err(Error::ParseFloatFailed(m.clone()));
            },
        };
        let total = match &parsed[4] {
            Ok(v) => *v,
            Err(m) => {
                return Err(Error::ParseFloatFailed(m.clone()));
            },
        };
        Ok(CashFlow { account: fields[0].clone(), curr: fields[1].clone(), date, amount, total })
    }
}

/// Reads a cash report: a header row, which is not used, then records of
/// the header's length, up to the first one that does not read; that
/// record's error comes with them.
pub fn read_cash_report(bytes: &[u8]) -> (r: CsvRecords)
    ensures
        holds_read(r, read_until_error(csv_table_of(bytes@).1)),
{
    read_table(bytes).1
}

} // verus!
