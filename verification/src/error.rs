//! The errors of the library.

use vstd::prelude::*;

verus! {

/// Everything that can go wrong while reading statements and computing the
/// tax figures. Errors that come from reading files carry the message of the
/// underlying error.
#[derive(Debug, PartialEq, Eq)]
pub enum Error {
    InvalidBuyTransaction,
    InvalidSellTransaction,
    CurrencyNotFound(String),
    Csv(String),
    RecordNotFound,
    ParsingNumberFailed,
    FailedToParseDate,
    FailedToConvertDate,
    SymbolNotFound(String),
    InvalidMonthName(String),
    ParseIntError(String),
    DateNotFound,
    FailedToParseSymbolsFromDescription,
    FailedToParseKapitalmassnahme(String),
    FailedToParseJurisdiction(String),
    LeereMenge,
    FifoIstNeuer,
    KeineLeerverkaeufe,
    KontoauszugFehlt(u32),
    GesamtZinsenNichtGefunden,
    DesirialisationFehlgeschlagen(String),
    CashBerichtUngueltig,
    ParseFloatFailed(String),
    IoError(String),
    EtfEndPositionUngleichEins(String),
    PassendeEtfStartPositionFehlt(String),
}

} // verus!
