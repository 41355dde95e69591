use gibtax::error::Error;
use gibtax::parser::{parse_asset_ids, parse_jurisdiction};

#[test]
fn asset_ids_from_a_dividend_description() {
    assert_eq!(
        parse_asset_ids("AAPL(US0378331005) Bardividende USD 0.24 pro Aktie (Gewöhnliche Dividende)"),
        Ok(("AAPL".to_string(), "US0378331005".to_string()))
    );
    assert_eq!(
        parse_asset_ids("BRK.B  (US0846707026) Dividende"),
        Ok(("BRK.B".to_string(), "US0846707026".to_string()))
    );
}

#[test]
fn asset_ids_need_an_isin_in_parentheses() {
    assert_eq!(parse_asset_ids("AAPL US0378331005"), Err(Error::FailedToParseSymbolsFromDescription));
    assert_eq!(parse_asset_ids("AAPL(us0378331005)"), Err(Error::FailedToParseSymbolsFromDescription));
    assert_eq!(parse_asset_ids(""), Err(Error::FailedToParseSymbolsFromDescription));
}

#[test]
fn jurisdiction_from_german_and_english_descriptions() {
    assert_eq!(
        parse_jurisdiction("AAPL(US0378331005) Bardividende USD 0.24 pro Aktie - US Steuer"),
        Ok("US".to_string())
    );
    assert_eq!(parse_jurisdiction("SAP(DE0007164600) Cash Dividend - DE TAX"), Ok("DE".to_string()));
}

#[test]
fn jurisdiction_missing_is_an_error() {
    let d = "Quellensteuer ohne Land";
    assert_eq!(parse_jurisdiction(d), Err(Error::FailedToParseJurisdiction(d.to_string())));
    assert_eq!(
        parse_jurisdiction("X - US Steuer "),
        Err(Error::FailedToParseJurisdiction("X - US Steuer ".to_string()))
    );
}
