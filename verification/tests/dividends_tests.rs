use gibtax::dividends::{berechne_dividenden, DividendeRow};
use gibtax::error::Error;
use gibtax::fx::{FxQuote, FxRates};
use gibtax::instruments::{FinanzInstrumentInfos, FinanzinstrumentRow};

fn rec(v: &[&str]) -> Vec<String> {
    v.iter().map(|s| s.to_string()).collect()
}

fn instrument(symbol: &str, isin: &str, typ: &str) -> FinanzinstrumentRow {
    FinanzinstrumentRow {
        vermoegenswert_kategorie: "Aktien".to_string(),
        symbol: symbol.to_string(),
        beschreibung: symbol.to_string(),
        conid: String::new(),
        wertpapier_id: isin.to_string(),
        basiswert: String::new(),
        boerse: String::new(),
        typ: typ.to_string(),
        code: String::new(),
    }
}

fn instruments() -> FinanzInstrumentInfos {
    FinanzInstrumentInfos {
        infos: vec![
            instrument("AAPL", "US0378331005", "COMMON"),
            instrument("VWRL", "IE00B3RBWM25", "ETF"),
        ],
    }
}

fn rates() -> FxRates<f64> {
    let mut r = FxRates::from_headers(&rec(&["Date", "USD"]));
    let row = rec(&["2024-01-02", "1.1"]);
    let values: Vec<Option<f64>> = row.iter().map(|s| s.parse().ok()).collect();
    r.add_record(&row, &values).unwrap();
    r
}

fn div(w: &str, d: &str, b: &str, betrag: f64) -> DividendeRow<f64> {
    DividendeRow { waehrung: w.to_string(), datum: d.to_string(), beschreibung: b.to_string(), betrag }
}

#[test]
fn dividends_are_split_into_shares_and_etfs() {
    let rows = vec![
        div("USD", "2024-02-15", "AAPL(US0378331005) Bardividende USD 0.24 pro Aktie", 2.4),
        div("EUR", "2024-03-20", "VWRL(IE00B3RBWM25) Bardividende EUR 0.5 pro Aktie", 5.0),
        div("USD", "2024-05-16", "AAPL(US0378331005) Bardividende USD 0.25 pro Aktie", 2.5),
    ];
    let f = rates();
    let (aktien, etfs) = berechne_dividenden(&rows, &f, &instruments()).unwrap();
    assert_eq!(aktien.len(), 2);
    assert_eq!(etfs.len(), 1);
    assert_eq!(aktien[1].betrag, 2.5);
    assert_eq!(aktien[1].date, "2024-05-16");
    assert!(!aktien[0].is_etf);
    assert!(matches!(aktien[0].fx, FxQuote::PerEuro(v) if *v == 1.1));
    assert!(etfs[0].is_etf);
    assert!(matches!(etfs[0].fx, FxQuote::Euro));
    assert_eq!(etfs[0].waehrung, "EUR");
}

#[test]
fn dividend_errors_come_in_order() {
    let f = rates();
    let bad_date = vec![div("USD", "2024-02-30", "AAPL(US0378331005) x", 1.0)];
    assert!(matches!(berechne_dividenden(&bad_date, &f, &instruments()), Err(Error::FailedToParseDate)));
    let no_rate = vec![div("USD", "2023-12-29", "AAPL(US0378331005) x", 1.0)];
    assert!(matches!(
        berechne_dividenden(&no_rate, &f, &instruments()),
        Err(Error::CurrencyNotFound(c)) if c == "USD"
    ));
    let no_ids = vec![div("EUR", "2024-02-15", "Dividende", 1.0)];
    assert!(matches!(
        berechne_dividenden(&no_ids, &f, &instruments()),
        Err(Error::FailedToParseSymbolsFromDescription)
    ));
    let unknown = vec![div("EUR", "2024-02-15", "SAP(DE0007164600) Dividende", 1.0)];
    assert!(matches!(
        berechne_dividenden(&unknown, &f, &instruments()),
        Err(Error::SymbolNotFound(s)) if s == "SAP"
    ));
}

#[test]
fn dividend_found_by_isin_when_the_symbol_differs() {
    let f = rates();
    let rows = vec![div("EUR", "2024-02-15", "VWRLD(IE00B3RBWM25) Dividende", 1.0)];
    let (aktien, etfs) = berechne_dividenden(&rows, &f, &instruments()).unwrap();
    assert_eq!(aktien.len(), 0);
    assert_eq!(etfs.len(), 1);
}

#[test]
fn a_failing_dividend_comes_before_a_later_short_date() {
    let f = rates();
    let rows = vec![
        div("EUR", "2024-02-15", "SAP(DE0007164600) Dividende", 1.0),
        div("EUR", "2024-2", "AAPL(US0378331005) Dividende", 1.0),
    ];
    assert!(matches!(
        berechne_dividenden(&rows, &f, &instruments()),
        Err(Error::SymbolNotFound(s)) if s == "SAP"
    ));
}
