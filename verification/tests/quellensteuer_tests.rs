use gibtax::error::Error;
use gibtax::fx::{FxQuote, FxRates};
use gibtax::instruments::{FinanzInstrumentInfos, FinanzinstrumentRow};
use gibtax::quellensteuer::{get_quellensteuer, QuellensteuerRow};

fn rec(v: &[&str]) -> Vec<String> {
    v.iter().map(|s| s.to_string()).collect()
}

fn instrument(symbol: &str, isin: &str, typ: &str) -> FinanzinstrumentRow {
    FinanzinstrumentRow {
        vermoegenswert_kategorie: "Aktien".to_string(),
        symbol: symbol.to_string(),
        beschreibung: symbol.to_string(),
        conid: String::new(),
        wertpapier_id: isin.to_string(),
        basiswert: String::new(),
        boerse: String::new(),
        typ: typ.to_string(),
        code: String::new(),
    }
}

fn instruments() -> FinanzInstrumentInfos {
    FinanzInstrumentInfos {
        infos: vec![
            instrument("AAPL", "US0378331005", "COMMON"),
            instrument("SAP", "DE0007164600", "COMMON"),
            instrument("VWRL", "IE00B3RBWM25", "ETF"),
        ],
    }
}

fn rates() -> FxRates<f64> {
    let mut r = FxRates::from_headers(&rec(&["Date", "USD"]));
    let row = rec(&["2024-01-02", "1.1"]);
    let values: Vec<Option<f64>> = row.iter().map(|s| s.parse().ok()).collect();
    r.add_record(&row, &values).unwrap();
    r
}

fn tax(w: &str, d: &str, b: &str, betrag: f64) -> QuellensteuerRow<f64> {
    QuellensteuerRow {
        waehrung: w.to_string(),
        datum: d.to_string(),
        beschreibung: b.to_string(),
        betrag,
        code: String::new(),
    }
}

#[test]
fn withholding_tax_is_split_by_kind_and_jurisdiction() {
    let rows = vec![
        tax("USD", "2024-02-15", "AAPL(US0378331005) Bardividende - US Steuer", -0.36),
        tax("EUR", "2024-05-20", "SAP(DE0007164600) Bardividende - DE Steuer", -5.5),
        tax("USD", "2024-05-16", "AAPL(US0378331005) Cash Dividend - US TAX", -0.38),
        tax("EUR", "2024-03-20", "VWRL(IE00B3RBWM25) Dividende - IE Steuer", -0.1),
    ];
    let f = rates();
    let (aktien, etfs) = get_quellensteuer(&rows, &f, &instruments()).unwrap();
    let us = aktien.per_jurisdiction().get("US").unwrap();
    assert_eq!(us.len(), 2);
    assert_eq!(us[0].betrag, -0.36);
    assert_eq!(us[1].datum, "2024-05-16");
    assert!(matches!(us[0].fx, FxQuote::PerEuro(v) if *v == 1.1));
    let de = aktien.per_jurisdiction().get("DE").unwrap();
    assert_eq!(de.len(), 1);
    assert!(matches!(de[0].fx, FxQuote::Euro));
    assert!(aktien.per_jurisdiction().get("IE").is_none());
    assert_eq!(etfs.per_jurisdiction().get("IE").map(|v| v.len()), Some(1));
    assert_eq!(etfs.per_jurisdiction().entries().len(), 1);
}

#[test]
fn withholding_tax_without_jurisdiction_is_an_error() {
    let f = rates();
    let d = "AAPL(US0378331005) Bardividende";
    let rows = vec![tax("USD", "2024-02-15", d, -0.36)];
    assert!(matches!(
        get_quellensteuer(&rows, &f, &instruments()),
        Err(Error::FailedToParseJurisdiction(s)) if s == d
    ));
    let rows = vec![tax("USD", "2024-02-15", "Steuer - US Steuer", -0.36)];
    assert!(matches!(
        get_quellensteuer(&rows, &f, &instruments()),
        Err(Error::FailedToParseSymbolsFromDescription)
    ));
    let rows = vec![tax("CHF", "2024-02-15", "AAPL(US0378331005) x - US Steuer", -0.36)];
    assert!(matches!(
        get_quellensteuer(&rows, &f, &instruments()),
        Err(Error::CurrencyNotFound(c)) if c == "CHF"
    ));
}
