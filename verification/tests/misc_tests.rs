use gibtax::cash::CashFlow;
use gibtax::error::Error;
use gibtax::report::{gesamt_eur_zinsen, ZinsRow};
use gibtax::settings::{Settings, YearlySettings};
use std::collections::HashMap;

fn rec(v: &[&str]) -> Vec<String> {
    v.iter().map(|s| s.to_string()).collect()
}

fn zins(b: &str, betrag: f64) -> ZinsRow<f64> {
    ZinsRow { waehrung: String::new(), datum: String::new(), beschreibung: b.to_string(), betrag }
}

#[test]
fn total_interest_is_the_first_total_row() {
    let rows = vec![
        zins("USD Guthabenzinsen", 1.0),
        zins("Gesamt Zinsen in EUR", 12.5),
        zins("Gesamt Zinsen in EUR", 99.0),
    ];
    assert_eq!(gesamt_eur_zinsen(&rows), Ok(12.5));
    let without = vec![zins("USD Guthabenzinsen", 1.0), zins("Gesamt Zinsen in USD", 2.0)];
    assert_eq!(gesamt_eur_zinsen(&without), Err(Error::GesamtZinsenNichtGefunden));
}

#[test]
fn settings_give_the_files_of_a_year() {
    let mut jahre = HashMap::new();
    jahre.insert(
        2024,
        YearlySettings { kontoauszug: "k2024.csv".to_string(), cashbericht: "c2024.csv".to_string() },
    );
    let s = Settings {
        fx_rates: "eurofxref-hist.csv".to_string(),
        initial_position: "start.csv".to_string(),
        zwischenergebnisse: "out".to_string(),
        jaehrliche_daten: jahre,
    };
    assert_eq!(s.jahresdaten(2024).map(|y| y.kontoauszug.clone()), Ok("k2024.csv".to_string()));
    assert!(matches!(s.jahresdaten(2023), Err(Error::KontoauszugFehlt(2023))));
}

fn parsed(v: &[String]) -> Vec<Result<f64, String>> {
    v.iter().map(|s| s.parse::<f64>().map_err(|e| e.to_string())).collect()
}

#[test]
fn cash_flow_from_a_record() {
    let r = rec(&["U123", "USD", "2024-01-03", "-100.5", "900"]);
    let c = CashFlow::from_record(&r, &parsed(&r)).unwrap();
    assert_eq!(c.account, "U123");
    assert_eq!(c.curr, "USD");
    assert_eq!(c.date, 19725);
    assert_eq!(c.amount, -100.5);
    assert_eq!(c.total, 900.0);
}

#[test]
fn cash_flow_errors() {
    let short = rec(&["U123", "USD", "2024-01-03", "1"]);
    assert!(matches!(CashFlow::from_record(&short, &parsed(&short)), Err(Error::CashBerichtUngueltig)));
    let bad_date = rec(&["U123", "USD", "2024-01-32", "1", "2"]);
    assert!(matches!(CashFlow::from_record(&bad_date, &parsed(&bad_date)), Err(Error::FailedToParseDate)));
    let bad_amount = rec(&["U123", "USD", "2024-01-03", "x", "2"]);
    assert!(matches!(
        CashFlow::from_record(&bad_amount, &parsed(&bad_amount)),
        Err(Error::ParseFloatFailed(m)) if m == "invalid float literal"
    ));
    let bad_total = rec(&["U123", "USD", "2024-01-03", "1", ""]);
    assert!(matches!(
        CashFlow::from_record(&bad_total, &parsed(&bad_total)),
        Err(Error::ParseFloatFailed(m)) if m == "cannot parse float from empty string"
    ));
}
