use gibtax::error::Error;
use gibtax::fx::{FxQuote, FxRates, FxTable};

fn rec(v: &[&str]) -> Vec<String> {
    v.iter().map(|s| s.to_string()).collect()
}

fn parsed(v: &[String]) -> Vec<Option<f64>> {
    v.iter().map(|s| s.parse::<f64>().ok()).collect()
}

fn rates() -> FxRates<f64> {
    let headers = rec(&["Date", "USD", "JPY", ""]);
    let mut r = FxRates::from_headers(&headers);
    for row in [
        rec(&["2024-01-02", "1.0956", "155.71", ""]),
        rec(&["2024-01-03", "1.0919", "N/A", ""]),
        rec(&["2024-01-05", "1.0921", "158.93", ""]),
    ] {
        let values = parsed(&row);
        assert_eq!(r.add_record(&row, &values), Ok(()));
    }
    r
}

#[test]
fn table_rate_holds_until_the_next_one() {
    let mut t: FxTable<f64> = FxTable::new();
    t.insert(10, 1.5);
    t.insert(20, 2.5);
    t.insert(15, 2.0);
    assert_eq!(t.get_fx_rate(9), None);
    assert_eq!(t.get_fx_rate(10), Some(&1.5));
    assert_eq!(t.get_fx_rate(14), Some(&1.5));
    assert_eq!(t.get_fx_rate(15), Some(&2.0));
    assert_eq!(t.get_fx_rate(100), Some(&2.5));
    t.insert(15, 3.0);
    assert_eq!(t.get_fx_rate(16), Some(&3.0));
}

#[test]
fn euro_is_its_own_rate() {
    let r = rates();
    assert!(matches!(r.get_fx_rate(0, "EUR"), Ok(FxQuote::Euro)));
}

#[test]
fn rate_of_a_day_without_publication_is_the_last_one() {
    let r = rates();
    // 2024-01-04 is day 19726: the rate of 2024-01-03 holds.
    assert!(matches!(r.get_fx_rate(19726, "USD"), Ok(FxQuote::PerEuro(v)) if *v == 1.0919));
    // N/A on 2024-01-03 for JPY: the rate of 2024-01-02 holds.
    assert!(matches!(r.get_fx_rate(19725, "JPY"), Ok(FxQuote::PerEuro(v)) if *v == 155.71));
    assert!(matches!(r.get_fx_rate(19727, "JPY"), Ok(FxQuote::PerEuro(v)) if *v == 158.93));
}

#[test]
fn unknown_currency_or_day_before_the_first_rate_is_an_error() {
    let r = rates();
    assert!(matches!(r.get_fx_rate(19726, "CHF"), Err(Error::CurrencyNotFound(c)) if c == "CHF"));
    assert!(matches!(r.get_fx_rate(19723, "USD"), Err(Error::CurrencyNotFound(c)) if c == "USD"));
}

#[test]
fn record_with_a_bad_cell_is_refused_and_changes_nothing() {
    let mut r = rates();
    let row = rec(&["2024-01-08", "abc", "160.0", ""]);
    let values = parsed(&row);
    assert_eq!(r.add_record(&row, &values), Err(Error::ParsingNumberFailed));
    assert!(matches!(r.get_fx_rate(19730, "JPY"), Ok(FxQuote::PerEuro(v)) if *v == 158.93));
}

#[test]
fn record_with_a_bad_date_or_no_cells_is_refused() {
    let mut r = rates();
    let row = rec(&["2024-13-01", "1.0", "1.0", ""]);
    let values = parsed(&row);
    assert_eq!(r.add_record(&row, &values), Err(Error::FailedToParseDate));
    let empty: Vec<String> = Vec::new();
    assert_eq!(r.add_record(&empty, &Vec::new()), Err(Error::RecordNotFound));
}
