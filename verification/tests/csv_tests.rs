use gibtax::cash::read_cash_report;
use gibtax::csv_input::read_records;
use gibtax::error::Error;
use gibtax::fx::{FxQuote, FxRates};
use gibtax::groups::{data_rows, load_groups};

fn rec(v: &[&str]) -> Vec<String> {
    v.iter().map(|s| s.to_string()).collect()
}

#[test]
fn export_bytes_are_grouped_by_table() {
    let bytes = b"Statement,Header,Feldname,Feldwert\n\
Statement,Data,Title,\"Kontoauszug, 2024\"\n\
 Konto ,Data,Name,Muster\n\
x\n\
,Data,ignored\n\
Statement,Data,Period,\"Januar 1, 2024 - Dezember 31, 2024\"\n";
    let g = load_groups(bytes).unwrap();
    assert_eq!(g.tables.len(), 2);
    assert_eq!(g.tables[0].name, "Statement");
    assert_eq!(g.tables[0].rows.len(), 3);
    assert_eq!(g.tables[0].rows[0].kind, "Header");
    let rows = data_rows(&g, "Statement");
    assert_eq!(rows.len(), 2);
    assert_eq!(*rows[0], rec(&["Title", "Kontoauszug, 2024"]));
    assert_eq!(*rows[1], rec(&["Period", "Januar 1, 2024 - Dezember 31, 2024"]));
    assert_eq!(*data_rows(&g, "Konto")[0], rec(&["Name", "Muster"]));
}

#[test]
fn export_with_a_record_that_is_not_text_fails() {
    let bytes: &[u8] = b"Statement,Data,Title,ok\nStatement,Data,Bad,\xff\n";
    match load_groups(bytes) {
        Err(Error::Csv(m)) => assert!(!m.is_empty()),
        _ => panic!("expected a CSV error"),
    }
    let read = read_records(bytes);
    assert_eq!(read.records, vec![rec(&["Statement", "Data", "Title", "ok"])]);
    assert!(matches!(read.error, Some(Error::Csv(_))));
}

#[test]
fn empty_export_has_no_tables() {
    let g = load_groups(b"").unwrap();
    assert!(g.tables.is_empty());
}

#[test]
fn rate_file_gives_currencies_then_records() {
    let bytes = b"Date,USD,JPY,\n2024-01-02,1.0956,155.71,\n2024-01-03,1.0919,N/A,\n";
    let (mut rates, read): (FxRates<f64>, _) = FxRates::read_rate_file(bytes).unwrap();
    assert!(read.error.is_none());
    assert_eq!(read.records.len(), 2);
    assert_eq!(read.records[1], rec(&["2024-01-03", "1.0919", "N/A", ""]));
    for r in &read.records {
        let values: Vec<Option<f64>> = r.iter().map(|s| s.parse().ok()).collect();
        assert_eq!(rates.add_record(r, &values), Ok(()));
    }
    assert!(matches!(rates.get_fx_rate(19725, "JPY"), Ok(FxQuote::PerEuro(v)) if *v == 155.71));
    assert!(matches!(rates.get_fx_rate(19725, "USD"), Ok(FxQuote::PerEuro(v)) if *v == 1.0919));
    assert_eq!(rates.get_fx_rate(19725, "GBP").err(), Some(Error::CurrencyNotFound("GBP".to_string())));
}

#[test]
fn rate_file_stops_at_a_record_of_another_length() {
    let bytes = b"Date,USD\n2024-01-02,1.0956\n2024-01-03\n2024-01-04,1.1\n";
    let (_rates, read): (FxRates<f64>, _) = FxRates::read_rate_file(bytes).unwrap();
    assert_eq!(read.records, vec![rec(&["2024-01-02", "1.0956"])]);
    assert!(matches!(read.error, Some(Error::Csv(_))));
}

#[test]
fn rate_file_header_must_be_text() {
    let bytes: &[u8] = b"Date,US\xffD\n2024-01-02,1.0956\n";
    assert!(matches!(FxRates::<f64>::read_rate_file(bytes), Err(Error::Csv(_))));
}

#[test]
fn cash_report_skips_its_header() {
    let bytes: &[u8] = b"Konto,W\xe4hrung,Datum,Betrag,Saldo\nU1,EUR,2024-03-01,10.5,110.5\nU1,USD,2024-03-02,-1,9\n";
    let read = read_cash_report(bytes);
    assert!(read.error.is_none());
    assert_eq!(
        read.records,
        vec![rec(&["U1", "EUR", "2024-03-01", "10.5", "110.5"]), rec(&["U1", "USD", "2024-03-02", "-1", "9"])]
    );
}

#[test]
fn cash_report_stops_at_a_record_of_another_length() {
    let read = read_cash_report(b"a,b,c,d,e\nU1,EUR,2024-03-01,1,2\nU1,EUR\n");
    assert_eq!(read.records, vec![rec(&["U1", "EUR", "2024-03-01", "1", "2"])]);
    assert!(matches!(read.error, Some(Error::Csv(_))));
}
