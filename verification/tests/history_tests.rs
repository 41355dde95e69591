use gibtax::error::Error;
use gibtax::fx::{FxQuote, FxRates};
use gibtax::groups::group_records;
use gibtax::history::{
    parse_transaction_history, BuySell, TransactionHistoryData, TransactionHistoryRow,
};
use gibtax::text::number_text;

fn rec(v: &[&str]) -> Vec<String> {
    v.iter().map(|s| s.to_string()).collect()
}

fn num(s: &str) -> Option<f64> {
    number_text(s, true).and_then(|t| t.parse().ok())
}

fn history(rows: Vec<Vec<String>>) -> TransactionHistoryData<f64> {
    let mut recs = vec![
        rec(&["Statement", "Data", "Title", "Transaction History"]),
        rec(&["Summary", "Data", "Base Currency", "EUR"]),
    ];
    recs.extend(rows);
    let g = group_records(&recs);
    let t = parse_transaction_history(&g);
    let transactions = t
        .transactions
        .iter()
        .map(|f| {
            TransactionHistoryRow::from_fields(
                f,
                num(&f[5]),
                num(&f[6]),
                num(&f[8]),
                num(&f[9]),
                num(&f[10]).unwrap_or(0.0),
            )
        })
        .collect();
    TransactionHistoryData { statement: t.statement, summary: t.summary, transactions }
}

fn rates() -> FxRates<f64> {
    let mut r = FxRates::from_headers(&rec(&["Date", "USD"]));
    let row = rec(&["2024-01-02", "1.25"]);
    let values: Vec<Option<f64>> = row.iter().map(|s| s.parse().ok()).collect();
    r.add_record(&row, &values).unwrap();
    r
}

fn th(date: &str, typ: &str, symbol: &str, qty: &str, price: &str, cur: &str) -> Vec<String> {
    rec(&[
        "Transaction History", "Data", date, "U***1", "x", typ, symbol, qty, price, cur, "-", "-",
        "0",
    ])
}

#[test]
fn trades_of_a_history_with_their_day_and_rate() {
    let h = history(vec![
        th("2024-01-02", "Buy", "AAPL", "10", "185.5", "USD"),
        th("2024-01-03", "Credit Interest", "-", "-", "-", "-"),
        th("2024-01-04", "Sell", "AAPL", "-4", "190", "USD"),
    ]);
    assert_eq!(h.statement.len(), 1);
    assert_eq!(h.summary[0].feldwert, "EUR");
    assert_eq!(h.transactions.len(), 3);
    assert_eq!(h.transactions[1].symbol, None);
    assert_eq!(h.first_unsliceable_trade(), None);
    let f = rates();
    let t = h.extract_purchase_infos(&f).unwrap();
    assert_eq!(t.len(), 2);
    assert_eq!(t[0].buy_sell, BuySell::Buy);
    assert_eq!(t[0].timestamp, 19724);
    assert_eq!(t[0].quantity, 10.0);
    assert!(matches!(t[0].fx, FxQuote::PerEuro(v) if *v == 1.25));
    assert_eq!(t[1].buy_sell, BuySell::Sell);
    assert_eq!(t[1].quantity, -4.0);
    assert_eq!(t[1].symbol, "AAPL");
}

#[test]
fn incomplete_trades_are_errors() {
    let f = rates();
    let h = history(vec![th("2024-01-02", "Sell", "AAPL", "-", "190", "USD")]);
    assert!(matches!(h.extract_purchase_infos(&f), Err(Error::InvalidSellTransaction)));
    let h = history(vec![th("2024-01-02", "Buy", "-", "1", "190", "USD")]);
    assert!(matches!(h.extract_purchase_infos(&f), Err(Error::InvalidBuyTransaction)));
}

#[test]
fn trade_in_a_currency_without_rate_is_an_error() {
    let f = rates();
    let h = history(vec![th("2024-01-02", "Buy", "SAP", "1", "190", "CHF")]);
    assert!(matches!(h.extract_purchase_infos(&f), Err(Error::CurrencyNotFound(c)) if c == "CHF"));
    let h = history(vec![th("2024-01-02", "Buy", "SAP", "1", "190", "EUR")]);
    assert!(matches!(h.extract_purchase_infos(&f).unwrap()[0].fx, FxQuote::Euro));
}

#[test]
fn short_trade_dates_are_flagged() {
    let h = history(vec![
        th("2024-01-02", "Credit Interest", "-", "-", "-", "-"),
        th("2024-1-2", "Interest", "-", "-", "-", "-"),
        th("2024-1-2", "Buy", "SAP", "1", "190", "EUR"),
    ]);
    assert_eq!(h.first_unsliceable_trade(), Some(2));
}

#[test]
fn an_incomplete_trade_before_a_short_date_is_its_error() {
    let f = rates();
    let h = history(vec![
        th("2024-01-02", "Sell", "AAPL", "-", "190", "USD"),
        th("2024-1-2", "Buy", "SAP", "1", "190", "EUR"),
    ]);
    assert_eq!(h.first_unsliceable_trade(), Some(1));
    assert!(matches!(h.extract_purchase_infos(&f), Err(Error::InvalidSellTransaction)));
}
