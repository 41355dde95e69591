use gibtax::error::Error;
use gibtax::groups::group_records;
use gibtax::instruments::FinanzInstrumentInfos;
use gibtax::kontoauszug::parse_kontoauszug;

fn rec(v: &[&str]) -> Vec<String> {
    v.iter().map(|s| s.to_string()).collect()
}

fn records() -> Vec<Vec<String>> {
    vec![
        rec(&["Statement", "Header", "Feldname", "Feldwert"]),
        rec(&["Statement", "Data", "Period", "Januar 1, 2024 - Dezember 31, 2024"]),
        rec(&["Nettovermögenswert", "Header", "Anlageklasse", "Vorher"]),
        rec(&["Nettovermögenswert", "Data", "Aktien", "100"]),
        rec(&["Nettovermögenswert", "Data", "Gesamt", "100"]),
        rec(&["Nettovermögenswert", "Header", "Zeitgewichtete Rendite"]),
        rec(&["Nettovermögenswert", "Data", "15.8"]),
        rec(&["Offene Positionen", "Data", "Summary", "Aktien", "USD", "AAPL", "10"]),
        rec(&["Offene Positionen", "Data", "Lot", "Aktien", "USD", "AAPL", "10"]),
        rec(&["Transaktionen", "Data", "Order", "Aktien", "USD", "AAPL", "2024-01-02, 10:00:00", "5"]),
        rec(&["Transaktionen", "Data", "Order", "Devisen", "EUR", "EUR.USD", "2024-01-02, 11:00:00", "-100"]),
        rec(&["Transaktionen", "SubTotal", "", "Aktien", "USD", "AAPL"]),
        rec(&["Dividenden", "Data", "USD", "2024-02-15", "AAPL(US0378331005) Dividende", "2.4"]),
        rec(&["Dividenden", "Data", "Gesamt", "", "", "2.4"]),
        rec(&[
            "Informationen zum Finanzinstrument", "Header", "Vermögenswertkategorie", "Symbol",
            "Beschreibung", "Conid", "Wertpapier-ID", "Basiswert", "Börse", "Multiplikator", "Typ",
            "Code",
        ]),
        rec(&[
            "Informationen zum Finanzinstrument", "Data", "Aktien", "AAPL", "APPLE INC", "265598",
            "US0378331005", "AAPL", "NASDAQ", "1", "COMMON", "",
        ]),
        rec(&["Codes", "Data", "O", "Eröffnung", "", ""]),
        rec(&["Gesamt-G&V des Kontoauszugszeitraums", "", "", "", "", "", "", "", "", "", "", "", "1234.5"]),
    ]
}

#[test]
fn statement_tables_are_taken_apart() {
    let recs = records();
    let g = group_records(&recs);
    let k = parse_kontoauszug(&g);
    assert_eq!(k.statement.len(), 1);
    assert_eq!(k.nettovermoegenswert.len(), 1);
    assert_eq!(k.nettovermoegenswert[0][0], "Aktien");
    assert_eq!(k.zeitgewichtete_rendite.len(), 1);
    assert_eq!(k.zeitgewichtete_rendite[0][0], "15.8");
    assert_eq!(k.offene_positionen.len(), 1);
    assert_eq!(k.transaktionen.len(), 1);
    assert_eq!(k.transaktionen[0][3], "AAPL");
    assert_eq!(k.devisen_transaktionen.len(), 1);
    assert_eq!(k.dividenden.len(), 1);
    assert_eq!(k.finanzinstrumente.infos.len(), 1);
    assert_eq!(k.finanzinstrumente.infos[0].wertpapier_id, "US0378331005");
    assert_eq!(k.finanzinstrumente.is_etf("AAPL", None), Ok(false));
    assert_eq!(k.codes.len(), 1);
    assert_eq!(k.codes[0].bedeutung, "Eröffnung");
    assert_eq!(k.gesamt_guv.map(|f| f[10].clone()), Some("1234.5".to_string()));
    assert_eq!(k.kapitalmassnahmen.len(), 0);
}

#[test]
fn statement_without_instrument_table_has_no_instruments() {
    let recs: Vec<Vec<String>> = records()
        .into_iter()
        .filter(|r| r[0] != "Informationen zum Finanzinstrument")
        .collect();
    let g = group_records(&recs);
    let k = parse_kontoauszug(&g);
    assert_eq!(k.finanzinstrumente.infos.len(), 0);
    assert_eq!(k.transaktionen.len(), 1);
}

#[test]
fn empty_statement_has_empty_tables() {
    let g = group_records(&Vec::new());
    let k = parse_kontoauszug(&g);
    assert!(k.statement.is_empty());
    assert!(k.zinsen.is_empty());
    assert!(k.finanzinstrumente.infos.is_empty());
    assert!(k.gesamt_guv.is_none());
}

#[test]
fn net_asset_tables_without_other_tables() {
    let recs = vec![
        rec(&["Nettovermögenswert", "Header", "Kategorie", "A", "B", "C", "D", "E"]),
        rec(&["Nettovermögenswert", "Data", "Aktien", "100", "120", "0", "120", "20"]),
        rec(&["Nettovermögenswert", "Data", "Gesamt", "100", "120", "0", "120", "20"]),
        rec(&["Nettovermögenswert", "Header", "Zeitgewichtete Rendite"]),
        rec(&["Nettovermögenswert", "Data", "15.5"]),
    ];
    let g = group_records(&recs);
    let k = parse_kontoauszug(&g);
    assert_eq!(k.nettovermoegenswert.len(), 1);
    assert_eq!(k.nettovermoegenswert[0][1], "100");
    assert_eq!(k.zeitgewichtete_rendite.len(), 1);
    assert_eq!(k.zeitgewichtete_rendite[0][0], "15.5");
}

#[test]
fn instruments_are_read_by_position() {
    let recs = vec![
        rec(&["Informationen zum Finanzinstrument", "Header", "Vermögenswertkategorie", "Symbol"]),
        rec(&[
            "Informationen zum Finanzinstrument", "Data", "Aktien", "EUNL, IWDA", "ISHARES CORE MSCI WORLD",
            "123", "IE00B4L5Y983", "", "IBIS", "1", "ETF", "",
        ]),
    ];
    let g = group_records(&recs);
    let k = parse_kontoauszug(&g);
    let i = &k.finanzinstrumente;
    assert_eq!(i.infos[0].beschreibung, "ISHARES CORE MSCI WORLD");
    assert_eq!(i.infos[0].typ, "ETF");
    assert_eq!(i.is_etf("IWDA", None), Ok(true));
    assert_eq!(i.is_etf("X", Some("IE00B4L5Y983")), Ok(true));
    assert_eq!(i.is_etf("EUN", None), Err(Error::SymbolNotFound("EUN".to_string())));
}

#[test]
fn instruments_by_header_need_a_header() {
    let recs = vec![
        rec(&["Informationen zum Finanzinstrument", "Header", "Symbol", "Typ", "Wertpapier-ID"]),
        rec(&["Informationen zum Finanzinstrument", "Data", "EUNL, IWDA", "ETF", "IE00B4L5Y983"]),
    ];
    let g = group_records(&recs);
    let i = FinanzInstrumentInfos::parse_from_groups(&g).unwrap();
    assert_eq!(i.infos[0].beschreibung, "");
    assert_eq!(i.is_etf("IWDA", None), Ok(true));
    assert_eq!(
        i.get_isin_and_name_by_symbol("EUNL"),
        Ok(("IE00B4L5Y983".to_string(), String::new()))
    );
    let g = group_records(&vec![rec(&["Informationen zum Finanzinstrument", "Data", "X"])]);
    assert!(matches!(FinanzInstrumentInfos::parse_from_groups(&g), Err(Error::RecordNotFound)));
}
