use gibtax::error::Error;
use gibtax::instruments::{FinanzInstrumentInfos, FinanzinstrumentRow};
use gibtax::keyed::KeyedLists;
use gibtax::quellensteuer::QuellensteuerPerJurisdiktion;
use gibtax::vorabpauschale::{EtfPosition, EtfPositionen, FondsTyp, Vorabpauschalen};

fn instrument(symbol: &str, isin: &str, name: &str, typ: &str) -> FinanzinstrumentRow {
    FinanzinstrumentRow {
        vermoegenswert_kategorie: "Aktien".to_string(),
        symbol: symbol.to_string(),
        beschreibung: name.to_string(),
        conid: "1".to_string(),
        wertpapier_id: isin.to_string(),
        basiswert: String::new(),
        boerse: String::new(),
        typ: typ.to_string(),
        code: String::new(),
    }
}

fn instruments() -> FinanzInstrumentInfos {
    FinanzInstrumentInfos {
        infos: vec![
            instrument("VWRL", "IE00B3RBWM25", "VANGUARD FTSE ALL-WORLD", "ETF"),
            instrument("EUNL, IWDA", "IE00B4L5Y983", "ISHARES CORE MSCI WORLD", "ETF"),
        ],
    }
}

fn pos(menge: f64, eur: f64, monate: u8, div: f64) -> EtfPosition<f64> {
    EtfPosition::new(menge, eur, FondsTyp::Aktien, monate, div)
}

#[test]
fn keyed_lists_append_per_key() {
    let mut k: KeyedLists<u8> = KeyedLists::new();
    k.push("a", 1);
    k.push("b", 2);
    k.push("a", 3);
    assert_eq!(k.get("a"), Some(&vec![1, 3]));
    assert_eq!(k.get("c"), None);
    k.set("b", vec![9]);
    assert_eq!(k.get("b"), Some(&vec![9]));
    assert_eq!(k.remove("a"), Some(vec![1, 3]));
    assert_eq!(k.remove("a"), None);
    assert_eq!(k.entries().len(), 1);
}

#[test]
fn withholding_tax_is_kept_per_jurisdiction() {
    let mut q: QuellensteuerPerJurisdiktion<u32> = QuellensteuerPerJurisdiktion::new();
    q.insert("US".to_string(), 15);
    q.insert("DE".to_string(), 26);
    q.insert("US".to_string(), 10);
    let l = q.per_jurisdiction();
    assert_eq!(l.get("US"), Some(&vec![15, 10]));
    assert_eq!(l.get("DE"), Some(&vec![26]));
    assert_eq!(l.entries()[0].0, "US");
}

#[test]
fn etf_positions_per_symbol() {
    let mut p: EtfPositionen<f64> = EtfPositionen::new();
    p.add_position("VWRL", pos(1.0, 100.0, 12, 0.0));
    p.add_position("VWRL", pos(2.0, 210.0, 6, 0.0));
    assert_eq!(p.get_positionen("VWRL").map(|v| v.len()), Some(2));
    assert!(p.get_positionen("EUNL").is_none());
    assert_eq!(p.get_alle_positionen().len(), 1);
    let old = p.remove_positionen("VWRL").unwrap();
    p.set_positionen("VWRL2", old);
    assert!(p.get_positionen("VWRL").is_none());
    assert_eq!(p.get_positionen("VWRL2").map(|v| v.len()), Some(2));
}

#[test]
fn lump_sum_facts_pair_each_start_position_with_the_end() {
    let mut start: EtfPositionen<f64> = EtfPositionen::new();
    start.add_position("VWRL", pos(1.0, 100.0, 12, 1.5));
    start.add_position("VWRL", pos(2.0, 210.0, 6, 0.0));
    let mut ende: EtfPositionen<f64> = EtfPositionen::new();
    ende.add_position("VWRL", EtfPosition::new(3.0, 330.0, FondsTyp::Mixed, 12, 0.0));
    ende.add_position("IWDA", pos(0.0, 0.0, 0, 0.0));
    ende.set_positionen("IWDA", Vec::new());
    let v = Vorabpauschalen::sammle_vorabpauschalen_infos(&start, &ende, &instruments(), 2.29)
        .unwrap();
    assert_eq!(v.basis_rate, 2.29);
    assert_eq!(v.pauschalen_infos.len(), 2);
    let i = &v.pauschalen_infos[0];
    assert_eq!(i.symbol, "VWRL");
    assert_eq!(i.isin, "IE00B3RBWM25");
    assert_eq!(i.name, "VANGUARD FTSE ALL-WORLD");
    assert_eq!(i.start_wert, 100.0);
    assert_eq!(i.end_wert, 330.0);
    assert_eq!(i.fonds_typ, FondsTyp::Mixed);
    assert_eq!(i.dividenden, 1.5);
    assert_eq!(i.monate, 12);
    assert_eq!(v.pauschalen_infos[1].start_wert, 210.0);
    assert_eq!(v.pauschalen_infos[1].monate, 6);
}

#[test]
fn lump_sum_needs_one_end_position() {
    let mut start: EtfPositionen<f64> = EtfPositionen::new();
    start.add_position("VWRL", pos(1.0, 100.0, 12, 0.0));
    let mut ende: EtfPositionen<f64> = EtfPositionen::new();
    ende.add_position("VWRL", pos(1.0, 110.0, 12, 0.0));
    ende.add_position("VWRL", pos(1.0, 110.0, 12, 0.0));
    assert!(matches!(
        Vorabpauschalen::sammle_vorabpauschalen_infos(&start, &ende, &instruments(), 2.29),
        Err(Error::EtfEndPositionUngleichEins(s)) if s == "VWRL"
    ));
}

#[test]
fn lump_sum_needs_a_start_position() {
    let start: EtfPositionen<f64> = EtfPositionen::new();
    let mut ende: EtfPositionen<f64> = EtfPositionen::new();
    ende.add_position("IWDA", pos(1.0, 110.0, 12, 0.0));
    assert!(matches!(
        Vorabpauschalen::sammle_vorabpauschalen_infos(&start, &ende, &instruments(), 2.29),
        Err(Error::PassendeEtfStartPositionFehlt(s)) if s == "IWDA"
    ));
}

#[test]
fn lump_sum_needs_a_listed_instrument() {
    let mut start: EtfPositionen<f64> = EtfPositionen::new();
    start.add_position("XYZ", pos(1.0, 100.0, 12, 0.0));
    let mut ende: EtfPositionen<f64> = EtfPositionen::new();
    ende.add_position("XYZ", pos(1.0, 110.0, 12, 0.0));
    assert!(matches!(
        Vorabpauschalen::sammle_vorabpauschalen_infos(&start, &ende, &instruments(), 2.29),
        Err(Error::SymbolNotFound(s)) if s == "XYZ"
    ));
}
