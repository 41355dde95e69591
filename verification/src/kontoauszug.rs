//! The tables of an account statement (Kontoauszug), taken from the grouped
//! records of its CSV export. Tables of text are read into rows of the
//! library; of the tables with amounts, the rows that count are selected,
//! for the caller to read their numbers (`fv`/`opt_f64` of the cells).

use vstd::prelude::*;

use crate::groups::{
    cell_of, data_fields, field_rows, first_row_fields, lemma_selected_all, lemma_selected_filter,
    select_rows, selected, texts, Groups, RowFilter,
};
use crate::instruments::{instrument_at, FinanzInstrumentInfos};
use crate::statement::{
    code_rows, hinweis_rows, key_value_rows_spec, kontoinformation_rows, nav_split,
    netto_aktien_rows, netto_row_of, split_nav_rows, statement_rows, CodeRow, HinweisRow,
    KontoinformationRow, NettoAktienpositionRow, StatementRow,
};

verus! {

/// The tables of a statement. The fields of type `Vec<&Vec<String>>` hold
/// the cells of the rows that count, in file order.
pub struct KontoauszugRows<'a> {
    pub statement: Vec<StatementRow>,
    pub kontoinformation: Vec<KontoinformationRow>,
    pub nettovermoegenswert: Vec<&'a Vec<String>>,
    pub zeitgewichtete_rendite: Vec<&'a Vec<String>>,
    pub veraenderung_nav: Vec<&'a Vec<String>>,
    pub mtm_performance: Vec<&'a Vec<String>>,
    pub performance_uebersicht: Vec<&'a Vec<String>>,
    pub cash_bericht: Vec<&'a Vec<String>>,
    pub offene_positionen: Vec<&'a Vec<String>>,
    pub devisenpositionen: Vec<&'a Vec<String>>,
    pub netto_aktien: Vec<NettoAktienpositionRow>,
    pub transaktionen: Vec<&'a Vec<String>>,
    pub devisen_transaktionen: Vec<&'a Vec<String>>,
    pub transaktionsgebuehren: Vec<&'a Vec<String>>,
    pub kapitalmassnahmen: Vec<&'a Vec<String>>,
    pub ein_auszahlungen: Vec<&'a Vec<String>>,
    pub dividenden: Vec<&'a Vec<String>>,
    pub quellensteuer: Vec<&'a Vec<String>>,
    pub zinsen: Vec<&'a Vec<String>>,
    pub aufgelaufene_zinsen: Vec<&'a Vec<String>>,
    pub dividendenanfall: Vec<&'a Vec<String>>,
    pub syep_lent: Vec<&'a Vec<String>>,
    pub syep_activity: Vec<&'a Vec<String>>,
    pub syep_interest: Vec<&'a Vec<String>>,
    pub finanzinstrumente: FinanzInstrumentInfos,
    pub codes: Vec<CodeRow>,
    pub hinweise: Vec<HinweisRow>,
    /// The row with the total P&L of the period (its amount is cell 10).
    pub gesamt_guv: Option<&'a Vec<String>>,
}

/// Whether `r` holds, in order, the rows of table `table` that `filter` keeps.
pub open spec fn selects(r: Seq<&Vec<String>>, groups: Groups, table: Seq<char>, filter: RowFilter) -> bool {
    field_rows(r) == selected(groups.rows(table), filter)
}

/// The `Data` rows of table `table`.
pub open spec fn all_rows(groups: Groups, table: Seq<char>) -> Seq<Seq<Seq<char>>> {
    selected(groups.rows(table), RowFilter::All)
}

/// Whether the code rows hold the cells of the rows `rows`.
pub open spec fn codes_of(r: Seq<CodeRow>, rows: Seq<Seq<Seq<char>>>) -> bool {
    r.len() == rows.len() && forall|k: int|
        0 <= k < r.len() ==> {
            &&& (#[trigger] r[k]).code@ == cell_of(rows[k], 0)
            &&& r[k].bedeutung@ == cell_of(rows[k], 1)
            &&& r[k].code_forts@ == cell_of(rows[k], 2)
            &&& r[k].bedeutung_forts@ == cell_of(rows[k], 3)
        }
}

/// Whether the notice rows hold the cells of the rows `rows`.
pub open spec fn hinweise_of(r: Seq<HinweisRow>, rows: Seq<Seq<Seq<char>>>) -> bool {
    r.len() == rows.len() && forall|k: int|
        0 <= k < r.len() ==> (#[trigger] r[k]).typ@ == cell_of(rows[k], 0) && r[k].hinweis@
            == cell_of(rows[k], 1)
}

/// Whether the net stock rows hold the cells of the rows `rows`.
pub open spec fn netto_of(r: Seq<NettoAktienpositionRow>, rows: Seq<Seq<Seq<char>>>) -> bool {
    r.len() == rows.len() && forall|k: int| 0 <= k < r.len() ==> netto_row_of(#[trigger] r[k], rows[k])
}

/// Whether `k` holds the tables of the statement grouped in `groups`.
pub open spec fn kontoauszug_of(k: KontoauszugRows, g: Groups) -> bool {
    &&& key_value_rows_spec(
        all_rows(g, "Statement"@),
        k.statement@.map_values(|x: StatementRow| x.feldname@),
        k.statement@.map_values(|x: StatementRow| x.feldwert@),
    )
    &&& key_value_rows_spec(
        all_rows(g, "Kontoinformation"@),
        k.kontoinformation@.map_values(|x: KontoinformationRow| x.feldname@),
        k.kontoinformation@.map_values(|x: KontoinformationRow| x.feldwert@),
    )
    &&& field_rows(k.nettovermoegenswert@) == nav_split(g.rows("Nettovermögenswert"@)).1
    &&& field_rows(k.zeitgewichtete_rendite@) == nav_split(g.rows("Nettovermögenswert"@)).2
    &&& selects(k.veraenderung_nav@, g, "Veränderung des NAV"@, RowFilter::All)
    &&& selects(
        k.mtm_performance@,
        g,
        "Mark-to-Market-Performance-Überblick"@,
        RowFilter::ColumnIsOneOf(0, "Aktien", "Devisen"),
    )
    &&& selects(
        k.performance_uebersicht@,
        g,
        "Übersicht  zur realisierten und unrealisierten Performance"@,
        RowFilter::ColumnIsOneOf(0, "Aktien", "Devisen"),
    )
    &&& selects(k.cash_bericht@, g, "Cash-Bericht"@, RowFilter::All)
    &&& selects(k.offene_positionen@, g, "Offene Positionen"@, RowFilter::ColumnIs(0, "Summary"))
    &&& selects(k.devisenpositionen@, g, "Devisenpositionen"@, RowFilter::ColumnIs(0, "Devisen"))
    &&& netto_of(k.netto_aktien@, all_rows(g, "Netto-Aktienpositionsübersicht"@))
    &&& selects(k.transaktionen@, g, "Transaktionen"@, RowFilter::ColumnIs(1, "Aktien"))
    &&& selects(k.devisen_transaktionen@, g, "Transaktionen"@, RowFilter::ColumnIs(1, "Devisen"))
    &&& selects(
        k.transaktionsgebuehren@,
        g,
        "Transaktionsgebühren"@,
        RowFilter::ColumnNotStartingWith(0, "Gesamt"),
    )
    &&& selects(
        k.kapitalmassnahmen@,
        g,
        "Kapitalmaßnahmen"@,
        RowFilter::ColumnNotStartingWith(0, "Gesamt"),
    )
    &&& selects(k.ein_auszahlungen@, g, "Einzahlungen & Auszahlungen"@, RowFilter::ColumnNotEmpty(1))
    &&& selects(k.dividenden@, g, "Dividenden"@, RowFilter::ColumnNotEmpty(1))
    &&& selects(k.quellensteuer@, g, "Quellensteuer"@, RowFilter::ColumnNotEmpty(1))
    &&& selects(k.zinsen@, g, "Zinsen"@, RowFilter::All)
    &&& selects(k.aufgelaufene_zinsen@, g, "Aufgelaufene Zinsen"@, RowFilter::All)
    &&& selects(
        k.dividendenanfall@,
        g,
        "Veränderung im Dividendenanfall"@,
        RowFilter::ColumnIs(0, "Aktien"),
    )
    &&& selects(
        k.syep_lent@,
        g,
        "Stock Yield Enhancement Program Securities Lent"@,
        RowFilter::ColumnNotStartingWith(0, "Gesamt"),
    )
    &&& selects(
        k.syep_activity@,
        g,
        "Stock Yield Enhancement Program Securities Lent Activity"@,
        RowFilter::ColumnIs(0, "Aktien"),
    )
    &&& selects(
        k.syep_interest@,
        g,
        "Stock Yield Enhancement Program Securities Lent Interest Details"@,
        RowFilter::ColumnNotStartingWith(0, "Gesamt"),
    )
    &&& instruments_of(k.finanzinstrumente, g)
    &&& codes_of(k.codes@, all_rows(g, "Codes"@))
    &&& hinweise_of(k.hinweise@, all_rows(g, "Hinweise/Rechtshinweise"@))
    &&& match k.gesamt_guv {
        Some(f) => g.rows("Gesamt-G&V des Kontoauszugszeitraums"@).len() > 0 && texts(f@) == g.rows(
            "Gesamt-G&V des Kontoauszugszeitraums"@,
        )[0].1,
        None => g.rows("Gesamt-G&V des Kontoauszugszeitraums"@).len() == 0,
    }
}

/// Whether `infos` holds the instruments of the table, by position.
pub open spec fn instruments_of(infos: FinanzInstrumentInfos, g: Groups) -> bool {
    let rows = all_rows(g, "Informationen zum Finanzinstrument"@);
    &&& infos.infos@.len() == rows.len()
    &&& forall|k: int| 0 <= k < rows.len() ==> instrument_at(#[trigger] infos.infos@[k], rows[k])
}

/// Reads the tables of a statement from its grouped records. It cannot
/// fail: a table that the records lack reads as no rows.
pub fn parse_kontoauszug<'a>(groups: &'a Groups) -> (k: KontoauszugRows<'a>)
    ensures
        kontoauszug_of(k, *groups),
{
    let finanzinstrumente = FinanzInstrumentInfos::from_data_rows(groups);
    let (nettovermoegenswert, zeitgewichtete_rendite) = split_nav_rows(groups);
    let k = KontoauszugRows {
        statement: statement_rows(groups),
        kontoinformation: kontoinformation_rows(groups),
        nettovermoegenswert,
        zeitgewichtete_rendite,
        veraenderung_nav: select_rows(groups, "Veränderung des NAV", &RowFilter::All),
        mtm_performance: select_rows(
            groups,
            "Mark-to-Market-Performance-Überblick",
            &RowFilter::ColumnIsOneOf(0, "Aktien", "Devisen"),
        ),
        performance_uebersicht: select_rows(
            groups,
            "Übersicht  zur realisierten und unrealisierten Performance",
            &RowFilter::ColumnIsOneOf(0, "Aktien", "Devisen"),
        ),
        cash_bericht: select_rows(groups, "Cash-Bericht", &RowFilter::All),
        offene_positionen: select_rows(
            groups,
            "Offene Positionen",
            &RowFilter::ColumnIs(0, "Summary"),
        ),
        devisenpositionen: select_rows(
            groups,
            "Devisenpositionen",
            &RowFilter::ColumnIs(0, "Devisen"),
        ),
        netto_aktien: netto_aktien_rows(groups),
        transaktionen: select_rows(groups, "Transaktionen", &RowFilter::ColumnIs(1, "Aktien")),
        devisen_transaktionen: select_rows(
            groups,
            "Transaktionen",
            &RowFilter::ColumnIs(1, "Devisen"),
        ),
        transaktionsgebuehren: select_rows(
            groups,
            "Transaktionsgebühren",
            &RowFilter::ColumnNotStartingWith(0, "Gesamt"),
        ),
        kapitalmassnahmen: select_rows(
            groups,
            "Kapitalmaßnahmen",
            &RowFilter::ColumnNotStartingWith(0, "Gesamt"),
        ),
        ein_auszahlungen: select_rows(
            groups,
            "Einzahlungen & Auszahlungen",
            &RowFilter::ColumnNotEmpty(1),
        ),
        dividenden: select_rows(groups, "Dividenden", &RowFilter::ColumnNotEmpty(1)),
        quellensteuer: select_rows(groups, "Quellensteuer", &RowFilter::ColumnNotEmpty(1)),
        zinsen: select_rows(groups, "Zinsen", &RowFilter::All),
        aufgelaufene_zinsen: select_rows(groups, "Aufgelaufene Zinsen", &RowFilter::All),
        dividendenanfall: select_rows(
            groups,
            "Veränderung im Dividendenanfall",
            &RowFilter::ColumnIs(0, "Aktien"),
        ),
        syep_lent: select_rows(
            groups,
            "Stock Yield Enhancement Program Securities Lent",
            &RowFilter::ColumnNotStartingWith(0, "Gesamt"),
        ),
        syep_activity: select_rows(
            groups,
            "Stock Yield Enhancement Program Securities Lent Activity",
            &RowFilter::ColumnIs(0, "Aktien"),
        ),
        syep_interest: select_rows(
            groups,
            "Stock Yield Enhancement Program Securities Lent Interest Details",
            &RowFilter::ColumnNotStartingWith(0, "Gesamt"),
        ),
        finanzinstrumente,
        codes: code_rows(groups),
        hinweise: hinweis_rows(groups),
        gesamt_guv: first_row_fields(groups, "Gesamt-G&V des Kontoauszugszeitraums"),
    };
    k
}

// ------------------------------------------------------------------
// Laws of a read statement
// ------------------------------------------------------------------

/// Law: the withholding taxes of a statement are, in file order, exactly
/// the `Data` rows of table `Quellensteuer` whose date (cell 1) is not
/// empty; so every tax in the list has a date, and total rows (which have
/// none) are not taxes.
pub proof fn law_withholding_taxes_have_a_date(k: KontoauszugRows, g: Groups)
    requires
        kontoauszug_of(k, g),
    ensures
        field_rows(k.quellensteuer@) == data_fields(g.rows("Quellensteuer"@)).filter(
            |f: Seq<Seq<char>>| cell_of(f, 1).len() > 0,
        ),
        forall|i: int|
            0 <= i < k.quellensteuer@.len() ==> cell_of(texts(#[trigger] k.quellensteuer@[i]@), 1).len()
                > 0,
{
    let pred = |f: Seq<Seq<char>>| cell_of(f, 1).len() > 0;
    lemma_selected_filter(g.rows("Quellensteuer"@), RowFilter::ColumnNotEmpty(1), pred);
    let rows = field_rows(k.quellensteuer@);
    data_fields(g.rows("Quellensteuer"@)).filter_lemma(pred);
    assert forall|i: int| 0 <= i < k.quellensteuer@.len() implies cell_of(
        texts(#[trigger] k.quellensteuer@[i]@),
        1,
    ).len() > 0 by {
        assert(rows[i] == texts(k.quellensteuer@[i]@));
        assert(pred(rows[i]));
    }
}

/// Law: the interest list of a statement holds every `Data` row of table
/// `Zinsen`, in file order, total rows without a date included (the total
/// in EUR is one of them).
pub proof fn law_interest_keeps_every_row(k: KontoauszugRows, g: Groups)
    requires
        kontoauszug_of(k, g),
    ensures
        field_rows(k.zinsen@) == data_fields(g.rows("Zinsen"@)),
        k.zinsen@.len() == data_fields(g.rows("Zinsen"@)).len(),
{
    lemma_selected_all(g.rows("Zinsen"@));
    assert(field_rows(k.zinsen@).len() == k.zinsen@.len());
}

/// Law: the open positions of a statement are, in file order, exactly the
/// `Data` rows of table `Offene Positionen` whose cell 0 is `Summary` (one
/// per asset; the lot rows are left out).
pub proof fn law_open_positions_are_summaries(k: KontoauszugRows, g: Groups)
    requires
        kontoauszug_of(k, g),
    ensures
        field_rows(k.offene_positionen@) == data_fields(g.rows("Offene Positionen"@)).filter(
            |f: Seq<Seq<char>>| cell_of(f, 0) == "Summary"@,
        ),
        forall|i: int|
            0 <= i < k.offene_positionen@.len() ==> cell_of(
                texts(#[trigger] k.offene_positionen@[i]@),
                0,
            ) == "Summary"@,
{
    let pred = |f: Seq<Seq<char>>| cell_of(f, 0) == "Summary"@;
    lemma_selected_filter(g.rows("Offene Positionen"@), RowFilter::ColumnIs(0, "Summary"), pred);
    let rows = field_rows(k.offene_positionen@);
    data_fields(g.rows("Offene Positionen"@)).filter_lemma(pred);
    assert forall|i: int| 0 <= i < k.offene_positionen@.len() implies cell_of(
        texts(#[trigger] k.offene_positionen@[i]@),
        0,
    ) == "Summary"@ by {
        assert(rows[i] == texts(k.offene_positionen@[i]@));
        assert(pred(rows[i]));
    }
}

/// Whether a cell starts with `Gesamt`, as the total rows of a table do.
pub open spec fn starts_with_total(cell: Seq<char>) -> bool {
    "Gesamt"@.len() <= cell.len() && cell.subrange(0, "Gesamt"@.len() as int) == "Gesamt"@
}

/// Law: each further table of a statement holds, in file order, exactly
/// the `Data` rows of its table that are of the wanted kind: the share and
/// currency rows of the performance tables (cell 0 `Aktien` or `Devisen`),
/// the currency positions (cell 0 `Devisen`), the share trades and the
/// currency trades of `Transaktionen` (cell 1 `Aktien`, `Devisen`), the
/// dated deposits and dividends (cell 1 not empty), the share rows of the
/// accruals and lending activity (cell 0 `Aktien`), no total rows (cell 0
/// starting with `Gesamt`) of the fees, corporate actions and lending
/// tables, and every row of the NAV change, cash report and accrued
/// interest tables.
pub proof fn law_statement_tables(k: KontoauszugRows, g: Groups)
    requires
        kontoauszug_of(k, g),
    ensures
        field_rows(k.veraenderung_nav@) == data_fields(g.rows("Veränderung des NAV"@)),
        field_rows(k.mtm_performance@) == data_fields(g.rows("Mark-to-Market-Performance-Überblick"@)).filter(
            |f: Seq<Seq<char>>| cell_of(f, 0) == "Aktien"@ || cell_of(f, 0) == "Devisen"@,
        ),
        field_rows(k.performance_uebersicht@) == data_fields(g.rows("Übersicht  zur realisierten und unrealisierten Performance"@)).filter(
            |f: Seq<Seq<char>>| cell_of(f, 0) == "Aktien"@ || cell_of(f, 0) == "Devisen"@,
        ),
        field_rows(k.cash_bericht@) == data_fields(g.rows("Cash-Bericht"@)),
        field_rows(k.devisenpositionen@) == data_fields(g.rows("Devisenpositionen"@)).filter(
            |f: Seq<Seq<char>>| cell_of(f, 0) == "Devisen"@,
        ),
        field_rows(k.transaktionen@) == data_fields(g.rows("Transaktionen"@)).filter(
            |f: Seq<Seq<char>>| cell_of(f, 1) == "Aktien"@,
        ),
        field_rows(k.devisen_transaktionen@) == data_fields(g.rows("Transaktionen"@)).filter(
            |f: Seq<Seq<char>>| cell_of(f, 1) == "Devisen"@,
        ),
        field_rows(k.transaktionsgebuehren@) == data_fields(g.rows("Transaktionsgebühren"@)).filter(
            |f: Seq<Seq<char>>| !starts_with_total(cell_of(f, 0)),
        ),
        field_rows(k.kapitalmassnahmen@) == data_fields(g.rows("Kapitalmaßnahmen"@)).filter(
            |f: Seq<Seq<char>>| !starts_with_total(cell_of(f, 0)),
        ),
        field_rows(k.ein_auszahlungen@) == data_fields(g.rows("Einzahlungen & Auszahlungen"@)).filter(
            |f: Seq<Seq<char>>| cell_of(f, 1).len() > 0,
        ),
        field_rows(k.dividenden@) == data_fields(g.rows("Dividenden"@)).filter(
            |f: Seq<Seq<char>>| cell_of(f, 1).len() > 0,
        ),
        field_rows(k.aufgelaufene_zinsen@) == data_fields(g.rows("Aufgelaufene Zinsen"@)),
        field_rows(k.dividendenanfall@) == data_fields(g.rows("Veränderung im Dividendenanfall"@)).filter(
            |f: Seq<Seq<char>>| cell_of(f, 0) == "Aktien"@,
        ),
        field_rows(k.syep_lent@) == data_fields(g.rows("Stock Yield Enhancement Program Securities Lent"@)).filter(
            |f: Seq<Seq<char>>| !starts_with_total(cell_of(f, 0)),
        ),
        field_rows(k.syep_activity@) == data_fields(g.rows("Stock Yield Enhancement Program Securities Lent Activity"@)).filter(
            |f: Seq<Seq<char>>| cell_of(f, 0) == "Aktien"@,
        ),
        field_rows(k.syep_interest@) == data_fields(g.rows("Stock Yield Enhancement Program Securities Lent Interest Details"@)).filter(
            |f: Seq<Seq<char>>| !starts_with_total(cell_of(f, 0)),
        ),
{
    lemma_selected_all(g.rows("Veränderung des NAV"@));
    lemma_selected_filter(
        g.rows("Mark-to-Market-Performance-Überblick"@),
        RowFilter::ColumnIsOneOf(0, "Aktien", "Devisen"),
        |f: Seq<Seq<char>>| cell_of(f, 0) == "Aktien"@ || cell_of(f, 0) == "Devisen"@,
    );
    lemma_selected_filter(
        g.rows("Übersicht  zur realisierten und unrealisierten Performance"@),
        RowFilter::ColumnIsOneOf(0, "Aktien", "Devisen"),
        |f: Seq<Seq<char>>| cell_of(f, 0) == "Aktien"@ || cell_of(f, 0) == "Devisen"@,
    );
    lemma_selected_all(g.rows("Cash-Bericht"@));
    lemma_selected_filter(
        g.rows("Devisenpositionen"@),
        RowFilter::ColumnIs(0, "Devisen"),
        |f: Seq<Seq<char>>| cell_of(f, 0) == "Devisen"@,
    );
    lemma_selected_filter(
        g.rows("Transaktionen"@),
        RowFilter::ColumnIs(1, "Aktien"),
        |f: Seq<Seq<char>>| cell_of(f, 1) == "Aktien"@,
    );
    lemma_selected_filter(
        g.rows("Transaktionen"@),
        RowFilter::ColumnIs(1, "Devisen"),
        |f: Seq<Seq<char>>| cell_of(f, 1) == "Devisen"@,
    );
    lemma_selected_filter(
        g.rows("Transaktionsgebühren"@),
        RowFilter::ColumnNotStartingWith(0, "Gesamt"),
        |f: Seq<Seq<char>>| !starts_with_total(cell_of(f, 0)),
    );
    lemma_selected_filter(
        g.rows("Kapitalmaßnahmen"@),
        RowFilter::ColumnNotStartingWith(0, "Gesamt"),
        |f: Seq<Seq<char>>| !starts_with_total(cell_of(f, 0)),
    );
    lemma_selected_filter(
        g.rows("Einzahlungen & Auszahlungen"@),
        RowFilter::ColumnNotEmpty(1),
        |f: Seq<Seq<char>>| cell_of(f, 1).len() > 0,
    );
    lemma_selected_filter(
        g.rows("Dividenden"@),
        RowFilter::ColumnNotEmpty(1),
        |f: Seq<Seq<char>>| cell_of(f, 1).len() > 0,
    );
    lemma_selected_all(g.rows("Aufgelaufene Zinsen"@));
    lemma_selected_filter(
        g.rows("Veränderung im Dividendenanfall"@),
        RowFilter::ColumnIs(0, "Aktien"),
        |f: Seq<Seq<char>>| cell_of(f, 0) == "Aktien"@,
    );
    lemma_selected_filter(
        g.rows("Stock Yield Enhancement Program Securities Lent"@),
        RowFilter::ColumnNotStartingWith(0, "Gesamt"),
        |f: Seq<Seq<char>>| !starts_with_total(cell_of(f, 0)),
    );
    lemma_selected_filter(
        g.rows("Stock Yield Enhancement Program Securities Lent Activity"@),
        RowFilter::ColumnIs(0, "Aktien"),
        |f: Seq<Seq<char>>| cell_of(f, 0) == "Aktien"@,
    );
    lemma_selected_filter(
        g.rows("Stock Yield Enhancement Program Securities Lent Interest Details"@),
        RowFilter::ColumnNotStartingWith(0, "Gesamt"),
        |f: Seq<Seq<char>>| !starts_with_total(cell_of(f, 0)),
    );
}

} // verus!
