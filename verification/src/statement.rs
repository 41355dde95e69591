//! The tables of an account statement (Kontoauszug) that hold text and
//! integers only, the split of the two-part tables, and the statement date.

use vstd::prelude::*;

use crate::date::{chrono_day_number, days_since_epoch, is_valid_date};
use crate::error::Error;
use crate::groups::{
    cell_of, data_rows, field_rows, selected, texts, Groups, RowFilter, rows_view, row_view,
};
use crate::text::{all_digits, chars_of, digit_value, digits_value, is_digit, iv, spec_iv, str_eq, string_of};

verus! {

/// `Statement` – broker metadata (key → value pairs).
pub struct StatementRow {
    pub feldname: String,
    pub feldwert: String,
}

/// `Kontoinformation` – account information (key → value pairs).
pub struct KontoinformationRow {
    pub feldname: String,
    pub feldwert: String,
}

/// `Netto-Aktienpositionsübersicht` – net stock positions.
pub struct NettoAktienpositionRow {
    pub vermoegenswert_kategorie: String,
    pub waehrung: String,
    pub symbol: String,
    pub beschreibung: String,
    pub aktien_bei_ib: i64,
    pub aktien_geliehen: i64,
    pub aktien_verliehen: i64,
    pub netto_aktien: i64,
}

/// `Codes` – transaction code glossary.
pub struct CodeRow {
    pub code: String,
    pub bedeutung: String,
    pub code_forts: String,
    pub bedeutung_forts: String,
}

/// `Hinweise/Rechtshinweise` – legal notices.
pub struct HinweisRow {
    pub typ: String,
    pub hinweis: String,
}

/// Cell `i` of a row, as a new `String`.
pub fn cell_string(f: &Vec<String>, i: usize) -> (s: String)
    ensures
        s@ == cell_of(texts(f@), i as int),
{
    let t = crate::text::c(f.as_slice(), i);
    t.to_owned()
}

/// The `Data` rows of table `table`, in order.
fn rows_of<'a>(groups: &'a Groups, table: &str) -> (r: Vec<&'a Vec<String>>)
    ensures
        field_rows(r@) == selected(groups.rows(table@), RowFilter::All),
{
    data_rows(groups, table)
}

/// The key/value rows of a two-column table.
pub open spec fn key_value_rows_spec(
    rows: Seq<Seq<Seq<char>>>,
    keys: Seq<Seq<char>>,
    values: Seq<Seq<char>>,
) -> bool {
    &&& keys.len() == rows.len()
    &&& values.len() == rows.len()
    &&& forall|k: int|
        0 <= k < rows.len() ==> #[trigger] keys[k] == cell_of(rows[k], 0) && values[k] == cell_of(
            rows[k],
            1,
        )
}

/// `Statement` rows: field name and value of every `Data` row.
pub fn statement_rows(groups: &Groups) -> (r: Vec<StatementRow>)
    ensures
        key_value_rows_spec(
            selected(groups.rows("Statement"@), RowFilter::All),
            r@.map_values(|x: StatementRow| x.feldname@),
            r@.map_values(|x: StatementRow| x.feldwert@),
        ),
{
    let rows = rows_of(groups, "Statement");
    let mut r: Vec<StatementRow> = Vec::new();
    let mut i: usize = 0;
    while i < rows.len()
        invariant
            i <= rows.len(),
            r@.len() == i,
            forall|k: int|
                0 <= k < i ==> (#[trigger] r@[k]).feldname@ == cell_of(texts(rows@[k]@), 0)
                    && r@[k].feldwert@ == cell_of(texts(rows@[k]@), 1),
        decreases rows.len() - i,
    {
        r.push(StatementRow { feldname: cell_string(rows[i], 0), feldwert: cell_string(rows[i], 1) });
        i = i + 1;
    }
    proof {
        assert forall|k: int| 0 <= k < r@.len() implies field_rows(rows@)[k] == texts(
            rows@[k]@,
        ) by {}
    }
    r
}

/// `Kontoinformation` rows: field name and value of every `Data` row.
pub fn kontoinformation_rows(groups: &Groups) -> (r: Vec<KontoinformationRow>)
    ensures
        key_value_rows_spec(
            selected(groups.rows("Kontoinformation"@), RowFilter::All),
            r@.map_values(|x: KontoinformationRow| x.feldname@),
            r@.map_values(|x: KontoinformationRow| x.feldwert@),
        ),
{
    let rows = rows_of(groups, "Kontoinformation");
    let mut r: Vec<KontoinformationRow> = Vec::new();
    let mut i: usize = 0;
    while i < rows.len()
        invariant
            i <= rows.len(),
            r@.len() == i,
            forall|k: int|
                0 <= k < i ==> (#[trigger] r@[k]).feldname@ == cell_of(texts(rows@[k]@), 0)
                    && r@[k].feldwert@ == cell_of(texts(rows@[k]@), 1),
        decreases rows.len() - i,
    {
        r.push(
            KontoinformationRow {
                feldname: cell_string(rows[i], 0),
                feldwert: cell_string(rows[i], 1),
            },
        );
        i = i + 1;
    }
    proof {
        assert forall|k: int| 0 <= k < r@.len() implies field_rows(rows@)[k] == texts(
            rows@[k]@,
        ) by {}
    }
    r
}

/// Whether a net stock position row holds the cells of `f`.
pub open spec fn netto_row_of(r: NettoAktienpositionRow, f: Seq<Seq<char>>) -> bool {
    &&& r.vermoegenswert_kategorie@ == cell_of(f, 0)
    &&& r.waehrung@ == cell_of(f, 1)
    &&& r.symbol@ == cell_of(f, 2)
    &&& r.beschreibung@ == cell_of(f, 3)
    &&& r.aktien_bei_ib as int == spec_iv(cell_of(f, 4))
    &&& r.aktien_geliehen as int == spec_iv(cell_of(f, 5))
    &&& r.aktien_verliehen as int == spec_iv(cell_of(f, 6))
    &&& r.netto_aktien as int == spec_iv(cell_of(f, 7))
}

/// `Netto-Aktienpositionsübersicht` rows, one per `Data` row.
pub fn netto_aktien_rows(groups: &Groups) -> (r: Vec<NettoAktienpositionRow>)
    ensures
        r@.len() == selected(groups.rows("Netto-Aktienpositionsübersicht"@), RowFilter::All).len(),
        forall|k: int|
            0 <= k < r@.len() ==> netto_row_of(
                #[trigger] r@[k],
                selected(groups.rows("Netto-Aktienpositionsübersicht"@), RowFilter::All)[k],
            ),
{
    let rows = rows_of(groups, "Netto-Aktienpositionsübersicht");
    let mut r: Vec<NettoAktienpositionRow> = Vec::new();
    let mut i: usize = 0;
    while i < rows.len()
        invariant
            i <= rows.len(),
            r@.len() == i,
            forall|k: int| 0 <= k < i ==> netto_row_of(#[trigger] r@[k], texts(rows@[k]@)),
        decreases rows.len() - i,
    {
        let f = rows[i];
        r.push(
            NettoAktienpositionRow {
                vermoegenswert_kategorie: cell_string(f, 0),
                waehrung: cell_string(f, 1),
                symbol: cell_string(f, 2),
                beschreibung: cell_string(f, 3),
                aktien_bei_ib: iv(crate::text::c(f.as_slice(), 4)),
                aktien_geliehen: iv(crate::text::c(f.as_slice(), 5)),
                aktien_verliehen: iv(crate::text::c(f.as_slice(), 6)),
                netto_aktien: iv(crate::text::c(f.as_slice(), 7)),
            },
        );
        i = i + 1;
    }
    proof {
        assert forall|k: int| 0 <= k < r@.len() implies field_rows(rows@)[k] == texts(
            rows@[k]@,
        ) by {}
    }
    r
}

/// `Codes` rows, one per `Data` row.
pub fn code_rows(groups: &Groups) -> (r: Vec<CodeRow>)
    ensures
        r@.len() == selected(groups.rows("Codes"@), RowFilter::All).len(),
        forall|k: int|
            0 <= k < r@.len() ==> {
                let f = selected(groups.rows("Codes"@), RowFilter::All)[k];
                &&& (#[trigger] r@[k]).code@ == cell_of(f, 0)
                &&& r@[k].bedeutung@ == cell_of(f, 1)
                &&& r@[k].code_forts@ == cell_of(f, 2)
                &&& r@[k].bedeutung_forts@ == cell_of(f, 3)
            },
{
    let rows = rows_of(groups, "Codes");
    let mut r: Vec<CodeRow> = Vec::new();
    let mut i: usize = 0;
    while i < rows.len()
        invariant
            i <= rows.len(),
            r@.len() == i,
            forall|k: int|
                0 <= k < i ==> {
                    let f = texts(rows@[k]@);
                    &&& (#[trigger] r@[k]).code@ == cell_of(f, 0)
                    &&& r@[k].bedeutung@ == cell_of(f, 1)
                    &&& r@[k].code_forts@ == cell_of(f, 2)
                    &&& r@[k].bedeutung_forts@ == cell_of(f, 3)
                },
        decreases rows.len() - i,
    {
        let f = rows[i];
        r.push(
            CodeRow {
                code: cell_string(f, 0),
                bedeutung: cell_string(f, 1),
                code_forts: cell_string(f, 2),
                bedeutung_forts: cell_string(f, 3),
            },
        );
        i = i + 1;
    }
    proof {
        assert forall|k: int| 0 <= k < r@.len() implies field_rows(rows@)[k] == texts(
            rows@[k]@,
        ) by {}
    }
    r
}

/// `Hinweise/Rechtshinweise` rows, one per `Data` row.
pub fn hinweis_rows(groups: &Groups) -> (r: Vec<HinweisRow>)
    ensures
        r@.len() == selected(groups.rows("Hinweise/Rechtshinweise"@), RowFilter::All).len(),
        forall|k: int|
            0 <= k < r@.len() ==> {
                let f = selected(groups.rows("Hinweise/Rechtshinweise"@), RowFilter::All)[k];
                &&& (#[trigger] r@[k]).typ@ == cell_of(f, 0)
                &&& r@[k].hinweis@ == cell_of(f, 1)
            },
{
    let rows = rows_of(groups, "Hinweise/Rechtshinweise");
    let mut r: Vec<HinweisRow> = Vec::new();
    let mut i: usize = 0;
    while i < rows.len()
        invariant
            i <= rows.len(),
            r@.len() == i,
            forall|k: int|
                0 <= k < i ==> (#[trigger] r@[k]).typ@ == cell_of(texts(rows@[k]@), 0)
                    && r@[k].hinweis@ == cell_of(texts(rows@[k]@), 1),
        decreases rows.len() - i,
    {
        let f = rows[i];
        r.push(HinweisRow { typ: cell_string(f, 0), hinweis: cell_string(f, 1) });
        i = i + 1;
    }
    proof {
        assert forall|k: int| 0 <= k < r@.len() implies field_rows(rows@)[k] == texts(
            rows@[k]@,
        ) by {}
    }
    r
}


// ------------------------------------------------------------------
// Nettovermögenswert: two tables under one name
// ------------------------------------------------------------------

/// Walks the rows of `Nettovermögenswert`: a `Header` row whose first cell
/// is `Zeitgewichtete Rendite` starts the return table, any other `Header`
/// row the asset table. Returns whether the return table is active, the
/// asset rows (without `Gesamt`) and the return rows.
pub open spec fn nav_split(rows: Seq<(Seq<char>, Seq<Seq<char>>)>) -> (
    bool,
    Seq<Seq<Seq<char>>>,
    Seq<Seq<Seq<char>>>,
)
    decreases rows.len(),
{
    if rows.len() == 0 {
        (false, Seq::empty(), Seq::empty())
    } else {
        let (z, m, g) = nav_split(rows.drop_last());
        let (kind, f) = rows.last();
        if kind == "Header"@ {
            (cell_of(f, 0) == "Zeitgewichtete Rendite"@, m, g)
        } else if kind == "Data"@ && !z && cell_of(f, 0) != "Gesamt"@ {
            (z, m.push(f), g)
        } else if kind == "Data"@ && z {
            (z, m, g.push(f))
        } else {
            (z, m, g)
        }
    }
}

/// The asset rows and the time-weighted return rows of `Nettovermögenswert`.
pub fn split_nav_rows<'a>(groups: &'a Groups) -> (r: (Vec<&'a Vec<String>>, Vec<&'a Vec<String>>))
    ensures
        field_rows(r.0@) == nav_split(groups.rows("Nettovermögenswert"@)).1,
        field_rows(r.1@) == nav_split(groups.rows("Nettovermögenswert"@)).2,
{
    let mut main_rows: Vec<&'a Vec<String>> = Vec::new();
    let mut zgr_rows: Vec<&'a Vec<String>> = Vec::new();
    match groups.find_table("Nettovermögenswert") {
        None => {
            assert(field_rows(main_rows@) =~= Seq::<Seq<Seq<char>>>::empty());
            assert(field_rows(zgr_rows@) =~= Seq::<Seq<Seq<char>>>::empty());
            (main_rows, zgr_rows)
        },
        Some(t) => {
            let rows = &groups.tables[t].rows;
            let ghost rv = rows_view(rows@);
            let mut in_zgr = false;
            let mut i: usize = 0;
            while i < rows.len()
                invariant
                    i <= rows.len(),
                    rv == rows_view(rows@),
                    nav_split(rv.take(i as int)) == (in_zgr, field_rows(main_rows@), field_rows(
                        zgr_rows@,
                    )),
                decreases rows.len() - i,
            {
                proof {
                    assert(rv.take(i + 1).drop_last() =~= rv.take(i as int));
                    assert(rv.take(i + 1).last() == rv[i as int]);
                    assert(rv[i as int] == row_view(rows@[i as int]));
                }
                let row = &rows[i];
                let f0 = crate::text::c(row.fields.as_slice(), 0);
                if str_eq(row.kind.as_str(), "Header") {
                    in_zgr = str_eq(f0, "Zeitgewichtete Rendite");
                } else if str_eq(row.kind.as_str(), "Data") && !in_zgr && !str_eq(f0, "Gesamt") {
                    let ghost old = main_rows@;
                    main_rows.push(&row.fields);
                    assert(field_rows(main_rows@) =~= field_rows(old).push(texts(row.fields@)));
                } else if str_eq(row.kind.as_str(), "Data") && in_zgr {
                    let ghost old = zgr_rows@;
                    zgr_rows.push(&row.fields);
                    assert(field_rows(zgr_rows@) =~= field_rows(old).push(texts(row.fields@)));
                }
                i = i + 1;
            }
            assert(rv.take(rows.len() as int) =~= rv);
            (main_rows, zgr_rows)
        },
    }
}

/// The text cells of an interest row: currency, date and description. A
/// total row has its description in the first cell and no currency.
pub open spec fn zins_texts_spec(f: Seq<Seq<char>>) -> (Seq<char>, Seq<char>, Seq<char>) {
    if cell_of(f, 2).len() == 0 {
        (Seq::empty(), cell_of(f, 1), cell_of(f, 0))
    } else {
        (cell_of(f, 0), cell_of(f, 1), cell_of(f, 2))
    }
}

/// Currency, date and description of an interest row (`Zinsen`), moving the
/// label of a total row into the description.
pub fn zins_texts(f: &Vec<String>) -> (r: (String, String, String))
    ensures
        (r.0@, r.1@, r.2@) == zins_texts_spec(texts(f@)),
{
    let waehrung = cell_string(f, 0);
    let datum = cell_string(f, 1);
    let beschreibung = cell_string(f, 2);
    if beschreibung.as_str().unicode_len() == 0 {
        (String::new(), datum, waehrung)
    } else {
        (waehrung, datum, beschreibung)
    }
}

// ------------------------------------------------------------------
// The statement date
// ------------------------------------------------------------------

/// The number of a German month name.
pub open spec fn month_number(m: Seq<char>) -> Option<u32> {
    if m == "Januar"@ {
        Some(1)
    } else if m == "Februar"@ {
        Some(2)
    } else if m == "März"@ {
        Some(3)
    } else if m == "April"@ {
        Some(4)
    } else if m == "Mai"@ {
        Some(5)
    } else if m == "Juni"@ {
        Some(6)
    } else if m == "Juli"@ {
        Some(7)
    } else if m == "August"@ {
        Some(8)
    } else if m == "September"@ {
        Some(9)
    } else if m == "Oktober"@ {
        Some(10)
    } else if m == "November"@ {
        Some(11)
    } else if m == "Dezember"@ {
        Some(12)
    } else {
        None
    }
}

/// The twelve German month names are numbered 1 to 12, each number given
/// to one name only.
pub proof fn lemma_month_numbers(a: Seq<char>, b: Seq<char>)
    ensures
        month_number(a) matches Some(n) ==> 1 <= n <= 12,
        month_number(a) is Some && month_number(a) == month_number(b) ==> a == b,
{
}

/// The number (1 to 12) of a German month name.
pub fn convert_month(month: &str) -> (r: Result<u32, Error>)
    ensures
        r matches Ok(n) ==> month_number(month@) == Some(n),
        r is Err ==> month_number(month@) is None,
        r matches Err(e) ==> e matches Error::InvalidMonthName(t) && t@ == month@,
{
    if str_eq(month, "Januar") {
        Ok(1)
    } else if str_eq(month, "Februar") {
        Ok(2)
    } else if str_eq(month, "März") {
        Ok(3)
    } else if str_eq(month, "April") {
        Ok(4)
    } else if str_eq(month, "Mai") {
        Ok(5)
    } else if str_eq(month, "Juni") {
        Ok(6)
    } else if str_eq(month, "Juli") {
        Ok(7)
    } else if str_eq(month, "August") {
        Ok(8)
    } else if str_eq(month, "September") {
        Ok(9)
    } else if str_eq(month, "Oktober") {
        Ok(10)
    } else if str_eq(month, "November") {
        Ok(11)
    } else if str_eq(month, "Dezember") {
        Ok(12)
    } else {
        Err(Error::InvalidMonthName(month.to_owned()))
    }
}

pub open spec fn is_ascii_letter(c: char) -> bool {
    ('a' <= c && c <= 'z') || ('A' <= c && c <= 'Z')
}

/// Whether `c` is a decimal digit of Unicode 16 (general category `Nd`),
/// which is what `\d` matches in a pattern: the ASCII digits and the digits
/// of the other scripts.
pub open spec fn is_decimal_digit(c: char) -> bool {
    let n = c as int;
    ||| (0x30 <= n && n <= 0x39)
    ||| (0x660 <= n && n <= 0x669)
    ||| (0x6F0 <= n && n <= 0x6F9)
    ||| (0x7C0 <= n && n <= 0x7C9)
    ||| (0x966 <= n && n <= 0x96F)
    ||| (0x9E6 <= n && n <= 0x9EF)
    ||| (0xA66 <= n && n <= 0xA6F)
    ||| (0xAE6 <= n && n <= 0xAEF)
    ||| (0xB66 <= n && n <= 0xB6F)
    ||| (0xBE6 <= n && n <= 0xBEF)
    ||| (0xC66 <= n && n <= 0xC6F)
    ||| (0xCE6 <= n && n <= 0xCEF)
    ||| (0xD66 <= n && n <= 0xD6F)
    ||| (0xDE6 <= n && n <= 0xDEF)
    ||| (0xE50 <= n && n <= 0xE59)
    ||| (0xED0 <= n && n <= 0xED9)
    ||| (0xF20 <= n && n <= 0xF29)
    ||| (0x1040 <= n && n <= 0x1049)
    ||| (0x1090 <= n && n <= 0x1099)
    ||| (0x17E0 <= n && n <= 0x17E9)
    ||| (0x1810 <= n && n <= 0x1819)
    ||| (0x1946 <= n && n <= 0x194F)
    ||| (0x19D0 <= n && n <= 0x19D9)
    ||| (0x1A80 <= n && n <= 0x1A89)
    ||| (0x1A90 <= n && n <= 0x1A99)
    ||| (0x1B50 <= n && n <= 0x1B59)
    ||| (0x1BB0 <= n && n <= 0x1BB9)
    ||| (0x1C40 <= n && n <= 0x1C49)
    ||| (0x1C50 <= n && n <= 0x1C59)
    ||| (0xA620 <= n && n <= 0xA629)
    ||| (0xA8D0 <= n && n <= 0xA8D9)
    ||| (0xA900 <= n && n <= 0xA909)
    ||| (0xA9D0 <= n && n <= 0xA9D9)
    ||| (0xA9F0 <= n && n <= 0xA9F9)
    ||| (0xAA50 <= n && n <= 0xAA59)
    ||| (0xABF0 <= n && n <= 0xABF9)
    ||| (0xFF10 <= n && n <= 0xFF19)
    ||| (0x104A0 <= n && n <= 0x104A9)
    ||| (0x10D30 <= n && n <= 0x10D39)
    ||| (0x10D40 <= n && n <= 0x10D49)
    ||| (0x11066 <= n && n <= 0x1106F)
    ||| (0x110F0 <= n && n <= 0x110F9)
    ||| (0x11136 <= n && n <= 0x1113F)
    ||| (0x111D0 <= n && n <= 0x111D9)
    ||| (0x112F0 <= n && n <= 0x112F9)
    ||| (0x11450 <= n && n <= 0x11459)
    ||| (0x114D0 <= n && n <= 0x114D9)
    ||| (0x11650 <= n && n <= 0x11659)
    ||| (0x116C0 <= n && n <= 0x116C9)
    ||| (0x116D0 <= n && n <= 0x116E3)
    ||| (0x11730 <= n && n <= 0x11739)
    ||| (0x118E0 <= n && n <= 0x118E9)
    ||| (0x11950 <= n && n <= 0x11959)
    ||| (0x11BF0 <= n && n <= 0x11BF9)
    ||| (0x11C50 <= n && n <= 0x11C59)
    ||| (0x11D50 <= n && n <= 0x11D59)
    ||| (0x11DA0 <= n && n <= 0x11DA9)
    ||| (0x11F50 <= n && n <= 0x11F59)
    ||| (0x16130 <= n && n <= 0x16139)
    ||| (0x16A60 <= n && n <= 0x16A69)
    ||| (0x16AC0 <= n && n <= 0x16AC9)
    ||| (0x16B50 <= n && n <= 0x16B59)
    ||| (0x16D70 <= n && n <= 0x16D79)
    ||| (0x1CCF0 <= n && n <= 0x1CCF9)
    ||| (0x1D7CE <= n && n <= 0x1D7FF)
    ||| (0x1E140 <= n && n <= 0x1E149)
    ||| (0x1E2F0 <= n && n <= 0x1E2F9)
    ||| (0x1E4F0 <= n && n <= 0x1E4F9)
    ||| (0x1E5F1 <= n && n <= 0x1E5FA)
    ||| (0x1E950 <= n && n <= 0x1E959)
    ||| (0x1FBF0 <= n && n <= 0x1FBF9)
}

/// Length of the run of decimal digits at the end of `s`.
pub open spec fn trailing_digits(s: Seq<char>) -> int
    decreases s.len(),
{
    if s.len() > 0 && is_decimal_digit(s.last()) {
        1 + trailing_digits(s.drop_last())
    } else {
        0
    }
}

/// Length of the run of ASCII letters at the end of `s`.
pub open spec fn trailing_letters(s: Seq<char>) -> int
    decreases s.len(),
{
    if s.len() > 0 && is_ascii_letter(s.last()) {
        1 + trailing_letters(s.drop_last())
    } else {
        0
    }
}

/// The captures of `([a-zA-Z]*) (\d+), (\d{4})$` in a statement period such
/// as `Januar 1, 2024 - Dezember 31, 2024`: month name, day and year of the
/// date at the end, where the month name is the run of letters before it.
/// Digits are the decimal digits of any script.
pub open spec fn period_match(s: Seq<char>) -> Option<(Seq<char>, Seq<char>, Seq<char>)> {
    let n = s.len();
    if n < 8 || !is_decimal_digit(s[n - 1]) || !is_decimal_digit(s[n - 2]) || !is_decimal_digit(
        s[n - 3],
    ) || !is_decimal_digit(s[n - 4]) || s[n - 5] != ' ' || s[n - 6] != ',' {
        None
    } else {
        let j = n - 6;
        let i = j - trailing_digits(s.take(j));
        if i == j || i < 1 || s[i - 1] != ' ' {
            None
        } else {
            let h = i - 1 - trailing_letters(s.take(i - 1));
            Some((s.subrange(h, i - 1), s.subrange(i, j), s.subrange(n - 4, n as int)))
        }
    }
}

proof fn lemma_trailing_digits(s: Seq<char>, k: int)
    requires
        0 <= k <= s.len(),
        forall|a: int| k <= a < s.len() ==> is_decimal_digit(#[trigger] s[a]),
        k == 0 || !is_decimal_digit(s[k - 1]),
    ensures
        trailing_digits(s) == s.len() - k,
    decreases s.len() - k,
{
    if k < s.len() {
        lemma_trailing_digits(s.drop_last(), k);
    }
}

proof fn lemma_trailing_letters(s: Seq<char>, k: int)
    requires
        0 <= k <= s.len(),
        forall|a: int| k <= a < s.len() ==> is_ascii_letter(#[trigger] s[a]),
        k == 0 || !is_ascii_letter(s[k - 1]),
    ensures
        trailing_letters(s) == s.len() - k,
    decreases s.len() - k,
{
    if k < s.len() {
        lemma_trailing_letters(s.drop_last(), k);
    }
}

/// Whether `c` is a decimal digit of any script.
pub fn is_decimal(c: char) -> (b: bool)
    ensures
        b == is_decimal_digit(c),
{
    let n = c as u32;
    (0x30 <= n && n <= 0x39)
        || (0x660 <= n && n <= 0x669)
        || (0x6F0 <= n && n <= 0x6F9)
        || (0x7C0 <= n && n <= 0x7C9)
        || (0x966 <= n && n <= 0x96F)
        || (0x9E6 <= n && n <= 0x9EF)
        || (0xA66 <= n && n <= 0xA6F)
        || (0xAE6 <= n && n <= 0xAEF)
        || (0xB66 <= n && n <= 0xB6F)
        || (0xBE6 <= n && n <= 0xBEF)
        || (0xC66 <= n && n <= 0xC6F)
        || (0xCE6 <= n && n <= 0xCEF)
        || (0xD66 <= n && n <= 0xD6F)
        || (0xDE6 <= n && n <= 0xDEF)
        || (0xE50 <= n && n <= 0xE59)
        || (0xED0 <= n && n <= 0xED9)
        || (0xF20 <= n && n <= 0xF29)
        || (0x1040 <= n && n <= 0x1049)
        || (0x1090 <= n && n <= 0x1099)
        || (0x17E0 <= n && n <= 0x17E9)
        || (0x1810 <= n && n <= 0x1819)
        || (0x1946 <= n && n <= 0x194F)
        || (0x19D0 <= n && n <= 0x19D9)
        || (0x1A80 <= n && n <= 0x1A89)
        || (0x1A90 <= n && n <= 0x1A99)
        || (0x1B50 <= n && n <= 0x1B59)
        || (0x1BB0 <= n && n <= 0x1BB9)
        || (0x1C40 <= n && n <= 0x1C49)
        || (0x1C50 <= n && n <= 0x1C59)
        || (0xA620 <= n && n <= 0xA629)
        || (0xA8D0 <= n && n <= 0xA8D9)
        || (0xA900 <= n && n <= 0xA909)
        || (0xA9D0 <= n && n <= 0xA9D9)
        || (0xA9F0 <= n && n <= 0xA9F9)
        || (0xAA50 <= n && n <= 0xAA59)
        || (0xABF0 <= n && n <= 0xABF9)
        || (0xFF10 <= n && n <= 0xFF19)
        || (0x104A0 <= n && n <= 0x104A9)
        || (0x10D30 <= n && n <= 0x10D39)
        || (0x10D40 <= n && n <= 0x10D49)
        || (0x11066 <= n && n <= 0x1106F)
        || (0x110F0 <= n && n <= 0x110F9)
        || (0x11136 <= n && n <= 0x1113F)
        || (0x111D0 <= n && n <= 0x111D9)
        || (0x112F0 <= n && n <= 0x112F9)
        || (0x11450 <= n && n <= 0x11459)
        || (0x114D0 <= n && n <= 0x114D9)
        || (0x11650 <= n && n <= 0x11659)
        || (0x116C0 <= n && n <= 0x116C9)
        || (0x116D0 <= n && n <= 0x116E3)
        || (0x11730 <= n && n <= 0x11739)
        || (0x118E0 <= n && n <= 0x118E9)
        || (0x11950 <= n && n <= 0x11959)
        || (0x11BF0 <= n && n <= 0x11BF9)
        || (0x11C50 <= n && n <= 0x11C59)
        || (0x11D50 <= n && n <= 0x11D59)
        || (0x11DA0 <= n && n <= 0x11DA9)
        || (0x11F50 <= n && n <= 0x11F59)
        || (0x16130 <= n && n <= 0x16139)
        || (0x16A60 <= n && n <= 0x16A69)
        || (0x16AC0 <= n && n <= 0x16AC9)
        || (0x16B50 <= n && n <= 0x16B59)
        || (0x16D70 <= n && n <= 0x16D79)
        || (0x1CCF0 <= n && n <= 0x1CCF9)
        || (0x1D7CE <= n && n <= 0x1D7FF)
        || (0x1E140 <= n && n <= 0x1E149)
        || (0x1E2F0 <= n && n <= 0x1E2F9)
        || (0x1E4F0 <= n && n <= 0x1E4F9)
        || (0x1E5F1 <= n && n <= 0x1E5FA)
        || (0x1E950 <= n && n <= 0x1E959)
        || (0x1FBF0 <= n && n <= 0x1FBF9)
}

fn is_letter(c: char) -> (b: bool)
    ensures
        b == is_ascii_letter(c),
{
    ('a' <= c && c <= 'z') || ('A' <= c && c <= 'Z')
}

/// The characters `v[from..to]`.
fn slice_chars(v: &Vec<char>, from: usize, to: usize) -> (r: Vec<char>)
    requires
        from <= to <= v.len(),
    ensures
        r@ == v@.subrange(from as int, to as int),
{
    let mut r: Vec<char> = Vec::new();
    let mut k: usize = from;
    while k < to
        invariant
            from <= k <= to <= v.len(),
            r@ == v@.subrange(from as int, k as int),
        decreases to - k,
    {
        r.push(v[k]);
        k = k + 1;
        assert(r@ =~= v@.subrange(from as int, k as int));
    }
    r
}

/// Month name, day and year at the end of a statement period.
pub fn match_period(s: &str) -> (r: Option<(Vec<char>, Vec<char>, Vec<char>)>)
    ensures
        r matches Some((m, d, y)) ==> period_match(s@) == Some((m@, d@, y@)),
        r is None ==> period_match(s@) is None,
{
    let v = chars_of(s);
    let n = v.len();
    if n < 8 || !is_decimal(v[n - 1]) || !is_decimal(v[n - 2]) || !is_decimal(v[n - 3])
        || !is_decimal(v[n - 4]) || v[n - 5] != ' ' || v[n - 6] != ',' {
        return None;
    }
    let j = n - 6;
    let mut i = j;
    while i > 0 && is_decimal(v[i - 1])
        invariant
            i <= j < n,
            n == v@.len(),
            forall|a: int| i <= a < j ==> is_decimal_digit(#[trigger] v@[a]),
        decreases i,
    {
        i = i - 1;
    }
    proof {
        let t = s@.take(j as int);
        assert forall|a: int| i <= a < t.len() implies is_decimal_digit(#[trigger] t[a]) by {
            assert(t[a] == v@[a]);
        }
        if i > 0 {
            assert(t[i - 1] == v@[i - 1]);
        }
        lemma_trailing_digits(t, i as int);
    }
    if i == j || i < 1 || v[i - 1] != ' ' {
        return None;
    }
    let mut h = i - 1;
    while h > 0 && is_letter(v[h - 1])
        invariant
            h <= i - 1,
            i < n,
            n == v@.len(),
            forall|a: int| h <= a < i - 1 ==> is_ascii_letter(#[trigger] v@[a]),
        decreases h,
    {
        h = h - 1;
    }
    proof {
        let t = s@.take(i - 1);
        assert forall|a: int| h <= a < t.len() implies is_ascii_letter(#[trigger] t[a]) by {
            assert(t[a] == v@[a]);
        }
        if h > 0 {
            assert(t[h - 1] == v@[h - 1]);
        }
        lemma_trailing_letters(t, h as int);
    }
    let m = slice_chars(&v, h, i - 1);
    let d = slice_chars(&v, i, j);
    let y = slice_chars(&v, n - 4, n);
    Some((m, d, y))
}

/// The captures of the first `Period` row whose value matches.
pub open spec fn first_period(rows: Seq<StatementRow>) -> Option<(Seq<char>, Seq<char>, Seq<char>)>
    decreases rows.len(),
{
    if rows.len() == 0 {
        None
    } else if rows[0].feldname@ == "Period"@ && period_match(rows[0].feldwert@) is Some {
        period_match(rows[0].feldwert@)
    } else {
        first_period(rows.drop_first())
    }
}

/// The message of `ParseIntError` for a character that is not a digit.
pub open spec fn invalid_digit_message() -> Seq<char> {
    "invalid digit found in string"@
}

/// The message of `ParseIntError` for a value past the type's maximum.
pub open spec fn overflow_message() -> Seq<char> {
    "number too large to fit in target type"@
}

/// What `str::parse::<u32>` gives for a text without a sign: read from the
/// left, each ASCII digit adds to the value; the first other character is
/// an invalid digit, and a value past `u32::MAX` an overflow, whichever
/// comes first.
pub open spec fn parse_u32_text(s: Seq<char>) -> Result<int, Seq<char>>
    decreases s.len(),
{
    if s.len() == 0 {
        Ok(0)
    } else {
        match parse_u32_text(s.drop_last()) {
            Err(m) => Err(m),
            Ok(v) => if !is_digit(s.last()) {
                Err(invalid_digit_message())
            } else if v * 10 + digit_value(s.last()) > u32::MAX {
                Err(overflow_message())
            } else {
                Ok(v * 10 + digit_value(s.last()))
            },
        }
    }
}

/// Once the reading of a prefix fails, the reading of the whole text fails
/// in the same way.
proof fn lemma_parse_err_prefix(s: Seq<char>, k: int)
    requires
        0 <= k <= s.len(),
        parse_u32_text(s.take(k)) is Err,
    ensures
        parse_u32_text(s) == parse_u32_text(s.take(k)),
    decreases s.len(),
{
    if k < s.len() {
        assert(s.drop_last().take(k) =~= s.take(k));
        lemma_parse_err_prefix(s.drop_last(), k);
    } else {
        assert(s.take(k) =~= s);
    }
}

/// A text that reads is made of ASCII digits, and its value is theirs.
proof fn lemma_parse_ok_digits(s: Seq<char>)
    requires
        parse_u32_text(s) is Ok,
    ensures
        all_digits(s),
        parse_u32_text(s) == Ok::<int, Seq<char>>(digits_value(s)),
    decreases s.len(),
{
    if s.len() > 0 {
        lemma_parse_ok_digits(s.drop_last());
        assert forall|a: int| 0 <= a < s.len() implies is_digit(#[trigger] s[a]) by {
            if a < s.len() - 1 {
                assert(s[a] == s.drop_last()[a]);
            }
        }
    }
}

/// `str::parse::<u32>` on a run of characters without a sign.
fn parse_u32_chars(v: &Vec<char>) -> (r: Result<u32, String>)
    ensures
        match parse_u32_text(v@) {
            Ok(x) => r matches Ok(y) && y as int == x,
            Err(m) => r matches Err(t) && t@ == m,
        },
{
    let mut acc: u64 = 0;
    let mut i: usize = 0;
    assert(v@.take(0) =~= Seq::<char>::empty());
    while i < v.len()
        invariant
            i <= v.len(),
            parse_u32_text(v@.take(i as int)) == Ok::<int, Seq<char>>(acc as int),
            acc <= u32::MAX,
        decreases v.len() - i,
    {
        assert(v@.take(i + 1).drop_last() =~= v@.take(i as int));
        assert(v@.take(i + 1).last() == v@[i as int]);
        let c = v[i];
        if !('0' <= c && c <= '9') {
            proof {
                lemma_parse_err_prefix(v@, i + 1);
            }
            return Err("invalid digit found in string".to_owned());
        }
        acc = acc * 10 + (c as u32 - '0' as u32) as u64;
        i = i + 1;
        if acc > 4294967295 {
            proof {
                lemma_parse_err_prefix(v@, i as int);
            }
            return Err("number too large to fit in target type".to_owned());
        }
    }
    assert(v@.take(v.len() as int) =~= v@);
    Ok(acc as u32)
}

/// Whether the period of a statement names a date that exists, wherever
/// its month name is known and its day and year read as numbers.
pub open spec fn period_date_exists(rows: Seq<StatementRow>) -> bool {
    match first_period(rows) {
        Some((m, d, y)) => match (month_number(m), parse_u32_text(d), parse_u32_text(y)) {
            (Some(mn), Ok(dv), Ok(yv)) => is_valid_date(yv, mn as int, dv),
            _ => true,
        },
        None => true,
    }
}

/// Days since January 1, 1970 of the last day of a statement's period: the
/// date at the end of the first `Period` row that has one. Its month name
/// must be a German one, and its day and year must read as numbers (digits
/// of other scripts do not).
pub fn get_timestamp(statement: &Vec<StatementRow>) -> (r: Result<i64, Error>)
    requires
        period_date_exists(statement@),
    ensures
        match first_period(statement@) {
            None => r == Err::<i64, Error>(Error::DateNotFound),
            Some((m, d, y)) => match month_number(m) {
                None => r matches Err(e) && e matches Error::InvalidMonthName(t) && t@ == m,
                Some(mn) => match parse_u32_text(d) {
                    Err(msg) => r matches Err(e) && e matches Error::ParseIntError(t) && t@ == msg,
                    Ok(dv) => match parse_u32_text(y) {
                        Err(msg) => r matches Err(e) && e matches Error::ParseIntError(t) && t@
                            == msg,
                        Ok(yv) => r matches Ok(x) && x as int == days_since_epoch(yv, mn as int, dv),
                    },
                },
            },
        },
{
    let (m, d, y) = match find_period(statement) {
        Some(p) => p,
        None => {
            return Err(Error::DateNotFound);
        },
    };
    proof {
        lemma_first_period_parts(statement@);
    }
    let ms = string_of(&m);
    let month = match convert_month(ms.as_str()) {
        Ok(x) => x,
        Err(e) => {
            return Err(e);
        },
    };
    let day = match parse_u32_chars(&d) {
        Ok(x) => x,
        Err(msg) => {
            return Err(Error::ParseIntError(msg));
        },
    };
    let year = match parse_u32_chars(&y) {
        Ok(x) => x,
        Err(msg) => {
            return Err(Error::ParseIntError(msg));
        },
    };
    proof {
        lemma_parse_ok_digits(y@);
        lemma_four_digits_small(y@);
    }
    match chrono_day_number(year as i32, month, day) {
        Some(n) => Ok(n as i64 - 719163),
        None => {
            // The date exists (by the precondition) and its year has four
            // digits, so chrono accepts it.
            assert(false);
            Err(Error::DateNotFound)
        },
    }
}

proof fn lemma_trailing_digits_all(s: Seq<char>)
    ensures
        0 <= trailing_digits(s) <= s.len(),
        forall|a: int|
            s.len() - trailing_digits(s) <= a < s.len() ==> is_decimal_digit(#[trigger] s[a]),
    decreases s.len(),
{
    if s.len() > 0 && is_decimal_digit(s.last()) {
        lemma_trailing_digits_all(s.drop_last());
        assert forall|a: int| s.len() - trailing_digits(s) <= a < s.len() implies is_decimal_digit(
            #[trigger] s[a],
        ) by {
            if a < s.len() - 1 {
                assert(s[a] == s.drop_last()[a]);
            }
        }
    }
}

proof fn lemma_four_digits_small(s: Seq<char>)
    requires
        s.len() == 4,
        all_digits(s),
    ensures
        0 <= digits_value(s) <= 9999,
{
    let s3 = s.drop_last();
    let s2 = s3.drop_last();
    let s1 = s2.drop_last();
    let s0 = s1.drop_last();
    assert(s0.len() == 0);
    assert(is_digit(s[0]) && is_digit(s[1]) && is_digit(s[2]) && is_digit(s[3]));
    assert(s1.last() == s[0]);
    assert(s2.last() == s[1]);
    assert(s3.last() == s[2]);
    assert(s.last() == s[3]);
    assert(digits_value(s0) == 0);
    assert(0 <= digits_value(s1) <= 9);
    assert(0 <= digits_value(s2) <= 99);
    assert(0 <= digits_value(s3) <= 999);
}

/// The year of a matched period has four characters.
proof fn lemma_period_parts(s: Seq<char>)
    requires
        period_match(s) is Some,
    ensures
        (period_match(s)->0).2.len() == 4,
{
}

/// The year of the first matched period has four characters.
proof fn lemma_first_period_parts(rows: Seq<StatementRow>)
    requires
        first_period(rows) is Some,
    ensures
        (first_period(rows)->0).2.len() == 4,
    decreases rows.len(),
{
    if rows[0].feldname@ == "Period"@ && period_match(rows[0].feldwert@) is Some {
        lemma_period_parts(rows[0].feldwert@);
    } else {
        lemma_first_period_parts(rows.drop_first());
    }
}

/// The month name, day and year of the first `Period` row that has them.
fn find_period(statement: &Vec<StatementRow>) -> (r: Option<(Vec<char>, Vec<char>, Vec<char>)>)
    ensures
        r matches Some((m, d, y)) ==> first_period(statement@) == Some((m@, d@, y@)),
        r is None ==> first_period(statement@) is None,
{
    let mut i: usize = 0;
    assert(statement@.skip(0) =~= statement@);
    while i < statement.len()
        invariant
            i <= statement.len(),
            first_period(statement@) == first_period(statement@.skip(i as int)),
        decreases statement.len() - i,
    {
        let row = &statement[i];
        let ghost rest = statement@.skip(i as int);
        assert(rest[0] == statement@[i as int]);
        assert(rest.drop_first() =~= statement@.skip(i + 1));
        if str_eq(row.feldname.as_str(), "Period") {
            match match_period(row.feldwert.as_str()) {
                Some(p) => {
                    return Some(p);
                },
                None => {},
            }
        }
        i = i + 1;
    }
    assert(statement@.skip(i as int).len() == 0);
    None
}

/// Whether the period of a statement names a date that exists, where its
/// month name is known and its day and year read as numbers
/// (`get_timestamp` needs it).
pub fn period_date_valid(statement: &Vec<StatementRow>) -> (b: bool)
    ensures
        b == period_date_exists(statement@),
{
    match find_period(statement) {
        None => true,
        Some((m, d, y)) => {
            proof {
                lemma_first_period_parts(statement@);
            }
            let ms = string_of(&m);
            let month = match convert_month(ms.as_str()) {
                Ok(x) => x,
                Err(_) => {
                    return true;
                },
            };
            let day = match parse_u32_chars(&d) {
                Ok(x) => x,
                Err(_) => {
                    return true;
                },
            };
            let year = match parse_u32_chars(&y) {
                Ok(x) => x,
                Err(_) => {
                    return true;
                },
            };
            proof {
                lemma_parse_ok_digits(y@);
                lemma_four_digits_small(y@);
            }
            chrono_day_number(year as i32, month, day).is_some()
        },
    }
}

} // verus!
