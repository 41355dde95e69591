//! Instrument master data (`Informationen zum Finanzinstrument`): which
//! instrument a symbol or ISIN names, and whether it is an ETF.

use vstd::prelude::*;

use crate::error::Error;
use crate::groups::{cell_of, data_rows, field_rows, rows_view, row_view, selected, texts, Groups, Row, RowFilter};
use crate::statement::cell_string;
use crate::text::{chars_of, first_sep, split_parts, str_eq, vec_eq};

verus! {

/// `Informationen zum Finanzinstrument` – instrument master data (the
/// text columns; the multiplier is a number and stays with the caller).
pub struct FinanzinstrumentRow {
    pub vermoegenswert_kategorie: String,
    pub symbol: String,
    pub beschreibung: String,
    pub conid: String,
    pub wertpapier_id: String,
    pub basiswert: String,
    pub boerse: String,
    pub typ: String,
    pub code: String,
}

/// All instruments of a statement.
pub struct FinanzInstrumentInfos {
    pub infos: Vec<FinanzinstrumentRow>,
}

/// Whether `symbol` is one of the `", "`-separated symbols of an instrument.
pub open spec fn lists_symbol(info_symbol: Seq<char>, symbol: Seq<char>) -> bool {
    split_parts(info_symbol).contains(symbol)
}

/// Whether instrument `info` is the one meant by `symbol` or, when given, by
/// `isin` (its security id or its contract id).
pub open spec fn matches_instrument(
    info: FinanzinstrumentRow,
    symbol: Seq<char>,
    isin: Option<Seq<char>>,
) -> bool {
    lists_symbol(info.symbol@, symbol) || (isin matches Some(i) && (info.wertpapier_id@ == i
        || info.conid@ == i))
}

/// The position of the first instrument meant by `symbol` or `isin`.
pub open spec fn first_instrument(
    infos: Seq<FinanzinstrumentRow>,
    symbol: Seq<char>,
    isin: Option<Seq<char>>,
) -> Option<int>
    decreases infos.len(),
{
    if infos.len() == 0 {
        None
    } else if matches_instrument(infos[0], symbol, isin) {
        Some(0)
    } else {
        match first_instrument(infos.drop_first(), symbol, isin) {
            Some(i) => Some(i + 1),
            None => None,
        }
    }
}

proof fn lemma_first_sep_skip(s: Seq<char>, p: int, j: int)
    requires
        0 <= p <= j <= s.len(),
        forall|k: int| p <= k < j && k + 1 < s.len() ==> !(#[trigger] s[k] == ',' && s[k + 1] == ' '),
    ensures
        first_sep(s.skip(p)) == (if first_sep(s.skip(j)) < 0 {
            -1
        } else {
            first_sep(s.skip(j)) + (j - p)
        }),
    decreases j - p,
{
    if p < j {
        let t = s.skip(p);
        assert(t.drop_first() =~= s.skip(p + 1));
        lemma_first_sep_skip(s, p + 1, j);
        if t.len() >= 2 {
            assert(t[0] == s[p] && t[1] == s[p + 1]);
        } else {
            crate::text::lemma_first_sep_bounds(s.skip(j));
        }
    }
}

/// Whether `symbol` is one of the `", "`-separated parts of `info_symbol`.
pub fn check_symbol(info_symbol: &str, symbol: &str) -> (b: bool)
    ensures
        b == lists_symbol(info_symbol@, symbol@),
{
    let v = chars_of(info_symbol);
    let sym = chars_of(symbol);
    let ghost s = info_symbol@;
    let n = v.len();
    let mut p: usize = 0;
    assert(s.skip(0) =~= s);
    loop
        invariant
            p <= n,
            n == s.len(),
            v@ == s,
            s == info_symbol@,
            sym@ == symbol@,
            lists_symbol(s, symbol@) == split_parts(s.skip(p as int)).contains(symbol@),
        decreases n - p,
    {
        let mut j: usize = p;
        while n >= 2 && j <= n - 2 && !(v[j] == ',' && v[j + 1] == ' ')
            invariant
                p <= j <= n,
                n == s.len(),
                v@ == s,
                forall|k: int|
                    p <= k < j && k + 1 < s.len() ==> !(#[trigger] s[k] == ',' && s[k + 1] == ' '),
            decreases n - j,
        {
            j = j + 1;
        }
        proof {
            lemma_first_sep_skip(s, p as int, j as int);
            crate::text::lemma_first_sep_bounds(s.skip(p as int));
        }
        let found = n >= 2 && j <= n - 2;
        let end = if found {
            j
        } else {
            n
        };
        let mut part: Vec<char> = Vec::new();
        let mut k: usize = p;
        while k < end
            invariant
                p <= k <= end <= n,
                n == s.len(),
                v@ == s,
                part@ == s.subrange(p as int, k as int),
            decreases end - k,
        {
            part.push(v[k]);
            k = k + 1;
            assert(part@ =~= s.subrange(p as int, k as int));
        }
        let ghost t = s.skip(p as int);
        if found {
            proof {
                assert(s.skip(j as int)[0] == s[j as int]);
                assert(first_sep(t) == j - p);
                assert(t.take(j - p) =~= part@);
                assert(t.skip(j - p + 2) =~= s.skip(j + 2));
                assert(split_parts(t) == seq![t.take(j - p)] + split_parts(t.skip(j - p + 2)));
            }
            if vec_eq(&part, &sym) {
                assert(split_parts(t)[0] == symbol@);
                assert(split_parts(t).contains(symbol@));
                return true;
            }
            proof {
                let rest = split_parts(s.skip(j + 2));
                assert(split_parts(t) =~= seq![part@] + rest);
                if rest.contains(symbol@) {
                    let i = choose|i: int| 0 <= i < rest.len() && rest[i] == symbol@;
                    assert(split_parts(t)[i + 1] == symbol@);
                }
                if split_parts(t).contains(symbol@) {
                    let i = choose|i: int|
                        0 <= i < split_parts(t).len() && split_parts(t)[i] == symbol@;
                    assert(i != 0);
                    assert(rest[i - 1] == symbol@);
                }
            }
            p = j + 2;
        } else {
            proof {
                if s.skip(j as int).len() >= 2 {
                    assert(false);
                }
                assert(first_sep(t) < 0);
                assert(part@ =~= t);
                assert(split_parts(t) == seq![t]);
                if split_parts(t).contains(symbol@) {
                    assert(split_parts(t)[0] == symbol@);
                }
                if part@ == symbol@ {
                    assert(split_parts(t)[0] == symbol@);
                }
            }
            return vec_eq(&part, &sym);
        }
    }
}

impl FinanzInstrumentInfos {
    /// The position of the first instrument meant by `symbol` or `isin`.
    fn find(&self, symbol: &str, isin: Option<&str>) -> (r: Option<usize>)
        ensures
            match r {
                Some(i) => first_instrument(self.infos@, symbol@, opt_view(isin)) == Some(i as int)
                    && i < self.infos@.len(),
                None => first_instrument(self.infos@, symbol@, opt_view(isin)) is None,
            },
    {
        let mut i: usize = 0;
        let ghost all = self.infos@;
        assert(all.skip(0) =~= all);
        while i < self.infos.len()
            invariant
                i <= all.len(),
                all == self.infos@,
                first_instrument(all, symbol@, opt_view(isin)) == match first_instrument(
                    all.skip(i as int),
                    symbol@,
                    opt_view(isin),
                ) {
                    Some(k) => Some(k + i),
                    None => None,
                },
            decreases all.len() - i,
        {
            let info = &self.infos[i];
            proof {
                let t = all.skip(i as int);
                assert(t[0] == all[i as int]);
                assert(t.drop_first() =~= all.skip(i + 1));
            }
            if check_symbol(info.symbol.as_str(), symbol) {
                return Some(i);
            }
            match isin {
                Some(id) => {
                    if str_eq(info.wertpapier_id.as_str(), id) || str_eq(info.conid.as_str(), id) {
                        return Some(i);
                    }
                },
                None => {},
            }
            i = i + 1;
        }
        None
    }

    /// Whether the instrument meant by `symbol` (or, when given, by `isin`)
    /// is an ETF; the first instrument that fits decides.
    pub fn is_etf(&self, symbol: &str, isin: Option<&str>) -> (r: Result<bool, Error>)
        ensures
            match first_instrument(self.infos@, symbol@, opt_view(isin)) {
                Some(i) => r == Ok::<bool, Error>(self.infos@[i].typ@ == "ETF"@),
                None => r matches Err(Error::SymbolNotFound(s)) && s@ == symbol@,
            },
    {
        match self.find(symbol, isin) {
            Some(i) => Ok(str_eq(self.infos[i].typ.as_str(), "ETF")),
            None => Err(Error::SymbolNotFound(symbol.to_owned())),
        }
    }

    /// Security id and description of the first instrument listing `symbol`.
    pub fn get_isin_and_name_by_symbol(&self, symbol: &str) -> (r: Result<(String, String), Error>)
        ensures
            match first_instrument(self.infos@, symbol@, None) {
                Some(i) => r matches Ok((isin, name)) && isin@ == self.infos@[i].wertpapier_id@
                    && name@ == self.infos@[i].beschreibung@,
                None => r matches Err(Error::SymbolNotFound(s)) && s@ == symbol@,
            },
    {
        match self.find(symbol, None) {
            Some(i) => Ok(
                (self.infos[i].wertpapier_id.clone(), self.infos[i].beschreibung.clone()),
            ),
            None => Err(Error::SymbolNotFound(symbol.to_owned())),
        }
    }
}

/// Whether an instrument row holds the cells of `f` by position: category,
/// symbol, description, contract id, security id, underlying, exchange,
/// (multiplier,) type and code.
pub open spec fn instrument_at(r: FinanzinstrumentRow, f: Seq<Seq<char>>) -> bool {
    &&& r.vermoegenswert_kategorie@ == cell_of(f, 0)
    &&& r.symbol@ == cell_of(f, 1)
    &&& r.beschreibung@ == cell_of(f, 2)
    &&& r.conid@ == cell_of(f, 3)
    &&& r.wertpapier_id@ == cell_of(f, 4)
    &&& r.basiswert@ == cell_of(f, 5)
    &&& r.boerse@ == cell_of(f, 6)
    &&& r.typ@ == cell_of(f, 8)
    &&& r.code@ == cell_of(f, 9)
}

impl FinanzInstrumentInfos {
    /// The instruments of a statement, one per `Data` row of
    /// `Informationen zum Finanzinstrument`, each cell read by its position
    /// (the multiplier in cell 7 is a number and stays with the caller). A
    /// statement without the table has no instruments.
    pub fn from_data_rows(groups: &Groups) -> (r: FinanzInstrumentInfos)
        ensures
            r.infos@.len() == selected(groups.rows("Informationen zum Finanzinstrument"@), RowFilter::All).len(),
            forall|k: int| 0 <= k < r.infos@.len() ==> instrument_at(
                #[trigger] r.infos@[k],
                selected(groups.rows("Informationen zum Finanzinstrument"@), RowFilter::All)[k],
            ),
    {
        let rows = data_rows(groups, "Informationen zum Finanzinstrument");
        let mut infos: Vec<FinanzinstrumentRow> = Vec::new();
        let mut i: usize = 0;
        while i < rows.len()
            invariant
                i <= rows.len(),
                infos@.len() == i,
                forall|k: int| 0 <= k < i ==> instrument_at(#[trigger] infos@[k], texts(rows@[k]@)),
            decreases rows.len() - i,
        {
            let f = rows[i];
            infos.push(
                FinanzinstrumentRow {
                    vermoegenswert_kategorie: cell_string(f, 0),
                    symbol: cell_string(f, 1),
                    beschreibung: cell_string(f, 2),
                    conid: cell_string(f, 3),
                    wertpapier_id: cell_string(f, 4),
                    basiswert: cell_string(f, 5),
                    boerse: cell_string(f, 6),
                    typ: cell_string(f, 8),
                    code: cell_string(f, 9),
                },
            );
            i = i + 1;
        }
        proof {
            assert forall|k: int| 0 <= k < infos@.len() implies field_rows(rows@)[k] == texts(
                rows@[k]@,
            ) by {}
        }
        FinanzInstrumentInfos { infos }
    }
}

/// The characters of an optional text.
pub open spec fn opt_view(s: Option<&str>) -> Option<Seq<char>> {
    match s {
        Some(t) => Some(t@),
        None => None,
    }
}


// ------------------------------------------------------------------
// Reading the table by its header
// ------------------------------------------------------------------

/// The fields of the first `Header` row among `rows`.
pub open spec fn first_header(rows: Seq<(Seq<char>, Seq<Seq<char>>)>) -> Option<Seq<Seq<char>>>
    decreases rows.len(),
{
    if rows.len() == 0 {
        None
    } else if rows[0].0 == "Header"@ {
        Some(rows[0].1)
    } else {
        first_header(rows.drop_first())
    }
}

/// The last column of a header named `name`.
pub open spec fn header_column(header: Seq<Seq<char>>, name: Seq<char>) -> Option<int>
    decreases header.len(),
{
    if header.len() == 0 {
        None
    } else if header.last() == name {
        Some(header.len() - 1)
    } else {
        header_column(header.drop_last(), name)
    }
}

/// The cell of a row under the header column `name`, or the empty text.
pub open spec fn cell_named(f: Seq<Seq<char>>, header: Seq<Seq<char>>, name: Seq<char>) -> Seq<
    char,
> {
    match header_column(header, name) {
        Some(i) => cell_of(f, i),
        None => Seq::empty(),
    }
}

/// Whether an instrument row holds the named cells of `f`.
pub open spec fn instrument_of(r: FinanzinstrumentRow, f: Seq<Seq<char>>, h: Seq<Seq<char>>) -> bool {
    &&& r.vermoegenswert_kategorie@ == cell_named(f, h, "Vermögenswertkategorie"@)
    &&& r.symbol@ == cell_named(f, h, "Symbol"@)
    &&& r.beschreibung@ == cell_named(f, h, "Beschreibung"@)
    &&& r.conid@ == cell_named(f, h, "Conid"@)
    &&& r.wertpapier_id@ == cell_named(f, h, "Wertpapier-ID"@)
    &&& r.basiswert@ == cell_named(f, h, "Basiswert"@)
    &&& r.boerse@ == cell_named(f, h, "Börse"@)
    &&& r.typ@ == cell_named(f, h, "Typ"@)
    &&& r.code@ == cell_named(f, h, "Code"@)
}

/// The header row of table `table`.
pub fn header_of<'a>(groups: &'a Groups, table: &str) -> (r: Option<&'a Vec<String>>)
    ensures
        match r {
            Some(h) => first_header(groups.rows(table@)) == Some(texts(h@)),
            None => first_header(groups.rows(table@)) is None,
        },
{
    match groups.find_table(table) {
        None => None,
        Some(t) => {
            let rows = &groups.tables[t].rows;
            let ghost rv = rows_view(rows@);
            let mut i: usize = 0;
            assert(rv.skip(0) =~= rv);
            while i < rows.len()
                invariant
                    i <= rows.len(),
                    rv == rows_view(rows@),
                    rv == groups.rows(table@),
                    first_header(rv) == first_header(rv.skip(i as int)),
                decreases rows.len() - i,
            {
                proof {
                    let s = rv.skip(i as int);
                    assert(s[0] == rv[i as int]);
                    assert(rv[i as int] == row_view(rows@[i as int]));
                    assert(s.drop_first() =~= rv.skip(i + 1));
                }
                if str_eq(rows[i].kind.as_str(), "Header") {
                    return Some(&rows[i].fields);
                }
                i = i + 1;
            }
            None
        },
    }
}

/// The last column of `header` named `name`.
pub fn column_index(header: &Vec<String>, name: &str) -> (r: Option<usize>)
    ensures
        match r {
            Some(i) => header_column(texts(header@), name@) == Some(i as int),
            None => header_column(texts(header@), name@) is None,
        },
{
    let ghost h = texts(header@);
    let mut i: usize = header.len();
    assert(h.take(i as int) =~= h);
    while i > 0
        invariant
            i <= header.len(),
            h == texts(header@),
            header_column(h, name@) == header_column(h.take(i as int), name@),
        decreases i,
    {
        proof {
            assert(h.take(i as int).drop_last() =~= h.take(i - 1));
            assert(h.take(i as int).last() == header@[i - 1]@);
        }
        if str_eq(header[i - 1].as_str(), name) {
            return Some(i - 1);
        }
        i = i - 1;
    }
    None
}

fn named_string(f: &Vec<String>, col: Option<usize>) -> (s: String)
    ensures
        s@ == match col {
            Some(i) => cell_of(texts(f@), i as int),
            None => Seq::empty(),
        },
{
    match col {
        Some(i) => cell_string(f, i),
        None => String::new(),
    }
}

impl FinanzInstrumentInfos {
    /// The instruments of a statement, each column found by its header
    /// name; a column missing from the header reads as empty. Without a
    /// header row the table cannot be read.
    pub fn parse_from_groups(groups: &Groups) -> (r: Result<FinanzInstrumentInfos, Error>)
        ensures
            match first_header(groups.rows("Informationen zum Finanzinstrument"@)) {
                None => r == Err::<FinanzInstrumentInfos, Error>(Error::RecordNotFound),
                Some(h) => r matches Ok(infos) && {
                    let rows = selected(
                        groups.rows("Informationen zum Finanzinstrument"@),
                        RowFilter::All,
                    );
                    &&& infos.infos@.len() == rows.len()
                    &&& forall|k: int|
                        0 <= k < rows.len() ==> instrument_of(
                            #[trigger] infos.infos@[k],
                            rows[k],
                            h,
                        )
                },
            },
    {
        let table = "Informationen zum Finanzinstrument";
        let header = match header_of(groups, table) {
            Some(h) => h,
            None => {
                return Err(Error::RecordNotFound);
            },
        };
        let c_kat = column_index(header, "Vermögenswertkategorie");
        let c_sym = column_index(header, "Symbol");
        let c_bes = column_index(header, "Beschreibung");
        let c_con = column_index(header, "Conid");
        let c_wid = column_index(header, "Wertpapier-ID");
        let c_bas = column_index(header, "Basiswert");
        let c_boe = column_index(header, "Börse");
        let c_typ = column_index(header, "Typ");
        let c_cod = column_index(header, "Code");
        let ghost h = texts(header@);
        let rows = data_rows(groups, table);
        let mut infos: Vec<FinanzinstrumentRow> = Vec::new();
        let mut i: usize = 0;
        while i < rows.len()
            invariant
                i <= rows.len(),
                infos@.len() == i,
                h == texts(header@),
                match c_kat { Some(x) => header_column(h, "Vermögenswertkategorie"@) == Some(x as int), None => header_column(h, "Vermögenswertkategorie"@) is None },
                match c_sym { Some(x) => header_column(h, "Symbol"@) == Some(x as int), None => header_column(h, "Symbol"@) is None },
                match c_bes { Some(x) => header_column(h, "Beschreibung"@) == Some(x as int), None => header_column(h, "Beschreibung"@) is None },
                match c_con { Some(x) => header_column(h, "Conid"@) == Some(x as int), None => header_column(h, "Conid"@) is None },
                match c_wid { Some(x) => header_column(h, "Wertpapier-ID"@) == Some(x as int), None => header_column(h, "Wertpapier-ID"@) is None },
                match c_bas { Some(x) => header_column(h, "Basiswert"@) == Some(x as int), None => header_column(h, "Basiswert"@) is None },
                match c_boe { Some(x) => header_column(h, "Börse"@) == Some(x as int), None => header_column(h, "Börse"@) is None },
                match c_typ { Some(x) => header_column(h, "Typ"@) == Some(x as int), None => header_column(h, "Typ"@) is None },
                match c_cod { Some(x) => header_column(h, "Code"@) == Some(x as int), None => header_column(h, "Code"@) is None },
                forall|k: int| 0 <= k < i ==> instrument_of(#[trigger] infos@[k], texts(rows@[k]@), h),
            decreases rows.len() - i,
        {
            let f = rows[i];
            infos.push(
                FinanzinstrumentRow {
                    vermoegenswert_kategorie: named_string(f, c_kat),
                    symbol: named_string(f, c_sym),
                    beschreibung: named_string(f, c_bes),
                    conid: named_string(f, c_con),
                    wertpapier_id: named_string(f, c_wid),
                    basiswert: named_string(f, c_bas),
                    boerse: named_string(f, c_boe),
                    typ: named_string(f, c_typ),
                    code: named_string(f, c_cod),
                },
            );
            i = i + 1;
        }
        proof {
            assert forall|k: int| 0 <= k < rows@.len() implies field_rows(rows@)[k] == texts(
                rows@[k]@,
            ) by {}
        }
        Ok(FinanzInstrumentInfos { infos })
    }
}
} // verus!
