//! Withholding tax kept per jurisdiction.

use vstd::prelude::*;

use crate::date::{convert_date, day_of, has_ten_byte_prefix};
use crate::dividends::quote_known;
use crate::error::Error;
use crate::fx::{rate_for, FxQuote, FxRates};
use crate::instruments::{first_instrument, FinanzInstrumentInfos};
use crate::keyed::KeyedLists;
use crate::parser::{asset_ids_match, code_before, parse_asset_ids, parse_jurisdiction};

verus! {

/// Withholding taxes (`Q`) per jurisdiction, in the order in which they were
/// booked.
pub struct QuellensteuerPerJurisdiktion<Q> {
    qsteuer_per_juris: KeyedLists<Q>,
}

impl<Q> QuellensteuerPerJurisdiktion<Q> {
    /// Whether there is a tax of jurisdiction `j`.
    pub closed spec fn has(self, j: Seq<char>) -> bool {
        self.qsteuer_per_juris.has(j)
    }

    /// The taxes of jurisdiction `j`, in booking order.
    pub closed spec fn taxes(self, j: Seq<char>) -> Seq<Q> {
        self.qsteuer_per_juris.list(j)
    }

    /// No taxes.
    pub fn new() -> (r: Self)
        ensures
            forall|j: Seq<char>| !#[trigger] r.has(j) && r.taxes(j) == Seq::<Q>::empty(),
    {
        QuellensteuerPerJurisdiktion { qsteuer_per_juris: KeyedLists::new() }
    }

    /// Books tax `qtax` for jurisdiction `jurisdiktion`, after its earlier
    /// taxes; the other jurisdictions keep theirs.
    pub fn insert(&mut self, jurisdiktion: String, qtax: Q)
        ensures
            final(self).has(jurisdiktion@),
            final(self).taxes(jurisdiktion@) == old(self).taxes(jurisdiktion@).push(qtax),
            forall|j: Seq<char>| j != jurisdiktion@
                ==> #[trigger] final(self).has(j) == old(self).has(j)
                    && final(self).taxes(j) == old(self).taxes(j),
    {
        self.qsteuer_per_juris.push(jurisdiktion.as_str(), qtax);
    }

    /// The taxes per jurisdiction.
    pub fn per_jurisdiction(&self) -> (r: &KeyedLists<Q>)
        ensures
            forall|j: Seq<char>| #[trigger] r.has(j) == self.has(j) && r.list(j) == self.taxes(j),
    {
        &self.qsteuer_per_juris
    }
}

/// `Quellensteuer` – withholding tax (`N` is the amount).
pub struct QuellensteuerRow<N> {
    pub waehrung: String,
    pub datum: String,
    pub beschreibung: String,
    pub betrag: N,
    pub code: String,
}

/// A withholding tax with the rate of its currency on its day.
pub struct QuellensteuerParts<'a, N, V> {
    pub beschreibung: String,
    pub datum: String,
    pub waehrung: String,
    pub betrag: N,
    pub fx: FxQuote<'a, V>,
}

/// The jurisdiction named at the end of a description (`- XY Steuer`, or
/// else `- XY TAX`).
pub open spec fn jurisdiction_of(s: Seq<char>) -> Option<Seq<char>> {
    match code_before(s, "Steuer"@) {
        Some(t) => Some(t),
        None => code_before(s, "TAX"@),
    }
}

/// The position of the instrument that a tax's description names.
pub open spec fn tax_instrument<N>(r: QuellensteuerRow<N>, instruments: FinanzInstrumentInfos) -> Option<int> {
    match asset_ids_match(r.beschreibung@) {
        Some((sym, isin)) => first_instrument(instruments.infos@, sym, Some(isin)),
        None => None,
    }
}

/// Whether a tax row stops the reading: its date does not read, its
/// currency has no rate that day, its description names no jurisdiction, no
/// symbol or an instrument that the statement does not list.
pub open spec fn tax_fails<N, V>(
    r: QuellensteuerRow<N>,
    rates: FxRates<V>,
    instruments: FinanzInstrumentInfos,
) -> bool {
    day_of(r.datum@) is None || !quote_known(rates, r.waehrung@, day_of(r.datum@)->0)
        || jurisdiction_of(r.beschreibung@) is None || tax_instrument(r, instruments) is None
}

/// The error that a failing tax row gives: the first of the checks in the
/// order date, rate, jurisdiction, description, instrument.
pub open spec fn tax_error<N, V>(
    e: Error,
    r: QuellensteuerRow<N>,
    rates: FxRates<V>,
    instruments: FinanzInstrumentInfos,
) -> bool {
    if day_of(r.datum@) is None {
        e == Error::FailedToParseDate
    } else if !quote_known(rates, r.waehrung@, day_of(r.datum@)->0) {
        e matches Error::CurrencyNotFound(c) && c@ == r.waehrung@
    } else if jurisdiction_of(r.beschreibung@) is None {
        e matches Error::FailedToParseJurisdiction(d) && d@ == r.beschreibung@
    } else if asset_ids_match(r.beschreibung@) is None {
        e == Error::FailedToParseSymbolsFromDescription
    } else {
        e matches Error::SymbolNotFound(s) && s@ == (asset_ids_match(r.beschreibung@)->0).0
    }
}

/// Whether a tax that does not fail was withheld on an ETF.
pub open spec fn tax_on_etf<N>(r: QuellensteuerRow<N>, instruments: FinanzInstrumentInfos) -> bool {
    instruments.infos@[tax_instrument(r, instruments)->0].typ@ == "ETF"@
}

/// The rows among `rows` of jurisdiction `j` withheld on an ETF (`etf`)
/// or on a share (`!etf`).
pub open spec fn tax_rows<N>(
    rows: Seq<QuellensteuerRow<N>>,
    instruments: FinanzInstrumentInfos,
    etf: bool,
    j: Seq<char>,
) -> Seq<QuellensteuerRow<N>>
    decreases rows.len(),
{
    if rows.len() == 0 {
        Seq::empty()
    } else if tax_on_etf(rows.last(), instruments) == etf && jurisdiction_of(rows.last().beschreibung@)
        == Some(j) {
        tax_rows(rows.drop_last(), instruments, etf, j).push(rows.last())
    } else {
        tax_rows(rows.drop_last(), instruments, etf, j)
    }
}

/// Whether `p` is what row `r` gives.
pub open spec fn tax_parts_of<N, V>(p: QuellensteuerParts<N, V>, r: QuellensteuerRow<N>, rates: FxRates<V>) -> bool {
    &&& p.beschreibung@ == r.beschreibung@
    &&& p.datum@ == r.datum@
    &&& p.betrag == r.betrag
    &&& p.waehrung@ == r.waehrung@
    &&& (r.waehrung@ == "EUR"@ ==> p.fx matches FxQuote::Euro)
    &&& (r.waehrung@ != "EUR"@ ==> (p.fx matches FxQuote::PerEuro(v) && Some(*v) == rate_for(
        rates.table(r.waehrung@),
        day_of(r.datum@)->0,
    )))
}

/// Whether the taxes per jurisdiction `q` are, for every jurisdiction, what
/// its rows of the wanted kind give, in order.
pub open spec fn taxes_of<N, V>(
    q: QuellensteuerPerJurisdiktion<QuellensteuerParts<N, V>>,
    rows: Seq<QuellensteuerRow<N>>,
    rates: FxRates<V>,
    instruments: FinanzInstrumentInfos,
    etf: bool,
) -> bool {
    forall|j: Seq<char>| {
        let t = #[trigger] tax_rows(rows, instruments, etf, j);
        &&& q.has(j) <==> t.len() > 0
        &&& q.taxes(j).len() == t.len()
        &&& forall|k: int| 0 <= k < t.len() ==> tax_parts_of(#[trigger] q.taxes(j)[k], t[k], rates)
    }
}

/// Whether every tax row up to the first one that stops the reading has a
/// date whose first ten bytes are whole characters.
pub open spec fn tax_dates_reached<N, V>(
    rows: Seq<QuellensteuerRow<N>>,
    rates: FxRates<V>,
    instruments: FinanzInstrumentInfos,
) -> bool {
    forall|k: int|
        0 <= k < rows.len() && (forall|j: int|
            0 <= j < k ==> !tax_fails(#[trigger] rows[j], rates, instruments))
            ==> has_ten_byte_prefix((#[trigger] rows[k]).datum@)
}

/// The withholding taxes of the statement per jurisdiction, those on shares
/// and those on ETFs, each in the statement's order. The first row whose
/// date does not read, whose currency has no rate that day, or whose
/// description names no jurisdiction or no instrument of the statement
/// stops it.
pub fn get_quellensteuer<'a, N: Copy, V>(
    rows: &Vec<QuellensteuerRow<N>>,
    fx_rates: &'a FxRates<V>,
    instruments: &FinanzInstrumentInfos,
) -> (r: Result<
    (
        QuellensteuerPerJurisdiktion<QuellensteuerParts<'a, N, V>>,
        QuellensteuerPerJurisdiktion<QuellensteuerParts<'a, N, V>>,
    ),
    Error,
>)
    requires
        tax_dates_reached(rows@, *fx_rates, *instruments),
    ensures
        r is Ok <==> forall|k: int|
            0 <= k < rows@.len() ==> !tax_fails(#[trigger] rows@[k], *fx_rates, *instruments),
        r matches Err(e) ==> exists|k: int|
            0 <= k < rows@.len() && tax_fails(#[trigger] rows@[k], *fx_rates, *instruments)
                && tax_error(e, rows@[k], *fx_rates, *instruments) && forall|j: int|
                0 <= j < k ==> !tax_fails(#[trigger] rows@[j], *fx_rates, *instruments),
        r matches Ok((aktien, etfs)) ==> taxes_of(aktien, rows@, *fx_rates, *instruments, false)
            && taxes_of(etfs, rows@, *fx_rates, *instruments, true),
{
    let mut aktien: QuellensteuerPerJurisdiktion<QuellensteuerParts<'a, N, V>> =
        QuellensteuerPerJurisdiktion::new();
    let mut etfs: QuellensteuerPerJurisdiktion<QuellensteuerParts<'a, N, V>> =
        QuellensteuerPerJurisdiktion::new();
    let mut i: usize = 0;
    while i < rows.len()
        invariant
            i <= rows@.len(),
            tax_dates_reached(rows@, *fx_rates, *instruments),
            forall|k: int| 0 <= k < i ==> !tax_fails(#[trigger] rows@[k], *fx_rates, *instruments),
            taxes_of(aktien, rows@.take(i as int), *fx_rates, *instruments, false),
            taxes_of(etfs, rows@.take(i as int), *fx_rates, *instruments, true),
        decreases rows@.len() - i,
    {
        let row = &rows[i];
        let ghost pre = rows@.take(i as int);
        let ghost post = rows@.take(i + 1);
        proof {
            reveal_strlit("EUR");
            assert(post.drop_last() =~= pre);
            assert(post.last() == rows@[i as int]);
        }
        let date = match convert_date(row.datum.as_str()) {
            Ok(d) => d,
            Err(e) => {
                return Err(e);
            },
        };
        let fx = match fx_rates.get_fx_rate(date, row.waehrung.as_str()) {
            Ok(q) => q,
            Err(e) => {
                return Err(e);
            },
        };
        let jurisdiktion = match parse_jurisdiction(row.beschreibung.as_str()) {
            Ok(j) => j,
            Err(e) => {
                return Err(e);
            },
        };
        let (symbol, isin) = match parse_asset_ids(row.beschreibung.as_str()) {
            Ok(p) => p,
            Err(e) => {
                return Err(e);
            },
        };
        let is_etf = match instruments.is_etf(symbol.as_str(), Some(isin.as_str())) {
            Ok(b) => b,
            Err(e) => {
                return Err(e);
            },
        };
        let ghost jv = jurisdiktion@;
        let parts = QuellensteuerParts {
            beschreibung: row.beschreibung.clone(),
            datum: row.datum.clone(),
            waehrung: row.waehrung.clone(),
            betrag: row.betrag,
            fx,
        };
        proof {
            assert(jurisdiction_of(row.beschreibung@) == Some(jv));
            assert(tax_parts_of(parts, rows@[i as int], *fx_rates));
        }
        if is_etf {
            let ghost before = etfs;
            etfs.insert(jurisdiktion, parts);
            proof {
                assert forall|j: Seq<char>| #![trigger tax_rows(post, *instruments, false, j)]
                    tax_rows(post, *instruments, false, j) == tax_rows(pre, *instruments, false, j) by {}
                assert forall|j: Seq<char>| {
                    let t = #[trigger] tax_rows(post, *instruments, true, j);
                    &&& etfs.has(j) <==> t.len() > 0
                    &&& etfs.taxes(j).len() == t.len()
                    &&& forall|k: int| 0 <= k < t.len() ==> tax_parts_of(#[trigger] etfs.taxes(j)[k], t[k], *fx_rates)
                } by {
                    let t = tax_rows(post, *instruments, true, j);
                    let t0 = tax_rows(pre, *instruments, true, j);
                    if j == jv {
                        assert(t == t0.push(rows@[i as int]));
                        assert forall|k: int| 0 <= k < t.len() implies tax_parts_of(#[trigger] etfs.taxes(j)[k], t[k], *fx_rates) by {
                            if k < t0.len() {
                                assert(etfs.taxes(j)[k] == before.taxes(j)[k]);
                            }
                        }
                    } else {
                        assert(t == t0);
                    }
                }
            }
        } else {
            let ghost before = aktien;
            aktien.insert(jurisdiktion, parts);
            proof {
                assert forall|j: Seq<char>| #![trigger tax_rows(post, *instruments, true, j)]
                    tax_rows(post, *instruments, true, j) == tax_rows(pre, *instruments, true, j) by {}
                assert forall|j: Seq<char>| {
                    let t = #[trigger] tax_rows(post, *instruments, false, j);
                    &&& aktien.has(j) <==> t.len() > 0
                    &&& aktien.taxes(j).len() == t.len()
                    &&& forall|k: int| 0 <= k < t.len() ==> tax_parts_of(#[trigger] aktien.taxes(j)[k], t[k], *fx_rates)
                } by {
                    let t = tax_rows(post, *instruments, false, j);
                    let t0 = tax_rows(pre, *instruments, false, j);
                    if j == jv {
                        assert(t == t0.push(rows@[i as int]));
                        assert forall|k: int| 0 <= k < t.len() implies tax_parts_of(#[trigger] aktien.taxes(j)[k], t[k], *fx_rates) by {
                            if k < t0.len() {
                                assert(aktien.taxes(j)[k] == before.taxes(j)[k]);
                            }
                        }
                    } else {
                        assert(t == t0);
                    }
                }
            }
        }
        i = i + 1;
    }
    proof {
        assert(rows@.take(rows@.len() as int) =~= rows@);
    }
    Ok((aktien, etfs))
}

/// The rows of a jurisdiction and kind are rows of the statement, of that
/// jurisdiction.
proof fn lemma_tax_rows_in<N>(
    rows: Seq<QuellensteuerRow<N>>,
    instruments: FinanzInstrumentInfos,
    etf: bool,
    j: Seq<char>,
)
    ensures
        forall|k: int|
            0 <= k < tax_rows(rows, instruments, etf, j).len() ==> jurisdiction_of(
                (#[trigger] tax_rows(rows, instruments, etf, j)[k]).beschreibung@,
            ) == Some(j) && exists|i: int|
                0 <= i < rows.len() && rows[i] == tax_rows(rows, instruments, etf, j)[k],
    decreases rows.len(),
{
    if rows.len() > 0 {
        let p = rows.drop_last();
        lemma_tax_rows_in(p, instruments, etf, j);
        let t = tax_rows(rows, instruments, etf, j);
        let tp = tax_rows(p, instruments, etf, j);
        assert forall|k: int| 0 <= k < t.len() implies jurisdiction_of(
            (#[trigger] t[k]).beschreibung@,
        ) == Some(j) && exists|i: int| 0 <= i < rows.len() && rows[i] == t[k] by {
            if k < tp.len() {
                assert(t[k] == tp[k]);
                let i = choose|i: int| 0 <= i < p.len() && p[i] == tp[k];
                assert(rows[i] == p[i]);
            } else {
                assert(t[k] == rows[rows.len() - 1]);
            }
        }
    }
}

/// Law: every withholding tax handed out for a jurisdiction is one row of
/// the statement of that jurisdiction, with that row's currency,
/// description, date and amount, and with the euro as its rate exactly
/// where the row is in euros.
pub proof fn law_taxes_keep_their_rows<N, V>(
    q: QuellensteuerPerJurisdiktion<QuellensteuerParts<N, V>>,
    rows: Seq<QuellensteuerRow<N>>,
    rates: FxRates<V>,
    instruments: FinanzInstrumentInfos,
    etf: bool,
)
    requires
        taxes_of(q, rows, rates, instruments, etf),
    ensures
        forall|j: Seq<char>, k: int|
            #![trigger q.taxes(j)[k]]
            0 <= k < q.taxes(j).len() ==> exists|i: int|
                #![trigger rows[i]]
                0 <= i < rows.len() && jurisdiction_of(rows[i].beschreibung@) == Some(j)
                    && q.taxes(j)[k].waehrung@ == rows[i].waehrung@ && q.taxes(j)[k].beschreibung@
                    == rows[i].beschreibung@ && q.taxes(j)[k].datum@ == rows[i].datum@
                    && q.taxes(j)[k].betrag == rows[i].betrag && (q.taxes(j)[k].fx is Euro) == (
                    rows[i].waehrung@ == "EUR"@),
{
    assert forall|j: Seq<char>, k: int|
        #![trigger q.taxes(j)[k]]
        0 <= k < q.taxes(j).len() implies exists|i: int|
        #![trigger rows[i]]
        0 <= i < rows.len() && jurisdiction_of(rows[i].beschreibung@) == Some(j)
            && q.taxes(j)[k].waehrung@ == rows[i].waehrung@ && q.taxes(j)[k].beschreibung@
            == rows[i].beschreibung@ && q.taxes(j)[k].datum@ == rows[i].datum@
            && q.taxes(j)[k].betrag == rows[i].betrag && (q.taxes(j)[k].fx is Euro) == (
                    rows[i].waehrung@ == "EUR"@) by {
        let t = tax_rows(rows, instruments, etf, j);
        assert(tax_parts_of(q.taxes(j)[k], t[k], rates));
        lemma_tax_rows_in(rows, instruments, etf, j);
        assert(jurisdiction_of(t[k].beschreibung@) == Some(j));
        let i = choose|i: int| 0 <= i < rows.len() && rows[i] == t[k];
        assert(rows[i] == t[k]);
    }
}

} // verus!
