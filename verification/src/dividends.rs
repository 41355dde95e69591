//! Dividends of a statement, split into those of shares and those of ETFs,
//! each with the rate of its currency on its day.

use vstd::prelude::*;

use crate::date::{convert_date, day_of, has_ten_byte_prefix};
use crate::error::Error;
use crate::fx::{rate_for, FxQuote, FxRates};
use crate::instruments::{first_instrument, FinanzInstrumentInfos};
use crate::parser::{asset_ids_match, parse_asset_ids};

verus! {

/// `Dividenden` – dividend income (`N` is the amount).
#[derive(Clone)]
pub struct DividendeRow<N> {
    pub waehrung: String,
    pub datum: String,
    pub beschreibung: String,
    pub betrag: N,
}

/// A dividend with the rate of its currency on its day and whether it was
/// paid by an ETF.
pub struct DividendParts<'a, N, V> {
    pub beschreibung: String,
    pub date: String,
    pub betrag: N,
    pub waehrung: String,
    pub fx: FxQuote<'a, V>,
    pub is_etf: bool,
}

/// Whether a rate of currency `cur` on day `day` is known.
pub open spec fn quote_known<V>(rates: FxRates<V>, cur: Seq<char>, day: int) -> bool {
    cur == "EUR"@ || (rates.has_currency(cur) && rate_for(rates.table(cur), day) is Some)
}

/// The position of the instrument that a dividend's description names.
pub open spec fn dividend_instrument<N>(r: DividendeRow<N>, instruments: FinanzInstrumentInfos) -> Option<
    int,
> {
    match asset_ids_match(r.beschreibung@) {
        Some((sym, isin)) => first_instrument(instruments.infos@, sym, Some(isin)),
        None => None,
    }
}

/// Whether a dividend row stops the computation: its date does not read,
/// its currency has no rate that day, its description names no symbol or
/// an instrument that the statement does not list.
pub open spec fn dividend_fails<N, V>(
    r: DividendeRow<N>,
    rates: FxRates<V>,
    instruments: FinanzInstrumentInfos,
) -> bool {
    day_of(r.datum@) is None || !quote_known(rates, r.waehrung@, day_of(r.datum@)->0)
        || dividend_instrument(r, instruments) is None
}

/// The error that a failing dividend row gives: the first of the checks in
/// the order date, rate, description, instrument.
pub open spec fn dividend_error<N, V>(
    e: Error,
    r: DividendeRow<N>,
    rates: FxRates<V>,
    instruments: FinanzInstrumentInfos,
) -> bool {
    if day_of(r.datum@) is None {
        e == Error::FailedToParseDate
    } else if !quote_known(rates, r.waehrung@, day_of(r.datum@)->0) {
        e matches Error::CurrencyNotFound(c) && c@ == r.waehrung@
    } else if asset_ids_match(r.beschreibung@) is None {
        e == Error::FailedToParseSymbolsFromDescription
    } else {
        e matches Error::SymbolNotFound(s) && s@ == (asset_ids_match(r.beschreibung@)->0).0
    }
}

/// Whether a dividend that does not fail was paid by an ETF.
pub open spec fn paid_by_etf<N>(r: DividendeRow<N>, instruments: FinanzInstrumentInfos) -> bool {
    instruments.infos@[dividend_instrument(r, instruments)->0].typ@ == "ETF"@
}

/// The rows among `rows` paid by an ETF (`etf`) or by a share (`!etf`).
pub open spec fn rows_of_kind<N>(
    rows: Seq<DividendeRow<N>>,
    instruments: FinanzInstrumentInfos,
    etf: bool,
) -> Seq<DividendeRow<N>>
    decreases rows.len(),
{
    if rows.len() == 0 {
        Seq::empty()
    } else if paid_by_etf(rows.last(), instruments) == etf {
        rows_of_kind(rows.drop_last(), instruments, etf).push(rows.last())
    } else {
        rows_of_kind(rows.drop_last(), instruments, etf)
    }
}

/// Whether `p` is what row `r` gives.
pub open spec fn dividend_parts_of<N, V>(
    p: DividendParts<N, V>,
    r: DividendeRow<N>,
    rates: FxRates<V>,
    instruments: FinanzInstrumentInfos,
) -> bool {
    &&& p.beschreibung@ == r.beschreibung@
    &&& p.date@ == r.datum@
    &&& p.betrag == r.betrag
    &&& p.waehrung@ == r.waehrung@
    &&& p.is_etf == paid_by_etf(r, instruments)
    &&& (r.waehrung@ == "EUR"@ ==> p.fx matches FxQuote::Euro)
    &&& (r.waehrung@ != "EUR"@ ==> (p.fx matches FxQuote::PerEuro(v) && Some(*v) == rate_for(
        rates.table(r.waehrung@),
        day_of(r.datum@)->0,
    )))
}

/// Whether `out` holds, in order, what the rows `rows` give.
pub open spec fn all_parts_of<N, V>(
    out: Seq<DividendParts<N, V>>,
    rows: Seq<DividendeRow<N>>,
    rates: FxRates<V>,
    instruments: FinanzInstrumentInfos,
) -> bool {
    out.len() == rows.len() && forall|k: int|
        0 <= k < out.len() ==> dividend_parts_of(#[trigger] out[k], rows[k], rates, instruments)
}

/// Whether every dividend row up to the first one that stops the
/// computation has a date whose first ten bytes are whole characters.
pub open spec fn dividend_dates_reached<N, V>(
    rows: Seq<DividendeRow<N>>,
    rates: FxRates<V>,
    instruments: FinanzInstrumentInfos,
) -> bool {
    forall|k: int|
        0 <= k < rows.len() && (forall|j: int|
            0 <= j < k ==> !dividend_fails(#[trigger] rows[j], rates, instruments))
            ==> has_ten_byte_prefix((#[trigger] rows[k]).datum@)
}

/// The dividends of the statement, those of shares and those of ETFs, each
/// in the statement's order. The first row whose date does not read, whose
/// currency has no rate that day, or whose description names no instrument
/// of the statement stops it.
pub fn berechne_dividenden<'a, N: Copy, V>(
    dividenden: &Vec<DividendeRow<N>>,
    fx_rates: &'a FxRates<V>,
    instruments: &FinanzInstrumentInfos,
) -> (r: Result<(Vec<DividendParts<'a, N, V>>, Vec<DividendParts<'a, N, V>>), Error>)
    requires
        dividend_dates_reached(dividenden@, *fx_rates, *instruments),
    ensures
        r is Ok <==> forall|k: int|
            0 <= k < dividenden@.len() ==> !dividend_fails(#[trigger] dividenden@[k], *fx_rates, *instruments),
        r matches Err(e) ==> exists|k: int|
            0 <= k < dividenden@.len() && dividend_fails(#[trigger] dividenden@[k], *fx_rates, *instruments)
                && dividend_error(e, dividenden@[k], *fx_rates, *instruments) && forall|j: int|
                0 <= j < k ==> !dividend_fails(#[trigger] dividenden@[j], *fx_rates, *instruments),
        r matches Ok((aktien, etfs)) ==> all_parts_of(
            aktien@,
            rows_of_kind(dividenden@, *instruments, false),
            *fx_rates,
            *instruments,
        ) && all_parts_of(etfs@, rows_of_kind(dividenden@, *instruments, true), *fx_rates, *instruments),
{
    let mut aktien: Vec<DividendParts<'a, N, V>> = Vec::new();
    let mut etfs: Vec<DividendParts<'a, N, V>> = Vec::new();
    let mut i: usize = 0;
    while i < dividenden.len()
        invariant
            i <= dividenden@.len(),
            dividend_dates_reached(dividenden@, *fx_rates, *instruments),
            forall|k: int| 0 <= k < i ==> !dividend_fails(#[trigger] dividenden@[k], *fx_rates, *instruments),
            all_parts_of(
                aktien@,
                rows_of_kind(dividenden@.take(i as int), *instruments, false),
                *fx_rates,
                *instruments,
            ),
            all_parts_of(
                etfs@,
                rows_of_kind(dividenden@.take(i as int), *instruments, true),
                *fx_rates,
                *instruments,
            ),
        decreases dividenden@.len() - i,
    {
        let div = &dividenden[i];
        proof {
            reveal_strlit("EUR");
            assert(dividenden@.take(i + 1).drop_last() =~= dividenden@.take(i as int));
            assert(dividenden@.take(i + 1).last() == dividenden@[i as int]);
        }
        let date = match convert_date(div.datum.as_str()) {
            Ok(d) => d,
            Err(e) => {
                return Err(e);
            },
        };
        let fx = match fx_rates.get_fx_rate(date, div.waehrung.as_str()) {
            Ok(q) => q,
            Err(e) => {
                return Err(e);
            },
        };
        let (symbol, isin) = match parse_asset_ids(div.beschreibung.as_str()) {
            Ok(p) => p,
            Err(e) => {
                return Err(e);
            },
        };
        let is_etf = match instruments.is_etf(symbol.as_str(), Some(isin.as_str())) {
            Ok(b) => b,
            Err(e) => {
                return Err(e);
            },
        };
        let parts = DividendParts {
            beschreibung: div.beschreibung.clone(),
            date: div.datum.clone(),
            betrag: div.betrag,
            waehrung: div.waehrung.clone(),
            fx,
            is_etf,
        };
        if is_etf {
            etfs.push(parts);
        } else {
            aktien.push(parts);
        }
        i = i + 1;
    }
    proof {
        assert(dividenden@.take(dividenden@.len() as int) =~= dividenden@);
    }
    Ok((aktien, etfs))
}

/// Every dividend is counted once: among those of shares or among those of
/// ETFs.
pub proof fn lemma_dividends_split<N>(rows: Seq<DividendeRow<N>>, instruments: FinanzInstrumentInfos)
    ensures
        rows_of_kind(rows, instruments, true).len() + rows_of_kind(rows, instruments, false).len()
            == rows.len(),
    decreases rows.len(),
{
    if rows.len() > 0 {
        lemma_dividends_split(rows.drop_last(), instruments);
    }
}

} // verus!
