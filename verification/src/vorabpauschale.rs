//! ETF positions held over a year, and the facts that the advance lump sum
//! (Vorabpauschale) of each is computed from. The amounts (`N`) are numbers
//! of the caller; the computation of the tax itself is arithmetic on them.

use vstd::prelude::*;

use crate::error::Error;
use crate::instruments::{first_instrument, FinanzInstrumentInfos};
use crate::keyed::KeyedLists;

verus! {

/// Kind of fund, which sets the part of the income that is tax free.
#[derive(Debug, Clone, Copy, PartialEq, Eq, Structural)]
pub enum FondsTyp {
    Aktien,
    Mixed,
}

/// A purchase of an ETF: quantity, value in EUR, kind of fund, dividends
/// paid on it, and the months (of twelve) for which it was held.
#[derive(Clone, Copy)]
pub struct EtfPosition<N> {
    pub menge: N,
    pub eur_betrag: N,
    pub fonds_typ: FondsTyp,
    pub dividenden: N,
    pub monate: u8,
}

impl<N> EtfPosition<N> {
    /// A position; `dividenden` are the dividends paid on it so far (none on
    /// a new purchase).
    pub fn new(menge: N, eur_betrag: N, fonds_typ: FondsTyp, monate: u8, dividenden: N) -> (r: Self)
        ensures
            r == (EtfPosition { menge, eur_betrag, fonds_typ, dividenden, monate }),
    {
        EtfPosition { menge, eur_betrag, fonds_typ, dividenden, monate }
    }
}

/// The ETF positions per symbol.
pub struct EtfPositionen<N> {
    positionen: KeyedLists<EtfPosition<N>>,
}

impl<N> EtfPositionen<N> {
    /// Whether there are positions of `symbol`.
    pub closed spec fn has(self, symbol: Seq<char>) -> bool {
        self.positionen.has(symbol)
    }

    /// The positions of `symbol`, oldest first.
    pub closed spec fn of(self, symbol: Seq<char>) -> Seq<EtfPosition<N>> {
        self.positionen.list(symbol)
    }

    /// The symbols, in the order in which they first came.
    pub closed spec fn symbols(self) -> Seq<Seq<char>> {
        self.positionen.order()
    }

    /// No positions.
    pub fn new() -> (r: Self)
        ensures
            r.symbols() == Seq::<Seq<char>>::empty(),
            forall|s: Seq<char>| !#[trigger] r.has(s) && r.of(s) == Seq::<EtfPosition<N>>::empty(),
    {
        EtfPositionen { positionen: KeyedLists::new() }
    }

    /// Adds `position` after the positions of `symbol`.
    pub fn add_position(&mut self, symbol: &str, position: EtfPosition<N>)
        ensures
            final(self).symbols() == (if old(self).has(symbol@) {
                old(self).symbols()
            } else {
                old(self).symbols().push(symbol@)
            }),
            final(self).has(symbol@),
            final(self).of(symbol@) == old(self).of(symbol@).push(position),
            forall|s: Seq<char>| s != symbol@
                ==> #[trigger] final(self).has(s) == old(self).has(s)
                    && final(self).of(s) == old(self).of(s),
    {
        self.positionen.push(symbol, position);
    }

    /// The positions of `symbol`, where there are any.
    pub fn get_positionen(&self, symbol: &str) -> (r: Option<&Vec<EtfPosition<N>>>)
        ensures
            r is Some <==> self.has(symbol@),
            r matches Some(v) ==> v@ == self.of(symbol@),
    {
        self.positionen.get(symbol)
    }

    /// All symbols with their positions, in the order of `symbols`.
    pub fn get_alle_positionen(&self) -> (r: &Vec<(String, Vec<EtfPosition<N>>)>)
        ensures
            r@.len() == self.symbols().len(),
            forall|i: int| 0 <= i < r@.len() ==> (#[trigger] r@[i]).0@ == self.symbols()[i]
                && r@[i].1@ == self.of(r@[i].0@) && self.has(r@[i].0@),
            forall|s: Seq<char>| #[trigger] self.has(s)
                ==> exists|i: int| 0 <= i < r@.len() && r@[i].0@ == s,
    {
        let r = self.positionen.entries();
        proof {
            assert forall|i: int| 0 <= i < r@.len() implies (#[trigger] r@[i]).0@ == self.symbols()[i]
                && r@[i].1@ == self.of(r@[i].0@) && self.has(r@[i].0@) by {
                assert(self.positionen.has(r@[i].0@));
            }
        }
        r
    }

    /// Makes `positions` the positions of `symbol`, in place of any it had.
    pub fn set_positionen(&mut self, symbol: &str, positions: Vec<EtfPosition<N>>)
        ensures
            final(self).symbols() == (if old(self).has(symbol@) {
                old(self).symbols()
            } else {
                old(self).symbols().push(symbol@)
            }),
            final(self).has(symbol@),
            final(self).of(symbol@) == positions@,
            forall|s: Seq<char>| s != symbol@
                ==> #[trigger] final(self).has(s) == old(self).has(s)
                    && final(self).of(s) == old(self).of(s),
    {
        self.positionen.set(symbol, positions);
    }

    /// Removes the positions of `symbol` and hands them out, where there
    /// are any.
    pub fn remove_positionen(&mut self, symbol: &str) -> (r: Option<Vec<EtfPosition<N>>>)
        ensures
            !old(self).has(symbol@) ==> final(self).symbols() == old(self).symbols(),
            old(self).has(symbol@) ==> exists|i: int|
                0 <= i < old(self).symbols().len() && old(self).symbols()[i] == symbol@
                    && final(self).symbols() == old(self).symbols().remove(i),
            r is Some <==> old(self).has(symbol@),
            r matches Some(v) ==> v@ == old(self).of(symbol@),
            !final(self).has(symbol@),
            forall|s: Seq<char>| s != symbol@
                ==> #[trigger] final(self).has(s) == old(self).has(s)
                    && final(self).of(s) == old(self).of(s),
    {
        let ghost before = self.positionen;
        let r = self.positionen.remove(symbol);
        proof {
            if before.has(symbol@) {
                let i = choose|i: int|
                    0 <= i < before.order().len() && before.order()[i] == symbol@
                        && self.positionen.order() == before.order().remove(i);
                assert(old(self).symbols()[i] == symbol@);
            }
        }
        r
    }
}

/// The facts of one ETF position that its advance lump sum is computed from.
pub struct VorabpauschaleInfo<N> {
    /// Symbol
    pub symbol: String,
    /// Value at the start of the period (start of the year, or the purchase)
    pub start_wert: N,
    /// Value at the end of the period
    pub end_wert: N,
    /// Kind of fund
    pub fonds_typ: FondsTyp,
    /// Dividends paid during the period
    pub dividenden: N,
    /// Months (of twelve) for which the fund was held
    pub monate: u8,
    /// ISIN of the ETF
    pub isin: String,
    /// Description of the ETF
    pub name: String,
}

/// The facts of all ETF positions of a year, with the base rate in percent.
pub struct Vorabpauschalen<N> {
    pub pauschalen_infos: Vec<VorabpauschaleInfo<N>>,
    pub basis_rate: N,
}

/// What an info says, its texts as characters.
pub type InfoView<N> = (Seq<char>, Seq<char>, Seq<char>, N, N, FondsTyp, N, u8);

/// The view of an info: symbol, ISIN, name, start value, end value, kind of
/// fund, dividends, months.
pub open spec fn info_view<N>(i: VorabpauschaleInfo<N>) -> InfoView<N> {
    (i.symbol@, i.isin@, i.name@, i.start_wert, i.end_wert, i.fonds_typ, i.dividenden, i.monate)
}

/// Why the positions of an ETF at the end of the year stop the collection.
pub enum EndProblem {
    /// More than one position at the end of the year.
    SeveralAtEnd,
    /// No position at the start of the year.
    NoStart,
    /// The instruments do not list the ETF.
    UnknownInstrument,
}

/// Why the positions of `symbol` at the end of the year stop the
/// collection, if they do.
pub open spec fn end_problem<N>(
    start: EtfPositionen<N>,
    ende: EtfPositionen<N>,
    instruments: FinanzInstrumentInfos,
    symbol: Seq<char>,
) -> Option<EndProblem> {
    if ende.of(symbol).len() == 0 {
        None
    } else if ende.of(symbol).len() != 1 {
        Some(EndProblem::SeveralAtEnd)
    } else if !start.has(symbol) {
        Some(EndProblem::NoStart)
    } else if start.of(symbol).len() > 0 && first_instrument(instruments.infos@, symbol, None) is None {
        Some(EndProblem::UnknownInstrument)
    } else {
        None
    }
}

/// Whether `e` is the error of problem `p` with ETF `symbol`.
pub open spec fn error_for(e: Error, p: EndProblem, symbol: Seq<char>) -> bool {
    match p {
        EndProblem::SeveralAtEnd => e matches Error::EtfEndPositionUngleichEins(t) && t@ == symbol,
        EndProblem::NoStart => e matches Error::PassendeEtfStartPositionFehlt(t) && t@ == symbol,
        EndProblem::UnknownInstrument => e matches Error::SymbolNotFound(t) && t@ == symbol,
    }
}

/// The infos of `symbol`: one per position at the start, each with the
/// value of the one position at the end.
pub open spec fn infos_of<N>(
    start: EtfPositionen<N>,
    ende: EtfPositionen<N>,
    instruments: FinanzInstrumentInfos,
    symbol: Seq<char>,
) -> Seq<InfoView<N>> {
    if ende.of(symbol).len() == 0 {
        Seq::empty()
    } else {
        let e = ende.of(symbol)[0];
        let i = first_instrument(instruments.infos@, symbol, None)->0;
        let isin = instruments.infos@[i].wertpapier_id@;
        let name = instruments.infos@[i].beschreibung@;
        start.of(symbol).map_values(
            |p: EtfPosition<N>|
                (symbol, isin, name, p.eur_betrag, e.eur_betrag, e.fonds_typ, p.dividenden, p.monate),
        )
    }
}

/// The infos of the symbols `symbols`, in order.
pub open spec fn collected<N>(
    start: EtfPositionen<N>,
    ende: EtfPositionen<N>,
    instruments: FinanzInstrumentInfos,
    symbols: Seq<Seq<char>>,
) -> Seq<InfoView<N>>
    decreases symbols.len(),
{
    if symbols.len() == 0 {
        Seq::empty()
    } else {
        collected(start, ende, instruments, symbols.drop_last()) + infos_of(
            start,
            ende,
            instruments,
            symbols.last(),
        )
    }
}

impl<N: Copy> Vorabpauschalen<N> {
    /// The facts of every ETF held at the end of the year: for each of its
    /// positions at the start of the year (`start`, brought up to date with
    /// the purchases and sales of the year) one info with the value of its
    /// one position at the end (`ende`). An ETF with more than one position
    /// at the end, or none at the start, stops it, as does one that the
    /// instruments do not list; the ETFs are taken in the order of
    /// `ende.symbols()`.
    pub fn sammle_vorabpauschalen_infos(
        start: &EtfPositionen<N>,
        ende: &EtfPositionen<N>,
        instruments: &FinanzInstrumentInfos,
        basis_rate: N,
    ) -> (r: Result<Self, Error>)
        ensures
            r is Ok <==> forall|k: int| 0 <= k < ende.symbols().len()
                ==> end_problem(*start, *ende, *instruments, #[trigger] ende.symbols()[k]) is None,
            r matches Err(e) ==> exists|k: int| 0 <= k < ende.symbols().len()
                && (forall|j: int| 0 <= j < k
                    ==> end_problem(*start, *ende, *instruments, #[trigger] ende.symbols()[j]) is None)
                && end_problem(*start, *ende, *instruments, ende.symbols()[k]) is Some
                && error_for(e, end_problem(*start, *ende, *instruments, ende.symbols()[k])->0, ende.symbols()[k]),
            r matches Ok(v) ==> v.basis_rate == basis_rate
                && v.pauschalen_infos@.map_values(|i: VorabpauschaleInfo<N>| info_view(i))
                == collected(*start, *ende, *instruments, ende.symbols()),
    {
        let alle = ende.get_alle_positionen();
        let mut pauschalen_infos: Vec<VorabpauschaleInfo<N>> = Vec::new();
        let ghost syms = ende.symbols();
        let mut k: usize = 0;
        while k < alle.len()
            invariant
                alle@.len() == syms.len(),
                syms == ende.symbols(),
                forall|i: int| 0 <= i < alle@.len() ==> (#[trigger] alle@[i]).0@ == syms[i]
                    && alle@[i].1@ == ende.of(alle@[i].0@),
                k <= alle@.len(),
                forall|j: int| 0 <= j < k ==> end_problem(*start, *ende, *instruments, #[trigger] syms[j])
                    is None,
                pauschalen_infos@.map_values(|i: VorabpauschaleInfo<N>| info_view(i)) == collected(
                    *start,
                    *ende,
                    *instruments,
                    syms.take(k as int),
                ),
            decreases alle@.len() - k,
        {
            let etf = &alle[k].0;
            let position = &alle[k].1;
            let ghost sym = syms[k as int];
            proof {
                assert(syms.take(k + 1).drop_last() =~= syms.take(k as int));
                assert(syms.take(k + 1).last() == sym);
            }
            if position.len() == 0 {
                proof {
                    assert(infos_of(*start, *ende, *instruments, sym) =~= Seq::<InfoView<N>>::empty());
                    assert(collected(*start, *ende, *instruments, syms.take(k + 1)) =~= collected(
                        *start,
                        *ende,
                        *instruments,
                        syms.take(k as int),
                    ));
                }
                k = k + 1;
                continue;
            }
            if position.len() != 1 {
                return Err(Error::EtfEndPositionUngleichEins(etf.clone()));
            }
            let end_position = &position[0];
            match start.get_positionen(etf.as_str()) {
                Some(start_positionen) => {
                    let ghost before = pauschalen_infos@.map_values(
                        |i: VorabpauschaleInfo<N>| info_view(i),
                    );
                    let ghost before_len = pauschalen_infos@.len();
                    let mut j: usize = 0;
                    while j < start_positionen.len()
                        invariant
                            j <= start_positionen@.len(),
                            start_positionen@ == start.of(sym),
                            start.has(sym),
                            k < syms.len(),
                            syms[k as int] == sym,
                            syms == ende.symbols(),
                            forall|jj: int| 0 <= jj < k ==> end_problem(
                                *start,
                                *ende,
                                *instruments,
                                #[trigger] syms[jj],
                            ) is None,
                            etf@ == sym,
                            ende.of(sym).len() == 1,
                            *end_position == ende.of(sym)[0],
                            before_len == before.len(),
                            pauschalen_infos@.len() == before_len + j,
                            j > 0 ==> first_instrument(instruments.infos@, sym, None) is Some,
                            forall|a: int| 0 <= a < before_len ==> info_view(
                                #[trigger] pauschalen_infos@[a],
                            ) == before[a],
                            forall|a: int| 0 <= a < j ==> info_view(
                                #[trigger] pauschalen_infos@[before_len + a],
                            ) == infos_of(*start, *ende, *instruments, sym)[a],
                        decreases start_positionen@.len() - j,
                    {
                        let start_position = &start_positionen[j];
                        let (isin, name) = match instruments.get_isin_and_name_by_symbol(
                            etf.as_str(),
                        ) {
                            Ok(p) => p,
                            Err(e) => {
                                proof {
                                    assert(end_problem(*start, *ende, *instruments, sym) == Some(
                                        EndProblem::UnknownInstrument,
                                    ));
                                }
                                return Err(e);
                            },
                        };
                        proof {
                            let i = first_instrument(instruments.infos@, sym, None)->0;
                            assert(infos_of(*start, *ende, *instruments, sym).len() == start.of(sym).len());
                            assert(infos_of(*start, *ende, *instruments, sym)[j as int] == (
                                sym,
                                instruments.infos@[i].wertpapier_id@,
                                instruments.infos@[i].beschreibung@,
                                start.of(sym)[j as int].eur_betrag,
                                ende.of(sym)[0].eur_betrag,
                                ende.of(sym)[0].fonds_typ,
                                start.of(sym)[j as int].dividenden,
                                start.of(sym)[j as int].monate,
                            ));
                        }
                        pauschalen_infos.push(
                            VorabpauschaleInfo {
                                symbol: etf.clone(),
                                isin,
                                name,
                                start_wert: start_position.eur_betrag,
                                end_wert: end_position.eur_betrag,
                                fonds_typ: end_position.fonds_typ,
                                dividenden: start_position.dividenden,
                                monate: start_position.monate,
                            },
                        );
                        j = j + 1;
                    }
                    proof {
                        let now = pauschalen_infos@.map_values(
                            |i: VorabpauschaleInfo<N>| info_view(i),
                        );
                        let add = infos_of(*start, *ende, *instruments, sym);
                        assert(add.len() == start.of(sym).len());
                        assert(now.len() == before.len() + add.len());
                        assert forall|a: int| 0 <= a < now.len() implies now[a] == (before + add)[a] by {
                            if a < before_len {
                                assert(info_view(pauschalen_infos@[a]) == before[a]);
                            } else {
                                assert(info_view(pauschalen_infos@[before_len + (a - before_len)])
                                    == add[a - before_len]);
                            }
                        }
                        assert(now =~= before + add);
                    }
                },
                None => {
                    return Err(Error::PassendeEtfStartPositionFehlt(etf.clone()));
                },
            }
            k = k + 1;
        }
        proof {
            assert(syms.take(syms.len() as int) =~= syms);
        }
        Ok(Vorabpauschalen { pauschalen_infos, basis_rate })
    }
}

} // verus!
