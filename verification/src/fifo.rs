//! FIFO lists of purchases per asset, for gains computed by "first in,
//! first out". The store also keeps the day up to which it is current and
//! refuses anything older.
//!
//! The store is generic over the purchase `P`. Consuming purchases for a
//! sale is arithmetic on the purchases' amounts: `reduce` hands the list to
//! the caller's consumption and books the rest; `take_lots` and `put_lots`
//! do the same in two steps.

use vstd::prelude::*;

use crate::date::{convert_timestamp_to_date_string, utc_date_in_chrono_range};
use crate::error::Error;
use crate::text::str_eq;

verus! {

/// The purchases of one asset, oldest first.
pub struct FifoEntry<P> {
    pub symbol: String,
    pub fifo: std::collections::VecDeque<P>,
}

/// How a transfer of a position into the account is booked.
#[derive(Debug, Clone, Copy, PartialEq, Eq, Structural)]
pub enum TransferBuchung {
    /// Only transfers in (`In`) are booked.
    RichtungNichtUnterstuetzt,
    /// A transfer into a position the lists already hold is not booked.
    PositionExistiert,
    /// The transfer is booked as a purchase at its known cost.
    Einbuchen,
    /// The cost of the transferred position is not known; it is not booked.
    EinstandskostenFehlen,
}

/// FIFO lists of all assets and the day up to which they are current.
pub struct FifoStore<P> {
    timestamp: i64,
    history: Vec<FifoEntry<P>>,
}

spec fn symbol_at<P>(h: Seq<FifoEntry<P>>, sym: Seq<char>) -> bool {
    exists|i: int| 0 <= i < h.len() && h[i].symbol@ == sym
}

fn find_symbol<P>(h: &Vec<FifoEntry<P>>, symbol: &str) -> (r: Option<usize>)
    ensures
        r matches Some(k) ==> k < h@.len() && h@[k as int].symbol@ == symbol@,
        r is None ==> forall|a: int| 0 <= a < h@.len() ==> (#[trigger] h@[a]).symbol@ != symbol@,
{
    let mut k: usize = 0;
    while k < h.len()
        invariant
            k <= h.len(),
            forall|a: int| 0 <= a < k ==> (#[trigger] h@[a]).symbol@ != symbol@,
        decreases h.len() - k,
    {
        if str_eq(h[k].symbol.as_str(), symbol) {
            return Some(k);
        }
        k = k + 1;
    }
    None
}

impl<P> FifoStore<P> {
    #[verifier::type_invariant]
    spec fn inv(self) -> bool {
        forall|i: int, j: int|
            0 <= i < self.history@.len() && 0 <= j < self.history@.len() && i != j
                ==> self.history@[i].symbol@ != self.history@[j].symbol@
    }

    /// The day up to which the store is current.
    pub closed spec fn day(self) -> int {
        self.timestamp as int
    }

    /// Whether the store has a list for asset `sym`.
    pub closed spec fn has(self, sym: Seq<char>) -> bool {
        symbol_at(self.history@, sym)
    }

    closed spec fn index_of(self, sym: Seq<char>) -> int {
        choose|i: int| 0 <= i < self.history@.len() && self.history@[i].symbol@ == sym
    }

    /// The purchases of asset `sym`, oldest first (empty without a list).
    pub closed spec fn lots(self, sym: Seq<char>) -> Seq<P> {
        if self.has(sym) {
            self.history@[self.index_of(sym)].fifo@
        } else {
            Seq::empty()
        }
    }

    proof fn lemma_index(self, sym: Seq<char>, k: int)
        requires
            self.inv(),
            0 <= k < self.history@.len(),
            self.history@[k].symbol@ == sym,
        ensures
            self.has(sym),
            self.index_of(sym) == k,
            self.lots(sym) == self.history@[k].fifo@,
    {
        assert(self.has(sym));
        let i = self.index_of(sym);
        assert(self.history@[i].symbol@ == sym);
    }

    /// An empty store, current up to day `timestamp`.
    pub fn new(timestamp: i64) -> (s: Self)
        ensures
            s.day() == timestamp,
            forall|sym: Seq<char>| !#[trigger] s.has(sym) && s.lots(sym) == Seq::<P>::empty(),
    {
        FifoStore { timestamp, history: Vec::new() }
    }

    /// The day up to which the store is current.
    pub fn get_timestamp(&self) -> (t: i64)
        ensures
            t == self.day(),
    {
        self.timestamp
    }

    /// Whether a trade of day `timestamp` is booked when the store is built
    /// up to `max_time`: trades before the store's day are already in it,
    /// and `max_time` itself is excluded.
    pub fn books(&self, timestamp: i64, max_time: i64) -> (b: bool)
        ensures
            b == (self.day() <= timestamp && timestamp < max_time),
    {
        self.timestamp <= timestamp && timestamp < max_time
    }

    /// How a transfer of `symbol` in direction `richtung` is booked, given
    /// whether its cost is known: only a transfer in, into an asset without a
    /// list, at a known cost, becomes a purchase.
    pub fn transfer_buchung(&self, richtung: &str, symbol: &str, einstandskosten_bekannt: bool) -> (r:
        TransferBuchung)
        ensures
            richtung@ != "In"@ ==> r == TransferBuchung::RichtungNichtUnterstuetzt,
            richtung@ == "In"@ && self.has(symbol@) ==> r == TransferBuchung::PositionExistiert,
            richtung@ == "In"@ && !self.has(symbol@) && einstandskosten_bekannt ==> r
                == TransferBuchung::Einbuchen,
            richtung@ == "In"@ && !self.has(symbol@) && !einstandskosten_bekannt ==> r
                == TransferBuchung::EinstandskostenFehlen,
    {
        if !str_eq(richtung, "In") {
            TransferBuchung::RichtungNichtUnterstuetzt
        } else if self.contains(symbol) {
            TransferBuchung::PositionExistiert
        } else if einstandskosten_bekannt {
            TransferBuchung::Einbuchen
        } else {
            TransferBuchung::EinstandskostenFehlen
        }
    }

    /// Whether the store has a list for asset `symbol`.
    pub fn contains(&self, symbol: &str) -> (b: bool)
        ensures
            b == self.has(symbol@),
    {
        proof {
            use_type_invariant(self);
        }
        match find_symbol(&self.history, symbol) {
            Some(k) => {
                proof {
                    self.lemma_index(symbol@, k as int);
                }
                true
            },
            None => false,
        }
    }

    /// Appends a purchase of `symbol` made on day `timestamp` and makes the
    /// store current up to that day; a day before the store's day is refused.
    pub fn add(&mut self, symbol: &str, timestamp: i64, purchase: P) -> (r: Result<(), Error>)
        ensures
            timestamp < old(self).day() ==> r == Err::<(), Error>(Error::FifoIstNeuer)
                && *final(self) == *old(self),
            timestamp >= old(self).day() ==> {
                &&& r is Ok
                &&& final(self).day() == timestamp
                &&& final(self).has(symbol@)
                &&& final(self).lots(symbol@) == old(self).lots(symbol@).push(purchase)
                &&& forall|s: Seq<char>| s != symbol@
                    ==> #[trigger] final(self).has(s) == old(self).has(s)
                        && final(self).lots(s) == old(self).lots(s)
            },
    {
        proof {
            use_type_invariant(&*self);
        }
        if timestamp < self.timestamp {
            return Err(Error::FifoIstNeuer);
        }
        let ghost old_self = *self;
        let mut h: Vec<FifoEntry<P>> = Vec::new();
        std::mem::swap(&mut h, &mut self.history);
        let ghost old_h = h@;
        let ghost mut pos: int = old_h.len() as int;
        match find_symbol(&h, symbol) {
            Some(k) => {
                proof {
                    old_self.lemma_index(symbol@, k as int);
                    pos = k as int;
                }
                let mut e = FifoEntry { symbol: String::new(), fifo: std::collections::VecDeque::new() };
                h.set_and_swap(k, &mut e);
                e.fifo.push_back(purchase);
                h.set(k, e);
                proof {
                    assert forall|a: int| 0 <= a < h@.len() && a != k implies h@[a] == old_h[a] by {}
                }
            },
            None => {
                let mut q = std::collections::VecDeque::new();
                q.push_back(purchase);
                h.push(FifoEntry { symbol: symbol.to_owned(), fifo: q });
            },
        }
        self.history = h;
        self.timestamp = timestamp;
        proof {
            use_type_invariant(&*self);
            let ns = *self;
            ns.lemma_index(symbol@, pos);
            assert forall|s: Seq<char>| s != symbol@ implies #[trigger] ns.has(s) == old_self.has(s)
                && ns.lots(s) == old_self.lots(s) by {
                if old_self.has(s) {
                    let i = old_self.index_of(s);
                    assert(ns.history@[i] == old_h[i]);
                    ns.lemma_index(s, i);
                }
                if ns.has(s) {
                    let i = ns.index_of(s);
                    assert(i < old_h.len());
                    assert(ns.history@[i] == old_h[i]);
                    old_self.lemma_index(s, i);
                }
            }
        }
        Ok(())
    }

    /// The lists of all assets, each asset once.
    pub fn history(&self) -> (r: &Vec<FifoEntry<P>>)
        ensures
            forall|i: int| 0 <= i < r@.len() ==> #[trigger] self.has(r@[i].symbol@)
                && self.lots(r@[i].symbol@) == r@[i].fifo@,
            forall|sym: Seq<char>| #[trigger] self.has(sym)
                ==> exists|i: int| 0 <= i < r@.len() && r@[i].symbol@ == sym,
            forall|i: int, j: int| 0 <= i < r@.len() && 0 <= j < r@.len() && i != j
                ==> r@[i].symbol@ != r@[j].symbol@,
    {
        proof {
            use_type_invariant(self);
            assert forall|i: int| 0 <= i < self.history@.len() implies #[trigger] self.has(
                self.history@[i].symbol@,
            ) && self.lots(self.history@[i].symbol@) == self.history@[i].fifo@ by {
                self.lemma_index(self.history@[i].symbol@, i);
            }
        }
        &self.history
    }

    /// Hands out the purchases of `symbol`, oldest first, for a sale on day
    /// `timestamp`, and leaves the asset's list empty: the caller consumes
    /// the oldest purchases and gives back the rest with `put_lots`.
    /// A day before the store's day is refused (`FifoIstNeuer`), and so is an
    /// asset without a list, a short sale (`KeineLeerverkaeufe`, or
    /// `FailedToConvertDate` where the day cannot be written as a date for
    /// the message). A refusal changes nothing.
    pub fn take_lots(&mut self, symbol: &str, timestamp: i64) -> (r: Result<
        std::collections::VecDeque<P>,
        Error,
    >)
        ensures
            timestamp < old(self).day() ==> r == Err::<std::collections::VecDeque<P>, Error>(
                Error::FifoIstNeuer,
            ),
            timestamp >= old(self).day() && !old(self).has(symbol@) ==> r == Err::<
                std::collections::VecDeque<P>,
                Error,
            >(
                if utc_date_in_chrono_range(timestamp as int) {
                    Error::KeineLeerverkaeufe
                } else {
                    Error::FailedToConvertDate
                },
            ),
            timestamp >= old(self).day() && old(self).has(symbol@) ==> r is Ok,
            r is Err ==> *final(self) == *old(self),
            r matches Ok(q) ==> {
                &&& timestamp >= old(self).day()
                &&& old(self).has(symbol@)
                &&& q@ == old(self).lots(symbol@)
                &&& final(self).day() == old(self).day()
                &&& final(self).has(symbol@)
                &&& final(self).lots(symbol@) == Seq::<P>::empty()
                &&& forall|s: Seq<char>| s != symbol@
                    ==> #[trigger] final(self).has(s) == old(self).has(s)
                        && final(self).lots(s) == old(self).lots(s)
            },
    {
        proof {
            use_type_invariant(&*self);
        }
        if timestamp < self.timestamp {
            return Err(Error::FifoIstNeuer);
        }
        let found = find_symbol(&self.history, symbol);
        let k = match found {
            Some(k) => k,
            None => {
                return match convert_timestamp_to_date_string(timestamp) {
                    Ok(_) => Err(Error::KeineLeerverkaeufe),
                    Err(e) => Err(e),
                };
            },
        };
        let ghost old_self = *self;
        proof {
            old_self.lemma_index(symbol@, k as int);
        }
        let mut h: Vec<FifoEntry<P>> = Vec::new();
        std::mem::swap(&mut h, &mut self.history);
        let ghost old_h = h@;
        let mut e = FifoEntry { symbol: String::new(), fifo: std::collections::VecDeque::new() };
        h.set_and_swap(k, &mut e);
        let q = e.fifo;
        h.set(k, FifoEntry { symbol: e.symbol, fifo: std::collections::VecDeque::new() });
        proof {
            assert forall|a: int| 0 <= a < h@.len() && a != k implies h@[a] == old_h[a] by {}
            assert(h@[k as int].symbol@ == old_h[k as int].symbol@);
        }
        self.history = h;
        proof {
            use_type_invariant(&*self);
            let ns = *self;
            ns.lemma_index(symbol@, k as int);
            assert forall|s: Seq<char>| s != symbol@ implies #[trigger] ns.has(s) == old_self.has(s)
                && ns.lots(s) == old_self.lots(s) by {
                if old_self.has(s) {
                    let i = old_self.index_of(s);
                    assert(ns.history@[i] == old_h[i]);
                    ns.lemma_index(s, i);
                }
                if ns.has(s) {
                    let i = ns.index_of(s);
                    assert(ns.history@[i] == old_h[i]);
                    old_self.lemma_index(s, i);
                }
            }
        }
        Ok(q)
    }

    /// Gives back what is left of `symbol`'s purchases after a sale and,
    /// where `timestamp` is given, makes the store current up to that day.
    pub fn put_lots(
        &mut self,
        symbol: &str,
        lots: std::collections::VecDeque<P>,
        timestamp: Option<i64>,
    )
        requires
            old(self).has(symbol@),
            timestamp matches Some(t) ==> t >= old(self).day(),
        ensures
            final(self).day() == (match timestamp {
                Some(t) => t as int,
                None => old(self).day(),
            }),
            final(self).has(symbol@),
            final(self).lots(symbol@) == lots@,
            forall|s: Seq<char>| s != symbol@
                ==> #[trigger] final(self).has(s) == old(self).has(s)
                    && final(self).lots(s) == old(self).lots(s),
    {
        proof {
            use_type_invariant(&*self);
        }
        let ghost old_self = *self;
        let k = match find_symbol(&self.history, symbol) {
            Some(k) => k,
            None => {
                proof {
                    let i = old_self.index_of(symbol@);
                    assert(old_self.history@[i].symbol@ == symbol@);
                }
                return;
            },
        };
        let mut h: Vec<FifoEntry<P>> = Vec::new();
        std::mem::swap(&mut h, &mut self.history);
        let ghost old_h = h@;
        let mut e = FifoEntry { symbol: String::new(), fifo: std::collections::VecDeque::new() };
        h.set_and_swap(k, &mut e);
        h.set(k, FifoEntry { symbol: e.symbol, fifo: lots });
        proof {
            assert forall|a: int| 0 <= a < h@.len() && a != k implies h@[a] == old_h[a] by {}
        }
        self.history = h;
        match timestamp {
            Some(t) => {
                self.timestamp = t;
            },
            None => {},
        }
        proof {
            use_type_invariant(&*self);
            let ns = *self;
            ns.lemma_index(symbol@, k as int);
            assert forall|s: Seq<char>| s != symbol@ implies #[trigger] ns.has(s) == old_self.has(s)
                && ns.lots(s) == old_self.lots(s) by {
                if old_self.has(s) {
                    let i = old_self.index_of(s);
                    assert(ns.history@[i] == old_h[i]);
                    ns.lemma_index(s, i);
                }
                if ns.has(s) {
                    let i = ns.index_of(s);
                    assert(ns.history@[i] == old_h[i]);
                    old_self.lemma_index(s, i);
                }
            }
        }
    }

    /// Books a sale of `symbol` on day `timestamp`: hands the purchases,
    /// oldest first, to `consume`, which takes off what the sale uses and
    /// gives back the rest with the purchase cost of the sale, or an error.
    /// The rest goes back into the list either way; only a sale that
    /// succeeds makes the store current up to `timestamp`. The refusals are
    /// those of `take_lots`; they change nothing and do not call `consume`.
    pub fn reduce<C, F>(&mut self, symbol: &str, timestamp: i64, consume: F) -> (r: Result<C, Error>)
        where
            F: FnOnce(std::collections::VecDeque<P>) -> (std::collections::VecDeque<P>, Result<C, Error>),
        requires
            forall|q: std::collections::VecDeque<P>| consume.requires((q,)),
        ensures
            timestamp < old(self).day() ==> r == Err::<C, Error>(Error::FifoIstNeuer),
            timestamp >= old(self).day() && !old(self).has(symbol@) ==> r == Err::<C, Error>(
                if utc_date_in_chrono_range(timestamp as int) {
                    Error::KeineLeerverkaeufe
                } else {
                    Error::FailedToConvertDate
                },
            ),
            timestamp < old(self).day() || !old(self).has(symbol@) ==> *final(self) == *old(self),
            timestamp >= old(self).day() && old(self).has(symbol@) ==> exists|
                q: std::collections::VecDeque<P>,
                out: (std::collections::VecDeque<P>, Result<C, Error>),
            |
                {
                    &&& q@ == old(self).lots(symbol@)
                    &&& consume.ensures((q,), out)
                    &&& r == out.1
                    &&& final(self).has(symbol@)
                    &&& final(self).lots(symbol@) == out.0@
                    &&& final(self).day() == (if out.1 is Ok {
                        timestamp as int
                    } else {
                        old(self).day()
                    })
                    &&& forall|s: Seq<char>| s != symbol@
                        ==> #[trigger] final(self).has(s) == old(self).has(s)
                            && final(self).lots(s) == old(self).lots(s)
                },
    {
        let q = match self.take_lots(symbol, timestamp) {
            Ok(q) => q,
            Err(e) => {
                return Err(e);
            },
        };
        let ghost q0 = q;
        let (rest, res) = consume(q);
        let ghost out = (rest, res);
        match res {
            Ok(c) => {
                self.put_lots(symbol, rest, Some(timestamp));
                proof {
                    assert(out.1 is Ok);
                }
                Ok(c)
            },
            Err(e) => {
                self.put_lots(symbol, rest, None);
                Err(e)
            },
        }
    }
}

} // verus!
