//! Exchange rate tables: for each currency the reference rates by day, and
//! the rate that holds on a given day (the latest one published on or before it).
//!
//! The tables are generic over the rate value; the caller chooses its
//! representation of a rate.

use vstd::prelude::*;

use crate::date::{convert_date, has_ten_byte_prefix, ten_byte_prefix, chrono_parsed_day_number, unix_epoch_day};
use crate::csv_input::{csv_table_of, holds_read, read_table, read_until_error, CsvRecords};
use crate::error::Error;
use crate::groups::texts;
use crate::text::str_eq;

verus! {

// ------------------------------------------------------------------
// One currency
// ------------------------------------------------------------------

/// Keys strictly increasing.
pub open spec fn sorted_keys<V>(e: Seq<(i64, V)>) -> bool {
    forall|i: int, j: int| 0 <= i < j < e.len() ==> e[i].0 < e[j].0
}

/// The day → rate map of a list of entries.
pub open spec fn entries_map<V>(e: Seq<(i64, V)>) -> Map<int, V>
    decreases e.len(),
{
    if e.len() == 0 {
        Map::empty()
    } else {
        entries_map(e.drop_last()).insert(e.last().0 as int, e.last().1)
    }
}

/// `k` is the latest day in `m` that is not after `d`.
pub open spec fn is_latest_day<V>(m: Map<int, V>, d: int, k: int) -> bool {
    &&& m.dom().contains(k)
    &&& k <= d
    &&& forall|k2: int| m.dom().contains(k2) && k2 <= d ==> k2 <= k
}

/// The rate that holds on day `d`: the one of the latest day on or before `d`.
pub open spec fn rate_for<V>(m: Map<int, V>, d: int) -> Option<V> {
    if exists|k: int| is_latest_day(m, d, k) {
        Some(m[choose|k: int| is_latest_day(m, d, k)])
    } else {
        None
    }
}

/// A rate published for day `d` is the rate that holds on day `d`.
pub proof fn lemma_rate_on_published_day<V>(m: Map<int, V>, d: int, v: V)
    ensures
        rate_for(m.insert(d, v), d) == Some(v),
{
    let n = m.insert(d, v);
    assert(is_latest_day(n, d, d));
    let c = choose|k: int| is_latest_day(n, d, k);
    assert(c == d);
}

/// On the days after a published rate up to the next one, that rate holds.
pub proof fn lemma_rate_carries_forward<V>(m: Map<int, V>, d: int, e: int)
    requires
        m.dom().contains(d),
        d <= e,
        forall|k: int| #[trigger] m.dom().contains(k) && d < k ==> e < k,
    ensures
        rate_for(m, e) == Some(m[d]),
{
    assert forall|k2: int| m.dom().contains(k2) && k2 <= e implies k2 <= d by {}
    assert(is_latest_day(m, e, d));
    let c = choose|k: int| is_latest_day(m, e, k);
    assert(c <= d && d <= c);
}

/// Before the first published rate, no rate holds.
pub proof fn lemma_no_rate_before_first<V>(m: Map<int, V>, e: int)
    requires
        forall|k: int| #[trigger] m.dom().contains(k) ==> e < k,
    ensures
        rate_for(m, e) is None,
{
}

proof fn lemma_entries_map<V>(e: Seq<(i64, V)>)
    requires
        sorted_keys(e),
    ensures
        forall|k: int|
            #![trigger entries_map(e).dom().contains(k)]
            entries_map(e).dom().contains(k) <==> exists|i: int| 0 <= i < e.len() && e[i].0 == k,
        forall|i: int| 0 <= i < e.len() ==> #[trigger] entries_map(e)[e[i].0 as int] == e[i].1,
    decreases e.len(),
{
    if e.len() > 0 {
        let p = e.drop_last();
        assert(sorted_keys(p)) by {
            assert forall|i: int, j: int| 0 <= i < j < p.len() implies p[i].0 < p[j].0 by {
                assert(p[i] == e[i]);
                assert(p[j] == e[j]);
            }
        }
        lemma_entries_map(p);
        assert forall|k: int|
            #![trigger entries_map(e).dom().contains(k)]
            entries_map(e).dom().contains(k) <==> exists|i: int| 0 <= i < e.len() && e[i].0 == k by {
            if entries_map(e).dom().contains(k) {
                if k == e.last().0 {
                    assert(e[e.len() - 1].0 == k);
                } else {
                    assert(entries_map(p).dom().contains(k));
                    let i = choose|i: int| 0 <= i < p.len() && p[i].0 == k;
                    assert(e[i] == p[i]);
                }
            }
            if exists|i: int| 0 <= i < e.len() && e[i].0 == k {
                let i = choose|i: int| 0 <= i < e.len() && e[i].0 == k;
                if i < e.len() - 1 {
                    assert(p[i] == e[i]);
                    assert(entries_map(p).dom().contains(k));
                }
            }
        }
        assert forall|i: int| 0 <= i < e.len() implies #[trigger] entries_map(e)[e[i].0 as int]
            == e[i].1 by {
            if i < e.len() - 1 {
                assert(p[i] == e[i]);
                assert(e[i].0 < e[e.len() - 1].0);
                assert(entries_map(p)[p[i].0 as int] == p[i].1);
            }
        }
    }
}

/// The rates of one currency by day.
pub struct FxTable<V> {
    entries: Vec<(i64, V)>,
}

impl<V> FxTable<V> {
    #[verifier::type_invariant]
    spec fn inv(self) -> bool {
        sorted_keys(self.entries@)
    }

    /// The rate of each day.
    pub closed spec fn rates(self) -> Map<int, V> {
        entries_map(self.entries@)
    }

    /// A table without rates.
    pub fn new() -> (t: Self)
        ensures
            t.rates() == Map::<int, V>::empty(),
    {
        FxTable { entries: Vec::new() }
    }

    /// Sets the rate of day `date`, replacing an earlier rate of that day.
    pub fn insert(&mut self, date: i64, value: V)
        ensures
            final(self).rates() == old(self).rates().insert(date as int, value),
    {
        proof {
            use_type_invariant(&*self);
        }
        let ghost e = self.entries@;
        let n = self.entries.len();
        let mut p: usize = 0;
        while p < n && self.entries[p].0 < date
            invariant
                p <= n,
                n == e.len(),
                e == self.entries@,
                forall|a: int| 0 <= a < p ==> (#[trigger] e[a]).0 < date,
            decreases n - p,
        {
            p = p + 1;
        }
        proof {
            lemma_entries_map(e);
        }
        if p < n && self.entries[p].0 == date {
            let ghost e2 = e.update(p as int, (date, value));
            assert(sorted_keys(e2)) by {
                assert forall|i: int, j: int| 0 <= i < j < e2.len() implies e2[i].0 < e2[j].0 by {
                    assert(e[i].0 < e[j].0);
                }
            }
            let mut entries: Vec<(i64, V)> = Vec::new();
            std::mem::swap(&mut entries, &mut self.entries);
            entries.set(p, (date, value));
            self.entries = entries;
            proof {
                lemma_entries_map(e2);
                assert(self.entries@ == e2);
                assert(entries_map(e2) =~= entries_map(e).insert(date as int, value)) by {
                    assert forall|k: int| #[trigger]
                        entries_map(e2).dom().contains(k) == entries_map(e).insert(
                            date as int,
                            value,
                        ).dom().contains(k) by {
                        if k == date {
                            assert(e2[p as int].0 == date);
                        }
                        if exists|i: int| 0 <= i < e.len() && e[i].0 == k {
                            let i = choose|i: int| 0 <= i < e.len() && e[i].0 == k;
                            if i != p {
                                assert(e2[i] == e[i]);
                            }
                        }
                        if exists|i: int| 0 <= i < e2.len() && e2[i].0 == k {
                            let i = choose|i: int| 0 <= i < e2.len() && e2[i].0 == k;
                            if i != p {
                                assert(e2[i] == e[i]);
                            }
                        }
                    }
                    assert forall|k: int| #[trigger]
                        entries_map(e2).dom().contains(k) implies entries_map(e2)[k]
                        == entries_map(e).insert(date as int, value)[k] by {
                        let i = choose|i: int| 0 <= i < e2.len() && e2[i].0 == k;
                        assert(entries_map(e2)[e2[i].0 as int] == e2[i].1);
                        if i != p {
                            assert(e2[i] == e[i]);
                            assert(entries_map(e)[e[i].0 as int] == e[i].1);
                        }
                    }
                }
            }
        } else {
            let ghost e2 = e.insert(p as int, (date, value));
            assert(sorted_keys(e2)) by {
                assert forall|i: int, j: int| 0 <= i < j < e2.len() implies e2[i].0 < e2[j].0 by {
                    if j < p {
                        assert(e2[i] == e[i] && e2[j] == e[j]);
                    } else if j == p {
                        assert(e2[i] == e[i]);
                    } else if i < p {
                        assert(e2[i] == e[i] && e2[j] == e[j - 1]);
                        if p < n {
                            assert(e[p as int].0 > date);
                            assert(e[p as int].0 <= e[j - 1].0);
                        }
                    } else if i == p {
                        assert(e2[j] == e[j - 1]);
                        assert(e[p as int].0 > date);
                        assert(e[p as int].0 <= e[j - 1].0);
                    } else {
                        assert(e2[i] == e[i - 1] && e2[j] == e[j - 1]);
                    }
                }
            }
            let mut entries: Vec<(i64, V)> = Vec::new();
            std::mem::swap(&mut entries, &mut self.entries);
            entries.insert(p, (date, value));
            self.entries = entries;
            proof {
                lemma_entries_map(e2);
                assert(self.entries@ == e2);
                assert(entries_map(e2) =~= entries_map(e).insert(date as int, value)) by {
                    assert forall|k: int| #[trigger]
                        entries_map(e2).dom().contains(k) == entries_map(e).insert(
                            date as int,
                            value,
                        ).dom().contains(k) by {
                        if k == date {
                            assert(e2[p as int].0 == date);
                        }
                        if exists|i: int| 0 <= i < e.len() && e[i].0 == k {
                            let i = choose|i: int| 0 <= i < e.len() && e[i].0 == k;
                            if i < p {
                                assert(e2[i] == e[i]);
                            } else {
                                assert(e2[i + 1] == e[i]);
                            }
                        }
                        if exists|i: int| 0 <= i < e2.len() && e2[i].0 == k {
                            let i = choose|i: int| 0 <= i < e2.len() && e2[i].0 == k;
                            if i < p {
                                assert(e2[i] == e[i]);
                            } else if i > p {
                                assert(e2[i] == e[i - 1]);
                            }
                        }
                    }
                    assert forall|k: int| #[trigger]
                        entries_map(e2).dom().contains(k) implies entries_map(e2)[k]
                        == entries_map(e).insert(date as int, value)[k] by {
                        let i = choose|i: int| 0 <= i < e2.len() && e2[i].0 == k;
                        assert(entries_map(e2)[e2[i].0 as int] == e2[i].1);
                        if i < p {
                            assert(e2[i] == e[i]);
                            assert(entries_map(e)[e[i].0 as int] == e[i].1);
                        } else if i > p {
                            assert(e2[i] == e[i - 1]);
                            assert(entries_map(e)[e[i - 1].0 as int] == e[i - 1].1);
                        }
                    }
                }
            }
        }
    }

    /// The rate that holds on day `date`: the rate of the latest day on or
    /// before it, or `None` when the table has no rate that early.
    pub fn get_fx_rate(&self, date: i64) -> (r: Option<&V>)
        ensures
            match r {
                Some(v) => rate_for(self.rates(), date as int) == Some(*v),
                None => rate_for(self.rates(), date as int) is None,
            },
    {
        proof {
            use_type_invariant(self);
            lemma_entries_map(self.entries@);
        }
        let ghost e = self.entries@;
        let ghost m = entries_map(e);
        let mut i: usize = self.entries.len();
        while i > 0 && self.entries[i - 1].0 > date
            invariant
                i <= e.len(),
                e == self.entries@,
                forall|a: int| i <= a < e.len() ==> (#[trigger] e[a]).0 > date,
            decreases i,
        {
            i = i - 1;
        }
        if i == 0 {
            proof {
                assert forall|k: int| !is_latest_day(m, date as int, k) by {
                    if m.dom().contains(k) {
                        let a = choose|a: int| 0 <= a < e.len() && e[a].0 == k;
                        assert(e[a].0 > date);
                    }
                }
            }
            None
        } else {
            proof {
                let k = e[i - 1].0 as int;
                assert(m.dom().contains(k));
                assert forall|k2: int| m.dom().contains(k2) && k2 <= date implies k2 <= k by {
                    let a = choose|a: int| 0 <= a < e.len() && e[a].0 == k2;
                    if a >= i {
                        assert(e[a].0 > date);
                    } else if a < i - 1 {
                        assert(e[a].0 < e[i - 1].0);
                    }
                }
                assert(is_latest_day(m, date as int, k));
                let c = choose|k: int| is_latest_day(m, date as int, k);
                assert(c <= k && k <= c);
                assert(m[k] == e[i - 1].1);
            }
            Some(&self.entries[i - 1].1)
        }
    }
}


// ------------------------------------------------------------------
// All currencies
// ------------------------------------------------------------------

/// The column of currency `name` in the header row: the last column of that
/// name, where the name is neither empty nor `Date`.
pub open spec fn currency_column(headers: Seq<Seq<char>>, name: Seq<char>) -> Option<int>
    decreases headers.len(),
{
    if headers.len() == 0 || name.len() == 0 || name == "Date"@ {
        None
    } else if headers.last() == name {
        Some(headers.len() - 1)
    } else {
        currency_column(headers.drop_last(), name)
    }
}

fn find_currency<V>(cs: &Vec<Currency<V>>, name: &str) -> (r: Option<usize>)
    ensures
        r matches Some(k) ==> k < cs@.len() && cs@[k as int].name@ == name@,
        r is None ==> forall|a: int| 0 <= a < cs@.len() ==> (#[trigger] cs@[a]).name@ != name@,
{
    let mut k: usize = 0;
    while k < cs.len()
        invariant
            k <= cs.len(),
            forall|a: int| 0 <= a < k ==> (#[trigger] cs@[a]).name@ != name@,
        decreases cs.len() - k,
    {
        if str_eq(cs[k].name.as_str(), name) {
            return Some(k);
        }
        k = k + 1;
    }
    None
}

spec fn named<V>(cs: Seq<Currency<V>>, name: Seq<char>) -> bool {
    exists|i: int| 0 <= i < cs.len() && cs[i].name@ == name
}

struct Currency<V> {
    name: String,
    column: usize,
    table: FxTable<V>,
}

/// Reference rates of several currencies against the euro, read from a file
/// with one column per currency and one row per day.
pub struct FxRates<V> {
    currencies: Vec<Currency<V>>,
}

/// The rate of a currency on a day: the euro itself, or the reference
/// rate (units of the currency per euro).
pub enum FxQuote<'a, V> {
    Euro,
    PerEuro(&'a V),
}

impl<V> FxRates<V> {
    #[verifier::type_invariant]
    spec fn inv(self) -> bool {
        forall|i: int, j: int|
            0 <= i < self.currencies@.len() && 0 <= j < self.currencies@.len() && i != j
                ==> self.currencies@[i].name@ != self.currencies@[j].name@
    }

    /// Whether `name` is one of the currencies.
    pub closed spec fn has_currency(self, name: Seq<char>) -> bool {
        exists|i: int| 0 <= i < self.currencies@.len() && self.currencies@[i].name@ == name
    }

    closed spec fn index_of(self, name: Seq<char>) -> int {
        choose|i: int| 0 <= i < self.currencies@.len() && self.currencies@[i].name@ == name
    }

    /// The column of currency `name` in the file.
    pub closed spec fn column(self, name: Seq<char>) -> int {
        self.currencies@[self.index_of(name)].column as int
    }

    /// The rates of currency `name` by day.
    pub closed spec fn table(self, name: Seq<char>) -> Map<int, V> {
        self.currencies@[self.index_of(name)].table.rates()
    }

    /// The currencies of a rate file with this header row, without rates yet.
    pub fn from_headers(headers: &Vec<String>) -> (r: Self)
        ensures
            fresh_from_header(r, texts(headers@)),
    {
        proof {
            reveal_strlit("Date");
        }
        let ghost h = texts(headers@);
        let mut cs: Vec<Currency<V>> = Vec::new();
        let mut idx: usize = 0;
        while idx < headers.len()
            invariant
                idx <= headers.len(),
                h == texts(headers@),
                forall|i: int, j: int|
                    0 <= i < cs@.len() && 0 <= j < cs@.len() && i != j ==> cs@[i].name@
                        != cs@[j].name@,
                forall|i: int| 0 <= i < cs@.len() ==> (#[trigger] cs@[i]).table.rates() =~= Map::<
                    int,
                    V,
                >::empty(),
                forall|name: Seq<char>|
                    #[trigger] named(cs@, name) <==> (currency_column(h.take(idx as int), name) is Some),
                forall|i: int|
                    0 <= i < cs@.len() ==> Some((#[trigger] cs@[i]).column as int)
                        == currency_column(h.take(idx as int), cs@[i].name@),
            decreases headers.len() - idx,
        {
            let name = headers[idx].as_str();
            proof {
                assert(h.take(idx + 1).drop_last() =~= h.take(idx as int));
                assert(h.take(idx + 1).last() == name@);
            }
            if name.unicode_len() == 0 || str_eq(name, "Date") {
                idx = idx + 1;
                continue;
            }
            let pos = find_currency(&cs, name);
            let ghost old_cs = cs@;
            let mut k: usize = cs.len();
            if let Some(kk) = pos {
                k = kk;
                let mut c = Currency { name: String::new(), column: 0, table: FxTable::new() };
                cs.set_and_swap(k, &mut c);
                c.column = idx;
                c.table = FxTable::new();
                cs.set(k, c);
                proof {
                    assert forall|i: int| 0 <= i < cs@.len() && i != k implies cs@[i]
                        == old_cs[i] by {}
                }
            } else {
                cs.push(Currency { name: name.to_owned(), column: idx, table: FxTable::new() });
            }
            proof {
                assert forall|nm: Seq<char>|
                    #[trigger] named(cs@, nm) <==> (currency_column(h.take(idx + 1), nm) is Some) by {
                    assert(named(old_cs, nm) <==> (currency_column(h.take(idx as int), nm) is Some));
                    if nm != name@ {
                        if exists|i: int| 0 <= i < cs@.len() && cs@[i].name@ == nm {
                            let i = choose|i: int| 0 <= i < cs@.len() && cs@[i].name@ == nm;
                            assert(old_cs[i].name@ == nm);
                        }
                        if exists|i: int| 0 <= i < old_cs.len() && old_cs[i].name@ == nm {
                            let i = choose|i: int| 0 <= i < old_cs.len() && old_cs[i].name@ == nm;
                            assert(cs@[i].name@ == nm);
                        }
                    } else {
                        assert(cs@[k as int].name@ == nm);
                        assert(named(cs@, nm));
                    }
                }
                assert forall|i: int| 0 <= i < cs@.len() implies Some(
                    (#[trigger] cs@[i]).column as int,
                ) == currency_column(h.take(idx + 1), cs@[i].name@) by {
                    if i < old_cs.len() && i != k {
                        assert(cs@[i] == old_cs[i]);
                        assert(old_cs[i].name@ != name@);
                    }
                }
            }
            idx = idx + 1;
        }
        assert(h.take(headers.len() as int) =~= h);
        let r = FxRates { currencies: cs };
        proof {
            assert forall|name: Seq<char>| #[trigger] r.has_currency(name) <==> currency_column(
                texts(headers@),
                name,
            ) is Some by {
                assert(r.currencies@ == cs@);
                if named(cs@, name) {
                    let i = choose|i: int| 0 <= i < cs@.len() && cs@[i].name@ == name;
                    assert(r.currencies@[i].name@ == name);
                }
                if r.has_currency(name) {
                    let i = choose|i: int|
                        0 <= i < r.currencies@.len() && r.currencies@[i].name@ == name;
                    assert(cs@[i].name@ == name);
                }
            }
            assert forall|name: Seq<char>| #[trigger] r.has_currency(name) implies Some(
                r.column(name),
            ) == currency_column(texts(headers@), name) && r.table(name) == Map::<
                int,
                V,
            >::empty() by {
                let i = r.index_of(name);
                assert(r.currencies@[i] == cs@[i]);
            }
        }
        r
    }
}


/// The rate a record gives a column: nothing where the record is shorter or
/// the cell is `N/A`, otherwise the parsed cell (`None` where it did not parse).
pub open spec fn cell_rate<V>(record: Seq<Seq<char>>, values: Seq<Option<V>>, col: int) -> Option<
    Option<V>,
> {
    if col < 0 || col >= record.len() || record[col] == "N/A"@ {
        None
    } else {
        Some(values[col])
    }
}

/// A table after a record of day `date` added its rate to it.
pub open spec fn with_rate<V>(m: Map<int, V>, date: int, cr: Option<Option<V>>) -> Map<int, V> {
    match cr {
        Some(Some(v)) => m.insert(date, v),
        _ => m,
    }
}

/// Whether a cell of some currency column is present, not `N/A`, and did
/// not parse.
pub open spec fn cell_fails<V>(rates: FxRates<V>, record: Seq<Seq<char>>, values: Seq<Option<V>>) -> bool {
    exists|name: Seq<char>|
        rates.has_currency(name) && #[trigger] cell_rate(record, values, rates.column(name))
            == Some(None::<V>)
}

impl<V> FxRates<V> {
    proof fn lemma_index(self, name: Seq<char>, k: int)
        requires
            self.inv(),
            0 <= k < self.currencies@.len(),
            self.currencies@[k].name@ == name,
        ensures
            self.has_currency(name),
            self.index_of(name) == k,
    {
        assert(self.has_currency(name));
        let i = self.index_of(name);
        assert(self.currencies@[i].name@ == name);
    }

    /// The rate of currency `waehrung` on day `date`: the euro is its own
    /// unit; otherwise the reference rate of the latest day on or before
    /// `date`.
    pub fn get_fx_rate(&self, date: i64, waehrung: &str) -> (r: Result<FxQuote<'_, V>, Error>)
        ensures
            waehrung@ == "EUR"@ ==> r matches Ok(FxQuote::Euro),
            waehrung@ != "EUR"@ && !self.has_currency(waehrung@) ==> (r matches Err(
                Error::CurrencyNotFound(c),
            ) && c@ == waehrung@),
            waehrung@ != "EUR"@ && self.has_currency(waehrung@) ==> match rate_for(
                self.table(waehrung@),
                date as int,
            ) {
                Some(v) => r matches Ok(FxQuote::PerEuro(x)) && *x == v,
                None => r matches Err(Error::CurrencyNotFound(c)) && c@ == waehrung@,
            },
    {
        proof {
            use_type_invariant(self);
        }
        if str_eq(waehrung, "EUR") {
            return Ok(FxQuote::Euro);
        }
        match find_currency(&self.currencies, waehrung) {
            None => {
                assert(!self.has_currency(waehrung@));
                Err(Error::CurrencyNotFound(waehrung.to_owned()))
            },
            Some(k) => {
                proof {
                    self.lemma_index(waehrung@, k as int);
                }
                match self.currencies[k].table.get_fx_rate(date) {
                    Some(v) => Ok(FxQuote::PerEuro(v)),
                    None => Err(Error::CurrencyNotFound(waehrung.to_owned())),
                }
            },
        }
    }
}

impl<V: Copy> FxRates<V> {
    /// Adds the rates of one record of the rate file: the day in its first
    /// cell, and for each currency the parsed cell of its column (`values`
    /// holds the cells parsed, `None` where a cell does not parse). Cells
    /// that are missing or `N/A` add nothing. On an error nothing changes.
    pub fn add_record(&mut self, record: &Vec<String>, values: &Vec<Option<V>>) -> (r: Result<
        (),
        Error,
    >)
        requires
            values@.len() == record@.len(),
            record@.len() > 0 ==> has_ten_byte_prefix(record@[0]@),
        ensures
            r is Err ==> *final(self) == *old(self),
            record@.len() == 0 ==> r == Err::<(), Error>(Error::RecordNotFound),
            record@.len() > 0 && chrono_parsed_day_number(ten_byte_prefix(record@[0]@)) is None
                ==> r == Err::<(), Error>(Error::FailedToParseDate),
            record@.len() > 0 && chrono_parsed_day_number(ten_byte_prefix(record@[0]@)) is Some
                && cell_fails(*old(self), texts(record@), values@) ==> r == Err::<(), Error>(
                Error::ParsingNumberFailed,
            ),
            record@.len() > 0 && chrono_parsed_day_number(ten_byte_prefix(record@[0]@)) is Some
                && !cell_fails(*old(self), texts(record@), values@) ==> {
                let date = chrono_parsed_day_number(ten_byte_prefix(record@[0]@))->0
                    - unix_epoch_day();
                &&& r is Ok
                &&& forall|name: Seq<char>|
                    #![trigger final(self).has_currency(name)]
                    final(self).has_currency(name) == old(self).has_currency(name)
                &&& forall|name: Seq<char>|
                    #![trigger final(self).table(name)]
                    old(self).has_currency(name) ==> final(self).column(name) == old(
                        self,
                    ).column(name) && final(self).table(name) == with_rate(
                        old(self).table(name),
                        date,
                        cell_rate(texts(record@), values@, old(self).column(name)),
                    )
            },
    {
        proof {
            use_type_invariant(&*self);
            reveal_strlit("N/A");
        }
        if record.len() == 0 {
            return Err(Error::RecordNotFound);
        }
        let first = record[0].as_str();
        assert(first@ == record@[0]@);
        let date = match convert_date(first) {
            Ok(d) => d,
            Err(e) => {
                return Err(e);
            },
        };
        let ghost rec = texts(record@);
        let ghost old_self = *self;
        let n = self.currencies.len();
        // First every cell must parse.
        let mut k: usize = 0;
        while k < n
            invariant
                k <= n,
                n == self.currencies@.len(),
                *self == old_self,
                self.inv(),
                rec == texts(record@),
                values@.len() == record@.len(),
                record@.len() > 0,
                chrono_parsed_day_number(ten_byte_prefix(record@[0]@)) == Some(
                    date + unix_epoch_day(),
                ),
                forall|a: int|
                    0 <= a < k ==> cell_rate(rec, values@, (#[trigger] self.currencies@[a]).column
                        as int) != Some(None::<V>),
            decreases n - k,
        {
            let col = self.currencies[k].column;
            if col < record.len() && !str_eq(record[col].as_str(), "N/A") && values[col].is_none() {
                proof {
                    assert(rec[col as int] == record@[col as int]@);
                    let name = self.currencies@[k as int].name@;
                    self.lemma_index(name, k as int);
                    assert(cell_rate(rec, values@, self.column(name)) == Some(None::<V>));
                    assert(cell_fails(old_self, rec, values@));
                }
                return Err(Error::ParsingNumberFailed);
            }
            proof {
                if col < record.len() {
                    assert(rec[col as int] == record@[col as int]@);
                }
            }
            k = k + 1;
        }
        proof {
            assert forall|name: Seq<char>|
                self.has_currency(name) implies #[trigger] cell_rate(
                rec,
                values@,
                self.column(name),
            ) != Some(None::<V>) by {
                let i = self.index_of(name);
                assert(cell_rate(rec, values@, self.currencies@[i].column as int) != Some(
                    None::<V>,
                ));
            }
        }
        // Then every currency takes its rate.
        let mut cs: Vec<Currency<V>> = Vec::new();
        std::mem::swap(&mut cs, &mut self.currencies);
        let ghost old_cs = cs@;
        assert(old_cs == old_self.currencies@);
        let mut k: usize = 0;
        while k < n
            invariant
                k <= n,
                n == cs@.len(),
                n == old_cs.len(),
                rec == texts(record@),
                values@.len() == record@.len(),
                record@.len() > 0,
                chrono_parsed_day_number(ten_byte_prefix(record@[0]@)) == Some(
                    date + unix_epoch_day(),
                ),
                forall|a: int|
                    0 <= a < n ==> (#[trigger] cs@[a]).name@ == old_cs[a].name@ && cs@[a].column
                        == old_cs[a].column,
                forall|a: int|
                    0 <= a < k ==> (#[trigger] cs@[a]).table.rates() == with_rate(
                        old_cs[a].table.rates(),
                        date as int,
                        cell_rate(rec, values@, old_cs[a].column as int),
                    ),
                forall|a: int| k <= a < n ==> (#[trigger] cs@[a]).table.rates() == old_cs[a].table.rates(),
            decreases n - k,
        {
            let mut c = Currency { name: String::new(), column: 0, table: FxTable::new() };
            cs.set_and_swap(k, &mut c);
            let col = c.column;
            if col < record.len() && !str_eq(record[col].as_str(), "N/A") {
                proof {
                    assert(rec[col as int] == record@[col as int]@);
                }
                match values[col] {
                    Some(v) => {
                        c.table.insert(date, v);
                    },
                    None => {},
                }
            } else {
                proof {
                    if col < record.len() {
                        assert(rec[col as int] == record@[col as int]@);
                    }
                }
            }
            let ghost before = cs@;
            cs.set(k, c);
            proof {
                assert forall|a: int| 0 <= a < n && a != k implies cs@[a] == before[a] by {}
            }
            k = k + 1;
        }
        self.currencies = cs;
        proof {
            use_type_invariant(&*self);
            let ns = *self;
            assert(old_self == *old(self));
            assert forall|name: Seq<char>| #[trigger]
                ns.has_currency(name) == old_self.has_currency(name) by {
                if ns.has_currency(name) {
                    let i = choose|i: int|
                        0 <= i < ns.currencies@.len() && ns.currencies@[i].name@ == name;
                    assert(old_self.currencies@[i].name@ == name);
                }
                if old_self.has_currency(name) {
                    let i = choose|i: int|
                        0 <= i < old_self.currencies@.len() && old_self.currencies@[i].name@
                            == name;
                    assert(ns.currencies@[i].name@ == name);
                }
            }
            assert forall|name: Seq<char>|
                #![trigger ns.table(name)]
                #![trigger ns.column(name)]
                old_self.has_currency(name) implies ns.column(name) == old_self.column(name)
                && ns.table(name) == with_rate(
                old_self.table(name),
                date as int,
                cell_rate(rec, values@, old_self.column(name)),
            ) by {
                let i = old_self.index_of(name);
                assert(old_cs[i] == old_self.currencies@[i]);
                assert(ns.currencies@[i].name@ == name);
                ns.lemma_index(name, i);
                assert(ns.column(name) == ns.currencies@[i].column as int);
            }
        }
        Ok(())
    }
}

/// Whether `rates` has exactly the currency columns of header row `header`,
/// with no rates yet.
pub open spec fn fresh_from_header<V>(rates: FxRates<V>, header: Seq<Seq<char>>) -> bool {
    &&& forall|name: Seq<char>|
        #![trigger rates.has_currency(name)]
        rates.has_currency(name) <==> currency_column(header, name) is Some
    &&& forall|name: Seq<char>|
        #![trigger rates.column(name)]
        rates.has_currency(name) ==> Some(rates.column(name)) == currency_column(header, name)
            && rates.table(name) == Map::<int, V>::empty()
}

impl<V: Copy> FxRates<V> {
    /// Reads a rate file: its header row gives the currencies (a header
    /// that does not read is an error); the further records, read up to the
    /// first one that does not, are handed back for `add_record`, together
    /// with the error that stopped the reading.
    pub fn read_rate_file(bytes: &[u8]) -> (r: Result<(Self, CsvRecords), Error>)
        ensures
            match csv_table_of(bytes@).0 {
                Err(m) => r matches Err(Error::Csv(s)) && s@ == m,
                Ok(h) => r matches Ok((rates, recs)) && fresh_from_header(rates, h) && holds_read(
                    recs,
                    read_until_error(csv_table_of(bytes@).1),
                ),
            },
    {
        let (header, records) = read_table(bytes);
        match header {
            Ok(h) => Ok((FxRates::from_headers(&h), records)),
            Err(e) => Err(e),
        }
    }
}

} // verus!
