//! The buys, sells, transfers and corporate actions of a statement, ordered
//! by day. On one day, buys, transfers and corporate actions come before the
//! sells, so that a sale never runs ahead of a purchase made the same day.

use vstd::prelude::*;

use crate::date::{convert_date, day_of, has_ten_byte_prefix};
use crate::error::Error;

verus! {

/// One event of an asset: a buy or a sell (`T`, the trade row), a transfer
/// (`R`) or a corporate action (`K`).
pub enum AssetEvent<T, R, K> {
    Kauf(T),
    Verkauf(T),
    Transfer(R),
    Kapitalmassnahme(K),
}

/// Whether an event goes before the events already listed for its day.
pub open spec fn goes_first<T, R, K>(e: AssetEvent<T, R, K>) -> bool {
    !(e is Verkauf)
}

/// The events of one day after adding `e` to `list`: at the front unless
/// it is a sell, which goes to the back.
pub open spec fn placed<T, R, K>(list: Seq<AssetEvent<T, R, K>>, e: AssetEvent<T, R, K>) -> Seq<
    AssetEvent<T, R, K>,
> {
    if goes_first(e) {
        seq![e] + list
    } else {
        list.push(e)
    }
}

/// The events of day `d` after adding the dated events `evs` in order to an
/// empty list.
pub open spec fn arranged<T, R, K>(evs: Seq<(int, AssetEvent<T, R, K>)>, d: int) -> Seq<
    AssetEvent<T, R, K>,
>
    decreases evs.len(),
{
    if evs.len() == 0 {
        Seq::empty()
    } else if evs.last().0 == d {
        placed(arranged(evs.drop_last(), d), evs.last().1)
    } else {
        arranged(evs.drop_last(), d)
    }
}

/// Whether no sell comes before an event that is not a sell.
pub open spec fn sells_last<T, R, K>(s: Seq<AssetEvent<T, R, K>>) -> bool {
    forall|i: int, j: int|
        0 <= i < j < s.len() && (#[trigger] s[i]) is Verkauf ==> (#[trigger] s[j]) is Verkauf
}

/// Events ordered by day; each day's events in the order in which they are
/// to be booked.
pub struct AssetEventList<T, R, K> {
    events: Vec<(i64, std::collections::VecDeque<AssetEvent<T, R, K>>)>,
}

impl<T, R, K> AssetEventList<T, R, K> {
    #[verifier::type_invariant]
    spec fn inv(self) -> bool {
        &&& forall|i: int, j: int|
            0 <= i < j < self.events@.len() ==> (#[trigger] self.events@[i]).0 < (
            #[trigger] self.events@[j]).0
        &&& forall|i: int| 0 <= i < self.events@.len() ==> (#[trigger] self.events@[i]).1@.len() > 0
    }

    /// The events of day `d`, in booking order (empty on a day without any).
    pub closed spec fn on(self, d: int) -> Seq<AssetEvent<T, R, K>> {
        if exists|i: int| 0 <= i < self.events@.len() && self.events@[i].0 == d {
            let i = choose|i: int| 0 <= i < self.events@.len() && self.events@[i].0 == d;
            self.events@[i].1@
        } else {
            Seq::empty()
        }
    }

    proof fn lemma_on(self, i: int)
        requires
            self.inv(),
            0 <= i < self.events@.len(),
        ensures
            self.on(self.events@[i].0 as int) == self.events@[i].1@,
    {
        let d = self.events@[i].0 as int;
        let j = choose|j: int| 0 <= j < self.events@.len() && self.events@[j].0 == d;
        if j != i {
            if j < i {
                assert(self.events@[j].0 < self.events@[i].0);
            } else {
                assert(self.events@[i].0 < self.events@[j].0);
            }
        }
    }

    proof fn lemma_on_absent(self, d: int)
        requires
            forall|i: int| 0 <= i < self.events@.len() ==> (#[trigger] self.events@[i]).0 != d,
        ensures
            self.on(d) == Seq::<AssetEvent<T, R, K>>::empty(),
    {
    }

    /// An empty list.
    pub fn new() -> (l: Self)
        ensures
            forall|d: int| #[trigger] l.on(d) == Seq::<AssetEvent<T, R, K>>::empty(),
    {
        AssetEventList { events: Vec::new() }
    }

    /// Adds `event` on day `timestamp`: a sell after the day's events,
    /// anything else before them.
    pub fn add(&mut self, timestamp: i64, event: AssetEvent<T, R, K>)
        ensures
            final(self).on(timestamp as int) == placed(old(self).on(timestamp as int), event),
            forall|d: int| d != timestamp ==> #[trigger] final(self).on(d) == old(self).on(d),
    {
        proof {
            use_type_invariant(&*self);
        }
        let ghost old_self = *self;
        let ghost ev = event;
        let n = self.events.len();
        let mut k: usize = 0;
        while k < n && self.events[k].0 < timestamp
            invariant
                n == self.events@.len(),
                *self == old_self,
                old_self.inv(),
                k <= n,
                forall|a: int| 0 <= a < k ==> (#[trigger] self.events@[a]).0 < timestamp,
            decreases n - k,
        {
            k = k + 1;
        }
        let mut h: Vec<(i64, std::collections::VecDeque<AssetEvent<T, R, K>>)> = Vec::new();
        std::mem::swap(&mut h, &mut self.events);
        let ghost old_h = h@;
        if k < n && h[k].0 == timestamp {
            let mut entry: (i64, std::collections::VecDeque<AssetEvent<T, R, K>>) = (
                0,
                std::collections::VecDeque::new(),
            );
            h.set_and_swap(k, &mut entry);
            let ghost before = entry.1@;
            let (day, mut q) = entry;
            match event {
                AssetEvent::Verkauf(t) => q.push_back(AssetEvent::Verkauf(t)),
                AssetEvent::Kauf(t) => q.push_front(AssetEvent::Kauf(t)),
                AssetEvent::Transfer(t) => q.push_front(AssetEvent::Transfer(t)),
                AssetEvent::Kapitalmassnahme(t) => q.push_front(AssetEvent::Kapitalmassnahme(t)),
            }
            proof {
                assert(q@ == placed(before, ev));
            }
            h.set(k, (day, q));
            proof {
                assert forall|a: int| 0 <= a < h@.len() && a != k implies h@[a] == old_h[a] by {}
            }
            self.events = h;
            proof {
                use_type_invariant(&*self);
                let ns = *self;
                old_self.lemma_on(k as int);
                ns.lemma_on(k as int);
                assert forall|d: int| d != timestamp implies #[trigger] ns.on(d) == old_self.on(
                    d,
                ) by {
                    if exists|i: int| 0 <= i < old_h.len() && old_h[i].0 == d {
                        let i = choose|i: int| 0 <= i < old_h.len() && old_h[i].0 == d;
                        old_self.lemma_on(i);
                        ns.lemma_on(i);
                    } else {
                        assert forall|i: int| 0 <= i < ns.events@.len() implies (
                        #[trigger] ns.events@[i]).0 != d by {
                            if i != k {
                                assert(ns.events@[i] == old_h[i]);
                            }
                        }
                        ns.lemma_on_absent(d);
                    }
                }
            }
        } else {
            let mut q = std::collections::VecDeque::new();
            q.push_back(event);
            proof {
                assert(q@ == seq![ev]);
                assert(placed(Seq::<AssetEvent<T, R, K>>::empty(), ev) =~= seq![ev]);
                assert forall|a: int| 0 <= a < old_h.len() implies (#[trigger] old_h[a]).0
                    != timestamp by {
                    if a >= k {
                        if a > k {
                            assert(old_h[k as int].0 < old_h[a].0);
                        }
                    }
                }
                old_self.lemma_on_absent(timestamp as int);
            }
            h.insert(k, (timestamp, q));
            self.events = h;
            proof {
                use_type_invariant(&*self);
                let ns = *self;
                ns.lemma_on(k as int);
                assert forall|d: int| d != timestamp implies #[trigger] ns.on(d) == old_self.on(
                    d,
                ) by {
                    if exists|i: int| 0 <= i < old_h.len() && old_h[i].0 == d {
                        let i = choose|i: int| 0 <= i < old_h.len() && old_h[i].0 == d;
                        old_self.lemma_on(i);
                        if i < k {
                            assert(ns.events@[i] == old_h[i]);
                            ns.lemma_on(i);
                        } else {
                            assert(ns.events@[i + 1] == old_h[i]);
                            ns.lemma_on(i + 1);
                        }
                    } else {
                        assert forall|i: int| 0 <= i < ns.events@.len() implies (
                        #[trigger] ns.events@[i]).0 != d by {
                            if i < k {
                                assert(ns.events@[i] == old_h[i]);
                            } else if i > k {
                                assert(ns.events@[i] == old_h[i - 1]);
                            }
                        }
                        ns.lemma_on_absent(d);
                    }
                }
            }
        }
    }

    /// The days with events, earliest first, each with its events in
    /// booking order.
    pub fn events(&self) -> (r: &Vec<(i64, std::collections::VecDeque<AssetEvent<T, R, K>>)>)
        ensures
            forall|i: int, j: int| 0 <= i < j < r@.len() ==> (#[trigger] r@[i]).0 < (#[trigger] r@[j]).0,
            forall|i: int| 0 <= i < r@.len() ==> (#[trigger] r@[i]).1@ == self.on(r@[i].0 as int)
                && r@[i].1@.len() > 0,
            forall|d: int| #[trigger] self.on(d).len() > 0 ==> exists|i: int|
                0 <= i < r@.len() && r@[i].0 == d,
    {
        proof {
            use_type_invariant(self);
            assert forall|i: int| 0 <= i < self.events@.len() implies (
            #[trigger] self.events@[i]).1@ == self.on(self.events@[i].0 as int) by {
                self.lemma_on(i);
            }
        }
        &self.events
    }
}

/// The dated events of `evs` with the day of each, while every date reads.
pub open spec fn dated<T, R, K>(evs: Seq<(String, AssetEvent<T, R, K>)>) -> Seq<
    (int, AssetEvent<T, R, K>),
> {
    evs.map_values(|p: (String, AssetEvent<T, R, K>)| (day_of(p.0@)->0, p.1))
}

/// Whether every event up to the first one whose date does not read has a
/// date whose first ten bytes are whole characters.
pub open spec fn event_dates_reached<T, R, K>(evs: Seq<(String, AssetEvent<T, R, K>)>) -> bool {
    forall|k: int|
        0 <= k < evs.len() && (forall|j: int| 0 <= j < k ==> (#[trigger] day_of(evs[j].0@)) is Some)
            ==> has_ten_byte_prefix((#[trigger] evs[k]).0@)
}

/// Lists the events, each given with the date text of its row (the trade
/// rows, then the transfers, then the corporate actions, as the statement
/// gives them). The first date that does not read stops it.
pub fn von_kontoauszug<T, R, K>(events: Vec<(String, AssetEvent<T, R, K>)>) -> (r: Result<
    AssetEventList<T, R, K>,
    Error,
>)
    requires
        event_dates_reached(events@),
    ensures
        r is Ok <==> forall|i: int| 0 <= i < events@.len() ==> (#[trigger] day_of(events@[i].0@))
            is Some,
        r matches Err(e) ==> e == Error::FailedToParseDate,
        r matches Ok(l) ==> forall|d: int| #[trigger] l.on(d) == arranged(dated(events@), d),
{
    let ghost evs = events@;
    assert(evs == events@);
    let mut list: AssetEventList<T, R, K> = AssetEventList::new();
    let mut given = events;
    let n = given.len();
    let mut rest: Vec<(String, AssetEvent<T, R, K>)> = Vec::new();
    while given.len() > 0
        invariant
            n == evs.len(),
            given@.len() + rest@.len() == n,
            forall|a: int| 0 <= a < given@.len() ==> #[trigger] given@[a] == evs[a],
            forall|a: int| 0 <= a < rest@.len() ==> #[trigger] rest@[a] == evs[n - 1 - a],
        decreases given@.len(),
    {
        match given.pop() {
            Some(p) => rest.push(p),
            None => {},
        }
    }
    let mut i: usize = 0;
    while i < n
        invariant
            n == evs.len(),
            evs == events@,
            i <= n,
            rest@.len() == n - i,
            forall|a: int| 0 <= a < rest@.len() ==> #[trigger] rest@[a] == evs[n - 1 - a],
            event_dates_reached(evs),
            forall|a: int| 0 <= a < i ==> (#[trigger] day_of(evs[a].0@)) is Some,
            forall|d: int| #[trigger] list.on(d) == arranged(dated(evs.take(i as int)), d),
        decreases n - i,
    {
        let (date, event) = match rest.pop() {
            Some(p) => p,
            None => {
                return Err(Error::FailedToParseDate);
            },
        };
        proof {
            assert(date == evs[i as int].0);
            assert(has_ten_byte_prefix(evs[i as int].0@));
        }
        let day = match convert_date(date.as_str()) {
            Ok(x) => x,
            Err(e) => {
                proof {
                    assert(day_of(evs[i as int].0@) is None);
                    assert(evs == events@);
                    assert(day_of(events@[i as int].0@) is None);
                }
                return Err(e);
            },
        };
        let ghost ev = event;
        list.add(day, event);
        proof {
            let pre = evs.take(i as int);
            let post = evs.take(i + 1);
            assert(post.drop_last() =~= pre);
            assert(dated(post).drop_last() =~= dated(pre));
            assert(dated(post).last() == (day as int, ev));
            assert forall|d: int| #[trigger] list.on(d) == arranged(dated(post), d) by {}
        }
        i = i + 1;
    }
    proof {
        assert(evs.take(n as int) =~= evs);
    }
    Ok(list)
}

/// On every day, no sell is booked before a buy, transfer or corporate
/// action of that day, whatever the order in which the events were given.
pub proof fn lemma_sells_last<T, R, K>(evs: Seq<(int, AssetEvent<T, R, K>)>, d: int)
    ensures
        sells_last(arranged(evs, d)),
    decreases evs.len(),
{
    if evs.len() > 0 {
        lemma_sells_last(evs.drop_last(), d);
        let prev = arranged(evs.drop_last(), d);
        let e = evs.last().1;
        if evs.last().0 == d {
            let s = placed(prev, e);
            if goes_first(e) {
                assert forall|i: int, j: int|
                    0 <= i < j < s.len() && (#[trigger] s[i]) is Verkauf implies (
                    #[trigger] s[j]) is Verkauf by {
                    assert(i > 0);
                    assert(s[i] == prev[i - 1]);
                    assert(s[j] == prev[j - 1]);
                }
            } else {
                assert forall|i: int, j: int|
                    0 <= i < j < s.len() && (#[trigger] s[i]) is Verkauf implies (
                    #[trigger] s[j]) is Verkauf by {
                    if j < prev.len() {
                        assert(s[i] == prev[i]);
                        assert(s[j] == prev[j]);
                    }
                }
            }
        }
    }
}

/// The events of day `d` among `evs` that go first (all but the sells), in
/// the order given.
pub open spec fn firsts_on<T, R, K>(evs: Seq<(int, AssetEvent<T, R, K>)>, d: int) -> Seq<
    AssetEvent<T, R, K>,
>
    decreases evs.len(),
{
    if evs.len() == 0 {
        Seq::empty()
    } else if evs.last().0 == d && goes_first(evs.last().1) {
        firsts_on(evs.drop_last(), d).push(evs.last().1)
    } else {
        firsts_on(evs.drop_last(), d)
    }
}

/// The sells of day `d` among `evs`, in the order given.
pub open spec fn sells_on<T, R, K>(evs: Seq<(int, AssetEvent<T, R, K>)>, d: int) -> Seq<
    AssetEvent<T, R, K>,
>
    decreases evs.len(),
{
    if evs.len() == 0 {
        Seq::empty()
    } else if evs.last().0 == d && !goes_first(evs.last().1) {
        sells_on(evs.drop_last(), d).push(evs.last().1)
    } else {
        sells_on(evs.drop_last(), d)
    }
}

/// Adding events one by one in the order `evs` books, on each day `d`, the
/// buys, transfers and corporate actions of that day last added first, then
/// the sells of that day in the order they were added.
pub proof fn lemma_arranged_order<T, R, K>(evs: Seq<(int, AssetEvent<T, R, K>)>, d: int)
    ensures
        arranged(evs, d) == firsts_on(evs, d).reverse() + sells_on(evs, d),
    decreases evs.len(),
{
    if evs.len() > 0 {
        lemma_arranged_order(evs.drop_last(), d);
        let f = firsts_on(evs.drop_last(), d);
        let sl = sells_on(evs.drop_last(), d);
        let e = evs.last().1;
        if evs.last().0 == d {
            if goes_first(e) {
                let f2 = f.push(e);
                assert(f2.reverse() =~= seq![e] + f.reverse());
                assert(seq![e] + (f.reverse() + sl) =~= f2.reverse() + sl);
            } else {
                assert((f.reverse() + sl).push(e) =~= f.reverse() + sl.push(e));
            }
        }
    }
}

} // verus!
