//! Lists of items kept per key (a symbol, a jurisdiction), each key once.

use vstd::prelude::*;

use crate::text::str_eq;

verus! {

/// Lists of items per key, in the order in which the keys first came.
pub struct KeyedLists<X> {
    entries: Vec<(String, Vec<X>)>,
}

fn find_key<X>(h: &Vec<(String, Vec<X>)>, key: &str) -> (r: Option<usize>)
    ensures
        r matches Some(k) ==> k < h@.len() && h@[k as int].0@ == key@,
        r is None ==> forall|a: int| 0 <= a < h@.len() ==> (#[trigger] h@[a]).0@ != key@,
{
    let mut k: usize = 0;
    while k < h.len()
        invariant
            k <= h.len(),
            forall|a: int| 0 <= a < k ==> (#[trigger] h@[a]).0@ != key@,
        decreases h.len() - k,
    {
        if str_eq(h[k].0.as_str(), key) {
            return Some(k);
        }
        k = k + 1;
    }
    None
}

impl<X> KeyedLists<X> {
    #[verifier::type_invariant]
    spec fn inv(self) -> bool {
        forall|i: int, j: int|
            0 <= i < self.entries@.len() && 0 <= j < self.entries@.len() && i != j
                ==> self.entries@[i].0@ != self.entries@[j].0@
    }

    /// Whether there is a list for `key`.
    pub closed spec fn has(self, key: Seq<char>) -> bool {
        exists|i: int| 0 <= i < self.entries@.len() && self.entries@[i].0@ == key
    }

    /// The keys, in the order in which they first came.
    pub closed spec fn order(self) -> Seq<Seq<char>> {
        self.entries@.map_values(|e: (String, Vec<X>)| e.0@)
    }

    closed spec fn index_of(self, key: Seq<char>) -> int {
        choose|i: int| 0 <= i < self.entries@.len() && self.entries@[i].0@ == key
    }

    /// The list of `key` (empty where there is none).
    pub closed spec fn list(self, key: Seq<char>) -> Seq<X> {
        if self.has(key) {
            self.entries@[self.index_of(key)].1@
        } else {
            Seq::empty()
        }
    }

    proof fn lemma_index(self, key: Seq<char>, k: int)
        requires
            self.inv(),
            0 <= k < self.entries@.len(),
            self.entries@[k].0@ == key,
        ensures
            self.has(key),
            self.index_of(key) == k,
            self.list(key) == self.entries@[k].1@,
    {
        assert(self.has(key));
        let i = self.index_of(key);
        assert(self.entries@[i].0@ == key);
    }

    /// Every key but `key` keeps its list, given that the entries are those
    /// of `old` except at position `skip` and at the positions after the
    /// old ones, all of which hold `key`.
    proof fn lemma_others(self, old: Self, key: Seq<char>, skip: int)
        requires
            self.inv(),
            old.inv(),
            old.entries@.len() <= self.entries@.len(),
            forall|a: int| 0 <= a < old.entries@.len() && a != skip
                ==> self.entries@[a] == old.entries@[a],
            forall|a: int| old.entries@.len() <= a < self.entries@.len()
                ==> (#[trigger] self.entries@[a]).0@ == key,
            0 <= skip < old.entries@.len() ==> old.entries@[skip].0@ == key,
            0 <= skip < old.entries@.len() && skip < self.entries@.len() ==> self.entries@[skip].0@ == key,
        ensures
            forall|s: Seq<char>| s != key
                ==> #[trigger] self.has(s) == old.has(s) && self.list(s) == old.list(s),
    {
        assert forall|s: Seq<char>| s != key implies #[trigger] self.has(s) == old.has(s)
            && self.list(s) == old.list(s) by {
            if old.has(s) {
                let i = old.index_of(s);
                assert(self.entries@[i] == old.entries@[i]);
                self.lemma_index(s, i);
            }
            if self.has(s) {
                let i = self.index_of(s);
                assert(i < old.entries@.len());
                assert(self.entries@[i] == old.entries@[i]);
                old.lemma_index(s, i);
            }
        }
    }

    /// No lists.
    pub fn new() -> (l: Self)
        ensures
            l.order() == Seq::<Seq<char>>::empty(),
            forall|key: Seq<char>| !#[trigger] l.has(key) && l.list(key) == Seq::<X>::empty(),
    {
        KeyedLists { entries: Vec::new() }
    }

    /// Appends `x` to the list of `key`, starting a list where there is none.
    pub fn push(&mut self, key: &str, x: X)
        ensures
            final(self).order() == (if old(self).has(key@) {
                old(self).order()
            } else {
                old(self).order().push(key@)
            }),
            final(self).has(key@),
            final(self).list(key@) == old(self).list(key@).push(x),
            forall|s: Seq<char>| s != key@
                ==> #[trigger] final(self).has(s) == old(self).has(s)
                    && final(self).list(s) == old(self).list(s),
    {
        proof {
            use_type_invariant(&*self);
        }
        let ghost old_self = *self;
        let mut h: Vec<(String, Vec<X>)> = Vec::new();
        std::mem::swap(&mut h, &mut self.entries);
        let ghost old_h = h@;
        let ghost mut pos: int = old_h.len() as int;
        match find_key(&h, key) {
            Some(k) => {
                proof {
                    old_self.lemma_index(key@, k as int);
                    pos = k as int;
                }
                let mut e: (String, Vec<X>) = (String::new(), Vec::new());
                h.set_and_swap(k, &mut e);
                let (name, mut v) = e;
                v.push(x);
                h.set(k, (name, v));
            },
            None => {
                let mut v = Vec::new();
                v.push(x);
                h.push((key.to_owned(), v));
            },
        }
        self.entries = h;
        proof {
            use_type_invariant(&*self);
            let ns = *self;
            ns.lemma_index(key@, pos);
            ns.lemma_others(old_self, key@, pos);
        }
    }

    /// Makes `v` the list of `key`, in place of any it had.
    pub fn set(&mut self, key: &str, v: Vec<X>)
        ensures
            final(self).order() == (if old(self).has(key@) {
                old(self).order()
            } else {
                old(self).order().push(key@)
            }),
            final(self).has(key@),
            final(self).list(key@) == v@,
            forall|s: Seq<char>| s != key@
                ==> #[trigger] final(self).has(s) == old(self).has(s)
                    && final(self).list(s) == old(self).list(s),
    {
        proof {
            use_type_invariant(&*self);
        }
        let ghost old_self = *self;
        let mut h: Vec<(String, Vec<X>)> = Vec::new();
        std::mem::swap(&mut h, &mut self.entries);
        let ghost old_h = h@;
        let ghost mut pos: int = old_h.len() as int;
        match find_key(&h, key) {
            Some(k) => {
                proof {
                    pos = k as int;
                }
                h.set(k, (key.to_owned(), v));
            },
            None => {
                h.push((key.to_owned(), v));
            },
        }
        self.entries = h;
        proof {
            use_type_invariant(&*self);
            let ns = *self;
            ns.lemma_index(key@, pos);
            ns.lemma_others(old_self, key@, pos);
        }
    }

    /// Removes the list of `key` and hands it out, where there is one.
    pub fn remove(&mut self, key: &str) -> (r: Option<Vec<X>>)
        ensures
            !old(self).has(key@) ==> final(self).order() == old(self).order(),
            old(self).has(key@) ==> exists|i: int|
                0 <= i < old(self).order().len() && old(self).order()[i] == key@
                    && final(self).order() == old(self).order().remove(i),
            r is Some <==> old(self).has(key@),
            r matches Some(v) ==> v@ == old(self).list(key@),
            !final(self).has(key@),
            forall|s: Seq<char>| s != key@
                ==> #[trigger] final(self).has(s) == old(self).has(s)
                    && final(self).list(s) == old(self).list(s),
    {
        proof {
            use_type_invariant(&*self);
        }
        let ghost old_self = *self;
        match find_key(&self.entries, key) {
            Some(k) => {
                proof {
                    old_self.lemma_index(key@, k as int);
                }
                let mut h: Vec<(String, Vec<X>)> = Vec::new();
                std::mem::swap(&mut h, &mut self.entries);
                let ghost old_h = h@;
                let (_, v) = h.remove(k);
                self.entries = h;
                proof {
                    use_type_invariant(&*self);
                    let ns = *self;
                    assert(old_self.order()[k as int] == key@);
                    assert(ns.order() =~= old_self.order().remove(k as int));
                    assert forall|i: int| 0 <= i < ns.entries@.len() implies (
                    #[trigger] ns.entries@[i]).0@ != key@ by {
                        if i < k {
                            assert(ns.entries@[i] == old_h[i]);
                        } else {
                            assert(ns.entries@[i] == old_h[i + 1]);
                        }
                    }
                    assert forall|s: Seq<char>| s != key@ implies #[trigger] ns.has(s)
                        == old_self.has(s) && ns.list(s) == old_self.list(s) by {
                        if old_self.has(s) {
                            let i = old_self.index_of(s);
                            if i < k {
                                assert(ns.entries@[i] == old_h[i]);
                                ns.lemma_index(s, i);
                            } else {
                                assert(i != k);
                                assert(ns.entries@[i - 1] == old_h[i]);
                                ns.lemma_index(s, i - 1);
                            }
                        }
                        if ns.has(s) {
                            let i = ns.index_of(s);
                            if i < k {
                                assert(ns.entries@[i] == old_h[i]);
                                old_self.lemma_index(s, i);
                            } else {
                                assert(ns.entries@[i] == old_h[i + 1]);
                                old_self.lemma_index(s, i + 1);
                            }
                        }
                    }
                }
                Some(v)
            },
            None => None,
        }
    }

    /// The list of `key`, where there is one.
    pub fn get(&self, key: &str) -> (r: Option<&Vec<X>>)
        ensures
            r is Some <==> self.has(key@),
            r matches Some(v) ==> v@ == self.list(key@),
    {
        proof {
            use_type_invariant(self);
        }
        match find_key(&self.entries, key) {
            Some(k) => {
                proof {
                    self.lemma_index(key@, k as int);
                }
                Some(&self.entries[k].1)
            },
            None => None,
        }
    }

    /// All keys with their lists, each key once, in the order of `order`.
    pub fn entries(&self) -> (r: &Vec<(String, Vec<X>)>)
        ensures
            r@.len() == self.order().len(),
            forall|i: int| 0 <= i < r@.len() ==> (#[trigger] r@[i]).0@ == self.order()[i],
            forall|i: int| 0 <= i < r@.len() ==> #[trigger] self.has(r@[i].0@)
                && self.list(r@[i].0@) == r@[i].1@,
            forall|key: Seq<char>| #[trigger] self.has(key)
                ==> exists|i: int| 0 <= i < r@.len() && r@[i].0@ == key,
            forall|i: int, j: int| 0 <= i < r@.len() && 0 <= j < r@.len() && i != j
                ==> r@[i].0@ != r@[j].0@,
    {
        proof {
            use_type_invariant(self);
            assert forall|i: int| 0 <= i < self.entries@.len() implies #[trigger] self.has(
                self.entries@[i].0@,
            ) && self.list(self.entries@[i].0@) == self.entries@[i].1@ by {
                self.lemma_index(self.entries@[i].0@, i);
            }
        }
        &self.entries
    }
}

} // verus!
