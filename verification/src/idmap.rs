//! An ordered map from `u32` identifiers to values, kept as a vector of entries
//! sorted by key. It stands where the kernel tables are keyed by pid, cpu number,
//! group id or similar small integers and are walked in ascending key order.

use vstd::prelude::*;

verus! {

#[derive(Clone, Debug)]
pub struct IdMap<V> {
    entries: Vec<(u32, V)>,
}

/// Keys of a sequence of entries.
pub open spec fn entry_keys<V>(s: Seq<(u32, V)>) -> Seq<u32> {
    s.map_values(|e: (u32, V)| e.0)
}

/// Strictly increasing keys.
pub open spec fn sorted_keys(s: Seq<u32>) -> bool {
    forall|i: int, j: int| 0 <= i < j < s.len() ==> s[i] < s[j]
}

impl<V> IdMap<V> {
    /// The keys, in ascending order.
    pub closed spec fn key_seq(&self) -> Seq<u32> {
        entry_keys(self.entries@)
    }

    /// The values, in ascending order of their keys.
    pub closed spec fn value_seq(&self) -> Seq<V> {
        self.entries@.map_values(|e: (u32, V)| e.1)
    }

    /// Entries are sorted by key.
    pub closed spec fn wf(&self) -> bool {
        sorted_keys(entry_keys(self.entries@))
    }

    spec fn pos(&self, k: u32) -> int {
        choose|i: int| 0 <= i < self.entries@.len() && self.entries@[i].0 == k
    }

    /// The map from keys to values.
    pub closed spec fn view(&self) -> Map<u32, V> {
        Map::new(
            |k: u32| exists|i: int| 0 <= i < self.entries@.len() && self.entries@[i].0 == k,
            |k: u32| self.entries@[self.pos(k)].1,
        )
    }

    /// Whether key `k` is present.
    pub open spec fn has(&self, k: u32) -> bool {
        self.view().contains_key(k)
    }

    proof fn lemma_at(&self, i: int)
        requires
            self.wf(),
            0 <= i < self.entries@.len(),
        ensures
            self.view().contains_key(self.entries@[i].0),
            self.view()[self.entries@[i].0] == self.entries@[i].1,
            self.pos(self.entries@[i].0) == i,
    {
        let k = self.entries@[i].0;
        assert(self.view().contains_key(k));
        let p = self.pos(k);
        assert(0 <= p < self.entries@.len() && self.entries@[p].0 == k);
        if p < i {
            assert(entry_keys(self.entries@)[p] < entry_keys(self.entries@)[i]);
        } else if i < p {
            assert(entry_keys(self.entries@)[i] < entry_keys(self.entries@)[p]);
        }
    }

    /// The keys are sorted, list exactly the domain, and index the values.
    pub proof fn lemma_wf(&self)
        requires
            self.wf(),
        ensures
            sorted_keys(self.key_seq()),
            self.key_seq().to_set() == self.view().dom(),
            self.key_seq().no_duplicates(),
            self.key_seq().len() == self.value_seq().len(),
            self.view().dom().finite(),
            self.view().dom().len() == self.key_seq().len(),
            forall|i: int|
                0 <= i < self.key_seq().len() ==> #[trigger] self.view()[self.key_seq()[i]]
                    == self.value_seq()[i],
    {
        assert forall|i: int| 0 <= i < self.key_seq().len() implies #[trigger] self.view()[self.key_seq()[i]]
            == self.value_seq()[i] by {
            self.lemma_at(i);
        }
        assert forall|k: u32| self.key_seq().to_set().contains(k) <==> self.view().dom().contains(k) by {
            if self.view().dom().contains(k) {
                let i = choose|i: int| 0 <= i < self.entries@.len() && self.entries@[i].0 == k;
                assert(self.key_seq()[i] == k);
            }
        }
        assert(self.key_seq().to_set() =~= self.view().dom());
        assert(self.key_seq().no_duplicates()) by {
            assert forall|i: int, j: int| 0 <= i < self.key_seq().len() && 0 <= j < self.key_seq().len() && i != j
                implies self.key_seq()[i] != self.key_seq()[j] by {
                if i < j {
                    assert(self.key_seq()[i] < self.key_seq()[j]);
                } else {
                    assert(self.key_seq()[j] < self.key_seq()[i]);
                }
            }
        }
        self.key_seq().unique_seq_to_set();
    }

    pub fn new() -> (m: Self)
        ensures
            m.wf(),
            m@ == Map::<u32, V>::empty(),
            m.key_seq() == Seq::<u32>::empty(),
    {
        let m = IdMap { entries: Vec::new() };
        assert(m@ =~= Map::<u32, V>::empty());
        assert(entry_keys(m.entries@) =~= Seq::<u32>::empty());
        m
    }

    pub fn len(&self) -> (r: usize)
        requires
            self.wf(),
        ensures
            r == self@.dom().len(),
            r == self.key_seq().len(),
    {
        proof {
            self.lemma_wf();
        }
        self.entries.len()
    }

    /// The position of key `k`.
    fn find(&self, k: u32) -> (r: Option<usize>)
        requires
            self.wf(),
        ensures
            match r {
                Some(i) => i < self.entries@.len() && self.entries@[i as int].0 == k,
                None => !self@.contains_key(k),
            },
    {
        let mut i: usize = 0;
        while i < self.entries.len()
            invariant
                i <= self.entries@.len(),
                forall|j: int| 0 <= j < i ==> self.entries@[j].0 != k,
            decreases self.entries@.len() - i,
        {
            if self.entries[i].0 == k {
                return Some(i);
            }
            i = i + 1;
        }
        None
    }

    pub fn contains_key(&self, k: u32) -> (r: bool)
        requires
            self.wf(),
        ensures
            r == self@.contains_key(k),
    {
        self.find(k).is_some()
    }

    pub fn get(&self, k: u32) -> (r: Option<&V>)
        requires
            self.wf(),
        ensures
            match r {
                Some(v) => self@.contains_key(k) && *v == self@[k],
                None => !self@.contains_key(k),
            },
    {
        match self.find(k) {
            Some(i) => {
                proof {
                    self.lemma_at(i as int);
                }
                Some(&self.entries[i].1)
            },
            None => None,
        }
    }

    /// The key at position `i` of the ascending key order.
    pub fn key_at(&self, i: usize) -> (r: u32)
        requires
            i < self.key_seq().len(),
        ensures
            r == self.key_seq()[i as int],
    {
        self.entries[i].0
    }

    /// The value at position `i` of the ascending key order.
    pub fn value_at(&self, i: usize) -> (r: &V)
        requires
            i < self.key_seq().len(),
        ensures
            *r == self.value_seq()[i as int],
    {
        &self.entries[i].1
    }

    proof fn lemma_update_value(old_m: &Self, new_m: &Self, i: int, v: V)
        requires
            old_m.wf(),
            0 <= i < old_m.entries@.len(),
            new_m.entries@ == old_m.entries@.update(i, (old_m.entries@[i].0, v)),
        ensures
            new_m.wf(),
            new_m@ == old_m@.insert(old_m.entries@[i].0, v),
            new_m.key_seq() == old_m.key_seq(),
            new_m.value_seq() == old_m.value_seq().update(i, v),
    {
        assert(entry_keys(new_m.entries@) =~= entry_keys(old_m.entries@));
        assert(new_m.value_seq() =~= old_m.value_seq().update(i, v));
        let k = old_m.entries@[i].0;
        assert forall|key: u32| #[trigger] new_m@.contains_key(key) <==> old_m@.insert(k, v).contains_key(key) by {
            if old_m@.contains_key(key) {
                let j = choose|j: int| 0 <= j < old_m.entries@.len() && old_m.entries@[j].0 == key;
                assert(new_m.entries@[j].0 == key);
            }
            if new_m@.contains_key(key) {
                let j = choose|j: int| 0 <= j < new_m.entries@.len() && new_m.entries@[j].0 == key;
                assert(old_m.entries@[j].0 == key);
            }
        }
        assert forall|key: u32| #[trigger] new_m@.contains_key(key) implies new_m@[key] == old_m@.insert(k, v)[key] by {
            let j = choose|j: int| 0 <= j < new_m.entries@.len() && new_m.entries@[j].0 == key;
            new_m.lemma_at(j);
            old_m.lemma_at(j);
            if j < i {
                assert(entry_keys(old_m.entries@)[j] < entry_keys(old_m.entries@)[i]);
            } else if i < j {
                assert(entry_keys(old_m.entries@)[i] < entry_keys(old_m.entries@)[j]);
            }
        }
        assert(new_m@ =~= old_m@.insert(k, v));
    }

    proof fn lemma_update_value_all(old_m: &Self, i: int)
        requires
            old_m.wf(),
            0 <= i < old_m.entries@.len(),
        ensures
            forall|n: Self, v: V|
                #![trigger n.view(), old_m.entries@.update(i, (old_m.entries@[i].0, v))]
                #![trigger n.key_seq(), old_m.entries@.update(i, (old_m.entries@[i].0, v))]
                #![trigger n.wf(), old_m.entries@.update(i, (old_m.entries@[i].0, v))]
                #![trigger n.value_seq(), old_m.entries@.update(i, (old_m.entries@[i].0, v))]
                n.entries@ == old_m.entries@.update(i, (old_m.entries@[i].0, v)) ==> {
                    &&& n.wf()
                    &&& n@ == old_m@.insert(old_m.entries@[i].0, v)
                    &&& n.key_seq() == old_m.key_seq()
                    &&& n.value_seq() == old_m.value_seq().update(i, v)
                },
    {
        assert forall|n: Self, v: V|
            #![trigger n.view(), old_m.entries@.update(i, (old_m.entries@[i].0, v))]
            #![trigger n.key_seq(), old_m.entries@.update(i, (old_m.entries@[i].0, v))]
            #![trigger n.wf(), old_m.entries@.update(i, (old_m.entries@[i].0, v))]
            #![trigger n.value_seq(), old_m.entries@.update(i, (old_m.entries@[i].0, v))]
            n.entries@ == old_m.entries@.update(i, (old_m.entries@[i].0, v)) implies {
            &&& n.wf()
            &&& n@ == old_m@.insert(old_m.entries@[i].0, v)
            &&& n.key_seq() == old_m.key_seq()
            &&& n.value_seq() == old_m.value_seq().update(i, v)
        } by {
            Self::lemma_update_value(old_m, &n, i, v);
        }
    }

    pub fn get_mut(&mut self, k: u32) -> (r: Option<&mut V>)
        requires
            old(self).wf(),
        ensures
            final(self).wf(),
            final(self).key_seq() == old(self).key_seq(),
            match r {
                Some(v) => old(self)@.contains_key(k) && *v == old(self)@[k] && final(self)@ == old(
                    self,
                )@.insert(k, *final(v)),
                None => !old(self)@.contains_key(k) && final(self)@ == old(self)@,
            },
    {
        match self.find(k) {
            Some(i) => {
                proof {
                    self.lemma_at(i as int);
                }
                proof {
                    Self::lemma_update_value_all(self, i as int);
                }
                let r = &mut self.entries[i].1;
                Some(r)
            },
            None => None,
        }
    }

    /// Mutable access to the value at position `i` of the ascending key order.
    pub fn value_at_mut(&mut self, i: usize) -> (r: &mut V)
        requires
            old(self).wf(),
            i < old(self).key_seq().len(),
        ensures
            final(self).wf(),
            final(self).key_seq() == old(self).key_seq(),
            *r == old(self).value_seq()[i as int],
            final(self).value_seq() == old(self).value_seq().update(i as int, *final(r)),
            final(self)@ == old(self)@.insert(old(self).key_seq()[i as int], *final(r)),
    {
        proof {
            Self::lemma_update_value_all(self, i as int);
        }
        &mut self.entries[i].1
    }

    /// Inserts or replaces; returns the value that was there before.
    pub fn insert(&mut self, k: u32, v: V) -> (r: Option<V>)
        requires
            old(self).wf(),
        ensures
            final(self).wf(),
            final(self)@ == old(self)@.insert(k, v),
            match r {
                Some(ov) => old(self)@.contains_key(k) && ov == old(self)@[k],
                None => !old(self)@.contains_key(k),
            },
    {
        let mut p: usize = 0;
        while p < self.entries.len() && self.entries[p].0 < k
            invariant
                p <= self.entries@.len(),
                self.wf(),
                self.entries@ == old(self).entries@,
                forall|j: int| 0 <= j < p ==> self.entries@[j].0 < k,
            decreases self.entries@.len() - p,
        {
            p = p + 1;
        }
        if p < self.entries.len() && self.entries[p].0 == k {
            proof {
                self.lemma_at(p as int);
            }
            let mut old_v = v;
            std::mem::swap(&mut self.entries[p].1, &mut old_v);
            proof {
                Self::lemma_update_value(old(self), self, p as int, v);
            }
            Some(old_v)
        } else {
            let ghost o = self.entries@;
            proof {
                assert forall|j: int| p <= j < o.len() implies o[j].0 > k by {
                    if p < j {
                        assert(entry_keys(o)[p as int] < entry_keys(o)[j]);
                    }
                }
            }
            self.entries.insert(p, (k, v));
            let ghost n = self.entries@;
            assert(n =~= o.take(p as int).push((k, v)) + o.skip(p as int));
            assert(sorted_keys(entry_keys(n))) by {
                assert forall|i: int, j: int| 0 <= i < j < n.len() implies entry_keys(n)[i] < entry_keys(n)[j] by {
                    if j < p {
                        assert(entry_keys(o)[i] < entry_keys(o)[j]);
                    } else if j == p {
                    } else if i < p {
                        assert(n[j] == o[j - 1]);
                    } else if i == p {
                        assert(n[j] == o[j - 1]);
                    } else {
                        assert(n[i] == o[i - 1]);
                        assert(n[j] == o[j - 1]);
                        assert(entry_keys(o)[i - 1] < entry_keys(o)[j - 1]);
                    }
                }
            }
            proof {
                assert(!old(self)@.contains_key(k)) by {
                    if old(self)@.contains_key(k) {
                        let j = choose|j: int| 0 <= j < o.len() && o[j].0 == k;
                        if j < p {
                        } else {
                        }
                    }
                }
                assert forall|key: u32| #[trigger] self@.contains_key(key) <==> old(self)@.insert(k, v).contains_key(key) by {
                    if old(self)@.contains_key(key) {
                        let j = choose|j: int| 0 <= j < o.len() && o[j].0 == key;
                        if j < p {
                            assert(n[j].0 == key);
                        } else {
                            assert(n[j + 1].0 == key);
                        }
                    }
                    if key == k {
                        assert(n[p as int].0 == k);
                    }
                    if self@.contains_key(key) {
                        let j = choose|j: int| 0 <= j < n.len() && n[j].0 == key;
                        if j < p {
                            assert(o[j].0 == key);
                        } else if j > p {
                            assert(o[j - 1].0 == key);
                        }
                    }
                }
                assert forall|key: u32| #[trigger] self@.contains_key(key) implies self@[key] == old(self)@.insert(k, v)[key] by {
                    let j = choose|j: int| 0 <= j < n.len() && n[j].0 == key;
                    self.lemma_at(j);
                    if j < p {
                        old(self).lemma_at(j);
                    } else if j > p {
                        old(self).lemma_at(j - 1);
                    }
                }
                assert(self@ =~= old(self)@.insert(k, v));
            }
            None
        }
    }

    /// Removes a key; returns its value if it was present.
    pub fn remove(&mut self, k: u32) -> (r: Option<V>)
        requires
            old(self).wf(),
        ensures
            final(self).wf(),
            final(self)@ == old(self)@.remove(k),
            match r {
                Some(ov) => old(self)@.contains_key(k) && ov == old(self)@[k],
                None => !old(self)@.contains_key(k) && final(self).key_seq() == old(self).key_seq(),
            },
    {
        match self.find(k) {
            Some(i) => {
                proof {
                    self.lemma_at(i as int);
                }
                let ghost o = self.entries@;
                let e = self.entries.remove(i);
                let ghost n = self.entries@;
                assert(n =~= o.remove(i as int));
                assert(sorted_keys(entry_keys(n))) by {
                    assert forall|a: int, b: int| 0 <= a < b < n.len() implies entry_keys(n)[a] < entry_keys(n)[b] by {
                        if b < i {
                            assert(entry_keys(o)[a] < entry_keys(o)[b]);
                        } else if a < i {
                            assert(entry_keys(o)[a] < entry_keys(o)[b + 1]);
                        } else {
                            assert(entry_keys(o)[a + 1] < entry_keys(o)[b + 1]);
                        }
                    }
                }
                proof {
                    assert forall|key: u32| #[trigger] self@.contains_key(key) <==> old(self)@.remove(k).contains_key(key) by {
                        if old(self)@.contains_key(key) && key != k {
                            let j = choose|j: int| 0 <= j < o.len() && o[j].0 == key;
                            if j < i {
                                assert(n[j].0 == key);
                            } else {
                                assert(j != i);
                                assert(n[j - 1].0 == key);
                            }
                        }
                        if self@.contains_key(key) {
                            let j = choose|j: int| 0 <= j < n.len() && n[j].0 == key;
                            if j < i {
                                assert(o[j].0 == key);
                                assert(entry_keys(o)[j] < entry_keys(o)[i as int]);
                            } else {
                                assert(o[j + 1].0 == key);
                                assert(entry_keys(o)[i as int] < entry_keys(o)[j + 1]);
                            }
                        }
                    }
                    assert forall|key: u32| #[trigger] self@.contains_key(key) implies self@[key] == old(self)@.remove(k)[key] by {
                        let j = choose|j: int| 0 <= j < n.len() && n[j].0 == key;
                        self.lemma_at(j);
                        if j < i {
                            old(self).lemma_at(j);
                        } else {
                            old(self).lemma_at(j + 1);
                        }
                    }
                    assert(self@ =~= old(self)@.remove(k));
                }
                Some(e.1)
            },
            None => {
                assert(old(self)@.remove(k) =~= old(self)@);
                None
            },
        }
    }

    /// The keys in ascending order.
    pub fn keys(&self) -> (r: Vec<u32>)
        requires
            self.wf(),
        ensures
            r@ == self.key_seq(),
    {
        let mut out: Vec<u32> = Vec::new();
        let mut i: usize = 0;
        while i < self.entries.len()
            invariant
                i <= self.entries@.len(),
                out@ == entry_keys(self.entries@).take(i as int),
            decreases self.entries@.len() - i,
        {
            out.push(self.entries[i].0);
            i = i + 1;
            assert(out@ =~= entry_keys(self.entries@).take(i as int));
        }
        assert(out@ =~= entry_keys(self.entries@));
        out
    }
}

} // verus!
