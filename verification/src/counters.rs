//! Counters keyed by name, kept in the order the names first appeared, and the
//! selection of the largest counts that the tracing reports use.

use vstd::prelude::*;

verus! {

/// `idx` picks the `n` largest values of `vals` (all of them when there are fewer),
/// largest first, and among equal values the earlier position first.
pub open spec fn top_picks(vals: Seq<u64>, n: nat, idx: Seq<usize>) -> bool {
    &&& idx.len() == if n <= vals.len() { n } else { vals.len() }
    &&& forall|k: int| 0 <= k < idx.len() ==> (#[trigger] idx[k]) < vals.len()
    &&& forall|a: int, b: int| 0 <= a < b < idx.len() ==> idx[a] != idx[b]
    &&& forall|a: int, b: int|
        0 <= a < b < idx.len() ==> vals[idx[a] as int] > vals[idx[b] as int] || (vals[idx[a] as int]
            == vals[idx[b] as int] && idx[a] < idx[b])
    &&& forall|k: int, j: int|
        #![trigger idx[k], vals[j]]
        0 <= k < idx.len() && 0 <= j < vals.len() && !idx.contains(j as usize) ==> vals[j] < vals[idx[k] as int]
            || (vals[j] == vals[idx[k] as int] && idx[k] < j)
}

/// Positions of the `n` largest values, largest first, earlier positions first
/// among equal values.
pub fn top_indices(vals: &Vec<u64>, n: usize) -> (idx: Vec<usize>)
    ensures
        top_picks(vals@, n as nat, idx@),
{
    let len = vals.len();
    let rounds = if n < len { n } else { len };
    let mut picked: Vec<bool> = Vec::new();
    let mut k: usize = 0;
    while k < len
        invariant
            k <= len,
            len == vals@.len(),
            picked@.len() == k,
            forall|j: int| 0 <= j < k ==> !picked@[j],
        decreases len - k,
    {
        picked.push(false);
        k = k + 1;
    }
    let mut idx: Vec<usize> = Vec::new();
    while idx.len() < rounds
        invariant
            len == vals@.len(),
            rounds <= len,
            rounds == if n <= len { n } else { len },
            picked@.len() == len,
            idx@.len() <= rounds,
            forall|j: int| 0 <= j < len ==> (#[trigger] picked@[j] <==> idx@.contains(j as usize)),
            forall|q: int| 0 <= q < idx@.len() ==> (#[trigger] idx@[q]) < len,
            forall|a: int, b: int| 0 <= a < b < idx@.len() ==> idx@[a] != idx@[b],
            forall|a: int, b: int|
                0 <= a < b < idx@.len() ==> vals@[idx@[a] as int] > vals@[idx@[b] as int] || (vals@[idx@[a] as int]
                    == vals@[idx@[b] as int] && idx@[a] < idx@[b]),
            forall|q: int, j: int|
                #![trigger idx@[q], picked@[j]]
                0 <= q < idx@.len() && 0 <= j < len && !picked@[j] ==> vals@[j] < vals@[idx@[q] as int] || (
                vals@[j] == vals@[idx@[q] as int] && idx@[q] < j),
        decreases rounds - idx@.len(),
    {
        // The number of picks is below the length, so an unpicked position exists.
        proof {
            if forall|j: int| 0 <= j < len ==> picked@[j] {
                assert forall|j: int| 0 <= j < len implies #[trigger] idx@.contains(j as usize) by {
                    assert(picked@[j]);
                }
                lemma_all_picked(idx@, len as int);
            }
        }
        let mut best: usize = len;
        let mut j: usize = 0;
        while j < len
            invariant
                len == vals@.len(),
                picked@.len() == len,
                j <= len,
                best == len || (best < j && !picked@[best as int]),
                best == len ==> forall|t: int| 0 <= t < j ==> picked@[t],
                best < len ==> forall|t: int|
                    0 <= t < j && !picked@[t] ==> vals@[t] < vals@[best as int] || (vals@[t]
                        == vals@[best as int] && best <= t),
            decreases len - j,
        {
            if !picked[j] {
                if best == len || vals[j] > vals[best] {
                    best = j;
                }
            }
            j = j + 1;
        }
        proof {
            if best == len {
                assert forall|t: int| 0 <= t < len implies #[trigger] idx@.contains(t as usize) by {
                    assert(picked@[t]);
                }
                lemma_all_picked(idx@, len as int);
            }
        }
        let ghost old_idx = idx@;
        let ghost old_picked = picked@;
        idx.push(best);
        picked.set(best, true);
        proof {
            assert forall|t: int| 0 <= t < len implies (#[trigger] picked@[t] <==> idx@.contains(t as usize)) by {
                if t == best as int {
                    assert(idx@[idx@.len() - 1] == best);
                } else {
                    if old_idx.contains(t as usize) {
                        let w = choose|w: int| 0 <= w < old_idx.len() && old_idx[w] == t as usize;
                        assert(idx@[w] == t as usize);
                    }
                    if idx@.contains(t as usize) {
                        let w = choose|w: int| 0 <= w < idx@.len() && idx@[w] == t as usize;
                        if w < old_idx.len() {
                            assert(old_idx[w] == t as usize);
                        }
                    }
                }
            }
            assert forall|a: int, b: int| 0 <= a < b < idx@.len() implies idx@[a] != idx@[b] by {
                if b == idx@.len() - 1 {
                    assert(old_picked[best as int] == false);
                    assert(old_picked[old_idx[a] as int]) by {
                        assert(old_idx.contains(old_idx[a]));
                    }
                }
            }
            assert forall|a: int, b: int| 0 <= a < b < idx@.len() implies vals@[idx@[a] as int] > vals@[idx@[b] as int]
                || (vals@[idx@[a] as int] == vals@[idx@[b] as int] && idx@[a] < idx@[b]) by {
                if b == idx@.len() - 1 {
                    assert(!old_picked[best as int]);
                }
            }
        }
    }
    proof {
        assert forall|k: int, j: int|
            #![trigger idx@[k], vals@[j]]
            0 <= k < idx@.len() && 0 <= j < vals@.len() && !idx@.contains(j as usize) implies vals@[j]
                < vals@[idx@[k] as int] || (vals@[j] == vals@[idx@[k] as int] && idx@[k] < j) by {
            assert(!picked@[j]);
        }
    }
    idx
}

/// When every position below `len` is picked, at least `len` positions are picked.
proof fn lemma_all_picked(idx: Seq<usize>, len: int)
    requires
        0 <= len <= usize::MAX,
        forall|j: int| 0 <= j < len ==> #[trigger] idx.contains(j as usize),
    ensures
        idx.len() >= len,
{
    let s = Set::new(|j: int| 0 <= j < len);
    let f = |q: int| idx[q] as int;
    let dom = Set::new(|q: int| 0 <= q < idx.len());
    vstd::set_lib::lemma_int_range(0, len);
    assert(s =~= vstd::set_lib::set_int_range(0, len));
    vstd::set_lib::lemma_int_range(0, idx.len() as int);
    assert(dom =~= vstd::set_lib::set_int_range(0, idx.len() as int));
    assert(s.subset_of(dom.map(f))) by {
        assert forall|j: int| s.contains(j) implies dom.map(f).contains(j) by {
            assert(idx.contains(j as usize));
            let q = choose|q: int| 0 <= q < idx.len() && idx[q] == j as usize;
            assert(dom.contains(q) && f(q) == j);
        }
    }
    vstd::set_lib::lemma_map_size_bound(dom, dom.map(f), f);
    vstd::set_lib::lemma_len_subset(s, dom.map(f));
}

/// The entry at `i` is the one named `name`.
pub open spec fn name_at(v: Seq<(Seq<char>, u64)>, name: Seq<char>, i: int) -> bool {
    0 <= i < v.len() && v[i].0 == name
}

/// The count recorded under `name`, or 0.
pub open spec fn count_of(v: Seq<(Seq<char>, u64)>, name: Seq<char>) -> u64 {
    if exists|i: int| name_at(v, name, i) {
        v[choose|i: int| name_at(v, name, i)].1
    } else {
        0
    }
}

/// The entries after `delta` is added under `name` (modulo 2^64); a new name goes
/// last.
pub open spec fn count_added(v: Seq<(Seq<char>, u64)>, name: Seq<char>, delta: u64) -> Seq<(Seq<char>, u64)> {
    if exists|i: int| name_at(v, name, i) {
        let i = choose|i: int| name_at(v, name, i);
        v.update(i, (name, crate::sockets::wrap_add64(v[i].1, delta)))
    } else {
        v.push((name, delta))
    }
}

/// The entries with the count under `name` set to `value`; a new name goes last.
pub open spec fn count_set(v: Seq<(Seq<char>, u64)>, name: Seq<char>, value: u64) -> Seq<(Seq<char>, u64)> {
    if exists|i: int| name_at(v, name, i) {
        v.update(choose|i: int| name_at(v, name, i), (name, value))
    } else {
        v.push((name, value))
    }
}

/// No name occurs twice.
pub open spec fn names_unique(v: Seq<(Seq<char>, u64)>) -> bool {
    forall|a: int, b: int| 0 <= a < b < v.len() ==> v[a].0 != v[b].0
}

/// The counts of `v`, in order.
pub open spec fn count_values(v: Seq<(Seq<char>, u64)>) -> Seq<u64> {
    v.map_values(|e: (Seq<char>, u64)| e.1)
}

/// The names of `v`, in order.
pub open spec fn count_names(v: Seq<(Seq<char>, u64)>) -> Seq<Seq<char>> {
    v.map_values(|e: (Seq<char>, u64)| e.0)
}

pub open spec fn entry_views(s: Seq<(String, u64)>) -> Seq<(Seq<char>, u64)> {
    s.map_values(|e: (String, u64)| (e.0@, e.1))
}

pub open spec fn string_views(s: Seq<String>) -> Seq<Seq<char>> {
    s.map_values(|x: String| x@)
}

/// The entries `idx` picks from `v`, in the order picked.
pub open spec fn picked_entries(v: Seq<(Seq<char>, u64)>, idx: Seq<usize>) -> Seq<(Seq<char>, u64)> {
    idx.map_values(|i: usize| v[i as int])
}

/// Counts keyed by name, in the order the names first appeared.
#[derive(Clone, Debug)]
pub struct NameCounts {
    entries: Vec<(String, u64)>,
}

impl View for NameCounts {
    type V = Seq<(Seq<char>, u64)>;

    closed spec fn view(&self) -> Seq<(Seq<char>, u64)> {
        entry_views(self.entries@)
    }
}

impl NameCounts {
    pub closed spec fn wf(&self) -> bool {
        names_unique(self@)
    }

    pub fn new() -> (c: Self)
        ensures
            c.wf(),
            c@ == Seq::<(Seq<char>, u64)>::empty(),
    {
        let c = NameCounts { entries: Vec::new() };
        assert(c@ =~= Seq::<(Seq<char>, u64)>::empty());
        c
    }

    fn find(&self, name: &String) -> (r: Option<usize>)
        requires
            self.wf(),
        ensures
            match r {
                Some(i) => name_at(self@, name@, i as int) && (choose|k: int| name_at(self@, name@, k)) == i,
                None => !exists|k: int| name_at(self@, name@, k),
            },
    {
        let mut i: usize = 0;
        while i < self.entries.len()
            invariant
                self.wf(),
                i <= self.entries@.len(),
                forall|k: int| 0 <= k < i ==> self@[k].0 != name@,
            decreases self.entries@.len() - i,
        {
            if self.entries[i].0 == *name {
                proof {
                    assert(name_at(self@, name@, i as int));
                    let k = choose|k: int| name_at(self@, name@, k);
                    if k != i {
                        assert(self@[k].0 == self@[i as int].0);
                    }
                }
                return Some(i);
            }
            i = i + 1;
        }
        None
    }

    /// The count under `name` (0 if none).
    pub fn get(&self, name: &str) -> (r: u64)
        requires
            self.wf(),
        ensures
            r == count_of(self@, name@),
    {
        let key = String::from_str(name);
        match self.find(&key) {
            Some(i) => self.entries[i].1,
            None => 0,
        }
    }

    /// Adds `delta` under `name`, wrapping at 2^64.
    pub fn add(&mut self, name: &str, delta: u64)
        requires
            old(self).wf(),
        ensures
            final(self).wf(),
            final(self)@ == count_added(old(self)@, name@, delta),
    {
        let key = String::from_str(name);
        match self.find(&key) {
            Some(i) => {
                let v = self.entries[i].1.wrapping_add(delta);
                self.entries.set(i, (key, v));
                assert(self@ =~= old(self)@.update(i as int, (name@, crate::sockets::wrap_add64(old(self)@[i as int].1, delta))));
            },
            None => {
                self.entries.push((key, delta));
                assert(self@ =~= old(self)@.push((name@, delta)));
                assert forall|a: int, b: int| 0 <= a < b < self@.len() implies self@[a].0 != self@[b].0 by {
                    if b == self@.len() - 1 {
                        assert(!name_at(old(self)@, name@, a));
                    }
                }
            },
        }
    }

    /// Sets the count under `name` to `value`; a new name goes last.
    pub fn set(&mut self, name: &str, value: u64)
        requires
            old(self).wf(),
        ensures
            final(self).wf(),
            final(self)@ == count_set(old(self)@, name@, value),
    {
        let key = String::from_str(name);
        match self.find(&key) {
            Some(i) => {
                self.entries.set(i, (key, value));
                assert(self@ =~= old(self)@.update(i as int, (name@, value)));
            },
            None => {
                self.entries.push((key, value));
                assert(self@ =~= old(self)@.push((name@, value)));
                assert forall|a: int, b: int| 0 <= a < b < self@.len() implies self@[a].0 != self@[b].0 by {
                    if b == self@.len() - 1 {
                        assert(!name_at(old(self)@, name@, a));
                    }
                }
            },
        }
    }

    pub fn clear(&mut self)
        ensures
            final(self).wf(),
            final(self)@ == Seq::<(Seq<char>, u64)>::empty(),
    {
        self.entries.clear();
        assert(self@ =~= Seq::<(Seq<char>, u64)>::empty());
    }

    pub fn len(&self) -> (r: usize)
        ensures
            r == self@.len(),
    {
        self.entries.len()
    }

    pub fn is_empty(&self) -> (r: bool)
        ensures
            r == (self@.len() == 0),
    {
        self.entries.len() == 0
    }

    /// The names, in the order they first appeared.
    pub fn names(&self) -> (r: Vec<String>)
        ensures
            string_views(r@) == count_names(self@),
    {
        let mut out: Vec<String> = Vec::new();
        let mut i: usize = 0;
        while i < self.entries.len()
            invariant
                i <= self.entries@.len(),
                string_views(out@) == count_names(self@).take(i as int),
            decreases self.entries@.len() - i,
        {
            let ghost before = out@;
            out.push(self.entries[i].0.clone());
            proof {
                assert(out@ == before.push(self.entries@[i as int].0));
                assert(self@[i as int].0 == self.entries@[i as int].0@);
                assert(string_views(out@) =~= string_views(before).push(self.entries@[i as int].0@));
                assert(count_names(self@).take(i + 1) =~= count_names(self@).take(i as int).push(self@[i as int].0));
            }
            i = i + 1;
        }
        assert(count_names(self@).take(i as int) =~= count_names(self@));
        out
    }

    /// The `n` largest counts with their names, largest first, earlier names first
    /// among equal counts.
    pub fn top(&self, n: usize) -> (r: Vec<(String, u64)>)
        ensures
            exists|idx: Seq<usize>|
                top_picks(count_values(self@), n as nat, idx) && entry_views(r@) == picked_entries(self@, idx),
    {
        let mut vals: Vec<u64> = Vec::new();
        let mut i: usize = 0;
        while i < self.entries.len()
            invariant
                i <= self.entries@.len(),
                vals@ == count_values(self@).take(i as int),
            decreases self.entries@.len() - i,
        {
            vals.push(self.entries[i].1);
            i = i + 1;
            assert(vals@ =~= count_values(self@).take(i as int));
        }
        assert(vals@ =~= count_values(self@));
        let idx = top_indices(&vals, n);
        let mut out: Vec<(String, u64)> = Vec::new();
        let mut k: usize = 0;
        while k < idx.len()
            invariant
                k <= idx@.len(),
                vals@ == count_values(self@),
                top_picks(vals@, n as nat, idx@),
                entry_views(out@) == picked_entries(self@, idx@).take(k as int),
            decreases idx@.len() - k,
        {
            let j = idx[k];
            let ghost before = out@;
            proof {
                assert(idx@[k as int] < vals@.len());
            }
            out.push((self.entries[j].0.clone(), self.entries[j].1));
            proof {
                assert(self@[j as int] == (self.entries@[j as int].0@, self.entries@[j as int].1));
                assert(entry_views(out@) =~= entry_views(before).push(self@[j as int]));
                assert(picked_entries(self@, idx@).take(k + 1) =~= picked_entries(self@, idx@).take(k as int).push(
                    self@[j as int],
                ));
            }
            k = k + 1;
        }
        assert(picked_entries(self@, idx@).take(k as int) =~= picked_entries(self@, idx@));
        out
    }
}

} // verus!
