use vstd::prelude::*;

use crate::keymap::{
    key_index_entries, key_index_get, key_index_insert, key_index_new, key_index_view, KeyIndex,
};
use crate::model::{cell_of, reg_dec, reg_inc, CellView, Counts};
use crate::report::{
    lex_leq, lists_exactly, sort_entries, sorted_by_name, sorted_raw, AllCounts, RawEntry,
};
use crate::store::Store;

verus! {

/// The counting engine: a registry of counter cells, one per type key ever
/// constructed, the key-to-cell index used to find them, a cache of that
/// index (the fast path a thread keeps for itself), and the enable flag.
///
/// Cells are created on the first construction of a key and never removed.
pub struct Registry {
    enabled: bool,
    cells: Vec<Store>,
    index: KeyIndex,
    local: Vec<(u64, usize)>,
}

impl View for Registry {
    type V = Map<u64, CellView>;

    /// The observable state: the cell kept for every key ever constructed.
    closed spec fn view(&self) -> Map<u64, CellView> {
        Map::new(
            |k: u64| key_index_view(self.index).dom().contains(k),
            |k: u64| self.cells@[key_index_view(self.index)[k] as int]@,
        )
    }
}

impl Registry {
    /// The key-to-cell-index mapping held by the concurrent map.
    pub closed spec fn key_map(&self) -> Map<u64, usize> {
        key_index_view(self.index)
    }

    /// Whether counting is on.
    pub closed spec fn is_enabled(&self) -> bool {
        self.enabled
    }

    /// Well-formedness: the index maps keys one-to-one onto the cells, the
    /// cache only repeats entries of the index, and every cell satisfies
    /// `live <= max_live <= total` with at least one construction counted.
    pub closed spec fn wf(&self) -> bool {
        &&& self.key_map().dom().finite()
        &&& self.cells@.len() == self.key_map().dom().len()
        &&& forall|k: u64|
            self.key_map().dom().contains(k) ==> #[trigger] self.key_map()[k] < self.cells@.len()
        &&& forall|k1: u64, k2: u64|
            self.key_map().dom().contains(k1) && self.key_map().dom().contains(k2)
                && #[trigger] self.key_map()[k1] == #[trigger] self.key_map()[k2] ==> k1 == k2
        &&& forall|j: int|
            0 <= j < self.local@.len() ==> self.key_map().dom().contains(
                (#[trigger] self.local@[j]).0,
            ) && self.key_map()[self.local@[j].0] == self.local@[j].1
        &&& forall|i: int|
            0 <= i < self.cells@.len() ==> (#[trigger] self.cells@[i])@.wf()
                && self.cells@[i]@.total >= 1
    }

    /// A fresh registry: no key observed, counting off.
    pub fn new() -> (r: Registry)
        ensures
            r.wf(),
            r@ == Map::<u64, CellView>::empty(),
            !r.is_enabled(),
    {
        let r = Registry {
            enabled: false,
            cells: Vec::new(),
            index: key_index_new(),
            local: Vec::new(),
        };
        proof {
            assert(r.key_map().dom() =~= Set::<u64>::empty());
            assert(r@ =~= Map::<u64, CellView>::empty());
        }
        r
    }

    /// Turn counting on or off.  The flag gates constructions and
    /// destructions only; no snapshot is touched by toggling it.
    pub fn enable(&mut self, yes: bool)
        requires
            old(self).wf(),
        ensures
            final(self).wf(),
            final(self)@ == old(self)@,
            final(self).is_enabled() == yes,
    {
        self.enabled = yes;
    }

    /// Whether counting is on.
    pub fn enabled(&self) -> (r: bool)
        ensures
            r == self.is_enabled(),
    {
        self.enabled
    }

    /// Look `key` up in the cached index entries.
    fn local_lookup(&self, key: u64) -> (r: Option<usize>)
        ensures
            match r {
                Some(i) => exists|j: int|
                    0 <= j < self.local@.len() && (#[trigger] self.local@[j]) == (key, i),
                None => forall|j: int|
                    0 <= j < self.local@.len() ==> (#[trigger] self.local@[j]).0 != key,
            },
    {
        let mut j: usize = 0;
        while j < self.local.len()
            invariant
                j <= self.local@.len(),
                forall|t: int| 0 <= t < j ==> (#[trigger] self.local@[t]).0 != key,
            decreases self.local@.len() - j,
        {
            let (k, i) = self.local[j];
            if k == key {
                return Some(i);
            }
            j = j + 1;
        }
        None
    }

    /// Count one construction of `key`.  Fast path: the cached index entry.
    /// Slower: the shared index, caching the entry found.  Slowest: the key
    /// was never seen anywhere, so its cell is created, registered in the
    /// index and cached.
    fn do_inc(&mut self, key: u64, name: &str)
        requires
            old(self).wf(),
            cell_of(old(self)@, key).total < usize::MAX,
        ensures
            final(self).wf(),
            final(self)@ == reg_inc(old(self)@, key, name@),
            final(self).is_enabled() == old(self).is_enabled(),
    {
        let cached = self.local_lookup(key);
        let found: Option<usize> = match cached {
            Some(i) => Some(i),
            None => match key_index_get(&self.index, key) {
                Some(i) => {
                    self.local.push((key, i));
                    Some(i)
                },
                None => None,
            },
        };
        match found {
            Some(i) => {
                proof {
                    assert(self.key_map().dom().contains(key) && self.key_map()[key] == i);
                }
                let cell = &mut self.cells[i];
                cell.inc();
                proof {
                    assert(self@ =~= reg_inc(old(self)@, key, name@));
                }
            },
            None => {
                let n = self.cells.len();
                let mut s = Store::new(name.to_owned());
                s.inc();
                self.cells.push(s);
                key_index_insert(&mut self.index, key, n);
                self.local.push((key, n));
                proof {
                    assert(self.key_map().dom() =~= old(self).key_map().dom().insert(key));
                    assert(self@ =~= reg_inc(old(self)@, key, name@));
                }
            },
        }
    }

    /// Count one destruction of `key`.  Fast path as for `do_inc`; a key the
    /// index does not know (its construction fell in a disabled window) is
    /// left untouched, since only a construction can create a cell.
    fn do_dec(&mut self, key: u64) -> (r: bool)
        requires
            old(self).wf(),
            old(self)@.dom().contains(key) ==> cell_of(old(self)@, key).live > 0,
        ensures
            final(self).wf(),
            final(self)@ == reg_dec(old(self)@, key),
            final(self).is_enabled() == old(self).is_enabled(),
            r == (old(self)@.dom().contains(key) && cell_of(final(self)@, key).live == 0),
    {
        let cached = self.local_lookup(key);
        let found: Option<usize> = match cached {
            Some(i) => Some(i),
            None => match key_index_get(&self.index, key) {
                Some(i) => {
                    self.local.push((key, i));
                    Some(i)
                },
                None => None,
            },
        };
        match found {
            Some(i) => {
                proof {
                    assert(self.key_map().dom().contains(key) && self.key_map()[key] == i);
                }
                let cell = &mut self.cells[i];
                let none_left = cell.dec();
                proof {
                    assert(self@ =~= reg_dec(old(self)@, key));
                }
                none_left
            },
            None => {
                proof {
                    assert(self@ =~= reg_dec(old(self)@, key));
                }
                false
            },
        }
    }

    /// Count one construction of `key` if counting is on; a no-op otherwise.
    pub(crate) fn inc(&mut self, key: u64, name: &str)
        requires
            old(self).wf(),
            old(self).is_enabled() ==> cell_of(old(self)@, key).total < usize::MAX,
        ensures
            final(self).wf(),
            old(self).is_enabled() ==> final(self)@ == reg_inc(old(self)@, key, name@),
            !old(self).is_enabled() ==> final(self)@ == old(self)@,
            final(self).is_enabled() == old(self).is_enabled(),
    {
        if self.enabled {
            self.do_inc(key, name);
        }
    }

    /// Count one destruction of `key` if counting is on; a no-op otherwise.
    /// Reports whether this destruction left no instance of the key live.
    pub(crate) fn dec(&mut self, key: u64) -> (r: bool)
        requires
            old(self).wf(),
            old(self).is_enabled() && old(self)@.dom().contains(key) ==> cell_of(
                old(self)@,
                key,
            ).live > 0,
        ensures
            final(self).wf(),
            old(self).is_enabled() ==> final(self)@ == reg_dec(old(self)@, key),
            !old(self).is_enabled() ==> final(self)@ == old(self)@,
            final(self).is_enabled() == old(self).is_enabled(),
            r == (old(self).is_enabled() && old(self)@.dom().contains(key) && cell_of(
                final(self)@,
                key,
            ).live == 0),
    {
        if self.enabled {
            self.do_dec(key)
        } else {
            false
        }
    }

    /// A snapshot of the counters for `key`: all-zero when the key was never
    /// constructed.  Reading ignores the enable flag.
    pub fn get(&self, key: u64) -> (r: Counts)
        requires
            self.wf(),
        ensures
            r.matches_cell(cell_of(self@, key)),
    {
        match key_index_get(&self.index, key) {
            Some(i) => self.cells[i].read(),
            None => Counts::default(),
        }
    }

    /// The counters of every key ever constructed, one entry per key,
    /// sorted by display name.  Only a construction ever creates a cell, so
    /// every entry reports at least one construction, and a key never
    /// constructed never appears.  Reading ignores the enable flag.
    #[verifier::loop_isolation(false)]
    pub fn get_all(&self) -> (r: AllCounts)
        requires
            self.wf(),
        ensures
            sorted_by_name(r.entries@),
            exists|ks: Seq<u64>| #[trigger] lists_exactly(r.entries@, self@, ks),
            r.entries@.len() == self@.dom().len(),
            forall|i: int| 0 <= i < r.entries@.len() ==> (#[trigger] r.entries@[i]).1.total >= 1,
    {
        let pairs = key_index_entries(&self.index);
        let mut raw: Vec<RawEntry> = Vec::new();
        let mut t: usize = 0;
        while t < pairs.len()
            invariant
                t <= pairs@.len(),
                raw@.len() == t,
                forall|i: int| 0 <= i < t ==> (#[trigger] raw@[i]).0 == pairs@[i].0,
                forall|i: int|
                    0 <= i < t ==> self@.dom().contains((#[trigger] raw@[i]).0) && raw@[i].1@
                        == self@[raw@[i].0].name && raw@[i].2.matches_cell(self@[raw@[i].0]),
            decreases pairs@.len() - t,
        {
            let key = pairs[t].0;
            let idx = pairs[t].1;
            let cell = &self.cells[idx];
            let name = cell.display_name().clone();
            let counts = cell.read();
            raw.push((key, name, counts));
            t = t + 1;
        }
        let ghost rawv = raw@;
        let sorted = sort_entries(raw);
        let mut entries: Vec<(String, Counts)> = Vec::new();
        let ghost mut ks: Seq<u64> = Seq::empty();
        let mut t2: usize = 0;
        while t2 < sorted.len()
            invariant
                t2 <= sorted@.len(),
                entries@.len() == t2,
                ks.len() == t2,
                forall|i: int|
                    0 <= i < t2 ==> ks[i] == (#[trigger] sorted@[i]).0 && entries@[i].0
                        == sorted@[i].1 && entries@[i].1 == sorted@[i].2,
            decreases sorted@.len() - t2,
        {
            let e = &sorted[t2];
            let name = e.1.clone();
            let counts = Counts { total: e.2.total, max_live: e.2.max_live, live: e.2.live };
            entries.push((name, counts));
            proof {
                ks = ks.push(e.0);
            }
            t2 = t2 + 1;
        }
        let r = AllCounts { entries };
        proof {
            assert forall|i: int|
                0 <= i < sorted@.len() implies self@.dom().contains((#[trigger] sorted@[i]).0)
                && sorted@[i].1@ == self@[sorted@[i].0].name && sorted@[i].2.matches_cell(
                self@[sorted@[i].0],
            ) by {
                assert(sorted@.contains(sorted@[i]));
                vstd::seq_lib::to_multiset_contains(sorted@, sorted@[i]);
                vstd::seq_lib::to_multiset_contains(rawv, sorted@[i]);
                assert(rawv.contains(sorted@[i]));
                let j = choose|j: int| 0 <= j < rawv.len() && rawv[j] == sorted@[i];
                assert(rawv[j].1@ == self@[rawv[j].0].name);
            }
            assert forall|k: u64| self@.dom().contains(k) implies ks.contains(k) by {
                let i = choose|i: int| 0 <= i < pairs@.len() && (#[trigger] pairs@[i]).0 == k;
                assert(rawv[i].0 == k);
                assert(rawv.contains(rawv[i]));
                vstd::seq_lib::to_multiset_contains(rawv, rawv[i]);
                vstd::seq_lib::to_multiset_contains(sorted@, rawv[i]);
                assert(sorted@.contains(rawv[i]));
                let j = choose|j: int| 0 <= j < sorted@.len() && sorted@[j] == rawv[i];
                assert(ks[j] == k);
            }
            assert forall|k: u64| self@.dom().contains(k) implies (#[trigger] self@[k]).total
                >= 1 by {
                assert(self.key_map()[k] < self.cells@.len());
                assert(self@[k] == self.cells@[self.key_map()[k] as int]@);
            }
            assert forall|i: int|
                0 <= i < ks.len() implies self@.dom().contains(#[trigger] ks[i]) && r.entries@[i].0@
                == self@[ks[i]].name && r.entries@[i].1.matches_cell(self@[ks[i]]) by {
                assert(ks[i] == (#[trigger] sorted@[i]).0);
                assert(r.entries@[i].0 == sorted@[i].1);
                assert(r.entries@[i].1 == sorted@[i].2);
            }
            assert(lists_exactly(r.entries@, self@, ks));
            assert(self@.dom() =~= self.key_map().dom());
            assert forall|i: int|
                0 <= i < r.entries@.len() implies (#[trigger] r.entries@[i]).1.total >= 1 by {
                assert(self@.dom().contains(ks[i]));
                assert(r.entries@[i].1.matches_cell(self@[ks[i]]));
                assert(self@[ks[i]].total >= 1);
            }
            assert forall|i: int, j: int| 0 <= i < j < r.entries@.len() implies lex_leq(
                (#[trigger] r.entries@[i]).0@,
                (#[trigger] r.entries@[j]).0@,
            ) by {
                assert(lex_leq(sorted@[i].1@, sorted@[j].1@));
            }
        }
        r
    }

    /// Forget the cached index entries.  The cache is a pure performance
    /// layer — this never changes any snapshot; it is the state a fresh
    /// thread starts from.
    pub fn clear_local(&mut self)
        requires
            old(self).wf(),
        ensures
            final(self).wf(),
            final(self)@ == old(self)@,
            final(self).is_enabled() == old(self).is_enabled(),
    {
        self.local.clear();
    }
}

/// The guard that drives the counters: embed one per counted value.
/// Creating it counts one construction of its key; destroying it counts one
/// destruction.  Increment and decrement have no other entry point, so the
/// two stay matched one-to-one.
#[derive(Debug, PartialEq, Eq, Hash, Structural)]
pub struct Count {
    key: u64,
}

impl Count {
    /// The key the guard counts.
    pub closed spec fn key_spec(&self) -> u64 {
        self.key
    }

    /// Create a guard for `key`, displayed as `name`, counting one
    /// construction when counting is on.
    pub fn new(registry: &mut Registry, key: u64, name: &str) -> (c: Count)
        requires
            old(registry).wf(),
            old(registry).is_enabled() ==> cell_of(old(registry)@, key).total < usize::MAX,
        ensures
            final(registry).wf(),
            c.key_spec() == key,
            old(registry).is_enabled() ==> final(registry)@ == reg_inc(
                old(registry)@,
                key,
                name@,
            ),
            !old(registry).is_enabled() ==> final(registry)@ == old(registry)@,
            final(registry).is_enabled() == old(registry).is_enabled(),
    {
        registry.inc(key, name);
        Count { key }
    }

    /// Destroy the guard, counting one destruction when counting is on.  A
    /// guard whose key the registry never saw (its construction fell in a
    /// disabled window) is forgotten without effect.  Reports whether this
    /// destruction left no instance of the key live, so a caller may raise
    /// an all-instances-dead notification.
    pub fn destroy(self, registry: &mut Registry) -> (r: bool)
        requires
            old(registry).wf(),
            old(registry).is_enabled() && old(registry)@.dom().contains(self.key_spec())
                ==> cell_of(old(registry)@, self.key_spec()).live > 0,
        ensures
            final(registry).wf(),
            old(registry).is_enabled() ==> final(registry)@ == reg_dec(
                old(registry)@,
                self.key_spec(),
            ),
            !old(registry).is_enabled() ==> final(registry)@ == old(registry)@,
            final(registry).is_enabled() == old(registry).is_enabled(),
            r == (old(registry).is_enabled() && old(registry)@.dom().contains(self.key_spec())
                && cell_of(final(registry)@, self.key_spec()).live == 0),
    {
        registry.dec(self.key)
    }
}

} // verus!
