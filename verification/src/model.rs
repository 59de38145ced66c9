use vstd::prelude::*;

verus! {

/// A snapshot of the counters kept for one type key.
#[derive(Debug, Clone, PartialEq, Eq, Structural)]
#[non_exhaustive]
pub struct Counts {
    /// The total number of guards ever created for the key.
    pub total: usize,
    /// The historical maximum of the `live` count.
    pub max_live: usize,
    /// The number of guards created but not yet destroyed.
    pub live: usize,
}

impl Default for Counts {
    /// The all-zero snapshot, reported for a key that was never observed.
    fn default() -> (r: Self)
        ensures
            r.total == 0,
            r.max_live == 0,
            r.live == 0,
    {
        Counts { total: 0, max_live: 0, live: 0 }
    }
}

impl Counts {
    /// The snapshot agrees field by field with the mathematical cell `c`.
    pub open spec fn matches_cell(self, c: CellView) -> bool {
        self.total == c.total && self.max_live == c.max_live && self.live == c.live
    }
}

/// The mathematical model of one counter cell: its display name and the
/// three counters, as unbounded naturals.
pub ghost struct CellView {
    pub name: Seq<char>,
    pub total: nat,
    pub max_live: nat,
    pub live: nat,
}

impl CellView {
    /// Every reachable cell keeps `live <= max_live <= total`.
    pub open spec fn wf(self) -> bool {
        self.live <= self.max_live && self.max_live <= self.total
    }
}

/// The cell for a key first observed under display name `name`, before any
/// construction is counted on it.
pub open spec fn cell_zero(name: Seq<char>) -> CellView {
    CellView { name: name, total: 0, max_live: 0, live: 0 }
}

/// One construction: `total` and `live` grow by exactly one, and `max_live`
/// is raised to the new `live` count whenever that exceeds the old peak.
pub open spec fn cell_inc(c: CellView) -> CellView {
    CellView {
        name: c.name,
        total: c.total + 1,
        max_live: if c.live + 1 > c.max_live {
            c.live + 1
        } else {
            c.max_live
        },
        live: c.live + 1,
    }
}

/// One destruction: `live` shrinks by exactly one; `total`, `max_live` and
/// the name are untouched.
pub open spec fn cell_dec(c: CellView) -> CellView {
    CellView { name: c.name, total: c.total, max_live: c.max_live, live: (c.live - 1) as nat }
}

/// The registry model after a construction of `key` is counted: the key's
/// cell is created on first use (carrying `name`) and incremented; every
/// other key is untouched.
pub open spec fn reg_inc(m: Map<u64, CellView>, key: u64, name: Seq<char>) -> Map<u64, CellView> {
    let cur = if m.dom().contains(key) {
        m[key]
    } else {
        cell_zero(name)
    };
    m.insert(key, cell_inc(cur))
}

/// The registry model after a destruction of `key` is counted: the key's
/// cell is decremented; a key never constructed is left untouched.
pub open spec fn reg_dec(m: Map<u64, CellView>, key: u64) -> Map<u64, CellView> {
    if m.dom().contains(key) && m[key].live > 0 {
        m.insert(key, cell_dec(m[key]))
    } else {
        m
    }
}

/// The cell reported for `key` in model `m`: zero-valued for a key that was
/// never observed.
pub open spec fn cell_of(m: Map<u64, CellView>, key: u64) -> CellView {
    if m.dom().contains(key) {
        m[key]
    } else {
        cell_zero(Seq::empty())
    }
}

} // verus!
