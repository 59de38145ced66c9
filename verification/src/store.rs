use vstd::prelude::*;

use crate::model::{cell_dec, cell_inc, cell_zero, CellView, Counts};

verus! {

/// One counter cell: the `{total, max_live, live}` triple kept for a single
/// type key, together with the key's display name.  Cells are owned by the
/// registry and live for the whole life of the process; they are created on
/// the first construction of their key and never removed.
pub(crate) struct Store {
    name: String,
    total: usize,
    max_live: usize,
    live: usize,
}

impl View for Store {
    type V = CellView;

    closed spec fn view(&self) -> CellView {
        CellView {
            name: self.name@,
            total: self.total as nat,
            max_live: self.max_live as nat,
            live: self.live as nat,
        }
    }
}

impl Store {
    /// A fresh cell for a key first observed under display name `name`.
    pub(crate) fn new(name: String) -> (s: Store)
        ensures
            s@ == cell_zero(name@),
    {
        Store { name, total: 0, max_live: 0, live: 0 }
    }

    /// Count one construction: raise `total` and `live` by one, then raise
    /// `max_live` to the new `live` count if that exceeds the old peak.
    pub(crate) fn inc(&mut self)
        requires
            old(self)@.wf(),
            old(self)@.total < usize::MAX,
        ensures
            final(self)@ == cell_inc(old(self)@),
            final(self)@.wf(),
    {
        self.total = self.total + 1;
        self.live = self.live + 1;
        if self.live > self.max_live {
            self.max_live = self.live;
        }
    }

    /// Count one destruction: lower `live` by one.  Reports whether this
    /// destruction left no instance live, for the all-instances-dead
    /// notification a caller may want to raise.
    pub(crate) fn dec(&mut self) -> (r: bool)
        requires
            old(self)@.live > 0,
        ensures
            final(self)@ == cell_dec(old(self)@),
            r == (final(self)@.live == 0),
    {
        self.live = self.live - 1;
        self.live == 0
    }

    /// Read the three counters.
    pub(crate) fn read(&self) -> (r: Counts)
        ensures
            r.matches_cell(self@),
    {
        Counts { total: self.total, max_live: self.max_live, live: self.live }
    }

    /// The display name the cell was created under.
    pub(crate) fn display_name(&self) -> (r: &String)
        ensures
            r@ == self@.name,
    {
        &self.name
    }
}

} // verus!
