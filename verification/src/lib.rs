//! Near-zero-overhead counting of live / total / peak instances per type key.
//!
//! A process keeps one [`Registry`]: a mapping from a stable type key to a
//! counter cell holding `{total, max_live, live}`.  Constructing a [`Count`]
//! guard increments the counters of its key, destroying it decrements the
//! `live` count, and [`Registry::get`] / [`Registry::get_all`] read snapshots.
//! A runtime flag turns both operations into no-ops.

mod keymap;
mod laws;
mod model;
mod registry;
mod report;
mod store;

pub use laws::{
    constructs, lemma_balanced_run, lemma_exact_peak, lemma_independent_keys, lemma_interleaving,
    lemma_net_le_peak, lemma_peak_le_constructs, lemma_peak_reached, lemma_prefix_net_le_peak,
    lemma_sequential_constructions, net, never_overdrawn, peak, replay, GuardOp,
};
pub use model::{cell_dec, cell_inc, cell_of, cell_zero, reg_dec, reg_inc, CellView, Counts};
pub use registry::{Count, Registry};
pub use report::{
    dec_digits, grouped, header_spec, lex_leq, line_spec, lists_exactly, max_name_len, pad3,
    pad_left, pad_right, render_spec, sorted_by_name, spaces, AllCounts,
};
