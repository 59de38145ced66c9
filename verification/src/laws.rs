use vstd::prelude::*;

use crate::model::{cell_of, reg_dec, reg_inc, CellView};

verus! {

/// One guard event on a single key: a construction or a destruction.
pub enum GuardOp {
    Construct,
    Destroy,
}

/// The registry model after replaying `ops` on `key` (displayed as `name`),
/// oldest event first, with counting on.
pub open spec fn replay(
    m: Map<u64, CellView>,
    key: u64,
    name: Seq<char>,
    ops: Seq<GuardOp>,
) -> Map<u64, CellView>
    decreases ops.len(),
{
    if ops.len() == 0 {
        m
    } else {
        let prev = replay(m, key, name, ops.drop_last());
        match ops.last() {
            GuardOp::Construct => reg_inc(prev, key, name),
            GuardOp::Destroy => reg_dec(prev, key),
        }
    }
}

/// How many of `ops` are constructions.
pub open spec fn constructs(ops: Seq<GuardOp>) -> nat
    decreases ops.len(),
{
    if ops.len() == 0 {
        0
    } else {
        constructs(ops.drop_last()) + (if ops.last() is Construct {
            1nat
        } else {
            0nat
        })
    }
}

/// Constructions minus destructions: how many guards `ops` leave live.
pub open spec fn net(ops: Seq<GuardOp>) -> int
    decreases ops.len(),
{
    if ops.len() == 0 {
        0
    } else {
        net(ops.drop_last()) + (if ops.last() is Construct {
            1int
        } else {
            -1int
        })
    }
}

/// The highest value the live count reaches while `ops` run.
pub open spec fn peak(ops: Seq<GuardOp>) -> int
    decreases ops.len(),
{
    if ops.len() == 0 {
        0
    } else {
        let rest = peak(ops.drop_last());
        if net(ops) > rest {
            net(ops)
        } else {
            rest
        }
    }
}

/// `ops` never destroy a guard that was not constructed first: no prefix
/// counts more destructions than constructions.
pub open spec fn never_overdrawn(ops: Seq<GuardOp>) -> bool {
    forall|i: int| 0 <= i <= ops.len() ==> net(#[trigger] ops.take(i)) >= 0
}

/// The live count never exceeds its peak, and the peak is never negative.
pub proof fn lemma_net_le_peak(ops: Seq<GuardOp>)
    ensures
        net(ops) <= peak(ops),
        peak(ops) >= 0,
    decreases ops.len(),
{
    if ops.len() > 0 {
        lemma_net_le_peak(ops.drop_last());
    }
}

/// Never more guards live at once than were ever constructed.
pub proof fn lemma_peak_le_constructs(ops: Seq<GuardOp>)
    ensures
        net(ops) <= constructs(ops),
        peak(ops) <= constructs(ops),
    decreases ops.len(),
{
    if ops.len() > 0 {
        lemma_peak_le_constructs(ops.drop_last());
    }
}

/// No prefix of the run ever has more guards live than the whole run's peak.
pub proof fn lemma_prefix_net_le_peak(ops: Seq<GuardOp>, i: int)
    requires
        0 <= i <= ops.len(),
    ensures
        net(ops.take(i)) <= peak(ops),
    decreases ops.len(),
{
    if i == ops.len() {
        assert(ops.take(i) =~= ops);
        lemma_net_le_peak(ops);
    } else {
        let front = ops.drop_last();
        assert(ops.take(i) =~= front.take(i));
        lemma_prefix_net_le_peak(front, i);
    }
}

/// The peak is reached: some prefix has exactly `peak(ops)` guards live.
pub proof fn lemma_peak_reached(ops: Seq<GuardOp>)
    ensures
        exists|i: int| 0 <= i <= ops.len() && net(#[trigger] ops.take(i)) == peak(ops),
    decreases ops.len(),
{
    if ops.len() == 0 {
        assert(ops.take(0) =~= ops);
        assert(net(ops.take(0)) == peak(ops));
    } else {
        let front = ops.drop_last();
        lemma_peak_reached(front);
        if net(ops) > peak(front) {
            assert(ops.take(ops.len() as int) =~= ops);
            assert(net(ops.take(ops.len() as int)) == peak(ops));
        } else {
            let i = choose|i: int|
                0 <= i <= front.len() && net(#[trigger] front.take(i)) == peak(front);
            assert(ops.take(i) =~= front.take(i));
            assert(net(ops.take(i)) == peak(ops));
        }
    }
}

/// The exact accounting of any single-key interleaving: replaying any run
/// of constructions and destructions that never destroys more than it
/// constructed, from a state where the key was never counted, leaves
/// `total` at the number of constructions, `live` at constructions minus
/// destructions, and `max_live` at exactly the peak the live count reached.
pub proof fn lemma_interleaving(m: Map<u64, CellView>, key: u64, name: Seq<char>, ops: Seq<GuardOp>)
    requires
        cell_of(m, key).total == 0,
        cell_of(m, key).live == 0,
        cell_of(m, key).max_live == 0,
        never_overdrawn(ops),
    ensures
        cell_of(replay(m, key, name, ops), key).total == constructs(ops),
        cell_of(replay(m, key, name, ops), key).live == net(ops),
        cell_of(replay(m, key, name, ops), key).max_live == peak(ops),
    decreases ops.len(),
{
    if ops.len() > 0 {
        let front = ops.drop_last();
        assert forall|i: int| 0 <= i <= front.len() implies net(#[trigger] front.take(i)) >= 0 by {
            assert(front.take(i) =~= ops.take(i));
            assert(net(ops.take(i)) >= 0);
        }
        lemma_interleaving(m, key, name, front);
        assert(ops.take(ops.len() as int) =~= ops);
        assert(net(ops) >= 0);
        if ops.last() is Destroy {
            lemma_net_le_peak(front);
        }
    }
}

/// Constructing `n` guards in a row counts `n` constructions leaving `n`
/// guards live.
proof fn lemma_construct_run_stats(n: nat)
    ensures
        constructs(Seq::new(n, |t: int| GuardOp::Construct)) == n,
        net(Seq::new(n, |t: int| GuardOp::Construct)) == n,
    decreases n,
{
    let ops = Seq::new(n, |t: int| GuardOp::Construct);
    if n > 0 {
        lemma_construct_run_stats((n - 1) as nat);
        assert(ops.drop_last() =~= Seq::new((n - 1) as nat, |t: int| GuardOp::Construct));
    }
}

/// Constructing `n` guards of a key never counted before, destroying none,
/// yields `total == max_live == live == n`.
pub proof fn lemma_sequential_constructions(m: Map<u64, CellView>, key: u64, name: Seq<char>, n: nat)
    requires
        cell_of(m, key).total == 0,
        cell_of(m, key).live == 0,
        cell_of(m, key).max_live == 0,
    ensures
        cell_of(replay(m, key, name, Seq::new(n, |t: int| GuardOp::Construct)), key).total == n,
        cell_of(replay(m, key, name, Seq::new(n, |t: int| GuardOp::Construct)), key).live == n,
        cell_of(replay(m, key, name, Seq::new(n, |t: int| GuardOp::Construct)), key).max_live == n,
{
    let ops = Seq::new(n, |t: int| GuardOp::Construct);
    lemma_construct_run_stats(n);
    assert forall|i: int| 0 <= i <= ops.len() implies net(#[trigger] ops.take(i)) >= 0 by {
        assert(ops.take(i) =~= Seq::new(i as nat, |t: int| GuardOp::Construct));
        lemma_construct_run_stats(i as nat);
    }
    lemma_interleaving(m, key, name, ops);
    lemma_net_le_peak(ops);
    lemma_peak_le_constructs(ops);
}

/// A balanced run — every construction matched by a later destruction —
/// ends with no guard live, `total` at the number of constructions, and
/// `max_live` somewhere between 1 and that number.
pub proof fn lemma_balanced_run(m: Map<u64, CellView>, key: u64, name: Seq<char>, ops: Seq<GuardOp>)
    requires
        cell_of(m, key).total == 0,
        cell_of(m, key).live == 0,
        cell_of(m, key).max_live == 0,
        never_overdrawn(ops),
        net(ops) == 0,
        constructs(ops) >= 1,
    ensures
        cell_of(replay(m, key, name, ops), key).total == constructs(ops),
        cell_of(replay(m, key, name, ops), key).live == 0,
        1 <= cell_of(replay(m, key, name, ops), key).max_live <= constructs(ops),
{
    lemma_interleaving(m, key, name, ops);
    lemma_peak_le_constructs(ops);
    assert(ops.len() >= 1);
    assert(ops.take(1) =~= seq![ops[0]]);
    assert(seq![ops[0]].drop_last() =~= Seq::<GuardOp>::empty());
    assert(net(ops.take(1)) >= 0);
    assert(net(Seq::<GuardOp>::empty()) == 0);
    assert(net(seq![ops[0]]) == net(seq![ops[0]].drop_last()) + (if ops[0] is Construct {
        1int
    } else {
        -1int
    }));
    assert(net(ops.take(1)) == 1);
    lemma_prefix_net_le_peak(ops, 1);
}

/// The peak bound is exact: when no prefix of the run ever has more than
/// `k` guards live and some prefix reaches `k`, the reported `max_live` is
/// exactly `k` — never less, never more — while `total` counts the
/// constructions.
pub proof fn lemma_exact_peak(
    m: Map<u64, CellView>,
    key: u64,
    name: Seq<char>,
    ops: Seq<GuardOp>,
    k: int,
)
    requires
        cell_of(m, key).total == 0,
        cell_of(m, key).live == 0,
        cell_of(m, key).max_live == 0,
        never_overdrawn(ops),
        forall|i: int| 0 <= i <= ops.len() ==> net(#[trigger] ops.take(i)) <= k,
        exists|i: int| 0 <= i <= ops.len() && net(#[trigger] ops.take(i)) == k,
    ensures
        cell_of(replay(m, key, name, ops), key).max_live == k,
        cell_of(replay(m, key, name, ops), key).total == constructs(ops),
{
    lemma_interleaving(m, key, name, ops);
    lemma_peak_reached(ops);
    let ir = choose|i: int| 0 <= i <= ops.len() && net(#[trigger] ops.take(i)) == peak(ops);
    assert(net(ops.take(ir)) <= k);
    let iw = choose|i: int| 0 <= i <= ops.len() && net(#[trigger] ops.take(i)) == k;
    lemma_prefix_net_le_peak(ops, iw);
}

/// Counting on one key never touches another key's cell.
pub proof fn lemma_independent_keys(
    m: Map<u64, CellView>,
    key: u64,
    name: Seq<char>,
    ops: Seq<GuardOp>,
    other: u64,
)
    requires
        other != key,
    ensures
        cell_of(replay(m, key, name, ops), other) == cell_of(m, other),
    decreases ops.len(),
{
    if ops.len() > 0 {
        lemma_independent_keys(m, key, name, ops.drop_last(), other);
    }
}

} // verus!
