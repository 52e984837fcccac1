//! The ledger's laws, proved once over the model that every operation's
//! contract is stated against.

use vstd::prelude::*;

use crate::catalog::ItemName;
use crate::events::{derived_units, Event, SoldUnit};
use crate::ledger::{
    lemma_record_preserves_wf, lemma_reset_wf, lemma_undo_preserves_wf, LedgerModel,
};

verus! {

/// One mutating operation issued by the operator: a sale or a reset.
pub ghost enum LedgerOp {
    Record { name: ItemName, quantity: usize, time_ms: i64 },
    Reset,
}

/// The state one operation leads to.
pub open spec fn apply_op(m: LedgerModel, op: LedgerOp) -> LedgerModel {
    match op {
        LedgerOp::Record { name, quantity, time_ms } => m.record(name, quantity, time_ms),
        LedgerOp::Reset => m.reset(),
    }
}

/// The state a whole sequence of operations leads to, applied in order.
pub open spec fn apply_ops(m: LedgerModel, ops: Seq<LedgerOp>) -> LedgerModel
    decreases ops.len(),
{
    if ops.len() == 0 {
        m
    } else {
        apply_op(apply_ops(m, ops.drop_last()), ops.last())
    }
}

/// Reconstruction correctness: a ledger built from a well-formed state by
/// any sequence of sales and resets keeps its active tally equal to the
/// flattened sale replicas strictly after the last checkpoint of its log.
pub proof fn lemma_reconstruction_invariant(m: LedgerModel, ops: Seq<LedgerOp>)
    requires
        m.wf(),
    ensures
        apply_ops(m, ops).wf(),
    decreases ops.len(),
{
    if ops.len() == 0 {
    } else {
        lemma_reconstruction_invariant(m, ops.drop_last());
        let prev = apply_ops(m, ops.drop_last());
        match ops.last() {
            LedgerOp::Record { name, quantity, time_ms } => {
                lemma_record_preserves_wf(prev, name, quantity, time_ms);
            },
            LedgerOp::Reset => {
                lemma_reset_wf(prev);
            },
        }
    }
}

/// Undo of a sale is exact: recording any sale and then undoing restores
/// the ledger, log and active tally alike, whatever state it was in.
pub proof fn lemma_undo_of_sale(m: LedgerModel, name: ItemName, quantity: usize, time_ms: i64)
    ensures
        m.record(name, quantity, time_ms).undo() == m,
{
    let m1 = m.record(name, quantity, time_ms);
    assert(m1.log.drop_last() =~= m.log);
    assert(m1.undo().active =~= m.active);
    assert(m1.undo() =~= m);
}

/// Undo of a reset is an exact round trip: from any well-formed state,
/// reset followed by undo restores the log to its former length and the
/// active tally to its former contents.
pub proof fn lemma_undo_of_reset(m: LedgerModel)
    requires
        m.wf(),
    ensures
        m.reset().undo() == m,
{
    let m1 = m.reset();
    assert(m1.log.drop_last() =~= m.log);
    assert(m1.undo() =~= m);
}

/// A double reset followed by one undo lands exactly on the single-reset
/// state: the active tally is empty and the log is one checkpoint longer
/// than before the two resets, i.e. shorter by exactly the one undone
/// event.
pub proof fn lemma_double_reset_undo(m: LedgerModel)
    ensures
        m.reset().reset().undo() == m.reset(),
        m.reset().reset().undo().active == Seq::<SoldUnit>::empty(),
        m.reset().reset().undo().log == m.log.push(Event::Checkpoint),
{
    let m2 = m.reset().reset();
    assert(m2.log.drop_last() =~= m.reset().log);
    lemma_reset_wf(m);
    assert(m2.undo().active =~= derived_units(m.reset().log));
    assert(m2.undo() =~= m.reset());
}

} // verus!
