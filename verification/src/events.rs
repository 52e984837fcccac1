//! Log events and the reconstruction function on event sequences.
//!
//! The log is a sequence of [`Event`]s. The tally it stands for is defined
//! by [`derived_units`]: the flattened replicas of every sale strictly after
//! the last checkpoint. Everything the ledger promises is stated against
//! these functions.

use vstd::prelude::*;

use crate::catalog::ItemName;

verus! {

/// One sold physical unit: which item it was and when it was sold, as a
/// Unix timestamp in milliseconds.
#[derive(Clone, Copy, PartialEq, Eq, Structural, Debug)]
pub struct SoldUnit {
    pub name: ItemName,
    pub time_ms: i64,
}

/// One entry of the append-only log.
#[derive(Clone, Copy, PartialEq, Eq, Structural, Debug)]
pub enum Event {
    /// One operator action selling `quantity` units of one item. The stored
    /// unit is the representative of all `quantity` replicas.
    Sale { unit: SoldUnit, quantity: usize },
    /// A reset marker: units sold before it leave the active tally but stay
    /// in the log.
    Checkpoint,
}

/// The units one event contributes to the tally: `quantity` copies of a
/// sale's representative unit, nothing for a checkpoint.
pub open spec fn replicas(e: Event) -> Seq<SoldUnit> {
    match e {
        Event::Sale { unit, quantity } => Seq::new(quantity as nat, |i: int| unit),
        Event::Checkpoint => Seq::empty(),
    }
}

/// All units contributed by a sequence of events, in log order.
pub open spec fn flatten_sales(log: Seq<Event>) -> Seq<SoldUnit>
    decreases log.len(),
{
    if log.len() == 0 {
        Seq::empty()
    } else {
        flatten_sales(log.drop_last()) + replicas(log.last())
    }
}

/// The position of the last checkpoint in `log`, or -1 if there is none.
pub open spec fn last_checkpoint(log: Seq<Event>) -> int
    decreases log.len(),
{
    if log.len() == 0 {
        -1
    } else if log.last() is Checkpoint {
        log.len() - 1
    } else {
        last_checkpoint(log.drop_last())
    }
}

/// How many sale events (operator actions, not unit counts) a sequence of
/// events holds.
pub open spec fn sale_count(log: Seq<Event>) -> nat
    decreases log.len(),
{
    if log.len() == 0 {
        0
    } else {
        sale_count(log.drop_last()) + if log.last() is Sale {
            1nat
        } else {
            0nat
        }
    }
}

/// How many units of `name` a sequence of units holds.
pub open spec fn count_name(units: Seq<SoldUnit>, name: ItemName) -> nat
    decreases units.len(),
{
    if units.len() == 0 {
        0
    } else {
        count_name(units.drop_last(), name) + if units.last().name == name {
            1nat
        } else {
            0nat
        }
    }
}

/// The tally that `log` stands for: the units of every sale strictly after
/// the last checkpoint, or of every sale if there is no checkpoint.
pub open spec fn derived_units(log: Seq<Event>) -> Seq<SoldUnit> {
    flatten_sales(log.subrange(last_checkpoint(log) + 1, log.len() as int))
}

/// The last-checkpoint position lies in `[-1, len)`, names a checkpoint
/// whenever it is not -1, and nothing after it is a checkpoint.
pub proof fn lemma_last_checkpoint_properties(log: Seq<Event>)
    ensures
        -1 <= last_checkpoint(log) < log.len(),
        last_checkpoint(log) >= 0 ==> log[last_checkpoint(log)] is Checkpoint,
        forall|k: int| last_checkpoint(log) < k < log.len() ==> !(#[trigger] log[k] is Checkpoint),
    decreases log.len(),
{
    if log.len() == 0 {
    } else if log.last() is Checkpoint {
    } else {
        lemma_last_checkpoint_properties(log.drop_last());
        assert forall|k: int| last_checkpoint(log) < k < log.len() implies !(#[trigger] log[k]
            is Checkpoint) by {
            if k < log.len() - 1 {
                assert(log[k] == log.drop_last()[k]);
            }
        }
    }
}

/// In a sequence of events with no checkpoint, every event is a sale, so
/// the sale count is the length.
pub proof fn lemma_sale_count_all_sales(log: Seq<Event>)
    requires
        forall|k: int| 0 <= k < log.len() ==> !(#[trigger] log[k] is Checkpoint),
    ensures
        sale_count(log) == log.len(),
    decreases log.len(),
{
    if log.len() == 0 {
    } else {
        assert forall|k: int| 0 <= k < log.drop_last().len() implies !(#[trigger] log.drop_last()[k]
            is Checkpoint) by {
            assert(log.drop_last()[k] == log[k]);
        }
        lemma_sale_count_all_sales(log.drop_last());
        assert(log.last() == log[log.len() - 1]);
    }
}

/// Appending a sale leaves the last checkpoint where it was and extends the
/// derived tally by exactly the sale's replicas.
pub proof fn lemma_derived_units_push_sale(log: Seq<Event>, unit: SoldUnit, quantity: usize)
    ensures
        last_checkpoint(log.push(Event::Sale { unit, quantity })) == last_checkpoint(log),
        derived_units(log.push(Event::Sale { unit, quantity })) == derived_units(log) + Seq::new(
            quantity as nat,
            |i: int| unit,
        ),
{
    let e = Event::Sale { unit, quantity };
    let log1 = log.push(e);
    assert(log1.drop_last() =~= log);
    assert(log1.last() == e);
    lemma_last_checkpoint_properties(log);
    let p = last_checkpoint(log);
    let s = log.subrange(p + 1, log.len() as int);
    let s1 = log1.subrange(p + 1, log1.len() as int);
    assert(s1.drop_last() =~= s);
    assert(s1.last() == e);
    assert(derived_units(log1) =~= derived_units(log) + Seq::new(quantity as nat, |i: int| unit));
}

/// Appending a checkpoint makes it the last checkpoint and empties the
/// derived tally.
pub proof fn lemma_derived_units_push_checkpoint(log: Seq<Event>)
    ensures
        last_checkpoint(log.push(Event::Checkpoint)) == log.len() as int,
        derived_units(log.push(Event::Checkpoint)) == Seq::<SoldUnit>::empty(),
{
    let log1 = log.push(Event::Checkpoint);
    assert(log1.last() is Checkpoint);
    assert(log1.subrange(log.len() as int + 1, log1.len() as int) =~= Seq::<Event>::empty());
    assert(derived_units(log1) =~= Seq::<SoldUnit>::empty());
}

/// Popping a sale from the end of the log removes exactly its replicas from
/// the end of the derived tally.
pub proof fn lemma_derived_units_pop_sale(log: Seq<Event>)
    requires
        log.len() > 0,
        log.last() is Sale,
    ensures
        derived_units(log) == derived_units(log.drop_last()) + replicas(log.last()),
        derived_units(log.drop_last()) == derived_units(log).take(
            derived_units(log).len() - replicas(log.last()).len(),
        ),
{
    let shorter = log.drop_last();
    match log.last() {
        Event::Sale { unit, quantity } => {
            lemma_derived_units_push_sale(shorter, unit, quantity);
            assert(shorter.push(log.last()) =~= log);
            assert(derived_units(shorter) =~= (derived_units(shorter) + replicas(log.last())).take(
                derived_units(shorter).len() as int,
            ));
        },
        Event::Checkpoint => {
        },
    }
}

/// Extending the slice that is being flattened by one event appends that
/// event's replicas.
pub proof fn lemma_flatten_sales_extend(log: Seq<Event>, lo: int, i: int)
    requires
        0 <= lo <= i < log.len(),
    ensures
        flatten_sales(log.subrange(lo, i + 1)) == flatten_sales(log.subrange(lo, i)) + replicas(
            log[i],
        ),
{
    let s = log.subrange(lo, i);
    let s1 = log.subrange(lo, i + 1);
    assert(s1.drop_last() =~= s);
    assert(s1.last() == log[i]);
}

} // verus!
