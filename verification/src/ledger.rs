//! The sales ledger: the event log, the derived active tally, and the
//! operator's order quantity, with record, undo, reset, and the queries the
//! display reads.

use vstd::prelude::*;

use crate::catalog::{catalog, catalog_items, ItemName};
use crate::clock::now_timestamp_ms;
use crate::events::{
    count_name, derived_units, flatten_sales, last_checkpoint, lemma_derived_units_pop_sale,
    lemma_derived_units_push_checkpoint, lemma_derived_units_push_sale,
    lemma_flatten_sales_extend, lemma_last_checkpoint_properties, lemma_sale_count_all_sales,
    replicas, sale_count, Event, SoldUnit,
};

verus! {

/// The mathematical state of a ledger: the log, the active tally, and the
/// order quantity. Every operation's contract is stated as a transition on
/// this model.
#[verifier::ext_equal]
pub ghost struct LedgerModel {
    pub log: Seq<Event>,
    pub active: Seq<SoldUnit>,
    pub order_quantity: nat,
}

impl LedgerModel {
    /// The reconstruction invariant: the active tally is exactly what the
    /// log derives.
    pub open spec fn wf(self) -> bool {
        self.active == derived_units(self.log)
    }

    /// Recording a sale appends one sale event to the log and the sale's
    /// replicas to the active tally.
    pub open spec fn record(self, name: ItemName, quantity: usize, time_ms: i64) -> LedgerModel {
        let unit = SoldUnit { name, time_ms };
        LedgerModel {
            log: self.log.push(Event::Sale { unit, quantity }),
            active: self.active + Seq::new(quantity as nat, |i: int| unit),
            order_quantity: self.order_quantity,
        }
    }

    /// Resetting appends a checkpoint to the log and clears the active
    /// tally; earlier sale events stay in the log.
    pub open spec fn reset(self) -> LedgerModel {
        LedgerModel {
            log: self.log.push(Event::Checkpoint),
            active: Seq::empty(),
            order_quantity: self.order_quantity,
        }
    }

    /// Undoing pops the last event, if any. Popping a sale removes its
    /// replicas from the end of the active tally (defensively: as many as
    /// are present); popping a checkpoint rebuilds the tally that the
    /// shortened log derives.
    pub open spec fn undo(self) -> LedgerModel {
        if self.log.len() == 0 {
            self
        } else {
            let shorter = self.log.drop_last();
            match self.log.last() {
                Event::Sale { unit, quantity } => LedgerModel {
                    log: shorter,
                    active: if quantity <= self.active.len() {
                        self.active.take(self.active.len() - quantity)
                    } else {
                        Seq::empty()
                    },
                    order_quantity: self.order_quantity,
                },
                Event::Checkpoint => LedgerModel {
                    log: shorter,
                    active: derived_units(shorter),
                    order_quantity: self.order_quantity,
                },
            }
        }
    }
}

/// Recording a sale preserves the reconstruction invariant.
pub proof fn lemma_record_preserves_wf(
    m: LedgerModel,
    name: ItemName,
    quantity: usize,
    time_ms: i64,
)
    requires
        m.wf(),
    ensures
        m.record(name, quantity, time_ms).wf(),
{
    lemma_derived_units_push_sale(m.log, SoldUnit { name, time_ms }, quantity);
}

/// A reset establishes the reconstruction invariant whatever held before.
pub proof fn lemma_reset_wf(m: LedgerModel)
    ensures
        m.reset().wf(),
{
    lemma_derived_units_push_checkpoint(m.log);
}

/// Undo preserves the reconstruction invariant.
pub proof fn lemma_undo_preserves_wf(m: LedgerModel)
    requires
        m.wf(),
    ensures
        m.undo().wf(),
{
    if m.log.len() == 0 {
    } else {
        match m.log.last() {
            Event::Sale { unit, quantity } => {
                lemma_derived_units_pop_sale(m.log);
                assert(replicas(m.log.last()).len() == quantity as nat);
            },
            Event::Checkpoint => {
            },
        }
    }
}

/// The in-memory ledger. `active_units` is kept equal to what `log`
/// derives; `order_quantity` is the default quantity of one sale.
pub struct SalesLedger {
    pub log: Vec<Event>,
    pub active_units: Vec<SoldUnit>,
    pub order_quantity: usize,
}

impl View for SalesLedger {
    type V = LedgerModel;

    open spec fn view(&self) -> LedgerModel {
        LedgerModel {
            log: self.log@,
            active: self.active_units@,
            order_quantity: self.order_quantity as nat,
        }
    }
}

impl SalesLedger {
    /// The reconstruction invariant, on the in-memory ledger.
    pub open spec fn wf(self) -> bool {
        self@.wf()
    }

    /// A fresh ledger: empty log, empty tally, order quantity 3.
    pub fn new() -> (r: SalesLedger)
        ensures
            r@.log == Seq::<Event>::empty(),
            r@.active == Seq::<SoldUnit>::empty(),
            r@.order_quantity == 3,
            r.wf(),
    {
        let r = SalesLedger { log: Vec::new(), active_units: Vec::new(), order_quantity: 3 };
        proof {
            assert(r@.log.subrange(last_checkpoint(r@.log) + 1, r@.log.len() as int) =~= Seq::<
                Event,
            >::empty());
        }
        r
    }

    /// Record one sale of `quantity` units of `name`, all stamped
    /// `time_ms`: the log gains one sale event and the active tally gains
    /// `quantity` replicas of the sold unit.
    pub fn record_sale_at(&mut self, name: ItemName, quantity: usize, time_ms: i64)
        ensures
            final(self)@ == old(self)@.record(name, quantity, time_ms),
            old(self).wf() ==> final(self).wf(),
    {
        let unit = SoldUnit { name, time_ms };
        let mut i: usize = 0;
        while i < quantity
            invariant
                i <= quantity,
                self.log@ == old(self).log@,
                self.active_units@ == old(self).active_units@ + Seq::new(i as nat, |j: int| unit),
                self.order_quantity == old(self).order_quantity,
            decreases quantity - i,
        {
            self.active_units.push(unit);
            i = i + 1;
            proof {
                assert(self.active_units@ =~= old(self).active_units@ + Seq::new(
                    i as nat,
                    |j: int| unit,
                ));
            }
        }
        self.log.push(Event::Sale { unit, quantity });
        proof {
            assert(self@ =~= old(self)@.record(name, quantity, time_ms));
            if old(self).wf() {
                lemma_record_preserves_wf(old(self)@, name, quantity, time_ms);
            }
        }
    }

    /// Record one sale of `quantity` units of `name`, stamped with the
    /// current wall-clock time.
    pub fn record_sale(&mut self, name: ItemName, quantity: usize)
        ensures
            exists|t: i64| #![auto] final(self)@ == old(self)@.record(name, quantity, t),
            old(self).wf() ==> final(self).wf(),
    {
        let t = now_timestamp_ms();
        self.record_sale_at(name, quantity, t);
    }

    /// Record one sale of `name` with the ledger's current order quantity,
    /// stamped with the current wall-clock time.
    pub fn record_default_order(&mut self, name: ItemName)
        ensures
            exists|t: i64| #![auto]
                final(self)@ == old(self)@.record(name, old(self).order_quantity, t),
            old(self).wf() ==> final(self).wf(),
    {
        let q = self.order_quantity;
        self.record_sale(name, q);
    }

    /// Set the default order quantity; the log and the tally are untouched.
    pub fn set_order_quantity(&mut self, n: usize)
        ensures
            final(self)@ == (LedgerModel { order_quantity: n as nat, ..old(self)@ }),
            old(self).wf() ==> final(self).wf(),
    {
        self.order_quantity = n;
        proof {
            assert(self@ =~= (LedgerModel { order_quantity: n as nat, ..old(self)@ }));
        }
    }

    /// Raise the default order quantity by one, saturating at the machine
    /// limit; the log and the tally are untouched.
    pub fn increment_order_quantity(&mut self)
        ensures
            final(self)@ == (LedgerModel {
                order_quantity: if old(self).order_quantity < usize::MAX {
                    (old(self).order_quantity + 1) as nat
                } else {
                    usize::MAX as nat
                },
                ..old(self)@
            }),
            old(self).wf() ==> final(self).wf(),
    {
        if self.order_quantity < usize::MAX {
            self.order_quantity = self.order_quantity + 1;
        }
        proof {
            assert(self@ =~= (LedgerModel {
                order_quantity: if old(self).order_quantity < usize::MAX {
                    (old(self).order_quantity + 1) as nat
                } else {
                    usize::MAX as nat
                },
                ..old(self)@
            }));
        }
    }

    /// Lower the default order quantity by one, clamped at zero; the log
    /// and the tally are untouched.
    pub fn decrement_order_quantity(&mut self)
        ensures
            final(self)@ == (LedgerModel {
                order_quantity: if old(self).order_quantity > 0 {
                    (old(self).order_quantity - 1) as nat
                } else {
                    0
                },
                ..old(self)@
            }),
            old(self).wf() ==> final(self).wf(),
    {
        if self.order_quantity > 0 {
            self.order_quantity = self.order_quantity - 1;
        }
        proof {
            assert(self@ =~= (LedgerModel {
                order_quantity: if old(self).order_quantity > 0 {
                    (old(self).order_quantity - 1) as nat
                } else {
                    0
                },
                ..old(self)@
            }));
        }
    }

    /// Clear the active tally and append a checkpoint to the log. Earlier
    /// sale events stay in the log for historical reconstruction, and the
    /// reconstruction invariant holds afterwards whatever held before.
    pub fn reset(&mut self)
        ensures
            final(self)@ == old(self)@.reset(),
            final(self).wf(),
    {
        self.active_units.clear();
        self.log.push(Event::Checkpoint);
        proof {
            assert(self@ =~= old(self)@.reset());
            lemma_reset_wf(old(self)@);
        }
    }

    /// Undo the most recent action: pop the last event, if any (a no-op on
    /// an empty log). A popped sale takes its replicas back off the end of
    /// the tally, defensively no more than are present; a popped checkpoint
    /// un-hides what it had cleared, by rebuilding the tally that the
    /// shortened log derives.
    pub fn undo(&mut self)
        ensures
            final(self)@ == old(self)@.undo(),
            old(self).wf() ==> final(self).wf(),
    {
        if self.log.len() == 0 {
            proof {
                assert(self@ =~= old(self)@.undo());
            }
            return;
        }
        let e = self.log.pop().unwrap();
        match e {
            Event::Sale { unit: _, quantity } => {
                let keep: usize = if self.active_units.len() >= quantity {
                    self.active_units.len() - quantity
                } else {
                    0
                };
                self.active_units.truncate(keep);
                proof {
                    assert(self.log@ =~= old(self).log@.drop_last());
                    if quantity > old(self).active_units@.len() {
                        assert(self.active_units@ =~= Seq::<SoldUnit>::empty());
                    }
                    assert(self@ =~= old(self)@.undo());
                    if old(self).wf() {
                        lemma_undo_preserves_wf(old(self)@);
                    }
                }
            },
            Event::Checkpoint => {
                let rebuilt = reconstruct_units(&self.log);
                self.active_units = rebuilt;
                proof {
                    assert(self.log@ =~= old(self).log@.drop_last());
                    assert(self@ =~= old(self)@.undo());
                    if old(self).wf() {
                        lemma_undo_preserves_wf(old(self)@);
                    }
                }
            },
        }
    }

    /// The position of the last checkpoint in the log, or `None` if no
    /// checkpoint has been recorded.
    pub fn last_checkpoint_index(&self) -> (r: Option<usize>)
        ensures
            match r {
                Some(i) => i < self.log@.len() && last_checkpoint(self.log@) == i as int,
                None => last_checkpoint(self.log@) == -1,
            },
    {
        find_last_checkpoint(&self.log)
    }

    /// How many sale events stand strictly after the last checkpoint: the
    /// number of orders taken since the tally was last reset, counting
    /// button presses, not units. It equals the length of the log past the
    /// last checkpoint, because no checkpoint stands after the last one.
    pub fn ordered_sale_count_since_last_checkpoint(&self) -> (r: usize)
        ensures
            r as int == self.log@.len() - 1 - last_checkpoint(self.log@),
            r as nat == sale_count(
                self.log@.subrange(last_checkpoint(self.log@) + 1, self.log@.len() as int),
            ),
    {
        let n = self.log.len();
        let r: usize = match self.last_checkpoint_index() {
            Some(i) => n - 1 - i,
            None => n,
        };
        proof {
            lemma_last_checkpoint_properties(self.log@);
            let p = last_checkpoint(self.log@);
            let s = self.log@.subrange(p + 1, self.log@.len() as int);
            assert forall|k: int| 0 <= k < s.len() implies !(#[trigger] s[k] is Checkpoint) by {
                assert(s[k] == self.log@[p + 1 + k]);
            }
            lemma_sale_count_all_sales(s);
        }
        r
    }

    /// The number of active units of each catalog item, one entry per
    /// item, in catalog order.
    pub fn per_item_counts(&self) -> (r: Vec<(ItemName, usize)>)
        ensures
            r@.len() == catalog().len(),
            forall|i: int|
                0 <= i < r@.len() ==> (#[trigger] r@[i]).0 == catalog()[i] && r@[i].1 as nat
                    == count_name(self.active_units@, catalog()[i]),
    {
        let items = catalog_items();
        let n = items.len();
        let mut r: Vec<(ItemName, usize)> = Vec::new();
        let mut i: usize = 0;
        while i < n
            invariant
                n == items@.len(),
                items@ == catalog(),
                i <= n,
                r@.len() == i as int,
                forall|k: int|
                    0 <= k < i as int ==> (#[trigger] r@[k]).0 == catalog()[k] && r@[k].1 as nat
                        == count_name(self.active_units@, catalog()[k]),
            decreases n - i,
        {
            let item = items[i];
            let c = count_units_of(&self.active_units, item);
            r.push((item, c));
            i = i + 1;
        }
        r
    }

    /// The number of units in the active tally.
    pub fn active_unit_count(&self) -> (r: usize)
        ensures
            r == self.active_units@.len(),
    {
        self.active_units.len()
    }

    /// The number of events in the log.
    pub fn log_len(&self) -> (r: usize)
        ensures
            r == self.log@.len(),
    {
        self.log.len()
    }
}

/// How many units of `name` stand in `units`.
pub fn count_units_of(units: &Vec<SoldUnit>, name: ItemName) -> (r: usize)
    ensures
        r as nat == count_name(units@, name),
{
    let mut c: usize = 0;
    let n = units.len();
    let mut i: usize = 0;
    proof {
        assert(units@.take(0) =~= Seq::<SoldUnit>::empty());
    }
    while i < n
        invariant
            n == units@.len(),
            i <= n,
            c <= i,
            c as nat == count_name(units@.take(i as int), name),
        decreases n - i,
    {
        proof {
            assert(units@.take(i as int + 1).drop_last() =~= units@.take(i as int));
            assert(units@.take(i as int + 1).last() == units@[i as int]);
        }
        if units[i].name == name {
            c = c + 1;
        }
        i = i + 1;
    }
    proof {
        assert(units@.take(n as int) =~= units@);
    }
    c
}

/// The position of the last checkpoint in `log`, or `None` if it has none.
pub fn find_last_checkpoint(log: &Vec<Event>) -> (r: Option<usize>)
    ensures
        match r {
            Some(i) => i < log@.len() && last_checkpoint(log@) == i as int,
            None => last_checkpoint(log@) == -1,
        },
{
    let mut i: usize = log.len();
    proof {
        assert(log@.take(i as int) =~= log@);
    }
    while i > 0
        invariant
            i <= log@.len(),
            last_checkpoint(log@) == last_checkpoint(log@.take(i as int)),
        decreases i,
    {
        i = i - 1;
        let is_checkpoint = match log[i] {
            Event::Checkpoint => true,
            Event::Sale { .. } => false,
        };
        proof {
            assert(log@.take(i as int + 1).last() == log@[i as int]);
        }
        if is_checkpoint {
            return Some(i);
        }
        proof {
            assert(log@.take(i as int + 1).drop_last() =~= log@.take(i as int));
        }
    }
    None
}

/// Rebuild from the log the tally it derives: the replicas of every sale
/// strictly after the last checkpoint, in log order. A checkpoint met
/// inside that slice would contradict the meaning of the last checkpoint,
/// so it is defensively skipped rather than trapped on, which is exactly
/// what the derivation prescribes: a checkpoint has no replicas.
pub fn reconstruct_units(log: &Vec<Event>) -> (r: Vec<SoldUnit>)
    ensures
        r@ == derived_units(log@),
{
    let n = log.len();
    let start: usize = match find_last_checkpoint(log) {
        Some(i) => i + 1,
        None => 0,
    };
    let mut r: Vec<SoldUnit> = Vec::new();
    proof {
        assert(r@ =~= flatten_sales(log@.subrange(start as int, start as int)));
    }
    let mut i: usize = start;
    while i < n
        invariant
            n == log@.len(),
            start <= i <= log@.len(),
            r@ == flatten_sales(log@.subrange(start as int, i as int)),
        decreases log@.len() - i,
    {
        match log[i] {
            Event::Sale { unit, quantity } => {
                let mut j: usize = 0;
                proof {
                    assert(r@ =~= flatten_sales(log@.subrange(start as int, i as int)) + Seq::new(
                        0,
                        |k: int| unit,
                    ));
                }
                while j < quantity
                    invariant
                        j <= quantity,
                        r@ == flatten_sales(log@.subrange(start as int, i as int)) + Seq::new(
                            j as nat,
                            |k: int| unit,
                        ),
                    decreases quantity - j,
                {
                    r.push(unit);
                    j = j + 1;
                    proof {
                        assert(r@ =~= flatten_sales(log@.subrange(start as int, i as int))
                            + Seq::new(j as nat, |k: int| unit));
                    }
                }
            },
            Event::Checkpoint => {},
        }
        proof {
            lemma_flatten_sales_extend(log@, start as int, i as int);
            assert(r@ =~= flatten_sales(log@.subrange(start as int, i as int + 1)));
        }
        i = i + 1;
    }
    proof {
        assert(log@.subrange(start as int, log@.len() as int) =~= log@.subrange(
            last_checkpoint(log@) + 1,
            log@.len() as int,
        ));
    }
    r
}

} // verus!
