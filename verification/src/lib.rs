//! A point-of-sale tally ledger for a fixed catalog of food items.
//!
//! The ledger keeps an append-only log of sale and reset-checkpoint events,
//! and a derived tally of the units sold since the last checkpoint. The
//! derived tally is proved to always be reconstructible from the log alone,
//! which is what makes undo of both sales and resets exact.

pub mod catalog;
mod clock;
pub mod events;
pub mod laws;
pub mod ledger;
