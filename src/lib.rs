//! A Fibonacci recurrence laid out as PLONKish traces over the Pallas base
//! field: the polynomial identities of the gates, the witness rows that
//! satisfy them, the public values bound to a trace, and a checker for all
//! of it.
//!
//! `gates` and `trace` give the fixed-height layout whose loop counter is
//! tested for zero by the inverse gadget of `gadget`; `checker` checks it.
//! `flagged` gives the same layout with an explicit boolean flag selecting
//! the step, tied to the counter by an inverse witness, and `simple` the
//! layout with one row per step and no padding.

pub mod checker;
pub mod field;
pub mod flagged;
pub mod gadget;
pub mod gates;
pub mod simple;
pub mod trace;
