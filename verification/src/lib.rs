//! sdrtop's instrument logic: what each panel of the NET and Lab decks says,
//! as text, and the arithmetic behind every figure it prints.
//!
//! The drawing itself (colours, frames, the terminal) is the application's;
//! this crate decides what is written, where, and when a reading is refused
//! rather than shown.
use vstd::prelude::*;

pub mod band;
pub mod ble;
pub mod census;
pub mod order;
pub mod piconet;
pub mod rounding;
pub mod state;
pub mod text;
pub mod ui;

verus! {

} // verus!
