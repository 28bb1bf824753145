//! The classic Bluetooth panels.
pub mod bt_census;
pub mod bt_hops;
pub mod bt_piconets;
