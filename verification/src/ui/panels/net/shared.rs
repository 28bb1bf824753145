//! Protocol-agnostic, band-wide panels and the band axis they share.
pub mod band_axis;
pub mod census;
pub mod coexist;
pub mod occupancy;
pub mod decode_health;
