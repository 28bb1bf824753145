//! The deck's panels.
pub mod net;
