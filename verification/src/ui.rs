//! The panels and the widgets they are drawn from.
pub mod chrome;
pub mod frame;
pub mod panels;
pub mod registry;
pub mod rf_calc;
pub mod signal_characterization;
pub mod widgets;
pub mod wrap;
