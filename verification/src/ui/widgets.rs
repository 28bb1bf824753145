//! Drawing primitives shared across panels: band-plan lookups, digit
//! renderers, read-out formatters and the sortable table.
pub mod band_plan;
pub mod bigdigits;
pub mod micro_common;
pub mod timing_fmt;
pub mod table;
pub mod canvas;
