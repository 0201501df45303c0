//! Programs: what a run of one records, and what a saved one holds.
pub mod ambient;
pub mod state;
pub mod trace;
pub mod trust;
pub mod typed;
