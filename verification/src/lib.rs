//! A verified core for a colorized directory listing: entry
//! classification, deterministic ordering, and column-major grid
//! rendering that fits a given terminal width.

pub mod classify;
pub mod entry;
pub mod grid;
pub mod listing;
pub mod order;
pub mod style;
