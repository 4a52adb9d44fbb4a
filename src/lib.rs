//! Lazy sequence adaptors with explicit state: overlapping windows, splitting into
//! groups of requested sizes, grouping by key, and round-robin distribution.

pub mod error;
pub mod grouping;
pub mod selecting;
pub mod sequence;
pub mod utils;
pub mod windowing;
