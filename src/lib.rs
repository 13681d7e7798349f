//! File statistics and line-oriented search over raw file bytes.

pub mod classify;
pub mod line_index;
pub mod pattern;
pub mod search;
pub mod stats;
