//! Grouping of records by their case-folded summary, and statistics over
//! the records of one search.

pub mod grouping;
pub mod stats;

pub use grouping::{group_indicators, GroupedIndicator};
pub use stats::{calculate_stats, Mean, SearchStats};
