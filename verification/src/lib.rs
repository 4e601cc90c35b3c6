//! Search, enrichment and aggregation of threat-intelligence indicators.

pub mod aggregation;
pub mod models;
pub mod render;
pub mod search;
pub mod text;
pub mod theme;
pub mod tui;
