//! The record model: an indicator and its nested collections.

pub mod common;
pub mod indicator;
pub mod search;
