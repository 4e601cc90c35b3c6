//! The envelope of a search response.

use vstd::prelude::*;
use crate::models::indicator::Indicator;

verus! {

/// What the backend answers to an indicator search.
#[derive(Debug, Clone)]
pub struct SearchResponse {
    pub data: Vec<Indicator>,
    pub status: String,
}

} // verus!
