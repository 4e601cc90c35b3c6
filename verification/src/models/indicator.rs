//! The indicator record.

use vstd::prelude::*;
use crate::models::common::{Association, Attribute, ListResponse, Tag, Timestamp};

verus! {

/// Thousandths in one rating point: a rating of 4.0 is held as 4000.
pub const RATING_SCALE: i32 = 1000;

/// One threat-intelligence observation.
///
/// `rating` is the severity score in thousandths of a point
/// (see [`RATING_SCALE`]); zero means that the record is not rated.
/// `confidence` is a percentage.
#[derive(Debug, Clone)]
pub struct Indicator {
    pub id: i64,
    pub type_: String,
    pub summary: String,
    pub rating: i32,
    pub confidence: i32,
    pub date_added: Timestamp,
    pub last_modified: Timestamp,
    pub owner_name: String,
    pub owner_id: i64,
    pub web_link: String,
    pub description: Option<String>,
    pub active: bool,
    pub source: Option<String>,
    pub false_positive_flag: bool,
    pub false_positives: i32,
    pub observations: i32,
    pub tags: ListResponse<Tag>,
    pub attributes: ListResponse<Attribute>,
    pub associated_groups: ListResponse<Association>,
    pub associated_indicators: ListResponse<Association>,
}

/// The value of `active` for a record whose payload does not carry the field.
pub fn default_active() -> (r: bool)
    ensures
        r,
{
    true
}

} // verus!
