//! Building blocks of a record: instants, list envelopes, tags, attributes
//! and associations.

use vstd::prelude::*;
use vstd::std_specs::iter::IteratorSpec;

verus! {

/// An instant in UTC: whole seconds since the Unix epoch and the
/// nanoseconds past that second.
#[derive(Clone, Copy, Debug, PartialEq, Eq, Structural)]
pub struct Timestamp {
    pub secs: i64,
    pub nanos: u32,
}

impl Timestamp {
    /// `self` is strictly earlier than `other`.
    pub open spec fn before(self, other: Timestamp) -> bool {
        self.secs < other.secs || (self.secs == other.secs && self.nanos < other.nanos)
    }

    /// Whether `self` is strictly earlier than `other`.
    pub fn is_before(&self, other: &Timestamp) -> (r: bool)
        ensures
            r == self.before(*other),
    {
        self.secs < other.secs || (self.secs == other.secs && self.nanos < other.nanos)
    }

    /// The current instant, as the system clock tells it. A clock that
    /// stands before the Unix epoch gives negative seconds.
    pub fn now() -> (r: Timestamp)
        ensures
            r.nanos < 1_000_000_000,
    {
        let (secs, nanos) = utc_now();
        Timestamp { secs, nanos }
    }
}

/// The system clock, read with chrono's `From<SystemTime>` for
/// `DateTime<Utc>` and taken apart with `DateTime::timestamp` and
/// `DateTime::timestamp_subsec_nanos`. The clock decides the value. chrono
/// counts the seconds from the Unix epoch, downwards for a clock that
/// stands before it, and keeps the nanoseconds below one second. It panics
/// only for an instant outside the years it can hold, some 262,000 on
/// either side of the epoch.
#[verifier::external_body]
fn utc_now() -> (r: (i64, u32))
    ensures
        r.1 < 1_000_000_000,
{
    let now = chrono::DateTime::<chrono::Utc>::from(std::time::SystemTime::now());
    (now.timestamp(), now.timestamp_subsec_nanos())
}

/// The `data` envelope in which the backend wraps a nested list.
#[derive(Debug, Clone)]
pub struct ListResponse<T> {
    pub data: Vec<T>,
}

impl<T> View for ListResponse<T> {
    type V = Seq<T>;

    open spec fn view(&self) -> Seq<T> {
        self.data@
    }
}

impl<T> Default for ListResponse<T> {
    fn default() -> (r: Self)
        ensures
            r@ == Seq::<T>::empty(),
    {
        Self { data: Vec::new() }
    }
}

impl<T> ListResponse<T> {
    /// Whether the list holds nothing.
    pub fn is_empty(&self) -> (r: bool)
        ensures
            r == (self@.len() == 0),
    {
        self.data.is_empty()
    }

    /// An iterator over the items, in order.
    pub fn iter(&self) -> (r: std::slice::Iter<'_, T>)
        ensures
            IteratorSpec::remaining(&r) == self@.as_ref(),
            IteratorSpec::decrease(&r) is Some,
            IteratorSpec::initial_value_relation(&r, &r),
    {
        self.data.iter()
    }
}

impl<T> IntoIterator for ListResponse<T> {
    type Item = T;

    type IntoIter = std::vec::IntoIter<T>;

    fn into_iter(self) -> (r: Self::IntoIter)
        ensures
            IteratorSpec::remaining(&r) == self@,
            IteratorSpec::decrease(&r) is Some,
            IteratorSpec::initial_value_relation(&r, &r),
    {
        self.data.into_iter()
    }
}

impl<'a, T> IntoIterator for &'a ListResponse<T> {
    type Item = &'a T;

    type IntoIter = std::slice::Iter<'a, T>;

    fn into_iter(self) -> (r: Self::IntoIter)
        ensures
            IteratorSpec::remaining(&r) == self@.as_ref(),
            IteratorSpec::decrease(&r) is Some,
            IteratorSpec::initial_value_relation(&r, &r),
    {
        self.data.iter()
    }
}

/// A label attached to a record.
#[derive(Debug, Clone)]
pub struct Tag {
    pub name: String,
    pub description: Option<String>,
}

impl Default for Tag {
    fn default() -> (r: Self)
        ensures
            r.name@ == Seq::<char>::empty(),
            r.description is None,
    {
        Tag { name: String::new(), description: None }
    }
}

/// A typed value attached to a record.
#[derive(Debug, Clone)]
pub struct Attribute {
    pub id: i64,
    pub type_: String,
    pub value: String,
    pub date_added: Timestamp,
    pub last_modified: Timestamp,
}

impl Default for Attribute {
    /// An empty attribute whose two instants are read from the clock.
    fn default() -> (r: Self)
        ensures
            r.id == 0,
            r.type_@ == Seq::<char>::empty(),
            r.value@ == Seq::<char>::empty(),
            r.date_added.nanos < 1_000_000_000,
            r.last_modified.nanos < 1_000_000_000,
    {
        Attribute {
            id: 0,
            type_: String::new(),
            value: String::new(),
            date_added: Timestamp::now(),
            last_modified: Timestamp::now(),
        }
    }
}

/// A lightweight reference to a related group or indicator.
#[derive(Debug, Clone)]
pub struct Association {
    pub id: i64,
    pub type_: String,
    pub object_type: String,
    pub summary: Option<String>,
    pub name: Option<String>,
}

impl Default for Association {
    fn default() -> (r: Self)
        ensures
            r.id == 0,
            r.type_@ == Seq::<char>::empty(),
            r.object_type@ == Seq::<char>::empty(),
            r.summary is None,
            r.name is None,
    {
        Association {
            id: 0,
            type_: String::new(),
            object_type: String::new(),
            summary: None,
            name: None,
        }
    }
}

} // verus!
