//! Statistics over the records of one search.

use vstd::prelude::*;
use vstd::hash_set::StringHashSet;
use crate::models::common::{Tag, Timestamp};
use crate::models::indicator::Indicator;
use crate::text::ascii_lower;

verus! {

/// An average kept exact: the sum of the values and how many they are.
/// The mean is `sum / count`; `count` is never zero in a value that
/// [`calculate_stats`] returns.
#[derive(Debug, Clone, Copy, PartialEq, Eq, Structural)]
pub struct Mean {
    pub sum: i128,
    pub count: usize,
}

/// Statistics over the records of one search.
///
/// `avg_rating` is in the unit of [`Indicator::rating`], thousandths of a
/// point.
#[derive(Debug, Clone, Copy, PartialEq, Eq, Structural)]
pub struct SearchStats {
    pub total_count: usize,
    pub earliest_created: Option<Timestamp>,
    pub latest_modified: Option<Timestamp>,
    pub avg_rating: Option<Mean>,
    pub avg_confidence: Option<Mean>,
    pub unique_owners: usize,
    pub active_count: usize,
    pub false_positives: usize,
}

impl SearchStats {
    /// The statistics of no records: zero counts and no averages.
    pub open spec fn empty() -> SearchStats {
        SearchStats {
            total_count: 0,
            earliest_created: None,
            latest_modified: None,
            avg_rating: None,
            avg_confidence: None,
            unique_owners: 0,
            active_count: 0,
            false_positives: 0,
        }
    }
}

impl Default for SearchStats {
    fn default() -> (r: Self)
        ensures
            r == SearchStats::empty(),
    {
        SearchStats {
            total_count: 0,
            earliest_created: None,
            latest_modified: None,
            avg_rating: None,
            avg_confidence: None,
            unique_owners: 0,
            active_count: 0,
            false_positives: 0,
        }
    }
}

/// The tag name that marks a record as a false positive.
pub open spec fn fp_tag_name() -> Seq<char> {
    "False Positive"@
}

/// Some tag of the list is named "False Positive", in any ASCII case.
pub open spec fn has_fp_tag(tags: Seq<Tag>) -> bool {
    exists|j: int| 0 <= j < tags.len() && ascii_lower(#[trigger] tags[j].name@) == ascii_lower(fp_tag_name())
}

/// A record counts as a false positive when its flag is set or when it
/// carries the tag.
pub open spec fn is_false_positive(r: Indicator) -> bool {
    r.false_positive_flag || has_fp_tag(r.tags@)
}

/// A record is rated when its rating is above zero.
pub open spec fn is_rated(r: Indicator) -> bool {
    r.rating > 0
}

/// How many records are active.
pub open spec fn count_active(s: Seq<Indicator>) -> nat
    decreases s.len(),
{
    if s.len() == 0 {
        0
    } else {
        count_active(s.drop_last()) + if s.last().active { 1nat } else { 0nat }
    }
}

/// How many records are false positives; each counts once.
pub open spec fn count_false_positives(s: Seq<Indicator>) -> nat
    decreases s.len(),
{
    if s.len() == 0 {
        0
    } else {
        count_false_positives(s.drop_last()) + if is_false_positive(s.last()) { 1nat } else { 0nat }
    }
}

/// How many records are rated.
pub open spec fn count_rated(s: Seq<Indicator>) -> nat
    decreases s.len(),
{
    if s.len() == 0 {
        0
    } else {
        count_rated(s.drop_last()) + if is_rated(s.last()) { 1nat } else { 0nat }
    }
}

/// The sum of the ratings of the rated records.
pub open spec fn sum_ratings(s: Seq<Indicator>) -> int
    decreases s.len(),
{
    if s.len() == 0 {
        0
    } else {
        sum_ratings(s.drop_last()) + if is_rated(s.last()) { s.last().rating as int } else { 0 }
    }
}

/// The sum of the confidences of all records.
pub open spec fn sum_confidences(s: Seq<Indicator>) -> int
    decreases s.len(),
{
    if s.len() == 0 {
        0
    } else {
        sum_confidences(s.drop_last()) + s.last().confidence
    }
}

/// The distinct owner names of the records, compared as exact texts.
pub open spec fn owners(s: Seq<Indicator>) -> Set<Seq<char>>
    decreases s.len(),
{
    if s.len() == 0 {
        Set::empty()
    } else {
        owners(s.drop_last()).insert(s.last().owner_name@)
    }
}

/// The earlier of an instant found so far, if any, and `t`.
pub open spec fn earlier_of(found: Option<Timestamp>, t: Timestamp) -> Option<Timestamp> {
    match found {
        Some(f) if !t.before(f) => Some(f),
        _ => Some(t),
    }
}

/// The later of an instant found so far, if any, and `t`.
pub open spec fn later_of(found: Option<Timestamp>, t: Timestamp) -> Option<Timestamp> {
    match found {
        Some(f) if !f.before(t) => Some(f),
        _ => Some(t),
    }
}

/// The earliest `date_added` of the records, if there is a record.
pub open spec fn earliest_created(s: Seq<Indicator>) -> Option<Timestamp>
    decreases s.len(),
{
    if s.len() == 0 {
        None
    } else {
        earlier_of(earliest_created(s.drop_last()), s.last().date_added)
    }
}

/// The latest `last_modified` of the records, if there is a record.
pub open spec fn latest_modified(s: Seq<Indicator>) -> Option<Timestamp>
    decreases s.len(),
{
    if s.len() == 0 {
        None
    } else {
        later_of(latest_modified(s.drop_last()), s.last().last_modified)
    }
}

/// The statistics of a sequence of records.
pub open spec fn stats_of(s: Seq<Indicator>) -> SearchStats {
    SearchStats {
        total_count: s.len() as usize,
        earliest_created: earliest_created(s),
        latest_modified: latest_modified(s),
        avg_rating: if count_rated(s) > 0 {
            Some(Mean { sum: sum_ratings(s) as i128, count: count_rated(s) as usize })
        } else {
            None
        },
        avg_confidence: if s.len() > 0 {
            Some(Mean { sum: sum_confidences(s) as i128, count: s.len() as usize })
        } else {
            None
        },
        unique_owners: owners(s).len() as usize,
        active_count: count_active(s) as usize,
        false_positives: count_false_positives(s) as usize,
    }
}

/// Whether some tag of the list is named "False Positive", in any ASCII case.
pub fn tags_mark_false_positive(tags: &[Tag]) -> (r: bool)
    ensures
        r == has_fp_tag(tags@),
{
    let mut j: usize = 0;
    while j < tags.len()
        invariant
            j <= tags.len(),
            forall|k: int| 0 <= k < j ==> ascii_lower(#[trigger] tags@[k].name@) != ascii_lower(fp_tag_name()),
        decreases tags.len() - j,
    {
        if tags[j].name.as_str().eq_ignore_ascii_case("False Positive") {
            return true;
        }
        j += 1;
    }
    false
}

/// Bounds on the aggregates of a sequence, from the range of `i32`.
pub proof fn lemma_stats_bounds(s: Seq<Indicator>)
    ensures
        count_active(s) <= s.len(),
        count_false_positives(s) <= s.len(),
        count_rated(s) <= s.len(),
        0 <= sum_ratings(s) <= s.len() * 0x7fff_ffff,
        -(s.len() * 0x8000_0000) <= sum_confidences(s) <= s.len() * 0x7fff_ffff,
        owners(s).finite(),
        owners(s).len() <= s.len(),
        count_rated(s) == 0 ==> sum_ratings(s) == 0,
    decreases s.len(),
{
    if s.len() > 0 {
        lemma_stats_bounds(s.drop_last());
    }
}

/// Statistics over `indicators`: the counts, the two averages as exact
/// fractions, and the earliest and latest instants.
pub fn calculate_stats(indicators: &[Indicator]) -> (r: SearchStats)
    ensures
        r == stats_of(indicators@),
        indicators@.len() == 0 ==> r == SearchStats::empty(),
        r.total_count == indicators@.len(),
        r.unique_owners == owners(indicators@).len(),
        r.active_count == count_active(indicators@),
        r.false_positives == count_false_positives(indicators@),
        r.avg_rating is Some <==> count_rated(indicators@) > 0,
        r.avg_rating matches Some(m) ==> m.sum == sum_ratings(indicators@) && m.count
            == count_rated(indicators@),
        r.avg_confidence is Some <==> indicators@.len() > 0,
        r.avg_confidence matches Some(m) ==> m.sum == sum_confidences(indicators@) && m.count
            == indicators@.len(),
{
    let n = indicators.len();
    let ghost s = indicators@;
    let mut earliest: Option<Timestamp> = None;
    let mut latest: Option<Timestamp> = None;
    let mut owner_set = StringHashSet::new();
    let mut active_count: usize = 0;
    let mut false_positives: usize = 0;
    let mut rating_sum: i128 = 0;
    let mut rating_count: usize = 0;
    let mut conf_sum: i128 = 0;
    let mut i: usize = 0;
    assert(s.take(0) =~= Seq::<Indicator>::empty());
    while i < n
        invariant
            n == indicators.len(),
            s == indicators@,
            i <= n,
            earliest == earliest_created(s.take(i as int)),
            latest == latest_modified(s.take(i as int)),
            owner_set@ == owners(s.take(i as int)),
            active_count == count_active(s.take(i as int)),
            false_positives == count_false_positives(s.take(i as int)),
            rating_sum == sum_ratings(s.take(i as int)),
            rating_count == count_rated(s.take(i as int)),
            conf_sum == sum_confidences(s.take(i as int)),
        decreases n - i,
    {
        let ind = &indicators[i];
        proof {
            assert(s.take(i + 1).drop_last() =~= s.take(i as int));
            assert(s.take(i + 1).last() == s[i as int]);
            lemma_stats_bounds(s.take(i as int));
            lemma_stats_bounds(s.take(i + 1));
        }
        earliest = match earliest {
            Some(t) if !ind.date_added.is_before(&t) => Some(t),
            _ => Some(ind.date_added),
        };
        latest = match latest {
            Some(t) if !t.is_before(&ind.last_modified) => Some(t),
            _ => Some(ind.last_modified),
        };
        owner_set.insert(ind.owner_name.clone());
        if ind.active {
            active_count += 1;
        }
        if ind.false_positive_flag || tags_mark_false_positive(ind.tags.data.as_slice()) {
            false_positives += 1;
        }
        if ind.rating > 0 {
            rating_sum += ind.rating as i128;
            rating_count += 1;
        }
        conf_sum += ind.confidence as i128;
        i += 1;
    }
    proof {
        assert(s.take(n as int) =~= s);
        lemma_stats_bounds(s);
        if n == 0 {
            lemma_stats_of_no_records();
        }
    }
    SearchStats {
        total_count: n,
        earliest_created: earliest,
        latest_modified: latest,
        avg_rating: if rating_count > 0 {
            Some(Mean { sum: rating_sum, count: rating_count })
        } else {
            None
        },
        avg_confidence: if n > 0 {
            Some(Mean { sum: conf_sum, count: n })
        } else {
            None
        },
        unique_owners: owner_set.len(),
        active_count,
        false_positives,
    }
}

/// The statistics of no records are the empty statistics.
pub proof fn lemma_stats_of_no_records()
    ensures
        stats_of(Seq::<Indicator>::empty()) == SearchStats::empty(),
{
    let none = Seq::<Indicator>::empty();
    assert(owners(none) =~= Set::<Seq<char>>::empty());
}

/// A record that is not rated changes neither the sum nor the count of the
/// rating average.
pub proof fn lemma_unrated_record_leaves_rating_average(s: Seq<Indicator>, r: Indicator)
    requires
        r.rating <= 0,
    ensures
        sum_ratings(s.push(r)) == sum_ratings(s),
        count_rated(s.push(r)) == count_rated(s),
        stats_of(s.push(r)).avg_rating == stats_of(s).avg_rating,
{
    assert(s.push(r).drop_last() =~= s);
}

/// A rated record adds its rating to the sum and one to the count of the
/// rating average.
pub proof fn lemma_rated_record_enters_rating_average(s: Seq<Indicator>, r: Indicator)
    requires
        r.rating > 0,
    ensures
        sum_ratings(s.push(r)) == sum_ratings(s) + r.rating,
        count_rated(s.push(r)) == count_rated(s) + 1,
{
    assert(s.push(r).drop_last() =~= s);
}

/// Every record enters the confidence average, whatever its confidence.
pub proof fn lemma_every_record_enters_confidence_average(s: Seq<Indicator>, r: Indicator)
    ensures
        sum_confidences(s.push(r)) == sum_confidences(s) + r.confidence,
        stats_of(s.push(r)).avg_confidence == Some(
            Mean {
                sum: (sum_confidences(s) + r.confidence) as i128,
                count: (s.len() + 1) as usize,
            },
        ),
{
    assert(s.push(r).drop_last() =~= s);
}

/// A record counts once as a false positive when its flag is set, when it
/// carries the tag, or both; otherwise it does not count.
pub proof fn lemma_false_positive_counts_once(s: Seq<Indicator>, r: Indicator)
    ensures
        r.false_positive_flag || has_fp_tag(r.tags@) ==> count_false_positives(s.push(r))
            == count_false_positives(s) + 1,
        !r.false_positive_flag && !has_fp_tag(r.tags@) ==> count_false_positives(s.push(r))
            == count_false_positives(s),
{
    assert(s.push(r).drop_last() =~= s);
}

/// The owners of the records are the owner names that occur in them.
pub proof fn lemma_owners_contains(s: Seq<Indicator>, name: Seq<char>)
    ensures
        owners(s).contains(name) <==> exists|k: int| 0 <= k < s.len() && (#[trigger] s[k]).owner_name@ == name,
    decreases s.len(),
{
    if s.len() > 0 {
        let init = s.drop_last();
        lemma_owners_contains(init, name);
        if exists|k: int| 0 <= k < init.len() && (#[trigger] init[k]).owner_name@ == name {
            let k = choose|k: int| 0 <= k < init.len() && (#[trigger] init[k]).owner_name@ == name;
            assert(s[k].owner_name@ == name);
        }
        if exists|k: int| 0 <= k < s.len() && (#[trigger] s[k]).owner_name@ == name {
            let k = choose|k: int| 0 <= k < s.len() && (#[trigger] s[k]).owner_name@ == name;
            if k < init.len() {
                assert(init[k].owner_name@ == name);
            }
        }
        assert(s[s.len() - 1] == s.last());
    }
}

/// Each aggregate of a sequence is that of the sequence without one of its
/// records, combined with that record.
proof fn lemma_stats_without(s: Seq<Indicator>, j: int)
    requires
        0 <= j < s.len(),
    ensures
        count_active(s) == count_active(s.remove(j)) + if s[j].active { 1nat } else { 0nat },
        count_false_positives(s) == count_false_positives(s.remove(j)) + if is_false_positive(s[j]) {
            1nat
        } else {
            0nat
        },
        count_rated(s) == count_rated(s.remove(j)) + if is_rated(s[j]) { 1nat } else { 0nat },
        sum_ratings(s) == sum_ratings(s.remove(j)) + if is_rated(s[j]) { s[j].rating as int } else { 0 },
        sum_confidences(s) == sum_confidences(s.remove(j)) + s[j].confidence,
        owners(s) == owners(s.remove(j)).insert(s[j].owner_name@),
        earliest_created(s) == earlier_of(earliest_created(s.remove(j)), s[j].date_added),
        latest_modified(s) == later_of(latest_modified(s.remove(j)), s[j].last_modified),
    decreases s.len(),
{
    if j == s.len() - 1 {
        assert(s.remove(j) =~= s.drop_last());
    } else {
        let init = s.drop_last();
        lemma_stats_without(init, j);
        assert(s.remove(j).drop_last() =~= init.remove(j));
        assert(s.remove(j).last() == s.last());
        assert(init[j] == s[j]);
        assert(owners(s) =~= owners(s.remove(j)).insert(s[j].owner_name@));
    }
}

/// The aggregates do not depend on the order of the records.
proof fn lemma_aggregates_ignore_order(a: Seq<Indicator>, b: Seq<Indicator>)
    requires
        a.to_multiset() == b.to_multiset(),
    ensures
        a.len() == b.len(),
        count_active(a) == count_active(b),
        count_false_positives(a) == count_false_positives(b),
        count_rated(a) == count_rated(b),
        sum_ratings(a) == sum_ratings(b),
        sum_confidences(a) == sum_confidences(b),
        owners(a) == owners(b),
        earliest_created(a) == earliest_created(b),
        latest_modified(a) == latest_modified(b),
    decreases a.len(),
{
    a.to_multiset_ensures();
    b.to_multiset_ensures();
    if a.len() > 0 {
        let x = a.last();
        let init = a.drop_last();
        assert(a[a.len() - 1] == x);
        assert(a.contains(x));
        assert(a.to_multiset().count(x) > 0);
        assert(b.to_multiset().count(x) > 0);
        assert(b.contains(x));
        let j = choose|j: int| 0 <= j < b.len() && b[j] == x;
        assert(a =~= init.push(x));
        init.to_multiset_ensures();
        assert(init.push(x).to_multiset() =~= init.to_multiset().insert(x));
        assert(b.remove(j).to_multiset() =~= b.to_multiset().remove(x));
        assert(init.to_multiset() =~= b.remove(j).to_multiset());
        lemma_aggregates_ignore_order(init, b.remove(j));
        lemma_stats_without(b, j);
    }
}

/// The statistics are those of the records as a multiset: in whatever
/// order the same records come, the statistics are the same.
pub proof fn lemma_stats_ignore_order(a: Seq<Indicator>, b: Seq<Indicator>)
    requires
        a.to_multiset() == b.to_multiset(),
    ensures
        stats_of(a) == stats_of(b),
{
    lemma_aggregates_ignore_order(a, b);
}

} // verus!
