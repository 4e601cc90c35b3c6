//! Grouping of records by their summary in ASCII lower case.

use vstd::prelude::*;
use crate::models::indicator::Indicator;
use crate::text::{
    ascii_lower, lemma_text_lt_irreflexive, lemma_text_lt_total, lemma_text_lt_transitive, str_lt,
    text_lt,
};

verus! {

/// The records of one search that share a case-folded summary.
///
/// `summary` and `indicator_type` are those of the first member.
#[derive(Debug, Clone)]
pub struct GroupedIndicator {
    pub summary: String,
    pub indicator_type: String,
    pub indicators: Vec<Indicator>,
}

impl GroupedIndicator {
    /// The key of the group: its display summary in ASCII lower case.
    pub open spec fn key(&self) -> Seq<char> {
        ascii_lower(self.summary@)
    }
}

/// The key under which a record is grouped: its summary in ASCII lower case.
pub open spec fn group_key(r: Indicator) -> Seq<char> {
    ascii_lower(r.summary@)
}

/// The records of `s` whose key is `key`, in the order of `s`.
pub open spec fn members_of(s: Seq<Indicator>, key: Seq<char>) -> Seq<Indicator>
    decreases s.len(),
{
    if s.len() == 0 {
        Seq::empty()
    } else {
        let rest = members_of(s.drop_last(), key);
        if group_key(s.last()) == key {
            rest.push(s.last())
        } else {
            rest
        }
    }
}

/// `g` holds exactly the records of `s` with its key, in the order of `s`,
/// and shows the summary and type of the first of them.
pub open spec fn is_group_of(g: GroupedIndicator, s: Seq<Indicator>) -> bool {
    &&& g.indicators@.len() > 0
    &&& g.indicators@ == members_of(s, g.key())
    &&& g.summary@ == g.indicators@[0].summary@
    &&& g.indicator_type@ == g.indicators@[0].type_@
}

/// `groups` is the grouping of `s`: each group is a group of `s`, the keys
/// ascend strictly, and every record of `s` has a group with its key.
pub open spec fn is_grouping_of(groups: Seq<GroupedIndicator>, s: Seq<Indicator>) -> bool {
    &&& forall|i: int| 0 <= i < groups.len() ==> is_group_of(#[trigger] groups[i], s)
    &&& forall|i: int, j: int|
        0 <= i < j < groups.len() ==> text_lt(#[trigger] groups[i].key(), #[trigger] groups[j].key())
    &&& forall|k: int|
        0 <= k < s.len() ==> exists|i: int|
            0 <= i < groups.len() && #[trigger] groups[i].key() == group_key(#[trigger] s[k])
}

/// Where no record has the key, no record is a member.
pub proof fn lemma_members_of_absent_key(s: Seq<Indicator>, key: Seq<char>)
    requires
        forall|k: int| 0 <= k < s.len() ==> group_key(#[trigger] s[k]) != key,
    ensures
        members_of(s, key) == Seq::<Indicator>::empty(),
    decreases s.len(),
{
    if s.len() > 0 {
        assert(group_key(s[s.len() - 1]) != key);
        assert forall|k: int| 0 <= k < s.drop_last().len() implies group_key(
            #[trigger] s.drop_last()[k],
        ) != key by {
            assert(s.drop_last()[k] == s[k]);
        }
        lemma_members_of_absent_key(s.drop_last(), key);
    }
}

/// Groups `indicators` by their summary in ASCII lower case. The groups
/// come out in ascending order of that key; the members of a group keep the
/// order of the input, and the first of them gives the group its summary
/// and type.
pub fn group_indicators(indicators: Vec<Indicator>) -> (r: Vec<GroupedIndicator>)
    ensures
        is_grouping_of(r@, indicators@),
        r@.len() <= indicators@.len(),
{
    let mut groups: Vec<GroupedIndicator> = Vec::new();
    let mut keys: Vec<String> = Vec::new();
    let ghost mut seen: Seq<Indicator> = Seq::empty();
    for ind in it: indicators
        invariant
            seen == it.seq().take(it.index() as int),
            it.seq() == indicators@,
            keys@.len() == groups@.len(),
            groups@.len() <= seen.len(),
            forall|i: int| 0 <= i < groups@.len() ==> (#[trigger] keys@[i])@ == groups@[i].key(),
            is_grouping_of(groups@, seen),
    {
        let ghost done = seen;
        let ghost next = seen.push(ind);
        let ghost old_groups = groups@;
        proof {
            assert(next.drop_last() =~= done);
            assert(next.last() == ind);
            assert(next =~= it.seq().take(it.index() + 1));
            seen = next;
        }
        let key = ind.summary.as_str().to_ascii_lowercase();
        let mut p: usize = 0;
        while p < keys.len() && str_lt(keys[p].as_str(), key.as_str())
            invariant
                p <= keys@.len(),
                forall|j: int| 0 <= j < p ==> text_lt((#[trigger] keys@[j])@, key@),
            decreases keys@.len() - p,
        {
            p += 1;
        }
        if p < keys.len() && keys[p] == key {
            groups[p].indicators.push(ind);
            proof {
                assert forall|i: int| 0 <= i < groups@.len() implies is_group_of(
                    #[trigger] groups@[i],
                    next,
                ) by {
                    assert(is_group_of(old_groups[i], done));
                    if i != p {
                        if i < p {
                            assert(text_lt(old_groups[i].key(), old_groups[p as int].key()));
                        } else {
                            assert(text_lt(old_groups[p as int].key(), old_groups[i].key()));
                        }
                        lemma_text_lt_irreflexive(key@);
                    }
                }
                assert forall|k: int| 0 <= k < next.len() implies exists|i: int|
                    0 <= i < groups@.len() && #[trigger] groups@[i].key() == group_key(
                        #[trigger] next[k],
                    ) by {
                    if k < done.len() {
                        assert(next[k] == done[k]);
                        let i = choose|i: int|
                            0 <= i < old_groups.len() && #[trigger] old_groups[i].key()
                                == group_key(done[k]);
                        assert(groups@[i].key() == group_key(next[k]));
                    } else {
                        assert(groups@[p as int].key() == group_key(next[k]));
                    }
                }
            }
        } else {
            proof {
                lemma_text_lt_irreflexive(key@);
                assert forall|j: int| 0 <= j < p implies text_lt(
                    #[trigger] old_groups[j].key(),
                    key@,
                ) by {
                    assert(keys@[j]@ == old_groups[j].key());
                }
                assert forall|j: int| p <= j < old_groups.len() implies text_lt(
                    key@,
                    #[trigger] old_groups[j].key(),
                ) by {
                    assert(keys@[p as int]@ == old_groups[p as int].key());
                    lemma_text_lt_total(old_groups[p as int].key(), key@);
                    if p < j {
                        assert(text_lt(old_groups[p as int].key(), old_groups[j].key()));
                        lemma_text_lt_transitive(
                            key@,
                            old_groups[p as int].key(),
                            old_groups[j].key(),
                        );
                    }
                }
                assert forall|k: int| 0 <= k < done.len() implies group_key(#[trigger] done[k])
                    != key@ by {
                    let i = choose|i: int|
                        0 <= i < old_groups.len() && #[trigger] old_groups[i].key() == group_key(
                            done[k],
                        );
                    assert(text_lt(old_groups[i].key(), key@) || text_lt(key@, old_groups[i].key()));
                }
                lemma_members_of_absent_key(done, key@);
            }
            let mut members: Vec<Indicator> = Vec::new();
            let summary = ind.summary.clone();
            let indicator_type = ind.type_.clone();
            members.push(ind);
            let group = GroupedIndicator { summary, indicator_type, indicators: members };
            groups.insert(p, group);
            keys.insert(p, key);
            proof {
                assert forall|i: int| 0 <= i < groups@.len() implies is_group_of(
                    #[trigger] groups@[i],
                    next,
                ) by {
                    if i < p {
                        assert(groups@[i] == old_groups[i]);
                        assert(is_group_of(old_groups[i], done));
                    } else if i > p {
                        assert(groups@[i] == old_groups[i - 1]);
                        assert(is_group_of(old_groups[i - 1], done));
                    } else {
                        assert(groups@[i].indicators@ =~= members_of(next, key@));
                    }
                }
                assert forall|k: int| 0 <= k < next.len() implies exists|i: int|
                    0 <= i < groups@.len() && #[trigger] groups@[i].key() == group_key(
                        #[trigger] next[k],
                    ) by {
                    if k < done.len() {
                        assert(next[k] == done[k]);
                        let i = choose|i: int|
                            0 <= i < old_groups.len() && #[trigger] old_groups[i].key()
                                == group_key(done[k]);
                        if i < p {
                            assert(groups@[i].key() == group_key(next[k]));
                        } else {
                            assert(groups@[i + 1] == old_groups[i]);
                            assert(groups@[i + 1].key() == group_key(next[k]));
                        }
                    } else {
                        assert(groups@[p as int].key() == group_key(next[k]));
                    }
                }
                assert forall|i: int, j: int| 0 <= i < j < groups@.len() implies text_lt(
                    #[trigger] groups@[i].key(),
                    #[trigger] groups@[j].key(),
                ) by {
                    let oi = if i < p { i } else { i - 1 };
                    let oj = if j < p { j } else { j - 1 };
                    if i != p && j != p {
                        assert(groups@[i] == old_groups[oi]);
                        assert(groups@[j] == old_groups[oj]);
                        assert(text_lt(old_groups[oi].key(), old_groups[oj].key()));
                    } else if i == p {
                        assert(groups@[j] == old_groups[oj]);
                        assert(text_lt(key@, old_groups[oj].key()));
                    } else {
                        assert(groups@[i] == old_groups[oi]);
                        assert(text_lt(old_groups[oi].key(), key@));
                    }
                }
                assert forall|i: int| 0 <= i < groups@.len() implies (#[trigger] keys@[i])@
                    == groups@[i].key() by {
                    if i < p {
                        assert(groups@[i] == old_groups[i]);
                    } else if i > p {
                        assert(groups@[i] == old_groups[i - 1]);
                    }
                }
            }
        }
    }
    assert(seen =~= indicators@);
    groups
}

/// The members under a key are the records with that key.
pub proof fn lemma_members_of_contains(s: Seq<Indicator>, key: Seq<char>, x: Indicator)
    ensures
        members_of(s, key).contains(x) <==> s.contains(x) && group_key(x) == key,
        members_of(s, key).len() <= s.len(),
    decreases s.len(),
{
    if s.len() > 0 {
        let init = s.drop_last();
        lemma_members_of_contains(init, key, x);
        let rest = members_of(init, key);
        if s.contains(x) {
            let i = choose|i: int| 0 <= i < s.len() && s[i] == x;
            if i < init.len() {
                assert(init[i] == x);
            }
        }
        if init.contains(x) {
            let i = choose|i: int| 0 <= i < init.len() && init[i] == x;
            assert(s[i] == x);
        }
        assert(s[s.len() - 1] == s.last());
        if group_key(s.last()) == key {
            let m = rest.push(s.last());
            if rest.contains(x) {
                let i = choose|i: int| 0 <= i < rest.len() && rest[i] == x;
                assert(m[i] == x);
            }
            assert(m[m.len() - 1] == s.last());
            if m.contains(x) {
                let i = choose|i: int| 0 <= i < m.len() && m[i] == x;
                if i < rest.len() {
                    assert(rest[i] == x);
                }
            }
        }
    }
}

/// Records whose summaries differ in ASCII case only share a group, and
/// records that share a group have the same summary up to ASCII case.
pub proof fn lemma_grouping_ignores_case(
    groups: Seq<GroupedIndicator>,
    s: Seq<Indicator>,
    a: int,
    b: int,
)
    requires
        is_grouping_of(groups, s),
        0 <= a < s.len(),
        0 <= b < s.len(),
    ensures
        ascii_lower(s[a].summary@) == ascii_lower(s[b].summary@) <==> exists|i: int|
            0 <= i < groups.len() && (#[trigger] groups[i]).indicators@.contains(s[a])
                && groups[i].indicators@.contains(s[b]),
{
    assert(s.contains(s[a]));
    assert(s.contains(s[b]));
    if ascii_lower(s[a].summary@) == ascii_lower(s[b].summary@) {
        let i = choose|i: int| 0 <= i < groups.len() && #[trigger] groups[i].key() == group_key(s[a]);
        assert(is_group_of(groups[i], s));
        lemma_members_of_contains(s, groups[i].key(), s[a]);
        lemma_members_of_contains(s, groups[i].key(), s[b]);
    }
    if exists|i: int|
        0 <= i < groups.len() && (#[trigger] groups[i]).indicators@.contains(s[a])
            && groups[i].indicators@.contains(s[b]) {
        let i = choose|i: int|
            0 <= i < groups.len() && (#[trigger] groups[i]).indicators@.contains(s[a])
                && groups[i].indicators@.contains(s[b]);
        assert(is_group_of(groups[i], s));
        lemma_members_of_contains(s, groups[i].key(), s[a]);
        lemma_members_of_contains(s, groups[i].key(), s[b]);
    }
}

/// How many members the groups hold together.
pub open spec fn total_members(groups: Seq<GroupedIndicator>) -> nat
    decreases groups.len(),
{
    if groups.len() == 0 {
        0
    } else {
        total_members(groups.drop_last()) + groups.last().indicators@.len()
    }
}

/// How many records of `s` have one of the first `n` keys of `groups`.
spec fn members_under(groups: Seq<GroupedIndicator>, n: int, s: Seq<Indicator>) -> nat
    decreases n,
{
    if n <= 0 {
        0
    } else {
        members_under(groups, n - 1, s) + members_of(s, groups[n - 1].key()).len()
    }
}

/// How many of the first `n` keys of `groups` are `key`.
spec fn keys_equal_to(groups: Seq<GroupedIndicator>, n: int, key: Seq<char>) -> nat
    decreases n,
{
    if n <= 0 {
        0
    } else {
        keys_equal_to(groups, n - 1, key) + if groups[n - 1].key() == key { 1nat } else { 0nat }
    }
}

proof fn lemma_members_under_step(groups: Seq<GroupedIndicator>, n: int, s: Seq<Indicator>)
    requires
        s.len() > 0,
        0 <= n <= groups.len(),
    ensures
        members_under(groups, n, s) == members_under(groups, n, s.drop_last()) + keys_equal_to(
            groups,
            n,
            group_key(s.last()),
        ),
    decreases n,
{
    if n > 0 {
        lemma_members_under_step(groups, n - 1, s);
    }
}

proof fn lemma_keys_equal_to(groups: Seq<GroupedIndicator>, n: int, key: Seq<char>)
    requires
        0 <= n <= groups.len(),
        forall|i: int, j: int|
            0 <= i < j < groups.len() ==> text_lt(#[trigger] groups[i].key(), #[trigger] groups[j].key()),
    ensures
        keys_equal_to(groups, n, key) <= 1,
        keys_equal_to(groups, n, key) == 1 <==> exists|i: int|
            0 <= i < n && #[trigger] groups[i].key() == key,
    decreases n,
{
    if n > 0 {
        lemma_keys_equal_to(groups, n - 1, key);
        if groups[n - 1].key() == key {
            if keys_equal_to(groups, n - 1, key) == 1 {
                let i = choose|i: int| 0 <= i < n - 1 && #[trigger] groups[i].key() == key;
                assert(text_lt(groups[i].key(), groups[n - 1].key()));
                lemma_text_lt_irreflexive(key);
            }
        } else {
            if exists|i: int| 0 <= i < n && #[trigger] groups[i].key() == key {
                let i = choose|i: int| 0 <= i < n && #[trigger] groups[i].key() == key;
                assert(i < n - 1);
            }
        }
    }
}

proof fn lemma_members_under_all(groups: Seq<GroupedIndicator>, s: Seq<Indicator>)
    requires
        forall|i: int, j: int|
            0 <= i < j < groups.len() ==> text_lt(#[trigger] groups[i].key(), #[trigger] groups[j].key()),
        forall|k: int|
            0 <= k < s.len() ==> exists|i: int|
                0 <= i < groups.len() && #[trigger] groups[i].key() == group_key(#[trigger] s[k]),
    ensures
        members_under(groups, groups.len() as int, s) == s.len(),
    decreases s.len(),
{
    if s.len() == 0 {
        assert(s =~= Seq::<Indicator>::empty());
        lemma_members_under_none(groups, groups.len() as int);
    } else {
        let init = s.drop_last();
        assert forall|k: int| 0 <= k < init.len() implies exists|i: int|
            0 <= i < groups.len() && #[trigger] groups[i].key() == group_key(#[trigger] init[k]) by {
            let i = choose|i: int|
                0 <= i < groups.len() && #[trigger] groups[i].key() == group_key(s[k]);
            assert(groups[i].key() == group_key(init[k]));
        }
        lemma_members_under_all(groups, init);
        lemma_members_under_step(groups, groups.len() as int, s);
        let last = s[s.len() - 1];
        let i = choose|i: int| 0 <= i < groups.len() && #[trigger] groups[i].key() == group_key(last);
        assert(groups[i].key() == group_key(s.last()));
        lemma_keys_equal_to(groups, groups.len() as int, group_key(s.last()));
    }
}

proof fn lemma_members_under_none(groups: Seq<GroupedIndicator>, n: int)
    requires
        0 <= n <= groups.len(),
    ensures
        members_under(groups, n, Seq::<Indicator>::empty()) == 0,
    decreases n,
{
    if n > 0 {
        lemma_members_under_none(groups, n - 1);
    }
}

proof fn lemma_total_members(groups: Seq<GroupedIndicator>, n: int, s: Seq<Indicator>)
    requires
        0 <= n <= groups.len(),
        forall|i: int| 0 <= i < groups.len() ==> is_group_of(#[trigger] groups[i], s),
    ensures
        total_members(groups.take(n)) == members_under(groups, n, s),
    decreases n,
{
    if n > 0 {
        lemma_total_members(groups, n - 1, s);
        assert(groups.take(n).drop_last() =~= groups.take(n - 1));
        assert(groups.take(n).last() == groups[n - 1]);
        assert(is_group_of(groups[n - 1], s));
    }
}

/// The groups hold every record once: their sizes add up to the number of
/// records.
pub proof fn lemma_grouping_keeps_every_record(groups: Seq<GroupedIndicator>, s: Seq<Indicator>)
    requires
        is_grouping_of(groups, s),
    ensures
        total_members(groups) == s.len(),
{
    lemma_total_members(groups, groups.len() as int, s);
    assert(groups.take(groups.len() as int) =~= groups);
    lemma_members_under_all(groups, s);
}

/// The keys of the groups, in the order of the groups.
pub open spec fn keys_of(groups: Seq<GroupedIndicator>) -> Seq<Seq<char>> {
    Seq::new(groups.len(), |i: int| groups[i].key())
}

/// The texts ascend strictly.
pub open spec fn ascending(keys: Seq<Seq<char>>) -> bool {
    forall|i: int, j: int| 0 <= i < j < keys.len() ==> text_lt(#[trigger] keys[i], #[trigger] keys[j])
}

/// Two strictly ascending sequences with the same elements are equal.
pub proof fn lemma_ascending_unique(a: Seq<Seq<char>>, b: Seq<Seq<char>>)
    requires
        ascending(a),
        ascending(b),
        forall|x: Seq<char>| a.contains(x) <==> b.contains(x),
    ensures
        a == b,
    decreases a.len(),
{
    if a.len() == 0 {
        if b.len() > 0 {
            assert(b.contains(b[0]));
        }
        assert(a =~= b);
    } else {
        assert(a.contains(a[0]));
        let j = choose|j: int| 0 <= j < b.len() && b[j] == a[0];
        assert(b.contains(b[0]));
        let i = choose|i: int| 0 <= i < a.len() && a[i] == b[0];
        if i > 0 {
            assert(text_lt(a[0], a[i]));
            if j > 0 {
                assert(text_lt(b[0], b[j]));
                lemma_text_lt_transitive(a[0], b[0], a[0]);
            }
            lemma_text_lt_irreflexive(a[0]);
        }
        assert(a[0] == b[0]);
        let ta = a.drop_first();
        let tb = b.drop_first();
        assert forall|x: Seq<char>| ta.contains(x) <==> tb.contains(x) by {
            if ta.contains(x) {
                let k = choose|k: int| 0 <= k < ta.len() && ta[k] == x;
                assert(a[k + 1] == x);
                assert(text_lt(a[0], a[k + 1]));
                assert(a.contains(x));
                let m = choose|m: int| 0 <= m < b.len() && b[m] == x;
                lemma_text_lt_irreflexive(x);
                assert(tb[m - 1] == x);
            }
            if tb.contains(x) {
                let k = choose|k: int| 0 <= k < tb.len() && tb[k] == x;
                assert(b[k + 1] == x);
                assert(text_lt(b[0], b[k + 1]));
                assert(b.contains(x));
                let m = choose|m: int| 0 <= m < a.len() && a[m] == x;
                lemma_text_lt_irreflexive(x);
                assert(ta[m - 1] == x);
            }
        }
        assert forall|i: int, j: int| 0 <= i < j < ta.len() implies text_lt(
            #[trigger] ta[i],
            #[trigger] ta[j],
        ) by {
            assert(text_lt(a[i + 1], a[j + 1]));
        }
        assert forall|i: int, j: int| 0 <= i < j < tb.len() implies text_lt(
            #[trigger] tb[i],
            #[trigger] tb[j],
        ) by {
            assert(text_lt(b[i + 1], b[j + 1]));
        }
        lemma_ascending_unique(ta, tb);
        assert(a =~= seq![a[0]] + ta);
        assert(b =~= seq![b[0]] + tb);
    }
}

/// The keys of a grouping are the keys of the records: each once, in
/// ascending order.
pub proof fn lemma_grouping_keys(groups: Seq<GroupedIndicator>, s: Seq<Indicator>)
    requires
        is_grouping_of(groups, s),
    ensures
        ascending(keys_of(groups)),
        forall|key: Seq<char>|
            keys_of(groups).contains(key) <==> exists|k: int|
                0 <= k < s.len() && group_key(#[trigger] s[k]) == key,
{
    let keys = keys_of(groups);
    assert forall|i: int, j: int| 0 <= i < j < keys.len() implies text_lt(
        #[trigger] keys[i],
        #[trigger] keys[j],
    ) by {
        assert(text_lt(groups[i].key(), groups[j].key()));
    }
    assert forall|key: Seq<char>|
        keys.contains(key) <==> exists|k: int|
            0 <= k < s.len() && group_key(#[trigger] s[k]) == key by {
        if keys.contains(key) {
            let i = choose|i: int| 0 <= i < keys.len() && keys[i] == key;
            assert(is_group_of(groups[i], s));
            let first = groups[i].indicators@[0];
            assert(groups[i].indicators@.contains(first));
            lemma_members_of_contains(s, key, first);
            let k = choose|k: int| 0 <= k < s.len() && s[k] == first;
            assert(group_key(s[k]) == key);
        }
        if exists|k: int| 0 <= k < s.len() && group_key(#[trigger] s[k]) == key {
            let k = choose|k: int| 0 <= k < s.len() && group_key(#[trigger] s[k]) == key;
            let i = choose|i: int|
                0 <= i < groups.len() && #[trigger] groups[i].key() == group_key(s[k]);
            assert(keys[i] == key);
        }
    }
}

/// The order of the records does not decide the groups: two groupings of
/// the same records, in whatever order these come, have the same keys in
/// the same order.
pub proof fn lemma_group_order_ignores_input_order(
    g1: Seq<GroupedIndicator>,
    s1: Seq<Indicator>,
    g2: Seq<GroupedIndicator>,
    s2: Seq<Indicator>,
)
    requires
        is_grouping_of(g1, s1),
        is_grouping_of(g2, s2),
        s1.to_multiset() == s2.to_multiset(),
    ensures
        keys_of(g1) == keys_of(g2),
{
    lemma_grouping_keys(g1, s1);
    lemma_grouping_keys(g2, s2);
    s1.to_multiset_ensures();
    s2.to_multiset_ensures();
    assert forall|x: Seq<char>| keys_of(g1).contains(x) <==> keys_of(g2).contains(x) by {
        if keys_of(g1).contains(x) {
            let k = choose|k: int| 0 <= k < s1.len() && group_key(#[trigger] s1[k]) == x;
            assert(s1.contains(s1[k]));
            assert(s1.to_multiset().count(s1[k]) > 0);
            assert(s2.to_multiset().count(s1[k]) > 0);
            assert(s2.contains(s1[k]));
            let m = choose|m: int| 0 <= m < s2.len() && s2[m] == s1[k];
            assert(group_key(s2[m]) == x);
        }
        if keys_of(g2).contains(x) {
            let k = choose|k: int| 0 <= k < s2.len() && group_key(#[trigger] s2[k]) == x;
            assert(s2.contains(s2[k]));
            assert(s2.to_multiset().count(s2[k]) > 0);
            assert(s1.to_multiset().count(s2[k]) > 0);
            assert(s1.contains(s2[k]));
            let m = choose|m: int| 0 <= m < s1.len() && s1[m] == s2[k];
            assert(group_key(s1[m]) == x);
        }
    }
    lemma_ascending_unique(keys_of(g1), keys_of(g2));
}

/// A sequence of records has one grouping: two groupings of it have the
/// same groups, with the same members in the same order and the same
/// summary and type shown.
pub proof fn lemma_grouping_unique(
    g1: Seq<GroupedIndicator>,
    g2: Seq<GroupedIndicator>,
    s: Seq<Indicator>,
)
    requires
        is_grouping_of(g1, s),
        is_grouping_of(g2, s),
    ensures
        g1.len() == g2.len(),
        forall|i: int|
            0 <= i < g1.len() ==> {
                &&& (#[trigger] g1[i]).indicators@ == g2[i].indicators@
                &&& g1[i].summary@ == g2[i].summary@
                &&& g1[i].indicator_type@ == g2[i].indicator_type@
            },
{
    lemma_group_order_ignores_input_order(g1, s, g2, s);
    assert(keys_of(g1).len() == keys_of(g2).len());
    assert forall|i: int| 0 <= i < g1.len() implies {
        &&& (#[trigger] g1[i]).indicators@ == g2[i].indicators@
        &&& g1[i].summary@ == g2[i].summary@
        &&& g1[i].indicator_type@ == g2[i].indicator_type@
    } by {
        assert(keys_of(g1)[i] == keys_of(g2)[i]);
        assert(is_group_of(g1[i], s));
        assert(is_group_of(g2[i], s));
    }
}

/// A record occurs among the members under a key as often as among the
/// records, where its key is that key, and not at all otherwise.
pub proof fn lemma_members_of_count(s: Seq<Indicator>, key: Seq<char>, x: Indicator)
    ensures
        members_of(s, key).to_multiset().count(x) == if group_key(x) == key {
            s.to_multiset().count(x)
        } else {
            0
        },
    decreases s.len(),
{
    if s.len() == 0 {
        assert(members_of(s, key) =~= s);
        s.to_multiset_ensures();
        assert(!s.contains(x));
    } else {
        let init = s.drop_last();
        let rest = members_of(init, key);
        lemma_members_of_count(init, key, x);
        assert(s =~= init.push(s.last()));
        init.to_multiset_ensures();
        rest.to_multiset_ensures();
        assert(init.push(s.last()).to_multiset() =~= init.to_multiset().insert(s.last()));
        if group_key(s.last()) == key {
            assert(rest.push(s.last()).to_multiset() =~= rest.to_multiset().insert(s.last()));
        }
    }
}

/// The order of the records decides only the order within a group: two
/// groupings of the same records, in whatever order these come, have the
/// same number of groups, and groups at the same place hold the same
/// records.
pub proof fn lemma_group_members_ignore_input_order(
    g1: Seq<GroupedIndicator>,
    s1: Seq<Indicator>,
    g2: Seq<GroupedIndicator>,
    s2: Seq<Indicator>,
)
    requires
        is_grouping_of(g1, s1),
        is_grouping_of(g2, s2),
        s1.to_multiset() == s2.to_multiset(),
    ensures
        g1.len() == g2.len(),
        forall|i: int|
            0 <= i < g1.len() ==> (#[trigger] g1[i]).indicators@.to_multiset()
                == g2[i].indicators@.to_multiset(),
{
    lemma_group_order_ignores_input_order(g1, s1, g2, s2);
    assert(keys_of(g1).len() == keys_of(g2).len());
    assert forall|i: int| 0 <= i < g1.len() implies (#[trigger] g1[i]).indicators@.to_multiset()
        == g2[i].indicators@.to_multiset() by {
        assert(keys_of(g1)[i] == keys_of(g2)[i]);
        assert(is_group_of(g1[i], s1));
        assert(is_group_of(g2[i], s2));
        let key = g1[i].key();
        assert forall|x: Indicator|
            members_of(s1, key).to_multiset().count(x) == members_of(s2, key).to_multiset().count(
                x,
            ) by {
            lemma_members_of_count(s1, key, x);
            lemma_members_of_count(s2, key, x);
        }
        assert(members_of(s1, key).to_multiset() =~= members_of(s2, key).to_multiset());
    }
}

} // verus!
