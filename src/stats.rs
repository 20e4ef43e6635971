//! Statistics over a saved history: plays per calendar bucket, the span of the
//! history in days, and the month with the most plays.
//!
//! Averages are the number of plays divided by the span in the bucket's unit;
//! the division, in floating point, is left to the caller.

use crate::models::{all_valid, record_views, RecordView, SavedScrobble};
use crate::saved_scrobbles::{is_saved_set, SavedScrobbles};
use crate::time::{calendar_year, iso_week, iso_week_of, local_day_of, month_label_of, year_of};
use std::collections::HashMap;
use vstd::prelude::*;

verus! {

/// How many times `k` occurs in `keys`.
pub open spec fn count_of<K>(keys: Seq<K>, k: K) -> nat
    decreases keys.len(),
{
    if keys.len() == 0 {
        0
    } else {
        count_of(keys.drop_last(), k) + if keys.last() == k {
            1nat
        } else {
            0nat
        }
    }
}

/// The sum of the counts of a list of buckets.
pub open spec fn sum_counts<K>(groups: Seq<(K, usize)>) -> int
    decreases groups.len(),
{
    if groups.len() == 0 {
        0
    } else {
        sum_counts(groups.drop_last()) + groups.last().1 as int
    }
}

/// `groups` holds one bucket per distinct key of `keys`, each with the number
/// of times its key occurs.
pub open spec fn buckets_of<K>(groups: Seq<(K, usize)>, keys: Seq<K>) -> bool {
    &&& forall|j: int| 0 <= j < groups.len() ==> #[trigger] groups[j].1 == count_of(keys, groups[j].0)
    &&& forall|i: int, j: int| 0 <= i < j < groups.len() ==> groups[i].0 != groups[j].0
    &&& forall|i: int| 0 <= i < keys.len() ==> exists|j: int| 0 <= j < groups.len() && #[trigger] groups[j].0 == #[trigger] keys[i]
}

/// `k` occurs in `keys` before position `p`.
pub open spec fn occurs_before<K>(keys: Seq<K>, k: K, p: int) -> bool {
    exists|q: int| 0 <= q < p && keys[q] == k
}

/// The buckets come in the order their keys first occur: wherever a bucket's
/// key occurs, the key of every earlier bucket has occurred before.
pub open spec fn in_first_occurrence_order<K>(groups: Seq<(K, usize)>, keys: Seq<K>) -> bool {
    forall|a: int, b: int, p: int|
        #![trigger groups[a], groups[b], keys[p]]
        0 <= a < b < groups.len() && 0 <= p < keys.len() && keys[p] == groups[b].0 ==> occurs_before(
            keys,
            groups[a].0,
            p,
        )
}

proof fn lemma_sum_counts_update<K>(groups: Seq<(K, usize)>, j: int, v: (K, usize))
    requires
        0 <= j < groups.len(),
    ensures
        sum_counts(groups.update(j, v)) == sum_counts(groups) - groups[j].1 + v.1,
    decreases groups.len(),
{
    let u = groups.update(j, v);
    if j == groups.len() - 1 {
        assert(u.drop_last() =~= groups.drop_last());
    } else {
        assert(u.drop_last() =~= groups.drop_last().update(j, v));
        lemma_sum_counts_update(groups.drop_last(), j, v);
    }
}

proof fn lemma_count_of_push<K>(keys: Seq<K>, x: K, k: K)
    ensures
        count_of(keys.push(x), k) == count_of(keys, k) + if x == k {
            1nat
        } else {
            0nat
        },
{
    assert(keys.push(x).drop_last() =~= keys);
}

/// One bucket per distinct key (a day, a week or a year), in the order the
/// keys first occur.
pub fn count_by_key(days: &Vec<i64>) -> (r: Vec<(i64, usize)>)
    ensures
        buckets_of(r@, days@),
        sum_counts(r@) == days@.len(),
{
    broadcast use vstd::std_specs::hash::group_hash_axioms;

    let mut groups: Vec<(i64, usize)> = Vec::new();
    // Where each day's bucket sits in `groups`.
    let mut position: HashMap<i64, usize> = HashMap::new();
    let mut i: usize = 0;
    while i < days.len()
        invariant
            i <= days@.len(),
            buckets_of(groups@, days@.subrange(0, i as int)),
            sum_counts(groups@) == i,
            groups@.len() <= i,
            forall|k: i64| #[trigger] position@.contains_key(k) ==> position@[k] < groups@.len()
                && groups@[position@[k] as int].0 == k,
            forall|m: int| 0 <= m < groups@.len() ==> position@.contains_key(#[trigger] groups@[m].0),
        decreases days@.len() - i,
    {
        let d = days[i];
        let ghost prefix = days@.subrange(0, i as int);
        let ghost next = days@.subrange(0, i + 1);
        assert(next =~= prefix.push(d));
        let ghost old_groups = groups@;
        let ghost old_position = position@;
        let j: usize = match position.get(&d) {
            Some(p) => *p,
            None => groups.len(),
        };
        assert(forall|k: int| 0 <= k < j ==> groups@[k].0 != d) by {
            assert forall|k: int| 0 <= k < j implies groups@[k].0 != d by {
                if j < groups@.len() && groups@[k].0 == d {
                    assert(groups@[j as int].0 == d);
                }
                if j == groups@.len() && groups@[k].0 == d {
                    assert(position@.contains_key(groups@[k].0));
                }
            }
        }
        if j < groups.len() {
            let c = groups[j].1;
            assert(c == count_of(prefix, d));
            assert(c <= i) by {
                lemma_count_bounded(prefix, d);
            }
            groups.set(j, (d, c + 1));
            proof {
                lemma_sum_counts_update(old_groups, j as int, (d, (c + 1) as usize));
            }
            assert forall|m: int| 0 <= m < groups@.len() implies position@.contains_key(
                #[trigger] groups@[m].0,
            ) by {
                if m != j {
                    assert(groups@[m] == old_groups[m]);
                }
            }
        } else {
            proof {
                assert(old_groups.push((d, 1usize)).drop_last() =~= old_groups);
            }
            position.insert(d, groups.len());
            groups.push((d, 1));
            assert forall|m: int| 0 <= m < groups@.len() implies position@.contains_key(
                #[trigger] groups@[m].0,
            ) by {
                if m < old_groups.len() {
                    assert(groups@[m] == old_groups[m]);
                    assert(old_position.contains_key(old_groups[m].0));
                }
            }
            assert forall|k: i64| #[trigger] position@.contains_key(k) implies position@[k]
                < groups@.len() && groups@[position@[k] as int].0 == k by {
                if k != d {
                    assert(old_position.contains_key(k));
                    assert(groups@[old_position[k] as int] == old_groups[old_position[k] as int]);
                }
            }
        }
        proof {
            assert forall|m: int| 0 <= m < groups@.len() implies #[trigger] groups@[m].1 == count_of(
                next,
                groups@[m].0,
            ) by {
                lemma_count_of_push(prefix, d, groups@[m].0);
                if m < old_groups.len() && m != j {
                    assert(groups@[m] == old_groups[m]);
                    if m > j {
                        assert(old_groups[j as int].0 == d);
                    }
                    assert(old_groups[m].0 != d);
                } else if m == old_groups.len() {
                    if count_of(prefix, d) > 0 {
                        let p = lemma_count_positive_occurs(prefix, d);
                        let q = choose|q: int| 0 <= q < old_groups.len() && #[trigger] old_groups[q].0 == #[trigger] prefix[p];
                        assert(old_groups[q].0 != d);
                    }
                }
            }
            assert forall|p: int| 0 <= p < next.len() implies exists|q: int|
                0 <= q < groups@.len() && #[trigger] groups@[q].0 == #[trigger] next[p] by {
                if p < prefix.len() {
                    assert(next[p] == prefix[p]);
                    let q = choose|q: int| 0 <= q < old_groups.len() && #[trigger] old_groups[q].0 == #[trigger] prefix[p];
                    assert(groups@[q].0 == old_groups[q].0);
                } else {
                    assert(groups@[j as int].0 == d);
                }
            }
        }
        i = i + 1;
    }
    assert(days@.subrange(0, days@.len() as int) =~= days@);
    groups
}

proof fn lemma_count_positive_occurs<K>(keys: Seq<K>, k: K) -> (p: int)
    requires
        count_of(keys, k) > 0,
    ensures
        0 <= p < keys.len(),
        keys[p] == k,
    decreases keys.len(),
{
    if keys.last() == k {
        keys.len() - 1
    } else {
        let p = lemma_count_positive_occurs(keys.drop_last(), k);
        assert(keys[p] == keys.drop_last()[p]);
        p
    }
}

proof fn lemma_count_bounded<K>(keys: Seq<K>, k: K)
    ensures
        count_of(keys, k) <= keys.len(),
    decreases keys.len(),
{
    if keys.len() > 0 {
        lemma_count_bounded(keys.drop_last(), k);
    }
}

pub open spec fn label_views(groups: Seq<(String, usize)>) -> Seq<(Seq<char>, usize)> {
    groups.map_values(|g: (String, usize)| (g.0@, g.1))
}

pub open spec fn string_views(s: Seq<String>) -> Seq<Seq<char>> {
    s.map_values(|x: String| x@)
}

/// One bucket per distinct label, in the order the labels first occur.
#[verifier::spinoff_prover]
pub fn count_by_label(labels: &Vec<String>) -> (r: Vec<(String, usize)>)
    ensures
        buckets_of(label_views(r@), string_views(labels@)),
        sum_counts(label_views(r@)) == labels@.len(),
        in_first_occurrence_order(label_views(r@), string_views(labels@)),
{
    let mut groups: Vec<(String, usize)> = Vec::new();
    let mut i: usize = 0;
    while i < labels.len()
        invariant
            i <= labels@.len(),
            buckets_of(label_views(groups@), string_views(labels@).subrange(0, i as int)),
            in_first_occurrence_order(label_views(groups@), string_views(labels@).subrange(0, i as int)),
            forall|k: int| 0 <= k < groups@.len() ==> #[trigger] groups@[k].1 >= 1,
            sum_counts(label_views(groups@)) == i,
            groups@.len() <= i,
        decreases labels@.len() - i,
    {
        let d = &labels[i];
        let ghost dv = d@;
        let ghost prefix = string_views(labels@).subrange(0, i as int);
        let ghost next = string_views(labels@).subrange(0, i + 1);
        assert(next =~= prefix.push(dv));
        let ghost old_groups = label_views(groups@);
        let mut j: usize = 0;
        while j < groups.len() && groups[j].0 != *d
            invariant
                j <= groups@.len(),
                dv == d@,
                forall|k: int| 0 <= k < j ==> groups@[k].0@ != dv,
            decreases groups@.len() - j,
        {
            j = j + 1;
        }
        if j < groups.len() {
            let c = groups[j].1;
            assert(old_groups[j as int] == (groups@[j as int].0@, c));
            assert(groups@[j as int].0@ == dv);
            assert(old_groups[j as int].1 == count_of(prefix, old_groups[j as int].0));
            assert(c == count_of(prefix, dv));
            assert(c <= i) by {
                lemma_count_bounded(prefix, dv);
            }
            groups.set(j, (d.clone(), c + 1));
            assert(label_views(groups@) =~= old_groups.update(j as int, (dv, (c + 1) as usize)));
            proof {
                lemma_sum_counts_update(old_groups, j as int, (dv, (c + 1) as usize));
            }
        } else {
            groups.push((d.clone(), 1));
            assert(label_views(groups@) =~= old_groups.push((dv, 1usize)));
            proof {
                assert(old_groups.push((dv, 1usize)).drop_last() =~= old_groups);
            }
        }
        let ghost g = label_views(groups@);
        proof {
            assert forall|m: int| 0 <= m < g.len() implies #[trigger] g[m].1 == count_of(next, g[m].0) by {
                lemma_count_of_push(prefix, dv, g[m].0);
                if m < old_groups.len() && m != j {
                    assert(g[m] == old_groups[m]);
                    if m > j {
                        assert(old_groups[j as int].0 == dv);
                    }
                    assert(old_groups[m].0 != dv);
                } else if m == old_groups.len() {
                    if count_of(prefix, dv) > 0 {
                        let p = lemma_count_positive_occurs(prefix, dv);
                        let q = choose|q: int| 0 <= q < old_groups.len() && #[trigger] old_groups[q].0 == #[trigger] prefix[p];
                        assert(old_groups[q].0 != dv);
                    }
                }
            }
            assert forall|a: int, b: int| 0 <= a < b < g.len() implies g[a].0 != g[b].0 by {
                if b < old_groups.len() {
                    if a != j && b != j {
                        assert(g[a] == old_groups[a] && g[b] == old_groups[b]);
                    } else if a == j {
                        assert(g[b] == old_groups[b]);
                        assert(old_groups[a].0 == dv);
                    } else {
                        assert(g[a] == old_groups[a]);
                        assert(old_groups[b].0 == dv);
                    }
                } else {
                    assert(g[a] == old_groups[a]);
                }
            }
            assert forall|p: int| 0 <= p < next.len() implies exists|q: int|
                0 <= q < g.len() && #[trigger] g[q].0 == #[trigger] next[p] by {
                if p < prefix.len() {
                    assert(next[p] == prefix[p]);
                    let q = choose|q: int| 0 <= q < old_groups.len() && #[trigger] old_groups[q].0 == #[trigger] prefix[p];
                    assert(g[q].0 == old_groups[q].0);
                } else {
                    assert(g[j as int].0 == dv);
                }
            }
            assert forall|a: int, b: int, p: int|
                0 <= a < b < g.len() && 0 <= p < next.len() && next[p] == g[b].0 implies occurs_before(
                next,
                g[a].0,
                p,
            ) by {
                assert(g[a].0 == old_groups[a].0);
                if p < prefix.len() {
                    assert(next[p] == prefix[p]);
                    if b < old_groups.len() {
                        assert(g[b].0 == old_groups[b].0);
                        assert(occurs_before(prefix, old_groups[a].0, p));
                        let q = choose|q: int| 0 <= q < p && prefix[q] == old_groups[a].0;
                        assert(next[q] == prefix[q]);
                    } else {
                        assert(g[b].0 == dv);
                        assert(count_of(prefix, dv) > 0) by {
                            lemma_count_positive_occurs_of(prefix, p);
                        }
                        let q = lemma_count_positive_occurs(prefix, dv);
                        let m = choose|m: int| 0 <= m < old_groups.len() && #[trigger] old_groups[m].0 == #[trigger] prefix[q];
                        assert(old_groups[m].0 != dv);
                    }
                } else {
                    assert(old_groups[a].1 >= 1);
                    assert(old_groups[a].1 == count_of(prefix, old_groups[a].0));
                    let q = lemma_count_positive_occurs(prefix, old_groups[a].0);
                    assert(next[q] == prefix[q]);
                }
            }
        }
        i = i + 1;
    }
    assert(string_views(labels@).subrange(0, labels@.len() as int) =~= string_views(labels@));
    groups
}

/// The bucket with the most plays; among equals, the one that occurs first.
fn largest_bucket(groups: &Vec<(String, usize)>) -> (r: usize)
    requires
        groups@.len() > 0,
    ensures
        r < groups@.len(),
        forall|j: int| 0 <= j < groups@.len() ==> #[trigger] groups@[j].1 <= groups@[r as int].1,
        forall|j: int| 0 <= j < r ==> #[trigger] groups@[j].1 < groups@[r as int].1,
{
    let mut best: usize = 0;
    let mut j: usize = 1;
    while j < groups.len()
        invariant
            1 <= j <= groups@.len(),
            best < j,
            forall|k: int| 0 <= k < j ==> #[trigger] groups@[k].1 <= groups@[best as int].1,
            forall|k: int| 0 <= k < best ==> #[trigger] groups@[k].1 < groups@[best as int].1,
        decreases groups@.len() - j,
    {
        if groups[j].1 > groups[best].1 {
            best = j;
        }
        j = j + 1;
    }
    best
}

/// The local day of each record.
pub open spec fn local_days(s: Seq<RecordView>) -> Seq<i64> {
    s.map_values(|r: RecordView| local_day_of(r.timestamp_utc, r.utc_offset) as i64)
}

/// One number per ISO week: its year times 54 plus its week.
pub open spec fn week_key(w: (int, int)) -> int {
    w.0 * 54 + w.1
}

/// The ISO week of each record, as a `week_key`.
pub open spec fn local_weeks(s: Seq<RecordView>) -> Seq<i64> {
    s.map_values(|r: RecordView| week_key(iso_week_of(local_day_of(r.timestamp_utc, r.utc_offset))) as i64)
}

/// The calendar year of each record.
pub open spec fn local_years(s: Seq<RecordView>) -> Seq<i64> {
    s.map_values(|r: RecordView| year_of(local_day_of(r.timestamp_utc, r.utc_offset)) as i64)
}

/// The month-and-year label of each record.
pub open spec fn month_labels(s: Seq<RecordView>) -> Seq<Seq<char>> {
    s.map_values(|r: RecordView| month_label_of(local_day_of(r.timestamp_utc, r.utc_offset)))
}

/// The days from the oldest record's local day to the newest one's.
pub open spec fn span_days(s: Seq<RecordView>) -> int {
    local_day_of(s[0].timestamp_utc, s[0].utc_offset) - local_day_of(
        s.last().timestamp_utc,
        s.last().utc_offset,
    )
}

/// The span of a newest-first list of records in days: the newest record's
/// local day minus the oldest one's.
pub fn get_total_days(scrobbles: &[SavedScrobble]) -> (r: i64)
    requires
        scrobbles@.len() > 0,
        all_valid(record_views(scrobbles@)),
    ensures
        r == span_days(record_views(scrobbles@)),
{
    let n = scrobbles.len();
    assert(record_views(scrobbles@)[0] == scrobbles@[0]@);
    assert(record_views(scrobbles@)[n - 1] == scrobbles@[n - 1]@);
    let newest = scrobbles[0].date();
    let oldest = scrobbles[n - 1].date();
    newest - oldest
}

/// Statistics over a non-empty saved history.
pub struct Stats {
    /// The number of plays.
    pub total_scrobbles: usize,
    /// One bucket per local day with plays, with its number of plays.
    pub per_day: Vec<(i64, usize)>,
    /// One bucket per ISO week with plays, keyed by `week_key`.
    pub per_week: Vec<(i64, usize)>,
    /// One bucket per month with plays, keyed by its `%B-%Y` label.
    pub per_month: Vec<(String, usize)>,
    /// One bucket per calendar year with plays.
    pub per_year: Vec<(i64, usize)>,
    /// The span of the history in days, newest local day minus oldest.
    pub total_days: i64,
    /// The month with the most plays, as `%B-%Y` renders it.
    pub best_month: String,
    /// The number of plays in that month.
    pub best_month_scrobbles: usize,
}

impl Stats {
    pub fn new(saved: &SavedScrobbles) -> (r: Stats)
        requires
            saved.wf(),
            saved@.len() > 0,
        ensures
            buckets_of(r.per_day@, local_days(saved@)),
            r.total_scrobbles == sum_counts(r.per_day@),
            buckets_of(r.per_week@, local_weeks(saved@)),
            r.total_scrobbles == sum_counts(r.per_week@),
            buckets_of(label_views(r.per_month@), month_labels(saved@)),
            r.total_scrobbles == sum_counts(label_views(r.per_month@)),
            buckets_of(r.per_year@, local_years(saved@)),
            r.total_scrobbles == sum_counts(r.per_year@),
            r.total_scrobbles == saved@.len(),
            r.total_days == span_days(saved@),
            r.best_month_scrobbles == count_of(month_labels(saved@), r.best_month@),
            month_labels(saved@).contains(r.best_month@),
            forall|i: int|
                0 <= i < saved@.len() ==> count_of(month_labels(saved@), #[trigger] month_labels(saved@)[i])
                    <= r.best_month_scrobbles,
            forall|i: int|
                0 <= i < saved@.len() && !occurs_before(month_labels(saved@), r.best_month@, i + 1)
                    ==> count_of(month_labels(saved@), #[trigger] month_labels(saved@)[i])
                    < r.best_month_scrobbles,
    {
        let records = saved.get_saved_scrobbles();
        let ghost s = saved@;
        let mut days: Vec<i64> = Vec::new();
        let mut weeks: Vec<i64> = Vec::new();
        let mut years: Vec<i64> = Vec::new();
        let mut labels: Vec<String> = Vec::new();
        let mut i: usize = 0;
        while i < records.len()
            invariant
                record_views(records@) == s,
                is_saved_set(s),
                i <= records@.len(),
                days@.len() == i,
                labels@.len() == i,
                weeks@.len() == i,
                years@.len() == i,
                forall|k: int| 0 <= k < i ==> #[trigger] days@[k] == local_days(s)[k],
                forall|k: int| 0 <= k < i ==> #[trigger] weeks@[k] == local_weeks(s)[k],
                forall|k: int| 0 <= k < i ==> #[trigger] years@[k] == local_years(s)[k],
                forall|k: int| 0 <= k < i ==> #[trigger] labels@[k]@ == month_labels(s)[k],
            decreases records@.len() - i,
        {
            assert(s[i as int] == records@[i as int]@);
            let day = records[i].date();
            proof {
                crate::time::lemma_local_day_bounds(s[i as int].timestamp_utc, s[i as int].utc_offset);
            }
            let (iso_year, week) = iso_week(day);
            days.push(day);
            weeks.push(iso_year as i64 * 54 + week as i64);
            years.push(calendar_year(day) as i64);
            labels.push(records[i].month_year());
            i = i + 1;
        }
        assert(days@ =~= local_days(s));
        assert(weeks@ =~= local_weeks(s));
        assert(years@ =~= local_years(s));
        assert(string_views(labels@) =~= month_labels(s));
        let per_day = count_by_key(&days);
        let per_week = count_by_key(&weeks);
        let per_year = count_by_key(&years);
        let months = count_by_label(&labels);
        assert(string_views(labels@)[0] == month_labels(s)[0]);
        let ghost first = string_views(labels@)[0];
        assert(exists|j: int| 0 <= j < label_views(months@).len() && #[trigger] label_views(months@)[j].0 == first);
        let best = largest_bucket(&months);
        let ghost lv = label_views(months@);
        assert(lv[best as int] == (months@[best as int].0@, months@[best as int].1));
        assert(month_labels(s).contains(lv[best as int].0)) by {
            if lv[best as int].1 > 0 {
                let p = lemma_count_positive_occurs(month_labels(s), lv[best as int].0);
            } else {
                let j = choose|j: int| 0 <= j < lv.len() && #[trigger] lv[j].0 == first;
                assert(lv[j].1 == count_of(month_labels(s), first));
                let p = lemma_count_positive_occurs_of(month_labels(s), 0);
                assert(lv[j].1 <= lv[best as int].1);
            }
        }
        assert forall|k: int| 0 <= k < s.len() implies count_of(month_labels(s), #[trigger] month_labels(s)[k])
            <= months@[best as int].1 by {
            assert(string_views(labels@)[k] == month_labels(s)[k]);
            let j = choose|j: int| 0 <= j < lv.len() && #[trigger] lv[j].0 == #[trigger] string_views(labels@)[k];
            assert(lv[j].1 == months@[j].1);
        }
        assert forall|k: int|
            0 <= k < s.len() && !occurs_before(month_labels(s), lv[best as int].0, k + 1) implies count_of(
            month_labels(s),
            #[trigger] month_labels(s)[k],
        ) < months@[best as int].1 by {
            let sv = string_views(labels@);
            assert(sv[k] == month_labels(s)[k]);
            let j = choose|j: int| 0 <= j < lv.len() && #[trigger] lv[j].0 == #[trigger] sv[k];
            assert(lv[j].1 == months@[j].1);
            if j == best {
                assert(occurs_before(month_labels(s), lv[best as int].0, k + 1));
            } else if j > best {
                assert(occurs_before(sv, lv[best as int].0, k));
                let q = choose|q: int| 0 <= q < k && sv[q] == lv[best as int].0;
                assert(occurs_before(month_labels(s), lv[best as int].0, k + 1));
            }
        }
        let total_days = get_total_days(records.as_slice());
        Stats {
            total_scrobbles: records.len(),
            per_day,
            total_days,
            best_month: months[best].0.clone(),
            best_month_scrobbles: months[best].1,
            per_week,
            per_month: months,
            per_year,
        }
    }
}

impl SavedScrobbles {
    /// Statistics over this history, which must hold a record.
    pub fn generate_stats(&self) -> (r: Stats)
        requires
            self.wf(),
            self@.len() > 0,
        ensures
            buckets_of(r.per_day@, local_days(self@)),
            r.total_scrobbles == sum_counts(r.per_day@),
            buckets_of(r.per_week@, local_weeks(self@)),
            buckets_of(label_views(r.per_month@), month_labels(self@)),
            buckets_of(r.per_year@, local_years(self@)),
            r.total_scrobbles == self@.len(),
            r.total_days == span_days(self@),
            r.best_month_scrobbles == count_of(month_labels(self@), r.best_month@),
            month_labels(self@).contains(r.best_month@),
            forall|i: int|
                0 <= i < self@.len() ==> count_of(month_labels(self@), #[trigger] month_labels(self@)[i])
                    <= r.best_month_scrobbles,
            forall|i: int|
                0 <= i < self@.len() && !occurs_before(month_labels(self@), r.best_month@, i + 1)
                    ==> count_of(month_labels(self@), #[trigger] month_labels(self@)[i])
                    < r.best_month_scrobbles,
    {
        Stats::new(self)
    }
}

proof fn lemma_count_positive_occurs_of<K>(keys: Seq<K>, p: int)
    requires
        0 <= p < keys.len(),
    ensures
        count_of(keys, keys[p]) > 0,
    decreases keys.len(),
{
    if p < keys.len() - 1 {
        lemma_count_positive_occurs_of(keys.drop_last(), p);
        assert(keys.drop_last()[p] == keys[p]);
    }
}

} // verus!
