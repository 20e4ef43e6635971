//! The saved history: records kept newest-first, each at most once.

use crate::models::{
    all_datable, all_valid, converts_to, is_valid_record, record_views, RecordView,
    SavedScrobble, Track,
};
use crate::time::sort_by_time;
use vstd::prelude::*;

verus! {

/// Every record is at least as recent as those after it.
pub open spec fn newest_first(s: Seq<RecordView>) -> bool {
    forall|i: int, j: int| 0 <= i < j < s.len() ==> s[i].timestamp_utc >= s[j].timestamp_utc
}

/// No record is repeated.
pub open spec fn without_repeats(s: Seq<RecordView>) -> bool {
    forall|i: int, j: int| 0 <= i < j < s.len() ==> s[i] != s[j]
}

/// Every record is strictly more recent than those after it.
pub open spec fn strictly_newest_first(s: Seq<RecordView>) -> bool {
    forall|i: int, j: int| 0 <= i < j < s.len() ==> s[i].timestamp_utc > s[j].timestamp_utc
}

/// The shape a saved history always has.
pub open spec fn is_saved_set(s: Seq<RecordView>) -> bool {
    newest_first(s) && without_repeats(s) && all_valid(s)
}

/// `s` holds exactly the records of `a` and of `b`.
pub open spec fn holds_records_of(s: Seq<RecordView>, a: Seq<RecordView>, b: Seq<RecordView>) -> bool {
    forall|x: RecordView| s.contains(x) <==> (a.contains(x) || b.contains(x))
}

/// Every record of `b` is among those of `s`.
pub open spec fn already_held(s: Seq<RecordView>, b: Seq<RecordView>) -> bool {
    forall|x: RecordView| b.contains(x) ==> s.contains(x)
}

/// Every record of `b` is the saved form of the entry at the same place in `t`.
pub open spec fn converted_from(b: Seq<RecordView>, t: Seq<Track>) -> bool {
    b.len() == t.len() && forall|i: int| 0 <= i < b.len() ==> converts_to(t[i], #[trigger] b[i])
}

/// Whether the records are already newest-first without repeats.
fn is_saved_order(records: &Vec<SavedScrobble>) -> (r: bool)
    ensures
        r == (newest_first(record_views(records@)) && without_repeats(record_views(records@))),
{
    let ghost v = record_views(records@);
    let n = records.len();
    let mut i: usize = 1;
    if n == 0 {
        return true;
    }
    while i < n
        invariant
            1 <= i <= n,
            n == records@.len(),
            v == record_views(records@),
            newest_first(v.subrange(0, i as int)),
            without_repeats(v.subrange(0, i as int)),
        decreases n - i,
    {
        if records[i - 1].timestamp_utc < records[i].timestamp_utc {
            assert(v[i - 1].timestamp_utc < v[i as int].timestamp_utc);
            return false;
        }
        let mut j: usize = i;
        let mut done = false;
        while j > 0 && !done
            invariant
                j <= i < n,
                n == records@.len(),
                v == record_views(records@),
                forall|k: int| j <= k < i ==> v[k] != v[i as int],
                done ==> forall|k: int| 0 <= k < j ==> v[k] != v[i as int],
                v[i - 1].timestamp_utc >= v[i as int].timestamp_utc,
                newest_first(v.subrange(0, i as int)),
            decreases j + if done {
                0int
            } else {
                1int
            },
        {
            if records[j - 1].timestamp_utc != records[i].timestamp_utc {
                assert forall|k: int| 0 <= k < j implies v[k] != v[i as int] by {
                    assert(v.subrange(0, i as int)[k] == v[k]);
                    assert(v.subrange(0, i as int)[j - 1] == v[j - 1]);
                    assert(v.subrange(0, i as int)[i - 1] == v[i - 1]);
                    if j - 1 < i - 1 {
                        assert(v[j - 1].timestamp_utc >= v[i - 1].timestamp_utc);
                    }
                    if k < j - 1 {
                        assert(v[k].timestamp_utc >= v[j - 1].timestamp_utc);
                    }
                }
                done = true;
            } else if records[j - 1].same_record(&records[i]) {
                assert(v[j - 1] == v[i as int]);
                assert(!without_repeats(v));
                return false;
            } else {
                j = j - 1;
            }
        }
        let ghost w = v.subrange(0, i + 1);
        assert forall|a: int, b: int| 0 <= a < b < i + 1 implies #[trigger] w[a].timestamp_utc
            >= #[trigger] w[b].timestamp_utc by {
            assert(w[a] == v[a]);
            assert(w[b] == v[b]);
            if b < i {
                assert(v.subrange(0, i as int)[a] == v[a]);
                assert(v.subrange(0, i as int)[b] == v[b]);
            } else if a < i - 1 {
                assert(v.subrange(0, i as int)[a] == v[a]);
                assert(v.subrange(0, i as int)[i - 1] == v[i - 1]);
            }
        }
        assert forall|a: int, b: int| 0 <= a < b < i + 1 implies #[trigger] w[a] != #[trigger] w[b] by {
            assert(w[a] == v[a]);
            assert(w[b] == v[b]);
            if b < i {
                assert(v.subrange(0, i as int)[a] == v[a]);
                assert(v.subrange(0, i as int)[b] == v[b]);
            }
        }
        i = i + 1;
    }
    assert(v.subrange(0, n as int) =~= v);
    true
}

/// Orders records newest-first and drops repeated ones; records already in
/// that shape are left as they are.
fn arrange(records: Vec<SavedScrobble>) -> (r: Vec<SavedScrobble>)
    requires
        all_valid(record_views(records@)),
    ensures
        is_saved_set(record_views(r@)),
        forall|x: RecordView| record_views(r@).contains(x) <==> record_views(records@).contains(x),
        is_saved_set(record_views(records@)) ==> r@ == records@,
{
    broadcast use vstd::seq_lib::group_to_multiset_ensures;

    if is_saved_order(&records) {
        return records;
    }
    let ghost input = records@;
    let mut v = records;
    sort_by_time(&mut v);
    let ghost sorted = v@;
    assert forall|x: RecordView| record_views(sorted).contains(x) <==> record_views(
        input,
    ).contains(x) by {
        if record_views(sorted).contains(x) {
            let i = choose|i: int| 0 <= i < record_views(sorted).len() && record_views(sorted)[i] == x;
            assert(sorted.contains(sorted[i]));
            assert(sorted.to_multiset().count(sorted[i]) > 0);
            assert(input.contains(sorted[i]));
            let k = choose|k: int| 0 <= k < input.len() && input[k] == sorted[i];
            assert(record_views(input)[k] == x);
        }
        if record_views(input).contains(x) {
            let i = choose|i: int| 0 <= i < record_views(input).len() && record_views(input)[i] == x;
            assert(input.contains(input[i]));
            assert(input.to_multiset().count(input[i]) > 0);
            assert(sorted.contains(input[i]));
            let k = choose|k: int| 0 <= k < sorted.len() && sorted[k] == input[i];
            assert(record_views(sorted)[k] == x);
        }
    }
    let mut out: Vec<SavedScrobble> = Vec::new();
    while v.len() > 0
        invariant
            v@ == sorted.subrange(0, v@.len() as int),
            v@.len() <= sorted.len(),
            forall|i: int, j: int|
                0 <= i < j < sorted.len() ==> sorted[i].timestamp_utc <= sorted[j].timestamp_utc,
            all_valid(record_views(records@)),
            forall|x: RecordView| record_views(sorted).contains(x) <==> record_views(
                records@,
            ).contains(x),
            newest_first(record_views(out@)),
            without_repeats(record_views(out@)),
            all_valid(record_views(out@)),
            forall|x: RecordView|
                record_views(out@).contains(x) <==> record_views(
                    sorted.subrange(v@.len() as int, sorted.len() as int),
                ).contains(x),
            forall|k: int, j: int|
                0 <= k < out@.len() && 0 <= j < v@.len() ==> out@[k].timestamp_utc
                    >= sorted[j].timestamp_utc,
        decreases v@.len(),
    {
        let ghost n = v@.len() as int;
        let rec = match v.pop() {
            Some(r) => r,
            None => {
                return out;
            },
        };
        assert(rec == sorted[n - 1]);
        assert(record_views(records@).contains(rec@)) by {
            assert(record_views(sorted)[n - 1] == rec@);
            assert(record_views(sorted).contains(rec@));
        }
        let ghost rv = rec@;
        // Records equal to `rec` share its timestamp, so they sit in the run at the end of `out`.
        let mut j = out.len();
        let mut found = false;
        let mut done = false;
        while j > 0 && !found && !done
            invariant
                j <= out@.len(),
                rv == rec@,
                newest_first(record_views(out@)),
                forall|k: int| 0 <= k < out@.len() ==> out@[k].timestamp_utc >= rec.timestamp_utc,
                forall|k: int| j <= k < out@.len() ==> out@[k]@ != rv,
                found ==> record_views(out@).contains(rv),
                done ==> forall|k: int| 0 <= k < j ==> out@[k]@ != rv,
            decreases 2 * j + if found || done {
                0int
            } else {
                1int
            },
        {
            if out[j - 1].timestamp_utc != rec.timestamp_utc {
                assert forall|k: int| 0 <= k < j implies out@[k]@ != rv by {
                    assert(record_views(out@)[k].timestamp_utc >= record_views(out@)[j
                        - 1].timestamp_utc);
                }
                done = true;
            } else if out[j - 1].same_record(&rec) {
                assert(record_views(out@)[j - 1] == rv);
                found = true;
            } else {
                j = j - 1;
            }
        }
        assert(!found ==> forall|k: int| 0 <= k < out@.len() ==> out@[k]@ != rv);
        let ghost before = out@;
        assert(forall|x: RecordView|
            record_views(before).contains(x) <==> record_views(
                sorted.subrange(n, sorted.len() as int),
            ).contains(x));
        assert(sorted.subrange(n - 1, sorted.len() as int) =~= seq![rec].add(
            sorted.subrange(n, sorted.len() as int),
        ));
        assert forall|x: RecordView|
            record_views(sorted.subrange(n - 1, sorted.len() as int)).contains(x) <==> (x == rv
                || record_views(sorted.subrange(n, sorted.len() as int)).contains(x)) by {
            let whole = record_views(sorted.subrange(n - 1, sorted.len() as int));
            let rest = record_views(sorted.subrange(n, sorted.len() as int));
            if whole.contains(x) {
                let i = choose|i: int| 0 <= i < whole.len() && whole[i] == x;
                if i > 0 {
                    assert(rest[i - 1] == x);
                }
            }
            if rest.contains(x) {
                let i = choose|i: int| 0 <= i < rest.len() && rest[i] == x;
                assert(whole[i + 1] == x);
            }
            if x == rv {
                assert(whole[0] == x);
            }
        }
        if found {
            assert forall|x: RecordView|
                record_views(out@).contains(x) <==> record_views(
                    sorted.subrange(n - 1, sorted.len() as int),
                ).contains(x) by {
                if x == rv {
                    assert(record_views(out@).contains(x));
                }
            }
        } else {
            assert(!record_views(out@).contains(rv)) by {
                if record_views(out@).contains(rv) {
                    let i = choose|i: int|
                        0 <= i < record_views(out@).len() && record_views(out@)[i] == rv;
                    assert(out@[i]@ == rv);
                }
            }
            out.push(rec);
            assert(record_views(out@) =~= record_views(before).push(rv));
            assert forall|x: RecordView|
                record_views(out@).contains(x) <==> (x == rv || record_views(before).contains(
                    x,
                )) by {
                if record_views(out@).contains(x) {
                    let i = choose|i: int|
                        0 <= i < record_views(out@).len() && record_views(out@)[i] == x;
                    if i < before.len() {
                        assert(record_views(before)[i] == x);
                    }
                }
                if record_views(before).contains(x) {
                    let i = choose|i: int|
                        0 <= i < record_views(before).len() && record_views(before)[i] == x;
                    assert(record_views(out@)[i] == x);
                }
                if x == rv {
                    assert(record_views(out@)[before.len() as int] == x);
                }
            }
            assert forall|x: RecordView|
                record_views(out@).contains(x) <==> record_views(
                    sorted.subrange(n - 1, sorted.len() as int),
                ).contains(x) by {
                if record_views(out@).contains(x) {
                    assert(x == rv || record_views(before).contains(x));
                }
                if record_views(sorted.subrange(n - 1, sorted.len() as int)).contains(x) {
                    assert(x == rv || record_views(sorted.subrange(n, sorted.len() as int)).contains(x));
                    if x != rv {
                        assert(record_views(before).contains(x));
                    }
                }
                if record_views(before).contains(x) {
                    assert(record_views(sorted.subrange(n, sorted.len() as int)).contains(x));
                }
            }
            assert(is_valid_record(rv)) by {
                let i = choose|i: int|
                    0 <= i < record_views(records@).len() && record_views(records@)[i] == rv;
                assert(is_valid_record(record_views(records@)[i]));
            }
        }
        assert(v@.len() == n - 1);
        assert forall|x: RecordView|
            record_views(out@).contains(x) <==> record_views(
                sorted.subrange(n - 1, sorted.len() as int),
            ).contains(x) by {
            if x == rv {
                assert(record_views(
                    sorted.subrange(n - 1, sorted.len() as int),
                ).contains(x));
            }
        }
    }
    assert(sorted.subrange(0, sorted.len() as int) =~= sorted);
    out
}


/// `s` is the history built from the records `input`: it holds exactly
/// them, newest-first, none twice; and where `input` already has that shape,
/// it is `input` itself.
pub open spec fn arranged_from(input: Seq<RecordView>, s: Seq<RecordView>) -> bool {
    &&& is_saved_set(s)
    &&& forall|x: RecordView| s.contains(x) <==> input.contains(x)
    &&& is_saved_set(input) ==> s == input
}

/// Writing a history's records out in order and building a history again
/// from the records read back gives the same history: the same records in the
/// same order.
pub proof fn lemma_reload_round_trip(saved: Seq<RecordView>, reloaded: Seq<RecordView>)
    requires
        is_saved_set(saved),
        arranged_from(saved, reloaded),
    ensures
        reloaded == saved,
{
}

/// No two different records share an instant.
pub open spec fn distinct_instants(s: Seq<RecordView>) -> bool {
    forall|i: int, j: int|
        0 <= i < s.len() && 0 <= j < s.len() && s[i].timestamp_utc == s[j].timestamp_utc ==> s[i]
            == s[j]
}

/// Merging a batch into an empty history and then a second batch, which may
/// overlap the first at its boundary, leaves a history that holds the records of
/// both batches, none of them twice, newest-first. Where no two different
/// records of the batches share an instant, every record is strictly newer than
/// the next.
pub proof fn lemma_two_batches_merge(
    b1: Seq<RecordView>,
    b2: Seq<RecordView>,
    s1: Seq<RecordView>,
    s2: Seq<RecordView>,
)
    requires
        is_saved_set(s1),
        holds_records_of(s1, Seq::empty(), b1),
        is_saved_set(s2),
        holds_records_of(s2, s1, b2),
    ensures
        without_repeats(s2),
        newest_first(s2),
        holds_records_of(s2, b1, b2),
        distinct_instants(b1 + b2) ==> strictly_newest_first(s2),
{
    assert forall|x: RecordView| s2.contains(x) <==> (b1.contains(x) || b2.contains(x)) by {
        if s1.contains(x) {
            assert(b1.contains(x));
        }
        if b1.contains(x) {
            assert(s1.contains(x));
        }
    }
    if distinct_instants(b1 + b2) {
        assert forall|i: int, j: int| 0 <= i < j < s2.len() implies s2[i].timestamp_utc
            > s2[j].timestamp_utc by {
            let b = b1 + b2;
            assert(s2.contains(s2[i]));
            assert(s2.contains(s2[j]));
            assert(b.contains(s2[i])) by {
                if b1.contains(s2[i]) {
                    let k = choose|k: int| 0 <= k < b1.len() && b1[k] == s2[i];
                    assert(b[k] == s2[i]);
                } else {
                    let k = choose|k: int| 0 <= k < b2.len() && b2[k] == s2[i];
                    assert(b[b1.len() + k] == s2[i]);
                }
            }
            assert(b.contains(s2[j])) by {
                if b1.contains(s2[j]) {
                    let k = choose|k: int| 0 <= k < b1.len() && b1[k] == s2[j];
                    assert(b[k] == s2[j]);
                } else {
                    let k = choose|k: int| 0 <= k < b2.len() && b2[k] == s2[j];
                    assert(b[b1.len() + k] == s2[j]);
                }
            }
            let p = choose|p: int| 0 <= p < b.len() && b[p] == s2[i];
            let q = choose|q: int| 0 <= q < b.len() && b[q] == s2[j];
            assert(s2[i] != s2[j]);
        }
    }
}

/// A saved history: records newest-first, none repeated.
pub struct SavedScrobbles {
    saved_scrobbles: Vec<SavedScrobble>,
}

impl View for SavedScrobbles {
    type V = Seq<RecordView>;

    closed spec fn view(&self) -> Seq<RecordView> {
        record_views(self.saved_scrobbles@)
    }
}

impl SavedScrobbles {
    pub open spec fn wf(&self) -> bool {
        is_saved_set(self@)
    }

    pub fn default() -> (r: SavedScrobbles)
        ensures
            r.wf(),
            r@.len() == 0,
    {
        let r = SavedScrobbles { saved_scrobbles: Vec::new() };
        assert(r@ =~= Seq::<RecordView>::empty());
        r
    }

    /// A history of the given records, ordered newest-first, repeats dropped;
    /// records already in that shape are kept as they are, in their order.
    pub fn new(saved_scrobbles: Vec<SavedScrobble>) -> (r: SavedScrobbles)
        requires
            all_valid(record_views(saved_scrobbles@)),
        ensures
            r.wf(),
            arranged_from(record_views(saved_scrobbles@), r@),
    {
        let r = SavedScrobbles { saved_scrobbles: arrange(saved_scrobbles) };
        assert(is_saved_set(record_views(saved_scrobbles@)) ==> r@ == record_views(saved_scrobbles@));
        r
    }

    /// A history of the saved forms of the given entries.
    pub fn from_scrobbles(scrobbles: &[Track]) -> (r: SavedScrobbles)
        requires
            all_datable(scrobbles@),
        ensures
            r.wf(),
            exists|b: Seq<RecordView>|
                converted_from(b, scrobbles@) && #[trigger] holds_records_of(
                    r@,
                    Seq::empty(),
                    b,
                ),
    {
        let converted = SavedScrobble::from_scrobbles(scrobbles);
        let r = SavedScrobbles::new(converted);
        assert(converted_from(record_views(converted@), scrobbles@));
        assert(holds_records_of(r@, Seq::empty(), record_views(converted@)));
        r
    }

    /// Whether the history holds the given record.
    pub fn holds(&self, record: &SavedScrobble) -> (r: bool)
        ensures
            r == self@.contains(record@),
    {
        let mut i: usize = 0;
        while i < self.saved_scrobbles.len()
            invariant
                i <= self.saved_scrobbles@.len(),
                forall|k: int| 0 <= k < i ==> self@[k] != record@,
            decreases self.saved_scrobbles@.len() - i,
        {
            if self.saved_scrobbles[i].same_record(record) {
                assert(self@[i as int] == record@);
                return true;
            }
            i = i + 1;
        }
        false
    }

    /// Whether the history holds every one of the given records.
    pub fn holds_all(&self, records: &Vec<SavedScrobble>) -> (r: bool)
        ensures
            r == forall|x: RecordView| record_views(records@).contains(x) ==> self@.contains(x),
    {
        let mut i: usize = 0;
        while i < records.len()
            invariant
                i <= records@.len(),
                forall|k: int| 0 <= k < i ==> self@.contains(#[trigger] record_views(records@)[k]),
            decreases records@.len() - i,
        {
            if !self.holds(&records[i]) {
                assert(record_views(records@)[i as int] == records@[i as int]@);
                assert(record_views(records@).contains(records@[i as int]@));
                return false;
            }
            i = i + 1;
        }
        assert forall|x: RecordView| record_views(records@).contains(x) implies self@.contains(x) by {
            let k = choose|k: int| 0 <= k < record_views(records@).len() && record_views(records@)[k] == x;
        }
        true
    }

    /// Adds the given records to the history, keeping it newest-first and
    /// dropping records it already holds. Records the history already holds,
    /// an empty batch among them, leave it exactly as it was.
    pub fn merge(&mut self, records: Vec<SavedScrobble>)
        requires
            old(self).wf(),
            all_valid(record_views(records@)),
        ensures
            final(self).wf(),
            holds_records_of(final(self)@, old(self)@, record_views(records@)),
            (forall|x: RecordView| record_views(records@).contains(x) ==> old(self)@.contains(x))
                ==> final(self)@ == old(self)@,
            records@.len() == 0 ==> final(self)@ == old(self)@,
    {
        if self.holds_all(&records) {
            return;
        }
        let mut all = Vec::new();
        std::mem::swap(&mut all, &mut self.saved_scrobbles);
        let ghost kept = all@;
        let mut added = records;
        let ghost fresh = added@;
        all.append(&mut added);
        assert(record_views(all@) =~= record_views(kept) + record_views(fresh));
        assert forall|x: RecordView|
            record_views(all@).contains(x) <==> (record_views(kept).contains(x) || record_views(
                fresh,
            ).contains(x)) by {
            let a = record_views(kept);
            let b = record_views(fresh);
            if (a + b).contains(x) {
                let i = choose|i: int| 0 <= i < (a + b).len() && (a + b)[i] == x;
                if i < a.len() {
                    assert(a[i] == x);
                } else {
                    assert(b[i - a.len()] == x);
                }
            }
            if a.contains(x) {
                let i = choose|i: int| 0 <= i < a.len() && a[i] == x;
                assert((a + b)[i] == x);
            }
            if b.contains(x) {
                let i = choose|i: int| 0 <= i < b.len() && b[i] == x;
                assert((a + b)[a.len() + i] == x);
            }
        }
        assert(all_valid(record_views(all@))) by {
            assert forall|i: int| 0 <= i < record_views(all@).len() implies is_valid_record(
                #[trigger] record_views(all@)[i],
            ) by {
                if i < kept.len() {
                    assert(record_views(kept)[i] == record_views(all@)[i]);
                } else {
                    assert(record_views(fresh)[i - kept.len()] == record_views(all@)[i]);
                }
            }
        }
        self.saved_scrobbles = arrange(all);
    }

    /// Adds the saved forms of the given entries to the history: the one way
    /// the history grows.
    pub fn append_new_scrobbles(&mut self, new_scrobbles: &[Track])
        requires
            old(self).wf(),
            all_datable(new_scrobbles@),
        ensures
            final(self).wf(),
            exists|b: Seq<RecordView>|
                converted_from(b, new_scrobbles@) && #[trigger] holds_records_of(
                    final(self)@,
                    old(self)@,
                    b,
                ) && (already_held(old(self)@, b) ==> final(self)@ == old(self)@),
            new_scrobbles@.len() == 0 ==> final(self)@ == old(self)@,
    {
        let converted = SavedScrobble::from_scrobbles(new_scrobbles);
        let ghost b = record_views(converted@);
        assert(converted_from(b, new_scrobbles@));
        self.merge(converted);
        assert(converted_from(b, new_scrobbles@) && holds_records_of(final(self)@, old(self)@, b) && (
        already_held(old(self)@, b) ==> final(self)@ == old(self)@));
    }

    /// The newest record, if there is one.
    pub fn most_recent_scrobble(&self) -> (r: Option<&SavedScrobble>)
        ensures
            self@.len() == 0 <==> r is None,
            r is Some ==> r->0@ == self@[0],
    {
        if self.saved_scrobbles.len() == 0 {
            None
        } else {
            Some(&self.saved_scrobbles[0])
        }
    }

    pub fn total_saved_scrobbles(&self) -> (r: usize)
        ensures
            r == self@.len(),
    {
        self.saved_scrobbles.len()
    }

    pub fn is_empty(&self) -> (r: bool)
        ensures
            r == (self@.len() == 0),
    {
        self.saved_scrobbles.len() == 0
    }

    /// The records, newest first.
    pub fn get_saved_scrobbles(&self) -> (r: &Vec<SavedScrobble>)
        ensures
            record_views(r@) == self@,
    {
        &self.saved_scrobbles
    }
}

} // verus!
