//! What a fetch asks Last.fm for: the page, the page size and the time window,
//! and whether the saved total afterwards disagrees with the profile.

use crate::commands::Fetch;
use crate::lastfm::MAX_LIMIT;
use crate::saved_scrobbles::{newest_first, SavedScrobbles};
use crate::models::RecordView;
use vstd::prelude::*;

verus! {

/// The first fetch after a saved history starts this many seconds after its
/// newest record, so that the record is not fetched again.
pub const BOUNDARY_EPSILON_SECONDS: i64 = 9;

/// The page a fetch starts at: the requested one, or 1 where none or no
/// positive page is given.
pub open spec fn first_page(page: Option<i32>) -> int {
    match page {
        Some(p) => if p <= 0 {
            1
        } else {
            p as int
        },
        None => 1,
    }
}

/// The page size of a fetch: the requested one up to the service's maximum,
/// and the maximum where none or no positive size is given.
pub open spec fn page_limit(limit: Option<i32>) -> int {
    match limit {
        Some(l) => if l <= 0 || l > MAX_LIMIT {
            MAX_LIMIT as int
        } else {
            l as int
        },
        None => MAX_LIMIT as int,
    }
}

/// The instant just after a saved record's, at which an incremental fetch starts.
pub open spec fn after_boundary(t: int) -> int {
    if t <= i64::MAX - BOUNDARY_EPSILON_SECONDS {
        t + BOUNDARY_EPSILON_SECONDS
    } else {
        i64::MAX as int
    }
}

/// The earliest instant a fetch asks for: the start of the current day where
/// that window, or a fresh file, is asked for; otherwise just after the newest
/// saved record where there is one; otherwise the requested lower bound.
pub open spec fn fetch_start(current_day: bool, day_start: int, latest_saved: Option<i64>, from: int) -> int {
    if current_day {
        day_start
    } else {
        match latest_saved {
            Some(t) => after_boundary(t as int),
            None => from,
        }
    }
}

pub fn normalize_page(page: Option<i32>) -> (r: i32)
    ensures
        r == first_page(page),
        r >= 1,
{
    match page {
        Some(p) => if p <= 0 {
            1
        } else {
            p
        },
        None => 1,
    }
}

pub fn normalize_limit(limit: Option<i32>) -> (r: i32)
    ensures
        r == page_limit(limit),
        1 <= r <= MAX_LIMIT,
{
    match limit {
        Some(l) => if l <= 0 || l > MAX_LIMIT {
            MAX_LIMIT
        } else {
            l
        },
        None => MAX_LIMIT,
    }
}

/// `current_day` holds where the window is the current day or a fresh file.
pub fn min_timestamp(current_day: bool, day_start: i64, latest_saved: Option<i64>, from: i64) -> (r: i64)
    ensures
        r == fetch_start(current_day, day_start as int, latest_saved, from as int),
{
    if current_day {
        day_start
    } else {
        match latest_saved {
            Some(t) => if t <= i64::MAX - BOUNDARY_EPSILON_SECONDS {
                t + BOUNDARY_EPSILON_SECONDS
            } else {
                i64::MAX
            },
            None => from,
        }
    }
}

/// The timestamp of the newest saved record, if there is one.
pub fn latest_saved_timestamp(saved: &SavedScrobbles) -> (r: Option<i64>)
    requires
        saved.wf(),
    ensures
        saved@.len() == 0 <==> r is None,
        r is Some ==> r->0 == saved@[0].timestamp_utc,
{
    match saved.most_recent_scrobble() {
        Some(s) => Some(s.timestamp_utc),
        None => None,
    }
}

/// Where the history comes from: an incremental fetch starts just after the
/// newest saved record, which is the greatest timestamp of the saved set.
pub proof fn lemma_incremental_fetch_start(saved: Seq<RecordView>, day_start: int, from: int)
    requires
        newest_first(saved),
        saved.len() > 0,
        i64::MIN <= saved[0].timestamp_utc <= i64::MAX - BOUNDARY_EPSILON_SECONDS,
    ensures
        fetch_start(false, day_start, Some(saved[0].timestamp_utc as i64), from)
            == saved[0].timestamp_utc + BOUNDARY_EPSILON_SECONDS,
        forall|i: int| 0 <= i < saved.len() ==> #[trigger] saved[i].timestamp_utc <= saved[0].timestamp_utc,
{
}

/// The parameters of one fetch.
pub struct FetchWindow {
    pub page: i32,
    pub limit: i32,
    pub from: i64,
    pub to: i64,
}

/// Resolves a fetch command against the saved history's newest timestamp,
/// the current time, and the start of the current local day. A fresh file and
/// a current-day fetch both start at the start of the day.
pub fn plan_fetch(f: &Fetch, latest_saved: Option<i64>, now: i64, day_start: i64) -> (r: FetchWindow)
    ensures
        r.page == first_page(f.page),
        r.limit == page_limit(f.limit),
        r.from == fetch_start(
            f.new_file || f.current_day,
            day_start as int,
            latest_saved,
            match f.from {
                Some(v) => v as int,
                None => 0,
            },
        ),
        f.new_file || f.current_day ==> r.from == day_start,
        r.to == match f.to {
            Some(v) => v,
            None => now,
        },
{
    let from = match f.from {
        Some(v) => v,
        None => 0,
    };
    FetchWindow {
        page: normalize_page(f.page),
        limit: normalize_limit(f.limit),
        from: min_timestamp(f.new_file || f.current_day, day_start, latest_saved, from),
        to: match f.to {
            Some(v) => v,
            None => now,
        },
    }
}

/// Whether the saved total disagrees with the play count the profile reports;
/// a current-day fetch is not expected to agree.
pub fn is_drift(saved_total: usize, play_count: i32, current_day: bool) -> (r: bool)
    ensures
        r == (!current_day && saved_total as int != play_count as int),
{
    !current_day && (play_count < 0 || saved_total != play_count as usize)
}

} // verus!
