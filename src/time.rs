//! Instants and calendar days, and the calls into chrono that give them meaning
//! in the host's time zone.

use chrono::{Datelike, TimeZone};
use vstd::prelude::*;

verus! {

/// The start of the second day of chrono's calendar (-262143-01-02T00:00:00Z),
/// as a Unix timestamp.
pub const EARLIEST_TIMESTAMP: i64 = -8_334_601_228_800;

/// The end of the second-to-last day of chrono's calendar
/// (+262142-12-30T23:59:59Z), as a Unix timestamp.
pub const LATEST_TIMESTAMP: i64 = 8_210_266_790_399;

pub const SECONDS_PER_DAY: i64 = 86_400;

/// The local day (counted from 1970-01-01) of the earliest supported instant,
/// in any zone: the first day of chrono's calendar.
pub const EARLIEST_DAY: i64 = -96_465_293;

/// The local day (counted from 1970-01-01) of the latest supported instant,
/// in any zone: the last day of chrono's calendar.
pub const LATEST_DAY: i64 = 95_026_236;

/// Instants that fall within chrono's calendar in every time zone: one day
/// inside each of its ends.
pub open spec fn is_supported_timestamp(t: int) -> bool {
    EARLIEST_TIMESTAMP <= t <= LATEST_TIMESTAMP
}

/// An offset from UTC that a time zone can have: strictly within one day.
pub open spec fn is_utc_offset(offset: int) -> bool {
    -SECONDS_PER_DAY < offset < SECONDS_PER_DAY
}

/// The calendar day, counted from 1970-01-01, on which the instant `timestamp`
/// falls in a zone `offset` seconds east of UTC.
pub open spec fn local_day_of(timestamp: int, offset: int) -> int {
    (timestamp + offset) / (SECONDS_PER_DAY as int)
}

pub proof fn lemma_local_day_bounds(timestamp: int, offset: int)
    requires
        is_supported_timestamp(timestamp),
        is_utc_offset(offset),
    ensures
        EARLIEST_DAY <= local_day_of(timestamp, offset) <= LATEST_DAY,
{
    assert(EARLIEST_DAY <= local_day_of(timestamp, offset) <= LATEST_DAY) by (nonlinear_arith)
        requires
            EARLIEST_TIMESTAMP <= timestamp <= LATEST_TIMESTAMP,
            -SECONDS_PER_DAY < offset < SECONDS_PER_DAY,
            SECONDS_PER_DAY == 86_400,
            EARLIEST_TIMESTAMP == -8_334_601_228_800,
            LATEST_TIMESTAMP == 8_210_266_790_399,
            EARLIEST_DAY == -96_465_293,
            LATEST_DAY == 95_026_236,
    {
    }
}

/// The local day of an instant, for an offset that a zone can have.
pub fn local_day(timestamp: i64, offset: i32) -> (r: i64)
    requires
        is_supported_timestamp(timestamp as int),
        is_utc_offset(offset as int),
    ensures
        r == local_day_of(timestamp as int, offset as int),
        EARLIEST_DAY <= r <= LATEST_DAY,
{
    proof {
        lemma_local_day_bounds(timestamp as int, offset as int);
    }
    let shifted = timestamp + offset as i64;
    match shifted.checked_div_euclid(SECONDS_PER_DAY) {
        Some(d) => d,
        None => 0,
    }
}

/// The name of a calendar month and its year, as `%B-%Y` renders them.
pub uninterp spec fn month_label_of(day: int) -> Seq<char>;

/// Relies on chrono's `NaiveDate::from_epoch_days` and its `%B-%Y`
/// formatting: the English month name and the year of the local day `day`
/// (counted from 1970-01-01). The result depends on the day alone.
#[verifier::external_body]
pub(crate) fn month_year_label(day: i64) -> (r: String)
    requires
        EARLIEST_DAY <= day <= LATEST_DAY,
    ensures
        r@ == month_label_of(day as int),
{
    let date = chrono::NaiveDate::from_epoch_days(day as i32).unwrap();
    date.format("%B-%Y").to_string()
}

/// The proleptic Gregorian year of a day counted from 1970-01-01.
pub uninterp spec fn year_of(day: int) -> int;

/// Relies on chrono's `NaiveDate::from_epoch_days` and `Datelike::year`: the
/// calendar year of the local day `day` (counted from 1970-01-01).
#[verifier::external_body]
pub(crate) fn calendar_year(day: i64) -> (r: i32)
    requires
        EARLIEST_DAY <= day <= LATEST_DAY,
    ensures
        r == year_of(day as int),
{
    chrono::NaiveDate::from_epoch_days(day as i32).unwrap().year()
}

/// The ISO 8601 week-numbering year and week of a day counted from 1970-01-01.
pub uninterp spec fn iso_week_of(day: int) -> (int, int);

/// Relies on chrono's `NaiveDate::from_epoch_days` and `Datelike::iso_week`:
/// the ISO year and week (1 to 53, as `IsoWeek::week` documents) of the local
/// day `day` (counted from 1970-01-01).
#[verifier::external_body]
pub(crate) fn iso_week(day: i64) -> (r: (i32, u32))
    requires
        EARLIEST_DAY <= day <= LATEST_DAY,
    ensures
        (r.0 as int, r.1 as int) == iso_week_of(day as int),
        1 <= r.1 <= 53,
{
    let week = chrono::NaiveDate::from_epoch_days(day as i32).unwrap().iso_week();
    (week.year(), week.week())
}

/// Relies on chrono's `Local` time zone (`TimeZone::offset_from_utc_datetime`):
/// the host zone's offset east of UTC, in seconds, at the instant `timestamp`.
/// chrono's `FixedOffset` is always strictly within one day.
#[verifier::external_body]
pub(crate) fn local_offset_at(timestamp: i64) -> (r: i32)
    requires
        is_supported_timestamp(timestamp as int),
    ensures
        is_utc_offset(r as int),
{
    let utc = chrono::DateTime::from_timestamp(timestamp, 0).unwrap();
    chrono::Local.offset_from_utc_datetime(&utc.naive_utc()).local_minus_utc()
}

/// Relies on chrono's `Utc::now`: the current time as a Unix timestamp in seconds.
#[verifier::external_body]
pub fn get_current_unix_timestamp() -> (r: i64) {
    chrono::Utc::now().timestamp()
}

/// The instant at which the local day holding `now` began, in a zone `offset`
/// seconds east of UTC.
pub fn start_of_local_day(now: i64, offset: i32) -> (r: i64)
    requires
        is_supported_timestamp(now as int),
        is_utc_offset(offset as int),
    ensures
        r == local_day_of(now as int, offset as int) * SECONDS_PER_DAY - offset,
        r <= now < r + SECONDS_PER_DAY,
{
    let day = local_day(now, offset);
    proof {
        let s = now as int + offset as int;
        assert(day * 86_400 <= s < day * 86_400 + 86_400) by (nonlinear_arith)
            requires
                day == s / 86_400,
        {
        }
    }
    day * SECONDS_PER_DAY - offset as i64
}

/// Values placed in time, which can be ordered by their instant.
pub trait Timed {
    spec fn time_of(&self) -> int;

    fn time_key(&self) -> (r: i64)
        ensures
            r == self.time_of(),
    ;
}

/// Relies on `slice::sort_by_key`: a stable sort that orders the items by
/// ascending instant and keeps every item exactly once.
#[verifier::external_body]
pub(crate) fn sort_by_time<T: Timed>(items: &mut Vec<T>)
    ensures
        final(items)@.to_multiset() == old(items)@.to_multiset(),
        final(items)@.len() == old(items)@.len(),
        forall|i: int, j: int|
            0 <= i < j < final(items)@.len() ==> final(items)@[i].time_of() <= final(items)@[j].time_of(),
{
    items.sort_by_key(|t| t.time_key());
}

/// The instant at which the current local day began in the host's zone:
/// the start of the local day, in some zone offset that a zone can have, of
/// some supported instant. `None` where the clock reads an instant past the
/// supported range (a clock before 1970 makes `Utc::now` panic instead).
pub fn start_of_current_day() -> (r: Option<i64>)
    ensures
        r is Some ==> exists|now: int, offset: int|
            is_supported_timestamp(now) && is_utc_offset(offset) && #[trigger] local_day_of(now, offset)
                * SECONDS_PER_DAY - offset == r->0,
{
    let now = get_current_unix_timestamp();
    if now < EARLIEST_TIMESTAMP || now > LATEST_TIMESTAMP {
        return None;
    }
    let offset = local_offset_at(now);
    let r = start_of_local_day(now, offset);
    assert(local_day_of(now as int, offset as int) * SECONDS_PER_DAY - offset == r);
    Some(r)
}

} // verus!
