//! History entries as Last.fm reports them, and the saved form they are kept in.

use crate::numbers::{numeral_value, parse_i32, parse_i64};
use crate::time::{
    Timed, is_supported_timestamp, is_utc_offset, local_day, local_day_of, local_offset_at,
    month_label_of, month_year_label, EARLIEST_TIMESTAMP, LATEST_TIMESTAMP,
};
use vstd::prelude::*;

verus! {

/// The number that a string-encoded count stands for, or 0 where it is no numeral
/// that fits in an `i32`.
pub open spec fn count_value(s: Seq<char>) -> int {
    match numeral_value(s) {
        Some(v) => if i32::MIN <= v <= i32::MAX {
            v
        } else {
            0
        },
        None => 0,
    }
}

fn parse_count(s: &String) -> (r: i32)
    ensures
        r == count_value(s@),
{
    match parse_i32(s.as_str()) {
        Some(v) => v,
        None => 0,
    }
}

/// When a profile was registered, as a Unix timestamp numeral.
pub struct Registered {
    pub unixtime: String,
}

/// A Last.fm profile, as `user.getInfo` reports it.
pub struct User {
    pub playlists: String,
    pub play_count: String,
    pub gender: String,
    pub name: String,
    pub subscriber: String,
    pub url: String,
    pub country: String,
    pub registered: Registered,
    pub user_type: String,
    pub age: String,
    pub real_name: String,
}

impl User {
    /// The number of playlists the user has made (0 where the field is no count).
    pub fn playlists(&self) -> (r: i32)
        ensures
            r == count_value(self.playlists@),
    {
        parse_count(&self.playlists)
    }

    /// The number of plays the service has recorded for the user (0 where the
    /// field is no count).
    pub fn play_count(&self) -> (r: i32)
        ensures
            r == count_value(self.play_count@),
    {
        parse_count(&self.play_count)
    }
}

/// The pagination attributes of one page of the recent-tracks listing.
pub struct Attr {
    pub page: String,
    pub per_page: String,
    pub user: String,
    pub total: String,
    pub total_pages: String,
}

impl Attr {
    pub fn page(&self) -> (r: i32)
        ensures
            r == count_value(self.page@),
    {
        parse_count(&self.page)
    }

    pub fn per_page(&self) -> (r: i32)
        ensures
            r == count_value(self.per_page@),
    {
        parse_count(&self.per_page)
    }

    pub fn total_tracks(&self) -> (r: i32)
        ensures
            r == count_value(self.total@),
    {
        parse_count(&self.total)
    }

    pub fn total_pages(&self) -> (r: i32)
        ensures
            r == count_value(self.total_pages@),
    {
        parse_count(&self.total_pages)
    }

    pub fn last_page(&self) -> (r: bool)
        ensures
            r == (count_value(self.page@) == count_value(self.total_pages@)),
    {
        self.page() == self.total_pages()
    }

    pub fn single_page(&self) -> (r: bool)
        ensures
            r == (count_value(self.total_pages@) == 1),
    {
        self.total_pages() == 1
    }

    pub fn single_track(&self) -> (r: bool)
        ensures
            r == (count_value(self.total@) == 1),
    {
        self.total_tracks() == 1
    }
}

pub struct TrackAttr {
    pub now_playing: String,
}

pub struct Artist {
    pub url: String,
    pub mbid: String,
    pub name: String,
}

pub struct Album {
    pub mbid: String,
    pub text: String,
}

/// When a track was played: `uts` holds the Unix timestamp as a numeral.
pub struct Date {
    pub uts: String,
    pub text: String,
}

/// The Unix timestamp a date's `uts` field spells, where it spells one.
pub open spec fn date_timestamp(d: Date) -> int {
    numeral_value(d.uts@)->0
}

/// A date whose `uts` field spells a supported instant.
pub open spec fn is_valid_date(d: Date) -> bool {
    numeral_value(d.uts@) is Some && is_supported_timestamp(date_timestamp(d))
}

impl Date {
    /// The instant of the play, as a Unix timestamp.
    pub fn time_stamp(&self) -> (r: i64)
        requires
            is_valid_date(*self),
        ensures
            r == date_timestamp(*self),
    {
        match parse_i64(self.uts.as_str()) {
            Some(t) => t,
            None => 0,
        }
    }

    /// The offset from UTC that the host's time zone has at the time of the play.
    pub fn local_offset(&self) -> (r: i32)
        requires
            is_valid_date(*self),
        ensures
            is_utc_offset(r as int),
    {
        local_offset_at(self.time_stamp())
    }
}

/// One entry of the recent-tracks listing.
pub struct Track {
    pub attr: Option<TrackAttr>,
    pub artist: Artist,
    pub album: Album,
    pub streamable: String,
    pub date: Option<Date>,
    pub name: String,
    pub mbid: String,
    pub loved: String,
}

/// Track, artist and album name, joined by ` - `.
pub open spec fn combined_title_of(title: Seq<char>, artist: Seq<char>, album: Seq<char>) -> Seq<
    char,
> {
    title + " - "@ + artist + " - "@ + album
}

/// The entry Last.fm adds for the track being played right now.
pub open spec fn is_now_playing(t: Track) -> bool {
    t.attr is Some && t.attr->0.now_playing@ == "true"@
}

pub open spec fn is_loved(t: Track) -> bool {
    t.loved@ == "1"@
}

/// An entry that can be saved: it has a date that spells a supported instant.
pub open spec fn is_datable(t: Track) -> bool {
    t.date is Some && is_valid_date(t.date->0)
}

pub open spec fn track_timestamp(t: Track) -> int {
    date_timestamp(t.date->0)
}

/// The instant an entry is ordered by: its timestamp, or the earliest `i64`
/// where it has none.
pub open spec fn time_key_of(t: Track) -> int {
    if is_datable(t) {
        track_timestamp(t)
    } else {
        i64::MIN as int
    }
}

impl Track {
    /// Whether the entry has a date that spells a supported instant.
    pub fn has_date(&self) -> (r: bool)
        ensures
            r == is_datable(*self),
    {
        match &self.date {
            Some(d) => match parse_i64(d.uts.as_str()) {
                Some(t) => EARLIEST_TIMESTAMP <= t && t <= LATEST_TIMESTAMP,
                None => false,
            },
            None => false,
        }
    }

    pub fn combined_title(&self) -> (r: String)
        ensures
            r@ == combined_title_of(self.name@, self.artist.name@, self.album.text@),
    {
        join_three(&self.name, &self.artist.name, &self.album.text)
    }

    pub fn loved(&self) -> (r: bool)
        ensures
            r == is_loved(*self),
    {
        self.loved == String::from_str("1")
    }

    pub fn now_playing(&self) -> (r: bool)
        ensures
            r == is_now_playing(*self),
    {
        match &self.attr {
            Some(attr) => attr.now_playing == String::from_str("true"),
            None => false,
        }
    }

    pub fn date(&self) -> (r: Date)
        requires
            self.date is Some,
        ensures
            r.uts@ == self.date->0.uts@,
            r.text@ == self.date->0.text@,
    {
        match &self.date {
            Some(d) => Date { uts: d.uts.clone(), text: d.text.clone() },
            None => Date { uts: String::new(), text: String::new() },
        }
    }

    /// Two entries name the same track when their combined titles agree,
    /// whenever they were played.
    pub fn same_title(&self, other: &Track) -> (r: bool)
        ensures
            r == (combined_title_of(self.name@, self.artist.name@, self.album.text@)
                == combined_title_of(other.name@, other.artist.name@, other.album.text@)),
    {
        self.combined_title() == other.combined_title()
    }
}

fn join_two(a: &String, b: &String) -> (r: String)
    ensures
        r@ == a@ + " - "@ + b@,
{
    let mut r = a.clone();
    r.append(" - ");
    r.append(b.as_str());
    r
}

fn join_three(a: &String, b: &String, c: &String) -> (r: String)
    ensures
        r@ == combined_title_of(a@, b@, c@),
{
    let mut r = join_two(a, b);
    r.append(" - ");
    r.append(c.as_str());
    r
}

impl Timed for Track {
    open spec fn time_of(&self) -> int {
        time_key_of(*self)
    }

    fn time_key(&self) -> (r: i64) {
        match &self.date {
            Some(d) => match parse_i64(d.uts.as_str()) {
                Some(t) => if EARLIEST_TIMESTAMP <= t && t <= LATEST_TIMESTAMP {
                    t
                } else {
                    i64::MIN
                },
                None => i64::MIN,
            },
            None => i64::MIN,
        }
    }
}

impl Timed for SavedScrobble {
    open spec fn time_of(&self) -> int {
        self.timestamp_utc as int
    }

    fn time_key(&self) -> (r: i64) {
        self.timestamp_utc
    }
}

/// What a saved record holds, as plain values.
pub struct RecordView {
    pub title: Seq<char>,
    pub artist: Seq<char>,
    pub album: Seq<char>,
    pub loved: bool,
    pub utc_offset: int,
    pub timestamp_utc: int,
}

/// One play as it is saved: the track's names, whether it is loved, and the
/// instant of the play with the offset of the local time it is shown in.
pub struct SavedScrobble {
    pub title: String,
    pub artist: String,
    pub album: String,
    pub loved: bool,
    pub utc_offset: i32,
    pub timestamp_utc: i64,
}

impl View for SavedScrobble {
    type V = RecordView;

    open spec fn view(&self) -> RecordView {
        RecordView {
            title: self.title@,
            artist: self.artist@,
            album: self.album@,
            loved: self.loved,
            utc_offset: self.utc_offset as int,
            timestamp_utc: self.timestamp_utc as int,
        }
    }
}

/// A record whose instant and local offset can be placed on the calendar.
pub open spec fn is_valid_record(r: RecordView) -> bool {
    is_supported_timestamp(r.timestamp_utc) && is_utc_offset(r.utc_offset)
}

/// The saved form of an entry: the names and the loved flag carried over, the
/// timestamp read from the date, and some offset that a time zone can have.
pub open spec fn converts_to(t: Track, r: RecordView) -> bool {
    &&& r.title == t.name@
    &&& r.artist == t.artist.name@
    &&& r.album == t.album.text@
    &&& r.loved == is_loved(t)
    &&& r.timestamp_utc == track_timestamp(t)
    &&& is_utc_offset(r.utc_offset)
}

pub open spec fn record_views(s: Seq<SavedScrobble>) -> Seq<RecordView> {
    s.map_values(|r: SavedScrobble| r@)
}

pub open spec fn all_datable(s: Seq<Track>) -> bool {
    forall|i: int| 0 <= i < s.len() ==> is_datable(#[trigger] s[i])
}

pub open spec fn all_valid(s: Seq<RecordView>) -> bool {
    forall|i: int| 0 <= i < s.len() ==> is_valid_record(#[trigger] s[i])
}

impl SavedScrobble {
    pub fn from_scrobble(scrobble: &Track) -> (r: SavedScrobble)
        requires
            is_datable(*scrobble),
        ensures
            converts_to(*scrobble, r@),
            is_valid_record(r@),
    {
        let date = scrobble.date();
        SavedScrobble {
            title: scrobble.name.clone(),
            artist: scrobble.artist.name.clone(),
            album: scrobble.album.text.clone(),
            loved: scrobble.loved(),
            utc_offset: date.local_offset(),
            timestamp_utc: date.time_stamp(),
        }
    }

    pub fn from_scrobbles(scrobbles: &[Track]) -> (r: Vec<SavedScrobble>)
        requires
            all_datable(scrobbles@),
        ensures
            r@.len() == scrobbles@.len(),
            forall|i: int| 0 <= i < r@.len() ==> converts_to(scrobbles@[i], #[trigger] r@[i]@),
            all_valid(record_views(r@)),
    {
        let mut r: Vec<SavedScrobble> = Vec::new();
        let mut i: usize = 0;
        while i < scrobbles.len()
            invariant
                i <= scrobbles@.len(),
                r@.len() == i,
                all_datable(scrobbles@),
                forall|k: int| 0 <= k < i ==> converts_to(scrobbles@[k], #[trigger] r@[k]@),
                forall|k: int| 0 <= k < i ==> is_valid_record(#[trigger] r@[k]@),
            decreases scrobbles@.len() - i,
        {
            r.push(SavedScrobble::from_scrobble(&scrobbles[i]));
            i = i + 1;
        }
        r
    }

    /// The calendar day, counted from 1970-01-01, of the play in its local time.
    pub fn date(&self) -> (r: i64)
        requires
            is_valid_record(self@),
        ensures
            r == local_day_of(self.timestamp_utc as int, self.utc_offset as int),
    {
        local_day(self.timestamp_utc, self.utc_offset)
    }

    /// The month and year of the play in its local time, such as `March-2021`.
    pub fn month_year(&self) -> (r: String)
        requires
            is_valid_record(self@),
        ensures
            r@ == month_label_of(local_day_of(self.timestamp_utc as int, self.utc_offset as int)),
    {
        month_year_label(self.date())
    }

    pub fn song_artist(&self) -> (r: String)
        ensures
            r@ == self.title@ + " - "@ + self.artist@,
    {
        join_two(&self.title, &self.artist)
    }

    pub fn artist_album(&self) -> (r: String)
        ensures
            r@ == self.artist@ + " - "@ + self.album@,
    {
        join_two(&self.artist, &self.album)
    }

    pub fn combined_title(&self) -> (r: String)
        ensures
            r@ == combined_title_of(self.title@, self.artist@, self.album@),
    {
        join_three(&self.title, &self.artist, &self.album)
    }

    /// Whether two records agree in every field.
    pub fn same_record(&self, other: &SavedScrobble) -> (r: bool)
        ensures
            r == (self@ == other@),
    {
        self.timestamp_utc == other.timestamp_utc && self.utc_offset == other.utc_offset
            && self.loved == other.loved && self.title == other.title && self.artist
            == other.artist && self.album == other.album
    }
}

} // verus!
