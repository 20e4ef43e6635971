use rustfm_scraper::models::{Album, Artist, Date, SavedScrobble, Track, TrackAttr, User, Registered, Attr};
use rustfm_scraper::saved_scrobbles::SavedScrobbles;

fn s(x: &str) -> String {
    x.to_string()
}

fn track(name: &str, artist: &str, album: &str, uts: Option<&str>, now_playing: bool) -> Track {
    Track {
        attr: if now_playing { Some(TrackAttr { now_playing: s("true") }) } else { None },
        artist: Artist { url: s(""), mbid: s(""), name: s(artist) },
        album: Album { mbid: s(""), text: s(album) },
        streamable: s("0"),
        date: uts.map(|u| Date { uts: s(u), text: s("") }),
        name: s(name),
        mbid: s(""),
        loved: s("0"),
    }
}

fn record(title: &str, ts: i64) -> SavedScrobble {
    SavedScrobble {
        title: s(title),
        artist: s("Artist"),
        album: s("Album"),
        loved: false,
        utc_offset: 0,
        timestamp_utc: ts,
    }
}

fn timestamps(set: &SavedScrobbles) -> Vec<i64> {
    set.get_saved_scrobbles().iter().map(|r| r.timestamp_utc).collect()
}

#[test]
fn two_overlapping_batches_merge_without_repeats() {
    let b1 = vec![
        track("A", "X", "Y", Some("100"), false),
        track("B", "X", "Y", Some("200"), false),
        track("C", "X", "Y", Some("300"), false),
    ];
    let b2 = vec![
        track("C", "X", "Y", Some("300"), false),
        track("D", "X", "Y", Some("400"), false),
        track("B", "X", "Y", Some("200"), false),
    ];
    let mut set = SavedScrobbles::from_scrobbles(&b1);
    set.append_new_scrobbles(&b2);
    assert_eq!(timestamps(&set), vec![400, 300, 200, 100]);
    assert_eq!(set.total_saved_scrobbles(), 4);
    let titles: Vec<String> = set.get_saved_scrobbles().iter().map(|r| r.title.clone()).collect();
    assert_eq!(titles, vec![s("D"), s("C"), s("B"), s("A")]);
}

#[test]
fn empty_batch_leaves_history_unchanged() {
    let mut set = SavedScrobbles::new(vec![record("a", 5), record("b", 9), record("c", 7)]);
    let before = timestamps(&set);
    set.append_new_scrobbles(&[]);
    assert_eq!(timestamps(&set), before);
    assert_eq!(before, vec![9, 7, 5]);
}

#[test]
fn new_orders_newest_first_and_drops_repeats() {
    let set = SavedScrobbles::new(vec![
        record("a", 5),
        record("b", 9),
        record("a", 5),
        record("c", 7),
        record("a", 5),
    ]);
    assert_eq!(timestamps(&set), vec![9, 7, 5]);
}

#[test]
fn same_instant_different_tracks_are_both_kept() {
    let set = SavedScrobbles::new(vec![record("a", 5), record("b", 5), record("a", 5)]);
    assert_eq!(set.total_saved_scrobbles(), 2);
}

#[test]
fn records_differing_in_one_field_are_distinct() {
    let mut loved = record("a", 5);
    loved.loved = true;
    let set = SavedScrobbles::new(vec![record("a", 5), loved]);
    assert_eq!(set.total_saved_scrobbles(), 2);
}

#[test]
fn default_history_is_empty() {
    let set = SavedScrobbles::default();
    assert!(set.is_empty());
    assert!(set.most_recent_scrobble().is_none());
}

#[test]
fn most_recent_scrobble_is_newest() {
    let set = SavedScrobbles::new(vec![record("a", 5), record("b", 9)]);
    assert_eq!(set.most_recent_scrobble().unwrap().timestamp_utc, 9);
}

#[test]
fn conversion_keeps_names_and_timestamp() {
    let mut t = track("Song", "Band", "Record", Some("1600000000"), false);
    t.loved = s("1");
    let r = SavedScrobble::from_scrobble(&t);
    assert_eq!(r.title, "Song");
    assert_eq!(r.artist, "Band");
    assert_eq!(r.album, "Record");
    assert!(r.loved);
    assert_eq!(r.timestamp_utc, 1_600_000_000);
    assert!(r.utc_offset > -86_400 && r.utc_offset < 86_400);
}

#[test]
fn track_flags_and_titles() {
    let t = track("Song", "Band", "Record", None, true);
    assert!(t.now_playing());
    assert!(!t.loved());
    assert!(!t.has_date());
    assert_eq!(t.combined_title(), "Song - Band - Record");
    let u = track("Song", "Band", "Record", Some("12"), false);
    assert!(!u.now_playing());
    assert!(u.has_date());
    assert!(t.same_title(&u));
    assert_eq!(u.date().time_stamp(), 12);
    let mut w = track("Song", "Band", "Record", None, false);
    w.attr = Some(TrackAttr { now_playing: s("false") });
    assert!(!w.now_playing());
}

#[test]
fn record_labels() {
    let r = record("Song", 0);
    assert_eq!(r.song_artist(), "Song - Artist");
    assert_eq!(r.artist_album(), "Artist - Album");
    assert_eq!(r.combined_title(), "Song - Artist - Album");
    assert_eq!(r.month_year(), "January-1970");
    assert_eq!(r.date(), 0);
}

#[test]
fn local_day_follows_offset() {
    let mut r = record("Song", 86_400 - 3600);
    assert_eq!(r.date(), 0);
    r.utc_offset = 7200;
    assert_eq!(r.date(), 1);
    r.timestamp_utc = -1;
    r.utc_offset = 0;
    assert_eq!(r.date(), -1);
    assert_eq!(r.month_year(), "December-1969");
}

#[test]
fn attr_counts_parse_or_fall_back_to_zero() {
    let a = Attr {
        page: s("2"),
        per_page: s("50"),
        user: s("demo"),
        total: s("120"),
        total_pages: s("3"),
    };
    assert_eq!(a.page(), 2);
    assert_eq!(a.per_page(), 50);
    assert_eq!(a.total_tracks(), 120);
    assert_eq!(a.total_pages(), 3);
    assert!(!a.last_page());
    assert!(!a.single_page());
    assert!(!a.single_track());
    let b = Attr { page: s("x"), per_page: s(""), user: s(""), total: s("1"), total_pages: s("1") };
    assert_eq!(b.page(), 0);
    assert_eq!(b.per_page(), 0);
    assert!(b.single_page() && b.single_track());
}

#[test]
fn user_counts() {
    let u = User {
        playlists: s("3"),
        play_count: s("12345"),
        gender: s("n"),
        name: s("demo"),
        subscriber: s("0"),
        url: s(""),
        country: s(""),
        registered: Registered { unixtime: s("0") },
        user_type: s("user"),
        age: s("0"),
        real_name: s(""),
    };
    assert_eq!(u.play_count(), 12345);
    assert_eq!(u.playlists(), 3);
}


#[test]
fn reloading_saved_rows_gives_the_same_history() {
    let set = SavedScrobbles::new(vec![record("a", 5), record("b", 5), record("c", 9), record("d", 1)]);
    let rows: Vec<SavedScrobble> = set
        .get_saved_scrobbles()
        .iter()
        .map(|r| SavedScrobble {
            title: r.title.clone(),
            artist: r.artist.clone(),
            album: r.album.clone(),
            loved: r.loved,
            utc_offset: r.utc_offset,
            timestamp_utc: r.timestamp_utc,
        })
        .collect();
    let order: Vec<String> = rows.iter().map(|r| r.title.clone()).collect();
    let reloaded = SavedScrobbles::new(rows);
    let again: Vec<String> = reloaded.get_saved_scrobbles().iter().map(|r| r.title.clone()).collect();
    assert_eq!(again, order);
    assert_eq!(timestamps(&reloaded), vec![9, 5, 5, 1]);
}

#[test]
fn merging_held_records_changes_nothing() {
    let mut set = SavedScrobbles::new(vec![record("a", 5), record("b", 5), record("c", 9)]);
    let titles = |s: &SavedScrobbles| s.get_saved_scrobbles().iter().map(|r| r.title.clone()).collect::<Vec<String>>();
    let before = titles(&set);
    assert_eq!(before[0], "c");
    assert_eq!(before.len(), 3);
    set.merge(vec![record("b", 5), record("a", 5)]);
    assert_eq!(titles(&set), before);
    assert!(set.holds(&record("a", 5)));
    assert!(!set.holds(&record("a", 6)));
    assert!(set.holds_all(&vec![record("c", 9), record("b", 5)]));
    assert!(!set.holds_all(&vec![record("c", 9), record("d", 5)]));
    set.merge(vec![record("d", 7)]);
    assert_eq!(timestamps(&set), vec![9, 7, 5, 5]);
}
