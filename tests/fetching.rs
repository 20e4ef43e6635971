use rustfm_scraper::commands::Fetch;
use rustfm_scraper::errors::{get_lastfm_api_error, into_result, ApiResponse, ErrorResponse, LastFmApiError};
use rustfm_scraper::fetch::{is_drift, latest_saved_timestamp, min_timestamp, normalize_limit, normalize_page, plan_fetch};
use rustfm_scraper::fetch_session::{finish_tracks, FetchSession, PageRequest};
use rustfm_scraper::lastfm::{build_profile_url, build_request_url, plan_requests};
use rustfm_scraper::models::{Album, Artist, Attr, Date, Registered, SavedScrobble, Track, TrackAttr, User};
use rustfm_scraper::numbers::{append_numeral, parse_i32, parse_i64};
use rustfm_scraper::saved_scrobbles::SavedScrobbles;

fn s(x: &str) -> String {
    x.to_string()
}

fn user(name: &str) -> User {
    User {
        playlists: s("0"),
        play_count: s("0"),
        gender: s(""),
        name: s(name),
        subscriber: s("0"),
        url: s(""),
        country: s(""),
        registered: Registered { unixtime: s("0") },
        user_type: s("user"),
        age: s("0"),
        real_name: s(""),
    }
}

fn attr(total: &str, total_pages: &str) -> Attr {
    Attr { page: s("1"), per_page: s("50"), user: s("demo"), total: s(total), total_pages: s(total_pages) }
}

fn entry(name: &str, uts: Option<&str>, now_playing: bool) -> Track {
    Track {
        attr: if now_playing { Some(TrackAttr { now_playing: s("true") }) } else { None },
        artist: Artist { url: s(""), mbid: s(""), name: s("Band") },
        album: Album { mbid: s(""), text: s("Record") },
        streamable: s("0"),
        date: uts.map(|u| Date { uts: s(u), text: s("") }),
        name: s(name),
        mbid: s(""),
        loved: s("0"),
    }
}

fn err(code: i32) -> LastFmApiError {
    get_lastfm_api_error(ErrorResponse { error: code, message: s("msg") })
}

#[test]
fn code_eight_and_unknown_codes_mean_operation_failed() {
    assert!(matches!(err(8), LastFmApiError::OperationFailed(m) if m == "msg"));
    assert!(matches!(err(99), LastFmApiError::OperationFailed(m) if m == "msg"));
    assert!(matches!(err(0), LastFmApiError::OperationFailed(_)));
    assert!(matches!(err(-3), LastFmApiError::OperationFailed(_)));
}

#[test]
fn every_code_maps_to_its_condition() {
    assert!(matches!(err(2), LastFmApiError::InvalidService(_)));
    assert!(matches!(err(3), LastFmApiError::InvalidMethod(_)));
    assert!(matches!(err(4), LastFmApiError::AuthenticationFailed(_)));
    assert!(matches!(err(5), LastFmApiError::InvalidFormat(_)));
    assert!(matches!(err(6), LastFmApiError::InvalidParameters(_)));
    assert!(matches!(err(7), LastFmApiError::InvalidResourceSpecified));
    assert!(matches!(err(9), LastFmApiError::InvalidSessionKey(_)));
    assert!(matches!(err(10), LastFmApiError::InvalidApiKey(_)));
    assert!(matches!(err(11), LastFmApiError::ServiceOffline(_)));
    assert!(matches!(err(13), LastFmApiError::InvalidMethodSignatureSupplied));
    assert!(matches!(err(16), LastFmApiError::TemporaryError(_)));
    assert!(matches!(err(26), LastFmApiError::SuspendedApiKey(_)));
    assert!(matches!(err(29), LastFmApiError::RateLimitExceeded(_)));
}

#[test]
fn replies_become_results() {
    let ok: ApiResponse<i32> = ApiResponse::Success(5);
    assert!(matches!(into_result(ok), Ok(5)));
    let bad: ApiResponse<i32> = ApiResponse::Failure(ErrorResponse { error: 10, message: s("bad key") });
    assert!(matches!(into_result(bad), Err(LastFmApiError::InvalidApiKey(m)) if m == "bad key"));
}

#[test]
fn numerals_parse_like_std() {
    assert_eq!(parse_i64("123"), Some(123));
    assert_eq!(parse_i64("-5"), Some(-5));
    assert_eq!(parse_i64("+7"), Some(7));
    assert_eq!(parse_i64("007"), Some(7));
    assert_eq!(parse_i64(""), None);
    assert_eq!(parse_i64("-"), None);
    assert_eq!(parse_i64("12a"), None);
    assert_eq!(parse_i64(" 1"), None);
    assert_eq!(parse_i64("9223372036854775807"), Some(i64::MAX));
    assert_eq!(parse_i64("9223372036854775808"), None);
    assert_eq!(parse_i64("-9223372036854775808"), Some(i64::MIN));
    assert_eq!(parse_i64("-9223372036854775809"), None);
    assert_eq!(parse_i64("123456789012345678901234567890"), None);
    assert_eq!(parse_i32("2147483648"), None);
    assert_eq!(parse_i32("-2147483648"), Some(i32::MIN));
    for v in ["0", "42", "-17", "1600000000"] {
        assert_eq!(parse_i64(v), v.parse::<i64>().ok());
    }
}

#[test]
fn numerals_format_like_std() {
    for v in [0i64, 7, 10, -45, 1_600_000_000, i64::MAX, i64::MIN] {
        let mut out = s("x=");
        append_numeral(&mut out, v);
        assert_eq!(out, format!("x={}", v));
    }
}

#[test]
fn request_url_is_exact() {
    let url = build_request_url(&user("demo"), "KEY", 2, 50, 0, 1700000000);
    assert_eq!(
        url,
        "http://ws.audioscrobbler.com/2.0/?method=user.getRecentTracks&user=demo&api_key=KEY&format=json&extended=1&page=2&limit=50&from=0&to=1700000000"
    );
    assert_eq!(
        build_profile_url("demo", "KEY"),
        "http://ws.audioscrobbler.com/2.0/?method=user.getInfo&user=demo&api_key=KEY&format=json"
    );
}

#[test]
fn single_entry_probe_plans_one_request() {
    let now = 1_700_000_000;
    let urls = plan_requests(&user("demo"), "KEY", 1, 50, 0, now, &attr("1", "1"));
    assert_eq!(urls.len(), 1);
    assert_eq!(urls[0], build_request_url(&user("demo"), "KEY", 1, 50, 0, now));
}

#[test]
fn plan_covers_pages_from_requested_to_last() {
    let urls = plan_requests(&user("demo"), "KEY", 2, 50, 0, 9, &attr("250", "5"));
    assert_eq!(urls.len(), 4);
    for (i, p) in (2..=5).enumerate() {
        assert_eq!(urls[i], build_request_url(&user("demo"), "KEY", p, 50, 0, 9));
    }
    assert!(plan_requests(&user("demo"), "KEY", 1, 50, 0, 9, &attr("0", "0")).is_empty());
    assert_eq!(plan_requests(&user("demo"), "KEY", 1, 50, 0, 9, &attr("2", "1")).len(), 1);
}

#[test]
fn session_sends_pages_in_order_with_bounded_concurrency() {
    let pages: Vec<i32> = (1..=60).collect();
    let mut session = FetchSession::new(&pages);
    let mut sent = Vec::new();
    while let Some(req) = session.next_request() {
        assert_eq!(req.attempt, 0);
        assert_eq!(req.delay_ms, 0);
        sent.push(req.page);
    }
    assert_eq!(sent, (1..=50).collect::<Vec<i32>>());
    assert!(!session.is_done());
    session.page_fetched(vec![entry("a", Some("1"), false)]);
    let next = session.next_request().unwrap();
    assert_eq!(next.page, 51);
    assert!(session.next_request().is_none());
}

#[test]
fn session_retries_with_backoff_then_gives_up() {
    let mut session = FetchSession::new(&vec![7]);
    let mut delays = Vec::new();
    for _ in 0..5 {
        let req: PageRequest = session.next_request().unwrap();
        assert_eq!(req.page, 7);
        delays.push(req.delay_ms);
        session.page_failed(&req);
    }
    assert_eq!(delays, vec![0, 500, 1000, 2000, 4000]);
    assert_eq!(session.abandoned_page(), Some(7));
    assert!(session.is_done());
    assert!(session.next_request().is_none());
}

#[test]
fn session_collects_every_page() {
    let mut session = FetchSession::new(&vec![1, 2]);
    let a = session.next_request().unwrap();
    let b = session.next_request().unwrap();
    assert_eq!((a.page, b.page), (1, 2));
    session.page_fetched(vec![entry("a", Some("1"), false)]);
    session.page_failed(&b);
    let again = session.next_request().unwrap();
    assert_eq!((again.page, again.attempt, again.delay_ms), (2, 1, 500));
    session.page_fetched(vec![entry("b", Some("2"), false), entry("c", Some("3"), false)]);
    assert!(session.is_done());
    assert_eq!(session.abandoned_page(), None);
    assert_eq!(session.into_tracks().len(), 3);
}

#[test]
fn now_playing_entry_is_filtered_out() {
    let tracks = vec![
        entry("old", Some("100"), false),
        entry("current", None, true),
        entry("new", Some("300"), false),
        entry("mid", Some("200"), false),
    ];
    let out = finish_tracks(tracks);
    let names: Vec<String> = out.iter().map(|t| t.name.clone()).collect();
    assert_eq!(names, vec![s("new"), s("mid"), s("old")]);
    assert!(out.iter().all(|t| !t.now_playing() && t.date.is_some()));
    assert!(finish_tracks(vec![entry("current", None, true)]).is_empty());
    assert!(finish_tracks(vec![]).is_empty());
}

#[test]
fn incremental_fetch_starts_nine_seconds_after_newest_record() {
    let saved = SavedScrobbles::new(vec![
        SavedScrobble { title: s("a"), artist: s("b"), album: s("c"), loved: false, utc_offset: 0, timestamp_utc: 1_000 },
        SavedScrobble { title: s("d"), artist: s("b"), album: s("c"), loved: false, utc_offset: 0, timestamp_utc: 5_000 },
    ]);
    let latest = latest_saved_timestamp(&saved);
    assert_eq!(latest, Some(5_000));
    assert_eq!(min_timestamp(false, 86_400, latest, 0), 5_009);
    assert_eq!(min_timestamp(true, 86_400, latest, 0), 86_400);
    assert_eq!(min_timestamp(false, 86_400, None, 42), 42);
    assert_eq!(min_timestamp(false, 0, Some(i64::MAX), 0), i64::MAX);
}

#[test]
fn fetch_parameters_fall_back_and_clamp() {
    assert_eq!(normalize_page(None), 1);
    assert_eq!(normalize_page(Some(0)), 1);
    assert_eq!(normalize_page(Some(-4)), 1);
    assert_eq!(normalize_page(Some(3)), 3);
    assert_eq!(normalize_limit(None), 1000);
    assert_eq!(normalize_limit(Some(0)), 1000);
    assert_eq!(normalize_limit(Some(5000)), 1000);
    assert_eq!(normalize_limit(Some(200)), 200);
    let f = Fetch {
        username: None,
        page: Some(-1),
        limit: Some(50),
        from: Some(10),
        to: None,
        new_file: false,
        current_day: false,
        file_format: None,
    };
    let w = plan_fetch(&f, Some(100), 999, 500);
    assert_eq!((w.page, w.limit, w.from, w.to), (1, 50, 109, 999));
    let fresh = Fetch { new_file: true, ..f };
    let w = plan_fetch(&fresh, None, 999, 500);
    assert_eq!(w.from, 500);
    let w = plan_fetch(&fresh, Some(100), 999, 500);
    assert_eq!(w.from, 500);
}

#[test]
fn drift_is_reported_only_when_totals_disagree() {
    assert!(is_drift(10, 12, false));
    assert!(!is_drift(12, 12, false));
    assert!(!is_drift(10, 12, true));
    assert!(is_drift(0, -1, false));
}

#[test]
fn written_numerals_read_back() {
    for v in [0i64, 9, 10, -1, 1_600_000_009, i64::MAX, i64::MIN] {
        let mut out = String::new();
        append_numeral(&mut out, v);
        assert_eq!(parse_i64(&out), Some(v));
    }
}
