use rustfm_scraper::config::{build_config_path, Config, StorageFormat};
use rustfm_scraper::files::{build_file_path, first_existing_format, validate_extension};
use rustfm_scraper::models::SavedScrobble;
use rustfm_scraper::saved_scrobbles::SavedScrobbles;
use rustfm_scraper::stats::{count_by_key, count_by_label, get_total_days};
use rustfm_scraper::time::{local_day, start_of_local_day};

fn s(x: &str) -> String {
    x.to_string()
}

fn on_day(title: &str, day: i64, second: i64) -> SavedScrobble {
    SavedScrobble {
        title: s(title),
        artist: s("a"),
        album: s("b"),
        loved: false,
        utc_offset: 0,
        timestamp_utc: day * 86_400 + second,
    }
}

#[test]
fn daily_average_divides_by_span_not_by_active_days() {
    let mut records = Vec::new();
    for i in 0..4 {
        records.push(on_day("x", 0, i));
    }
    for i in 0..3 {
        records.push(on_day("y", 4, i));
    }
    for i in 0..3 {
        records.push(on_day("z", 9, i));
    }
    let set = SavedScrobbles::new(records);
    let stats = set.generate_stats();
    assert_eq!(stats.total_scrobbles, 10);
    assert_eq!(stats.total_days, 9);
    assert_eq!(stats.per_day.len(), 3);
    let sum: usize = stats.per_day.iter().map(|g| g.1).sum();
    assert_eq!(sum, 10);
    assert_eq!(stats.per_week, vec![(1970 * 54 + 2, 6), (1970 * 54 + 1, 4)]);
    assert_eq!(stats.per_year, vec![(1970, 10)]);
    assert_eq!(stats.per_month, vec![(s("January-1970"), 10)]);
    let daily = stats.total_scrobbles as f64 / stats.total_days as f64;
    assert!((daily - 10.0 / 9.0).abs() < 1e-9);
    assert_eq!(get_total_days(set.get_saved_scrobbles()), 9);
}

#[test]
fn best_month_has_most_plays() {
    let jan = 0;
    let feb = 31;
    let set = SavedScrobbles::new(vec![
        on_day("a", jan, 1),
        on_day("b", feb, 1),
        on_day("c", feb, 2),
        on_day("d", jan + 3, 5),
        on_day("e", feb + 2, 1),
    ]);
    let stats = set.generate_stats();
    assert_eq!(stats.best_month, "February-1970");
    assert_eq!(stats.best_month_scrobbles, 3);
}

#[test]
fn best_month_tie_goes_to_most_recent() {
    let set = SavedScrobbles::new(vec![on_day("a", 0, 1), on_day("b", 31, 1)]);
    let stats = set.generate_stats();
    assert_eq!(stats.best_month, "February-1970");
    assert_eq!(stats.best_month_scrobbles, 1);
    let set = SavedScrobbles::new(vec![
        on_day("a", 0, 1),
        on_day("b", 0, 2),
        on_day("c", 31, 1),
        on_day("d", 31, 2),
        on_day("e", 60, 1),
    ]);
    let stats = set.generate_stats();
    assert_eq!(stats.best_month, "February-1970");
    assert_eq!(stats.best_month_scrobbles, 2);
}

#[test]
fn day_buckets_count_each_day() {
    let groups = count_by_key(&vec![3, 1, 3, 3, 2, 1]);
    assert_eq!(groups, vec![(3, 3), (1, 2), (2, 1)]);
    assert!(count_by_key(&vec![]).is_empty());
    let labels = count_by_label(&vec![s("May"), s("June"), s("May")]);
    assert_eq!(labels, vec![(s("May"), 2), (s("June"), 1)]);
}

#[test]
fn local_days_and_midnights() {
    assert_eq!(local_day(0, 0), 0);
    assert_eq!(local_day(86_399, 0), 0);
    assert_eq!(local_day(86_400, 0), 1);
    assert_eq!(local_day(-1, 0), -1);
    assert_eq!(local_day(82_800, 3_600), 1);
    assert_eq!(start_of_local_day(90_000, 0), 86_400);
    assert_eq!(start_of_local_day(90_000, 3_600), 82_800);
    assert_eq!(start_of_local_day(3_000, -7_200), -79_200);
}

#[test]
fn config_and_file_names() {
    let c = Config::new(s("key"), s("demo"), StorageFormat::Json);
    assert_eq!(c.api_key, "key");
    assert_eq!(c.default_username, "demo");
    assert!(c.storage_format == StorageFormat::Json);
    assert_eq!(c.resolve_username(None), "demo");
    assert_eq!(c.resolve_username(Some(s("other"))), "other");
    assert_eq!(StorageFormat::Csv.extension(), "csv");
    assert_eq!(StorageFormat::Json.extension(), "json");
    assert_eq!(StorageFormat::Sqlite.extension(), "db");
    assert_eq!(build_config_path("/home/u/.config"), "/home/u/.config/rustfm_scraper/config.json");
    assert!(validate_extension("csv"));
    assert!(validate_extension("json"));
    assert!(!validate_extension("db"));
    assert!(!validate_extension(""));
    assert_eq!(build_file_path("demo", "csv"), "demo.csv");
    assert_eq!(first_existing_format(true, true), Some("csv"));
    assert_eq!(first_existing_format(false, true), Some("json"));
    assert_eq!(first_existing_format(false, false), None);
}

#[test]
fn storage_format_names() {
    assert!(StorageFormat::from_name("csv") == Some(StorageFormat::Csv));
    assert!(StorageFormat::from_name("json") == Some(StorageFormat::Json));
    assert!(StorageFormat::from_name("db") == Some(StorageFormat::Sqlite));
    assert!(StorageFormat::from_name("sqlite") == Some(StorageFormat::Sqlite));
    assert!(StorageFormat::from_name("xml").is_none());
    assert!(StorageFormat::from_choice("1") == Some(StorageFormat::Csv));
    assert!(StorageFormat::from_choice("2") == Some(StorageFormat::Json));
    assert!(StorageFormat::from_choice("3") == Some(StorageFormat::Sqlite));
    assert!(StorageFormat::from_choice("4").is_none());
}

#[test]
fn far_instants_are_supported() {
    let r = SavedScrobble {
        title: s("t"),
        artist: s("a"),
        album: s("b"),
        loved: false,
        utc_offset: 0,
        timestamp_utc: 253_402_300_800,
    };
    assert_eq!(r.month_year(), "January-+10000");
    let set = SavedScrobbles::new(vec![r]);
    let stats = set.generate_stats();
    assert_eq!(stats.per_year, vec![(10000, 1)]);
}
