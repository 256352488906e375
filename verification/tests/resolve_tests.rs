use quick_capture::resolve::{parse_mode, resolve, SaveMode, ValidationError};
use quick_capture::timestamp::{current_timestamp, timestamp_from_fields, Timestamp};

#[test]
fn parse_mode_recognizes_both_modes() {
    assert_eq!(parse_mode("daily"), Some(SaveMode::Daily));
    assert_eq!(parse_mode("standalone"), Some(SaveMode::Standalone));
    assert_eq!(parse_mode("weekly"), None);
    assert_eq!(parse_mode(""), None);
    assert_eq!(parse_mode("Daily"), None);
}

#[test]
fn resolve_daily_mode_paths() {
    let resolved = resolve("/tmp/x", "daily", "2024-09-29", "2409291200", None).unwrap();
    assert_eq!(resolved.mode, SaveMode::Daily);
    assert_eq!(resolved.target_path, "/tmp/x/2024-09-29.md");
    assert!(resolved.daily_path.is_none());
}

#[test]
fn resolve_standalone_mode_paths() {
    let resolved = resolve(
        "/tmp/y",
        "standalone",
        "2024-09-29",
        "2409291200",
        Some("/tmp/y/../daily"),
    )
    .unwrap();
    assert_eq!(resolved.mode, SaveMode::Standalone);
    assert_eq!(resolved.target_path, "/tmp/y/2409291200.md");
    assert_eq!(resolved.daily_path.as_deref(), Some("/tmp/y/../daily/2024-09-29.md"));
}

#[test]
fn resolve_rejects_empty_base_path() {
    let err = resolve("", "daily", "2024-09-29", "2409291200", None).unwrap_err();
    assert_eq!(err, ValidationError::EmptyBasePath);
    assert_eq!(err.message(), "Error: Path cannot be empty");
}

#[test]
fn resolve_rejects_unknown_mode() {
    let err = resolve("/tmp/x", "weekly", "2024-09-29", "2409291200", None).unwrap_err();
    assert_eq!(err, ValidationError::InvalidMode);
    assert_eq!(err.message(), "Error: Invalid save mode");
}

#[test]
fn resolve_rejects_standalone_without_daily_path() {
    let err = resolve("/tmp/x", "standalone", "2024-09-29", "2409291200", None).unwrap_err();
    assert_eq!(err, ValidationError::MissingDailyPath);
    assert_eq!(
        err.message(),
        "Error: Daily path is required for standalone notes"
    );
}

#[test]
fn resolve_rejects_standalone_with_empty_daily_path() {
    let err = resolve("/tmp/x", "standalone", "2024-09-29", "2409291200", Some("")).unwrap_err();
    assert_eq!(err, ValidationError::MissingDailyPath);
}

#[test]
fn timestamp_formats_date_and_entry_id() {
    let ts = Timestamp { year: 2024, month: 9, day: 29, hour: 12, minute: 0 };
    assert_eq!(ts.date_string(), "2024-09-29");
    assert_eq!(ts.entry_id_string(), "2409291200");
}

#[test]
fn timestamp_zero_pads_fields() {
    let ts = Timestamp { year: 987, month: 1, day: 2, hour: 3, minute: 4 };
    assert_eq!(ts.date_string(), "0987-01-02");
    assert_eq!(ts.entry_id_string(), "8701020304");
}

#[test]
fn timestamp_from_fields_accepts_only_four_digit_years() {
    let ts = timestamp_from_fields(2024, 9, 29, 12, 0).unwrap();
    assert_eq!(ts.date_string(), "2024-09-29");
    assert_eq!(ts.entry_id_string(), "2409291200");
    assert!(timestamp_from_fields(-1, 9, 29, 12, 0).is_none());
    assert!(timestamp_from_fields(10000, 9, 29, 12, 0).is_none());
}

#[test]
fn current_timestamp_fields_in_range() {
    let ts = current_timestamp().expect("the present year is representable");
    assert!(ts.year <= 9999);
    assert!((1..=12).contains(&ts.month));
    assert!((1..=31).contains(&ts.day));
    assert!(ts.hour <= 23);
    assert!(ts.minute <= 59);
    assert_eq!(ts.date_string().chars().count(), 10);
    assert_eq!(ts.entry_id_string().chars().count(), 10);
}
