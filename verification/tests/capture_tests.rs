use quick_capture::capture::planned_writes;
use quick_capture::resolve::resolve;

#[test]
fn daily_scenario_writes_one_file() {
    let resolved = resolve("/tmp/x", "daily", "2024-09-29", "2409291200", None).unwrap();
    let writes = planned_writes(&resolved, "2024-09-29", "2409291200", "Test thought", None, None);
    assert_eq!(writes.len(), 1);
    assert_eq!(writes[0].path, "/tmp/x/2024-09-29.md");
    assert!(writes[0].content.contains("## 2409291200\nTest thought"));
}

#[test]
fn standalone_scenario_writes_note_then_backlink() {
    let resolved = resolve(
        "/tmp/y",
        "standalone",
        "2024-09-29",
        "2409291200",
        Some("/tmp/y/../daily"),
    )
    .unwrap();
    let writes =
        planned_writes(&resolved, "2024-09-29", "2409291200", "Hello world", None, None);
    assert_eq!(writes.len(), 2);
    // The standalone note is written first, so a failed standalone write
    // never leaves a dangling backlink.
    assert_eq!(writes[0].path, "/tmp/y/2409291200.md");
    assert_eq!(writes[0].content, "# 2409291200\nHello world\n");
    assert_eq!(writes[1].path, "/tmp/y/../daily/2024-09-29.md");
    assert!(writes[1]
        .content
        .contains("## 2409291200\n[[2409291200|Hello worl]]\n"));
}

#[test]
fn standalone_into_existing_daily_appends_backlink() {
    let resolved = resolve("/tmp/y", "standalone", "2024-09-29", "2409291200", Some("/tmp/d"))
        .unwrap();
    let existing_daily = "# 2024-09-29\n\n\n## 2409290900\nmorning\n";
    let writes = planned_writes(
        &resolved,
        "2024-09-29",
        "2409291200",
        "Hello world",
        None,
        Some(existing_daily),
    );
    assert_eq!(writes.len(), 2);
    assert!(writes[1].content.starts_with(existing_daily));
    assert_eq!(writes[1].content.matches("# 2024-09-29").count(), 1);
}

#[test]
fn invalid_requests_produce_no_writes() {
    assert!(resolve("", "daily", "2024-09-29", "2409291200", None).is_err());
    assert!(resolve("/tmp/x", "weekly", "2024-09-29", "2409291200", None).is_err());
    assert!(resolve("/tmp/x", "standalone", "2024-09-29", "2409291200", None).is_err());
}
