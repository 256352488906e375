use quick_capture::merge::{merge_backlink, merge_daily, merge_standalone, prepend_date_header};

#[test]
fn merge_daily_fresh_file_has_header_then_entry() {
    let content = merge_daily(None, "2024-09-29", "2409291200", "Test thought");
    assert_eq!(content, "# 2024-09-29\n\n\n## 2409291200\nTest thought\n");
    assert!(content.starts_with("# 2024-09-29\n\n"));
    assert!(content.contains("## 2409291200\nTest thought\n"));
}

#[test]
fn merge_daily_twice_single_header() {
    let first = merge_daily(None, "2024-09-29", "2409291200", "first thought");
    let second = merge_daily(Some(&first), "2024-09-29", "2409291430", "second thought");
    assert_eq!(second.matches("# 2024-09-29").count(), 1);
    assert!(second.contains("## 2409291200\nfirst thought\n"));
    assert!(second.contains("## 2409291430\nsecond thought\n"));
}

#[test]
fn merge_daily_appends_in_order() {
    let first = merge_daily(None, "2024-09-29", "2409290900", "morning");
    let second = merge_daily(Some(&first), "2024-09-29", "2409291800", "evening");
    let morning_at = second.find("## 2409290900").unwrap();
    let evening_at = second.find("## 2409291800").unwrap();
    assert!(morning_at < evening_at);
}

#[test]
fn merge_daily_existing_content_without_header_gains_one() {
    let content = merge_daily(Some("old notes\n"), "2024-09-29", "2409291200", "new");
    assert_eq!(content, "# 2024-09-29\n\nold notes\n\n## 2409291200\nnew\n");
}

#[test]
fn prepend_date_header_is_idempotent() {
    let mut content = String::from("some text");
    prepend_date_header(&mut content, "2024-09-29");
    assert_eq!(content, "# 2024-09-29\n\nsome text");
    let once = content.clone();
    prepend_date_header(&mut content, "2024-09-29");
    assert_eq!(content, once);
}

#[test]
fn prepend_date_header_empty_content() {
    let mut content = String::new();
    prepend_date_header(&mut content, "2024-09-29");
    assert_eq!(content, "# 2024-09-29\n\n");
}

#[test]
fn merge_standalone_exact_content() {
    let content = merge_standalone("Hello world", "2409291200");
    assert_eq!(content, "# 2409291200\nHello world\n");
}

#[test]
fn merge_backlink_fresh_daily_file() {
    let content = merge_backlink(None, "2024-09-29", "2409291200", "Hello world");
    assert_eq!(
        content,
        "# 2024-09-29\n\n\n## 2409291200\n[[2409291200|Hello worl]]\n"
    );
}

#[test]
fn merge_backlink_existing_daily_keeps_single_header() {
    let daily = merge_daily(None, "2024-09-29", "2409291100", "earlier");
    let content = merge_backlink(Some(&daily), "2024-09-29", "2409291200", "Hello world");
    assert_eq!(content.matches("# 2024-09-29").count(), 1);
    assert!(content.contains("## 2409291200\n[[2409291200|Hello worl]]\n"));
}

#[test]
fn test_save_thought_daily_mode() {
    let thought = "Test thought for daily mode";
    let content = merge_daily(None, "2024-09-29", "2409291200", thought);
    assert!(content.contains(&format!("## 2409291200\n{}", thought)));
}

#[test]
fn test_save_thought_standalone_mode() {
    let thought = "Test thought for standalone mode";
    let content = merge_standalone(thought, "2409291200");
    assert!(content.contains(&format!("# 2409291200\n{}", thought)));
}
