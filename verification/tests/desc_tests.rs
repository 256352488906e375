use quick_capture::desc::link_desc;

#[test]
fn desc_truncates_to_ten_characters() {
    assert_eq!(link_desc("Hello world"), "Hello worl");
}

#[test]
fn desc_of_empty_is_empty() {
    assert_eq!(link_desc(""), "");
}

#[test]
fn desc_of_punctuation_only_is_empty() {
    assert_eq!(link_desc("!!!???...---"), "");
}

#[test]
fn desc_strips_special_characters() {
    assert_eq!(link_desc("Hello, world!"), "Hello worl");
}

#[test]
fn desc_uses_first_line_only() {
    assert_eq!(link_desc("short\nthis line is much longer"), "short");
}

#[test]
fn desc_drops_carriage_return_before_newline() {
    assert_eq!(link_desc("short\r\nrest"), "short");
}

#[test]
fn desc_keeps_bare_trailing_carriage_return() {
    // A last line without a newline keeps its carriage return, as
    // str::lines keeps it.
    assert_eq!(link_desc("abc\r"), "abc\r");
}

#[test]
fn desc_is_idempotent_at_carriage_return_cut() {
    // The tenth kept character lands on a carriage return; the description
    // must still re-describe to itself.
    let once = link_desc("123456789\r0");
    assert_eq!(once, "123456789\r");
    assert_eq!(link_desc(&once), once);
}

#[test]
fn desc_never_exceeds_ten_characters() {
    let inputs = ["", "a", "exactly 10", "definitely more than ten characters", "x\ny", "\n"];
    for input in inputs {
        assert!(link_desc(input).chars().count() <= 10);
    }
}

#[test]
fn desc_is_idempotent_on_typical_input() {
    let inputs = ["Hello world", "", "a b c", "punctuation! inside", "multi\nline"];
    for input in inputs {
        let once = link_desc(input);
        assert_eq!(link_desc(&once), once);
    }
}
