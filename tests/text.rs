use xorcist::text::{truncate_message, truncate_str};

#[test]
fn text_test_truncate_str_ascii() {
    // ASCII strings: 1 char = 1 width
    assert_eq!(truncate_str("hello world", 8), "hello...");
    assert_eq!(truncate_str("short", 10), "short");
    assert_eq!(truncate_str("exact len", 9), "exact len");
}

#[test]
fn text_test_truncate_str_japanese() {
    // Japanese characters: 1 char = 2 width
    assert_eq!(truncate_str("日本語", 10), "日本語"); // 6 width, fits
    assert_eq!(truncate_str("日本語テスト", 10), "日本語..."); // 12 width -> truncate to 7 + "..."
}

#[test]
fn text_test_truncate_str_mixed() {
    // Mixed ASCII and CJK
    assert_eq!(truncate_str("Hello世界", 10), "Hello世界"); // 5 + 4 = 9 width, fits
    assert_eq!(truncate_str("Hello世界!", 10), "Hello世界!"); // 5 + 4 + 1 = 10 width, fits exactly
    assert_eq!(truncate_str("Hello世界!!", 10), "Hello世..."); // 5 + 4 + 2 = 11 width, truncate
}

#[test]
fn text_test_truncate_str_empty() {
    assert_eq!(truncate_str("", 10), "");
    assert_eq!(truncate_str("", 0), "");
}

#[test]
fn text_test_truncate_str_small_max() {
    // When max_width is very small
    assert_eq!(truncate_str("hello", 3), "...");
    assert_eq!(truncate_str("hello", 4), "h...");
}

#[test]
fn app_test_truncate_str_ascii() {
    // ASCII strings: 1 char = 1 width
    assert_eq!(truncate_str("hello world", 8), "hello...");
    assert_eq!(truncate_str("short", 10), "short");
    assert_eq!(truncate_str("exact len", 9), "exact len");
}
#[test]
fn app_test_truncate_str_japanese() {
    // Japanese characters: 1 char = 2 width
    assert_eq!(truncate_str("日本語", 10), "日本語"); // 6 width, fits
    assert_eq!(truncate_str("日本語テスト", 10), "日本語..."); // 12 width -> truncate to 7 + "..."
}
#[test]
fn app_test_truncate_str_mixed() {
    // Mixed ASCII and CJK
    assert_eq!(truncate_str("Hello世界", 10), "Hello世界"); // 5 + 4 = 9 width, fits
    assert_eq!(truncate_str("Hello世界!", 10), "Hello世界!"); // 5 + 4 + 1 = 10 width, fits exactly
    assert_eq!(truncate_str("Hello世界!!", 10), "Hello世..."); // 5 + 4 + 2 = 11 width, truncate
}
#[test]
fn app_test_truncate_str_empty() {
    assert_eq!(truncate_str("", 10), "");
    assert_eq!(truncate_str("", 0), "");
}
#[test]
fn app_test_truncate_str_small_max() {
    // When max_width is very small
    assert_eq!(truncate_str("hello", 3), "...");
    assert_eq!(truncate_str("hello", 4), "h...");
}
#[test]
fn test_truncate_message_ascii() {
    assert_eq!(truncate_message("hello world", 8), "hello...");
    assert_eq!(truncate_message("short", 10), "short");
}

#[test]
fn test_truncate_message_japanese() {
    // Japanese characters: 1 char = 2 width
    assert_eq!(truncate_message("日本語", 10), "日本語"); // 6 width
    assert_eq!(truncate_message("日本語テスト", 10), "日本語..."); // 12 width -> truncate
}

#[test]
fn test_truncate_message_multiline() {
    // Should only use the first line
    assert_eq!(truncate_message("first\nsecond", 20), "first");
    assert_eq!(truncate_message("日本語\n英語", 20), "日本語");
}

#[test]
fn test_truncate_message_mixed() {
    assert_eq!(truncate_message("Hello世界", 10), "Hello世界"); // 5 + 4 = 9 width
    // "Error: 失敗しました" = 7 + 10 = 17 width, truncate to 15 → "Error: 失敗..." (7 + 4 + 3 = 14)
    assert_eq!(
        truncate_message("Error: 失敗しました", 15),
        "Error: 失敗..."
    );
}

#[test]
fn truncate_message_takes_first_line() {
    assert_eq!(truncate_message("", 5), "");
    assert_eq!(truncate_message("abcdefgh\nx", 6), "abc...");
    assert_eq!(truncate_str("abcdef", 2), "...");
}
