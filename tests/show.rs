use xorcist::error::XorcistError;
use xorcist::show::{parse_diff_summary, parse_show_meta, show_output_from, DiffStatus};

#[test]
fn test_parse_show_meta() {
    // Format: change_prefix\0change_rest\0commit_prefix\0commit_rest\0author\0timestamp\0description\0bookmarks
    let output =
        "abc\x00123\x00def\x00456\x00Alice\x002 hours ago\x00Add feature\x00main,dev\n";
    let result = parse_show_meta(output).unwrap();

    assert_eq!(result.change_id_prefix, "abc");
    assert_eq!(result.change_id_rest, "123");
    assert_eq!(result.change_id, "abc123");
    assert_eq!(result.commit_id_prefix, "def");
    assert_eq!(result.commit_id_rest, "456");
    assert_eq!(result.commit_id, "def456");
    assert_eq!(result.author, "Alice");
    assert_eq!(result.timestamp, "2 hours ago");
    assert_eq!(result.description, "Add feature");
    assert_eq!(result.bookmarks, vec!["main", "dev"]);
}

#[test]
fn test_parse_show_meta_no_bookmarks() {
    let output = "abc\x00123\x00def\x00456\x00Alice\x002 hours ago\x00Add feature\x00\n";
    let result = parse_show_meta(output).unwrap();

    assert!(result.bookmarks.is_empty());
}

#[test]
fn test_parse_show_meta_multiline_description() {
    // In jj template output, newlines within description are preserved.
    // Our parser handles multi-line descriptions correctly.
    let output =
        "abc\x00123\x00def\x00456\x00Alice\x002 hours ago\x00First line\nSecond line\x00main\n";
    let result = parse_show_meta(output).unwrap();

    assert_eq!(result.description, "First line\nSecond line");
    assert_eq!(result.bookmarks, vec!["main"]);
}

#[test]
fn test_parse_show_meta_description_with_trailing_newline() {
    // jj's description often has a trailing newline, which should be trimmed
    let output = "abc\x00123\x00def\x00456\x00Alice\x002 hours ago\x00Add feature\n\x00main\n";
    let result = parse_show_meta(output).unwrap();

    assert_eq!(result.description, "Add feature");
    assert_eq!(result.bookmarks, vec!["main"]);
}

#[test]
fn test_parse_show_meta_empty_rest() {
    // When the entire ID is the unique prefix, rest is empty
    let output = "abcd\x00\x00defg\x00\x00Alice\x00now\x00Test\x00\n";
    let result = parse_show_meta(output).unwrap();

    assert_eq!(result.change_id_prefix, "abcd");
    assert!(result.change_id_rest.is_empty());
    assert_eq!(result.change_id, "abcd");
    assert_eq!(result.commit_id_prefix, "defg");
    assert!(result.commit_id_rest.is_empty());
}

#[test]
fn test_parse_diff_summary() {
    let output = r#"A src/new_file.rs
M src/main.rs
D src/old_file.rs
"#;
    let entries = parse_diff_summary(output);

    assert_eq!(entries.len(), 3);

    assert_eq!(entries[0].status, DiffStatus::Added);
    assert_eq!(entries[0].path, "src/new_file.rs");

    assert_eq!(entries[1].status, DiffStatus::Modified);
    assert_eq!(entries[1].path, "src/main.rs");

    assert_eq!(entries[2].status, DiffStatus::Deleted);
    assert_eq!(entries[2].path, "src/old_file.rs");
}

#[test]
fn test_parse_diff_summary_empty() {
    let output = "";
    let entries = parse_diff_summary(output);
    assert!(entries.is_empty());
}

#[test]
fn test_parse_diff_summary_with_spaces_in_path() {
    let output = "M path/with spaces/file.rs\n";
    let entries = parse_diff_summary(output);

    assert_eq!(entries.len(), 1);
    assert_eq!(entries[0].path, "path/with spaces/file.rs");
}

#[test]
fn show_meta_too_few_fields() {
    match parse_show_meta("a\x00b\x00c\n") {
        Err(XorcistError::JjError(m)) => {
            assert_eq!(m, "unexpected show output format: expected 8 fields, got 3")
        }
        _ => panic!("expected an error"),
    }
}

#[test]
fn diff_summary_skips_unknown_and_blank() {
    let entries = parse_diff_summary("  R old.rs\n\nX what.rs\nC  two  spaces.rs  \nMM a\nA\n");
    assert_eq!(entries.len(), 2);
    assert_eq!(entries[0].status, DiffStatus::Renamed);
    assert_eq!(entries[0].path, "old.rs");
    assert_eq!(entries[1].status, DiffStatus::Copied);
    assert_eq!(entries[1].path, " two  spaces.rs");
}

#[test]
fn show_output_assembles() {
    let out = show_output_from(
        "abc\x00123\x00def\x00456\x00Alice\x00now\x00Desc\n\x00main\n",
        "M src/lib.rs\n",
    )
    .unwrap();
    assert_eq!(out.change_id, "abc123");
    assert_eq!(out.commit_id, "def456");
    assert_eq!(out.description, "Desc");
    assert_eq!(out.bookmarks, vec!["main"]);
    assert_eq!(out.diff_summary.len(), 1);
    assert_eq!(out.diff_summary[0].status, DiffStatus::Modified);
}
