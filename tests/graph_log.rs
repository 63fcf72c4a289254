use xorcist::graph_log::{extract_change_id, extract_commit_fields, strip_ansi, GraphLine, GraphLog};

#[test]
fn test_strip_ansi() {
    let input = "\x1b[1m\x1b[38;5;5mq\x1b[0m\x1b[38;5;8mzmtztvn\x1b[39m test";
    let result = strip_ansi(input);
    assert_eq!(result, "qzmtztvn test");
}

#[test]
fn test_extract_change_id_simple() {
    // Working copy marker
    let line = "@  qzmtztvn 1XD 11m feat: test";
    assert_eq!(extract_change_id(line), Some("qzmtztvn".to_string()));

    // Regular commit marker
    let line = "◆  rvzpxnov 1XD 12h refactor: something";
    assert_eq!(extract_change_id(line), Some("rvzpxnov".to_string()));

    // Circle marker
    let line = "○  abcdefgh Author 1d fix: bug";
    assert_eq!(extract_change_id(line), Some("abcdefgh".to_string()));
}

#[test]
fn test_extract_change_id_with_graph_branches() {
    // Branch point
    let line = "├─╮";
    assert_eq!(extract_change_id(line), None);

    // Vertical line
    let line = "│ ◆  xyzwvuts 1XD 1h test";
    assert_eq!(extract_change_id(line), Some("xyzwvuts".to_string()));

    // Merge line with content
    let line = "├─╯";
    assert_eq!(extract_change_id(line), None);
}

#[test]
fn test_extract_change_id_edge_cases() {
    // Empty line
    assert_eq!(extract_change_id(""), None);

    // Only graph symbols
    assert_eq!(extract_change_id("│  "), None);

    // Too short id (should not match)
    assert_eq!(extract_change_id("@  abc 1XD 1h test"), None);
}

#[test]
fn test_graph_line_creation() {
    let raw = "\x1b[1m@\x1b[0m  \x1b[1m\x1b[38;5;5mq\x1b[0mzmtztvn 1XD 11m feat: test";
    let line = GraphLine::new(raw.to_string(), 0);

    assert!(line.is_commit_line());
    assert_eq!(line.change_id, Some("qzmtztvn".to_string()));
    assert_eq!(line.description, Some("feat: test".to_string()));
    assert_eq!(line.line_index, 0);
}

#[test]
fn test_graph_line_empty_description() {
    let raw = "@  qzmtztvn Author 1h ";
    let line = GraphLine::new(raw.to_string(), 0);

    assert!(line.is_commit_line());
    assert_eq!(line.change_id, Some("qzmtztvn".to_string()));
    assert_eq!(line.description, Some("".to_string()));
}

#[test]
fn test_graph_line_no_description() {
    // Line with no trailing space - description should still be captured as empty
    let raw = "@  qzmtztvn Author 1h";
    let line = GraphLine::new(raw.to_string(), 0);

    assert!(line.is_commit_line());
    assert_eq!(line.change_id, Some("qzmtztvn".to_string()));
    assert_eq!(line.description, Some("".to_string()));
}

#[test]
fn test_extract_commit_fields() {
    // Normal commit with description
    let (cid, desc) = extract_commit_fields("@  qzmtztvn Author 1h feat: add feature");
    assert_eq!(cid, Some("qzmtztvn".to_string()));
    assert_eq!(desc, Some("feat: add feature".to_string()));

    // Commit with empty description
    let (cid, desc) = extract_commit_fields("@  qzmtztvn Author 1h ");
    assert_eq!(cid, Some("qzmtztvn".to_string()));
    assert_eq!(desc, Some("".to_string()));

    // Non-commit line (graph branch)
    let (cid, desc) = extract_commit_fields("├─╮");
    assert_eq!(cid, None);
    assert_eq!(desc, None);
}

#[test]
fn test_graph_log_from_output() {
    let output = "@  qzmtztvn 1XD 11m feat: test
◆  rvzpxnov 1XD 12h refactor: something
├─╮
│ ◆  xyzwvuts 1XD 1h test
├─╯
◆  abcdefgh 1XD 1d init";

    let log = GraphLog::from_output(output);

    assert_eq!(log.lines.len(), 6);
    assert_eq!(log.commit_count(), 4);
    assert_eq!(log.commit_line_indices, vec![0, 1, 3, 5]);

    assert_eq!(log.change_id_for_selection(0), Some("qzmtztvn"));
    assert_eq!(log.change_id_for_selection(1), Some("rvzpxnov"));
    assert_eq!(log.change_id_for_selection(2), Some("xyzwvuts"));
    assert_eq!(log.change_id_for_selection(3), Some("abcdefgh"));
    assert_eq!(log.change_id_for_selection(4), None);
}

#[test]
fn test_graph_log_empty() {
    let log = GraphLog::from_output("");
    assert!(log.is_empty());
    assert_eq!(log.commit_count(), 0);
}

#[test]
fn commit_line_with_bookmarks() {
    let (cid, desc) = extract_commit_fields("○  abcdefgh Author 1d [main,dev] fix: bug");
    assert_eq!(cid, Some("abcdefgh".to_string()));
    assert_eq!(desc, Some("fix: bug".to_string()));
}

#[test]
fn strip_ansi_keeps_incomplete_codes() {
    assert_eq!(strip_ansi("a\x1b[12b"), "a\x1b[12b");
    assert_eq!(strip_ansi("\x1b[m\x1b[0;1mx"), "x");
}

#[test]
fn extend_shifts_indices() {
    let mut log = GraphLog::from_output("@  qzmtztvn A 1h one\n│");
    let more = GraphLog::from_output("├─╮\n○  rvzpxnov B 2h two");
    log.extend(more);
    assert_eq!(log.lines.len(), 4);
    assert_eq!(log.commit_line_indices, vec![0, 3]);
    assert_eq!(log.lines[3].line_index, 3);
    assert_eq!(log.change_id_for_selection(1), Some("rvzpxnov"));
    assert_eq!(log.line_index_for_selection(1), Some(3));
    assert_eq!(log.line_index_for_selection(2), None);
    assert!(!log.is_empty());
    assert!(GraphLog::default().is_empty());
}
