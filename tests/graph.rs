use xorcist::graph::{build_graph_rows, render_graph_row_plain, CellKind};
use xorcist::log::{reorder_entries_for_graph, LogEntry};

fn e(id: &str, parents: &[&str]) -> LogEntry {
    LogEntry {
        change_id: id.to_string(),
        change_id_prefix: id.to_string(),
        change_id_rest: String::new(),
        commit_id: id.to_string(),
        commit_id_prefix: id.to_string(),
        commit_id_rest: String::new(),
        commit_id_full: id.to_string(),
        parent_commit_ids: parents.iter().map(|s| s.to_string()).collect(),
        author: String::new(),
        timestamp: String::new(),
        description: String::new(),
        is_working_copy: false,
        is_immutable: false,
        is_empty: false,
        bookmarks: vec![],
    }
}

fn rows_plain(entries: &[LogEntry]) -> Vec<String> {
    build_graph_rows(entries)
        .iter()
        .map(render_graph_row_plain)
        .collect()
}

fn ids(entries: &[LogEntry]) -> Vec<String> {
    entries.iter().map(|e| e.commit_id_full.clone()).collect()
}

#[test]
fn graph_linear() {
    let entries = vec![e("A", &["B"]), e("B", &["C"]), e("C", &[])];
    let rows = rows_plain(&entries);
    assert_eq!(rows, vec!["○", "○", "○"]);
}

#[test]
fn graph_branch_and_converge() {
    let entries = vec![e("A", &["B"]), e("C", &["B"]), e("B", &["D"]), e("D", &[])];
    let rows = rows_plain(&entries);
    assert_eq!(rows, vec!["○", "○ │", "○─┘", "○"]);
}

#[test]
fn graph_merge_and_converge() {
    let entries = vec![
        e("M", &["P1", "P2"]),
        e("P1", &["R"]),
        e("P2", &["R"]),
        e("R", &["T"]),
        e("T", &[]),
    ];
    let rows = rows_plain(&entries);
    assert_eq!(rows, vec!["○─┐", "○ │", "│ ○", "○─┘", "○"]);
}

#[test]
fn graph_crossing_converge() {
    // Active lanes become [B, X, B] before B is drawn.
    let entries = vec![
        e("A", &["B"]),
        e("D", &["X"]),
        e("C", &["B"]),
        e("B", &["R"]),
        e("X", &[]),
        e("R", &[]),
    ];
    let rows = rows_plain(&entries);

    assert_eq!(rows[0], "○");
    assert_eq!(rows[1], "○ │");
    assert_eq!(rows[2], "○ │ │");
    assert_eq!(rows[3], "○─┼─┘");
}

#[test]
fn graph_merge_with_child() {
    let entries = vec![
        e("A", &["M"]),
        e("M", &["P1", "P2"]),
        e("P1", &["R"]),
        e("P2", &["R"]),
        e("R", &[]),
    ];
    let rows = rows_plain(&entries);

    assert_eq!(rows[0], "○", "A: working copy, single lane");
    assert_eq!(rows[1], "○─┐", "M: merge, split to right");
    assert_eq!(rows[2], "○ │", "P1: main line on left");
    assert_eq!(rows[3], "│ ○", "P2: feat branch on right");
    assert_eq!(rows[4], "○─┘", "R: convergence");
}

#[test]
fn graph_sibling_heads_wrong_order() {
    let mut p = e("p", &["mpkx", "o"]);
    p.bookmarks = vec!["main".to_string()];

    let mut y = e("y", &["o"]);
    y.is_working_copy = true;

    let o = e("o", &["mpkx"]);
    let mpkx = e("mpkx", &[]);

    let entries_wrong = vec![p.clone(), y.clone(), o.clone(), mpkx.clone()];
    let rows_wrong = rows_plain(&entries_wrong);
    assert_eq!(
        rows_wrong[0], "○─┐",
        "p: merge at lane 0 (wrong - should be @)"
    );

    let entries_correct = vec![y, p, o, mpkx];
    let rows_correct = rows_plain(&entries_correct);
    assert_eq!(rows_correct[0], "@", "y(@): working copy at top");
    assert_eq!(
        rows_correct[1], "○─┐",
        "p: merge, splits to right for second parent o"
    );
}

#[test]
fn layout_linear_chain_of_four() {
    let entries = vec![e("A", &["B"]), e("B", &["C"]), e("C", &["D"]), e("D", &[])];
    let rows = build_graph_rows(&entries);
    assert_eq!(rows.len(), 4);
    for row in &rows {
        assert_eq!(row.cells.len(), 1);
        assert_eq!(row.node_lane, 0);
        assert_eq!(row.cells[0].left, '○');
        assert_eq!(row.cells[0].right, ' ');
    }
    assert_eq!(rows_plain(&entries), vec!["○", "○", "○", "○"]);
}

#[test]
fn branch_and_converge_keeps_input_order() {
    let entries = vec![e("A", &["B"]), e("C", &["B"]), e("B", &["D"]), e("D", &[])];
    let sequenced = reorder_entries_for_graph(entries);
    assert_eq!(ids(&sequenced), vec!["A", "C", "B", "D"]);
    assert_eq!(rows_plain(&sequenced), vec!["○", "○ │", "○─┘", "○"]);
}

#[test]
fn merge_and_converge_four_rows() {
    let entries = vec![
        e("M", &["P1", "P2"]),
        e("P1", &["R"]),
        e("P2", &["R"]),
        e("R", &[]),
    ];
    let sequenced = reorder_entries_for_graph(entries);
    assert_eq!(ids(&sequenced), vec!["M", "P1", "P2", "R"]);
    assert_eq!(rows_plain(&sequenced), vec!["○─┐", "○ │", "│ ○", "○─┘"]);
}

#[test]
fn sibling_heads_sequenced_checked_out_first() {
    let p = e("P", &["M", "O"]);
    let mut y = e("Y", &["O"]);
    y.is_working_copy = true;
    let o = e("O", &[]);
    let m = e("M", &[]);
    let sequenced = reorder_entries_for_graph(vec![p, y, o, m]);
    assert_eq!(sequenced[0].commit_id_full, "Y");
    let rows = rows_plain(&sequenced);
    assert_eq!(rows[0], "@");
}

#[test]
fn row_count_matches_batch() {
    let entries = vec![
        e("A", &["B", "Z"]),
        e("Q", &[]),
        e("B", &["C"]),
        e("C", &["A"]),
        e("Z", &["outside"]),
    ];
    let n = entries.len();
    let rows = build_graph_rows(&reorder_entries_for_graph(entries));
    assert_eq!(rows.len(), n);
    assert!(build_graph_rows(&[]).is_empty());
}

#[test]
fn node_cell_kinds() {
    let mut a = e("A", &["B", "C"]);
    a.is_immutable = true;
    let rows = build_graph_rows(&[a, e("B", &[]), e("C", &[])]);
    let first = &rows[0];
    assert_eq!(
        first.cells[0].kind_left,
        CellKind::Node {
            is_working_copy: false,
            is_immutable: true
        }
    );
    assert_eq!(first.cells[0].left, '◆');
    assert_eq!(first.cells[1].kind_left, CellKind::Lane { lane: 1 });
    assert_eq!(first.cells[1].left, '┐');
    assert_eq!(first.active_lane_count, 2);
}

#[test]
fn parent_outside_batch_ends_lane() {
    let rows = rows_plain(&[e("A", &["gone"]), e("B", &[])]);
    assert_eq!(rows, vec!["○", "○"]);
}
