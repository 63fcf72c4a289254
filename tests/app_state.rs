use std::path::Path;

use xorcist::app_state::App;
use xorcist::log::LogEntry;
use xorcist::runner::JjRunner;
use xorcist::show::ShowOutput;
use xorcist::state::{DetailState, ModalState, PendingAction, View};

fn make_entry(id: &str) -> LogEntry {
    LogEntry {
        change_id: id.to_string(),
        change_id_prefix: id.to_string(),
        change_id_rest: String::new(),
        commit_id: format!("commit_{id}"),
        commit_id_prefix: format!("commit_{id}"),
        commit_id_rest: String::new(),
        commit_id_full: format!("commit_{id}_FULL"),
        parent_commit_ids: vec![],
        author: "Test".to_string(),
        timestamp: "now".to_string(),
        description: format!("Entry {id}"),
        is_working_copy: false,
        is_immutable: false,
        is_empty: false,
        bookmarks: vec![],
    }
}

fn make_runner() -> JjRunner {
    JjRunner::new().with_work_dir(Path::new("/tmp"))
}

#[test]
fn app_test_navigation() {
    let entries = vec![make_entry("1"), make_entry("2"), make_entry("3")];
    let mut app = App::new(entries, "/repo".to_string(), make_runner());

    assert_eq!(app.selected, 0);

    app.select_next();
    assert_eq!(app.selected, 1);

    app.select_next();
    assert_eq!(app.selected, 2);

    // Should not go past the end
    app.select_next();
    assert_eq!(app.selected, 2);

    app.select_previous();
    assert_eq!(app.selected, 1);

    app.select_first();
    assert_eq!(app.selected, 0);

    app.select_last();
    assert_eq!(app.selected, 2);
}

#[test]
fn app_test_page_navigation() {
    let entries: Vec<_> = (0..20).map(|i| make_entry(&i.to_string())).collect();
    let mut app = App::new(entries, "/repo".to_string(), make_runner());

    app.page_down(5);
    assert_eq!(app.selected, 5);

    app.page_down(5);
    assert_eq!(app.selected, 10);

    app.page_up(3);
    assert_eq!(app.selected, 7);

    // Page down past the end
    app.page_down(100);
    assert_eq!(app.selected, 19);

    // Page up past the beginning
    app.page_up(100);
    assert_eq!(app.selected, 0);
}

#[test]
fn app_test_empty_entries() {
    let mut app = App::new(vec![], "/repo".to_string(), make_runner());

    // Should not panic on empty list
    app.select_next();
    app.select_previous();
    app.select_first();
    app.select_last();
    app.page_down(5);
    app.page_up(5);

    assert_eq!(app.selected, 0);
}

#[test]
fn app_test_view_transitions() {
    let entries = vec![make_entry("1")];
    let mut app = App::new(entries, "/repo".to_string(), make_runner());

    assert_eq!(app.view, View::Log);
    assert!(app.detail_state.is_none());

    // Note: open_detail would fail without a real jj repo
    // We just test close_detail here
    app.view = View::Detail;
    app.detail_state = Some(DetailState {
        show_output: ShowOutput {
            change_id: "abc123".to_string(),
            change_id_prefix: "abc".to_string(),
            change_id_rest: "123".to_string(),
            commit_id: "def456".to_string(),
            commit_id_prefix: "def".to_string(),
            commit_id_rest: "456".to_string(),
            author: "Test".to_string(),
            timestamp: "now".to_string(),
            description: "Test".to_string(),
            bookmarks: vec![],
            diff_summary: vec![],
        },
        scroll: 5,
        content_height: 20,
    });

    app.close_detail();
    assert_eq!(app.view, View::Log);
    assert!(app.detail_state.is_none());
}

#[test]
fn app_test_detail_scroll() {
    let mut app = App::new(vec![], "/repo".to_string(), make_runner());
    app.detail_state = Some(DetailState {
        show_output: ShowOutput {
            change_id: "abc123".to_string(),
            change_id_prefix: "abc".to_string(),
            change_id_rest: "123".to_string(),
            commit_id: "def456".to_string(),
            commit_id_prefix: "def".to_string(),
            commit_id_rest: "456".to_string(),
            author: "Test".to_string(),
            timestamp: "now".to_string(),
            description: "Test".to_string(),
            bookmarks: vec![],
            diff_summary: vec![],
        },
        scroll: 5,
        content_height: 20,
    });

    app.detail_scroll_down(3);
    assert_eq!(app.detail_state.as_ref().unwrap().scroll, 8);

    app.detail_scroll_up(2);
    assert_eq!(app.detail_state.as_ref().unwrap().scroll, 6);

    // Scroll up past beginning
    app.detail_scroll_up(100);
    assert_eq!(app.detail_state.as_ref().unwrap().scroll, 0);
}

#[test]
fn app_test_set_detail_content_height() {
    let mut app = App::new(vec![], "/repo".to_string(), make_runner());
    app.detail_state = Some(DetailState {
        show_output: ShowOutput {
            change_id: "abc123".to_string(),
            change_id_prefix: "abc".to_string(),
            change_id_rest: "123".to_string(),
            commit_id: "def456".to_string(),
            commit_id_prefix: "def".to_string(),
            commit_id_rest: "456".to_string(),
            author: "Test".to_string(),
            timestamp: "now".to_string(),
            description: "Test".to_string(),
            bookmarks: vec![],
            diff_summary: vec![],
        },
        scroll: 50,
        content_height: 0,
    });

    // Setting height should clamp scroll
    app.set_detail_content_height(20);
    assert_eq!(app.detail_state.as_ref().unwrap().content_height, 20);
    assert_eq!(app.detail_state.as_ref().unwrap().scroll, 19);
}

#[test]
fn app_test_should_load_more_not_pending() {
    let entries: Vec<_> = (0..100).map(|i| make_entry(&i.to_string())).collect();
    let mut app = App::new(entries, "/repo".to_string(), make_runner());
    app.set_log_limit(Some(100));

    // No pending request
    assert!(!app.should_load_more());
}

#[test]
fn app_test_should_load_more_near_end() {
    let entries: Vec<_> = (0..100).map(|i| make_entry(&i.to_string())).collect();
    let mut app = App::new(entries, "/repo".to_string(), make_runner());
    app.set_log_limit(Some(100));

    // Move near the end and request load
    app.selected = 95; // 5 from end, within LOAD_MORE_THRESHOLD (50)
    app.request_load_more_check();

    assert!(app.should_load_more());
}

#[test]
fn app_test_should_load_more_not_near_end() {
    let entries: Vec<_> = (0..100).map(|i| make_entry(&i.to_string())).collect();
    let mut app = App::new(entries, "/repo".to_string(), make_runner());
    app.set_log_limit(Some(100));

    // Stay at the beginning
    app.selected = 10; // 90 from end, outside LOAD_MORE_THRESHOLD
    app.request_load_more_check();

    assert!(!app.should_load_more());
}

#[test]
fn app_test_should_load_more_all_mode() {
    let entries: Vec<_> = (0..100).map(|i| make_entry(&i.to_string())).collect();
    let mut app = App::new(entries, "/repo".to_string(), make_runner());
    app.set_log_limit(None); // --all mode

    app.selected = 95;
    app.request_load_more_check();

    // Should not load in --all mode
    assert!(!app.should_load_more());
}

#[test]
fn app_test_should_load_more_no_more_entries() {
    let entries: Vec<_> = (0..50).map(|i| make_entry(&i.to_string())).collect();
    let mut app = App::new(entries, "/repo".to_string(), make_runner());
    app.set_log_limit(Some(100));

    // Fewer entries than limit means no more available
    assert!(!app.has_more_entries);

    app.selected = 45;
    app.request_load_more_check();

    assert!(!app.should_load_more());
}

#[test]
fn app_test_start_loading_clears_pending() {
    let entries: Vec<_> = (0..100).map(|i| make_entry(&i.to_string())).collect();
    let mut app = App::new(entries, "/repo".to_string(), make_runner());
    app.set_log_limit(Some(100));

    app.selected = 95;
    app.request_load_more_check();
    assert!(app.should_load_more());

    app.start_loading();
    assert!(app.is_loading_more);
    assert!(!app.should_load_more()); // pending cleared, is_loading_more blocks
}

#[test]
fn app_rows_follow_entries() {
    let mut a = make_entry("a");
    a.parent_commit_ids = vec!["commit_b_FULL".to_string()];
    let app = App::new(vec![a, make_entry("b")], "/repo".to_string(), make_runner());
    assert_eq!(app.graph_rows.len(), 2);
}

#[test]
fn app_append_page_resequences() {
    let mut head = make_entry("h");
    head.parent_commit_ids = vec!["commit_p_FULL".to_string()];
    let mut app = App::new(vec![head], "/repo".to_string(), make_runner());
    app.set_log_limit(Some(1));
    assert!(app.has_more_entries);
    app.start_loading();
    let (anchor, batch) = app.load_more_request().unwrap();
    assert_eq!(anchor, "h");
    assert_eq!(batch, 1);
    let mut child = make_entry("c");
    child.parent_commit_ids = vec!["commit_h_FULL".to_string()];
    let added = app.append_page(vec![make_entry("p"), child], batch);
    assert!(added);
    assert!(!app.is_loading_more);
    assert!(app.has_more_entries);
    let ids: Vec<&str> = app.entries.iter().map(|e| e.change_id.as_str()).collect();
    assert_eq!(ids, vec!["c", "h", "p"]);
    assert_eq!(app.graph_rows.len(), 3);
    assert!(!app.append_page(vec![], batch));
    assert!(!app.has_more_entries);
}

#[test]
fn app_confirm_flow() {
    let mut app = App::new(vec![make_entry("1")], "/repo".to_string(), make_runner());
    assert!(!app.is_modal_open());
    app.show_abandon_confirm();
    assert!(app.is_modal_open());
    match app.take_pending_action() {
        Some(PendingAction::Abandon { change_id, description }) => {
            assert_eq!(change_id, "1");
            assert_eq!(description, "Entry 1");
        }
        _ => panic!("expected an abandon action"),
    }
    assert!(matches!(app.modal, ModalState::Hidden));
    assert!(app.take_pending_action().is_none());
    app.show_undo_confirm();
    app.close_modal();
    assert!(!app.is_modal_open());
}

#[test]
fn app_input_and_bookmark_rules() {
    let mut app = App::new(vec![make_entry("1")], "/repo".to_string(), make_runner());
    assert!(app.take_input().is_none());
    app.start_input_mode(xorcist::state::InputMode::Describe);
    assert!(app.is_input_mode());
    let (mode, text) = app.take_input().unwrap();
    assert_eq!(mode, xorcist::state::InputMode::Describe);
    assert_eq!(text, "");
    assert!(!app.is_input_mode());
    assert!(app.refuse_empty_bookmark(""));
    let r = app.last_command_result.as_ref().unwrap();
    assert!(!r.success);
    assert_eq!(r.message, "Bookmark name cannot be empty");
    assert!(!app.refuse_empty_bookmark("main"));
}
