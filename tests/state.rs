use xorcist::show::{DiffEntry, DiffStatus};
use xorcist::state::{DiffState, InputMode, ModalState, PendingAction, View};

fn make_diff_entries(count: usize) -> Vec<DiffEntry> {
    (0..count)
        .map(|i| DiffEntry {
            status: DiffStatus::Modified,
            path: format!("src/file{i}.rs"),
        })
        .collect()
}

#[test]
fn test_diff_state_new() {
    let files = make_diff_entries(3);
    let state = DiffState::new("abcd1234".to_string(), files.clone());

    assert_eq!(state.change_id, "abcd1234");
    assert_eq!(state.files.len(), 3);
    assert_eq!(state.selected, 0);
    assert_eq!(state.file_scroll, 0);
    assert!(state.diff_lines.is_empty());
    assert_eq!(state.diff_scroll, 0);
}

#[test]
fn test_diff_state_selected_file() {
    let files = make_diff_entries(3);
    let mut state = DiffState::new("abcd1234".to_string(), files);

    assert_eq!(state.selected_file().unwrap().path, "src/file0.rs");

    state.selected = 1;
    assert_eq!(state.selected_file().unwrap().path, "src/file1.rs");

    state.selected = 2;
    assert_eq!(state.selected_file().unwrap().path, "src/file2.rs");

    state.selected = 10;
    assert!(state.selected_file().is_none());
}

#[test]
fn test_diff_state_empty_files() {
    let state = DiffState::new("abcd1234".to_string(), vec![]);

    assert!(state.files.is_empty());
    assert!(state.selected_file().is_none());
}

#[test]
fn test_diff_select_navigation() {
    let mut state = DiffState::new("abcd1234".to_string(), make_diff_entries(5));

    assert_eq!(state.selected, 0);

    state.select_next();
    assert_eq!(state.selected, 1);

    state.select_next();
    state.select_next();
    state.select_next();
    assert_eq!(state.selected, 4);

    state.select_next();
    assert_eq!(state.selected, 4);

    state.select_previous();
    assert_eq!(state.selected, 3);

    state.selected = 0;
    state.select_previous();
    assert_eq!(state.selected, 0);
}

#[test]
fn test_diff_scroll() {
    let mut state = DiffState::new("abcd1234".to_string(), vec![]);
    state.diff_lines = vec!["line1".to_string(); 100];
    state.diff_scroll = 0;

    state.scroll_down(10);
    assert_eq!(state.diff_scroll, 10);

    state.scroll_down(5);
    assert_eq!(state.diff_scroll, 15);

    state.scroll_up(3);
    assert_eq!(state.diff_scroll, 12);

    state.scroll_up(100);
    assert_eq!(state.diff_scroll, 0);
}

#[test]
fn test_clamp_diff_scroll() {
    let mut state = DiffState::new("abcd1234".to_string(), vec![]);
    state.diff_lines = vec!["line".to_string(); 50];
    state.diff_scroll = 100;

    // Visible height 20, content 50 -> max_scroll = 30
    state.clamp_scroll(20);
    assert_eq!(state.diff_scroll, 30);

    state.diff_scroll = 10;
    state.clamp_scroll(20);
    assert_eq!(state.diff_scroll, 10);
}

#[test]
fn test_ensure_diff_file_visible() {
    let mut state = DiffState::new("abcd1234".to_string(), make_diff_entries(20));

    assert_eq!(state.file_scroll, 0);

    state.selected = 10;
    state.ensure_file_visible(5);
    assert_eq!(state.file_scroll, 6);

    state.selected = 2;
    state.ensure_file_visible(5);
    assert_eq!(state.file_scroll, 2);

    state.file_scroll = 5;
    state.selected = 7;
    state.ensure_file_visible(5);
    assert_eq!(state.file_scroll, 5);
}

#[test]
fn test_ensure_diff_file_visible_zero_height() {
    let mut state = DiffState::new("abcd1234".to_string(), make_diff_entries(10));
    state.file_scroll = 5;

    state.ensure_file_visible(0);
    assert_eq!(state.file_scroll, 5);
}

#[test]
fn diff_scroll_saturates_at_the_top_of_the_range() {
    let mut state = DiffState::new("x".to_string(), vec![]);
    state.diff_scroll = 3;
    state.scroll_down(usize::MAX);
    assert_eq!(state.diff_scroll, usize::MAX);
}

#[test]
fn diff_horizontal_clamp_uses_widest_line() {
    let mut state = DiffState::new("x".to_string(), vec![]);
    state.diff_lines = vec!["short".to_string(), "日本語テスト".to_string()];
    state.diff_h_scroll = 50;
    state.clamp_h_scroll(4);
    assert_eq!(state.diff_h_scroll, 8);
    state.scroll_left(3);
    assert_eq!(state.diff_h_scroll, 5);
    state.scroll_right(2);
    assert_eq!(state.diff_h_scroll, 7);
}

#[test]
fn confirm_messages() {
    let a = PendingAction::Abandon {
        change_id: "x".to_string(),
        description: "fix things".to_string(),
    };
    assert_eq!(a.confirm_message(), "Abandon change: \"fix things\"?");
    let long = "a".repeat(50);
    let s = PendingAction::Squash {
        change_id: "x".to_string(),
        description: long,
    };
    assert_eq!(
        s.confirm_message(),
        format!("Squash change: \"{}...\" into parent?", "a".repeat(37))
    );
    assert_eq!(PendingAction::GitPush.confirm_message(), "Push to remote?");
    assert_eq!(PendingAction::Undo.confirm_message(), "Undo last operation?");
}

#[test]
fn placeholders_and_defaults() {
    assert_eq!(InputMode::Describe.placeholder(), "Enter commit message...");
    assert_eq!(InputMode::BookmarkSet.placeholder(), "Enter bookmark name...");
    assert_eq!(
        InputMode::NewWithMessage.placeholder(),
        "Enter message (empty for no message)..."
    );
    assert_eq!(View::default(), View::Log);
    assert!(matches!(ModalState::default(), ModalState::Hidden));
}
