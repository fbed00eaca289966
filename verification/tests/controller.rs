use weztui::app::{Command, Core, Key, KeyPress, Mode, PendingAction, StatusMessage, TreeOp};
use weztui::model::{WezPane, WezTab, WezWindow};
use weztui::session::SessionSummary;
use weztui::tree::NodeId;

fn key(k: Key) -> KeyPress {
    KeyPress { key: k, ctrl: false }
}

fn make_window(id: u64, title: &str, tabs: Vec<WezTab>) -> WezWindow {
    WezWindow { window_id: id, title: Some(title.to_string()), workspace: "default".to_string(), tabs }
}

fn make_tab(id: u64, title: &str, panes: Vec<WezPane>) -> WezTab {
    WezTab { tab_id: id, title: Some(title.to_string()), panes }
}

fn make_pane(id: u64, title: &str, cwd: &str) -> WezPane {
    WezPane {
        pane_id: id,
        title: title.to_string(),
        cwd: Some(cwd.to_string()),
        is_active: false,
        left: 0,
        top: 0,
        width: 80,
        height: 24,
    }
}

fn sample_windows() -> Vec<WezWindow> {
    vec![
        make_window(1, "Dev", vec![
            make_tab(10, "editor", vec![
                make_pane(100, "nvim", "/home/user/code"),
                make_pane(101, "zsh", "/home/user/code"),
            ]),
            make_tab(11, "logs", vec![make_pane(102, "tail", "/var/log")]),
        ]),
        make_window(2, "Browser", vec![make_tab(20, "http", vec![make_pane(200, "curl", "/tmp")])]),
    ]
}

/// The state a fresh interface starts in; the tree view then selects the
/// first window.
fn core_with_windows(windows: Vec<WezWindow>) -> Core {
    Core::new(windows, None)
}

fn first_window() -> NodeId {
    NodeId::Window(1)
}

#[test]
fn quit_on_q() {
    let mut app = core_with_windows(sample_windows());
    assert!(!app.should_quit);
    app.handle_key(key(Key::Char('q')), Some(&first_window()));
    assert!(app.should_quit);
}

#[test]
fn quit_on_esc() {
    let mut app = core_with_windows(sample_windows());
    app.handle_key(key(Key::Esc), Some(&first_window()));
    assert!(app.should_quit);
}

#[test]
fn unknown_key_is_ignored() {
    let mut app = core_with_windows(sample_windows());
    let cmd = app.handle_key(key(Key::Char('z')), Some(&first_window()));
    assert_eq!(cmd, Command::Nothing);
    assert!(!app.should_quit);
}

#[test]
fn enter_on_window_toggles_tree() {
    let mut app = core_with_windows(sample_windows());
    let cmd = app.handle_key(key(Key::Enter), Some(&NodeId::Window(2)));
    assert_eq!(cmd, Command::Tree(TreeOp::ToggleSelected));
    assert!(!app.should_quit);
    assert_eq!(app.mode, Mode::Normal);
}

#[test]
fn enter_on_tab_toggles_tree() {
    let mut app = core_with_windows(sample_windows());
    let cmd = app.handle_key(key(Key::Enter), Some(&NodeId::Tab(10)));
    assert_eq!(cmd, Command::Tree(TreeOp::ToggleSelected));
    assert!(!app.should_quit);
    assert_eq!(app.mode, Mode::Normal);
}

#[test]
fn enter_rename_on_tab() {
    let mut app = core_with_windows(sample_windows());
    app.handle_key(key(Key::Char('r')), Some(&NodeId::Tab(10)));
    assert_eq!(app.mode, Mode::Rename { input: "editor".to_string(), cursor: 6 });
}

#[test]
fn enter_rename_on_window() {
    let mut app = core_with_windows(sample_windows());
    app.handle_key(key(Key::Char('r')), Some(&NodeId::Window(1)));
    assert_eq!(app.mode, Mode::Rename { input: "Dev".to_string(), cursor: 3 });
}

#[test]
fn enter_rename_on_pane_shows_error() {
    let mut app = core_with_windows(sample_windows());
    app.handle_key(key(Key::Char('r')), Some(&NodeId::Pane(100)));
    assert_eq!(app.mode, Mode::Normal);
    assert!(app.status_message.as_ref().unwrap().is_error);
    assert!(app.status_message.as_ref().unwrap().text.contains("Cannot rename"));
}

#[test]
fn cancel_rename_with_esc() {
    let mut app = core_with_windows(sample_windows());
    let sel = NodeId::Tab(10);
    app.handle_key(key(Key::Char('r')), Some(&sel));
    assert!(matches!(app.mode, Mode::Rename { .. }));
    app.handle_key(key(Key::Esc), Some(&sel));
    assert_eq!(app.mode, Mode::Normal);
    assert!(!app.should_quit);
}

#[test]
fn rename_input_typing() {
    let mut app = core_with_windows(sample_windows());
    let sel = NodeId::Window(1);
    app.mode = Mode::Rename { input: String::new(), cursor: 0 };
    app.handle_key(key(Key::Char('h')), Some(&sel));
    app.handle_key(key(Key::Char('i')), Some(&sel));
    assert_eq!(app.mode, Mode::Rename { input: "hi".to_string(), cursor: 2 });
}

#[test]
fn rename_input_backspace() {
    let mut app = core_with_windows(sample_windows());
    let sel = NodeId::Window(1);
    app.mode = Mode::Rename { input: "hello".to_string(), cursor: 5 };
    app.handle_key(key(Key::Backspace), Some(&sel));
    assert_eq!(app.mode, Mode::Rename { input: "hell".to_string(), cursor: 4 });
}

#[test]
fn rename_input_cursor_movement() {
    let mut app = core_with_windows(sample_windows());
    let sel = NodeId::Window(1);
    app.mode = Mode::Rename { input: "hello".to_string(), cursor: 5 };
    app.handle_key(key(Key::Left), Some(&sel));
    app.handle_key(key(Key::Left), Some(&sel));
    app.handle_key(key(Key::Char('X')), Some(&sel));
    assert_eq!(app.mode, Mode::Rename { input: "helXlo".to_string(), cursor: 4 });
}

#[test]
fn q_in_rename_types_q() {
    let mut app = core_with_windows(sample_windows());
    let sel = NodeId::Window(1);
    app.mode = Mode::Rename { input: String::new(), cursor: 0 };
    app.handle_key(key(Key::Char('q')), Some(&sel));
    assert!(!app.should_quit);
    assert_eq!(app.mode, Mode::Rename { input: "q".to_string(), cursor: 1 });
}

#[test]
fn enter_move_on_pane() {
    let mut app = core_with_windows(sample_windows());
    app.handle_key(key(Key::Char('m')), Some(&NodeId::Pane(100)));
    assert_eq!(app.mode, Mode::Move { grabbed: NodeId::Pane(100), grabbed_label: "nvim".to_string() });
}

#[test]
fn enter_move_on_tab() {
    let mut app = core_with_windows(sample_windows());
    app.handle_key(key(Key::Char('m')), Some(&NodeId::Tab(10)));
    assert_eq!(app.mode, Mode::Move { grabbed: NodeId::Tab(10), grabbed_label: "editor".to_string() });
}

#[test]
fn enter_move_single_window_shows_error() {
    let windows = vec![make_window(1, "Only", vec![make_tab(10, "tab", vec![make_pane(100, "zsh", "/tmp")])])];
    let mut app = core_with_windows(windows);
    app.handle_key(key(Key::Char('m')), Some(&NodeId::Pane(100)));
    assert_eq!(app.mode, Mode::Normal);
    assert!(app.status_message.as_ref().unwrap().text.contains("No other windows"));
}

#[test]
fn cancel_move_with_esc() {
    let mut app = core_with_windows(sample_windows());
    let sel = NodeId::Pane(100);
    app.handle_key(key(Key::Char('m')), Some(&sel));
    assert!(matches!(app.mode, Mode::Move { .. }));
    app.handle_key(key(Key::Esc), Some(&sel));
    assert_eq!(app.mode, Mode::Normal);
}

#[test]
fn enter_confirm_close_pane() {
    let mut app = core_with_windows(sample_windows());
    app.handle_key(key(Key::Char('x')), Some(&NodeId::Pane(100)));
    assert_eq!(
        app.mode,
        Mode::Confirm { action: PendingAction::ClosePanes(vec![100]), label: "Close pane 100?".to_string() },
    );
}

#[test]
fn enter_confirm_close_tab() {
    let mut app = core_with_windows(sample_windows());
    app.handle_key(key(Key::Char('x')), Some(&NodeId::Tab(10)));
    if let Mode::Confirm { action: PendingAction::ClosePanes(ids), ref label } = &app.mode {
        assert_eq!(*ids, vec![100, 101]);
        assert!(label.contains("editor"));
        assert!(label.contains("2 pane(s)"));
    } else {
        panic!("expected Confirm mode");
    }
}

#[test]
fn enter_confirm_close_window() {
    let mut app = core_with_windows(sample_windows());
    app.handle_key(key(Key::Char('x')), Some(&NodeId::Window(1)));
    if let Mode::Confirm { action: PendingAction::ClosePanes(ids), ref label } = &app.mode {
        assert_eq!(*ids, vec![100, 101, 102]);
        assert!(label.contains("Dev"));
        assert!(label.contains("3 pane(s)"));
    } else {
        panic!("expected Confirm mode");
    }
}

#[test]
fn cancel_confirm_with_n() {
    let mut app = core_with_windows(sample_windows());
    let sel = NodeId::Pane(100);
    app.handle_key(key(Key::Char('x')), Some(&sel));
    assert!(matches!(app.mode, Mode::Confirm { .. }));
    app.handle_key(key(Key::Char('n')), Some(&sel));
    assert_eq!(app.mode, Mode::Normal);
}

#[test]
fn cancel_confirm_with_esc() {
    let mut app = core_with_windows(sample_windows());
    let sel = NodeId::Pane(100);
    app.handle_key(key(Key::Char('x')), Some(&sel));
    app.handle_key(key(Key::Esc), Some(&sel));
    assert_eq!(app.mode, Mode::Normal);
}

#[test]
fn status_message_clears_on_normal_keypress() {
    let mut app = core_with_windows(sample_windows());
    app.status_message = Some(StatusMessage { text: "test".into(), is_error: false });
    app.handle_key(key(Key::Char('j')), Some(&first_window()));
    assert!(app.status_message.is_none());
}

#[test]
fn slash_enters_search_mode() {
    let mut app = core_with_windows(sample_windows());
    app.handle_key(key(Key::Char('/')), Some(&first_window()));
    assert!(matches!(app.mode, Mode::Search { .. }));
    if let Mode::Search { ref query, cursor, ref results, .. } = app.mode {
        assert!(query.is_empty());
        assert_eq!(cursor, 0);
        assert_eq!(results.len(), 4);
    }
}

#[test]
fn search_mode_typing() {
    let mut app = core_with_windows(sample_windows());
    let sel = first_window();
    app.handle_key(key(Key::Char('/')), Some(&sel));
    app.handle_key(key(Key::Char('n')), Some(&sel));
    app.handle_key(key(Key::Char('v')), Some(&sel));
    if let Mode::Search { ref query, cursor, .. } = app.mode {
        assert_eq!(query, "nv");
        assert_eq!(cursor, 2);
    } else {
        panic!("expected Search mode");
    }
}

#[test]
fn search_mode_backspace() {
    let mut app = core_with_windows(sample_windows());
    let sel = first_window();
    app.handle_key(key(Key::Char('/')), Some(&sel));
    app.handle_key(key(Key::Char('a')), Some(&sel));
    app.handle_key(key(Key::Char('b')), Some(&sel));
    app.handle_key(key(Key::Backspace), Some(&sel));
    if let Mode::Search { ref query, cursor, .. } = app.mode {
        assert_eq!(query, "a");
        assert_eq!(cursor, 1);
    }
}

#[test]
fn search_mode_esc_returns_to_normal() {
    let mut app = core_with_windows(sample_windows());
    let sel = first_window();
    app.handle_key(key(Key::Char('/')), Some(&sel));
    assert!(matches!(app.mode, Mode::Search { .. }));
    app.handle_key(key(Key::Esc), Some(&sel));
    assert_eq!(app.mode, Mode::Normal);
    assert!(!app.should_quit);
}

#[test]
fn search_mode_esc_quits_in_direct_launch() {
    let mut app = core_with_windows(sample_windows());
    app.enter_search_mode(true, String::new());
    app.handle_key(key(Key::Esc), Some(&first_window()));
    assert!(app.should_quit);
}

#[test]
fn search_mode_j_k_navigation() {
    let mut app = core_with_windows(sample_windows());
    let sel = first_window();
    app.handle_key(key(Key::Char('/')), Some(&sel));
    app.handle_key(key(Key::Char('j')), Some(&sel));
    if let Mode::Search { selected_index, .. } = app.mode {
        assert_eq!(selected_index, 1);
    }
    app.handle_key(key(Key::Char('k')), Some(&sel));
    if let Mode::Search { selected_index, .. } = app.mode {
        assert_eq!(selected_index, 0);
    }
}

#[test]
fn search_mode_selection_resets_on_query_change() {
    let mut app = core_with_windows(sample_windows());
    let sel = first_window();
    app.handle_key(key(Key::Char('/')), Some(&sel));
    app.handle_key(key(Key::Char('j')), Some(&sel));
    app.handle_key(key(Key::Char('j')), Some(&sel));
    app.handle_key(key(Key::Char('a')), Some(&sel));
    if let Mode::Search { selected_index, .. } = app.mode {
        assert_eq!(selected_index, 0);
    }
}

#[test]
fn search_mode_j_stays_in_bounds() {
    let mut app = core_with_windows(sample_windows());
    let sel = first_window();
    app.handle_key(key(Key::Char('/')), Some(&sel));
    for _ in 0..20 {
        app.handle_key(key(Key::Char('j')), Some(&sel));
    }
    if let Mode::Search { selected_index, ref results, .. } = app.mode {
        assert!(selected_index < results.len());
    }
}

#[test]
fn q_in_search_types_q() {
    let mut app = core_with_windows(sample_windows());
    let sel = first_window();
    app.handle_key(key(Key::Char('/')), Some(&sel));
    app.handle_key(key(Key::Char('q')), Some(&sel));
    assert!(!app.should_quit);
    if let Mode::Search { ref query, .. } = app.mode {
        assert_eq!(query, "q");
    }
}

#[test]
fn question_mark_enters_help() {
    let mut app = core_with_windows(sample_windows());
    app.handle_key(key(Key::Char('?')), Some(&first_window()));
    assert_eq!(app.mode, Mode::Help);
}

#[test]
fn any_key_exits_help() {
    let mut app = core_with_windows(sample_windows());
    let sel = first_window();
    app.handle_key(key(Key::Char('?')), Some(&sel));
    assert_eq!(app.mode, Mode::Help);
    app.handle_key(key(Key::Char('a')), Some(&sel));
    assert_eq!(app.mode, Mode::Normal);
}

#[test]
fn q_in_help_does_not_quit() {
    let mut app = core_with_windows(sample_windows());
    let sel = first_window();
    app.handle_key(key(Key::Char('?')), Some(&sel));
    app.handle_key(key(Key::Char('q')), Some(&sel));
    assert!(!app.should_quit);
    assert_eq!(app.mode, Mode::Normal);
}

#[test]
fn s_with_no_sessions_shows_error() {
    let mut app = core_with_windows(sample_windows());
    let cmd = app.handle_key(key(Key::Char('s')), Some(&first_window()));
    assert_eq!(cmd, Command::ListSessions);
    app.open_session_pick(Ok(Vec::new()));
    assert!(!app.should_quit);
}

// -- Further checks --

#[test]
fn no_sessions_message_and_picker_opening() {
    let mut app = core_with_windows(sample_windows());
    app.open_session_pick(Ok(Vec::new()));
    assert_eq!(app.status_message, Some(StatusMessage { text: "No saved sessions".to_string(), is_error: true }));
    assert_eq!(app.mode, Mode::Normal);
    app.open_session_pick(Err("denied".to_string()));
    assert_eq!(app.status_message.as_ref().unwrap().text, "Failed to list sessions: denied");
    let s = SessionSummary { name: "work".to_string(), saved_at: "2026-01-01T00:00:00Z".to_string(), window_count: 1, tab_count: 2 };
    app.open_session_pick(Ok(vec![s.clone()]));
    assert_eq!(app.mode, Mode::SessionPick { sessions: vec![s], selected_index: 0 });
}

#[test]
fn focus_and_its_outcomes() {
    let mut app = core_with_windows(sample_windows());
    let cmd = app.handle_key(key(Key::Enter), Some(&NodeId::Pane(101)));
    assert_eq!(cmd, Command::Focus { pane_id: 101, from_search: false });
    app.finish_focus(false, Err("gone".to_string()));
    assert!(!app.should_quit);
    assert_eq!(app.status_message, Some(StatusMessage { text: "Focus failed: gone".to_string(), is_error: true }));
    app.finish_focus(false, Ok(()));
    assert!(app.should_quit);
}

#[test]
fn search_enter_focuses_the_selected_result() {
    let mut app = core_with_windows(sample_windows());
    app.enter_search_mode(false, String::new());
    let sel = first_window();
    app.handle_key(key(Key::Down), Some(&sel));
    app.handle_key(KeyPress { key: Key::Char('n'), ctrl: true }, Some(&sel));
    let cmd = app.handle_key(key(Key::Enter), Some(&sel));
    assert_eq!(cmd, Command::Focus { pane_id: 102, from_search: true });
    app.finish_focus(true, Err("x".to_string()));
    assert_eq!(app.mode, Mode::Normal);
}

#[test]
fn rename_confirm_sets_title_through_first_pane() {
    let mut app = core_with_windows(sample_windows());
    let sel = NodeId::Window(2);
    app.handle_key(key(Key::Char('r')), Some(&sel));
    app.handle_key(key(Key::Backspace), Some(&sel));
    let cmd = app.handle_key(key(Key::Enter), Some(&sel));
    assert_eq!(cmd, Command::SetTitle { pane_id: 200, window: true, title: "Browse".to_string() });
    assert_eq!(app.mode, Mode::Normal);
    assert!(app.finish_rename("Browse", Ok(())));
    assert_eq!(app.status_message.as_ref().unwrap().text, "Renamed to 'Browse'");
    assert!(!app.finish_rename("Browse", Err("no".to_string())));
    assert_eq!(app.status_message, Some(StatusMessage { text: "Rename failed: no".to_string(), is_error: true }));
}

#[test]
fn move_drop_and_outcomes() {
    let mut app = core_with_windows(sample_windows());
    app.handle_key(key(Key::Char('m')), Some(&NodeId::Tab(10)));
    let cmd = app.handle_key(key(Key::Enter), Some(&NodeId::Tab(10)));
    assert_eq!(cmd, Command::Nothing);
    assert_eq!(app.status_message.as_ref().unwrap().text, "Already in that window");
    let cmd = app.handle_key(key(Key::Enter), Some(&NodeId::Pane(200)));
    assert_eq!(cmd, Command::MovePanes { pane_ids: vec![100, 101], target_window_id: 2 });
    assert_eq!(app.mode, Mode::Normal);
    app.finish_move(&[100, 101], 2, &[Ok(()), Ok(())]);
    assert_eq!(app.status_message, Some(StatusMessage { text: "Moved 2 pane(s) to window 2".to_string(), is_error: false }));
    app.finish_move(&[100, 101], 2, &[Err("a".to_string()), Err("b".to_string())]);
    assert_eq!(
        app.status_message,
        Some(StatusMessage { text: "Move errors: pane 100: a, pane 101: b".to_string(), is_error: true }),
    );
}

#[test]
fn close_confirm_and_outcomes() {
    let mut app = core_with_windows(sample_windows());
    let sel = NodeId::Tab(10);
    app.handle_key(key(Key::Char('x')), Some(&sel));
    let cmd = app.handle_key(key(Key::Char('y')), Some(&sel));
    assert_eq!(cmd, Command::ClosePanes { pane_ids: vec![100, 101] });
    app.finish_close(&[100, 101], &[Ok(()), Err("busy".to_string())]);
    assert_eq!(app.status_message, Some(StatusMessage { text: "Close errors: pane 101: busy".to_string(), is_error: true }));
    app.finish_close(&[7], &[Ok(())]);
    assert_eq!(app.status_message.as_ref().unwrap().text, "Closed 1 pane(s)");
}

#[test]
fn session_picker_keys_and_outcomes() {
    let mut app = core_with_windows(sample_windows());
    let a = SessionSummary { name: "a".to_string(), saved_at: "2".to_string(), window_count: 1, tab_count: 1 };
    let b = SessionSummary { name: "b".to_string(), saved_at: "1".to_string(), window_count: 1, tab_count: 1 };
    app.open_session_pick(Ok(vec![a.clone(), b.clone()]));
    let sel = first_window();
    app.handle_key(key(Key::Char('j')), Some(&sel));
    app.handle_key(key(Key::Char('j')), Some(&sel));
    let cmd = app.handle_key(key(Key::Char('x')), Some(&sel));
    assert_eq!(cmd, Command::DeleteSession { name: "b".to_string() });
    app.finish_delete("b", Ok(Some(vec![a.clone()])));
    assert_eq!(app.mode, Mode::SessionPick { sessions: vec![a.clone()], selected_index: 0 });
    assert_eq!(app.status_message.as_ref().unwrap().text, "Deleted 'b'");
    let cmd = app.handle_key(key(Key::Enter), Some(&sel));
    assert_eq!(cmd, Command::RestoreSession { name: "a".to_string() });
    assert_eq!(app.mode, Mode::Normal);
    app.finish_delete("a", Ok(Some(Vec::new())));
    assert_eq!(app.status_message.as_ref().unwrap().text, "Deleted 'a' (no sessions left)");
}

#[test]
fn refresh_rebuilds_tree_and_reports_failure() {
    let mut app = core_with_windows(sample_windows());
    assert!(app.refresh(Ok(Vec::new()), Some(&NodeId::Pane(100))));
    assert!(app.windows.is_empty());
    assert!(!app.refresh(Err("cli missing".to_string()), None));
    assert_eq!(app.status_message.as_ref().unwrap().text, "Refresh failed: cli missing");
}

#[test]
fn tree_keys_become_tree_operations() {
    let mut app = core_with_windows(sample_windows());
    let sel = first_window();
    assert_eq!(app.handle_key(key(Key::Char('j')), Some(&sel)), Command::Tree(TreeOp::Down));
    assert_eq!(app.handle_key(key(Key::Up), Some(&sel)), Command::Tree(TreeOp::Up));
    assert_eq!(app.handle_key(key(Key::Char('h')), Some(&sel)), Command::Tree(TreeOp::Left));
    assert_eq!(app.handle_key(key(Key::Right), Some(&sel)), Command::Tree(TreeOp::Right));
    assert_eq!(app.handle_key(key(Key::Home), Some(&sel)), Command::Tree(TreeOp::First));
    assert_eq!(app.handle_key(key(Key::End), Some(&sel)), Command::Tree(TreeOp::Last));
    assert_eq!(app.handle_key(key(Key::Char('S')), Some(&sel)), Command::OpenSettings);
}

#[test]
fn query_change_puts_selection_back_on_top_result() {
    let mut app = core_with_windows(sample_windows());
    let sel = first_window();
    app.handle_key(key(Key::Char('/')), Some(&sel));
    app.handle_key(key(Key::Char('j')), Some(&sel));
    app.handle_key(key(Key::Char('j')), Some(&sel));
    app.handle_key(key(Key::Char('e')), Some(&sel));
    if let Mode::Search { selected_index, ref results, .. } = app.mode {
        assert!(results.len() > 2);
        assert_eq!(selected_index, 0);
    } else {
        panic!("search mode expected");
    }
    app.handle_key(key(Key::Char('j')), Some(&sel));
    app.handle_key(key(Key::Backspace), Some(&sel));
    if let Mode::Search { selected_index, ref results, ref query, .. } = app.mode {
        assert_eq!(query, "");
        assert_eq!(results.len(), 4);
        assert_eq!(selected_index, 0);
    } else {
        panic!("search mode expected");
    }
}

#[test]
fn rename_cursor_counts_bytes() {
    let mut windows = sample_windows();
    windows[0].title = Some("Café".to_string());
    let mut app = core_with_windows(windows);
    let sel = NodeId::Window(1);
    app.handle_key(key(Key::Char('r')), Some(&sel));
    assert_eq!(app.mode, Mode::Rename { input: "Café".to_string(), cursor: 5 });
    // One byte back lands inside `é`: typing or Backspace there is refused.
    app.handle_key(key(Key::Left), Some(&sel));
    assert_eq!(app.mode, Mode::Rename { input: "Café".to_string(), cursor: 4 });
    assert!(!app.key_edit_allowed(key(Key::Char('x'))));
    assert!(!app.key_edit_allowed(key(Key::Delete)));
    assert!(app.key_edit_allowed(key(Key::Backspace)));
    app.handle_key(key(Key::Left), Some(&sel));
    assert!(app.key_edit_allowed(key(Key::Delete)));
    app.handle_key(key(Key::Delete), Some(&sel));
    assert_eq!(app.mode, Mode::Rename { input: "Caf".to_string(), cursor: 3 });
}

#[test]
fn typing_a_wide_character_moves_the_cursor_one_byte() {
    let mut app = core_with_windows(sample_windows());
    let sel = NodeId::Window(1);
    app.mode = Mode::Rename { input: String::new(), cursor: 0 };
    app.handle_key(key(Key::Char('é')), Some(&sel));
    assert_eq!(app.mode, Mode::Rename { input: "é".to_string(), cursor: 1 });
    assert!(!app.key_edit_allowed(key(Key::Char('x'))));
    assert!(app.key_edit_allowed(key(Key::Backspace)));
    app.handle_key(key(Key::End), Some(&sel));
    assert_eq!(app.mode, Mode::Rename { input: "é".to_string(), cursor: 2 });
    assert!(!app.key_edit_allowed(key(Key::Backspace)));
}

#[test]
fn search_cursor_counts_bytes() {
    let mut app = core_with_windows(sample_windows());
    app.enter_search_mode(false, "ü".to_string());
    if let Mode::Search { cursor, .. } = app.mode {
        assert_eq!(cursor, 2);
    } else {
        panic!("search mode expected");
    }
    // Backspace would remove at byte 1, inside `ü`.
    assert!(!app.key_edit_allowed(key(Key::Backspace)));
    app.handle_key(key(Key::Home), Some(&first_window()));
    app.handle_key(key(Key::Char('a')), Some(&first_window()));
    if let Mode::Search { ref query, cursor, .. } = app.mode {
        assert_eq!(query, "aü");
        assert_eq!(cursor, 1);
    }
}
