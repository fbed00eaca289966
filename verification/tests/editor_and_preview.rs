use weztui::app::{Command, Core, Key, KeyPress, Mode, StatusMessage};
use weztui::model::{WezPane, WezTab, WezWindow};
use weztui::preview::build_move_preview;
use weztui::settings::{SettingsNav, SettingsPanel, ValueKind};
use weztui::tree::NodeId;

fn key(k: Key) -> KeyPress {
    KeyPress { key: k, ctrl: false }
}

fn kinds() -> Vec<Vec<ValueKind>> {
    vec![vec![ValueKind::Float, ValueKind::Bool], vec![ValueKind::Enum], vec![ValueKind::Int]]
}

fn nav(app: &Core) -> SettingsNav {
    match &app.mode {
        Mode::Settings(n) => n.clone(),
        other => panic!("expected the settings editor, got {other:?}"),
    }
}

#[test]
fn settings_editor_navigation() {
    let mut app = Core::new(Vec::new(), None);
    app.enter_settings_mode(kinds());
    let n = nav(&app);
    assert_eq!((n.category_index, n.setting_index, n.panel), (0, 0, SettingsPanel::Categories));
    app.handle_key(key(Key::Char('j')), None);
    app.handle_key(key(Key::Char('j')), None);
    app.handle_key(key(Key::Char('j')), None);
    assert_eq!(nav(&app).category_index, 2);
    app.handle_key(key(Key::Up), None);
    app.handle_key(key(Key::Up), None);
    app.handle_key(key(Key::Tab), None);
    let n = nav(&app);
    assert_eq!((n.category_index, n.setting_index, n.panel), (0, 0, SettingsPanel::Settings));
    app.handle_key(key(Key::Char('j')), None);
    app.handle_key(key(Key::Char('j')), None);
    assert_eq!(nav(&app).setting_index, 1);
    assert_eq!(app.handle_key(key(Key::Enter), None), Command::ToggleSetting { category: 0, setting: 1 });
    assert_eq!(app.handle_key(key(Key::Char('+')), None), Command::StepSetting { category: 0, setting: 1, up: true });
    assert_eq!(app.handle_key(key(Key::Char('-')), None), Command::StepSetting { category: 0, setting: 1, up: false });
    assert_eq!(app.handle_key(key(Key::Char('r')), None), Command::ResetSetting { category: 0, setting: 1 });
    assert_eq!(app.handle_key(key(Key::Char('e')), None), Command::OpenConfig);
    assert_eq!(app.handle_key(key(Key::Char('w')), None), Command::SaveSettings);
    app.finish_save_settings(Ok(()));
    assert_eq!(app.status_message, Some(StatusMessage { text: "Settings saved".to_string(), is_error: false }));
    app.finish_save_settings(Err("disk full".to_string()));
    assert_eq!(app.status_message.as_ref().unwrap().text, "Save failed: disk full");
    app.handle_key(key(Key::Left), None);
    assert_eq!(nav(&app).panel, SettingsPanel::Categories);
    assert_eq!(app.handle_key(key(Key::Char('q')), None), Command::RevertSettings);
    assert_eq!(app.mode, Mode::Normal);
}

#[test]
fn settings_value_editing() {
    let mut app = Core::new(Vec::new(), None);
    app.enter_settings_mode(kinds());
    app.handle_key(key(Key::Enter), None);
    assert_eq!(app.handle_key(key(Key::Enter), None), Command::EditSetting { category: 0, setting: 0 });
    app.begin_setting_edit("12.0".to_string());
    let n = nav(&app);
    assert!(n.editing);
    assert_eq!((n.edit_buffer.as_str(), n.edit_cursor), ("12.0", 4));
    app.handle_key(key(Key::Backspace), None);
    app.handle_key(key(Key::Char('5')), None);
    app.handle_key(key(Key::Home), None);
    assert_eq!(nav(&app).edit_cursor, 4);
    assert_eq!(
        app.handle_key(key(Key::Enter), None),
        Command::ApplySetting { category: 0, setting: 0, kind: ValueKind::Float, text: "12.5".to_string() },
    );
    assert!(!nav(&app).editing);
    app.handle_key(key(Key::Enter), None);
    app.begin_setting_edit("7".to_string());
    app.handle_key(key(Key::Esc), None);
    assert!(!nav(&app).editing);
    assert!(matches!(app.mode, Mode::Settings(_)));
    assert_eq!(app.handle_key(key(Key::Esc), None), Command::RevertSettings);
    assert_eq!(app.mode, Mode::Normal);
}

fn pane(id: u64, title: &str) -> WezPane {
    WezPane { pane_id: id, title: title.to_string(), cwd: None, is_active: false, left: 0, top: 0, width: 80, height: 24 }
}

fn windows() -> Vec<WezWindow> {
    vec![
        WezWindow {
            window_id: 1,
            title: Some("Dev".to_string()),
            workspace: "default".to_string(),
            tabs: vec![
                WezTab { tab_id: 10, title: Some("editor".to_string()), panes: vec![pane(100, "nvim")] },
                WezTab { tab_id: 11, title: None, panes: vec![pane(101, "zsh"), pane(102, "tail")] },
            ],
        },
        WezWindow {
            window_id: 2,
            title: None,
            workspace: "default".to_string(),
            tabs: vec![WezTab { tab_id: 20, title: None, panes: vec![pane(200, "curl")] }],
        },
    ]
}

#[test]
fn move_preview_of_a_tab() {
    let (after, ghost) = build_move_preview(&windows(), &NodeId::Tab(10), 2);
    assert_eq!(ghost, Some(10));
    assert_eq!(after[0].tabs.iter().map(|t| t.tab_id).collect::<Vec<_>>(), vec![11]);
    assert_eq!(after[1].tabs.iter().map(|t| t.tab_id).collect::<Vec<_>>(), vec![20, 10]);
    assert_eq!(after[1].tabs[1].title.as_deref(), Some("[moving] editor"));
}

#[test]
fn move_preview_of_a_pane() {
    let (after, ghost) = build_move_preview(&windows(), &NodeId::Pane(100), 2);
    assert_eq!(ghost, Some(u64::MAX));
    assert_eq!(after[0].tabs.iter().map(|t| t.tab_id).collect::<Vec<_>>(), vec![11]);
    let moved = &after[1].tabs[1];
    assert_eq!(moved.tab_id, u64::MAX);
    assert_eq!(moved.title.as_deref(), Some("[moving] nvim"));
    assert_eq!(moved.panes[0].pane_id, 100);
}

#[test]
fn move_preview_of_nothing_drops_empty_windows() {
    let mut ws = windows();
    ws[1].tabs.clear();
    let (after, ghost) = build_move_preview(&ws, &NodeId::Pane(999), 2);
    assert_eq!(ghost, None);
    assert_eq!(after.len(), 1);
    assert_eq!(after[0].window_id, 1);
}
