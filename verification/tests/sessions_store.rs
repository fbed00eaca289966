use weztui::ipc::{signal_active, user_var_sequence};
use weztui::model::{PaneInfo, WezPane, WezTab, WezWindow};
use weztui::session::{capture_session, capture_session_at, format_timestamp, Session, SessionSummary, SessionTab, SessionWindow, SplitNode};
use weztui::store::{session_file_name, sort_newest_first, summarize, validate_session_name, SessionNameError};

#[test]
fn validate_session_name_rejects_bad_names() {
    assert!(validate_session_name("").is_err());
    assert!(validate_session_name("../evil").is_err());
    assert!(validate_session_name("name with spaces").is_err());
    assert!(validate_session_name("good-name_v2.0").is_ok());
    assert!(validate_session_name("simple").is_ok());
}

// -- Further checks --

#[test]
fn name_errors_and_file_names() {
    assert_eq!(validate_session_name(""), Err(SessionNameError::Empty));
    assert_eq!(validate_session_name("a/b"), Err(SessionNameError::BadCharacters));
    assert_eq!(validate_session_name("été"), Ok(()));
    assert_eq!(SessionNameError::Empty.message(), "Session name cannot be empty");
    assert_eq!(
        SessionNameError::BadCharacters.message(),
        "Session name must contain only alphanumeric characters, hyphens, underscores, or dots"
    );
    assert_eq!(session_file_name("work"), Ok("work.json".to_string()));
    assert_eq!(session_file_name("a b"), Err(SessionNameError::BadCharacters));
}

fn leaf(title: &str) -> SplitNode {
    SplitNode::Pane { cwd: None, title: title.to_string() }
}

#[test]
fn summary_counts_windows_and_tabs() {
    let session = Session {
        name: "dev".to_string(),
        saved_at: "2026-03-23T00:00:00Z".to_string(),
        windows: vec![
            SessionWindow { title: None, tabs: vec![SessionTab { title: None, root: leaf("a") }, SessionTab { title: None, root: leaf("b") }] },
            SessionWindow { title: Some("w".to_string()), tabs: vec![SessionTab { title: None, root: leaf("c") }] },
        ],
    };
    let s = summarize(&session);
    assert_eq!(s, SessionSummary { name: "dev".to_string(), saved_at: "2026-03-23T00:00:00Z".to_string(), window_count: 2, tab_count: 3 });
}

fn summary(name: &str, at: &str) -> SessionSummary {
    SessionSummary { name: name.to_string(), saved_at: at.to_string(), window_count: 1, tab_count: 1 }
}

#[test]
fn sessions_sort_newest_first_keeping_ties_in_order() {
    let input = vec![
        summary("old", "2025-01-01T00:00:00Z"),
        summary("tie1", "2026-02-01T00:00:00Z"),
        summary("new", "2026-03-01T00:00:00Z"),
        summary("tie2", "2026-02-01T00:00:00Z"),
    ];
    let names: Vec<String> = sort_newest_first(input).into_iter().map(|s| s.name).collect();
    assert_eq!(names, vec!["new", "tie1", "tie2", "old"]);
}

#[test]
fn active_signal_is_base64_user_var() {
    assert_eq!(signal_active(true), "\x1b]1337;SetUserVar=weztui_active=dHJ1ZQ==\x07");
    assert_eq!(signal_active(false), "\x1b]1337;SetUserVar=weztui_active=ZmFsc2U=\x07");
    assert_eq!(user_var_sequence("k", "é"), "\x1b]1337;SetUserVar=k=w6k=\x07");
}

#[test]
fn timestamps_are_iso_dates() {
    assert_eq!(format_timestamp(0), "1970-01-01T00:00:00Z");
    assert_eq!(format_timestamp(951782400), "2000-02-29T00:00:00Z");
    assert_eq!(format_timestamp(1774224000), "2026-03-23T00:00:00Z");
    assert_eq!(format_timestamp(86399), "1970-01-01T23:59:59Z");
}

fn pane(id: u64, title: &str) -> WezPane {
    WezPane { pane_id: id, title: title.to_string(), cwd: Some("/w".to_string()), is_active: false, left: 0, top: 0, width: 80, height: 24 }
}

#[test]
fn capture_keeps_titles_and_layout() {
    let windows = vec![WezWindow {
        window_id: 1,
        title: Some("Dev".to_string()),
        workspace: "default".to_string(),
        tabs: vec![WezTab { tab_id: 10, title: None, panes: vec![pane(100, "nvim")] }],
    }];
    let s = capture_session_at("dev", &windows, 0);
    assert_eq!(s.name, "dev");
    assert_eq!(s.saved_at, "1970-01-01T00:00:00Z");
    assert_eq!(s.windows[0].title.as_deref(), Some("Dev"));
    assert_eq!(s.windows[0].tabs[0].root, SplitNode::Pane { cwd: Some("/w".to_string()), title: "nvim".to_string() });
    let now = capture_session("dev", &windows);
    assert_eq!(now.windows.len(), 1);
    assert_eq!(now.saved_at.len(), 20);
}

fn info(window: u64, tab: u64, pane: u64, title: &str) -> PaneInfo {
    PaneInfo {
        window_id: window,
        tab_id: tab,
        tab_title: Some(format!("t{tab}")),
        window_title: Some(String::new()),
        pane_id: pane,
        workspace: None,
        title: title.to_string(),
        cwd: None,
        is_active: pane == 3,
        left: 0,
        top: 0,
        width: 10,
        height: 10,
    }
}

#[test]
fn tree_groups_panes_by_window_and_tab() {
    let panes = vec![info(2, 5, 1, "a"), info(1, 7, 2, "b"), info(2, 4, 3, "c"), info(2, 5, 4, "d")];
    let windows = weztui::model::build_tree(&panes);
    assert_eq!(windows.len(), 2);
    assert_eq!(windows[0].window_id, 1);
    assert_eq!(windows[1].tabs.iter().map(|t| t.tab_id).collect::<Vec<_>>(), vec![4, 5]);
    assert_eq!(windows[1].tabs[1].panes.iter().map(|p| p.pane_id).collect::<Vec<_>>(), vec![1, 4]);
    assert_eq!(windows[1].tabs[0].title.as_deref(), Some("t4"));
    assert!(windows[1].tabs[0].panes[0].is_active);
    assert_eq!(windows[1].title, None);
    assert_eq!(windows[1].workspace, "default");
}
