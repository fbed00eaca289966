use weztui::app::{Core, Mode};
use weztui::layout::truncate;
use weztui::model::{WezPane, WezTab, WezWindow};
use weztui::screen::{count_title, preview_lines, preview_title, screen_title, search_preview_pane, tree_preview_pane};
use weztui::session::SessionSummary;
use weztui::store::{session_line, session_row};
use weztui::tree::NodeId;

fn pane(id: u64, title: &str) -> WezPane {
    WezPane { pane_id: id, title: title.to_string(), cwd: None, is_active: false, left: 0, top: 0, width: 80, height: 24 }
}

fn windows() -> Vec<WezWindow> {
    vec![WezWindow {
        window_id: 1,
        title: None,
        workspace: "default".to_string(),
        tabs: vec![
            WezTab { tab_id: 10, title: None, panes: vec![pane(100, "nvim"), pane(101, "zsh")] },
            WezTab { tab_id: 11, title: None, panes: vec![pane(102, "tail")] },
        ],
    }]
}

#[test]
fn truncation_by_bytes() {
    assert_eq!(truncate("hello", 5), "hello");
    assert_eq!(truncate("hello", 4), "hel…");
    assert_eq!(truncate("hello", 1), "");
    assert_eq!(truncate("héllo", 4), "hé…");
    assert_eq!(truncate("", 0), "");
}

#[test]
fn preview_keeps_the_bottom_lines() {
    assert_eq!(preview_lines("a\nb\nc\n\n  \n", 2), Some("b\nc".to_string()));
    assert_eq!(preview_lines("a\nb", 5), Some("a\nb".to_string()));
    assert_eq!(preview_lines("", 5), None);
    assert_eq!(preview_lines("\n\n", 5), Some(String::new()));
}

#[test]
fn preview_pane_choice() {
    let ws = windows();
    assert_eq!(tree_preview_pane(&ws, Some(&NodeId::Tab(10)), None), Some(100));
    assert_eq!(tree_preview_pane(&ws, Some(&NodeId::Tab(10)), Some(100)), None);
    assert_eq!(tree_preview_pane(&ws, Some(&NodeId::Pane(102)), None), Some(102));
    assert_eq!(tree_preview_pane(&ws, Some(&NodeId::Window(1)), None), None);
    assert_eq!(tree_preview_pane(&ws, Some(&NodeId::Tab(99)), None), None);
    assert_eq!(tree_preview_pane(&ws, None, None), None);
    assert_eq!(preview_title(&ws, 101), "zsh");
    assert_eq!(preview_title(&ws, 7), "");
}

#[test]
fn search_preview_and_titles() {
    let mut core = Core::new(windows(), Some(100));
    assert_eq!(screen_title(&core.mode), " weztui");
    assert_eq!(search_preview_pane(&core.mode, core.current_pane_id), None);
    core.enter_search_mode(false, String::new());
    assert_eq!(screen_title(&core.mode), " Find");
    assert_eq!(search_preview_pane(&core.mode, core.current_pane_id), None);
    core.enter_search_mode(false, "tail".to_string());
    assert_eq!(search_preview_pane(&core.mode, core.current_pane_id), Some(102));
    core.open_session_pick(Ok(vec![SessionSummary { name: "a".into(), saved_at: "t".into(), window_count: 1, tab_count: 1 }]));
    assert_eq!(screen_title(&core.mode), " Sessions");
    assert!(matches!(core.mode, Mode::SessionPick { .. }));
}

#[test]
fn list_titles_and_rows() {
    assert_eq!(count_title(1, "result"), " 1 result ");
    assert_eq!(count_title(0, "session"), " 0 sessions ");
    let s = SessionSummary { name: "work".into(), saved_at: "2026-03-23T00:00:00Z".into(), window_count: 2, tab_count: 5 };
    assert_eq!(session_line(&s), "work                 2 window(s), 5 tab(s)  [saved 2026-03-23T00:00:00Z]");
    assert_eq!(session_row(&s, true), ">> work                 2 window(s), 5 tab(s)  [2026-03-23T00:00:00Z]");
    let long = SessionSummary { name: "a-very-long-session-name".into(), saved_at: "x".into(), window_count: 1, tab_count: 1 };
    assert_eq!(session_row(&long, false), "   a-very-long-session-name 1 window(s), 1 tab(s)  [x]");
}
