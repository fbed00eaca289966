use weztui::model::{WezPane, WezTab, WezWindow};
use weztui::outline::{build_label_map, connector_prefix, has_more_siblings_at_depth};
use weztui::tree::{
    build_tree_items, build_window_item, find_pane_window, find_tab, locate_pane, pane_label, selected_info,
    selection_still_valid, NodeId,
};

fn make_window(id: u64, title: &str, tabs: Vec<WezTab>) -> WezWindow {
    WezWindow { window_id: id, title: Some(title.to_string()), workspace: "default".to_string(), tabs }
}

fn make_tab(id: u64, title: &str, panes: Vec<WezPane>) -> WezTab {
    WezTab { tab_id: id, title: Some(title.to_string()), panes }
}

fn make_pane(id: u64, title: &str, cwd: &str) -> WezPane {
    WezPane {
        pane_id: id,
        title: title.to_string(),
        cwd: Some(cwd.to_string()),
        is_active: false,
        left: 0,
        top: 0,
        width: 80,
        height: 24,
    }
}

fn sample_windows() -> Vec<WezWindow> {
    vec![
        make_window(1, "Dev", vec![
            make_tab(10, "editor", vec![
                make_pane(100, "nvim", "/home/user/code"),
                make_pane(101, "zsh", "/home/user/code"),
            ]),
            make_tab(11, "logs", vec![make_pane(102, "tail", "/var/log")]),
        ]),
        make_window(2, "Browser", vec![make_tab(20, "http", vec![make_pane(200, "curl", "/tmp")])]),
    ]
}

#[test]
fn tree_items_match_window_count() {
    let windows = sample_windows();
    let items = build_tree_items(&windows, None);
    assert_eq!(items.len(), 2);
}

#[test]
fn tree_items_empty_for_empty_windows() {
    let items = build_tree_items(&[], None);
    assert!(items.is_empty());
}

#[test]
fn current_pane_marker_appears_in_label() {
    let windows = vec![make_window(1, "Dev", vec![make_tab(10, "editor", vec![make_pane(100, "nvim", "/home/user/code")])])];
    let items = build_tree_items(&windows, Some(100));
    let pane_text = format!("{:?}", items);
    assert!(pane_text.contains("*"), "expected current pane marker in tree items");
    let items = build_tree_items(&windows, None);
    let pane_text = format!("{:?}", items);
    assert!(!pane_text.contains("*"), "unexpected marker when no current pane");
}

#[test]
fn selected_info_for_window() {
    let info = selected_info(&sample_windows(), Some(&NodeId::Window(1)));
    assert!(info.contains("Window 1"));
    assert!(info.contains("Dev"));
    assert!(info.contains("2 tab(s)"));
}

#[test]
fn selected_info_for_tab() {
    let info = selected_info(&sample_windows(), Some(&NodeId::Tab(10)));
    assert!(info.contains("Tab 10"));
    assert!(info.contains("editor"));
    assert!(info.contains("2 pane(s)"));
}

#[test]
fn selected_info_for_pane() {
    let info = selected_info(&sample_windows(), Some(&NodeId::Pane(100)));
    assert!(info.contains("Pane 100"));
    assert!(info.contains("nvim"));
    assert!(info.contains("/home/user/code"));
}

#[test]
fn selected_info_no_selection() {
    assert_eq!(selected_info(&sample_windows(), None), "No selection");
}

#[test]
fn find_tab_returns_correct_tab() {
    let windows = sample_windows();
    let tab = find_tab(&windows, 10).unwrap();
    assert_eq!(tab.title.as_deref(), Some("editor"));
    assert!(find_tab(&windows, 999).is_none());
}

#[test]
fn find_pane_window_returns_correct_window() {
    let windows = sample_windows();
    assert_eq!(find_pane_window(&windows, 100), Some(1));
    assert_eq!(find_pane_window(&windows, 200), Some(2));
    assert_eq!(find_pane_window(&windows, 999), None);
}

#[test]
fn selection_still_valid_checks_model() {
    let mut windows = sample_windows();
    let sel = NodeId::Pane(100);
    assert!(selection_still_valid(&windows, Some(&sel)));
    windows.clear();
    assert!(!selection_still_valid(&windows, Some(&sel)));
}

#[test]
fn active_tab_shows_marker() {
    let mut pane = make_pane(100, "nvim", "/home/user/code");
    pane.is_active = true;
    let windows = vec![make_window(1, "Dev", vec![
        make_tab(10, "editor", vec![pane]),
        make_tab(11, "logs", vec![make_pane(101, "tail", "/var/log")]),
    ])];
    let items = build_tree_items(&windows, None);
    let debug = format!("{:?}", items);
    assert!(debug.contains("● editor"), "active tab should have ● marker");
    assert!(!debug.contains("● logs"), "inactive tab should not have ● marker");
}

#[test]
fn inactive_tabs_have_no_marker() {
    let windows = sample_windows();
    let items = build_tree_items(&windows, None);
    let debug = format!("{:?}", items);
    assert!(!debug.contains("●"), "no tabs should have active marker");
}

#[test]
fn single_workspace_flat_tree() {
    let windows = sample_windows();
    let items = build_tree_items(&windows, None);
    assert_eq!(items.len(), 2);
}

#[test]
fn multiple_workspaces_grouped() {
    let mut windows = sample_windows();
    windows[0].workspace = "dev".to_string();
    windows[1].workspace = "ops".to_string();
    let items = build_tree_items(&windows, None);
    assert_eq!(items.len(), 2);
    let debug = format!("{:?}", items);
    assert!(debug.contains("dev"));
    assert!(debug.contains("ops"));
}

// -- Further checks --

#[test]
fn labels_have_exact_text() {
    let windows = sample_windows();
    let item = build_window_item(&windows[0], Some(101));
    assert_eq!(item.label, "Dev  (1)");
    assert_eq!(item.children[0].label, "editor  (2 panes)");
    assert_eq!(item.children[0].children[1].label, "zsh [code] *");
    assert_eq!(item.children[1].label, "logs — tail [log]");
    let flat = build_window_item(&windows[1], None);
    assert_eq!(flat.label, "Browser  — curl [tmp]");
    assert!(flat.children.is_empty());
    assert_eq!(pane_label(&make_pane(5, "sh", "/"), Some(5)), "sh [] *");
    let mut no_cwd = make_pane(6, "sh", "/x");
    no_cwd.cwd = None;
    assert_eq!(pane_label(&no_cwd, None), "sh [~]");
}

#[test]
fn workspace_groups_are_sorted_and_counted() {
    let mut windows = sample_windows();
    windows[0].workspace = "zeta".to_string();
    windows[1].workspace = "alpha".to_string();
    windows.push(make_window(3, "Extra", vec![make_tab(30, "t", vec![make_pane(300, "p", "/p")])]));
    windows[2].workspace = "zeta".to_string();
    let items = build_tree_items(&windows, None);
    assert_eq!(items[0].id, NodeId::Workspace("alpha".to_string()));
    assert_eq!(items[0].label, "alpha  (1 window)");
    assert_eq!(items[1].label, "zeta  (2 windows)");
    assert_eq!(items[1].children[1].id, NodeId::Window(3));
}

#[test]
fn selected_info_exact_texts() {
    let windows = sample_windows();
    assert_eq!(selected_info(&windows, Some(&NodeId::Window(1))), "Window 1 - Dev - 2 tab(s)");
    assert_eq!(selected_info(&windows, Some(&NodeId::Tab(11))), "Tab 11 - logs - 1 pane(s)");
    assert_eq!(selected_info(&windows, Some(&NodeId::Pane(200))), "Pane 200 - curl - /tmp");
    assert_eq!(selected_info(&windows, Some(&NodeId::Pane(9))), "Pane 9");
    assert_eq!(selected_info(&windows, Some(&NodeId::Workspace("default".to_string()))), "Workspace default - 2 window(s)");
}

#[test]
fn locate_pane_finds_window_and_tab() {
    let windows = sample_windows();
    assert_eq!(locate_pane(&windows, 101), Some((1, 10)));
    assert_eq!(locate_pane(&windows, 200), Some((2, 20)));
    assert_eq!(locate_pane(&windows, 7), None);
}

#[test]
fn label_map_lists_rows_by_path() {
    let windows = sample_windows();
    let map = build_label_map(&windows, None);
    let paths: Vec<Vec<NodeId>> = map.iter().map(|(p, _)| p.clone()).collect();
    assert_eq!(paths, vec![
        vec![NodeId::Window(1)],
        vec![NodeId::Window(1), NodeId::Tab(10)],
        vec![NodeId::Window(1), NodeId::Tab(10), NodeId::Pane(100)],
        vec![NodeId::Window(1), NodeId::Tab(10), NodeId::Pane(101)],
        vec![NodeId::Window(1), NodeId::Tab(11)],
        vec![NodeId::Window(2)],
    ]);
    assert_eq!(map[1].1, "editor  (2 panes)");
    assert_eq!(map[5].1, "Browser  — curl [tmp]");
}

#[test]
fn connectors_follow_siblings() {
    // Window, its two tabs (the first with two panes), then a second window.
    let depths = [0usize, 1, 2, 2, 1, 0];
    assert_eq!(connector_prefix(&depths, 0), "");
    assert_eq!(connector_prefix(&depths, 1), "├─");
    assert_eq!(connector_prefix(&depths, 2), "│ ├─");
    assert_eq!(connector_prefix(&depths, 3), "│ └─");
    assert_eq!(connector_prefix(&depths, 4), "└─");
    assert!(has_more_siblings_at_depth(&depths, 0, 0));
    assert!(!has_more_siblings_at_depth(&depths, 5, 0));
    assert!(!has_more_siblings_at_depth(&depths, 3, 2));
}
