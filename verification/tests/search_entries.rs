use weztui::model::{WezPane, WezTab, WezWindow};
use weztui::search::{build_search_entries, filter};

fn make_window(id: u64, title: &str, tabs: Vec<WezTab>) -> WezWindow {
    WezWindow { window_id: id, title: Some(title.to_string()), workspace: "default".to_string(), tabs }
}

fn make_tab(id: u64, title: &str, panes: Vec<WezPane>) -> WezTab {
    WezTab { tab_id: id, title: Some(title.to_string()), panes }
}

fn make_pane(id: u64, title: &str, cwd: &str) -> WezPane {
    WezPane {
        pane_id: id,
        title: title.to_string(),
        cwd: Some(cwd.to_string()),
        is_active: false,
        left: 0,
        top: 0,
        width: 80,
        height: 24,
    }
}

fn sample_windows() -> Vec<WezWindow> {
    vec![
        make_window(1, "Dev", vec![
            make_tab(10, "editor", vec![
                make_pane(100, "nvim", "/home/user/code"),
                make_pane(101, "zsh", "/home/user/code"),
            ]),
            make_tab(11, "logs", vec![make_pane(102, "tail", "/var/log")]),
        ]),
        make_window(2, "Browser", vec![make_tab(20, "http", vec![make_pane(200, "curl", "/tmp")])]),
    ]
}

#[test]
fn build_entries_count_matches_panes() {
    let entries = build_search_entries(&sample_windows());
    assert_eq!(entries.len(), 4);
}

#[test]
fn build_entries_fields_populated() {
    let entries = build_search_entries(&sample_windows());
    let nvim = entries.iter().find(|e| e.pane_id == 100).unwrap();
    assert_eq!(nvim.window_id, 1);
    assert_eq!(nvim.tab_id, 10);
    assert!(nvim.match_text.contains("Dev"));
    assert!(nvim.match_text.contains("editor"));
    assert!(nvim.match_text.contains("nvim"));
    assert!(nvim.display.contains("Dev"));
    assert!(nvim.display.contains("editor"));
    assert!(nvim.display.contains("nvim"));
}

#[test]
fn filter_empty_query_returns_all() {
    let entries = build_search_entries(&sample_windows());
    let results = filter(&entries, "");
    assert_eq!(results.len(), entries.len());
    assert!(results.iter().all(|r| r.score == 0));
}

#[test]
fn filter_exact_match() {
    let entries = build_search_entries(&sample_windows());
    let results = filter(&entries, "nvim");
    assert!(!results.is_empty());
    let best = &results[0];
    assert_eq!(entries[best.entry_index].pane_id, 100);
}

#[test]
fn filter_fuzzy_match() {
    let entries = build_search_entries(&sample_windows());
    let results = filter(&entries, "nvm");
    assert!(!results.is_empty(), "fuzzy match for 'nvm' should find 'nvim'");
}

#[test]
fn filter_no_matches() {
    let entries = build_search_entries(&sample_windows());
    let results = filter(&entries, "zzzzzzzzz");
    assert!(results.is_empty());
}

#[test]
fn filter_results_sorted_by_score() {
    let entries = build_search_entries(&sample_windows());
    let results = filter(&entries, "ed");
    if results.len() >= 2 {
        assert!(results[0].score >= results[1].score);
    }
}

#[test]
fn filter_matches_across_fields() {
    let entries = build_search_entries(&sample_windows());
    let results = filter(&entries, "Dev nvim");
    assert!(!results.is_empty());
    let best = &results[0];
    assert_eq!(entries[best.entry_index].pane_id, 100);
}

#[test]
fn build_entries_empty_windows() {
    let entries = build_search_entries(&[]);
    assert!(entries.is_empty());
}

// -- Further checks --

#[test]
fn entries_follow_tree_order_with_exact_texts() {
    let entries = build_search_entries(&sample_windows());
    let ids: Vec<u64> = entries.iter().map(|e| e.pane_id).collect();
    assert_eq!(ids, vec![100, 101, 102, 200]);
    assert_eq!(entries[0].match_text, "Dev editor nvim /home/user/code default");
    assert_eq!(entries[0].display, "Dev  >  editor  >  nvim  (code)");
}

#[test]
fn filter_ranks_every_result_and_keeps_positions() {
    let entries = build_search_entries(&sample_windows());
    let results = filter(&entries, "e");
    for w in results.windows(2) {
        assert!(w[0].score > w[1].score || (w[0].score == w[1].score && w[0].entry_index < w[1].entry_index));
    }
    for r in &results {
        assert!(r.entry_index < entries.len());
        assert!(!r.match_indices.is_empty());
    }
}

#[test]
fn workspace_name_is_searched() {
    let mut windows = sample_windows();
    windows[1].workspace = "scratchpad".to_string();
    let entries = build_search_entries(&windows);
    assert!(entries[3].match_text.ends_with(" scratchpad"));
    let results = filter(&entries, "scratchpad");
    assert_eq!(results.len(), 1);
    assert_eq!(entries[results[0].entry_index].pane_id, 200);
}
