use weztui::model::WezPane;
use weztui::session::{first_pane_cwd, reconstruct_splits, SplitDirection, SplitNode};

fn pane_at(id: u64, title: &str, cwd: &str, left: u64, top: u64, w: u64, h: u64) -> WezPane {
    WezPane {
        pane_id: id,
        title: title.to_string(),
        cwd: Some(cwd.to_string()),
        is_active: false,
        left,
        top,
        width: w,
        height: h,
    }
}

fn count_leaves(node: &SplitNode) -> usize {
    match node {
        SplitNode::Pane { .. } => 1,
        SplitNode::Split { first, second, .. } => count_leaves(first) + count_leaves(second),
    }
}

#[test]
fn single_pane_returns_leaf() {
    let panes = vec![pane_at(1, "nvim", "/code", 0, 0, 80, 24)];
    let tree = reconstruct_splits(&panes);
    assert!(matches!(tree, SplitNode::Pane { .. }));
    if let SplitNode::Pane { title, cwd } = &tree {
        assert_eq!(title, "nvim");
        assert_eq!(cwd.as_deref(), Some("/code"));
    }
}

#[test]
fn vertical_split_detected() {
    let panes = vec![pane_at(1, "left", "/a", 0, 0, 40, 24), pane_at(2, "right", "/b", 41, 0, 39, 24)];
    let tree = reconstruct_splits(&panes);
    match &tree {
        SplitNode::Split { direction: SplitDirection::Vertical, .. } => {}
        other => panic!("expected vertical split, got {other:?}"),
    }
    assert_eq!(count_leaves(&tree), 2);
}

#[test]
fn horizontal_split_detected() {
    let panes = vec![pane_at(1, "top", "/a", 0, 0, 80, 12), pane_at(2, "bottom", "/b", 0, 13, 80, 11)];
    let tree = reconstruct_splits(&panes);
    match &tree {
        SplitNode::Split { direction: SplitDirection::Horizontal, .. } => {}
        other => panic!("expected horizontal split, got {other:?}"),
    }
    assert_eq!(count_leaves(&tree), 2);
}

#[test]
fn l_shape_three_panes() {
    let panes = vec![
        pane_at(1, "nvim", "/c", 0, 0, 60, 24),
        pane_at(2, "tests", "/c", 61, 0, 19, 12),
        pane_at(3, "logs", "/l", 61, 13, 19, 11),
    ];
    let tree = reconstruct_splits(&panes);
    assert_eq!(count_leaves(&tree), 3);
    match &tree {
        SplitNode::Split { direction: SplitDirection::Vertical, second, .. } => match second.as_ref() {
            SplitNode::Split { direction: SplitDirection::Horizontal, .. } => {}
            other => panic!("expected horizontal sub-split, got {other:?}"),
        },
        other => panic!("expected vertical split, got {other:?}"),
    }
}

#[test]
fn inverted_l_shape() {
    let panes = vec![
        pane_at(1, "a", "/", 0, 0, 40, 12),
        pane_at(2, "b", "/", 0, 13, 40, 11),
        pane_at(3, "c", "/", 41, 0, 39, 24),
    ];
    let tree = reconstruct_splits(&panes);
    assert_eq!(count_leaves(&tree), 3);
    match &tree {
        SplitNode::Split { direction: SplitDirection::Vertical, first, .. } => match first.as_ref() {
            SplitNode::Split { direction: SplitDirection::Horizontal, .. } => {}
            other => panic!("expected horizontal sub-split on left, got {other:?}"),
        },
        other => panic!("expected vertical split, got {other:?}"),
    }
}

#[test]
fn four_panes_grid() {
    let panes = vec![
        pane_at(1, "a", "/", 0, 0, 40, 12),
        pane_at(2, "b", "/", 41, 0, 39, 12),
        pane_at(3, "c", "/", 0, 13, 40, 11),
        pane_at(4, "d", "/", 41, 13, 39, 11),
    ];
    let tree = reconstruct_splits(&panes);
    assert_eq!(count_leaves(&tree), 4);
}

#[test]
fn unequal_split_percent() {
    let panes = vec![pane_at(1, "big", "/a", 0, 0, 56, 24), pane_at(2, "small", "/b", 57, 0, 23, 24)];
    let tree = reconstruct_splits(&panes);
    if let SplitNode::Split { percent, .. } = &tree {
        assert!(*percent >= 65 && *percent <= 75, "expected ~70%, got {percent}%");
    } else {
        panic!("expected split");
    }
}

#[test]
fn leaf_count_always_matches_input() {
    let panes = vec![
        pane_at(1, "a", "/", 0, 0, 40, 12),
        pane_at(2, "b", "/", 41, 0, 39, 12),
        pane_at(3, "c", "/", 0, 13, 40, 11),
        pane_at(4, "d", "/", 41, 13, 39, 11),
    ];
    let tree = reconstruct_splits(&panes);
    assert_eq!(count_leaves(&tree), panes.len());
}

#[test]
fn first_pane_cwd_extracts_from_tree() {
    let tree = SplitNode::Split {
        direction: SplitDirection::Vertical,
        percent: 50,
        first: Box::new(SplitNode::Pane { cwd: Some("/first".to_string()), title: "a".to_string() }),
        second: Box::new(SplitNode::Pane { cwd: Some("/second".to_string()), title: "b".to_string() }),
    };
    assert_eq!(first_pane_cwd(&tree), Some("/first".to_string()));
}

// -- Further checks --

#[test]
fn percents_stay_within_bounds_for_grid() {
    fn check(node: &SplitNode) {
        if let SplitNode::Split { percent, first, second, .. } = node {
            assert!(*percent >= 1 && *percent <= 99, "percent {percent} out of range");
            check(first);
            check(second);
        }
    }
    let panes = vec![
        pane_at(1, "a", "/", 0, 0, 40, 12),
        pane_at(2, "b", "/", 41, 0, 39, 12),
        pane_at(3, "c", "/", 0, 13, 40, 11),
        pane_at(4, "d", "/", 41, 13, 39, 11),
        pane_at(5, "e", "/", 81, 0, 1, 24),
    ];
    let tree = reconstruct_splits(&panes);
    check(&tree);
    assert_eq!(count_leaves(&tree), 5);
}

#[test]
fn exact_percent_for_vertical_split() {
    let panes = vec![pane_at(1, "big", "/a", 0, 0, 56, 24), pane_at(2, "small", "/b", 57, 0, 23, 24)];
    match reconstruct_splits(&panes) {
        SplitNode::Split { direction, percent, first, second } => {
            assert_eq!(direction, SplitDirection::Vertical);
            assert_eq!(percent, 70);
            assert!(matches!(*first, SplitNode::Pane { ref title, .. } if title == "big"));
            assert!(matches!(*second, SplitNode::Pane { ref title, .. } if title == "small"));
        }
        other => panic!("expected split, got {other:?}"),
    }
}

#[test]
fn empty_pane_list_is_an_untitled_leaf() {
    let tree = reconstruct_splits(&[]);
    assert_eq!(tree, SplitNode::Pane { cwd: None, title: String::new() });
}

fn leaf_items(n: &SplitNode, out: &mut Vec<(Option<String>, String)>) {
    match n {
        SplitNode::Pane { cwd, title } => out.push((cwd.clone(), title.clone())),
        SplitNode::Split { first, second, .. } => {
            leaf_items(first, out);
            leaf_items(second, out);
        }
    }
}

fn geo_pane(id: u64, title: &str, left: u64, top: u64, width: u64, height: u64) -> WezPane {
    WezPane { pane_id: id, title: title.to_string(), cwd: Some("/x".to_string()), is_active: false, left, top, width, height }
}

#[test]
fn recovered_leaves_are_the_panes_each_once() {
    let panes = vec![
        geo_pane(1, "a", 0, 0, 40, 24),
        geo_pane(2, "b", 41, 0, 39, 12),
        geo_pane(3, "b", 41, 13, 39, 11),
    ];
    let tree = reconstruct_splits(&panes);
    let mut got = Vec::new();
    leaf_items(&tree, &mut got);
    got.sort();
    let mut want: Vec<(Option<String>, String)> = panes.iter().map(|p| (p.cwd.clone(), p.title.clone())).collect();
    want.sort();
    assert_eq!(got, want);
}
