use weztui::layout::{scale_panes_to_rect, Rect};
use weztui::model::WezPane;

fn pane_with_geometry(id: u64, title: &str, left: u64, top: u64, w: u64, h: u64) -> WezPane {
    WezPane {
        pane_id: id,
        title: title.to_string(),
        cwd: Some(format!("/home/user/{title}")),
        is_active: false,
        left,
        top,
        width: w,
        height: h,
    }
}

#[test]
fn single_pane_fills_target() {
    let panes = vec![pane_with_geometry(1, "nvim", 0, 0, 80, 24)];
    let target = Rect::new(0, 0, 40, 12);
    let result = scale_panes_to_rect(&panes, target, None);
    assert_eq!(result.len(), 1);
    assert_eq!(result[0].rect, Rect::new(0, 0, 40, 12));
}

#[test]
fn vertical_split_two_panes() {
    let panes = vec![pane_with_geometry(1, "nvim", 0, 0, 40, 24), pane_with_geometry(2, "zsh", 41, 0, 39, 24)];
    let target = Rect::new(0, 0, 40, 12);
    let result = scale_panes_to_rect(&panes, target, None);
    assert_eq!(result.len(), 2);
    assert!(result[0].rect.x == 0);
    assert!(result[0].rect.width > 0);
    assert!(result[1].rect.x > 0);
    assert!(result[1].rect.x + result[1].rect.width <= 40);
}

#[test]
fn horizontal_split_two_panes() {
    let panes = vec![pane_with_geometry(1, "top", 0, 0, 80, 12), pane_with_geometry(2, "bottom", 0, 13, 80, 11)];
    let target = Rect::new(0, 0, 40, 12);
    let result = scale_panes_to_rect(&panes, target, None);
    assert_eq!(result.len(), 2);
    assert_eq!(result[0].rect.y, 0);
    assert!(result[1].rect.y > 0);
}

#[test]
fn three_way_l_shape() {
    let panes = vec![
        pane_with_geometry(1, "nvim", 0, 0, 60, 24),
        pane_with_geometry(2, "tests", 61, 0, 19, 12),
        pane_with_geometry(3, "logs", 61, 13, 19, 11),
    ];
    let target = Rect::new(0, 0, 40, 12);
    let result = scale_panes_to_rect(&panes, target, None);
    assert_eq!(result.len(), 3);
    for mp in &result {
        assert!(mp.rect.x + mp.rect.width <= target.x + target.width);
        assert!(mp.rect.y + mp.rect.height <= target.y + target.height);
    }
}

#[test]
fn empty_panes_returns_empty() {
    let result = scale_panes_to_rect(&[], Rect::new(0, 0, 40, 12), None);
    assert!(result.is_empty());
}

#[test]
fn zero_size_target_returns_empty() {
    let panes = vec![pane_with_geometry(1, "nvim", 0, 0, 80, 24)];
    let result = scale_panes_to_rect(&panes, Rect::new(0, 0, 0, 0), None);
    assert!(result.is_empty());
}

#[test]
fn minimum_size_enforced() {
    let panes = vec![pane_with_geometry(1, "left", 0, 0, 40, 24), pane_with_geometry(2, "right", 40, 0, 40, 24)];
    let target = Rect::new(0, 0, 40, 12);
    let result = scale_panes_to_rect(&panes, target, None);
    for mp in &result {
        assert!(mp.rect.width >= 3, "pane width should be at least 3");
        assert!(mp.rect.height >= 3, "pane height should be at least 3");
    }
}

#[test]
fn no_gaps_between_adjacent_panes() {
    let panes = vec![pane_with_geometry(1, "left", 0, 0, 40, 24), pane_with_geometry(2, "right", 40, 0, 40, 24)];
    let target = Rect::new(0, 0, 40, 12);
    let result = scale_panes_to_rect(&panes, target, None);
    assert_eq!(result.len(), 2);
    let right_edge_a = result[0].rect.x + result[0].rect.width;
    let left_edge_b = result[1].rect.x;
    assert_eq!(right_edge_a, left_edge_b, "adjacent panes should share edge");
}

#[test]
fn selected_pane_id_propagated() {
    let panes = vec![pane_with_geometry(1, "a", 0, 0, 40, 24), pane_with_geometry(2, "b", 40, 0, 40, 24)];
    let result = scale_panes_to_rect(&panes, Rect::new(0, 0, 40, 12), Some(2));
    assert!(!result[0].is_selected);
    assert!(result[1].is_selected);
}

#[test]
fn is_active_propagated() {
    let mut pane = pane_with_geometry(1, "nvim", 0, 0, 80, 24);
    pane.is_active = true;
    let result = scale_panes_to_rect(&[pane], Rect::new(0, 0, 40, 12), None);
    assert!(result[0].is_active);
}

// -- Further checks --

#[test]
fn scaled_rects_have_exact_values() {
    let panes = vec![pane_with_geometry(1, "left", 0, 0, 40, 24), pane_with_geometry(2, "right", 40, 0, 40, 24)];
    let result = scale_panes_to_rect(&panes, Rect::new(2, 3, 40, 12), None);
    assert_eq!(result[0].rect, Rect::new(2, 3, 20, 12));
    assert_eq!(result[1].rect, Rect::new(22, 3, 20, 12));
    assert_eq!(result[0].title, "left");
    assert_eq!(result[0].cwd_short, "left");
}
