use weztui::settings::{int_decrement, int_increment, next_option_index, split_nested_key};

fn cursor_styles() -> Vec<String> {
    ["SteadyBlock", "BlinkingBlock", "SteadyUnderline", "BlinkingUnderline", "SteadyBar", "BlinkingBar"]
        .iter()
        .map(|s| s.to_string())
        .collect()
}

#[test]
fn int_increment_steps_and_holds_at_max() {
    assert_eq!(int_increment(800, 100, 2000), 900);
    assert_eq!(int_increment(1950, 100, 2000), 2000);
    assert_eq!(int_increment(2000, 100, 2000), 2000);
}

#[test]
fn int_decrement_steps_and_holds_at_min() {
    assert_eq!(int_decrement(24, 5, 10), 19);
    assert_eq!(int_decrement(12, 5, 10), 10);
    assert_eq!(int_decrement(10, 5, 10), 10);
    assert_eq!(int_decrement(-3, 4, -10), -7);
}

#[test]
fn next_option_follows_and_wraps() {
    let opts = cursor_styles();
    assert_eq!(next_option_index(&opts, &"SteadyBlock".to_string()), 1);
    assert_eq!(next_option_index(&opts, &"SteadyBar".to_string()), 5);
    assert_eq!(next_option_index(&opts, &"BlinkingBar".to_string()), 0);
}

#[test]
fn next_option_of_unknown_value_counts_from_first() {
    let opts = cursor_styles();
    assert_eq!(next_option_index(&opts, &"Hollow".to_string()), 1);
    let single = vec!["Only".to_string()];
    assert_eq!(next_option_index(&single, &"Only".to_string()), 0);
    assert_eq!(next_option_index(&single, &"Other".to_string()), 0);
}

#[test]
fn cycling_six_times_returns_to_start() {
    let opts = cursor_styles();
    let mut i = 0usize;
    for _ in 0..6 {
        i = next_option_index(&opts, &opts[i]);
    }
    assert_eq!(i, 0);
}

#[test]
fn nested_key_splits_at_first_dot() {
    assert_eq!(
        split_nested_key("window_padding.left"),
        Some(("window_padding".to_string(), "left".to_string()))
    );
    assert_eq!(split_nested_key("a.b.c"), Some(("a".to_string(), "b.c".to_string())));
    assert_eq!(split_nested_key(".x"), Some((String::new(), "x".to_string())));
}

#[test]
fn plain_key_is_not_nested() {
    assert_eq!(split_nested_key("font_size"), None);
    assert_eq!(split_nested_key(""), None);
}
