use weztui::install::{comment_out_existing_binding, inject_text, keybinding_snippet, remove_marker_block, replace_marker_block};

const MARKER_START: &str = "-- weztui:start";
const MARKER_END: &str = "-- weztui:end";

#[test]
fn inject_inserts_marker_block() {
    let lua = "return {\n  { key = 'a', mods = 'CMD', action = 'Nop' },\n}\n";
    let result = inject_text(lua, "/usr/local/bin/weztui");
    assert!(result.contains(MARKER_START));
    assert!(result.contains(MARKER_END));
    assert!(result.contains("/usr/local/bin/weztui"));
    assert!(result.contains("key = 'a'"));
}

#[test]
fn remove_strips_marker_block() {
    let lua = format!("return {{\n  {{ key = 'a' }},\n{}\n}}\n", keybinding_snippet("/usr/local/bin/weztui"));
    let result = remove_marker_block(&lua).expect("marker block present");
    assert!(!result.contains(MARKER_START));
    assert!(!result.contains(MARKER_END));
    assert!(result.contains("key = 'a'"));
}

#[test]
fn remove_returns_false_without_markers() {
    let lua = "return {\n  { key = 'a' },\n}\n";
    assert!(remove_marker_block(lua).is_none());
}

#[test]
fn inject_is_idempotent() {
    let lua = "return {\n  { key = 'a' },\n}\n";
    let once = inject_text(lua, "/bin/weztui");
    let twice = inject_text(&once, "/bin/weztui-v2");
    assert_eq!(twice.matches(MARKER_START).count(), 1);
    assert!(twice.contains("/bin/weztui-v2"));
    assert!(!twice.contains("/bin/weztui'"));
}

// -- Further checks --

#[test]
fn snippet_has_exact_text() {
    assert_eq!(
        keybinding_snippet("/x"),
        "-- weztui:start\n{\n    key = 'g',\n    mods = 'CMD|SHIFT',\n    action = wezterm.action.SpawnCommandInNewTab {\n        args = { '/bin/sh', '-c', 'exec /x' },\n    },\n},\n-- weztui:end"
    );
}

#[test]
fn inject_goes_before_last_brace_or_at_end() {
    let lua = "return {\n  { key = 'a' },\n}\n";
    let expected = format!("return {{\n  {{ key = 'a' }},\n{}\n}}", keybinding_snippet("/b"));
    assert_eq!(inject_text(lua, "/b"), expected);
    assert_eq!(inject_text("local x = 1", "/b"), format!("local x = 1\n{}\n", keybinding_snippet("/b")));
}

#[test]
fn replacing_and_removing_the_block() {
    let text = format!("a\n{}\nb", keybinding_snippet("/old"));
    assert_eq!(replace_marker_block(&text, "NEW"), Some("a\nNEW\nb".to_string()));
    assert_eq!(remove_marker_block(&text), Some("a\nb".to_string()));
    assert_eq!(replace_marker_block("no block", "NEW"), None);
}

#[test]
fn conflicting_binding_is_commented_out() {
    let lua = "return {\n  {\n    key = 'g',\n    mods = 'CMD|SHIFT',\n    action = act.Nop,\n  },\n  { key = 'a' },\n}\n";
    let out = comment_out_existing_binding(lua);
    assert_eq!(
        out,
        "return {\n-- [weztui:disabled]   {\n-- [weztui:disabled]     key = 'g',\n-- [weztui:disabled]     mods = 'CMD|SHIFT',\n-- [weztui:disabled]     action = act.Nop,\n-- [weztui:disabled]   },\n  { key = 'a' },\n}"
    );
}

#[test]
fn bindings_inside_weztui_block_are_kept() {
    let lua = format!("return {{\n{}\n  {{ key = 'a' }},\n  {{ key = 'b' }},\n  {{ key = 'c' }},\n}}", keybinding_snippet("/w"));
    let out = comment_out_existing_binding(&lua);
    assert!(!out.contains("[weztui:disabled]"));
    assert_eq!(out, lua);
}

#[test]
fn lines_are_split_like_str_lines() {
    assert_eq!(comment_out_existing_binding("a\r\nb\n"), "a\nb");
    assert_eq!(comment_out_existing_binding(""), "");
    assert_eq!(comment_out_existing_binding("\n\nx\r"), "\n\nx\r");
}

#[test]
fn reinstall_over_conflicting_binding_keeps_one_block() {
    let lua = "return {\n  {\n    key = 'g',\n    mods = 'CMD|SHIFT',\n    action = 'Nop',\n  },\n  { key = 'a' },\n  { key = 'b' },\n}\n";
    let once = inject_text(lua, "/opt/weztui");
    let twice = inject_text(&once, "/usr/bin/weztui");
    assert_eq!(twice.matches(MARKER_START).count(), 1);
    assert_eq!(twice.matches(MARKER_END).count(), 1);
    assert!(twice.contains(&keybinding_snippet("/usr/bin/weztui")));
    assert!(!twice.contains("/opt/weztui"));
    assert!(twice.contains("-- [weztui:disabled]   {"));
}

#[test]
fn reinstall_without_closing_brace_keeps_one_block() {
    let lua = "local x = 1\n";
    let twice = inject_text(&inject_text(lua, "/a/weztui"), "/b/weztui");
    assert_eq!(twice.matches(MARKER_START).count(), 1);
    assert!(twice.contains(&keybinding_snippet("/b/weztui")));
    assert!(twice.starts_with("local x = 1"));
}

#[test]
fn remove_after_inject_gives_back_commented_text() {
    let lua = "return {\n  {\n    key = 'g',\n    mods = 'CMD|SHIFT',\n    action = 'Nop',\n  },\n  { key = 'a' },\n  { key = 'b' },\n}\n";
    let injected = inject_text(lua, "/usr/local/bin/weztui");
    let removed = remove_marker_block(&injected).expect("marker block present");
    assert_eq!(removed, comment_out_existing_binding(lua));
    assert!(removed.contains("key = 'a'"));
    assert!(!removed.contains(MARKER_START));
    assert!(!removed.contains(MARKER_END));
}

#[test]
fn remove_after_inject_without_brace_keeps_added_newline() {
    let lua = "local x = 1\n";
    let removed = remove_marker_block(&inject_text(lua, "/bin/weztui")).expect("marker block present");
    assert_eq!(removed, format!("{}\n", comment_out_existing_binding(lua)));
    assert_eq!(removed, "local x = 1\n");
}

#[test]
fn unicode_white_space_around_brace_opens_a_binding() {
    let lua = "return {\n\u{3000}{\u{00A0}\n    key = 'g',\n    mods = 'CMD|SHIFT',\n    action = 'Nop',\n  },\n  { key = 'a' },\n}\n";
    let out = comment_out_existing_binding(lua);
    assert!(out.contains("-- [weztui:disabled] \u{3000}{\u{00A0}"));
    assert!(out.contains("-- [weztui:disabled]     key = 'g',"));
    let not_space = "return {\n\u{200B}{\n    key = 'g',\n    mods = 'CMD|SHIFT',\n    action = 'Nop',\n  },\n  { key = 'a' },\n}\n";
    assert!(!comment_out_existing_binding(not_space).contains("[weztui:disabled]"));
}
