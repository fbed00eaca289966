use vstd::prelude::*;
use vstd::string::*;

use crate::model::{PaneInfo, WezTab, WezWindow, build_tree, is_tree_of};
use crate::search::{SearchEntry, SearchResult, all_entries, build_search_entries, filter, filter_ok, opt_chars};
use crate::session::{RestoreReport, SessionSummary};
use crate::settings::{SettingsNav, SettingsPanel, ValueKind, catalog_ok, selected_kind, settings_wf};
use crate::layout::{byte_len, char_index_at, chars_in_bytes, is_boundary, lemma_byte_len_concat, lemma_take_mono, lemma_take_step};
use crate::text::{chars_of, push_decimal, push_str, string_from_chars};
use crate::tree::{NodeId, is_first_pane, pane_at, tab_at, find_pane_window, find_tab, is_first_tab, no_tab, opt_node, selection_still_valid, node_exists, window_has_pane};

verus! {

/// What a confirmed prompt will do.
#[derive(Debug, Clone, PartialEq)]
pub enum PendingAction {
    ClosePanes(Vec<u64>),
}

/// A line for the status bar.
#[derive(Debug, Clone, PartialEq)]
pub struct StatusMessage {
    pub text: String,
    pub is_error: bool,
}

/// What the interface is doing: browsing the tree, or one of its prompts.
#[derive(Debug, Clone, PartialEq)]
pub enum Mode {
    Normal,
    Rename { input: String, cursor: usize },
    Move { grabbed: NodeId, grabbed_label: String },
    Confirm { action: PendingAction, label: String },
    Search {
        query: String,
        cursor: usize,
        entries: Vec<SearchEntry>,
        results: Vec<SearchResult>,
        selected_index: usize,
        direct_launch: bool,
    },
    Help,
    Settings(SettingsNav),
    SessionPick { sessions: Vec<SessionSummary>, selected_index: usize },
}

/// A key press, by what was pressed.
#[derive(Debug, Clone, Copy, PartialEq, Eq, Structural)]
pub enum Key {
    Char(char),
    Enter,
    Esc,
    Backspace,
    Delete,
    Left,
    Right,
    Up,
    Down,
    Home,
    End,
    Tab,
    Other,
}

/// A key press with whether Control was held.
#[derive(Debug, Clone, Copy, PartialEq, Eq, Structural)]
pub struct KeyPress {
    pub key: Key,
    pub ctrl: bool,
}

/// A step of the tree view's own navigation.
#[derive(Debug, Clone, Copy, PartialEq, Eq, Structural)]
pub enum TreeOp {
    Down,
    Up,
    Left,
    Right,
    First,
    Last,
    ToggleSelected,
}

/// Work that a key press asks of the terminal side, whose outcome is handed
/// back through the matching `finish_*` method.
#[derive(Debug, Clone, PartialEq)]
pub enum Command {
    Nothing,
    Tree(TreeOp),
    /// Activate the pane; then [`Core::finish_focus`].
    Focus { pane_id: u64, from_search: bool },
    /// Set the title of the tab (or, with `window`, the window) that holds
    /// the pane; then [`Core::finish_rename`].
    SetTitle { pane_id: u64, window: bool, title: String },
    /// Nothing to rename: [`Core::finish_rename`] with success.
    RenameNothing { title: String },
    /// Move each pane to a new tab in the window; then [`Core::finish_move`].
    MovePanes { pane_ids: Vec<u64>, target_window_id: u64 },
    /// Kill each pane; then [`Core::finish_close`].
    ClosePanes { pane_ids: Vec<u64> },
    /// List the saved sessions; then [`Core::open_session_pick`].
    ListSessions,
    /// Open the settings editor.
    OpenSettings,
    /// Load and restore the session; then [`Core::finish_restore`].
    RestoreSession { name: String },
    /// Delete the session; then [`Core::finish_delete`].
    DeleteSession { name: String },
    /// Store the edited text as the setting's value, read as its kind, and
    /// show the settings live.
    ApplySetting { category: usize, setting: usize, kind: ValueKind, text: String },
    /// Flip the setting and show the settings live.
    ToggleSetting { category: usize, setting: usize },
    /// Move the setting to its next option and show the settings live.
    CycleSetting { category: usize, setting: usize },
    /// Start editing the setting from its shown value; then
    /// [`Core::begin_setting_edit`].
    EditSetting { category: usize, setting: usize },
    /// Raise (or lower) the setting by its step, within its bounds, and show
    /// the settings live.
    StepSetting { category: usize, setting: usize, up: bool },
    /// Put the setting back to its saved value and show the settings live.
    ResetSetting { category: usize, setting: usize },
    /// Open the terminal's own configuration file.
    OpenConfig,
    /// Show the saved settings again (the editor has closed).
    RevertSettings,
    /// Save the settings; then [`Core::finish_save_settings`].
    SaveSettings,
}

/// The state of the interface apart from the tree view's own state.
pub struct Core {
    pub should_quit: bool,
    pub windows: Vec<WezWindow>,
    pub current_pane_id: Option<u64>,
    pub mode: Mode,
    pub status_message: Option<StatusMessage>,
}

/// The status holds `text`, as an error or not.
pub open spec fn has_status(m: Option<StatusMessage>, text: Seq<char>, is_error: bool) -> bool {
    m is Some && m->0.text@ == text && m->0.is_error == is_error
}

/// The text prompts keep their cursor inside their text, and search results
/// point at their entries.
pub open spec fn mode_wf(m: Mode) -> bool {
    match m {
        Mode::Rename { input, cursor } => cursor <= byte_len(input@),
        Mode::Settings(nav) => settings_wf(nav),
        Mode::Search { query, cursor, entries, results, .. } => cursor <= byte_len(query@) && forall|i: int|
            0 <= i < results@.len() ==> (#[trigger] results@[i]).entry_index < entries@.len(),
        _ => true,
    }
}

/// The effect of an editing key on a line of text and its cursor, a byte
/// offset into the text's UTF-8 form: a character goes in at the cursor,
/// which then moves one byte on; Backspace takes out the character that
/// starts one byte before the cursor, Delete the one that starts at it; the
/// arrows move the cursor by one byte, Home and End to either end. Other
/// keys leave both alone.
pub open spec fn edit_line(s: Seq<char>, cursor: int, key: Key) -> (Seq<char>, int) {
    match key {
        Key::Char(c) => (s.insert(chars_in_bytes(s, cursor), c), cursor + 1),
        Key::Backspace => if cursor > 0 {
            (s.remove(chars_in_bytes(s, cursor - 1)), cursor - 1)
        } else {
            (s, cursor)
        },
        Key::Delete => if cursor < byte_len(s) { (s.remove(chars_in_bytes(s, cursor)), cursor) } else { (s, cursor) },
        Key::Left => (s, if cursor > 0 { cursor - 1 } else { 0 }),
        Key::Right => (s, if cursor < byte_len(s) { cursor + 1 } else { cursor }),
        Key::Home => (s, 0),
        Key::End => (s, byte_len(s)),
        _ => (s, cursor),
    }
}

/// The editing key acts where characters meet: a character goes in, and
/// Backspace or Delete takes one out, only at a byte offset between two
/// characters (elsewhere the edit panics); and the cursor stays below
/// `usize::MAX` as it moves past an inserted character.
pub open spec fn edit_ok(s: Seq<char>, cursor: int, key: Key) -> bool {
    match key {
        Key::Char(_) => is_boundary(s, cursor) && cursor < usize::MAX,
        Key::Backspace => cursor > 0 ==> is_boundary(s, cursor - 1),
        Key::Delete => cursor < byte_len(s) ==> is_boundary(s, cursor),
        _ => true,
    }
}

fn status(text: Vec<char>, is_error: bool) -> (m: Option<StatusMessage>)
    ensures
        has_status(m, text@, is_error),
{
    Some(StatusMessage { text: string_from_chars(text.as_slice()), is_error })
}

fn status_str(text: &str, is_error: bool) -> (m: Option<StatusMessage>)
    ensures
        has_status(m, text@, is_error),
{
    Some(StatusMessage { text: String::from_str(text), is_error })
}

/// Whether an editing key meets [`edit_ok`].
fn edit_allowed(s: &String, cursor: usize, key: Key) -> (b: bool)
    ensures
        b == edit_ok(s@, cursor as int, key),
{
    let total = s.as_str().as_bytes().len();
    let cs = chars_of(s.as_str());
    match key {
        Key::Char(_) => cursor < usize::MAX && char_index_at(&cs, cursor).is_some(),
        Key::Backspace => cursor == 0 || char_index_at(&cs, cursor - 1).is_some(),
        Key::Delete => cursor >= total || char_index_at(&cs, cursor).is_some(),
        _ => true,
    }
}

/// Applies an editing key to a line of text (see [`edit_line`]).
pub fn edit_text(input: &String, cursor: usize, key: Key) -> (r: (String, usize))
    requires
        cursor <= byte_len(input@),
        edit_ok(input@, cursor as int, key),
    ensures
        (r.0@, r.1 as int) == edit_line(input@, cursor as int, key),
        r.1 <= byte_len(r.0@),
{
    let total = input.as_str().as_bytes().len();
    let mut cs = chars_of(input.as_str());
    let ghost s = cs@;
    assert(total == byte_len(s));
    let mut cur = cursor;
    match key {
        Key::Char(c) => {
            if let Some(i) = char_index_at(&cs, cursor) {
                cs.insert(i, c);
                cur = cursor + 1;
                proof {
                    assert(cs@ =~= s.take(i as int).push(c) + s.skip(i as int));
                    assert(s =~= s.take(i as int) + s.skip(i as int));
                    lemma_byte_len_concat(s.take(i as int).push(c), s.skip(i as int));
                    lemma_byte_len_concat(s.take(i as int), s.skip(i as int));
                    let t = s.take(i as int).push(c);
                    lemma_take_step(t, i as int);
                    assert(t.take(i as int) =~= s.take(i as int));
                    assert(t.take(i + 1) =~= t);
                }
            }
        },
        Key::Backspace => {
            if cursor > 0 {
                if let Some(i) = char_index_at(&cs, cursor - 1) {
                    proof {
                        assert(s.take(s.len() as int) =~= s);
                        if i == s.len() {
                        }
                        lemma_take_step(s, i as int);
                        lemma_take_mono(s, i + 1, s.len() as int);
                        assert(s.remove(i as int) =~= s.take(i as int) + s.skip(i + 1));
                        assert(s =~= s.take(i + 1) + s.skip(i + 1));
                        lemma_byte_len_concat(s.take(i as int), s.skip(i + 1));
                        lemma_byte_len_concat(s.take(i + 1), s.skip(i + 1));
                    }
                    cs.remove(i);
                    cur = cursor - 1;
                }
            }
        },
        Key::Delete => {
            if cursor < total {
                if let Some(i) = char_index_at(&cs, cursor) {
                    proof {
                        assert(s.take(s.len() as int) =~= s);
                        lemma_take_step(s, i as int);
                        lemma_take_mono(s, i + 1, s.len() as int);
                        assert(s.remove(i as int) =~= s.take(i as int) + s.skip(i + 1));
                        assert(s =~= s.take(i + 1) + s.skip(i + 1));
                        lemma_byte_len_concat(s.take(i as int), s.skip(i + 1));
                        lemma_byte_len_concat(s.take(i + 1), s.skip(i + 1));
                    }
                    cs.remove(i);
                }
            }
        },
        Key::Left => {
            if cur > 0 {
                cur = cur - 1;
            }
        },
        Key::Right => {
            if cur < total {
                cur = cur + 1;
            }
        },
        Key::Home => {
            cur = 0;
        },
        Key::End => {
            cur = total;
        },
        _ => {},
    }
    (string_from_chars(cs.as_slice()), cur)
}


pub open spec fn msg_cannot_rename() -> Seq<char> {
    seq!['C', 'a', 'n', 'n', 'o', 't', ' ', 'r', 'e', 'n', 'a', 'm', 'e', ' ', '—', ' ', 's', 'e', 'l', 'e', 'c', 't', ' ', 'a', ' ', 't', 'a', 'b', ' ', 'o', 'r', ' ', 'w', 'i', 'n', 'd', 'o', 'w']
}

pub open spec fn msg_select_to_move() -> Seq<char> {
    seq!['S', 'e', 'l', 'e', 'c', 't', ' ', 'a', ' ', 't', 'a', 'b', ' ', 'o', 'r', ' ', 'p', 'a', 'n', 'e', ' ', 't', 'o', ' ', 'm', 'o', 'v', 'e']
}

pub open spec fn msg_no_other_windows() -> Seq<char> {
    seq!['N', 'o', ' ', 'o', 't', 'h', 'e', 'r', ' ', 'w', 'i', 'n', 'd', 'o', 'w', 's', ' ', 't', 'o', ' ', 'm', 'o', 'v', 'e', ' ', 't', 'o']
}

pub open spec fn msg_cannot_close_workspace() -> Seq<char> {
    seq!['C', 'a', 'n', 'n', 'o', 't', ' ', 'c', 'l', 'o', 's', 'e', ' ', 'a', ' ', 'w', 'o', 'r', 'k', 's', 'p', 'a', 'c', 'e']
}

/// The window with index `i` is the first with id `id`.
pub open spec fn first_window(ws: Seq<WezWindow>, id: u64, i: int) -> bool {
    0 <= i < ws.len() && ws[i].window_id == id && forall|i2: int| 0 <= i2 < i ==> (#[trigger] ws[i2]).window_id != id
}

/// No window has id `id`.
pub open spec fn no_window(ws: Seq<WezWindow>, id: u64) -> bool {
    forall|i: int| 0 <= i < ws.len() ==> (#[trigger] ws[i]).window_id != id
}

/// The title a rename prompt starts from for `node`: the first matching
/// window's or tab's title, or nothing.
pub open spec fn rename_start(ws: Seq<WezWindow>, node: NodeId, input: Seq<char>) -> bool {
    match node {
        NodeId::Window(id) => {
            &&& (forall|i: int| #![trigger ws[i]] first_window(ws, id, i) ==> input == opt_chars(ws[i].title))
            &&& (no_window(ws, id) ==> input.len() == 0)
        },
        NodeId::Tab(id) => {
            &&& (forall|i: int, j: int| #![trigger ws[i].tabs@[j]] is_first_tab(ws, id, i, j) ==> input == opt_chars(ws[i].tabs@[j].title))
            &&& (no_tab(ws, id) ==> input.len() == 0)
        },
        _ => false,
    }
}

/// `(i, j, k)` names the first pane of `ws` with id `id`, or there is none.
pub open spec fn pane_label_start(ws: Seq<WezWindow>, id: u64, label: Seq<char>) -> bool {
    &&& (forall|i: int, j: int, k: int| #![trigger ws[i].tabs@[j].panes@[k]] is_first_pane(ws, id, i, j, k) ==> label == ws[i].tabs@[j].panes@[k].title@)
    &&& ((forall|i: int, j: int, k: int| #![trigger ws[i].tabs@[j].panes@[k]] pane_at(ws, i, j, k) ==> ws[i].tabs@[j].panes@[k].pane_id != id)
        ==> label == seq!['P', 'a', 'n', 'e', ' '] + crate::text::decimal(id as nat))
}

/// The label a move starts with for a grabbed tab.
pub open spec fn tab_label_start(ws: Seq<WezWindow>, id: u64, label: Seq<char>) -> bool {
    &&& (forall|i: int, j: int| #![trigger ws[i].tabs@[j]] is_first_tab(ws, id, i, j) ==> label == match ws[i].tabs@[j].title {
        Some(t) => t@,
        None => seq!['T', 'a', 'b', ' '] + crate::text::decimal(id as nat),
    })
    &&& (no_tab(ws, id) ==> label == seq!['T', 'a', 'b', ' '] + crate::text::decimal(id as nat))
}

/// The ids of the panes of tab `t`, in order.
pub open spec fn tab_pane_ids(t: WezTab) -> Seq<u64> {
    t.panes@.map_values(|p: crate::model::WezPane| p.pane_id)
}

/// The ids of the panes of the first `k` tabs of window `w`, in tree order.
pub open spec fn window_pane_ids(w: WezWindow, k: int) -> Seq<u64>
    decreases k,
{
    if k <= 0 {
        Seq::empty()
    } else {
        window_pane_ids(w, k - 1) + tab_pane_ids(w.tabs@[k - 1])
    }
}

pub open spec fn quote() -> Seq<char> {
    seq!['\'']
}

/// `Close tab 'name'? (n pane(s))` and the like, for `kind` `tab` or `window`.
pub open spec fn close_label(kind: Seq<char>, title: Option<String>, n: nat) -> Seq<char> {
    seq!['C', 'l', 'o', 's', 'e', ' '] + kind + seq![' '] + quote() + crate::tree::or_unnamed(title) + quote()
        + seq!['?', ' ', '('] + crate::text::decimal(n) + seq![' ', 'p', 'a', 'n', 'e', '(', 's', ')', ')']
}

/// The search prompt as it opens over `ws` with `query`.
pub open spec fn search_opened(m: Mode, ws: Seq<WezWindow>, query: Seq<char>, direct: bool) -> bool {
    m matches Mode::Search { query: q, cursor, entries, results, selected_index, direct_launch }
        && q@ == query && cursor == byte_len(query) && entries@.map_values(|e: SearchEntry| e@) == all_entries(ws)
        && filter_ok(entries@, query, results@) && selected_index == 0 && direct_launch == direct
}

/// What opening the rename prompt does for the selection `sel`.
pub open spec fn rename_entry_ok(o: Core, n: Core, sel: Option<NodeId>) -> bool {
    match sel {
        Some(NodeId::Window(id)) | Some(NodeId::Tab(id)) => n.mode matches Mode::Rename { input, cursor }
            && rename_start(o.windows@, sel->0, input@) && cursor == byte_len(input@)
            && n.status_message == o.status_message,
        Some(_) => n.mode == o.mode && has_status(n.status_message, msg_cannot_rename(), true),
        None => n.mode == o.mode && n.status_message == o.status_message,
    }
}

/// What grabbing the selection `sel` for a move does.
pub open spec fn move_entry_ok(o: Core, n: Core, sel: Option<NodeId>) -> bool {
    match sel {
        Some(NodeId::Pane(id)) | Some(NodeId::Tab(id)) => if o.windows@.len() < 2 {
            n.mode == o.mode && has_status(n.status_message, msg_no_other_windows(), true)
        } else {
            n.mode matches Mode::Move { grabbed, grabbed_label }
                && grabbed == sel->0
                && (sel->0 is Pane ==> pane_label_start(o.windows@, id, grabbed_label@))
                && (sel->0 is Tab ==> tab_label_start(o.windows@, id, grabbed_label@))
                && n.status_message == o.status_message
        },
        Some(_) => n.mode == o.mode && has_status(n.status_message, msg_select_to_move(), true),
        None => n.mode == o.mode && n.status_message == o.status_message,
    }
}

/// What asking to close the selection `sel` does.
pub open spec fn confirm_entry_ok(o: Core, n: Core, sel: Option<NodeId>) -> bool {
    match sel {
        Some(NodeId::Pane(id)) => n.mode matches Mode::Confirm { action: PendingAction::ClosePanes(ids), label }
            && ids@ == seq![id] && label@ == seq!['C', 'l', 'o', 's', 'e', ' ', 'p', 'a', 'n', 'e', ' '] + crate::text::decimal(id as nat) + seq!['?']
            && n.status_message == o.status_message,
        Some(NodeId::Tab(id)) => {
            &&& n.status_message == o.status_message
            &&& (forall|i: int, j: int| #![trigger o.windows@[i].tabs@[j]] is_first_tab(o.windows@, id, i, j) ==>
                (n.mode matches Mode::Confirm { action: PendingAction::ClosePanes(ids), label }
                && ids@ == tab_pane_ids(o.windows@[i].tabs@[j])
                && label@ == close_label(seq!['t', 'a', 'b'], o.windows@[i].tabs@[j].title, ids@.len())))
            &&& (no_tab(o.windows@, id) ==> n.mode == o.mode)
        },
        Some(NodeId::Window(id)) => {
            &&& n.status_message == o.status_message
            &&& (forall|i: int| #![trigger o.windows@[i]] first_window(o.windows@, id, i) ==>
                (n.mode matches Mode::Confirm { action: PendingAction::ClosePanes(ids), label }
                && ids@ == window_pane_ids(o.windows@[i], o.windows@[i].tabs.len() as int)
                && label@ == close_label(seq!['w', 'i', 'n', 'd', 'o', 'w'], o.windows@[i].title, ids@.len())))
            &&& (no_window(o.windows@, id) ==> n.mode == o.mode)
        },
        Some(NodeId::Workspace(_)) => n.mode == o.mode && has_status(n.status_message, msg_cannot_close_workspace(), true),
        None => n.mode == o.mode && n.status_message == o.status_message,
    }
}

pub open spec fn msg_navigate_target() -> Seq<char> {
    seq!['N', 'a', 'v', 'i', 'g', 'a', 't', 'e', ' ', 't', 'o', ' ', 'a', ' ', 't', 'a', 'r', 'g', 'e', 't', ' ', 'w', 'i', 'n', 'd', 'o', 'w']
}

pub open spec fn msg_already_there() -> Seq<char> {
    seq!['A', 'l', 'r', 'e', 'a', 'd', 'y', ' ', 'i', 'n', ' ', 't', 'h', 'a', 't', ' ', 'w', 'i', 'n', 'd', 'o', 'w']
}

/// Only the mode, the quit flag and the status may differ.
pub open spec fn same_data(o: Core, n: Core) -> bool {
    n.windows == o.windows && n.current_pane_id == o.current_pane_id
}

/// Nothing differs.
pub open spec fn unchanged(o: Core, n: Core) -> bool {
    same_data(o, n) && n.should_quit == o.should_quit && n.mode == o.mode && n.status_message == o.status_message
}

/// Only the mode differs, and it is `m`.
pub open spec fn only_mode(o: Core, n: Core, m: Mode) -> bool {
    same_data(o, n) && n.should_quit == o.should_quit && n.mode == m && n.status_message == o.status_message
}

/// The mode and status are as before, the status now holding an error `text`.
pub open spec fn error_kept_mode(o: Core, n: Core, text: Seq<char>) -> bool {
    same_data(o, n) && n.should_quit == o.should_quit && n.mode == o.mode && has_status(n.status_message, text, true)
}

/// A key while browsing the tree (`o` is the state with the status cleared).
pub open spec fn normal_step(o: Core, n: Core, k: KeyPress, sel: Option<NodeId>, cmd: Command) -> bool {
    match k.key {
        Key::Char('q') | Key::Esc => same_data(o, n) && n.should_quit && n.mode == o.mode && n.status_message == o.status_message
            && cmd == Command::Nothing,
        Key::Char('j') | Key::Down => unchanged(o, n) && cmd == Command::Tree(TreeOp::Down),
        Key::Char('k') | Key::Up => unchanged(o, n) && cmd == Command::Tree(TreeOp::Up),
        Key::Char('h') | Key::Left => unchanged(o, n) && cmd == Command::Tree(TreeOp::Left),
        Key::Char('l') | Key::Right => unchanged(o, n) && cmd == Command::Tree(TreeOp::Right),
        Key::Home => unchanged(o, n) && cmd == Command::Tree(TreeOp::First),
        Key::End => unchanged(o, n) && cmd == Command::Tree(TreeOp::Last),
        Key::Enter | Key::Char('f') => unchanged(o, n) && cmd == match sel {
            Some(NodeId::Pane(id)) => Command::Focus { pane_id: id, from_search: false },
            Some(_) => Command::Tree(TreeOp::ToggleSelected),
            None => Command::Nothing,
        },
        Key::Char('/') => same_data(o, n) && n.should_quit == o.should_quit && n.status_message == o.status_message
            && search_opened(n.mode, o.windows@, Seq::empty(), false) && cmd == Command::Nothing,
        Key::Char('?') => only_mode(o, n, Mode::Help) && cmd == Command::Nothing,
        Key::Char('s') => unchanged(o, n) && cmd == Command::ListSessions,
        Key::Char('S') => unchanged(o, n) && cmd == Command::OpenSettings,
        Key::Char('r') => same_data(o, n) && n.should_quit == o.should_quit && rename_entry_ok(o, n, sel) && cmd == Command::Nothing,
        Key::Char('m') => same_data(o, n) && n.should_quit == o.should_quit && move_entry_ok(o, n, sel) && cmd == Command::Nothing,
        Key::Char('x') => same_data(o, n) && n.should_quit == o.should_quit && confirm_entry_ok(o, n, sel) && cmd == Command::Nothing,
        _ => unchanged(o, n) && cmd == Command::Nothing,
    }
}

/// The rename that confirming the prompt with `title` asks for: the tab's
/// title through its first pane, or the window's through the first pane of
/// its first tab; nothing when there is no such pane.
pub open spec fn rename_command(ws: Seq<WezWindow>, sel: Option<NodeId>, title: Seq<char>, cmd: Command) -> bool {
    let nothing = cmd matches Command::RenameNothing { title: t } && t@ == title;
    match sel {
        Some(NodeId::Tab(id)) => {
            &&& (forall|i: int, j: int| #![trigger ws[i].tabs@[j]] is_first_tab(ws, id, i, j) ==> if ws[i].tabs@[j].panes.len() > 0 {
                cmd matches Command::SetTitle { pane_id, window, title: t } && pane_id == ws[i].tabs@[j].panes@[0].pane_id && !window
                    && t@ == title
            } else {
                nothing
            })
            &&& (no_tab(ws, id) ==> nothing)
        },
        Some(NodeId::Window(id)) => {
            &&& (forall|i: int| #![trigger ws[i]] first_window(ws, id, i) ==> if ws[i].tabs.len() > 0 && ws[i].tabs@[0].panes.len() > 0 {
                cmd matches Command::SetTitle { pane_id, window, title: t } && pane_id == ws[i].tabs@[0].panes@[0].pane_id && window
                    && t@ == title
            } else {
                nothing
            })
            &&& (no_window(ws, id) ==> nothing)
        },
        _ => nothing,
    }
}

/// A key at the rename prompt.
pub open spec fn rename_step(o: Core, n: Core, k: KeyPress, sel: Option<NodeId>, cmd: Command) -> bool {
    match o.mode {
        Mode::Rename { input, cursor } => match k.key {
            Key::Esc => only_mode(o, n, Mode::Normal) && cmd == Command::Nothing,
            Key::Enter => only_mode(o, n, Mode::Normal) && rename_command(o.windows@, sel, input@, cmd),
            Key::Backspace | Key::Delete | Key::Left | Key::Right | Key::Home | Key::End | Key::Char(_) => same_data(o, n)
                && n.should_quit == o.should_quit && n.status_message == o.status_message && cmd == Command::Nothing
                && (n.mode matches Mode::Rename { input: i2, cursor: c2 } && (i2@, c2 as int) == edit_line(input@, cursor as int, k.key)),
            _ => unchanged(o, n) && cmd == Command::Nothing,
        },
        _ => false,
    }
}

/// The window that holds the first tab with id `id`.
pub open spec fn tab_window(ws: Seq<WezWindow>, id: u64) -> Option<u64> {
    if exists|i: int, j: int| is_first_tab(ws, id, i, j) {
        let (i, j) = choose|i: int, j: int| is_first_tab(ws, id, i, j);
        Some(ws[i].window_id)
    } else {
        None
    }
}

/// The first window that holds pane `id`.
pub open spec fn pane_window(ws: Seq<WezWindow>, id: u64) -> Option<u64> {
    if exists|i: int| 0 <= i < ws.len() && window_has_pane(ws[i], id) && forall|i2: int| 0 <= i2 < i ==> !window_has_pane(#[trigger] ws[i2], id) {
        let i = choose|i: int| 0 <= i < ws.len() && window_has_pane(ws[i], id) && forall|i2: int| 0 <= i2 < i ==> !window_has_pane(#[trigger] ws[i2], id);
        Some(ws[i].window_id)
    } else {
        None
    }
}

/// The window a move drops into, read from the selection.
pub open spec fn move_target(ws: Seq<WezWindow>, sel: Option<NodeId>) -> Option<u64> {
    match sel {
        Some(NodeId::Window(id)) => Some(id),
        Some(NodeId::Tab(id)) => tab_window(ws, id),
        Some(NodeId::Pane(id)) => pane_window(ws, id),
        _ => None,
    }
}

/// The ids of the panes that moving `grabbed` moves.
pub open spec fn grabbed_ids(ws: Seq<WezWindow>, grabbed: NodeId) -> Seq<u64> {
    match grabbed {
        NodeId::Pane(id) => seq![id],
        NodeId::Tab(id) => if exists|i: int, j: int| is_first_tab(ws, id, i, j) {
            let (i, j) = choose|i: int, j: int| is_first_tab(ws, id, i, j);
            tab_pane_ids(ws[i].tabs@[j])
        } else {
            Seq::empty()
        },
        _ => Seq::empty(),
    }
}

/// The window that `grabbed` comes from.
pub open spec fn move_source(ws: Seq<WezWindow>, grabbed: NodeId) -> Option<u64> {
    match grabbed {
        NodeId::Pane(id) => pane_window(ws, id),
        NodeId::Tab(id) => tab_window(ws, id),
        _ => None,
    }
}

/// Dropping `grabbed` on the selection.
pub open spec fn drop_step(o: Core, n: Core, grabbed: NodeId, sel: Option<NodeId>, cmd: Command) -> bool {
    match move_target(o.windows@, sel) {
        None => error_kept_mode(o, n, msg_navigate_target()) && cmd == Command::Nothing,
        Some(t) => if !(grabbed is Pane || grabbed is Tab) {
            unchanged(o, n) && cmd == Command::Nothing
        } else if move_source(o.windows@, grabbed) == Some(t) {
            error_kept_mode(o, n, msg_already_there()) && cmd == Command::Nothing
        } else {
            only_mode(o, n, Mode::Normal) && (cmd matches Command::MovePanes { pane_ids, target_window_id }
                && pane_ids@ == grabbed_ids(o.windows@, grabbed) && target_window_id == t)
        },
    }
}

/// A key while moving: navigate to the target window, drop, or cancel.
pub open spec fn move_step(o: Core, n: Core, k: KeyPress, sel: Option<NodeId>, cmd: Command) -> bool {
    match o.mode {
        Mode::Move { grabbed, .. } => match k.key {
            Key::Esc => only_mode(o, n, Mode::Normal) && cmd == Command::Nothing,
            Key::Char('j') | Key::Down => unchanged(o, n) && cmd == Command::Tree(TreeOp::Down),
            Key::Char('k') | Key::Up => unchanged(o, n) && cmd == Command::Tree(TreeOp::Up),
            Key::Char('h') | Key::Left => unchanged(o, n) && cmd == Command::Tree(TreeOp::Left),
            Key::Char('l') | Key::Right => unchanged(o, n) && cmd == Command::Tree(TreeOp::Right),
            Key::Enter | Key::Char('m') => drop_step(o, n, grabbed, sel, cmd),
            _ => unchanged(o, n) && cmd == Command::Nothing,
        },
        _ => false,
    }
}

/// A key at the confirmation prompt.
pub open spec fn confirm_step(o: Core, n: Core, k: KeyPress, cmd: Command) -> bool {
    match o.mode {
        Mode::Confirm { action: PendingAction::ClosePanes(ids), .. } => match k.key {
            Key::Char('y') | Key::Enter => only_mode(o, n, Mode::Normal) && (cmd matches Command::ClosePanes { pane_ids } && pane_ids@ == ids@),
            Key::Char('n') | Key::Esc => only_mode(o, n, Mode::Normal) && cmd == Command::Nothing,
            _ => unchanged(o, n) && cmd == Command::Nothing,
        },
        _ => false,
    }
}

/// The key moves the search selection down: Down, `j` or Control-N.
pub open spec fn search_down(k: KeyPress) -> bool {
    k.key == Key::Down || k.key == Key::Char('j') || (k.key == Key::Char('n') && k.ctrl)
}

/// The key moves the search selection up: Up, `k` or Control-P.
pub open spec fn search_up(k: KeyPress) -> bool {
    k.key == Key::Up || k.key == Key::Char('k') || (k.key == Key::Char('p') && k.ctrl)
}

/// The key edits no prompt text in the middle of a character (see
/// [`edit_ok`]): in the rename and search prompts, and in the settings
/// editor while a value is being edited.
pub open spec fn key_edit_ok(m: Mode, k: KeyPress) -> bool {
    match m {
        Mode::Rename { input, cursor } => edit_ok(input@, cursor as int, k.key),
        Mode::Search { query, cursor, .. } => search_down(k) || search_up(k) || edit_ok(query@, cursor as int, k.key),
        Mode::Settings(s) => s.editing && setting_edit_key(k.key) ==> edit_ok(s.edit_buffer@, s.edit_cursor as int, k.key),
        _ => true,
    }
}

/// A key at the search prompt.
pub open spec fn search_step(o: Core, n: Core, k: KeyPress, cmd: Command) -> bool {
    match o.mode {
        Mode::Search { query, cursor, entries, results, selected_index, direct_launch } => if search_down(k) {
            only_mode(o, n, Mode::Search {
                query,
                cursor,
                entries,
                results,
                selected_index: if selected_index + 1 < results@.len() { (selected_index + 1) as usize } else { selected_index },
                direct_launch,
            }) && cmd == Command::Nothing
        } else if search_up(k) {
            only_mode(o, n, Mode::Search {
                query,
                cursor,
                entries,
                results,
                selected_index: if selected_index > 0 { (selected_index - 1) as usize } else { 0 },
                direct_launch,
            }) && cmd == Command::Nothing
        } else {
            match k.key {
                Key::Enter => unchanged(o, n) && cmd == if selected_index < results@.len() {
                    Command::Focus { pane_id: entries@[results@[selected_index as int].entry_index as int].pane_id, from_search: true }
                } else {
                    Command::Nothing
                },
                Key::Esc => cmd == Command::Nothing && if direct_launch {
                    same_data(o, n) && n.should_quit && n.mode == o.mode && n.status_message == o.status_message
                } else {
                    only_mode(o, n, Mode::Normal)
                },
                Key::Backspace | Key::Delete | Key::Char(_) => same_data(o, n) && n.should_quit == o.should_quit
                    && n.status_message == o.status_message && cmd == Command::Nothing
                    && (n.mode matches Mode::Search { query: q2, cursor: c2, entries: e2, results: r2, selected_index: s2, direct_launch: d2 }
                    && (q2@, c2 as int) == edit_line(query@, cursor as int, k.key) && e2 == entries && d2 == direct_launch
                    && filter_ok(entries@, q2@, r2@) && s2 == 0),
                Key::Left | Key::Right | Key::Home | Key::End => same_data(o, n) && n.should_quit == o.should_quit
                    && n.status_message == o.status_message && cmd == Command::Nothing
                    && (n.mode matches Mode::Search { query: q2, cursor: c2, entries: e2, results: r2, selected_index: s2, direct_launch: d2 }
                    && (q2@, c2 as int) == edit_line(query@, cursor as int, k.key) && e2 == entries && r2 == results
                    && s2 == selected_index && d2 == direct_launch),
                _ => unchanged(o, n) && cmd == Command::Nothing,
            }
        },
        _ => false,
    }
}

/// A key in the session picker.
pub open spec fn pick_step(o: Core, n: Core, k: KeyPress, cmd: Command) -> bool {
    match o.mode {
        Mode::SessionPick { sessions, selected_index } => match k.key {
            Key::Esc => only_mode(o, n, Mode::Normal) && cmd == Command::Nothing,
            Key::Char('j') | Key::Down => only_mode(o, n, Mode::SessionPick {
                sessions,
                selected_index: if selected_index + 1 < sessions@.len() { (selected_index + 1) as usize } else { selected_index },
            }) && cmd == Command::Nothing,
            Key::Char('k') | Key::Up => only_mode(o, n, Mode::SessionPick {
                sessions,
                selected_index: if selected_index > 0 { (selected_index - 1) as usize } else { 0 },
            }) && cmd == Command::Nothing,
            Key::Enter => if selected_index < sessions@.len() {
                only_mode(o, n, Mode::Normal) && (cmd matches Command::RestoreSession { name } && name@ == sessions@[selected_index as int].name@)
            } else {
                unchanged(o, n) && cmd == Command::Nothing
            },
            Key::Char('x') => unchanged(o, n) && if selected_index < sessions@.len() {
                cmd matches Command::DeleteSession { name } && name@ == sessions@[selected_index as int].name@
            } else {
                cmd == Command::Nothing
            },
            _ => unchanged(o, n) && cmd == Command::Nothing,
        },
        _ => false,
    }
}

pub open spec fn msg_settings_saved() -> Seq<char> {
    seq!['S', 'e', 't', 't', 'i', 'n', 'g', 's', ' ', 's', 'a', 'v', 'e', 'd']
}

pub open spec fn msg_save_failed(e: Seq<char>) -> Seq<char> {
    seq!['S', 'a', 'v', 'e', ' ', 'f', 'a', 'i', 'l', 'e', 'd', ':', ' '] + e
}

/// The settings editor as it opens over `kinds`.
pub open spec fn settings_opened(m: Mode, kinds: Vec<Vec<ValueKind>>) -> bool {
    m matches Mode::Settings(nav) && nav == SettingsNav {
        kinds,
        category_index: 0,
        setting_index: 0,
        panel: SettingsPanel::Categories,
        editing: false,
        edit_buffer: nav.edit_buffer,
        edit_cursor: 0,
    } && nav.edit_buffer@.len() == 0
}

/// In the settings editor, editing starts from `text` with the cursor at its
/// end; any other mode stays as it is.
pub open spec fn edit_begun(o: Mode, n: Mode, text: String) -> bool {
    match o {
        Mode::Settings(s) => n == Mode::Settings(SettingsNav {
            editing: true,
            edit_buffer: text,
            edit_cursor: byte_len(text@) as usize,
            ..s
        }),
        _ => n == o,
    }
}

/// The keys that edit a setting's text: Backspace, Left, Right and characters.
pub open spec fn setting_edit_key(k: Key) -> bool {
    k is Backspace || k is Left || k is Right || k is Char
}

/// A key in the settings editor.
pub open spec fn settings_step(o: Core, n: Core, k: KeyPress, cmd: Command) -> bool {
    match o.mode {
        Mode::Settings(s) => {
            let c = s.category_index;
            let i = s.setting_index;
            if s.editing {
                if k.key == Key::Enter {
                    only_mode(o, n, Mode::Settings(SettingsNav { editing: false, ..s }))
                        && cmd == (Command::ApplySetting { category: c, setting: i, kind: selected_kind(s), text: s.edit_buffer })
                } else if k.key == Key::Esc {
                    only_mode(o, n, Mode::Settings(SettingsNav { editing: false, ..s })) && cmd == Command::Nothing
                } else if setting_edit_key(k.key) {
                    same_data(o, n) && n.should_quit == o.should_quit && n.status_message == o.status_message
                        && cmd == Command::Nothing && (n.mode matches Mode::Settings(s2)
                        && (s2.edit_buffer@, s2.edit_cursor as int) == edit_line(s.edit_buffer@, s.edit_cursor as int, k.key)
                        && s2 == SettingsNav { edit_buffer: s2.edit_buffer, edit_cursor: s2.edit_cursor, ..s })
                } else {
                    unchanged(o, n) && cmd == Command::Nothing
                }
            } else {
                match k.key {
                    Key::Esc | Key::Char('q') => only_mode(o, n, Mode::Normal) && cmd == Command::RevertSettings,
                    Key::Char('w') => unchanged(o, n) && cmd == Command::SaveSettings,
                    _ => match s.panel {
                        SettingsPanel::Categories => match k.key {
                            Key::Char('j') | Key::Down => cmd == Command::Nothing && if c + 1 < s.kinds@.len() {
                                only_mode(o, n, Mode::Settings(SettingsNav { category_index: (c + 1) as usize, setting_index: 0, ..s }))
                            } else {
                                unchanged(o, n)
                            },
                            Key::Char('k') | Key::Up => cmd == Command::Nothing && only_mode(o, n, Mode::Settings(SettingsNav {
                                category_index: if c > 0 { (c - 1) as usize } else { 0 },
                                setting_index: 0,
                                ..s
                            })),
                            Key::Enter | Key::Char('l') | Key::Right | Key::Tab => cmd == Command::Nothing
                                && only_mode(o, n, Mode::Settings(SettingsNav { panel: SettingsPanel::Settings, setting_index: 0, ..s })),
                            _ => unchanged(o, n) && cmd == Command::Nothing,
                        },
                        SettingsPanel::Settings => match k.key {
                            Key::Char('j') | Key::Down => cmd == Command::Nothing && if i + 1 < s.kinds@[c as int]@.len() {
                                only_mode(o, n, Mode::Settings(SettingsNav { setting_index: (i + 1) as usize, ..s }))
                            } else {
                                unchanged(o, n)
                            },
                            Key::Char('k') | Key::Up => cmd == Command::Nothing && only_mode(o, n, Mode::Settings(SettingsNav {
                                setting_index: if i > 0 { (i - 1) as usize } else { 0 },
                                ..s
                            })),
                            Key::Char('h') | Key::Left | Key::Tab => cmd == Command::Nothing
                                && only_mode(o, n, Mode::Settings(SettingsNav { panel: SettingsPanel::Categories, ..s })),
                            Key::Enter => unchanged(o, n) && cmd == match selected_kind(s) {
                                ValueKind::Bool => Command::ToggleSetting { category: c, setting: i },
                                ValueKind::Enum => Command::CycleSetting { category: c, setting: i },
                                _ => Command::EditSetting { category: c, setting: i },
                            },
                            Key::Char('+') | Key::Char('=') => unchanged(o, n) && cmd == (Command::StepSetting { category: c, setting: i, up: true }),
                            Key::Char('-') => unchanged(o, n) && cmd == (Command::StepSetting { category: c, setting: i, up: false }),
                            Key::Char('r') => unchanged(o, n) && cmd == (Command::ResetSetting { category: c, setting: i }),
                            Key::Char('e') => unchanged(o, n) && cmd == Command::OpenConfig,
                            _ => unchanged(o, n) && cmd == Command::Nothing,
                        },
                    },
                }
            }
        },
        _ => false,
    }
}

/// What a key press does in the current mode, with the tree selection `sel`.
pub open spec fn key_step(o: Core, n: Core, k: KeyPress, sel: Option<NodeId>, cmd: Command) -> bool {
    match o.mode {
        Mode::Normal => normal_step(Core { status_message: None, ..o }, n, k, sel, cmd),
        Mode::Rename { .. } => rename_step(o, n, k, sel, cmd),
        Mode::Move { .. } => move_step(o, n, k, sel, cmd),
        Mode::Confirm { .. } => confirm_step(o, n, k, cmd),
        Mode::Search { .. } => search_step(o, n, k, cmd),
        Mode::Help => only_mode(o, n, Mode::Normal) && cmd == Command::Nothing,
        Mode::Settings(_) => settings_step(o, n, k, cmd),
        Mode::SessionPick { .. } => pick_step(o, n, k, cmd),
    }
}

impl Core {
    /// A fresh interface over `windows`, browsing the tree.
    pub fn new(windows: Vec<WezWindow>, current_pane_id: Option<u64>) -> (c: Core)
        ensures
            c.windows == windows,
            c.current_pane_id == current_pane_id,
            !c.should_quit,
            c.mode == Mode::Normal,
            c.status_message is None,
    {
        Core { should_quit: false, windows, current_pane_id, mode: Mode::Normal, status_message: None }
    }

    /// Opens the rename prompt for the selected window or tab, starting from
    /// its title; a pane or workspace gets an error, no selection nothing.
    pub fn enter_rename_mode(&mut self, selected: Option<&NodeId>)
        requires
            mode_wf(old(self).mode),
        ensures
            final(self).windows == old(self).windows,
            final(self).should_quit == old(self).should_quit,
            final(self).current_pane_id == old(self).current_pane_id,
            mode_wf(final(self).mode),
            rename_entry_ok(*old(self), *final(self), opt_node(selected)),
    {
        let node = match selected {
            None => {
                return;
            },
            Some(n) => n,
        };
        match node {
            NodeId::Window(id) => {
                let mut i: usize = 0;
                while i < self.windows.len() && self.windows[i].window_id != *id
                    invariant
                        i <= self.windows@.len(),
                        forall|i2: int| 0 <= i2 < i ==> (#[trigger] self.windows@[i2]).window_id != *id,
                    decreases self.windows@.len() - i,
                {
                    i = i + 1;
                }
                let title = if i < self.windows.len() {
                    match &self.windows[i].title {
                        Some(t) => t.clone(),
                        None => String::new(),
                    }
                } else {
                    String::new()
                };
                proof {
                    assert forall|i3: int| #![trigger self.windows@[i3]] first_window(self.windows@, *id, i3) implies title@ == opt_chars(self.windows@[i3].title) by {
                        if i3 < i {
                        } else if i3 > i {
                            assert(self.windows@[i as int].window_id == *id);
                        }
                    }
                }
                let len = title.as_str().as_bytes().len();
                self.mode = Mode::Rename { input: title, cursor: len };
            },
            NodeId::Tab(id) => {
                let title = match find_tab(self.windows.as_slice(), *id) {
                    Some(t) => {
                        proof {
                            let (i, j) = choose|i: int, j: int| is_first_tab(self.windows@, *id, i, j) && *t == self.windows@[i].tabs@[j];
                            assert forall|i3: int, j3: int| #![trigger self.windows@[i3].tabs@[j3]] is_first_tab(self.windows@, *id, i3, j3) implies i3 == i && j3 == j by {
                                if i3 < i || (i3 == i && j3 < j) {
                                } else if i3 > i || (i3 == i && j3 > j) {
                                    assert(self.windows@[i].tabs@[j].tab_id == *id);
                                }
                            }
                        }
                        match &t.title {
                            Some(s) => s.clone(),
                            None => String::new(),
                        }
                    },
                    None => String::new(),
                };
                let len = title.as_str().as_bytes().len();
                self.mode = Mode::Rename { input: title, cursor: len };
            },
            _ => {
                self.status_message = status_str("Cannot rename — select a tab or window", true);
                assert(self.status_message->0.text@ =~= msg_cannot_rename()) by {
                    reveal_strlit("Cannot rename — select a tab or window");
                }
            },
        }
    }
    /// Grabs the selected pane or tab for moving (labelled by its title, or
    /// `Pane <id>` / `Tab <id>`); a window or workspace gets an error, and so
    /// does a lone window, which leaves nowhere to move to.
    pub fn enter_move_mode(&mut self, selected: Option<&NodeId>)
        requires
            mode_wf(old(self).mode),
        ensures
            final(self).windows == old(self).windows,
            final(self).should_quit == old(self).should_quit,
            final(self).current_pane_id == old(self).current_pane_id,
            mode_wf(final(self).mode),
            move_entry_ok(*old(self), *final(self), opt_node(selected)),
    {
        let node = match selected {
            None => {
                return;
            },
            Some(n) => n,
        };
        let (grabbed, label) = match node {
            NodeId::Pane(id) => {
                let mut out: Vec<char> = Vec::new();
                let mut found = false;
                let mut i: usize = 0;
                while !found && i < self.windows.len()
                    invariant
                        i <= self.windows@.len(),
                        !found ==> forall|i2: int, j2: int, k2: int|
                            #![trigger self.windows@[i2].tabs@[j2].panes@[k2]]
                            pane_at(self.windows@, i2, j2, k2) && i2 < i ==> self.windows@[i2].tabs@[j2].panes@[k2].pane_id != *id,
                        found ==> pane_label_start(self.windows@, *id, out@),
                        !found ==> out@.len() == 0,
                    decreases self.windows@.len() - i + (if found { 0int } else { 1int }),
                {
                    let w = &self.windows[i];
                    let mut j: usize = 0;
                    while !found && j < w.tabs.len()
                        invariant
                            i < self.windows@.len(),
                            *w == self.windows@[i as int],
                            j <= w.tabs@.len(),
                            !found ==> forall|i2: int, j2: int, k2: int|
                                #![trigger self.windows@[i2].tabs@[j2].panes@[k2]]
                                pane_at(self.windows@, i2, j2, k2) && (i2 < i || (i2 == i && j2 < j)) ==> self.windows@[i2].tabs@[j2].panes@[k2].pane_id != *id,
                            found ==> pane_label_start(self.windows@, *id, out@),
                            !found ==> out@.len() == 0,
                        decreases w.tabs@.len() - j + (if found { 0int } else { 1int }),
                    {
                        let t = &w.tabs[j];
                        let mut k: usize = 0;
                        while k < t.panes.len() && t.panes[k].pane_id != *id
                            invariant
                                j < w.tabs@.len(),
                                *t == w.tabs@[j as int],
                                k <= t.panes@.len(),
                                forall|k2: int| 0 <= k2 < k ==> t.panes@[k2].pane_id != *id,
                            decreases t.panes@.len() - k,
                        {
                            k = k + 1;
                        }
                        if k < t.panes.len() {
                            out = chars_of(t.panes[k].title.as_str());
                            proof {
                                assert(is_first_pane(self.windows@, *id, i as int, j as int, k as int));
                                assert forall|i3: int, j3: int, k3: int| #![trigger self.windows@[i3].tabs@[j3].panes@[k3]] is_first_pane(self.windows@, *id, i3, j3, k3) implies i3 == i && j3 == j && k3 == k by {
                                    if i3 < i || (i3 == i && j3 < j) || (i3 == i && j3 == j && k3 < k) {
                                    } else if !(i3 == i && j3 == j && k3 == k) {
                                        assert(self.windows@[i as int].tabs@[j as int].panes@[k as int].pane_id == *id);
                                    }
                                }
                                assert(!(forall|i2: int, j2: int, k2: int| #![trigger self.windows@[i2].tabs@[j2].panes@[k2]] pane_at(self.windows@, i2, j2, k2) ==> self.windows@[i2].tabs@[j2].panes@[k2].pane_id != *id));
                            }
                            found = true;
                        } else {
                            j = j + 1;
                        }
                    }
                    if !found {
                        i = i + 1;
                    }
                }
                if !found {
                    push_str(&mut out, "Pane ");
                    push_decimal(&mut out, *id);
                    assert(out@ =~= seq!['P', 'a', 'n', 'e', ' '] + crate::text::decimal(*id as nat)) by {
                        reveal_strlit("Pane ");
                    }
                }
                (NodeId::Pane(*id), string_from_chars(out.as_slice()))
            },
            NodeId::Tab(id) => {
                let mut out: Vec<char> = Vec::new();
                match find_tab(self.windows.as_slice(), *id) {
                    Some(t) => {
                        proof {
                            let (i, j) = choose|i: int, j: int| is_first_tab(self.windows@, *id, i, j) && *t == self.windows@[i].tabs@[j];
                            assert forall|i3: int, j3: int| #![trigger self.windows@[i3].tabs@[j3]] is_first_tab(self.windows@, *id, i3, j3) implies i3 == i && j3 == j by {
                                if i3 < i || (i3 == i && j3 < j) {
                                } else if i3 > i || (i3 == i && j3 > j) {
                                    assert(self.windows@[i].tabs@[j].tab_id == *id);
                                }
                            }
                            assert(!no_tab(self.windows@, *id));
                        }
                        match &t.title {
                            Some(s) => push_str(&mut out, s.as_str()),
                            None => {
                                push_str(&mut out, "Tab ");
                                push_decimal(&mut out, *id);
                                assert(out@ =~= seq!['T', 'a', 'b', ' '] + crate::text::decimal(*id as nat)) by {
                                    reveal_strlit("Tab ");
                                }
                            },
                        }
                        assert(out@ =~= match t.title { Some(s) => s@, None => seq!['T', 'a', 'b', ' '] + crate::text::decimal(*id as nat) });
                    },
                    None => {
                        push_str(&mut out, "Tab ");
                        push_decimal(&mut out, *id);
                        assert(out@ =~= seq!['T', 'a', 'b', ' '] + crate::text::decimal(*id as nat)) by {
                            reveal_strlit("Tab ");
                        }
                    },
                }
                (NodeId::Tab(*id), string_from_chars(out.as_slice()))
            },
            _ => {
                self.status_message = status_str("Select a tab or pane to move", true);
                assert(self.status_message->0.text@ =~= msg_select_to_move()) by {
                    reveal_strlit("Select a tab or pane to move");
                }
                return;
            },
        };
        if self.windows.len() < 2 {
            self.status_message = status_str("No other windows to move to", true);
            assert(self.status_message->0.text@ =~= msg_no_other_windows()) by {
                reveal_strlit("No other windows to move to");
            }
            return;
        }
        self.mode = Mode::Move { grabbed, grabbed_label: label };
    }
    /// Asks to confirm closing the selected pane, tab or window, with the
    /// ids of the panes that will close; a workspace gets an error.
    pub fn enter_confirm_close(&mut self, selected: Option<&NodeId>)
        requires
            mode_wf(old(self).mode),
        ensures
            final(self).windows == old(self).windows,
            final(self).should_quit == old(self).should_quit,
            final(self).current_pane_id == old(self).current_pane_id,
            mode_wf(final(self).mode),
            confirm_entry_ok(*old(self), *final(self), opt_node(selected)),
    {
        let node = match selected {
            None => {
                return;
            },
            Some(n) => n,
        };
        match node {
            NodeId::Pane(id) => {
                let mut ids: Vec<u64> = Vec::new();
                ids.push(*id);
                let mut label: Vec<char> = Vec::new();
                push_str(&mut label, "Close pane ");
                push_decimal(&mut label, *id);
                label.push('?');
                assert(label@ =~= seq!['C', 'l', 'o', 's', 'e', ' ', 'p', 'a', 'n', 'e', ' '] + crate::text::decimal(*id as nat) + seq!['?']) by {
                    reveal_strlit("Close pane ");
                }
                assert(ids@ =~= seq![*id]);
                self.mode = Mode::Confirm { action: PendingAction::ClosePanes(ids), label: string_from_chars(label.as_slice()) };
            },
            NodeId::Tab(id) => {
                match find_tab(self.windows.as_slice(), *id) {
                    Some(t) => {
                        proof {
                            let (i, j) = choose|i: int, j: int| is_first_tab(self.windows@, *id, i, j) && *t == self.windows@[i].tabs@[j];
                            assert forall|i3: int, j3: int| #![trigger self.windows@[i3].tabs@[j3]] is_first_tab(self.windows@, *id, i3, j3) implies i3 == i && j3 == j by {
                                if i3 < i || (i3 == i && j3 < j) {
                                } else if i3 > i || (i3 == i && j3 > j) {
                                    assert(self.windows@[i].tabs@[j].tab_id == *id);
                                }
                            }
                            assert(!no_tab(self.windows@, *id));
                        }
                        let ids = pane_ids_of(t);
                        let label = close_text("tab", &t.title, ids.len());
                        proof {
                            reveal_strlit("tab");
                            assert("tab"@ =~= seq!['t', 'a', 'b']);
                        }
                        self.mode = Mode::Confirm { action: PendingAction::ClosePanes(ids), label };
                    },
                    None => {},
                }
            },
            NodeId::Window(id) => {
                let mut i: usize = 0;
                while i < self.windows.len() && self.windows[i].window_id != *id
                    invariant
                        i <= self.windows@.len(),
                        forall|i2: int| 0 <= i2 < i ==> (#[trigger] self.windows@[i2]).window_id != *id,
                    decreases self.windows@.len() - i,
                {
                    i = i + 1;
                }
                if i < self.windows.len() {
                    let w = &self.windows[i];
                    let mut ids: Vec<u64> = Vec::new();
                    let mut j: usize = 0;
                    while j < w.tabs.len()
                        invariant
                            j <= w.tabs@.len(),
                            ids@ == window_pane_ids(*w, j as int),
                        decreases w.tabs@.len() - j,
                    {
                        let more = pane_ids_of(&w.tabs[j]);
                        let mut k: usize = 0;
                        let ghost start = ids@;
                        while k < more.len()
                            invariant
                                k <= more@.len(),
                                ids@ == start + more@.take(k as int),
                            decreases more@.len() - k,
                        {
                            ids.push(more[k]);
                            k = k + 1;
                            assert(more@.take(k as int) =~= more@.take(k - 1).push(more@[k - 1]));
                        }
                        assert(more@.take(more@.len() as int) =~= more@);
                        j = j + 1;
                    }
                    let label = close_text("window", &w.title, ids.len());
                    proof {
                        reveal_strlit("window");
                        assert("window"@ =~= seq!['w', 'i', 'n', 'd', 'o', 'w']);
                        assert forall|i3: int| #![trigger self.windows@[i3]] first_window(self.windows@, *id, i3) implies i3 == i by {
                            if i3 < i {
                            } else if i3 > i {
                                assert(self.windows@[i as int].window_id == *id);
                            }
                        }
                    }
                    self.mode = Mode::Confirm { action: PendingAction::ClosePanes(ids), label };
                }
            },
            NodeId::Workspace(_) => {
                self.status_message = status_str("Cannot close a workspace", true);
                assert(self.status_message->0.text@ =~= msg_cannot_close_workspace()) by {
                    reveal_strlit("Cannot close a workspace");
                }
            },
        }
    }

    /// Opens the search prompt over all panes, with `initial_query` typed in.
    pub fn enter_search_mode(&mut self, direct_launch: bool, initial_query: String)
        ensures
            final(self).windows == old(self).windows,
            final(self).should_quit == old(self).should_quit,
            final(self).current_pane_id == old(self).current_pane_id,
            final(self).status_message == old(self).status_message,
            mode_wf(final(self).mode),
            search_opened(final(self).mode, old(self).windows@, initial_query@, direct_launch),
    {
        let entries = build_search_entries(self.windows.as_slice());
        let results = filter(entries.as_slice(), initial_query.as_str());
        let cursor = initial_query.as_str().as_bytes().len();
        self.mode = Mode::Search { query: initial_query, cursor, entries, results, selected_index: 0, direct_launch };
    }
}

/// The ids of the panes of `t`, in order.
fn pane_ids_of(t: &WezTab) -> (r: Vec<u64>)
    ensures
        r@ == tab_pane_ids(*t),
{
    let mut r: Vec<u64> = Vec::new();
    let mut k: usize = 0;
    while k < t.panes.len()
        invariant
            k <= t.panes@.len(),
            r@ == t.panes@.take(k as int).map_values(|p: crate::model::WezPane| p.pane_id),
        decreases t.panes@.len() - k,
    {
        r.push(t.panes[k].pane_id);
        k = k + 1;
        assert(r@ =~= t.panes@.take(k as int).map_values(|p: crate::model::WezPane| p.pane_id));
    }
    assert(t.panes@.take(t.panes@.len() as int) =~= t.panes@);
    r
}

/// `Close <kind> '<title>'? (<n> pane(s))`.
fn close_text(kind: &str, title: &Option<String>, n: usize) -> (r: String)
    ensures
        r@ == close_label(kind@, *title, n as nat),
{
    let mut out: Vec<char> = Vec::new();
    push_str(&mut out, "Close ");
    push_str(&mut out, kind);
    out.push(' ');
    out.push('\'');
    match title {
        Some(t) => push_str(&mut out, t.as_str()),
        None => push_str(&mut out, "(unnamed)"),
    }
    out.push('\'');
    push_str(&mut out, "? (");
    push_decimal(&mut out, n as u64);
    push_str(&mut out, " pane(s))");
    proof {
        reveal_strlit("Close ");
        reveal_strlit("(unnamed)");
        reveal_strlit("? (");
        reveal_strlit(" pane(s))");
    }
    let r = string_from_chars(out.as_slice());
    assert(r@ =~= close_label(kind@, *title, n as nat));
    r
}

impl Core {
    fn handle_key_normal(&mut self, key: KeyPress, selected: Option<&NodeId>) -> (cmd: Command)
        requires
            mode_wf(old(self).mode),
            old(self).mode == Mode::Normal,
        ensures
            mode_wf(final(self).mode),
            normal_step(*old(self), *final(self), key, opt_node(selected), cmd),
    {
        match key.key {
            Key::Char('q') | Key::Esc => {
                self.should_quit = true;
                Command::Nothing
            },
            Key::Char('j') | Key::Down => Command::Tree(TreeOp::Down),
            Key::Char('k') | Key::Up => Command::Tree(TreeOp::Up),
            Key::Char('h') | Key::Left => Command::Tree(TreeOp::Left),
            Key::Char('l') | Key::Right => Command::Tree(TreeOp::Right),
            Key::Home => Command::Tree(TreeOp::First),
            Key::End => Command::Tree(TreeOp::Last),
            Key::Enter | Key::Char('f') => match selected {
                Some(NodeId::Pane(id)) => Command::Focus { pane_id: *id, from_search: false },
                Some(_) => Command::Tree(TreeOp::ToggleSelected),
                None => Command::Nothing,
            },
            Key::Char('/') => {
                self.enter_search_mode(false, String::new());
                Command::Nothing
            },
            Key::Char('?') => {
                self.mode = Mode::Help;
                Command::Nothing
            },
            Key::Char('s') => Command::ListSessions,
            Key::Char('S') => Command::OpenSettings,
            Key::Char('r') => {
                self.enter_rename_mode(selected);
                Command::Nothing
            },
            Key::Char('m') => {
                self.enter_move_mode(selected);
                Command::Nothing
            },
            Key::Char('x') => {
                self.enter_confirm_close(selected);
                Command::Nothing
            },
            _ => Command::Nothing,
        }
    }

    /// The rename that confirming the prompt with `title` asks for.
    fn rename_target(&self, selected: Option<&NodeId>, title: String) -> (cmd: Command)
        ensures
            rename_command(self.windows@, opt_node(selected), title@, cmd),
    {
        match selected {
            Some(NodeId::Tab(id)) => match find_tab(self.windows.as_slice(), *id) {
                Some(t) => {
                    proof {
                        let (i, j) = choose|i: int, j: int| is_first_tab(self.windows@, *id, i, j) && *t == self.windows@[i].tabs@[j];
                        assert forall|i3: int, j3: int| #![trigger self.windows@[i3].tabs@[j3]] is_first_tab(self.windows@, *id, i3, j3) implies i3 == i && j3 == j by {
                            if i3 < i || (i3 == i && j3 < j) {
                            } else if i3 > i || (i3 == i && j3 > j) {
                                assert(self.windows@[i].tabs@[j].tab_id == *id);
                            }
                        }
                        assert(!no_tab(self.windows@, *id));
                    }
                    if t.panes.len() > 0 {
                        Command::SetTitle { pane_id: t.panes[0].pane_id, window: false, title }
                    } else {
                        Command::RenameNothing { title }
                    }
                },
                None => Command::RenameNothing { title },
            },
            Some(NodeId::Window(id)) => {
                let mut i: usize = 0;
                while i < self.windows.len() && self.windows[i].window_id != *id
                    invariant
                        i <= self.windows@.len(),
                        forall|i2: int| 0 <= i2 < i ==> (#[trigger] self.windows@[i2]).window_id != *id,
                    decreases self.windows@.len() - i,
                {
                    i = i + 1;
                }
                proof {
                    assert forall|i3: int| #![trigger self.windows@[i3]] first_window(self.windows@, *id, i3) implies i3 == i by {
                        if i3 < i {
                        } else if i3 > i {
                            assert(self.windows@[i as int].window_id == *id);
                        }
                    }
                }
                if i < self.windows.len() && self.windows[i].tabs.len() > 0 && self.windows[i].tabs[0].panes.len() > 0 {
                    Command::SetTitle { pane_id: self.windows[i].tabs[0].panes[0].pane_id, window: true, title }
                } else {
                    Command::RenameNothing { title }
                }
            },
            _ => Command::RenameNothing { title },
        }
    }

    fn handle_key_rename(&mut self, key: KeyPress, selected: Option<&NodeId>) -> (cmd: Command)
        requires
            key_edit_ok(old(self).mode, key),
            mode_wf(old(self).mode),
            old(self).mode is Rename,
        ensures
            mode_wf(final(self).mode),
            rename_step(*old(self), *final(self), key, opt_node(selected), cmd),
    {
        match key.key {
            Key::Esc => {
                self.mode = Mode::Normal;
                Command::Nothing
            },
            Key::Enter => {
                let mut mode = Mode::Normal;
                std::mem::swap(&mut mode, &mut self.mode);
                match mode {
                    Mode::Rename { input, .. } => self.rename_target(selected, input),
                    _ => Command::Nothing,
                }
            },
            Key::Backspace | Key::Delete | Key::Left | Key::Right | Key::Home | Key::End | Key::Char(_) => {
                let mut mode = Mode::Normal;
                std::mem::swap(&mut mode, &mut self.mode);
                match mode {
                    Mode::Rename { input, cursor } => {
                        let (input, cursor) = edit_text(&input, cursor, key.key);
                        self.mode = Mode::Rename { input, cursor };
                    },
                    _ => {},
                }
                Command::Nothing
            },
            _ => Command::Nothing,
        }
    }
}

impl Core {
    /// The id of the window holding the first tab with id `id`.
    fn window_of_tab(&self, id: u64) -> (r: Option<u64>)
        ensures
            r == tab_window(self.windows@, id),
    {
        let mut i: usize = 0;
        while i < self.windows.len()
            invariant
                i <= self.windows@.len(),
                forall|i2: int, j2: int|
                    #![trigger self.windows@[i2].tabs@[j2]]
                    tab_at(self.windows@, i2, j2) && i2 < i ==> self.windows@[i2].tabs@[j2].tab_id != id,
            decreases self.windows@.len() - i,
        {
            let w = &self.windows[i];
            let mut j: usize = 0;
            while j < w.tabs.len()
                invariant
                    i < self.windows@.len(),
                    *w == self.windows@[i as int],
                    j <= w.tabs@.len(),
                    forall|i2: int, j2: int|
                        #![trigger self.windows@[i2].tabs@[j2]]
                        tab_at(self.windows@, i2, j2) && (i2 < i || (i2 == i && j2 < j)) ==> self.windows@[i2].tabs@[j2].tab_id != id,
                decreases w.tabs@.len() - j,
            {
                if w.tabs[j].tab_id == id {
                    proof {
                        assert(is_first_tab(self.windows@, id, i as int, j as int));
                        let (a, b) = choose|a: int, b: int| is_first_tab(self.windows@, id, a, b);
                        if a < i || (a == i && b < j) {
                        } else if a > i || (a == i && b > j) {
                            assert(self.windows@[a].tabs@[b].tab_id == id);
                            assert(self.windows@[i as int].tabs@[j as int].tab_id == id);
                        }
                        assert(a == i && b == j);
                    }
                    return Some(w.window_id);
                }
                j = j + 1;
            }
            i = i + 1;
        }
        proof {
            if exists|a: int, b: int| is_first_tab(self.windows@, id, a, b) {
                let (a, b) = choose|a: int, b: int| is_first_tab(self.windows@, id, a, b);
                assert(self.windows@[a].tabs@[b].tab_id == id);
            }
        }
        None
    }

    /// The id of the first window holding pane `id`.
    fn window_of_pane(&self, id: u64) -> (r: Option<u64>)
        ensures
            r == pane_window(self.windows@, id),
    {
        let r = find_pane_window(self.windows.as_slice(), id);
        proof {
            match r {
                Some(w) => {
                    let i = choose|i: int| 0 <= i < self.windows@.len() && self.windows@[i].window_id == w && window_has_pane(
                        #[trigger] self.windows@[i],
                        id,
                    ) && forall|i2: int| 0 <= i2 < i ==> !window_has_pane(#[trigger] self.windows@[i2], id);
                    let c = choose|c: int| 0 <= c < self.windows@.len() && window_has_pane(self.windows@[c], id) && forall|i2: int| 0 <= i2 < c ==> !window_has_pane(#[trigger] self.windows@[i2], id);
                    if c < i {
                        assert(!window_has_pane(self.windows@[c], id));
                    } else if c > i {
                        assert(!window_has_pane(self.windows@[i], id));
                    }
                },
                None => {
                    if exists|c: int| 0 <= c < self.windows@.len() && window_has_pane(self.windows@[c], id) && forall|i2: int| 0 <= i2 < c ==> !window_has_pane(#[trigger] self.windows@[i2], id) {
                        let c = choose|c: int| 0 <= c < self.windows@.len() && window_has_pane(self.windows@[c], id) && forall|i2: int| 0 <= i2 < c ==> !window_has_pane(#[trigger] self.windows@[i2], id);
                        assert(!window_has_pane(self.windows@[c], id));
                    }
                },
            }
        }
        r
    }

    /// Drops the grabbed item on the selected window (see [`drop_step`]).
    fn execute_move(&mut self, grabbed: &NodeId, selected: Option<&NodeId>) -> (cmd: Command)
        requires
            mode_wf(old(self).mode),
        ensures
            mode_wf(final(self).mode),
            drop_step(*old(self), *final(self), *grabbed, opt_node(selected), cmd),
    {
        let target = match selected {
            Some(NodeId::Window(id)) => Some(*id),
            Some(NodeId::Tab(id)) => self.window_of_tab(*id),
            Some(NodeId::Pane(id)) => self.window_of_pane(*id),
            _ => None,
        };
        let target = match target {
            Some(t) => t,
            None => {
                self.status_message = status_str("Navigate to a target window", true);
                assert(self.status_message->0.text@ =~= msg_navigate_target()) by {
                    reveal_strlit("Navigate to a target window");
                }
                return Command::Nothing;
            },
        };
        let pane_ids: Vec<u64> = match grabbed {
            NodeId::Pane(id) => {
                let mut v: Vec<u64> = Vec::new();
                v.push(*id);
                assert(v@ =~= seq![*id]);
                v
            },
            NodeId::Tab(id) => match find_tab(self.windows.as_slice(), *id) {
                Some(t) => {
                    proof {
                        let (i, j) = choose|i: int, j: int| is_first_tab(self.windows@, *id, i, j) && *t == self.windows@[i].tabs@[j];
                        let (a, b) = choose|a: int, b: int| is_first_tab(self.windows@, *id, a, b);
                        if a < i || (a == i && b < j) {
                        } else if a > i || (a == i && b > j) {
                            assert(self.windows@[i].tabs@[j].tab_id == *id);
                        }
                        assert(a == i && b == j);
                    }
                    pane_ids_of(t)
                },
                None => {
                    proof {
                        if exists|a: int, b: int| is_first_tab(self.windows@, *id, a, b) {
                            let (a, b) = choose|a: int, b: int| is_first_tab(self.windows@, *id, a, b);
                            assert(self.windows@[a].tabs@[b].tab_id == *id);
                        }
                    }
                    Vec::new()
                },
            },
            _ => {
                return Command::Nothing;
            },
        };
        let source = match grabbed {
            NodeId::Pane(id) => self.window_of_pane(*id),
            NodeId::Tab(id) => self.window_of_tab(*id),
            _ => None,
        };
        let same = match source {
            Some(s) => s == target,
            None => false,
        };
        if same {
            self.status_message = status_str("Already in that window", true);
            assert(self.status_message->0.text@ =~= msg_already_there()) by {
                reveal_strlit("Already in that window");
            }
            return Command::Nothing;
        }
        self.mode = Mode::Normal;
        Command::MovePanes { pane_ids, target_window_id: target }
    }

    fn handle_key_move(&mut self, key: KeyPress, selected: Option<&NodeId>) -> (cmd: Command)
        requires
            mode_wf(old(self).mode),
            old(self).mode is Move,
        ensures
            mode_wf(final(self).mode),
            move_step(*old(self), *final(self), key, opt_node(selected), cmd),
    {
        match key.key {
            Key::Esc => {
                self.mode = Mode::Normal;
                Command::Nothing
            },
            Key::Char('j') | Key::Down => Command::Tree(TreeOp::Down),
            Key::Char('k') | Key::Up => Command::Tree(TreeOp::Up),
            Key::Char('h') | Key::Left => Command::Tree(TreeOp::Left),
            Key::Char('l') | Key::Right => Command::Tree(TreeOp::Right),
            Key::Enter | Key::Char('m') => {
                let grabbed = match &self.mode {
                    Mode::Move { grabbed, .. } => grabbed.copy(),
                    _ => NodeId::Window(0),
                };
                self.execute_move(&grabbed, selected)
            },
            _ => Command::Nothing,
        }
    }

    fn handle_key_confirm(&mut self, key: KeyPress) -> (cmd: Command)
        requires
            mode_wf(old(self).mode),
            old(self).mode is Confirm,
        ensures
            mode_wf(final(self).mode),
            confirm_step(*old(self), *final(self), key, cmd),
    {
        match key.key {
            Key::Char('y') | Key::Enter => {
                let mut mode = Mode::Normal;
                std::mem::swap(&mut mode, &mut self.mode);
                match mode {
                    Mode::Confirm { action: PendingAction::ClosePanes(ids), .. } => Command::ClosePanes { pane_ids: ids },
                    _ => Command::Nothing,
                }
            },
            Key::Char('n') | Key::Esc => {
                self.mode = Mode::Normal;
                Command::Nothing
            },
            _ => Command::Nothing,
        }
    }
}

impl Core {
    fn handle_key_search(&mut self, key: KeyPress) -> (cmd: Command)
        requires
            key_edit_ok(old(self).mode, key),
            mode_wf(old(self).mode),
            old(self).mode is Search,
        ensures
            mode_wf(final(self).mode),
            search_step(*old(self), *final(self), key, cmd),
    {
        let ghost o = *self;
        let mut mode = Mode::Normal;
        std::mem::swap(&mut mode, &mut self.mode);
        let (query, cursor, entries, results, selected_index, direct_launch) = match mode {
            Mode::Search { query, cursor, entries, results, selected_index, direct_launch } => (
                query,
                cursor,
                entries,
                results,
                selected_index,
                direct_launch,
            ),
            _ => {
                return Command::Nothing;
            },
        };
        let is_down = key.key == Key::Down || key.key == Key::Char('j') || (key.key == Key::Char('n') && key.ctrl);
        let is_up = key.key == Key::Up || key.key == Key::Char('k') || (key.key == Key::Char('p') && key.ctrl);
        if is_down {
            let next = if results.len() > 0 && selected_index < results.len() - 1 { selected_index + 1 } else { selected_index };
            self.mode = Mode::Search { query, cursor, entries, results, selected_index: next, direct_launch };
            return Command::Nothing;
        }
        if is_up {
            let next = if selected_index > 0 { selected_index - 1 } else { 0 };
            self.mode = Mode::Search { query, cursor, entries, results, selected_index: next, direct_launch };
            return Command::Nothing;
        }
        match key.key {
            Key::Enter => {
                let cmd = if selected_index < results.len() {
                    let e = results[selected_index].entry_index;
                    Command::Focus { pane_id: entries[e].pane_id, from_search: true }
                } else {
                    Command::Nothing
                };
                self.mode = Mode::Search { query, cursor, entries, results, selected_index, direct_launch };
                cmd
            },
            Key::Esc => {
                if direct_launch {
                    self.should_quit = true;
                    self.mode = Mode::Search { query, cursor, entries, results, selected_index, direct_launch };
                }
                Command::Nothing
            },
            Key::Backspace | Key::Delete | Key::Char(_) => {
                let (query, cursor) = edit_text(&query, cursor, key.key);
                let results = filter(entries.as_slice(), query.as_str());
                self.mode = Mode::Search { query, cursor, entries, results, selected_index: 0, direct_launch };
                Command::Nothing
            },
            Key::Left | Key::Right | Key::Home | Key::End => {
                let (query, cursor) = edit_text(&query, cursor, key.key);
                self.mode = Mode::Search { query, cursor, entries, results, selected_index, direct_launch };
                Command::Nothing
            },
            _ => {
                self.mode = Mode::Search { query, cursor, entries, results, selected_index, direct_launch };
                Command::Nothing
            },
        }
    }

    fn handle_key_session_pick(&mut self, key: KeyPress) -> (cmd: Command)
        requires
            mode_wf(old(self).mode),
            old(self).mode is SessionPick,
        ensures
            mode_wf(final(self).mode),
            pick_step(*old(self), *final(self), key, cmd),
    {
        let mut mode = Mode::Normal;
        std::mem::swap(&mut mode, &mut self.mode);
        let (sessions, selected_index) = match mode {
            Mode::SessionPick { sessions, selected_index } => (sessions, selected_index),
            _ => {
                return Command::Nothing;
            },
        };
        match key.key {
            Key::Esc => Command::Nothing,
            Key::Char('j') | Key::Down => {
                let next = if sessions.len() > 0 && selected_index < sessions.len() - 1 { selected_index + 1 } else { selected_index };
                self.mode = Mode::SessionPick { sessions, selected_index: next };
                Command::Nothing
            },
            Key::Char('k') | Key::Up => {
                let next = if selected_index > 0 { selected_index - 1 } else { 0 };
                self.mode = Mode::SessionPick { sessions, selected_index: next };
                Command::Nothing
            },
            Key::Enter => {
                if selected_index < sessions.len() {
                    let name = sessions[selected_index].name.clone();
                    Command::RestoreSession { name }
                } else {
                    self.mode = Mode::SessionPick { sessions, selected_index };
                    Command::Nothing
                }
            },
            Key::Char('x') => {
                let cmd = if selected_index < sessions.len() {
                    Command::DeleteSession { name: sessions[selected_index].name.clone() }
                } else {
                    Command::Nothing
                };
                self.mode = Mode::SessionPick { sessions, selected_index };
                cmd
            },
            _ => {
                self.mode = Mode::SessionPick { sessions, selected_index };
                Command::Nothing
            },
        }
    }

    fn handle_key_settings(&mut self, key: KeyPress) -> (cmd: Command)
        requires
            key_edit_ok(old(self).mode, key),
            mode_wf(old(self).mode),
            old(self).mode is Settings,
        ensures
            mode_wf(final(self).mode),
            settings_step(*old(self), *final(self), key, cmd),
    {
        let mut mode = Mode::Normal;
        std::mem::swap(&mut mode, &mut self.mode);
        let mut nav = match mode {
            Mode::Settings(nav) => nav,
            _ => {
                return Command::Nothing;
            },
        };
        let ghost s = nav;
        let c = nav.category_index;
        let i = nav.setting_index;
        if nav.editing {
            match key.key {
                Key::Enter => {
                    let cmd = Command::ApplySetting { category: c, setting: i, kind: nav.kind(), text: nav.edit_buffer.clone() };
                    nav.editing = false;
                    self.mode = Mode::Settings(nav);
                    cmd
                },
                Key::Esc => {
                    nav.editing = false;
                    self.mode = Mode::Settings(nav);
                    Command::Nothing
                },
                Key::Backspace | Key::Left | Key::Right | Key::Char(_) => {
                    let (text, cursor) = edit_text(&nav.edit_buffer, nav.edit_cursor, key.key);
                    nav.edit_buffer = text;
                    nav.edit_cursor = cursor;
                    self.mode = Mode::Settings(nav);
                    Command::Nothing
                },
                _ => {
                    self.mode = Mode::Settings(nav);
                    Command::Nothing
                },
            }
        } else {
            match key.key {
                Key::Esc | Key::Char('q') => Command::RevertSettings,
                Key::Char('w') => {
                    self.mode = Mode::Settings(nav);
                    Command::SaveSettings
                },
                _ => {
                    let cmd = match nav.panel {
                        SettingsPanel::Categories => match key.key {
                            Key::Char('j') | Key::Down => {
                                if c < nav.kinds.len() - 1 {
                                    nav.category_index = c + 1;
                                    nav.setting_index = 0;
                                }
                                Command::Nothing
                            },
                            Key::Char('k') | Key::Up => {
                                nav.category_index = if c > 0 { c - 1 } else { 0 };
                                nav.setting_index = 0;
                                Command::Nothing
                            },
                            Key::Enter | Key::Char('l') | Key::Right | Key::Tab => {
                                nav.panel = SettingsPanel::Settings;
                                nav.setting_index = 0;
                                Command::Nothing
                            },
                            _ => Command::Nothing,
                        },
                        SettingsPanel::Settings => match key.key {
                            Key::Char('j') | Key::Down => {
                                if i < nav.setting_count() - 1 {
                                    nav.setting_index = i + 1;
                                }
                                Command::Nothing
                            },
                            Key::Char('k') | Key::Up => {
                                nav.setting_index = if i > 0 { i - 1 } else { 0 };
                                Command::Nothing
                            },
                            Key::Char('h') | Key::Left | Key::Tab => {
                                nav.panel = SettingsPanel::Categories;
                                Command::Nothing
                            },
                            Key::Enter => match nav.kind() {
                                ValueKind::Bool => Command::ToggleSetting { category: c, setting: i },
                                ValueKind::Enum => Command::CycleSetting { category: c, setting: i },
                                _ => Command::EditSetting { category: c, setting: i },
                            },
                            Key::Char('+') | Key::Char('=') => Command::StepSetting { category: c, setting: i, up: true },
                            Key::Char('-') => Command::StepSetting { category: c, setting: i, up: false },
                            Key::Char('r') => Command::ResetSetting { category: c, setting: i },
                            Key::Char('e') => Command::OpenConfig,
                            _ => Command::Nothing,
                        },
                    };
                    self.mode = Mode::Settings(nav);
                    cmd
                },
            }
        }
    }

    /// Opens the settings editor over a catalog of the given shape.
    pub fn enter_settings_mode(&mut self, kinds: Vec<Vec<ValueKind>>)
        requires
            mode_wf(old(self).mode),
            catalog_ok(kinds@),
        ensures
            mode_wf(final(self).mode),
            same_data(*old(self), *final(self)),
            final(self).should_quit == old(self).should_quit,
            final(self).status_message == old(self).status_message,
            settings_opened(final(self).mode, kinds),
    {
        self.mode = Mode::Settings(SettingsNav::new(kinds));
    }

    /// Starts editing the selected setting from `text`, its shown value, with
    /// the cursor at the end; outside the settings editor nothing happens.
    pub fn begin_setting_edit(&mut self, text: String)
        requires
            mode_wf(old(self).mode),
        ensures
            mode_wf(final(self).mode),
            same_data(*old(self), *final(self)),
            final(self).should_quit == old(self).should_quit,
            final(self).status_message == old(self).status_message,
            edit_begun(old(self).mode, final(self).mode, text),
    {
        let mut mode = Mode::Normal;
        std::mem::swap(&mut mode, &mut self.mode);
        match mode {
            Mode::Settings(mut nav) => {
                let n = text.as_str().as_bytes().len();
                nav.editing = true;
                nav.edit_buffer = text;
                nav.edit_cursor = n;
                self.mode = Mode::Settings(nav);
            },
            other => {
                self.mode = other;
            },
        }
    }

    /// Takes in the outcome of saving the settings.
    pub fn finish_save_settings(&mut self, result: Result<(), String>)
        requires
            mode_wf(old(self).mode),
        ensures
            mode_wf(final(self).mode),
            same_data(*old(self), *final(self)),
            final(self).should_quit == old(self).should_quit,
            final(self).mode == old(self).mode,
            match result {
                Ok(_) => has_status(final(self).status_message, msg_settings_saved(), false),
                Err(e) => has_status(final(self).status_message, msg_save_failed(e@), true),
            },
    {
        match result {
            Ok(()) => {
                proof {
                    reveal_strlit("Settings saved");
                }
                assert("Settings saved"@ =~= msg_settings_saved());
                self.status_message = status_str("Settings saved", false);
            },
            Err(e) => {
                let mut text: Vec<char> = Vec::new();
                proof {
                    reveal_strlit("Save failed: ");
                }
                push_str(&mut text, "Save failed: ");
                push_str(&mut text, e.as_str());
                assert(text@ =~= msg_save_failed(e@));
                self.status_message = status(text, true);
            },
        }
    }

    /// Whether `key` meets [`key_edit_ok`], so that [`Core::handle_key`]
    /// may take it.
    pub fn key_edit_allowed(&self, key: KeyPress) -> (b: bool)
        ensures
            b == key_edit_ok(self.mode, key),
    {
        match &self.mode {
            Mode::Rename { input, cursor } => edit_allowed(input, *cursor, key.key),
            Mode::Search { query, cursor, .. } => {
                let down = key.key == Key::Down || key.key == Key::Char('j') || (key.key == Key::Char('n') && key.ctrl);
                let up = key.key == Key::Up || key.key == Key::Char('k') || (key.key == Key::Char('p') && key.ctrl);
                down || up || edit_allowed(query, *cursor, key.key)
            },
            Mode::Settings(nav) => {
                let edit_key = match key.key {
                    Key::Backspace | Key::Left | Key::Right | Key::Char(_) => true,
                    _ => false,
                };
                !(nav.editing && edit_key) || edit_allowed(&nav.edit_buffer, nav.edit_cursor, key.key)
            },
            _ => true,
        }
    }

    /// Handles a key press in the current mode, given the tree view's
    /// selection (the last node of its path); see [`key_step`]. In the tree
    /// view any key first clears the status line.
    pub fn handle_key(&mut self, key: KeyPress, selected: Option<&NodeId>) -> (cmd: Command)
        requires
            key_edit_ok(old(self).mode, key),
            mode_wf(old(self).mode),
        ensures
            mode_wf(final(self).mode),
            key_step(*old(self), *final(self), key, opt_node(selected), cmd),
    {
        match self.mode {
            Mode::Normal => {
                self.status_message = None;
                self.handle_key_normal(key, selected)
            },
            Mode::Rename { .. } => self.handle_key_rename(key, selected),
            Mode::Move { .. } => self.handle_key_move(key, selected),
            Mode::Confirm { .. } => self.handle_key_confirm(key),
            Mode::Search { .. } => self.handle_key_search(key),
            Mode::Help => {
                self.mode = Mode::Normal;
                Command::Nothing
            },
            Mode::Settings(_) => self.handle_key_settings(key),
            Mode::SessionPick { .. } => self.handle_key_session_pick(key),
        }
    }
}


// -- Outcomes of the terminal side's work --

pub open spec fn msg_focus_failed(e: Seq<char>) -> Seq<char> {
    seq!['F', 'o', 'c', 'u', 's', ' ', 'f', 'a', 'i', 'l', 'e', 'd', ':', ' '] + e
}

pub open spec fn msg_renamed(title: Seq<char>) -> Seq<char> {
    seq!['R', 'e', 'n', 'a', 'm', 'e', 'd', ' ', 't', 'o', ' ', '\''] + title + seq!['\'']
}

pub open spec fn msg_rename_failed(e: Seq<char>) -> Seq<char> {
    seq!['R', 'e', 'n', 'a', 'm', 'e', ' ', 'f', 'a', 'i', 'l', 'e', 'd', ':', ' '] + e
}

pub open spec fn msg_moved(n: nat, target: u64) -> Seq<char> {
    seq!['M', 'o', 'v', 'e', 'd', ' '] + crate::text::decimal(n)
        + seq![' ', 'p', 'a', 'n', 'e', '(', 's', ')', ' ', 't', 'o', ' ', 'w', 'i', 'n', 'd', 'o', 'w', ' ']
        + crate::text::decimal(target as nat)
}

pub open spec fn msg_move_errors(list: Seq<char>) -> Seq<char> {
    seq!['M', 'o', 'v', 'e', ' ', 'e', 'r', 'r', 'o', 'r', 's', ':', ' '] + list
}

pub open spec fn msg_closed(n: nat) -> Seq<char> {
    seq!['C', 'l', 'o', 's', 'e', 'd', ' '] + crate::text::decimal(n) + seq![' ', 'p', 'a', 'n', 'e', '(', 's', ')']
}

pub open spec fn msg_close_errors(list: Seq<char>) -> Seq<char> {
    seq!['C', 'l', 'o', 's', 'e', ' ', 'e', 'r', 'r', 'o', 'r', 's', ':', ' '] + list
}

pub open spec fn msg_no_sessions() -> Seq<char> {
    seq!['N', 'o', ' ', 's', 'a', 'v', 'e', 'd', ' ', 's', 'e', 's', 's', 'i', 'o', 'n', 's']
}

pub open spec fn msg_list_failed(e: Seq<char>) -> Seq<char> {
    seq!['F', 'a', 'i', 'l', 'e', 'd', ' ', 't', 'o', ' ', 'l', 'i', 's', 't', ' ', 's', 'e', 's', 's', 'i', 'o', 'n', 's', ':', ' '] + e
}

pub open spec fn msg_restored(name: Seq<char>, windows: nat, panes: nat) -> Seq<char> {
    seq!['R', 'e', 's', 't', 'o', 'r', 'e', 'd', ' ', '\''] + name + seq!['\'', ':', ' '] + crate::text::decimal(windows)
        + seq![' ', 'w', 'i', 'n', 'd', 'o', 'w', '(', 's', ')', ',', ' '] + crate::text::decimal(panes)
        + seq![' ', 'p', 'a', 'n', 'e', '(', 's', ')']
}

pub open spec fn msg_restore_failed(e: Seq<char>) -> Seq<char> {
    seq!['R', 'e', 's', 't', 'o', 'r', 'e', ' ', 'f', 'a', 'i', 'l', 'e', 'd', ':', ' '] + e
}

pub open spec fn msg_deleted(name: Seq<char>) -> Seq<char> {
    seq!['D', 'e', 'l', 'e', 't', 'e', 'd', ' ', '\''] + name + seq!['\'']
}

pub open spec fn msg_deleted_last(name: Seq<char>) -> Seq<char> {
    seq!['D', 'e', 'l', 'e', 't', 'e', 'd', ' ', '\''] + name
        + seq!['\'', ' ', '(', 'n', 'o', ' ', 's', 'e', 's', 's', 'i', 'o', 'n', 's', ' ', 'l', 'e', 'f', 't', ')']
}

pub open spec fn msg_delete_failed(e: Seq<char>) -> Seq<char> {
    seq!['D', 'e', 'l', 'e', 't', 'e', ' ', 'f', 'a', 'i', 'l', 'e', 'd', ':', ' '] + e
}

pub open spec fn msg_refresh_failed(e: Seq<char>) -> Seq<char> {
    seq!['R', 'e', 'f', 'r', 'e', 's', 'h', ' ', 'f', 'a', 'i', 'l', 'e', 'd', ':', ' '] + e
}

/// `pane <id>: <error>`.
pub open spec fn pane_error(id: u64, e: Seq<char>) -> Seq<char> {
    seq!['p', 'a', 'n', 'e', ' '] + crate::text::decimal(id as nat) + seq![':', ' '] + e
}

/// The failures among the first `k` outcomes, each as `pane <id>: <error>`.
pub open spec fn failures(ids: Seq<u64>, outcomes: Seq<Result<(), String>>, k: int) -> Seq<Seq<char>>
    decreases k,
{
    if k <= 0 {
        Seq::empty()
    } else {
        let rest = failures(ids, outcomes, k - 1);
        match outcomes[k - 1] {
            Ok(_) => rest,
            Err(e) => rest.push(pane_error(ids[k - 1], e@)),
        }
    }
}

/// The parts separated by `, `.
pub open spec fn joined(parts: Seq<Seq<char>>) -> Seq<char>
    decreases parts.len(),
{
    if parts.len() == 0 {
        Seq::empty()
    } else if parts.len() == 1 {
        parts[0]
    } else {
        joined(parts.drop_last()) + seq![',', ' '] + parts.last()
    }
}

/// The characters of `prefix` followed by those of `body`.
fn message(prefix: &str, body: &str) -> (r: Vec<char>)
    ensures
        r@ == prefix@ + body@,
{
    let mut out: Vec<char> = Vec::new();
    push_str(&mut out, prefix);
    push_str(&mut out, body);
    assert(out@ =~= prefix@ + body@);
    out
}

/// The failures among the outcomes, each as `pane <id>: <error>`, joined by `, `.
fn failure_list(ids: &[u64], outcomes: &[Result<(), String>]) -> (r: (Vec<char>, usize))
    requires
        ids@.len() == outcomes@.len(),
    ensures
        r.0@ == joined(failures(ids@, outcomes@, ids@.len() as int)),
        r.1 == failures(ids@, outcomes@, ids@.len() as int).len(),
{
    let mut out: Vec<char> = Vec::new();
    let mut count: usize = 0;
    let mut i: usize = 0;
    while i < ids.len()
        invariant
            i <= ids@.len(),
            ids@.len() == outcomes@.len(),
            out@ == joined(failures(ids@, outcomes@, i as int)),
            count == failures(ids@, outcomes@, i as int).len(),
            count <= i,
        decreases ids@.len() - i,
    {
        let ghost before = failures(ids@, outcomes@, i as int);
        match &outcomes[i] {
            Ok(_) => {},
            Err(e) => {
                let ghost item = pane_error(ids@[i as int], e@);
                if count > 0 {
                    out.push(',');
                    out.push(' ');
                }
                let mut part: Vec<char> = Vec::new();
                proof {
                    reveal_strlit("pane ");
                    reveal_strlit(": ");
                }
                push_str(&mut part, "pane ");
                push_decimal(&mut part, ids[i]);
                push_str(&mut part, ": ");
                push_str(&mut part, e.as_str());
                assert(part@ =~= item);
                crate::text::push_chars(&mut out, &part);
                proof {
                    let after = before.push(item);
                    assert(after.drop_last() =~= before);
                    if count > 0 {
                        assert(out@ =~= joined(before) + seq![',', ' '] + item);
                    } else {
                        assert(before.len() == 0);
                        assert(out@ =~= item);
                    }
                }
                count = count + 1;
            },
        }
        i = i + 1;
    }
    (out, count)
}

impl Core {
    /// Takes in the outcome of activating a pane: success ends the program;
    /// a failure is reported, and leaves the search prompt for the tree.
    pub fn finish_focus(&mut self, from_search: bool, result: Result<(), String>)
        requires
            mode_wf(old(self).mode),
        ensures
            mode_wf(final(self).mode),
            same_data(*old(self), *final(self)),
            match result {
                Ok(_) => final(self).should_quit && final(self).mode == old(self).mode
                    && final(self).status_message == old(self).status_message,
                Err(e) => final(self).should_quit == old(self).should_quit
                    && final(self).mode == (if from_search { Mode::Normal } else { old(self).mode })
                    && has_status(final(self).status_message, msg_focus_failed(e@), true),
            },
    {
        match result {
            Ok(()) => {
                self.should_quit = true;
            },
            Err(e) => {
                if from_search {
                    self.mode = Mode::Normal;
                }
                let text = message("Focus failed: ", e.as_str());
                proof {
                    reveal_strlit("Focus failed: ");
                }
                assert(text@ =~= msg_focus_failed(e@));
                self.status_message = status(text, true);
            },
        }
    }

    /// Takes in the outcome of a rename to `title`; says whether the tree
    /// should be read again.
    pub fn finish_rename(&mut self, title: &str, result: Result<(), String>) -> (refresh: bool)
        requires
            mode_wf(old(self).mode),
        ensures
            mode_wf(final(self).mode),
            same_data(*old(self), *final(self)),
            final(self).should_quit == old(self).should_quit,
            final(self).mode == old(self).mode,
            refresh == (result is Ok),
            match result {
                Ok(_) => has_status(final(self).status_message, msg_renamed(title@), false),
                Err(e) => has_status(final(self).status_message, msg_rename_failed(e@), true),
            },
    {
        match result {
            Ok(()) => {
                let mut text = message("Renamed to '", title);
                text.push('\'');
                proof {
                    reveal_strlit("Renamed to '");
                }
                assert(text@ =~= msg_renamed(title@));
                self.status_message = status(text, false);
                true
            },
            Err(e) => {
                let text = message("Rename failed: ", e.as_str());
                proof {
                    reveal_strlit("Rename failed: ");
                }
                assert(text@ =~= msg_rename_failed(e@));
                self.status_message = status(text, true);
                false
            },
        }
    }

    /// Takes in the outcome of moving each of `pane_ids` to window `target`,
    /// one outcome per pane, in order. The tree is read again afterwards in
    /// either case.
    pub fn finish_move(&mut self, pane_ids: &[u64], target: u64, outcomes: &[Result<(), String>])
        requires
            mode_wf(old(self).mode),
            pane_ids@.len() == outcomes@.len(),
        ensures
            mode_wf(final(self).mode),
            same_data(*old(self), *final(self)),
            final(self).should_quit == old(self).should_quit,
            final(self).mode == old(self).mode,
            ({
                let fs = failures(pane_ids@, outcomes@, pane_ids@.len() as int);
                if fs.len() == 0 {
                    has_status(final(self).status_message, msg_moved(pane_ids@.len(), target), false)
                } else {
                    has_status(final(self).status_message, msg_move_errors(joined(fs)), true)
                }
            }),
    {
        let (list, count) = failure_list(pane_ids, outcomes);
        if count == 0 {
            let mut text: Vec<char> = Vec::new();
            proof {
                reveal_strlit("Moved ");
                reveal_strlit(" pane(s) to window ");
            }
            push_str(&mut text, "Moved ");
            push_decimal(&mut text, pane_ids.len() as u64);
            push_str(&mut text, " pane(s) to window ");
            push_decimal(&mut text, target);
            assert(text@ =~= msg_moved(pane_ids@.len(), target));
            self.status_message = status(text, false);
        } else {
            let mut text: Vec<char> = Vec::new();
            proof {
                reveal_strlit("Move errors: ");
            }
            push_str(&mut text, "Move errors: ");
            crate::text::push_chars(&mut text, &list);
            assert(text@ =~= msg_move_errors(list@));
            self.status_message = status(text, true);
        }
    }

    /// Takes in the outcome of closing each of `pane_ids`, one outcome per
    /// pane, in order. The tree is read again afterwards in either case.
    pub fn finish_close(&mut self, pane_ids: &[u64], outcomes: &[Result<(), String>])
        requires
            mode_wf(old(self).mode),
            pane_ids@.len() == outcomes@.len(),
        ensures
            mode_wf(final(self).mode),
            same_data(*old(self), *final(self)),
            final(self).should_quit == old(self).should_quit,
            final(self).mode == old(self).mode,
            ({
                let fs = failures(pane_ids@, outcomes@, pane_ids@.len() as int);
                if fs.len() == 0 {
                    has_status(final(self).status_message, msg_closed(pane_ids@.len()), false)
                } else {
                    has_status(final(self).status_message, msg_close_errors(joined(fs)), true)
                }
            }),
    {
        let (list, count) = failure_list(pane_ids, outcomes);
        if count == 0 {
            let mut text: Vec<char> = Vec::new();
            proof {
                reveal_strlit("Closed ");
                reveal_strlit(" pane(s)");
            }
            push_str(&mut text, "Closed ");
            push_decimal(&mut text, pane_ids.len() as u64);
            push_str(&mut text, " pane(s)");
            assert(text@ =~= msg_closed(pane_ids@.len()));
            self.status_message = status(text, false);
        } else {
            let mut text: Vec<char> = Vec::new();
            proof {
                reveal_strlit("Close errors: ");
            }
            push_str(&mut text, "Close errors: ");
            crate::text::push_chars(&mut text, &list);
            assert(text@ =~= msg_close_errors(list@));
            self.status_message = status(text, true);
        }
    }
}

impl Core {
    /// Takes in the listed saved sessions: opens the picker on the first, or
    /// reports that there are none or that listing failed.
    pub fn open_session_pick(&mut self, listed: Result<Vec<SessionSummary>, String>)
        requires
            mode_wf(old(self).mode),
        ensures
            mode_wf(final(self).mode),
            same_data(*old(self), *final(self)),
            final(self).should_quit == old(self).should_quit,
            match listed {
                Ok(s) => if s@.len() == 0 {
                    final(self).mode == old(self).mode && has_status(final(self).status_message, msg_no_sessions(), true)
                } else {
                    final(self).mode == (Mode::SessionPick { sessions: s, selected_index: 0 })
                        && final(self).status_message == old(self).status_message
                },
                Err(e) => final(self).mode == old(self).mode && has_status(final(self).status_message, msg_list_failed(e@), true),
            },
    {
        match listed {
            Ok(sessions) => {
                if sessions.len() == 0 {
                    proof {
                        reveal_strlit("No saved sessions");
                    }
                    assert("No saved sessions"@ =~= msg_no_sessions());
                    self.status_message = status_str("No saved sessions", true);
                } else {
                    self.mode = Mode::SessionPick { sessions, selected_index: 0 };
                }
            },
            Err(e) => {
                let text = message("Failed to list sessions: ", e.as_str());
                proof {
                    reveal_strlit("Failed to list sessions: ");
                }
                assert(text@ =~= msg_list_failed(e@));
                self.status_message = status(text, true);
            },
        }
    }

    /// Takes in the outcome of restoring the session `name`; says whether the
    /// tree should be read again.
    pub fn finish_restore(&mut self, name: &str, result: Result<RestoreReport, String>) -> (refresh: bool)
        requires
            mode_wf(old(self).mode),
        ensures
            mode_wf(final(self).mode),
            same_data(*old(self), *final(self)),
            final(self).should_quit == old(self).should_quit,
            final(self).mode == old(self).mode,
            refresh == (result is Ok),
            match result {
                Ok(r) => has_status(
                    final(self).status_message,
                    msg_restored(name@, r.windows_created as nat, r.panes_created as nat),
                    false,
                ),
                Err(e) => has_status(final(self).status_message, msg_restore_failed(e@), true),
            },
    {
        match result {
            Ok(report) => {
                let mut text: Vec<char> = Vec::new();
                proof {
                    reveal_strlit("Restored '");
                    reveal_strlit("': ");
                    reveal_strlit(" window(s), ");
                    reveal_strlit(" pane(s)");
                }
                push_str(&mut text, "Restored '");
                push_str(&mut text, name);
                push_str(&mut text, "': ");
                push_decimal(&mut text, report.windows_created as u64);
                push_str(&mut text, " window(s), ");
                push_decimal(&mut text, report.panes_created as u64);
                push_str(&mut text, " pane(s)");
                assert(text@ =~= msg_restored(name@, report.windows_created as nat, report.panes_created as nat));
                self.status_message = status(text, false);
                true
            },
            Err(e) => {
                let text = message("Restore failed: ", e.as_str());
                proof {
                    reveal_strlit("Restore failed: ");
                }
                assert(text@ =~= msg_restore_failed(e@));
                self.status_message = status(text, true);
                false
            },
        }
    }

    /// Takes in the outcome of deleting the session `name`: the error, or the
    /// sessions listed afterwards (`None` when that listing failed, which
    /// leaves everything as it was). The picker goes on over the remaining
    /// sessions, its selection kept within them, or closes when none is left.
    pub fn finish_delete(&mut self, name: &str, result: Result<Option<Vec<SessionSummary>>, String>)
        requires
            mode_wf(old(self).mode),
        ensures
            mode_wf(final(self).mode),
            same_data(*old(self), *final(self)),
            final(self).should_quit == old(self).should_quit,
            match result {
                Err(e) => final(self).mode == old(self).mode
                    && has_status(final(self).status_message, msg_delete_failed(e@), true),
                Ok(None) => final(self).mode == old(self).mode && final(self).status_message == old(self).status_message,
                Ok(Some(s)) => if s@.len() == 0 {
                    final(self).mode == Mode::Normal && has_status(final(self).status_message, msg_deleted_last(name@), false)
                } else {
                    final(self).mode == (Mode::SessionPick {
                        sessions: s,
                        selected_index: match old(self).mode {
                            Mode::SessionPick { selected_index, .. } => if selected_index < s@.len() {
                                selected_index
                            } else {
                                (s@.len() - 1) as usize
                            },
                            _ => 0,
                        },
                    }) && has_status(final(self).status_message, msg_deleted(name@), false)
                },
            },
    {
        match result {
            Err(e) => {
                let text = message("Delete failed: ", e.as_str());
                proof {
                    reveal_strlit("Delete failed: ");
                }
                assert(text@ =~= msg_delete_failed(e@));
                self.status_message = status(text, true);
            },
            Ok(None) => {},
            Ok(Some(sessions)) => {
                if sessions.len() == 0 {
                    self.mode = Mode::Normal;
                    let mut text = message("Deleted '", name);
                    proof {
                        reveal_strlit("Deleted '");
                        reveal_strlit("' (no sessions left)");
                    }
                    push_str(&mut text, "' (no sessions left)");
                    assert(text@ =~= msg_deleted_last(name@));
                    self.status_message = status(text, false);
                } else {
                    let idx = match &self.mode {
                        Mode::SessionPick { selected_index, .. } => if *selected_index < sessions.len() {
                            *selected_index
                        } else {
                            sessions.len() - 1
                        },
                        _ => 0,
                    };
                    self.mode = Mode::SessionPick { sessions, selected_index: idx };
                    let mut text = message("Deleted '", name);
                    text.push('\'');
                    proof {
                        reveal_strlit("Deleted '");
                    }
                    assert(text@ =~= msg_deleted(name@));
                    self.status_message = status(text, false);
                }
            },
        }
    }

    /// Takes in the pane list read again: the tree is rebuilt from it, and
    /// the result says whether the selection `selected` is gone from it (the
    /// tree view then selects its first item). A failed read is reported.
    pub fn refresh(&mut self, listed: Result<Vec<PaneInfo>, String>, selected: Option<&NodeId>) -> (reselect: bool)
        requires
            mode_wf(old(self).mode),
        ensures
            mode_wf(final(self).mode),
            final(self).current_pane_id == old(self).current_pane_id,
            final(self).should_quit == old(self).should_quit,
            final(self).mode == old(self).mode,
            match listed {
                Ok(p) => is_tree_of(p@, final(self).windows@) && final(self).status_message == old(self).status_message
                    && reselect == !node_exists(final(self).windows@, opt_node(selected)),
                Err(e) => final(self).windows == old(self).windows && !reselect
                    && has_status(final(self).status_message, msg_refresh_failed(e@), true),
            },
    {
        match listed {
            Ok(panes) => {
                self.windows = build_tree(panes.as_slice());
                !selection_still_valid(self.windows.as_slice(), selected)
            },
            Err(e) => {
                let text = message("Refresh failed: ", e.as_str());
                proof {
                    reveal_strlit("Refresh failed: ");
                }
                assert(text@ =~= msg_refresh_failed(e@));
                self.status_message = status(text, true);
                false
            },
        }
    }
}


// -- Laws of the controller --

/// In the search prompt the selection points at a result, or is 0 when
/// there are none.
pub open spec fn search_selection_ok(m: Mode) -> bool {
    m matches Mode::Search { results, selected_index, .. } ==> if results@.len() == 0 {
        selected_index == 0
    } else {
        selected_index < results@.len()
    }
}

/// No key moves the search selection off the results: whatever key is
/// pressed, in whatever mode, a selection that pointed at a result (or was
/// 0 with none) still does.
pub proof fn lemma_search_selection_stays_in_bounds(o: Core, n: Core, k: KeyPress, sel: Option<NodeId>, cmd: Command)
    requires
        mode_wf(o.mode),
        search_selection_ok(o.mode),
        key_step(o, n, k, sel, cmd),
    ensures
        search_selection_ok(n.mode),
{
    match o.mode {
        Mode::Normal => {
            let o2 = Core { status_message: None, ..o };
            assert(normal_step(o2, n, k, sel, cmd));
            if k.key == Key::Char('/') {
                assert(search_opened(n.mode, o.windows@, Seq::empty(), false));
            } else if k.key == Key::Char('x') {
                match sel {
                    Some(NodeId::Tab(id)) => {
                        if !no_tab(o.windows@, id) {
                            let (i0, j0) = choose|i: int, j: int| #![trigger o.windows@[i].tabs@[j]] tab_at(o.windows@, i, j) && o.windows@[i].tabs@[j].tab_id == id;
                            lemma_first_tab_exists(o.windows@, id, i0, j0);
                        }
                    },
                    Some(NodeId::Window(id)) => {
                        if !no_window(o.windows@, id) {
                            let i0 = choose|i: int| 0 <= i < o.windows@.len() && (#[trigger] o.windows@[i]).window_id == id;
                            lemma_first_window_exists(o.windows@, id, i0);
                        }
                    },
                    _ => {},
                }
            }
        },
        Mode::Search { query, cursor, entries, results, selected_index, direct_launch } => {
            assert(search_step(o, n, k, cmd));
            if search_down(k) {
            } else if search_up(k) {
            } else {
                match k.key {
                    Key::Backspace | Key::Delete | Key::Char(_) => {
                        assert(n.mode is Search);
                    },
                    _ => {},
                }
            }
        },
        _ => {},
    }
}

/// Closing a prompt with Esc gives the tree view back with nothing else
/// changed: no quit, the same windows, the same status line.
pub proof fn lemma_esc_closes_prompts(o: Core, n: Core, sel: Option<NodeId>, cmd: Command)
    requires
        mode_wf(o.mode),
        o.mode is Rename || o.mode is Move || o.mode is Confirm || (o.mode matches Mode::Search { direct_launch, .. } && !direct_launch)
            || o.mode is SessionPick,
        key_step(o, n, KeyPress { key: Key::Esc, ctrl: false }, sel, cmd),
    ensures
        n.mode == Mode::Normal,
        n.should_quit == o.should_quit,
        n.windows == o.windows,
        n.status_message == o.status_message,
        cmd == Command::Nothing,
{
}


proof fn lemma_first_tab_exists(ws: Seq<WezWindow>, id: u64, i: int, j: int)
    requires
        tab_at(ws, i, j),
        ws[i].tabs@[j].tab_id == id,
    ensures
        exists|a: int, b: int| is_first_tab(ws, id, a, b),
    decreases i, j,
{
    if exists|a: int, b: int| #![trigger ws[a].tabs@[b]] tab_at(ws, a, b) && (a < i || (a == i && b < j)) && ws[a].tabs@[b].tab_id == id {
        let (a, b) = choose|a: int, b: int| #![trigger ws[a].tabs@[b]] tab_at(ws, a, b) && (a < i || (a == i && b < j)) && ws[a].tabs@[b].tab_id == id;
        lemma_first_tab_exists(ws, id, a, b);
    } else {
        assert(is_first_tab(ws, id, i, j));
    }
}

proof fn lemma_first_window_exists(ws: Seq<WezWindow>, id: u64, i: int)
    requires
        0 <= i < ws.len(),
        ws[i].window_id == id,
    ensures
        exists|a: int| first_window(ws, id, a),
    decreases i,
{
    if exists|a: int| 0 <= a < i && (#[trigger] ws[a]).window_id == id {
        let a = choose|a: int| 0 <= a < i && (#[trigger] ws[a]).window_id == id;
        lemma_first_window_exists(ws, id, a);
    } else {
        assert(first_window(ws, id, i));
    }
}

} // verus!
