use vstd::prelude::*;
use vstd::string::*;

use crate::layout::dir_label;
use crate::model::{WezPane, WezTab, WezWindow};
use crate::search::{opt_chars, tab_name, window_name};
use crate::text::{chars_lt, chars_of, lex_lt, lemma_lex_irreflexive, lemma_lex_total, lemma_lex_transitive, decimal, last_segment_of, push_chars, push_decimal, push_str, string_from_chars};

verus! {

/// A node of the window tree, named by what it shows.
#[derive(Debug, Clone, PartialEq, Eq, Hash)]
pub enum NodeId {
    Workspace(String),
    Window(u64),
    Tab(u64),
    Pane(u64),
}

impl NodeId {
    /// A copy of this node id.
    pub fn copy(&self) -> (r: NodeId)
        ensures
            r == *self,
    {
        match self {
            NodeId::Workspace(s) => NodeId::Workspace(s.clone()),
            NodeId::Window(id) => NodeId::Window(*id),
            NodeId::Tab(id) => NodeId::Tab(*id),
            NodeId::Pane(id) => NodeId::Pane(*id),
        }
    }
}

// -- Looking things up --

/// `(i, j)` names a tab of `ws`.
pub open spec fn tab_at(ws: Seq<WezWindow>, i: int, j: int) -> bool {
    0 <= i < ws.len() && 0 <= j < ws[i].tabs.len()
}

/// `(i, j)` is the first tab of `ws`, in tree order, with id `id`.
pub open spec fn is_first_tab(ws: Seq<WezWindow>, id: u64, i: int, j: int) -> bool {
    &&& tab_at(ws, i, j)
    &&& ws[i].tabs@[j].tab_id == id
    &&& forall|i2: int, j2: int|
        #![trigger ws[i2].tabs@[j2]]
        tab_at(ws, i2, j2) && (i2 < i || (i2 == i && j2 < j)) ==> ws[i2].tabs@[j2].tab_id != id
}

/// No tab of `ws` has id `id`.
pub open spec fn no_tab(ws: Seq<WezWindow>, id: u64) -> bool {
    forall|i: int, j: int| #![trigger ws[i].tabs@[j]] tab_at(ws, i, j) ==> ws[i].tabs@[j].tab_id != id
}

/// The first tab with id `tab_id`, in tree order.
pub fn find_tab(windows: &[WezWindow], tab_id: u64) -> (r: Option<&WezTab>)
    ensures
        match r {
            Some(t) => exists|i: int, j: int| is_first_tab(windows@, tab_id, i, j) && *t == windows@[i].tabs@[j],
            None => no_tab(windows@, tab_id),
        },
{
    let mut i: usize = 0;
    while i < windows.len()
        invariant
            i <= windows@.len(),
            forall|i2: int, j2: int|
                #![trigger windows@[i2].tabs@[j2]]
                tab_at(windows@, i2, j2) && i2 < i ==> windows@[i2].tabs@[j2].tab_id != tab_id,
        decreases windows@.len() - i,
    {
        let w = &windows[i];
        let mut j: usize = 0;
        while j < w.tabs.len()
            invariant
                i < windows@.len(),
                *w == windows@[i as int],
                j <= w.tabs@.len(),
                forall|i2: int, j2: int|
                    #![trigger windows@[i2].tabs@[j2]]
                    tab_at(windows@, i2, j2) && (i2 < i || (i2 == i && j2 < j)) ==> windows@[i2].tabs@[j2].tab_id
                        != tab_id,
            decreases w.tabs@.len() - j,
        {
            if w.tabs[j].tab_id == tab_id {
                assert(is_first_tab(windows@, tab_id, i as int, j as int));
                return Some(&w.tabs[j]);
            }
            j = j + 1;
        }
        i = i + 1;
    }
    None
}

/// Window `w` holds a pane with id `id`.
pub open spec fn window_has_pane(w: WezWindow, id: u64) -> bool {
    exists|j: int, k: int|
        0 <= j < w.tabs.len() && 0 <= k < w.tabs@[j].panes.len() && #[trigger] w.tabs@[j].panes@[k].pane_id == id
}

fn has_pane(w: &WezWindow, id: u64) -> (b: bool)
    ensures
        b == window_has_pane(*w, id),
{
    let mut j: usize = 0;
    while j < w.tabs.len()
        invariant
            j <= w.tabs@.len(),
            forall|j2: int, k: int|
                0 <= j2 < j && 0 <= k < w.tabs@[j2].panes.len() ==> #[trigger] w.tabs@[j2].panes@[k].pane_id != id,
        decreases w.tabs@.len() - j,
    {
        let t = &w.tabs[j];
        let mut k: usize = 0;
        while k < t.panes.len()
            invariant
                j < w.tabs@.len(),
                *t == w.tabs@[j as int],
                k <= t.panes@.len(),
                forall|j2: int, k2: int|
                    0 <= j2 < j && 0 <= k2 < w.tabs@[j2].panes.len() ==> #[trigger] w.tabs@[j2].panes@[k2].pane_id
                        != id,
                forall|k2: int| 0 <= k2 < k ==> #[trigger] t.panes@[k2].pane_id != id,
            decreases t.panes@.len() - k,
        {
            if t.panes[k].pane_id == id {
                assert(w.tabs@[j as int].panes@[k as int].pane_id == id);
                return true;
            }
            k = k + 1;
        }
        j = j + 1;
    }
    false
}

/// The id of the first window that holds pane `pane_id`.
pub fn find_pane_window(windows: &[WezWindow], pane_id: u64) -> (r: Option<u64>)
    ensures
        match r {
            Some(wid) => exists|i: int|
                0 <= i < windows@.len() && windows@[i].window_id == wid && window_has_pane(
                    #[trigger] windows@[i],
                    pane_id,
                ) && forall|i2: int| 0 <= i2 < i ==> !window_has_pane(#[trigger] windows@[i2], pane_id),
            None => forall|i: int| 0 <= i < windows@.len() ==> !window_has_pane(#[trigger] windows@[i], pane_id),
        },
{
    let mut i: usize = 0;
    while i < windows.len()
        invariant
            i <= windows@.len(),
            forall|i2: int| 0 <= i2 < i ==> !window_has_pane(#[trigger] windows@[i2], pane_id),
        decreases windows@.len() - i,
    {
        if has_pane(&windows[i], pane_id) {
            return Some(windows[i].window_id);
        }
        i = i + 1;
    }
    None
}

/// Some window of `ws` holds a tab with id `id`.
pub open spec fn some_tab(ws: Seq<WezWindow>, id: u64) -> bool {
    exists|i: int, j: int| #![trigger ws[i].tabs@[j]] tab_at(ws, i, j) && ws[i].tabs@[j].tab_id == id
}

/// Some window of `ws` holds a pane with id `id`.
pub open spec fn some_pane(ws: Seq<WezWindow>, id: u64) -> bool {
    exists|i: int| 0 <= i < ws.len() && window_has_pane(#[trigger] ws[i], id)
}

/// The node an optional reference names.
pub open spec fn opt_node(o: Option<&NodeId>) -> Option<NodeId> {
    match o {
        Some(n) => Some(*n),
        None => None,
    }
}

/// The node that a selection ends in still names something in `ws`
/// (an empty selection always does).
pub open spec fn node_exists(ws: Seq<WezWindow>, node: Option<NodeId>) -> bool {
    match node {
        None => true,
        Some(NodeId::Workspace(name)) => exists|i: int| 0 <= i < ws.len() && (#[trigger] ws[i]).workspace@ == name@,
        Some(NodeId::Window(id)) => exists|i: int| 0 <= i < ws.len() && (#[trigger] ws[i]).window_id == id,
        Some(NodeId::Tab(id)) => some_tab(ws, id),
        Some(NodeId::Pane(id)) => some_pane(ws, id),
    }
}

fn string_eq(a: &String, b: &String) -> (r: bool)
    ensures
        r == (a@ == b@),
{
    a.eq(b)
}

/// Whether the selected node, given by the last element of the selection
/// path, still exists in `windows`.
pub fn selection_still_valid(windows: &[WezWindow], selected: Option<&NodeId>) -> (b: bool)
    ensures
        b == node_exists(windows@, opt_node(selected)),
{
    let node = match selected {
        None => {
            return true;
        },
        Some(n) => n,
    };
    match node {
        NodeId::Workspace(name) => {
            let mut i: usize = 0;
            while i < windows.len()
                invariant
                    i <= windows@.len(),
                    forall|i2: int| 0 <= i2 < i ==> (#[trigger] windows@[i2]).workspace@ != name@,
                    opt_node(selected) == Some(NodeId::Workspace(*name)),
                decreases windows@.len() - i,
            {
                if string_eq(&windows[i].workspace, name) {
                    assert((windows@[i as int]).workspace@ == name@);
                    return true;
                }
                i = i + 1;
            }
            false
        },
        NodeId::Window(id) => {
            let mut i: usize = 0;
            while i < windows.len()
                invariant
                    i <= windows@.len(),
                    forall|i2: int| 0 <= i2 < i ==> (#[trigger] windows@[i2]).window_id != *id,
                    opt_node(selected) == Some(NodeId::Window(*id)),
                decreases windows@.len() - i,
            {
                if windows[i].window_id == *id {
                    assert((windows@[i as int]).window_id == *id);
                    return true;
                }
                i = i + 1;
            }
            false
        },
        NodeId::Tab(id) => {
            let r = find_tab(windows, *id);
            proof {
                if r.is_some() {
                    let (i, j) = choose|i: int, j: int| is_first_tab(windows@, *id, i, j) && *r.unwrap() == windows@[i].tabs@[j];
                    assert(tab_at(windows@, i, j) && windows@[i].tabs@[j].tab_id == *id);
                }
            }
            r.is_some()
        },
        NodeId::Pane(id) => {
            let r = find_pane_window(windows, *id);
            r.is_some()
        },
    }
}


// -- Labels --

/// An item of the window tree as the tree view shows it.
#[derive(Debug, PartialEq)]
pub struct TreeNode {
    pub id: NodeId,
    pub label: String,
    pub children: Vec<TreeNode>,
}

/// The label of a pane: `title [dir]`, with ` *` after it for the pane
/// weztui was started from.
pub open spec fn pane_label_of(p: WezPane, current: Option<u64>) -> Seq<char> {
    p.title@ + seq![' ', '['] + dir_label(p.cwd) + seq![']'] + if current == Some(p.pane_id) {
        seq![' ', '*']
    } else {
        Seq::empty()
    }
}

/// Some pane of the tab is its window's active pane.
pub open spec fn tab_is_active(t: WezTab) -> bool {
    exists|k: int| 0 <= k < t.panes.len() && (#[trigger] t.panes@[k]).is_active
}

/// `● ` before the label of an active tab.
pub open spec fn active_marker(t: WezTab) -> Seq<char> {
    if tab_is_active(t) { seq!['●', ' '] } else { Seq::empty() }
}

/// `n` is the tree item of tab `t`: a leaf `marker title — pane` for a
/// single pane, otherwise `marker title  (n panes)` over one leaf per pane.
pub open spec fn is_tab_item(n: TreeNode, t: WezTab, current: Option<u64>) -> bool {
    &&& n.id == NodeId::Tab(t.tab_id)
    &&& if t.panes.len() == 1 {
        &&& n.label@ == active_marker(t) + tab_name(t) + seq![' ', '—', ' '] + pane_label_of(t.panes@[0], current)
        &&& n.children.len() == 0
    } else {
        &&& n.label@ == active_marker(t) + tab_name(t) + seq![' ', ' ', '('] + decimal(t.panes.len() as nat) + seq![
            ' ',
            'p',
            'a',
            'n',
            'e',
            's',
            ')',
        ]
        &&& n.children.len() == t.panes.len()
        &&& forall|k: int|
            0 <= k < t.panes.len() ==> {
                &&& (#[trigger] n.children@[k]).id == NodeId::Pane(t.panes@[k].pane_id)
                &&& n.children@[k].label@ == pane_label_of(t.panes@[k], current)
                &&& n.children@[k].children.len() == 0
            }
    }
}

/// A tab's item carries the `● ` marker whenever any of its panes, at any
/// position, is its window's active pane; when none is, the label opens with
/// the tab's name itself.
pub proof fn lemma_tab_marker_follows_active_pane(n: TreeNode, t: WezTab, current: Option<u64>)
    requires
        is_tab_item(n, t, current),
    ensures
        forall|k: int| 0 <= k < t.panes.len() && (#[trigger] t.panes@[k]).is_active ==> n.label@.len() >= 2
            && n.label@[0] == '●' && n.label@[1] == ' ',
        (forall|k: int| 0 <= k < t.panes.len() ==> !(#[trigger] t.panes@[k]).is_active) ==> n.label@.len() >= tab_name(t).len()
            && n.label@.subrange(0, tab_name(t).len() as int) == tab_name(t),
{
    assert forall|k: int| 0 <= k < t.panes.len() && (#[trigger] t.panes@[k]).is_active implies n.label@.len() >= 2
        && n.label@[0] == '●' && n.label@[1] == ' ' by {
        assert(tab_is_active(t));
        assert(active_marker(t) == seq!['●', ' ']);
    }
    if forall|k: int| 0 <= k < t.panes.len() ==> !(#[trigger] t.panes@[k]).is_active {
        assert(!tab_is_active(t));
        assert(active_marker(t) =~= Seq::<char>::empty());
        assert(n.label@.subrange(0, tab_name(t).len() as int) =~= tab_name(t));
    }
}

/// `n` is the tree item of window `w`: a window with one tab of one pane is a
/// leaf `marker window  — pane`; any other is `window  (id)` over its tabs.
pub open spec fn is_window_item(n: TreeNode, w: WezWindow, current: Option<u64>) -> bool {
    &&& n.id == NodeId::Window(w.window_id)
    &&& if w.tabs.len() == 1 && w.tabs@[0].panes.len() == 1 {
        &&& n.label@ == active_marker(w.tabs@[0]) + window_name(w) + seq![' ', ' ', '—', ' '] + pane_label_of(
            w.tabs@[0].panes@[0],
            current,
        )
        &&& n.children.len() == 0
    } else {
        &&& n.label@ == window_name(w) + seq![' ', ' ', '('] + decimal(w.window_id as nat) + seq![')']
        &&& n.children.len() == w.tabs.len()
        &&& forall|j: int| 0 <= j < w.tabs.len() ==> is_tab_item(#[trigger] n.children@[j], w.tabs@[j], current)
    }
}

fn push_dir_label(out: &mut Vec<char>, cwd: &Option<String>)
    ensures
        final(out)@ == old(out)@ + dir_label(*cwd),
{
    match cwd {
        Some(c) => {
            let seg = last_segment_of(c.as_str());
            push_chars(out, &seg);
        },
        None => {
            out.push('~');
            assert(final(out)@ =~= old(out)@ + seq!['~']);
        },
    }
}

fn push_pane_label(out: &mut Vec<char>, p: &WezPane, current: Option<u64>)
    ensures
        final(out)@ == old(out)@ + pane_label_of(*p, current),
{
    let ghost start = out@;
    push_str(out, p.title.as_str());
    out.push(' ');
    out.push('[');
    push_dir_label(out, &p.cwd);
    out.push(']');
    let is_current = match current {
        Some(id) => id == p.pane_id,
        None => false,
    };
    if is_current {
        out.push(' ');
        out.push('*');
    }
    assert(out@ =~= start + pane_label_of(*p, current));
}

/// The label of pane `pane` (see [`pane_label_of`]).
pub fn pane_label(pane: &WezPane, current_pane_id: Option<u64>) -> (r: String)
    ensures
        r@ == pane_label_of(*pane, current_pane_id),
{
    let mut out: Vec<char> = Vec::new();
    push_pane_label(&mut out, pane, current_pane_id);
    string_from_chars(out.as_slice())
}

fn is_active_tab(t: &WezTab) -> (b: bool)
    ensures
        b == tab_is_active(*t),
{
    let mut k: usize = 0;
    while k < t.panes.len()
        invariant
            k <= t.panes@.len(),
            forall|k2: int| 0 <= k2 < k ==> !(#[trigger] t.panes@[k2]).is_active,
        decreases t.panes@.len() - k,
    {
        if t.panes[k].is_active {
            assert((t.panes@[k as int]).is_active);
            return true;
        }
        k = k + 1;
    }
    false
}

fn push_active_marker(out: &mut Vec<char>, t: &WezTab)
    ensures
        final(out)@ == old(out)@ + active_marker(*t),
{
    if is_active_tab(t) {
        out.push('●');
        out.push(' ');
        assert(final(out)@ =~= old(out)@ + active_marker(*t));
    } else {
        assert(old(out)@ + active_marker(*t) =~= old(out)@);
    }
}

fn push_window_name(out: &mut Vec<char>, w: &WezWindow)
    ensures
        final(out)@ == old(out)@ + window_name(*w),
{
    match &w.title {
        Some(s) => push_str(out, s.as_str()),
        None => {
            let ghost start = out@;
            push_str(out, "Window ");
            push_decimal(out, w.window_id);
            proof {
                reveal_strlit("Window ");
            }
            assert(out@ =~= start + window_name(*w));
        },
    }
}

fn push_tab_name(out: &mut Vec<char>, t: &WezTab)
    ensures
        final(out)@ == old(out)@ + tab_name(*t),
{
    match &t.title {
        Some(s) => push_str(out, s.as_str()),
        None => {
            let ghost start = out@;
            push_str(out, "Tab ");
            push_decimal(out, t.tab_id);
            proof {
                reveal_strlit("Tab ");
            }
            assert(out@ =~= start + tab_name(*t));
        },
    }
}

fn tab_item(t: &WezTab, current: Option<u64>) -> (n: TreeNode)
    ensures
        is_tab_item(n, *t, current),
{
    let mut label: Vec<char> = Vec::new();
    push_active_marker(&mut label, t);
    push_tab_name(&mut label, t);
    if t.panes.len() == 1 {
        label.push(' ');
        label.push('—');
        label.push(' ');
        push_pane_label(&mut label, &t.panes[0], current);
        let n = TreeNode { id: NodeId::Tab(t.tab_id), label: string_from_chars(label.as_slice()), children: Vec::new() };
        assert(n.label@ =~= active_marker(*t) + tab_name(*t) + seq![' ', '—', ' '] + pane_label_of(t.panes@[0], current));
        n
    } else {
        let ghost prefix = label@;
        label.push(' ');
        label.push(' ');
        label.push('(');
        push_decimal(&mut label, t.panes.len() as u64);
        push_str(&mut label, " panes)");
        proof {
            reveal_strlit(" panes)");
        }
        let mut children: Vec<TreeNode> = Vec::new();
        let mut k: usize = 0;
        while k < t.panes.len()
            invariant
                k <= t.panes@.len(),
                children@.len() == k,
                forall|k2: int|
                    0 <= k2 < k ==> {
                        &&& (#[trigger] children@[k2]).id == NodeId::Pane(t.panes@[k2].pane_id)
                        &&& children@[k2].label@ == pane_label_of(t.panes@[k2], current)
                        &&& children@[k2].children.len() == 0
                    },
            decreases t.panes@.len() - k,
        {
            let p = &t.panes[k];
            children.push(TreeNode { id: NodeId::Pane(p.pane_id), label: pane_label(p, current), children: Vec::new() });
            k = k + 1;
        }
        let n = TreeNode { id: NodeId::Tab(t.tab_id), label: string_from_chars(label.as_slice()), children };
        assert(n.label@ =~= active_marker(*t) + tab_name(*t) + seq![' ', ' ', '('] + decimal(t.panes.len() as nat)
            + seq![' ', 'p', 'a', 'n', 'e', 's', ')']);
        n
    }
}

/// The tree item of window `window` (see [`is_window_item`]).
pub fn build_window_item(window: &WezWindow, current_pane_id: Option<u64>) -> (n: TreeNode)
    ensures
        is_window_item(n, *window, current_pane_id),
{
    if window.tabs.len() == 1 && window.tabs[0].panes.len() == 1 {
        let t = &window.tabs[0];
        let mut label: Vec<char> = Vec::new();
        push_active_marker(&mut label, t);
        push_window_name(&mut label, window);
        label.push(' ');
        label.push(' ');
        label.push('—');
        label.push(' ');
        push_pane_label(&mut label, &t.panes[0], current_pane_id);
        let n = TreeNode {
            id: NodeId::Window(window.window_id),
            label: string_from_chars(label.as_slice()),
            children: Vec::new(),
        };
        assert(n.label@ =~= active_marker(window.tabs@[0]) + window_name(*window) + seq![' ', ' ', '—', ' ']
            + pane_label_of(window.tabs@[0].panes@[0], current_pane_id));
        return n;
    }
    let mut label: Vec<char> = Vec::new();
    push_window_name(&mut label, window);
    label.push(' ');
    label.push(' ');
    label.push('(');
    push_decimal(&mut label, window.window_id);
    label.push(')');
    let mut children: Vec<TreeNode> = Vec::new();
    let mut j: usize = 0;
    while j < window.tabs.len()
        invariant
            j <= window.tabs@.len(),
            children@.len() == j,
            forall|j2: int| 0 <= j2 < j ==> is_tab_item(#[trigger] children@[j2], window.tabs@[j2], current_pane_id),
        decreases window.tabs@.len() - j,
    {
        children.push(tab_item(&window.tabs[j], current_pane_id));
        j = j + 1;
    }
    let n = TreeNode { id: NodeId::Window(window.window_id), label: string_from_chars(label.as_slice()), children };
    assert(n.label@ =~= window_name(*window) + seq![' ', ' ', '('] + decimal(window.window_id as nat) + seq![')']);
    n
}


/// The windows of `ws` in workspace `name`, in order.
pub open spec fn windows_in(ws: Seq<WezWindow>, name: Seq<char>) -> Seq<WezWindow>
    decreases ws.len(),
{
    if ws.len() == 0 {
        Seq::empty()
    } else if ws.last().workspace@ == name {
        windows_in(ws.drop_last(), name).push(ws.last())
    } else {
        windows_in(ws.drop_last(), name)
    }
}

/// All windows of `ws` share one workspace (or there are none).
pub open spec fn one_workspace(ws: Seq<WezWindow>) -> bool {
    forall|i: int, j: int| 0 <= i < ws.len() && 0 <= j < ws.len() ==> (#[trigger] ws[i]).workspace@ == (#[trigger] ws[j]).workspace@
}

/// The label of a workspace node with `n` windows: `name  (n window[s])`.
pub open spec fn workspace_label(name: Seq<char>, n: nat) -> Seq<char> {
    name + seq![' ', ' ', '('] + decimal(n) + seq![' ', 'w', 'i', 'n', 'd', 'o', 'w'] + (if n == 1 {
        Seq::empty()
    } else {
        seq!['s']
    }) + seq![')']
}

/// `r` is the tree of `ws`: with a single workspace, one item per window; with
/// several, one node per workspace, by name, over the items of its windows.
pub open spec fn is_tree_items(r: Seq<TreeNode>, ws: Seq<WezWindow>, current: Option<u64>) -> bool {
    if one_workspace(ws) {
        &&& r.len() == ws.len()
        &&& forall|i: int| 0 <= i < ws.len() ==> is_window_item(#[trigger] r[i], ws[i], current)
    } else {
        &&& forall|g: int| 0 <= g < r.len() ==> (#[trigger] r[g]).id is Workspace
        &&& forall|g: int, h: int| 0 <= g < h < r.len() ==> lex_lt((#[trigger] r[g]).id->Workspace_0@, (#[trigger] r[h]).id->Workspace_0@)
        &&& forall|i: int| 0 <= i < ws.len() ==> exists|g: int| 0 <= g < r.len() && (#[trigger] r[g]).id->Workspace_0@ == (#[trigger] ws[i]).workspace@
        &&& forall|g: int|
            0 <= g < r.len() ==> {
                let name = (#[trigger] r[g]).id->Workspace_0@;
                let members = windows_in(ws, name);
                &&& members.len() > 0
                &&& r[g].label@ == workspace_label(name, members.len())
                &&& r[g].children.len() == members.len()
                &&& forall|k: int| 0 <= k < members.len() ==> is_window_item(#[trigger] r[g].children@[k], members[k], current)
            }
    }
}

/// The views of a list of names.
pub open spec fn name_views(v: Seq<Vec<char>>) -> Seq<Seq<char>> {
    v.map_values(|n: Vec<char>| n@)
}

pub open spec fn names_sorted(v: Seq<Seq<char>>) -> bool {
    forall|a: int, b: int| 0 <= a < b < v.len() ==> lex_lt(#[trigger] v[a], #[trigger] v[b])
}

fn insert_name(v: &mut Vec<Vec<char>>, k: Vec<char>)
    requires
        names_sorted(name_views(old(v)@)),
    ensures
        names_sorted(name_views(final(v)@)),
        forall|x: Seq<char>| name_views(final(v)@).contains(x) <==> (name_views(old(v)@).contains(x) || x == k@),
{
    let ghost before = name_views(v@);
    let mut i: usize = 0;
    while i < v.len() && chars_lt(&v[i], &k)
        invariant
            i <= v@.len(),
            before == name_views(v@),
            names_sorted(before),
            forall|j: int| 0 <= j < i ==> lex_lt(before[j], k@),
        decreases v@.len() - i,
    {
        i = i + 1;
    }
    if i < v.len() && !chars_lt(&k, &v[i]) {
        proof {
            lemma_lex_total(k@, before[i as int]);
            assert(before[i as int] == k@);
            assert(before.contains(k@));
        }
    } else {
        let ghost kv = k@;
        v.insert(i, k);
        let ghost after = name_views(v@);
        assert(after =~= before.insert(i as int, kv));
        assert forall|a: int, b: int| 0 <= a < b < after.len() implies lex_lt(#[trigger] after[a], #[trigger] after[b]) by {
            if b < i {
            } else if b == i {
            } else if a == i {
                assert(after[b] == before[b - 1]);
                if b - 1 > i {
                    lemma_lex_transitive(kv, before[i as int], before[b - 1]);
                }
            } else if a < i {
                assert(after[a] == before[a] && after[b] == before[b - 1]);
            } else {
                assert(after[a] == before[a - 1] && after[b] == before[b - 1]);
            }
        }
        assert forall|x: Seq<char>| after.contains(x) <==> (before.contains(x) || x == kv) by {
            if after.contains(x) {
                let j = choose|j: int| 0 <= j < after.len() && after[j] == x;
                if j < i {
                    assert(before[j] == x);
                } else if j > i {
                    assert(before[j - 1] == x);
                }
            }
            if before.contains(x) {
                let j = choose|j: int| 0 <= j < before.len() && before[j] == x;
                if j < i {
                    assert(after[j] == x);
                } else {
                    assert(after[j + 1] == x);
                }
            }
            if x == kv {
                assert(after[i as int] == x);
            }
        }
    }
}

proof fn lemma_windows_in_take(ws: Seq<WezWindow>, k: int, name: Seq<char>)
    requires
        0 <= k < ws.len(),
    ensures
        windows_in(ws.take(k + 1), name) == if ws[k].workspace@ == name {
            windows_in(ws.take(k), name).push(ws[k])
        } else {
            windows_in(ws.take(k), name)
        },
{
    assert(ws.take(k + 1).drop_last() =~= ws.take(k));
}

proof fn lemma_windows_in_nonempty(ws: Seq<WezWindow>, name: Seq<char>, i: int)
    requires
        0 <= i < ws.len(),
        ws[i].workspace@ == name,
    ensures
        windows_in(ws, name).len() > 0,
    decreases ws.len(),
{
    if i < ws.len() - 1 {
        lemma_windows_in_nonempty(ws.drop_last(), name, i);
    }
}

/// The items of the window tree view (see [`is_tree_items`]).
pub fn build_tree_items(windows: &[WezWindow], current_pane_id: Option<u64>) -> (r: Vec<TreeNode>)
    ensures
        is_tree_items(r@, windows@, current_pane_id),
{
    let mut names: Vec<Vec<char>> = Vec::new();
    let mut i: usize = 0;
    while i < windows.len()
        invariant
            i <= windows@.len(),
            names_sorted(name_views(names@)),
            forall|x: Seq<char>| name_views(names@).contains(x) <==> exists|j: int| 0 <= j < i && (#[trigger] windows@[j]).workspace@ == x,
        decreases windows@.len() - i,
    {
        insert_name(&mut names, chars_of(windows[i].workspace.as_str()));
        i = i + 1;
        assert forall|x: Seq<char>| name_views(names@).contains(x) <==> exists|j: int| 0 <= j < i && (#[trigger] windows@[j]).workspace@ == x by {
            if x == windows@[i - 1].workspace@ {
                assert(windows@[i - 1].workspace@ == x);
            }
        }
    }
    let ghost nv = name_views(names@);
    let mut out: Vec<TreeNode> = Vec::new();
    if names.len() <= 1 {
        proof {
            assert forall|a: int, b: int| 0 <= a < windows@.len() && 0 <= b < windows@.len() implies (#[trigger] windows@[a]).workspace@ == (#[trigger] windows@[b]).workspace@ by {
                assert(nv.contains(windows@[a].workspace@));
                assert(nv.contains(windows@[b].workspace@));
            }
        }
        let mut k: usize = 0;
        while k < windows.len()
            invariant
                k <= windows@.len(),
                out@.len() == k,
                forall|j: int| 0 <= j < k ==> is_window_item(#[trigger] out@[j], windows@[j], current_pane_id),
            decreases windows@.len() - k,
        {
            out.push(build_window_item(&windows[k], current_pane_id));
            k = k + 1;
        }
        return out;
    }
    proof {
        let a = nv[0];
        let b = nv[1];
        lemma_lex_irreflexive(a);
        assert(nv.contains(a) && nv.contains(b));
        let ia = choose|j: int| 0 <= j < windows@.len() && (#[trigger] windows@[j]).workspace@ == a;
        let ib = choose|j: int| 0 <= j < windows@.len() && (#[trigger] windows@[j]).workspace@ == b;
        assert(windows@[ia].workspace@ != windows@[ib].workspace@);
    }
    let mut g: usize = 0;
    while g < names.len()
        invariant
            g <= names@.len(),
            nv == name_views(names@),
            names_sorted(nv),
            forall|x: Seq<char>| nv.contains(x) <==> exists|j: int| 0 <= j < windows@.len() && (#[trigger] windows@[j]).workspace@ == x,
            out@.len() == g,
            forall|g2: int| 0 <= g2 < g ==> (#[trigger] out@[g2]).id is Workspace && out@[g2].id->Workspace_0@ == nv[g2],
            forall|g2: int|
                0 <= g2 < g ==> {
                    let name = (#[trigger] out@[g2]).id->Workspace_0@;
                    let members = windows_in(windows@, name);
                    &&& members.len() > 0
                    &&& out@[g2].label@ == workspace_label(name, members.len())
                    &&& out@[g2].children.len() == members.len()
                    &&& forall|k: int| 0 <= k < members.len() ==> is_window_item(#[trigger] out@[g2].children@[k], members[k], current_pane_id)
                },
        decreases names@.len() - g,
    {
        let name = &names[g];
        assert(nv[g as int] == name@);
        assert(nv.contains(name@));
        let mut children: Vec<TreeNode> = Vec::new();
        let ghost members = windows_in(windows@, name@);
        let mut k: usize = 0;
        while k < windows.len()
            invariant
                k <= windows@.len(),
                members == windows_in(windows@, name@),
                children@.len() == windows_in(windows@.take(k as int), name@).len(),
                forall|j: int| 0 <= j < children@.len() ==> is_window_item(#[trigger] children@[j], windows_in(windows@.take(k as int), name@)[j], current_pane_id),
            decreases windows@.len() - k,
        {
            proof {
                lemma_windows_in_take(windows@, k as int, name@);
            }
            let wn = chars_of(windows[k].workspace.as_str());
            if !chars_lt(&wn, name) && !chars_lt(name, &wn) {
                proof {
                    lemma_lex_total(wn@, name@);
                }
                children.push(build_window_item(&windows[k], current_pane_id));
            } else {
                proof {
                    lemma_lex_irreflexive(wn@);
                }
            }
            k = k + 1;
        }
        assert(windows@.take(windows@.len() as int) =~= windows@);
        proof {
            let j = choose|j: int| 0 <= j < windows@.len() && (#[trigger] windows@[j]).workspace@ == name@;
            lemma_windows_in_nonempty(windows@, name@, j);
        }
        let n = children.len();
        let mut label: Vec<char> = Vec::new();
        push_chars(&mut label, name);
        label.push(' ');
        label.push(' ');
        label.push('(');
        push_decimal(&mut label, n as u64);
        push_str(&mut label, " window");
        proof {
            reveal_strlit(" window");
        }
        if n != 1 {
            label.push('s');
        }
        label.push(')');
        let node = TreeNode {
            id: NodeId::Workspace(string_from_chars(name.as_slice())),
            label: string_from_chars(label.as_slice()),
            children,
        };
        assert(node.label@ =~= workspace_label(name@, members.len()));
        out.push(node);
        g = g + 1;
    }
    proof {
        assert forall|i: int| 0 <= i < windows@.len() implies exists|g: int| 0 <= g < out@.len() && (#[trigger] out@[g]).id->Workspace_0@ == (#[trigger] windows@[i]).workspace@ by {
            assert(nv.contains(windows@[i].workspace@));
            let g = choose|g: int| 0 <= g < nv.len() && nv[g] == windows@[i].workspace@;
            assert(out@[g].id->Workspace_0@ == nv[g]);
        }
        assert forall|g: int, h: int| 0 <= g < h < out@.len() implies lex_lt((#[trigger] out@[g]).id->Workspace_0@, (#[trigger] out@[h]).id->Workspace_0@) by {
            assert(out@[g].id->Workspace_0@ == nv[g] && out@[h].id->Workspace_0@ == nv[h]);
        }
        if one_workspace(windows@) {
            let a = nv[0];
            let b = nv[1];
            lemma_lex_irreflexive(a);
            assert(nv.contains(a) && nv.contains(b));
            let ia = choose|j: int| 0 <= j < windows@.len() && (#[trigger] windows@[j]).workspace@ == a;
            let ib = choose|j: int| 0 <= j < windows@.len() && (#[trigger] windows@[j]).workspace@ == b;
            assert(windows@[ia].workspace@ == windows@[ib].workspace@);
        }
    }
    out
}


// -- Selection info --

/// `(i, j, k)` names a pane of `ws`.
pub open spec fn pane_at(ws: Seq<WezWindow>, i: int, j: int, k: int) -> bool {
    tab_at(ws, i, j) && 0 <= k < ws[i].tabs@[j].panes.len()
}

/// `(i, j, k)` is the first pane of `ws`, in tree order, with id `id`.
pub open spec fn is_first_pane(ws: Seq<WezWindow>, id: u64, i: int, j: int, k: int) -> bool {
    &&& pane_at(ws, i, j, k)
    &&& ws[i].tabs@[j].panes@[k].pane_id == id
    &&& forall|i2: int, j2: int, k2: int|
        #![trigger ws[i2].tabs@[j2].panes@[k2]]
        pane_at(ws, i2, j2, k2) && (i2 < i || (i2 == i && j2 < j) || (i2 == i && j2 == j && k2 < k))
            ==> ws[i2].tabs@[j2].panes@[k2].pane_id != id
}

/// `i` is the first window of `ws` with id `id`.
pub open spec fn is_first_window(ws: Seq<WezWindow>, id: u64, i: int) -> bool {
    0 <= i < ws.len() && ws[i].window_id == id && forall|i2: int| 0 <= i2 < i ==> (#[trigger] ws[i2]).window_id != id
}

/// A title, or `(unnamed)`.
pub open spec fn or_unnamed(t: Option<String>) -> Seq<char> {
    match t {
        Some(s) => s@,
        None => seq!['(', 'u', 'n', 'n', 'a', 'm', 'e', 'd', ')'],
    }
}

pub open spec fn dash() -> Seq<char> {
    seq![' ', '-', ' ']
}

/// The status line text for the selected node.
pub open spec fn info_ok(ws: Seq<WezWindow>, node: Option<NodeId>, r: Seq<char>) -> bool {
    match node {
        None => r == seq!['N', 'o', ' ', 's', 'e', 'l', 'e', 'c', 't', 'i', 'o', 'n'],
        Some(NodeId::Workspace(name)) => r == seq!['W', 'o', 'r', 'k', 's', 'p', 'a', 'c', 'e', ' '] + name@ + dash()
            + decimal(windows_in(ws, name@).len()) + seq![' ', 'w', 'i', 'n', 'd', 'o', 'w', '(', 's', ')'],
        Some(NodeId::Window(id)) => {
            let head = seq!['W', 'i', 'n', 'd', 'o', 'w', ' '] + decimal(id as nat);
            &&& (forall|i: int| #![trigger ws[i]] is_first_window(ws, id, i) ==> r == head + dash() + or_unnamed(ws[i].title) + dash()
                + decimal(ws[i].tabs.len() as nat) + seq![' ', 't', 'a', 'b', '(', 's', ')'])
            &&& ((forall|i: int| 0 <= i < ws.len() ==> (#[trigger] ws[i]).window_id != id) ==> r == head)
        },
        Some(NodeId::Tab(id)) => {
            let head = seq!['T', 'a', 'b', ' '] + decimal(id as nat);
            &&& (forall|i: int, j: int| #![trigger ws[i].tabs@[j]] is_first_tab(ws, id, i, j) ==> r == head + dash() + or_unnamed(ws[i].tabs@[j].title)
                + dash() + decimal(ws[i].tabs@[j].panes.len() as nat) + seq![' ', 'p', 'a', 'n', 'e', '(', 's', ')'])
            &&& (no_tab(ws, id) ==> r == head)
        },
        Some(NodeId::Pane(id)) => {
            let head = seq!['P', 'a', 'n', 'e', ' '] + decimal(id as nat);
            &&& (forall|i: int, j: int, k: int| #![trigger ws[i].tabs@[j].panes@[k]] is_first_pane(ws, id, i, j, k) ==> r == head + dash()
                + ws[i].tabs@[j].panes@[k].title@ + dash() + match ws[i].tabs@[j].panes@[k].cwd {
                    Some(c) => c@,
                    None => seq!['?'],
                })
            &&& ((forall|i: int, j: int, k: int| #![trigger ws[i].tabs@[j].panes@[k]] pane_at(ws, i, j, k) ==> ws[i].tabs@[j].panes@[k].pane_id != id) ==> r == head)
        },
    }
}

fn push_or_unnamed(out: &mut Vec<char>, t: &Option<String>)
    ensures
        final(out)@ == old(out)@ + or_unnamed(*t),
{
    match t {
        Some(s) => push_str(out, s.as_str()),
        None => {
            push_str(out, "(unnamed)");
            proof {
                reveal_strlit("(unnamed)");
            }
        },
    }
}

fn push_dash(out: &mut Vec<char>)
    ensures
        final(out)@ == old(out)@ + dash(),
{
    out.push(' ');
    out.push('-');
    out.push(' ');
    assert(final(out)@ =~= old(out)@ + dash());
}

/// The status line text for the selected node (see [`info_ok`]).
pub fn selected_info(windows: &[WezWindow], selected: Option<&NodeId>) -> (r: String)
    ensures
        info_ok(windows@, opt_node(selected), r@),
{
    let node = match selected {
        None => {
            let r = String::from_str("No selection");
            proof {
                reveal_strlit("No selection");
            }
            assert(r@ =~= seq!['N', 'o', ' ', 's', 'e', 'l', 'e', 'c', 't', 'i', 'o', 'n']);
            return r;
        },
        Some(n) => n,
    };
    let mut out: Vec<char> = Vec::new();
    match node {
        NodeId::Workspace(name) => {
            let mut count: usize = 0;
            let mut i: usize = 0;
            while i < windows.len()
                invariant
                    i <= windows@.len(),
                    count == windows_in(windows@.take(i as int), name@).len(),
                    count <= i,
                decreases windows@.len() - i,
            {
                proof {
                    lemma_windows_in_take(windows@, i as int, name@);
                }
                if string_eq(&windows[i].workspace, name) {
                    count = count + 1;
                }
                i = i + 1;
            }
            assert(windows@.take(windows@.len() as int) =~= windows@);
            push_str(&mut out, "Workspace ");
            push_str(&mut out, name.as_str());
            push_dash(&mut out);
            push_decimal(&mut out, count as u64);
            push_str(&mut out, " window(s)");
            proof {
                reveal_strlit("Workspace ");
                reveal_strlit(" window(s)");
            }
            assert(out@ =~= seq!['W', 'o', 'r', 'k', 's', 'p', 'a', 'c', 'e', ' '] + name@ + dash()
                + decimal(windows_in(windows@, name@).len()) + seq![' ', 'w', 'i', 'n', 'd', 'o', 'w', '(', 's', ')']);
        },
        NodeId::Window(id) => {
            push_str(&mut out, "Window ");
            push_decimal(&mut out, *id);
            proof {
                reveal_strlit("Window ");
            }
            let ghost head = seq!['W', 'i', 'n', 'd', 'o', 'w', ' '] + decimal(*id as nat);
            assert(out@ =~= head);
            let mut i: usize = 0;
            while i < windows.len() && windows[i].window_id != *id
                invariant
                    i <= windows@.len(),
                    forall|i2: int| 0 <= i2 < i ==> (#[trigger] windows@[i2]).window_id != *id,
                decreases windows@.len() - i,
            {
                i = i + 1;
            }
            if i < windows.len() {
                let w = &windows[i];
                push_dash(&mut out);
                push_or_unnamed(&mut out, &w.title);
                push_dash(&mut out);
                push_decimal(&mut out, w.tabs.len() as u64);
                push_str(&mut out, " tab(s)");
                assert(out@ =~= head + dash() + or_unnamed(w.title) + dash() + decimal(w.tabs@.len() as nat) + seq![' ', 't', 'a', 'b', '(', 's', ')']) by {
                    reveal_strlit(" tab(s)");
                }
                proof {
                    assert forall|i3: int| #![trigger windows@[i3]] is_first_window(windows@, *id, i3) implies i3 == i by {
                        if i3 < i {
                        } else if i3 > i {
                            assert(windows@[i as int].window_id == *id);
                        }
                    }
                }
            }
        },
        NodeId::Tab(id) => {
            push_str(&mut out, "Tab ");
            push_decimal(&mut out, *id);
            proof {
                reveal_strlit("Tab ");
            }
            let ghost head = seq!['T', 'a', 'b', ' '] + decimal(*id as nat);
            assert(out@ =~= head);
            match find_tab(windows, *id) {
                Some(t) => {
                    push_dash(&mut out);
                    push_or_unnamed(&mut out, &t.title);
                    push_dash(&mut out);
                    push_decimal(&mut out, t.panes.len() as u64);
                    push_str(&mut out, " pane(s)");
                    assert(out@ =~= head + dash() + or_unnamed(t.title) + dash() + decimal(t.panes@.len() as nat) + seq![' ', 'p', 'a', 'n', 'e', '(', 's', ')']) by {
                        reveal_strlit(" pane(s)");
                    }
                    proof {
                        let (i, j) = choose|i: int, j: int| is_first_tab(windows@, *id, i, j) && *t == windows@[i].tabs@[j];
                        assert forall|i3: int, j3: int| #![trigger windows@[i3].tabs@[j3]] is_first_tab(windows@, *id, i3, j3) implies i3 == i && j3 == j by {
                            if i3 < i || (i3 == i && j3 < j) {
                            } else if i3 > i || (i3 == i && j3 > j) {
                                assert(windows@[i].tabs@[j].tab_id == *id);
                            }
                        }
                    }
                },
                None => {},
            }
        },
        NodeId::Pane(id) => {
            push_str(&mut out, "Pane ");
            push_decimal(&mut out, *id);
            proof {
                reveal_strlit("Pane ");
            }
            let ghost head = seq!['P', 'a', 'n', 'e', ' '] + decimal(*id as nat);
            assert(out@ =~= head);
            let mut i: usize = 0;
            let mut done = false;
            while !done && i < windows.len()
                invariant
                    i <= windows@.len(),
                    head == seq!['P', 'a', 'n', 'e', ' '] + decimal(*id as nat),
                    opt_node(selected) == Some(NodeId::Pane(*id)),
                    !done ==> out@ == head,
                    done ==> info_ok(windows@, opt_node(selected), out@),
                    !done ==> forall|i2: int, j2: int, k2: int|
                        #![trigger windows@[i2].tabs@[j2].panes@[k2]]
                        pane_at(windows@, i2, j2, k2) && i2 < i ==> windows@[i2].tabs@[j2].panes@[k2].pane_id != *id,
                decreases windows@.len() - i + (if done { 0int } else { 1int }),
            {
                let w = &windows[i];
                let mut j: usize = 0;
                while !done && j < w.tabs.len()
                    invariant
                        i < windows@.len(),
                        *w == windows@[i as int],
                        j <= w.tabs@.len(),
                        head == seq!['P', 'a', 'n', 'e', ' '] + decimal(*id as nat),
                        opt_node(selected) == Some(NodeId::Pane(*id)),
                        !done ==> out@ == head,
                        done ==> info_ok(windows@, opt_node(selected), out@),
                        !done ==> forall|i2: int, j2: int, k2: int|
                            #![trigger windows@[i2].tabs@[j2].panes@[k2]]
                            pane_at(windows@, i2, j2, k2) && (i2 < i || (i2 == i && j2 < j)) ==> windows@[i2].tabs@[j2].panes@[k2].pane_id != *id,
                    decreases w.tabs@.len() - j + (if done { 0int } else { 1int }),
                {
                    let t = &w.tabs[j];
                    let mut k: usize = 0;
                    while k < t.panes.len() && t.panes[k].pane_id != *id
                        invariant
                            j < w.tabs@.len(),
                            *t == w.tabs@[j as int],
                            k <= t.panes@.len(),
                            forall|k2: int| 0 <= k2 < k ==> t.panes@[k2].pane_id != *id,
                        decreases t.panes@.len() - k,
                    {
                        k = k + 1;
                    }
                    if k < t.panes.len() {
                        let p = &t.panes[k];
                        push_dash(&mut out);
                        push_str(&mut out, p.title.as_str());
                        push_dash(&mut out);
                        match &p.cwd {
                            Some(c) => push_str(&mut out, c.as_str()),
                            None => {
                                out.push('?');
                            },
                        }
                        proof {
                            assert(is_first_pane(windows@, *id, i as int, j as int, k as int));
                            assert forall|i3: int, j3: int, k3: int| #![trigger windows@[i3].tabs@[j3].panes@[k3]] is_first_pane(windows@, *id, i3, j3, k3) implies i3 == i && j3 == j && k3 == k by {
                                if i3 < i || (i3 == i && j3 < j) || (i3 == i && j3 == j && k3 < k) {
                                } else if !(i3 == i && j3 == j && k3 == k) {
                                    assert(windows@[i as int].tabs@[j as int].panes@[k as int].pane_id == *id);
                                }
                            }
                            assert(out@ =~= head + dash() + p.title@ + dash() + match p.cwd {
                                Some(c) => c@,
                                None => seq!['?'],
                            });
                            assert(!(forall|i2: int, j2: int, k2: int| #![trigger windows@[i2].tabs@[j2].panes@[k2]] pane_at(windows@, i2, j2, k2) ==> windows@[i2].tabs@[j2].panes@[k2].pane_id != *id));
                        }
                        done = true;
                    } else {
                        j = j + 1;
                    }
                }
                if !done {
                    i = i + 1;
                }
            }
        },
    }
    let r = string_from_chars(out.as_slice());
    r
}


/// The window and tab that hold the first pane, in tree order, with id
/// `pane_id`: where the tree view opens when started from that pane.
pub fn locate_pane(windows: &[WezWindow], pane_id: u64) -> (r: Option<(u64, u64)>)
    ensures
        match r {
            Some((wid, tid)) => exists|i: int, j: int, k: int| #![trigger windows@[i].tabs@[j].panes@[k]]
                is_first_pane(windows@, pane_id, i, j, k) && windows@[i].window_id == wid && windows@[i].tabs@[j].tab_id == tid,
            None => forall|i: int, j: int, k: int| #![trigger windows@[i].tabs@[j].panes@[k]]
                pane_at(windows@, i, j, k) ==> windows@[i].tabs@[j].panes@[k].pane_id != pane_id,
        },
{
    let mut i: usize = 0;
    while i < windows.len()
        invariant
            i <= windows@.len(),
            forall|i2: int, j2: int, k2: int| #![trigger windows@[i2].tabs@[j2].panes@[k2]]
                pane_at(windows@, i2, j2, k2) && i2 < i ==> windows@[i2].tabs@[j2].panes@[k2].pane_id != pane_id,
        decreases windows@.len() - i,
    {
        let w = &windows[i];
        let mut j: usize = 0;
        while j < w.tabs.len()
            invariant
                i < windows@.len(),
                *w == windows@[i as int],
                j <= w.tabs@.len(),
                forall|i2: int, j2: int, k2: int| #![trigger windows@[i2].tabs@[j2].panes@[k2]]
                    pane_at(windows@, i2, j2, k2) && (i2 < i || (i2 == i && j2 < j))
                        ==> windows@[i2].tabs@[j2].panes@[k2].pane_id != pane_id,
            decreases w.tabs@.len() - j,
        {
            let t = &w.tabs[j];
            let mut k: usize = 0;
            while k < t.panes.len()
                invariant
                    i < windows@.len(),
                    *w == windows@[i as int],
                    j < w.tabs@.len(),
                    *t == w.tabs@[j as int],
                    k <= t.panes@.len(),
                    forall|i2: int, j2: int, k2: int| #![trigger windows@[i2].tabs@[j2].panes@[k2]]
                        pane_at(windows@, i2, j2, k2) && (i2 < i || (i2 == i && j2 < j) || (i2 == i && j2 == j && k2 < k))
                            ==> windows@[i2].tabs@[j2].panes@[k2].pane_id != pane_id,
                decreases t.panes@.len() - k,
            {
                if t.panes[k].pane_id == pane_id {
                    proof {
                        assert(is_first_pane(windows@, pane_id, i as int, j as int, k as int));
                    }
                    return Some((w.window_id, t.tab_id));
                }
                k = k + 1;
            }
            j = j + 1;
        }
        i = i + 1;
    }
    None
}

} // verus!
