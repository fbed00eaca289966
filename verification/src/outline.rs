use vstd::prelude::*;

use crate::model::{WezTab, WezWindow};
use crate::tree::{NodeId, TreeNode, build_window_item, is_tab_item, is_window_item};

verus! {

// -- Connectors of the flattened tree --

/// After row `i`, a row of depth `t` comes before any row shallower than `t`.
pub open spec fn more_at(depths: Seq<usize>, i: int, t: int) -> bool {
    exists|j: int|
        #![trigger depths[j]]
        i < j < depths.len() && depths[j] == t && forall|m: int| i < m < j ==> depths[m] > t
}

/// The connector drawn in column `d` of row `i`, of depth `depth`.
pub open spec fn connector(depths: Seq<usize>, i: int, d: int, depth: int) -> Seq<char> {
    if d == depth - 1 {
        if more_at(depths, i, depth) { seq!['├', '─'] } else { seq!['└', '─'] }
    } else {
        if more_at(depths, i, d) { seq!['│', ' '] } else { seq![' ', ' '] }
    }
}

/// The connectors of the first `n` columns of row `i`.
pub open spec fn connectors(depths: Seq<usize>, i: int, n: int) -> Seq<char>
    decreases n,
{
    if n <= 0 {
        Seq::empty()
    } else {
        connectors(depths, i, n - 1) + connector(depths, i, n - 1, depths[i] as int)
    }
}

/// Whether, after row `current_idx`, a row of depth `target_depth` comes
/// before any shallower row.
pub fn has_more_siblings_at_depth(depths: &[usize], current_idx: usize, target_depth: usize) -> (b: bool)
    ensures
        b == more_at(depths@, current_idx as int, target_depth as int),
{
    if current_idx >= depths.len() {
        return false;
    }
    let mut j: usize = current_idx + 1;
    while j < depths.len()
        invariant
            current_idx < j <= depths@.len(),
            forall|m: int| current_idx < m < j ==> depths@[m] > target_depth,
        decreases depths@.len() - j,
    {
        let d = depths[j];
        if d <= target_depth {
            proof {
                if d != target_depth {
                    assert forall|j2: int| #![trigger depths@[j2]] current_idx < j2 < depths@.len() && depths@[j2] == target_depth
                        implies !(forall|m: int| current_idx < m < j2 ==> depths@[m] > target_depth) by {
                        if j2 > j {
                            assert(depths@[j as int] <= target_depth);
                        }
                    }
                }
            }
            return d == target_depth;
        }
        j = j + 1;
    }
    false
}

/// The tree connectors in front of row `i` of the flattened tree, whose rows
/// have the given depths: in the row's last column `├─` or `└─`, as a later
/// row of the row's own depth follows before any shallower one or not, and in
/// each column `d` before it `│ ` or blanks, as a later row of depth `d`
/// follows before any shallower one or not.
pub fn connector_prefix(depths: &[usize], i: usize) -> (r: String)
    requires
        i < depths@.len(),
    ensures
        r@ == connectors(depths@, i as int, depths@[i as int] as int),
{
    let depth = depths[i];
    let mut out: Vec<char> = Vec::new();
    let mut d: usize = 0;
    while d < depth
        invariant
            i < depths@.len(),
            depth == depths@[i as int],
            d <= depth,
            out@ == connectors(depths@, i as int, d as int),
        decreases depth - d,
    {
        if d == depth - 1 {
            if has_more_siblings_at_depth(depths, i, depth) {
                out.push('├');
            } else {
                out.push('└');
            }
            out.push('─');
        } else {
            if has_more_siblings_at_depth(depths, i, d) {
                out.push('│');
            } else {
                out.push(' ');
            }
            out.push(' ');
        }
        d = d + 1;
    }
    crate::text::string_from_chars(out.as_slice())
}

// -- Labels by path --

/// A label map entry, by its path and text.
pub open spec fn entry_view(e: (Vec<NodeId>, String)) -> (Seq<NodeId>, Seq<char>) {
    (e.0@, e.1@)
}

/// The label entries of tab `t` of window `w`: the tab's own, then, for a
/// tab of several panes, one per pane.
pub open spec fn tab_entries(w: WezWindow, t: WezTab, n: TreeNode) -> Seq<(Seq<NodeId>, Seq<char>)> {
    let wid = NodeId::Window(w.window_id);
    let tid = NodeId::Tab(t.tab_id);
    seq![(seq![wid, tid], n.label@)] + Seq::new(
        n.children.len() as nat,
        |k: int| (seq![wid, tid, NodeId::Pane(t.panes@[k].pane_id)], n.children@[k].label@),
    )
}

/// The label entries of the first `j` tabs of window `w`, whose item is `n`.
pub open spec fn tabs_entries(w: WezWindow, n: TreeNode, j: int) -> Seq<(Seq<NodeId>, Seq<char>)>
    decreases j,
{
    if j <= 0 {
        Seq::empty()
    } else {
        tabs_entries(w, n, j - 1) + tab_entries(w, w.tabs@[j - 1], n.children@[j - 1])
    }
}

/// The label entries of window `w`, whose tree item is `n`: the window's
/// own, then those of its tabs unless the window shows as a single leaf.
pub open spec fn window_entries(w: WezWindow, n: TreeNode) -> Seq<(Seq<NodeId>, Seq<char>)> {
    seq![(seq![NodeId::Window(w.window_id)], n.label@)] + tabs_entries(w, n, n.children.len() as int)
}

/// The label entries of the first `i` windows, given their tree items.
pub open spec fn windows_entries(ws: Seq<WezWindow>, items: Seq<TreeNode>, i: int) -> Seq<(Seq<NodeId>, Seq<char>)>
    decreases i,
{
    if i <= 0 {
        Seq::empty()
    } else {
        windows_entries(ws, items, i - 1) + window_entries(ws[i - 1], items[i - 1])
    }
}

/// `entries` are the labels of the tree rows by path, window by window in
/// tree order, with the same labels as the tree items of the windows.
pub open spec fn is_label_map(entries: Seq<(Seq<NodeId>, Seq<char>)>, ws: Seq<WezWindow>, current: Option<u64>) -> bool {
    exists|items: Seq<TreeNode>|
        #![trigger windows_entries(ws, items, ws.len() as int)]
        items.len() == ws.len() && (forall|i: int| 0 <= i < ws.len() ==> is_window_item(#[trigger] items[i], ws[i], current))
            && entries == windows_entries(ws, items, ws.len() as int)
}

/// The label of each row of the window tree by its path of ids (window,
/// tab, pane), the same labels as [`build_window_item`] gives.
pub fn build_label_map(windows: &[WezWindow], current_pane_id: Option<u64>) -> (r: Vec<(Vec<NodeId>, String)>)
    ensures
        is_label_map(r@.map_values(|e: (Vec<NodeId>, String)| entry_view(e)), windows@, current_pane_id),
{
    let mut out: Vec<(Vec<NodeId>, String)> = Vec::new();
    let ghost mut items: Seq<TreeNode> = Seq::empty();
    let mut i: usize = 0;
    while i < windows.len()
        invariant
            i <= windows@.len(),
            items.len() == i,
            forall|i2: int| 0 <= i2 < i ==> is_window_item(#[trigger] items[i2], windows@[i2], current_pane_id),
            out@.map_values(|e: (Vec<NodeId>, String)| entry_view(e)) == windows_entries(windows@, items, i as int),
        decreases windows@.len() - i,
    {
        let w = &windows[i];
        let item = build_window_item(w, current_pane_id);
        let ghost before = out@.map_values(|e: (Vec<NodeId>, String)| entry_view(e));
        let mut wpath: Vec<NodeId> = Vec::new();
        wpath.push(NodeId::Window(w.window_id));
        out.push((wpath, item.label.clone()));
        proof {
            assert(out@.map_values(|e: (Vec<NodeId>, String)| entry_view(e)) =~= before + seq![
                (seq![NodeId::Window(w.window_id)], item.label@),
            ]);
            assert(tabs_entries(*w, item, 0) =~= Seq::empty());
        }
        let mut j: usize = 0;
        while j < item.children.len()
            invariant
                i < windows@.len(),
                *w == windows@[i as int],
                is_window_item(item, *w, current_pane_id),
                j <= item.children@.len(),
                out@.map_values(|e: (Vec<NodeId>, String)| entry_view(e)) == before + seq![
                    (seq![NodeId::Window(w.window_id)], item.label@),
                ] + tabs_entries(*w, item, j as int),
            decreases item.children@.len() - j,
        {
            let tnode = &item.children[j];
            let t = &w.tabs[j];
            assert(is_tab_item(*tnode, *t, current_pane_id));
            assert(tnode.children@.len() <= t.panes@.len());
            let ghost mid = out@.map_values(|e: (Vec<NodeId>, String)| entry_view(e));
            let mut tpath: Vec<NodeId> = Vec::new();
            tpath.push(NodeId::Window(w.window_id));
            tpath.push(NodeId::Tab(t.tab_id));
            assert(tpath@ =~= seq![NodeId::Window(w.window_id), NodeId::Tab(t.tab_id)]);
            out.push((tpath, tnode.label.clone()));
            proof {
                assert(out@.map_values(|e: (Vec<NodeId>, String)| entry_view(e)) =~= mid + seq![
                    (seq![NodeId::Window(w.window_id), NodeId::Tab(t.tab_id)], tnode.label@),
                ]);
            }
            let mut k: usize = 0;
            while k < tnode.children.len()
                invariant
                    i < windows@.len(),
                    *w == windows@[i as int],
                    j < item.children@.len(),
                    *tnode == item.children@[j as int],
                    j < w.tabs@.len(),
                    *t == w.tabs@[j as int],
                    is_tab_item(*tnode, *t, current_pane_id),
                    tnode.children@.len() <= t.panes@.len(),
                    k <= tnode.children@.len(),
                    out@.map_values(|e: (Vec<NodeId>, String)| entry_view(e)) == mid + seq![
                        (seq![NodeId::Window(w.window_id), NodeId::Tab(t.tab_id)], tnode.label@),
                    ] + Seq::new(
                        k as nat,
                        |k2: int|
                            (
                                seq![NodeId::Window(w.window_id), NodeId::Tab(t.tab_id), NodeId::Pane(t.panes@[k2].pane_id)],
                                tnode.children@[k2].label@,
                            ),
                    ),
                decreases tnode.children@.len() - k,
            {
                let ghost inner = out@.map_values(|e: (Vec<NodeId>, String)| entry_view(e));
                let mut ppath: Vec<NodeId> = Vec::new();
                ppath.push(NodeId::Window(w.window_id));
                ppath.push(NodeId::Tab(t.tab_id));
                ppath.push(NodeId::Pane(t.panes[k].pane_id));
                assert(ppath@ =~= seq![NodeId::Window(w.window_id), NodeId::Tab(t.tab_id), NodeId::Pane(t.panes@[k as int].pane_id)]);
                out.push((ppath, tnode.children[k].label.clone()));
                proof {
                    assert(out@.map_values(|e: (Vec<NodeId>, String)| entry_view(e)) =~= inner.push(
                        (ppath@, tnode.children@[k as int].label@),
                    ));
                    assert(Seq::new(
                        (k + 1) as nat,
                        |k2: int|
                            (
                                seq![NodeId::Window(w.window_id), NodeId::Tab(t.tab_id), NodeId::Pane(t.panes@[k2].pane_id)],
                                tnode.children@[k2].label@,
                            ),
                    ) =~= Seq::new(
                        k as nat,
                        |k2: int|
                            (
                                seq![NodeId::Window(w.window_id), NodeId::Tab(t.tab_id), NodeId::Pane(t.panes@[k2].pane_id)],
                                tnode.children@[k2].label@,
                            ),
                    ).push((ppath@, tnode.children@[k as int].label@)));
                }
                k = k + 1;
                proof {
                    assert(out@.map_values(|e: (Vec<NodeId>, String)| entry_view(e)) =~= mid + seq![
                        (seq![NodeId::Window(w.window_id), NodeId::Tab(t.tab_id)], tnode.label@),
                    ] + Seq::new(
                        k as nat,
                        |k2: int|
                            (
                                seq![NodeId::Window(w.window_id), NodeId::Tab(t.tab_id), NodeId::Pane(t.panes@[k2].pane_id)],
                                tnode.children@[k2].label@,
                            ),
                    ));
                }
            }
            j = j + 1;
            proof {
                assert(tabs_entries(*w, item, j as int) =~= tabs_entries(*w, item, j - 1) + tab_entries(*w, *t, *tnode));
                assert(out@.map_values(|e: (Vec<NodeId>, String)| entry_view(e)) =~= before + seq![
                    (seq![NodeId::Window(w.window_id)], item.label@),
                ] + tabs_entries(*w, item, j as int));
            }
        }
        proof {
            let items2 = items.push(item);
            assert(windows_entries(windows@, items2, i as int) == windows_entries(windows@, items, i as int)) by {
                lemma_windows_entries_prefix(windows@, items, items2, i as int);
            }
            assert(window_entries(*w, item) =~= seq![(seq![NodeId::Window(w.window_id)], item.label@)] + tabs_entries(*w, item, item.children.len() as int));
            assert(out@.map_values(|e: (Vec<NodeId>, String)| entry_view(e)) =~= windows_entries(windows@, items2, (i + 1) as int));
            items = items2;
        }
        i = i + 1;
    }
    proof {
        assert(windows_entries(windows@, items, windows@.len() as int) == out@.map_values(
            |e: (Vec<NodeId>, String)| entry_view(e),
        ));
    }
    out
}

proof fn lemma_windows_entries_prefix(ws: Seq<WezWindow>, a: Seq<TreeNode>, b: Seq<TreeNode>, i: int)
    requires
        0 <= i <= a.len(),
        i <= b.len(),
        forall|k: int| 0 <= k < i ==> a[k] == b[k],
    ensures
        windows_entries(ws, a, i) == windows_entries(ws, b, i),
    decreases i,
{
    if i > 0 {
        lemma_windows_entries_prefix(ws, a, b, i - 1);
    }
}

} // verus!
