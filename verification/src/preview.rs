use vstd::prelude::*;

use crate::model::{WezPane, WezTab, WezWindow};
use crate::search::opt_chars;
use vstd::string::*;

use crate::text::{clone_opt_string, push_str, string_from_chars};
use crate::tree::NodeId;

verus! {

/// A tab with its title taken by its characters.
pub struct TabV {
    pub tab_id: u64,
    pub title: Option<Seq<char>>,
    pub panes: Seq<WezPane>,
}

/// A window with its strings taken by their characters.
pub struct WindowV {
    pub window_id: u64,
    pub title: Option<Seq<char>>,
    pub workspace: Seq<char>,
    pub tabs: Seq<TabV>,
}

pub open spec fn opt_seq(o: Option<String>) -> Option<Seq<char>> {
    match o {
        Some(s) => Some(s@),
        None => None,
    }
}

pub open spec fn tab_v(t: WezTab) -> TabV {
    TabV { tab_id: t.tab_id, title: opt_seq(t.title), panes: t.panes@ }
}

pub open spec fn window_v(w: WezWindow) -> WindowV {
    WindowV {
        window_id: w.window_id,
        title: opt_seq(w.title),
        workspace: w.workspace@,
        tabs: w.tabs@.map_values(|t: WezTab| tab_v(t)),
    }
}

pub open spec fn windows_v(ws: Seq<WezWindow>) -> Seq<WindowV> {
    ws.map_values(|w: WezWindow| window_v(w))
}

/// The first index of `s` whose element satisfies `p`, or -1.
pub open spec fn first_idx<T>(s: Seq<T>, p: spec_fn(T) -> bool) -> int {
    if exists|i: int| 0 <= i < s.len() && p(s[i]) && forall|k: int| 0 <= k < i ==> !p(s[k]) {
        choose|i: int| 0 <= i < s.len() && p(s[i]) && forall|k: int| 0 <= k < i ==> !p(s[k])
    } else {
        -1
    }
}

pub proof fn lemma_first_idx<T>(s: Seq<T>, p: spec_fn(T) -> bool, i: int)
    requires
        -1 <= i <= s.len(),
        i < s.len(),
        i >= 0 ==> p(s[i]),
        forall|k: int| 0 <= k < (if i < 0 { s.len() as int } else { i }) ==> !p(s[k]),
    ensures
        first_idx(s, p) == i,
{
    if i >= 0 {
        let j = choose|j: int| 0 <= j < s.len() && p(s[j]) && forall|k: int| 0 <= k < j ==> !p(s[k]);
        if j < i {
            assert(!p(s[j]));
        }
        if j > i {
            assert(!p(s[i]));
        }
    } else {
        if exists|j: int| 0 <= j < s.len() && p(s[j]) && forall|k: int| 0 <= k < j ==> !p(s[k]) {
            let j = choose|j: int| 0 <= j < s.len() && p(s[j]) && forall|k: int| 0 <= k < j ==> !p(s[k]);
            assert(!p(s[j]));
        }
    }
}

/// The windows that still hold a tab, in order.
pub open spec fn nonempty_windows(ws: Seq<WindowV>) -> Seq<WindowV>
    decreases ws.len(),
{
    if ws.len() == 0 {
        ws
    } else if ws.last().tabs.len() > 0 {
        nonempty_windows(ws.drop_last()).push(ws.last())
    } else {
        nonempty_windows(ws.drop_last())
    }
}

/// The tabs that still hold a pane, in order.
pub open spec fn nonempty_tabs(ts: Seq<TabV>) -> Seq<TabV>
    decreases ts.len(),
{
    if ts.len() == 0 {
        ts
    } else if ts.last().panes.len() > 0 {
        nonempty_tabs(ts.drop_last()).push(ts.last())
    } else {
        nonempty_tabs(ts.drop_last())
    }
}

/// `[moving] title`, the title of an item shown where it would be dropped.
pub open spec fn moving_title(t: Seq<char>) -> Seq<char> {
    seq!['[', 'm', 'o', 'v', 'i', 'n', 'g', ']', ' '] + t
}

/// Appends `tab` to the first window with id `target`, if there is one.
pub open spec fn drop_into(ws: Seq<WindowV>, target: u64, tab: TabV) -> Seq<WindowV> {
    let t = first_idx(ws, |w: WindowV| w.window_id == target);
    if t < 0 {
        ws
    } else {
        ws.update(t, WindowV { tabs: ws[t].tabs.push(tab), ..ws[t] })
    }
}

/// The preview of moving tab `tab_id`: taken from the first window that holds
/// it, retitled `[moving] ...` and appended to window `target`.
pub open spec fn preview_tab(ws: Seq<WindowV>, tab_id: u64, target: u64) -> (Seq<WindowV>, Option<u64>) {
    let i = first_idx(ws, |w: WindowV| exists|j: int| 0 <= j < w.tabs.len() && w.tabs[j].tab_id == tab_id);
    if i < 0 {
        (nonempty_windows(ws), None)
    } else {
        let j = first_idx(ws[i].tabs, |t: TabV| t.tab_id == tab_id);
        let tab = ws[i].tabs[j];
        let removed = ws.update(i, WindowV { tabs: ws[i].tabs.remove(j), ..ws[i] });
        let moved = TabV { title: Some(moving_title(opt_chars_v(tab.title))), ..tab };
        (drop_into(removed, target, moved), Some(tab_id))
    }
}

pub open spec fn opt_chars_v(o: Option<Seq<char>>) -> Seq<char> {
    match o {
        Some(s) => s,
        None => Seq::empty(),
    }
}

/// Tab `t` holds pane `pid`.
pub open spec fn tab_has(t: TabV, pid: u64) -> bool {
    exists|k: int| 0 <= k < t.panes.len() && t.panes[k].pane_id == pid
}

/// Window `w` with pane `pid` taken out of the first tab that holds it, and
/// its tabs that are left empty dropped.
pub open spec fn strip_window(w: WindowV, pid: u64) -> WindowV {
    let j = first_idx(w.tabs, |t: TabV| tab_has(t, pid));
    let tabs = if j < 0 {
        w.tabs
    } else {
        let k = first_idx(w.tabs[j].panes, |p: WezPane| p.pane_id == pid);
        w.tabs.update(j, TabV { panes: w.tabs[j].panes.remove(k), ..w.tabs[j] })
    };
    WindowV { tabs: nonempty_tabs(tabs), ..w }
}

/// The pane `pid` as found in window `w`, if there.
pub open spec fn found_in(w: WindowV, pid: u64) -> Option<WezPane> {
    let j = first_idx(w.tabs, |t: TabV| tab_has(t, pid));
    if j < 0 {
        None
    } else {
        Some(w.tabs[j].panes[first_idx(w.tabs[j].panes, |p: WezPane| p.pane_id == pid)])
    }
}

/// The pane `pid` as found in the last window of `ws` that holds it.
pub open spec fn last_found(ws: Seq<WindowV>, pid: u64) -> Option<WezPane>
    decreases ws.len(),
{
    if ws.len() == 0 {
        None
    } else {
        match found_in(ws.last(), pid) {
            Some(p) => Some(p),
            None => last_found(ws.drop_last(), pid),
        }
    }
}

/// The preview of moving pane `pid`: taken out of every window, which drops
/// tabs left empty, and shown in a new tab `[moving] title` in window `target`.
pub open spec fn preview_pane(ws: Seq<WindowV>, pid: u64, target: u64) -> (Seq<WindowV>, Option<u64>) {
    let stripped = ws.map_values(|w: WindowV| strip_window(w, pid));
    match last_found(ws, pid) {
        Some(p) => {
            let ghost_tab = TabV { tab_id: u64::MAX, title: Some(moving_title(p.title@)), panes: seq![p] };
            (drop_into(stripped, target, ghost_tab), Some(u64::MAX))
        },
        None => (nonempty_windows(stripped), None),
    }
}

/// The preview of moving `grabbed` to window `target` (windows and workspaces
/// are not moved: windows left without tabs are dropped).
pub open spec fn move_preview(ws: Seq<WindowV>, grabbed: NodeId, target: u64) -> (Seq<WindowV>, Option<u64>) {
    match grabbed {
        NodeId::Tab(id) => preview_tab(ws, id, target),
        NodeId::Pane(id) => preview_pane(ws, id, target),
        _ => (nonempty_windows(ws), None),
    }
}


// -- What a move preview keeps --

/// How many of the panes `ps` have id `q`.
pub open spec fn panes_count(ps: Seq<WezPane>, q: u64) -> int
    decreases ps.len(),
{
    if ps.len() == 0 {
        0
    } else {
        panes_count(ps.drop_last(), q) + if ps.last().pane_id == q { 1int } else { 0int }
    }
}

/// How many panes with id `q` the tabs `ts` hold.
pub open spec fn tabs_count(ts: Seq<TabV>, q: u64) -> int
    decreases ts.len(),
{
    if ts.len() == 0 {
        0
    } else {
        tabs_count(ts.drop_last(), q) + panes_count(ts.last().panes, q)
    }
}

/// How many panes with id `q` the windows `ws` hold.
pub open spec fn windows_count(ws: Seq<WindowV>, q: u64) -> int
    decreases ws.len(),
{
    if ws.len() == 0 {
        0
    } else {
        windows_count(ws.drop_last(), q) + tabs_count(ws.last().tabs, q)
    }
}

proof fn lemma_has_first<T>(s: Seq<T>, p: spec_fn(T) -> bool, i: int)
    requires
        0 <= i < s.len(),
        p(s[i]),
    ensures
        exists|m: int| 0 <= m < s.len() && p(s[m]) && forall|k: int| 0 <= k < m ==> !p(s[k]),
    decreases i,
{
    if exists|k: int| 0 <= k < i && p(s[k]) {
        let k = choose|k: int| 0 <= k < i && p(s[k]);
        lemma_has_first(s, p, k);
    } else {
        assert(forall|k: int| 0 <= k < i ==> !p(s[k]));
    }
}

proof fn lemma_first_idx_facts<T>(s: Seq<T>, p: spec_fn(T) -> bool)
    ensures
        first_idx(s, p) >= 0 ==> first_idx(s, p) < s.len() && p(s[first_idx(s, p)]),
        first_idx(s, p) < 0 ==> forall|i: int| 0 <= i < s.len() ==> !p(#[trigger] s[i]),
{
    if first_idx(s, p) < 0 {
        assert forall|i: int| 0 <= i < s.len() implies !p(#[trigger] s[i]) by {
            if p(s[i]) {
                lemma_has_first(s, p, i);
            }
        }
    }
}

proof fn lemma_panes_count_nonneg(ps: Seq<WezPane>, q: u64)
    ensures
        panes_count(ps, q) >= 0,
        (exists|k: int| 0 <= k < ps.len() && ps[k].pane_id == q) ==> panes_count(ps, q) >= 1,
        (forall|k: int| 0 <= k < ps.len() ==> ps[k].pane_id != q) ==> panes_count(ps, q) == 0,
    decreases ps.len(),
{
    if ps.len() > 0 {
        lemma_panes_count_nonneg(ps.drop_last(), q);
        if exists|k: int| 0 <= k < ps.len() && ps[k].pane_id == q {
            let k = choose|k: int| 0 <= k < ps.len() && ps[k].pane_id == q;
            if k < ps.len() - 1 {
                assert(ps.drop_last()[k] == ps[k]);
            }
        }
        if forall|k: int| 0 <= k < ps.len() ==> ps[k].pane_id != q {
            assert forall|k: int| 0 <= k < ps.drop_last().len() implies ps.drop_last()[k].pane_id != q by {
                assert(ps.drop_last()[k] == ps[k]);
            }
        }
    }
}

proof fn lemma_panes_count_remove(ps: Seq<WezPane>, k: int, q: u64)
    requires
        0 <= k < ps.len(),
    ensures
        panes_count(ps.remove(k), q) == panes_count(ps, q) - if ps[k].pane_id == q { 1int } else { 0int },
    decreases ps.len(),
{
    if k == ps.len() - 1 {
        assert(ps.remove(k) =~= ps.drop_last());
    } else {
        lemma_panes_count_remove(ps.drop_last(), k, q);
        assert(ps.remove(k).drop_last() =~= ps.drop_last().remove(k));
        assert(ps.remove(k).last() == ps.last());
    }
}

proof fn lemma_tabs_count_nonneg(ts: Seq<TabV>, q: u64)
    ensures
        tabs_count(ts, q) >= 0,
        (forall|j: int| 0 <= j < ts.len() ==> !tab_has(#[trigger] ts[j], q)) ==> tabs_count(ts, q) == 0,
        (exists|j: int| 0 <= j < ts.len() && tab_has(#[trigger] ts[j], q)) ==> tabs_count(ts, q) >= 1,
    decreases ts.len(),
{
    if ts.len() > 0 {
        lemma_tabs_count_nonneg(ts.drop_last(), q);
        lemma_panes_count_nonneg(ts.last().panes, q);
        if forall|j: int| 0 <= j < ts.len() ==> !tab_has(#[trigger] ts[j], q) {
            assert(!tab_has(ts[ts.len() - 1], q));
            assert forall|j: int| 0 <= j < ts.drop_last().len() implies !tab_has(#[trigger] ts.drop_last()[j], q) by {
                assert(ts.drop_last()[j] == ts[j]);
            }
        }
        if exists|j: int| 0 <= j < ts.len() && tab_has(#[trigger] ts[j], q) {
            let j = choose|j: int| 0 <= j < ts.len() && tab_has(#[trigger] ts[j], q);
            if j < ts.len() - 1 {
                assert(ts.drop_last()[j] == ts[j]);
                assert(tab_has(ts.drop_last()[j], q));
            }
        }
    }
}

proof fn lemma_tabs_count_update(ts: Seq<TabV>, j: int, t: TabV, q: u64)
    requires
        0 <= j < ts.len(),
    ensures
        tabs_count(ts.update(j, t), q) == tabs_count(ts, q) - panes_count(ts[j].panes, q) + panes_count(t.panes, q),
    decreases ts.len(),
{
    if j == ts.len() - 1 {
        assert(ts.update(j, t).drop_last() =~= ts.drop_last());
    } else {
        lemma_tabs_count_update(ts.drop_last(), j, t, q);
        assert(ts.update(j, t).drop_last() =~= ts.drop_last().update(j, t));
    }
}

proof fn lemma_tabs_count_nonempty(ts: Seq<TabV>, q: u64)
    ensures
        tabs_count(nonempty_tabs(ts), q) == tabs_count(ts, q),
    decreases ts.len(),
{
    if ts.len() > 0 {
        lemma_tabs_count_nonempty(ts.drop_last(), q);
        if ts.last().panes.len() > 0 {
            let n = nonempty_tabs(ts.drop_last()).push(ts.last());
            assert(n.drop_last() =~= nonempty_tabs(ts.drop_last()));
        } else {
            assert(panes_count(ts.last().panes, q) == 0);
        }
    }
}

/// Taking a pane out of a window keeps every other pane: the window holds
/// as many panes with each other id as before, and one pane fewer with the
/// grabbed id where it held it.
pub proof fn lemma_strip_keeps_other_panes(w: WindowV, pid: u64, q: u64)
    ensures
        tabs_count(strip_window(w, pid).tabs, q) == tabs_count(w.tabs, q) - if q == pid && tabs_count(w.tabs, pid) > 0 {
            1int
        } else {
            0int
        },
{
    let tp = |t: TabV| tab_has(t, pid);
    let j = first_idx(w.tabs, tp);
    lemma_first_idx_facts(w.tabs, tp);
    lemma_tabs_count_nonneg(w.tabs, pid);
    if j < 0 {
        assert forall|j2: int| 0 <= j2 < w.tabs.len() implies !tab_has(#[trigger] w.tabs[j2], pid) by {
            assert(!tp(w.tabs[j2]));
        }
        lemma_tabs_count_nonempty(w.tabs, q);
    } else {
        let pp = |p: WezPane| p.pane_id == pid;
        let ps = w.tabs[j].panes;
        lemma_first_idx_facts(ps, pp);
        assert(tab_has(w.tabs[j], pid));
        let k = first_idx(ps, pp);
        if k < 0 {
            let k2 = choose|k2: int| 0 <= k2 < ps.len() && ps[k2].pane_id == pid;
            assert(!pp(ps[k2]));
        }
        let t2 = TabV { panes: ps.remove(k), ..w.tabs[j] };
        lemma_panes_count_remove(ps, k, q);
        lemma_tabs_count_update(w.tabs, j, t2, q);
        lemma_tabs_count_nonempty(w.tabs.update(j, t2), q);
        assert(tab_has(w.tabs[j], pid));
        assert(exists|j3: int| 0 <= j3 < w.tabs.len() && tab_has(#[trigger] w.tabs[j3], pid));
    }
}

/// How many of the windows `ws` hold a pane with id `q`.
pub open spec fn windows_holding(ws: Seq<WindowV>, q: u64) -> int
    decreases ws.len(),
{
    if ws.len() == 0 {
        0
    } else {
        windows_holding(ws.drop_last(), q) + if tabs_count(ws.last().tabs, q) > 0 { 1int } else { 0int }
    }
}

proof fn lemma_windows_holding(ws: Seq<WindowV>, q: u64)
    ensures
        0 <= windows_holding(ws, q) <= windows_count(ws, q),
        windows_count(ws, q) > 0 ==> windows_holding(ws, q) > 0,
    decreases ws.len(),
{
    if ws.len() > 0 {
        lemma_windows_holding(ws.drop_last(), q);
        lemma_tabs_count_nonneg(ws.last().tabs, q);
    }
}

proof fn lemma_strip_all(ws: Seq<WindowV>, pid: u64, q: u64)
    ensures
        windows_count(ws.map_values(|w: WindowV| strip_window(w, pid)), q) == windows_count(ws, q) - if q == pid {
            windows_holding(ws, pid)
        } else {
            0int
        },
    decreases ws.len(),
{
    if ws.len() > 0 {
        let m = ws.map_values(|w: WindowV| strip_window(w, pid));
        lemma_strip_all(ws.drop_last(), pid, q);
        assert(m.drop_last() =~= ws.drop_last().map_values(|w: WindowV| strip_window(w, pid)));
        lemma_strip_keeps_other_panes(ws.last(), pid, q);
    }
}

proof fn lemma_nonempty_windows_count(ws: Seq<WindowV>, q: u64)
    ensures
        windows_count(nonempty_windows(ws), q) == windows_count(ws, q),
    decreases ws.len(),
{
    if ws.len() > 0 {
        lemma_nonempty_windows_count(ws.drop_last(), q);
        if ws.last().tabs.len() > 0 {
            assert(nonempty_windows(ws.drop_last()).push(ws.last()).drop_last() =~= nonempty_windows(ws.drop_last()));
        } else {
            assert(tabs_count(ws.last().tabs, q) == 0);
        }
    }
}

proof fn lemma_windows_count_update(ws: Seq<WindowV>, i: int, w: WindowV, q: u64)
    requires
        0 <= i < ws.len(),
    ensures
        windows_count(ws.update(i, w), q) == windows_count(ws, q) - tabs_count(ws[i].tabs, q) + tabs_count(w.tabs, q),
    decreases ws.len(),
{
    if i == ws.len() - 1 {
        assert(ws.update(i, w).drop_last() =~= ws.drop_last());
    } else {
        lemma_windows_count_update(ws.drop_last(), i, w, q);
        assert(ws.update(i, w).drop_last() =~= ws.drop_last().update(i, w));
    }
}

proof fn lemma_drop_into_count(ws: Seq<WindowV>, target: u64, tab: TabV, q: u64)
    ensures
        windows_count(drop_into(ws, target, tab), q) == windows_count(ws, q) + if exists|i: int|
            0 <= i < ws.len() && (#[trigger] ws[i]).window_id == target {
            panes_count(tab.panes, q)
        } else {
            0int
        },
{
    let wp = |w: WindowV| w.window_id == target;
    lemma_first_idx_facts(ws, wp);
    let t = first_idx(ws, wp);
    if t >= 0 {
        let ts = ws[t].tabs;
        assert(ts.push(tab).drop_last() =~= ts);
        lemma_windows_count_update(ws, t, WindowV { tabs: ts.push(tab), ..ws[t] }, q);
        assert(wp(ws[t]));
    } else {
        if exists|i: int| 0 <= i < ws.len() && (#[trigger] ws[i]).window_id == target {
            let i = choose|i: int| 0 <= i < ws.len() && (#[trigger] ws[i]).window_id == target;
            assert(!wp(ws[i]));
        }
    }
}

proof fn lemma_found_in(w: WindowV, pid: u64)
    ensures
        found_in(w, pid) matches Some(p) ==> p.pane_id == pid,
        found_in(w, pid) is None <==> tabs_count(w.tabs, pid) == 0,
{
    let tp = |t: TabV| tab_has(t, pid);
    lemma_first_idx_facts(w.tabs, tp);
    lemma_tabs_count_nonneg(w.tabs, pid);
    let j = first_idx(w.tabs, tp);
    if j >= 0 {
        let pp = |p: WezPane| p.pane_id == pid;
        lemma_first_idx_facts(w.tabs[j].panes, pp);
        assert(tab_has(w.tabs[j], pid));
        let k = first_idx(w.tabs[j].panes, pp);
        if k < 0 {
            let k2 = choose|k2: int| 0 <= k2 < w.tabs[j].panes.len() && w.tabs[j].panes[k2].pane_id == pid;
            assert(!pp(w.tabs[j].panes[k2]));
        }
    } else {
        assert forall|j2: int| 0 <= j2 < w.tabs.len() implies !tab_has(#[trigger] w.tabs[j2], pid) by {
            assert(!tp(w.tabs[j2]));
        }
    }
}

proof fn lemma_last_found(ws: Seq<WindowV>, pid: u64)
    ensures
        last_found(ws, pid) matches Some(p) ==> p.pane_id == pid,
        windows_count(ws, pid) > 0 ==> last_found(ws, pid) is Some,
    decreases ws.len(),
{
    if ws.len() > 0 {
        lemma_last_found(ws.drop_last(), pid);
        lemma_found_in(ws.last(), pid);
        lemma_tabs_count_nonneg(ws.last().tabs, pid);
        lemma_windows_holding(ws.drop_last(), pid);
    }
}

/// Previewing a pane move loses no other pane and makes no copy: the
/// preview holds exactly as many panes with each other id as the windows
/// did, and a pane that was there once (moved to a window that exists) is
/// there once, in the tab that stands for the move.
pub proof fn lemma_pane_move_keeps_panes(ws: Seq<WindowV>, pid: u64, target: u64, q: u64)
    ensures
        q != pid ==> windows_count(move_preview(ws, NodeId::Pane(pid), target).0, q) == windows_count(ws, q),
        windows_count(ws, pid) == 1 && (exists|i: int| 0 <= i < ws.len() && (#[trigger] ws[i]).window_id == target)
            ==> windows_count(move_preview(ws, NodeId::Pane(pid), target).0, pid) == 1,
{
    let stripped = ws.map_values(|w: WindowV| strip_window(w, pid));
    lemma_strip_all(ws, pid, q);
    lemma_strip_all(ws, pid, pid);
    lemma_windows_holding(ws, pid);
    lemma_last_found(ws, pid);
    lemma_nonempty_windows_count(stripped, q);
    match last_found(ws, pid) {
        Some(p) => {
            let ghost_tab = TabV { tab_id: u64::MAX, title: Some(moving_title(p.title@)), panes: seq![p] };
            lemma_drop_into_count(stripped, target, ghost_tab, q);
            lemma_drop_into_count(stripped, target, ghost_tab, pid);
            assert(seq![p].drop_last() =~= Seq::<WezPane>::empty());
            assert(panes_count(Seq::<WezPane>::empty(), q) == 0);
            assert(panes_count(Seq::<WezPane>::empty(), pid) == 0);
            assert(seq![p].last() == p);
            assert(panes_count(seq![p], q) == if p.pane_id == q { 1int } else { 0int });
            assert(panes_count(seq![p], pid) == 1);
            if exists|i: int| 0 <= i < ws.len() && (#[trigger] ws[i]).window_id == target {
                let i = choose|i: int| 0 <= i < ws.len() && (#[trigger] ws[i]).window_id == target;
                assert(stripped[i].window_id == target);
            }
            if exists|i: int| 0 <= i < stripped.len() && (#[trigger] stripped[i]).window_id == target {
                let i = choose|i: int| 0 <= i < stripped.len() && (#[trigger] stripped[i]).window_id == target;
                assert(ws[i].window_id == target);
            }
        },
        None => {},
    }
}

proof fn lemma_tabs_count_remove(ts: Seq<TabV>, j: int, q: u64)
    requires
        0 <= j < ts.len(),
    ensures
        tabs_count(ts.remove(j), q) == tabs_count(ts, q) - panes_count(ts[j].panes, q),
    decreases ts.len(),
{
    if j == ts.len() - 1 {
        assert(ts.remove(j) =~= ts.drop_last());
    } else {
        lemma_tabs_count_remove(ts.drop_last(), j, q);
        assert(ts.remove(j).drop_last() =~= ts.drop_last().remove(j));
        assert(ts.remove(j).last() == ts.last());
    }
}

/// Previewing a tab move loses and copies no pane: when the target window
/// exists, the preview holds exactly as many panes with each id as the
/// windows did (the moved tab keeps all its panes).
pub proof fn lemma_tab_move_keeps_panes(ws: Seq<WindowV>, tab_id: u64, target: u64, q: u64)
    requires
        exists|i: int| 0 <= i < ws.len() && (#[trigger] ws[i]).window_id == target,
    ensures
        windows_count(move_preview(ws, NodeId::Tab(tab_id), target).0, q) == windows_count(ws, q),
{
    let wp = |w: WindowV| exists|j: int| 0 <= j < w.tabs.len() && w.tabs[j].tab_id == tab_id;
    lemma_first_idx_facts(ws, wp);
    let i = first_idx(ws, wp);
    if i < 0 {
        lemma_nonempty_windows_count(ws, q);
    } else {
        let tp = |t: TabV| t.tab_id == tab_id;
        lemma_first_idx_facts(ws[i].tabs, tp);
        let j = first_idx(ws[i].tabs, tp);
        if j < 0 {
            assert(wp(ws[i]));
            let j2 = choose|j2: int| 0 <= j2 < ws[i].tabs.len() && ws[i].tabs[j2].tab_id == tab_id;
            assert(!tp(ws[i].tabs[j2]));
        }
        let tab = ws[i].tabs[j];
        let removed = ws.update(i, WindowV { tabs: ws[i].tabs.remove(j), ..ws[i] });
        let moved = TabV { title: Some(moving_title(opt_chars_v(tab.title))), ..tab };
        lemma_tabs_count_remove(ws[i].tabs, j, q);
        lemma_windows_count_update(ws, i, WindowV { tabs: ws[i].tabs.remove(j), ..ws[i] }, q);
        lemma_drop_into_count(removed, target, moved, q);
        let k = choose|k: int| 0 <= k < ws.len() && (#[trigger] ws[k]).window_id == target;
        assert(removed[k].window_id == target);
    }
}

pub open spec fn tabs_v(ts: Seq<WezTab>) -> Seq<TabV> {
    ts.map_values(|t: WezTab| tab_v(t))
}

fn copy_pane(p: &WezPane) -> (r: WezPane)
    ensures
        r == *p,
{
    WezPane {
        pane_id: p.pane_id,
        title: p.title.clone(),
        cwd: clone_opt_string(&p.cwd),
        is_active: p.is_active,
        left: p.left,
        top: p.top,
        width: p.width,
        height: p.height,
    }
}

/// A copy of `ps[from..to]`, leaving out index `skip`.
fn copy_panes_except(ps: &Vec<WezPane>, skip: usize) -> (r: Vec<WezPane>)
    ensures
        skip < ps@.len() ==> r@ == ps@.remove(skip as int),
        skip >= ps@.len() ==> r@ == ps@,
{
    let mut r: Vec<WezPane> = Vec::new();
    let mut k: usize = 0;
    while k < ps.len()
        invariant
            k <= ps@.len(),
            r@ == if skip < k { ps@.take(k as int).remove(skip as int) } else { ps@.take(k as int) },
        decreases ps@.len() - k,
    {
        if k != skip {
            r.push(copy_pane(&ps[k]));
        }
        k = k + 1;
        assert(r@ =~= if skip < k { ps@.take(k as int).remove(skip as int) } else { ps@.take(k as int) });
    }
    assert(ps@.take(ps@.len() as int) =~= ps@);
    r
}

fn copy_tab(t: &WezTab) -> (r: WezTab)
    ensures
        tab_v(r) == tab_v(*t),
{
    let panes = copy_panes_except(&t.panes, t.panes.len());
    WezTab { tab_id: t.tab_id, title: clone_opt_string(&t.title), panes }
}

/// A copy of the tabs `ts`, leaving out index `skip`.
fn copy_tabs_except(ts: &Vec<WezTab>, skip: usize) -> (r: Vec<WezTab>)
    ensures
        skip < ts@.len() ==> tabs_v(r@) == tabs_v(ts@).remove(skip as int),
        skip >= ts@.len() ==> tabs_v(r@) == tabs_v(ts@),
{
    let mut r: Vec<WezTab> = Vec::new();
    let mut k: usize = 0;
    while k < ts.len()
        invariant
            k <= ts@.len(),
            tabs_v(r@) == if skip < k { tabs_v(ts@).take(k as int).remove(skip as int) } else { tabs_v(ts@).take(k as int) },
        decreases ts@.len() - k,
    {
        if k != skip {
            let c = copy_tab(&ts[k]);
            let ghost before = r@;
            r.push(c);
            assert(tabs_v(r@) =~= tabs_v(before).push(tab_v(ts@[k as int])));
        }
        k = k + 1;
        assert(tabs_v(r@) =~= if skip < k { tabs_v(ts@).take(k as int).remove(skip as int) } else { tabs_v(ts@).take(k as int) });
    }
    assert(tabs_v(ts@).take(ts@.len() as int) =~= tabs_v(ts@));
    r
}

fn copy_window(w: &WezWindow) -> (r: WezWindow)
    ensures
        window_v(r) == window_v(*w),
{
    let tabs = copy_tabs_except(&w.tabs, w.tabs.len());
    let r = WezWindow { window_id: w.window_id, title: clone_opt_string(&w.title), workspace: w.workspace.clone(), tabs };
    assert(window_v(r).tabs =~= window_v(*w).tabs);
    r
}

/// The windows of `ws` that still hold a tab, in order.
fn keep_nonempty(ws: Vec<WezWindow>) -> (r: Vec<WezWindow>)
    ensures
        windows_v(r@) == nonempty_windows(windows_v(ws@)),
{
    let mut r: Vec<WezWindow> = Vec::new();
    let mut k: usize = 0;
    while k < ws.len()
        invariant
            k <= ws@.len(),
            windows_v(r@) == nonempty_windows(windows_v(ws@).take(k as int)),
        decreases ws@.len() - k,
    {
        assert(windows_v(ws@).take(k + 1).drop_last() =~= windows_v(ws@).take(k as int));
        if ws[k].tabs.len() > 0 {
            let c = copy_window(&ws[k]);
            let ghost before = r@;
            r.push(c);
            assert(windows_v(r@) =~= windows_v(before).push(window_v(ws@[k as int])));
        }
        k = k + 1;
    }
    assert(windows_v(ws@).take(ws@.len() as int) =~= windows_v(ws@));
    r
}

/// The tabs of `ts` that still hold a pane, in order.
fn keep_nonempty_tabs(ts: Vec<WezTab>) -> (r: Vec<WezTab>)
    ensures
        tabs_v(r@) == nonempty_tabs(tabs_v(ts@)),
{
    let mut r: Vec<WezTab> = Vec::new();
    let mut k: usize = 0;
    while k < ts.len()
        invariant
            k <= ts@.len(),
            tabs_v(r@) == nonempty_tabs(tabs_v(ts@).take(k as int)),
        decreases ts@.len() - k,
    {
        assert(tabs_v(ts@).take(k + 1).drop_last() =~= tabs_v(ts@).take(k as int));
        if ts[k].panes.len() > 0 {
            let c = copy_tab(&ts[k]);
            let ghost before = r@;
            r.push(c);
            assert(tabs_v(r@) =~= tabs_v(before).push(tab_v(ts@[k as int])));
        }
        k = k + 1;
    }
    assert(tabs_v(ts@).take(ts@.len() as int) =~= tabs_v(ts@));
    r
}

/// Appends `tab` to the first window with id `target`, if there is one.
fn drop_tab_into(ws: Vec<WezWindow>, target: u64, tab: WezTab) -> (r: Vec<WezWindow>)
    ensures
        windows_v(r@) == drop_into(windows_v(ws@), target, tab_v(tab)),
{
    let ghost wv = windows_v(ws@);
    let ghost tv = tab_v(tab);
    let mut t: usize = 0;
    while t < ws.len() && ws[t].window_id != target
        invariant
            t <= ws@.len(),
            forall|k: int| 0 <= k < t ==> ws@[k].window_id != target,
        decreases ws@.len() - t,
    {
        t = t + 1;
    }
    proof {
        lemma_first_idx(wv, |w: WindowV| w.window_id == target, if t < ws@.len() { t as int } else { -1 });
    }
    let mut held: Option<WezTab> = Some(tab);
    let mut r: Vec<WezWindow> = Vec::new();
    let mut k: usize = 0;
    while k < ws.len()
        invariant
            k <= ws@.len(),
            t <= ws@.len(),
            wv == windows_v(ws@),
            r@.len() == k,
            k <= t ==> held is Some && tab_v(held.unwrap()) == tv,
            forall|m: int|
                0 <= m < k ==> window_v(#[trigger] r@[m]) == if m == t {
                    WindowV { tabs: wv[m].tabs.push(tv), ..wv[m] }
                } else {
                    wv[m]
                },
        decreases ws@.len() - k,
    {
        let w = &ws[k];
        if k == t {
            let mut tabs = copy_tabs_except(&w.tabs, w.tabs.len());
            let moved = held.take().unwrap();
            let ghost before = tabs@;
            tabs.push(moved);
            assert(tabs_v(tabs@) =~= tabs_v(before).push(tv));
            let nw = WezWindow { window_id: w.window_id, title: clone_opt_string(&w.title), workspace: w.workspace.clone(), tabs };
            assert(window_v(nw).tabs =~= wv[k as int].tabs.push(tv));
            r.push(nw);
        } else {
            r.push(copy_window(w));
        }
        k = k + 1;
    }
    let ghost expected = drop_into(wv, target, tv);
    assert(windows_v(r@) =~= expected);
    r
}


/// `[moving] ` followed by `t`.
fn moving_label(t: &Option<String>) -> (r: String)
    ensures
        r@ == moving_title(opt_chars(*t)),
{
    let mut out: Vec<char> = Vec::new();
    push_str(&mut out, "[moving] ");
    match t {
        Some(s) => push_str(&mut out, s.as_str()),
        None => {},
    }
    proof {
        reveal_strlit("[moving] ");
    }
    let r = string_from_chars(out.as_slice());
    assert(r@ =~= moving_title(opt_chars(*t)));
    r
}

fn preview_of_tab(windows: &[WezWindow], tab_id: u64, target: u64) -> (r: (Vec<WezWindow>, Option<u64>))
    ensures
        (windows_v(r.0@), r.1) == preview_tab(windows_v(windows@), tab_id, target),
{
    let ghost wv = windows_v(windows@);
    let ghost holds_tab = |w: WindowV| exists|j: int| 0 <= j < w.tabs.len() && w.tabs[j].tab_id == tab_id;
    let mut i: usize = 0;
    let mut j: usize = 0;
    let mut found = false;
    while !found && i < windows.len()
        invariant
            i <= windows@.len(),
            wv == windows_v(windows@),
            found ==> i < windows@.len() && j < windows@[i as int].tabs@.len() && wv[i as int].tabs[j as int].tab_id == tab_id
                && forall|m: int| 0 <= m < j ==> wv[i as int].tabs[m].tab_id != tab_id,
            forall|m: int| 0 <= m < i ==> !holds_tab(wv[m]),
            holds_tab == |w: WindowV| exists|j: int| 0 <= j < w.tabs.len() && w.tabs[j].tab_id == tab_id,
        decreases windows@.len() - i + (if found { 0int } else { 1int }),
    {
        let w = &windows[i];
        assert(wv[i as int] == window_v(*w));
        j = 0;
        while j < w.tabs.len() && w.tabs[j].tab_id != tab_id
            invariant
                i < windows@.len(),
                *w == windows@[i as int],
                wv[i as int] == window_v(*w),
                j <= w.tabs@.len(),
                forall|m: int| 0 <= m < j ==> wv[i as int].tabs[m].tab_id != tab_id,
            decreases w.tabs@.len() - j,
        {
            assert(wv[i as int].tabs[j as int] == tab_v(w.tabs@[j as int]));
            j = j + 1;
        }
        if j < w.tabs.len() {
            assert(wv[i as int].tabs[j as int] == tab_v(w.tabs@[j as int]));
            found = true;
        } else {
            assert(wv[i as int].tabs.len() == w.tabs@.len());
            assert(!holds_tab(wv[i as int])) by {
                if exists|m: int| 0 <= m < wv[i as int].tabs.len() && wv[i as int].tabs[m].tab_id == tab_id {
                    let m = choose|m: int| 0 <= m < wv[i as int].tabs.len() && wv[i as int].tabs[m].tab_id == tab_id;
                    assert(wv[i as int].tabs[m].tab_id != tab_id);
                }
            }
            i = i + 1;
        }
    }
    if !found {
        proof {
            lemma_first_idx(wv, holds_tab, -1);
        }
        let mut copies: Vec<WezWindow> = Vec::new();
        let mut k: usize = 0;
        while k < windows.len()
            invariant
                k <= windows@.len(),
                wv == windows_v(windows@),
                windows_v(copies@) == wv.take(k as int),
            decreases windows@.len() - k,
        {
            let c = copy_window(&windows[k]);
            let ghost before = copies@;
            copies.push(c);
            k = k + 1;
            assert(windows_v(copies@) =~= windows_v(before).push(wv[k - 1]));
            assert(wv.take(k as int) =~= wv.take(k - 1).push(wv[k - 1]));
            assert(windows_v(copies@) =~= wv.take(k as int));
        }
        assert(wv.take(windows@.len() as int) =~= wv);
        return (keep_nonempty(copies), None);
    }
    proof {
        lemma_first_idx(wv, holds_tab, i as int);
        lemma_first_idx(wv[i as int].tabs, |t: TabV| t.tab_id == tab_id, j as int);
    }
    let src = &windows[i];
    let mut moved = copy_tab(&src.tabs[j]);
    moved.title = Some(moving_label(&src.tabs[j].title));
    let mut removed: Vec<WezWindow> = Vec::new();
    let mut k: usize = 0;
    while k < windows.len()
        invariant
            k <= windows@.len(),
            i < windows@.len(),
            j < windows@[i as int].tabs@.len(),
            wv == windows_v(windows@),
            windows_v(removed@) == wv.update(i as int, WindowV { tabs: wv[i as int].tabs.remove(j as int), ..wv[i as int] }).take(k as int),
        decreases windows@.len() - k,
    {
        let w = &windows[k];
        let c = if k == i {
            let tabs = copy_tabs_except(&w.tabs, j);
            let nw = WezWindow { window_id: w.window_id, title: clone_opt_string(&w.title), workspace: w.workspace.clone(), tabs };
            assert(window_v(nw).tabs =~= wv[i as int].tabs.remove(j as int));
            nw
        } else {
            copy_window(w)
        };
        let ghost before = removed@;
        let ghost cv = window_v(c);
        removed.push(c);
        k = k + 1;
        assert(windows_v(removed@) =~= windows_v(before).push(cv));
        assert(windows_v(removed@) =~= wv.update(i as int, WindowV { tabs: wv[i as int].tabs.remove(j as int), ..wv[i as int] }).take(k as int));
    }
    let ghost upd = wv.update(i as int, WindowV { tabs: wv[i as int].tabs.remove(j as int), ..wv[i as int] });
    assert(upd.take(windows@.len() as int) =~= upd);
    assert(tab_v(moved) == TabV { title: Some(moving_title(opt_chars_v(wv[i as int].tabs[j as int].title))), ..wv[i as int].tabs[j as int] });
    let r = drop_tab_into(removed, target, moved);
    (r, Some(tab_id))
}


/// Window `w` with pane `pid` taken out (see [`strip_window`]), and the pane.
fn strip(w: &WezWindow, pid: u64) -> (r: (WezWindow, Option<WezPane>))
    ensures
        window_v(r.0) == strip_window(window_v(*w), pid),
        r.1 == found_in(window_v(*w), pid),
{
    let ghost wv = window_v(*w);
    let ghost tv = wv.tabs;
    let ghost in_tab = |t: TabV| tab_has(t, pid);
    let mut j: usize = 0;
    let mut k: usize = 0;
    let mut found = false;
    while !found && j < w.tabs.len()
        invariant
            j <= w.tabs@.len(),
            tv == tabs_v(w.tabs@),
            in_tab == |t: TabV| tab_has(t, pid),
            found ==> j < w.tabs@.len() && k < w.tabs@[j as int].panes@.len() && w.tabs@[j as int].panes@[k as int].pane_id == pid
                && forall|m: int| 0 <= m < k ==> w.tabs@[j as int].panes@[m].pane_id != pid,
            forall|m: int| 0 <= m < j ==> !in_tab(tv[m]),
        decreases w.tabs@.len() - j + (if found { 0int } else { 1int }),
    {
        let t = &w.tabs[j];
        k = 0;
        while k < t.panes.len() && t.panes[k].pane_id != pid
            invariant
                j < w.tabs@.len(),
                *t == w.tabs@[j as int],
                k <= t.panes@.len(),
                forall|m: int| 0 <= m < k ==> t.panes@[m].pane_id != pid,
            decreases t.panes@.len() - k,
        {
            k = k + 1;
        }
        if k < t.panes.len() {
            found = true;
        } else {
            assert(tv[j as int] == tab_v(*t));
            assert(!in_tab(tv[j as int])) by {
                if exists|m: int| 0 <= m < tv[j as int].panes.len() && tv[j as int].panes[m].pane_id == pid {
                    let m = choose|m: int| 0 <= m < tv[j as int].panes.len() && tv[j as int].panes[m].pane_id == pid;
                    assert(t.panes@[m].pane_id != pid);
                }
            }
            j = j + 1;
        }
    }
    if !found {
        proof {
            lemma_first_idx(tv, in_tab, -1);
        }
        let tabs = copy_tabs_except(&w.tabs, w.tabs.len());
        let tabs = keep_nonempty_tabs(tabs);
        let r = WezWindow { window_id: w.window_id, title: clone_opt_string(&w.title), workspace: w.workspace.clone(), tabs };
        return (r, None);
    }
    proof {
        assert(tv[j as int] == tab_v(w.tabs@[j as int]));
        assert(in_tab(tv[j as int]));
        lemma_first_idx(tv, in_tab, j as int);
        lemma_first_idx(tv[j as int].panes, |p: WezPane| p.pane_id == pid, k as int);
    }
    let pane = copy_pane(&w.tabs[j].panes[k]);
    let mut tabs: Vec<WezTab> = Vec::new();
    let mut m: usize = 0;
    let ghost upd = tv.update(j as int, TabV { panes: tv[j as int].panes.remove(k as int), ..tv[j as int] });
    while m < w.tabs.len()
        invariant
            m <= w.tabs@.len(),
            j < w.tabs@.len(),
            k < w.tabs@[j as int].panes@.len(),
            tv == tabs_v(w.tabs@),
            upd == tv.update(j as int, TabV { panes: tv[j as int].panes.remove(k as int), ..tv[j as int] }),
            tabs_v(tabs@) == upd.take(m as int),
        decreases w.tabs@.len() - m,
    {
        let t = &w.tabs[m];
        let c = if m == j {
            let panes = copy_panes_except(&t.panes, k);
            WezTab { tab_id: t.tab_id, title: clone_opt_string(&t.title), panes }
        } else {
            copy_tab(t)
        };
        let ghost before = tabs@;
        let ghost cv = tab_v(c);
        tabs.push(c);
        m = m + 1;
        assert(tabs_v(tabs@) =~= tabs_v(before).push(cv));
        assert(upd.take(m as int) =~= upd.take(m - 1).push(upd[m - 1]));
    }
    assert(upd.take(w.tabs@.len() as int) =~= upd);
    let tabs = keep_nonempty_tabs(tabs);
    let r = WezWindow { window_id: w.window_id, title: clone_opt_string(&w.title), workspace: w.workspace.clone(), tabs };
    (r, Some(pane))
}

fn preview_of_pane(windows: &[WezWindow], pid: u64, target: u64) -> (r: (Vec<WezWindow>, Option<u64>))
    ensures
        (windows_v(r.0@), r.1) == preview_pane(windows_v(windows@), pid, target),
{
    let ghost wv = windows_v(windows@);
    let mut stripped: Vec<WezWindow> = Vec::new();
    let mut grabbed: Option<WezPane> = None;
    let mut k: usize = 0;
    while k < windows.len()
        invariant
            k <= windows@.len(),
            wv == windows_v(windows@),
            windows_v(stripped@) == wv.take(k as int).map_values(|w: WindowV| strip_window(w, pid)),
            grabbed == last_found(wv.take(k as int), pid),
        decreases windows@.len() - k,
    {
        let (sw, found) = strip(&windows[k], pid);
        let ghost before = stripped@;
        let ghost swv = window_v(sw);
        assert(wv[k as int] == window_v(windows@[k as int]));
        stripped.push(sw);
        assert(windows_v(stripped@) =~= windows_v(before).push(swv));
        match found {
            Some(p) => {
                grabbed = Some(p);
            },
            None => {},
        }
        k = k + 1;
        assert(wv.take(k as int).drop_last() =~= wv.take(k - 1));
        assert(windows_v(stripped@) =~= wv.take(k as int).map_values(|w: WindowV| strip_window(w, pid)));
    }
    assert(wv.take(windows@.len() as int) =~= wv);
    match grabbed {
        Some(p) => {
            let title = moving_label(&Some(p.title.clone()));
            let mut panes: Vec<WezPane> = Vec::new();
            panes.push(p);
            let ghost_tab = WezTab { tab_id: u64::MAX, title: Some(title), panes };
            assert(tab_v(ghost_tab).panes =~= seq![p]);
            (drop_tab_into(stripped, target, ghost_tab), Some(u64::MAX))
        },
        None => (keep_nonempty(stripped), None),
    }
}

/// The windows as they would look with `grabbed` moved to window
/// `target_window_id` (see [`move_preview`]), and the id of the tab that
/// stands for the moved item, to be highlighted.
pub fn build_move_preview(windows: &[WezWindow], grabbed: &NodeId, target_window_id: u64) -> (r: (Vec<WezWindow>, Option<u64>))
    ensures
        (windows_v(r.0@), r.1) == move_preview(windows_v(windows@), *grabbed, target_window_id),
{
    match grabbed {
        NodeId::Tab(id) => preview_of_tab(windows, *id, target_window_id),
        NodeId::Pane(id) => preview_of_pane(windows, *id, target_window_id),
        _ => {
            let mut copies: Vec<WezWindow> = Vec::new();
            let ghost wv = windows_v(windows@);
            let mut k: usize = 0;
            while k < windows.len()
                invariant
                    k <= windows@.len(),
                    wv == windows_v(windows@),
                    windows_v(copies@) == wv.take(k as int),
                decreases windows@.len() - k,
            {
                let c = copy_window(&windows[k]);
                let ghost before = copies@;
                copies.push(c);
                k = k + 1;
                assert(windows_v(copies@) =~= windows_v(before).push(wv[k - 1]));
                assert(wv.take(k as int) =~= wv.take(k - 1).push(wv[k - 1]));
            }
            assert(wv.take(windows@.len() as int) =~= wv);
            (keep_nonempty(copies), None)
        },
    }
}

} // verus!
