use vstd::prelude::*;

use std::collections::BTreeSet;
use vstd::laws_cmp::obeys_cmp;
use vstd::std_specs::cmp::OrdSpec;
use vstd::std_specs::iter::IteratorSpec;

use vstd::string::*;

use crate::text::clone_opt_string;

verus! {

broadcast use vstd::std_specs::btree::group_btree_axioms, vstd::laws_cmp::group_laws_cmp;

/// One pane as `wezterm cli list --format json` reports it.
#[derive(Debug, Clone, PartialEq)]
pub struct PaneInfo {
    pub window_id: u64,
    pub tab_id: u64,
    pub tab_title: Option<String>,
    pub window_title: Option<String>,
    pub pane_id: u64,
    pub workspace: Option<String>,
    pub title: String,
    pub cwd: Option<String>,
    pub is_active: bool,
    pub left: u64,
    pub top: u64,
    pub width: u64,
    pub height: u64,
}

/// A WezTerm window with its tabs.
#[derive(Debug, Clone, PartialEq)]
pub struct WezWindow {
    pub window_id: u64,
    pub title: Option<String>,
    pub workspace: String,
    pub tabs: Vec<WezTab>,
}

/// A tab with its panes.
#[derive(Debug, Clone, PartialEq)]
pub struct WezTab {
    pub tab_id: u64,
    pub title: Option<String>,
    pub panes: Vec<WezPane>,
}

/// A pane with its geometry in terminal cells.
#[derive(Debug, Clone, PartialEq)]
pub struct WezPane {
    pub pane_id: u64,
    pub title: String,
    pub cwd: Option<String>,
    pub is_active: bool,
    pub left: u64,
    pub top: u64,
    pub width: u64,
    pub height: u64,
}

/// The pane that a reported pane becomes in the tree.
pub open spec fn pane_of(p: PaneInfo) -> WezPane {
    WezPane {
        pane_id: p.pane_id,
        title: p.title,
        cwd: p.cwd,
        is_active: p.is_active,
        left: p.left,
        top: p.top,
        width: p.width,
        height: p.height,
    }
}

/// The reported panes of window `w` and tab `t`, in the order reported.
pub open spec fn infos_in(ps: Seq<PaneInfo>, w: u64, t: u64) -> Seq<PaneInfo>
    decreases ps.len(),
{
    if ps.len() == 0 {
        Seq::empty()
    } else {
        let r = infos_in(ps.drop_last(), w, t);
        if ps.last().window_id == w && ps.last().tab_id == t {
            r.push(ps.last())
        } else {
            r
        }
    }
}

/// A title, dropped when it is empty.
pub open spec fn nonempty_title(t: Option<String>) -> Option<String> {
    match t {
        Some(s) => if s@.len() > 0 { Some(s) } else { None },
        None => None,
    }
}

/// The workspace a window belongs to: the reported one, or `default`.
pub open spec fn workspace_name(ws: Option<String>) -> Seq<char> {
    match ws {
        Some(s) => s@,
        None => seq!['d', 'e', 'f', 'a', 'u', 'l', 't'],
    }
}

/// `t` is the tab `t.tab_id` of window `wid` as the reported panes give it.
pub open spec fn tab_of(ps: Seq<PaneInfo>, wid: u64, t: WezTab) -> bool {
    let infos = infos_in(ps, wid, t.tab_id);
    &&& infos.len() > 0
    &&& t.panes@ == infos.map_values(|p: PaneInfo| pane_of(p))
    &&& t.title == nonempty_title(infos[0].tab_title)
}

/// `w` is the window `w.window_id` as the reported panes give it.
pub open spec fn window_of(ps: Seq<PaneInfo>, w: WezWindow) -> bool {
    &&& w.tabs.len() > 0
    &&& forall|a: int, b: int|
        0 <= a < b < w.tabs.len() ==> #[trigger] w.tabs@[a].tab_id < #[trigger] w.tabs@[b].tab_id
    &&& forall|k: int|
        0 <= k < ps.len() && #[trigger] ps[k].window_id == w.window_id ==> exists|a: int|
            0 <= a < w.tabs.len() && #[trigger] w.tabs@[a].tab_id == ps[k].tab_id
    &&& forall|a: int| 0 <= a < w.tabs.len() ==> tab_of(ps, w.window_id, #[trigger] w.tabs@[a])
    &&& w.title == nonempty_title(infos_in(ps, w.window_id, w.tabs@[0].tab_id)[0].window_title)
    &&& w.workspace@ == workspace_name(infos_in(ps, w.window_id, w.tabs@[0].tab_id)[0].workspace)
}

/// `ws` is the tree of the reported panes `ps`: one window per window id, in
/// ascending order, each with one tab per tab id, in ascending order, each
/// with its panes in the order reported.
pub open spec fn is_tree_of(ps: Seq<PaneInfo>, ws: Seq<WezWindow>) -> bool {
    &&& forall|i: int, j: int|
        0 <= i < j < ws.len() ==> #[trigger] ws[i].window_id < #[trigger] ws[j].window_id
    &&& forall|k: int|
        #![trigger ps[k]]
        0 <= k < ps.len() ==> exists|i: int|
            #![trigger ws[i]]
            0 <= i < ws.len() && ws[i].window_id == ps[k].window_id
    &&& forall|i: int| 0 <= i < ws.len() ==> window_of(ps, #[trigger] ws[i])
}

pub open spec fn strictly_sorted(v: Seq<u64>) -> bool {
    forall|i: int, j: int| 0 <= i < j < v.len() ==> #[trigger] v[i] < #[trigger] v[j]
}

proof fn lemma_infos_in_take(ps: Seq<PaneInfo>, k: int, w: u64, t: u64)
    requires
        0 <= k < ps.len(),
    ensures
        infos_in(ps.take(k + 1), w, t) == if ps[k].window_id == w && ps[k].tab_id == t {
            infos_in(ps.take(k), w, t).push(ps[k])
        } else {
            infos_in(ps.take(k), w, t)
        },
{
    assert(ps.take(k + 1).drop_last() =~= ps.take(k));
    assert(ps.take(k + 1).last() == ps[k]);
}

proof fn lemma_infos_in_contains(ps: Seq<PaneInfo>, w: u64, t: u64, k: int)
    requires
        0 <= k < ps.len(),
        ps[k].window_id == w,
        ps[k].tab_id == t,
    ensures
        infos_in(ps, w, t).len() > 0,
    decreases ps.len(),
{
    if k < ps.len() - 1 {
        lemma_infos_in_contains(ps.drop_last(), w, t, k);
    }
}

fn copy_pane(p: &PaneInfo) -> (r: WezPane)
    ensures
        r == pane_of(*p),
{
    WezPane {
        pane_id: p.pane_id,
        title: p.title.clone(),
        cwd: clone_opt_string(&p.cwd),
        is_active: p.is_active,
        left: p.left,
        top: p.top,
        width: p.width,
        height: p.height,
    }
}

/// The panes of window `w`, tab `t`, in the order reported, and the index of
/// the first of them.
fn collect_tab(panes: &[PaneInfo], w: u64, t: u64) -> (r: (Vec<WezPane>, usize))
    ensures
        r.0@ == infos_in(panes@, w, t).map_values(|p: PaneInfo| pane_of(p)),
        infos_in(panes@, w, t).len() > 0 ==> r.1 < panes@.len() && panes@[r.1 as int]
            == infos_in(panes@, w, t)[0],
{
    let mut out: Vec<WezPane> = Vec::new();
    let mut first: usize = 0;
    let mut k: usize = 0;
    while k < panes.len()
        invariant
            k <= panes@.len(),
            out@ == infos_in(panes@.take(k as int), w, t).map_values(|p: PaneInfo| pane_of(p)),
            infos_in(panes@.take(k as int), w, t).len() > 0 ==> first < k && panes@[first as int]
                == infos_in(panes@.take(k as int), w, t)[0],
        decreases panes@.len() - k,
    {
        proof {
            lemma_infos_in_take(panes@, k as int, w, t);
        }
        if panes[k].window_id == w && panes[k].tab_id == t {
            if out.len() == 0 {
                first = k;
            }
            out.push(copy_pane(&panes[k]));
        }
        k = k + 1;
        assert(out@ =~= infos_in(panes@.take(k as int), w, t).map_values(|p: PaneInfo| pane_of(p)));
    }
    assert(panes@.take(panes@.len() as int) =~= panes@);
    (out, first)
}

/// The ids in `s`, ascending.
fn ascending(s: &BTreeSet<u64>) -> (r: Vec<u64>)
    ensures
        strictly_sorted(r@),
        forall|x: u64| r@.contains(x) <==> s@.contains(x),
{
    let ghost keys = IteratorSpec::remaining(&s.iter()).unref();
    let mut r: Vec<u64> = Vec::new();
    for x in it: s.iter()
        invariant
            it.seq().unref() == keys,
            r@.len() == it.index(),
            it.index() <= keys.len(),
            forall|i: int| 0 <= i < it.index() ==> r@[i] == keys[i],
    {
        r.push(*x);
    }
    assert(r@.len() == keys.len());
    assert(r@ =~= keys);
    proof {
        let rem = IteratorSpec::remaining(&s.iter());
        assert(obeys_cmp::<u64>());
        assert(obeys_cmp::<&u64>());
        assert(vstd::std_specs::btree::increasing_seq(rem));
        vstd::std_specs::btree::axiom_increasing_seq_meaning::<&u64>(rem);
        assert(rem.unref() == keys);
        assert(rem.len() == keys.len());
        assert forall|i: int, j: int| 0 <= i < j < r@.len() implies #[trigger] r@[i] < #[trigger] r@[j] by {
            assert(*rem[i] == keys[i] && *rem[j] == keys[j]);
            assert(OrdSpec::cmp_spec(&rem[i], &rem[j]) is Less);
        }
    }
    r
}

/// The window ids of `panes`, ascending and without repeats.
fn window_ids(panes: &[PaneInfo]) -> (r: Vec<u64>)
    ensures
        strictly_sorted(r@),
        forall|x: u64|
            r@.contains(x) <==> exists|k: int| 0 <= k < panes@.len() && panes@[k].window_id == x,
{
    let mut ids: BTreeSet<u64> = BTreeSet::new();
    let mut k: usize = 0;
    while k < panes.len()
        invariant
            k <= panes@.len(),
            forall|x: u64| ids@.contains(x) <==> exists|j: int| 0 <= j < k && panes@[j].window_id == x,
        decreases panes@.len() - k,
    {
        ids.insert(panes[k].window_id);
        k = k + 1;
        assert forall|x: u64| ids@.contains(x) <==> exists|j: int| 0 <= j < k && panes@[j].window_id == x by {
            if x == panes@[k - 1].window_id {
                assert(panes@[k - 1].window_id == x);
            }
        }
    }
    ascending(&ids)
}

/// The tab ids of the panes of window `w`, ascending and without repeats.
fn tab_ids(panes: &[PaneInfo], w: u64) -> (r: Vec<u64>)
    ensures
        strictly_sorted(r@),
        forall|x: u64|
            r@.contains(x) <==> exists|k: int|
                0 <= k < panes@.len() && panes@[k].window_id == w && panes@[k].tab_id == x,
{
    let mut ids: BTreeSet<u64> = BTreeSet::new();
    let mut k: usize = 0;
    while k < panes.len()
        invariant
            k <= panes@.len(),
            forall|x: u64|
                ids@.contains(x) <==> exists|j: int|
                    0 <= j < k && panes@[j].window_id == w && panes@[j].tab_id == x,
        decreases panes@.len() - k,
    {
        if panes[k].window_id == w {
            ids.insert(panes[k].tab_id);
        }
        k = k + 1;
        assert forall|x: u64|
            ids@.contains(x) <==> exists|j: int|
                0 <= j < k && panes@[j].window_id == w && panes@[j].tab_id == x by {
            if panes@[k - 1].window_id == w && x == panes@[k - 1].tab_id {
                assert(panes@[k - 1].tab_id == x);
            }
        }
    }
    ascending(&ids)
}

fn nonempty_opt(o: &Option<String>) -> (r: Option<String>)
    ensures
        r == nonempty_title(*o),
{
    match o {
        Some(s) => {
            if s.as_str().is_empty() {
                None
            } else {
                Some(s.clone())
            }
        },
        None => None,
    }
}

fn workspace_of(o: &Option<String>) -> (r: String)
    ensures
        r@ == workspace_name(*o),
{
    match o {
        Some(s) => s.clone(),
        None => {
            let r = String::from_str("default");
            proof {
                reveal_strlit("default");
            }
            assert(r@ =~= seq!['d', 'e', 'f', 'a', 'u', 'l', 't']);
            r
        },
    }
}

/// Builds the window/tab/pane tree from the flat pane list that
/// `wezterm cli list` reports: windows by ascending id, their tabs by ascending
/// id, each tab's panes in the order reported. A window's title and workspace
/// come from the first pane of its first tab, a tab's title from its first
/// pane; empty titles become `None`.
pub fn build_tree(panes: &[PaneInfo]) -> (r: Vec<WezWindow>)
    ensures
        is_tree_of(panes@, r@),
{
    let wids = window_ids(panes);
    let mut out: Vec<WezWindow> = Vec::new();
    let mut i: usize = 0;
    while i < wids.len()
        invariant
            i <= wids@.len(),
            strictly_sorted(wids@),
            forall|x: u64|
                wids@.contains(x) <==> exists|k: int| 0 <= k < panes@.len() && panes@[k].window_id == x,
            out@.len() == i,
            forall|a: int| 0 <= a < i ==> (#[trigger] out@[a]).window_id == wids@[a],
            forall|a: int| 0 <= a < i ==> window_of(panes@, #[trigger] out@[a]),
        decreases wids@.len() - i,
    {
        let w = wids[i];
        assert(wids@.contains(w));
        let tids = tab_ids(panes, w);
        proof {
            let k = choose|k: int| 0 <= k < panes@.len() && panes@[k].window_id == w;
            assert(tids@.contains(panes@[k].tab_id));
        }
        let mut tabs: Vec<WezTab> = Vec::new();
        let mut first: usize = 0;
        let mut j: usize = 0;
        while j < tids.len()
            invariant
                j <= tids@.len(),
                tids@.len() > 0,
                strictly_sorted(tids@),
                forall|x: u64|
                    tids@.contains(x) <==> exists|k: int|
                        0 <= k < panes@.len() && panes@[k].window_id == w && panes@[k].tab_id == x,
                tabs@.len() == j,
                forall|b: int| 0 <= b < j ==> (#[trigger] tabs@[b]).tab_id == tids@[b],
                forall|b: int| 0 <= b < j ==> tab_of(panes@, w, #[trigger] tabs@[b]),
                j > 0 ==> first < panes@.len() && panes@[first as int] == infos_in(panes@, w, tids@[0])[0],
            decreases tids@.len() - j,
        {
            let t = tids[j];
            assert(tids@.contains(t));
            proof {
                let k = choose|k: int|
                    0 <= k < panes@.len() && panes@[k].window_id == w && panes@[k].tab_id == t;
                lemma_infos_in_contains(panes@, w, t, k);
            }
            let (ps, f) = collect_tab(panes, w, t);
            let title = nonempty_opt(&panes[f].tab_title);
            if j == 0 {
                first = f;
            }
            tabs.push(WezTab { tab_id: t, title, panes: ps });
            j = j + 1;
        }
        let title = nonempty_opt(&panes[first].window_title);
        let workspace = workspace_of(&panes[first].workspace);
        let win = WezWindow { window_id: w, title, workspace, tabs };
        proof {
            assert forall|k: int|
                0 <= k < panes@.len() && #[trigger] panes@[k].window_id == win.window_id implies exists|a: int|
                    0 <= a < win.tabs.len() && #[trigger] win.tabs@[a].tab_id == panes@[k].tab_id by {
                assert(tids@.contains(panes@[k].tab_id));
                let a = choose|a: int| 0 <= a < tids@.len() && tids@[a] == panes@[k].tab_id;
                assert(win.tabs@[a].tab_id == tids@[a]);
            }
        }
        out.push(win);
        i = i + 1;
    }
    proof {
        assert forall|k: int| #![trigger panes@[k]] 0 <= k < panes@.len() implies exists|i: int|
            #![trigger out@[i]]
            0 <= i < out@.len() && out@[i].window_id == panes@[k].window_id by {
            assert(wids@.contains(panes@[k].window_id));
            let a = choose|a: int| 0 <= a < wids@.len() && wids@[a] == panes@[k].window_id;
            assert(out@[a].window_id == wids@[a]);
        }
        assert forall|a: int, b: int| 0 <= a < b < out@.len() implies #[trigger] out@[a].window_id
            < #[trigger] out@[b].window_id by {
            assert(out@[a].window_id == wids@[a] && out@[b].window_id == wids@[b]);
        }
    }
    out
}

} // verus!
