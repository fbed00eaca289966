use vstd::prelude::*;
use vstd::string::*;

use crate::session::{
    RestoreReport, Session, SessionTab, SessionWindow, SplitDirection, SplitNode, SplitView, first_leaf_cwd, first_pane_cwd,
    leaf_count, lemma_reconstruct_leaf_count, opt_view, reconstruct,
};
use crate::model::{PaneInfo, WezPane};
use crate::text::{clone_opt_string, decimal, push_decimal, push_str, string_from_chars};

verus! {

/// What an operation of a restore does.
#[derive(Debug, Clone, PartialEq)]
pub enum OpKind {
    /// Open a new window with a shell in `cwd`.
    SpawnWindow { cwd: Option<String> },
    /// Read the pane list to learn the window of the new window's pane.
    FindWindow,
    /// Title the window through its first pane.
    SetWindowTitle { title: String },
    /// Open a new tab in the restored window with a shell in `cwd`.
    SpawnTab { cwd: Option<String> },
    /// Split the pane, giving the new pane `percent` of it, to the right
    /// (vertical) or below (horizontal), with a shell in `cwd`.
    Split { direction: SplitDirection, percent: u16, cwd: Option<String> },
    /// Title the tab through its first pane.
    SetTabTitle { title: String },
}

/// An operation of a restore: what it does, the operation whose new pane it
/// acts on, the window or tab number its messages name, and where the
/// restore goes on if it fails.
#[derive(Debug, Clone, PartialEq)]
pub struct RestoreOp {
    pub kind: OpKind,
    pub pane_from: usize,
    pub label: usize,
    pub on_failure: usize,
}

/// An operation kind with its strings taken by their characters.
pub enum KindView {
    SpawnWindow { cwd: Option<Seq<char>> },
    FindWindow,
    SetWindowTitle { title: Seq<char> },
    SpawnTab { cwd: Option<Seq<char>> },
    Split { vertical: bool, percent: int, cwd: Option<Seq<char>> },
    SetTabTitle { title: Seq<char> },
}

pub struct OpView {
    pub kind: KindView,
    pub pane_from: int,
    pub label: int,
    pub on_failure: int,
}

pub open spec fn kind_view(k: OpKind) -> KindView {
    match k {
        OpKind::SpawnWindow { cwd } => KindView::SpawnWindow { cwd: opt_view(cwd) },
        OpKind::FindWindow => KindView::FindWindow,
        OpKind::SetWindowTitle { title } => KindView::SetWindowTitle { title: title@ },
        OpKind::SpawnTab { cwd } => KindView::SpawnTab { cwd: opt_view(cwd) },
        OpKind::Split { direction, percent, cwd } => KindView::Split {
            vertical: direction == SplitDirection::Vertical,
            percent: percent as int,
            cwd: opt_view(cwd),
        },
        OpKind::SetTabTitle { title } => KindView::SetTabTitle { title: title@ },
    }
}

impl View for RestoreOp {
    type V = OpView;

    open spec fn view(&self) -> OpView {
        OpView {
            kind: kind_view(self.kind),
            pane_from: self.pane_from as int,
            label: self.label as int,
            on_failure: self.on_failure as int,
        }
    }
}

pub open spec fn op_views(ops: Seq<RestoreOp>) -> Seq<OpView> {
    ops.map_values(|o: RestoreOp| o@)
}

// -- The plan --

/// The share of a split that the new (second) pane gets.
pub open spec fn second_share(percent: int) -> int {
    if percent <= 100 { 100 - percent } else { 0 }
}

/// The splits that rebuild tree `v` inside the pane made by operation
/// `from`, as operations numbered from `base`: each split in preorder, then
/// the splits of its first part (in the same pane), then those of its second
/// part (in the pane the split made). A failed split skips both parts.
pub open spec fn split_ops(v: SplitView, from: int, base: int) -> Seq<OpView>
    decreases v,
{
    match v {
        SplitView::Leaf { .. } => Seq::empty(),
        SplitView::Split { vertical, percent, first, second } => {
            let f = split_ops(*first, from, base + 1);
            let s = split_ops(*second, base, base + 1 + f.len());
            seq![
                OpView {
                    kind: KindView::Split { vertical, percent: second_share(percent), cwd: first_leaf_cwd(*second) },
                    pane_from: from,
                    label: 0,
                    on_failure: base + 1 + f.len() + s.len(),
                },
            ] + f + s
        },
    }
}

/// A title operation for the tab, at `at`, when it has a title.
pub open spec fn tab_title_ops(t: SessionTab, label: int, from: int, at: int) -> Seq<OpView> {
    match t.title {
        Some(title) => seq![OpView { kind: KindView::SetTabTitle { title: title@ }, pane_from: from, label, on_failure: at + 1 }],
        None => Seq::empty(),
    }
}

/// The operations of the first tab of a window whose first pane operation
/// `from` made, numbered from `base`: its splits, then its title.
pub open spec fn first_tab_ops(t: SessionTab, from: int, base: int) -> Seq<OpView> {
    let s = split_ops(t.root@, from, base);
    s + tab_title_ops(t, 0, from, base + s.len())
}

/// The operations of a later tab (number `label`), numbered from `base`: a
/// new tab, its splits, its title; a failed new tab skips them all.
pub open spec fn later_tab_ops(t: SessionTab, label: int, base: int) -> Seq<OpView> {
    let s = split_ops(t.root@, base, base + 1);
    let title = tab_title_ops(t, label, base, base + 1 + s.len());
    seq![
        OpView {
            kind: KindView::SpawnTab { cwd: first_leaf_cwd(t.root@) },
            pane_from: base,
            label,
            on_failure: base + 1 + s.len() + title.len(),
        },
    ] + s + title
}

/// The operations of tabs `1..k` of window `w`, numbered from `base`.
pub open spec fn later_tabs_ops(w: SessionWindow, k: int, base: int) -> Seq<OpView>
    decreases k,
{
    if k <= 1 {
        Seq::empty()
    } else {
        let before = later_tabs_ops(w, k - 1, base);
        before + later_tab_ops(w.tabs@[k - 1], k - 1, base + before.len())
    }
}

/// A title operation for the window, at `at`, when it has a title.
pub open spec fn window_title_ops(w: SessionWindow, label: int, from: int, at: int) -> Seq<OpView> {
    match w.title {
        Some(t) => seq![OpView { kind: KindView::SetWindowTitle { title: t@ }, pane_from: from, label, on_failure: at + 1 }],
        None => Seq::empty(),
    }
}

/// The operations after the window's first pane and its lookup: the
/// window's title, its first tab, then its other tabs.
pub open spec fn window_body_ops(w: SessionWindow, label: int, from: int, base: int) -> Seq<OpView> {
    let title = window_title_ops(w, label, from, base);
    let first = first_tab_ops(w.tabs@[0], from, base + title.len());
    title + first + later_tabs_ops(w, w.tabs.len() as int, base + title.len() + first.len())
}

/// The operations of window number `label`, numbered from `base`: none
/// without tabs; otherwise a new window (its pane made by this first
/// operation), the lookup of its window, then its body. A failed new window
/// or lookup skips the rest of the window.
pub open spec fn window_ops(w: SessionWindow, label: int, base: int) -> Seq<OpView> {
    if w.tabs.len() == 0 {
        Seq::empty()
    } else {
        let body = window_body_ops(w, label, base, base + 2);
        let end = base + 2 + body.len();
        seq![
            OpView { kind: KindView::SpawnWindow { cwd: first_leaf_cwd(w.tabs@[0].root@) }, pane_from: base, label, on_failure: end },
            OpView { kind: KindView::FindWindow, pane_from: base, label, on_failure: end },
        ] + body
    }
}

/// The operations of the first `k` windows of the session.
pub open spec fn windows_ops(s: Session, k: int) -> Seq<OpView>
    decreases k,
{
    if k <= 0 {
        Seq::empty()
    } else {
        let before = windows_ops(s, k - 1);
        before + window_ops(s.windows@[k - 1], k - 1, before.len() as int)
    }
}

/// The operations that restore the session, in order.
pub open spec fn restore_plan(s: Session) -> Seq<OpView> {
    windows_ops(s, s.windows.len() as int)
}


// -- Replaying the splits --

/// A tab's layout as a restore rebuilds it: a pane, named by the plan
/// position of the operation that made it, with its working directory; or a
/// region split in two.
pub enum Grid {
    Pane { id: int, cwd: Option<Seq<char>> },
    Split { vertical: bool, percent: int, first: Box<Grid>, second: Box<Grid> },
}

/// `g` with pane `pf` split: it keeps the first part, and a new pane `k` with
/// working directory `cwd` takes the second, `percent` of the region.
pub open spec fn split_pane(g: Grid, pf: int, k: int, vertical: bool, percent: int, cwd: Option<Seq<char>>) -> Grid
    decreases g,
{
    match g {
        Grid::Pane { id, cwd: c } => if id == pf {
            Grid::Split {
                vertical,
                percent,
                first: Box::new(Grid::Pane { id, cwd: c }),
                second: Box::new(Grid::Pane { id: k, cwd }),
            }
        } else {
            g
        },
        Grid::Split { vertical: v, percent: p, first, second } => Grid::Split {
            vertical: v,
            percent: p,
            first: Box::new(split_pane(*first, pf, k, vertical, percent, cwd)),
            second: Box::new(split_pane(*second, pf, k, vertical, percent, cwd)),
        },
    }
}

/// `g` after the operations `ops`, numbered from `base`, as WezTerm carries
/// them out: each split divides the pane it names; the others leave the
/// layout alone.
pub open spec fn replay(g: Grid, ops: Seq<OpView>, base: int) -> Grid
    decreases ops.len(),
{
    if ops.len() == 0 {
        g
    } else {
        let o = ops[0];
        let g2 = match o.kind {
            KindView::Split { vertical, percent, cwd } => split_pane(g, o.pane_from, base, vertical, percent, cwd),
            _ => g,
        };
        replay(g2, ops.drop_first(), base + 1)
    }
}

/// The rebuilt layout `g` is the saved tree `v`: the same splits, in the same
/// direction, the new pane of each taking the share the saved split gave
/// its second part, and each pane in the saved working directory.
pub open spec fn rebuilds(g: Grid, v: SplitView) -> bool
    decreases v,
{
    match (g, v) {
        (Grid::Pane { cwd, .. }, SplitView::Leaf { cwd: c2, .. }) => cwd == c2,
        (
            Grid::Split { vertical, percent, first, second },
            SplitView::Split { vertical: v2, percent: p2, first: f2, second: s2 },
        ) => vertical == v2 && (p2 <= 100 ==> percent + p2 == 100) && rebuilds(*first, *f2) && rebuilds(
            *second,
            *s2,
        ),
        _ => false,
    }
}

/// Pane `x` is one of the panes of `g`.
pub open spec fn has_pane(g: Grid, x: int) -> bool
    decreases g,
{
    match g {
        Grid::Pane { id, .. } => id == x,
        Grid::Split { first, second, .. } => has_pane(*first, x) || has_pane(*second, x),
    }
}

proof fn lemma_split_pane_absent(g: Grid, pf: int, k: int, vertical: bool, percent: int, cwd: Option<Seq<char>>)
    requires
        !has_pane(g, pf),
    ensures
        split_pane(g, pf, k, vertical, percent, cwd) == g,
    decreases g,
{
    match g {
        Grid::Pane { .. } => {},
        Grid::Split { first, second, .. } => {
            lemma_split_pane_absent(*first, pf, k, vertical, percent, cwd);
            lemma_split_pane_absent(*second, pf, k, vertical, percent, cwd);
        },
    }
}

proof fn lemma_split_pane_ids(g: Grid, pf: int, k: int, vertical: bool, percent: int, cwd: Option<Seq<char>>, x: int)
    ensures
        has_pane(split_pane(g, pf, k, vertical, percent, cwd), x) ==> has_pane(g, x) || x == k,
    decreases g,
{
    match g {
        Grid::Pane { id, cwd: c } => {
            if id == pf {
                let a = Grid::Pane { id, cwd: c };
                let b = Grid::Pane { id: k, cwd };
                assert(has_pane(split_pane(g, pf, k, vertical, percent, cwd), x) == (has_pane(a, x) || has_pane(b, x)));
            }
        },
        Grid::Split { first, second, .. } => {
            lemma_split_pane_ids(*first, pf, k, vertical, percent, cwd, x);
            lemma_split_pane_ids(*second, pf, k, vertical, percent, cwd, x);
        },
    }
}

proof fn lemma_replay_concat(g: Grid, a: Seq<OpView>, b: Seq<OpView>, base: int)
    ensures
        replay(g, a + b, base) == replay(replay(g, a, base), b, base + a.len()),
    decreases a.len(),
{
    if a.len() > 0 {
        assert((a + b).drop_first() =~= a.drop_first() + b);
        assert((a + b)[0] == a[0]);
        let o = a[0];
        let g2 = match o.kind {
            KindView::Split { vertical, percent, cwd } => split_pane(g, o.pane_from, base, vertical, percent, cwd),
            _ => g,
        };
        lemma_replay_concat(g2, a.drop_first(), b, base + 1);
    } else {
        assert(a + b =~= b);
    }
}

proof fn lemma_replay_ids(g: Grid, ops: Seq<OpView>, base: int, x: int)
    ensures
        has_pane(replay(g, ops, base), x) ==> has_pane(g, x) || base <= x < base + ops.len(),
    decreases ops.len(),
{
    if ops.len() > 0 {
        let o = ops[0];
        let g2 = match o.kind {
            KindView::Split { vertical, percent, cwd } => split_pane(g, o.pane_from, base, vertical, percent, cwd),
            _ => g,
        };
        lemma_replay_ids(g2, ops.drop_first(), base + 1, x);
        match o.kind {
            KindView::Split { vertical, percent, cwd } => lemma_split_pane_ids(g, o.pane_from, base, vertical, percent, cwd, x),
            _ => {},
        }
    }
}

/// Operations that name no pane of `r` leave the second part alone.
proof fn lemma_replay_left(l: Grid, r: Grid, vertical: bool, percent: int, ops: Seq<OpView>, base: int)
    requires
        forall|i: int| 0 <= i < ops.len() ==> !has_pane(r, #[trigger] ops[i].pane_from),
    ensures
        replay((Grid::Split { vertical, percent, first: Box::new(l), second: Box::new(r) }), ops, base)
            == (Grid::Split { vertical, percent, first: Box::new(replay(l, ops, base)), second: Box::new(r) }),
    decreases ops.len(),
{
    if ops.len() > 0 {
        let o = ops[0];
        assert(!has_pane(r, ops[0].pane_from));
        let l2 = match o.kind {
            KindView::Split { vertical: v, percent: p, cwd } => {
                lemma_split_pane_absent(r, o.pane_from, base, v, p, cwd);
                split_pane(l, o.pane_from, base, v, p, cwd)
            },
            _ => l,
        };
        assert forall|i: int| 0 <= i < ops.drop_first().len() implies !has_pane(r, #[trigger] ops.drop_first()[i].pane_from) by {
            assert(ops.drop_first()[i] == ops[i + 1]);
        }
        lemma_replay_left(l2, r, vertical, percent, ops.drop_first(), base + 1);
    }
}

/// Operations that name no pane of `l` leave the first part alone.
proof fn lemma_replay_right(l: Grid, r: Grid, vertical: bool, percent: int, ops: Seq<OpView>, base: int)
    requires
        forall|i: int| 0 <= i < ops.len() ==> !has_pane(l, #[trigger] ops[i].pane_from),
    ensures
        replay((Grid::Split { vertical, percent, first: Box::new(l), second: Box::new(r) }), ops, base)
            == (Grid::Split { vertical, percent, first: Box::new(l), second: Box::new(replay(r, ops, base)) }),
    decreases ops.len(),
{
    if ops.len() > 0 {
        let o = ops[0];
        assert(!has_pane(l, ops[0].pane_from));
        let r2 = match o.kind {
            KindView::Split { vertical: v, percent: p, cwd } => {
                lemma_split_pane_absent(l, o.pane_from, base, v, p, cwd);
                split_pane(r, o.pane_from, base, v, p, cwd)
            },
            _ => r,
        };
        assert forall|i: int| 0 <= i < ops.drop_first().len() implies !has_pane(l, #[trigger] ops.drop_first()[i].pane_from) by {
            assert(ops.drop_first()[i] == ops[i + 1]);
        }
        lemma_replay_right(l, r2, vertical, percent, ops.drop_first(), base + 1);
    }
}

/// The splits of a tree act on the tree's first pane or on panes they made.
proof fn lemma_split_ops_sources(v: SplitView, from: int, base: int)
    ensures
        forall|i: int|
            0 <= i < split_ops(v, from, base).len() ==> (#[trigger] split_ops(v, from, base)[i]).pane_from == from || base
                <= split_ops(v, from, base)[i].pane_from < base + split_ops(v, from, base).len(),
    decreases v,
{
    match v {
        SplitView::Leaf { .. } => {},
        SplitView::Split { vertical, percent, first, second } => {
            let f = split_ops(*first, from, base + 1);
            let sc = split_ops(*second, base, base + 1 + f.len());
            lemma_split_ops_sources(*first, from, base + 1);
            lemma_split_ops_sources(*second, base, base + 1 + f.len());
            let all = split_ops(v, from, base);
            assert forall|i: int| 0 <= i < all.len() implies (#[trigger] all[i]).pane_from == from || base <= all[i].pane_from
                < base + all.len() by {
                if i >= 1 && i < 1 + f.len() {
                    assert(all[i] == f[i - 1]);
                } else if i >= 1 + f.len() {
                    assert(all[i] == sc[i - 1 - f.len()]);
                }
            }
        },
    }
}

/// Carrying out the splits of a saved tree, from the pane that starts its
/// region, rebuilds the saved tree: each split divides the pane that holds
/// the region the saved split covers (the second part's splits act on the
/// pane the split made), in the saved direction, giving the new pane the
/// saved share, and every pane ends up in its saved working directory.
pub proof fn lemma_splits_rebuild_saved_tree(v: SplitView, from: int, base: int)
    requires
        from < base,
    ensures
        rebuilds(replay((Grid::Pane { id: from, cwd: first_leaf_cwd(v) }), split_ops(v, from, base), base), v),
    decreases v,
{
    match v {
        SplitView::Leaf { .. } => {},
        SplitView::Split { vertical, percent, first, second } => {
            let f = split_ops(*first, from, base + 1);
            let sc = split_ops(*second, base, base + 1 + f.len());
            let op0 = OpView {
                kind: KindView::Split { vertical, percent: second_share(percent), cwd: first_leaf_cwd(*second) },
                pane_from: from,
                label: 0,
                on_failure: base + 1 + f.len() + sc.len(),
            };
            let head = seq![op0];
            assert(split_ops(v, from, base) == head + f + sc);
            let g0 = Grid::Pane { id: from, cwd: first_leaf_cwd(v) };
            let l0 = Grid::Pane { id: from, cwd: first_leaf_cwd(*first) };
            let r0 = Grid::Pane { id: base, cwd: first_leaf_cwd(*second) };
            let g1 = Grid::Split { vertical, percent: second_share(percent), first: Box::new(l0), second: Box::new(r0) };
            lemma_replay_concat(g0, head + f, sc, base);
            lemma_replay_concat(g0, head, f, base);
            assert(head.drop_first() =~= Seq::<OpView>::empty());
            assert(head[0] == op0);
            assert(first_leaf_cwd(v) == first_leaf_cwd(*first));
            let g1b = split_pane(g0, from, base, vertical, second_share(percent), first_leaf_cwd(*second));
            assert(g1b == g1);
            assert(replay(g1b, Seq::<OpView>::empty(), base + 1) == g1b);
            assert(replay(g0, head, base) == replay(g1b, head.drop_first(), base + 1));
            assert(replay(g0, head, base) == g1);
            // The first part's splits stay in the first part.
            lemma_split_ops_sources(*first, from, base + 1);
            lemma_replay_left(l0, r0, vertical, second_share(percent), f, base + 1);
            lemma_splits_rebuild_saved_tree(*first, from, base + 1);
            let l1 = replay(l0, f, base + 1);
            // The second part's splits act on the pane the split made.
            lemma_split_ops_sources(*second, base, base + 1 + f.len());
            assert forall|i: int| 0 <= i < sc.len() implies !has_pane(l1, #[trigger] sc[i].pane_from) by {
                lemma_replay_ids(l0, f, base + 1, sc[i].pane_from);
            }
            lemma_replay_right(l1, r0, vertical, second_share(percent), sc, base + 1 + f.len());
            lemma_splits_rebuild_saved_tree(*second, base, base + 1 + f.len());
            assert((head + f).len() == 1 + f.len());
        },
    }
}

// -- What a restore without failures creates --

/// The windows, tabs and panes that an operation creates when it succeeds.
pub open spec fn op_gain(k: KindView) -> (int, int, int) {
    match k {
        KindView::SpawnWindow { .. } => (1, 0, 1),
        KindView::FindWindow => (0, 1, 0),
        KindView::SpawnTab { .. } => (0, 1, 1),
        KindView::Split { .. } => (0, 0, 1),
        _ => (0, 0, 0),
    }
}

/// The windows, tabs and panes that the operations `ops` create when all of
/// them succeed.
pub open spec fn tally(ops: Seq<OpView>) -> (int, int, int)
    decreases ops.len(),
{
    if ops.len() == 0 {
        (0, 0, 0)
    } else {
        let t = tally(ops.drop_last());
        let g = op_gain(ops.last().kind);
        (t.0 + g.0, t.1 + g.1, t.2 + g.2)
    }
}

/// The panes saved in the first `k` tabs of window `w`.
pub open spec fn tab_leaves(w: SessionWindow, k: int) -> int
    decreases k,
{
    if k <= 0 {
        0
    } else {
        tab_leaves(w, k - 1) + leaf_count(w.tabs@[k - 1].root@)
    }
}

/// The windows with at least one tab among the first `k` saved windows.
pub open spec fn saved_windows(s: Session, k: int) -> int
    decreases k,
{
    if k <= 0 {
        0
    } else {
        saved_windows(s, k - 1) + if s.windows@[k - 1].tabs.len() > 0 { 1int } else { 0int }
    }
}

/// The tabs of the first `k` saved windows.
pub open spec fn saved_tabs(s: Session, k: int) -> int
    decreases k,
{
    if k <= 0 {
        0
    } else {
        saved_tabs(s, k - 1) + s.windows@[k - 1].tabs.len()
    }
}

/// The panes of the first `k` saved windows.
pub open spec fn saved_panes(s: Session, k: int) -> int
    decreases k,
{
    if k <= 0 {
        0
    } else {
        saved_panes(s, k - 1) + tab_leaves(s.windows@[k - 1], s.windows@[k - 1].tabs.len() as int)
    }
}

proof fn lemma_tally_concat(a: Seq<OpView>, b: Seq<OpView>)
    ensures
        tally(a + b) == (tally(a).0 + tally(b).0, tally(a).1 + tally(b).1, tally(a).2 + tally(b).2),
    decreases b.len(),
{
    if b.len() == 0 {
        assert(a + b =~= a);
    } else {
        lemma_tally_concat(a, b.drop_last());
        assert((a + b).drop_last() =~= a + b.drop_last());
        assert((a + b).last() == b.last());
    }
}

proof fn lemma_tally_one(o: OpView)
    ensures
        tally(seq![o]) == op_gain(o.kind),
{
    assert(seq![o].drop_last() =~= Seq::<OpView>::empty());
    assert(tally(Seq::<OpView>::empty()) == (0int, 0int, 0int));
    assert(seq![o].last() == o);
    let g = op_gain(o.kind);
    assert(tally(seq![o]) == (0 + g.0, 0 + g.1, 0 + g.2));
}

proof fn lemma_leaf_count_pos(v: SplitView)
    ensures
        leaf_count(v) >= 1,
    decreases v,
{
    match v {
        SplitView::Leaf { .. } => {},
        SplitView::Split { first, second, .. } => {
            lemma_leaf_count_pos(*first);
            lemma_leaf_count_pos(*second);
        },
    }
}

proof fn lemma_tally_split(v: SplitView, from: int, base: int)
    ensures
        tally(split_ops(v, from, base)) == (0int, 0int, leaf_count(v) - 1),
    decreases v,
{
    lemma_leaf_count_pos(v);
    match v {
        SplitView::Leaf { .. } => {},
        SplitView::Split { vertical, percent, first, second } => {
            let f = split_ops(*first, from, base + 1);
            let sc = split_ops(*second, base, base + 1 + f.len());
            lemma_tally_split(*first, from, base + 1);
            lemma_tally_split(*second, base, base + 1 + f.len());
            let head = seq![
                OpView {
                    kind: KindView::Split { vertical, percent: second_share(percent), cwd: first_leaf_cwd(*second) },
                    pane_from: from,
                    label: 0,
                    on_failure: base + 1 + f.len() + sc.len(),
                },
            ];
            lemma_tally_one(head[0]);
            lemma_tally_concat(head, f);
            lemma_tally_concat(head + f, sc);
        },
    }
}

proof fn lemma_tally_title(t: SessionTab, label: int, from: int, at: int)
    ensures
        tally(tab_title_ops(t, label, from, at)) == (0int, 0int, 0int),
{
    match t.title {
        Some(title) => lemma_tally_one(tab_title_ops(t, label, from, at)[0]),
        None => {},
    }
    if t.title is Some {
        assert(tab_title_ops(t, label, from, at) =~= seq![tab_title_ops(t, label, from, at)[0]]);
    }
}

proof fn lemma_tally_later_tabs(w: SessionWindow, k: int, base: int)
    requires
        1 <= k <= w.tabs.len(),
    ensures
        tally(later_tabs_ops(w, k, base)) == (0int, k - 1, tab_leaves(w, k) - tab_leaves(w, 1)),
    decreases k,
{
    if k == 1 {
    } else {
        lemma_tally_later_tabs(w, k - 1, base);
        let before = later_tabs_ops(w, k - 1, base);
        let t = w.tabs@[k - 1];
        let b = base + before.len();
        let sp = split_ops(t.root@, b, b + 1);
        let title = tab_title_ops(t, k - 1, b, b + 1 + sp.len());
        let spawn = seq![
            OpView {
                kind: KindView::SpawnTab { cwd: first_leaf_cwd(t.root@) },
                pane_from: b,
                label: k - 1,
                on_failure: b + 1 + sp.len() + title.len(),
            },
        ];
        lemma_tally_one(spawn[0]);
        lemma_tally_split(t.root@, b, b + 1);
        lemma_tally_title(t, k - 1, b, b + 1 + sp.len());
        lemma_tally_concat(spawn, sp);
        lemma_tally_concat(spawn + sp, title);
        assert(later_tab_ops(t, k - 1, b) == spawn + sp + title);
        lemma_tally_concat(before, later_tab_ops(t, k - 1, b));
    }
}

proof fn lemma_tally_window(w: SessionWindow, label: int, base: int)
    ensures
        tally(window_ops(w, label, base)) == if w.tabs.len() > 0 {
            (1int, w.tabs.len() as int, tab_leaves(w, w.tabs.len() as int))
        } else {
            (0int, 0int, 0int)
        },
{
    if w.tabs.len() > 0 {
        let from = base;
        let b = base + 2;
        let title = window_title_ops(w, label, from, b);
        let first = first_tab_ops(w.tabs@[0], from, b + title.len());
        let later = later_tabs_ops(w, w.tabs.len() as int, b + title.len() + first.len());
        let t0 = w.tabs@[0];
        let sp = split_ops(t0.root@, from, b + title.len());
        lemma_tally_split(t0.root@, from, b + title.len());
        lemma_tally_title(t0, 0, from, b + title.len() + sp.len());
        lemma_tally_concat(sp, tab_title_ops(t0, 0, from, b + title.len() + sp.len()));
        match w.title {
            Some(tt) => {
                lemma_tally_one(title[0]);
                assert(title =~= seq![title[0]]);
            },
            None => {},
        }
        lemma_tally_later_tabs(w, w.tabs.len() as int, b + title.len() + first.len());
        assert(tab_leaves(w, 1) == leaf_count(t0.root@)) by {
            assert(tab_leaves(w, 0) == 0);
        }
        lemma_tally_concat(title, first);
        lemma_tally_concat(title + first, later);
        let end = base + 2 + window_body_ops(w, label, from, b).len();
        let two = seq![
            OpView { kind: KindView::SpawnWindow { cwd: first_leaf_cwd(t0.root@) }, pane_from: base, label, on_failure: end },
            OpView { kind: KindView::FindWindow, pane_from: base, label, on_failure: end },
        ];
        assert(two =~= seq![two[0]] + seq![two[1]]);
        lemma_tally_one(two[0]);
        lemma_tally_one(two[1]);
        lemma_tally_concat(seq![two[0]], seq![two[1]]);
        lemma_tally_concat(two, window_body_ops(w, label, from, b));
    }
}

/// The restore plan creates, when none of its operations fails, one window
/// for each saved window that has a tab, one tab for each tab of those
/// windows, and one pane for each saved pane.
pub proof fn lemma_plan_creates_saved_layout(s: Session, k: int)
    requires
        0 <= k <= s.windows.len(),
    ensures
        tally(windows_ops(s, k)) == (saved_windows(s, k), saved_tabs(s, k), saved_panes(s, k)),
    decreases k,
{
    if k > 0 {
        lemma_plan_creates_saved_layout(s, k - 1);
        let before = windows_ops(s, k - 1);
        lemma_tally_window(s.windows@[k - 1], k - 1, before.len() as int);
        lemma_tally_concat(before, window_ops(s.windows@[k - 1], k - 1, before.len() as int));
        if s.windows@[k - 1].tabs.len() == 0 {
            assert(tab_leaves(s.windows@[k - 1], 0) == 0);
        }
    }
}

// -- Building the plan --

fn copy_title(t: &String) -> (r: String)
    ensures
        r@ == t@,
{
    t.clone()
}

/// Replaces where operation `k` goes on after a failure.
fn set_on_failure(out: &mut Vec<RestoreOp>, k: usize, target: usize)
    requires
        k < old(out)@.len(),
    ensures
        final(out)@.len() == old(out)@.len(),
        op_views(final(out)@) == op_views(old(out)@).update(
            k as int,
            OpView { on_failure: target as int, ..old(out)@[k as int]@ },
        ),
{
    let op = RestoreOp {
        kind: match &out[k].kind {
            OpKind::SpawnWindow { cwd } => OpKind::SpawnWindow { cwd: clone_opt_string(cwd) },
            OpKind::FindWindow => OpKind::FindWindow,
            OpKind::SetWindowTitle { title } => OpKind::SetWindowTitle { title: copy_title(title) },
            OpKind::SpawnTab { cwd } => OpKind::SpawnTab { cwd: clone_opt_string(cwd) },
            OpKind::Split { direction, percent, cwd } => OpKind::Split {
                direction: *direction,
                percent: *percent,
                cwd: clone_opt_string(cwd),
            },
            OpKind::SetTabTitle { title } => OpKind::SetTabTitle { title: copy_title(title) },
        },
        pane_from: out[k].pane_from,
        label: out[k].label,
        on_failure: target,
    };
    let ghost before = op_views(out@);
    out.set(k, op);
    assert(op_views(out@) =~= before.update(k as int, OpView { on_failure: target as int, ..old(out)@[k as int]@ }));
}

/// Appends the splits that rebuild `node` in the pane made by operation
/// `from` (see [`split_ops`]).
fn push_split_ops(node: &SplitNode, from: usize, out: &mut Vec<RestoreOp>)
    ensures
        op_views(final(out)@) == op_views(old(out)@) + split_ops(node@, from as int, old(out)@.len() as int),
    decreases node,
{
    match node {
        SplitNode::Pane { .. } => {
            assert(op_views(out@) =~= op_views(out@) + Seq::<OpView>::empty());
        },
        SplitNode::Split { direction, percent, first, second } => {
            let ghost start = op_views(out@);
            let k = out.len();
            let share: u16 = if *percent <= 100 { 100 - *percent } else { 0 };
            let cwd = first_pane_cwd(second);
            out.push(RestoreOp { kind: OpKind::Split { direction: *direction, percent: share, cwd }, pane_from: from, label: 0, on_failure: 0 });
            let ghost head = op_views(out@);
            assert(head =~= start.push(out@[k as int]@));
            push_split_ops(first, from, out);
            let ghost mid = op_views(out@);
            push_split_ops(second, k, out);
            let end = out.len();
            let ghost full = op_views(out@);
            proof {
                let f = split_ops((**first)@, from as int, k + 1);
                let sv = split_ops((**second)@, k as int, k + 1 + f.len());
                assert(mid == head + f);
                assert(full == head + f + sv);
                assert(full.len() == out@.len());
                assert(full[k as int] == head[k as int]);
                assert(out@[k as int]@ == full[k as int]);
            }
            set_on_failure(out, k, end);
            proof {
                let f = split_ops((**first)@, from as int, k + 1);
                let sv = split_ops((**second)@, k as int, k + 1 + f.len());
                assert(node@ == SplitView::Split {
                    vertical: *direction == SplitDirection::Vertical,
                    percent: *percent as int,
                    first: Box::new((**first)@),
                    second: Box::new((**second)@),
                });
                assert(op_views(out@) =~= start + split_ops(node@, from as int, k as int));
            }
        },
    }
}

/// Appends the title operation of a tab, acting on the pane of operation
/// `from` (see [`tab_title_ops`]).
fn push_tab_title(t: &SessionTab, label: usize, from: usize, out: &mut Vec<RestoreOp>)
    ensures
        op_views(final(out)@) == op_views(old(out)@) + tab_title_ops(*t, label as int, from as int, old(out)@.len() as int),
{
    match &t.title {
        Some(title) => {
            let ghost start = op_views(out@);
            let k = out.len();
            out.push(RestoreOp { kind: OpKind::SetTabTitle { title: copy_title(title) }, pane_from: from, label, on_failure: 0 });
            let end = out.len();
            set_on_failure(out, k, end);
            assert(op_views(out@) =~= start + tab_title_ops(*t, label as int, from as int, k as int));
        },
        None => {
            assert(op_views(out@) =~= op_views(out@) + Seq::<OpView>::empty());
        },
    }
}

/// Appends the operations of a later tab (see [`later_tab_ops`]).
fn push_later_tab(t: &SessionTab, label: usize, out: &mut Vec<RestoreOp>)
    ensures
        op_views(final(out)@) == op_views(old(out)@) + later_tab_ops(*t, label as int, old(out)@.len() as int),
{
    let ghost start = op_views(out@);
    let k = out.len();
    out.push(RestoreOp { kind: OpKind::SpawnTab { cwd: first_pane_cwd(&t.root) }, pane_from: k, label, on_failure: 0 });
    let ghost head = op_views(out@);
    assert(head =~= start.push(out@[k as int]@));
    push_split_ops(&t.root, k, out);
    let ghost mid = op_views(out@);
    push_tab_title(t, label, k, out);
    let end = out.len();
    let ghost full = op_views(out@);
    proof {
        let sv = split_ops(t.root@, k as int, k + 1);
        let title = tab_title_ops(*t, label as int, k as int, k + 1 + sv.len());
        assert(mid == head + sv);
        assert(full == head + sv + title);
        assert(full.len() == out@.len());
        assert(full[k as int] == head[k as int]);
        assert(out@[k as int]@ == full[k as int]);
    }
    set_on_failure(out, k, end);
    proof {
        let sv = split_ops(t.root@, k as int, k + 1);
        let title = tab_title_ops(*t, label as int, k as int, k + 1 + sv.len());
        assert(op_views(out@) =~= start + later_tab_ops(*t, label as int, k as int));
    }
}

/// Appends the operations of window `w`, number `label` (see [`window_ops`]).
fn push_window(w: &SessionWindow, label: usize, out: &mut Vec<RestoreOp>)
    ensures
        op_views(final(out)@) == op_views(old(out)@) + window_ops(*w, label as int, old(out)@.len() as int),
{
    if w.tabs.len() == 0 {
        assert(op_views(out@) =~= op_views(out@) + Seq::<OpView>::empty());
        return;
    }
    let ghost start = op_views(out@);
    let base = out.len();
    out.push(RestoreOp { kind: OpKind::SpawnWindow { cwd: first_pane_cwd(&w.tabs[0].root) }, pane_from: base, label, on_failure: 0 });
    out.push(RestoreOp { kind: OpKind::FindWindow, pane_from: base, label, on_failure: 0 });
    let ghost head = op_views(out@);
    assert(head =~= start.push(out@[base as int]@).push(out@[base + 1]@));
    // The window's title.
    let ghost title_ops = window_title_ops(*w, label as int, base as int, base + 2);
    match &w.title {
        Some(title) => {
            let k = out.len();
            out.push(RestoreOp { kind: OpKind::SetWindowTitle { title: copy_title(title) }, pane_from: base, label, on_failure: 0 });
            let after = out.len();
            set_on_failure(out, k, after);
            assert(op_views(out@) =~= head + title_ops);
        },
        None => {
            assert(op_views(out@) =~= head + title_ops);
        },
    }
    // The first tab.
    let ghost t0 = op_views(out@);
    push_split_ops(&w.tabs[0].root, base, out);
    push_tab_title(&w.tabs[0], 0, base, out);
    let ghost first = first_tab_ops(w.tabs@[0], base as int, base + 2 + title_ops.len());
    assert(op_views(out@) =~= t0 + first);
    // The later tabs.
    let ghost lb = (base + 2 + title_ops.len() + first.len()) as int;
    let ghost prefix = op_views(out@);
    let mut t: usize = 1;
    assert(prefix =~= prefix + later_tabs_ops(*w, 1, lb));
    while t < w.tabs.len()
        invariant
            1 <= t <= w.tabs@.len(),
            op_views(out@) == prefix + later_tabs_ops(*w, t as int, lb),
            prefix.len() == lb,
        decreases w.tabs@.len() - t,
    {
        let ghost before = later_tabs_ops(*w, t as int, lb);
        push_later_tab(&w.tabs[t], t, out);
        t = t + 1;
        assert(op_views(out@) =~= prefix + later_tabs_ops(*w, t as int, lb));
    }
    let end = out.len();
    let ghost full = op_views(out@);
    proof {
        let body = window_body_ops(*w, label as int, base as int, base + 2);
        assert(body =~= title_ops + first + later_tabs_ops(*w, w.tabs.len() as int, lb));
        assert(full =~= head + body);
        assert(full.len() == out@.len());
        assert(full[base as int] == head[base as int]);
        assert(full[base + 1] == head[base + 1]);
        assert(out@[base as int]@ == full[base as int]);
        assert(out@[base + 1]@ == full[base + 1]);
    }
    set_on_failure(out, base, end);
    let ghost mid2 = op_views(out@);
    assert(out@[base + 1]@ == mid2[base + 1]);
    set_on_failure(out, base + 1, end);
    proof {
        let body = window_body_ops(*w, label as int, base as int, base + 2);
        assert(op_views(out@) =~= start + window_ops(*w, label as int, base as int));
    }
}

/// The operations that restore `session` (see [`restore_plan`]).
pub fn plan_restore(session: &Session) -> (r: Vec<RestoreOp>)
    ensures
        op_views(r@) == restore_plan(*session),
{
    let mut out: Vec<RestoreOp> = Vec::new();
    let mut i: usize = 0;
    assert(op_views(out@) =~= windows_ops(*session, 0));
    while i < session.windows.len()
        invariant
            i <= session.windows@.len(),
            op_views(out@) == windows_ops(*session, i as int),
        decreases session.windows@.len() - i,
    {
        push_window(&session.windows[i], i, &mut out);
        i = i + 1;
    }
    out
}


// -- Shape of the plan --

/// The operations, placed from position `base`, go on after a failure to a
/// later position no further than `end`, and act on panes made at their own
/// position or before.
pub open spec fn ops_wf_at(ops: Seq<OpView>, base: int, end: int) -> bool {
    forall|i: int|
        0 <= i < ops.len() ==> base + i < (#[trigger] ops[i]).on_failure <= end && 0 <= ops[i].pane_from <= base + i
}

/// Every operation of the plan goes on after a failure to a later operation
/// (or the end), and acts on a pane made by itself or an earlier operation.
pub open spec fn plan_wf(ops: Seq<OpView>) -> bool {
    ops_wf_at(ops, 0, ops.len() as int)
}

proof fn lemma_wf_concat(a: Seq<OpView>, b: Seq<OpView>, base: int, end: int)
    requires
        ops_wf_at(a, base, end),
        ops_wf_at(b, base + a.len(), end),
    ensures
        ops_wf_at(a + b, base, end),
{
    assert forall|i: int| 0 <= i < (a + b).len() implies base + i < (#[trigger] (a + b)[i]).on_failure <= end && 0 <= (a
        + b)[i].pane_from <= base + i by {
        if i >= a.len() {
            assert((a + b)[i] == b[i - a.len()]);
        }
    }
}

proof fn lemma_wf_widen(a: Seq<OpView>, base: int, end: int, end2: int)
    requires
        ops_wf_at(a, base, end),
        end <= end2,
    ensures
        ops_wf_at(a, base, end2),
{
}

proof fn lemma_split_ops_wf(v: SplitView, from: int, base: int)
    requires
        0 <= from <= base,
    ensures
        ops_wf_at(split_ops(v, from, base), base, base + split_ops(v, from, base).len()),
    decreases v,
{
    match v {
        SplitView::Leaf { .. } => {},
        SplitView::Split { vertical, percent, first, second } => {
            let f = split_ops(*first, from, base + 1);
            let sv = split_ops(*second, base, base + 1 + f.len());
            let all = split_ops(v, from, base);
            let end = base + all.len();
            lemma_split_ops_wf(*first, from, base + 1);
            lemma_split_ops_wf(*second, base, base + 1 + f.len());
            let head = seq![all[0]];
            assert(ops_wf_at(head, base, end));
            lemma_wf_widen(f, base + 1, base + 1 + f.len(), end);
            lemma_wf_widen(sv, base + 1 + f.len(), base + 1 + f.len() + sv.len(), end);
            lemma_wf_concat(head, f, base, end);
            lemma_wf_concat(head + f, sv, base, end);
            assert(all =~= head + f + sv);
        },
    }
}

proof fn lemma_tab_ops_wf(t: SessionTab, label: int, from: int, base: int)
    requires
        0 <= from <= base,
    ensures
        ops_wf_at(first_tab_ops(t, from, base), base, base + first_tab_ops(t, from, base).len()),
        ops_wf_at(later_tab_ops(t, label, base), base, base + later_tab_ops(t, label, base).len()),
{
    let s = split_ops(t.root@, from, base);
    let all = first_tab_ops(t, from, base);
    let end = base + all.len();
    lemma_split_ops_wf(t.root@, from, base);
    lemma_wf_widen(s, base, base + s.len(), end);
    let title = tab_title_ops(t, 0, from, base + s.len());
    assert(ops_wf_at(title, base + s.len(), end));
    lemma_wf_concat(s, title, base, end);

    let s2 = split_ops(t.root@, base, base + 1);
    let title2 = tab_title_ops(t, label, base, base + 1 + s2.len());
    let all2 = later_tab_ops(t, label, base);
    let end2 = base + all2.len();
    lemma_split_ops_wf(t.root@, base, base + 1);
    lemma_wf_widen(s2, base + 1, base + 1 + s2.len(), end2);
    assert(ops_wf_at(title2, base + 1 + s2.len(), end2));
    let head = seq![all2[0]];
    assert(ops_wf_at(head, base, end2));
    lemma_wf_concat(head, s2, base, end2);
    lemma_wf_concat(head + s2, title2, base, end2);
    assert(all2 =~= head + s2 + title2);
}

proof fn lemma_later_tabs_wf(w: SessionWindow, k: int, base: int)
    requires
        0 <= base,
    ensures
        ops_wf_at(later_tabs_ops(w, k, base), base, base + later_tabs_ops(w, k, base).len()),
    decreases k,
{
    if k > 1 {
        let before = later_tabs_ops(w, k - 1, base);
        let t = later_tab_ops(w.tabs@[k - 1], k - 1, base + before.len());
        let end = base + before.len() + t.len();
        lemma_later_tabs_wf(w, k - 1, base);
        lemma_tab_ops_wf(w.tabs@[k - 1], k - 1, base + before.len(), base + before.len());
        lemma_wf_widen(before, base, base + before.len(), end);
        lemma_wf_concat(before, t, base, end);
    }
}

proof fn lemma_window_ops_wf(w: SessionWindow, label: int, base: int)
    requires
        0 <= base,
    ensures
        ops_wf_at(window_ops(w, label, base), base, base + window_ops(w, label, base).len()),
{
    if w.tabs.len() > 0 {
        let from = base;
        let bb = base + 2;
        let title = window_title_ops(w, label, from, bb);
        let first = first_tab_ops(w.tabs@[0], from, bb + title.len());
        let later = later_tabs_ops(w, w.tabs.len() as int, bb + title.len() + first.len());
        let body = window_body_ops(w, label, from, bb);
        let all = window_ops(w, label, base);
        let end = base + all.len();
        assert(body == title + first + later);
        assert(ops_wf_at(title, bb, end));
        lemma_tab_ops_wf(w.tabs@[0], 0, from, bb + title.len());
        lemma_wf_widen(first, bb + title.len(), bb + title.len() + first.len(), end);
        lemma_later_tabs_wf(w, w.tabs.len() as int, bb + title.len() + first.len());
        lemma_wf_widen(later, bb + title.len() + first.len(), bb + title.len() + first.len() + later.len(), end);
        lemma_wf_concat(title, first, bb, end);
        lemma_wf_concat(title + first, later, bb, end);
        let head = seq![all[0], all[1]];
        assert(ops_wf_at(head, base, end));
        lemma_wf_concat(head, body, base, end);
        assert(all =~= head + body);
    }
}

proof fn lemma_windows_ops_wf(s: Session, k: int)
    ensures
        ops_wf_at(windows_ops(s, k), 0, windows_ops(s, k).len() as int),
    decreases k,
{
    if k > 0 {
        let before = windows_ops(s, k - 1);
        let w = window_ops(s.windows@[k - 1], k - 1, before.len() as int);
        let end = (before.len() + w.len()) as int;
        lemma_windows_ops_wf(s, k - 1);
        lemma_window_ops_wf(s.windows@[k - 1], k - 1, before.len() as int);
        lemma_wf_widen(before, 0, before.len() as int, end);
        lemma_wf_concat(before, w, 0, end);
    }
}

/// The restore plan is well formed (see [`plan_wf`]).
pub proof fn lemma_plan_wf(s: Session)
    ensures
        plan_wf(restore_plan(s)),
{
    lemma_windows_ops_wf(s, s.windows.len() as int);
}


// -- Running the plan --

/// What the terminal side is to do next for a restore.
#[derive(Debug, Clone, PartialEq)]
pub enum RestoreStep {
    /// Open a new window with a shell in `cwd`; its pane id comes back.
    SpawnWindow { cwd: Option<String> },
    /// Read the pane list.
    ListPanes,
    /// Set the window title through pane `pane_id`.
    SetWindowTitle { pane_id: u64, title: String },
    /// Open a tab in window `window_id` with a shell in `cwd`; its pane id
    /// comes back.
    SpawnTab { window_id: u64, cwd: Option<String> },
    /// Split pane `pane_id`, the new pane taking `percent` of it, to the right
    /// (vertical) or below (horizontal); its pane id comes back.
    Split { pane_id: u64, direction: SplitDirection, percent: u16, cwd: Option<String> },
    /// Set the tab title through pane `pane_id`.
    SetTabTitle { pane_id: u64, title: String },
    /// The restore is over.
    Done,
}

/// What came of a step: a new pane's id, the pane list, or a title set.
pub enum StepOutcome {
    Pane(Result<u64, String>),
    Panes(Result<Vec<PaneInfo>, String>),
    Titled(Result<(), String>),
}

/// A restore under way: the plan, the operation to run next, the pane each
/// operation made (by position), the restored window's id, and the report so
/// far.
pub struct RestoreRun {
    pub plan: Vec<RestoreOp>,
    pub next: usize,
    pub panes: Vec<u64>,
    pub window_id: u64,
    pub windows_created: usize,
    pub tabs_created: usize,
    pub panes_created: usize,
    pub errors: Vec<String>,
}

pub open spec fn error_views(e: Seq<String>) -> Seq<Seq<char>> {
    e.map_values(|s: String| s@)
}

/// The plan is well formed, the position is inside it, there is a pane slot
/// per operation, and no count exceeds the operations run.
pub open spec fn run_wf(r: RestoreRun) -> bool {
    &&& plan_wf(op_views(r.plan@))
    &&& r.next <= r.plan@.len()
    &&& r.panes@.len() == r.plan@.len()
    &&& r.windows_created <= r.next
    &&& r.tabs_created <= r.next
    &&& r.panes_created <= r.next
}

/// The step that the operation at the run's position asks for.
pub open spec fn step_ok(r: RestoreRun, st: RestoreStep) -> bool {
    if r.next >= r.plan@.len() {
        st == RestoreStep::Done
    } else {
        let op = r.plan@[r.next as int]@;
        let pane = r.panes@[op.pane_from];
        match op.kind {
            KindView::SpawnWindow { cwd } => st matches RestoreStep::SpawnWindow { cwd: c } && opt_view(c) == cwd,
            KindView::FindWindow => st == RestoreStep::ListPanes,
            KindView::SetWindowTitle { title } => st matches RestoreStep::SetWindowTitle { pane_id, title: t } && pane_id == pane
                && t@ == title,
            KindView::SpawnTab { cwd } => st matches RestoreStep::SpawnTab { window_id, cwd: c } && window_id == r.window_id
                && opt_view(c) == cwd,
            KindView::Split { vertical, percent, cwd } => st matches RestoreStep::Split { pane_id, direction, percent: p, cwd: c }
                && pane_id == pane && (direction == SplitDirection::Vertical) == vertical && p == percent && opt_view(c) == cwd,
            KindView::SetTabTitle { title } => st matches RestoreStep::SetTabTitle { pane_id, title: t } && pane_id == pane
                && t@ == title,
        }
    }
}

/// The outcome is of the kind the operation expects.
pub open spec fn outcome_fits(k: KindView, o: StepOutcome) -> bool {
    match k {
        KindView::SpawnWindow { .. } | KindView::SpawnTab { .. } | KindView::Split { .. } => o is Pane,
        KindView::FindWindow => o is Panes,
        _ => o is Titled,
    }
}

/// The window of the first listed pane with id `id`.
pub open spec fn listed_window(ps: Seq<PaneInfo>, id: u64) -> Option<u64>
    decreases ps.len(),
{
    if ps.len() == 0 {
        None
    } else if ps[0].pane_id == id {
        Some(ps[0].window_id)
    } else {
        listed_window(ps.drop_first(), id)
    }
}

pub open spec fn window_prefix(label: int) -> Seq<char> {
    seq!['W', 'i', 'n', 'd', 'o', 'w', ' '] + decimal(label as nat)
}

pub open spec fn tab_prefix(label: int) -> Seq<char> {
    seq!['T', 'a', 'b', ' '] + decimal(label as nat)
}

pub open spec fn spawn_failed() -> Seq<char> {
    seq![':', ' ', 's', 'p', 'a', 'w', 'n', ' ', 'f', 'a', 'i', 'l', 'e', 'd', ':', ' ']
}

pub open spec fn title_failed() -> Seq<char> {
    seq![':', ' ', 's', 'e', 't', ' ', 't', 'i', 't', 'l', 'e', ' ', 'f', 'a', 'i', 'l', 'e', 'd', ':', ' ']
}

pub open spec fn no_window_id() -> Seq<char> {
    seq![
        ':', ' ', 'c', 'o', 'u', 'l', 'd', ' ', 'n', 'o', 't', ' ', 'd', 'i', 's', 'c', 'o', 'v', 'e', 'r', ' ', 'w', 'i', 'n',
        'd', 'o', 'w', '_', 'i', 'd',
    ]
}

pub open spec fn split_failed() -> Seq<char> {
    seq!['s', 'p', 'l', 'i', 't', ' ', 'f', 'a', 'i', 'l', 'e', 'd', ':', ' ']
}

/// Only the position moves, to `next`.
pub open spec fn moved_to(o: RestoreRun, n: RestoreRun, next: int) -> bool {
    &&& n.next == next
    &&& n.plan == o.plan
    &&& n.panes == o.panes
    &&& n.window_id == o.window_id
    &&& n.windows_created == o.windows_created
    &&& n.tabs_created == o.tabs_created
    &&& n.panes_created == o.panes_created
}

/// The position moves to `next`, with error `msg` added to the report.
pub open spec fn failed_to(o: RestoreRun, n: RestoreRun, next: int, msg: Seq<char>) -> bool {
    moved_to(o, n, next) && error_views(n.errors@) == error_views(o.errors@).push(msg)
}

/// What recording the outcome of the operation at the run's position does.
pub open spec fn recorded(o: RestoreRun, n: RestoreRun, out: StepOutcome) -> bool {
    let k = o.next as int;
    let op = o.plan@[k]@;
    let same_errors = error_views(n.errors@) == error_views(o.errors@);
    match op.kind {
        KindView::SpawnWindow { .. } => match out {
            StepOutcome::Pane(Ok(id)) => n.next == k + 1 && n.plan == o.plan && n.panes@ == o.panes@.update(k, id)
                && n.window_id == o.window_id && n.windows_created == o.windows_created + 1 && n.tabs_created
                == o.tabs_created && n.panes_created == o.panes_created + 1 && same_errors,
            StepOutcome::Pane(Err(e)) => failed_to(o, n, op.on_failure, window_prefix(op.label) + spawn_failed() + e@),
            _ => false,
        },
        KindView::FindWindow => match out {
            StepOutcome::Panes(Ok(ps)) => match listed_window(ps@, o.panes@[op.pane_from]) {
                Some(w) => n.next == k + 1 && n.plan == o.plan && n.panes == o.panes && n.window_id == w && n.windows_created
                    == o.windows_created && n.tabs_created == o.tabs_created + 1 && n.panes_created == o.panes_created
                    && same_errors,
                None => failed_to(o, n, op.on_failure, window_prefix(op.label) + no_window_id()),
            },
            StepOutcome::Panes(Err(_)) => failed_to(o, n, op.on_failure, window_prefix(op.label) + no_window_id()),
            _ => false,
        },
        KindView::SpawnTab { .. } => match out {
            StepOutcome::Pane(Ok(id)) => n.next == k + 1 && n.plan == o.plan && n.panes@ == o.panes@.update(k, id)
                && n.window_id == o.window_id && n.windows_created == o.windows_created && n.tabs_created == o.tabs_created
                + 1 && n.panes_created == o.panes_created + 1 && same_errors,
            StepOutcome::Pane(Err(e)) => failed_to(o, n, op.on_failure, tab_prefix(op.label) + spawn_failed() + e@),
            _ => false,
        },
        KindView::Split { .. } => match out {
            StepOutcome::Pane(Ok(id)) => n.next == k + 1 && n.plan == o.plan && n.panes@ == o.panes@.update(k, id)
                && n.window_id == o.window_id && n.windows_created == o.windows_created && n.tabs_created == o.tabs_created
                && n.panes_created == o.panes_created + 1 && same_errors,
            StepOutcome::Pane(Err(e)) => failed_to(o, n, op.on_failure, split_failed() + e@),
            _ => false,
        },
        KindView::SetWindowTitle { .. } => match out {
            StepOutcome::Titled(Ok(_)) => moved_to(o, n, k + 1) && same_errors,
            StepOutcome::Titled(Err(e)) => failed_to(o, n, k + 1, window_prefix(op.label) + title_failed() + e@),
            _ => false,
        },
        KindView::SetTabTitle { .. } => match out {
            StepOutcome::Titled(Ok(_)) => moved_to(o, n, k + 1) && same_errors,
            StepOutcome::Titled(Err(e)) => failed_to(o, n, k + 1, tab_prefix(op.label) + title_failed() + e@),
            _ => false,
        },
    }
}

fn find_listed_window(ps: &Vec<PaneInfo>, id: u64) -> (r: Option<u64>)
    ensures
        r == listed_window(ps@, id),
{
    let mut i: usize = 0;
    assert(ps@.skip(0) =~= ps@);
    while i < ps.len()
        invariant
            i <= ps@.len(),
            listed_window(ps@, id) == listed_window(ps@.skip(i as int), id),
        decreases ps@.len() - i,
    {
        if ps[i].pane_id == id {
            return Some(ps[i].window_id);
        }
        assert(ps@.skip(i as int).drop_first() =~= ps@.skip(i + 1));
        i = i + 1;
    }
    None
}

fn error_text(prefix: &str, label: usize, middle: &str, detail: &str) -> (r: String)
    ensures
        r@ == prefix@ + decimal(label as nat) + middle@ + detail@,
{
    let mut out: Vec<char> = Vec::new();
    push_str(&mut out, prefix);
    push_decimal(&mut out, label as u64);
    push_str(&mut out, middle);
    push_str(&mut out, detail);
    assert(out@ =~= prefix@ + decimal(label as nat) + middle@ + detail@);
    string_from_chars(out.as_slice())
}

impl RestoreRun {
    /// A restore of `session` about to start (see [`restore_plan`]).
    pub fn new(session: &Session) -> (r: RestoreRun)
        ensures
            run_wf(r),
            op_views(r.plan@) == restore_plan(*session),
            r.next == 0,
            r.windows_created == 0 && r.tabs_created == 0 && r.panes_created == 0,
            r.errors@.len() == 0,
    {
        let plan = plan_restore(session);
        proof {
            lemma_plan_wf(*session);
        }
        let mut panes: Vec<u64> = Vec::new();
        let mut i: usize = 0;
        while i < plan.len()
            invariant
                i <= plan@.len(),
                panes@.len() == i,
            decreases plan@.len() - i,
        {
            panes.push(0);
            i = i + 1;
        }
        RestoreRun { plan, next: 0, panes, window_id: 0, windows_created: 0, tabs_created: 0, panes_created: 0, errors: Vec::new() }
    }

    /// Whether every operation has been run.
    pub fn is_done(&self) -> (b: bool)
        ensures
            b == (self.next >= self.plan@.len()),
    {
        self.next >= self.plan.len()
    }

    /// The step the next operation asks for (see [`step_ok`]).
    pub fn step(&self) -> (st: RestoreStep)
        requires
            run_wf(*self),
        ensures
            step_ok(*self, st),
    {
        if self.next >= self.plan.len() {
            return RestoreStep::Done;
        }
        let op = &self.plan[self.next];
        assert(op_views(self.plan@)[self.next as int] == self.plan@[self.next as int]@);
        let pane = self.panes[op.pane_from];
        match &op.kind {
            OpKind::SpawnWindow { cwd } => RestoreStep::SpawnWindow { cwd: clone_opt_string(cwd) },
            OpKind::FindWindow => RestoreStep::ListPanes,
            OpKind::SetWindowTitle { title } => RestoreStep::SetWindowTitle { pane_id: pane, title: copy_title(title) },
            OpKind::SpawnTab { cwd } => RestoreStep::SpawnTab { window_id: self.window_id, cwd: clone_opt_string(cwd) },
            OpKind::Split { direction, percent, cwd } => RestoreStep::Split {
                pane_id: pane,
                direction: *direction,
                percent: *percent,
                cwd: clone_opt_string(cwd),
            },
            OpKind::SetTabTitle { title } => RestoreStep::SetTabTitle { pane_id: pane, title: copy_title(title) },
        }
    }

    /// Takes in what came of the step the next operation asked for, and moves
    /// on (see [`recorded`]): past it on success, to where the plan says after
    /// a failure, which the report records.
    pub fn record(&mut self, outcome: StepOutcome)
        requires
            run_wf(*old(self)),
            old(self).next < old(self).plan@.len(),
            outcome_fits(old(self).plan@[old(self).next as int]@.kind, outcome),
        ensures
            run_wf(*final(self)),
            recorded(*old(self), *final(self), outcome),
    {
        let k = self.next;
        let ghost ov = self.plan@[k as int]@;
        assert(op_views(self.plan@)[k as int] == ov);
        assert(ops_wf_at(op_views(self.plan@), 0, self.plan@.len() as int));
        let on_failure = self.plan[k].on_failure;
        let label = self.plan[k].label;
        let from = self.plan[k].pane_from;
        let ghost old_errors = error_views(self.errors@);
        proof {
            reveal_strlit("Window ");
            reveal_strlit("Tab ");
            reveal_strlit(": spawn failed: ");
            reveal_strlit(": set title failed: ");
            reveal_strlit(": could not discover window_id");
            reveal_strlit("split failed: ");
            reveal_strlit("");
        }
        assert("Window "@ =~= seq!['W', 'i', 'n', 'd', 'o', 'w', ' ']);
        assert("Tab "@ =~= seq!['T', 'a', 'b', ' ']);
        assert(": spawn failed: "@ =~= spawn_failed());
        assert(": set title failed: "@ =~= title_failed());
        assert(": could not discover window_id"@ =~= no_window_id());
        assert("split failed: "@ =~= split_failed());
        assert(""@ =~= Seq::<char>::empty());
        assert(ov.on_failure > k && ov.on_failure <= self.plan@.len());
        assert(ov.pane_from <= k);
        match &self.plan[k].kind {
            OpKind::SpawnWindow { .. } => match outcome {
                StepOutcome::Pane(Ok(id)) => {
                    self.panes.set(k, id);
                    self.windows_created = self.windows_created + 1;
                    self.panes_created = self.panes_created + 1;
                    self.next = k + 1;
                },
                StepOutcome::Pane(Err(e)) => {
                    let msg = error_text("Window ", label, ": spawn failed: ", e.as_str());
                    self.errors.push(msg);
                    self.next = on_failure;
                    assert(error_views(self.errors@) =~= old_errors.push(msg@));
                },
                _ => {},
            },
            OpKind::FindWindow => match outcome {
                StepOutcome::Panes(Ok(ps)) => match find_listed_window(&ps, self.panes[from]) {
                    Some(w) => {
                        self.window_id = w;
                        self.tabs_created = self.tabs_created + 1;
                        self.next = k + 1;
                    },
                    None => {
                        let msg = error_text("Window ", label, ": could not discover window_id", "");
                        self.errors.push(msg);
                        self.next = on_failure;
                        assert(error_views(self.errors@) =~= old_errors.push(msg@));
                    },
                },
                StepOutcome::Panes(Err(_)) => {
                    let msg = error_text("Window ", label, ": could not discover window_id", "");
                    self.errors.push(msg);
                    self.next = on_failure;
                    assert(error_views(self.errors@) =~= old_errors.push(msg@));
                },
                _ => {},
            },
            OpKind::SpawnTab { .. } => match outcome {
                StepOutcome::Pane(Ok(id)) => {
                    self.panes.set(k, id);
                    self.tabs_created = self.tabs_created + 1;
                    self.panes_created = self.panes_created + 1;
                    self.next = k + 1;
                },
                StepOutcome::Pane(Err(e)) => {
                    let msg = error_text("Tab ", label, ": spawn failed: ", e.as_str());
                    self.errors.push(msg);
                    self.next = on_failure;
                    assert(error_views(self.errors@) =~= old_errors.push(msg@));
                },
                _ => {},
            },
            OpKind::Split { .. } => match outcome {
                StepOutcome::Pane(Ok(id)) => {
                    self.panes.set(k, id);
                    self.panes_created = self.panes_created + 1;
                    self.next = k + 1;
                },
                StepOutcome::Pane(Err(e)) => {
                    let mut out: Vec<char> = Vec::new();
                    push_str(&mut out, "split failed: ");
                    push_str(&mut out, e.as_str());
                    let msg = string_from_chars(out.as_slice());
                    self.errors.push(msg);
                    self.next = on_failure;
                    assert(error_views(self.errors@) =~= old_errors.push(split_failed() + e@));
                },
                _ => {},
            },
            OpKind::SetWindowTitle { .. } => match outcome {
                StepOutcome::Titled(Ok(_)) => {
                    self.next = k + 1;
                },
                StepOutcome::Titled(Err(e)) => {
                    let msg = error_text("Window ", label, ": set title failed: ", e.as_str());
                    self.errors.push(msg);
                    self.next = k + 1;
                    assert(error_views(self.errors@) =~= old_errors.push(msg@));
                },
                _ => {},
            },
            OpKind::SetTabTitle { .. } => match outcome {
                StepOutcome::Titled(Ok(_)) => {
                    self.next = k + 1;
                },
                StepOutcome::Titled(Err(e)) => {
                    let msg = error_text("Tab ", label, ": set title failed: ", e.as_str());
                    self.errors.push(msg);
                    self.next = k + 1;
                    assert(error_views(self.errors@) =~= old_errors.push(msg@));
                },
                _ => {},
            },
        }
    }

    /// The report of what the restore created and what failed.
    pub fn report(&self) -> (r: RestoreReport)
        ensures
            r.windows_created == self.windows_created,
            r.tabs_created == self.tabs_created,
            r.panes_created == self.panes_created,
            error_views(r.errors@) == error_views(self.errors@),
    {
        let mut errors: Vec<String> = Vec::new();
        let mut i: usize = 0;
        while i < self.errors.len()
            invariant
                i <= self.errors@.len(),
                error_views(errors@) == error_views(self.errors@).take(i as int),
            decreases self.errors@.len() - i,
        {
            let ghost before = error_views(errors@);
            let e = copy_title(&self.errors[i]);
            errors.push(e);
            assert(error_views(errors@) =~= before.push(self.errors@[i as int]@));
            i = i + 1;
            assert(error_views(errors@) =~= error_views(self.errors@).take(i as int));
        }
        assert(error_views(self.errors@).take(self.errors@.len() as int) =~= error_views(self.errors@));
        RestoreReport {
            windows_created: self.windows_created,
            tabs_created: self.tabs_created,
            panes_created: self.panes_created,
            errors,
        }
    }
}


/// The counts of windows, tabs and panes a run has created.
pub open spec fn created(r: RestoreRun) -> (int, int, int) {
    (r.windows_created as int, r.tabs_created as int, r.panes_created as int)
}

/// A step that adds no error to the report is the operation's success: the
/// run moves on to the next operation and counts what it created.
pub proof fn lemma_step_without_error(o: RestoreRun, n: RestoreRun, out: StepOutcome)
    requires
        run_wf(o),
        o.next < o.plan@.len(),
        recorded(o, n, out),
        error_views(n.errors@) == error_views(o.errors@),
    ensures
        n.next == o.next + 1,
        n.plan == o.plan,
        created(n) == ({
            let g = op_gain(o.plan@[o.next as int]@.kind);
            (created(o).0 + g.0, created(o).1 + g.1, created(o).2 + g.2)
        }),
{
    let ev = error_views(o.errors@);
    assert forall|m: Seq<char>| ev.push(m) != ev by {
        assert(ev.push(m).len() != ev.len());
    }
}

/// Runs `runs[0]`, `runs[1]`, ... where each is the one before with the
/// outcome `outs[j]` recorded, and no step added an error.
pub open spec fn clean_run(runs: Seq<RestoreRun>, outs: Seq<StepOutcome>) -> bool {
    &&& runs.len() == outs.len() + 1
    &&& runs[0].next == 0
    &&& created(runs[0]) == (0int, 0int, 0int)
    &&& forall|j: int|
        0 <= j < outs.len() ==> {
            &&& run_wf(#[trigger] runs[j])
            &&& runs[j].next < runs[j].plan@.len()
            &&& recorded(runs[j], runs[j + 1], outs[j])
            &&& error_views(runs[j + 1].errors@) == error_views(runs[j].errors@)
        }
}

proof fn lemma_clean_run_prefix(runs: Seq<RestoreRun>, outs: Seq<StepOutcome>, i: int)
    requires
        clean_run(runs, outs),
        0 <= i <= outs.len(),
    ensures
        runs[i].next == i,
        runs[i].plan == runs[0].plan,
        created(runs[i]) == tally(op_views(runs[0].plan@).take(i)),
    decreases i,
{
    let ops = op_views(runs[0].plan@);
    if i == 0 {
        assert(ops.take(0) =~= Seq::<OpView>::empty());
    } else {
        lemma_clean_run_prefix(runs, outs, i - 1);
        let o = runs[i - 1];
        assert(run_wf(o));
        lemma_step_without_error(o, runs[i], outs[i - 1]);
        assert(ops.take(i).drop_last() =~= ops.take(i - 1));
        assert(ops.take(i).last() == ops[i - 1]);
        assert(ops[i - 1] == o.plan@[i - 1]@);
    }
}

/// A restore in which no step fails creates the saved layout: one window
/// for each saved window that has a tab, one tab for each of their tabs,
/// and one pane for each saved pane.
pub proof fn lemma_restore_without_failures(s: Session, runs: Seq<RestoreRun>, outs: Seq<StepOutcome>)
    requires
        clean_run(runs, outs),
        op_views(runs[0].plan@) == restore_plan(s),
        outs.len() == runs[0].plan@.len(),
    ensures
        runs.last().next == runs[0].plan@.len(),
        created(runs.last()) == (
            saved_windows(s, s.windows.len() as int),
            saved_tabs(s, s.windows.len() as int),
            saved_panes(s, s.windows.len() as int),
        ),
{
    let n = outs.len() as int;
    lemma_clean_run_prefix(runs, outs, n);
    let ops = op_views(runs[0].plan@);
    assert(ops.take(n) =~= ops);
    lemma_plan_creates_saved_layout(s, s.windows.len() as int);
}

/// Rebuilding a saved layout takes one split per pane beyond the first: the
/// split operations of a tab are one fewer than its saved panes.
pub proof fn lemma_one_split_per_extra_pane(v: SplitView, from: int, base: int)
    ensures
        split_ops(v, from, base).len() + 1 == leaf_count(v),
    decreases v,
{
    match v {
        SplitView::Leaf { .. } => {},
        SplitView::Split { first, second, .. } => {
            let f = split_ops(*first, from, base + 1);
            lemma_one_split_per_extra_pane(*first, from, base + 1);
            lemma_one_split_per_extra_pane(*second, base, base + 1 + f.len());
        },
    }
}


/// A saved tab comes back with as many panes as it had when it was
/// captured: the tab's first pane plus one split per further pane of the
/// layout recovered from its panes.
pub proof fn lemma_restored_tab_pane_count(panes: Seq<WezPane>, from: int, base: int)
    requires
        panes.len() >= 1,
    ensures
        1 + split_ops(reconstruct(panes), from, base).len() == panes.len(),
{
    lemma_reconstruct_leaf_count(panes);
    lemma_one_split_per_extra_pane(reconstruct(panes), from, base);
}

} // verus!
