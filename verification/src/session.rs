use vstd::prelude::*;
use vstd::string::*;
use vstd::multiset::Multiset;

use crate::model::{WezPane, WezWindow};
use crate::text::{clone_opt_string, padded_decimal, push_padded_decimal, string_from_chars};

verus! {

/// A saved workspace: its windows, their tabs and each tab's split layout.
#[derive(Debug, PartialEq)]
pub struct Session {
    pub name: String,
    pub saved_at: String,
    pub windows: Vec<SessionWindow>,
}

/// A saved window.
#[derive(Debug, PartialEq)]
pub struct SessionWindow {
    pub title: Option<String>,
    pub tabs: Vec<SessionTab>,
}

/// A saved tab with the root of its split tree.
#[derive(Debug, PartialEq)]
pub struct SessionTab {
    pub title: Option<String>,
    pub root: SplitNode,
}

/// A binary split tree: a leaf pane, or a split of a region in two.
#[derive(Debug, PartialEq)]
pub enum SplitNode {
    Pane { cwd: Option<String>, title: String },
    Split {
        direction: SplitDirection,
        percent: u16,
        first: Box<SplitNode>,
        second: Box<SplitNode>,
    },
}

/// `Vertical` puts `first` left of `second`; `Horizontal` puts it above.
#[derive(Debug, Clone, Copy, PartialEq, Eq)]
pub enum SplitDirection {
    Horizontal,
    Vertical,
}

/// A saved session as the session list shows it.
#[derive(Debug, Clone, PartialEq)]
pub struct SessionSummary {
    pub name: String,
    pub saved_at: String,
    pub window_count: usize,
    pub tab_count: usize,
}

impl SessionSummary {
    /// A copy of the summary.
    pub fn copy(&self) -> (r: SessionSummary)
        ensures
            r == *self,
    {
        SessionSummary {
            name: self.name.clone(),
            saved_at: self.saved_at.clone(),
            window_count: self.window_count,
            tab_count: self.tab_count,
        }
    }
}

/// What restoring a session created, and what went wrong on the way.
#[derive(Debug, Clone, PartialEq)]
pub struct RestoreReport {
    pub windows_created: usize,
    pub tabs_created: usize,
    pub panes_created: usize,
    pub errors: Vec<String>,
}

/// What a split tree holds, with strings taken by their characters.
pub enum SplitView {
    Leaf { cwd: Option<Seq<char>>, title: Seq<char> },
    Split { vertical: bool, percent: int, first: Box<SplitView>, second: Box<SplitView> },
}

pub open spec fn opt_view(o: Option<String>) -> Option<Seq<char>> {
    match o {
        Some(s) => Some(s@),
        None => None,
    }
}

pub open spec fn split_view(n: SplitNode) -> SplitView
    decreases n,
{
    match n {
        SplitNode::Pane { cwd, title } => SplitView::Leaf { cwd: opt_view(cwd), title: title@ },
        SplitNode::Split { direction, percent, first, second } => SplitView::Split {
            vertical: direction == SplitDirection::Vertical,
            percent: percent as int,
            first: Box::new(split_view(*first)),
            second: Box::new(split_view(*second)),
        },
    }
}

impl View for SplitNode {
    type V = SplitView;

    open spec fn view(&self) -> SplitView {
        split_view(*self)
    }
}

/// The number of leaf panes of a split tree.
pub open spec fn leaf_count(v: SplitView) -> nat
    decreases v,
{
    match v {
        SplitView::Leaf { .. } => 1,
        SplitView::Split { first, second, .. } => leaf_count(*first) + leaf_count(*second),
    }
}

/// Every split of the tree gives its first part between 1 and 99 percent.
pub open spec fn percents_in_range(v: SplitView) -> bool
    decreases v,
{
    match v {
        SplitView::Leaf { .. } => true,
        SplitView::Split { percent, first, second, .. } => 1 <= percent <= 99 && percents_in_range(
            *first,
        ) && percents_in_range(*second),
    }
}

// -- Geometry along one axis: `vertical` reads columns, otherwise rows. --

/// A pane's first cell along the axis.
pub open spec fn lo(p: WezPane, vertical: bool) -> int {
    if vertical { p.left as int } else { p.top as int }
}

/// The cell just past a pane along the axis.
pub open spec fn hi(p: WezPane, vertical: bool) -> int {
    if vertical { p.left + p.width } else { p.top + p.height }
}

/// The least first cell of the panes along the axis (0 for none).
pub open spec fn min_lo(s: Seq<WezPane>, vertical: bool) -> int
    decreases s.len(),
{
    if s.len() == 0 {
        0
    } else if s.len() == 1 {
        lo(s[0], vertical)
    } else {
        let m = min_lo(s.drop_last(), vertical);
        let x = lo(s.last(), vertical);
        if x < m { x } else { m }
    }
}

/// The greatest end of the panes along the axis (0 for none).
pub open spec fn max_hi(s: Seq<WezPane>, vertical: bool) -> int
    decreases s.len(),
{
    if s.len() == 0 {
        0
    } else if s.len() == 1 {
        hi(s[0], vertical)
    } else {
        let m = max_hi(s.drop_last(), vertical);
        let x = hi(s.last(), vertical);
        if x > m { x } else { m }
    }
}

/// The pane lies before the cut line `c`, with a tolerance of two cells.
pub open spec fn goes_first(p: WezPane, c: int, vertical: bool) -> bool {
    hi(p, vertical) <= c + 2 && lo(p, vertical) < c
}

/// The pane lies after the cut line `c`, with a tolerance of two cells.
pub open spec fn goes_second(p: WezPane, c: int, vertical: bool) -> bool {
    lo(p, vertical) + 2 >= c && hi(p, vertical) > c
}

/// `c` cleanly parts the panes in two non-empty groups: it lies inside their
/// bounding box, and every pane lies before it or after it.
pub open spec fn cut_ok(s: Seq<WezPane>, c: int, vertical: bool) -> bool {
    &&& c < max_hi(s, vertical)
    &&& forall|i: int| 0 <= i < s.len() ==> goes_first(#[trigger] s[i], c, vertical) || goes_second(s[i], c, vertical)
    &&& exists|i: int| 0 <= i < s.len() && goes_first(#[trigger] s[i], c, vertical)
    &&& exists|i: int| 0 <= i < s.len() && !goes_first(#[trigger] s[i], c, vertical)
}

/// The smallest end `hi(s[i])`, for `i < k`, that is a clean cut.
pub open spec fn best_cut(s: Seq<WezPane>, vertical: bool, k: int) -> Option<int>
    decreases k,
{
    if k <= 0 {
        None
    } else {
        let b = best_cut(s, vertical, k - 1);
        let c = hi(s[k - 1], vertical);
        if cut_ok(s, c, vertical) {
            match b {
                Some(x) => Some(if c < x { c } else { x }),
                None => Some(c),
            }
        } else {
            b
        }
    }
}

/// The panes before the cut, in order.
pub open spec fn first_part(s: Seq<WezPane>, c: int, vertical: bool) -> Seq<WezPane>
    decreases s.len(),
{
    if s.len() == 0 {
        s
    } else if goes_first(s.last(), c, vertical) {
        first_part(s.drop_last(), c, vertical).push(s.last())
    } else {
        first_part(s.drop_last(), c, vertical)
    }
}

/// The panes after the cut, in order.
pub open spec fn second_part(s: Seq<WezPane>, c: int, vertical: bool) -> Seq<WezPane>
    decreases s.len(),
{
    if s.len() == 0 {
        s
    } else if !goes_first(s.last(), c, vertical) {
        second_part(s.drop_last(), c, vertical).push(s.last())
    } else {
        second_part(s.drop_last(), c, vertical)
    }
}

/// The panes picked out by `idx`.
pub open spec fn sel(panes: Seq<WezPane>, idx: Seq<usize>) -> Seq<WezPane> {
    idx.map_values(|i: usize| panes[i as int])
}

/// All indices in `idx` point into `panes`.
pub open spec fn idx_ok(panes: Seq<WezPane>, idx: Seq<usize>) -> bool {
    forall|k: int| 0 <= k < idx.len() ==> (#[trigger] idx[k]) < panes.len()
}

/// Pane edges at most `u64::MAX / 100`, so that an edge plus the tolerance
/// of 2 and a distance times 100 (for a split percentage) fit in a `u64`.
pub open spec fn geometry_fits(s: Seq<WezPane>) -> bool {
    forall|i: int|
        0 <= i < s.len() ==> (#[trigger] s[i]).left + s[i].width <= 184_467_440_737_095_516 && s[i].top
            + s[i].height <= 184_467_440_737_095_516
}

proof fn lemma_parts_take(s: Seq<WezPane>, k: int, c: int, vertical: bool)
    requires
        0 <= k < s.len(),
    ensures
        first_part(s.take(k + 1), c, vertical) == if goes_first(s[k], c, vertical) {
            first_part(s.take(k), c, vertical).push(s[k])
        } else {
            first_part(s.take(k), c, vertical)
        },
        second_part(s.take(k + 1), c, vertical) == if !goes_first(s[k], c, vertical) {
            second_part(s.take(k), c, vertical).push(s[k])
        } else {
            second_part(s.take(k), c, vertical)
        },
{
    assert(s.take(k + 1).drop_last() =~= s.take(k));
}

proof fn lemma_bounds_take(s: Seq<WezPane>, k: int, vertical: bool)
    requires
        0 <= k < s.len(),
    ensures
        min_lo(s.take(k + 1), vertical) == if k == 0 {
            lo(s[0], vertical)
        } else if lo(s[k], vertical) < min_lo(s.take(k), vertical) {
            lo(s[k], vertical)
        } else {
            min_lo(s.take(k), vertical)
        },
        max_hi(s.take(k + 1), vertical) == if k == 0 {
            hi(s[0], vertical)
        } else if hi(s[k], vertical) > max_hi(s.take(k), vertical) {
            hi(s[k], vertical)
        } else {
            max_hi(s.take(k), vertical)
        },
{
    assert(s.take(k + 1).drop_last() =~= s.take(k));
}

fn lo_of(p: &WezPane, vertical: bool) -> (r: u64)
    ensures
        r == lo(*p, vertical),
{
    if vertical { p.left } else { p.top }
}

fn hi_of(p: &WezPane, vertical: bool) -> (r: u64)
    requires
        p.left + p.width <= 184_467_440_737_095_516,
        p.top + p.height <= 184_467_440_737_095_516,
    ensures
        r == hi(*p, vertical),
        r <= 184_467_440_737_095_516,
{
    if vertical { p.left + p.width } else { p.top + p.height }
}

/// The bounding box of the picked panes along the axis: least first cell and
/// greatest end.
fn bounds_of(panes: &[WezPane], idx: &Vec<usize>, vertical: bool) -> (r: (u64, u64))
    requires
        idx_ok(panes@, idx@),
        geometry_fits(panes@),
    ensures
        r.0 == min_lo(sel(panes@, idx@), vertical),
        r.1 == max_hi(sel(panes@, idx@), vertical),
        r.1 <= 184_467_440_737_095_516,
{
    let ghost s = sel(panes@, idx@);
    let mut lo_min: u64 = 0;
    let mut hi_max: u64 = 0;
    let mut k: usize = 0;
    while k < idx.len()
        invariant
            k <= idx@.len(),
            idx_ok(panes@, idx@),
            geometry_fits(panes@),
            s == sel(panes@, idx@),
            lo_min == min_lo(s.take(k as int), vertical),
            hi_max == max_hi(s.take(k as int), vertical),
            hi_max <= 184_467_440_737_095_516,
        decreases idx@.len() - k,
    {
        let p = &panes[idx[k]];
        assert(*p == s[k as int]);
        proof {
            lemma_bounds_take(s, k as int, vertical);
        }
        let l = lo_of(p, vertical);
        let h = hi_of(p, vertical);
        if k == 0 || l < lo_min {
            lo_min = l;
        }
        if k == 0 || h > hi_max {
            hi_max = h;
        }
        k = k + 1;
    }
    assert(s.take(idx@.len() as int) =~= s);
    (lo_min, hi_max)
}


pub proof fn lemma_parts_len(s: Seq<WezPane>, c: int, vertical: bool)
    ensures
        first_part(s, c, vertical).len() + second_part(s, c, vertical).len() == s.len(),
        (exists|i: int| 0 <= i < s.len() && goes_first(#[trigger] s[i], c, vertical)) ==> first_part(
            s,
            c,
            vertical,
        ).len() > 0,
        (exists|i: int| 0 <= i < s.len() && !goes_first(#[trigger] s[i], c, vertical)) ==> second_part(
            s,
            c,
            vertical,
        ).len() > 0,
    decreases s.len(),
{
    if s.len() > 0 {
        let t = s.drop_last();
        lemma_parts_len(t, c, vertical);
        if exists|i: int| 0 <= i < s.len() && goes_first(#[trigger] s[i], c, vertical) {
            let i = choose|i: int| 0 <= i < s.len() && goes_first(#[trigger] s[i], c, vertical);
            if i < s.len() - 1 {
                assert(goes_first(t[i], c, vertical));
            }
        }
        if exists|i: int| 0 <= i < s.len() && !goes_first(#[trigger] s[i], c, vertical) {
            let i = choose|i: int| 0 <= i < s.len() && !goes_first(#[trigger] s[i], c, vertical);
            if i < s.len() - 1 {
                assert(!goes_first(t[i], c, vertical));
            }
        }
    }
}

pub proof fn lemma_best_cut_ok(s: Seq<WezPane>, vertical: bool, k: int)
    requires
        k <= s.len(),
    ensures
        best_cut(s, vertical, k) matches Some(c) ==> cut_ok(s, c, vertical),
        best_cut(s, vertical, k) matches Some(c) ==> forall|j: int|
            0 <= j < k && cut_ok(s, #[trigger] hi(s[j], vertical), vertical) ==> c <= hi(s[j], vertical),
        best_cut(s, vertical, k) is None ==> forall|j: int|
            0 <= j < k ==> !cut_ok(s, #[trigger] hi(s[j], vertical), vertical),
    decreases k,
{
    if k > 0 {
        lemma_best_cut_ok(s, vertical, k - 1);
    }
}

/// Whether `c` cleanly parts the picked panes along the axis.
fn cut_is_ok(panes: &[WezPane], idx: &Vec<usize>, c: u64, hi_max: u64, vertical: bool) -> (b: bool)
    requires
        idx_ok(panes@, idx@),
        geometry_fits(panes@),
        hi_max == max_hi(sel(panes@, idx@), vertical),
        c <= 184_467_440_737_095_516,
    ensures
        b == cut_ok(sel(panes@, idx@), c as int, vertical),
{
    let ghost s = sel(panes@, idx@);
    if c >= hi_max {
        return false;
    }
    let mut has_first = false;
    let mut has_second = false;
    let mut k: usize = 0;
    while k < idx.len()
        invariant
            k <= idx@.len(),
            idx_ok(panes@, idx@),
            geometry_fits(panes@),
            s == sel(panes@, idx@),
            c <= 184_467_440_737_095_516,
            forall|j: int| 0 <= j < k ==> goes_first(#[trigger] s[j], c as int, vertical) || goes_second(s[j], c as int, vertical),
            has_first == exists|j: int| 0 <= j < k && goes_first(#[trigger] s[j], c as int, vertical),
            has_second == exists|j: int| 0 <= j < k && !goes_first(#[trigger] s[j], c as int, vertical),
        decreases idx@.len() - k,
    {
        let p = &panes[idx[k]];
        assert(*p == s[k as int]);
        let l = lo_of(p, vertical);
        let h = hi_of(p, vertical);
        if h <= c + 2 && l < c {
            has_first = true;
        } else if l + 2 >= c && h > c {
            has_second = true;
        } else {
            assert(!(goes_first(s[k as int], c as int, vertical) || goes_second(s[k as int], c as int, vertical)));
            return false;
        }
        k = k + 1;
    }
    has_first && has_second
}

/// The smallest pane end along the axis that cleanly parts the picked panes,
/// with the indices of the panes before it and after it, each in order.
fn find_cut(panes: &[WezPane], idx: &Vec<usize>, vertical: bool) -> (r: Option<(u64, Vec<usize>, Vec<usize>)>)
    requires
        idx_ok(panes@, idx@),
        geometry_fits(panes@),
    ensures
        match r {
            None => best_cut(sel(panes@, idx@), vertical, idx@.len() as int) is None,
            Some((c, a, b)) => {
                &&& best_cut(sel(panes@, idx@), vertical, idx@.len() as int) == Some(c as int)
                &&& idx_ok(panes@, a@)
                &&& idx_ok(panes@, b@)
                &&& sel(panes@, a@) == first_part(sel(panes@, idx@), c as int, vertical)
                &&& sel(panes@, b@) == second_part(sel(panes@, idx@), c as int, vertical)
                &&& c <= 184_467_440_737_095_516
            },
        },
{
    let ghost s = sel(panes@, idx@);
    let (_, hi_max) = bounds_of(panes, idx, vertical);
    let mut best: Option<u64> = None;
    let mut k: usize = 0;
    while k < idx.len()
        invariant
            k <= idx@.len(),
            idx_ok(panes@, idx@),
            geometry_fits(panes@),
            s == sel(panes@, idx@),
            hi_max == max_hi(s, vertical),
            best matches Some(b) ==> b <= 184_467_440_737_095_516,
            match best {
                Some(b) => best_cut(s, vertical, k as int) == Some(b as int),
                None => best_cut(s, vertical, k as int) is None,
            },
        decreases idx@.len() - k,
    {
        let p = &panes[idx[k]];
        assert(*p == s[k as int]);
        let h = hi_of(p, vertical);
        if cut_is_ok(panes, idx, h, hi_max, vertical) {
            match best {
                Some(b) => {
                    if h < b {
                        best = Some(h);
                    }
                },
                None => {
                    best = Some(h);
                },
            }
        }
        k = k + 1;
    }
    match best {
        None => None,
        Some(c) => {
            let mut a: Vec<usize> = Vec::new();
            let mut b: Vec<usize> = Vec::new();
            let mut k: usize = 0;
            while k < idx.len()
                invariant
                    k <= idx@.len(),
                    idx_ok(panes@, idx@),
                    geometry_fits(panes@),
                    s == sel(panes@, idx@),
                    c <= 184_467_440_737_095_516,
                    idx_ok(panes@, a@),
                    idx_ok(panes@, b@),
                    sel(panes@, a@) == first_part(s.take(k as int), c as int, vertical),
                    sel(panes@, b@) == second_part(s.take(k as int), c as int, vertical),
                decreases idx@.len() - k,
            {
                let i = idx[k];
                let p = &panes[i];
                assert(*p == s[k as int]);
                proof {
                    lemma_parts_take(s, k as int, c as int, vertical);
                }
                let l = lo_of(p, vertical);
                let h = hi_of(p, vertical);
                if h <= c + 2 && l < c {
                    a.push(i);
                    assert(sel(panes@, a@) =~= first_part(s.take(k as int), c as int, vertical).push(s[k as int]));
                } else {
                    b.push(i);
                    assert(sel(panes@, b@) =~= second_part(s.take(k as int), c as int, vertical).push(s[k as int]));
                }
                k = k + 1;
            }
            assert(s.take(idx@.len() as int) =~= s);
            Some((c, a, b))
        },
    }
}


/// The leaf a pane becomes.
pub open spec fn pane_leaf(p: WezPane) -> SplitView {
    SplitView::Leaf { cwd: opt_view(p.cwd), title: p.title@ }
}

/// The share, in percent, that a cut at `c` gives the first part of the
/// extent `l..h`: the truncated quotient, kept between 1 and 99; 50 when the
/// extent is empty.
pub open spec fn percent_of(c: int, l: int, h: int) -> int {
    let total = if h > l { h - l } else { 0 };
    let raw = if total > 0 {
        (if c > l { c - l } else { 0 }) * 100 / total
    } else {
        50
    };
    if raw < 1 { 1 } else if raw > 99 { 99 } else { raw }
}

/// The split tree of the panes `s`, recovered from their geometry: a single
/// pane is a leaf; otherwise the smallest clean vertical cut parts them left
/// and right, failing that the smallest clean horizontal cut parts them top
/// and bottom, and failing both the first pane is split off to the left of
/// the rest at 50 percent. No panes give an empty leaf.
pub open spec fn reconstruct(s: Seq<WezPane>) -> SplitView
    decreases s.len(),
{
    if s.len() == 1 {
        pane_leaf(s[0])
    } else if s.len() == 0 {
        SplitView::Leaf { cwd: None, title: Seq::empty() }
    } else {
        match best_cut(s, true, s.len() as int) {
            Some(c) => {
                proof {
                    lemma_best_cut_ok(s, true, s.len() as int);
                    lemma_parts_len(s, c, true);
                }
                SplitView::Split {
                    vertical: true,
                    percent: percent_of(c, min_lo(s, true), max_hi(s, true)),
                    first: Box::new(reconstruct(first_part(s, c, true))),
                    second: Box::new(reconstruct(second_part(s, c, true))),
                }
            },
            None => match best_cut(s, false, s.len() as int) {
                Some(c) => {
                    proof {
                        lemma_best_cut_ok(s, false, s.len() as int);
                        lemma_parts_len(s, c, false);
                    }
                    SplitView::Split {
                        vertical: false,
                        percent: percent_of(c, min_lo(s, false), max_hi(s, false)),
                        first: Box::new(reconstruct(first_part(s, c, false))),
                        second: Box::new(reconstruct(second_part(s, c, false))),
                    }
                },
                None => SplitView::Split {
                    vertical: true,
                    percent: 50,
                    first: Box::new(pane_leaf(s[0])),
                    second: Box::new(reconstruct(s.drop_first())),
                },
            },
        }
    }
}

fn leaf_of(p: &WezPane) -> (r: SplitNode)
    ensures
        r@ == pane_leaf(*p),
{
    SplitNode::Pane { cwd: clone_opt_string(&p.cwd), title: p.title.clone() }
}

fn percent_value(c: u64, l: u64, h: u64) -> (p: u16)
    requires
        c < h,
        h <= 184_467_440_737_095_516,
    ensures
        p as int == percent_of(c as int, l as int, h as int),
{
    let total: u64 = if h > l { h - l } else { 0 };
    let part: u64 = if c > l { c - l } else { 0 };
    let raw: u64 = if total > 0 {
        assert(part <= total);
        assert(part * 100 <= total * 100) by (nonlinear_arith)
            requires part <= total;
        assert((part * 100) as int / (total as int) <= 100) by (nonlinear_arith)
            requires part * 100 <= total * 100, total > 0;
        part * 100 / total
    } else {
        50
    };
    let clamped: u64 = if raw < 1 { 1 } else if raw > 99 { 99 } else { raw };
    clamped as u16
}

fn reconstruct_recursive(panes: &[WezPane], idx: Vec<usize>) -> (r: SplitNode)
    requires
        idx_ok(panes@, idx@),
        geometry_fits(panes@),
    ensures
        r@ == reconstruct(sel(panes@, idx@)),
    decreases idx@.len(),
{
    let ghost s = sel(panes@, idx@);
    if idx.len() == 1 {
        return leaf_of(&panes[idx[0]]);
    }
    if idx.len() == 0 {
        return SplitNode::Pane { cwd: None, title: String::new() };
    }
    match find_cut(panes, &idx, true) {
        Some((cut, a, b)) => {
            let (l, h) = bounds_of(panes, &idx, true);
            proof {
                lemma_best_cut_ok(s, true, s.len() as int);
                lemma_parts_len(s, cut as int, true);
            }
            let percent = percent_value(cut, l, h);
            let first = reconstruct_recursive(panes, a);
            let second = reconstruct_recursive(panes, b);
            return SplitNode::Split {
                direction: SplitDirection::Vertical,
                percent,
                first: Box::new(first),
                second: Box::new(second),
            };
        },
        None => {},
    }
    match find_cut(panes, &idx, false) {
        Some((cut, a, b)) => {
            let (l, h) = bounds_of(panes, &idx, false);
            proof {
                lemma_best_cut_ok(s, false, s.len() as int);
                lemma_parts_len(s, cut as int, false);
            }
            let percent = percent_value(cut, l, h);
            let first = reconstruct_recursive(panes, a);
            let second = reconstruct_recursive(panes, b);
            return SplitNode::Split {
                direction: SplitDirection::Horizontal,
                percent,
                first: Box::new(first),
                second: Box::new(second),
            };
        },
        None => {},
    }
    let mut rest: Vec<usize> = Vec::new();
    let mut k: usize = 1;
    while k < idx.len()
        invariant
            1 <= k <= idx@.len(),
            idx_ok(panes@, idx@),
            rest@ == idx@.subrange(1, k as int),
        decreases idx@.len() - k,
    {
        rest.push(idx[k]);
        k = k + 1;
        assert(rest@ =~= idx@.subrange(1, k as int));
    }
    assert(sel(panes@, rest@) =~= s.drop_first());
    let first = leaf_of(&panes[idx[0]]);
    let second = reconstruct_recursive(panes, rest);
    SplitNode::Split {
        direction: SplitDirection::Vertical,
        percent: 50,
        first: Box::new(first),
        second: Box::new(second),
    }
}

/// The split tree of a tab, recovered from the geometry of its panes: see
/// [`reconstruct`].
pub fn reconstruct_splits(panes: &[WezPane]) -> (r: SplitNode)
    requires
        geometry_fits(panes@),
    ensures
        r@ == reconstruct(panes@),
{
    let mut idx: Vec<usize> = Vec::new();
    let mut k: usize = 0;
    while k < panes.len()
        invariant
            k <= panes@.len(),
            idx@.len() == k,
            forall|j: int| 0 <= j < k ==> idx@[j] == j,
        decreases panes@.len() - k,
    {
        idx.push(k);
        k = k + 1;
    }
    assert(sel(panes@, idx@) =~= panes@);
    reconstruct_recursive(panes, idx)
}


/// Recovering the split tree keeps every pane: the tree has one leaf per
/// pane (one leaf, empty, for no panes).
pub proof fn lemma_reconstruct_leaf_count(s: Seq<WezPane>)
    ensures
        leaf_count(reconstruct(s)) == if s.len() == 0 { 1 } else { s.len() },
    decreases s.len(),
{
    if s.len() >= 2 {
        match best_cut(s, true, s.len() as int) {
            Some(c) => {
                lemma_best_cut_ok(s, true, s.len() as int);
                lemma_parts_len(s, c, true);
                lemma_reconstruct_leaf_count(first_part(s, c, true));
                lemma_reconstruct_leaf_count(second_part(s, c, true));
                assert(leaf_count(reconstruct(s)) == s.len());
            },
            None => match best_cut(s, false, s.len() as int) {
                Some(c) => {
                    lemma_best_cut_ok(s, false, s.len() as int);
                    lemma_parts_len(s, c, false);
                    lemma_reconstruct_leaf_count(first_part(s, c, false));
                    lemma_reconstruct_leaf_count(second_part(s, c, false));
                    assert(leaf_count(reconstruct(s)) == s.len());
                },
                None => {
                    lemma_reconstruct_leaf_count(s.drop_first());
                    assert(reconstruct(s) == SplitView::Split {
                        vertical: true,
                        percent: 50,
                        first: Box::new(pane_leaf(s[0])),
                        second: Box::new(reconstruct(s.drop_first())),
                    });
                    assert(leaf_count(pane_leaf(s[0])) == 1);
                    assert(leaf_count(reconstruct(s)) == s.len());
                },
            },
        }
    } else if s.len() == 1 {
        assert(leaf_count(reconstruct(s)) == 1);
    } else {
        assert(leaf_count(reconstruct(s)) == 1);
    }
}

/// What a pane leaves in a split tree: its working directory and title.
pub open spec fn pane_item(p: WezPane) -> (Option<Seq<char>>, Seq<char>) {
    (opt_view(p.cwd), p.title@)
}

/// The working directories and titles of the panes `s`, as a multiset.
pub open spec fn pane_items(s: Seq<WezPane>) -> Multiset<(Option<Seq<char>>, Seq<char>)>
    decreases s.len(),
{
    if s.len() == 0 {
        Multiset::empty()
    } else {
        pane_items(s.drop_last()).insert(pane_item(s.last()))
    }
}

/// The working directories and titles at the leaves of a split tree, as a
/// multiset.
pub open spec fn leaf_items(v: SplitView) -> Multiset<(Option<Seq<char>>, Seq<char>)>
    decreases v,
{
    match v {
        SplitView::Leaf { cwd, title } => Multiset::singleton((cwd, title)),
        SplitView::Split { first, second, .. } => leaf_items(*first).add(leaf_items(*second)),
    }
}

proof fn lemma_parts_items(s: Seq<WezPane>, c: int, vertical: bool)
    ensures
        pane_items(first_part(s, c, vertical)).add(pane_items(second_part(s, c, vertical))) == pane_items(s),
    decreases s.len(),
{
    broadcast use vstd::multiset::group_multiset_axioms;

    if s.len() > 0 {
        lemma_parts_items(s.drop_last(), c, vertical);
        let f = first_part(s.drop_last(), c, vertical);
        let g = second_part(s.drop_last(), c, vertical);
        if goes_first(s.last(), c, vertical) {
            assert(f.push(s.last()).drop_last() =~= f);
            assert(pane_items(f.push(s.last())) == pane_items(f).insert(pane_item(s.last())));
        } else {
            assert(g.push(s.last()).drop_last() =~= g);
            assert(pane_items(g.push(s.last())) == pane_items(g).insert(pane_item(s.last())));
        }
        assert(pane_items(first_part(s, c, vertical)).add(pane_items(second_part(s, c, vertical))) =~= pane_items(s));
    }
}

proof fn lemma_items_first(s: Seq<WezPane>)
    requires
        s.len() >= 1,
    ensures
        pane_items(s) == pane_items(s.drop_first()).insert(pane_item(s[0])),
    decreases s.len(),
{
    broadcast use vstd::multiset::group_multiset_axioms;

    if s.len() == 1 {
        assert(pane_items(s.drop_first()) == Multiset::<(Option<Seq<char>>, Seq<char>)>::empty());
        assert(pane_items(s.drop_last()) == Multiset::<(Option<Seq<char>>, Seq<char>)>::empty());
        assert(s.last() == s[0]);
        assert(pane_items(s) =~= pane_items(s.drop_first()).insert(pane_item(s[0])));
    } else {
        let d = s.drop_last();
        let t = s.drop_first();
        lemma_items_first(d);
        assert(d.drop_first() =~= t.drop_last());
        assert(t.last() == s.last());
        assert(d[0] == s[0]);
        assert(pane_items(s) == pane_items(d).insert(pane_item(s.last())));
        assert(pane_items(t) == pane_items(t.drop_last()).insert(pane_item(t.last())));
        assert(pane_items(s) =~= pane_items(t).insert(pane_item(s[0])));
    }
}

/// Recovering the split tree keeps the panes themselves: its leaves hold
/// the working directories and titles of the panes, each as often as a pane
/// has it.
pub proof fn lemma_reconstruct_leaves_are_panes(s: Seq<WezPane>)
    requires
        s.len() >= 1,
    ensures
        leaf_items(reconstruct(s)) == pane_items(s),
    decreases s.len(),
{
    broadcast use vstd::multiset::group_multiset_axioms;

    if s.len() == 1 {
        assert(pane_items(s.drop_last()) == Multiset::<(Option<Seq<char>>, Seq<char>)>::empty());
        assert(s.last() == s[0]);
        assert(reconstruct(s) == pane_leaf(s[0]));
        assert(leaf_items(reconstruct(s)) =~= pane_items(s));
    } else {
        match best_cut(s, true, s.len() as int) {
            Some(c) => {
                lemma_best_cut_ok(s, true, s.len() as int);
                lemma_parts_len(s, c, true);
                lemma_reconstruct_leaves_are_panes(first_part(s, c, true));
                lemma_reconstruct_leaves_are_panes(second_part(s, c, true));
                lemma_parts_items(s, c, true);
            },
            None => match best_cut(s, false, s.len() as int) {
                Some(c) => {
                    lemma_best_cut_ok(s, false, s.len() as int);
                    lemma_parts_len(s, c, false);
                    lemma_reconstruct_leaves_are_panes(first_part(s, c, false));
                    lemma_reconstruct_leaves_are_panes(second_part(s, c, false));
                    lemma_parts_items(s, c, false);
                },
                None => {
                    lemma_reconstruct_leaves_are_panes(s.drop_first());
                    lemma_items_first(s);
                    assert(reconstruct(s) == SplitView::Split {
                        vertical: true,
                        percent: 50,
                        first: Box::new(pane_leaf(s[0])),
                        second: Box::new(reconstruct(s.drop_first())),
                    });
                    assert(leaf_items(pane_leaf(s[0])) == Multiset::singleton(pane_item(s[0])));
                    assert(leaf_items(reconstruct(s)) =~= pane_items(s));
                },
            },
        }
    }
}

proof fn lemma_parts_members(s: Seq<WezPane>, c: int, vertical: bool)
    ensures
        forall|i: int| 0 <= i < first_part(s, c, vertical).len() ==> goes_first(
            #[trigger] first_part(s, c, vertical)[i],
            c,
            vertical,
        ),
        forall|i: int| 0 <= i < second_part(s, c, vertical).len() ==> !goes_first(
            #[trigger] second_part(s, c, vertical)[i],
            c,
            vertical,
        ),
    decreases s.len(),
{
    if s.len() > 0 {
        lemma_parts_members(s.drop_last(), c, vertical);
        let f = first_part(s.drop_last(), c, vertical);
        let g = second_part(s.drop_last(), c, vertical);
        assert forall|i: int| 0 <= i < first_part(s, c, vertical).len() implies goes_first(
            #[trigger] first_part(s, c, vertical)[i],
            c,
            vertical,
        ) by {
            if goes_first(s.last(), c, vertical) && i == f.len() {
            } else {
                assert(first_part(s, c, vertical)[i] == f[i]);
            }
        }
        assert forall|i: int| 0 <= i < second_part(s, c, vertical).len() implies !goes_first(
            #[trigger] second_part(s, c, vertical)[i],
            c,
            vertical,
        ) by {
            if !goes_first(s.last(), c, vertical) && i == g.len() {
            } else {
                assert(second_part(s, c, vertical)[i] == g[i]);
            }
        }
    }
}

/// The sides of a recovered split follow the geometry. Where some pane's
/// far edge `c` cleanly cuts the panes along an axis, the split's first
/// child holds exactly the panes before the cut (ending by `c + 2` and
/// starting before `c`: left of a vertical cut, above a horizontal one), and
/// its second child the others, all after the cut. Only where no pane edge
/// cuts the panes along either axis is the first pane set beside the rest.
pub proof fn lemma_split_children_follow_cut(s: Seq<WezPane>)
    requires
        s.len() >= 2,
    ensures
        match reconstruct(s) {
            SplitView::Split { vertical, first, second, .. } => (exists|c: int|
                {
                    &&& exists|j: int| 0 <= j < s.len() && c == #[trigger] hi(s[j], vertical)
                    &&& first_part(s, c, vertical).len() > 0
                    &&& second_part(s, c, vertical).len() > 0
                    &&& leaf_items(*first) == pane_items(first_part(s, c, vertical))
                    &&& leaf_items(*second) == pane_items(second_part(s, c, vertical))
                    &&& forall|i: int|
                        0 <= i < first_part(s, c, vertical).len() ==> hi(#[trigger] first_part(s, c, vertical)[i], vertical)
                            <= c + 2 && lo(first_part(s, c, vertical)[i], vertical) < c
                    &&& forall|i: int|
                        0 <= i < second_part(s, c, vertical).len() ==> lo(#[trigger] second_part(s, c, vertical)[i], vertical)
                            + 2 >= c && hi(second_part(s, c, vertical)[i], vertical) > c
                }) || (vertical && *first == pane_leaf(s[0]) && *second == reconstruct(s.drop_first()) && forall|
                j: int,
                v: bool,
            | 0 <= j < s.len() ==> !cut_ok(s, #[trigger] hi(s[j], v), v)),
            _ => false,
        },
{
    match best_cut(s, true, s.len() as int) {
        Some(c) => {
            lemma_best_cut_ok(s, true, s.len() as int);
            lemma_parts_len(s, c, true);
            lemma_reconstruct_leaves_are_panes(first_part(s, c, true));
            lemma_reconstruct_leaves_are_panes(second_part(s, c, true));
            lemma_parts_members(s, c, true);
            lemma_best_cut_is_edge(s, true, s.len() as int);
            assert forall|i: int| 0 <= i < second_part(s, c, true).len() implies lo(
                #[trigger] second_part(s, c, true)[i],
                true,
            ) + 2 >= c && hi(second_part(s, c, true)[i], true) > c by {
                lemma_second_part_in(s, c, true, i);
            }
            assert(reconstruct(s) == SplitView::Split {
                vertical: true,
                percent: percent_of(c, min_lo(s, true), max_hi(s, true)),
                first: Box::new(reconstruct(first_part(s, c, true))),
                second: Box::new(reconstruct(second_part(s, c, true))),
            });
            assert({
                &&& exists|j: int| 0 <= j < s.len() && c == #[trigger] hi(s[j], true)
                &&& first_part(s, c, true).len() > 0
                &&& second_part(s, c, true).len() > 0
                &&& leaf_items(reconstruct(first_part(s, c, true))) == pane_items(first_part(s, c, true))
                &&& leaf_items(reconstruct(second_part(s, c, true))) == pane_items(second_part(s, c, true))
                &&& forall|i: int|
                    0 <= i < first_part(s, c, true).len() ==> hi(#[trigger] first_part(s, c, true)[i], true)
                        <= c + 2 && lo(first_part(s, c, true)[i], true) < c
                &&& forall|i: int|
                    0 <= i < second_part(s, c, true).len() ==> lo(#[trigger] second_part(s, c, true)[i], true)
                        + 2 >= c && hi(second_part(s, c, true)[i], true) > c
            });
        },
        None => match best_cut(s, false, s.len() as int) {
            Some(c) => {
                lemma_best_cut_ok(s, false, s.len() as int);
                lemma_parts_len(s, c, false);
                lemma_reconstruct_leaves_are_panes(first_part(s, c, false));
                lemma_reconstruct_leaves_are_panes(second_part(s, c, false));
                lemma_parts_members(s, c, false);
                lemma_best_cut_is_edge(s, false, s.len() as int);
                assert forall|i: int| 0 <= i < second_part(s, c, false).len() implies lo(
                    #[trigger] second_part(s, c, false)[i],
                    false,
                ) + 2 >= c && hi(second_part(s, c, false)[i], false) > c by {
                    lemma_second_part_in(s, c, false, i);
                }
                assert(reconstruct(s) == SplitView::Split {
                vertical: false,
                percent: percent_of(c, min_lo(s, false), max_hi(s, false)),
                first: Box::new(reconstruct(first_part(s, c, false))),
                second: Box::new(reconstruct(second_part(s, c, false))),
            });
            assert({
                &&& exists|j: int| 0 <= j < s.len() && c == #[trigger] hi(s[j], false)
                &&& first_part(s, c, false).len() > 0
                &&& second_part(s, c, false).len() > 0
                &&& leaf_items(reconstruct(first_part(s, c, false))) == pane_items(first_part(s, c, false))
                &&& leaf_items(reconstruct(second_part(s, c, false))) == pane_items(second_part(s, c, false))
                &&& forall|i: int|
                    0 <= i < first_part(s, c, false).len() ==> hi(#[trigger] first_part(s, c, false)[i], false)
                        <= c + 2 && lo(first_part(s, c, false)[i], false) < c
                &&& forall|i: int|
                    0 <= i < second_part(s, c, false).len() ==> lo(#[trigger] second_part(s, c, false)[i], false)
                        + 2 >= c && hi(second_part(s, c, false)[i], false) > c
            });
            },
            None => {
                lemma_best_cut_ok(s, true, s.len() as int);
                lemma_best_cut_ok(s, false, s.len() as int);
                assert forall|j: int, v: bool| 0 <= j < s.len() implies !cut_ok(s, #[trigger] hi(s[j], v), v) by {
                    if v {
                    } else {
                    }
                }
                assert(reconstruct(s) == SplitView::Split {
                    vertical: true,
                    percent: 50,
                    first: Box::new(pane_leaf(s[0])),
                    second: Box::new(reconstruct(s.drop_first())),
                });
            },
        },
    }
}

proof fn lemma_best_cut_is_edge(s: Seq<WezPane>, vertical: bool, k: int)
    requires
        k <= s.len(),
    ensures
        best_cut(s, vertical, k) matches Some(c) ==> exists|j: int| 0 <= j < k && c == #[trigger] hi(s[j], vertical),
    decreases k,
{
    if k > 0 {
        lemma_best_cut_is_edge(s, vertical, k - 1);
        let c = hi(s[k - 1], vertical);
        assert(c == hi(s[k - 1], vertical));
    }
}

/// A pane of the second part, when the cut is clean, lies after it.
proof fn lemma_second_part_in(s: Seq<WezPane>, c: int, vertical: bool, i: int)
    requires
        cut_ok(s, c, vertical),
        0 <= i < second_part(s, c, vertical).len(),
    ensures
        lo(second_part(s, c, vertical)[i], vertical) + 2 >= c && hi(second_part(s, c, vertical)[i], vertical) > c,
{
    lemma_parts_members(s, c, vertical);
    lemma_second_part_from(s, c, vertical, i);
    let j = choose|j: int| 0 <= j < s.len() && s[j] == second_part(s, c, vertical)[i];
    assert(goes_first(s[j], c, vertical) || goes_second(s[j], c, vertical));
}

proof fn lemma_second_part_from(s: Seq<WezPane>, c: int, vertical: bool, i: int)
    requires
        0 <= i < second_part(s, c, vertical).len(),
    ensures
        exists|j: int| 0 <= j < s.len() && s[j] == second_part(s, c, vertical)[i],
    decreases s.len(),
{
    let g = second_part(s.drop_last(), c, vertical);
    if !goes_first(s.last(), c, vertical) && i == g.len() {
        assert(s[s.len() - 1] == s.last());
    } else {
        lemma_second_part_from(s.drop_last(), c, vertical, i);
        let j = choose|j: int| 0 <= j < s.drop_last().len() && s.drop_last()[j] == g[i];
        assert(s[j] == g[i]);
    }
}

/// Every split of a recovered tree gives its first part between 1 and 99 percent.
pub proof fn lemma_reconstruct_percents(s: Seq<WezPane>)
    ensures
        percents_in_range(reconstruct(s)),
    decreases s.len(),
{
    if s.len() >= 2 {
        match best_cut(s, true, s.len() as int) {
            Some(c) => {
                lemma_best_cut_ok(s, true, s.len() as int);
                lemma_parts_len(s, c, true);
                lemma_reconstruct_percents(first_part(s, c, true));
                lemma_reconstruct_percents(second_part(s, c, true));
            },
            None => match best_cut(s, false, s.len() as int) {
                Some(c) => {
                    lemma_best_cut_ok(s, false, s.len() as int);
                    lemma_parts_len(s, c, false);
                    lemma_reconstruct_percents(first_part(s, c, false));
                    lemma_reconstruct_percents(second_part(s, c, false));
                },
                None => {
                    lemma_reconstruct_percents(s.drop_first());
                    assert(reconstruct(s) == SplitView::Split {
                        vertical: true,
                        percent: 50,
                        first: Box::new(pane_leaf(s[0])),
                        second: Box::new(reconstruct(s.drop_first())),
                    });
                    assert(percents_in_range(pane_leaf(s[0])));
                },
            },
        }
    }
}


// -- Capture --

pub open spec fn is_leap(y: int) -> bool {
    y % 4 == 0 && (y % 100 != 0 || y % 400 == 0)
}

pub open spec fn days_in_year(y: int) -> int {
    if is_leap(y) { 366 } else { 365 }
}

/// The days of month `m` (0 for January) of a year that is a leap year or not.
pub open spec fn days_in_month(m: int, leap: bool) -> int {
    if m == 1 {
        if leap { 29 } else { 28 }
    } else if m == 3 || m == 5 || m == 8 || m == 10 {
        30
    } else {
        31
    }
}

/// The year that day `days` of year `y` falls in, counting on through the
/// following years, and the day within that year.
pub open spec fn year_and_day(days: int, y: int) -> (int, int)
    decreases days,
{
    if days < 0 || days < days_in_year(y) {
        (y, days)
    } else {
        year_and_day(days - days_in_year(y), y + 1)
    }
}

/// The month (0-based, from `m`) and day within it of day `rem` of a year.
pub open spec fn month_and_day(rem: int, leap: bool, m: int) -> (int, int)
    decreases 12 - m,
{
    if m >= 12 || rem < days_in_month(m, leap) {
        (m, rem)
    } else {
        month_and_day(rem - days_in_month(m, leap), leap, m + 1)
    }
}

/// The calendar date (year, month 1..12, day 1..31) of a day counted from
/// 1970-01-01.
pub open spec fn ymd(days: int) -> (int, int, int) {
    let (y, rem) = year_and_day(days, 1970);
    let (m, d) = month_and_day(rem, is_leap(y), 0);
    (y, m + 1, d + 1)
}

fn year_length(y: u64) -> (r: u64)
    ensures
        r == days_in_year(y as int),
{
    if y % 4 == 0 && (y % 100 != 0 || y % 400 == 0) { 366 } else { 365 }
}

fn month_length(m: u64, leap: bool) -> (r: u64)
    ensures
        r == days_in_month(m as int, leap),
{
    if m == 1 {
        if leap { 29 } else { 28 }
    } else if m == 3 || m == 5 || m == 8 || m == 10 {
        30
    } else {
        31
    }
}

/// Year, month and day of the day `days_since_epoch` counted from 1970-01-01.
fn days_to_ymd(days_since_epoch: u64) -> (r: (u64, u64, u64))
    ensures
        (r.0 as int, r.1 as int, r.2 as int) == ymd(days_since_epoch as int),
{
    let mut y: u64 = 1970;
    let mut remaining: u64 = days_since_epoch;
    while remaining >= year_length(y)
        invariant
            1970 <= y,
            remaining + 365 * (y - 1970) <= days_since_epoch,
            year_and_day(remaining as int, y as int) == year_and_day(days_since_epoch as int, 1970),
        decreases remaining,
    {
        remaining = remaining - year_length(y);
        y = y + 1;
    }
    assert(year_and_day(days_since_epoch as int, 1970) == (y as int, remaining as int));
    let leap = y % 4 == 0 && (y % 100 != 0 || y % 400 == 0);
    let mut mo: u64 = 0;
    while mo < 12 && remaining >= month_length(mo, leap)
        invariant
            mo <= 12,
            remaining < 366,
            leap == is_leap(y as int),
            month_and_day(remaining as int, leap, mo as int) == month_and_day(
                year_and_day(days_since_epoch as int, 1970).1,
                leap,
                0,
            ),
        decreases 12 - mo,
    {
        remaining = remaining - month_length(mo, leap);
        mo = mo + 1;
    }
    (y, mo + 1, remaining + 1)
}

/// The days from 1970-01-01 to the first day of year `y`.
pub open spec fn days_before_year(y: int) -> int
    decreases y - 1970,
{
    if y <= 1970 {
        0
    } else {
        days_before_year(y - 1) + days_in_year(y - 1)
    }
}

/// The days of a year before the first day of month `m` (0 for January).
pub open spec fn days_before_month(m: int, leap: bool) -> int
    decreases m,
{
    if m <= 0 {
        0
    } else {
        days_before_month(m - 1, leap) + days_in_month(m - 1, leap)
    }
}

/// `(y, m, d)` is a date of the Gregorian calendar from 1970 on (month
/// 1..12, day within the month).
pub open spec fn valid_date(y: int, m: int, d: int) -> bool {
    y >= 1970 && 1 <= m <= 12 && 1 <= d <= days_in_month(m - 1, is_leap(y))
}

/// The number of days from 1970-01-01 to the date `(y, m, d)`.
pub open spec fn day_number(y: int, m: int, d: int) -> int {
    days_before_year(y) + days_before_month(m - 1, is_leap(y)) + d - 1
}

proof fn lemma_year_and_day(days: int, y: int)
    requires
        days >= 0,
        y >= 1970,
    ensures
        year_and_day(days, y).0 >= y,
        0 <= year_and_day(days, y).1 < days_in_year(year_and_day(days, y).0),
        days_before_year(year_and_day(days, y).0) + year_and_day(days, y).1 == days_before_year(y) + days,
    decreases days,
{
    if days >= days_in_year(y) {
        lemma_year_and_day(days - days_in_year(y), y + 1);
    }
}

proof fn lemma_year_length(leap: bool)
    ensures
        days_before_month(12, leap) == if leap { 366int } else { 365int },
{
    reveal_with_fuel(days_before_month, 13);
}

proof fn lemma_month_and_day(rem: int, leap: bool, m: int)
    requires
        0 <= m <= 11,
        0 <= rem,
        days_before_month(m, leap) + rem < days_before_month(12, leap),
    ensures
        m <= month_and_day(rem, leap, m).0 <= 11,
        0 <= month_and_day(rem, leap, m).1 < days_in_month(month_and_day(rem, leap, m).0, leap),
        days_before_month(month_and_day(rem, leap, m).0, leap) + month_and_day(rem, leap, m).1
            == days_before_month(m, leap) + rem,
    decreases 12 - m,
{
    if rem >= days_in_month(m, leap) {
        if m == 11 {
            assert(days_before_month(12, leap) == days_before_month(11, leap) + days_in_month(11, leap));
        } else {
            lemma_month_and_day(rem - days_in_month(m, leap), leap, m + 1);
        }
    }
}

/// The calendar date of a day counted from 1970-01-01 is a valid date, and
/// it is that many days after 1970-01-01.
pub proof fn lemma_ymd_is_the_date(days: int)
    requires
        days >= 0,
    ensures
        valid_date(ymd(days).0, ymd(days).1, ymd(days).2),
        day_number(ymd(days).0, ymd(days).1, ymd(days).2) == days,
{
    lemma_year_and_day(days, 1970);
    let (y, rem) = year_and_day(days, 1970);
    let leap = is_leap(y);
    lemma_year_length(leap);
    assert(days_before_month(0, leap) == 0);
    lemma_month_and_day(rem, leap, 0);
}

/// The moment `secs` seconds after the Unix epoch, as `YYYY-MM-DDTHH:MM:SSZ`.
pub open spec fn timestamp(secs: nat) -> Seq<char> {
    let (y, mo, d) = ymd((secs / 86400) as int);
    padded_decimal(y as nat, 4) + seq!['-'] + padded_decimal(mo as nat, 2) + seq!['-']
        + padded_decimal(d as nat, 2) + seq!['T'] + padded_decimal(((secs / 3600) % 24) as nat, 2)
        + seq![':'] + padded_decimal(((secs / 60) % 60) as nat, 2) + seq![':'] + padded_decimal(
        (secs % 60) as nat,
        2,
    ) + seq!['Z']
}

/// Formats the moment `secs` seconds after the Unix epoch (see [`timestamp`]).
pub fn format_timestamp(secs: u64) -> (r: String)
    ensures
        r@ == timestamp(secs as nat),
{
    let (y, mo, d) = days_to_ymd(secs / 86400);
    let mut out: Vec<char> = Vec::new();
    push_padded_decimal(&mut out, y, 4);
    out.push('-');
    push_padded_decimal(&mut out, mo, 2);
    out.push('-');
    push_padded_decimal(&mut out, d, 2);
    out.push('T');
    push_padded_decimal(&mut out, (secs / 3600) % 24, 2);
    out.push(':');
    push_padded_decimal(&mut out, (secs / 60) % 60, 2);
    out.push(':');
    push_padded_decimal(&mut out, secs % 60, 2);
    out.push('Z');
    let r = string_from_chars(out.as_slice());
    assert(r@ =~= timestamp(secs as nat));
    r
}


/// Every tab of every window has pane geometry that fits (see [`geometry_fits`]).
pub open spec fn windows_fit(windows: Seq<WezWindow>) -> bool {
    forall|i: int, j: int|
        0 <= i < windows.len() && 0 <= j < windows[i].tabs.len() ==> geometry_fits(
            #[trigger] windows[i].tabs@[j].panes@,
        )
}

/// `r` is the session `name` of `windows` saved at `saved_at`: each window
/// and tab keeps its title, and each tab's panes become their split tree.
pub open spec fn is_capture_of(r: Session, name: Seq<char>, saved_at: Seq<char>, windows: Seq<WezWindow>) -> bool {
    &&& r.name@ == name
    &&& r.saved_at@ == saved_at
    &&& r.windows.len() == windows.len()
    &&& forall|i: int|
        0 <= i < windows.len() ==> {
            &&& (#[trigger] r.windows@[i]).title == windows[i].title
            &&& r.windows@[i].tabs.len() == windows[i].tabs.len()
            &&& forall|j: int|
                0 <= j < windows[i].tabs.len() ==> {
                    &&& (#[trigger] r.windows@[i].tabs@[j]).title == windows[i].tabs@[j].title
                    &&& r.windows@[i].tabs@[j].root@ == reconstruct(windows[i].tabs@[j].panes@)
                }
        }
}

/// Captures `windows` as the session `name`, saved at `now_secs` seconds after
/// the Unix epoch.
pub fn capture_session_at(name: &str, windows: &[WezWindow], now_secs: u64) -> (r: Session)
    requires
        windows_fit(windows@),
    ensures
        is_capture_of(r, name@, timestamp(now_secs as nat), windows@),
{
    let saved_at = format_timestamp(now_secs);
    let mut out: Vec<SessionWindow> = Vec::new();
    let mut i: usize = 0;
    while i < windows.len()
        invariant
            i <= windows@.len(),
            windows_fit(windows@),
            out@.len() == i,
            forall|a: int|
                0 <= a < i ==> {
                    &&& (#[trigger] out@[a]).title == windows@[a].title
                    &&& out@[a].tabs.len() == windows@[a].tabs.len()
                    &&& forall|j: int|
                        0 <= j < windows@[a].tabs.len() ==> {
                            &&& (#[trigger] out@[a].tabs@[j]).title == windows@[a].tabs@[j].title
                            &&& out@[a].tabs@[j].root@ == reconstruct(windows@[a].tabs@[j].panes@)
                        }
                },
        decreases windows@.len() - i,
    {
        let w = &windows[i];
        let mut tabs: Vec<SessionTab> = Vec::new();
        let mut j: usize = 0;
        while j < w.tabs.len()
            invariant
                i < windows@.len(),
                *w == windows@[i as int],
                windows_fit(windows@),
                j <= w.tabs@.len(),
                tabs@.len() == j,
                forall|b: int|
                    0 <= b < j ==> {
                        &&& (#[trigger] tabs@[b]).title == w.tabs@[b].title
                        &&& tabs@[b].root@ == reconstruct(w.tabs@[b].panes@)
                    },
            decreases w.tabs@.len() - j,
        {
            let t = &w.tabs[j];
            assert(geometry_fits(windows@[i as int].tabs@[j as int].panes@));
            let root = reconstruct_splits(t.panes.as_slice());
            tabs.push(SessionTab { title: clone_opt_string(&t.title), root });
            j = j + 1;
        }
        out.push(SessionWindow { title: clone_opt_string(&w.title), tabs });
        i = i + 1;
    }
    Session { name: String::from_str(name), saved_at, windows: out }
}

/// The current time from std's `SystemTime::now`, in whole seconds after
/// the Unix epoch (0 for a clock set before it). Nothing is claimed of the
/// value: it is the machine's clock.
#[verifier::external_body]
fn now_unix_secs() -> u64 {
    std::time::SystemTime::now().duration_since(std::time::UNIX_EPOCH).unwrap_or_default().as_secs()
}

/// Captures `windows` as the session `name`, saved now.
pub fn capture_session(name: &str, windows: &[WezWindow]) -> (r: Session)
    requires
        windows_fit(windows@),
    ensures
        exists|secs: nat| is_capture_of(r, name@, timestamp(secs), windows@),
{
    let secs = now_unix_secs();
    let r = capture_session_at(name, windows, secs);
    assert(is_capture_of(r, name@, timestamp(secs as nat), windows@));
    r
}

/// The working directory of the first (top-left) leaf of a split tree.
pub open spec fn first_leaf_cwd(v: SplitView) -> Option<Seq<char>>
    decreases v,
{
    match v {
        SplitView::Leaf { cwd, .. } => cwd,
        SplitView::Split { first, .. } => first_leaf_cwd(*first),
    }
}

/// The working directory of the first leaf pane of `node`.
pub fn first_pane_cwd(node: &SplitNode) -> (r: Option<String>)
    ensures
        opt_view(r) == first_leaf_cwd(node@),
    decreases node,
{
    match node {
        SplitNode::Pane { cwd, .. } => clone_opt_string(cwd),
        SplitNode::Split { first, .. } => first_pane_cwd(first),
    }
}

} // verus!
