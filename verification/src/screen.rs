use vstd::prelude::*;
use vstd::string::*;

use crate::app::{Mode, mode_wf};
use crate::model::{WezTab, WezWindow};
use crate::install::{join_lines, join_range, line_views, lines_of, split_lines, trim_chars, trimmed};
use crate::text::{decimal, push_decimal, push_str, string_from_chars};
use crate::tree::{NodeId, find_tab, is_first_pane, is_first_tab, no_tab, opt_node, pane_at};

verus! {

pub open spec fn title_find() -> Seq<char> {
    seq![' ', 'F', 'i', 'n', 'd']
}

pub open spec fn title_sessions() -> Seq<char> {
    seq![' ', 'S', 'e', 's', 's', 'i', 'o', 'n', 's']
}

pub open spec fn title_main() -> Seq<char> {
    seq![' ', 'w', 'e', 'z', 't', 'u', 'i']
}

/// The title line of the screen: ` Find` while searching, ` Sessions` in the
/// session picker, ` weztui` otherwise.
pub fn screen_title(mode: &Mode) -> (r: String)
    ensures
        r@ == match *mode {
            Mode::Search { .. } => title_find(),
            Mode::SessionPick { .. } => title_sessions(),
            _ => title_main(),
        },
{
    proof {
        reveal_strlit(" Find");
        reveal_strlit(" Sessions");
        reveal_strlit(" weztui");
    }
    let r = match mode {
        Mode::Search { .. } => String::from_str(" Find"),
        Mode::SessionPick { .. } => String::from_str(" Sessions"),
        _ => String::from_str(" weztui"),
    };
    proof {
        assert(" Find"@ =~= title_find());
        assert(" Sessions"@ =~= title_sessions());
        assert(" weztui"@ =~= title_main());
    }
    r
}

/// The pane `id` is previewed unless it is the pane weztui runs in.
pub open spec fn unless_current(id: u64, current: Option<u64>) -> Option<u64> {
    if current == Some(id) { None } else { Some(id) }
}

/// The first pane of the tab, previewed unless it is weztui's own.
pub open spec fn tab_preview(t: WezTab, current: Option<u64>) -> Option<u64> {
    if t.panes.len() > 0 { unless_current(t.panes@[0].pane_id, current) } else { None }
}

/// The pane whose content previews the tree selection `sel`: the selected
/// pane, or the first pane of the selected tab; none for a window, a
/// workspace or no selection, and none when it is the pane weztui runs in.
pub open spec fn tree_preview_ok(ws: Seq<WezWindow>, sel: Option<NodeId>, current: Option<u64>, r: Option<u64>) -> bool {
    match sel {
        Some(NodeId::Pane(id)) => r == unless_current(id, current),
        Some(NodeId::Tab(id)) => {
            &&& (forall|i: int, j: int| #![trigger ws[i].tabs@[j]] is_first_tab(ws, id, i, j) ==> r == tab_preview(ws[i].tabs@[j], current))
            &&& (no_tab(ws, id) ==> r is None)
        },
        _ => r is None,
    }
}

/// The pane to preview beside the tree (see [`tree_preview_ok`]).
pub fn tree_preview_pane(windows: &[WezWindow], selected: Option<&NodeId>, current_pane_id: Option<u64>) -> (r: Option<u64>)
    ensures
        tree_preview_ok(windows@, opt_node(selected), current_pane_id, r),
{
    let id = match selected {
        Some(NodeId::Pane(id)) => *id,
        Some(NodeId::Tab(tab_id)) => {
            let found = find_tab(windows, *tab_id);
            match found {
                Some(t) => {
                    proof {
                        let (i, j) = choose|i: int, j: int| is_first_tab(windows@, *tab_id, i, j) && *t == windows@[i].tabs@[j];
                        assert forall|i2: int, j2: int| #![trigger windows@[i2].tabs@[j2]] is_first_tab(windows@, *tab_id, i2, j2) implies i2 == i && j2 == j by {
                            if i2 < i || (i2 == i && j2 < j) {
                                assert(windows@[i2].tabs@[j2].tab_id == *tab_id);
                            } else if !(i2 == i && j2 == j) {
                                assert(windows@[i].tabs@[j].tab_id == *tab_id);
                            }
                        }
                    }
                    if t.panes.len() == 0 {
                        return None;
                    }
                    t.panes[0].pane_id
                },
                None => {
                    return None;
                },
            }
        },
        _ => {
            return None;
        },
    };
    if current_pane_id == Some(id) {
        None
    } else {
        Some(id)
    }
}

/// The pane to preview beside the search results: that of the selected
/// result, unless it is the pane weztui runs in; none outside the search
/// prompt or without a selected result.
pub fn search_preview_pane(mode: &Mode, current_pane_id: Option<u64>) -> (r: Option<u64>)
    requires
        mode_wf(*mode),
    ensures
        r == match *mode {
            Mode::Search { entries, results, selected_index, .. } => if selected_index < results@.len() {
                unless_current(entries@[results@[selected_index as int].entry_index as int].pane_id, current_pane_id)
            } else {
                None
            },
            _ => None,
        },
{
    match mode {
        Mode::Search { entries, results, selected_index, .. } => {
            if *selected_index < results.len() {
                let id = entries[results[*selected_index].entry_index].pane_id;
                if current_pane_id == Some(id) {
                    None
                } else {
                    Some(id)
                }
            } else {
                None
            }
        },
        _ => None,
    }
}

/// The title shown over a pane's preview: the title of the first pane with
/// that id, or nothing.
pub fn preview_title(windows: &[WezWindow], pane_id: u64) -> (r: String)
    ensures
        forall|i: int, j: int, k: int| #![trigger windows@[i].tabs@[j].panes@[k]]
            is_first_pane(windows@, pane_id, i, j, k) ==> r@ == windows@[i].tabs@[j].panes@[k].title@,
        (forall|i: int, j: int, k: int| #![trigger windows@[i].tabs@[j].panes@[k]]
            pane_at(windows@, i, j, k) ==> windows@[i].tabs@[j].panes@[k].pane_id != pane_id) ==> r@.len() == 0,
{
    let mut i: usize = 0;
    while i < windows.len()
        invariant
            i <= windows@.len(),
            forall|i2: int, j2: int, k2: int| #![trigger windows@[i2].tabs@[j2].panes@[k2]]
                pane_at(windows@, i2, j2, k2) && i2 < i ==> windows@[i2].tabs@[j2].panes@[k2].pane_id != pane_id,
        decreases windows@.len() - i,
    {
        let w = &windows[i];
        let mut j: usize = 0;
        while j < w.tabs.len()
            invariant
                i < windows@.len(),
                *w == windows@[i as int],
                j <= w.tabs@.len(),
                forall|i2: int, j2: int, k2: int| #![trigger windows@[i2].tabs@[j2].panes@[k2]]
                    pane_at(windows@, i2, j2, k2) && (i2 < i || (i2 == i && j2 < j))
                        ==> windows@[i2].tabs@[j2].panes@[k2].pane_id != pane_id,
            decreases w.tabs@.len() - j,
        {
            let t = &w.tabs[j];
            let mut k: usize = 0;
            while k < t.panes.len()
                invariant
                    i < windows@.len(),
                    *w == windows@[i as int],
                    j < w.tabs@.len(),
                    *t == w.tabs@[j as int],
                    k <= t.panes@.len(),
                    forall|i2: int, j2: int, k2: int| #![trigger windows@[i2].tabs@[j2].panes@[k2]]
                        pane_at(windows@, i2, j2, k2) && (i2 < i || (i2 == i && j2 < j) || (i2 == i && j2 == j && k2 < k))
                            ==> windows@[i2].tabs@[j2].panes@[k2].pane_id != pane_id,
                decreases t.panes@.len() - k,
            {
                if t.panes[k].pane_id == pane_id {
                    proof {
                        assert(is_first_pane(windows@, pane_id, i as int, j as int, k as int));
                        assert forall|i3: int, j3: int, k3: int| #![trigger windows@[i3].tabs@[j3].panes@[k3]]
                            is_first_pane(windows@, pane_id, i3, j3, k3) implies i3 == i && j3 == j && k3 == k by {
                            if i3 < i || (i3 == i && j3 < j) || (i3 == i && j3 == j && k3 < k) {
                            } else if !(i3 == i && j3 == j && k3 == k) {
                                assert(windows@[i as int].tabs@[j as int].panes@[k as int].pane_id == pane_id);
                            }
                        }
                    }
                    return t.panes[k].title.clone();
                }
                k = k + 1;
            }
            j = j + 1;
        }
        i = i + 1;
    }
    String::new()
}

/// ` n thing ` or ` n things `, the title over a list of `n` things.
pub open spec fn count_text(n: nat, noun: Seq<char>) -> Seq<char> {
    seq![' '] + decimal(n) + seq![' '] + noun + (if n == 1 { Seq::empty() } else { seq!['s'] }) + seq![' ']
}

/// The title over a list of `n` results or sessions (see [`count_text`]).
pub fn count_title(n: usize, noun: &str) -> (r: String)
    ensures
        r@ == count_text(n as nat, noun@),
{
    let mut out: Vec<char> = Vec::new();
    out.push(' ');
    push_decimal(&mut out, n as u64);
    out.push(' ');
    push_str(&mut out, noun);
    if n != 1 {
        out.push('s');
    }
    out.push(' ');
    assert(out@ =~= count_text(n as nat, noun@));
    string_from_chars(out.as_slice())
}


/// The position of the last line with more than whitespace among the first
/// `k` lines, or 0 when there is none.
pub open spec fn last_nonblank(ls: Seq<Seq<char>>, k: int) -> int
    decreases k,
{
    if k <= 0 {
        0
    } else if trimmed(ls[k - 1]).len() > 0 {
        k - 1
    } else {
        last_nonblank(ls, k - 1)
    }
}

/// The text a pane preview of `height` lines shows of `content`: its lines
/// up to the last one that is not blank, of those the last `height`, joined;
/// nothing when the content has no lines.
pub open spec fn preview_text(content: Seq<char>, height: int) -> Option<Seq<char>> {
    let ls = lines_of(content);
    if ls.len() == 0 {
        None
    } else {
        let keep = ls.take(last_nonblank(ls, ls.len() as int) + 1);
        let shown = if keep.len() > height { keep.skip(keep.len() - height) } else { keep };
        Some(join_lines(shown))
    }
}

proof fn lemma_last_nonblank_range(ls: Seq<Seq<char>>, k: int)
    requires
        0 < k <= ls.len(),
    ensures
        0 <= last_nonblank(ls, k) < k,
    decreases k,
{
    if trimmed(ls[k - 1]).len() == 0 {
        if k > 1 {
            lemma_last_nonblank_range(ls, k - 1);
        } else {
            assert(last_nonblank(ls, 0) == 0);
        }
    }
}

/// What the preview of a pane shows of its text in `height` lines (see
/// [`preview_text`]): the bottom of the terminal is the part that matters.
pub fn preview_lines(content: &str, height: usize) -> (r: Option<String>)
    ensures
        match preview_text(content@, height as int) {
            Some(t) => r is Some && r->0@ == t,
            None => r is None,
        },
{
    let ls = split_lines(content);
    let ghost lv = line_views(ls@);
    if ls.len() == 0 {
        return None;
    }
    let mut k: usize = ls.len();
    while k > 0 && trim_chars(&ls[k - 1]).len() == 0
        invariant
            k <= ls@.len(),
            lv == line_views(ls@),
            last_nonblank(lv, ls@.len() as int) == last_nonblank(lv, k as int),
        decreases k,
    {
        assert(lv[k - 1] == ls@[k - 1]@);
        k = k - 1;
    }
    let last = if k == 0 { 0 } else { k - 1 };
    proof {
        if k > 0 {
            assert(lv[k - 1] == ls@[k - 1]@);
        }
        lemma_last_nonblank_range(lv, ls@.len() as int);
        assert(last == last_nonblank(lv, ls@.len() as int));
    }
    let keep = last + 1;
    let from = if keep > height { keep - height } else { 0 };
    let text = join_range(&ls, from, keep);
    proof {
        let kept = lv.take(keep as int);
        let shown = if kept.len() > height { kept.skip(kept.len() - height) } else { kept };
        assert(shown =~= lv.subrange(from as int, keep as int));
    }
    Some(string_from_chars(text.as_slice()))
}

} // verus!
