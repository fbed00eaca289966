use vstd::prelude::*;
use vstd::string::*;

use fuzzy_matcher::FuzzyMatcher;
use fuzzy_matcher::skim::SkimMatcherV2;

use crate::model::{WezPane, WezTab, WezWindow};
use crate::text::{decimal, last_segment, last_segment_of, push_chars, push_decimal, push_str, string_from_chars};

verus! {

/// One pane as a fuzzy-search candidate.
#[derive(Debug, Clone, PartialEq)]
pub struct SearchEntry {
    pub pane_id: u64,
    pub tab_id: u64,
    pub window_id: u64,
    /// Window title, tab title, pane title, working directory and the
    /// window's workspace, with one space between each and the next.
    pub match_text: String,
    /// `window  >  tab  >  pane  (dir)`, as shown in the result list.
    pub display: String,
}

/// A search entry with its strings taken by their characters.
pub struct EntryView {
    pub pane_id: u64,
    pub tab_id: u64,
    pub window_id: u64,
    pub match_text: Seq<char>,
    pub display: Seq<char>,
}

impl View for SearchEntry {
    type V = EntryView;

    open spec fn view(&self) -> EntryView {
        EntryView {
            pane_id: self.pane_id,
            tab_id: self.tab_id,
            window_id: self.window_id,
            match_text: self.match_text@,
            display: self.display@,
        }
    }
}

/// The characters of an optional string (none for `None`).
pub open spec fn opt_chars(o: Option<String>) -> Seq<char> {
    match o {
        Some(s) => s@,
        None => Seq::empty(),
    }
}

/// A window's title, or `Window <id>` when it has none.
pub open spec fn window_name(w: WezWindow) -> Seq<char> {
    match w.title {
        Some(s) => s@,
        None => seq!['W', 'i', 'n', 'd', 'o', 'w', ' '] + decimal(w.window_id as nat),
    }
}

/// A tab's title, or `Tab <id>` when it has none.
pub open spec fn tab_name(t: WezTab) -> Seq<char> {
    match t.title {
        Some(s) => s@,
        None => seq!['T', 'a', 'b', ' '] + decimal(t.tab_id as nat),
    }
}

/// The search entry of pane `p` of tab `t` of window `w`.
pub open spec fn entry_of(w: WezWindow, t: WezTab, p: WezPane) -> EntryView {
    EntryView {
        pane_id: p.pane_id,
        tab_id: t.tab_id,
        window_id: w.window_id,
        match_text: opt_chars(w.title) + seq![' '] + opt_chars(t.title) + seq![' '] + p.title@
            + seq![' '] + opt_chars(p.cwd) + seq![' '] + w.workspace@,
        display: window_name(w) + seq![' ', ' ', '>', ' ', ' '] + tab_name(t) + seq![
            ' ',
            ' ',
            '>',
            ' ',
            ' ',
        ] + p.title@ + seq![' ', ' ', '('] + last_segment(opt_chars(p.cwd)) + seq![')'],
    }
}

/// The entries of the first `k` tabs of window `w`, pane by pane.
pub open spec fn window_entries(w: WezWindow, k: int) -> Seq<EntryView>
    decreases k,
{
    if k <= 0 {
        Seq::empty()
    } else {
        let t = w.tabs@[k - 1];
        window_entries(w, k - 1) + t.panes@.map_values(|p: WezPane| entry_of(w, t, p))
    }
}

/// The entries of the first `k` windows, pane by pane in tree order.
pub open spec fn tree_entries(ws: Seq<WezWindow>, k: int) -> Seq<EntryView>
    decreases k,
{
    if k <= 0 {
        Seq::empty()
    } else {
        tree_entries(ws, k - 1) + window_entries(ws[k - 1], ws[k - 1].tabs.len() as int)
    }
}

/// The search entries of all panes of `ws`, in tree order.
pub open spec fn all_entries(ws: Seq<WezWindow>) -> Seq<EntryView> {
    tree_entries(ws, ws.len() as int)
}

fn push_opt(out: &mut Vec<char>, o: &Option<String>)
    ensures
        final(out)@ == old(out)@ + opt_chars(*o),
{
    match o {
        Some(s) => push_str(out, s.as_str()),
        None => {
            assert(old(out)@ + Seq::<char>::empty() =~= old(out)@);
        },
    }
}

fn entry_for(w: &WezWindow, t: &WezTab, p: &WezPane) -> (e: SearchEntry)
    ensures
        e@ == entry_of(*w, *t, *p),
{
    let mut m: Vec<char> = Vec::new();
    push_opt(&mut m, &w.title);
    m.push(' ');
    push_opt(&mut m, &t.title);
    m.push(' ');
    push_str(&mut m, p.title.as_str());
    m.push(' ');
    push_opt(&mut m, &p.cwd);
    m.push(' ');
    push_str(&mut m, w.workspace.as_str());
    let mut d: Vec<char> = Vec::new();
    match &w.title {
        Some(s) => push_str(&mut d, s.as_str()),
        None => {
            push_str(&mut d, "Window ");
            push_decimal(&mut d, w.window_id);
            proof {
                reveal_strlit("Window ");
            }
        },
    }
    push_str(&mut d, "  >  ");
    match &t.title {
        Some(s) => push_str(&mut d, s.as_str()),
        None => {
            push_str(&mut d, "Tab ");
            push_decimal(&mut d, t.tab_id);
            proof {
                reveal_strlit("Tab ");
            }
        },
    }
    push_str(&mut d, "  >  ");
    push_str(&mut d, p.title.as_str());
    push_str(&mut d, "  (");
    let seg = match &p.cwd {
        Some(c) => last_segment_of(c.as_str()),
        None => {
            let v: Vec<char> = Vec::new();
            v
        },
    };
    push_chars(&mut d, &seg);
    d.push(')');
    proof {
        reveal_strlit("  >  ");
        reveal_strlit("  (");
        assert(opt_chars(p.cwd).len() == 0 ==> last_segment(opt_chars(p.cwd)) =~= Seq::<char>::empty());
    }
    let e = SearchEntry {
        pane_id: p.pane_id,
        tab_id: t.tab_id,
        window_id: w.window_id,
        match_text: string_from_chars(m.as_slice()),
        display: string_from_chars(d.as_slice()),
    };
    assert(e@.match_text =~= entry_of(*w, *t, *p).match_text);
    assert(e@.display =~= entry_of(*w, *t, *p).display);
    e
}

/// One search entry per pane of `windows`, in tree order.
pub fn build_search_entries(windows: &[WezWindow]) -> (r: Vec<SearchEntry>)
    ensures
        r@.map_values(|e: SearchEntry| e@) == all_entries(windows@),
{
    let mut entries: Vec<SearchEntry> = Vec::new();
    let mut i: usize = 0;
    while i < windows.len()
        invariant
            i <= windows@.len(),
            entries@.map_values(|e: SearchEntry| e@) == tree_entries(windows@, i as int),
        decreases windows@.len() - i,
    {
        let w = &windows[i];
        let ghost before = entries@.map_values(|e: SearchEntry| e@);
        let mut j: usize = 0;
        while j < w.tabs.len()
            invariant
                i < windows@.len(),
                *w == windows@[i as int],
                j <= w.tabs@.len(),
                entries@.map_values(|e: SearchEntry| e@) == before + window_entries(*w, j as int),
            decreases w.tabs@.len() - j,
        {
            let t = &w.tabs[j];
            let ghost mid = entries@.map_values(|e: SearchEntry| e@);
            let mut k: usize = 0;
            while k < t.panes.len()
                invariant
                    j < w.tabs@.len(),
                    *t == w.tabs@[j as int],
                    k <= t.panes@.len(),
                    entries@.map_values(|e: SearchEntry| e@) == mid + t.panes@.take(k as int).map_values(
                        |p: WezPane| entry_of(*w, *t, p),
                    ),
                decreases t.panes@.len() - k,
            {
                let e = entry_for(w, t, &t.panes[k]);
                let ghost ev = e@;
                let ghost old_entries = entries@;
                entries.push(e);
                k = k + 1;
                assert(t.panes@.take(k as int) =~= t.panes@.take(k - 1).push(t.panes@[k - 1]));
                assert(entries@.map_values(|e: SearchEntry| e@) =~= old_entries.map_values(|e: SearchEntry| e@).push(ev));
                assert(entries@.map_values(|e: SearchEntry| e@) =~= mid + t.panes@.take(k as int).map_values(
                    |p: WezPane| entry_of(*w, *t, p),
                ));
            }
            assert(t.panes@.take(t.panes@.len() as int) =~= t.panes@);
            j = j + 1;
            assert(entries@.map_values(|e: SearchEntry| e@) =~= before + window_entries(*w, j as int));
        }
        i = i + 1;
        assert(entries@.map_values(|e: SearchEntry| e@) =~= tree_entries(windows@, i as int));
    }
    entries
}


/// A matching entry: its index, its score and the positions of the matched
/// characters.
#[derive(Debug, Clone, PartialEq)]
pub struct SearchResult {
    pub entry_index: usize,
    pub score: i64,
    pub match_indices: Vec<usize>,
}

/// A search result with its positions taken as a sequence.
pub struct ResultView {
    pub entry_index: int,
    pub score: int,
    pub match_indices: Seq<usize>,
}

impl View for SearchResult {
    type V = ResultView;

    open spec fn view(&self) -> ResultView {
        ResultView {
            entry_index: self.entry_index as int,
            score: self.score as int,
            match_indices: self.match_indices@,
        }
    }
}

/// What `SkimMatcherV2::default().fuzzy_indices(choice, pattern)` returns:
/// the score and matched character positions, or `None` when `pattern` does
/// not match `choice`.
pub uninterp spec fn skim_fuzzy_indices(choice: Seq<char>, pattern: Seq<char>) -> Option<(i64, Seq<usize>)>;

/// Fuzzy-matches `pattern` against `choice` with `SkimMatcherV2::default()`
/// (fuzzy_matcher's `FuzzyMatcher::fuzzy_indices`). The contract names its
/// result and states the one fact its source gives plainly: an empty pattern
/// matches with score 0 at no positions.
#[verifier::external_body]
fn skim_match(choice: &str, pattern: &str) -> (r: Option<(i64, Vec<usize>)>)
    ensures
        match r {
            Some((score, idx)) => skim_fuzzy_indices(choice@, pattern@) == Some((score, idx@)),
            None => skim_fuzzy_indices(choice@, pattern@) is None,
        },
        pattern@.len() == 0 ==> r.is_some() && r.unwrap().0 == 0 && r.unwrap().1@.len() == 0,
{
    SkimMatcherV2::default().fuzzy_indices(choice, pattern)
}

/// The results of the entries among the first `k` that match `query`, in
/// entry order.
pub open spec fn matches_upto(entries: Seq<EntryView>, query: Seq<char>, k: int) -> Seq<ResultView>
    decreases k,
{
    if k <= 0 {
        Seq::empty()
    } else {
        let r = matches_upto(entries, query, k - 1);
        match skim_fuzzy_indices(entries[k - 1].match_text, query) {
            Some((score, idx)) => r.push(
                ResultView { entry_index: k - 1, score: score as int, match_indices: idx },
            ),
            None => r,
        }
    }
}

/// The views of a list of results.
pub open spec fn result_views(r: Seq<SearchResult>) -> Seq<ResultView> {
    r.map_values(|x: SearchResult| x@)
}

/// `a` is listed before `b`: a higher score first, equal scores in entry order.
pub open spec fn ranked_before(a: ResultView, b: ResultView) -> bool {
    a.score > b.score || (a.score == b.score && a.entry_index < b.entry_index)
}

/// The results are listed best first (see [`ranked_before`]).
pub open spec fn is_ranked(r: Seq<ResultView>) -> bool {
    forall|i: int, j: int| 0 <= i < j < r.len() ==> ranked_before(#[trigger] r[i], #[trigger] r[j])
}

/// `r` is what filtering `entries` by `query` gives: all entries, with score
/// 0, for an empty query; otherwise the results of the entries that the fuzzy
/// matcher accepts, best first.
pub open spec fn filter_ok(entries: Seq<SearchEntry>, query: Seq<char>, r: Seq<SearchResult>) -> bool {
    &&& query.len() == 0 ==> r.len() == entries.len() && forall|i: int|
        0 <= i < r.len() ==> (#[trigger] r[i]).entry_index == i && r[i].score == 0
            && r[i].match_indices@.len() == 0
    &&& query.len() > 0 ==> is_ranked(result_views(r))
    &&& forall|i: int| 0 <= i < r.len() ==> (#[trigger] r[i]).entry_index < entries.len()
    &&& query.len() > 0 ==> forall|x: ResultView|
        #![trigger result_views(r).contains(x)]
        result_views(r).contains(x) <==> matches_upto(
            entries.map_values(|e: SearchEntry| e@),
            query,
            entries.len() as int,
        ).contains(x)
}

/// The entries that match `query` (see [`filter_ok`]).
pub fn filter(entries: &[SearchEntry], query: &str) -> (r: Vec<SearchResult>)
    ensures
        filter_ok(entries@, query@, r@),
{
    let ghost ev = entries@.map_values(|e: SearchEntry| e@);
    let mut results: Vec<SearchResult> = Vec::new();
    if query.is_empty() {
        let mut i: usize = 0;
        while i < entries.len()
            invariant
                i <= entries@.len(),
                results@.len() == i,
                forall|j: int|
                    0 <= j < i ==> (#[trigger] results@[j]).entry_index == j && results@[j].score == 0
                        && results@[j].match_indices@.len() == 0,
            decreases entries@.len() - i,
        {
            results.push(SearchResult { entry_index: i, score: 0, match_indices: Vec::new() });
            i = i + 1;
        }
        return results;
    }
    let mut i: usize = 0;
    while i < entries.len()
        invariant
            i <= entries@.len(),
            ev == entries@.map_values(|e: SearchEntry| e@),
            is_ranked(result_views(results@)),
            forall|j: int| 0 <= j < results@.len() ==> (#[trigger] results@[j]).entry_index < i,
            i <= entries@.len(),
            forall|x: ResultView|
                #![trigger result_views(results@).contains(x)]
                result_views(results@).contains(x) <==> matches_upto(ev, query@, i as int).contains(x),
        decreases entries@.len() - i,
    {
        let m = skim_match(entries[i].match_text.as_str(), query);
        match m {
            Some((score, idx)) => {
                let ghost before = result_views(results@);
                let mut p: usize = 0;
                while p < results.len() && results[p].score >= score
                    invariant
                        p <= results@.len(),
                        before == result_views(results@),
                        forall|j: int| 0 <= j < p ==> results@[j].score >= score,
                    decreases results@.len() - p,
                {
                    p = p + 1;
                }
                let item = SearchResult { entry_index: i, score, match_indices: idx };
                let ghost old_results = results@;
                let ghost nv = item@;
                results.insert(p, item);
                let ghost after = result_views(results@);
                assert forall|j: int| 0 <= j < results@.len() implies (#[trigger] results@[j]).entry_index < i + 1 by {
                    if j < p {
                        assert(results@[j] == old_results[j]);
                    } else if j > p {
                        assert(results@[j] == old_results[j - 1]);
                    }
                }
                assert(after =~= before.insert(p as int, nv));
                assert forall|a: int, b: int| 0 <= a < b < after.len() implies ranked_before(
                    #[trigger] after[a],
                    #[trigger] after[b],
                ) by {
                    if b < p {
                        assert(ranked_before(before[a], before[b]));
                    } else if b == p {
                        assert(before[a].score >= score);
                    } else if a == p {
                        assert(after[b] == before[b - 1]);
                        assert(!(before[p as int].score >= score));
                        if b - 1 > p {
                            assert(ranked_before(before[p as int], before[b - 1]));
                        }
                    } else if a < p {
                        assert(ranked_before(before[a], before[b - 1]));
                    } else {
                        assert(ranked_before(before[a - 1], before[b - 1]));
                    }
                }
                assert forall|x: ResultView| after.contains(x) <==> (before.contains(x) || x == nv) by {
                    if after.contains(x) {
                        let j = choose|j: int| 0 <= j < after.len() && after[j] == x;
                        if j < p {
                            assert(before[j] == x);
                        } else if j > p {
                            assert(before[j - 1] == x);
                        }
                    }
                    if before.contains(x) {
                        let j = choose|j: int| 0 <= j < before.len() && before[j] == x;
                        if j < p {
                            assert(after[j] == x);
                        } else {
                            assert(after[j + 1] == x);
                        }
                    }
                    if x == nv {
                        assert(after[p as int] == x);
                    }
                }
            },
            None => {},
        }
        proof {
            let prev = matches_upto(ev, query@, i as int);
            let next = matches_upto(ev, query@, i + 1);
            assert(ev[i as int].match_text == entries@[i as int].match_text@);
            match skim_fuzzy_indices(ev[i as int].match_text, query@) {
                Some((score, idx)) => {
                    let nv = ResultView { entry_index: i as int, score: score as int, match_indices: idx };
                    assert(next == prev.push(nv));
                    assert forall|x: ResultView| next.contains(x) <==> (prev.contains(x) || x == nv) by {
                        if next.contains(x) {
                            let j = choose|j: int| 0 <= j < next.len() && next[j] == x;
                            if j < prev.len() {
                                assert(prev[j] == x);
                            }
                        }
                        if prev.contains(x) {
                            let j = choose|j: int| 0 <= j < prev.len() && prev[j] == x;
                            assert(next[j] == x);
                        }
                        if x == nv {
                            assert(next[prev.len() as int] == x);
                        }
                    }
                },
                None => {
                    assert(next == prev);
                },
            }
        }
        i = i + 1;
    }
    results
}

} // verus!
