//! Counting weztui's marker comments in WezTerm's configuration text, and
//! the law that installing again replaces the keybinding block rather than
//! adding a second one.

use vstd::prelude::*;

use crate::install::{
    block_close, block_end, block_removed, block_replaced, commented, commented_from, disabled_lines, disabled_prefix, first_at,
    first_index, has_text, injected, join_lines, last_at, lemma_block_close, lemma_first_unique,
    lemma_injected_holds_block, lemma_pieces_len, lines_of, marker_end, marker_start, marker_state, occurs_at, pieces,
    snippet, snippet_head, snippet_tail, starts_binding, strip_cr,
};

verus! {

// -- Counting occurrences --

/// The number of positions from `k` on at which `pat` occurs in `s`.
pub open spec fn count_from(s: Seq<char>, pat: Seq<char>, k: int) -> nat
    decreases s.len() - k,
{
    if k < 0 || k >= s.len() {
        0
    } else {
        (if occurs_at(s, pat, k) { 1nat } else { 0nat }) + count_from(s, pat, k + 1)
    }
}

/// The number of positions at which `pat` occurs in `s`.
pub open spec fn count(s: Seq<char>, pat: Seq<char>) -> nat {
    count_from(s, pat, 0)
}

/// No occurrence of `pat` in `a + b` begins in `a` and ends in `b`.
pub open spec fn no_straddle(a: Seq<char>, b: Seq<char>, pat: Seq<char>) -> bool {
    forall|j: int| 0 <= j < a.len() && j + pat.len() > a.len() ==> !occurs_at(a + b, pat, j)
}

/// `c` is not among the characters of `pat`.
pub open spec fn lacks(pat: Seq<char>, c: char) -> bool {
    forall|i: int| 0 <= i < pat.len() ==> pat[i] != c
}

proof fn lemma_count_shift(a: Seq<char>, b: Seq<char>, pat: Seq<char>, k: int)
    requires
        a.len() <= k,
    ensures
        count_from(a + b, pat, k) == count_from(b, pat, k - a.len()),
    decreases (a + b).len() - k,
{
    let s = a + b;
    if k < s.len() {
        lemma_count_shift(a, b, pat, k + 1);
        if k + pat.len() <= s.len() {
            assert(s.subrange(k, k + pat.len()) =~= b.subrange(k - a.len(), k - a.len() + pat.len()));
        }
    }
}

proof fn lemma_count_split(a: Seq<char>, b: Seq<char>, pat: Seq<char>, k: int)
    requires
        0 <= k <= a.len(),
        no_straddle(a, b, pat),
    ensures
        count_from(a + b, pat, k) == count_from(a, pat, k) + count(b, pat),
    decreases a.len() - k,
{
    let s = a + b;
    if k == a.len() {
        lemma_count_shift(a, b, pat, k);
    } else {
        lemma_count_split(a, b, pat, k + 1);
        if k + pat.len() <= a.len() {
            assert(s.subrange(k, k + pat.len()) =~= a.subrange(k, k + pat.len()));
        }
    }
}

/// Counting over a concatenation without straddling occurrences adds up.
pub proof fn lemma_count_concat(a: Seq<char>, b: Seq<char>, pat: Seq<char>)
    requires
        no_straddle(a, b, pat),
    ensures
        count(a + b, pat) == count(a, pat) + count(b, pat),
{
    lemma_count_split(a, b, pat, 0);
}

/// An occurrence that straddles the join covers the first character of `b`
/// and the last of `a`; when `pat` lacks either, there is none.
pub proof fn lemma_no_straddle_at_char(a: Seq<char>, b: Seq<char>, pat: Seq<char>)
    requires
        (b.len() > 0 && lacks(pat, b[0])) || (a.len() > 0 && lacks(pat, a.last())),
    ensures
        no_straddle(a, b, pat),
{
    assert forall|j: int| 0 <= j < a.len() && j + pat.len() > a.len() implies !occurs_at(a + b, pat, j) by {
        if occurs_at(a + b, pat, j) {
            let s = a + b;
            if b.len() > 0 && lacks(pat, b[0]) {
                assert(s.subrange(j, j + pat.len())[a.len() - j] == s[a.len() as int]);
            } else {
                assert(s.subrange(j, j + pat.len())[a.len() - 1 - j] == s[a.len() - 1]);
            }
        }
    }
}

/// With `\n` between them, the occurrences in `a` and in `b` are all there
/// are.
pub proof fn lemma_count_sep(a: Seq<char>, b: Seq<char>, pat: Seq<char>)
    requires
        pat.len() > 0,
        lacks(pat, '\n'),
    ensures
        count(a + seq!['\n'] + b, pat) == count(a, pat) + count(b, pat),
{
    let nl = seq!['\n'];
    lemma_no_straddle_at_char(a, nl, pat);
    lemma_count_concat(a, nl, pat);
    lemma_no_straddle_at_char(a + nl, b, pat);
    lemma_count_concat(a + nl, b, pat);
    assert(count(nl, pat) == 0) by {
        assert(count_from(nl, pat, 1) == 0);
        if occurs_at(nl, pat, 0) {
            assert(nl.subrange(0, pat.len() as int)[0] == '\n');
        }
    }
}

proof fn lemma_count_from_zero(s: Seq<char>, pat: Seq<char>, k: int)
    requires
        0 <= k,
        pat.len() > 0,
    ensures
        count_from(s, pat, k) == 0 <==> forall|j: int| k <= j ==> !occurs_at(s, pat, j),
    decreases s.len() - k,
{
    if k < s.len() {
        lemma_count_from_zero(s, pat, k + 1);
        assert forall|j: int| k <= j && count_from(s, pat, k) == 0 implies !occurs_at(s, pat, j) by {}
    } else {
        assert forall|j: int| k <= j implies !occurs_at(s, pat, j) by {}
    }
}

/// No occurrence is counted exactly when there is none.
pub proof fn lemma_count_zero(s: Seq<char>, pat: Seq<char>)
    requires
        pat.len() > 0,
    ensures
        count(s, pat) == 0 <==> !has_text(s, pat),
{
    lemma_count_from_zero(s, pat, 0);
    if count(s, pat) == 0 {
        assert forall|j: int| !occurs_at(s, pat, j) by {}
    }
}

proof fn lemma_count_from_one(s: Seq<char>, pat: Seq<char>, k: int)
    requires
        0 <= k,
        pat.len() > 0,
        count_from(s, pat, k) == 1,
    ensures
        exists|j: int| k <= j && occurs_at(s, pat, j) && forall|j2: int| k <= j2 && occurs_at(s, pat, j2) ==> j2 == j,
    decreases s.len() - k,
{
    if occurs_at(s, pat, k) {
        lemma_count_from_zero(s, pat, k + 1);
        assert forall|j2: int| k <= j2 && occurs_at(s, pat, j2) implies j2 == k by {}
    } else {
        lemma_count_from_one(s, pat, k + 1);
        let j = choose|j: int| k + 1 <= j && occurs_at(s, pat, j) && forall|j2: int| k + 1 <= j2 && occurs_at(s, pat, j2) ==> j2 == j;
        assert forall|j2: int| k <= j2 && occurs_at(s, pat, j2) implies j2 == j by {}
    }
}

/// Counting one occurrence means it is at one position only.
pub proof fn lemma_count_one(s: Seq<char>, pat: Seq<char>)
    requires
        pat.len() > 0,
        count(s, pat) == 1,
    ensures
        exists|j: int| occurs_at(s, pat, j) && forall|j2: int| occurs_at(s, pat, j2) ==> j2 == j,
{
    lemma_count_from_one(s, pat, 0);
    let j = choose|j: int| 0 <= j && occurs_at(s, pat, j) && forall|j2: int| 0 <= j2 && occurs_at(s, pat, j2) ==> j2 == j;
    assert forall|j2: int| occurs_at(s, pat, j2) implies j2 == j by {}
}

// -- The marker comments --

/// A pattern that opens with `-- w` and holds no other `-`, and no line
/// break, carriage return or quote: both of weztui's marker comments are.
pub open spec fn marker_like(pat: Seq<char>) -> bool {
    &&& pat.len() >= 4
    &&& pat[0] == '-' && pat[1] == '-' && pat[2] == ' ' && pat[3] == 'w'
    &&& forall|d: int|
        2 <= d < pat.len() ==> pat[d] != '-' && pat[d] != '\n' && pat[d] != '\r' && pat[d] != '\''
}

pub proof fn lemma_markers_like()
    ensures
        marker_like(marker_start()),
        marker_like(marker_end()),
{
    let ms = marker_start();
    let me = marker_end();
    assert forall|d: int| 2 <= d < ms.len() implies ms[d] != '-' && ms[d] != '\n' && ms[d] != '\r' && ms[d] != '\'' by {
        if d == 2 {} else if d == 3 {} else if d == 4 {} else if d == 5 {} else if d == 6 {} else if d == 7 {} else if d == 8 {} else if d == 9 {} else if d == 10 {} else if d == 11 {} else if d == 12 {} else if d == 13 {} else if d == 14 {}
    }
    assert forall|d: int| 2 <= d < me.len() implies me[d] != '-' && me[d] != '\n' && me[d] != '\r' && me[d] != '\'' by {
        if d == 2 {} else if d == 3 {} else if d == 4 {} else if d == 5 {} else if d == 6 {} else if d == 7 {} else if d == 8 {} else if d == 9 {} else if d == 10 {} else if d == 11 {} else if d == 12 {}
    }
}

proof fn lemma_marker_like_lacks(pat: Seq<char>)
    requires
        marker_like(pat),
    ensures
        pat.len() > 0,
        lacks(pat, '\n'),
        lacks(pat, '\r'),
        lacks(pat, '\''),
{
}

proof fn lemma_occurs_char(s: Seq<char>, pat: Seq<char>, k: int, d: int)
    requires
        occurs_at(s, pat, k),
        0 <= d < pat.len(),
    ensures
        s[k + d] == pat[d],
{
    assert(s.subrange(k, k + pat.len())[d] == s[k + d]);
}

/// `s` holds `--` at `k`.
pub open spec fn dash_pair(s: Seq<char>, k: int) -> bool {
    s[k] == '-' && s[k + 1] == '-'
}

/// No two `-` follow each other in `s`.
pub open spec fn no_double_dash(s: Seq<char>) -> bool {
    forall|k: int| 0 <= k < s.len() - 1 ==> !#[trigger] dash_pair(s, k)
}

proof fn lemma_no_double_dash_count(s: Seq<char>, pat: Seq<char>)
    requires
        marker_like(pat),
        no_double_dash(s),
    ensures
        count(s, pat) == 0,
{
    lemma_count_zero(s, pat);
    assert forall|k: int| !occurs_at(s, pat, k) by {
        if occurs_at(s, pat, k) {
            lemma_occurs_char(s, pat, k, 0);
            lemma_occurs_char(s, pat, k, 1);
            assert(dash_pair(s, k));
        }
    }
}

/// Nothing straddles the join when `b` opens with `--`.
proof fn lemma_no_straddle_before_dashes(a: Seq<char>, b: Seq<char>, pat: Seq<char>)
    requires
        marker_like(pat),
        b.len() >= 2,
        b[0] == '-',
        b[1] == '-',
    ensures
        no_straddle(a, b, pat),
{
    assert forall|j: int| 0 <= j < a.len() && j + pat.len() > a.len() implies !occurs_at(a + b, pat, j) by {
        if occurs_at(a + b, pat, j) {
            let d = a.len() - j;
            lemma_occurs_char(a + b, pat, j, d);
            lemma_occurs_char(a + b, pat, j, d + 1);
        }
    }
}

/// Nothing straddles the join when `a` has no `--` and does not end in `-`.
proof fn lemma_no_straddle_after_dashless(a: Seq<char>, b: Seq<char>, pat: Seq<char>)
    requires
        marker_like(pat),
        no_double_dash(a),
        a.len() > 0 ==> a.last() != '-',
    ensures
        no_straddle(a, b, pat),
{
    assert forall|j: int| 0 <= j < a.len() && j + pat.len() > a.len() implies !occurs_at(a + b, pat, j) by {
        if occurs_at(a + b, pat, j) {
            lemma_occurs_char(a + b, pat, j, 0);
            lemma_occurs_char(a + b, pat, j, 1);
            if j + 1 < a.len() {
                assert(dash_pair(a, j));
            }
        }
    }
}

proof fn lemma_count_self(pat: Seq<char>)
    requires
        pat.len() > 0,
    ensures
        count(pat, pat) == 1,
{
    assert(pat.subrange(0, pat.len() as int) =~= pat);
    lemma_count_from_zero(pat, pat, 1);
}

proof fn lemma_start_lacks_end()
    ensures
        !has_text(marker_start(), marker_end()),
{
    let ms = marker_start();
    let me = marker_end();
    lemma_markers_like();
    assert forall|k: int| !occurs_at(ms, me, k) by {
        if occurs_at(ms, me, k) {
            lemma_occurs_char(ms, me, k, 1);
            assert(k + 1 < 2);
            lemma_occurs_char(ms, me, k, 10);
        }
    }
}

/// Each marker occurs once in itself and not in the other.
pub proof fn lemma_marker_counts()
    ensures
        count(marker_start(), marker_start()) == 1,
        count(marker_end(), marker_end()) == 1,
        count(marker_start(), marker_end()) == 0,
        count(marker_end(), marker_start()) == 0,
{
    let ms = marker_start();
    let me = marker_end();
    assert(ms.len() == 15 && me.len() == 13);
    lemma_count_self(ms);
    lemma_count_self(me);
    lemma_count_zero(me, ms);
    lemma_count_zero(ms, me);
    lemma_start_lacks_end();
}

// -- The keybinding block --

/// The keybinding block after its start marker and the newline that
/// follows it.
pub open spec fn block_body(binary_path: Seq<char>) -> Seq<char> {
    snippet_head().drop_first() + binary_path + snippet_tail() + marker_end()
}

proof fn lemma_head_tail_shape()
    ensures
        snippet_head().len() > 1,
        snippet_head()[0] == '\n',
        snippet_head().last() == ' ',
        no_double_dash(snippet_head().drop_first()),
        snippet_tail().len() > 0,
        snippet_tail()[0] == '\'',
        snippet_tail().last() == '\n',
        no_double_dash(snippet_tail()),
{
    let h = snippet_head();
    let t = snippet_tail();
    assert(h.len() == 133);
    assert(h[123] == 'c');
    assert forall|k: int| 0 <= k < 133 && k != 122 implies h[k] != '-' by {
        if k == 0 {} else if k == 1 {} else if k == 2 {} else if k == 3 {} else if k == 4 {} else if k == 5 {} else if k == 6 {} else if k == 7 {} else if k == 8 {} else if k == 9 {} else if k == 10 {} else if k == 11 {} else if k == 12 {} else if k == 13 {} else if k == 14 {} else if k == 15 {} else if k == 16 {} else if k == 17 {} else if k == 18 {} else if k == 19 {} else if k == 20 {} else if k == 21 {} else if k == 22 {} else if k == 23 {} else if k == 24 {} else if k == 25 {} else if k == 26 {} else if k == 27 {} else if k == 28 {} else if k == 29 {} else if k == 30 {} else if k == 31 {} else if k == 32 {} else if k == 33 {} else if k == 34 {} else if k == 35 {} else if k == 36 {} else if k == 37 {} else if k == 38 {} else if k == 39 {} else if k == 40 {} else if k == 41 {} else if k == 42 {} else if k == 43 {} else if k == 44 {} else if k == 45 {} else if k == 46 {} else if k == 47 {} else if k == 48 {} else if k == 49 {} else if k == 50 {} else if k == 51 {} else if k == 52 {} else if k == 53 {} else if k == 54 {} else if k == 55 {} else if k == 56 {} else if k == 57 {} else if k == 58 {} else if k == 59 {} else if k == 60 {} else if k == 61 {} else if k == 62 {} else if k == 63 {} else if k == 64 {} else if k == 65 {} else if k == 66 {} else if k == 67 {} else if k == 68 {} else if k == 69 {} else if k == 70 {} else if k == 71 {} else if k == 72 {} else if k == 73 {} else if k == 74 {} else if k == 75 {} else if k == 76 {} else if k == 77 {} else if k == 78 {} else if k == 79 {} else if k == 80 {} else if k == 81 {} else if k == 82 {} else if k == 83 {} else if k == 84 {} else if k == 85 {} else if k == 86 {} else if k == 87 {} else if k == 88 {} else if k == 89 {} else if k == 90 {} else if k == 91 {} else if k == 92 {} else if k == 93 {} else if k == 94 {} else if k == 95 {} else if k == 96 {} else if k == 97 {} else if k == 98 {} else if k == 99 {} else if k == 100 {} else if k == 101 {} else if k == 102 {} else if k == 103 {} else if k == 104 {} else if k == 105 {} else if k == 106 {} else if k == 107 {} else if k == 108 {} else if k == 109 {} else if k == 110 {} else if k == 111 {} else if k == 112 {} else if k == 113 {} else if k == 114 {} else if k == 115 {} else if k == 116 {} else if k == 117 {} else if k == 118 {} else if k == 119 {} else if k == 120 {} else if k == 121 {} else if k == 123 {} else if k == 124 {} else if k == 125 {} else if k == 126 {} else if k == 127 {} else if k == 128 {} else if k == 129 {} else if k == 130 {} else if k == 131 {} else if k == 132 {}
    }
    let h1 = h.drop_first();
    assert forall|k: int| 0 <= k < h1.len() - 1 implies !dash_pair(h1, k) by {
        assert(h1[k] == h[k + 1]);
        assert(h1[k + 1] == h[k + 2]);
    }
    assert(t.len() == 15);
    assert forall|k: int| 0 <= k < 15 implies t[k] != '-' by {
        if k == 0 {} else if k == 1 {} else if k == 2 {} else if k == 3 {} else if k == 4 {} else if k == 5 {} else if k == 6 {} else if k == 7 {} else if k == 8 {} else if k == 9 {} else if k == 10 {} else if k == 11 {} else if k == 12 {} else if k == 13 {} else if k == 14 {}
    }
}

/// The keybinding block is its start marker, a newline and its body.
pub proof fn lemma_snippet_parts(binary_path: Seq<char>)
    ensures
        snippet(binary_path) == marker_start() + seq!['\n'] + block_body(binary_path),
{
    lemma_head_tail_shape();
    let h = snippet_head();
    assert(h =~= seq!['\n'] + h.drop_first());
    assert(snippet(binary_path) =~= marker_start() + seq!['\n'] + block_body(binary_path));
}

/// The body of the block holds the end marker once and the start marker
/// not at all, for a path that holds neither.
pub proof fn lemma_block_body_counts(binary_path: Seq<char>, pat: Seq<char>)
    requires
        pat == marker_start() || pat == marker_end(),
        !has_text(binary_path, pat),
    ensures
        count(block_body(binary_path), pat) == (if pat == marker_end() { 1nat } else { 0nat }),
{
    lemma_markers_like();
    lemma_head_tail_shape();
    lemma_marker_counts();
    lemma_marker_like_lacks(pat);
    let h1 = snippet_head().drop_first();
    let t = snippet_tail();
    let me = marker_end();
    let p = binary_path;
    lemma_count_zero(p, pat);
    lemma_no_double_dash_count(h1, pat);
    lemma_no_double_dash_count(t, pat);
    lemma_no_straddle_after_dashless(h1, p, pat);
    lemma_count_concat(h1, p, pat);
    lemma_no_straddle_at_char(h1 + p, t, pat);
    lemma_count_concat(h1 + p, t, pat);
    lemma_no_straddle_at_char(h1 + p + t, me, pat);
    lemma_count_concat(h1 + p + t, me, pat);
}

// -- Lines --

/// The occurrences of `pat` in the lines `ls`, line by line.
pub open spec fn count_lines(ls: Seq<Seq<char>>, pat: Seq<char>) -> nat
    decreases ls.len(),
{
    if ls.len() == 0 {
        0
    } else {
        count_lines(ls.drop_last(), pat) + count(ls.last(), pat)
    }
}

/// Lines joined with `\n` hold the occurrences of their lines, and no
/// more, for a pattern without a line break.
pub proof fn lemma_count_join(ls: Seq<Seq<char>>, pat: Seq<char>)
    requires
        pat.len() > 0,
        lacks(pat, '\n'),
    ensures
        count(join_lines(ls), pat) == count_lines(ls, pat),
    decreases ls.len(),
{
    if ls.len() == 0 {
    } else if ls.len() == 1 {
        assert(count_lines(ls.drop_last(), pat) == 0);
        assert(ls.last() == ls[0]);
    } else {
        lemma_count_join(ls.drop_last(), pat);
        lemma_count_sep(join_lines(ls.drop_last()), ls.last(), pat);
    }
}

/// Lines with the same count each have the same count in all.
pub proof fn lemma_count_lines_same(l1: Seq<Seq<char>>, l2: Seq<Seq<char>>, pat: Seq<char>)
    requires
        l1.len() == l2.len(),
        forall|i: int| 0 <= i < l1.len() ==> count(#[trigger] l1[i], pat) == count(l2[i], pat),
    ensures
        count_lines(l1, pat) == count_lines(l2, pat),
    decreases l1.len(),
{
    if l1.len() > 0 {
        lemma_count_lines_same(l1.drop_last(), l2.drop_last(), pat);
        assert(count(l1[l1.len() - 1], pat) == count(l2[l2.len() - 1], pat));
    }
}

proof fn lemma_join_push(ls: Seq<Seq<char>>, e: Seq<char>)
    requires
        ls.len() >= 1,
    ensures
        join_lines(ls.push(e)) == join_lines(ls) + seq!['\n'] + e,
{
    assert(ls.push(e).drop_last() =~= ls);
}

proof fn lemma_join_extend_last(ls: Seq<Seq<char>>, c: char)
    requires
        ls.len() >= 1,
    ensures
        join_lines(ls.update(ls.len() - 1, ls.last().push(c))) == join_lines(ls).push(c),
{
    let u = ls.update(ls.len() - 1, ls.last().push(c));
    if ls.len() == 1 {
    } else {
        assert(u.drop_last() =~= ls.drop_last());
        assert(join_lines(u) =~= join_lines(ls).push(c));
    }
}

/// Joining the pieces between newlines gives the text back.
pub proof fn lemma_join_pieces(s: Seq<char>)
    ensures
        join_lines(pieces(s)) == s,
    decreases s.len(),
{
    if s.len() == 0 {
        assert(join_lines(pieces(s)) =~= s);
    } else {
        let t = s.drop_last();
        lemma_join_pieces(t);
        lemma_pieces_len(t);
        if s.last() == '\n' {
            lemma_join_push(pieces(t), Seq::empty());
        } else {
            lemma_join_extend_last(pieces(t), s.last());
        }
        assert(t.push(s.last()) =~= s);
        assert(join_lines(pieces(s)) =~= s);
    }
}

/// The pieces of two texts joined by a newline are the pieces of each.
pub proof fn lemma_pieces_sep(a: Seq<char>, b: Seq<char>)
    ensures
        pieces(a + seq!['\n'] + b) == pieces(a) + pieces(b),
    decreases b.len(),
{
    let nl = seq!['\n'];
    if b.len() == 0 {
        assert((a + nl + b).drop_last() =~= a);
        assert(pieces(a + nl + b) =~= pieces(a) + pieces(b));
    } else {
        let b1 = b.drop_last();
        lemma_pieces_sep(a, b1);
        lemma_pieces_len(a);
        lemma_pieces_len(b1);
        assert((a + nl + b).drop_last() =~= a + nl + b1);
        assert(pieces(a + nl + b) =~= pieces(a) + pieces(b));
    }
}

proof fn lemma_count_strip_cr(l: Seq<char>, pat: Seq<char>)
    requires
        pat.len() > 0,
        lacks(pat, '\r'),
    ensures
        count(strip_cr(l), pat) == count(l, pat),
{
    if l.len() > 0 && l.last() == '\r' {
        let cr = seq!['\r'];
        assert(l =~= l.drop_last() + cr);
        lemma_no_straddle_at_char(l.drop_last(), cr, pat);
        lemma_count_concat(l.drop_last(), cr, pat);
        assert(count_from(cr, pat, 1) == 0);
        if occurs_at(cr, pat, 0) {
            assert(cr.subrange(0, pat.len() as int)[0] == '\r');
        }
    }
}

/// The lines of a text hold the occurrences of the text.
pub proof fn lemma_count_lines_of(s: Seq<char>, pat: Seq<char>)
    requires
        pat.len() > 0,
        lacks(pat, '\n'),
        lacks(pat, '\r'),
    ensures
        count_lines(lines_of(s), pat) == count(s, pat),
{
    let p = pieces(s);
    lemma_pieces_len(s);
    lemma_join_pieces(s);
    lemma_count_join(p, pat);
    let body = Seq::new((p.len() - 1) as nat, |i: int| strip_cr(p[i]));
    assert forall|i: int| 0 <= i < body.len() implies count(#[trigger] body[i], pat) == count(p.drop_last()[i], pat) by {
        lemma_count_strip_cr(p[i], pat);
    }
    lemma_count_lines_same(body, p.drop_last(), pat);
    if p.last().len() == 0 {
        assert(count_from(p.last(), pat, 0) == 0);
    } else {
        assert(body.push(p.last()).drop_last() =~= body);
    }
}

/// The lines of two texts joined by a newline: those of the first, each
/// without a final `\r`, then those of the second.
pub proof fn lemma_lines_sep(a: Seq<char>, b: Seq<char>)
    ensures
        lines_of(a + seq!['\n'] + b) == Seq::new(pieces(a).len(), |i: int| strip_cr(pieces(a)[i])) + lines_of(b),
{
    lemma_pieces_sep(a, b);
    lemma_pieces_len(a);
    lemma_pieces_len(b);
    let pa = pieces(a);
    let pb = pieces(b);
    let p = pa + pb;
    assert(p.last() == pb.last());
    let body = Seq::new((p.len() - 1) as nat, |i: int| strip_cr(p[i]));
    let body_b = Seq::new((pb.len() - 1) as nat, |i: int| strip_cr(pb[i]));
    let front = Seq::new(pa.len(), |i: int| strip_cr(pa[i]));
    assert(body =~= front + body_b);
    if pb.last().len() != 0 {
        assert(body.push(p.last()) =~= front + body_b.push(pb.last()));
    }
}

/// A non-empty text has at least one line.
pub proof fn lemma_lines_nonempty(b: Seq<char>)
    requires
        b.len() > 0,
    ensures
        lines_of(b).len() > 0,
{
    lemma_pieces_len(b);
    lemma_join_pieces(b);
}

/// Joined lines split where a line ends.
pub proof fn lemma_join_split(ls: Seq<Seq<char>>, n: int)
    requires
        1 <= n < ls.len(),
    ensures
        join_lines(ls) == join_lines(ls.take(n)) + seq!['\n'] + join_lines(ls.skip(n)),
    decreases ls.len(),
{
    if n == ls.len() - 1 {
        assert(ls.take(n) =~= ls.drop_last());
        assert(ls.skip(n) =~= seq![ls.last()]);
    } else {
        let d = ls.drop_last();
        lemma_join_split(d, n);
        assert(d.take(n) =~= ls.take(n));
        assert(ls.skip(n).drop_last() =~= d.skip(n));
        assert(ls.skip(n).last() == ls.last());
        assert(join_lines(ls) =~= join_lines(ls.take(n)) + seq!['\n'] + join_lines(ls.skip(n)));
    }
}

// -- Commenting out a binding --

/// Commenting out keeps every line in its place: each is kept as it was or
/// gets the disabled prefix.
pub proof fn lemma_commented_shape(ls: Seq<Seq<char>>, i: int, open: bool)
    requires
        0 <= i <= ls.len(),
    ensures
        commented_from(ls, i, open).len() == ls.len() - i,
        forall|m: int|
            0 <= m < ls.len() - i ==> #[trigger] commented_from(ls, i, open)[m] == ls[i + m] || commented_from(
                ls,
                i,
                open,
            )[m] == disabled_prefix() + ls[i + m],
    decreases ls.len() - i,
{
    if i < ls.len() {
        let now = marker_state(ls[i], open);
        if starts_binding(ls, i, now) {
            let j = block_close(ls, i);
            lemma_block_close(ls, i);
            lemma_commented_shape(ls, j, now);
            let r = commented_from(ls, i, open);
            assert(r == disabled_lines(ls, i, j) + commented_from(ls, j, now));
            assert forall|m: int| 0 <= m < ls.len() - i implies #[trigger] r[m] == ls[i + m] || r[m]
                == disabled_prefix() + ls[i + m] by {
                if m < j - i {
                    assert(r[m] == disabled_lines(ls, i, j)[m]);
                } else {
                    assert(r[m] == commented_from(ls, j, now)[m - (j - i)]);
                }
            }
        } else {
            lemma_commented_shape(ls, i + 1, now);
            let r = commented_from(ls, i, open);
            assert(r == seq![ls[i]] + commented_from(ls, i + 1, now));
            assert forall|m: int| 0 <= m < ls.len() - i implies #[trigger] r[m] == ls[i + m] || r[m]
                == disabled_prefix() + ls[i + m] by {
                if m > 0 {
                    assert(r[m] == commented_from(ls, i + 1, now)[m - 1]);
                }
            }
        }
    }
}

/// The disabled prefix hides no marker and adds none.
pub proof fn lemma_count_disabled(l: Seq<char>, pat: Seq<char>)
    requires
        marker_like(pat),
    ensures
        count(disabled_prefix() + l, pat) == count(l, pat),
{
    let d = disabled_prefix();
    let s = d + l;
    assert(d.len() == 21);
    assert forall|k: int| 2 <= k < 21 implies d[k] != '-' by {
        if k == 2 {} else if k == 3 {} else if k == 4 {} else if k == 5 {} else if k == 6 {} else if k == 7 {} else if k == 8 {} else if k == 9 {} else if k == 10 {} else if k == 11 {} else if k == 12 {} else if k == 13 {} else if k == 14 {} else if k == 15 {} else if k == 16 {} else if k == 17 {} else if k == 18 {} else if k == 19 {} else if k == 20 {}
    }
    assert forall|j: int| 0 <= j < 21 implies !occurs_at(s, pat, j) by {
        if occurs_at(s, pat, j) {
            lemma_occurs_char(s, pat, j, 0);
            lemma_occurs_char(s, pat, j, 1);
            lemma_occurs_char(s, pat, j, 3);
        }
    }
    lemma_count_zero(d, pat);
    assert forall|j: int| !occurs_at(d, pat, j) by {
        if occurs_at(d, pat, j) {
            assert(s.subrange(j, j + pat.len()) =~= d.subrange(j, j + pat.len()));
        }
    }
    lemma_count_concat(d, l, pat);
}

/// Commenting out bindings neither adds nor removes a marker.
pub proof fn lemma_count_commented(s: Seq<char>, pat: Seq<char>)
    requires
        marker_like(pat),
    ensures
        count(commented(s), pat) == count(s, pat),
{
    let ls = lines_of(s);
    let lc = commented_from(ls, 0, false);
    lemma_marker_like_lacks(pat);
    lemma_commented_shape(ls, 0, false);
    assert forall|i: int| 0 <= i < lc.len() implies count(#[trigger] lc[i], pat) == count(ls[i], pat) by {
        if lc[i] != ls[i] {
            lemma_count_disabled(ls[i], pat);
        }
    }
    lemma_count_lines_same(lc, ls, pat);
    lemma_count_join(lc, pat);
    lemma_count_lines_of(s, pat);
}

/// What commenting out makes of the lines that come from `a`, in
/// `a + "\n" + b`.
pub open spec fn commented_front(a: Seq<char>, b: Seq<char>) -> Seq<char> {
    join_lines(commented_from(lines_of(a + seq!['\n'] + b), 0, false).take(pieces(a).len() as int))
}

/// What commenting out makes of the lines that come from `b`, in
/// `a + "\n" + b`.
pub open spec fn commented_back(a: Seq<char>, b: Seq<char>) -> Seq<char> {
    join_lines(commented_from(lines_of(a + seq!['\n'] + b), 0, false).skip(pieces(a).len() as int))
}

/// Commenting out `a + "\n" + b` keeps the line break between them, and the
/// markers on each side of it.
pub proof fn lemma_commented_sep(a: Seq<char>, b: Seq<char>, pat: Seq<char>)
    requires
        marker_like(pat),
        b.len() > 0,
    ensures
        commented(a + seq!['\n'] + b) == commented_front(a, b) + seq!['\n'] + commented_back(a, b),
        count(commented_front(a, b), pat) == count(a, pat),
        count(commented_back(a, b), pat) == count(b, pat),
{
    let s = a + seq!['\n'] + b;
    let ls = lines_of(s);
    let lc = commented_from(ls, 0, false);
    let pa = pieces(a);
    let n = pa.len() as int;
    let front = Seq::new(pa.len(), |i: int| strip_cr(pa[i]));
    lemma_marker_like_lacks(pat);
    lemma_lines_sep(a, b);
    lemma_lines_nonempty(b);
    lemma_pieces_len(a);
    lemma_commented_shape(ls, 0, false);
    lemma_join_split(lc, n);
    assert forall|i: int| 0 <= i < lc.len() implies count(#[trigger] lc[i], pat) == count(ls[i], pat) by {
        if lc[i] != ls[i] {
            lemma_count_disabled(ls[i], pat);
        }
    }
    assert(ls.take(n) =~= front);
    assert(ls.skip(n) =~= lines_of(b));
    lemma_count_lines_same(lc.take(n), front, pat);
    lemma_count_lines_same(lc.skip(n), lines_of(b), pat);
    assert forall|i: int| 0 <= i < front.len() implies count(#[trigger] front[i], pat) == count(pa[i], pat) by {
        lemma_count_strip_cr(pa[i], pat);
    }
    lemma_count_lines_same(front, pa, pat);
    lemma_join_pieces(a);
    lemma_count_join(pa, pat);
    lemma_count_join(lc.take(n), pat);
    lemma_count_join(lc.skip(n), pat);
    lemma_count_lines_of(b, pat);
}

// -- Installing twice --

proof fn lemma_parts_free(s: Seq<char>, pat: Seq<char>, k: int)
    requires
        pat.len() > 0,
        !has_text(s, pat),
        0 <= k <= s.len(),
    ensures
        count(s.take(k), pat) == 0,
        count(s.skip(k), pat) == 0,
{
    lemma_count_zero(s.take(k), pat);
    lemma_count_zero(s.skip(k), pat);
    assert forall|j: int| !occurs_at(s.take(k), pat, j) by {
        if occurs_at(s.take(k), pat, j) {
            assert(s.subrange(j, j + pat.len()) =~= s.take(k).subrange(j, j + pat.len()));
            assert(occurs_at(s, pat, j));
        }
    }
    assert forall|j: int| !occurs_at(s.skip(k), pat, j) by {
        if occurs_at(s.skip(k), pat, j) {
            assert(s.subrange(k + j, k + j + pat.len()) =~= s.skip(k).subrange(j, j + pat.len()));
            assert(occurs_at(s, pat, k + j));
        }
    }
}

proof fn lemma_install_part_counts(c: Seq<char>, body: Seq<char>, pos: int, ms: Seq<char>, me: Seq<char>)
    requires
        marker_like(ms),
        marker_like(me),
        !has_text(c, ms),
        !has_text(c, me),
        0 <= pos <= c.len(),
        count(ms, ms) == 1,
        count(ms, me) == 0,
        count(body, ms) == 0,
        count(body, me) == 1,
    ensures
        count(c.take(pos) + ms, ms) == 1,
        count(c.take(pos) + ms, me) == 0,
        count(body + seq!['\n'] + c.skip(pos), ms) == 0,
        count(body + seq!['\n'] + c.skip(pos), me) == 1,
        count(c + seq!['\n'] + ms, ms) == 1,
        count(c + seq!['\n'] + ms, me) == 0,
        count(body + seq!['\n'], ms) == 0,
        count(body + seq!['\n'], me) == 1,
{
    let nl = seq!['\n'];
    lemma_parts_free(c, ms, pos);
    lemma_parts_free(c, me, pos);
    lemma_count_zero(c, ms);
    lemma_count_zero(c, me);
    lemma_no_straddle_before_dashes(c.take(pos), ms, ms);
    lemma_count_concat(c.take(pos), ms, ms);
    lemma_no_straddle_before_dashes(c.take(pos), ms, me);
    lemma_count_concat(c.take(pos), ms, me);
    lemma_count_sep(body, c.skip(pos), ms);
    lemma_count_sep(body, c.skip(pos), me);
    lemma_count_sep(c, ms, ms);
    lemma_count_sep(c, ms, me);
    let e = Seq::<char>::empty();
    assert(body + nl =~= body + nl + e);
    lemma_count_sep(body, e, ms);
    lemma_count_sep(body, e, me);
}

proof fn lemma_commented_marker_free(content: Seq<char>)
    requires
        !has_text(content, marker_start()),
        !has_text(content, marker_end()),
    ensures
        !has_text(commented(content), marker_start()),
        !has_text(commented(content), marker_end()),
{
    lemma_markers_like();
    lemma_count_zero(content, marker_start());
    lemma_count_zero(content, marker_end());
    lemma_count_commented(content, marker_start());
    lemma_count_commented(content, marker_end());
    lemma_count_zero(commented(content), marker_start());
    lemma_count_zero(commented(content), marker_end());
}

proof fn lemma_regroup(x: Seq<char>, ms: Seq<char>, body: Seq<char>, y: Seq<char>)
    ensures
        x + (ms + seq!['\n'] + body) + seq!['\n'] + y == (x + ms) + seq!['\n'] + (body + seq!['\n'] + y),
        x + seq!['\n'] + (ms + seq!['\n'] + body) + seq!['\n'] == (x + seq!['\n'] + ms) + seq!['\n'] + (body
            + seq!['\n']),
{
    assert(x + (ms + seq!['\n'] + body) + seq!['\n'] + y =~= (x + ms) + seq!['\n'] + (body + seq!['\n'] + y));
    assert(x + seq!['\n'] + (ms + seq!['\n'] + body) + seq!['\n'] =~= (x + seq!['\n'] + ms) + seq!['\n'] + (body
        + seq!['\n']));
}

/// Where a text holds no marker, installing puts the block before the last
/// `}` of the commented-out text, or at its end.
proof fn lemma_injected_fresh(content: Seq<char>, binary_path: Seq<char>)
    requires
        !has_text(commented(content), marker_start()),
    ensures
        ({
            let c = commented(content);
            let snip = snippet(binary_path);
            if exists|k: int| last_at(c, '}', k) {
                let pos = choose|k: int| last_at(c, '}', k);
                &&& 0 <= pos <= c.len()
                &&& injected(content, binary_path) == c.take(pos) + snip + seq!['\n'] + c.skip(pos)
            } else {
                injected(content, binary_path) == c + seq!['\n'] + snip + seq!['\n']
            }
        }),
{
    assert(block_replaced(commented(content), snippet(binary_path)) is None);
}

/// The first install into a text without markers gives the text before the
/// block and the start marker, a newline, then the rest of the block and
/// the text after it; the start marker is in the first part only, the end
/// marker in the second only.
proof fn lemma_first_install_shape(content: Seq<char>, binary_path: Seq<char>) -> (parts: (Seq<char>, Seq<char>))
    requires
        !has_text(content, marker_start()),
        !has_text(content, marker_end()),
        !has_text(binary_path, marker_start()),
        !has_text(binary_path, marker_end()),
    ensures
        injected(content, binary_path) == parts.0 + seq!['\n'] + parts.1,
        parts.1.len() > 0,
        count(parts.0, marker_start()) == 1,
        count(parts.0, marker_end()) == 0,
        count(parts.1, marker_start()) == 0,
        count(parts.1, marker_end()) == 1,
{
    let ms = marker_start();
    let me = marker_end();
    let nl = seq!['\n'];
    let c = commented(content);
    let body = block_body(binary_path);
    lemma_commented_marker_free(content);
    lemma_injected_fresh(content, binary_path);
    lemma_snippet_parts(binary_path);
    lemma_markers_like();
    lemma_marker_counts();
    lemma_block_body_counts(binary_path, ms);
    lemma_block_body_counts(binary_path, me);
    lemma_count_zero(body, me);
    if exists|k: int| last_at(c, '}', k) {
        let pos = choose|k: int| last_at(c, '}', k);
        lemma_install_part_counts(c, body, pos, ms, me);
        lemma_regroup(c.take(pos), ms, body, c.skip(pos));
        (c.take(pos) + ms, body + nl + c.skip(pos))
    } else {
        lemma_install_part_counts(c, body, 0, ms, me);
        lemma_regroup(c, ms, body, c);
        (c + nl + ms, body + nl)
    }
}

/// In `fa + "\n" + fb`, with the start marker once in `fa` and not in
/// `fb`, and the end marker once in `fb` and not in `fa`, the marker block
/// runs from that start marker to past the line break.
proof fn lemma_split_markers(fa: Seq<char>, fb: Seq<char>)
    requires
        count(fa, marker_start()) == 1,
        count(fb, marker_start()) == 0,
        count(fa, marker_end()) == 0,
        count(fb, marker_end()) == 1,
    ensures
        ({
            let cc = fa + seq!['\n'] + fb;
            &&& has_text(cc, marker_start())
            &&& has_text(cc, marker_end())
            &&& first_index(cc, marker_start()) + marker_start().len() <= fa.len()
            &&& fa.len() < block_end(cc) <= cc.len()
            &&& forall|k: int| occurs_at(cc, marker_start(), k) ==> k == first_index(cc, marker_start())
        }),
{
    let ms = marker_start();
    let me = marker_end();
    let nl = seq!['\n'];
    let cc = fa + nl + fb;
    lemma_markers_like();
    lemma_count_sep(fa, fb, ms);
    lemma_count_sep(fa, fb, me);
    lemma_count_one(fa, ms);
    let j0 = choose|j: int| occurs_at(fa, ms, j) && forall|j2: int| occurs_at(fa, ms, j2) ==> j2 == j;
    assert(cc.subrange(j0, j0 + ms.len()) =~= fa.subrange(j0, j0 + ms.len()));
    assert(occurs_at(cc, ms, j0));
    lemma_count_one(cc, ms);
    let u = choose|j: int| occurs_at(cc, ms, j) && forall|j2: int| occurs_at(cc, ms, j2) ==> j2 == j;
    assert(u == j0);
    assert(first_at(cc, ms, j0));
    lemma_first_unique(cc, ms, j0);
    lemma_count_one(fb, me);
    let j1 = choose|j: int| occurs_at(fb, me, j) && forall|j2: int| occurs_at(fb, me, j2) ==> j2 == j;
    let ke = fa.len() + 1 + j1;
    assert(cc.subrange(ke, ke + me.len()) =~= fb.subrange(j1, j1 + me.len()));
    assert(occurs_at(cc, me, ke));
    lemma_count_one(cc, me);
    let v = choose|j: int| occurs_at(cc, me, j) && forall|j2: int| occurs_at(cc, me, j2) ==> j2 == j;
    assert(v == ke);
    assert(first_at(cc, me, ke));
    lemma_first_unique(cc, me, ke);
}

/// Installing into `a + "\n" + b`, with the start marker once in `a` and
/// the end marker once in `b` (and neither elsewhere), leaves one start
/// marker.
#[verifier::rlimit(30)]
proof fn lemma_second_install_count(a: Seq<char>, b: Seq<char>, binary_path: Seq<char>)
    requires
        b.len() > 0,
        count(a, marker_start()) == 1,
        count(a, marker_end()) == 0,
        count(b, marker_start()) == 0,
        count(b, marker_end()) == 1,
        !has_text(binary_path, marker_start()),
    ensures
        count(injected(a + seq!['\n'] + b, binary_path), marker_start()) == 1,
{
    let ms = marker_start();
    let me = marker_end();
    let nl = seq!['\n'];
    lemma_markers_like();
    lemma_commented_sep(a, b, ms);
    lemma_commented_sep(a, b, me);
    let fa = commented_front(a, b);
    let fb = commented_back(a, b);
    let cc = commented(a + nl + b);
    assert(cc == fa + nl + fb);
    lemma_split_markers(fa, fb);
    let j0 = first_index(cc, ms);
    let be = block_end(cc);
    let snip = snippet(binary_path);
    let t = cc.take(j0);
    let w = cc.skip(be);
    assert(injected(a + nl + b, binary_path) == t + snip + nl + w);
    lemma_count_zero(t, ms);
    assert forall|k: int| !occurs_at(t, ms, k) by {
        if occurs_at(t, ms, k) {
            assert(cc.subrange(k, k + ms.len()) =~= t.subrange(k, k + ms.len()));
            assert(occurs_at(cc, ms, k));
        }
    }
    lemma_count_zero(w, ms);
    assert forall|k: int| !occurs_at(w, ms, k) by {
        if occurs_at(w, ms, k) {
            assert(cc.subrange(be + k, be + k + ms.len()) =~= w.subrange(k, k + ms.len()));
            assert(occurs_at(cc, ms, be + k));
        }
    }
    lemma_marker_counts();
    lemma_snippet_parts(binary_path);
    lemma_block_body_counts(binary_path, ms);
    lemma_count_sep(ms, block_body(binary_path), ms);
    lemma_no_straddle_before_dashes(t, snip, ms);
    lemma_count_concat(t, snip, ms);
    lemma_count_sep(t + snip, w, ms);
}

/// What follows the binary path in the keybinding block.
pub open spec fn block_close_text() -> Seq<char> {
    snippet_tail() + marker_end()
}

proof fn lemma_close_text_shape()
    ensures
        block_close_text().len() == 28,
        block_close_text()[27] == 'd',
        forall|i: int| 0 <= i < 27 ==> block_close_text()[i] != 'd',
        block_close_text().subrange(15, 28) == marker_end(),
{
    let t = block_close_text();
    assert(t.len() == 28);
    assert forall|i: int| 0 <= i < 27 implies t[i] != 'd' by {
        if i == 0 {} else if i == 1 {} else if i == 2 {} else if i == 3 {} else if i == 4 {} else if i == 5 {} else if i == 6 {} else if i == 7 {} else if i == 8 {} else if i == 9 {} else if i == 10 {} else if i == 11 {} else if i == 12 {} else if i == 13 {} else if i == 14 {} else if i == 15 {} else if i == 16 {} else if i == 17 {} else if i == 18 {} else if i == 19 {} else if i == 20 {} else if i == 21 {} else if i == 22 {} else if i == 23 {} else if i == 24 {} else if i == 25 {} else if i == 26 {}
    }
    assert(t.subrange(15, 28) =~= marker_end());
}

/// The block is its fixed head, the path, and its fixed close.
proof fn lemma_snippet_around_path(p: Seq<char>)
    ensures
        snippet(p) == (marker_start() + snippet_head()) + p + block_close_text(),
{
    assert(snippet(p) =~= (marker_start() + snippet_head()) + p + block_close_text());
}

/// Where two blocks start at the same `k` in `x`, one for a longer path than
/// the other, the longer path holds the end marker.
proof fn lemma_no_longer_block(p1: Seq<char>, p2: Seq<char>, x: Seq<char>, k: int)
    requires
        p1.len() < p2.len(),
        occurs_at(x, snippet(p1), k),
        occurs_at(x, snippet(p2), k),
    ensures
        has_text(p2, marker_end()),
{
    let a = marker_start() + snippet_head();
    let t = block_close_text();
    lemma_snippet_around_path(p1);
    lemma_snippet_around_path(p2);
    lemma_close_text_shape();
    let s1 = snippet(p1);
    let s2 = snippet(p2);
    let la = a.len() as int;
    let d = p2.len() - p1.len();
    // Both blocks are read off `x` from `k`, so the shorter is a prefix of the longer.
    assert forall|m: int| 0 <= m < s1.len() implies s1[m] == s2[m] by {
        assert(x.subrange(k, k + s1.len())[m] == x[k + m]);
        assert(x.subrange(k, k + s2.len())[m] == x[k + m]);
    }
    if d >= 28 {
        let pos = p1.len() as int + 15;
        assert forall|m: int| 0 <= m < 13 implies p2[pos + m] == marker_end()[m] by {
            assert(s1[la + p1.len() + 15 + m] == t[15 + m]);
            assert(s2[la + pos + m] == p2[pos + m]);
            assert(t.subrange(15, 28)[m] == t[15 + m]);
        }
        assert(p2.subrange(pos, pos + 13) =~= marker_end());
        assert(occurs_at(p2, marker_end(), pos));
    } else {
        let m = 27int;
        assert(s1[la + p1.len() + m] == t[m]);
        assert(s2[la + p1.len() + m] == t[m - d]);
    }
}

/// Two blocks that both start at `k` in `x`, for paths without the end
/// marker, are for the same path.
proof fn lemma_same_block_same_path(p1: Seq<char>, p2: Seq<char>, x: Seq<char>, k: int)
    requires
        !has_text(p1, marker_end()),
        !has_text(p2, marker_end()),
        occurs_at(x, snippet(p1), k),
        occurs_at(x, snippet(p2), k),
    ensures
        p1 == p2,
{
    if p1.len() < p2.len() {
        lemma_no_longer_block(p1, p2, x, k);
    } else if p2.len() < p1.len() {
        lemma_no_longer_block(p2, p1, x, k);
    } else {
        let a = marker_start() + snippet_head();
        lemma_snippet_around_path(p1);
        lemma_snippet_around_path(p2);
        assert(x.subrange(k, k + snippet(p1).len()) == snippet(p1));
        assert(snippet(p1) == snippet(p2));
        assert forall|i: int| 0 <= i < p1.len() implies p1[i] == p2[i] by {
            assert(snippet(p1)[a.len() + i] == p1[i]);
            assert(snippet(p2)[a.len() + i] == p2[i]);
        }
        assert(p1 =~= p2);
    }
}

/// Where `x` holds the start marker at one position only, it holds at most
/// one keybinding block, for paths without markers.
proof fn lemma_one_block_path(x: Seq<char>, p1: Seq<char>, p2: Seq<char>)
    requires
        exists|k: int| occurs_at(x, marker_start(), k) && forall|k2: int| occurs_at(x, marker_start(), k2) ==> k2 == k,
        !has_text(p1, marker_end()),
        !has_text(p2, marker_end()),
        has_text(x, snippet(p1)),
        has_text(x, snippet(p2)),
    ensures
        p1 == p2,
{
    let k = choose|k: int| occurs_at(x, marker_start(), k) && forall|k2: int| occurs_at(x, marker_start(), k2) ==> k2 == k;
    let ms = marker_start();
    let j1 = choose|j: int| occurs_at(x, snippet(p1), j);
    let j2 = choose|j: int| occurs_at(x, snippet(p2), j);
    assert(snippet(p1).subrange(0, ms.len() as int) =~= ms);
    assert(snippet(p2).subrange(0, ms.len() as int) =~= ms);
    assert(x.subrange(j1, j1 + ms.len()) =~= x.subrange(j1, j1 + snippet(p1).len()).subrange(0, ms.len() as int));
    assert(x.subrange(j2, j2 + ms.len()) =~= x.subrange(j2, j2 + snippet(p2).len()).subrange(0, ms.len() as int));
    assert(occurs_at(x, ms, j1));
    assert(occurs_at(x, ms, j2));
    lemma_same_block_same_path(p1, p2, x, j1);
}

/// Installing twice, with whatever binary paths, leaves one start marker in
/// the configuration, and the block for the second path: the block that
/// the first install put in is replaced, not kept beside the new one, so
/// the block for a different first path is gone. This
/// holds for a configuration that held neither marker comment before, and
/// for paths that hold neither.
pub proof fn lemma_reinstall_keeps_one_block(content: Seq<char>, first_path: Seq<char>, second_path: Seq<char>)
    requires
        !has_text(content, marker_start()),
        !has_text(content, marker_end()),
        !has_text(first_path, marker_start()),
        !has_text(first_path, marker_end()),
        !has_text(second_path, marker_start()),
        !has_text(second_path, marker_end()),
    ensures
        has_text(injected(injected(content, first_path), second_path), snippet(second_path)),
        exists|k: int|
            occurs_at(injected(injected(content, first_path), second_path), marker_start(), k) && forall|k2: int|
                occurs_at(injected(injected(content, first_path), second_path), marker_start(), k2) ==> k2 == k,
        first_path != second_path ==> !has_text(
            injected(injected(content, first_path), second_path),
            snippet(first_path),
        ),
{
    let parts = lemma_first_install_shape(content, first_path);
    lemma_second_install_count(parts.0, parts.1, second_path);
    lemma_markers_like();
    let r = injected(injected(content, first_path), second_path);
    lemma_count_one(r, marker_start());
    lemma_injected_holds_block(injected(content, first_path), second_path);
    if has_text(r, snippet(first_path)) {
        lemma_one_block_path(r, first_path, second_path);
    }
}

// -- Removing after installing --

proof fn lemma_block_marker_counts(x: Seq<char>, binary_path: Seq<char>)
    requires
        count(x, marker_start()) == 0,
        count(x, marker_end()) == 0,
        !has_text(binary_path, marker_start()),
        !has_text(binary_path, marker_end()),
    ensures
        count(x + snippet(binary_path), marker_start()) == 1,
        count(x + snippet(binary_path), marker_end()) == 1,
{
    let ms = marker_start();
    let me = marker_end();
    let snip = snippet(binary_path);
    let body = block_body(binary_path);
    lemma_markers_like();
    lemma_marker_counts();
    lemma_snippet_parts(binary_path);
    lemma_block_body_counts(binary_path, ms);
    lemma_block_body_counts(binary_path, me);
    lemma_count_sep(ms, body, ms);
    lemma_count_sep(ms, body, me);
    lemma_no_straddle_before_dashes(x, snip, ms);
    lemma_no_straddle_before_dashes(x, snip, me);
    lemma_count_concat(x, snip, ms);
    lemma_count_concat(x, snip, me);
}

/// Where `pat` occurs once in `xs`, at `k0`, it occurs in `xs + rest` at no
/// position before `k0`.
proof fn lemma_first_in_prefix(xs: Seq<char>, rest: Seq<char>, pat: Seq<char>, k0: int)
    requires
        pat.len() > 0,
        count(xs, pat) == 1,
        occurs_at(xs, pat, k0),
    ensures
        first_at(xs + rest, pat, k0),
        first_index(xs + rest, pat) == k0,
{
    let r = xs + rest;
    lemma_count_one(xs, pat);
    assert(r.subrange(k0, k0 + pat.len()) =~= xs.subrange(k0, k0 + pat.len()));
    assert forall|k: int| 0 <= k < k0 implies !occurs_at(r, pat, k) by {
        if occurs_at(r, pat, k) {
            assert(r.subrange(k, k + pat.len()) =~= xs.subrange(k, k + pat.len()));
            assert(occurs_at(xs, pat, k));
        }
    }
    lemma_first_unique(r, pat, k0);
}

/// In `x + block + "\n" + y`, with no marker in `x`, the marker block that
/// removal finds is `block` and the newline after it.
#[verifier::spinoff_prover]
#[verifier::rlimit(30)]
proof fn lemma_remove_block_from(x: Seq<char>, binary_path: Seq<char>, y: Seq<char>)
    requires
        count(x, marker_start()) == 0,
        count(x, marker_end()) == 0,
        !has_text(binary_path, marker_start()),
        !has_text(binary_path, marker_end()),
    ensures
        block_removed(x + snippet(binary_path) + seq!['\n'] + y) == Some(x + y),
{
    let ms = marker_start();
    let me = marker_end();
    let nl = seq!['\n'];
    let snip = snippet(binary_path);
    let xs = x + snip;
    let r = xs + nl + y;
    lemma_markers_like();
    lemma_block_marker_counts(x, binary_path);
    let ks = x.len() as int;
    let ke = xs.len() - me.len();
    assert(xs.subrange(ks, ks + ms.len()) =~= ms);
    assert(xs.subrange(ke, ke + me.len()) =~= me);
    assert(r =~= xs + (nl + y));
    lemma_first_in_prefix(xs, nl + y, ms, ks);
    lemma_first_in_prefix(xs, nl + y, me, ke);
    assert(r[xs.len() as int] == '\n');
    assert(block_end(r) == xs.len() + 1);
    assert(r.take(ks) =~= x);
    assert(r.skip(xs.len() + 1int) =~= y);
}

proof fn lemma_remove_undoes_inject_at_end(c: Seq<char>, binary_path: Seq<char>)
    requires
        count(c, marker_start()) == 0,
        count(c, marker_end()) == 0,
        !has_text(binary_path, marker_start()),
        !has_text(binary_path, marker_end()),
    ensures
        block_removed(c + seq!['\n'] + snippet(binary_path) + seq!['\n']) == Some(c + seq!['\n']),
{
    let ms = marker_start();
    let me = marker_end();
    let nl = seq!['\n'];
    let e = Seq::<char>::empty();
    lemma_markers_like();
    lemma_count_sep(c, e, ms);
    lemma_count_sep(c, e, me);
    assert(c + nl + e =~= c + nl);
    assert(count(e, ms) == 0 && count(e, me) == 0);
    lemma_remove_block_from(c + nl, binary_path, e);
    assert(c + nl + snippet(binary_path) + nl + e =~= c + nl + snippet(binary_path) + nl);
}

#[verifier::spinoff_prover]
proof fn lemma_remove_undoes_inject_at_brace(c: Seq<char>, binary_path: Seq<char>, pos: int)
    requires
        count(c.take(pos), marker_start()) == 0,
        count(c.take(pos), marker_end()) == 0,
        !has_text(binary_path, marker_start()),
        !has_text(binary_path, marker_end()),
        0 <= pos <= c.len(),
    ensures
        block_removed(c.take(pos) + snippet(binary_path) + seq!['\n'] + c.skip(pos)) == Some(c),
{
    let x = c.take(pos);
    let y = c.skip(pos);
    lemma_remove_block_from(x, binary_path, y);
    assert(x + y =~= c);
}

/// Removing weztui's keybinding right after installing it gives back the
/// configuration as installing left it apart from the block: its
/// conflicting bindings commented out, and, where it had no `}`, followed by
/// the newline that installing added before the block. The block and both
/// markers go; every other line stays. This holds for a configuration and
/// a path that hold neither marker comment.
#[verifier::spinoff_prover]
pub proof fn lemma_remove_undoes_inject(content: Seq<char>, binary_path: Seq<char>)
    requires
        !has_text(content, marker_start()),
        !has_text(content, marker_end()),
        !has_text(binary_path, marker_start()),
        !has_text(binary_path, marker_end()),
    ensures
        block_removed(injected(content, binary_path)) == Some(
            if exists|k: int| last_at(commented(content), '}', k) {
                commented(content)
            } else {
                commented(content) + seq!['\n']
            },
        ),
{
    let ms = marker_start();
    let me = marker_end();
    let nl = seq!['\n'];
    let c = commented(content);
    let snip = snippet(binary_path);
    lemma_markers_like();
    lemma_commented_marker_free(content);
    lemma_injected_fresh(content, binary_path);
    lemma_count_zero(c, ms);
    lemma_count_zero(c, me);
    if exists|k: int| last_at(c, '}', k) {
        let pos = choose|k: int| last_at(c, '}', k);
        lemma_parts_free(c, ms, pos);
        lemma_parts_free(c, me, pos);
        lemma_remove_undoes_inject_at_brace(c, binary_path, pos);
    } else {
        lemma_remove_undoes_inject_at_end(c, binary_path);
    }
}

} // verus!
