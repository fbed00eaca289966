use vstd::prelude::*;
use vstd::string::*;

use crate::text::{chars_of, push_chars, push_str, string_from_chars};

verus! {

// -- Searching text --

/// `pat` occurs in `s` at position `k`.
pub open spec fn occurs_at(s: Seq<char>, pat: Seq<char>, k: int) -> bool {
    0 <= k && k + pat.len() <= s.len() && s.subrange(k, k + pat.len()) == pat
}

/// `pat` occurs somewhere in `s`.
pub open spec fn has_text(s: Seq<char>, pat: Seq<char>) -> bool {
    exists|k: int| occurs_at(s, pat, k)
}

/// `k` is the first position where `pat` occurs in `s`.
pub open spec fn first_at(s: Seq<char>, pat: Seq<char>, k: int) -> bool {
    occurs_at(s, pat, k) && forall|k2: int| 0 <= k2 < k ==> !occurs_at(s, pat, k2)
}

/// The first position where `pat` occurs in `s` (when it occurs).
pub open spec fn first_index(s: Seq<char>, pat: Seq<char>) -> int {
    choose|k: int| first_at(s, pat, k)
}

pub(crate) proof fn lemma_first_unique(s: Seq<char>, pat: Seq<char>, k: int)
    requires
        first_at(s, pat, k),
    ensures
        first_index(s, pat) == k,
{
    let k2 = first_index(s, pat);
    assert(first_at(s, pat, k2));
    if k2 < k {
        assert(!occurs_at(s, pat, k2));
    } else if k2 > k {
        assert(!occurs_at(s, pat, k));
    }
}

/// The first position of `pat` in `s`, if it occurs.
pub fn find_text(s: &Vec<char>, pat: &Vec<char>) -> (r: Option<usize>)
    ensures
        match r {
            Some(k) => first_at(s@, pat@, k as int) && first_index(s@, pat@) == k,
            None => !has_text(s@, pat@),
        },
{
    if pat.len() > s.len() {
        assert forall|k: int| !occurs_at(s@, pat@, k) by {}
        return None;
    }
    let last = s.len() - pat.len();
    let mut k: usize = 0;
    loop
        invariant
            pat@.len() <= s@.len(),
            last == s@.len() - pat@.len(),
            k <= last,
            forall|k2: int| 0 <= k2 < k ==> !occurs_at(s@, pat@, k2),
        decreases last - k,
    {
        let mut m: usize = 0;
        let mut same = true;
        while same && m < pat.len()
            invariant
                k <= last,
                pat@.len() <= s@.len(),
                last == s@.len() - pat@.len(),
                k + pat@.len() <= s@.len(),
                m <= pat@.len(),
                forall|m2: int| 0 <= m2 < m ==> s@[k + m2] == pat@[m2],
                !same ==> m < pat@.len() && s@[k + m] != pat@[m as int],
            decreases pat@.len() - m + (if same { 1int } else { 0int }),
        {
            assert(k + m < s@.len());
            assert(s@.len() == s.len());
            if s[k + m] == pat[m] {
                m = m + 1;
            } else {
                same = false;
            }
        }
        if m == pat.len() {
            assert(s@.subrange(k as int, k + pat@.len()) =~= pat@);
            proof {
                lemma_first_unique(s@, pat@, k as int);
            }
            return Some(k);
        }
        assert(s@.subrange(k as int, k + pat@.len())[m as int] != pat@[m as int]);
        if k == last {
            assert forall|k2: int| !occurs_at(s@, pat@, k2) by {
                if 0 <= k2 <= k {
                }
            }
            return None;
        }
        k = k + 1;
    }
}

/// `k` is the last position of `c` in `s`.
pub open spec fn last_at(s: Seq<char>, c: char, k: int) -> bool {
    0 <= k < s.len() && s[k] == c && forall|k2: int| k < k2 < s.len() ==> s[k2] != c
}

/// The last position of `c` in `s`, if it occurs.
pub fn rfind_char(s: &Vec<char>, c: char) -> (r: Option<usize>)
    ensures
        match r {
            Some(k) => last_at(s@, c, k as int),
            None => forall|k: int| 0 <= k < s@.len() ==> s@[k] != c,
        },
{
    let mut k: usize = s.len();
    while k > 0
        invariant
            k <= s@.len(),
            forall|k2: int| k <= k2 < s@.len() ==> s@[k2] != c,
        decreases k,
    {
        if s[k - 1] == c {
            return Some(k - 1);
        }
        k = k - 1;
    }
    None
}

// -- The keybinding block --

pub open spec fn marker_start() -> Seq<char> {
    seq!['-', '-', ' ', 'w', 'e', 'z', 't', 'u', 'i', ':', 's', 't', 'a', 'r', 't']
}

pub open spec fn marker_end() -> Seq<char> {
    seq!['-', '-', ' ', 'w', 'e', 'z', 't', 'u', 'i', ':', 'e', 'n', 'd']
}

fn marker_start_chars() -> (r: Vec<char>)
    ensures
        r@ == marker_start(),
{
    proof {
        reveal_strlit("-- weztui:start");
    }
    let r = chars_of("-- weztui:start");
    assert(r@ =~= marker_start());
    r
}

fn marker_end_chars() -> (r: Vec<char>)
    ensures
        r@ == marker_end(),
{
    proof {
        reveal_strlit("-- weztui:end");
    }
    let r = chars_of("-- weztui:end");
    assert(r@ =~= marker_end());
    r
}

pub open spec fn snippet_head() -> Seq<char> {
    seq![
        '\n', '{', '\n', ' ', ' ', ' ', ' ', 'k', 'e', 'y', ' ', '=', ' ', '\'', 'g', '\'', ',', '\n', ' ', ' ', ' ', ' ', 'm', 'o',
        'd', 's', ' ', '=', ' ', '\'', 'C', 'M', 'D', '|', 'S', 'H', 'I', 'F', 'T', '\'', ',', '\n', ' ', ' ', ' ', ' ', 'a', 'c',
        't', 'i', 'o', 'n', ' ', '=', ' ', 'w', 'e', 'z', 't', 'e', 'r', 'm', '.', 'a', 'c', 't', 'i', 'o', 'n', '.', 'S', 'p',
        'a', 'w', 'n', 'C', 'o', 'm', 'm', 'a', 'n', 'd', 'I', 'n', 'N', 'e', 'w', 'T', 'a', 'b', ' ', '{', '\n', ' ', ' ', ' ',
        ' ', ' ', ' ', ' ', ' ', 'a', 'r', 'g', 's', ' ', '=', ' ', '{', ' ', '\'', '/', 'b', 'i', 'n', '/', 's', 'h', '\'', ',',
        ' ', '\'', '-', 'c', '\'', ',', ' ', '\'', 'e', 'x', 'e', 'c', ' ',
    ]
}

pub open spec fn snippet_tail() -> Seq<char> {
    seq!['\'', ' ', '}', ',', '\n', ' ', ' ', ' ', ' ', '}', ',', '\n', '}', ',', '\n']
}

/// The Lua block that binds Cmd+Shift+G to run `binary_path` in a new tab,
/// between the two marker comments.
pub open spec fn snippet(binary_path: Seq<char>) -> Seq<char> {
    marker_start() + snippet_head() + binary_path + snippet_tail() + marker_end()
}

/// The keybinding block for `binary_path` (see [`snippet`]). The command
/// runs through `/bin/sh -c exec` so that the terminal is set up before
/// weztui starts.
pub fn keybinding_snippet(binary_path: &str) -> (r: String)
    ensures
        r@ == snippet(binary_path@),
{
    let mut out = marker_start_chars();
    proof {
        reveal_strlit("\n{\n    key = 'g',\n    mods = 'CMD|SHIFT',\n    action = wezterm.action.SpawnCommandInNewTab {\n        args = { '/bin/sh', '-c', 'exec ");
        reveal_strlit("' },\n    },\n},\n");
    }
    push_str(
        &mut out,
        "\n{\n    key = 'g',\n    mods = 'CMD|SHIFT',\n    action = wezterm.action.SpawnCommandInNewTab {\n        args = { '/bin/sh', '-c', 'exec ",
    );
    push_str(&mut out, binary_path);
    push_str(&mut out, "' },\n    },\n},\n");
    let end = marker_end_chars();
    push_chars(&mut out, &end);
    assert(out@ =~= snippet(binary_path@));
    string_from_chars(out.as_slice())
}

/// Where the marker block of `c` ends: after the end marker, and after one
/// newline that follows it.
pub open spec fn block_end(c: Seq<char>) -> int {
    let e = first_index(c, marker_end()) + marker_end().len();
    if e < c.len() && c[e] == '\n' { e + 1 } else { e }
}

/// `c` with its marker block (from the first start marker to the first end
/// marker and one newline after it) replaced by `replacement` and a newline;
/// nothing when either marker is missing.
pub open spec fn block_replaced(c: Seq<char>, replacement: Seq<char>) -> Option<Seq<char>> {
    if has_text(c, marker_start()) && has_text(c, marker_end()) {
        Some(c.take(first_index(c, marker_start())) + replacement + seq!['\n'] + c.skip(block_end(c)))
    } else {
        None
    }
}

/// `c` without its marker block; nothing when either marker is missing.
pub open spec fn block_removed(c: Seq<char>) -> Option<Seq<char>> {
    if has_text(c, marker_start()) && has_text(c, marker_end()) {
        Some(c.take(first_index(c, marker_start())) + c.skip(block_end(c)))
    } else {
        None
    }
}

/// The positions of the marker block: where it starts and where it ends.
fn marker_bounds(cs: &Vec<char>) -> (r: Option<(usize, usize)>)
    ensures
        match r {
            Some((s, e)) => has_text(cs@, marker_start()) && has_text(cs@, marker_end()) && s == first_index(
                cs@,
                marker_start(),
            ) && e == block_end(cs@) && s <= cs@.len() && e <= cs@.len(),
            None => !(has_text(cs@, marker_start()) && has_text(cs@, marker_end())),
        },
{
    let start = marker_start_chars();
    let end = marker_end_chars();
    let s = match find_text(cs, &start) {
        Some(s) => s,
        None => {
            return None;
        },
    };
    let found = find_text(cs, &end);
    let e = match found {
        Some(e) => e,
        None => {
            return None;
        },
    };
    assert(occurs_at(cs@, end@, e as int));
    assert(e + end@.len() <= cs@.len());
    assert(cs@.len() == cs.len());
    let mut stop = e + end.len();
    if stop < cs.len() && cs[stop] == '\n' {
        stop = stop + 1;
    }
    Some((s, stop))
}

pub(crate) fn slice_chars(cs: &Vec<char>, from: usize, to: usize) -> (r: Vec<char>)
    requires
        from <= to <= cs@.len(),
    ensures
        r@ == cs@.subrange(from as int, to as int),
{
    let mut out: Vec<char> = Vec::new();
    let mut k: usize = from;
    while k < to
        invariant
            from <= k <= to <= cs@.len(),
            out@ == cs@.subrange(from as int, k as int),
        decreases to - k,
    {
        out.push(cs[k]);
        k = k + 1;
        assert(out@ =~= cs@.subrange(from as int, k as int));
    }
    out
}

/// Replaces the marker block of `content` by `replacement` (see
/// [`block_replaced`]); `None` when the content has no marker block.
pub fn replace_marker_block(content: &str, replacement: &str) -> (r: Option<String>)
    ensures
        match block_replaced(content@, replacement@) {
            Some(t) => r is Some && r->0@ == t,
            None => r is None,
        },
{
    let cs = chars_of(content);
    match marker_bounds(&cs) {
        None => None,
        Some((s, e)) => {
            let mut out = slice_chars(&cs, 0, s);
            push_str(&mut out, replacement);
            out.push('\n');
            let rest = slice_chars(&cs, e, cs.len());
            push_chars(&mut out, &rest);
            assert(cs@.take(s as int) =~= cs@.subrange(0, s as int));
            assert(cs@.skip(e as int) =~= cs@.subrange(e as int, cs@.len() as int));
            assert(out@ =~= cs@.take(s as int) + replacement@ + seq!['\n'] + cs@.skip(e as int));
            Some(string_from_chars(out.as_slice()))
        },
    }
}

/// Removes the marker block from `content` (see [`block_removed`]); `None`
/// when the content has no marker block.
pub fn remove_marker_block(content: &str) -> (r: Option<String>)
    ensures
        match block_removed(content@) {
            Some(t) => r is Some && r->0@ == t,
            None => r is None,
        },
{
    let cs = chars_of(content);
    match marker_bounds(&cs) {
        None => None,
        Some((s, e)) => {
            let mut out = slice_chars(&cs, 0, s);
            let rest = slice_chars(&cs, e, cs.len());
            push_chars(&mut out, &rest);
            assert(cs@.take(s as int) =~= cs@.subrange(0, s as int));
            assert(cs@.skip(e as int) =~= cs@.subrange(e as int, cs@.len() as int));
            assert(out@ =~= cs@.take(s as int) + cs@.skip(e as int));
            Some(string_from_chars(out.as_slice()))
        },
    }
}


// -- Lines --

/// `c` is white space in Unicode's White_Space property, as
/// `char::is_whitespace` decides: tab to carriage return, space, next line,
/// no-break space, the Ogham space mark, the en quad to the hair space, the
/// line and paragraph separators, the narrow no-break space, the medium
/// mathematical space and the ideographic space.
pub open spec fn char_whitespace(c: char) -> bool {
    let n = c as u32;
    ||| 0x09 <= n <= 0x0D
    ||| n == 0x20
    ||| n == 0x85
    ||| n == 0xA0
    ||| n == 0x1680
    ||| 0x2000 <= n <= 0x200A
    ||| n == 0x2028
    ||| n == 0x2029
    ||| n == 0x202F
    ||| n == 0x205F
    ||| n == 0x3000
}

/// Whether `c` is white space (see [`char_whitespace`]).
fn is_whitespace(c: char) -> (b: bool)
    ensures
        b == char_whitespace(c),
{
    let n = c as u32;
    (0x09 <= n && n <= 0x0D) || n == 0x20 || n == 0x85 || n == 0xA0 || n == 0x1680 || (0x2000 <= n && n <= 0x200A)
        || n == 0x2028 || n == 0x2029 || n == 0x202F || n == 0x205F || n == 0x3000
}

/// `s` without its leading whitespace.
pub open spec fn trim_start_of(s: Seq<char>) -> Seq<char>
    decreases s.len(),
{
    if s.len() > 0 && char_whitespace(s[0]) {
        trim_start_of(s.drop_first())
    } else {
        s
    }
}

/// `s` without its trailing whitespace.
pub open spec fn trim_end_of(s: Seq<char>) -> Seq<char>
    decreases s.len(),
{
    if s.len() > 0 && char_whitespace(s.last()) {
        trim_end_of(s.drop_last())
    } else {
        s
    }
}

/// `s` without leading and trailing whitespace (as `str::trim`).
pub open spec fn trimmed(s: Seq<char>) -> Seq<char> {
    trim_end_of(trim_start_of(s))
}

/// The characters of `s` without leading and trailing whitespace.
pub(crate) fn trim_chars(s: &Vec<char>) -> (r: Vec<char>)
    ensures
        r@ == trimmed(s@),
{
    let mut a: usize = 0;
    assert(s@.skip(0) =~= s@);
    while a < s.len() && is_whitespace(s[a])
        invariant
            a <= s@.len(),
            trim_start_of(s@) == trim_start_of(s@.skip(a as int)),
        decreases s@.len() - a,
    {
        assert(s@.skip(a as int).drop_first() =~= s@.skip(a + 1));
        a = a + 1;
    }
    let t = slice_chars(s, a, s.len());
    assert(t@ =~= s@.skip(a as int));
    let mut b: usize = t.len();
    assert(t@.take(b as int) =~= t@);
    while b > 0 && is_whitespace(t[b - 1])
        invariant
            b <= t@.len(),
            trim_end_of(t@) == trim_end_of(t@.take(b as int)),
        decreases b,
    {
        assert(t@.take(b as int).drop_last() =~= t@.take(b - 1));
        b = b - 1;
    }
    let r = slice_chars(&t, 0, b);
    assert(r@ =~= t@.take(b as int));
    r
}

/// The pieces of `s` between its newlines (one more than there are
/// newlines).
pub open spec fn pieces(s: Seq<char>) -> Seq<Seq<char>>
    decreases s.len(),
{
    if s.len() == 0 {
        seq![Seq::empty()]
    } else {
        let p = pieces(s.drop_last());
        if s.last() == '\n' {
            p.push(Seq::empty())
        } else {
            p.update(p.len() - 1, p.last().push(s.last()))
        }
    }
}

pub(crate) proof fn lemma_pieces_len(s: Seq<char>)
    ensures
        pieces(s).len() >= 1,
    decreases s.len(),
{
    if s.len() > 0 {
        lemma_pieces_len(s.drop_last());
    }
}

/// A line ended by `\r\n` loses its `\r`.
pub open spec fn strip_cr(l: Seq<char>) -> Seq<char> {
    if l.len() > 0 && l.last() == '\r' { l.drop_last() } else { l }
}

/// The lines of `s` as `str::lines` gives them: split at each `\n`, a `\r`
/// before it dropped, and no empty line after a final newline.
pub open spec fn lines_of(s: Seq<char>) -> Seq<Seq<char>> {
    let p = pieces(s);
    let body = Seq::new((p.len() - 1) as nat, |i: int| strip_cr(p[i]));
    if p.last().len() == 0 { body } else { body.push(p.last()) }
}

/// The character sequences of a list of lines.
pub open spec fn line_views(ls: Seq<Vec<char>>) -> Seq<Seq<char>> {
    ls.map_values(|l: Vec<char>| l@)
}

fn strip_cr_chars(l: Vec<char>) -> (r: Vec<char>)
    ensures
        r@ == strip_cr(l@),
{
    let mut l = l;
    if l.len() > 0 && l[l.len() - 1] == '\r' {
        l.pop();
    }
    l
}

/// The lines of `s` (see [`lines_of`]).
pub(crate) fn split_lines(s: &str) -> (r: Vec<Vec<char>>)
    ensures
        line_views(r@) == lines_of(s@),
{
    let cs = chars_of(s);
    let mut done: Vec<Vec<char>> = Vec::new();
    let mut cur: Vec<char> = Vec::new();
    let mut k: usize = 0;
    while k < cs.len()
        invariant
            k <= cs@.len(),
            line_views(done@).push(cur@) == pieces(cs@.take(k as int)),
        decreases cs@.len() - k,
    {
        let ghost before = cs@.take(k as int);
        proof {
            lemma_pieces_len(before);
            assert(cs@.take(k + 1).drop_last() =~= before);
        }
        if cs[k] == '\n' {
            let finished = cur;
            done.push(finished);
            cur = Vec::new();
            assert(line_views(done@).push(cur@) =~= pieces(before).push(Seq::empty()));
        } else {
            let ghost old_cur = cur@;
            cur.push(cs[k]);
            assert(line_views(done@).push(cur@) =~= pieces(before).update(
                pieces(before).len() - 1,
                old_cur.push(cs@[k as int]),
            ));
        }
        k = k + 1;
    }
    assert(cs@.take(cs@.len() as int) =~= cs@);
    let ghost p = pieces(cs@);
    let mut out: Vec<Vec<char>> = Vec::new();
    let mut i: usize = 0;
    while i < done.len()
        invariant
            i <= done@.len(),
            line_views(done@).push(cur@) == p,
            line_views(out@) == Seq::new(i as nat, |j: int| strip_cr(p[j])),
        decreases done@.len() - i,
    {
        let line = slice_chars(&done[i], 0, done[i].len());
        assert(line@ =~= done@[i as int]@);
        assert(line@ == p[i as int]);
        let ghost before = line_views(out@);
        let stripped = strip_cr_chars(line);
        assert(stripped@ == strip_cr(p[i as int]));
        out.push(stripped);
        assert(line_views(out@) =~= before.push(strip_cr(p[i as int])));
        i = i + 1;
        assert(line_views(out@) =~= Seq::new(i as nat, |j: int| strip_cr(p[j])));
    }
    assert(p.len() == done@.len() + 1);
    assert(p.last() == cur@);
    if cur.len() > 0 {
        let ghost body = line_views(out@);
        out.push(cur);
        assert(line_views(out@) =~= body.push(p.last()));
    }
    out
}

/// The lines joined with `\n` between them.
pub open spec fn join_lines(ls: Seq<Seq<char>>) -> Seq<char>
    decreases ls.len(),
{
    if ls.len() == 0 {
        Seq::empty()
    } else if ls.len() == 1 {
        ls[0]
    } else {
        join_lines(ls.drop_last()) + seq!['\n'] + ls.last()
    }
}

/// Lines `from..to` of `ls`, joined with `\n`.
pub(crate) fn join_range(ls: &Vec<Vec<char>>, from: usize, to: usize) -> (r: Vec<char>)
    requires
        from <= to <= ls@.len(),
    ensures
        r@ == join_lines(line_views(ls@).subrange(from as int, to as int)),
{
    let mut out: Vec<char> = Vec::new();
    let mut k: usize = from;
    while k < to
        invariant
            from <= k <= to <= ls@.len(),
            out@ == join_lines(line_views(ls@).subrange(from as int, k as int)),
        decreases to - k,
    {
        let ghost sub = line_views(ls@).subrange(from as int, k + 1);
        assert(sub.drop_last() =~= line_views(ls@).subrange(from as int, k as int));
        if k > from {
            out.push('\n');
        }
        push_chars(&mut out, &ls[k]);
        k = k + 1;
        assert(out@ =~= join_lines(sub));
    }
    out
}


// -- Disabling a conflicting binding --

pub open spec fn disabled_prefix() -> Seq<char> {
    seq!['-', '-', ' ', '[', 'w', 'e', 'z', 't', 'u', 'i', ':', 'd', 'i', 's', 'a', 'b', 'l', 'e', 'd', ']', ' ']
}

pub open spec fn key_g_single() -> Seq<char> {
    seq!['k', 'e', 'y', ' ', '=', ' ', '\'', 'g', '\'']
}

pub open spec fn key_g_double() -> Seq<char> {
    seq!['k', 'e', 'y', ' ', '=', ' ', '"', 'g', '"']
}

pub open spec fn cmd_shift() -> Seq<char> {
    seq!['C', 'M', 'D', '|', 'S', 'H', 'I', 'F', 'T']
}

pub open spec fn shift_cmd() -> Seq<char> {
    seq!['S', 'H', 'I', 'F', 'T', '|', 'C', 'M', 'D']
}

/// The line closes a Lua table entry: `},` or `}` once trimmed.
pub open spec fn closes_block(l: Seq<char>) -> bool {
    trimmed(l) == seq!['}', ','] || trimmed(l) == seq!['}']
}

/// Where a block starting at line `j` ends: after the first line from `j` on
/// that closes it, or at the end of the lines.
pub open spec fn block_close(ls: Seq<Seq<char>>, j: int) -> int
    decreases ls.len() - j,
{
    if j < 0 || j >= ls.len() {
        ls.len() as int
    } else if closes_block(ls[j]) {
        j + 1
    } else {
        block_close(ls, j + 1)
    }
}

pub proof fn lemma_block_close(ls: Seq<Seq<char>>, j: int)
    requires
        0 <= j < ls.len(),
    ensures
        j < block_close(ls, j) <= ls.len(),
    decreases ls.len() - j,
{
    if !closes_block(ls[j]) {
        if j + 1 < ls.len() {
            lemma_block_close(ls, j + 1);
        } else {
            assert(block_close(ls, j + 1) == ls.len());
        }
    }
}

/// The text of up to eight lines from line `i`, joined, in which a binding
/// is looked for.
pub open spec fn binding_window(ls: Seq<Seq<char>>, i: int) -> Seq<char> {
    join_lines(ls.subrange(i, if i + 8 < ls.len() { i + 8 } else { ls.len() as int }))
}

/// The text binds `g` with Cmd+Shift.
pub open spec fn is_cmd_shift_g(block: Seq<char>) -> bool {
    (has_text(block, key_g_single()) || has_text(block, key_g_double())) && (has_text(block, cmd_shift()) || has_text(
        block,
        shift_cmd(),
    ))
}

/// Whether weztui's own block is open after line `line`, given whether it
/// was open before: a start marker opens it, an end marker closes it.
pub open spec fn marker_state(line: Seq<char>, open: bool) -> bool {
    if has_text(line, marker_end()) {
        false
    } else if has_text(line, marker_start()) {
        true
    } else {
        open
    }
}

/// Line `i` opens a Cmd+Shift+G binding outside weztui's block: it is `{`
/// once trimmed, at least five lines follow it, and the binding shows in the
/// lines from it on.
pub open spec fn starts_binding(ls: Seq<Seq<char>>, i: int, open: bool) -> bool {
    !open && trimmed(ls[i]) == seq!['{'] && i + 5 < ls.len() && is_cmd_shift_g(binding_window(ls, i))
}

/// Lines `i..j`, each commented out.
pub open spec fn disabled_lines(ls: Seq<Seq<char>>, i: int, j: int) -> Seq<Seq<char>> {
    Seq::new((j - i) as nat, |k: int| disabled_prefix() + ls[i + k])
}

/// The lines from `i` on, each binding block commented out, given whether
/// weztui's block is open before line `i`.
pub open spec fn commented_from(ls: Seq<Seq<char>>, i: int, open: bool) -> Seq<Seq<char>>
    decreases ls.len() - i,
{
    if i < 0 || i >= ls.len() {
        Seq::empty()
    } else {
        let now = marker_state(ls[i], open);
        if starts_binding(ls, i, now) {
            let j = block_close(ls, i);
            proof {
                lemma_block_close(ls, i);
            }
            disabled_lines(ls, i, j) + commented_from(ls, j, now)
        } else {
            seq![ls[i]] + commented_from(ls, i + 1, now)
        }
    }
}

/// `content` with each Cmd+Shift+G binding block outside weztui's marker
/// block commented out, its lines joined with `\n` (a final newline is not
/// kept).
pub open spec fn commented(content: Seq<char>) -> Seq<char> {
    join_lines(commented_from(lines_of(content), 0, false))
}

fn literal_chars(s: &str) -> (r: Vec<char>)
    ensures
        r@ == s@,
{
    chars_of(s)
}

fn has_chars(s: &Vec<char>, pat: &Vec<char>) -> (b: bool)
    ensures
        b == has_text(s@, pat@),
{
    find_text(s, pat).is_some()
}

fn is_binding_at(ls: &Vec<Vec<char>>, i: usize) -> (b: bool)
    requires
        i < ls@.len(),
    ensures
        b == is_cmd_shift_g(binding_window(line_views(ls@), i as int)),
{
    let end = if ls.len() - i > 8 { i + 8 } else { ls.len() };
    let block = join_range(ls, i, end);
    proof {
        reveal_strlit("key = 'g'");
        reveal_strlit("key = \"g\"");
        reveal_strlit("CMD|SHIFT");
        reveal_strlit("SHIFT|CMD");
    }
    let k1 = literal_chars("key = 'g'");
    let k2 = literal_chars("key = \"g\"");
    let c1 = literal_chars("CMD|SHIFT");
    let c2 = literal_chars("SHIFT|CMD");
    assert(k1@ =~= key_g_single());
    assert(k2@ =~= key_g_double());
    assert(c1@ =~= cmd_shift());
    assert(c2@ =~= shift_cmd());
    (has_chars(&block, &k1) || has_chars(&block, &k2)) && (has_chars(&block, &c1) || has_chars(&block, &c2))
}

fn closes_block_line(l: &Vec<char>) -> (b: bool)
    ensures
        b == closes_block(l@),
{
    let t = trim_chars(l);
    let r = (t.len() == 2 && t[0] == '}' && t[1] == ',') || (t.len() == 1 && t[0] == '}');
    proof {
        if t@.len() == 2 && t@[0] == '}' && t@[1] == ',' {
            assert(t@ =~= seq!['}', ',']);
        }
        if t@.len() == 1 && t@[0] == '}' {
            assert(t@ =~= seq!['}']);
        }
    }
    r
}

fn opens_block_line(l: &Vec<char>) -> (b: bool)
    ensures
        b == (trimmed(l@) == seq!['{']),
{
    let t = trim_chars(l);
    let r = t.len() == 1 && t[0] == '{';
    proof {
        if r {
            assert(t@ =~= seq!['{']);
        }
    }
    r
}

fn copy_chars(v: &Vec<char>) -> (r: Vec<char>)
    ensures
        r@ == v@,
{
    slice_chars(v, 0, v.len())
}

/// Comments out each Cmd+Shift+G binding block outside weztui's own marker
/// block (see [`commented`]), so that weztui's binding is the one that
/// counts.
pub fn comment_out_existing_binding(content: &str) -> (r: String)
    ensures
        r@ == commented(content@),
{
    let ls = split_lines(content);
    let ghost lv = line_views(ls@);
    let start = marker_start_chars();
    let end = marker_end_chars();
    let prefix = literal_chars("-- [weztui:disabled] ");
    proof {
        reveal_strlit("-- [weztui:disabled] ");
    }
    assert(prefix@ =~= disabled_prefix());
    let mut out: Vec<Vec<char>> = Vec::new();
    let mut open = false;
    let mut i: usize = 0;
    while i < ls.len()
        invariant
            i <= ls@.len(),
            lv == line_views(ls@),
            start@ == marker_start(),
            end@ == marker_end(),
            prefix@ == disabled_prefix(),
            line_views(out@) + commented_from(lv, i as int, open) == commented_from(lv, 0, false),
        decreases ls@.len() - i,
    {
        let ghost base = line_views(out@);
        let ghost was_open = open;
        assert(lv[i as int] == ls@[i as int]@);
        let line = &ls[i];
        open = if has_chars(line, &end) {
            false
        } else if has_chars(line, &start) {
            true
        } else {
            open
        };
        assert(open == marker_state(lv[i as int], was_open));
        if !open && opens_block_line(line) && ls.len() - i > 5 && is_binding_at(&ls, i) {
            assert(starts_binding(lv, i as int, open));
            proof {
                lemma_block_close(lv, i as int);
            }
            let mut j: usize = i;
            let mut closed = false;
            while !closed && j < ls.len()
                invariant
                    i <= j <= ls@.len(),
                    i < ls@.len(),
                    lv == line_views(ls@),
                    prefix@ == disabled_prefix(),
                    line_views(out@) == base + disabled_lines(lv, i as int, j as int),
                    closed ==> j == block_close(lv, i as int),
                    !closed ==> block_close(lv, i as int) == block_close(lv, j as int),
                decreases ls@.len() - j + (if closed { 0int } else { 1int }),
            {
                let mut d = copy_chars(&prefix);
                push_chars(&mut d, &ls[j]);
                let ghost before = line_views(out@);
                out.push(d);
                assert(line_views(out@) =~= before.push(disabled_prefix() + lv[j as int]));
                if closes_block_line(&ls[j]) {
                    closed = true;
                }
                j = j + 1;
                assert(line_views(out@) =~= base + disabled_lines(lv, i as int, j as int));
            }
            assert(j == block_close(lv, i as int));
            assert(commented_from(lv, i as int, was_open) == disabled_lines(lv, i as int, j as int) + commented_from(
                lv,
                j as int,
                open,
            ));
            assert(line_views(out@) + commented_from(lv, j as int, open) =~= base + commented_from(
                lv,
                i as int,
                was_open,
            ));
            i = j;
        } else {
            assert(!starts_binding(lv, i as int, open));
            let copied = copy_chars(line);
            out.push(copied);
            assert(line_views(out@) =~= base.push(lv[i as int]));
            assert(commented_from(lv, i as int, was_open) == seq![lv[i as int]] + commented_from(lv, i + 1, open));
            assert(line_views(out@) + commented_from(lv, i + 1, open) =~= base + commented_from(lv, i as int, was_open));
            i = i + 1;
        }
    }
    assert(commented_from(lv, i as int, open) =~= Seq::<Seq<char>>::empty());
    assert(line_views(out@) =~= commented_from(lv, 0, false));
    let joined = join_range(&out, 0, out.len());
    assert(line_views(out@).subrange(0, out@.len() as int) =~= line_views(out@));
    string_from_chars(joined.as_slice())
}

// -- Installing and removing --

proof fn lemma_last_unique(s: Seq<char>, c: char, k: int)
    requires
        last_at(s, c, k),
    ensures
        (choose|k2: int| last_at(s, c, k2)) == k,
{
    let k2 = choose|k2: int| last_at(s, c, k2);
    assert(last_at(s, c, k2));
}

/// The configuration text with weztui's keybinding for `binary_path`:
/// after conflicting bindings are commented out, the marker block is
/// replaced if there is one; otherwise the block goes before the last `}`
/// (the end of the returned key table), or at the end.
pub open spec fn injected(content: Seq<char>, binary_path: Seq<char>) -> Seq<char> {
    let c = commented(content);
    let snip = snippet(binary_path);
    match block_replaced(c, snip) {
        Some(t) => t,
        None => if exists|k: int| last_at(c, '}', k) {
            let pos = choose|k: int| last_at(c, '}', k);
            c.take(pos) + snip + seq!['\n'] + c.skip(pos)
        } else {
            c + seq!['\n'] + snip + seq!['\n']
        },
    }
}

/// The configuration text with weztui's keybinding put in (see
/// [`injected`]).
pub fn inject_text(content: &str, binary_path: &str) -> (r: String)
    ensures
        r@ == injected(content@, binary_path@),
{
    let c = comment_out_existing_binding(content);
    let snip = keybinding_snippet(binary_path);
    match replace_marker_block(c.as_str(), snip.as_str()) {
        Some(t) => t,
        None => {
            let cs = chars_of(c.as_str());
            match rfind_char(&cs, '}') {
                Some(pos) => {
                    proof {
                        lemma_last_unique(cs@, '}', pos as int);
                    }
                    let mut out = slice_chars(&cs, 0, pos);
                    push_str(&mut out, snip.as_str());
                    out.push('\n');
                    let rest = slice_chars(&cs, pos, cs.len());
                    push_chars(&mut out, &rest);
                    assert(cs@.take(pos as int) =~= cs@.subrange(0, pos as int));
                    assert(cs@.skip(pos as int) =~= cs@.subrange(pos as int, cs@.len() as int));
                    assert(out@ =~= cs@.take(pos as int) + snip@ + seq!['\n'] + cs@.skip(pos as int));
                    string_from_chars(out.as_slice())
                },
                None => {
                    let mut out = cs;
                    out.push('\n');
                    push_str(&mut out, snip.as_str());
                    out.push('\n');
                    assert(out@ =~= c@ + seq!['\n'] + snip@ + seq!['\n']);
                    string_from_chars(out.as_slice())
                },
            }
        },
    }
}


/// Installing always leaves weztui's keybinding block, for the given binary,
/// in the configuration text, whatever the text held before.
pub proof fn lemma_injected_holds_block(content: Seq<char>, binary_path: Seq<char>)
    ensures
        has_text(injected(content, binary_path), snippet(binary_path)),
{
    let c = commented(content);
    let snip = snippet(binary_path);
    let r = injected(content, binary_path);
    match block_replaced(c, snip) {
        Some(t) => {
            let k = first_index(c, marker_start());
            let pre = c.take(k);
            assert(t == pre + snip + seq!['\n'] + c.skip(block_end(c)));
            assert(t.subrange(pre.len() as int, (pre.len() + snip.len()) as int) =~= snip);
            assert(occurs_at(r, snip, pre.len() as int));
        },
        None => {
            if exists|k: int| last_at(c, '}', k) {
                let pos = choose|k: int| last_at(c, '}', k);
                let pre = c.take(pos);
                assert(r == pre + snip + seq!['\n'] + c.skip(pos));
                assert(r.subrange(pre.len() as int, (pre.len() + snip.len()) as int) =~= snip);
                assert(occurs_at(r, snip, pre.len() as int));
            } else {
                let pre = c + seq!['\n'];
                assert(r =~= pre + snip + seq!['\n']);
                assert(r.subrange(pre.len() as int, (pre.len() + snip.len()) as int) =~= snip);
                assert(occurs_at(r, snip, pre.len() as int));
            }
        },
    }
}

} // verus!
