use vstd::prelude::*;

use crate::model::WezPane;
use vstd::string::*;
use vstd::utf8::{encode_scalar, encode_utf8};

use crate::text::{chars_of, last_segment, last_segment_of, string_from_chars};

verus! {

/// A rectangle of terminal cells.
#[derive(Debug, Clone, Copy, PartialEq, Eq, Structural)]
pub struct Rect {
    pub x: u16,
    pub y: u16,
    pub width: u16,
    pub height: u16,
}

impl Rect {
    pub fn new(x: u16, y: u16, width: u16, height: u16) -> (r: Rect)
        ensures
            r == (Rect { x, y, width, height }),
    {
        Rect { x, y, width, height }
    }
}

/// A pane placed in the preview area.
#[derive(Debug, Clone, PartialEq)]
pub struct MappedPane {
    pub title: String,
    pub cwd_short: String,
    pub is_active: bool,
    pub is_selected: bool,
    pub rect: Rect,
}

/// The end of a pane to the right, and its end downwards.
pub open spec fn right_edge(p: WezPane) -> int {
    p.left + p.width
}

pub open spec fn bottom_edge(p: WezPane) -> int {
    p.top + p.height
}

/// The greatest right edge of the panes (0 for none).
pub open spec fn total_width(s: Seq<WezPane>) -> int
    decreases s.len(),
{
    if s.len() == 0 {
        0
    } else {
        let m = total_width(s.drop_last());
        if right_edge(s.last()) > m { right_edge(s.last()) } else { m }
    }
}

/// The greatest bottom edge of the panes (0 for none).
pub open spec fn total_height(s: Seq<WezPane>) -> int
    decreases s.len(),
{
    if s.len() == 0 {
        0
    } else {
        let m = total_height(s.drop_last());
        if bottom_edge(s.last()) > m { bottom_edge(s.last()) } else { m }
    }
}

/// The target rectangle's far edges fit in a `u16`.
pub open spec fn rect_fits(t: Rect) -> bool {
    t.x + t.width <= u16::MAX && t.y + t.height <= u16::MAX
}

/// Pane edges fit in a `u32`, and so do their products with the target size.
pub open spec fn panes_fit(s: Seq<WezPane>, t: Rect) -> bool {
    forall|i: int|
        0 <= i < s.len() ==> right_edge(#[trigger] s[i]) <= u32::MAX && bottom_edge(s[i]) <= u32::MAX
            && right_edge(s[i]) * t.width <= u32::MAX && bottom_edge(s[i]) * t.height <= u32::MAX
}

/// The short directory label of a pane: the last path segment, or `~`.
pub open spec fn dir_label(cwd: Option<String>) -> Seq<char> {
    match cwd {
        Some(c) => last_segment(c@),
        None => seq!['~'],
    }
}

pub open spec fn min_int(a: int, b: int) -> int {
    if a < b { a } else { b }
}

pub open spec fn max_int(a: int, b: int) -> int {
    if a > b { a } else { b }
}

/// The rectangle that pane `p` takes in `t` when the panes span `tw` x `th`
/// cells: its edges scaled down (truncating), at least 3 cells each way but
/// never past the far edges of `t`.
pub open spec fn scaled_rect(p: WezPane, t: Rect, tw: int, th: int) -> Rect {
    let x = t.x + p.left * t.width / tw;
    let y = t.y + p.top * t.height / th;
    let right = t.x + right_edge(p) * t.width / tw;
    let bottom = t.y + bottom_edge(p) * t.height / th;
    let avail_w = max_int(t.x + t.width - x, 0);
    let avail_h = max_int(t.y + t.height - y, 0);
    let w = min_int(max_int(max_int(right - x, 0), 3), avail_w);
    let h = min_int(max_int(max_int(bottom - y, 0), 3), avail_h);
    Rect { x: x as u16, y: y as u16, width: w as u16, height: h as u16 }
}

/// `m` is pane `p` placed in `t` for panes spanning `tw` x `th` cells.
pub open spec fn is_mapped(m: MappedPane, p: WezPane, t: Rect, tw: int, th: int, selected: Option<u64>) -> bool {
    &&& m.title@ == p.title@
    &&& m.cwd_short@ == dir_label(p.cwd)
    &&& m.is_active == p.is_active
    &&& m.is_selected == (selected == Some(p.pane_id))
    &&& m.rect == scaled_rect(p, t, tw, th)
}

fn edge_max(panes: &[WezPane], horizontal: bool) -> (r: u64)
    requires
        forall|i: int|
            0 <= i < panes@.len() ==> right_edge(#[trigger] panes@[i]) <= u32::MAX && bottom_edge(
                panes@[i],
            ) <= u32::MAX,
    ensures
        r == if horizontal { total_width(panes@) } else { total_height(panes@) },
        r <= u32::MAX,
{
    let mut m: u64 = 0;
    let mut k: usize = 0;
    while k < panes.len()
        invariant
            k <= panes@.len(),
            forall|i: int|
                0 <= i < panes@.len() ==> right_edge(#[trigger] panes@[i]) <= u32::MAX && bottom_edge(
                    panes@[i],
                ) <= u32::MAX,
            m == if horizontal { total_width(panes@.take(k as int)) } else { total_height(panes@.take(k as int)) },
            m <= u32::MAX,
        decreases panes@.len() - k,
    {
        assert(panes@.take(k + 1).drop_last() =~= panes@.take(k as int));
        let p = &panes[k];
        let e = if horizontal { p.left + p.width } else { p.top + p.height };
        if e > m {
            m = e;
        }
        k = k + 1;
    }
    assert(panes@.take(panes@.len() as int) =~= panes@);
    m
}

fn place(p: &WezPane, t: Rect, tw: u64, th: u64, selected: Option<u64>) -> (m: MappedPane)
    requires
        rect_fits(t),
        0 < tw <= u32::MAX,
        0 < th <= u32::MAX,
        right_edge(*p) <= tw,
        bottom_edge(*p) <= th,
        right_edge(*p) * t.width <= u32::MAX,
        bottom_edge(*p) * t.height <= u32::MAX,
    ensures
        is_mapped(m, *p, t, tw as int, th as int, selected),
{
    let tx = t.x as u32;
    let ty = t.y as u32;
    let twd = t.width as u32;
    let tht = t.height as u32;
    let l = p.left as u32;
    let r = (p.left + p.width) as u32;
    let tp = p.top as u32;
    let b = (p.top + p.height) as u32;
    assert(l * twd <= r * twd) by (nonlinear_arith)
        requires l <= r;
    assert(tp * tht <= b * tht) by (nonlinear_arith)
        requires tp <= b;
    let ql = l * twd / (tw as u32);
    let qr = r * twd / (tw as u32);
    let qt = tp * tht / (th as u32);
    let qb = b * tht / (th as u32);
    assert(qr <= twd) by (nonlinear_arith)
        requires qr == r * twd / (tw as int), r <= tw, tw > 0;
    assert(ql <= qr) by (nonlinear_arith)
        requires ql == l * twd / (tw as int), qr == r * twd / (tw as int), l <= r, tw > 0;
    assert(qb <= tht) by (nonlinear_arith)
        requires qb == b * tht / (th as int), b <= th, th > 0;
    assert(qt <= qb) by (nonlinear_arith)
        requires qt == tp * tht / (th as int), qb == b * tht / (th as int), tp <= b, th > 0;
    let x = t.x + ql as u16;
    let y = t.y + qt as u16;
    let right = t.x + qr as u16;
    let bottom = t.y + qb as u16;
    let avail_w = (t.x + t.width) - x;
    let avail_h = (t.y + t.height) - y;
    let span_w = right - x;
    let span_h = bottom - y;
    let w0 = if span_w < 3 { 3 } else { span_w };
    let w = if w0 < avail_w { w0 } else { avail_w };
    let h0 = if span_h < 3 { 3 } else { span_h };
    let h = if h0 < avail_h { h0 } else { avail_h };
    let cwd_short = match &p.cwd {
        Some(c) => string_from_chars(last_segment_of(c.as_str()).as_slice()),
        None => {
            let s = string_from_chars(&['~']);
            s
        },
    };
    let is_selected = match selected {
        Some(id) => id == p.pane_id,
        None => false,
    };
    let m = MappedPane {
        title: p.title.clone(),
        cwd_short,
        is_active: p.is_active,
        is_selected,
        rect: Rect { x, y, width: w, height: h },
    };
    assert(m.cwd_short@ =~= dir_label(p.cwd));
    m
}

/// Places the panes of a tab in `target`, scaled from the cells they span.
/// No panes, an empty target, or panes that span nothing give no result.
pub fn scale_panes_to_rect(panes: &[WezPane], target: Rect, selected_pane_id: Option<u64>) -> (r: Vec<MappedPane>)
    requires
        panes@.len() > 0 && target.width > 0 && target.height > 0 ==> rect_fits(target) && panes_fit(
            panes@,
            target,
        ),
    ensures
        panes@.len() == 0 || target.width == 0 || target.height == 0 || total_width(panes@) == 0
            || total_height(panes@) == 0 ==> r@.len() == 0,
        !(panes@.len() == 0 || target.width == 0 || target.height == 0 || total_width(panes@) == 0
            || total_height(panes@) == 0) ==> {
            &&& r@.len() == panes@.len()
            &&& forall|i: int|
                0 <= i < r@.len() ==> is_mapped(
                    #[trigger] r@[i],
                    panes@[i],
                    target,
                    total_width(panes@),
                    total_height(panes@),
                    selected_pane_id,
                )
        },
{
    let mut out: Vec<MappedPane> = Vec::new();
    if panes.len() == 0 || target.width == 0 || target.height == 0 {
        return out;
    }
    let tw = edge_max(panes, true);
    let th = edge_max(panes, false);
    if tw == 0 || th == 0 {
        return out;
    }
    let mut k: usize = 0;
    while k < panes.len()
        invariant
            k <= panes@.len(),
            rect_fits(target),
            panes_fit(panes@, target),
            tw == total_width(panes@),
            th == total_height(panes@),
            0 < tw <= u32::MAX,
            0 < th <= u32::MAX,
            out@.len() == k,
            forall|i: int|
                0 <= i < k ==> is_mapped(#[trigger] out@[i], panes@[i], target, tw as int, th as int, selected_pane_id),
        decreases panes@.len() - k,
    {
        proof {
            lemma_edges_bounded(panes@, k as int);
        }
        out.push(place(&panes[k], target, tw, th, selected_pane_id));
        k = k + 1;
    }
    out
}

proof fn lemma_edges_bounded(s: Seq<WezPane>, k: int)
    requires
        0 <= k < s.len(),
    ensures
        right_edge(s[k]) <= total_width(s),
        bottom_edge(s[k]) <= total_height(s),
    decreases s.len(),
{
    if k < s.len() - 1 {
        lemma_edges_bounded(s.drop_last(), k);
    }
}


/// Every pane of the preview lies inside the target rectangle: scaling never
/// places a pane, or any part of it, outside the area it is drawn in.
pub proof fn lemma_scaled_inside_target(panes: Seq<WezPane>, t: Rect, k: int)
    requires
        0 <= k < panes.len(),
        rect_fits(t),
        total_width(panes) > 0,
        total_height(panes) > 0,
    ensures
        ({
            let r = scaled_rect(panes[k], t, total_width(panes), total_height(panes));
            &&& t.x <= r.x
            &&& r.x + r.width <= t.x + t.width
            &&& t.y <= r.y
            &&& r.y + r.height <= t.y + t.height
        }),
{
    lemma_edges_bounded(panes, k);
    let p = panes[k];
    let tw = total_width(panes);
    let th = total_height(panes);
    let qx = p.left * t.width / tw;
    let qy = p.top * t.height / th;
    assert(0 <= qx <= t.width) by (nonlinear_arith)
        requires
            qx == p.left * t.width / tw,
            0 <= p.left <= tw,
            tw > 0,
            t.width >= 0,
    ;
    assert(0 <= qy <= t.height) by (nonlinear_arith)
        requires
            qy == p.top * t.height / th,
            0 <= p.top <= th,
            th > 0,
            t.height >= 0,
    ;
}


// -- Fitting text into a width --

/// The number of bytes of the UTF-8 encoding of `s` (what `str::len` counts).
pub open spec fn byte_len(s: Seq<char>) -> int {
    encode_utf8(s).len() as int
}

/// Byte offset `b` of `s` falls between two characters.
pub open spec fn is_boundary(s: Seq<char>, b: int) -> bool {
    exists|k: int| 0 <= k <= s.len() && byte_len(s.take(k)) == b
}

/// The number of characters of `s` that take `b` bytes.
pub open spec fn chars_in_bytes(s: Seq<char>, b: int) -> int {
    choose|k: int| 0 <= k <= s.len() && byte_len(s.take(k)) == b
}

/// `s` as it is when it fits in `max_len` bytes; otherwise, when more than
/// one byte is allowed, its first `max_len - 1` bytes followed by `…`;
/// otherwise nothing.
pub open spec fn truncated(s: Seq<char>, max_len: int) -> Seq<char> {
    if byte_len(s) <= max_len {
        s
    } else if max_len > 1 {
        s.take(chars_in_bytes(s, max_len - 1)) + seq!['…']
    } else {
        Seq::empty()
    }
}

proof fn lemma_encode_push(a: Seq<char>, c: char)
    ensures
        encode_utf8(a.push(c)) == encode_utf8(a) + encode_scalar(c as u32),
    decreases a.len(),
{
    if a.len() == 0 {
        assert(a.push(c).drop_first() =~= Seq::<char>::empty());
        assert(encode_utf8(a.push(c)) =~= encode_scalar(c as u32) + encode_utf8(Seq::<char>::empty()));
        assert(encode_utf8(a) =~= Seq::<u8>::empty());
        assert(encode_utf8(a.push(c)) =~= encode_utf8(a) + encode_scalar(c as u32));
    } else {
        assert(a.push(c).drop_first() =~= a.drop_first().push(c));
        lemma_encode_push(a.drop_first(), c);
        assert(encode_utf8(a.push(c)) =~= encode_utf8(a) + encode_scalar(c as u32));
    }
}

pub(crate) proof fn lemma_take_step(s: Seq<char>, k: int)
    requires
        0 <= k < s.len(),
    ensures
        byte_len(s.take(k + 1)) == byte_len(s.take(k)) + encode_scalar(s[k] as u32).len(),
        encode_scalar(s[k] as u32).len() >= 1,
{
    assert(s.take(k + 1) =~= s.take(k).push(s[k]));
    lemma_encode_push(s.take(k), s[k]);
}

pub(crate) proof fn lemma_take_mono(s: Seq<char>, j: int, k: int)
    requires
        0 <= j <= k <= s.len(),
    ensures
        byte_len(s.take(j)) + (k - j) <= byte_len(s.take(k)),
    decreases k - j,
{
    if j < k {
        lemma_take_mono(s, j, k - 1);
        lemma_take_step(s, k - 1);
    }
}

/// The bytes of two texts together are the bytes of each.
pub(crate) proof fn lemma_byte_len_concat(a: Seq<char>, b: Seq<char>)
    ensures
        byte_len(a + b) == byte_len(a) + byte_len(b),
    decreases b.len(),
{
    if b.len() == 0 {
        assert(a + b =~= a);
        assert(encode_utf8(b) =~= Seq::<u8>::empty());
    } else {
        let b1 = b.drop_last();
        lemma_byte_len_concat(a, b1);
        assert(a + b =~= (a + b1).push(b.last()));
        assert(b =~= b1.push(b.last()));
        lemma_encode_push(a + b1, b.last());
        lemma_encode_push(b1, b.last());
    }
}

/// A byte offset between characters is between the same two characters
/// only.
pub(crate) proof fn lemma_boundary_unique(s: Seq<char>, i: int, j: int)
    requires
        0 <= i <= s.len(),
        0 <= j <= s.len(),
        byte_len(s.take(i)) == byte_len(s.take(j)),
    ensures
        i == j,
{
    if i < j {
        lemma_take_mono(s, i, j);
    } else if j < i {
        lemma_take_mono(s, j, i);
    }
}

/// The number of characters of `cs` that take `b` bytes, if `b` falls
/// between two characters.
pub(crate) fn char_index_at(cs: &Vec<char>, b: usize) -> (r: Option<usize>)
    requires
        byte_len(cs@) <= usize::MAX,
    ensures
        match r {
            Some(i) => i <= cs@.len() && byte_len(cs@.take(i as int)) == b && i == chars_in_bytes(cs@, b as int)
                && is_boundary(cs@, b as int),
            None => !is_boundary(cs@, b as int),
        },
{
    let mut acc: usize = 0;
    let mut k: usize = 0;
    assert(cs@.take(0) =~= Seq::<char>::empty());
    assert(encode_utf8(Seq::<char>::empty()) =~= Seq::<u8>::empty());
    while k < cs.len() && acc < b
        invariant
            k <= cs@.len(),
            acc == byte_len(cs@.take(k as int)),
            byte_len(cs@) <= usize::MAX,
            forall|j: int| 0 <= j < k ==> byte_len(cs@.take(j)) < b,
        decreases cs@.len() - k,
    {
        proof {
            lemma_take_step(cs@, k as int);
            lemma_take_mono(cs@, k + 1, cs@.len() as int);
            assert(cs@.take(cs@.len() as int) =~= cs@);
        }
        acc = acc + utf8_width(cs[k]);
        k = k + 1;
    }
    if acc == b {
        proof {
            let w = chars_in_bytes(cs@, b as int);
            assert(is_boundary(cs@, b as int));
            lemma_boundary_unique(cs@, w, k as int);
        }
        Some(k)
    } else {
        proof {
            assert(cs@.take(cs@.len() as int) =~= cs@);
            if is_boundary(cs@, b as int) {
                let w = chars_in_bytes(cs@, b as int);
                if w < k {
                } else if w > k {
                    lemma_take_mono(cs@, k as int, w);
                    lemma_take_mono(cs@, k as int, cs@.len() as int);
                }
            }
        }
        None
    }
}

/// The number of bytes `c` takes in UTF-8.
fn utf8_width(c: char) -> (n: usize)
    ensures
        n == encode_scalar(c as u32).len(),
{
    proof {
        vstd::utf8::char_is_scalar(c);
    }
    let v = c as u32;
    if v <= 0x7F {
        1
    } else if v <= 0x7FF {
        2
    } else if v <= 0xFFFF {
        3
    } else {
        4
    }
}

/// Fits `s` into `max_len` bytes (see [`truncated`]), as the pane titles and
/// directories of the layout preview are fitted. The cut must fall between
/// two characters.
pub fn truncate(s: &str, max_len: usize) -> (r: String)
    requires
        byte_len(s@) <= max_len || max_len <= 1 || is_boundary(s@, max_len - 1),
    ensures
        r@ == truncated(s@, max_len as int),
{
    let total = s.as_bytes().len();
    assert(total == byte_len(s@));
    if total <= max_len {
        return String::from_str(s);
    }
    if max_len <= 1 {
        return String::new();
    }
    let cs = chars_of(s);
    let goal = max_len - 1;
    let ghost kstar = chars_in_bytes(s@, goal as int);
    assert(0 <= kstar <= s@.len() && byte_len(s@.take(kstar)) == goal);
    let mut acc: usize = 0;
    let mut k: usize = 0;
    assert(s@.take(0) =~= Seq::<char>::empty());
    assert(encode_utf8(Seq::<char>::empty()) =~= Seq::<u8>::empty());
    while k < cs.len() && acc < goal
        invariant
            cs@ == s@,
            k <= cs@.len(),
            acc == byte_len(s@.take(k as int)),
            goal == max_len - 1,
            0 <= kstar <= s@.len(),
            byte_len(s@.take(kstar)) == goal,
            byte_len(s@) == total,
            total > max_len,
            k <= kstar,
        decreases cs@.len() - k,
    {
        proof {
            lemma_take_step(s@, k as int);
            lemma_take_mono(s@, k + 1, s@.len() as int);
            assert(s@.take(s@.len() as int) =~= s@);
            if k + 1 > kstar {
                assert(k == kstar);
            }
        }
        acc = acc + utf8_width(cs[k]);
        k = k + 1;
        proof {
            if k > kstar {
                lemma_take_mono(s@, kstar, k as int);
            }
        }
    }
    proof {
        assert(s@.take(s@.len() as int) =~= s@);
        if k < kstar {
            lemma_take_mono(s@, k as int, kstar);
        }
        if k == cs@.len() {
            assert(kstar == k);
        }
        assert(k == kstar);
    }
    let mut out: Vec<char> = Vec::new();
    let mut j: usize = 0;
    while j < k
        invariant
            j <= k <= cs@.len(),
            cs@ == s@,
            out@ == s@.take(j as int),
        decreases k - j,
    {
        out.push(cs[j]);
        j = j + 1;
        assert(out@ =~= s@.take(j as int));
    }
    out.push('…');
    assert(out@ =~= truncated(s@, max_len as int));
    string_from_chars(out.as_slice())
}

} // verus!
