use vstd::prelude::*;
use vstd::string::*;

use crate::session::{Session, SessionSummary};
use crate::text::{chars_lt, chars_of, lemma_lex_total, lemma_lex_transitive, lex_lt, push_str, string_from_chars};

verus! {

// -- Session names --

/// Why a session name is refused.
#[derive(Debug, Clone, Copy, PartialEq, Eq, Structural)]
pub enum SessionNameError {
    Empty,
    BadCharacters,
}

/// What `char::is_alphanumeric` says of `c` (Unicode's Alphabetic or Numeric
/// property).
pub uninterp spec fn char_alphanumeric(c: char) -> bool;

/// An ASCII letter or digit.
pub open spec fn ascii_alphanumeric(c: char) -> bool {
    let n = c as u32;
    (0x30 <= n && n <= 0x39) || (0x41 <= n && n <= 0x5A) || (0x61 <= n && n <= 0x7A)
}

/// `char::is_alphanumeric`. Its result depends on the character alone; the
/// Unicode tables behind it are not written out here. For an ASCII
/// character std's documentation gives it plainly: alphabetic or numeric
/// there means a letter or a digit.
#[verifier::external_body]
fn is_alphanumeric(c: char) -> (b: bool)
    ensures
        b == char_alphanumeric(c),
        (c as u32) < 0x80 ==> (b <==> ascii_alphanumeric(c)),
{
    c.is_alphanumeric()
}

/// A character a session name may hold: alphanumeric, `-`, `_` or `.`.
pub open spec fn name_char_ok(c: char) -> bool {
    char_alphanumeric(c) || c == '-' || c == '_' || c == '.'
}

/// Every character of `name` may stand in a session name.
pub open spec fn name_chars_ok(name: Seq<char>) -> bool {
    forall|i: int| 0 <= i < name.len() ==> name_char_ok(#[trigger] name[i])
}

/// The verdict on a session name.
pub open spec fn name_verdict(name: Seq<char>) -> Result<(), SessionNameError> {
    if name.len() == 0 {
        Err(SessionNameError::Empty)
    } else if !name_chars_ok(name) {
        Err(SessionNameError::BadCharacters)
    } else {
        Ok(())
    }
}

pub open spec fn empty_name_text() -> Seq<char> {
    seq!['S', 'e', 's', 's', 'i', 'o', 'n', ' ', 'n', 'a', 'm', 'e', ' ', 'c', 'a', 'n', 'n', 'o', 't', ' ', 'b', 'e', ' ', 'e', 'm', 'p', 't', 'y']
}

pub open spec fn bad_name_text() -> Seq<char> {
    seq![
        'S', 'e', 's', 's', 'i', 'o', 'n', ' ', 'n', 'a', 'm', 'e', ' ', 'm', 'u', 's', 't', ' ', 'c', 'o', 'n', 't', 'a', 'i', 'n',
        ' ', 'o', 'n', 'l', 'y', ' ', 'a', 'l', 'p', 'h', 'a', 'n', 'u', 'm', 'e', 'r', 'i', 'c', ' ', 'c', 'h', 'a', 'r', 'a', 'c',
        't', 'e', 'r', 's', ',', ' ', 'h', 'y', 'p', 'h', 'e', 'n', 's', ',', ' ', 'u', 'n', 'd', 'e', 'r', 's', 'c', 'o', 'r', 'e',
        's', ',', ' ', 'o', 'r', ' ', 'd', 'o', 't', 's',
    ]
}

impl SessionNameError {
    /// The message shown for the refusal.
    pub fn message(&self) -> (r: String)
        ensures
            r@ == match *self {
                SessionNameError::Empty => empty_name_text(),
                SessionNameError::BadCharacters => bad_name_text(),
            },
    {
        match self {
            SessionNameError::Empty => {
                let s = String::from_str("Session name cannot be empty");
                proof {
                    reveal_strlit("Session name cannot be empty");
                }
                assert(s@ =~= empty_name_text());
                s
            },
            SessionNameError::BadCharacters => {
                let s = String::from_str(
                    "Session name must contain only alphanumeric characters, hyphens, underscores, or dots",
                );
                proof {
                    reveal_strlit("Session name must contain only alphanumeric characters, hyphens, underscores, or dots");
                }
                assert(s@ =~= bad_name_text());
                s
            },
        }
    }
}

/// A character of an ASCII session name that is accepted: a letter, a
/// digit, `-`, `_` or `.`.
pub open spec fn ascii_name_char_ok(c: char) -> bool {
    ascii_alphanumeric(c) || c == '-' || c == '_' || c == '.'
}

/// Checks that a session name is not empty and holds only alphanumeric
/// characters, `-`, `_` and `.` (so it names a file inside the sessions
/// directory). For an ASCII name that means letters, digits, `-`, `_` and
/// `.` only: a `/` or a space is refused.
pub fn validate_session_name(name: &str) -> (r: Result<(), SessionNameError>)
    ensures
        r == name_verdict(name@),
        (forall|k: int| 0 <= k < name@.len() ==> (name@[k] as u32) < 0x80) ==> (r is Ok <==> name@.len() > 0
            && forall|k: int| 0 <= k < name@.len() ==> ascii_name_char_ok(#[trigger] name@[k])),
{
    let cs = chars_of(name);
    if cs.len() == 0 {
        return Err(SessionNameError::Empty);
    }
    let mut i: usize = 0;
    while i < cs.len()
        invariant
            i <= cs@.len(),
            cs@ == name@,
            forall|k: int| 0 <= k < i ==> name_char_ok(#[trigger] cs@[k]),
            forall|k: int| 0 <= k < i && (cs@[k] as u32) < 0x80 ==> ascii_name_char_ok(#[trigger] cs@[k]),
        decreases cs@.len() - i,
    {
        let c = cs[i];
        if !(is_alphanumeric(c) || c == '-' || c == '_' || c == '.') {
            assert(!name_char_ok(name@[i as int]));
            assert((c as u32) < 0x80 ==> !ascii_name_char_ok(name@[i as int]));
            return Err(SessionNameError::BadCharacters);
        }
        i = i + 1;
    }
    Ok(())
}

/// The file name a session is stored under: `<name>.json`, for a valid name.
pub fn session_file_name(name: &str) -> (r: Result<String, SessionNameError>)
    ensures
        match name_verdict(name@) {
            Ok(_) => r is Ok && r->Ok_0@ == name@ + seq!['.', 'j', 's', 'o', 'n'],
            Err(e) => r == Err::<String, SessionNameError>(e),
        },
{
    match validate_session_name(name) {
        Err(e) => Err(e),
        Ok(()) => {
            let mut out: Vec<char> = Vec::new();
            push_str(&mut out, name);
            proof {
                reveal_strlit(".json");
            }
            push_str(&mut out, ".json");
            assert(out@ =~= name@ + seq!['.', 'j', 's', 'o', 'n']);
            Ok(string_from_chars(out.as_slice()))
        },
    }
}

// -- Summaries --

/// The number of tabs in the first `k` windows of a session.
pub open spec fn tab_total(s: Session, k: int) -> int
    decreases k,
{
    if k <= 0 {
        0
    } else {
        tab_total(s, k - 1) + s.windows@[k - 1].tabs.len()
    }
}

proof fn lemma_tab_total_mono(s: Session, a: int, b: int)
    requires
        0 <= a <= b <= s.windows@.len(),
    ensures
        0 <= tab_total(s, a) <= tab_total(s, b),
    decreases b,
{
    if b > 0 {
        if a < b {
            lemma_tab_total_mono(s, a, b - 1);
        } else {
            lemma_tab_total_mono(s, a - 1, b - 1);
        }
    }
}

/// The line a session gets in the session list: its name, when it was saved,
/// and how many windows and tabs it holds.
pub fn summarize(session: &Session) -> (r: SessionSummary)
    requires
        tab_total(*session, session.windows@.len() as int) <= usize::MAX,
    ensures
        r.name == session.name,
        r.saved_at == session.saved_at,
        r.window_count == session.windows@.len(),
        r.tab_count == tab_total(*session, session.windows@.len() as int),
{
    let mut tabs: usize = 0;
    let mut i: usize = 0;
    while i < session.windows.len()
        invariant
            i <= session.windows@.len(),
            tab_total(*session, session.windows@.len() as int) <= usize::MAX,
            tabs == tab_total(*session, i as int),
        decreases session.windows@.len() - i,
    {
        proof {
            lemma_tab_total_mono(*session, i + 1, session.windows@.len() as int);
        }
        tabs = tabs + session.windows[i].tabs.len();
        i = i + 1;
    }
    SessionSummary { name: session.name.clone(), saved_at: session.saved_at.clone(), window_count: session.windows.len(), tab_count: tabs }
}

/// `a`, from input position `ia`, is listed before `b`, from `ib`: the later
/// save time first, equal times in input order.
pub open spec fn newer_first(a: Seq<char>, ia: int, b: Seq<char>, ib: int) -> bool {
    lex_lt(b, a) || (a == b && ia < ib)
}

/// `out` lists the items of `input` as `pos` says (item `k` of `out` is item
/// `pos[k]` of `input`), newest first.
pub open spec fn listed_newest_first(input: Seq<SessionSummary>, out: Seq<SessionSummary>, pos: Seq<int>) -> bool {
    &&& pos.len() == out.len()
    &&& out.len() == input.len()
    &&& forall|k: int| 0 <= k < out.len() ==> 0 <= #[trigger] pos[k] < input.len() && out[k] == input[pos[k]]
    &&& forall|a: int, b: int|
        0 <= a < b < out.len() ==> newer_first(
            (#[trigger] out[a]).saved_at@,
            pos[a],
            (#[trigger] out[b]).saved_at@,
            pos[b],
        )
}

/// The session list sorted by save time, newest first, sessions saved at the
/// same time kept in their given order. The order between any two items is
/// fixed, so each item keeps a place of its own.
pub fn sort_newest_first(input: Vec<SessionSummary>) -> (r: Vec<SessionSummary>)
    ensures
        exists|pos: Seq<int>| listed_newest_first(input@, r@, pos),
{
    let mut out: Vec<SessionSummary> = Vec::new();
    let ghost mut pos: Seq<int> = Seq::empty();
    let mut i: usize = 0;
    while i < input.len()
        invariant
            i <= input@.len(),
            pos.len() == out@.len(),
            out@.len() == i,
            forall|k: int| 0 <= k < out@.len() ==> 0 <= #[trigger] pos[k] < i && out@[k] == input@[pos[k]],
            forall|a: int, b: int|
                0 <= a < b < out@.len() ==> newer_first(
                    (#[trigger] out@[a]).saved_at@,
                    pos[a],
                    (#[trigger] out@[b]).saved_at@,
                    pos[b],
                ),
        decreases input@.len() - i,
    {
        let key = chars_of(input[i].saved_at.as_str());
        let mut p: usize = 0;
        while p < out.len() && !chars_lt(&chars_of(out[p].saved_at.as_str()), &key)
            invariant
                p <= out@.len(),
                key@ == input@[i as int].saved_at@,
                forall|q: int| 0 <= q < p ==> !lex_lt((#[trigger] out@[q]).saved_at@, key@),
            decreases out@.len() - p,
        {
            p = p + 1;
        }
        let ghost before = out@;
        let ghost pos0 = pos;
        let item = input[i].copy();
        out.insert(p, item);
        proof {
            pos = pos0.insert(p as int, i as int);
            assert forall|k: int| 0 <= k < out@.len() implies 0 <= #[trigger] pos[k] < i + 1 && out@[k] == input@[pos[k]] by {
                if k < p {
                    assert(out@[k] == before[k] && pos[k] == pos0[k]);
                } else if k > p {
                    assert(out@[k] == before[k - 1] && pos[k] == pos0[k - 1]);
                }
            }
            assert forall|a: int, b: int| 0 <= a < b < out@.len() implies newer_first(
                (#[trigger] out@[a]).saved_at@,
                pos[a],
                (#[trigger] out@[b]).saved_at@,
                pos[b],
            ) by {
                let ka = out@[a].saved_at@;
                let kb = out@[b].saved_at@;
                if b < p {
                    assert(out@[a] == before[a] && out@[b] == before[b]);
                } else if b == p {
                    assert(out@[a] == before[a] && pos[a] == pos0[a]);
                    assert(!lex_lt(before[a].saved_at@, key@));
                    lemma_lex_total(ka, kb);
                } else if a == p {
                    assert(out@[b] == before[b - 1] && pos[b] == pos0[b - 1]);
                    assert(lex_lt(before[p as int].saved_at@, key@));
                    if b - 1 > p {
                        assert(newer_first(before[p as int].saved_at@, pos0[p as int], before[b - 1].saved_at@, pos0[b - 1]));
                        if lex_lt(before[b - 1].saved_at@, before[p as int].saved_at@) {
                            lemma_lex_transitive(before[b - 1].saved_at@, before[p as int].saved_at@, key@);
                        }
                    }
                } else if a < p {
                    assert(out@[a] == before[a] && out@[b] == before[b - 1]);
                    assert(pos[a] == pos0[a] && pos[b] == pos0[b - 1]);
                } else {
                    assert(out@[a] == before[a - 1] && out@[b] == before[b - 1]);
                    assert(pos[a] == pos0[a - 1] && pos[b] == pos0[b - 1]);
                }
            }
        }
        i = i + 1;
    }
    assert(listed_newest_first(input@, out@, pos));
    out
}


// -- Listing --

/// `s` padded with spaces on the right to `width` characters (as the `{:<w}`
/// format does).
pub open spec fn padded(s: Seq<char>, width: nat) -> Seq<char> {
    if s.len() >= width { s } else { s + Seq::new((width - s.len()) as nat, |i: int| ' ') }
}

/// `name(padded to 20) n window(s), m tab(s)  [` then `tail`, the time and `]`.
pub open spec fn summary_text(s: SessionSummary, tail: Seq<char>) -> Seq<char> {
    padded(s.name@, 20) + seq![' '] + crate::text::decimal(s.window_count as nat)
        + seq![' ', 'w', 'i', 'n', 'd', 'o', 'w', '(', 's', ')', ',', ' '] + crate::text::decimal(s.tab_count as nat)
        + seq![' ', 't', 'a', 'b', '(', 's', ')', ' ', ' ', '['] + tail + s.saved_at@ + seq![']']
}

fn push_padded(out: &mut Vec<char>, s: &str, width: usize)
    ensures
        final(out)@ == old(out)@ + padded(s@, width as nat),
{
    let cs = chars_of(s);
    let ghost start = out@;
    crate::text::push_chars(out, &cs);
    let mut n: usize = cs.len();
    let ghost mid = out@;
    while n < width
        invariant
            cs@ == s@,
            cs@.len() <= n <= width || (n == cs@.len() && n >= width),
            out@ == mid + Seq::new((n - cs@.len()) as nat, |i: int| ' '),
            mid == start + s@,
        decreases width - n,
    {
        out.push(' ');
        n = n + 1;
        assert(out@ =~= mid + Seq::new((n - cs@.len()) as nat, |i: int| ' '));
    }
    assert(out@ =~= start + padded(s@, width as nat));
}

fn summary_line(s: &SessionSummary, tail: &str) -> (r: Vec<char>)
    ensures
        r@ == summary_text(*s, tail@),
{
    let mut out: Vec<char> = Vec::new();
    push_padded(&mut out, s.name.as_str(), 20);
    out.push(' ');
    crate::text::push_decimal(&mut out, s.window_count as u64);
    proof {
        reveal_strlit(" window(s), ");
        reveal_strlit(" tab(s)  [");
    }
    push_str(&mut out, " window(s), ");
    crate::text::push_decimal(&mut out, s.tab_count as u64);
    push_str(&mut out, " tab(s)  [");
    push_str(&mut out, tail);
    push_str(&mut out, s.saved_at.as_str());
    out.push(']');
    assert(out@ =~= summary_text(*s, tail@));
    out
}

/// The line the `sessions` command prints for a saved session.
pub fn session_line(s: &SessionSummary) -> (r: String)
    ensures
        r@ == summary_text(*s, seq!['s', 'a', 'v', 'e', 'd', ' ']),
{
    proof {
        reveal_strlit("saved ");
    }
    let out = summary_line(s, "saved ");
    assert("saved "@ =~= seq!['s', 'a', 'v', 'e', 'd', ' ']);
    string_from_chars(out.as_slice())
}

/// The row of a saved session in the session picker, marked `>> ` when
/// selected.
pub fn session_row(s: &SessionSummary, selected: bool) -> (r: String)
    ensures
        r@ == (if selected { seq!['>', '>', ' '] } else { seq![' ', ' ', ' '] }) + summary_text(*s, Seq::empty()),
{
    let mut out: Vec<char> = Vec::new();
    if selected {
        out.push('>');
        out.push('>');
        out.push(' ');
    } else {
        out.push(' ');
        out.push(' ');
        out.push(' ');
    }
    proof {
        reveal_strlit("");
    }
    let line = summary_line(s, "");
    assert(""@ =~= Seq::<char>::empty());
    crate::text::push_chars(&mut out, &line);
    string_from_chars(out.as_slice())
}

} // verus!
