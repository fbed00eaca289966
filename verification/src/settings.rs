use vstd::prelude::*;

use crate::install::slice_chars;
use crate::layout::byte_len;
use crate::text::{chars_of, string_from_chars};

verus! {

/// Which list of the settings editor has the focus.
#[derive(Debug, Clone, Copy, PartialEq, Eq, Structural)]
pub enum SettingsPanel {
    Categories,
    Settings,
}

/// The kind of a setting's value, which decides what Enter does to it.
#[derive(Debug, Clone, Copy, PartialEq, Eq, Structural)]
pub enum ValueKind {
    Bool,
    Float,
    Int,
    Enum,
}

/// Where the settings editor stands in the catalog: `kinds` holds, for each
/// category in order, the kinds of its settings; the values themselves are
/// kept by the caller.
#[derive(Debug, Clone, PartialEq)]
pub struct SettingsNav {
    pub kinds: Vec<Vec<ValueKind>>,
    pub category_index: usize,
    pub setting_index: usize,
    pub panel: SettingsPanel,
    pub editing: bool,
    pub edit_buffer: String,
    pub edit_cursor: usize,
}

/// A catalog with at least one category, each with at least one setting.
pub open spec fn catalog_ok(kinds: Seq<Vec<ValueKind>>) -> bool {
    kinds.len() > 0 && forall|c: int| 0 <= c < kinds.len() ==> (#[trigger] kinds[c])@.len() > 0
}

/// The selection points at a setting of the catalog, and the edit cursor, a
/// byte offset, stays inside the text being edited.
pub open spec fn settings_wf(s: SettingsNav) -> bool {
    &&& catalog_ok(s.kinds@)
    &&& s.category_index < s.kinds@.len()
    &&& s.setting_index < s.kinds@[s.category_index as int]@.len()
    &&& s.edit_cursor <= byte_len(s.edit_buffer@)
}

/// The kind of the selected setting.
pub open spec fn selected_kind(s: SettingsNav) -> ValueKind {
    s.kinds@[s.category_index as int]@[s.setting_index as int]
}

impl SettingsNav {
    /// The editor as it opens: first category, first setting, the category
    /// list focused, nothing being edited.
    pub fn new(kinds: Vec<Vec<ValueKind>>) -> (s: SettingsNav)
        requires
            catalog_ok(kinds@),
        ensures
            settings_wf(s),
            s.kinds == kinds,
            s.category_index == 0,
            s.setting_index == 0,
            s.panel == SettingsPanel::Categories,
            !s.editing,
            s.edit_buffer@.len() == 0,
            s.edit_cursor == 0,
    {
        SettingsNav {
            kinds,
            category_index: 0,
            setting_index: 0,
            panel: SettingsPanel::Categories,
            editing: false,
            edit_buffer: String::new(),
            edit_cursor: 0,
        }
    }

    /// The number of settings in the selected category.
    pub fn setting_count(&self) -> (n: usize)
        requires
            settings_wf(*self),
        ensures
            n == self.kinds@[self.category_index as int]@.len(),
    {
        self.kinds[self.category_index].len()
    }

    /// The kind of the selected setting.
    pub fn kind(&self) -> (k: ValueKind)
        requires
            settings_wf(*self),
        ensures
            k == selected_kind(*self),
    {
        self.kinds[self.category_index][self.setting_index]
    }
}


/// One step up from `v`, held at `max`: `(v + step).min(max)`.
pub fn int_increment(v: i64, step: i64, max: i64) -> (r: i64)
    requires
        i64::MIN <= v + step <= i64::MAX,
    ensures
        r == (if v + step <= max { v + step } else { max as int }),
{
    let up = v + step;
    if up <= max {
        up
    } else {
        max
    }
}

/// One step down from `v`, held at `min`: `(v - step).max(min)`.
pub fn int_decrement(v: i64, step: i64, min: i64) -> (r: i64)
    requires
        i64::MIN <= v - step <= i64::MAX,
    ensures
        r == (if v - step >= min { v - step } else { min as int }),
{
    let down = v - step;
    if down >= min {
        down
    } else {
        min
    }
}

/// `p` is the first position of `current` among `options`.
pub open spec fn first_option(options: Seq<String>, current: Seq<char>, p: int) -> bool {
    &&& 0 <= p < options.len()
    &&& options[p]@ == current
    &&& forall|q: int| 0 <= q < p ==> (#[trigger] options[q])@ != current
}

/// The option that follows `current` in the cycle through `options`: the one
/// after its first occurrence, wrapping to the front after the last; a value
/// that is not among the options counts as the first.
pub fn next_option_index(options: &Vec<String>, current: &String) -> (r: usize)
    requires
        options.len() > 0,
    ensures
        r < options.len(),
        (exists|p: int| first_option(options@, current@, p) && r == (p + 1) % (options.len() as int))
            || ((forall|q: int| 0 <= q < options.len() ==> (#[trigger] options@[q])@ != current@)
                && r == 1int % (options.len() as int)),
{
    let mut i: usize = 0;
    while i < options.len()
        invariant
            i <= options.len(),
            forall|q: int| 0 <= q < i ==> (#[trigger] options@[q])@ != current@,
        decreases options.len() - i,
    {
        if options[i] == *current {
            assert(first_option(options@, current@, i as int));
            return (i + 1) % options.len();
        }
        i = i + 1;
    }
    1 % options.len()
}

/// `i` is the position of the first `.` in `key`.
pub open spec fn first_dot(key: Seq<char>, i: int) -> bool {
    &&& 0 <= i < key.len()
    &&& key[i] == '.'
    &&& forall|j: int| 0 <= j < i ==> key[j] != '.'
}

/// A dotted key such as `window_padding.left` names a field of a table in
/// WezTerm's config: the table's key before the first `.`, the field after
/// it. `None` for a key without a `.`.
pub fn split_nested_key(key: &str) -> (r: Option<(String, String)>)
    ensures
        match r {
            Some((parent, child)) => exists|i: int|
                first_dot(key@, i) && parent@ == key@.subrange(0, i) && child@ == key@.subrange(
                    i + 1,
                    key@.len() as int,
                ),
            None => forall|j: int| 0 <= j < key@.len() ==> key@[j] != '.',
        },
{
    let cs = chars_of(key);
    let mut i: usize = 0;
    while i < cs.len()
        invariant
            i <= cs.len(),
            cs@ == key@,
            forall|j: int| 0 <= j < i ==> cs@[j] != '.',
        decreases cs.len() - i,
    {
        if cs[i] == '.' {
            let parent = slice_chars(&cs, 0, i);
            let child = slice_chars(&cs, i + 1, cs.len());
            assert(first_dot(key@, i as int));
            return Some((string_from_chars(parent.as_slice()), string_from_chars(child.as_slice())));
        }
        i = i + 1;
    }
    None
}

} // verus!
