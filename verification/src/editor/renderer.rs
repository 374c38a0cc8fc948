//! The editing state that lives beside the text widget: the widget's text, the
//! previous frame's text and cursor for the typing helpers, and find and replace.
use std::ops::Range;
use vstd::prelude::*;
use crate::editor::{bump, next_version, Editor};
use crate::editor::autoclose::{autoclose, autoclose_edit, tab_edit, tab_fits, tab_result, tab_would_fit};
use crate::editor::search::{
    expand_replacement, expansion, find_matches, found_matches, range_pairs, replace_all_matches,
    replaced_all,
};
use crate::text::{chars_of, string_of, sub_chars, extend_chars, utf8_len};

verus! {

/// A cursor range of the text widget: `primary` is where the cursor is and
/// `secondary` the other end of the selection (the same when nothing is selected).
#[derive(Clone, Copy, Debug, PartialEq, Eq, Structural)]
pub struct CursorRange {
    pub primary: usize,
    pub secondary: usize,
}

impl CursorRange {
    /// The range from `min` to `max` with the cursor at `max`.
    pub fn two(min: usize, max: usize) -> (r: Self)
        ensures
            r.primary == max,
            r.secondary == min,
    {
        CursorRange { primary: max, secondary: min }
    }
}

/// Where the active match goes after the matches were found again: none when
/// there are none, the first when the old one is gone, otherwise the same.
pub open spec fn active_after(active: Option<usize>, n: nat) -> Option<usize> {
    if n == 0 {
        None
    } else {
        match active {
            Some(i) => if i >= n {
                Some(0)
            } else {
                Some(i)
            },
            None => Some(0),
        }
    }
}

/// The match that Next (`next`) or Previous moves to among `n` matches.
pub open spec fn stepped_index(active: Option<usize>, next: bool, n: nat) -> nat {
    match active {
        Some(c) => if next {
            ((c + 1) % (n as int)) as nat
        } else if c == 0 {
            (n - 1) as nat
        } else {
            (c - 1) as nat
        },
        None => 0,
    }
}

/// `s` with the ranges `ranges[k - 1]`, …, `ranges[0]` replaced by `rep` in that
/// order; a range that does not fit in the text at its turn is passed over.
pub open spec fn splice_from(s: Seq<char>, ranges: Seq<(nat, nat)>, k: nat, rep: Seq<char>) -> Seq<char>
    decreases k,
{
    if k == 0 || k > ranges.len() {
        s
    } else {
        let (a, b) = ranges[k - 1];
        let s2 = if a <= s.len() && b <= s.len() {
            s.take(a as int) + rep + s.skip(b as int)
        } else {
            s
        };
        splice_from(s2, ranges, (k - 1) as nat, rep)
    }
}

/// Replacing the ranges as `splice_from` does never meets, at its turn, a range
/// within the text whose start lies after its end.
pub open spec fn splice_ok(s: Seq<char>, ranges: Seq<(nat, nat)>, k: nat, rep: Seq<char>) -> bool
    decreases k,
{
    if k == 0 || k > ranges.len() {
        true
    } else {
        let (a, b) = ranges[k - 1];
        let fits = a <= s.len() && b <= s.len();
        let s2 = if fits {
            s.take(a as int) + rep + s.skip(b as int)
        } else {
            s
        };
        (fits ==> a <= b) && splice_ok(s2, ranges, (k - 1) as nat, rep)
    }
}

/// The text widget's side of an open document.
pub struct EditorRenderer {
    pub content_buffer: String,
    pub last_version: usize,
    pub previous_text: String,
    pub previous_cursor: Option<CursorRange>,
    pub find_visible: bool,
    pub find_query: String,
    pub use_regex: bool,
    pub case_sensitive: bool,
    pub matches: Vec<Range<usize>>,
    pub active_match_index: Option<usize>,
    pub focus_search_input: bool,
    pub scroll_to_cursor_requested: bool,
    pub replace_query: String,
    pub replace_visible: bool,
}

impl EditorRenderer {
    /// What the current settings find in `text`; with `skip_empty` empty regular
    /// expression matches are left out.
    pub open spec fn search_in(self, text: Seq<char>, skip_empty: bool) -> Seq<(nat, nat)> {
        found_matches(text, self.find_query@, self.use_regex, self.case_sensitive, skip_empty)
    }

    /// The edit the typing helpers make in this frame, given the widget's cursor.
    pub open spec fn autoclosing(self, cursor: CursorRange, ui_changed: bool) -> Option<(Seq<char>, nat)> {
        match self.previous_cursor {
            Some(p) => if ui_changed {
                autoclose_edit(
                    self.content_buffer@,
                    self.previous_text@,
                    (p.primary as nat, p.secondary as nat),
                    (cursor.primary as nat, cursor.secondary as nat),
                )
            } else {
                None
            },
            None => None,
        }
    }

    /// The active match that Replace replaces: its index and bounds, when it lies
    /// within the text.
    pub open spec fn replace_target(self) -> Option<(nat, nat, nat)> {
        match self.active_match_index {
            Some(idx) => if idx < self.matches@.len() && self.matches@[idx as int].start
                <= self.content_buffer@.len() && self.matches@[idx as int].end
                <= self.content_buffer@.len() {
                Some(
                    (
                        idx as nat,
                        self.matches@[idx as int].start as nat,
                        self.matches@[idx as int].end as nat,
                    ),
                )
            } else {
                None
            },
            None => None,
        }
    }

    /// The text that replaces the characters `a..b`: the replacement expanded on
    /// them with a regular expression, otherwise the replacement as it stands.
    pub open spec fn replacement_for(self, a: nat, b: nat) -> Seq<char> {
        if self.use_regex {
            expansion(
                self.find_query@,
                !self.case_sensitive,
                self.content_buffer@.subrange(a as int, b as int),
                self.replace_query@,
            )
        } else {
            self.replace_query@
        }
    }

    /// The text after Replace All.
    pub open spec fn replaced_all_text(self) -> Seq<char> {
        if self.use_regex {
            replaced_all(self.find_query@, !self.case_sensitive, self.content_buffer@, self.replace_query@)
        } else {
            splice_from(self.content_buffer@, range_pairs(self.matches@), self.matches@.len(), self.replace_query@)
        }
    }

    pub fn new() -> (r: Self)
        ensures
            r.content_buffer@ == Seq::<char>::empty(),
            r.last_version == usize::MAX,
            r.previous_text@ == Seq::<char>::empty(),
            r.previous_cursor is None,
            !r.find_visible,
            r.find_query@ == Seq::<char>::empty(),
            !r.use_regex,
            !r.case_sensitive,
            r.matches@ == Seq::<Range<usize>>::empty(),
            r.active_match_index is None,
            !r.focus_search_input,
            !r.scroll_to_cursor_requested,
            r.replace_query@ == Seq::<char>::empty(),
            !r.replace_visible,
    {
        EditorRenderer {
            content_buffer: String::new(),
            last_version: usize::MAX,
            previous_text: String::new(),
            previous_cursor: None,
            find_visible: false,
            find_query: String::new(),
            use_regex: false,
            case_sensitive: false,
            matches: Vec::new(),
            active_match_index: None,
            focus_search_input: false,
            scroll_to_cursor_requested: false,
            replace_query: String::new(),
            replace_visible: false,
        }
    }

    /// Takes the editor's text when the editor moved to another version; returns
    /// the editor's selection as the cursor range the widget should show then.
    pub fn sync_from_editor(&mut self, editor: &Editor) -> (r: Option<CursorRange>)
        ensures
            editor.version == old(self).last_version ==> r is None && *final(self) == *old(self),
            editor.version != old(self).last_version ==> {
                &&& r == Some(CursorRange { primary: editor.selection.head, secondary: editor.selection.anchor })
                &&& final(self).content_buffer@ == editor.buffer@
                &&& final(self).previous_text@ == editor.buffer@
                &&& final(self).previous_cursor is None
                &&& final(self).last_version == editor.version
                &&& *final(self) == (EditorRenderer {
                    content_buffer: final(self).content_buffer,
                    previous_text: final(self).previous_text,
                    previous_cursor: None,
                    last_version: editor.version,
                    ..*old(self)
                })
            },
    {
        if editor.version != self.last_version {
            self.content_buffer = editor.buffer.to_string();
            self.last_version = editor.version;
            self.previous_text = self.content_buffer.clone();
            self.previous_cursor = None;
            Some(CursorRange::two(editor.selection.anchor, editor.selection.head))
        } else {
            None
        }
    }

    /// Hands the widget's cursor range and text to the editor.
    pub fn sync_to_editor(&mut self, editor: &mut Editor, cursor: Option<CursorRange>)
        ensures
            final(editor).buffer@ == old(self).content_buffer@,
            ({
                let placed = match cursor {
                    Some(c) => Editor {
                        cursor: crate::editor::Cursor { char_idx: c.primary },
                        selection: crate::editor::Selection { anchor: c.secondary, head: c.primary },
                        ..*old(editor)
                    },
                    None => *old(editor),
                };
                final(editor).synced_from(placed, old(self).content_buffer@)
            }),
            *final(self) == (EditorRenderer { last_version: final(editor).version, ..*old(self) }),
    {
        match cursor {
            Some(c) => {
                editor.cursor.char_idx = c.primary;
                editor.selection.anchor = c.secondary;
                editor.selection.head = c.primary;
            },
            None => {},
        }
        editor.sync_text(self.content_buffer.as_str());
        self.last_version = editor.version;
    }

    /// Finds the matches of the current query in the text again and keeps the
    /// active match where it still exists.
    pub fn update_find_matches(&mut self)
        ensures
            range_pairs(final(self).matches@) == old(self).search_in(old(self).content_buffer@, true),
            final(self).active_match_index == active_after(
                old(self).active_match_index,
                final(self).matches@.len(),
            ),
            *final(self) == (EditorRenderer {
                matches: final(self).matches,
                active_match_index: final(self).active_match_index,
                ..*old(self)
            }),
    {
        let found = find_matches(
            self.content_buffer.as_str(),
            self.find_query.as_str(),
            self.use_regex,
            self.case_sensitive,
            true,
        );
        self.matches = found;
        if self.matches.len() == 0 {
            self.active_match_index = None;
        } else {
            match self.active_match_index {
                Some(idx) => {
                    if idx >= self.matches.len() {
                        self.active_match_index = Some(0);
                    }
                },
                None => {
                    self.active_match_index = Some(0);
                },
            }
        }
    }

    /// The character ranges the current query finds in `text`.
    pub fn find_matches_in_text(&self, text: &str) -> (r: Vec<Range<usize>>)
        ensures
            range_pairs(r@) == self.search_in(text@, false),
    {
        find_matches(text, self.find_query.as_str(), self.use_regex, self.case_sensitive, false)
    }

    /// Moves to the next (`next`) or previous match and selects it in the editor;
    /// returns the cursor range the widget should show.
    pub fn navigate_match(&mut self, next: bool, editor: &mut Editor) -> (r: Option<CursorRange>)
        requires
            old(self).matches@.len() > 0 ==> match old(self).active_match_index {
                Some(c) => if next {
                    c < usize::MAX
                } else {
                    c <= old(self).matches@.len()
                },
                None => true,
            },
        ensures
            old(self).matches@.len() == 0 ==> r is None && *final(self) == *old(self) && *final(editor)
                == *old(editor),
            old(self).matches@.len() > 0 ==> {
                let i = stepped_index(old(self).active_match_index, next, old(self).matches@.len());
                let m = old(self).matches@[i as int];
                &&& i < old(self).matches@.len()
                &&& r == Some(CursorRange { primary: m.end, secondary: m.start })
                &&& *final(self) == (EditorRenderer {
                    active_match_index: Some(i as usize),
                    scroll_to_cursor_requested: true,
                    ..*old(self)
                })
                &&& *final(editor) == (Editor {
                    selection: crate::editor::Selection { anchor: m.start, head: m.end },
                    cursor: crate::editor::Cursor { char_idx: m.end },
                    version: next_version(old(editor).version),
                    ..*old(editor)
                })
            },
    {
        let n = self.matches.len();
        if n == 0 {
            return None;
        }
        let new_idx = match self.active_match_index {
            Some(curr) => if next {
                (curr + 1) % n
            } else if curr == 0 {
                n - 1
            } else {
                curr - 1
            },
            None => 0,
        };
        self.active_match_index = Some(new_idx);
        let start = self.matches[new_idx].start;
        let end = self.matches[new_idx].end;
        editor.selection.anchor = start;
        editor.selection.head = end;
        editor.cursor.char_idx = end;
        editor.version = bump(editor.version);
        self.scroll_to_cursor_requested = true;
        Some(CursorRange::two(start, end))
    }
    /// The typing helpers after the widget changed the text (`ui_changed`) with the
    /// cursor now at `cursor`: makes the edit of `autoclose_edit` against the
    /// previous frame and remembers this frame's text and cursor. Returns the new
    /// cursor when the text was changed.
    pub fn process_autoclosing(&mut self, cursor: Option<CursorRange>, ui_changed: bool) -> (r: Option<CursorRange>)
        requires
            old(self).content_buffer@.len() + utf8_len(old(self).previous_text@) + 3 <= usize::MAX,
        ensures
            match cursor {
                Some(cur) => match old(self).autoclosing(cur, ui_changed) {
                    Some((t, c)) => {
                        &&& final(self).content_buffer@ == t
                        &&& r == Some(CursorRange { primary: c as usize, secondary: c as usize })
                        &&& final(self).previous_cursor == r
                    },
                    None => {
                        &&& final(self).content_buffer == old(self).content_buffer
                        &&& r is None
                        &&& final(self).previous_cursor == Some(cur)
                    },
                },
                None => {
                    &&& final(self).content_buffer == old(self).content_buffer
                    &&& r is None
                    &&& final(self).previous_cursor is None
                },
            },
            final(self).previous_text@ == final(self).content_buffer@,
            *final(self) == (EditorRenderer {
                content_buffer: final(self).content_buffer,
                previous_text: final(self).previous_text,
                previous_cursor: final(self).previous_cursor,
                ..*old(self)
            }),
    {
        let mut changed: Option<CursorRange> = None;
        match cursor {
            Some(cur) => {
                if ui_changed {
                    match self.previous_cursor {
                        Some(p) => {
                            let content = chars_of(self.content_buffer.as_str());
                            let prev = chars_of(self.previous_text.as_str());
                            match autoclose(
                                content.as_slice(),
                                prev.as_slice(),
                                (p.primary, p.secondary),
                                (cur.primary, cur.secondary),
                            ) {
                                Some((t, c)) => {
                                    self.content_buffer = string_of(t.as_slice());
                                    changed = Some(CursorRange::two(c, c));
                                },
                                None => {},
                            }
                        },
                        None => {},
                    }
                }
                self.previous_cursor = match changed {
                    Some(x) => Some(x),
                    None => Some(cur),
                };
            },
            None => {
                self.previous_cursor = None;
            },
        }
        self.previous_text = self.content_buffer.clone();
        changed
    }

    /// Whether `handle_tab_key` can run on the widget's text with this cursor range
    /// (its `requires`): the positions Tab moves to fit in an index.
    pub fn tab_key_fits(&self, cursor: CursorRange, tab_pressed: bool, tab_width: usize) -> (r: bool)
        ensures
            r == tab_fits(
                self.content_buffer@,
                cursor.primary as nat,
                cursor.secondary as nat,
                tab_pressed,
                tab_width as nat,
            ),
    {
        let content = chars_of(self.content_buffer.as_str());
        tab_would_fit(content.as_slice(), cursor.primary, cursor.secondary, tab_pressed, tab_width)
    }

    /// Tab (`tab_pressed`) or Shift+Tab with the widget's cursor range: indents or
    /// unindents as `tab_result` says and returns the cursor range to show; nothing
    /// happens without a key or a cursor.
    pub fn handle_tab_key(
        &mut self,
        cursor: Option<CursorRange>,
        tab_pressed: bool,
        shift_tab_pressed: bool,
        tab_width: usize,
    ) -> (r: Option<CursorRange>)
        requires
            (tab_pressed || shift_tab_pressed) && cursor is Some ==> tab_fits(
                old(self).content_buffer@,
                cursor.unwrap().primary as nat,
                cursor.unwrap().secondary as nat,
                tab_pressed,
                tab_width as nat,
            ),
        ensures
            (tab_pressed || shift_tab_pressed) && cursor is Some ==> {
                let c = cursor.unwrap();
                let (t, anchor, head) = tab_result(
                    old(self).content_buffer@,
                    c.primary as nat,
                    c.secondary as nat,
                    tab_pressed,
                    tab_width as nat,
                );
                &&& final(self).content_buffer@ == t
                &&& r == Some(CursorRange { primary: head as usize, secondary: anchor as usize })
                &&& *final(self) == (EditorRenderer { content_buffer: final(self).content_buffer, ..*old(self) })
            },
            !((tab_pressed || shift_tab_pressed) && cursor is Some) ==> r is None && *final(self)
                == *old(self),
    {
        if !tab_pressed && !shift_tab_pressed {
            return None;
        }
        match cursor {
            Some(c) => {
                let content = chars_of(self.content_buffer.as_str());
                let (t, anchor, head) = tab_edit(content.as_slice(), c.primary, c.secondary, tab_pressed, tab_width);
                self.content_buffer = string_of(t.as_slice());
                Some(CursorRange::two(anchor, head))
            },
            None => None,
        }
    }

    /// Replaces the active match and moves to the match now at its place; returns
    /// the cursor range the widget should show.
    pub fn replace_current(&mut self, editor: &mut Editor) -> (r: Option<CursorRange>)
        requires
            match old(self).active_match_index {
                Some(idx) => idx < old(self).matches@.len() ==> old(self).matches@[idx as int].start
                    <= old(self).matches@[idx as int].end,
                None => true,
            },
        ensures
            old(self).replace_target() is None ==> r is None && *final(self) == *old(self) && *final(editor)
                == *old(editor),
            old(self).replace_target() matches Some((idx, a, b)) ==> {
                let rep = old(self).replacement_for(a, b);
                let text = old(self).content_buffer@.take(a as int) + rep + old(self).content_buffer@.skip(b as int);
                let found = old(self).search_in(text, true);
                &&& final(self).content_buffer@ == text
                &&& range_pairs(final(self).matches@) == found
                &&& final(editor).took_text(*old(editor), text)
                &&& if found.len() == 0 {
                    let c = a + rep.len();
                    &&& final(editor).caret_at(c)
                    &&& r == Some(CursorRange { primary: c as usize, secondary: c as usize })
                    &&& *final(self) == (EditorRenderer {
                        content_buffer: final(self).content_buffer,
                        matches: final(self).matches,
                        active_match_index: None,
                        ..*old(self)
                    })
                } else {
                    let j = if idx < found.len() {
                        idx
                    } else {
                        (found.len() - 1) as nat
                    };
                    let m = final(self).matches@[j as int];
                    &&& final(editor).selection == (crate::editor::Selection { anchor: m.start, head: m.end })
                    &&& final(editor).cursor == (crate::editor::Cursor { char_idx: m.end })
                    &&& r == Some(CursorRange { primary: m.end, secondary: m.start })
                    &&& *final(self) == (EditorRenderer {
                        content_buffer: final(self).content_buffer,
                        matches: final(self).matches,
                        active_match_index: Some(j as usize),
                        scroll_to_cursor_requested: true,
                        ..*old(self)
                    })
                }
            },
    {
        let n = self.matches.len();
        let idx = match self.active_match_index {
            Some(i) => i,
            None => return None,
        };
        if idx >= n {
            return None;
        }
        let a = self.matches[idx].start;
        let b = self.matches[idx].end;
        let content = chars_of(self.content_buffer.as_str());
        let len = content.len();
        if !(a <= len && b <= len) {
            return None;
        }
        let rep: String = if self.use_regex {
            let matched = string_of(sub_chars(content.as_slice(), a, b).as_slice());
            expand_replacement(
                self.find_query.as_str(),
                !self.case_sensitive,
                matched.as_str(),
                self.replace_query.as_str(),
            )
        } else {
            self.replace_query.clone()
        };
        let rep_chars = chars_of(rep.as_str());
        let mut t = sub_chars(content.as_slice(), 0, a);
        extend_chars(&mut t, rep_chars.as_slice());
        let tail = sub_chars(content.as_slice(), b, len);
        extend_chars(&mut t, tail.as_slice());
        let tl = t.len();
        let new_cursor = a + rep_chars.len();
        proof {
            assert(t@ =~= content@.take(a as int) + rep@ + content@.skip(b as int));
        }
        self.content_buffer = string_of(t.as_slice());
        editor.sync_text(self.content_buffer.as_str());
        editor.version = bump(editor.version);
        self.update_find_matches();
        editor.selection.anchor = new_cursor;
        editor.selection.head = new_cursor;
        editor.cursor.char_idx = new_cursor;
        let mut result = CursorRange::two(new_cursor, new_cursor);
        let m = self.matches.len();
        if m > 0 {
            let j = if idx < m - 1 {
                idx
            } else {
                m - 1
            };
            self.active_match_index = Some(j);
            let s = self.matches[j].start;
            let e = self.matches[j].end;
            editor.selection.anchor = s;
            editor.selection.head = e;
            editor.cursor.char_idx = e;
            result = CursorRange::two(s, e);
            self.scroll_to_cursor_requested = true;
        }
        Some(result)
    }

    /// Replaces every match: with a regular expression by the crate's replacement,
    /// otherwise range by range from the last; then finds the matches again.
    pub fn replace_all(&mut self, editor: &mut Editor)
        requires
            !old(self).use_regex ==> splice_ok(
                old(self).content_buffer@,
                range_pairs(old(self).matches@),
                old(self).matches@.len(),
                old(self).replace_query@,
            ),
        ensures
            old(self).matches@.len() == 0 ==> *final(self) == *old(self) && *final(editor) == *old(editor),
            old(self).matches@.len() > 0 ==> {
                let text = old(self).replaced_all_text();
                &&& final(self).content_buffer@ == text
                &&& final(editor).took_text(*old(editor), text)
                &&& final(editor).cursor == old(editor).cursor
                &&& final(editor).selection == old(editor).selection
                &&& range_pairs(final(self).matches@) == old(self).search_in(text, true)
                &&& final(self).active_match_index == active_after(
                    old(self).active_match_index,
                    final(self).matches@.len(),
                )
                &&& *final(self) == (EditorRenderer {
                    content_buffer: final(self).content_buffer,
                    matches: final(self).matches,
                    active_match_index: final(self).active_match_index,
                    ..*old(self)
                })
            },
    {
        let n = self.matches.len();
        if n == 0 {
            return ;
        }
        if self.use_regex {
            self.content_buffer = replace_all_matches(
                self.find_query.as_str(),
                !self.case_sensitive,
                self.content_buffer.as_str(),
                self.replace_query.as_str(),
            );
        } else {
            let ghost ranges = range_pairs(self.matches@);
            let ghost initial = self.content_buffer@;
            let rep = chars_of(self.replace_query.as_str());
            let mut chars = chars_of(self.content_buffer.as_str());
            let mut k = n;
            while k > 0
                invariant
                    k <= n,
                    n == self.matches@.len(),
                    ranges == range_pairs(self.matches@),
                    rep@ == self.replace_query@,
                    initial == self.content_buffer@,
                    splice_from(chars@, ranges, k as nat, rep@) == splice_from(initial, ranges, n as nat, rep@),
                    splice_ok(chars@, ranges, k as nat, rep@),
                decreases k,
            {
                let a = self.matches[k - 1].start;
                let b = self.matches[k - 1].end;
                proof {
                    assert(ranges[k - 1] == (a as nat, b as nat));
                }
                let len = chars.len();
                if a <= len && b <= len {
                    let mut t = sub_chars(chars.as_slice(), 0, a);
                    extend_chars(&mut t, rep.as_slice());
                    let tail = sub_chars(chars.as_slice(), b, len);
                    extend_chars(&mut t, tail.as_slice());
                    proof {
                        assert(t@ =~= chars@.take(a as int) + rep@ + chars@.skip(b as int));
                    }
                    chars = t;
                }
                k -= 1;
            }
            self.content_buffer = string_of(chars.as_slice());
        }
        editor.sync_text(self.content_buffer.as_str());
        editor.version = bump(editor.version);
        self.update_find_matches();
    }

}

} // verus!
