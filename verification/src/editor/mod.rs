//! The editor: its buffer, cursor, selection and undo history, and the edits on them.
pub mod autoclose;
pub mod buffer;
pub mod clipboard;
pub mod cursor;
pub mod format;
pub mod indent;
pub mod layout;
pub mod renderer;
pub mod rope;
pub mod search;
pub mod selection;
pub mod undo;

pub use buffer::EditBuffer;
pub use cursor::Cursor;
pub use selection::Selection;
pub use undo::UndoStack;

use vstd::prelude::*;
use crate::editor::buffer::{insert_at, remove_clamped};
use crate::editor::format::{
    build_table, format_accepts, format_text, formatted, placeholder, placeholder_for,
    placeholder_offset, table_text,
};
use crate::text::{chars_of, has_prefix, has_suffix, str_equal, string_of};

verus! {

/// The version number after an edit; it wraps around past the largest value.
pub open spec fn next_version(v: usize) -> usize {
    if v == usize::MAX {
        0
    } else {
        (v + 1) as usize
    }
}

pub(crate) fn bump(v: usize) -> (r: usize)
    ensures
        r == next_version(v),
{
    if v == usize::MAX {
        0
    } else {
        v + 1
    }
}

/// An open document with its editing state.
pub struct Editor {
    pub buffer: EditBuffer,
    pub cursor: Cursor,
    pub selection: Selection,
    pub undo_stack: UndoStack,
    pub active_path: Option<String>,
    pub is_dirty: bool,
    pub version: usize,
    pub request_table_dialog: bool,
}

impl Editor {
    /// Something is selected.
    pub open spec fn has_selection(self) -> bool {
        self.selection.anchor != self.selection.head
    }

    /// Where an edit that replaces the selection, or inserts at the cursor, takes place.
    pub open spec fn edit_point(self) -> nat {
        if self.has_selection() {
            self.selection.spec_start() as nat
        } else {
            self.cursor.char_idx as nat
        }
    }

    /// The selected characters, the selection's ends clamped to the text.
    pub open spec fn selected_text(self) -> Seq<char> {
        let b = self.buffer@;
        let e = if (self.selection.spec_end() as int) < b.len() {
            self.selection.spec_end() as int
        } else {
            b.len() as int
        };
        let s = if (self.selection.spec_start() as int) < e {
            self.selection.spec_start() as int
        } else {
            e
        };
        b.subrange(s, e)
    }

    /// `self` is `before` after an edit: it is dirty, its version moved on, and
    /// its path and pending table request are kept.
    pub open spec fn is_edited_from(self, before: Editor) -> bool {
        &&& self.is_dirty
        &&& self.version == next_version(before.version)
        &&& self.active_path == before.active_path
        &&& self.request_table_dialog == before.request_table_dialog
    }

    /// `self` is `before` after taking in `text` from the text widget: the same
    /// when the text is the same; otherwise holding `text`, with the change recorded
    /// for undo, the cursor and selection kept, and marked as edited.
    pub open spec fn synced_from(self, before: Editor, text: Seq<char>) -> bool {
        if before.buffer@ == text {
            self == before
        } else {
            &&& self.buffer@ == text
            &&& self.undo_stack.is_change_recorded(before.undo_stack, before.buffer@, text)
            &&& self.cursor == before.cursor
            &&& self.selection == before.selection
            &&& self.is_edited_from(before)
        }
    }

    /// `self` is `before` after the text `text` was taken in (`sync_text`) and the
    /// version then moved on once more: the change is recorded for undo unless the
    /// text is the same, and the path and pending table request are kept.
    pub open spec fn took_text(self, before: Editor, text: Seq<char>) -> bool {
        &&& self.buffer@ == text
        &&& self.active_path == before.active_path
        &&& self.request_table_dialog == before.request_table_dialog
        &&& if before.buffer@ == text {
            &&& self.undo_stack == before.undo_stack
            &&& self.is_dirty == before.is_dirty
            &&& self.version == next_version(before.version)
        } else {
            &&& self.undo_stack.is_change_recorded(before.undo_stack, before.buffer@, text)
            &&& self.is_dirty
            &&& self.version == next_version(next_version(before.version))
        }
    }

    /// The cursor is at `c` and the selection is collapsed there.
    pub open spec fn caret_at(self, c: nat) -> bool {
        &&& self.cursor.char_idx == c
        &&& self.selection.anchor == c
        &&& self.selection.head == c
    }

    pub fn new() -> (e: Self)
        ensures
            e.buffer@ == Seq::<char>::empty(),
            e.caret_at(0),
            e.undo_stack.undo_entries() == Seq::<Seq<char>>::empty(),
            e.undo_stack.redo_entries() == Seq::<Seq<char>>::empty(),
            e.undo_stack.tracking_reset(),
            e.active_path is None,
            !e.is_dirty,
            e.version == 0,
            !e.request_table_dialog,
    {
        Self {
            buffer: EditBuffer::new(),
            cursor: Cursor::default(),
            selection: Selection::default(),
            undo_stack: UndoStack::new(),
            active_path: None,
            is_dirty: false,
            version: 0,
            request_table_dialog: false,
        }
    }

    /// Takes in the contents of the file at `path`: a fresh history, the cursor at
    /// the start, not dirty.
    pub fn load_file(&mut self, path: String, content: &str)
        ensures
            final(self).buffer@ == content@,
            final(self).active_path == Some(path),
            final(self).caret_at(0),
            final(self).undo_stack.undo_entries() == Seq::<Seq<char>>::empty(),
            final(self).undo_stack.redo_entries() == Seq::<Seq<char>>::empty(),
            final(self).undo_stack.tracking_reset(),
            !final(self).is_dirty,
            final(self).version == next_version(old(self).version),
            final(self).request_table_dialog == old(self).request_table_dialog,
    {
        self.buffer = EditBuffer::from_str(content);
        self.active_path = Some(path);
        self.cursor = Cursor::default();
        self.selection.clear(0);
        self.undo_stack.clear();
        self.is_dirty = false;
        self.version = bump(self.version);
    }

    /// Records that the text was written to the document's file.
    pub fn mark_saved(&mut self)
        ensures
            *final(self) == (Editor { is_dirty: false, ..*old(self) }),
    {
        self.is_dirty = false;
    }

    /// Records that the text was written to the file at `path`, which becomes the
    /// document's file.
    pub fn mark_saved_as(&mut self, path: String)
        ensures
            *final(self) == (Editor { is_dirty: false, active_path: Some(path), ..*old(self) }),
    {
        self.active_path = Some(path);
        self.is_dirty = false;
    }

    /// Replaces the whole text, forgetting the history.
    pub fn set_text(&mut self, text: &str)
        ensures
            final(self).buffer@ == text@,
            final(self).caret_at(0),
            final(self).undo_stack.undo_entries() == Seq::<Seq<char>>::empty(),
            final(self).undo_stack.redo_entries() == Seq::<Seq<char>>::empty(),
            final(self).undo_stack.tracking_reset(),
            final(self).is_edited_from(*old(self)),
    {
        self.buffer = EditBuffer::from_str(text);
        self.cursor = Cursor::default();
        self.selection.clear(0);
        self.undo_stack.clear();
        self.is_dirty = true;
        self.version = bump(self.version);
    }

    /// Takes in the text as the text widget left it, recording the change for undo.
    pub fn sync_text(&mut self, new_text: &str)
        ensures
            final(self).synced_from(*old(self), new_text@),
    {
        let old_text = self.buffer.to_string();
        if str_equal(old_text.as_str(), new_text) {
            return ;
        }
        self.undo_stack.push_change(old_text, new_text);
        self.buffer = EditBuffer::from_str(new_text);
        self.is_dirty = true;
        self.version = bump(self.version);
    }

    /// Types `text`, replacing the selection if there is one.
    pub fn insert_text(&mut self, text: &str)
        requires
            old(self).edit_point() + text@.len() <= usize::MAX,
        ensures
            ({
                let b = old(self).buffer@;
                let rest = if old(self).has_selection() {
                    remove_clamped(
                        b,
                        old(self).selection.spec_start() as int,
                        old(self).selection.spec_end() as int,
                    )
                } else {
                    b
                };
                let at = old(self).edit_point();
                &&& final(self).buffer@ == insert_at(rest, at as int, text@)
                &&& final(self).caret_at(at + text@.len())
            }),
            final(self).undo_stack.is_recorded(old(self).undo_stack, old(self).buffer@),
            final(self).is_edited_from(*old(self)),
    {
        let current_text = self.buffer.to_string();
        self.undo_stack.push(current_text);

        if let Some(range) = self.selection.range() {
            self.buffer.remove(range.start, range.end);
            self.cursor.char_idx = range.start;
            self.selection.clear(self.cursor.char_idx);
        }
        self.buffer.insert(self.cursor.char_idx, text);
        let n = chars_of(text).len();
        self.cursor.char_idx = self.cursor.char_idx + n;
        self.selection.clear(self.cursor.char_idx);
        self.is_dirty = true;
        self.version = bump(self.version);
    }

    /// Formatting is possible: a selection lies within the text, a comment to
    /// unwrap has separate opening and closing marks, and the cursor can move past
    /// the result.
    pub open spec fn can_format(self, kind: Seq<char>) -> bool {
        if self.has_selection() {
            let sel = self.buffer@.subrange(
                self.selection.spec_start() as int,
                self.selection.spec_end() as int,
            );
            &&& self.selection.spec_end() <= self.buffer@.len()
            &&& sel.len() < usize::MAX
            &&& format_accepts(kind, sel)
            &&& self.selection.spec_start() + formatted(kind, sel).len() <= usize::MAX
        } else {
            self.cursor.char_idx + placeholder_offset(kind) <= usize::MAX
        }
    }

    /// `self` is `before` after formatting with `kind`: the old text is an undo
    /// point; a selection is replaced by its formatted text with the cursor after it,
    /// or else the placeholder is inserted at the cursor and the cursor moves into it.
    pub open spec fn is_formatted_from(self, before: Editor, kind: Seq<char>) -> bool {
        &&& (self.undo_stack.is_recorded(before.undo_stack, before.buffer@))
        &&& (before.has_selection() ==> {
                let b = before.buffer@;
                let s = before.selection.spec_start() as int;
                let e = before.selection.spec_end() as int;
                let new_text = formatted(kind, b.subrange(s, e));
                &&& self.buffer@ == b.take(s) + new_text + b.skip(e)
                &&& self.caret_at((s + new_text.len()) as nat)
            })
        &&& (!before.has_selection() ==> {
                &&& self.buffer@ == insert_at(
                    before.buffer@,
                    before.cursor.char_idx as int,
                    placeholder(kind),
                )
                &&& self.caret_at(
                    (before.cursor.char_idx + placeholder_offset(kind)) as nat,
                )
            })
        &&& self.is_edited_from(before)
    }

    /// Applies the Markdown format `format_type` to the selection, or inserts its
    /// placeholder at the cursor when nothing is selected.
    pub fn format_selection(&mut self, format_type: &str)
        requires
            old(self).can_format(format_type@),
        ensures
            final(self).is_formatted_from(*old(self), format_type@),
    {
        let current_text = self.buffer.to_string();
        self.undo_stack.push(current_text);

        if let Some(range) = self.selection.range() {
            let selected_text = self.buffer.slice_to_string(range.start, range.end);
            let selected_chars = chars_of(selected_text.as_str());
            let new_chars = format_text(format_type, selected_chars.as_slice());
            let new_text = string_of(new_chars.as_slice());
            let ghost b = self.buffer@;
            self.buffer.remove(range.start, range.end);
            proof {
                assert(self.buffer@ =~= b.take(range.start as int) + b.skip(range.end as int));
            }
            self.buffer.insert(range.start, new_text.as_str());
            proof {
                let r = b.take(range.start as int) + b.skip(range.end as int);
                assert(r.take(range.start as int) =~= b.take(range.start as int));
                assert(r.skip(range.start as int) =~= b.skip(range.end as int));
            }
            self.cursor.char_idx = range.start + new_chars.len();
            self.selection.clear(self.cursor.char_idx);
        } else {
            let (text, offset) = placeholder_for(format_type);
            self.buffer.insert(self.cursor.char_idx, text);
            self.cursor.char_idx = self.cursor.char_idx + offset;
            self.selection.clear(self.cursor.char_idx);
        }
        self.is_dirty = true;
        self.version = bump(self.version);
    }

    /// Whether `format_selection` can apply `format_type` (see `can_format`).
    pub fn can_format_selection(&self, format_type: &str) -> (r: bool)
        ensures
            r == self.can_format(format_type@),
    {
        if let Some(range) = self.selection.range() {
            if range.end > self.buffer.len_chars() {
                return false;
            }
            if range.end - range.start == usize::MAX {
                return false;
            }
            let selected_text = self.buffer.slice_to_string(range.start, range.end);
            let sel = chars_of(selected_text.as_str());
            if str_equal(format_type, "comment") {
                let spaced = has_prefix(sel.as_slice(), "<!-- ") && has_suffix(sel.as_slice(), " -->");
                let tight = has_prefix(sel.as_slice(), "<!--") && has_suffix(sel.as_slice(), "-->");
                if spaced && sel.len() < 9 {
                    return false;
                }
                if !spaced && tight && sel.len() < 7 {
                    return false;
                }
            }
            let new_chars = format_text(format_type, sel.as_slice());
            new_chars.len() <= usize::MAX - range.start
        } else {
            let (_, offset) = placeholder_for(format_type);
            offset <= usize::MAX - self.cursor.char_idx
        }
    }

    /// Formats as `format_selection` does when that is possible; otherwise leaves
    /// the editor unchanged. Returns whether it formatted.
    pub fn try_format_selection(&mut self, format_type: &str) -> (done: bool)
        ensures
            done == old(self).can_format(format_type@),
            done ==> final(self).is_formatted_from(*old(self), format_type@),
            !done ==> *final(self) == *old(self),
    {
        if self.can_format_selection(format_type) {
            self.format_selection(format_type);
            true
        } else {
            false
        }
    }

    /// Inserts a table of `cols` columns and `rows` rows, replacing the selection if
    /// there is one; `selected_text` becomes the first header.
    pub fn format_table(&mut self, cols: usize, rows: usize, selected_text: &str)
        requires
            old(self).edit_point() + table_text(cols as nat, rows as nat, selected_text@).len()
                <= usize::MAX,
        ensures
            ({
                let table = table_text(cols as nat, rows as nat, selected_text@);
                let b = old(self).buffer@;
                if old(self).has_selection() {
                    let s = old(self).selection.spec_start();
                    &&& final(self).undo_stack.is_recorded(old(self).undo_stack, b)
                    &&& final(self).buffer@ == insert_at(
                        remove_clamped(b, s as int, old(self).selection.spec_end() as int),
                        s as int,
                        table,
                    )
                    &&& final(self).caret_at((s + table.len()) as nat)
                } else {
                    &&& final(self).undo_stack == old(self).undo_stack
                    &&& final(self).buffer@ == insert_at(b, old(self).cursor.char_idx as int, table)
                    &&& final(self).caret_at((old(self).cursor.char_idx + 2) as nat)
                }
            }),
            final(self).is_edited_from(*old(self)),
    {
        let table_chars = build_table(cols, rows, selected_text);
        let table_str = string_of(table_chars.as_slice());
        proof {
            assert(table_chars@.len() >= 2) by {
                reveal_strlit("|");
                reveal_strlit(" ");
            }
        }

        if let Some(range) = self.selection.range() {
            let current_text = self.buffer.to_string();
            self.undo_stack.push(current_text);

            self.buffer.remove(range.start, range.end);
            self.buffer.insert(range.start, table_str.as_str());
            self.cursor.char_idx = range.start + table_chars.len();
            self.selection.clear(self.cursor.char_idx);
        } else {
            self.buffer.insert(self.cursor.char_idx, table_str.as_str());
            self.cursor.char_idx = self.cursor.char_idx + 2;
            self.selection.clear(self.cursor.char_idx);
        }
        self.is_dirty = true;
        self.version = bump(self.version);
    }

    /// Backspace: removes the selection, or the character before the cursor.
    pub fn delete_backward(&mut self)
        ensures
            ({
                let b = old(self).buffer@;
                let c = old(self).cursor.char_idx as int;
                if old(self).has_selection() {
                    let s = old(self).selection.spec_start();
                    &&& final(self).undo_stack.is_recorded(old(self).undo_stack, b)
                    &&& final(self).buffer@ == remove_clamped(
                        b,
                        s as int,
                        old(self).selection.spec_end() as int,
                    )
                    &&& final(self).caret_at(s as nat)
                    &&& final(self).is_edited_from(*old(self))
                } else if c > 0 {
                    &&& final(self).undo_stack.is_recorded(old(self).undo_stack, b)
                    &&& final(self).buffer@ == remove_clamped(b, c - 1, c)
                    &&& final(self).caret_at((c - 1) as nat)
                    &&& final(self).is_edited_from(*old(self))
                } else {
                    *final(self) == *old(self)
                }
            }),
    {
        if let Some(range) = self.selection.range() {
            let current_text = self.buffer.to_string();
            self.undo_stack.push(current_text);

            self.buffer.remove(range.start, range.end);
            self.cursor.char_idx = range.start;
            self.selection.clear(self.cursor.char_idx);
            self.is_dirty = true;
            self.version = bump(self.version);
        } else if self.cursor.char_idx > 0 {
            let current_text = self.buffer.to_string();
            self.undo_stack.push(current_text);

            let start = self.cursor.char_idx - 1;
            let end = self.cursor.char_idx;
            self.buffer.remove(start, end);
            self.cursor.char_idx = start;
            self.selection.clear(self.cursor.char_idx);
            self.is_dirty = true;
            self.version = bump(self.version);
        }
    }

    /// Delete: removes the selection, or the character after the cursor.
    pub fn delete_forward(&mut self)
        ensures
            ({
                let b = old(self).buffer@;
                let c = old(self).cursor.char_idx as int;
                if old(self).has_selection() {
                    let s = old(self).selection.spec_start();
                    &&& final(self).undo_stack.is_recorded(old(self).undo_stack, b)
                    &&& final(self).buffer@ == remove_clamped(
                        b,
                        s as int,
                        old(self).selection.spec_end() as int,
                    )
                    &&& final(self).caret_at(s as nat)
                    &&& final(self).is_edited_from(*old(self))
                } else if c < b.len() {
                    &&& final(self).undo_stack.is_recorded(old(self).undo_stack, b)
                    &&& final(self).buffer@ == b.take(c) + b.skip(c + 1)
                    &&& final(self).caret_at(c as nat)
                    &&& final(self).is_edited_from(*old(self))
                } else {
                    *final(self) == *old(self)
                }
            }),
    {
        if let Some(range) = self.selection.range() {
            let current_text = self.buffer.to_string();
            self.undo_stack.push(current_text);

            self.buffer.remove(range.start, range.end);
            self.cursor.char_idx = range.start;
            self.selection.clear(self.cursor.char_idx);
            self.is_dirty = true;
            self.version = bump(self.version);
        } else if self.cursor.char_idx < self.buffer.len_chars() {
            let current_text = self.buffer.to_string();
            self.undo_stack.push(current_text);

            let start = self.cursor.char_idx;
            let end = self.cursor.char_idx + 1;
            self.buffer.remove(start, end);
            self.selection.clear(self.cursor.char_idx);
            self.is_dirty = true;
            self.version = bump(self.version);
        }
    }

    /// Restores the text before the last undo step, keeping the cursor within it.
    pub fn undo(&mut self)
        ensures
            ({
                let (u, r, restored) = undo::undo_step(
                    old(self).undo_stack.undo_entries(),
                    old(self).undo_stack.redo_entries(),
                    old(self).buffer@,
                );
                &&& final(self).undo_stack.is_undone(
                    old(self).undo_stack,
                    old(self).buffer@,
                    restored,
                )
                &&& restored matches Some(prev) ==> {
                    let c = if old(self).cursor.char_idx <= prev.len() {
                        old(self).cursor.char_idx as nat
                    } else {
                        prev.len()
                    };
                    &&& final(self).buffer@ == prev
                    &&& final(self).caret_at(c)
                    &&& final(self).is_edited_from(*old(self))
                }
                &&& restored is None ==> {
                    &&& final(self).buffer == old(self).buffer
                    &&& final(self).cursor == old(self).cursor
                    &&& final(self).selection == old(self).selection
                    &&& final(self).is_dirty == old(self).is_dirty
                    &&& final(self).version == old(self).version
                }
            }),
            final(self).active_path == old(self).active_path,
            final(self).request_table_dialog == old(self).request_table_dialog,
    {
        let current_text = self.buffer.to_string();
        if let Some(prev) = self.undo_stack.undo(current_text) {
            self.buffer = EditBuffer::from_str(prev.as_str());
            let len = self.buffer.len_chars();
            self.cursor.char_idx = if self.cursor.char_idx < len {
                self.cursor.char_idx
            } else {
                len
            };
            self.selection.clear(self.cursor.char_idx);
            self.is_dirty = true;
            self.version = bump(self.version);
        }
    }

    /// Restores the text undone last, keeping the cursor within it.
    pub fn redo(&mut self)
        ensures
            ({
                let (u, r, restored) = undo::redo_step(
                    old(self).undo_stack.undo_entries(),
                    old(self).undo_stack.redo_entries(),
                    old(self).buffer@,
                );
                &&& final(self).undo_stack.is_redone(
                    old(self).undo_stack,
                    old(self).buffer@,
                    restored,
                )
                &&& restored matches Some(next) ==> {
                    let c = if old(self).cursor.char_idx <= next.len() {
                        old(self).cursor.char_idx as nat
                    } else {
                        next.len()
                    };
                    &&& final(self).buffer@ == next
                    &&& final(self).caret_at(c)
                    &&& final(self).is_edited_from(*old(self))
                }
                &&& restored is None ==> {
                    &&& final(self).buffer == old(self).buffer
                    &&& final(self).cursor == old(self).cursor
                    &&& final(self).selection == old(self).selection
                    &&& final(self).is_dirty == old(self).is_dirty
                    &&& final(self).version == old(self).version
                }
            }),
            final(self).active_path == old(self).active_path,
            final(self).request_table_dialog == old(self).request_table_dialog,
    {
        let current_text = self.buffer.to_string();
        if let Some(next) = self.undo_stack.redo(current_text) {
            self.buffer = EditBuffer::from_str(next.as_str());
            let len = self.buffer.len_chars();
            self.cursor.char_idx = if self.cursor.char_idx < len {
                self.cursor.char_idx
            } else {
                len
            };
            self.selection.clear(self.cursor.char_idx);
            self.is_dirty = true;
            self.version = bump(self.version);
        }
    }
}

} // verus!
