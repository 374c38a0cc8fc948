//! Cut, copy and paste on the editor text; the clipboard itself is the caller's.
use vstd::prelude::*;
use crate::editor::buffer::{insert_at, remove_clamped};
use crate::editor::renderer::CursorRange;
use crate::editor::Editor;
use crate::text::chars_of;

verus! {

/// The ends of a cursor range in order.
pub open spec fn sorted(r: CursorRange) -> (nat, nat) {
    if r.primary <= r.secondary {
        (r.primary as nat, r.secondary as nat)
    } else {
        (r.secondary as nat, r.primary as nat)
    }
}

fn sorted_ends(r: CursorRange) -> (e: (usize, usize))
    ensures
        (e.0 as nat, e.1 as nat) == sorted(r),
{
    if r.primary <= r.secondary {
        (r.primary, r.secondary)
    } else {
        (r.secondary, r.primary)
    }
}

/// The selected text of `range`, for Copy; `None` when nothing is selected.
pub fn copy_selection(editor: &Editor, range: CursorRange) -> (r: Option<String>)
    requires
        sorted(range).0 < sorted(range).1 ==> sorted(range).1 <= editor.buffer@.len(),
    ensures
        match r {
            Some(t) => sorted(range).0 < sorted(range).1 && t@ == editor.buffer@.subrange(
                sorted(range).0 as int,
                sorted(range).1 as int,
            ),
            None => sorted(range).0 >= sorted(range).1,
        },
{
    let (start, end) = sorted_ends(range);
    if start < end {
        Some(editor.buffer.slice_to_string(start, end))
    } else {
        None
    }
}

/// Cut: takes the selected text out of the document and returns it with the
/// collapsed cursor range; the change is not recorded for undo. Nothing happens
/// when nothing is selected.
pub fn cut_selection(editor: &mut Editor, content_buffer: &mut String, range: CursorRange) -> (r: Option<(String, CursorRange)>)
    requires
        sorted(range).0 < sorted(range).1 ==> sorted(range).1 <= old(editor).buffer@.len(),
    ensures
        sorted(range).0 >= sorted(range).1 ==> r is None && *final(editor) == *old(editor) && *final(content_buffer)
            == *old(content_buffer),
        sorted(range).0 < sorted(range).1 ==> {
            let (a, b) = sorted(range);
            &&& r matches Some((t, c)) && t@ == old(editor).buffer@.subrange(a as int, b as int) && c
                == CursorRange { primary: a as usize, secondary: a as usize }
            &&& final(editor).buffer@ == old(editor).buffer@.take(a as int) + old(editor).buffer@.skip(b as int)
            &&& final(editor).caret_at(a)
            &&& final(editor).is_dirty
            &&& final(content_buffer)@ == final(editor).buffer@
            &&& *final(editor) == (Editor {
                buffer: final(editor).buffer,
                cursor: final(editor).cursor,
                selection: final(editor).selection,
                is_dirty: true,
                ..*old(editor)
            })
        },
{
    let (start, end) = sorted_ends(range);
    if start >= end {
        return None;
    }
    let text = editor.buffer.slice_to_string(start, end);
    editor.buffer.remove(start, end);
    editor.cursor.char_idx = start;
    editor.selection.clear(start);
    editor.is_dirty = true;
    *content_buffer = editor.buffer.to_string();
    Some((text, CursorRange::two(start, start)))
}

/// Paste: puts `text` in place of the selection of `range` and returns the
/// collapsed cursor range after it; the change is not recorded for undo.
pub fn paste_over(editor: &mut Editor, content_buffer: &mut String, range: CursorRange, text: &str) -> (r: CursorRange)
    requires
        sorted(range).0 + text@.len() <= usize::MAX,
    ensures
        ({
            let (a, b) = sorted(range);
            let c = a + text@.len();
            &&& final(editor).buffer@ == insert_at(remove_clamped(old(editor).buffer@, a as int, b as int), a as int, text@)
            &&& final(editor).caret_at(c)
            &&& r == CursorRange { primary: c as usize, secondary: c as usize }
            &&& final(content_buffer)@ == final(editor).buffer@
            &&& *final(editor) == (Editor {
                buffer: final(editor).buffer,
                cursor: final(editor).cursor,
                selection: final(editor).selection,
                is_dirty: true,
                ..*old(editor)
            })
        }),
{
    let (start, end) = sorted_ends(range);
    if start < end {
        editor.buffer.remove(start, end);
    }
    editor.buffer.insert(start, text);
    let count = chars_of(text).len();
    let c = start + count;
    editor.cursor.char_idx = c;
    editor.selection.clear(c);
    editor.is_dirty = true;
    *content_buffer = editor.buffer.to_string();
    CursorRange::two(c, c)
}

/// Pasting the text that was cut back where it was cut restores the document:
/// Cut leaves `take(a) + skip(b)` with the cursor at `a`, and Paste of the cut
/// text there puts it back.
pub proof fn law_cut_then_paste_restores(s: Seq<char>, a: nat, b: nat)
    requires
        a < b <= s.len(),
    ensures
        insert_at(
            remove_clamped(s.take(a as int) + s.skip(b as int), a as int, a as int),
            a as int,
            s.subrange(a as int, b as int),
        ) == s,
{
    let cut = s.take(a as int) + s.skip(b as int);
    assert(remove_clamped(cut, a as int, a as int) == cut);
    assert(cut.take(a as int) =~= s.take(a as int));
    assert(cut.skip(a as int) =~= s.skip(b as int));
    assert(s.take(a as int) + s.subrange(a as int, b as int) + s.skip(b as int) =~= s);
}

} // verus!
