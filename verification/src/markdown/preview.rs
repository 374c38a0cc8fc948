//! The text side of the Markdown preview: which text it shows, and how a task
//! box ticked in the preview is written back to the document.
use vstd::prelude::*;
use crate::editor::{next_version, Editor};
use crate::markdown::parser::{converted_from, preprocess_wiki_links};
use crate::text::{
    chars_of, find_chars, is_white, leading_white_from, find_from, has_prefix, join_lines, join_rows, lines_of, split_lines,
    starts_with, str_equal, string_of, trim_start, trim_start_chars, char_rows,
};

verus! {

/// Whether a line of the preview source went from an open to a ticked task box,
/// or back, with `-` or `*` as its bullet.
pub open spec fn is_toggle(old_line: Seq<char>, new_line: Seq<char>) -> bool {
    let o = trim_start(old_line);
    let n = trim_start(new_line);
    ||| starts_with(o, seq!['-', ' ', '[', ' ', ']']) && starts_with(n, seq!['-', ' ', '[', 'x', ']'])
    ||| starts_with(o, seq!['-', ' ', '[', 'x', ']']) && starts_with(n, seq!['-', ' ', '[', ' ', ']'])
    ||| starts_with(o, seq!['*', ' ', '[', ' ', ']']) && starts_with(n, seq!['*', ' ', '[', 'x', ']'])
    ||| starts_with(o, seq!['*', ' ', '[', 'x', ']']) && starts_with(n, seq!['*', ' ', '[', ' ', ']'])
}

/// Ticking and unticking are alike: a line change is a box toggle exactly when the
/// change back is one.
pub proof fn law_toggle_goes_both_ways(old_line: Seq<char>, new_line: Seq<char>)
    ensures
        is_toggle(old_line, new_line) <==> is_toggle(new_line, old_line),
{
}

/// A task line with a `-` or `*` bullet whose box mark changes between a space and
/// `x`, in either direction, is a toggle whatever follows the box; one whose mark
/// stays is not.
pub proof fn law_box_mark_change_is_toggle(b: char, m1: char, m2: char, r1: Seq<char>, r2: Seq<char>)
    requires
        b == '-' || b == '*',
        m1 == ' ' || m1 == 'x',
        m2 == ' ' || m2 == 'x',
    ensures
        is_toggle(seq![b, ' ', '[', m1, ']'] + r1, seq![b, ' ', '[', m2, ']'] + r2) <==> m1 != m2,
{
    let o = seq![b, ' ', '[', m1, ']'] + r1;
    let n = seq![b, ' ', '[', m2, ']'] + r2;
    assert(!is_white(b));
    assert(leading_white_from(o, 0) == 0);
    assert(leading_white_from(n, 0) == 0);
    assert(trim_start(o) =~= o);
    assert(trim_start(n) =~= n);
    assert(o.take(5) =~= seq![b, ' ', '[', m1, ']']);
    assert(n.take(5) =~= seq![b, ' ', '[', m2, ']']);
}

/// `line` with the box mark at position `i` flipped between `x` and a space.
pub open spec fn flip_at(line: Seq<char>, i: nat) -> Seq<char> {
    if i < line.len() {
        line.update(
            i as int,
            if line[i as int] == 'x' {
                ' '
            } else {
                'x'
            },
        )
    } else {
        line
    }
}

/// `line` with the mark of its first `- [` box flipped, or else of its first `* [` box.
pub open spec fn toggle_box(line: Seq<char>) -> Seq<char> {
    match find_from(line, seq!['-', ' ', '['], 0) {
        Some(p) => flip_at(line, p + 3),
        None => match find_from(line, seq!['*', ' ', '['], 0) {
            Some(p) => flip_at(line, p + 3),
            None => line,
        },
    }
}

/// A document line after its preview line changed from `old_line` to `new_line`.
pub open spec fn written_back_line(line: Seq<char>, old_line: Seq<char>, new_line: Seq<char>) -> Seq<char> {
    if old_line != new_line && is_toggle(old_line, new_line) {
        toggle_box(line)
    } else {
        line
    }
}

/// The document after the preview source went from `before` to `after`, line by
/// line, when the three have as many lines; `None` otherwise.
pub open spec fn written_back(content: Seq<char>, before: Seq<char>, after: Seq<char>) -> Option<Seq<char>> {
    let c = lines_of(content);
    let b = lines_of(before);
    let a = lines_of(after);
    if b.len() == a.len() && b.len() == c.len() {
        Some(join_lines(Seq::new(c.len(), |i: int| written_back_line(c[i], b[i], a[i]))))
    } else {
        None
    }
}

/// Flips the box mark at `i` (see `flip_at`).
fn flip_mark(line: &mut Vec<char>, i: usize)
    ensures
        final(line)@ == flip_at(old(line)@, i as nat),
{
    if i < line.len() {
        let c = if line[i] == 'x' {
            ' '
        } else {
            'x'
        };
        line.set(i, c);
    }
}

/// Computes `written_back_line`.
fn write_back_line(line: &[char], old_line: &[char], new_line: &[char]) -> (r: Vec<char>)
    ensures
        r@ == written_back_line(line@, old_line@, new_line@),
{
    let mut out = crate::text::sub_chars(line, 0, line.len());
    proof {
        assert(out@ =~= line@);
    }
    if crate::text::chars_equal(old_line, new_line) {
        return out;
    }
    let o = trim_start_chars(old_line);
    let n = trim_start_chars(new_line);
    let toggle = (has_prefix(o.as_slice(), "- [ ]") && has_prefix(n.as_slice(), "- [x]"))
        || (has_prefix(o.as_slice(), "- [x]") && has_prefix(n.as_slice(), "- [ ]"))
        || (has_prefix(o.as_slice(), "* [ ]") && has_prefix(n.as_slice(), "* [x]"))
        || (has_prefix(o.as_slice(), "* [x]") && has_prefix(n.as_slice(), "* [ ]"));
    proof {
        reveal_strlit("- [ ]");
        reveal_strlit("- [x]");
        reveal_strlit("* [ ]");
        reveal_strlit("* [x]");
        assert("- [ ]"@ =~= seq!['-', ' ', '[', ' ', ']']);
        assert("- [x]"@ =~= seq!['-', ' ', '[', 'x', ']']);
        assert("* [ ]"@ =~= seq!['*', ' ', '[', ' ', ']']);
        assert("* [x]"@ =~= seq!['*', ' ', '[', 'x', ']']);
    }
    if !toggle {
        return out;
    }
    proof {
        reveal_strlit("- [");
        reveal_strlit("* [");
        assert("- ["@ =~= seq!['-', ' ', '[']);
        assert("* ["@ =~= seq!['*', ' ', '[']);
    }
    match find_chars(line, "- [") {
        Some(p) => {
            if p < line.len() - 2 {
                flip_mark(&mut out, p + 3);
            } else {
                proof {
                    assert(flip_at(line@, (p + 3) as nat) == line@);
                }
            }
        },
        None => match find_chars(line, "* [") {
            Some(p) => {
                if p < line.len() - 2 {
                    flip_mark(&mut out, p + 3);
                } else {
                    proof {
                        assert(flip_at(line@, (p + 3) as nat) == line@);
                    }
                }
            },
            None => {},
        },
    }
    out
}

/// Writes task boxes ticked in the preview back into the document text `content`:
/// `before` and `after` are the preview source before and after the click (see
/// `written_back`).
pub fn checkbox_write_back(content: &str, before: &str, after: &str) -> (r: Option<String>)
    ensures
        match r {
            Some(t) => written_back(content@, before@, after@) == Some(t@),
            None => written_back(content@, before@, after@) is None,
        },
{
    let c = split_lines(chars_of(content).as_slice());
    let b = split_lines(chars_of(before).as_slice());
    let a = split_lines(chars_of(after).as_slice());
    if !(b.len() == a.len() && b.len() == c.len()) {
        return None;
    }
    let ghost cl = lines_of(content@);
    let ghost bl = lines_of(before@);
    let ghost al = lines_of(after@);
    let ghost want = Seq::new(cl.len(), |i: int| written_back_line(cl[i], bl[i], al[i]));
    let mut rows: Vec<Vec<char>> = Vec::new();
    let mut i: usize = 0;
    while i < c.len()
        invariant
            i <= c@.len(),
            c@.len() == b@.len(),
            c@.len() == a@.len(),
            char_rows(c@) == cl,
            char_rows(b@) == bl,
            char_rows(a@) == al,
            want == Seq::new(cl.len(), |k: int| written_back_line(cl[k], bl[k], al[k])),
            char_rows(rows@) == want.take(i as int),
        decreases c@.len() - i,
    {
        let line = write_back_line(c[i].as_slice(), b[i].as_slice(), a[i].as_slice());
        let ghost before_rows = char_rows(rows@);
        rows.push(line);
        proof {
            assert(cl[i as int] == c@[i as int]@);
            assert(bl[i as int] == b@[i as int]@);
            assert(al[i as int] == a@[i as int]@);
            assert(char_rows(rows@) =~= before_rows.push(line@));
            assert(want.take(i + 1) =~= want.take(i as int).push(want[i as int]));
        }
        i += 1;
    }
    proof {
        assert(want.take(i as int) =~= want);
    }
    let joined = join_rows(&rows);
    Some(string_of(joined.as_slice()))
}

/// The text the preview shows and the source it renders.
pub struct PreviewText {
    pub cached_content: String,
    pub processed_content: String,
    pub last_version: usize,
}

impl PreviewText {
    pub fn new() -> (r: Self)
        ensures
            r.cached_content@ == Seq::<char>::empty(),
            r.processed_content@ == Seq::<char>::empty(),
            r.last_version == usize::MAX,
    {
        PreviewText { cached_content: String::new(), processed_content: String::new(), last_version: usize::MAX }
    }

    /// Takes the editor's text again when another document is shown
    /// (`path_changed`) or the editor moved to another version; says whether it did.
    pub fn refresh(&mut self, path_changed: bool, editor: &Editor) -> (r: bool)
        ensures
            r == (path_changed || editor.version != old(self).last_version),
            r ==> {
                &&& final(self).cached_content@ == editor.buffer@
                &&& final(self).processed_content@ == converted_from(editor.buffer@, 0)
                &&& final(self).last_version == editor.version
            },
            !r ==> *final(self) == *old(self),
    {
        if path_changed || editor.version != self.last_version {
            self.cached_content = editor.buffer.to_string();
            self.processed_content = preprocess_wiki_links(self.cached_content.as_str());
            self.last_version = editor.version;
            true
        } else {
            false
        }
    }

    /// After the preview changed its source from `before` to `after` (a task box
    /// was clicked), writes the change back into the document and the editor.
    pub fn apply_checkbox_changes(&mut self, before: &str, after: &str, editor: &mut Editor)
        ensures
            before@ == after@ || written_back(old(self).cached_content@, before@, after@) is None
                ==> *final(self) == *old(self) && *final(editor) == *old(editor),
            before@ != after@ ==> match written_back(old(self).cached_content@, before@, after@) {
                Some(t) => {
                    &&& final(self).cached_content@ == t
                    &&& final(self).processed_content@ == converted_from(t, 0)
                    &&& final(editor).buffer@ == t
                    &&& final(editor).is_edited_from(*old(editor))
                    &&& final(editor).caret_at(0)
                    &&& final(editor).undo_stack.undo_entries() == Seq::<Seq<char>>::empty()
                    &&& final(editor).undo_stack.redo_entries() == Seq::<Seq<char>>::empty()
                    &&& final(self).last_version == final(editor).version
                },
                None => true,
            },
    {
        if str_equal(before, after) {
            return ;
        }
        match checkbox_write_back(self.cached_content.as_str(), before, after) {
            Some(t) => {
                self.cached_content = t;
                self.processed_content = preprocess_wiki_links(self.cached_content.as_str());
                editor.set_text(self.cached_content.as_str());
                self.last_version = editor.version;
            },
            None => {},
        }
    }
}

} // verus!
