//! Undo/redo history with word-by-word grouping of typed edits.
use vstd::prelude::*;
use crate::text::{chars_of, is_alnum, is_alphanumeric, is_white, is_whitespace, string_of, sub_chars};

verus! {

/// The kind of a single edit, used to group consecutive edits into one undo step.
#[derive(Debug, Clone, Copy, PartialEq, Eq, Structural)]
pub enum EditKind {
    Unset,
    InsertWord,
    InsertSpace,
    InsertPunctuation,
    DeleteWord,
    DeleteSpace,
    DeletePunctuation,
    Replace,
    Other,
}

/// Whether an edit inserted, deleted or replaced text.
#[derive(Debug, Clone, Copy, PartialEq, Eq, Structural)]
pub enum EditType {
    Insert,
    Delete,
    Replace,
}

// ---------------------------------------------------------------------------
// The difference between two texts

/// Length of the longest common prefix of `a` and `b`, counting from position `i`
/// on (positions before `i` are taken to agree).
pub open spec fn prefix_from(a: Seq<char>, b: Seq<char>, i: nat) -> nat
    decreases a.len() - i,
{
    if i < a.len() && i < b.len() && a[i as int] == b[i as int] {
        prefix_from(a, b, i + 1)
    } else {
        i
    }
}

/// Length of the longest common prefix of `a` and `b`.
pub open spec fn common_prefix_len(a: Seq<char>, b: Seq<char>) -> nat {
    prefix_from(a, b, 0)
}

/// Length of the longest common suffix of `a` and `b` that does not reach into the
/// first `p` characters of either, counting from `j` characters on.
pub open spec fn suffix_from(a: Seq<char>, b: Seq<char>, p: nat, j: nat) -> nat
    decreases a.len() - p - j,
{
    if j + p < a.len() && j + p < b.len() && a[a.len() - 1 - j] == b[b.len() - 1 - j] {
        suffix_from(a, b, p, j + 1)
    } else {
        j
    }
}

/// Length of the longest common suffix of `a` and `b` left after their common prefix.
pub open spec fn common_suffix_len(a: Seq<char>, b: Seq<char>) -> nat {
    suffix_from(a, b, common_prefix_len(a, b), 0)
}

/// The single edit that turns `old` into `new`: the position where they start to
/// differ, the characters of `old` that were removed there and the characters of
/// `new` that took their place. `None` when the two texts are equal.
pub open spec fn char_difference(old: Seq<char>, new: Seq<char>) -> Option<
    (EditType, nat, Seq<char>, Seq<char>),
> {
    let p = common_prefix_len(old, new);
    let s = common_suffix_len(old, new);
    let deleted = old.subrange(p as int, old.len() - s);
    let inserted = new.subrange(p as int, new.len() - s);
    if deleted.len() == 0 && inserted.len() == 0 {
        None
    } else {
        let t = if deleted.len() == 0 {
            EditType::Insert
        } else if inserted.len() == 0 {
            EditType::Delete
        } else {
            EditType::Replace
        };
        Some((t, p, deleted, inserted))
    }
}

/// The mathematical value of a computed difference.
pub open spec fn difference_view(r: Option<(EditType, usize, String, String)>) -> Option<
    (EditType, nat, Seq<char>, Seq<char>),
> {
    match r {
        Some((t, p, d, i)) => Some((t, p as nat, d@, i@)),
        None => None,
    }
}

proof fn lemma_prefix_from(a: Seq<char>, b: Seq<char>, i: nat)
    requires
        i <= a.len(),
        i <= b.len(),
    ensures
        i <= prefix_from(a, b, i) <= a.len(),
        prefix_from(a, b, i) <= b.len(),
        forall|k: int| i <= k < prefix_from(a, b, i) ==> a[k] == b[k],
        prefix_from(a, b, i) == a.len() || prefix_from(a, b, i) == b.len() || a[prefix_from(
            a,
            b,
            i,
        ) as int] != b[prefix_from(a, b, i) as int],
    decreases a.len() - i,
{
    if i < a.len() && i < b.len() && a[i as int] == b[i as int] {
        lemma_prefix_from(a, b, i + 1);
    }
}

/// `a` and `b` agree at the `k`-th position counted from their ends.
spec fn agree_from_end(a: Seq<char>, b: Seq<char>, k: int) -> bool {
    a[a.len() - 1 - k] == b[b.len() - 1 - k]
}

proof fn lemma_suffix_from(a: Seq<char>, b: Seq<char>, p: nat, j: nat)
    requires
        p + j <= a.len(),
        p + j <= b.len(),
    ensures
        j <= suffix_from(a, b, p, j),
        p + suffix_from(a, b, p, j) <= a.len(),
        p + suffix_from(a, b, p, j) <= b.len(),
        forall|k: int| j <= k < suffix_from(a, b, p, j) ==> #[trigger] agree_from_end(a, b, k),
    decreases a.len() - p - j,
{
    if j + p < a.len() && j + p < b.len() && a[a.len() - 1 - j] == b[b.len() - 1 - j] {
        lemma_suffix_from(a, b, p, j + 1);
    }
}

/// Facts about the common prefix and suffix of two texts.
proof fn lemma_prefix_suffix(a: Seq<char>, b: Seq<char>)
    ensures
        common_prefix_len(a, b) + common_suffix_len(a, b) <= a.len(),
        common_prefix_len(a, b) + common_suffix_len(a, b) <= b.len(),
        a.take(common_prefix_len(a, b) as int) == b.take(common_prefix_len(a, b) as int),
        a.skip(a.len() - common_suffix_len(a, b)) == b.skip(b.len() - common_suffix_len(a, b)),
        common_prefix_len(a, b) == a.len() || common_prefix_len(a, b) == b.len() || a[
            common_prefix_len(a, b) as int] != b[common_prefix_len(a, b) as int],
{
    lemma_prefix_from(a, b, 0);
    let p = common_prefix_len(a, b);
    lemma_suffix_from(a, b, p, 0);
    let s = common_suffix_len(a, b);
    assert(a.take(p as int) =~= b.take(p as int));
    assert forall|k: int| 0 <= k < s implies #[trigger] a.skip(a.len() - s)[k] == b.skip(
        b.len() - s,
    )[k] by {
        let m = s - 1 - k;
        assert(agree_from_end(a, b, m));
    }
    assert(a.skip(a.len() - s) =~= b.skip(b.len() - s));
}

/// The difference of two texts is empty exactly when they are equal.
pub proof fn law_difference_none_iff_equal(old: Seq<char>, new: Seq<char>)
    ensures
        char_difference(old, new) is None <==> old == new,
{
    lemma_prefix_suffix(old, new);
    let p = common_prefix_len(old, new);
    let s = common_suffix_len(old, new);
    if old == new {
        assert(p == old.len());
    }
    if char_difference(old, new) is None {
        assert(old.len() == p + s);
        assert(new.len() == p + s);
        assert(old =~= old.take(p as int) + old.skip(old.len() - s));
        assert(new =~= new.take(p as int) + new.skip(new.len() - s));
    }
}

/// Applying the difference of `old` and `new` to `old` gives `new`, and undoing it
/// on `new` gives back `old`.
pub proof fn law_difference_rebuilds(old: Seq<char>, new: Seq<char>)
    ensures
        char_difference(old, new) matches Some((t, p, deleted, inserted)) ==> {
            &&& p + deleted.len() <= old.len()
            &&& p + inserted.len() <= new.len()
            &&& old.take(p as int) + inserted + old.skip((p + deleted.len()) as int) == new
            &&& new.take(p as int) + deleted + new.skip((p + inserted.len()) as int) == old
            &&& (t == EditType::Insert <==> deleted.len() == 0)
            &&& (t == EditType::Delete <==> inserted.len() == 0)
        },
{
    lemma_prefix_suffix(old, new);
    let p = common_prefix_len(old, new);
    let s = common_suffix_len(old, new);
    let deleted = old.subrange(p as int, old.len() - s);
    let inserted = new.subrange(p as int, new.len() - s);
    assert(old.skip((p + deleted.len()) as int) =~= old.skip(old.len() - s));
    assert(new.skip((p + inserted.len()) as int) =~= new.skip(new.len() - s));
    assert(old.take(p as int) + inserted + old.skip((p + deleted.len()) as int) =~= new);
    assert(new.take(p as int) + deleted + new.skip((p + inserted.len()) as int) =~= old);
}

/// Finds the single contiguous edit that turns `old_str` into `new_str`: its type,
/// the character index where it starts, the deleted text and the inserted text.
pub fn find_char_difference(old_str: &str, new_str: &str) -> (r: Option<
    (EditType, usize, String, String),
>)
    ensures
        difference_view(r) == char_difference(old_str@, new_str@),
{
    let old_chars = chars_of(old_str);
    let new_chars = chars_of(new_str);
    let ghost a = old_str@;
    let ghost b = new_str@;

    let mut prefix_len: usize = 0;
    while prefix_len < old_chars.len() && prefix_len < new_chars.len()
        && old_chars[prefix_len] == new_chars[prefix_len]
        invariant
            old_chars@ == a,
            new_chars@ == b,
            prefix_len <= a.len(),
            prefix_len <= b.len(),
            prefix_from(a, b, prefix_len as nat) == common_prefix_len(a, b),
        decreases a.len() - prefix_len,
    {
        prefix_len += 1;
    }

    let mut suffix_len: usize = 0;
    while suffix_len < (old_chars.len() - prefix_len) && suffix_len < (new_chars.len()
        - prefix_len) && old_chars[old_chars.len() - 1 - suffix_len] == new_chars[new_chars.len()
        - 1 - suffix_len]
        invariant
            old_chars@ == a,
            new_chars@ == b,
            prefix_len == common_prefix_len(a, b),
            prefix_len + suffix_len <= a.len(),
            prefix_len + suffix_len <= b.len(),
            suffix_from(a, b, prefix_len as nat, suffix_len as nat) == common_suffix_len(a, b),
        decreases a.len() - prefix_len - suffix_len,
    {
        suffix_len += 1;
    }

    let del_end = old_chars.len() - suffix_len;
    let ins_end = new_chars.len() - suffix_len;
    if prefix_len == del_end && prefix_len == ins_end {
        return None;
    }
    let deleted_chars = sub_chars(old_chars.as_slice(), prefix_len, del_end);
    let inserted_chars = sub_chars(new_chars.as_slice(), prefix_len, ins_end);
    let deleted = string_of(deleted_chars.as_slice());
    let inserted = string_of(inserted_chars.as_slice());

    let edit_type = if deleted_chars.len() == 0 {
        EditType::Insert
    } else if inserted_chars.len() == 0 {
        EditType::Delete
    } else {
        EditType::Replace
    };
    Some((edit_type, prefix_len, deleted, inserted))
}

// ---------------------------------------------------------------------------
// Classifying edits

/// The class of a single character: space, part of a word, or punctuation.
pub open spec fn char_class(c: char) -> EditKind {
    if is_white(c) {
        EditKind::InsertSpace
    } else if is_alnum(c) || c == '_' {
        EditKind::InsertWord
    } else {
        EditKind::InsertPunctuation
    }
}

/// The class shared by every character of `s`; `None` for empty text and `Other`
/// for text that mixes classes.
pub open spec fn text_class(s: Seq<char>) -> EditKind {
    if s.len() == 0 {
        EditKind::Unset
    } else if forall|k: int| 0 <= k < s.len() ==> #[trigger] char_class(s[k]) == char_class(s[0]) {
        char_class(s[0])
    } else {
        EditKind::Other
    }
}

/// The kind of an edit of type `t` whose changed text is `s`.
pub open spec fn edit_kind(t: EditType, s: Seq<char>) -> EditKind {
    match t {
        EditType::Insert => match text_class(s) {
            EditKind::InsertWord => EditKind::InsertWord,
            EditKind::InsertSpace => EditKind::InsertSpace,
            EditKind::InsertPunctuation => EditKind::InsertPunctuation,
            _ => EditKind::Other,
        },
        EditType::Delete => match text_class(s) {
            EditKind::InsertWord => EditKind::DeleteWord,
            EditKind::InsertSpace => EditKind::DeleteSpace,
            EditKind::InsertPunctuation => EditKind::DeletePunctuation,
            _ => EditKind::Other,
        },
        EditType::Replace => EditKind::Replace,
    }
}

fn classify_char(c: char) -> (r: EditKind)
    ensures
        r == char_class(c),
{
    if is_whitespace(c) {
        EditKind::InsertSpace
    } else if is_alphanumeric(c) || c == '_' {
        EditKind::InsertWord
    } else {
        EditKind::InsertPunctuation
    }
}

fn classify_chars(s: &[char]) -> (r: EditKind)
    ensures
        r == text_class(s@),
{
    if s.len() == 0 {
        return EditKind::Unset;
    }
    let first_kind = classify_char(s[0]);
    let mut i: usize = 1;
    while i < s.len()
        invariant
            1 <= i <= s@.len(),
            first_kind == char_class(s@[0]),
            forall|k: int| 0 <= k < i ==> #[trigger] char_class(s@[k]) == char_class(s@[0]),
        decreases s@.len() - i,
    {
        if classify_char(s[i]) != first_kind {
            return EditKind::Other;
        }
        i += 1;
    }
    first_kind
}

fn classify_str(s: &str) -> (r: EditKind)
    ensures
        r == text_class(s@),
{
    let cs = chars_of(s);
    classify_chars(cs.as_slice())
}

fn determine_edit_kind(edit_type: &EditType, text: &str) -> (r: EditKind)
    ensures
        r == edit_kind(*edit_type, text@),
{
    let base_kind = classify_str(text);
    match edit_type {
        EditType::Insert => match base_kind {
            EditKind::InsertWord => EditKind::InsertWord,
            EditKind::InsertSpace => EditKind::InsertSpace,
            EditKind::InsertPunctuation => EditKind::InsertPunctuation,
            _ => EditKind::Other,
        },
        EditType::Delete => match base_kind {
            EditKind::InsertWord => EditKind::DeleteWord,
            EditKind::InsertSpace => EditKind::DeleteSpace,
            EditKind::InsertPunctuation => EditKind::DeletePunctuation,
            _ => EditKind::Other,
        },
        EditType::Replace => EditKind::Replace,
    }
}

// ---------------------------------------------------------------------------
// The history

/// Whether an edit of type `t` at `start` over `len` characters continues the
/// previous edit, which was at `last_idx` over `last_len` characters.
pub open spec fn continues_edit(last_idx: nat, last_len: nat, start: nat, len: nat, t: EditType) -> bool {
    match t {
        EditType::Insert => start == last_idx + last_len,
        EditType::Delete => start + len == last_idx || start == last_idx,
        EditType::Replace => false,
    }
}

/// The stacks after recording `text` as an undo point: it is pushed unless it is
/// already the newest entry, and pushing forgets every redo entry.
pub open spec fn record_step(undo: Seq<Seq<char>>, redo: Seq<Seq<char>>, text: Seq<char>) -> (
    Seq<Seq<char>>,
    Seq<Seq<char>>,
) {
    if undo.len() > 0 && undo.last() == text {
        (undo, redo)
    } else {
        (undo.push(text), Seq::empty())
    }
}

/// The stacks and the restored text after an undo from `current`.
pub open spec fn undo_step(undo: Seq<Seq<char>>, redo: Seq<Seq<char>>, current: Seq<char>) -> (
    Seq<Seq<char>>,
    Seq<Seq<char>>,
    Option<Seq<char>>,
) {
    if undo.len() > 0 {
        (undo.drop_last(), redo.push(current), Some(undo.last()))
    } else {
        (undo, redo, None)
    }
}

/// The stacks and the restored text after a redo from `current`.
pub open spec fn redo_step(undo: Seq<Seq<char>>, redo: Seq<Seq<char>>, current: Seq<char>) -> (
    Seq<Seq<char>>,
    Seq<Seq<char>>,
    Option<Seq<char>>,
) {
    if redo.len() > 0 {
        (undo.push(current), redo.drop_last(), Some(redo.last()))
    } else {
        (undo, redo, None)
    }
}

/// The text of an optional string.
pub open spec fn text_view(r: Option<String>) -> Option<Seq<char>> {
    match r {
        Some(s) => Some(s@),
        None => None,
    }
}

/// The texts of a stack of strings.
pub open spec fn texts(v: Seq<String>) -> Seq<Seq<char>> {
    v.map_values(|s: String| s@)
}

/// Undo and redo stacks of whole-document snapshots.
pub struct UndoStack {
    undo_stack: Vec<String>,
    redo_stack: Vec<String>,
    last_edit_kind: EditKind,
    last_edit_idx: usize,
    last_edit_len: usize,
}

impl UndoStack {
    /// The snapshots that undo restores, oldest first.
    pub closed spec fn undo_entries(&self) -> Seq<Seq<char>> {
        texts(self.undo_stack@)
    }

    /// The snapshots that redo restores, oldest first.
    pub closed spec fn redo_entries(&self) -> Seq<Seq<char>> {
        texts(self.redo_stack@)
    }

    /// The kind of the previous grouped edit (`None` after a reset).
    pub closed spec fn last_kind(&self) -> EditKind {
        self.last_edit_kind
    }

    /// Where the previous grouped edit started.
    pub closed spec fn last_idx(&self) -> nat {
        self.last_edit_idx as nat
    }

    /// How many characters the previous grouped edit changed.
    pub closed spec fn last_len(&self) -> nat {
        self.last_edit_len as nat
    }

    /// No edit is being grouped.
    pub open spec fn tracking_reset(&self) -> bool {
        self.last_kind() == EditKind::Unset && self.last_idx() == 0 && self.last_len() == 0
    }

    /// `self` is `before` with `text` recorded as an undo point and grouping ended.
    pub open spec fn is_recorded(self, before: UndoStack, text: Seq<char>) -> bool {
        &&& (self.undo_entries(), self.redo_entries()) == record_step(
            before.undo_entries(),
            before.redo_entries(),
            text,
        )
        &&& self.tracking_reset()
    }

    /// `self` is `before` after an undo from `current` that restored `restored`.
    pub open spec fn is_undone(self, before: UndoStack, current: Seq<char>, restored: Option<Seq<char>>) -> bool {
        let (u, rd, res) = undo_step(before.undo_entries(), before.redo_entries(), current);
        &&& self.undo_entries() == u
        &&& self.redo_entries() == rd
        &&& res == restored
        &&& self.tracking_reset()
    }

    /// `self` is `before` after a redo from `current` that restored `restored`.
    pub open spec fn is_redone(self, before: UndoStack, current: Seq<char>, restored: Option<Seq<char>>) -> bool {
        let (u, rd, res) = redo_step(before.undo_entries(), before.redo_entries(), current);
        &&& self.undo_entries() == u
        &&& self.redo_entries() == rd
        &&& res == restored
        &&& self.tracking_reset()
    }

    /// `self` is `before` after recording the change from `old_text` to `new_text`:
    /// nothing changes when the texts are equal; otherwise `old_text` becomes an
    /// undo point when the edit starts a new group, and the edit is remembered for
    /// grouping the next one.
    pub open spec fn is_change_recorded(self, before: UndoStack, old_text: Seq<char>, new_text: Seq<char>) -> bool {
        &&& char_difference(old_text, new_text) is None ==> self == before
        &&& char_difference(old_text, new_text) matches Some((t, p, deleted, inserted)) ==> {
            let changed = if t == EditType::Insert {
                inserted
            } else {
                deleted
            };
            let kind = edit_kind(t, changed);
            let boundary = before.last_kind() == EditKind::Unset || kind == EditKind::Other
                || kind == EditKind::Replace || before.last_kind() != kind || !continues_edit(
                before.last_idx(),
                before.last_len(),
                p,
                changed.len(),
                t,
            );
            &&& boundary ==> (self.undo_entries(), self.redo_entries()) == record_step(
                before.undo_entries(),
                before.redo_entries(),
                old_text,
            )
            &&& !boundary ==> self.undo_entries() == before.undo_entries()
                && self.redo_entries() == before.redo_entries()
            &&& self.last_kind() == kind
            &&& self.last_idx() == p
            &&& self.last_len() == changed.len()
        }
    }

    pub fn new() -> (s: Self)
        ensures
            s.undo_entries() == Seq::<Seq<char>>::empty(),
            s.redo_entries() == Seq::<Seq<char>>::empty(),
            s.tracking_reset(),
    {
        let s = Self {
            undo_stack: Vec::new(),
            redo_stack: Vec::new(),
            last_edit_kind: EditKind::Unset,
            last_edit_idx: 0,
            last_edit_len: 0,
        };
        proof {
            assert(s.undo_entries() =~= Seq::<Seq<char>>::empty());
            assert(s.redo_entries() =~= Seq::<Seq<char>>::empty());
        }
        s
    }

    /// Records `text` on the undo stack, unless it is already the newest entry.
    fn record(&mut self, text: String)
        ensures
            (final(self).undo_entries(), final(self).redo_entries()) == record_step(
                old(self).undo_entries(),
                old(self).redo_entries(),
                text@,
            ),
            final(self).last_kind() == old(self).last_kind(),
            final(self).last_idx() == old(self).last_idx(),
            final(self).last_len() == old(self).last_len(),
    {
        let n = self.undo_stack.len();
        let same = n > 0 && self.undo_stack[n - 1] == text;
        proof {
            if n > 0 {
                assert(self.undo_entries().last() == self.undo_stack@[n - 1]@);
            }
        }
        if !same {
            let ghost u = self.undo_stack@;
            self.undo_stack.push(text);
            self.redo_stack.clear();
            proof {
                assert(texts(self.undo_stack@) =~= texts(u).push(text@));
                assert(texts(self.redo_stack@) =~= Seq::<Seq<char>>::empty());
            }
        }
    }

    /// Records `text` as an undo point and ends any grouping of edits.
    pub fn push(&mut self, text: String)
        ensures
            final(self).is_recorded(*old(self), text@),
    {
        self.record(text);
        self.reset_tracking();
    }

    /// Records the change from `old_text` to `new_text`. Consecutive edits of the
    /// same kind that continue each other (typing a word, deleting spaces) form
    /// one undo step; `old_text` becomes an undo point at each group boundary.
    pub fn push_change(&mut self, old_text: String, new_text: &str)
        ensures
            final(self).is_change_recorded(*old(self), old_text@, new_text@),
    {
        let diff = find_char_difference(old_text.as_str(), new_text);
        let (edit_type, start_idx, deleted, inserted) = match diff {
            Some(d) => d,
            None => return ,
        };
        let is_insert = match edit_type {
            EditType::Insert => true,
            _ => false,
        };
        let current_kind = determine_edit_kind(
            &edit_type,
            if is_insert {
                inserted.as_str()
            } else {
                deleted.as_str()
            },
        );
        let changed_chars = if is_insert {
            chars_of(inserted.as_str())
        } else {
            chars_of(deleted.as_str())
        };
        let change_len = changed_chars.len();

        let is_boundary = self.last_edit_kind == EditKind::Unset || current_kind == EditKind::Other
            || current_kind == EditKind::Replace || self.last_edit_kind != current_kind
            || !self.is_contiguous(start_idx, change_len, &edit_type);

        if is_boundary {
            self.record(old_text);
        }
        self.last_edit_kind = current_kind;
        self.last_edit_idx = start_idx;
        self.last_edit_len = change_len;
    }

    /// Restores the newest undo point; `current` becomes the newest redo entry.
    pub fn undo(&mut self, current: String) -> (r: Option<String>)
        ensures
            final(self).is_undone(*old(self), current@, text_view(r)),
    {
        self.reset_tracking();
        let ghost u = self.undo_stack@;
        let ghost rd = self.redo_stack@;
        if let Some(prev) = self.undo_stack.pop() {
            self.redo_stack.push(current);
            proof {
                assert(texts(self.undo_stack@) =~= texts(u).drop_last());
                assert(texts(self.redo_stack@) =~= texts(rd).push(current@));
            }
            Some(prev)
        } else {
            None
        }
    }

    /// Restores the newest redo entry; `current` becomes the newest undo point.
    pub fn redo(&mut self, current: String) -> (r: Option<String>)
        ensures
            final(self).is_redone(*old(self), current@, text_view(r)),
    {
        self.reset_tracking();
        let ghost u = self.undo_stack@;
        let ghost rd = self.redo_stack@;
        if let Some(next) = self.redo_stack.pop() {
            self.undo_stack.push(current);
            proof {
                assert(texts(self.undo_stack@) =~= texts(u).push(current@));
                assert(texts(self.redo_stack@) =~= texts(rd).drop_last());
            }
            Some(next)
        } else {
            None
        }
    }

    /// Forgets the whole history.
    pub fn clear(&mut self)
        ensures
            final(self).undo_entries() == Seq::<Seq<char>>::empty(),
            final(self).redo_entries() == Seq::<Seq<char>>::empty(),
            final(self).tracking_reset(),
    {
        self.undo_stack.clear();
        self.redo_stack.clear();
        self.reset_tracking();
        proof {
            assert(self.undo_entries() =~= Seq::<Seq<char>>::empty());
            assert(self.redo_entries() =~= Seq::<Seq<char>>::empty());
        }
    }

    fn reset_tracking(&mut self)
        ensures
            final(self).undo_stack == old(self).undo_stack,
            final(self).redo_stack == old(self).redo_stack,
            final(self).tracking_reset(),
    {
        self.last_edit_kind = EditKind::Unset;
        self.last_edit_idx = 0;
        self.last_edit_len = 0;
    }

    fn is_contiguous(&self, start_idx: usize, len: usize, edit_type: &EditType) -> (r: bool)
        ensures
            r == continues_edit(self.last_idx(), self.last_len(), start_idx as nat, len as nat, *edit_type),
    {
        match edit_type {
            EditType::Insert => start_idx >= self.last_edit_idx && start_idx - self.last_edit_idx
                == self.last_edit_len,
            EditType::Delete => (self.last_edit_idx >= start_idx && self.last_edit_idx - start_idx
                == len) || start_idx == self.last_edit_idx,
            EditType::Replace => false,
        }
    }
}

// ---------------------------------------------------------------------------
// Laws of the history

/// Undoing and then redoing from the restored text gives back the text that was
/// current before the undo, and leaves both stacks as they were.
pub proof fn law_undo_then_redo(undo: Seq<Seq<char>>, redo: Seq<Seq<char>>, current: Seq<char>)
    requires
        undo.len() > 0,
    ensures
        ({
            let (u1, r1, restored) = undo_step(undo, redo, current);
            let (u2, r2, back) = redo_step(u1, r1, restored.unwrap());
            &&& restored == Some(undo.last())
            &&& back == Some(current)
            &&& u2 == undo
            &&& r2 == redo
        }),
{
    let (u1, r1, restored) = undo_step(undo, redo, current);
    assert(u1.push(undo.last()) =~= undo);
    assert(r1.drop_last() =~= redo);
}

/// Redoing and then undoing from the restored text gives back the text that was
/// current before the redo, and leaves both stacks as they were.
pub proof fn law_redo_then_undo(undo: Seq<Seq<char>>, redo: Seq<Seq<char>>, current: Seq<char>)
    requires
        redo.len() > 0,
    ensures
        ({
            let (u1, r1, restored) = redo_step(undo, redo, current);
            let (u2, r2, back) = undo_step(u1, r1, restored.unwrap());
            &&& restored == Some(redo.last())
            &&& back == Some(current)
            &&& u2 == undo
            &&& r2 == redo
        }),
{
    let (u1, r1, restored) = redo_step(undo, redo, current);
    assert(u1.drop_last() =~= undo);
    assert(r1.push(redo.last()) =~= redo);
}

/// A new undo point that differs from the newest one is what the next undo
/// restores, and it leaves nothing to redo.
pub proof fn law_record_then_undo(
    undo: Seq<Seq<char>>,
    redo: Seq<Seq<char>>,
    text: Seq<char>,
    current: Seq<char>,
)
    ensures
        ({
            let (u1, r1) = record_step(undo, redo, text);
            let (u2, r2, restored) = undo_step(u1, r1, current);
            &&& restored == Some(text)
            &&& (undo.len() == 0 || undo.last() != text) ==> r1.len() == 0
        }),
{
}

/// Deleting on through one word with the Delete key (each delete starting where
/// the previous one started) or with Backspace (each ending where it started) is
/// one undo step while the deleted characters stay of one kind: after two such
/// deletes from a fresh point of the history, the second adds no undo point, and
/// one undo restores the text from before the first.
pub proof fn law_deletes_through_a_word_are_one_step(
    s0: UndoStack,
    s1: UndoStack,
    s2: UndoStack,
    t0: Seq<char>,
    t1: Seq<char>,
    t2: Seq<char>,
    p1: nat,
    d1: Seq<char>,
    p2: nat,
    d2: Seq<char>,
    forward: bool,
)
    requires
        s0.tracking_reset(),
        s1.is_change_recorded(s0, t0, t1),
        s2.is_change_recorded(s1, t1, t2),
        char_difference(t0, t1) == Some((EditType::Delete, p1, d1, Seq::<char>::empty())),
        char_difference(t1, t2) == Some((EditType::Delete, p2, d2, Seq::<char>::empty())),
        edit_kind(EditType::Delete, d1) == edit_kind(EditType::Delete, d2),
        edit_kind(EditType::Delete, d1) != EditKind::Other,
        if forward {
            p2 == p1
        } else {
            p2 + d2.len() == p1
        },
    ensures
        s2.undo_entries() == s1.undo_entries(),
        s2.redo_entries() == s1.redo_entries(),
        undo_step(s2.undo_entries(), s2.redo_entries(), t2).2 == Some(t0),
{
}

/// Undo with an empty undo stack changes nothing and restores nothing.
pub proof fn law_undo_empty(redo: Seq<Seq<char>>, current: Seq<char>)
    ensures
        undo_step(Seq::empty(), redo, current) == (Seq::<Seq<char>>::empty(), redo, None::<Seq<char>>),
{
}

} // verus!
