//! The text of a document, held in a rope.
use vstd::prelude::*;
use ropey::Rope;
use crate::editor::rope::{
    rope_chars, rope_from_str, rope_insert, rope_len_chars, rope_new, rope_remove,
    rope_slice_to_string, rope_to_string,
};

verus! {

/// `s` with `t` put before position `i`; unchanged when `i` is past the end.
pub open spec fn insert_at(s: Seq<char>, i: int, t: Seq<char>) -> Seq<char> {
    if 0 <= i <= s.len() {
        s.take(i) + t + s.skip(i)
    } else {
        s
    }
}

/// `s` without the characters at positions `start..end`, both ends first clamped to
/// the length of `s`.
pub open spec fn remove_clamped(s: Seq<char>, start: int, end: int) -> Seq<char> {
    let a = if start < s.len() {
        start
    } else {
        s.len() as int
    };
    let b = if end < s.len() {
        end
    } else {
        s.len() as int
    };
    if a < b {
        s.take(a) + s.skip(b)
    } else {
        s
    }
}

/// What an insertion put in reads back as the inserted text, and removing it
/// gives the old text back.
pub proof fn law_insert_reads_back(s: Seq<char>, i: nat, t: Seq<char>)
    requires
        i <= s.len(),
    ensures
        insert_at(s, i as int, t).subrange(i as int, (i + t.len()) as int) == t,
        remove_clamped(insert_at(s, i as int, t), i as int, (i + t.len()) as int) == s,
{
    let u = insert_at(s, i as int, t);
    assert(u.subrange(i as int, (i + t.len()) as int) =~= t);
    if t.len() > 0 {
        assert(u.take(i as int) + u.skip((i + t.len()) as int) =~= s);
    } else {
        assert(u =~= s);
    }
}

/// The text of a document.
pub struct EditBuffer {
    pub rope: Rope,
}

impl View for EditBuffer {
    type V = Seq<char>;

    open spec fn view(&self) -> Seq<char> {
        rope_chars(self.rope)
    }
}

impl EditBuffer {
    pub fn new() -> (b: Self)
        ensures
            b@ == Seq::<char>::empty(),
    {
        Self { rope: rope_new() }
    }

    pub fn from_str(text: &str) -> (b: Self)
        ensures
            b@ == text@,
    {
        Self { rope: rope_from_str(text) }
    }

    pub fn len_chars(&self) -> (n: usize)
        ensures
            n == self@.len(),
    {
        rope_len_chars(&self.rope)
    }

    /// Inserts `text` before the character at `char_idx`; does nothing when
    /// `char_idx` is past the end.
    pub fn insert(&mut self, char_idx: usize, text: &str)
        ensures
            final(self)@ == insert_at(old(self)@, char_idx as int, text@),
    {
        if char_idx <= rope_len_chars(&self.rope) {
            rope_insert(&mut self.rope, char_idx, text);
        }
    }

    /// Removes the characters at `start_idx..end_idx`, clamped to the text.
    pub fn remove(&mut self, start_idx: usize, end_idx: usize)
        ensures
            final(self)@ == remove_clamped(old(self)@, start_idx as int, end_idx as int),
    {
        let len = rope_len_chars(&self.rope);
        let s = if start_idx < len {
            start_idx
        } else {
            len
        };
        let e = if end_idx < len {
            end_idx
        } else {
            len
        };
        if s < e {
            rope_remove(&mut self.rope, s, e);
        }
    }

    /// The whole text as a `String`.
    pub fn to_string(&self) -> (s: String)
        ensures
            s@ == self@,
    {
        rope_to_string(&self.rope)
    }

    /// The characters at `start..end` as a `String`.
    pub fn slice_to_string(&self, start: usize, end: usize) -> (s: String)
        requires
            start <= end <= self@.len(),
        ensures
            s@ == self@.subrange(start as int, end as int),
    {
        rope_slice_to_string(&self.rope, start, end)
    }
}

} // verus!
