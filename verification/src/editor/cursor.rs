//! The text cursor and its movement by characters and by lines.
use vstd::prelude::*;
use ropey::Rope;
use crate::editor::rope::{
    break_ends_at, breaks_before, line_count, line_start, line_start_from, rope_chars,
    rope_char_to_line, rope_len_chars, rope_len_lines, rope_line_len_chars, rope_line_to_char,
};

verus! {

/// The start of the line that holds position `i`: the last line start at or before `i`.
pub open spec fn last_line_start(s: Seq<char>, i: nat) -> nat
    decreases i,
{
    if i == 0 {
        0
    } else if break_ends_at(s, i as int) {
        i
    } else {
        last_line_start(s, (i - 1) as nat)
    }
}

proof fn lemma_last_line_start(s: Seq<char>, i: nat)
    ensures
        last_line_start(s, i) <= i,
        breaks_before(s, last_line_start(s, i)) == breaks_before(s, i),
        last_line_start(s, i) == 0 || break_ends_at(s, last_line_start(s, i) as int),
    decreases i,
{
    if i > 0 && !break_ends_at(s, i as int) {
        lemma_last_line_start(s, (i - 1) as nat);
    }
}

/// Line breaks only accumulate along the text.
pub proof fn lemma_breaks_monotone(s: Seq<char>, i: nat, j: nat)
    requires
        i <= j,
    ensures
        breaks_before(s, i) <= breaks_before(s, j),
    decreases j - i,
{
    if i < j {
        lemma_breaks_monotone(s, i, (j - 1) as nat);
    }
}

proof fn lemma_line_start_from_bounded(s: Seq<char>, l: nat, p: nat, q: nat)
    requires
        p <= q <= s.len(),
        breaks_before(s, q) == l,
        q == 0 || break_ends_at(s, q as int),
    ensures
        line_start_from(s, l, p) <= q,
    decreases s.len() - p,
{
    if p < s.len() && !(breaks_before(s, p) == l && (p == 0 || break_ends_at(s, p as int))) {
        lemma_line_start_from_bounded(s, l, p + 1, q);
    }
}

proof fn lemma_line_start_from_le_len(s: Seq<char>, l: nat, p: nat)
    ensures
        line_start_from(s, l, p) <= s.len(),
    decreases s.len() - p,
{
    if p < s.len() {
        lemma_line_start_from_le_len(s, l, p + 1);
    }
}

/// The line that holds position `i` starts at or before `i`, and every line starts
/// within the text.
pub proof fn lemma_line_start_of_position(s: Seq<char>, i: nat)
    requires
        i <= s.len(),
    ensures
        line_start(s, breaks_before(s, i)) <= i,
        breaks_before(s, i) < line_count(s),
        forall|l: nat| line_start(s, l) <= s.len(),
{
    lemma_last_line_start(s, i);
    lemma_breaks_monotone(s, i, s.len());
    lemma_line_start_from_bounded(s, breaks_before(s, i), 0, last_line_start(s, i));
    assert forall|l: nat| line_start(s, l) <= s.len() by {
        lemma_line_start_from_le_len(s, l, 0);
    }
}

/// The (line, column) of character position `idx` in `s`; positions past the end
/// count as the end.
pub open spec fn line_col_of(s: Seq<char>, idx: nat) -> (nat, nat) {
    let i = if idx <= s.len() {
        idx
    } else {
        s.len()
    };
    let line = breaks_before(s, i);
    (line, (i - line_start(s, line)) as nat)
}

/// The position of column `col` on line `line` of `s`: the line is clamped to the
/// last one and the column to the line's length without its final character when
/// a later line follows.
pub open spec fn position_of(s: Seq<char>, line: nat, col: nat) -> nat {
    let last = (line_count(s) - 1) as nat;
    let l = if line <= last {
        line
    } else {
        last
    };
    let len = (line_start(s, l + 1) - line_start(s, l)) as nat;
    let max_col = if l < last {
        if len >= 1 {
            (len - 1) as nat
        } else {
            0
        }
    } else {
        len
    };
    line_start(s, l) + if col <= max_col {
        col
    } else {
        max_col
    }
}

/// Where the search for the start of line `l` from `p` stops: at a start of line
/// `l`, or at the end of the text, never passing a start of line `l`.
proof fn lemma_line_start_from_props(s: Seq<char>, l: nat, p: nat)
    requires
        p <= s.len(),
    ensures
        p <= line_start_from(s, l, p) <= s.len(),
        line_start_from(s, l, p) == s.len() || (breaks_before(s, line_start_from(s, l, p)) == l && (
        line_start_from(s, l, p) == 0 || break_ends_at(s, line_start_from(s, l, p) as int))),
        forall|x: nat|
            p <= x < line_start_from(s, l, p) ==> !(#[trigger] breaks_before(s, x) == l && (x == 0
                || break_ends_at(s, x as int))),
    decreases s.len() - p,
{
    if p < s.len() && !(breaks_before(s, p) == l && (p == 0 || break_ends_at(s, p as int))) {
        lemma_line_start_from_props(s, l, p + 1);
    }
}

/// A position's column never passes the end of its line: going from a position
/// to its line and column and back gives the position again.
pub proof fn law_line_col_round_trip(s: Seq<char>, i: nat)
    requires
        i <= s.len(),
    ensures
        position_of(s, line_col_of(s, i).0, line_col_of(s, i).1) == i,
{
    let l = breaks_before(s, i);
    let q = last_line_start(s, i);
    lemma_last_line_start(s, i);
    // the line of `i` starts at `q`
    lemma_line_start_from_props(s, l, 0);
    if line_start(s, l) < q {
        let x = line_start(s, l);
        lemma_breaks_monotone(s, x, (q - 1) as nat);
    }
    lemma_line_start_from_bounded(s, l, 0, q);
    assert(line_start(s, l) == q);
    // the next line starts after `i`, or there is none
    lemma_breaks_monotone(s, i, s.len());
    lemma_line_start_from_props(s, l + 1, 0);
    let next = line_start(s, l + 1);
    if next <= i && next < s.len() {
        lemma_breaks_monotone(s, next, i);
    }
    let last = (line_count(s) - 1) as nat;
    if l == last {
        if next < s.len() {
            lemma_breaks_monotone(s, next, s.len());
        }
        assert(next == s.len());
    } else {
        assert(i < s.len());
        assert(next > i);
    }
}

/// A cursor position, as a character index.
#[derive(Debug, Clone, Copy, PartialEq, Eq, Structural)]
pub struct Cursor {
    pub char_idx: usize,
}

impl Cursor {
    pub fn new(char_idx: usize) -> (c: Self)
        ensures
            c.char_idx == char_idx,
    {
        Self { char_idx }
    }

    /// The zero-based line and column of the cursor.
    pub fn line_col(&self, rope: &Rope) -> (r: (usize, usize))
        ensures
            (r.0 as nat, r.1 as nat) == line_col_of(rope_chars(*rope), self.char_idx as nat),
    {
        let len = rope_len_chars(rope);
        let i = if self.char_idx < len {
            self.char_idx
        } else {
            len
        };
        let line_idx = rope_char_to_line(rope, i);
        proof {
            lemma_line_start_of_position(rope_chars(*rope), i as nat);
        }
        let line_char_idx = rope_line_to_char(rope, line_idx);
        let col = i - line_char_idx;
        (line_idx, col)
    }

    /// The cursor at column `col` of line `line`, both clamped to the text.
    pub fn from_line_col(rope: &Rope, line: usize, col: usize) -> (c: Self)
        ensures
            c.char_idx == position_of(rope_chars(*rope), line as nat, col as nat),
    {
        let ghost s = rope_chars(*rope);
        let text_len = rope_len_chars(rope);
        let lines = rope_len_lines(rope);
        let last = lines - 1;
        let line_idx = if line < last {
            line
        } else {
            last
        };
        let line_char_idx = rope_line_to_char(rope, line_idx);
        let line_len = rope_line_len_chars(rope, line_idx);
        let max_col = if line_idx < last {
            if line_len >= 1 {
                line_len - 1
            } else {
                0
            }
        } else {
            line_len
        };
        let col_idx = if col < max_col {
            col
        } else {
            max_col
        };
        proof {
            lemma_line_start_of_position(s, 0);
            assert(line_start(s, line_idx as nat + 1) <= text_len);
        }
        Self { char_idx: line_char_idx + col_idx }
    }

    /// Moves one character back, stopping at the start.
    pub fn move_left(&mut self, _rope: &Rope)
        ensures
            final(self).char_idx == if old(self).char_idx > 0 {
                (old(self).char_idx - 1) as usize
            } else {
                0
            },
    {
        if self.char_idx > 0 {
            self.char_idx -= 1;
        }
    }

    /// Moves one character forward, stopping at the end of the text.
    pub fn move_right(&mut self, rope: &Rope)
        ensures
            final(self).char_idx == if old(self).char_idx < rope_chars(*rope).len() {
                (old(self).char_idx + 1) as usize
            } else {
                old(self).char_idx
            },
    {
        if self.char_idx < rope_len_chars(rope) {
            self.char_idx += 1;
        }
    }

    /// Moves to the same column of the previous line, if there is one.
    pub fn move_up(&mut self, rope: &Rope)
        ensures
            ({
                let (line, col) = line_col_of(rope_chars(*rope), old(self).char_idx as nat);
                final(self).char_idx == if line > 0 {
                    position_of(rope_chars(*rope), (line - 1) as nat, col)
                } else {
                    old(self).char_idx as nat
                }
            }),
    {
        let (line, col) = self.line_col(rope);
        if line > 0 {
            *self = Self::from_line_col(rope, line - 1, col);
        }
    }

    /// Moves to the same column of the next line, if there is one.
    pub fn move_down(&mut self, rope: &Rope)
        ensures
            ({
                let (line, col) = line_col_of(rope_chars(*rope), old(self).char_idx as nat);
                final(self).char_idx == if line + 1 < line_count(rope_chars(*rope)) {
                    position_of(rope_chars(*rope), line + 1, col)
                } else {
                    old(self).char_idx as nat
                }
            }),
    {
        let (line, col) = self.line_col(rope);
        let lines = rope_len_lines(rope);
        if line < lines - 1 {
            *self = Self::from_line_col(rope, line + 1, col);
        }
    }
}

impl Default for Cursor {
    fn default() -> (c: Self)
        ensures
            c.char_idx == 0,
    {
        Self { char_idx: 0 }
    }
}

} // verus!
