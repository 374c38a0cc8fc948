//! The text rope of the `ropey` crate, seen as the sequence of characters it holds.
use vstd::prelude::*;
use ropey::Rope;

verus! {

#[verifier::external_type_specification]
#[verifier::external_body]
pub struct ExRope(Rope);

/// The characters a rope holds.
pub uninterp spec fn rope_chars(r: Rope) -> Seq<char>;

/// The characters that end a line for `ropey` built with its default features:
/// line feed, carriage return, vertical tab, form feed, next line, line separator
/// and paragraph separator. A carriage return directly followed by a line feed
/// ends a single line.
pub open spec fn is_break_char(c: char) -> bool {
    c == '\n' || c == '\r' || c == '\x0B' || c == '\x0C' || c == '\u{85}' || c == '\u{2028}'
        || c == '\u{2029}'
}

/// A line break ends just before position `p` of `s`.
pub open spec fn break_ends_at(s: Seq<char>, p: int) -> bool {
    &&& 0 < p <= s.len()
    &&& is_break_char(s[p - 1])
    &&& !(s[p - 1] == '\r' && p < s.len() && s[p] == '\n')
}

/// The number of line breaks that end at or before position `i`.
pub open spec fn breaks_before(s: Seq<char>, i: nat) -> nat
    decreases i,
{
    if i == 0 {
        0
    } else {
        breaks_before(s, (i - 1) as nat) + if break_ends_at(s, i as int) {
            1nat
        } else {
            0nat
        }
    }
}

/// The number of lines of `s`: one more than its line breaks.
pub open spec fn line_count(s: Seq<char>) -> nat {
    breaks_before(s, s.len()) + 1
}

/// The first position at or after `p` that starts line `l` (position 0, or the
/// end of the `l`-th line break), or the length of `s` when there is none.
pub open spec fn line_start_from(s: Seq<char>, l: nat, p: nat) -> nat
    decreases s.len() - p,
{
    if p >= s.len() {
        s.len()
    } else if breaks_before(s, p) == l && (p == 0 || break_ends_at(s, p as int)) {
        p
    } else {
        line_start_from(s, l, p + 1)
    }
}

/// The position where line `l` of `s` starts; the length of `s` for `l` past the last line.
pub open spec fn line_start(s: Seq<char>, l: nat) -> nat {
    line_start_from(s, l, 0)
}

/// Calls `Rope::new`, an empty rope.
#[verifier::external_body]
pub(crate) fn rope_new() -> (r: Rope)
    ensures
        rope_chars(r) == Seq::<char>::empty(),
{
    Rope::new()
}

/// Calls `Rope::from_str`, a rope holding the characters of `text`.
#[verifier::external_body]
pub(crate) fn rope_from_str(text: &str) -> (r: Rope)
    ensures
        rope_chars(r) == text@,
{
    Rope::from_str(text)
}

/// Calls `Rope::len_chars`, the number of characters.
#[verifier::external_body]
pub(crate) fn rope_len_chars(r: &Rope) -> (n: usize)
    ensures
        n == rope_chars(*r).len(),
{
    r.len_chars()
}

/// Calls `Rope::insert`, which puts `text` before the character at `char_idx`
/// (it panics past the end, hence the bound).
#[verifier::external_body]
pub(crate) fn rope_insert(r: &mut Rope, char_idx: usize, text: &str)
    requires
        char_idx <= rope_chars(*old(r)).len(),
    ensures
        rope_chars(*final(r)) == rope_chars(*old(r)).take(char_idx as int) + text@ + rope_chars(
            *old(r),
        ).skip(char_idx as int),
{
    r.insert(char_idx, text)
}

/// Calls `Rope::remove` on `start..end`, which drops those characters (it panics
/// on a reversed or out-of-bounds range, hence the bounds).
#[verifier::external_body]
pub(crate) fn rope_remove(r: &mut Rope, start: usize, end: usize)
    requires
        start <= end <= rope_chars(*old(r)).len(),
    ensures
        rope_chars(*final(r)) == rope_chars(*old(r)).take(start as int) + rope_chars(*old(r)).skip(
            end as int,
        ),
{
    r.remove(start..end)
}

/// Calls `ToString::to_string` on the rope, whose `Display` writes its characters in order.
#[verifier::external_body]
pub(crate) fn rope_to_string(r: &Rope) -> (s: String)
    ensures
        s@ == rope_chars(*r),
{
    r.to_string()
}

/// Calls `Rope::slice` on `start..end` and turns the slice into a `String`.
#[verifier::external_body]
pub(crate) fn rope_slice_to_string(r: &Rope, start: usize, end: usize) -> (s: String)
    requires
        start <= end <= rope_chars(*r).len(),
    ensures
        s@ == rope_chars(*r).subrange(start as int, end as int),
{
    r.slice(start..end).to_string()
}

/// Calls `Rope::len_lines`: one more than the number of line breaks.
#[verifier::external_body]
pub(crate) fn rope_len_lines(r: &Rope) -> (n: usize)
    ensures
        n == line_count(rope_chars(*r)),
{
    r.len_lines()
}

/// Calls `Rope::char_to_line`: the number of line breaks that end at or before
/// `char_idx` (it panics past the end, hence the bound).
#[verifier::external_body]
pub(crate) fn rope_char_to_line(r: &Rope, char_idx: usize) -> (l: usize)
    requires
        char_idx <= rope_chars(*r).len(),
    ensures
        l == breaks_before(rope_chars(*r), char_idx as nat),
{
    r.char_to_line(char_idx)
}

/// Calls `Rope::line_to_char`: where line `line_idx` starts, or the length for the
/// line one past the last (it panics further on, hence the bound).
#[verifier::external_body]
pub(crate) fn rope_line_to_char(r: &Rope, line_idx: usize) -> (p: usize)
    requires
        line_idx <= line_count(rope_chars(*r)),
    ensures
        p == line_start(rope_chars(*r), line_idx as nat),
{
    r.line_to_char(line_idx)
}

/// Calls `Rope::line` and `RopeSlice::len_chars`: the number of characters of line
/// `line_idx`, its line break included (it panics past the last line, hence the bound).
#[verifier::external_body]
pub(crate) fn rope_line_len_chars(r: &Rope, line_idx: usize) -> (n: usize)
    requires
        line_idx < line_count(rope_chars(*r)),
    ensures
        n == line_start(rope_chars(*r), line_idx as nat + 1) - line_start(
            rope_chars(*r),
            line_idx as nat,
        ),
{
    r.line(line_idx).len_chars()
}

} // verus!
