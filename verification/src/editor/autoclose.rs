//! Typing helpers of the editor: closing brackets and quotes, wrapping a
//! selection, and indenting or unindenting lines with Tab.
use vstd::prelude::*;
use crate::text::{extend_chars, sub_chars, utf8_len, utf8_len_of, lemma_utf8_len_monotone};

verus! {

/// What typing `c` over a selection wraps it with: the opening text, the closing
/// text, and how far past the selection's bytes the cursor goes.
pub open spec fn wrapping(c: char) -> Option<(Seq<char>, Seq<char>, nat)> {
    if c == '(' {
        Some((seq!['('], seq![')'], 2))
    } else if c == '[' {
        Some((seq!['['], seq![']', '(', ')'], 3))
    } else if c == '{' {
        Some((seq!['{'], seq!['}'], 2))
    } else if c == '"' || c == '\'' || c == '`' || c == '*' || c == '_' || c == '~' {
        Some((seq![c], seq![c], 2))
    } else {
        None
    }
}

/// The bracket pairs and quote pairs between which Enter opens an empty line.
pub open spec fn is_pair(l: char, r: char) -> bool {
    (l == '{' && r == '}') || (l == '(' && r == ')') || (l == '[' && r == ']') || (l == '"' && r
        == '"') || (l == '\'' && r == '\'') || (l == '`' && r == '`')
}

/// Closing characters that typing steps over when they are already there.
pub open spec fn is_closer(c: char) -> bool {
    c == ')' || c == ']' || c == '}' || c == '"' || c == '\'' || c == '`'
}

/// The closing character typed after an opening one.
pub open spec fn auto_closer(c: char) -> Option<char> {
    if c == '(' {
        Some(')')
    } else if c == '[' {
        Some(']')
    } else if c == '{' {
        Some('}')
    } else if c == '"' {
        Some('"')
    } else if c == '\'' {
        Some('\'')
    } else if c == '`' {
        Some('`')
    } else {
        None
    }
}

/// Every opening character of a bracket or quote pair gets its own closer typed
/// after it, and only those do; each closer so typed is one that typing steps over
/// and that deleting its opener removes.
pub proof fn law_every_pair_is_closed(l: char, r: char)
    ensures
        is_pair(l, r) <==> auto_closer(l) == Some(r),
        auto_closer(l) == Some(r) ==> is_closer(r) && matching_close(l) == Some(r),
{
}

/// The closing character removed with a deleted opening one.
pub open spec fn matching_close(c: char) -> Option<char> {
    auto_closer(c)
}

/// `s` with `t` put at position `i`.
pub open spec fn put_at(s: Seq<char>, i: nat, t: Seq<char>) -> Seq<char> {
    s.take(i as int) + t + s.skip(i as int)
}

/// `s` without its character at position `i`.
pub open spec fn drop_at(s: Seq<char>, i: nat) -> Seq<char> {
    s.take(i as int) + s.skip(i + 1 as int)
}

/// The smaller of two indices.
pub open spec fn min_idx(a: nat, b: nat) -> nat {
    if a <= b {
        a
    } else {
        b
    }
}

/// The larger of two indices.
pub open spec fn max_idx(a: nat, b: nat) -> nat {
    if a <= b {
        b
    } else {
        a
    }
}

/// The edit made after the text widget changed `prev_text` into `content`, moving
/// the cursor from `prev` (primary, secondary) to `cur`: the new text and where the
/// cursor goes, or `None` when the helpers have nothing to do.
///
/// - A selection replaced by one typed opening character is wrapped in it.
/// - Enter between a bracket or quote pair opens an empty line between them.
/// - A typed closing character already present after the cursor is stepped over.
/// - A third backtick completes a fence; a second `*`, `_` or `~` is doubled.
/// - Other opening brackets and quotes get their closing character.
/// - Deleting an opening character also deletes the closing one after it.
pub open spec fn autoclose_edit(
    content: Seq<char>,
    prev_text: Seq<char>,
    prev: (nat, nat),
    cur: (nat, nat),
) -> Option<(Seq<char>, nat)> {
    if min_idx(prev.0, prev.1) != max_idx(prev.0, prev.1) {
        selection_edit(content, prev_text, prev, cur)
    } else {
        caret_edit(content, prev_text, prev.0, cur)
    }
}

/// The edit when the previous frame had a selection: typing an opening character
/// over it wraps it.
pub open spec fn selection_edit(
    content: Seq<char>,
    prev_text: Seq<char>,
    prev: (nat, nat),
    cur: (nat, nat),
) -> Option<(Seq<char>, nat)> {
    let ps = min_idx(prev.0, prev.1);
    let pe = max_idx(prev.0, prev.1);
    {
        if cur.0 == cur.1 && cur.0 == ps + 1 && ps < content.len() {
            let typed = content[ps as int];
            let sel = prev_text.skip(ps as int).take(
                min_idx((pe - ps) as nat, (prev_text.len() - min_idx(ps, prev_text.len())) as nat) as int,
            );
            match wrapping(typed) {
                Some((open, close, k)) => Some(
                    (
                        content.take(ps as int) + open + sel + close + content.skip(ps + 1 as int),
                        ps + utf8_len(sel) + k,
                    ),
                ),
                None => None,
            }
        } else {
            None
        }
    }
}

/// The edit when the previous frame had a plain cursor at `p`.
pub open spec fn caret_edit(
    content: Seq<char>,
    prev_text: Seq<char>,
    p: nat,
    cur: (nat, nat),
) -> Option<(Seq<char>, nat)> {
    {
        let c = cur.0;
        if cur.0 != cur.1 {
            None
        } else if c == p + 1 {
            if p < content.len() {
                let typed = content[p as int];
                if typed == '\n' && p > 0 && p + 1 < content.len() && is_pair(
                    content[p - 1],
                    content[p + 1 as int],
                ) {
                    Some((put_at(content, c, seq!['\n']), c))
                } else if is_closer(typed) && c < content.len() && content[c as int] == typed {
                    Some((drop_at(content, c), c))
                } else if typed == '`' && p >= 2 && content[p - 1] == '`' && content[p - 2] == '`' {
                    Some((put_at(content, c, seq!['`', '`', '`']), c))
                } else if (typed == '*' || typed == '_' || typed == '~') && p >= 1 && content[p - 1]
                    == typed {
                    Some((put_at(content, c, seq![typed, typed]), c))
                } else {
                    match auto_closer(typed) {
                        Some(ac) => Some((put_at(content, c, seq![ac]), c)),
                        None => None,
                    }
                }
            } else {
                None
            }
        } else if p > 0 && c == p - 1 && c < prev_text.len() {
            match matching_close(prev_text[c as int]) {
                Some(close) => if c < content.len() && content[c as int] == close {
                    Some((drop_at(content, c), c))
                } else {
                    None
                },
                None => None,
            }
        } else {
            None
        }
    }
}

fn wrapping_of(c: char) -> (r: Option<(Vec<char>, Vec<char>, usize)>)
    ensures
        match r {
            Some((open, close, k)) => wrapping(c) == Some((open@, close@, k as nat)),
            None => wrapping(c) is None,
        },
{
    if c == '(' {
        Some((vec!['('], vec![')'], 2))
    } else if c == '[' {
        Some((vec!['['], vec![']', '(', ')'], 3))
    } else if c == '{' {
        Some((vec!['{'], vec!['}'], 2))
    } else if c == '"' || c == '\'' || c == '`' || c == '*' || c == '_' || c == '~' {
        Some((vec![c], vec![c], 2))
    } else {
        None
    }
}

fn wrap_at(content: &[char], ps: usize, open: &[char], sel: &[char], close: &[char]) -> (r: Vec<char>)
    requires
        ps < content@.len(),
    ensures
        r@ == content@.take(ps as int) + open@ + sel@ + close@ + content@.skip(ps + 1 as int),
{
    let len = content.len();
    let mut t = sub_chars(content, 0, ps);
    extend_chars(&mut t, open);
    extend_chars(&mut t, sel);
    extend_chars(&mut t, close);
    let tail = sub_chars(content, ps + 1, len);
    extend_chars(&mut t, tail.as_slice());
    proof {
        assert(t@ =~= content@.take(ps as int) + open@ + sel@ + close@ + content@.skip(ps + 1 as int));
    }
    t
}

fn auto_closer_of(c: char) -> (r: Option<char>)
    ensures
        r == auto_closer(c),
{
    if c == '(' {
        Some(')')
    } else if c == '[' {
        Some(']')
    } else if c == '{' {
        Some('}')
    } else if c == '"' {
        Some('"')
    } else if c == '\'' {
        Some('\'')
    } else if c == '`' {
        Some('`')
    } else {
        None
    }
}

fn put_chars(s: &[char], i: usize, t: &[char]) -> (r: Vec<char>)
    requires
        i <= s@.len(),
    ensures
        r@ == put_at(s@, i as nat, t@),
{
    let mut r = sub_chars(s, 0, i);
    extend_chars(&mut r, t);
    let tail = sub_chars(s, i, s.len());
    extend_chars(&mut r, tail.as_slice());
    proof {
        assert(r@ =~= put_at(s@, i as nat, t@));
    }
    r
}

fn drop_char(s: &[char], i: usize) -> (r: Vec<char>)
    requires
        i < s@.len(),
    ensures
        r@ == drop_at(s@, i as nat),
{
    let n = s.len();
    let mut r = sub_chars(s, 0, i);
    let tail = sub_chars(s, i + 1, n);
    extend_chars(&mut r, tail.as_slice());
    proof {
        assert(r@ =~= drop_at(s@, i as nat));
    }
    r
}

/// Computes the edit of `autoclose_edit`.
pub fn autoclose(content: &[char], prev_text: &[char], prev: (usize, usize), cur: (usize, usize)) -> (r: Option<(Vec<char>, usize)>)
    requires
        content@.len() + utf8_len(prev_text@) + 3 <= usize::MAX,
    ensures
        match r {
            Some((t, c)) => autoclose_edit(content@, prev_text@, (prev.0 as nat, prev.1 as nat), (cur.0 as nat, cur.1 as nat)) == Some((t@, c as nat)),
            None => autoclose_edit(content@, prev_text@, (prev.0 as nat, prev.1 as nat), (cur.0 as nat, cur.1 as nat)) is None,
        },
{
    let ps = if prev.0 <= prev.1 {
        prev.0
    } else {
        prev.1
    };
    let pe = if prev.0 <= prev.1 {
        prev.1
    } else {
        prev.0
    };
    if ps != pe {
        selection_autoclose(content, prev_text, prev, cur)
    } else {
        caret_autoclose(content, prev_text, prev.0, cur)
    }
}

fn selection_autoclose(content: &[char], prev_text: &[char], prev: (usize, usize), cur: (usize, usize)) -> (r: Option<(Vec<char>, usize)>)
    requires
        content@.len() + utf8_len(prev_text@) + 3 <= usize::MAX,
        prev.0 != prev.1,
    ensures
        match r {
            Some((t, c)) => selection_edit(content@, prev_text@, (prev.0 as nat, prev.1 as nat), (cur.0 as nat, cur.1 as nat)) == Some((t@, c as nat)),
            None => selection_edit(content@, prev_text@, (prev.0 as nat, prev.1 as nat), (cur.0 as nat, cur.1 as nat)) is None,
        },
{
    let ps = if prev.0 <= prev.1 {
        prev.0
    } else {
        prev.1
    };
    let pe = if prev.0 <= prev.1 {
        prev.1
    } else {
        prev.0
    };
    let len = content.len();
    {
        if cur.0 == cur.1 && ps < len && cur.0 == ps + 1 {
            let typed = content[ps];
            let from = if ps <= prev_text.len() {
                ps
            } else {
                prev_text.len()
            };
            let avail = prev_text.len() - from;
            let n = if pe - ps <= avail {
                pe - ps
            } else {
                avail
            };
            let sel = sub_chars(prev_text, from, from + n);
            proof {
                assert(sel@ =~= prev_text@.skip(ps as int).take(n as int));
                assert(utf8_len(sel@) <= utf8_len(prev_text@)) by {
                    lemma_utf8_len_sub(prev_text@, from as int, (from + n) as int);
                }
            }
            match wrapping_of(typed) {
                Some((open, close, k)) => {
                    let t = wrap_at(content, ps, open.as_slice(), sel.as_slice(), close.as_slice());
                    let w = utf8_len_of(sel.as_slice());
                    proof {
                        lemma_utf8_len_monotone(sel@);
                    }
                    Some((t, ps + w + k))
                },
                None => None,
            }
        } else {
            None
        }
    }
}

fn caret_autoclose(content: &[char], prev_text: &[char], p: usize, cur: (usize, usize)) -> (r: Option<(Vec<char>, usize)>)
    ensures
        match r {
            Some((t, c)) => caret_edit(content@, prev_text@, p as nat, (cur.0 as nat, cur.1 as nat)) == Some((t@, c as nat)),
            None => caret_edit(content@, prev_text@, p as nat, (cur.0 as nat, cur.1 as nat)) is None,
        },
{
    let len = content.len();
    {
        let c = cur.0;
        if cur.0 != cur.1 {
            None
        } else if c > 0 && c - 1 == p {
            if p < len {
                let typed = content[p];
                if typed == '\n' && p > 0 && p + 1 < len && ((content[p - 1] == '{' && content[p
                    + 1] == '}') || (content[p - 1] == '(' && content[p + 1] == ')') || (content[p
                    - 1] == '[' && content[p + 1] == ']') || (content[p - 1] == '"' && content[p
                    + 1] == '"') || (content[p - 1] == '\'' && content[p + 1] == '\'') || (content[p
                    - 1] == '`' && content[p + 1] == '`')) {
                    let nl = ['\n'];
                    Some((put_chars(content, c, &nl), c))
                } else if (typed == ')' || typed == ']' || typed == '}' || typed == '"' || typed
                    == '\'' || typed == '`') && c < len && content[c] == typed {
                    Some((drop_char(content, c), c))
                } else if typed == '`' && p >= 2 && content[p - 1] == '`' && content[p - 2] == '`' {
                    let fence = ['`', '`', '`'];
                    Some((put_chars(content, c, &fence), c))
                } else if (typed == '*' || typed == '_' || typed == '~') && p >= 1 && content[p - 1]
                    == typed {
                    let double = [typed, typed];
                    Some((put_chars(content, c, &double), c))
                } else {
                    match auto_closer_of(typed) {
                        Some(ac) => {
                            let one = [ac];
                            Some((put_chars(content, c, &one), c))
                        },
                        None => None,
                    }
                }
            } else {
                None
            }
        } else if p > 0 && c == p - 1 && c < prev_text.len() {
            match auto_closer_of(prev_text[c]) {
                Some(close) => if c < len && content[c] == close {
                    Some((drop_char(content, c), c))
                } else {
                    None
                },
                None => None,
            }
        } else {
            None
        }
    }
}

/// A part of a text has no more UTF-8 bytes than the whole.
pub proof fn lemma_utf8_len_sub(s: Seq<char>, a: int, b: int)
    requires
        0 <= a <= b <= s.len(),
    ensures
        utf8_len(s.subrange(a, b)) <= utf8_len(s),
    decreases s.len(),
{
    if b < s.len() {
        assert(s.drop_last().subrange(a, b) =~= s.subrange(a, b));
        lemma_utf8_len_sub(s.drop_last(), a, b);
    } else if a < b {
        assert(s.subrange(a, b).drop_last() =~= s.drop_last().subrange(a, b - 1));
        lemma_utf8_len_sub(s.drop_last(), a, b - 1);
    } else {
        assert(s.subrange(a, b) =~= Seq::<char>::empty());
    }
}


// ---------------------------------------------------------------------------
// Tab and Shift+Tab

/// `n` spaces.
pub open spec fn spaces(n: nat) -> Seq<char> {
    Seq::new(n, |i: int| ' ')
}

/// Where the line that holds position `i` starts: after the last line feed before `i`.
pub open spec fn line_start_before(s: Seq<char>, i: nat) -> nat
    decreases i,
{
    if i == 0 || i > s.len() {
        0
    } else if s[i - 1] == '\n' {
        i
    } else {
        line_start_before(s, (i - 1) as nat)
    }
}

/// The number of spaces, at most `w`, that start at position `at`, counting from `k`.
pub open spec fn spaces_at(s: Seq<char>, at: nat, w: nat, k: nat) -> nat
    decreases w - k,
{
    if k < w && at + k < s.len() && s[(at + k) as int] == ' ' {
        spaces_at(s, at, w, k + 1)
    } else {
        k
    }
}

/// The starts of the lines a selection ending at `end` covers, from position `i` on:
/// after each line feed before `end` that is not the selection's last character.
pub open spec fn later_line_starts(s: Seq<char>, i: nat, end: nat) -> Seq<nat>
    decreases s.len() - i,
{
    if i >= s.len() || i >= end {
        Seq::empty()
    } else if s[i as int] == '\n' && i + 1 < end {
        seq![i + 1] + later_line_starts(s, i + 1, end)
    } else {
        later_line_starts(s, i + 1, end)
    }
}

/// The starts of the lines covered by the selection `start..end`.
pub open spec fn selected_line_starts(s: Seq<char>, start: nat, end: nat) -> Seq<nat> {
    let first = line_start_before(s, min_idx(start, s.len()));
    seq![first] + later_line_starts(s, first, end)
}

/// `s` with `w` spaces put at the first `k` of the line starts, the last first.
pub open spec fn indent_from(s: Seq<char>, starts: Seq<nat>, k: nat, w: nat) -> Seq<char>
    decreases k,
{
    if k == 0 || k > starts.len() {
        s
    } else {
        indent_from(put_at(s, starts[k - 1], spaces(w)), starts, (k - 1) as nat, w)
    }
}

/// `s` with up to `w` leading spaces removed at the first `k` of the line starts,
/// the last first; with the number of spaces removed in all and at the first start.
pub open spec fn unindent_from(s: Seq<char>, starts: Seq<nat>, k: nat, w: nat) -> (Seq<char>, nat, nat)
    decreases k,
{
    if k == 0 || k > starts.len() {
        (s, 0, 0)
    } else {
        let at = starts[k - 1];
        let n = spaces_at(s, at, w, 0);
        let s2 = if n > 0 {
            s.take(at as int) + s.skip((at + n) as int)
        } else {
            s
        };
        let (r, removed, first) = unindent_from(s2, starts, (k - 1) as nat, w);
        (r, removed + n, if k == 1 {
            n
        } else {
            first
        })
    }
}

/// The text, anchor and head after Tab (`tab`) or Shift+Tab with the cursor range
/// `primary`/`secondary` and tabs `w` spaces wide.
///
/// Without a selection, Tab puts `w` spaces at the cursor and Shift+Tab removes up
/// to `w` spaces at the start of the cursor's line. With a selection, every line it
/// covers is indented or unindented and the selection grows or shrinks with them.
pub open spec fn tab_result(s: Seq<char>, primary: nat, secondary: nat, tab: bool, w: nat) -> (Seq<char>, nat, nat) {
    if primary == secondary {
        let c = primary;
        if tab {
            (put_at(s, min_idx(c, s.len()), spaces(w)), c + w, c + w)
        } else {
            let ls = line_start_before(s, min_idx(c, s.len()));
            let n = spaces_at(s, ls, w, 0);
            if n > 0 {
                let nc = if c >= ls + n {
                    (c - n) as nat
                } else {
                    ls
                };
                (s.take(ls as int) + s.skip((ls + n) as int), nc, nc)
            } else {
                (s, c, c)
            }
        }
    } else {
        let start = min_idx(primary, secondary);
        let end = max_idx(primary, secondary);
        let starts = selected_line_starts(s, start, end);
        let first = starts[0];
        let (r, new_start, new_end) = if tab {
            (indent_from(s, starts, starts.len(), w), start + w, end + w * starts.len())
        } else {
            let (r, removed, first_removed) = unindent_from(s, starts, starts.len(), w);
            let ns = if start >= first + first_removed {
                (start - first_removed) as nat
            } else {
                first
            };
            let ne = if end >= ns + removed {
                (end - removed) as nat
            } else {
                ns
            };
            (r, ns, ne)
        };
        if primary >= secondary {
            (r, new_start, new_end)
        } else {
            (r, new_end, new_start)
        }
    }
}

/// The positions a Tab moves to fit in memory indices.
pub open spec fn tab_fits(s: Seq<char>, primary: nat, secondary: nat, tab: bool, w: nat) -> bool {
    if primary == secondary {
        tab ==> primary + w <= usize::MAX
    } else {
        let end = max_idx(primary, secondary);
        tab ==> end + w * selected_line_starts(s, min_idx(primary, secondary), end).len() <= usize::MAX
    }
}

pub(crate) proof fn lemma_line_start_before(s: Seq<char>, i: nat)
    ensures
        line_start_before(s, i) <= i,
        i <= s.len() ==> line_start_before(s, i) <= s.len(),
    decreases i,
{
    if i > 0 && i <= s.len() && s[i - 1] != '\n' {
        lemma_line_start_before(s, (i - 1) as nat);
    }
}

pub(crate) proof fn lemma_later_line_starts(s: Seq<char>, i: nat, end: nat)
    ensures
        forall|k: int| 0 <= k < later_line_starts(s, i, end).len() ==> i < #[trigger] later_line_starts(s, i, end)[k] <= s.len(),
        later_line_starts(s, i, end).len() <= s.len() - i || i >= s.len(),
    decreases s.len() - i,
{
    if i < s.len() && i < end {
        lemma_later_line_starts(s, i + 1, end);
    }
}

fn line_start_exec(s: &[char], i: usize) -> (r: usize)
    requires
        i <= s@.len(),
    ensures
        r == line_start_before(s@, i as nat),
        r <= i,
{
    let mut j = i;
    while j > 0 && s[j - 1] != '\n'
        invariant
            j <= i,
            i <= s@.len(),
            line_start_before(s@, j as nat) == line_start_before(s@, i as nat),
        decreases j,
    {
        j -= 1;
    }
    j
}

fn spaces_exec(s: &[char], at: usize, w: usize) -> (n: usize)
    ensures
        n == spaces_at(s@, at as nat, w as nat, 0),
        n <= w,
        n > 0 ==> at + n <= s@.len(),
{
    let mut k: usize = 0;
    while k < w && at < s.len() && k < s.len() - at && s[at + k] == ' '
        invariant
            k <= w,
            k > 0 ==> at + k <= s@.len(),
            spaces_at(s@, at as nat, w as nat, k as nat) == spaces_at(s@, at as nat, w as nat, 0),
        decreases w - k,
    {
        k += 1;
    }
    k
}

fn space_chars(w: usize) -> (r: Vec<char>)
    ensures
        r@ == spaces(w as nat),
{
    let mut r: Vec<char> = Vec::new();
    let mut i: usize = 0;
    while i < w
        invariant
            i <= w,
            r@ == spaces(i as nat),
        decreases w - i,
    {
        r.push(' ');
        proof {
            assert(r@ =~= spaces((i + 1) as nat));
        }
        i += 1;
    }
    r
}

fn line_starts_exec(s: &[char], start: usize, end: usize) -> (r: Vec<usize>)
    requires
        start <= end,
    ensures
        r@.map_values(|x: usize| x as nat) == selected_line_starts(s@, start as nat, end as nat),
        r@.len() >= 1,
{
    let len = s.len();
    let lim = if start < len {
        start
    } else {
        len
    };
    let first = line_start_exec(s, lim);
    let mut r: Vec<usize> = Vec::new();
    r.push(first);
    let stop = if end < len {
        end
    } else {
        len
    };
    let mut i = first;
    proof {
        assert(r@.map_values(|x: usize| x as nat) + later_line_starts(s@, first as nat, end as nat)
            =~= selected_line_starts(s@, start as nat, end as nat));
    }
    while i < stop
        invariant
            first <= i,
            stop <= s@.len(),
            stop == if end < s@.len() { end } else { s@.len() as usize },
            r@.len() >= 1,
            r@.map_values(|x: usize| x as nat) + later_line_starts(s@, i as nat, end as nat)
                == selected_line_starts(s@, start as nat, end as nat),
        decreases stop - i,
    {
        let ghost before = r@.map_values(|x: usize| x as nat);
        if s[i] == '\n' && i + 1 < end {
            r.push(i + 1);
            proof {
                assert(r@.map_values(|x: usize| x as nat) =~= before.push((i + 1) as nat));
                assert(r@.map_values(|x: usize| x as nat) + later_line_starts(s@, (i + 1) as nat, end as nat)
                    =~= before + (seq![(i + 1) as nat] + later_line_starts(s@, (i + 1) as nat, end as nat)));
            }
        }
        i += 1;
    }
    proof {
        assert(later_line_starts(s@, i as nat, end as nat) =~= Seq::<nat>::empty());
        assert(r@.map_values(|x: usize| x as nat) + Seq::<nat>::empty() =~= r@.map_values(|x: usize| x as nat));
    }
    r
}


proof fn lemma_later_sorted(s: Seq<char>, i: nat, end: nat)
    ensures
        forall|a: int, b: int|
            0 <= a < b < later_line_starts(s, i, end).len() ==> later_line_starts(s, i, end)[a]
                < later_line_starts(s, i, end)[b],
        forall|k: int| 0 <= k < later_line_starts(s, i, end).len() ==> i < #[trigger] later_line_starts(s, i, end)[k] <= s.len(),
    decreases s.len() - i,
{
    if i < s.len() && i < end {
        lemma_later_sorted(s, i + 1, end);
        let rest = later_line_starts(s, i + 1, end);
        if s[i as int] == '\n' && i + 1 < end {
            let all = later_line_starts(s, i, end);
            assert(all =~= seq![i + 1] + rest);
            assert forall|a: int, b: int| 0 <= a < b < all.len() implies all[a] < all[b] by {
                if a == 0 {
                    assert(all[b] == rest[b - 1]);
                } else {
                    assert(all[a] == rest[a - 1] && all[b] == rest[b - 1]);
                }
            }
            assert forall|k: int| 0 <= k < all.len() implies i < #[trigger] all[k] <= s.len() by {
                if k > 0 {
                    assert(all[k] == rest[k - 1]);
                }
            }
        }
    }
}

/// The covered line starts are increasing and within the text.
pub(crate) proof fn lemma_selected_sorted(s: Seq<char>, start: nat, end: nat)
    ensures
        ({
            let st = selected_line_starts(s, start, end);
            &&& forall|a: int, b: int| 0 <= a < b < st.len() ==> st[a] < st[b]
            &&& forall|k: int| 0 <= k < st.len() ==> #[trigger] st[k] <= s.len()
        }),
{
    let first = line_start_before(s, min_idx(start, s.len()));
    lemma_line_start_before(s, min_idx(start, s.len()));
    lemma_later_sorted(s, first, end);
    let rest = later_line_starts(s, first, end);
    let st = selected_line_starts(s, start, end);
    assert(st =~= seq![first] + rest);
    assert forall|a: int, b: int| 0 <= a < b < st.len() implies st[a] < st[b] by {
        if a == 0 {
            assert(st[b] == rest[b - 1]);
        } else {
            assert(st[a] == rest[a - 1] && st[b] == rest[b - 1]);
        }
    }
    assert forall|k: int| 0 <= k < st.len() implies #[trigger] st[k] <= s.len() by {
        if k > 0 {
            assert(st[k] == rest[k - 1]);
        }
    }
}

fn indent_lines(s: &[char], starts: &Vec<usize>, w: usize) -> (r: Vec<char>)
    requires
        forall|k: int| 0 <= k < starts@.len() ==> #[trigger] starts@[k] <= s@.len(),
    ensures
        r@ == indent_from(s@, starts@.map_values(|x: usize| x as nat), starts@.len(), w as nat),
{
    let ghost st = starts@.map_values(|x: usize| x as nat);
    let sp = space_chars(w);
    let mut t = sub_chars(s, 0, s.len());
    let mut k = starts.len();
    proof {
        assert(t@ =~= s@);
    }
    while k > 0
        invariant
            k <= starts@.len(),
            st == starts@.map_values(|x: usize| x as nat),
            sp@ == spaces(w as nat),
            t@.len() >= s@.len(),
            forall|j: int| 0 <= j < starts@.len() ==> #[trigger] starts@[j] <= s@.len(),
            indent_from(t@, st, k as nat, w as nat) == indent_from(s@, st, starts@.len(), w as nat),
        decreases k,
    {
        let at = starts[k - 1];
        proof {
            assert(st[k - 1] == at as nat);
        }
        let t2 = put_chars(t.as_slice(), at, sp.as_slice());
        t = t2;
        k -= 1;
    }
    t
}

fn unindent_lines(s: &[char], starts: &Vec<usize>, w: usize) -> (r: (Vec<char>, usize, usize))
    requires
        forall|a: int, b: int| 0 <= a < b < starts@.len() ==> starts@[a] < starts@[b],
        forall|k: int| 0 <= k < starts@.len() ==> #[trigger] starts@[k] <= s@.len(),
    ensures
        (r.0@, r.1 as nat, r.2 as nat) == unindent_from(s@, starts@.map_values(|x: usize| x as nat), starts@.len(), w as nat),
{
    let ghost st = starts@.map_values(|x: usize| x as nat);
    let ghost total = unindent_from(s@, st, starts@.len(), w as nat);
    let mut t = sub_chars(s, 0, s.len());
    let mut k = starts.len();
    let mut removed: usize = 0;
    let mut first: usize = 0;
    let sl = s.len();
    proof {
        assert(t@ =~= s@);
    }
    while k > 0
        invariant
            sl == s@.len(),
            k <= starts@.len(),
            st == starts@.map_values(|x: usize| x as nat),
            total == unindent_from(s@, st, starts@.len(), w as nat),
            removed <= s@.len(),
            t@.len() + removed == s@.len(),
            forall|a: int, b: int| 0 <= a < b < starts@.len() ==> starts@[a] < starts@[b],
            forall|j: int| 0 <= j < k ==> #[trigger] starts@[j] <= t@.len(),
            ({
                let (r, rem, f) = unindent_from(t@, st, k as nat, w as nat);
                total == (r, (rem + removed) as nat, if k == 0 {
                    first as nat
                } else {
                    f
                })
            }),
        decreases k,
    {
        let at = starts[k - 1];
        proof {
            assert(st[k - 1] == at as nat);
        }
        let n = spaces_exec(t.as_slice(), at, w);
        let ghost old_t = t@;
        if n > 0 {
            let head = sub_chars(t.as_slice(), 0, at);
            let tl = t.len();
            let tail = sub_chars(t.as_slice(), at + n, tl);
            let mut t2 = head;
            extend_chars(&mut t2, tail.as_slice());
            proof {
                assert(t2@ =~= old_t.take(at as int) + old_t.skip((at + n) as int));
            }
            t = t2;
            removed = removed + n;
        }
        if k == 1 {
            first = n;
        }
        proof {
            assert forall|j: int| 0 <= j < k - 1 implies #[trigger] starts@[j] <= t@.len() by {
                assert(starts@[j] < starts@[k - 1]);
            }
        }
        k -= 1;
    }
    (t, removed, first)
}

/// Whether Tab or Shift+Tab with this cursor range can run: the positions that
/// Tab moves the cursor to fit in an index (see `tab_fits`).
pub fn tab_would_fit(s: &[char], primary: usize, secondary: usize, tab: bool, w: usize) -> (r: bool)
    ensures
        r == tab_fits(s@, primary as nat, secondary as nat, tab, w as nat),
{
    if !tab {
        return true;
    }
    if primary == secondary {
        return primary.checked_add(w).is_some();
    }
    let (start, end) = if primary < secondary {
        (primary, secondary)
    } else {
        (secondary, primary)
    };
    let starts = line_starts_exec(s, start, end);
    let n = starts.len();
    proof {
        assert(starts@.map_values(|x: usize| x as nat).len() == n);
    }
    match w.checked_mul(n) {
        Some(m) => end.checked_add(m).is_some(),
        None => false,
    }
}

/// Applies Tab (`tab`) or Shift+Tab to the text with the cursor range
/// `primary`/`secondary`; returns the new text, anchor and head (see `tab_result`).
pub fn tab_edit(s: &[char], primary: usize, secondary: usize, tab: bool, w: usize) -> (r: (Vec<char>, usize, usize))
    requires
        tab_fits(s@, primary as nat, secondary as nat, tab, w as nat),
    ensures
        (r.0@, r.1 as nat, r.2 as nat) == tab_result(s@, primary as nat, secondary as nat, tab, w as nat),
{
    let len = s.len();
    if primary == secondary {
        let c = primary;
        let at = if c < len {
            c
        } else {
            len
        };
        if tab {
            let sp = space_chars(w);
            let r = put_chars(s, at, sp.as_slice());
            (r, c + w, c + w)
        } else {
            let ls = line_start_exec(s, at);
            let n = spaces_exec(s, ls, w);
            if n > 0 {
                let mut r = sub_chars(s, 0, ls);
                let tail = sub_chars(s, ls + n, len);
                extend_chars(&mut r, tail.as_slice());
                proof {
                    assert(r@ =~= s@.take(ls as int) + s@.skip((ls + n) as int));
                }
                let nc = if c >= ls + n {
                    c - n
                } else {
                    ls
                };
                (r, nc, nc)
            } else {
                (sub_chars(s, 0, len), c, c)
            }
        }
    } else {
        let start = if primary <= secondary {
            primary
        } else {
            secondary
        };
        let end = if primary <= secondary {
            secondary
        } else {
            primary
        };
        let starts = line_starts_exec(s, start, end);
        let ghost st = starts@.map_values(|x: usize| x as nat);
        proof {
            lemma_selected_sorted(s@, start as nat, end as nat);
            assert forall|k: int| 0 <= k < starts@.len() implies #[trigger] starts@[k] <= s@.len() by {
                assert(st[k] == starts@[k] as nat);
            }
            assert forall|a: int, b: int| 0 <= a < b < starts@.len() implies starts@[a] < starts@[b] by {
                assert(st[a] == starts@[a] as nat && st[b] == starts@[b] as nat);
            }
        }
        let first = starts[0];
        proof {
            assert(st[0] == first as nat);
        }
        let (r, new_start, new_end) = if tab {
            let r = indent_lines(s, &starts, w);
            let cnt = starts.len();
            proof {
                assert(w * cnt >= w) by (nonlinear_arith)
                    requires cnt >= 1;
            }
            (r, start + w, end + w * cnt)
        } else {
            let (r, removed, first_removed) = unindent_lines(s, &starts, w);
            let ns = if start >= first && start - first >= first_removed {
                start - first_removed
            } else {
                first
            };
            let ne = if end >= ns && end - ns >= removed {
                end - removed
            } else {
                ns
            };
            (r, ns, ne)
        };
        if primary >= secondary {
            (r, new_start, new_end)
        } else {
            (r, new_end, new_start)
        }
    }
}

/// The line start before `i` depends only on the text before `i`.
pub(crate) proof fn lemma_line_start_prefix(s: Seq<char>, t: Seq<char>, i: nat)
    requires
        i <= s.len(),
        i <= t.len(),
        s.take(i as int) == t.take(i as int),
    ensures
        line_start_before(s, i) == line_start_before(t, i),
    decreases i,
{
    if i > 0 {
        assert(s[i - 1] == s.take(i as int)[i - 1]);
        assert(t[i - 1] == t.take(i as int)[i - 1]);
        assert(s.take(i - 1) =~= s.take(i as int).take(i - 1));
        assert(t.take(i - 1) =~= t.take(i as int).take(i - 1));
        lemma_line_start_prefix(s, t, (i - 1) as nat);
    }
}

/// Characters other than a line feed after a line start keep the line start.
pub(crate) proof fn lemma_line_start_over_line(t: Seq<char>, c: nat, j: nat)
    requires
        c + j <= t.len(),
        line_start_before(t, c) == c,
        forall|k: int| c <= k < c + j ==> t[k] != '\n',
    ensures
        line_start_before(t, c + j) == c,
    decreases j,
{
    if j > 0 {
        assert(t[c + j - 1] != '\n');
        lemma_line_start_over_line(t, c, (j - 1) as nat);
    }
}

/// `w` spaces from position `at` count as `w` leading spaces.
pub(crate) proof fn lemma_spaces_at_full(t: Seq<char>, at: nat, w: nat, k: nat)
    requires
        k <= w,
        at + w <= t.len(),
        forall|x: int| at <= x < at + w ==> t[x] == ' ',
    ensures
        spaces_at(t, at, w, k) == w,
    decreases w - k,
{
    if k < w {
        assert(t[(at + k) as int] == ' ');
        lemma_spaces_at_full(t, at, w, k + 1);
    }
}

/// At the start of a line, Shift+Tab undoes Tab: the text and the cursor come back.
pub proof fn law_shift_tab_undoes_tab_at_line_start(s: Seq<char>, c: nat, w: nat)
    requires
        c <= s.len(),
        line_start_before(s, c) == c,
    ensures
        ({
            let (t, a, h) = tab_result(s, c, c, true, w);
            tab_result(t, h, a, false, w) == (s, c, c)
        }),
{
    let t = put_at(s, c, spaces(w));
    assert(tab_result(s, c, c, true, w) == (t, c + w, c + w));
    assert(t.take(c as int) =~= s.take(c as int));
    lemma_line_start_prefix(s, t, c);
    assert forall|k: int| c <= k < c + w implies t[k] == ' ' by {
        assert(t[k] == spaces(w)[k - c]);
    }
    lemma_line_start_over_line(t, c, w);
    lemma_spaces_at_full(t, c, w, 0);
    if w > 0 {
        assert(t.take(c as int) + t.skip((c + w) as int) =~= s);
    } else {
        assert(t =~= s);
    }
}

} // verus!
