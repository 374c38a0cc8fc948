//! Why Shift+Tab takes back what Tab did to the lines of a selection.
//!
//! Tab puts the spaces at the covered line starts from the last line up; the
//! proofs here look at the same text built from the first line down, where the
//! `j`-th line start has moved by `j` indents when its own spaces go in.
use vstd::prelude::*;
use crate::editor::autoclose::{
    indent_from, later_line_starts, lemma_later_line_starts, lemma_line_start_over_line,
    lemma_line_start_prefix, lemma_selected_sorted, lemma_spaces_at_full, line_start_before, max_idx,
    min_idx, put_at, selected_line_starts, spaces, spaces_at, tab_result, unindent_from,
};

verus! {

/// `s` with `w` spaces put at the first `k` line starts, the first line first:
/// the `j`-th start has moved by `j * w` when its spaces go in.
spec fn indented_top_down(s: Seq<char>, starts: Seq<nat>, w: nat, k: nat) -> Seq<char>
    decreases k,
{
    if k == 0 {
        s
    } else {
        let j = (k - 1) as nat;
        put_at(indented_top_down(s, starts, w, j), starts[j as int] + j * w, spaces(w))
    }
}

/// Two insertions commute: the later position moves by the earlier insertion.
proof fn lemma_put_at_swap(x: Seq<char>, q: nat, a: nat, w: nat)
    requires
        q <= a <= x.len(),
    ensures
        put_at(put_at(x, a, spaces(w)), q, spaces(w)) == put_at(put_at(x, q, spaces(w)), a + w, spaces(w)),
{
    let l = put_at(put_at(x, a, spaces(w)), q, spaces(w));
    let r = put_at(put_at(x, q, spaces(w)), a + w, spaces(w));
    assert(l.len() == r.len());
    assert forall|i: int| 0 <= i < l.len() implies l[i] == r[i] by {
        if i < q {
        } else if i < q + w {
        } else if i < a + w {
        } else if i < a + 2 * w {
        } else {
        }
    }
    assert(l =~= r);
}

proof fn lemma_indented_len(s: Seq<char>, starts: Seq<nat>, w: nat, k: nat)
    requires
        k <= starts.len(),
        forall|j: int| 0 <= j < starts.len() ==> #[trigger] starts[j] <= s.len(),
    ensures
        indented_top_down(s, starts, w, k).len() == s.len() + k * w,
    decreases k,
{
    if k > 0 {
        let j = (k - 1) as nat;
        lemma_indented_len(s, starts, w, j);
        let x = indented_top_down(s, starts, w, j);
        let p = starts[j as int] + j * w;
        assert(p <= x.len());
        assert(put_at(x, p, spaces(w)).len() == x.len() + w);
        assert(indented_top_down(s, starts, w, k) == put_at(x, p, spaces(w)));
        assert(j * w + w == k * w) by (nonlinear_arith)
            requires
                j + 1 == k,
        ;
    } else {
        assert(k * w == 0) by (nonlinear_arith)
            requires
                k == 0,
        ;
    }
}

/// Spaces put at `p` before the top-down insertions, all at starts below `p`, land
/// at `p` moved by every one of them.
proof fn lemma_put_below(s: Seq<char>, starts: Seq<nat>, w: nat, m: nat, p: nat)
    requires
        m <= starts.len(),
        p <= s.len(),
        forall|j: int| 0 <= j < starts.len() ==> #[trigger] starts[j] <= s.len(),
        forall|j: int| 0 <= j < m ==> #[trigger] starts[j] <= p,
    ensures
        indented_top_down(put_at(s, p, spaces(w)), starts, w, m)
            == put_at(indented_top_down(s, starts, w, m), p + m * w, spaces(w)),
    decreases m,
{
    let s1 = put_at(s, p, spaces(w));
    if m == 0 {
        assert(m * w == 0) by (nonlinear_arith)
            requires
                m == 0,
        ;
    } else {
        let k = (m - 1) as nat;
        assert forall|j: int| 0 <= j < starts.len() implies #[trigger] starts[j] <= s1.len() by {}
        lemma_put_below(s, starts, w, k, p);
        lemma_indented_len(s, starts, w, k);
        let x = indented_top_down(s, starts, w, k);
        let q = starts[k as int] + k * w;
        assert(starts[k as int] <= p);
        lemma_put_at_swap(x, q, p + k * w, w);
        let y = indented_top_down(s1, starts, w, k);
        assert(y == put_at(x, p + k * w, spaces(w)));
        assert(indented_top_down(s1, starts, w, m) == put_at(y, q, spaces(w)));
        assert(indented_top_down(s, starts, w, m) == put_at(x, q, spaces(w)));
        assert(k * w + w == m * w) by (nonlinear_arith)
            requires
                k + 1 == m,
        ;
    }
}

/// Tab's order of insertion, from the last start down, gives the same text.
proof fn lemma_indent_top_down(s: Seq<char>, starts: Seq<nat>, w: nat, k: nat)
    requires
        k <= starts.len(),
        forall|j: int| 0 <= j < starts.len() ==> #[trigger] starts[j] <= s.len(),
        forall|a: int, b: int| 0 <= a < b < starts.len() ==> starts[a] < starts[b],
    ensures
        indent_from(s, starts, k, w) == indented_top_down(s, starts, w, k),
    decreases k,
{
    if k > 0 {
        let m = (k - 1) as nat;
        let p = starts[m as int];
        let s1 = put_at(s, p, spaces(w));
        assert forall|j: int| 0 <= j < starts.len() implies #[trigger] starts[j] <= s1.len() by {}
        lemma_indent_top_down(s1, starts, w, m);
        assert forall|j: int| 0 <= j < m implies #[trigger] starts[j] <= p by {}
        lemma_put_below(s, starts, w, m, p);
    }
}

/// Removing the spaces from the last moved start down undoes the top-down insertions.
proof fn lemma_unindent_top_down(s: Seq<char>, starts: Seq<nat>, moved: Seq<nat>, w: nat, k: nat)
    requires
        k <= starts.len(),
        moved.len() == starts.len(),
        forall|j: int| 0 <= j < starts.len() ==> #[trigger] starts[j] <= s.len(),
        forall|j: int| 0 <= j < starts.len() ==> #[trigger] moved[j] == starts[j] + j * w,
    ensures
        unindent_from(indented_top_down(s, starts, w, k), moved, k, w) == (s, k * w, if k == 0 {
            0
        } else {
            w
        }),
    decreases k,
{
    if k == 0 {
        assert(k * w == 0) by (nonlinear_arith)
            requires
                k == 0,
        ;
    } else {
        let j = (k - 1) as nat;
        lemma_indented_len(s, starts, w, j);
        let x = indented_top_down(s, starts, w, j);
        let at = moved[j as int];
        assert(at == starts[j as int] + j * w);
        let cur = put_at(x, at, spaces(w));
        assert(indented_top_down(s, starts, w, k) == cur);
        assert forall|i: int| at <= i < at + w implies cur[i] == ' ' by {
            assert(cur[i] == spaces(w)[i - at]);
        }
        lemma_spaces_at_full(cur, at, w, 0);
        assert(spaces_at(cur, at, w, 0) == w);
        if w > 0 {
            assert(cur.take(at as int) + cur.skip((at + w) as int) =~= x);
        } else {
            assert(cur =~= x);
        }
        lemma_unindent_top_down(s, starts, moved, w, j);
        assert(j * w + w == k * w) by (nonlinear_arith)
            requires
                j + 1 == k,
        ;
    }
}

/// Where position `p` goes when `w` characters are put at `at`.
spec fn moved_past(p: nat, at: nat, w: nat) -> nat {
    if p > at {
        p + w
    } else {
        p
    }
}

/// Put spaces hold no line feed, so the line starts after them are those after their end.
proof fn lemma_later_over_spaces(x: Seq<char>, at: nat, w: nat, m: nat, end: nat)
    requires
        at <= x.len(),
        m <= w,
    ensures
        later_line_starts(put_at(x, at, spaces(w)), at + m, end)
            == later_line_starts(put_at(x, at, spaces(w)), at + w, end),
    decreases w - m,
{
    let y = put_at(x, at, spaces(w));
    if m < w {
        assert(y[(at + m) as int] == spaces(w)[m as int]);
        lemma_later_over_spaces(x, at, w, m + 1, end);
    }
}

/// Past the put spaces the text is the old text, so its line starts move by `w`.
proof fn lemma_later_after_put(x: Seq<char>, at: nat, w: nat, i: nat, end: nat)
    requires
        at <= i <= x.len(),
    ensures
        later_line_starts(put_at(x, at, spaces(w)), i + w, end + w)
            == later_line_starts(x, i, end).map_values(|p: nat| p + w),
    decreases x.len() - i,
{
    let y = put_at(x, at, spaces(w));
    if i < x.len() && i < end {
        assert(y[(i + w) as int] == x[i as int]);
        lemma_later_after_put(x, at, w, i + 1, end);
        let rest = later_line_starts(x, i + 1, end);
        if x[i as int] == '\n' && i + 1 < end {
            assert((seq![i + 1] + rest).map_values(|p: nat| p + w) =~= seq![i + 1 + w] + rest.map_values(
                |p: nat| p + w,
            ));
        }
    } else {
        assert(later_line_starts(x, i, end).map_values(|p: nat| p + w) =~= Seq::<nat>::empty());
    }
}

/// Spaces put at `at`, before the selection's end, move the line starts past `at` by `w`.
proof fn lemma_later_line_starts_put(x: Seq<char>, at: nat, w: nat, i: nat, end: nat)
    requires
        i <= at <= x.len(),
        at < end,
    ensures
        later_line_starts(put_at(x, at, spaces(w)), i, end + w)
            == later_line_starts(x, i, end).map_values(|p: nat| moved_past(p, at, w)),
    decreases at - i,
{
    let y = put_at(x, at, spaces(w));
    if i == at {
        lemma_later_over_spaces(x, at, w, 0, end + w);
        lemma_later_after_put(x, at, w, at, end);
        lemma_later_line_starts(x, at, end);
        let l = later_line_starts(x, at, end);
        assert(l.map_values(|p: nat| p + w) =~= l.map_values(|p: nat| moved_past(p, at, w)));
    } else {
        assert(y[i as int] == x[i as int]);
        lemma_later_line_starts_put(x, at, w, i + 1, end);
        let rest = later_line_starts(x, i + 1, end);
        if x[i as int] == '\n' && i + 1 < end {
            assert((seq![i + 1] + rest).map_values(|p: nat| moved_past(p, at, w)) =~= seq![i + 1]
                + rest.map_values(|p: nat| moved_past(p, at, w)));
        }
    }
}

/// The `j`-th line start after the first `k` top-down insertions: a start below the
/// `k`-th has already got its own spaces in front of it, the others have moved past
/// all `k` of them.
spec fn partly_moved(starts: Seq<nat>, w: nat, k: nat, j: nat) -> nat {
    if j < k {
        starts[j as int] + j * w
    } else {
        starts[j as int] + k * w
    }
}

proof fn lemma_mul_steps(j: nat, k: nat, w: nat)
    ensures
        j < k ==> j * w <= k * w,
        k * w + w == (k + 1) * w,
        0 * w == 0,
{
    assert(j < k ==> j * w <= k * w) by (nonlinear_arith);
    assert(k * w + w == (k + 1) * w) by (nonlinear_arith);
    assert(0 * w == 0) by (nonlinear_arith);
}

/// The line starts after the first one, once the first `k` starts got their spaces.
proof fn lemma_later_top_down(s: Seq<char>, starts: Seq<nat>, w: nat, k: nat, end: nat)
    requires
        1 <= starts.len(),
        k <= starts.len(),
        forall|j: int| 0 <= j < starts.len() ==> #[trigger] starts[j] <= s.len(),
        forall|j: int| 0 <= j < starts.len() ==> #[trigger] starts[j] < end,
        forall|a: int, b: int| 0 <= a < b < starts.len() ==> starts[a] < starts[b],
        later_line_starts(s, starts[0], end) == starts.skip(1),
    ensures
        later_line_starts(indented_top_down(s, starts, w, k), starts[0], end + k * w)
            == Seq::new((starts.len() - 1) as nat, |i: int| partly_moved(starts, w, k, (i + 1) as nat)),
    decreases k,
{
    let n = starts.len();
    let target = Seq::new((n - 1) as nat, |i: int| partly_moved(starts, w, k, (i + 1) as nat));
    if k == 0 {
        lemma_mul_steps(0, 0, w);
        assert(starts.skip(1) =~= target);
    } else {
        let m = (k - 1) as nat;
        lemma_later_top_down(s, starts, w, m, end);
        lemma_indented_len(s, starts, w, m);
        let x = indented_top_down(s, starts, w, m);
        let at = starts[m as int] + m * w;
        lemma_mul_steps(m, m, w);
        assert(starts[0] <= starts[m as int]);
        lemma_later_line_starts_put(x, at, w, starts[0], end + m * w);
        assert(end + m * w + w == end + k * w);
        let prev = Seq::new((n - 1) as nat, |i: int| partly_moved(starts, w, m, (i + 1) as nat));
        let mapped = prev.map_values(|p: nat| moved_past(p, at, w));
        assert forall|i: int| 0 <= i < n - 1 implies mapped[i] == target[i] by {
            let j = (i + 1) as nat;
            lemma_mul_steps(j, m, w);
            if j < m {
                assert(starts[j as int] < starts[m as int]);
            } else if j > m {
                assert(starts[j as int] > starts[m as int]);
            }
        }
        assert(mapped =~= target);
    }
}

/// The line start before `i`: no line feed lies between it and `i`, and it is a
/// line start of its own.
proof fn lemma_line_start_props(s: Seq<char>, i: nat)
    requires
        i <= s.len(),
    ensures
        line_start_before(s, i) <= i,
        line_start_before(s, i) == 0 || s[line_start_before(s, i) - 1] == '\n',
        forall|k: int| line_start_before(s, i) <= k < i ==> s[k] != '\n',
        line_start_before(s, line_start_before(s, i)) == line_start_before(s, i),
    decreases i,
{
    if i > 0 && s[i - 1] != '\n' {
        lemma_line_start_props(s, (i - 1) as nat);
    }
}

/// Each later line start follows a line feed at or after `i` and lies before `end`.
proof fn lemma_later_props(s: Seq<char>, i: nat, end: nat)
    ensures
        forall|k: int|
            0 <= k < later_line_starts(s, i, end).len() ==> {
                let p = #[trigger] later_line_starts(s, i, end)[k];
                &&& i < p < end
                &&& p <= s.len()
                &&& s[p - 1] == '\n'
            },
    decreases s.len() - i,
{
    if i < s.len() && i < end {
        lemma_later_props(s, i + 1, end);
        let rest = later_line_starts(s, i + 1, end);
        if s[i as int] == '\n' && i + 1 < end {
            let all = later_line_starts(s, i, end);
            assert forall|k: int| 1 <= k < all.len() implies all[k] == rest[k - 1] by {}
        }
    }
}

/// Insertions at the starts after the first leave the text before them as it was
/// after the first one.
proof fn lemma_take_top_down(s: Seq<char>, starts: Seq<nat>, w: nat, k: nat, b: nat)
    requires
        1 <= k <= starts.len(),
        forall|j: int| 0 <= j < starts.len() ==> #[trigger] starts[j] <= s.len(),
        forall|j: int| 1 <= j < starts.len() ==> b <= #[trigger] starts[j] + w,
        b <= s.len() + w,
    ensures
        b <= indented_top_down(s, starts, w, k).len(),
        indented_top_down(s, starts, w, k).take(b as int) == indented_top_down(s, starts, w, 1).take(b as int),
    decreases k,
{
    lemma_indented_len(s, starts, w, k);
    lemma_mul_steps(1, k, w);
    assert(1 * w == w) by (nonlinear_arith);
    if k > 1 {
        let m = (k - 1) as nat;
        lemma_take_top_down(s, starts, w, m, b);
        lemma_indented_len(s, starts, w, m);
        let x = indented_top_down(s, starts, w, m);
        let at = starts[m as int] + m * w;
        lemma_mul_steps(1, m, w);
        assert(b <= at);
        assert(put_at(x, at, spaces(w)).take(b as int) =~= x.take(b as int));
    }
}

/// After Tab, the line that holds the selection's moved start still starts where
/// the first covered line started.
proof fn lemma_first_start_kept(s: Seq<char>, starts: Seq<nat>, w: nat, start: nat)
    requires
        start <= s.len(),
        1 <= starts.len(),
        starts[0] == line_start_before(s, start),
        forall|j: int| 0 <= j < starts.len() ==> #[trigger] starts[j] <= s.len(),
        forall|j: int| 1 <= j < starts.len() ==> start < #[trigger] starts[j],
    ensures
        start + w <= indented_top_down(s, starts, w, starts.len()).len(),
        line_start_before(indented_top_down(s, starts, w, starts.len()), start + w) == starts[0],
{
    let n = starts.len();
    let first = starts[0];
    lemma_line_start_props(s, start);
    lemma_mul_steps(0, 0, w);
    let t1 = put_at(s, first, spaces(w));
    assert(indented_top_down(s, starts, w, 1) == t1) by {
        assert(indented_top_down(s, starts, w, 0) == s);
    }
    assert(t1.take(first as int) =~= s.take(first as int));
    lemma_line_start_prefix(s, t1, first);
    assert forall|k: int| first <= k < start + w implies t1[k] != '\n' by {
        if k >= first + w {
            assert(t1[k] == s[k - w]);
        } else {
            assert(t1[k] == spaces(w)[k - first]);
        }
    }
    lemma_line_start_over_line(t1, first, (start + w - first) as nat);
    lemma_take_top_down(s, starts, w, n, start + w);
    let t = indented_top_down(s, starts, w, n);
    lemma_line_start_prefix(t1, t, start + w);
}

/// With a selection, Shift+Tab takes back a Tab: the text comes back, and so do
/// the selection's two ends, each on its own side.
pub proof fn law_shift_tab_undoes_tab_on_selection(s: Seq<char>, primary: nat, secondary: nat, w: nat)
    requires
        primary != secondary,
        primary <= s.len(),
        secondary <= s.len(),
    ensures
        ({
            let (t, anchor, head) = tab_result(s, primary, secondary, true, w);
            tab_result(t, head, anchor, false, w) == (s, secondary, primary)
        }),
{
    let start = min_idx(primary, secondary);
    let end = max_idx(primary, secondary);
    let st = selected_line_starts(s, start, end);
    let n = st.len();
    let first = line_start_before(s, start);
    let later = later_line_starts(s, first, end);
    assert(st =~= seq![first] + later);
    assert(st.skip(1) =~= later);
    lemma_line_start_props(s, start);
    lemma_selected_sorted(s, start, end);
    lemma_later_props(s, first, end);
    assert forall|j: int| 0 <= j < n implies #[trigger] st[j] < end by {
        if j > 0 {
            assert(st[j] == later[j - 1]);
        }
    }
    assert forall|j: int| 1 <= j < n implies start < #[trigger] st[j] by {
        assert(st[j] == later[j - 1]);
        assert(s[st[j] - 1] == '\n');
    }
    let t = indent_from(s, st, n, w);
    lemma_indent_top_down(s, st, w, n);
    lemma_indented_len(s, st, w, n);
    assert(w * n == n * w) by (nonlinear_arith);
    let new_start = start + w;
    let new_end = end + n * w;
    // the covered line starts after Tab
    lemma_first_start_kept(s, st, w, start);
    lemma_later_top_down(s, st, w, n, end);
    let moved = Seq::new(n, |j: int| (st[j] + j * w) as nat);
    assert(selected_line_starts(t, new_start, new_end) =~= moved) by {
        assert(min_idx(new_start, t.len()) == new_start);
        lemma_mul_steps(0, 0, w);
    }
    lemma_unindent_top_down(s, st, moved, w, n);
    let back = selected_line_starts(t, new_start, new_end);
    assert(back.len() == n && back[0] == first);
    assert(unindent_from(t, back, n, w) == (s, n * w, w));
    assert(w <= n * w) by (nonlinear_arith)
        requires
            n >= 1,
    ;
    assert(min_idx(new_start, new_end) == new_start && max_idx(new_start, new_end) == new_end);
    assert(min_idx(new_end, new_start) == new_start && max_idx(new_end, new_start) == new_end);
    if primary >= secondary {
        assert(tab_result(s, primary, secondary, true, w) == (t, new_start, new_end));
        assert(tab_result(t, new_end, new_start, false, w) == (s, start, end));
    } else {
        assert(tab_result(s, primary, secondary, true, w) == (t, new_end, new_start));
        assert(tab_result(t, new_start, new_end, false, w) == (s, end, start));
    }
}

} // verus!
