//! Heading anchors and link targets: the logic behind following links in the preview.
pub mod links;
pub mod paths;
pub mod state;
pub mod tab_bar;

pub use paths::{clean_path, resolve_link_path};

use vstd::prelude::*;
use crate::text::{
    ascii_lower, chars_equal, chars_of, is_alnum, is_alphanumeric, is_white, is_whitespace,
    leading_white_from, lines_of, split_lines, string_of, sub_chars, to_ascii_lowercase, trailing_white_end,
    trim, trim_chars,
};

verus! {

/// The raw slug of `s`: alphanumeric characters lower-cased (ASCII letters only),
/// each run of whitespace, `-` and `_` (after a character kept) as one `-`, every
/// other character dropped. `dash` tells whether the slug so far ends with that `-`.
pub open spec fn slug_chars(s: Seq<char>, dash: bool) -> Seq<char>
    decreases s.len(),
{
    if s.len() == 0 {
        Seq::empty()
    } else {
        let c = s[0];
        if is_alnum(c) {
            seq![ascii_lower(c)] + slug_chars(s.drop_first(), false)
        } else if (is_white(c) || c == '-' || c == '_') && !dash {
            seq!['-'] + slug_chars(s.drop_first(), true)
        } else {
            slug_chars(s.drop_first(), dash)
        }
    }
}

/// A dash or an underscore.
pub open spec fn is_dash(c: char) -> bool {
    c == '-' || c == '_'
}

/// The number of leading dashes and underscores of `s`, counting from `i`.
pub open spec fn leading_dashes(s: Seq<char>, i: nat) -> nat
    decreases s.len() - i,
{
    if i < s.len() && is_dash(s[i as int]) {
        leading_dashes(s, i + 1)
    } else {
        i
    }
}

/// Where `s` ends once trailing dashes and underscores before `j` are dropped.
pub open spec fn dashes_end(s: Seq<char>, j: nat) -> nat
    decreases j,
{
    if j > 0 && j <= s.len() && is_dash(s[j - 1]) {
        dashes_end(s, (j - 1) as nat)
    } else {
        j
    }
}

/// `s` without leading and trailing dashes and underscores.
pub open spec fn trim_dashes(s: Seq<char>) -> Seq<char> {
    let t = s.skip(leading_dashes(s, 0) as int);
    t.take(dashes_end(t, t.len()) as int)
}

/// The anchor slug of a heading text.
pub open spec fn slug(s: Seq<char>) -> Seq<char> {
    trim_dashes(slug_chars(s, false))
}

/// A slug: lower-cased alphanumerics and single dashes, no dash at either end.
pub open spec fn is_slug(u: Seq<char>) -> bool {
    &&& forall|k: int|
        0 <= k < u.len() ==> (#[trigger] u[k] == '-' || (is_alnum(u[k]) && ascii_lower(u[k])
            == u[k]))
    &&& forall|k: int| 0 <= k < u.len() - 1 ==> !(#[trigger] u[k] == '-' && u[k + 1] == '-')
    &&& u.len() > 0 ==> u[0] != '-' && u.last() != '-'
}

/// A raw slug has only lower-cased alphanumerics and dashes, and no two dashes in a
/// row; it starts with a dash only when the text before it did not end with one.
proof fn lemma_slug_chars_shape(s: Seq<char>, dash: bool)
    ensures
        ({
            let u = slug_chars(s, dash);
            &&& forall|k: int|
                0 <= k < u.len() ==> (#[trigger] u[k] == '-' || (is_alnum(u[k]) && ascii_lower(u[k])
                    == u[k]))
            &&& forall|k: int| 0 <= k < u.len() - 1 ==> !(#[trigger] u[k] == '-' && u[k + 1] == '-')
            &&& dash && u.len() > 0 ==> u[0] != '-'
        }),
    decreases s.len(),
{
    if s.len() > 0 {
        let c = s[0];
        let rest = s.drop_first();
        if is_alnum(c) {
            lemma_slug_chars_shape(rest, false);
            let u = slug_chars(s, dash);
            let v = slug_chars(rest, false);
            assert(u =~= seq![ascii_lower(c)] + v);
            assert forall|k: int| 0 <= k < u.len() implies (#[trigger] u[k] == '-' || (is_alnum(u[k])
                && ascii_lower(u[k]) == u[k])) by {
                if k > 0 {
                    assert(u[k] == v[k - 1]);
                }
            }
            assert forall|k: int| 0 <= k < u.len() - 1 implies !(#[trigger] u[k] == '-' && u[k + 1]
                == '-') by {
                if k > 0 {
                    assert(u[k] == v[k - 1] && u[k + 1] == v[k]);
                }
            }
        } else if (is_white(c) || c == '-' || c == '_') && !dash {
            lemma_slug_chars_shape(rest, true);
            let u = slug_chars(s, dash);
            let v = slug_chars(rest, true);
            assert(u =~= seq!['-'] + v);
            assert forall|k: int| 0 <= k < u.len() implies (#[trigger] u[k] == '-' || (is_alnum(u[k])
                && ascii_lower(u[k]) == u[k])) by {
                if k > 0 {
                    assert(u[k] == v[k - 1]);
                }
            }
            assert forall|k: int| 0 <= k < u.len() - 1 implies !(#[trigger] u[k] == '-' && u[k + 1]
                == '-') by {
                if k > 0 {
                    assert(u[k] == v[k - 1] && u[k + 1] == v[k]);
                } else {
                    assert(u[1] == v[0]);
                }
            }
        } else {
            lemma_slug_chars_shape(rest, dash);
        }
    }
}

proof fn lemma_leading_dashes(s: Seq<char>, i: nat)
    requires
        i <= s.len(),
    ensures
        i <= leading_dashes(s, i) <= s.len(),
        leading_dashes(s, i) < s.len() ==> !is_dash(s[leading_dashes(s, i) as int]),
        forall|k: int| i <= k < leading_dashes(s, i) ==> is_dash(#[trigger] s[k]),
    decreases s.len() - i,
{
    if i < s.len() && is_dash(s[i as int]) {
        lemma_leading_dashes(s, i + 1);
    }
}

proof fn lemma_dashes_end(s: Seq<char>, j: nat)
    requires
        j <= s.len(),
    ensures
        dashes_end(s, j) <= j,
        dashes_end(s, j) > 0 ==> !is_dash(s[dashes_end(s, j) - 1]),
        forall|k: int| dashes_end(s, j) <= k < j ==> is_dash(#[trigger] s[k]),
    decreases j,
{
    if j > 0 && is_dash(s[j - 1]) {
        lemma_dashes_end(s, (j - 1) as nat);
    }
}

/// The anchor slug of any text is a slug: lower-cased alphanumerics separated by
/// single dashes, with no dash at either end.
pub proof fn law_slug_is_slug(s: Seq<char>)
    ensures
        is_slug(slug(s)),
{
    let u = slug_chars(s, false);
    lemma_slug_chars_shape(s, false);
    lemma_leading_dashes(u, 0);
    let a = leading_dashes(u, 0);
    let t = u.skip(a as int);
    lemma_dashes_end(t, t.len());
    let b = dashes_end(t, t.len());
    let r = t.take(b as int);
    assert forall|k: int| 0 <= k < r.len() implies (#[trigger] r[k] == '-' || (is_alnum(r[k])
        && ascii_lower(r[k]) == r[k])) by {
        assert(r[k] == u[a + k]);
    }
    assert forall|k: int| 0 <= k < r.len() - 1 implies !(#[trigger] r[k] == '-' && r[k + 1]
        == '-') by {
        assert(r[k] == u[a + k] && r[k + 1] == u[a + k + 1]);
    }
    if r.len() > 0 {
        assert(r[0] == t[0]);
        assert(r.last() == t[b - 1]);
    }
}

proof fn lemma_slug_chars_of_slug(u: Seq<char>, dash: bool)
    requires
        forall|k: int|
            0 <= k < u.len() ==> (#[trigger] u[k] == '-' || (is_alnum(u[k]) && ascii_lower(u[k])
                == u[k])),
        forall|k: int| 0 <= k < u.len() - 1 ==> !(#[trigger] u[k] == '-' && u[k + 1] == '-'),
        dash && u.len() > 0 ==> u[0] != '-',
    ensures
        slug_chars(u, dash) == u,
    decreases u.len(),
{
    if u.len() > 0 {
        let c = u[0];
        let rest = u.drop_first();
        assert forall|k: int| 0 <= k < rest.len() implies (#[trigger] rest[k] == '-' || (is_alnum(
            rest[k],
        ) && ascii_lower(rest[k]) == rest[k])) by {
            assert(rest[k] == u[k + 1]);
        }
        assert forall|k: int| 0 <= k < rest.len() - 1 implies !(#[trigger] rest[k] == '-'
            && rest[k + 1] == '-') by {
            assert(rest[k] == u[k + 1] && rest[k + 1] == u[k + 2]);
        }
        if c == '-' {
            assert(!is_alnum(c));
            if rest.len() > 0 {
                assert(!(u[0] == '-' && u[1] == '-'));
            }
            lemma_slug_chars_of_slug(rest, true);
            assert(u =~= seq!['-'] + rest);
        } else {
            lemma_slug_chars_of_slug(rest, false);
            assert(u =~= seq![ascii_lower(c)] + rest);
        }
    }
}

/// Slugging a slug gives it back, so slugging twice is slugging once.
pub proof fn law_slug_idempotent(s: Seq<char>)
    ensures
        slug(slug(s)) == slug(s),
{
    law_slug_is_slug(s);
    let u = slug(s);
    lemma_slug_chars_of_slug(u, false);
    lemma_leading_dashes(u, 0);
    if u.len() > 0 {
        assert(!is_dash(u[0]));
        assert(leading_dashes(u, 0) == 0);
        assert(!is_dash(u.last()));
    } else {
        assert(leading_dashes(u, 0) == 0);
    }
    assert(u.skip(0) =~= u);
    assert(dashes_end(u, u.len()) == u.len());
    assert(u.take(u.len() as int) =~= u);
}

/// A separator of words in a heading: whitespace, `-` or `_` that is not itself
/// alphanumeric.
pub open spec fn is_word_sep(c: char) -> bool {
    !is_alnum(c) && (is_white(c) || c == '-' || c == '_')
}

/// The first alphanumeric position of `t` at or after `i`, or the length of `t`.
pub open spec fn first_alnum(t: Seq<char>, i: nat) -> nat
    decreases t.len() - i,
{
    if i >= t.len() {
        t.len()
    } else if is_alnum(t[i as int]) {
        i
    } else {
        first_alnum(t, i + 1)
    }
}

/// A word separator stands at some position in `a..b` of `t`.
pub open spec fn sep_between(t: Seq<char>, a: int, b: int) -> bool {
    exists|k: int| a <= k < b && #[trigger] is_word_sep(t[k])
}

/// The slug of the characters of `t` from `i` on, after a kept character: each
/// alphanumeric character lower-cased, preceded by one `-` exactly when a word
/// separator stands between it and the character kept before it.
pub open spec fn slug_after(t: Seq<char>, i: nat) -> Seq<char>
    decreases t.len() - i,
{
    let q = first_alnum(t, i);
    if i > t.len() || q >= t.len() {
        Seq::empty()
    } else {
        proof {
            lemma_first_alnum(t, i);
        }
        (if sep_between(t, i as int, q as int) {
            seq!['-']
        } else {
            Seq::empty()
        }) + seq![ascii_lower(t[q as int])] + slug_after(t, q + 1)
    }
}

/// The slug described character by character: the alphanumeric characters of `t`
/// lower-cased, in order, with one `-` between two of them exactly when a word
/// separator stands between them, and nothing else.
pub open spec fn slug_by_words(t: Seq<char>) -> Seq<char> {
    let q = first_alnum(t, 0);
    if q >= t.len() {
        Seq::empty()
    } else {
        seq![ascii_lower(t[q as int])] + slug_after(t, q + 1)
    }
}

/// A dash left behind the last kept character by the raw slug.
spec fn trailing_dash(t: Seq<char>, i: nat) -> Seq<char>
    decreases t.len() - i,
{
    let q = first_alnum(t, i);
    if i > t.len() {
        Seq::empty()
    } else if q >= t.len() {
        if sep_between(t, i as int, t.len() as int) {
            seq!['-']
        } else {
            Seq::empty()
        }
    } else {
        proof {
            lemma_first_alnum(t, i);
        }
        trailing_dash(t, q + 1)
    }
}

pub proof fn lemma_first_alnum(t: Seq<char>, i: nat)
    requires
        i <= t.len(),
    ensures
        i <= first_alnum(t, i) <= t.len(),
        first_alnum(t, i) < t.len() ==> is_alnum(t[first_alnum(t, i) as int]),
        forall|k: int| i <= k < first_alnum(t, i) ==> !is_alnum(#[trigger] t[k]),
    decreases t.len() - i,
{
    if i < t.len() && !is_alnum(t[i as int]) {
        lemma_first_alnum(t, i + 1);
    }
}

/// The raw slug from position `i`: a `-` when a separator comes before the next
/// alphanumeric character (and none was just written), then that character
/// lower-cased and the raw slug after it.
proof fn lemma_raw_slug_step(t: Seq<char>, i: nat, dash: bool)
    requires
        i <= t.len(),
    ensures
        ({
            let q = first_alnum(t, i);
            slug_chars(t.skip(i as int), dash) == (if !dash && sep_between(t, i as int, q as int) {
                seq!['-']
            } else {
                Seq::<char>::empty()
            }) + (if q < t.len() {
                seq![ascii_lower(t[q as int])] + slug_chars(t.skip(q + 1 as int), false)
            } else {
                Seq::<char>::empty()
            })
        }),
    decreases t.len() - i,
{
    let q = first_alnum(t, i);
    let u = t.skip(i as int);
    if i == t.len() {
        assert(!sep_between(t, i as int, q as int));
        assert(u.len() == 0);
    } else {
        let c = t[i as int];
        assert(u[0] == c);
        assert(u.drop_first() =~= t.skip(i + 1 as int));
        if is_alnum(c) {
            assert(!sep_between(t, i as int, q as int));
        } else {
            lemma_raw_slug_step(t, i + 1, is_word_sep(c) || dash);
            lemma_first_alnum(t, i + 1);
            assert(first_alnum(t, i + 1) == q);
            if is_word_sep(c) {
                assert(is_word_sep(t[i as int]));
                assert(sep_between(t, i as int, q as int));
            } else {
                if sep_between(t, i as int, q as int) {
                    let k = choose|k: int| i <= k < q && #[trigger] is_word_sep(t[k]);
                    assert(k != i);
                    assert(is_word_sep(t[k]));
                    assert(sep_between(t, i + 1 as int, q as int));
                }
                if sep_between(t, i + 1 as int, q as int) {
                    let k = choose|k: int| i + 1 <= k < q && #[trigger] is_word_sep(t[k]);
                    assert(is_word_sep(t[k]));
                    assert(sep_between(t, i as int, q as int));
                }
            }
        }
    }
}

/// The raw slug after a kept character is the described slug with, at most, a
/// dash left behind.
proof fn lemma_raw_slug_after(t: Seq<char>, i: nat)
    requires
        i <= t.len(),
    ensures
        slug_chars(t.skip(i as int), false) == slug_after(t, i) + trailing_dash(t, i),
    decreases t.len() - i,
{
    lemma_raw_slug_step(t, i, false);
    lemma_first_alnum(t, i);
    let q = first_alnum(t, i);
    if q < t.len() {
        lemma_raw_slug_after(t, q + 1);
        let pre = if sep_between(t, i as int, q as int) {
            seq!['-']
        } else {
            Seq::<char>::empty()
        };
        assert(pre + (seq![ascii_lower(t[q as int])] + (slug_after(t, q + 1) + trailing_dash(t, q + 1)))
            =~= pre + seq![ascii_lower(t[q as int])] + slug_after(t, q + 1) + trailing_dash(t, q + 1));
    } else {
        assert(slug_after(t, i) =~= Seq::<char>::empty());
        assert(sep_between(t, i as int, q as int) == sep_between(t, i as int, t.len() as int));
    }
}

proof fn lemma_trailing_dash(t: Seq<char>, i: nat)
    requires
        i <= t.len(),
    ensures
        trailing_dash(t, i) == Seq::<char>::empty() || trailing_dash(t, i) == seq!['-'],
    decreases t.len() - i,
{
    lemma_first_alnum(t, i);
    let q = first_alnum(t, i);
    if q < t.len() {
        lemma_trailing_dash(t, q + 1);
    }
}

/// The described slug after a kept character ends with an alphanumeric character
/// when it is not empty.
proof fn lemma_slug_after_ends(t: Seq<char>, i: nat)
    requires
        i <= t.len(),
    ensures
        slug_after(t, i).len() > 0 ==> !is_dash(slug_after(t, i).last()),
    decreases t.len() - i,
{
    lemma_first_alnum(t, i);
    let q = first_alnum(t, i);
    if q < t.len() {
        lemma_slug_after_ends(t, q + 1);
        let c = t[q as int];
        assert(!is_dash(ascii_lower(c)));
    }
}

/// Trimming dashes from `p + c + r` leaves `c` when `p` and `r` are dashes and `c`
/// neither starts nor ends with one.
proof fn lemma_trim_around(p: Seq<char>, c: Seq<char>, r: Seq<char>)
    requires
        forall|k: int| 0 <= k < p.len() ==> is_dash(#[trigger] p[k]),
        forall|k: int| 0 <= k < r.len() ==> is_dash(#[trigger] r[k]),
        c.len() > 0 ==> !is_dash(c[0]) && !is_dash(c.last()),
    ensures
        trim_dashes(p + c + r) == c,
{
    let u = p + c + r;
    lemma_leading_dashes(u, 0);
    let a = leading_dashes(u, 0);
    if c.len() > 0 {
        assert(u[p.len() as int] == c[0]);
        if a < p.len() {
            assert(u[a as int] == p[a as int]);
        }
        if a > p.len() {
            assert(is_dash(u[p.len() as int]));
        }
        assert(a == p.len());
        let t = u.skip(a as int);
        assert(t =~= c + r);
        lemma_dashes_end(t, t.len());
        let b = dashes_end(t, t.len());
        assert(t[c.len() - 1] == c.last());
        if b < c.len() {
            assert(is_dash(t[c.len() - 1]));
        }
        if b > c.len() {
            assert(t[b - 1] == r[b - 1 - c.len()]);
        }
        assert(b == c.len());
        assert(t.take(b as int) =~= c);
    } else {
        if a < u.len() {
            if a < p.len() {
                assert(u[a as int] == p[a as int]);
            } else {
                assert(u[a as int] == r[a - p.len()]);
            }
        }
        assert(u.skip(a as int) =~= Seq::<char>::empty());
    }
}

/// The anchor slug, character by character: the alphanumeric characters of the
/// heading lower-cased, in order, with one `-` between two of them exactly when a
/// whitespace, `-` or `_` stands between them, and nothing else.
pub proof fn law_slug_by_words(s: Seq<char>)
    ensures
        slug(s) == slug_by_words(s),
{
    lemma_raw_slug_step(s, 0, false);
    lemma_first_alnum(s, 0);
    assert(s.skip(0) =~= s);
    let q = first_alnum(s, 0);
    let pre = if sep_between(s, 0, q as int) {
        seq!['-']
    } else {
        Seq::<char>::empty()
    };
    if q < s.len() {
        lemma_raw_slug_after(s, q + 1);
        lemma_trailing_dash(s, q + 1);
        lemma_slug_after_ends(s, q + 1);
        let c = slug_by_words(s);
        let tr = trailing_dash(s, q + 1);
        assert(!is_dash(ascii_lower(s[q as int])));
        assert(c[0] == ascii_lower(s[q as int]));
        if slug_after(s, q + 1).len() > 0 {
            assert(c.last() == slug_after(s, q + 1).last());
        }
        assert(slug_chars(s, false) =~= pre + c + tr);
        lemma_trim_around(pre, c, tr);
    } else {
        assert(slug_chars(s, false) =~= pre + Seq::<char>::empty() + Seq::<char>::empty());
        lemma_trim_around(pre, Seq::<char>::empty(), Seq::<char>::empty());
    }
}

/// Turns a heading text into its anchor slug, as heading links name them:
/// `## My Cool Heading! (Extra)` becomes `my-cool-heading-extra`.
pub fn slugify(text: &str) -> (r: String)
    ensures
        r@ == slug(text@),
        r@ == slug_by_words(text@),
        is_slug(r@),
{
    let s = chars_of(text);
    let mut out: Vec<char> = Vec::new();
    let mut last_was_hyphen = false;
    let mut i: usize = 0;
    proof {
        assert(s@.skip(0) =~= s@);
        assert(out@ + slug_chars(s@, false) =~= slug_chars(s@, false));
    }
    while i < s.len()
        invariant
            s@ == text@,
            i <= s@.len(),
            out@ + slug_chars(s@.skip(i as int), last_was_hyphen) == slug_chars(s@, false),
        decreases s@.len() - i,
    {
        let c = s[i];
        let ghost before = out@;
        proof {
            assert(s@.skip(i as int).drop_first() =~= s@.skip(i as int + 1));
            assert(s@.skip(i as int)[0] == c);
        }
        if is_alphanumeric(c) {
            out.push(to_ascii_lowercase(c));
            last_was_hyphen = false;
            proof {
                assert(out@ + slug_chars(s@.skip(i as int + 1), false) =~= before + (seq![
                    ascii_lower(c),
                ] + slug_chars(s@.skip(i as int + 1), false)));
            }
        } else if (is_whitespace(c) || c == '-' || c == '_') && !last_was_hyphen {
            out.push('-');
            last_was_hyphen = true;
            proof {
                assert(out@ + slug_chars(s@.skip(i as int + 1), true) =~= before + (seq!['-']
                    + slug_chars(s@.skip(i as int + 1), true)));
            }
        }
        i += 1;
    }
    proof {
        assert(s@.skip(i as int) =~= Seq::<char>::empty());
        assert(out@ + Seq::<char>::empty() =~= out@);
    }
    let mut a: usize = 0;
    while a < out.len() && (out[a] == '-' || out[a] == '_')
        invariant
            a <= out@.len(),
            leading_dashes(out@, a as nat) == leading_dashes(out@, 0),
        decreases out@.len() - a,
    {
        a += 1;
    }
    let t = sub_chars(out.as_slice(), a, out.len());
    proof {
        assert(t@ =~= out@.skip(a as int));
    }
    let mut b: usize = t.len();
    while b > 0 && (t[b - 1] == '-' || t[b - 1] == '_')
        invariant
            b <= t@.len(),
            dashes_end(t@, b as nat) == dashes_end(t@, t@.len()),
        decreases b,
    {
        b -= 1;
    }
    let r = sub_chars(t.as_slice(), 0, b);
    proof {
        assert(r@ =~= t@.take(b as int));
        law_slug_is_slug(text@);
        law_slug_by_words(text@);
    }
    string_of(r.as_slice())
}

/// The number of leading `#` of `s`, counting from `i`.
pub open spec fn leading_hashes(s: Seq<char>, i: nat) -> nat
    decreases s.len() - i,
{
    if i < s.len() && s[i as int] == '#' {
        leading_hashes(s, i + 1)
    } else {
        i
    }
}

/// The anchor slug of `line` when it is a Markdown heading: after trimming it
/// starts with `#`, and the run of `#` is followed by whitespace or nothing.
pub open spec fn heading_slug(line: Seq<char>) -> Option<Seq<char>> {
    let t = trim(line);
    if t.len() > 0 && t[0] == '#' {
        let rest = t.skip(leading_hashes(t, 0) as int);
        if rest.len() == 0 || is_white(rest[0]) {
            Some(slug(trim(rest)))
        } else {
            None
        }
    } else {
        None
    }
}

/// The first line, at index `i` or later, that is a heading whose slug is `anchor`.
pub open spec fn heading_line_from(ls: Seq<Seq<char>>, anchor: Seq<char>, i: nat) -> Option<nat>
    decreases ls.len() - i,
{
    if i >= ls.len() {
        None
    } else if heading_slug(ls[i as int]) == Some(anchor) {
        Some(i)
    } else {
        heading_line_from(ls, anchor, i + 1)
    }
}

fn heading_slug_of(line: &[char]) -> (r: Option<String>)
    ensures
        match r {
            Some(x) => heading_slug(line@) == Some(x@),
            None => heading_slug(line@) is None,
        },
{
    let t = trim_chars(line);
    if t.len() > 0 && t[0] == '#' {
        let mut h: usize = 0;
        while h < t.len() && t[h] == '#'
            invariant
                h <= t@.len(),
                leading_hashes(t@, h as nat) == leading_hashes(t@, 0),
            decreases t@.len() - h,
        {
            h += 1;
        }
        let rest = sub_chars(t.as_slice(), h, t.len());
        proof {
            assert(rest@ =~= t@.skip(h as int));
        }
        if rest.len() == 0 || is_whitespace(rest[0]) {
            let heading = trim_chars(rest.as_slice());
            let heading_text = string_of(heading.as_slice());
            Some(slugify(heading_text.as_str()))
        } else {
            None
        }
    } else {
        None
    }
}

proof fn lemma_leading_white(s: Seq<char>, i: nat)
    requires
        i <= s.len(),
    ensures
        i <= leading_white_from(s, i) <= s.len(),
        leading_white_from(s, i) < s.len() ==> !is_white(s[leading_white_from(s, i) as int]),
        forall|k: int| i <= k < leading_white_from(s, i) ==> is_white(#[trigger] s[k]),
    decreases s.len() - i,
{
    if i < s.len() && is_white(s[i as int]) {
        lemma_leading_white(s, i + 1);
    }
}

proof fn lemma_trailing_white(s: Seq<char>, j: nat)
    requires
        j <= s.len(),
    ensures
        trailing_white_end(s, j) <= j,
        trailing_white_end(s, j) > 0 ==> !is_white(s[trailing_white_end(s, j) - 1]),
        forall|k: int| trailing_white_end(s, j) <= k < j ==> is_white(#[trigger] s[k]),
    decreases j,
{
    if j > 0 && is_white(s[j - 1]) {
        lemma_trailing_white(s, (j - 1) as nat);
    }
}

/// Trimming keeps what lies between the first and the last character that is not
/// whitespace.
proof fn lemma_trim_between(s: Seq<char>, a: nat, b: nat)
    requires
        a <= b <= s.len(),
        forall|k: int| 0 <= k < a ==> is_white(#[trigger] s[k]),
        forall|k: int| b <= k < s.len() ==> is_white(#[trigger] s[k]),
        a < b ==> !is_white(s[a as int]) && !is_white(s[b - 1]),
    ensures
        trim(s) == s.subrange(a as int, b as int),
{
    lemma_leading_white(s, 0);
    let x = leading_white_from(s, 0);
    if a < b {
        if x < a {
            assert(is_white(s[x as int]));
        }
        if x > a {
            assert(is_white(s[a as int]));
        }
        assert(x == a);
        let t = s.skip(a as int);
        lemma_trailing_white(t, t.len());
        let y = trailing_white_end(t, t.len());
        if y < b - a {
            assert(t[b - a - 1] == s[b - 1]);
            assert(is_white(t[b - a - 1]));
        }
        if y > b - a {
            assert(t[y - 1] == s[a + y - 1]);
            assert(is_white(s[a + y - 1]));
        }
        assert(y == b - a);
        assert(t.take(y as int) =~= s.subrange(a as int, b as int));
    } else {
        if x < s.len() {
            assert(is_white(s[x as int]));
        }
        assert(s.skip(x as int) =~= Seq::<char>::empty());
        lemma_trailing_white(Seq::<char>::empty(), 0);
        assert(s.subrange(a as int, b as int) =~= Seq::<char>::empty());
    }
}

/// Where `s` stops being whitespace at its start, and where its last character
/// that is not whitespace ends (both the length when all of it is whitespace).
proof fn lemma_trim_bounds(s: Seq<char>) -> (ab: (nat, nat))
    ensures
        ab.0 <= ab.1 <= s.len(),
        forall|k: int| 0 <= k < ab.0 ==> is_white(#[trigger] s[k]),
        forall|k: int| ab.1 <= k < s.len() ==> is_white(#[trigger] s[k]),
        ab.0 < ab.1 ==> !is_white(s[ab.0 as int]) && !is_white(s[ab.1 - 1]),
        ab.0 == ab.1 ==> forall|k: int| 0 <= k < s.len() ==> is_white(#[trigger] s[k]),
{
    lemma_leading_white(s, 0);
    let a = leading_white_from(s, 0);
    let t = s.skip(a as int);
    lemma_trailing_white(t, t.len());
    let e = trailing_white_end(t, t.len());
    if a < s.len() {
        assert(t[0] == s[a as int]);
        assert(e > 0);
        assert forall|k: int| a + e <= k < s.len() implies is_white(#[trigger] s[k]) by {
            assert(s[k] == t[k - a]);
        }
        assert(s[a + e - 1] == t[e - 1]);
        (a, a + e)
    } else {
        (a, a)
    }
}

proof fn lemma_hash_run(s: Seq<char>, i: nat, k: nat)
    requires
        i <= k <= s.len(),
        forall|j: int| i <= j < k ==> s[j] == '#',
        k == s.len() || s[k as int] != '#',
    ensures
        leading_hashes(s, i) == k,
    decreases k - i,
{
    if i < k {
        lemma_hash_run(s, i + 1, k);
    }
}

/// A line of any positive number of `#`, then whitespace and a text, is a heading
/// whose anchor is the slug of the text: the whole run of `#` is skipped.
pub proof fn law_heading_after_any_hashes(k: nat, w: char, text: Seq<char>)
    requires
        k >= 1,
        is_white(w),
    ensures
        heading_slug(Seq::new(k, |_i: int| '#') + seq![w] + text) == Some(slug(trim(text))),
{
    let h = Seq::new(k, |_i: int| '#');
    let line = h + seq![w] + text;
    let (a, b) = lemma_trim_bounds(text);
    assert(!is_white('#'));
    if a < b {
        let end = k + 1 + b;
        assert forall|x: int| end <= x < line.len() implies is_white(#[trigger] line[x]) by {
            assert(line[x] == text[x - k - 1]);
        }
        assert(line[end - 1] == text[b - 1]);
        lemma_trim_between(line, 0, end);
        let t = line.subrange(0, end as int);
        assert(t =~= h + seq![w] + text.take(b as int));
        lemma_hash_run(t, 0, k);
        let rest = t.skip(k as int);
        assert(rest =~= seq![w] + text.take(b as int));
        assert forall|x: int| 0 <= x < 1 + a implies is_white(#[trigger] rest[x]) by {
            if x > 0 {
                assert(rest[x] == text[x - 1]);
            }
        }
        assert(rest[(1 + a) as int] == text[a as int]);
        assert(rest[(1 + b) - 1] == text[b - 1]);
        lemma_trim_between(rest, 1 + a, 1 + b);
        lemma_trim_between(text, a, b);
        assert(rest.subrange((1 + a) as int, (1 + b) as int) =~= text.subrange(a as int, b as int));
    } else {
        assert forall|x: int| k <= x < line.len() implies is_white(#[trigger] line[x]) by {
            if x > k {
                assert(line[x] == text[x - k - 1]);
            }
        }
        lemma_trim_between(line, 0, k);
        let t = line.subrange(0, k as int);
        assert(t =~= h);
        lemma_hash_run(t, 0, k);
        assert(t.skip(k as int) =~= Seq::<char>::empty());
        lemma_trim_between(Seq::<char>::empty(), 0, 0);
        lemma_trim_between(text, a, b);
        assert(text.subrange(a as int, b as int) =~= Seq::<char>::empty());
    }
}

/// The index of the first line of `text` that is a heading whose anchor slug is
/// `anchor`, if any.
pub fn find_heading_line(text: &str, anchor: &str) -> (r: Option<usize>)
    ensures
        match r {
            Some(i) => heading_line_from(lines_of(text@), anchor@, 0) == Some(i as nat),
            None => heading_line_from(lines_of(text@), anchor@, 0) is None,
        },
{
    let s = chars_of(text);
    let rows = split_lines(s.as_slice());
    let ghost ls = lines_of(text@);
    let anchor_chars = chars_of(anchor);
    let mut i: usize = 0;
    while i < rows.len()
        invariant
            crate::text::char_rows(rows@) == ls,
            anchor_chars@ == anchor@,
            ls == lines_of(text@),
            i <= rows@.len(),
            heading_line_from(ls, anchor@, i as nat) == heading_line_from(ls, anchor@, 0),
        decreases rows@.len() - i,
    {
        proof {
            assert(ls[i as int] == rows@[i as int]@);
            assert(ls.len() == rows@.len());
        }
        match heading_slug_of(rows[i].as_slice()) {
            Some(slug_text) => {
                let sc = chars_of(slug_text.as_str());
                if chars_equal(sc.as_slice(), anchor_chars.as_slice()) {
                    proof {
                        assert(heading_slug(ls[i as int]) == Some(anchor@));
                        assert(heading_line_from(ls, anchor@, i as nat) == Some(i as nat));
                        assert(ls == lines_of(text@));
                    }
                    return Some(i);
                }
                proof {
                    assert(heading_slug(ls[i as int]) != Some(anchor@));
                }
            },
            None => {},
        }
        i += 1;
    }
    None
}

/// The line that `find_heading_line` reports is a heading with the requested
/// anchor, and no earlier line is.
pub proof fn law_heading_line_is_first(ls: Seq<Seq<char>>, anchor: Seq<char>, i: nat)
    ensures
        heading_line_from(ls, anchor, i) matches Some(k) ==> {
            &&& i <= k < ls.len()
            &&& heading_slug(ls[k as int]) == Some(anchor)
            &&& forall|j: nat| i <= j < k ==> heading_slug(#[trigger] ls[j as int]) != Some(anchor)
        },
        heading_line_from(ls, anchor, i) is None ==> forall|j: nat|
            i <= j < ls.len() ==> heading_slug(#[trigger] ls[j as int]) != Some(anchor),
    decreases ls.len() - i,
{
    if i < ls.len() && heading_slug(ls[i as int]) != Some(anchor) {
        law_heading_line_is_first(ls, anchor, i + 1);
    }
}

} // verus!
