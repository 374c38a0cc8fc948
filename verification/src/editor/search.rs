//! Find in file: literal and regular-expression search over the editor text,
//! with matches reported as character ranges.
use std::ops::Range;
use vstd::prelude::*;
use crate::text::{
    ascii_lower, char_width, chars_of, lemma_take_all, lemma_utf8_len_take_monotone, lemma_utf8_len_take_step, utf8_len, utf8_width,
};

verus! {

/// The number of characters of `s` whose UTF-8 bytes all lie before byte `b`:
/// the length of the longest prefix of `s` that has at most `b` bytes.
pub open spec fn chars_within(s: Seq<char>, b: nat) -> nat
    decreases s.len(),
{
    if utf8_len(s) <= b || s.len() == 0 {
        s.len()
    } else {
        chars_within(s.drop_last(), b)
    }
}

/// The leftmost occurrences of `q` in `t` from position `i` on, none overlapping
/// another, as character ranges of `t`.
pub open spec fn occurrences(t: Seq<char>, q: Seq<char>, i: nat) -> Seq<(nat, nat)>
    decreases t.len() - i,
{
    if q.len() == 0 || i + q.len() > t.len() {
        Seq::empty()
    } else if t.subrange(i as int, (i + q.len()) as int) == q {
        seq![(i, i + q.len())] + occurrences(t, q, i + q.len())
    } else {
        occurrences(t, q, i + 1)
    }
}

/// A character range of `t` carried over to `content` through its byte offsets.
pub open spec fn carried(content: Seq<char>, t: Seq<char>, r: (nat, nat)) -> (nat, nat) {
    (
        chars_within(content, utf8_len(t.take(r.0 as int))),
        chars_within(content, utf8_len(t.take(r.1 as int))),
    )
}

/// The occurrences of `q` in the searched text `t` (the content itself, or its
/// lowercase form), as character ranges of `content`.
pub open spec fn literal_hits(content: Seq<char>, t: Seq<char>, q: Seq<char>) -> Seq<(nat, nat)> {
    occurrences(t, q, 0).map_values(|r: (nat, nat)| carried(content, t, r))
}

/// Byte ranges found in `content`, as character ranges; empty ranges are left out
/// when `skip_empty` holds.
pub open spec fn byte_hits(content: Seq<char>, found: Seq<(usize, usize)>, skip_empty: bool) -> Seq<(nat, nat)>
    decreases found.len(),
{
    if found.len() == 0 {
        Seq::empty()
    } else {
        let rest = byte_hits(content, found.drop_last(), skip_empty);
        let (s, e) = found.last();
        if skip_empty && s >= e {
            rest
        } else {
            rest.push((chars_within(content, s as nat), chars_within(content, e as nat)))
        }
    }
}

/// The bounds of each range.
pub open spec fn range_pairs(v: Seq<Range<usize>>) -> Seq<(nat, nat)> {
    v.map_values(|r: Range<usize>| (r.start as nat, r.end as nat))
}

/// Every occurrence a literal search reports is the query itself, in order and
/// without overlapping the next one.
pub proof fn law_occurrences_are_exact(t: Seq<char>, q: Seq<char>, i: nat)
    ensures
        forall|k: int|
            0 <= k < occurrences(t, q, i).len() ==> {
                let (a, b) = #[trigger] occurrences(t, q, i)[k];
                &&& i <= a
                &&& b == a + q.len()
                &&& b <= t.len()
                &&& t.subrange(a as int, b as int) == q
            },
        forall|k: int, j: int|
            0 <= k < j < occurrences(t, q, i).len() ==> occurrences(t, q, i)[k].1 <= occurrences(
                t,
                q,
                i,
            )[j].0,
    decreases t.len() - i,
{
    if q.len() == 0 || i + q.len() > t.len() {
    } else if t.subrange(i as int, (i + q.len()) as int) == q {
        let e = (i + q.len()) as nat;
        let rest = occurrences(t, q, e);
        law_occurrences_are_exact(t, q, e);
        let all = occurrences(t, q, i);
        assert(all =~= seq![(i, e)] + rest);
        assert forall|k: int| 0 <= k < all.len() implies {
            let (a, b) = #[trigger] all[k];
            &&& i <= a
            &&& b == a + q.len()
            &&& b <= t.len()
            &&& t.subrange(a as int, b as int) == q
        } by {
            if k > 0 {
                assert(all[k] == rest[k - 1]);
            }
        }
        assert forall|k: int, j: int| 0 <= k < j < all.len() implies all[k].1 <= all[j].0 by {
            assert(all[j] == rest[j - 1]);
            if k > 0 {
                assert(all[k] == rest[k - 1]);
            }
        }
    } else {
        law_occurrences_are_exact(t, q, i + 1);
        assert(occurrences(t, q, i) == occurrences(t, q, i + 1));
    }
}

// ---------------------------------------------------------------------------
// Characters and bytes

/// `chars_within` is the prefix length `k` whose bytes reach `b` and whose next
/// character does not fit.
pub proof fn lemma_chars_within(s: Seq<char>, b: nat, k: int)
    requires
        0 <= k <= s.len(),
        utf8_len(s.take(k)) <= b,
        k == s.len() || utf8_len(s.take(k + 1)) > b,
    ensures
        chars_within(s, b) == k,
    decreases s.len(),
{
    lemma_take_all(s);
    if s.len() > 0 && !(utf8_len(s) <= b) {
        let d = s.drop_last();
        if k == s.len() {
            assert(false);
        }
        assert(d.take(k) =~= s.take(k));
        if k + 1 <= d.len() {
            assert(d.take(k + 1) =~= s.take(k + 1));
        }
        lemma_chars_within(d, b, k);
    } else if s.len() > 0 && k < s.len() {
        lemma_utf8_len_take_monotone(s, k + 1, s.len() as int);
    }
}

/// Counting the characters before the byte offset of a prefix gives the prefix's
/// length back.
pub proof fn lemma_chars_within_prefix(s: Seq<char>, a: nat)
    requires
        a <= s.len(),
    ensures
        chars_within(s, utf8_len(s.take(a as int))) == a,
{
    if a < s.len() {
        lemma_utf8_len_take_step(s, a as int);
    }
    lemma_chars_within(s, utf8_len(s.take(a as int)), a as int);
}

/// A case-sensitive literal search reports exactly the occurrences of the query,
/// at their character positions.
pub proof fn law_case_sensitive_hits_are_occurrences(c: Seq<char>, q: Seq<char>)
    ensures
        literal_hits(c, c, q) == occurrences(c, q, 0),
{
    law_occurrences_are_exact(c, q, 0);
    let occ = occurrences(c, q, 0);
    assert forall|k: int| 0 <= k < occ.len() implies #[trigger] carried(c, c, occ[k]) == occ[k] by {
        let (a, b) = occ[k];
        lemma_chars_within_prefix(c, a);
        lemma_chars_within_prefix(c, b);
    }
    assert(literal_hits(c, c, q) =~= occ);
}

/// Past the last byte every character lies before `b`.
pub proof fn lemma_chars_within_past_end(s: Seq<char>, b: nat)
    requires
        utf8_len(s) <= b,
    ensures
        chars_within(s, b) == s.len(),
{
}

/// For each byte offset `b` up to the text's length, the number of characters
/// wholly before it (`chars_within`); the table has one entry past the last byte.
fn byte_char_table(s: &[char]) -> (t: Vec<usize>)
    ensures
        t@.len() == utf8_len(s@) + 1,
        forall|b: int| 0 <= b < t@.len() ==> #[trigger] t@[b] == chars_within(s@, b as nat),
{
    let mut t: Vec<usize> = Vec::new();
    let mut i: usize = 0;
    while i < s.len()
        invariant
            i <= s@.len(),
            t@.len() == utf8_len(s@.take(i as int)),
            forall|b: int| 0 <= b < t@.len() ==> #[trigger] t@[b] == chars_within(s@, b as nat),
        decreases s@.len() - i,
    {
        let w = char_width(s[i]);
        proof {
            lemma_utf8_len_take_step(s@, i as int);
        }
        let ghost byte = t@.len();
        let mut j: usize = 0;
        while j < w
            invariant
                i < s@.len(),
                j <= w,
                w == utf8_width(s@[i as int]),
                byte == utf8_len(s@.take(i as int)),
                byte + w == utf8_len(s@.take(i + 1)),
                t@.len() == byte + j,
                forall|b: int| 0 <= b < t@.len() ==> #[trigger] t@[b] == chars_within(s@, b as nat),
            decreases w - j,
        {
            proof {
                lemma_chars_within(s@, (byte + j) as nat, i as int);
            }
            t.push(i);
            j += 1;
        }
        i += 1;
    }
    proof {
        lemma_take_all(s@);
        lemma_chars_within_past_end(s@, t@.len());
    }
    t.push(s.len());
    t
}

/// The byte offset of each prefix of `s`, one entry per prefix length, with
/// offsets past `cap` given as `cap`.
pub(crate) fn prefix_bytes(s: &[char], cap: usize) -> (v: Vec<usize>)
    ensures
        v@.len() == s@.len() + 1,
        forall|k: int| 0 <= k < v@.len() ==> #[trigger] v@[k] == if utf8_len(s@.take(k)) <= cap {
            utf8_len(s@.take(k))
        } else {
            cap as nat
        },
{
    let mut v: Vec<usize> = Vec::new();
    let mut byte: usize = 0;
    let mut i: usize = 0;
    proof {
        assert(s@.take(0) =~= Seq::<char>::empty());
    }
    v.push(0);
    while i < s.len()
        invariant
            i <= s@.len(),
            byte == if utf8_len(s@.take(i as int)) <= cap {
                utf8_len(s@.take(i as int))
            } else {
                cap as nat
            },
            byte <= cap,
            v@.len() == i + 1,
            forall|k: int| 0 <= k < v@.len() ==> #[trigger] v@[k] == if utf8_len(s@.take(k)) <= cap {
                utf8_len(s@.take(k))
            } else {
                cap as nat
            },
        decreases s@.len() - i,
    {
        proof {
            lemma_utf8_len_take_step(s@, i as int);
        }
        let w = char_width(s[i]);
        if w > cap - byte {
            byte = cap;
        } else {
            byte = byte + w;
        }
        v.push(byte);
        i += 1;
    }
    v
}

/// The table's entry for byte `b`, or the character count past the table's end.
fn table_lookup(t: &Vec<usize>, s: Ghost<Seq<char>>, b: usize) -> (r: usize)
    requires
        t@.len() == utf8_len(s@) + 1,
        forall|x: int| 0 <= x < t@.len() ==> #[trigger] t@[x] == chars_within(s@, x as nat),
    ensures
        r == chars_within(s@, b as nat),
{
    if b < t.len() {
        t[b]
    } else {
        let last = t.len() - 1;
        proof {
            lemma_chars_within_past_end(s@, last as nat);
            lemma_chars_within_past_end(s@, b as nat);
        }
        t[last]
    }
}

// ---------------------------------------------------------------------------
// Literal search

/// Whether `q` occurs in `t` at position `i`.
fn occurs_at(t: &[char], i: usize, q: &[char]) -> (r: bool)
    requires
        i + q@.len() <= t@.len(),
    ensures
        r == (t@.subrange(i as int, i + q@.len()) == q@),
{
    let mut k: usize = 0;
    let tl = t.len();
    while k < q.len()
        invariant
            tl == t@.len(),
            k <= q@.len(),
            i + q@.len() <= t@.len(),
            forall|x: int| 0 <= x < k ==> t@[i + x] == q@[x],
        decreases q@.len() - k,
    {
        if t[i + k] != q[k] {
            proof {
                assert(t@.subrange(i as int, i + q@.len())[k as int] != q@[k as int]);
            }
            return false;
        }
        k += 1;
    }
    proof {
        assert(t@.subrange(i as int, i + q@.len()) =~= q@);
    }
    true
}

/// The leftmost non-overlapping occurrences of `q` in `t` (see `occurrences`).
fn occurrences_of(t: &[char], q: &[char]) -> (r: Vec<(usize, usize)>)
    ensures
        r@.map_values(|p: (usize, usize)| (p.0 as nat, p.1 as nat)) == occurrences(t@, q@, 0),
        forall|k: int| 0 <= k < r@.len() ==> (#[trigger] r@[k]).0 <= r@[k].1 <= t@.len(),
{
    let mut r: Vec<(usize, usize)> = Vec::new();
    if q.len() == 0 || q.len() > t.len() {
        return r;
    }
    let tl = t.len();
    let last = tl - q.len();
    let mut i: usize = 0;
    while i <= last
        invariant
            tl == t@.len(),
            0 < q@.len() <= t@.len(),
            last == t@.len() - q@.len(),
            i <= t@.len(),
            r@.map_values(|p: (usize, usize)| (p.0 as nat, p.1 as nat)) + occurrences(t@, q@, i as nat)
                == occurrences(t@, q@, 0),
            forall|k: int| 0 <= k < r@.len() ==> (#[trigger] r@[k]).0 <= r@[k].1 <= t@.len(),
        decreases t@.len() - i,
    {
        let ghost before = r@.map_values(|p: (usize, usize)| (p.0 as nat, p.1 as nat));
        if occurs_at(t, i, q) {
            let e = i + q.len();
            r.push((i, e));
            proof {
                assert(r@.map_values(|p: (usize, usize)| (p.0 as nat, p.1 as nat)) =~= before.push((i as nat, e as nat)));
                assert(before + occurrences(t@, q@, i as nat) =~= before.push((i as nat, e as nat)) + occurrences(t@, q@, e as nat));
            }
            i = e;
        } else {
            i += 1;
        }
    }
    proof {
        let m = r@.map_values(|p: (usize, usize)| (p.0 as nat, p.1 as nat));
        assert(m + occurrences(t@, q@, i as nat) =~= m);
    }
    r
}

/// The occurrences of `query` in the searched text `text`, carried over to
/// character ranges of `content` through their byte offsets (see `literal_hits`).
/// `text` is `content` itself for a case-sensitive search and the lowercase forms
/// of both otherwise.
pub fn literal_matches(content: &[char], text: &[char], query: &[char]) -> (r: Vec<Range<usize>>)
    ensures
        range_pairs(r@) == literal_hits(content@, text@, query@),
{
    let table = byte_char_table(content);
    let cap = table.len() - 1;
    let bytes = prefix_bytes(text, cap);
    let occ = occurrences_of(text, query);
    let ghost m = occ@.map_values(|p: (usize, usize)| (p.0 as nat, p.1 as nat));
    let mut r: Vec<Range<usize>> = Vec::new();
    let mut k: usize = 0;
    while k < occ.len()
        invariant
            k <= occ@.len(),
            m == occ@.map_values(|p: (usize, usize)| (p.0 as nat, p.1 as nat)),
            m == occurrences(text@, query@, 0),
            forall|x: int| 0 <= x < occ@.len() ==> (#[trigger] occ@[x]).0 <= occ@[x].1 <= text@.len(),
            bytes@.len() == text@.len() + 1,
            cap == utf8_len(content@),
            forall|x: int| 0 <= x < bytes@.len() ==> #[trigger] bytes@[x] == if utf8_len(text@.take(x)) <= cap {
                utf8_len(text@.take(x))
            } else {
                cap as nat
            },
            table@.len() == utf8_len(content@) + 1,
            forall|x: int| 0 <= x < table@.len() ==> #[trigger] table@[x] == chars_within(content@, x as nat),
            range_pairs(r@) == m.take(k as int).map_values(|p: (nat, nat)| carried(content@, text@, p)),
        decreases occ@.len() - k,
    {
        let (a, b) = occ[k];
        let bs = bytes[a];
        let be = bytes[b];
        let cs = table_lookup(&table, Ghost(content@), bs);
        let ce = table_lookup(&table, Ghost(content@), be);
        let ghost before = r@;
        r.push(Range { start: cs, end: ce });
        proof {
            lemma_chars_within_past_end(content@, cap as nat);
            if utf8_len(text@.take(a as int)) > cap {
                lemma_chars_within_past_end(content@, utf8_len(text@.take(a as int)));
            }
            if utf8_len(text@.take(b as int)) > cap {
                lemma_chars_within_past_end(content@, utf8_len(text@.take(b as int)));
            }
            assert(m[k as int] == (a as nat, b as nat));
            assert(m.take(k + 1).map_values(|p: (nat, nat)| carried(content@, text@, p))
                =~= m.take(k as int).map_values(|p: (nat, nat)| carried(content@, text@, p)).push(
                carried(content@, text@, m[k as int])));
            assert(range_pairs(r@) =~= range_pairs(before).push((cs as nat, ce as nat)));
        }
        k += 1;
    }
    proof {
        assert(m.take(k as int) =~= m);
    }
    r
}

/// Byte ranges found in `content` (by a regular expression), as character ranges
/// of `content`; empty ranges are left out when `skip_empty` holds (see `byte_hits`).
pub fn byte_matches(content: &[char], found: &[(usize, usize)], skip_empty: bool) -> (r: Vec<Range<usize>>)
    ensures
        range_pairs(r@) == byte_hits(content@, found@, skip_empty),
{
    let table = byte_char_table(content);
    let mut r: Vec<Range<usize>> = Vec::new();
    let mut k: usize = 0;
    while k < found.len()
        invariant
            k <= found@.len(),
            table@.len() == utf8_len(content@) + 1,
            forall|x: int| 0 <= x < table@.len() ==> #[trigger] table@[x] == chars_within(content@, x as nat),
            range_pairs(r@) == byte_hits(content@, found@.take(k as int), skip_empty),
        decreases found@.len() - k,
    {
        let (s, e) = found[k];
        proof {
            assert(found@.take(k + 1).drop_last() =~= found@.take(k as int));
            assert(found@.take(k + 1).last() == found@[k as int]);
        }
        if !(skip_empty && s >= e) {
            let cs = table_lookup(&table, Ghost(content@), s);
            let ce = table_lookup(&table, Ghost(content@), e);
            let ghost before = r@;
            r.push(Range { start: cs, end: ce });
            proof {
                assert(range_pairs(r@) =~= range_pairs(before).push((cs as nat, ce as nat)));
            }
        }
        k += 1;
    }
    proof {
        assert(found@.take(k as int) =~= found@);
    }
    r
}


// ---------------------------------------------------------------------------
// Lowercase forms and regular expressions

/// The lowercase form of a text, as `str::to_lowercase` gives it.
pub uninterp spec fn lowercased(s: Seq<char>) -> Seq<char>;

/// Calls `str::to_lowercase`, which maps each character by the Unicode `Lowercase`
/// property. The contract names the result (`lowercased`) and states it for an
/// ASCII text, where it is the ASCII lower-case mapping; beyond ASCII the mapping
/// is left unstated.
#[verifier::external_body]
fn to_lowercase(s: &str) -> (r: String)
    ensures
        r@ == lowercased(s@),
        (forall|k: int| 0 <= k < s@.len() ==> (s@[k] as u32) < 128) ==> r@ == s@.map_values(
            |c: char| ascii_lower(c),
        ),
{
    s.to_lowercase()
}

/// The byte ranges that `Regex::find_iter` yields on `text` for `pattern` built by
/// `RegexBuilder` (case-insensitive when `ci`), or `None` when it does not compile.
pub uninterp spec fn regex_found(pattern: Seq<char>, ci: bool, text: Seq<char>) -> Option<Seq<(usize, usize)>>;

/// Builds `pattern` with `regex::RegexBuilder` (`case_insensitive(ci)`) and collects
/// the start and end of each match of `Regex::find_iter` on `text`. The contract
/// names the result (`regex_found`) and states what the crate documents of every
/// match: its start is at most its end.
#[verifier::external_body]
fn regex_find(pattern: &str, ci: bool, text: &str) -> (r: Option<Vec<(usize, usize)>>)
    ensures
        match r {
            Some(v) => regex_found(pattern@, ci, text@) == Some(v@) && forall|k: int|
                0 <= k < v@.len() ==> (#[trigger] v@[k]).0 <= v@[k].1,
            None => regex_found(pattern@, ci, text@) is None,
        },
{
    match regex::RegexBuilder::new(pattern).case_insensitive(ci).build() {
        Ok(re) => Some(re.find_iter(text).map(|m| (m.start(), m.end())).collect()),
        Err(_) => None,
    }
}

/// What `Captures::expand` writes for `template` on the first match of `pattern`
/// (case-insensitive when `ci`) in `text`, or `None` when the pattern does not
/// compile or does not match.
pub uninterp spec fn regex_expanded(pattern: Seq<char>, ci: bool, text: Seq<char>, template: Seq<char>) -> Option<Seq<char>>;

/// Builds `pattern` with `regex::RegexBuilder`, takes `Regex::captures` on `text`
/// and expands `template` with `Captures::expand`. The contract names the result
/// (`regex_expanded`).
#[verifier::external_body]
fn regex_expand(pattern: &str, ci: bool, text: &str, template: &str) -> (r: Option<String>)
    ensures
        match r {
            Some(e) => regex_expanded(pattern@, ci, text@, template@) == Some(e@),
            None => regex_expanded(pattern@, ci, text@, template@) is None,
        },
{
    match regex::RegexBuilder::new(pattern).case_insensitive(ci).build() {
        Ok(re) => match re.captures(text) {
            Some(caps) => {
                let mut out = String::new();
                caps.expand(template, &mut out);
                Some(out)
            },
            None => None,
        },
        Err(_) => None,
    }
}

/// What `Regex::replace_all` gives for `template` on `text` with `pattern`
/// (case-insensitive when `ci`), or `None` when the pattern does not compile.
pub uninterp spec fn regex_replaced(pattern: Seq<char>, ci: bool, text: Seq<char>, template: Seq<char>) -> Option<Seq<char>>;

/// Builds `pattern` with `regex::RegexBuilder` and calls `Regex::replace_all` on
/// `text` with `template`. The contract names the result (`regex_replaced`).
#[verifier::external_body]
fn regex_replace_all(pattern: &str, ci: bool, text: &str, template: &str) -> (r: Option<String>)
    ensures
        match r {
            Some(e) => regex_replaced(pattern@, ci, text@, template@) == Some(e@),
            None => regex_replaced(pattern@, ci, text@, template@) is None,
        },
{
    match regex::RegexBuilder::new(pattern).case_insensitive(ci).build() {
        Ok(re) => Some(re.replace_all(text, template).into_owned()),
        Err(_) => None,
    }
}

/// The text a regular-expression replacement of `text` puts in: the expansion of
/// `template` on its match, or `template` itself when there is none.
pub open spec fn expansion(pattern: Seq<char>, ci: bool, text: Seq<char>, template: Seq<char>) -> Seq<char> {
    match regex_expanded(pattern, ci, text, template) {
        Some(e) => e,
        None => template,
    }
}

/// Computes `expansion`.
pub fn expand_replacement(pattern: &str, ci: bool, text: &str, template: &str) -> (r: String)
    ensures
        r@ == expansion(pattern@, ci, text@, template@),
{
    match regex_expand(pattern, ci, text, template) {
        Some(e) => e,
        None => template.to_owned(),
    }
}

/// `text` with every match of `pattern` replaced by `template`, or `text` unchanged
/// when the pattern does not compile.
pub open spec fn replaced_all(pattern: Seq<char>, ci: bool, text: Seq<char>, template: Seq<char>) -> Seq<char> {
    match regex_replaced(pattern, ci, text, template) {
        Some(e) => e,
        None => text,
    }
}

/// Computes `replaced_all`.
pub fn replace_all_matches(pattern: &str, ci: bool, text: &str, template: &str) -> (r: String)
    ensures
        r@ == replaced_all(pattern@, ci, text@, template@),
{
    match regex_replace_all(pattern, ci, text, template) {
        Some(e) => e,
        None => text.to_owned(),
    }
}

/// The character ranges of `content` that a search for `query` finds: none for
/// an empty query; with `use_regex`, the matches of the regular expression
/// (case-insensitive unless `case_sensitive`), empty ones left out when
/// `skip_empty`; otherwise the occurrences of `query`, in the lowercase forms of
/// both texts unless `case_sensitive`.
pub open spec fn found_matches(
    content: Seq<char>,
    query: Seq<char>,
    use_regex: bool,
    case_sensitive: bool,
    skip_empty: bool,
) -> Seq<(nat, nat)> {
    if query.len() == 0 {
        Seq::empty()
    } else if use_regex {
        match regex_found(query, !case_sensitive, content) {
            Some(found) => byte_hits(content, found, skip_empty),
            None => Seq::empty(),
        }
    } else if case_sensitive {
        literal_hits(content, content, query)
    } else {
        literal_hits(content, lowercased(content), lowercased(query))
    }
}

/// Searches `content` for `query` (see `found_matches`).
pub fn find_matches(content: &str, query: &str, use_regex: bool, case_sensitive: bool, skip_empty: bool) -> (r: Vec<Range<usize>>)
    ensures
        range_pairs(r@) == found_matches(content@, query@, use_regex, case_sensitive, skip_empty),
{
    if query.is_empty() {
        let r: Vec<Range<usize>> = Vec::new();
        proof {
            assert(range_pairs(r@) =~= Seq::<(nat, nat)>::empty());
        }
        return r;
    }
    let content_chars = chars_of(content);
    if use_regex {
        match regex_find(query, !case_sensitive, content) {
            Some(found) => byte_matches(content_chars.as_slice(), found.as_slice(), skip_empty),
            None => {
                let r: Vec<Range<usize>> = Vec::new();
                proof {
                    assert(range_pairs(r@) =~= Seq::<(nat, nat)>::empty());
                }
                r
            },
        }
    } else if case_sensitive {
        let query_chars = chars_of(query);
        literal_matches(content_chars.as_slice(), content_chars.as_slice(), query_chars.as_slice())
    } else {
        let lower_text = to_lowercase(content);
        let lower_query = to_lowercase(query);
        let text_chars = chars_of(lower_text.as_str());
        let query_chars = chars_of(lower_query.as_str());
        literal_matches(content_chars.as_slice(), text_chars.as_slice(), query_chars.as_slice())
    }
}

} // verus!
