//! Character classification and conversions between strings and char vectors.
//!
//! Unicode character properties are given names here: the standard library
//! computes them from the Unicode tables, and only their ASCII part is stated.
use vstd::prelude::*;

verus! {

/// Whether a non-ASCII `c` has the Unicode `White_Space` property, as
/// `char::is_whitespace` reports.
pub uninterp spec fn unicode_whitespace(c: char) -> bool;

/// Whether a non-ASCII `c` is alphabetic or numeric in Unicode, as
/// `char::is_alphanumeric` reports.
pub uninterp spec fn unicode_alphanumeric(c: char) -> bool;

/// Whether `c` is whitespace: for ASCII, space, tab, line feed, vertical tab, form
/// feed and carriage return; beyond ASCII, the Unicode `White_Space` property.
pub open spec fn is_white(c: char) -> bool {
    if (c as u32) < 128 {
        is_ascii_white(c)
    } else {
        unicode_whitespace(c)
    }
}

/// Whether `c` is alphanumeric: for ASCII, letters and digits; beyond ASCII, the
/// Unicode alphabetic and numeric properties.
pub open spec fn is_alnum(c: char) -> bool {
    if (c as u32) < 128 {
        is_ascii_alnum(c)
    } else {
        unicode_alphanumeric(c)
    }
}

/// The ASCII whitespace characters that carry the Unicode `White_Space` property.
pub open spec fn is_ascii_white(c: char) -> bool {
    c == ' ' || c == '\t' || c == '\n' || c == '\x0B' || c == '\x0C' || c == '\r'
}

/// ASCII letters and digits.
pub open spec fn is_ascii_alnum(c: char) -> bool {
    ('a' <= c && c <= 'z') || ('A' <= c && c <= 'Z') || ('0' <= c && c <= '9')
}

/// `c` with an ASCII upper-case letter mapped to its lower-case form.
pub open spec fn ascii_lower(c: char) -> char {
    if 'A' <= c && c <= 'Z' {
        ((c as u32) + 32) as char
    } else {
        c
    }
}

/// Calls `char::is_whitespace`. For ASCII characters it is true exactly for space,
/// tab, line feed, vertical tab, form feed and carriage return; for the others the
/// result is named.
#[verifier::external_body]
pub(crate) fn is_whitespace(c: char) -> (r: bool)
    ensures
        r == is_white(c),
        (c as u32) >= 128 ==> r == unicode_whitespace(c),
{
    c.is_whitespace()
}

/// Calls `char::is_alphanumeric`. For ASCII characters it is true exactly for
/// letters and digits; for the others the result is named.
#[verifier::external_body]
pub(crate) fn is_alphanumeric(c: char) -> (r: bool)
    ensures
        r == is_alnum(c),
        (c as u32) >= 128 ==> r == unicode_alphanumeric(c),
{
    c.is_alphanumeric()
}

/// `c` with `'A'..='Z'` mapped to `'a'..='z'` and every other character left
/// unchanged, as `char::to_ascii_lowercase` does.
pub(crate) fn to_ascii_lowercase(c: char) -> (r: char)
    ensures
        r == ascii_lower(c),
{
    if 'A' <= c && c <= 'Z' {
        let b: u8 = c as u8;
        ((b + 32) as u8) as char
    } else {
        c
    }
}

/// Collects the characters of `s` (`str::chars`) into a vector.
#[verifier::external_body]
pub(crate) fn chars_of(s: &str) -> (v: Vec<char>)
    ensures
        v@ == s@,
{
    s.chars().collect()
}

/// Builds a `String` from a slice of characters (`FromIterator<&char>` for `String`).
#[verifier::external_body]
pub(crate) fn string_of(v: &[char]) -> (s: String)
    ensures
        s@ == v@,
{
    v.iter().collect()
}

/// Whether `a` and `b` hold the same characters.
pub fn chars_equal(a: &[char], b: &[char]) -> (r: bool)
    ensures
        r <==> a@ == b@,
{
    if a.len() != b.len() {
        return false;
    }
    let mut i: usize = 0;
    while i < a.len()
        invariant
            a@.len() == b@.len(),
            i <= a@.len(),
            forall|k: int| 0 <= k < i ==> a@[k] == b@[k],
        decreases a@.len() - i,
    {
        if a[i] != b[i] {
            return false;
        }
        i += 1;
    }
    proof {
        assert(a@ =~= b@);
    }
    true
}

/// Appends every character of `src` to `dst`.
pub fn extend_chars(dst: &mut Vec<char>, src: &[char])
    ensures
        final(dst)@ == old(dst)@ + src@,
{
    let mut i: usize = 0;
    while i < src.len()
        invariant
            i <= src@.len(),
            dst@ == old(dst)@ + src@.take(i as int),
        decreases src@.len() - i,
    {
        dst.push(src[i]);
        proof {
            assert(src@.take(i as int + 1) =~= src@.take(i as int).push(src@[i as int]));
        }
        i += 1;
    }
    proof {
        assert(src@.take(src@.len() as int) =~= src@);
    }
}

/// Appends the characters of a string to `dst`.
pub fn extend_str(dst: &mut Vec<char>, src: &str)
    ensures
        final(dst)@ == old(dst)@ + src@,
{
    let cs = chars_of(src);
    extend_chars(dst, cs.as_slice());
}

/// The characters `v[start..end]` as a new vector.
pub fn sub_chars(v: &[char], start: usize, end: usize) -> (r: Vec<char>)
    requires
        start <= end <= v@.len(),
    ensures
        r@ == v@.subrange(start as int, end as int),
{
    let mut r: Vec<char> = Vec::new();
    let mut i = start;
    while i < end
        invariant
            start <= i <= end <= v@.len(),
            r@ == v@.subrange(start as int, i as int),
        decreases end - i,
    {
        r.push(v[i]);
        proof {
            assert(v@.subrange(start as int, i as int + 1) =~= v@.subrange(
                start as int,
                i as int,
            ).push(v@[i as int]));
        }
        i += 1;
    }
    r
}


// ---------------------------------------------------------------------------
// Trimming, prefixes and lines

/// The number of leading characters of `s` that are Unicode whitespace, counting from `i`.
pub open spec fn leading_white_from(s: Seq<char>, i: nat) -> nat
    decreases s.len() - i,
{
    if i < s.len() && is_white(s[i as int]) {
        leading_white_from(s, i + 1)
    } else {
        i
    }
}

/// Where `s` ends once trailing Unicode whitespace before position `j` is dropped.
pub open spec fn trailing_white_end(s: Seq<char>, j: nat) -> nat
    decreases j,
{
    if j > 0 && j <= s.len() && is_white(s[j - 1]) {
        trailing_white_end(s, (j - 1) as nat)
    } else {
        j
    }
}

/// `s` without leading and trailing Unicode whitespace, as `str::trim` gives it.
pub open spec fn trim(s: Seq<char>) -> Seq<char> {
    let t = s.skip(leading_white_from(s, 0) as int);
    t.take(trailing_white_end(t, t.len()) as int)
}

/// `s` without leading Unicode whitespace.
pub open spec fn trim_start(s: Seq<char>) -> Seq<char> {
    s.skip(leading_white_from(s, 0) as int)
}

/// Where `p` first occurs in `s` at or after position `i`.
pub open spec fn find_from(s: Seq<char>, p: Seq<char>, i: nat) -> Option<nat>
    decreases s.len() - i,
{
    if i + p.len() > s.len() {
        None
    } else if s.subrange(i as int, (i + p.len()) as int) == p {
        Some(i)
    } else if i >= s.len() {
        None
    } else {
        find_from(s, p, i + 1)
    }
}

/// Whether `s` begins with `p`.
pub open spec fn starts_with(s: Seq<char>, p: Seq<char>) -> bool {
    p.len() <= s.len() && s.take(p.len() as int) == p
}

/// Whether `s` ends with `p`.
pub open spec fn ends_with(s: Seq<char>, p: Seq<char>) -> bool {
    p.len() <= s.len() && s.skip(s.len() - p.len()) == p
}

/// The position of the first line feed of `s` at or after `i`, or the length of `s`.
pub open spec fn next_newline(s: Seq<char>, i: nat) -> nat
    decreases s.len() - i,
{
    if i >= s.len() {
        s.len()
    } else if s[i as int] == '\n' {
        i
    } else {
        next_newline(s, i + 1)
    }
}

/// A line as `str::lines` yields it: without a carriage return that preceded the line feed.
pub open spec fn strip_cr(line: Seq<char>) -> Seq<char> {
    if line.len() > 0 && line.last() == '\r' {
        line.drop_last()
    } else {
        line
    }
}

/// The lines of `s` as `str::lines` yields them: split at line feeds, a carriage
/// return before a line feed dropped, and no empty line after a final line feed.
pub open spec fn lines_of(s: Seq<char>) -> Seq<Seq<char>>
    decreases s.len(),
{
    if s.len() == 0 {
        Seq::empty()
    } else {
        let k = next_newline(s, 0);
        if k >= s.len() {
            seq![s]
        } else {
            seq![strip_cr(s.take(k as int))] + lines_of(s.skip(k + 1 as int))
        }
    }
}

/// The lines joined with line feeds between them, as `join("\n")` gives it.
pub open spec fn join_lines(ls: Seq<Seq<char>>) -> Seq<char>
    decreases ls.len(),
{
    if ls.len() == 0 {
        Seq::empty()
    } else if ls.len() == 1 {
        ls[0]
    } else {
        join_lines(ls.drop_last()) + seq!['\n'] + ls.last()
    }
}

/// The texts of a vector of character vectors.
pub open spec fn char_rows(v: Seq<Vec<char>>) -> Seq<Seq<char>> {
    v.map_values(|x: Vec<char>| x@)
}

/// Whether `s` and `t` hold the same characters.
pub fn str_equal(s: &str, t: &str) -> (r: bool)
    ensures
        r <==> s@ == t@,
{
    let a = chars_of(s);
    let b = chars_of(t);
    chars_equal(a.as_slice(), b.as_slice())
}

/// Whether `s` contains the character `c`.
pub fn contains_char(s: &[char], c: char) -> (r: bool)
    ensures
        r <==> s@.contains(c),
{
    let mut i: usize = 0;
    while i < s.len()
        invariant
            i <= s@.len(),
            forall|k: int| 0 <= k < i ==> s@[k] != c,
        decreases s@.len() - i,
    {
        if s[i] == c {
            assert(s@[i as int] == c);
            return true;
        }
        i += 1;
    }
    false
}

/// Whether `s` begins with the characters of `p`.
pub fn has_prefix(s: &[char], p: &str) -> (r: bool)
    ensures
        r <==> starts_with(s@, p@),
{
    let pc = chars_of(p);
    if pc.len() > s.len() {
        return false;
    }
    let head = sub_chars(s, 0, pc.len());
    let r = chars_equal(head.as_slice(), pc.as_slice());
    proof {
        assert(s@.take(pc@.len() as int) =~= s@.subrange(0, pc@.len() as int));
    }
    r
}

/// Whether `s` ends with the characters of `p`.
pub fn has_suffix(s: &[char], p: &str) -> (r: bool)
    ensures
        r <==> ends_with(s@, p@),
{
    let pc = chars_of(p);
    if pc.len() > s.len() {
        return false;
    }
    let tail = sub_chars(s, s.len() - pc.len(), s.len());
    let r = chars_equal(tail.as_slice(), pc.as_slice());
    proof {
        assert(s@.skip(s@.len() - pc@.len()) =~= s@.subrange(
            s@.len() - pc@.len(),
            s@.len() as int,
        ));
    }
    r
}

/// `s` without leading Unicode whitespace.
pub fn trim_start_chars(s: &[char]) -> (r: Vec<char>)
    ensures
        r@ == trim_start(s@),
{
    let mut a: usize = 0;
    while a < s.len() && is_whitespace(s[a])
        invariant
            a <= s@.len(),
            leading_white_from(s@, a as nat) == leading_white_from(s@, 0),
        decreases s@.len() - a,
    {
        a += 1;
    }
    let t = sub_chars(s, a, s.len());
    proof {
        assert(t@ =~= s@.skip(a as int));
    }
    t
}

/// Where `p` first occurs in `s` (`str::find` counted in characters).
pub fn find_chars(s: &[char], p: &str) -> (r: Option<usize>)
    ensures
        match r {
            Some(i) => find_from(s@, p@, 0) == Some(i as nat),
            None => find_from(s@, p@, 0) is None,
        },
{
    let pc = chars_of(p);
    let n = s.len();
    if pc.len() > n {
        return None;
    }
    let last = n - pc.len();
    let mut i: usize = 0;
    loop
        invariant
            n == s@.len(),
            pc@ == p@,
            pc@.len() <= n,
            last == n - pc@.len(),
            i <= last,
            find_from(s@, p@, i as nat) == find_from(s@, p@, 0),
        decreases last - i,
    {
        let window = sub_chars(s, i, i + pc.len());
        if chars_equal(window.as_slice(), pc.as_slice()) {
            return Some(i);
        }
        if i == last {
            proof {
                assert(find_from(s@, p@, (i + 1) as nat) is None);
            }
            return None;
        }
        i += 1;
    }
}

/// `s` without leading and trailing Unicode whitespace.
pub fn trim_chars(s: &[char]) -> (r: Vec<char>)
    ensures
        r@ == trim(s@),
{
    let mut a: usize = 0;
    while a < s.len() && is_whitespace(s[a])
        invariant
            a <= s@.len(),
            leading_white_from(s@, a as nat) == leading_white_from(s@, 0),
        decreases s@.len() - a,
    {
        a += 1;
    }
    let t = sub_chars(s, a, s.len());
    proof {
        assert(t@ =~= s@.skip(a as int));
    }
    let mut b: usize = t.len();
    while b > 0 && is_whitespace(t[b - 1])
        invariant
            b <= t@.len(),
            trailing_white_end(t@, b as nat) == trailing_white_end(t@, t@.len()),
        decreases b,
    {
        b -= 1;
    }
    let r = sub_chars(t.as_slice(), 0, b);
    proof {
        assert(r@ =~= t@.take(b as int));
    }
    r
}

proof fn lemma_next_newline(s: Seq<char>, start: nat, k: nat, j: nat)
    requires
        start <= k <= s.len(),
        j <= k - start,
        forall|m: int| start <= m < k ==> s[m] != '\n',
        k == s.len() || s[k as int] == '\n',
    ensures
        next_newline(s.skip(start as int), j) == k - start,
    decreases k - start - j,
{
    let t = s.skip(start as int);
    if j < k - start {
        assert(t[j as int] == s[(start + j) as int]);
        lemma_next_newline(s, start, k, j + 1);
    }
}

/// The lines of `s`, as `str::lines` yields them.
pub fn split_lines(s: &[char]) -> (r: Vec<Vec<char>>)
    ensures
        char_rows(r@) == lines_of(s@),
{
    let mut out: Vec<Vec<char>> = Vec::new();
    let mut start: usize = 0;
    proof {
        assert(s@.skip(0) =~= s@);
        assert(char_rows(out@) + lines_of(s@) =~= lines_of(s@));
    }
    while start < s.len()
        invariant
            start <= s@.len(),
            lines_of(s@) == char_rows(out@) + lines_of(s@.skip(start as int)),
        decreases s@.len() - start,
    {
        let mut k = start;
        while k < s.len() && s[k] != '\n'
            invariant
                start <= k <= s@.len(),
                forall|m: int| start <= m < k ==> s@[m] != '\n',
            decreases s@.len() - k,
        {
            k += 1;
        }
        let ghost t = s@.skip(start as int);
        proof {
            lemma_next_newline(s@, start as nat, k as nat, 0);
        }
        let ghost before = char_rows(out@);
        if k >= s.len() {
            let line = sub_chars(s, start, k);
            out.push(line);
            proof {
                assert(line@ =~= t);
                assert(char_rows(out@) =~= before.push(line@));
                assert(s@.skip(k as int) =~= Seq::<char>::empty());
                assert(lines_of(s@.skip(k as int)) =~= Seq::<Seq<char>>::empty());
                assert(char_rows(out@) + lines_of(s@.skip(k as int)) =~= before + seq![t]);
            }
            start = k;
        } else {
            let mut line = sub_chars(s, start, k);
            if line.len() > 0 && line[line.len() - 1] == '\r' {
                line.pop();
            }
            out.push(line);
            proof {
                assert(t.take((k - start) as int) =~= s@.subrange(start as int, k as int));
                assert(t.skip((k - start) as int + 1) =~= s@.skip(k as int + 1));
                assert(char_rows(out@) =~= before.push(line@));
                assert(char_rows(out@) + lines_of(s@.skip(k as int + 1)) =~= before + (seq![
                    strip_cr(t.take((k - start) as int)),
                ] + lines_of(t.skip((k - start) as int + 1))));
            }
            start = k + 1;
        }
    }
    proof {
        assert(s@.skip(start as int) =~= Seq::<char>::empty());
        assert(char_rows(out@) + Seq::<Seq<char>>::empty() =~= char_rows(out@));
    }
    out
}

/// The rows joined with line feeds between them.
pub fn join_rows(rows: &Vec<Vec<char>>) -> (r: Vec<char>)
    ensures
        r@ == join_lines(char_rows(rows@)),
{
    let ghost ls = char_rows(rows@);
    let mut out: Vec<char> = Vec::new();
    let mut i: usize = 0;
    while i < rows.len()
        invariant
            i <= rows@.len(),
            ls == char_rows(rows@),
            out@ == join_lines(ls.take(i as int)),
        decreases rows@.len() - i,
    {
        proof {
            assert(ls.take(i as int + 1).drop_last() =~= ls.take(i as int));
            assert(ls[i as int] == rows@[i as int]@);
        }
        if i > 0 {
            out.push('\n');
        }
        extend_chars(&mut out, rows[i].as_slice());
        proof {
            if i == 0 {
                assert(out@ =~= ls.take(1)[0]);
            } else {
                assert(out@ =~= join_lines(ls.take(i as int)) + seq!['\n'] + ls[i as int]);
            }
        }
        i += 1;
    }
    proof {
        assert(ls.take(rows@.len() as int) =~= ls);
    }
    out
}

// ---------------------------------------------------------------------------
// Decimal numbers

/// The decimal digit for `d`.
pub open spec fn digit_char(d: nat) -> char {
    if d == 0 {
        '0'
    } else if d == 1 {
        '1'
    } else if d == 2 {
        '2'
    } else if d == 3 {
        '3'
    } else if d == 4 {
        '4'
    } else if d == 5 {
        '5'
    } else if d == 6 {
        '6'
    } else if d == 7 {
        '7'
    } else if d == 8 {
        '8'
    } else {
        '9'
    }
}

/// The decimal representation of `n`, without leading zeros.
pub open spec fn decimal(n: nat) -> Seq<char>
    decreases n,
{
    if n < 10 {
        seq![digit_char(n)]
    } else {
        decimal(n / 10).push(digit_char(n % 10))
    }
}

fn digit(d: usize) -> (c: char)
    requires
        d < 10,
    ensures
        c == digit_char(d as nat),
{
    if d == 0 {
        '0'
    } else if d == 1 {
        '1'
    } else if d == 2 {
        '2'
    } else if d == 3 {
        '3'
    } else if d == 4 {
        '4'
    } else if d == 5 {
        '5'
    } else if d == 6 {
        '6'
    } else if d == 7 {
        '7'
    } else if d == 8 {
        '8'
    } else {
        '9'
    }
}

/// Appends the decimal representation of `n`.
pub fn push_decimal(v: &mut Vec<char>, n: usize)
    ensures
        final(v)@ == old(v)@ + decimal(n as nat),
    decreases n,
{
    if n >= 10 {
        push_decimal(v, n / 10);
    }
    v.push(digit(n % 10));
    proof {
        if n >= 10 {
            assert(old(v)@ + decimal(n as nat) =~= old(v)@ + decimal((n / 10) as nat) + seq![
                digit_char((n % 10) as nat),
            ]);
        } else {
            assert(old(v)@ + decimal(n as nat) =~= old(v)@.push(digit_char(n as nat)));
        }
    }
}

// ---------------------------------------------------------------------------
// UTF-8 widths

/// The number of bytes of `c` in UTF-8.
pub open spec fn utf8_width(c: char) -> nat {
    if (c as u32) < 0x80 {
        1
    } else if (c as u32) < 0x800 {
        2
    } else if (c as u32) < 0x10000 {
        3
    } else {
        4
    }
}

/// The number of bytes of `s` in UTF-8.
pub open spec fn utf8_len(s: Seq<char>) -> nat
    decreases s.len(),
{
    if s.len() == 0 {
        0
    } else {
        utf8_len(s.drop_last()) + utf8_width(s.last())
    }
}

pub fn char_width(c: char) -> (n: usize)
    ensures
        n == utf8_width(c),
{
    let v = c as u32;
    if v < 0x80 {
        1
    } else if v < 0x800 {
        2
    } else if v < 0x10000 {
        3
    } else {
        4
    }
}

/// The number of bytes of `s` in UTF-8, saturating at the largest `usize`.
pub fn utf8_len_of(s: &[char]) -> (n: usize)
    ensures
        n == if utf8_len(s@) <= usize::MAX {
            utf8_len(s@)
        } else {
            usize::MAX as nat
        },
{
    let mut n: usize = 0;
    let mut i: usize = 0;
    let mut saturated = false;
    while i < s.len()
        invariant
            i <= s@.len(),
            saturated ==> n == usize::MAX && utf8_len(s@.take(i as int)) >= usize::MAX,
            !saturated ==> n == utf8_len(s@.take(i as int)),
        decreases s@.len() - i,
    {
        proof {
            assert(s@.take(i as int + 1).drop_last() =~= s@.take(i as int));
        }
        let w = char_width(s[i]);
        if saturated || n > usize::MAX - w {
            n = usize::MAX;
            saturated = true;
        } else {
            n = n + w;
        }
        i += 1;
    }
    proof {
        assert(s@.take(s@.len() as int) =~= s@);
        lemma_utf8_len_monotone(s@);
    }
    n
}

/// A text has at least as many bytes as characters.
pub proof fn lemma_utf8_len_monotone(s: Seq<char>)
    ensures
        utf8_len(s) >= s.len(),
    decreases s.len(),
{
    if s.len() > 0 {
        lemma_utf8_len_monotone(s.drop_last());
    }
}


/// One more character adds its width to the byte length of a prefix.
pub proof fn lemma_utf8_len_take_step(s: Seq<char>, k: int)
    requires
        0 <= k < s.len(),
    ensures
        utf8_len(s.take(k + 1)) == utf8_len(s.take(k)) + utf8_width(s[k]),
{
    assert(s.take(k + 1).drop_last() =~= s.take(k));
}

/// Longer prefixes have at least as many bytes.
pub proof fn lemma_utf8_len_take_monotone(s: Seq<char>, j: int, k: int)
    requires
        0 <= j <= k <= s.len(),
    ensures
        utf8_len(s.take(j)) <= utf8_len(s.take(k)),
    decreases k - j,
{
    if j < k {
        lemma_utf8_len_take_step(s, k - 1);
        lemma_utf8_len_take_monotone(s, j, k - 1);
    }
}

/// The whole text is its longest prefix.
pub proof fn lemma_take_all(s: Seq<char>)
    ensures
        s.take(s.len() as int) == s,
{
    assert(s.take(s.len() as int) =~= s);
}

/// The byte length counted from the front.
pub proof fn lemma_utf8_len_front(s: Seq<char>)
    requires
        s.len() > 0,
    ensures
        utf8_len(s) == utf8_width(s[0]) + utf8_len(s.drop_first()),
    decreases s.len(),
{
    if s.len() > 1 {
        lemma_utf8_len_front(s.drop_last());
        assert(s.drop_last().drop_first() =~= s.drop_first().drop_last());
        assert(s.drop_first().last() == s.last());
    } else {
        assert(s.drop_first() =~= Seq::<char>::empty());
        assert(s.drop_last() =~= Seq::<char>::empty());
    }
}

/// `utf8_len` is the length of the UTF-8 encoding.
pub proof fn lemma_encode_utf8_len(s: Seq<char>)
    ensures
        vstd::utf8::encode_utf8(s).len() == utf8_len(s),
    decreases s.len(),
{
    if s.len() > 0 {
        lemma_encode_utf8_len(s.drop_first());
        lemma_utf8_len_front(s);
        let c = s[0];
        vstd::utf8::char_is_scalar(c);
        assert(vstd::utf8::encode_scalar(c as u32).len() == utf8_width(c));
    }
}

/// The number of bytes of `s` in UTF-8 (`str::len`).
pub fn str_byte_len(s: &str) -> (n: usize)
    ensures
        n == utf8_len(s@),
{
    let bytes = s.as_bytes();
    proof {
        lemma_encode_utf8_len(s@);
    }
    bytes.len()
}

} // verus!
