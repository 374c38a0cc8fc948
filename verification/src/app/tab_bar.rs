//! Labels of the tabs: file names shortened to fit.
use vstd::prelude::*;
use crate::text::{chars_of, extend_chars, string_of, sub_chars, utf8_len, utf8_len_of, lemma_utf8_len_monotone};

verus! {

/// The position of the last `.` of `s` before position `j`, if any.
pub open spec fn last_dot(s: Seq<char>, j: nat) -> Option<nat>
    decreases j,
{
    if j == 0 || j > s.len() {
        None
    } else if s[j - 1] == '.' {
        Some((j - 1) as nat)
    } else {
        last_dot(s, (j - 1) as nat)
    }
}

/// The larger of `a` and `b`.
pub open spec fn max_nat(a: nat, b: nat) -> nat {
    if a >= b {
        a
    } else {
        b
    }
}

/// The file name shortened to about `max_len` characters: the base name is cut,
/// keeping at least three of its characters when it has them, and the extension
/// (from the last `.`, whose length is counted in bytes) is kept whole. Names that
/// fit are unchanged.
pub open spec fn truncated_name(f: Seq<char>, max_len: nat) -> Seq<char> {
    if f.len() <= max_len {
        f
    } else {
        match last_dot(f, f.len()) {
            Some(i) => {
                let ext = f.skip(i as int);
                let base = f.take(i as int);
                let base_len = if max_len > utf8_len(ext) {
                    let len = (max_len - utf8_len(ext)) as nat;
                    if base.len() >= 3 {
                        max_nat(len, 3)
                    } else {
                        len
                    }
                } else if base.len() >= 3 {
                    3
                } else {
                    base.len()
                };
                base.take(if base_len <= base.len() {
                    base_len as int
                } else {
                    base.len() as int
                }) + ext
            },
            None => {
                let base_len = if f.len() >= 3 {
                    max_nat(max_len, 3)
                } else {
                    max_len
                };
                f.take(if base_len <= f.len() {
                    base_len as int
                } else {
                    f.len() as int
                })
            },
        }
    }
}

/// Shortens a file name for a tab label (see `truncated_name`).
pub fn truncate_filename(filename: &str, max_len: usize) -> (r: String)
    ensures
        r@ == truncated_name(filename@, max_len as nat),
{
    let f = chars_of(filename);
    if f.len() <= max_len {
        return string_of(f.as_slice());
    }
    let mut j = f.len();
    while j > 0 && f[j - 1] != '.'
        invariant
            j <= f@.len(),
            last_dot(f@, j as nat) == last_dot(f@, f@.len()),
        decreases j,
    {
        j -= 1;
    }
    if j > 0 {
        let idx = j - 1;
        let ext = sub_chars(f.as_slice(), idx, f.len());
        let base = sub_chars(f.as_slice(), 0, idx);
        let ext_len = utf8_len_of(ext.as_slice());
        proof {
            assert(ext@ =~= f@.skip(idx as int));
            assert(base@ =~= f@.take(idx as int));
            lemma_utf8_len_monotone(ext@);
        }
        let base_len = if max_len > ext_len {
            let len = max_len - ext_len;
            if base.len() >= 3 {
                if len >= 3 {
                    len
                } else {
                    3
                }
            } else {
                len
            }
        } else if base.len() >= 3 {
            3
        } else {
            base.len()
        };
        let take = if base_len <= base.len() {
            base_len
        } else {
            base.len()
        };
        let mut out = sub_chars(base.as_slice(), 0, take);
        extend_chars(&mut out, ext.as_slice());
        proof {
            assert(out@ =~= base@.take(take as int) + ext@);
        }
        string_of(out.as_slice())
    } else {
        let base_len = if f.len() >= 3 {
            if max_len >= 3 {
                max_len
            } else {
                3
            }
        } else {
            max_len
        };
        let take = if base_len <= f.len() {
            base_len
        } else {
            f.len()
        };
        let out = sub_chars(f.as_slice(), 0, take);
        proof {
            assert(out@ =~= f@.take(take as int));
        }
        string_of(out.as_slice())
    }
}

/// The number of words of `s`: maximal runs of characters other than space, `_` and `-`.
pub open spec fn word_count(s: Seq<char>) -> nat
    decreases s.len(),
{
    if s.len() == 0 {
        0
    } else if is_word_break(s.last()) {
        word_count(s.drop_last())
    } else if s.len() == 1 || is_word_break(s[s.len() - 2]) {
        word_count(s.drop_last()) + 1
    } else {
        word_count(s.drop_last())
    }
}

/// A space, an underscore or a hyphen.
pub open spec fn is_word_break(c: char) -> bool {
    c == ' ' || c == '_' || c == '-'
}

/// The label of a tab for `filename`: names of more than two words in their base
/// (before the last `.`) are shortened to `max_len`, others are shown whole.
pub open spec fn tab_label_of(filename: Seq<char>, max_len: nat) -> Seq<char> {
    let base = match last_dot(filename, filename.len()) {
        Some(i) => filename.take(i as int),
        None => filename,
    };
    if word_count(base) > 2 {
        truncated_name(filename, max_len)
    } else {
        filename
    }
}

fn count_words(s: &[char]) -> (n: usize)
    ensures
        n == word_count(s@),
{
    let mut n: usize = 0;
    let mut i: usize = 0;
    while i < s.len()
        invariant
            i <= s@.len(),
            n == word_count(s@.take(i as int)),
            n <= i,
        decreases s@.len() - i,
    {
        proof {
            assert(s@.take(i as int + 1).drop_last() =~= s@.take(i as int));
        }
        let c = s[i];
        if !(c == ' ' || c == '_' || c == '-') && (i == 0 || s[i - 1] == ' ' || s[i - 1] == '_'
            || s[i - 1] == '-') {
            n += 1;
        }
        i += 1;
    }
    proof {
        assert(s@.take(s@.len() as int) =~= s@);
    }
    n
}

/// The label of a tab for `filename` (see `tab_label_of`).
pub fn tab_label(filename: &str, max_len: usize) -> (r: String)
    ensures
        r@ == tab_label_of(filename@, max_len as nat),
{
    let f = chars_of(filename);
    let mut j = f.len();
    while j > 0 && f[j - 1] != '.'
        invariant
            j <= f@.len(),
            last_dot(f@, j as nat) == last_dot(f@, f@.len()),
        decreases j,
    {
        j -= 1;
    }
    let base = if j > 0 {
        sub_chars(f.as_slice(), 0, j - 1)
    } else {
        sub_chars(f.as_slice(), 0, f.len())
    };
    proof {
        if j > 0 {
            assert(base@ =~= f@.take(j - 1));
        } else {
            assert(base@ =~= f@);
        }
    }
    if count_words(base.as_slice()) > 2 {
        truncate_filename(filename, max_len)
    } else {
        string_of(f.as_slice())
    }
}

/// A name that fits is never shortened, and a shortened name keeps its extension.
pub proof fn law_truncation_keeps_fitting_names(f: Seq<char>, max_len: nat)
    ensures
        f.len() <= max_len ==> truncated_name(f, max_len) == f,
        last_dot(f, f.len()) matches Some(i) ==> ends_with_ext(truncated_name(f, max_len), f.skip(i as int)),
{
    lemma_last_dot(f, f.len());
    if let Some(i) = last_dot(f, f.len()) {
        let ext = f.skip(i as int);
        let r = truncated_name(f, max_len);
        if f.len() <= max_len {
            assert(r.skip(r.len() - ext.len()) =~= ext);
        } else {
            let base = f.take(i as int);
            assert(r.skip(r.len() - ext.len()) =~= ext);
        }
    }
}

proof fn lemma_last_dot(s: Seq<char>, j: nat)
    ensures
        last_dot(s, j) matches Some(i) ==> i < j && i < s.len(),
    decreases j,
{
    if j > 0 && j <= s.len() && s[j - 1] != '.' {
        lemma_last_dot(s, (j - 1) as nat);
    }
}

/// `s` ends with `ext`.
pub open spec fn ends_with_ext(s: Seq<char>, ext: Seq<char>) -> bool {
    ext.len() <= s.len() && s.skip(s.len() - ext.len()) == ext
}

} // verus!
