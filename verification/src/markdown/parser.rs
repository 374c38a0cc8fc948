//! Wiki-style links: `[[target]]` and `[[target|label]]`.
use vstd::prelude::*;
use crate::editor::undo::texts;
use crate::text::{chars_of, extend_chars, extend_str, string_of, sub_chars};

verus! {

/// The position of the first `]]` of `s` at or after `j`, if any.
pub open spec fn find_close(s: Seq<char>, j: nat) -> Option<nat>
    decreases s.len() - j,
{
    if j + 1 >= s.len() {
        None
    } else if s[j as int] == ']' && s[(j + 1) as int] == ']' {
        Some(j)
    } else {
        find_close(s, j + 1)
    }
}

/// A wiki link opens at position `i` of `s`.
pub open spec fn opens_at(s: Seq<char>, i: nat) -> bool {
    i + 1 < s.len() && s[i as int] == '[' && s[(i + 1) as int] == '['
}

/// The targets of the complete wiki links of `s` from position `i` on: the text
/// between each `[[` and the next `]]`. An unclosed link ends the scan.
pub open spec fn wiki_links_from(s: Seq<char>, i: nat) -> Seq<Seq<char>>
    decreases s.len() - i,
{
    if i >= s.len() {
        Seq::empty()
    } else if opens_at(s, i) {
        match find_close(s, i + 2) {
            Some(k) => {
                proof {
                    lemma_find_close_bounds(s, i + 2);
                }
                seq![s.subrange((i + 2) as int, k as int)] + wiki_links_from(s, k + 2)
            },
            None => Seq::empty(),
        }
    } else {
        wiki_links_from(s, i + 1)
    }
}

/// The position of the first `|` of `s`, if any.
pub open spec fn first_pipe(s: Seq<char>, j: nat) -> Option<nat>
    decreases s.len() - j,
{
    if j >= s.len() {
        None
    } else if s[j as int] == '|' {
        Some(j)
    } else {
        first_pipe(s, j + 1)
    }
}

/// The Markdown link for the wiki link text `link`: `[label](path.md)` when it
/// reads `path|label`, else `[link](link.md)`.
pub open spec fn markdown_link(link: Seq<char>) -> Seq<char> {
    match first_pipe(link, 0) {
        Some(p) => "["@ + link.skip((p + 1) as int) + "]("@ + link.take(p as int) + ".md)"@,
        None => "["@ + link + "]("@ + link + ".md)"@,
    }
}

/// `s` from position `i` on, with each complete wiki link replaced by its Markdown
/// link; an unclosed `[[` and everything after it are kept as they are.
pub open spec fn converted_from(s: Seq<char>, i: nat) -> Seq<char>
    decreases s.len() - i,
{
    if i >= s.len() {
        Seq::empty()
    } else if opens_at(s, i) {
        match find_close(s, i + 2) {
            Some(k) => {
                proof {
                    lemma_find_close_bounds(s, i + 2);
                }
                markdown_link(s.subrange((i + 2) as int, k as int)) + converted_from(s, k + 2)
            },
            None => "[["@ + s.skip((i + 2) as int),
        }
    } else {
        seq![s[i as int]] + converted_from(s, i + 1)
    }
}

/// A closing `]]` found from `j` lies at or after `j`, within the text.
pub proof fn lemma_find_close_bounds(s: Seq<char>, j: nat)
    ensures
        find_close(s, j) matches Some(k) ==> j <= k && k + 1 < s.len(),
    decreases s.len() - j,
{
    if j + 1 < s.len() && !(s[j as int] == ']' && s[(j + 1) as int] == ']') {
        lemma_find_close_bounds(s, j + 1);
    }
}

fn find_close_exec(s: &[char], j: usize) -> (r: Option<usize>)
    ensures
        match r {
            Some(k) => find_close(s@, j as nat) == Some(k as nat),
            None => find_close(s@, j as nat) is None,
        },
{
    let mut k = j;
    while k < s.len() && k + 1 < s.len() && !(s[k] == ']' && s[k + 1] == ']')
        invariant
            j <= k,
            find_close(s@, k as nat) == find_close(s@, j as nat),
        decreases s@.len() - k,
    {
        k += 1;
    }
    if k < s.len() && k + 1 < s.len() {
        Some(k)
    } else {
        None
    }
}

fn find_pipe(s: &[char]) -> (r: Option<usize>)
    ensures
        match r {
            Some(p) => first_pipe(s@, 0) == Some(p as nat) && p < s@.len(),
            None => first_pipe(s@, 0) is None,
        },
{
    let mut p: usize = 0;
    while p < s.len() && s[p] != '|'
        invariant
            p <= s@.len(),
            first_pipe(s@, p as nat) == first_pipe(s@, 0),
        decreases s@.len() - p,
    {
        p += 1;
    }
    if p < s.len() {
        Some(p)
    } else {
        None
    }
}

/// Collects the targets of the wiki links in `content`, in order.
pub fn extract_wiki_links(content: &str) -> (links: Vec<String>)
    ensures
        texts(links@) == wiki_links_from(content@, 0),
{
    let s = chars_of(content);
    let mut links: Vec<String> = Vec::new();
    let mut i: usize = 0;
    proof {
        assert(texts(links@) + wiki_links_from(s@, 0) =~= wiki_links_from(s@, 0));
    }
    while i < s.len()
        invariant
            s@ == content@,
            texts(links@) + wiki_links_from(s@, i as nat) == wiki_links_from(s@, 0),
        decreases s@.len() - i,
    {
        if i + 1 < s.len() && s[i] == '[' && s[i + 1] == '[' {
            match find_close_exec(s.as_slice(), i + 2) {
                Some(k) => {
                    proof {
                        lemma_find_close_bounds(s@, (i + 2) as nat);
                    }
                    let link_chars = sub_chars(s.as_slice(), i + 2, k);
                    let ghost before = texts(links@);
                    links.push(string_of(link_chars.as_slice()));
                    proof {
                        assert(texts(links@) =~= before.push(link_chars@));
                        assert(texts(links@) + wiki_links_from(s@, (k + 2) as nat) =~= before + (
                        seq![s@.subrange(i + 2, k as int)] + wiki_links_from(s@, (k + 2) as nat)));
                    }
                    i = k + 2;
                },
                None => {
                    proof {
                        assert(texts(links@) + Seq::<Seq<char>>::empty() =~= texts(links@));
                    }
                    return links;
                },
            }
        } else {
            i += 1;
        }
    }
    proof {
        assert(texts(links@) + Seq::<Seq<char>>::empty() =~= texts(links@));
    }
    links
}

fn push_markdown_link(out: &mut Vec<char>, link: &[char])
    ensures
        final(out)@ == old(out)@ + markdown_link(link@),
{
    let n = link.len();
    match find_pipe(link) {
        Some(p) => {
            let path = sub_chars(link, 0, p);
            let label = sub_chars(link, p + 1, n);
            extend_str(out, "[");
            extend_chars(out, label.as_slice());
            extend_str(out, "](");
            extend_chars(out, path.as_slice());
            extend_str(out, ".md)");
            proof {
                assert(label@ =~= link@.skip(p + 1));
                assert(path@ =~= link@.take(p as int));
                assert(final(out)@ =~= old(out)@ + markdown_link(link@));
            }
        },
        None => {
            extend_str(out, "[");
            extend_chars(out, link);
            extend_str(out, "](");
            extend_chars(out, link);
            extend_str(out, ".md)");
            proof {
                assert(final(out)@ =~= old(out)@ + markdown_link(link@));
            }
        },
    }
}

/// Rewrites the wiki links of `content` as Markdown links to `.md` files, for
/// rendering: `[[note]]` becomes `[note](note.md)` and `[[note|label]]` becomes
/// `[label](note.md)`.
pub fn preprocess_wiki_links(content: &str) -> (result: String)
    ensures
        result@ == converted_from(content@, 0),
{
    let s = chars_of(content);
    let mut out: Vec<char> = Vec::new();
    let mut i: usize = 0;
    proof {
        assert(out@ + converted_from(s@, 0) =~= converted_from(s@, 0));
    }
    while i < s.len()
        invariant
            s@ == content@,
            out@ + converted_from(s@, i as nat) == converted_from(s@, 0),
        decreases s@.len() - i,
    {
        let ghost before = out@;
        if i + 1 < s.len() && s[i] == '[' && s[i + 1] == '[' {
            match find_close_exec(s.as_slice(), i + 2) {
                Some(k) => {
                    proof {
                        lemma_find_close_bounds(s@, (i + 2) as nat);
                    }
                    let link_chars = sub_chars(s.as_slice(), i + 2, k);
                    push_markdown_link(&mut out, link_chars.as_slice());
                    proof {
                        assert(out@ + converted_from(s@, (k + 2) as nat) =~= before + (
                        markdown_link(s@.subrange(i + 2, k as int)) + converted_from(
                            s@,
                            (k + 2) as nat,
                        )));
                    }
                    i = k + 2;
                },
                None => {
                    extend_str(&mut out, "[[");
                    let rest = sub_chars(s.as_slice(), i + 2, s.len());
                    extend_chars(&mut out, rest.as_slice());
                    proof {
                        assert(rest@ =~= s@.skip(i + 2));
                        assert(out@ =~= before + ("[["@ + s@.skip(i + 2)));
                    }
                    return string_of(out.as_slice());
                },
            }
        } else {
            out.push(s[i]);
            proof {
                assert(out@ + converted_from(s@, (i + 1) as nat) =~= before + (seq![s@[i as int]]
                    + converted_from(s@, (i + 1) as nat)));
            }
            i += 1;
        }
    }
    proof {
        assert(out@ + Seq::<char>::empty() =~= out@);
    }
    string_of(out.as_slice())
}

/// A text in which no `[[` occurs is left unchanged by the link conversion and has
/// no wiki links.
pub proof fn law_plain_text_unchanged(s: Seq<char>, i: nat)
    requires
        i <= s.len(),
        forall|j: nat| j < s.len() ==> !opens_at(s, j),
    ensures
        converted_from(s, i) == s.skip(i as int),
        wiki_links_from(s, i) == Seq::<Seq<char>>::empty(),
    decreases s.len() - i,
{
    if i < s.len() {
        assert(!opens_at(s, i));
        law_plain_text_unchanged(s, i + 1);
        assert(seq![s[i as int]] + s.skip((i + 1) as int) =~= s.skip(i as int));
    } else {
        assert(s.skip(i as int) =~= Seq::<char>::empty());
    }
}

} // verus!
