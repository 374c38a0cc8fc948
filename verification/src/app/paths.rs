//! Paths as text: their components, lexical cleaning, and resolving link targets.
//!
//! Paths are Unix paths: `/` separates components and a leading `/` makes a
//! path absolute. These are the rules of `std::path` on Unix; on Windows, where
//! `std::path` also splits at `\` and reads drive prefixes, the functions here
//! still treat only `/` as a separator.
use vstd::prelude::*;
use crate::text::{chars_of, extend_chars, extend_str, has_prefix, string_of, sub_chars};

verus! {

/// The position of the first `/` of `s` at or after `i`, or the length of `s`.
pub open spec fn next_slash(s: Seq<char>, i: nat) -> nat
    decreases s.len() - i,
{
    if i >= s.len() {
        s.len()
    } else if s[i as int] == '/' {
        i
    } else {
        next_slash(s, i + 1)
    }
}

/// The pieces of `s` between slashes, empty pieces included.
pub open spec fn segments(s: Seq<char>) -> Seq<Seq<char>>
    decreases s.len(),
{
    let k = next_slash(s, 0);
    if k >= s.len() {
        seq![s]
    } else {
        seq![s.take(k as int)] + segments(s.skip(k + 1 as int))
    }
}

/// `s` starts at the root.
pub open spec fn is_absolute(s: Seq<char>) -> bool {
    s.len() > 0 && s[0] == '/'
}

/// The components after the root among segments `i..` as `Path::components`
/// yields them: empty segments and `.` dropped, except a `.` that begins a
/// relative path.
pub open spec fn parts_from(segs: Seq<Seq<char>>, i: nat, root: bool) -> Seq<Seq<char>>
    decreases segs.len() - i,
{
    if i >= segs.len() {
        Seq::empty()
    } else {
        let seg = segs[i as int];
        if seg.len() > 0 && (seg != "."@ || (i == 0 && !root)) {
            seq![seg] + parts_from(segs, i + 1, root)
        } else {
            parts_from(segs, i + 1, root)
        }
    }
}

/// The components of `s` other than the root.
pub open spec fn path_parts(s: Seq<char>) -> Seq<Seq<char>> {
    parts_from(segments(s), 0, is_absolute(s))
}

/// The components joined by `/`.
pub open spec fn join_parts(parts: Seq<Seq<char>>) -> Seq<char>
    decreases parts.len(),
{
    if parts.len() == 0 {
        Seq::empty()
    } else if parts.len() == 1 {
        parts[0]
    } else {
        join_parts(parts.drop_last()) + seq!['/'] + parts.last()
    }
}

/// The path made of the root (when `root`) and the components.
pub open spec fn render_path(root: bool, parts: Seq<Seq<char>>) -> Seq<char> {
    if root {
        seq!['/'] + join_parts(parts)
    } else {
        join_parts(parts)
    }
}

/// The components after lexical cleaning of components `i..`, starting from `acc`:
/// `.` is dropped and `..` removes the component before it, stays at the start of
/// a relative path, and disappears at the root.
pub open spec fn clean_parts(comps: Seq<Seq<char>>, i: nat, acc: Seq<Seq<char>>, root: bool) -> Seq<Seq<char>>
    decreases comps.len() - i,
{
    if i >= comps.len() {
        acc
    } else {
        let c = comps[i as int];
        let next = if c == "."@ {
            acc
        } else if c == ".."@ {
            if acc.len() > 0 && acc.last() != ".."@ {
                acc.drop_last()
            } else if acc.len() > 0 || !root {
                acc.push(".."@)
            } else {
                acc
            }
        } else {
            acc.push(c)
        };
        clean_parts(comps, i + 1, next, root)
    }
}

/// `s` cleaned lexically, without looking at the file system.
pub open spec fn cleaned(s: Seq<char>) -> Seq<char> {
    render_path(is_absolute(s), clean_parts(path_parts(s), 0, Seq::empty(), is_absolute(s)))
}

/// The parent of `s`: the path without its last component; `None` for the root
/// and for the empty path.
pub open spec fn parent_of(s: Seq<char>) -> Option<Seq<char>> {
    let parts = path_parts(s);
    if parts.len() == 0 {
        None
    } else {
        Some(render_path(is_absolute(s), parts.drop_last()))
    }
}

/// `t` appended to `base` with a separator, as joining a relative path does.
pub open spec fn join_path(base: Seq<char>, t: Seq<char>) -> Seq<char> {
    if base.len() == 0 {
        t
    } else if base.last() == '/' {
        base + t
    } else {
        base + seq!['/'] + t
    }
}

fn split_segments(s: &[char]) -> (r: Vec<Vec<char>>)
    ensures
        crate::text::char_rows(r@) == segments(s@),
{
    let mut out: Vec<Vec<char>> = Vec::new();
    let mut start: usize = 0;
    proof {
        assert(s@.skip(0) =~= s@);
        assert(crate::text::char_rows(out@) + segments(s@) =~= segments(s@));
    }
    loop
        invariant
            start <= s@.len(),
            crate::text::char_rows(out@) + segments(s@.skip(start as int)) == segments(s@),
        decreases s@.len() - start,
    {
        let mut k = start;
        while k < s.len() && s[k] != '/'
            invariant
                start <= k <= s@.len(),
                forall|m: int| start <= m < k ==> s@[m] != '/',
            decreases s@.len() - k,
        {
            k += 1;
        }
        let ghost t = s@.skip(start as int);
        proof {
            lemma_next_slash(s@, start as nat, k as nat, 0);
        }
        let ghost before = crate::text::char_rows(out@);
        let piece = sub_chars(s, start, k);
        out.push(piece);
        proof {
            assert(crate::text::char_rows(out@) =~= before.push(piece@));
        }
        if k >= s.len() {
            proof {
                assert(piece@ =~= t);
                assert(crate::text::char_rows(out@) =~= before + seq![t]);
            }
            return out;
        }
        proof {
            assert(t.take((k - start) as int) =~= piece@);
            assert(t.skip((k - start) as int + 1) =~= s@.skip(k as int + 1));
            assert(crate::text::char_rows(out@) + segments(s@.skip(k as int + 1)) =~= before + (
            seq![t.take((k - start) as int)] + segments(t.skip((k - start) as int + 1))));
        }
        start = k + 1;
    }
}

proof fn lemma_next_slash(s: Seq<char>, start: nat, k: nat, j: nat)
    requires
        start <= k <= s.len(),
        j <= k - start,
        forall|m: int| start <= m < k ==> s[m] != '/',
        k == s.len() || s[k as int] == '/',
    ensures
        next_slash(s.skip(start as int), j) == k - start,
    decreases k - start - j,
{
    let t = s.skip(start as int);
    if j < k - start {
        assert(t[j as int] == s[(start + j) as int]);
        lemma_next_slash(s, start, k, j + 1);
    }
}

fn is_dot(seg: &[char]) -> (r: bool)
    ensures
        r <==> seg@ == "."@,
{
    let d = chars_of(".");
    crate::text::chars_equal(seg, d.as_slice())
}

fn is_dot_dot(seg: &[char]) -> (r: bool)
    ensures
        r <==> seg@ == ".."@,
{
    let d = chars_of("..");
    crate::text::chars_equal(seg, d.as_slice())
}

fn components_of(s: &[char]) -> (r: Vec<Vec<char>>)
    ensures
        crate::text::char_rows(r@) == path_parts(s@),
{
    let root = s.len() > 0 && s[0] == '/';
    let segs = split_segments(s);
    let ghost ss = segments(s@);
    let mut out: Vec<Vec<char>> = Vec::new();
    let mut i: usize = 0;
    proof {
        assert(crate::text::char_rows(out@) + parts_from(ss, 0, root) =~= parts_from(ss, 0, root));
    }
    while i < segs.len()
        invariant
            i <= segs@.len(),
            crate::text::char_rows(segs@) == ss,
            root == is_absolute(s@),
            crate::text::char_rows(out@) + parts_from(ss, i as nat, root) == parts_from(ss, 0, root),
        decreases segs@.len() - i,
    {
        let ghost before = crate::text::char_rows(out@);
        proof {
            assert(ss[i as int] == segs@[i as int]@);
        }
        let seg = segs[i].as_slice();
        if seg.len() > 0 && (!is_dot(seg) || (i == 0 && !root)) {
            out.push(sub_chars(seg, 0, seg.len()));
            proof {
                assert(segs@[i as int]@.subrange(0, segs@[i as int]@.len() as int) =~= ss[i as int]);
                assert(crate::text::char_rows(out@) =~= before.push(ss[i as int]));
                assert(crate::text::char_rows(out@) + parts_from(ss, i as nat + 1, root) =~= before
                    + (seq![ss[i as int]] + parts_from(ss, i as nat + 1, root)));
            }
        }
        i += 1;
    }
    proof {
        assert(crate::text::char_rows(out@) + Seq::<Seq<char>>::empty() =~= crate::text::char_rows(
            out@,
        ));
    }
    out
}

fn render(root: bool, parts: &Vec<Vec<char>>) -> (r: Vec<char>)
    ensures
        r@ == render_path(root, crate::text::char_rows(parts@)),
{
    let ghost ps = crate::text::char_rows(parts@);
    let mut out: Vec<char> = Vec::new();
    if root {
        out.push('/');
    }
    let ghost head = out@;
    let mut i: usize = 0;
    while i < parts.len()
        invariant
            i <= parts@.len(),
            ps == crate::text::char_rows(parts@),
            head == (if root {
                seq!['/']
            } else {
                Seq::<char>::empty()
            }),
            out@ == head + join_parts(ps.take(i as int)),
        decreases parts@.len() - i,
    {
        proof {
            assert(ps.take(i as int + 1).drop_last() =~= ps.take(i as int));
            assert(ps[i as int] == parts@[i as int]@);
        }
        if i > 0 {
            out.push('/');
        }
        extend_chars(&mut out, parts[i].as_slice());
        proof {
            if i == 0 {
                assert(out@ =~= head + ps.take(1)[0]);
            } else {
                assert(out@ =~= head + (join_parts(ps.take(i as int)) + seq!['/'] + ps[i as int]));
            }
        }
        i += 1;
    }
    proof {
        assert(ps.take(parts@.len() as int) =~= ps);
        if !root {
            assert(out@ =~= join_parts(ps));
        }
    }
    out
}

fn clean_chars(s: &[char]) -> (r: Vec<char>)
    ensures
        r@ == cleaned(s@),
{
    let root = s.len() > 0 && s[0] == '/';
    let comps = components_of(s);
    let ghost cs = path_parts(s@);
    let mut acc: Vec<Vec<char>> = Vec::new();
    let mut i: usize = 0;
    proof {
        assert(crate::text::char_rows(acc@) =~= Seq::<Seq<char>>::empty());
    }
    while i < comps.len()
        invariant
            i <= comps@.len(),
            crate::text::char_rows(comps@) == cs,
            root == is_absolute(s@),
            clean_parts(cs, i as nat, crate::text::char_rows(acc@), root) == clean_parts(
                cs,
                0,
                Seq::empty(),
                root,
            ),
        decreases comps@.len() - i,
    {
        let ghost before = crate::text::char_rows(acc@);
        proof {
            assert(cs[i as int] == comps@[i as int]@);
        }
        let c = comps[i].as_slice();
        if is_dot(c) {
        } else if is_dot_dot(c) {
            let n = acc.len();
            if n > 0 && !is_dot_dot(acc[n - 1].as_slice()) {
                acc.pop();
                proof {
                    assert(crate::text::char_rows(acc@) =~= before.drop_last());
                }
            } else if n > 0 || !root {
                acc.push(chars_of(".."));
                proof {
                    assert(crate::text::char_rows(acc@) =~= before.push(".."@));
                }
            }
        } else {
            acc.push(sub_chars(c, 0, c.len()));
            proof {
                assert(comps@[i as int]@.subrange(0, comps@[i as int]@.len() as int) =~= cs[i as int]);
                assert(crate::text::char_rows(acc@) =~= before.push(cs[i as int]));
            }
        }
        i += 1;
    }
    render(root, &acc)
}

/// Cleans a path lexically: drops `.` components and empty ones, lets `..` remove
/// the component before it (or stay at the start of a relative path, or vanish at
/// the root). Only `/` separates components (Unix paths).
pub fn clean_path(path: &str) -> (r: String)
    ensures
        r@ == cleaned(path@),
{
    let s = chars_of(path);
    let r = clean_chars(s.as_slice());
    string_of(r.as_slice())
}

fn parent_chars(s: &[char]) -> (r: Option<Vec<char>>)
    ensures
        match r {
            Some(p) => parent_of(s@) == Some(p@),
            None => parent_of(s@) is None,
        },
{
    let root = s.len() > 0 && s[0] == '/';
    let mut comps = components_of(s);
    if comps.len() == 0 {
        return None;
    }
    let ghost cs = crate::text::char_rows(comps@);
    comps.pop();
    proof {
        assert(crate::text::char_rows(comps@) =~= cs.drop_last());
    }
    Some(render(root, &comps))
}

fn join_chars(base: &[char], t: &[char]) -> (r: Vec<char>)
    ensures
        r@ == join_path(base@, t@),
{
    let mut out = sub_chars(base, 0, base.len());
    proof {
        assert(out@ =~= base@);
    }
    if base.len() == 0 {
        extend_chars(&mut out, t);
        proof {
            assert(out@ =~= t@);
        }
    } else if base[base.len() - 1] == '/' {
        extend_chars(&mut out, t);
    } else {
        out.push('/');
        extend_chars(&mut out, t);
    }
    out
}

/// The text that `urlencoding::decode` gives for `s`: percent escapes decoded,
/// `None` when the decoded bytes are not UTF-8.
pub uninterp spec fn percent_decoded(s: Seq<char>) -> Option<Seq<char>>;

/// The local path of a `file:` URL, as `url::Url::parse` followed by
/// `Url::to_file_path` gives it (as text); `None` when either fails.
pub uninterp spec fn file_url_path(s: Seq<char>) -> Option<Seq<char>>;

/// The text of an optional string.
pub open spec fn opt_text(r: Option<String>) -> Option<Seq<char>> {
    match r {
        Some(s) => Some(s@),
        None => None,
    }
}

/// Calls `urlencoding::decode`. Its result is named: it depends on `s` alone. A
/// text without `%` comes back as it is (the source hands back the input).
#[verifier::external_body]
fn percent_decode(s: &str) -> (r: Option<String>)
    ensures
        opt_text(r) == percent_decoded(s@),
        (forall|k: int| 0 <= k < s@.len() ==> s@[k] != '%') ==> opt_text(r) == Some(s@),
{
    urlencoding::decode(s).ok().map(|c| c.into_owned())
}

/// Calls `url::Url::parse` and then `Url::to_file_path`, and turns the path into
/// text. The result is named: it depends on `s` alone. A path that is not valid
/// UTF-8 is converted lossily, which the name does not record.
#[verifier::external_body]
fn file_url_to_path(s: &str) -> (r: Option<String>)
    ensures
        opt_text(r) == file_url_path(s@),
{
    url::Url::parse(s).ok().and_then(|u| u.to_file_path().ok()).map(|p| p.to_string_lossy().into_owned())
}

/// The path a link target names, before it is resolved against a directory: the
/// percent-decoded target (or the target itself when decoding fails), turned from
/// a `file:` URL into a path when it is one.
pub open spec fn link_target(url: Seq<char>) -> Seq<char> {
    let decoded = match percent_decoded(url) {
        Some(d) => d,
        None => url,
    };
    if starts_with_seq(decoded, "file://"@) {
        match file_url_path(decoded) {
            Some(p) => p,
            None => {
                let rest = decoded.skip(7);
                if starts_with_seq(rest, "localhost"@) {
                    rest.skip(9)
                } else {
                    rest
                }
            },
        }
    } else {
        decoded
    }
}

/// `s` begins with `p`.
pub open spec fn starts_with_seq(s: Seq<char>, p: Seq<char>) -> bool {
    p.len() <= s.len() && s.take(p.len() as int) == p
}

/// The directory a relative link target is resolved against: the parent of the
/// active file, else the vault root, else the current directory, else `.`.
pub open spec fn base_dir(
    active_file: Option<Seq<char>>,
    root_path: Option<Seq<char>>,
    current_dir: Option<Seq<char>>,
) -> Seq<char> {
    let from_active = match active_file {
        Some(a) => parent_of(a),
        None => None,
    };
    match from_active {
        Some(p) => p,
        None => match root_path {
            Some(r) => r,
            None => match current_dir {
                Some(c) => c,
                None => "."@,
            },
        },
    }
}

/// The cleaned path a link target leads to.
pub open spec fn resolved_link(
    url: Seq<char>,
    active_file: Option<Seq<char>>,
    root_path: Option<Seq<char>>,
    current_dir: Option<Seq<char>>,
) -> Seq<char> {
    let target = link_target(url);
    if is_absolute(target) {
        cleaned(target)
    } else {
        cleaned(join_path(base_dir(active_file, root_path, current_dir), target))
    }
}

/// The text of an optional string slice.
pub open spec fn opt_str(r: Option<&str>) -> Option<Seq<char>> {
    match r {
        Some(s) => Some(s@),
        None => None,
    }
}

/// Resolves a link target from the preview to a file path: percent escapes and
/// `file:` URLs are decoded, and a relative target is taken relative to the active
/// file's directory (else the vault root, else `current_dir`, else `.`); the result
/// is cleaned lexically. Paths are read as Unix paths: only `/` separates
/// components.
pub fn resolve_link_path(
    url_str: &str,
    active_file: Option<&str>,
    root_path: Option<&str>,
    current_dir: Option<&str>,
) -> (r: String)
    ensures
        r@ == resolved_link(url_str@, opt_str(active_file), opt_str(root_path), opt_str(current_dir)),
{
    let decoded = match percent_decode(url_str) {
        Some(d) => d,
        None => string_of(chars_of(url_str).as_slice()),
    };
    let dc = chars_of(decoded.as_str());
    let target: Vec<char> = if has_prefix(dc.as_slice(), "file://") {
        match file_url_to_path(decoded.as_str()) {
            Some(p) => chars_of(p.as_str()),
            None => {
                proof {
                    assert("file://"@.len() == 7) by {
                        reveal_strlit("file://");
                    }
                }
                let rest = sub_chars(dc.as_slice(), 7, dc.len());
                if has_prefix(rest.as_slice(), "localhost") {
                    proof {
                        assert("localhost"@.len() == 9) by {
                            reveal_strlit("localhost");
                        }
                    }
                    let r2 = sub_chars(rest.as_slice(), 9, rest.len());
                    proof {
                        assert(r2@ =~= rest@.skip(9));
                        assert(rest@ =~= dc@.skip(7));
                    }
                    r2
                } else {
                    proof {
                        assert(rest@ =~= dc@.skip(7));
                    }
                    rest
                }
            },
        }
    } else {
        dc
    };
    if target.len() > 0 && target[0] == '/' {
        let r = clean_chars(target.as_slice());
        return string_of(r.as_slice());
    }
    let from_active = match active_file {
        Some(a) => parent_chars(chars_of(a).as_slice()),
        None => None,
    };
    let base: Vec<char> = match from_active {
        Some(p) => p,
        None => match root_path {
            Some(r) => chars_of(r),
            None => match current_dir {
                Some(c) => chars_of(c),
                None => chars_of("."),
            },
        },
    };
    let joined = join_chars(base.as_slice(), target.as_slice());
    let r = clean_chars(joined.as_slice());
    string_of(r.as_slice())
}

// ---------------------------------------------------------------------------
// What cleaning guarantees

/// `p` holds no separator.
pub open spec fn no_slash(p: Seq<char>) -> bool {
    forall|k: int| 0 <= k < p.len() ==> p[k] != '/'
}

/// Components as cleaning leaves them: none is empty, holds a separator or is
/// `.`, and every `..` stands in a leading run of `..` of a relative path.
pub open spec fn is_clean(parts: Seq<Seq<char>>, root: bool) -> bool {
    forall|j: int|
        0 <= j < parts.len() ==> {
            &&& (#[trigger] parts[j]).len() > 0
            &&& no_slash(parts[j])
            &&& parts[j] != "."@
            &&& parts[j] == ".."@ ==> !root && forall|k: int| 0 <= k < j ==> parts[k] == ".."@
        }
}

proof fn lemma_next_slash_props(s: Seq<char>, i: nat)
    requires
        i <= s.len(),
    ensures
        i <= next_slash(s, i) <= s.len(),
        forall|k: int| i <= k < next_slash(s, i) ==> s[k] != '/',
        next_slash(s, i) < s.len() ==> s[next_slash(s, i) as int] == '/',
    decreases s.len() - i,
{
    if i < s.len() && s[i as int] != '/' {
        lemma_next_slash_props(s, i + 1);
    }
}

/// No segment holds a separator.
proof fn lemma_segments_no_slash(s: Seq<char>)
    ensures
        forall|j: int| 0 <= j < segments(s).len() ==> no_slash(#[trigger] segments(s)[j]),
    decreases s.len(),
{
    lemma_next_slash_props(s, 0);
    let k = next_slash(s, 0);
    if k < s.len() {
        let rest = s.skip(k + 1 as int);
        lemma_segments_no_slash(rest);
        let segs = segments(s);
        assert(segs == seq![s.take(k as int)] + segments(rest));
        assert forall|j: int| 0 <= j < segs.len() implies no_slash(#[trigger] segs[j]) by {
            if j > 0 {
                assert(segs[j] == segments(rest)[j - 1]);
            }
        }
    }
}

/// The components kept from the segments are non-empty segments.
proof fn lemma_parts_from_kept(segs: Seq<Seq<char>>, i: nat, root: bool)
    requires
        forall|j: int| 0 <= j < segs.len() ==> no_slash(#[trigger] segs[j]),
    ensures
        forall|j: int|
            0 <= j < parts_from(segs, i, root).len() ==> (#[trigger] parts_from(segs, i, root)[j]).len() > 0
                && no_slash(parts_from(segs, i, root)[j]),
    decreases segs.len() - i,
{
    if i < segs.len() {
        lemma_parts_from_kept(segs, i + 1, root);
        let rest = parts_from(segs, i + 1, root);
        let all = parts_from(segs, i, root);
        assert forall|j: int| 0 <= j < all.len() implies (#[trigger] all[j]).len() > 0 && no_slash(all[j]) by {
            if all.len() != rest.len() && j > 0 {
                assert(all[j] == rest[j - 1]);
            }
        }
    }
}

/// Cleaning from clean components gives clean components.
proof fn lemma_clean_parts_clean(comps: Seq<Seq<char>>, i: nat, acc: Seq<Seq<char>>, root: bool)
    requires
        is_clean(acc, root),
        forall|j: int| 0 <= j < comps.len() ==> (#[trigger] comps[j]).len() > 0 && no_slash(comps[j]),
    ensures
        is_clean(clean_parts(comps, i, acc, root), root),
    decreases comps.len() - i,
{
    reveal_strlit(".");
    reveal_strlit("..");
    if i < comps.len() {
        let c = comps[i as int];
        if c == "."@ {
            lemma_clean_parts_clean(comps, i + 1, acc, root);
        } else if c == ".."@ {
            if acc.len() > 0 && acc.last() != ".."@ {
                let next = acc.drop_last();
                assert forall|j: int| 0 <= j < next.len() implies #[trigger] next[j] == acc[j] by {}
                lemma_clean_parts_clean(comps, i + 1, next, root);
            } else if acc.len() > 0 || !root {
                let next = acc.push(".."@);
                assert(acc.len() > 0 ==> acc[acc.len() - 1] == ".."@ && !root);
                assert forall|j: int| 0 <= j < next.len() implies {
                    &&& (#[trigger] next[j]).len() > 0
                    &&& no_slash(next[j])
                    &&& next[j] != "."@
                    &&& next[j] == ".."@ ==> !root && forall|k: int| 0 <= k < j ==> next[k] == ".."@
                } by {
                    if j == acc.len() {
                        assert forall|k: int| 0 <= k < j implies next[k] == ".."@ by {
                            assert(next[k] == acc[k]);
                            assert(acc[acc.len() - 1] == ".."@);
                        }
                    } else {
                        assert(next[j] == acc[j]);
                        assert forall|k: int| 0 <= k < j implies next[k] == acc[k] by {}
                    }
                }
                lemma_clean_parts_clean(comps, i + 1, next, root);
            } else {
                lemma_clean_parts_clean(comps, i + 1, acc, root);
            }
        } else {
            let next = acc.push(c);
            assert forall|j: int| 0 <= j < next.len() implies {
                &&& (#[trigger] next[j]).len() > 0
                &&& no_slash(next[j])
                &&& next[j] != "."@
                &&& next[j] == ".."@ ==> !root && forall|k: int| 0 <= k < j ==> next[k] == ".."@
            } by {
                if j < acc.len() {
                    assert(next[j] == acc[j]);
                    assert forall|k: int| 0 <= k < j implies next[k] == acc[k] by {}
                }
            }
            lemma_clean_parts_clean(comps, i + 1, next, root);
        }
    }
}

/// Cleaning clean components changes nothing.
proof fn lemma_clean_parts_fixed(parts: Seq<Seq<char>>, i: nat, root: bool)
    requires
        is_clean(parts, root),
        i <= parts.len(),
    ensures
        clean_parts(parts, i, parts.take(i as int), root) == parts,
    decreases parts.len() - i,
{
    reveal_strlit(".");
    reveal_strlit("..");
    if i < parts.len() {
        let c = parts[i as int];
        let acc = parts.take(i as int);
        assert(parts.take(i + 1 as int) =~= acc.push(c));
        if c == ".."@ {
            assert(acc.len() > 0 ==> acc.last() == ".."@ && acc[acc.len() - 1] == parts[i - 1]);
        }
        lemma_clean_parts_fixed(parts, i + 1, root);
    } else {
        assert(parts.take(i as int) =~= parts);
    }
}

proof fn lemma_join_front(parts: Seq<Seq<char>>)
    requires
        parts.len() >= 2,
    ensures
        join_parts(parts) == parts[0] + seq!['/'] + join_parts(parts.drop_first()),
    decreases parts.len(),
{
    let rest = parts.drop_first();
    let dl = parts.drop_last();
    assert(join_parts(parts) == join_parts(dl) + seq!['/'] + parts.last());
    if parts.len() == 2 {
        assert(dl =~= seq![parts[0]]);
        assert(join_parts(dl) == parts[0]);
        assert(rest =~= seq![parts[1]]);
        assert(join_parts(rest) == parts[1]);
    } else {
        lemma_join_front(dl);
        assert(dl.drop_first() =~= rest.drop_last());
        assert(dl[0] == parts[0]);
        assert(rest.last() == parts.last());
        assert(join_parts(rest) == join_parts(rest.drop_last()) + seq!['/'] + rest.last());
        assert(join_parts(parts) =~= parts[0] + seq!['/'] + join_parts(rest));
    }
}

/// Joined components split back into the same components.
proof fn lemma_segments_of_join(parts: Seq<Seq<char>>)
    requires
        parts.len() >= 1,
        forall|j: int| 0 <= j < parts.len() ==> no_slash(#[trigger] parts[j]),
    ensures
        segments(join_parts(parts)) == parts,
    decreases parts.len(),
{
    let p0 = parts[0];
    let s = join_parts(parts);
    if parts.len() == 1 {
        lemma_next_slash_props(s, 0);
        assert(parts =~= seq![p0]);
    } else {
        let rest = parts.drop_first();
        lemma_join_front(parts);
        let jr = join_parts(rest);
        assert forall|j: int| 0 <= j < rest.len() implies no_slash(#[trigger] rest[j]) by {
            assert(rest[j] == parts[j + 1]);
        }
        lemma_segments_of_join(rest);
        lemma_next_slash_props(s, 0);
        assert(s[p0.len() as int] == '/');
        assert forall|k: int| 0 <= k < p0.len() implies s[k] != '/' by {
            assert(s[k] == p0[k]);
        }
        assert(next_slash(s, 0) == p0.len());
        assert(s.take(p0.len() as int) =~= p0);
        assert(s.skip(p0.len() + 1 as int) =~= jr);
        assert(parts =~= seq![p0] + rest);
    }
}

/// Segments that are all real components are kept as they are.
proof fn lemma_parts_from_all(segs: Seq<Seq<char>>, i: nat, root: bool)
    requires
        i <= segs.len(),
        forall|j: int| i <= j < segs.len() ==> (#[trigger] segs[j]).len() > 0 && segs[j] != "."@,
    ensures
        parts_from(segs, i, root) == segs.skip(i as int),
    decreases segs.len() - i,
{
    if i < segs.len() {
        lemma_parts_from_all(segs, i + 1, root);
        assert(segs.skip(i as int) =~= seq![segs[i as int]] + segs.skip(i + 1 as int));
    } else {
        assert(segs.skip(i as int) =~= Seq::<Seq<char>>::empty());
    }
}

/// A path written from clean components reads back as them, rooted as written.
proof fn lemma_render_reads_back(root: bool, parts: Seq<Seq<char>>)
    requires
        is_clean(parts, root),
    ensures
        path_parts(render_path(root, parts)) == parts,
        is_absolute(render_path(root, parts)) == root,
{
    reveal_strlit(".");
    let j = join_parts(parts);
    let r = render_path(root, parts);
    if parts.len() > 0 {
        assert forall|x: int| 0 <= x < parts.len() implies no_slash(#[trigger] parts[x]) by {}
        lemma_segments_of_join(parts);
    }
    if root {
        lemma_next_slash_props(r, 0);
        assert(next_slash(r, 0) == 0);
        assert(r.skip(1) =~= j);
        assert(r.take(0) =~= Seq::<char>::empty());
        let segs = segments(r);
        if parts.len() == 0 {
            lemma_next_slash_props(j, 0);
            assert(j.len() == 0);
            assert(segments(j) == seq![j]);
            assert(segs == seq![r.take(0)] + segments(r.skip(1)));
            assert(segs =~= seq![Seq::<char>::empty(), Seq::<char>::empty()]);
            assert(parts_from(segs, 2, root) == Seq::<Seq<char>>::empty());
            assert(parts_from(segs, 1, root) == parts_from(segs, 2, root));
            assert(parts_from(segs, 0, root) == parts_from(segs, 1, root));
            assert(parts =~= Seq::<Seq<char>>::empty());
        } else {
            assert(segs =~= seq![Seq::<char>::empty()] + parts);
            assert forall|x: int| 1 <= x < segs.len() implies (#[trigger] segs[x]).len() > 0 && segs[x] != "."@ by {
                assert(segs[x] == parts[x - 1]);
            }
            lemma_parts_from_all(segs, 1, root);
            assert(segs.skip(1) =~= parts);
            assert(segs[0].len() == 0);
            assert(parts_from(segs, 0, root) == parts_from(segs, 1, root));
        }
    } else {
        if parts.len() == 0 {
            lemma_next_slash_props(r, 0);
            assert(segments(r) == seq![r]);
            assert(parts_from(seq![r], 1, root) == Seq::<Seq<char>>::empty());
            assert(parts =~= Seq::<Seq<char>>::empty());
        } else {
            lemma_parts_from_all(parts, 0, root);
            assert(parts.skip(0) =~= parts);
            if parts.len() >= 2 {
                lemma_join_front(parts);
            }
            assert(r[0] == parts[0][0]);
        }
    }
}

/// Cleaning leaves no `.` component, keeps `..` only as a leading run of a
/// relative path, keeps the path rooted exactly when it was, and cleaning the
/// result again changes nothing.
pub proof fn law_clean_path_is_clean(s: Seq<char>)
    ensures
        is_absolute(cleaned(s)) == is_absolute(s),
        is_clean(path_parts(cleaned(s)), is_absolute(s)),
        cleaned(cleaned(s)) == cleaned(s),
{
    let root = is_absolute(s);
    let ps = path_parts(s);
    let cp = clean_parts(ps, 0, Seq::empty(), root);
    lemma_segments_no_slash(s);
    lemma_parts_from_kept(segments(s), 0, root);
    lemma_clean_parts_clean(ps, 0, Seq::empty(), root);
    lemma_render_reads_back(root, cp);
    lemma_clean_parts_fixed(cp, 0, root);
    assert(cp.take(0) =~= Seq::<Seq<char>>::empty());
}

} // verus!
