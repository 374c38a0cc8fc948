//! What a clicked link in the preview points at.
use vstd::prelude::*;
use crate::text::{chars_of, ends_with, extend_str, has_prefix, has_suffix, string_of, sub_chars, starts_with};

verus! {

/// Where a clicked link goes.
#[derive(Clone, Debug, PartialEq, Eq)]
pub enum LinkTarget {
    /// A heading of the open document (`#anchor`), if an anchor is given.
    InDocument(Option<String>),
    /// A web or mail address, left to the system.
    External,
    /// A file or folder path, with the heading to jump to in it.
    Local { path: String, anchor: Option<String> },
}

/// Where the first `#` of `s` stands.
pub open spec fn first_hash(s: Seq<char>, i: nat) -> Option<nat>
    decreases s.len() - i,
{
    if i >= s.len() {
        None
    } else if s[i as int] == '#' {
        Some(i)
    } else {
        first_hash(s, i + 1)
    }
}

/// The link's path and its anchor: the text before and after its first `#`.
pub open spec fn link_parts(url: Seq<char>) -> (Seq<char>, Option<Seq<char>>) {
    match first_hash(url, 0) {
        Some(i) => (url.take(i as int), Some(url.skip(i + 1 as int))),
        None => (url, None),
    }
}

/// A link to the web or to a mail address.
pub open spec fn is_external(path: Seq<char>) -> bool {
    starts_with(path, seq!['h', 't', 't', 'p', ':', '/', '/']) || starts_with(
        path,
        seq!['h', 't', 't', 'p', 's', ':', '/', '/'],
    ) || starts_with(path, seq!['m', 'a', 'i', 'l', 't', 'o', ':'])
}

/// The texts of an optional string.
pub open spec fn opt_view(o: Option<String>) -> Option<Seq<char>> {
    match o {
        Some(s) => Some(s@),
        None => None,
    }
}

/// Where a link goes: without a path, to a heading of the open document; to the
/// web or mail when its path says so; otherwise to a local path.
pub open spec fn link_target_of(url: Seq<char>, t: LinkTarget) -> bool {
    let (path, anchor) = link_parts(url);
    if path.len() == 0 {
        t matches LinkTarget::InDocument(a) && opt_view(a) == anchor
    } else if is_external(path) {
        t is External
    } else {
        t matches LinkTarget::Local { path: p, anchor: a } && p@ == path && opt_view(a) == anchor
    }
}

/// Tells where a clicked link goes (see `link_target_of`).
pub fn classify_link(url: &str) -> (r: LinkTarget)
    ensures
        link_target_of(url@, r),
{
    let u = chars_of(url);
    let mut i: usize = 0;
    while i < u.len() && u[i] != '#'
        invariant
            i <= u@.len(),
            first_hash(u@, i as nat) == first_hash(u@, 0),
        decreases u@.len() - i,
    {
        i += 1;
    }
    let (path, anchor) = if i < u.len() {
        let p = sub_chars(u.as_slice(), 0, i);
        let a = sub_chars(u.as_slice(), i + 1, u.len());
        proof {
            assert(p@ =~= u@.take(i as int));
            assert(a@ =~= u@.skip(i + 1 as int));
        }
        (p, Some(string_of(a.as_slice())))
    } else {
        proof {
            assert(first_hash(u@, i as nat) is None);
        }
        (sub_chars(u.as_slice(), 0, u.len()), None)
    };
    proof {
        if i >= u@.len() {
            assert(path@ =~= u@);
        }
    }
    if path.len() == 0 {
        return LinkTarget::InDocument(anchor);
    }
    let web = has_prefix(path.as_slice(), "http://") || has_prefix(path.as_slice(), "https://")
        || has_prefix(path.as_slice(), "mailto:");
    proof {
        reveal_strlit("http://");
        reveal_strlit("https://");
        reveal_strlit("mailto:");
        assert("http://"@ =~= seq!['h', 't', 't', 'p', ':', '/', '/']);
        assert("https://"@ =~= seq!['h', 't', 't', 'p', 's', ':', '/', '/']);
        assert("mailto:"@ =~= seq!['m', 'a', 'i', 'l', 't', 'o', ':']);
    }
    if web {
        LinkTarget::External
    } else {
        LinkTarget::Local { path: string_of(path.as_slice()), anchor }
    }
}

/// What the disk holds at a path.
#[derive(Clone, Copy, Debug, PartialEq, Eq, Structural)]
pub enum PathKind {
    Folder,
    File,
    Missing,
}

/// What following a local link does.
#[derive(Clone, Debug, PartialEq, Eq)]
pub enum LinkAction {
    /// Open the folder as the vault.
    OpenFolder(String),
    /// Open the file in a tab.
    OpenFile(String),
    /// Create the missing note, then open it.
    Create(String),
}

/// The extension of a note.
pub open spec fn md_extension() -> Seq<char> {
    seq!['.', 'm', 'd']
}

/// The other path a link without the note extension is tried at: the same path
/// with `.md` appended.
pub open spec fn md_fallback(path: Seq<char>) -> Option<Seq<char>> {
    if ends_with(path, md_extension()) {
        None
    } else {
        Some(path + md_extension())
    }
}

/// The action on `path` itself, by what the disk holds there.
pub open spec fn act_on(path: Seq<char>, kind: PathKind, r: LinkAction) -> bool {
    match kind {
        PathKind::Folder => r matches LinkAction::OpenFolder(p) && p@ == path,
        PathKind::File => r matches LinkAction::OpenFile(p) && p@ == path,
        PathKind::Missing => r matches LinkAction::Create(p) && p@ == path,
    }
}

/// Following a local link to `path`: what is there is opened; when nothing is,
/// the path with `.md` appended is tried the same way, and a note that is still
/// missing is created.
pub open spec fn link_action_is(path: Seq<char>, kind: PathKind, fallback_kind: PathKind, r: LinkAction) -> bool {
    if kind != PathKind::Missing {
        act_on(path, kind, r)
    } else {
        match md_fallback(path) {
            None => act_on(path, PathKind::Missing, r),
            Some(m) => act_on(m, fallback_kind, r),
        }
    }
}

/// The path a link is tried at when nothing is at its own path (see `md_fallback`).
pub fn md_fallback_path(path: &str) -> (r: Option<String>)
    ensures
        opt_view(r) == md_fallback(path@),
{
    let p = chars_of(path);
    proof {
        reveal_strlit(".md");
        assert(".md"@ =~= md_extension());
    }
    if has_suffix(p.as_slice(), ".md") {
        None
    } else {
        let mut out = p;
        extend_str(&mut out, ".md");
        Some(string_of(out.as_slice()))
    }
}

/// What following a local link to `path` does, given what the disk holds at the
/// path (`kind`) and at its `.md` fallback (`fallback_kind`, read only when there
/// is a fallback and nothing is at the path).
pub fn link_action(path: &str, kind: PathKind, fallback_kind: PathKind) -> (r: LinkAction)
    ensures
        link_action_is(path@, kind, fallback_kind, r),
{
    match kind {
        PathKind::Folder => LinkAction::OpenFolder(string_of(chars_of(path).as_slice())),
        PathKind::File => LinkAction::OpenFile(string_of(chars_of(path).as_slice())),
        PathKind::Missing => match md_fallback_path(path) {
            None => LinkAction::Create(string_of(chars_of(path).as_slice())),
            Some(m) => match fallback_kind {
                PathKind::Folder => LinkAction::OpenFolder(m),
                PathKind::File => LinkAction::OpenFile(m),
                PathKind::Missing => LinkAction::Create(m),
            },
        },
    }
}

} // verus!
