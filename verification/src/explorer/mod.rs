//! Rules of the file explorer that do not touch the disk: which entries the tree
//! shows and in what order, the names given to copies, and where the open file is after items
//! are moved or deleted.
//! Paths are handled as their components.
use vstd::prelude::*;
use crate::text::{chars_of, decimal, ends_with, has_suffix, push_decimal, string_of, sub_chars, extend_chars};

verus! {

// ---------------------------------------------------------------------------
// Numbered names

/// The value of a run of decimal digits.
pub open spec fn digits_value(s: Seq<char>) -> nat
    decreases s.len(),
{
    if s.len() == 0 {
        0
    } else {
        digits_value(s.drop_last()) * 10 + (s.last() as nat - '0' as nat) as nat
    }
}

/// Every character of `s` is an ASCII digit.
pub open spec fn all_digits(s: Seq<char>) -> bool {
    forall|i: int| 0 <= i < s.len() ==> '0' <= #[trigger] s[i] <= '9'
}

/// Where the last `_` of `s` stands.
pub open spec fn last_underscore(s: Seq<char>) -> Option<nat>
    decreases s.len(),
{
    if s.len() == 0 {
        None
    } else if s.last() == '_' {
        Some((s.len() - 1) as nat)
    } else {
        last_underscore(s.drop_last())
    }
}

/// The number at the end of a stem `name_N`: where its `_` stands and its value,
/// when the digits after the last `_` are not empty and their value fits a `usize`.
pub open spec fn numbered_suffix(stem: Seq<char>) -> Option<(nat, nat)> {
    match last_underscore(stem) {
        Some(pos) => {
            let suffix = stem.skip((pos + 1) as int);
            if suffix.len() > 0 && all_digits(suffix) && digits_value(suffix) <= usize::MAX {
                Some((pos, digits_value(suffix)))
            } else {
                None
            }
        },
        None => None,
    }
}

/// The base of the numbered names for a stem, and the first number to try: a stem
/// `name_N` goes on from `name` and `N + 1`, any other stem from itself and 1.
pub open spec fn numbering_start(stem: Seq<char>) -> (Seq<char>, nat) {
    match numbered_suffix(stem) {
        Some((pos, n)) => (stem.take(pos as int), n + 1),
        None => (stem, 1),
    }
}

/// The name `base_N.ext` (without the dot and extension when there is none).
pub open spec fn numbered_name(base: Seq<char>, n: nat, extension: Option<Seq<char>>) -> Seq<char> {
    base + seq!['_'] + decimal(n) + match extension {
        Some(e) => seq!['.'] + e,
        None => Seq::empty(),
    }
}

proof fn lemma_last_underscore(s: Seq<char>)
    ensures
        last_underscore(s) matches Some(p) ==> p < s.len() && s[p as int] == '_' && forall|i: int|
            p < i < s.len() ==> s[i] != '_',
        last_underscore(s) is None ==> forall|i: int| 0 <= i < s.len() ==> s[i] != '_',
    decreases s.len(),
{
    if s.len() > 0 && s.last() != '_' {
        let d = s.drop_last();
        lemma_last_underscore(d);
        assert forall|i: int| 0 <= i < d.len() implies d[i] == s[i] by {}
    }
}

/// Where the last `_` of `s` stands (`str::rfind`).
fn find_last_underscore(s: &[char]) -> (r: Option<usize>)
    ensures
        match r {
            Some(p) => last_underscore(s@) == Some(p as nat),
            None => last_underscore(s@) is None,
        },
{
    let mut i = s.len();
    proof {
        assert(s@.take(s@.len() as int) =~= s@);
    }
    while i > 0
        invariant
            i <= s@.len(),
            last_underscore(s@.take(i as int)) == last_underscore(s@),
        decreases i,
    {
        proof {
            assert(s@.take(i as int).drop_last() =~= s@.take(i - 1));
        }
        if s[i - 1] == '_' {
            return Some(i - 1);
        }
        i -= 1;
    }
    None
}

/// The value of the digits `s`, or `None` when they are not all digits, there
/// are none, or the value does not fit a `usize` (`str::parse::<usize>` on digits).
fn parse_digits(s: &[char]) -> (r: Option<usize>)
    ensures
        match r {
            Some(v) => s@.len() > 0 && all_digits(s@) && digits_value(s@) == v,
            None => !(s@.len() > 0 && all_digits(s@) && digits_value(s@) <= usize::MAX),
        },
{
    if s.len() == 0 {
        return None;
    }
    let mut v: usize = 0;
    let mut i: usize = 0;
    while i < s.len()
        invariant
            i <= s@.len(),
            all_digits(s@.take(i as int)),
            digits_value(s@.take(i as int)) == v,
        decreases s@.len() - i,
    {
        let c = s[i];
        proof {
            assert(s@.take(i + 1).drop_last() =~= s@.take(i as int));
        }
        if !('0' <= c && c <= '9') {
            proof {
                assert(!all_digits(s@) ) by {
                    assert(s@[i as int] == c);
                }
            }
            return None;
        }
        let d = (c as u32 - '0' as u32) as usize;
        if v > (usize::MAX - d) / 10 {
            proof {
                assert(v * 10 + d > usize::MAX) by (nonlinear_arith)
                    requires
                        v > (usize::MAX - d) / 10,
                        d <= 9,
                ;
                lemma_digits_grow(s@, (i + 1) as nat);
            }
            return None;
        }
        proof {
            assert(v * 10 + d <= usize::MAX) by (nonlinear_arith)
                requires
                    v <= (usize::MAX - d) / 10,
                    d <= 9,
            ;
            assert(all_digits(s@.take(i + 1)));
        }
        v = v * 10 + d;
        i += 1;
    }
    proof {
        assert(s@.take(s@.len() as int) =~= s@);
    }
    Some(v)
}

/// Once the value of a prefix of digits passes a bound, so does the whole value.
proof fn lemma_digits_grow(s: Seq<char>, k: nat)
    requires
        k <= s.len(),
        all_digits(s.take(k as int)),
    ensures
        all_digits(s) ==> digits_value(s) >= digits_value(s.take(k as int)),
    decreases s.len() - k,
{
    if k < s.len() && all_digits(s) {
        assert(s.take((k + 1) as int).drop_last() =~= s.take(k as int));
        assert(all_digits(s.take((k + 1) as int)));
        lemma_digits_grow(s, k + 1);
    } else if k == s.len() {
        assert(s.take(k as int) =~= s);
    }
}

/// Splits a stem into the base of its numbered names and the first number to
/// try (see `numbering_start`).
pub fn split_numbered_stem(stem: &str) -> (r: (String, usize))
    requires
        numbered_suffix(stem@) matches Some((_, n)) ==> n < usize::MAX,
    ensures
        (r.0@, r.1 as nat) == numbering_start(stem@),
{
    let s = chars_of(stem);
    proof {
        lemma_last_underscore(s@);
    }
    match find_last_underscore(s.as_slice()) {
        Some(pos) => {
            let suffix = sub_chars(s.as_slice(), pos + 1, s.len());
            proof {
                assert(suffix@ =~= s@.skip(pos + 1));
            }
            match parse_digits(suffix.as_slice()) {
                Some(n) => {
                    let base = sub_chars(s.as_slice(), 0, pos);
                    proof {
                        assert(base@ =~= s@.take(pos as int));
                    }
                    (string_of(base.as_slice()), n + 1)
                },
                None => (string_of(s.as_slice()), 1),
            }
        },
        None => (string_of(s.as_slice()), 1),
    }
}

/// Whether the number at the end of the stem is the largest `usize`, so that
/// numbering cannot go on from it.
pub fn numbering_overflows(stem: &str) -> (r: bool)
    ensures
        r == (numbered_suffix(stem@) matches Some((_, n)) && n == usize::MAX),
{
    let s = chars_of(stem);
    proof {
        lemma_last_underscore(s@);
    }
    match find_last_underscore(s.as_slice()) {
        Some(pos) => {
            let suffix = sub_chars(s.as_slice(), pos + 1, s.len());
            proof {
                assert(suffix@ =~= s@.skip(pos + 1));
            }
            match parse_digits(suffix.as_slice()) {
                Some(n) => n == usize::MAX,
                None => false,
            }
        },
        None => false,
    }
}

/// The name `base_N.ext` (see `numbered_name`).
pub fn numbered_file_name(base: &str, n: usize, extension: Option<&str>) -> (r: String)
    ensures
        r@ == numbered_name(base@, n as nat, match extension {
            Some(e) => Some(e@),
            None => None,
        }),
{
    let mut v = chars_of(base);
    v.push('_');
    push_decimal(&mut v, n);
    match extension {
        Some(e) => {
            v.push('.');
            let ec = chars_of(e);
            extend_chars(&mut v, ec.as_slice());
        },
        None => {},
    }
    string_of(v.as_slice())
}

// ---------------------------------------------------------------------------
// The open file after moves and deletions

/// The texts of path components.
pub open spec fn parts(v: Seq<String>) -> Seq<Seq<char>> {
    v.map_values(|s: String| s@)
}

/// `prefix` is the start of `path`, component by component (`Path::starts_with`).
pub open spec fn is_within(path: Seq<Seq<char>>, prefix: Seq<Seq<char>>) -> bool {
    prefix.len() <= path.len() && path.take(prefix.len() as int) == prefix
}

/// Where the open file `active` is after the item `src` moved to `target`: at the
/// target when it is the item, below the target when it lies below the item.
pub open spec fn relocated(active: Seq<Seq<char>>, src: Seq<Seq<char>>, target: Seq<Seq<char>>) -> Option<Seq<Seq<char>>> {
    if active == src {
        Some(target)
    } else if is_within(active, src) {
        Some(target + active.skip(src.len() as int))
    } else {
        None
    }
}

/// Whether the components `path` start with those of `prefix`.
pub fn starts_with_parts(path: &Vec<String>, prefix: &Vec<String>) -> (r: bool)
    ensures
        r == is_within(parts(path@), parts(prefix@)),
{
    if prefix.len() > path.len() {
        return false;
    }
    let mut i: usize = 0;
    while i < prefix.len()
        invariant
            i <= prefix@.len() <= path@.len(),
            forall|k: int| 0 <= k < i ==> path@[k]@ == prefix@[k]@,
        decreases prefix@.len() - i,
    {
        if !crate::text::str_equal(path[i].as_str(), prefix[i].as_str()) {
            proof {
                assert(parts(path@).take(prefix@.len() as int)[i as int] != parts(prefix@)[i as int]);
            }
            return false;
        }
        i += 1;
    }
    proof {
        assert(parts(path@).take(prefix@.len() as int) =~= parts(prefix@));
    }
    true
}

/// Where the open file is after `src` moved to `target`, if it went along (see
/// `relocated`).
pub fn relocate_active(active: &Vec<String>, src: &Vec<String>, target: &Vec<String>) -> (r: Option<Vec<String>>)
    ensures
        match r {
            Some(p) => relocated(parts(active@), parts(src@), parts(target@)) == Some(parts(p@)),
            None => relocated(parts(active@), parts(src@), parts(target@)) is None,
        },
{
    if !starts_with_parts(active, src) {
        proof {
            assert(parts(active@).take(parts(active@).len() as int) =~= parts(active@));
        }
        return None;
    }
    let mut out: Vec<String> = Vec::new();
    let mut i: usize = 0;
    while i < target.len()
        invariant
            i <= target@.len(),
            parts(out@) == parts(target@).take(i as int),
        decreases target@.len() - i,
    {
        let ghost prev = out@;
        out.push(target[i].clone());
        proof {
            assert(out@ == prev.push(target@[i as int]));
            assert(parts(out@) =~= parts(prev).push(target@[i as int]@));
            assert(parts(out@) =~= parts(target@).take(i + 1));
        }
        i += 1;
    }
    let mut j: usize = src.len();
    proof {
        assert(parts(target@).take(target@.len() as int) =~= parts(target@));
        assert(parts(out@) + parts(active@).subrange(src@.len() as int, j as int) =~= parts(target@));
    }
    while j < active.len()
        invariant
            src@.len() <= j <= active@.len(),
            parts(out@) == parts(target@) + parts(active@).subrange(src@.len() as int, j as int),
        decreases active@.len() - j,
    {
        let ghost prev = out@;
        out.push(active[j].clone());
        proof {
            assert(out@ == prev.push(active@[j as int]));
            assert(parts(out@) =~= parts(prev).push(active@[j as int]@));
            assert(parts(out@) =~= parts(target@) + parts(active@).subrange(src@.len() as int, j + 1));
        }
        j += 1;
    }
    proof {
        assert(parts(active@).subrange(src@.len() as int, active@.len() as int) =~= parts(active@).skip(src@.len() as int));
        if parts(active@) == parts(src@) {
            assert(parts(active@).skip(src@.len() as int) =~= Seq::<Seq<char>>::empty());
            assert(parts(out@) =~= parts(target@));
        }
    }
    Some(out)
}

/// Whether the open file `active` goes away with the deleted item `path`: it is
/// the item or lies below it.
pub fn is_removed_with(active: &Vec<String>, path: &Vec<String>) -> (r: bool)
    ensures
        r == is_within(parts(active@), parts(path@)),
{
    starts_with_parts(active, path)
}

/// A note's file name: one ending in `.md` or `.markdown`. For a name that does
/// not start with a dot this is the name having the extension `md` or `markdown`.
pub open spec fn is_note_name(name: Seq<char>) -> bool {
    ends_with(name, seq!['.', 'm', 'd']) || ends_with(
        name,
        seq!['.', 'm', 'a', 'r', 'k', 'd', 'o', 'w', 'n'],
    )
}

/// Whether the tree lists a folder entry: never a dotfile; otherwise the entry
/// being renamed, every folder, and the notes among the files.
pub fn entry_listed(name: &str, is_dir: bool, renaming: bool) -> (r: bool)
    ensures
        r == (!(name@.len() > 0 && name@[0] == '.') && (renaming || is_dir || is_note_name(name@))),
{
    if is_hidden(name) {
        return false;
    }
    if renaming || is_dir {
        return true;
    }
    let c = chars_of(name);
    proof {
        reveal_strlit(".md");
        reveal_strlit(".markdown");
        assert(".md"@ =~= seq!['.', 'm', 'd']);
        assert(".markdown"@ =~= seq!['.', 'm', 'a', 'r', 'k', 'd', 'o', 'w', 'n']);
    }
    has_suffix(c.as_slice(), ".md") || has_suffix(c.as_slice(), ".markdown")
}

// ---------------------------------------------------------------------------
// Selecting entries with a rectangle

/// What the explorer's selection rectangle does in a frame.
#[derive(Clone, Copy, Debug, PartialEq, Eq, Structural)]
pub enum MarqueeStep {
    /// No rectangle: it is dropped.
    Clear,
    /// The rectangle stays as it was.
    Keep,
    /// A rectangle starts; the items it covers are added to the current selection
    /// when `keep_selection`, otherwise they replace it.
    Start { keep_selection: bool },
    /// The rectangle follows the pointer.
    Track,
}

/// The selection rectangle's step: it lives while a button is held, no name is
/// being typed, no items are being moved and the press was not on an item; then it
/// starts or follows the pointer once the pointer is dragged from a point inside
/// the tree, keeping the selection when the command key is held at its start.
pub fn marquee_step(
    button_down: bool,
    dragging: bool,
    origin_inside: bool,
    typing_name: bool,
    moving_items: bool,
    pressed_on_item: bool,
    active: bool,
    command: bool,
) -> (r: MarqueeStep)
    ensures
        r == (if button_down && !typing_name && !moving_items && !pressed_on_item {
            if dragging && origin_inside {
                if active {
                    MarqueeStep::Track
                } else {
                    MarqueeStep::Start { keep_selection: command }
                }
            } else {
                MarqueeStep::Keep
            }
        } else {
            MarqueeStep::Clear
        }),
{
    if button_down && !typing_name && !moving_items && !pressed_on_item {
        if dragging && origin_inside {
            if active {
                MarqueeStep::Track
            } else {
                MarqueeStep::Start { keep_selection: command }
            }
        } else {
            MarqueeStep::Keep
        }
    } else {
        MarqueeStep::Clear
    }
}

// ---------------------------------------------------------------------------
// Order of a folder's entries

/// The tree hides dotfiles: entries whose name starts with a dot.
pub fn is_hidden(name: &str) -> (r: bool)
    ensures
        r == (name@.len() > 0 && name@[0] == '.'),
{
    let c = chars_of(name);
    c.len() > 0 && c[0] == '.'
}

/// Where one entry of a folder goes in the tree relative to another.
#[derive(Clone, Copy, Debug, PartialEq, Eq, Structural)]
pub enum EntryOrder {
    Before,
    Same,
    After,
}

/// Names in the order of their characters' code points, a name before every
/// longer name it starts.
pub open spec fn name_order(a: Seq<char>, b: Seq<char>) -> EntryOrder
    decreases a.len(),
{
    if a.len() == 0 {
        if b.len() == 0 {
            EntryOrder::Same
        } else {
            EntryOrder::Before
        }
    } else if b.len() == 0 {
        EntryOrder::After
    } else if (a[0] as int) < (b[0] as int) {
        EntryOrder::Before
    } else if (a[0] as int) > (b[0] as int) {
        EntryOrder::After
    } else {
        name_order(a.drop_first(), b.drop_first())
    }
}

/// Folders before files; within each, by name.
pub open spec fn entry_order(a_is_dir: bool, a: Seq<char>, b_is_dir: bool, b: Seq<char>) -> EntryOrder {
    if a_is_dir && !b_is_dir {
        EntryOrder::Before
    } else if !a_is_dir && b_is_dir {
        EntryOrder::After
    } else {
        name_order(a, b)
    }
}

proof fn lemma_name_order_step(a: Seq<char>, b: Seq<char>, i: int)
    requires
        0 <= i < a.len(),
        i < b.len(),
        a[i] == b[i],
    ensures
        name_order(a.skip(i), b.skip(i)) == name_order(a.skip(i + 1), b.skip(i + 1)),
{
    assert(a.skip(i).drop_first() =~= a.skip(i + 1));
    assert(b.skip(i).drop_first() =~= b.skip(i + 1));
}

/// Where the entry `a_name` (a folder when `a_is_dir`) goes relative to `b_name`.
pub fn compare_entries(a_is_dir: bool, a_name: &str, b_is_dir: bool, b_name: &str) -> (r: EntryOrder)
    ensures
        r == entry_order(a_is_dir, a_name@, b_is_dir, b_name@),
{
    if a_is_dir && !b_is_dir {
        return EntryOrder::Before;
    }
    if !a_is_dir && b_is_dir {
        return EntryOrder::After;
    }
    let a = chars_of(a_name);
    let b = chars_of(b_name);
    let mut i: usize = 0;
    proof {
        assert(a@.skip(0) =~= a@);
        assert(b@.skip(0) =~= b@);
    }
    while i < a.len() && i < b.len()
        invariant
            a@ == a_name@,
            b@ == b_name@,
            a_is_dir == b_is_dir,
            i <= a.len(),
            i <= b.len(),
            name_order(a@, b@) == name_order(a@.skip(i as int), b@.skip(i as int)),
        decreases a.len() - i,
    {
        let x = a[i];
        let y = b[i];
        proof {
            assert(a@.skip(i as int)[0] == x && b@.skip(i as int)[0] == y);
        }
        if x < y {
            return EntryOrder::Before;
        }
        if x > y {
            return EntryOrder::After;
        }
        proof {
            lemma_name_order_step(a@, b@, i as int);
        }
        i += 1;
    }
    if i < b.len() {
        EntryOrder::Before
    } else if i < a.len() {
        EntryOrder::After
    } else {
        EntryOrder::Same
    }
}

proof fn lemma_name_order_flip(a: Seq<char>, b: Seq<char>)
    ensures
        name_order(a, b) == EntryOrder::Before <==> name_order(b, a) == EntryOrder::After,
        name_order(a, b) == EntryOrder::Same <==> a == b,
    decreases a.len(),
{
    if a.len() == 0 && b.len() == 0 {
        assert(a =~= b);
    }
    if a.len() > 0 && b.len() > 0 && a[0] == b[0] {
        lemma_name_order_flip(a.drop_first(), b.drop_first());
        if a.drop_first() == b.drop_first() {
            assert(a =~= seq![a[0]] + a.drop_first());
            assert(b =~= seq![b[0]] + b.drop_first());
        }
    }
}

proof fn lemma_name_order_chain(a: Seq<char>, b: Seq<char>, c: Seq<char>)
    requires
        name_order(a, b) == EntryOrder::Before,
        name_order(b, c) == EntryOrder::Before,
    ensures
        name_order(a, c) == EntryOrder::Before,
    decreases a.len(),
{
    if a.len() > 0 && a[0] == b[0] && b[0] == c[0] {
        lemma_name_order_chain(a.drop_first(), b.drop_first(), c.drop_first());
    }
}

/// The order of entries is a strict total order: two entries are the same only
/// when both their kinds and their names agree, swapping them swaps `Before` and
/// `After`, and `Before` chains.
pub proof fn law_entry_order_is_total(
    a_is_dir: bool,
    a: Seq<char>,
    b_is_dir: bool,
    b: Seq<char>,
    c_is_dir: bool,
    c: Seq<char>,
)
    ensures
        entry_order(a_is_dir, a, b_is_dir, b) == EntryOrder::Same <==> (a_is_dir == b_is_dir && a == b),
        entry_order(a_is_dir, a, b_is_dir, b) == EntryOrder::Before <==> entry_order(b_is_dir, b, a_is_dir, a)
            == EntryOrder::After,
        entry_order(a_is_dir, a, b_is_dir, b) == EntryOrder::Before && entry_order(b_is_dir, b, c_is_dir, c)
            == EntryOrder::Before ==> entry_order(a_is_dir, a, c_is_dir, c) == EntryOrder::Before,
{
    lemma_name_order_flip(a, b);
    if a_is_dir == b_is_dir && b_is_dir == c_is_dir && entry_order(a_is_dir, a, b_is_dir, b)
        == EntryOrder::Before && entry_order(b_is_dir, b, c_is_dir, c) == EntryOrder::Before {
        lemma_name_order_chain(a, b, c);
    }
}

} // verus!
