//! How the editor text is highlighted: its spans with their styles, character
//! ranges as byte ranges, and the parts of the spans that search matches cover.
use std::ops::Range;
use vstd::prelude::*;
use crate::editor::search::prefix_bytes;
use crate::text::{
    chars_of, has_prefix, lemma_take_all, lemma_utf8_len_take_monotone, starts_with,
    str_byte_len, string_of, sub_chars, trim, trim_chars, utf8_len,
};

verus! {

// ---------------------------------------------------------------------------
// Character ranges as byte ranges

/// The byte offset of character `k` of `s`, or the byte length past the end.
pub open spec fn char_to_byte(s: Seq<char>, k: nat) -> nat {
    if k <= s.len() {
        utf8_len(s.take(k as int))
    } else {
        utf8_len(s)
    }
}

/// The byte ranges of `s` that the character ranges cover.
pub fn char_ranges_to_byte_ranges(s: &str, char_ranges: &[Range<usize>]) -> (r: Vec<Range<usize>>)
    ensures
        r@.len() == char_ranges@.len(),
        forall|k: int|
            0 <= k < r@.len() ==> (#[trigger] r@[k]).start == char_to_byte(s@, char_ranges@[k].start as nat)
                && r@[k].end == char_to_byte(s@, char_ranges@[k].end as nat),
{
    let chars = chars_of(s);
    let n = str_byte_len(s);
    let table = prefix_bytes(chars.as_slice(), n);
    let mut r: Vec<Range<usize>> = Vec::new();
    let mut k: usize = 0;
    while k < char_ranges.len()
        invariant
            k <= char_ranges@.len(),
            r@.len() == k,
            chars@ == s@,
            n == utf8_len(s@),
            table@.len() == s@.len() + 1,
            forall|x: int| 0 <= x < table@.len() ==> #[trigger] table@[x] == if utf8_len(s@.take(x)) <= n {
                utf8_len(s@.take(x))
            } else {
                n as nat
            },
            forall|x: int|
                0 <= x < k ==> (#[trigger] r@[x]).start == char_to_byte(s@, char_ranges@[x].start as nat)
                    && r@[x].end == char_to_byte(s@, char_ranges@[x].end as nat),
        decreases char_ranges@.len() - k,
    {
        let a = char_ranges[k].start;
        let b = char_ranges[k].end;
        proof {
            lemma_take_all(s@);
            if a < table@.len() {
                lemma_utf8_len_take_monotone(s@, a as int, s@.len() as int);
            }
            if b < table@.len() {
                lemma_utf8_len_take_monotone(s@, b as int, s@.len() as int);
            }
        }
        let start = if a < table.len() {
            table[a]
        } else {
            n
        };
        let end = if b < table.len() {
            table[b]
        } else {
            n
        };
        r.push(Range { start, end });
        k += 1;
    }
    r
}

// ---------------------------------------------------------------------------
// Spans

/// How a span of the editor text is drawn.
#[derive(Clone, Copy, Debug, PartialEq, Eq, Structural)]
pub enum SpanStyle {
    Normal,
    Heading,
    Code,
    Quote,
    Link,
}

/// A piece of the editor text with its style.
pub struct Span {
    pub text: String,
    pub style: SpanStyle,
}

/// The texts and styles of spans.
pub open spec fn span_views(v: Seq<Span>) -> Seq<(Seq<char>, SpanStyle)> {
    v.map_values(|s: Span| (s.text@, s.style))
}

/// The pieces of `s` between line feeds (`str::split('\n')`): one more than
/// there are line feeds.
pub open spec fn split_lf(s: Seq<char>) -> Seq<Seq<char>>
    decreases s.len(),
{
    if s.len() == 0 {
        seq![Seq::empty()]
    } else {
        let rest = split_lf(s.drop_last());
        if s.last() == '\n' {
            rest.push(Seq::empty())
        } else {
            rest.update(rest.len() - 1, rest.last().push(s.last()))
        }
    }
}

/// Where `]]` first stands in `c` at or after `from`.
pub open spec fn wiki_close(c: Seq<char>, from: nat) -> Option<nat>
    decreases c.len() - from,
{
    if from + 1 >= c.len() {
        None
    } else if c[from as int] == ']' && c[(from + 1) as int] == ']' {
        Some(from)
    } else {
        wiki_close(c, from + 1)
    }
}

/// Where `ch` first stands in `c` at or after `from`.
pub open spec fn char_from(c: Seq<char>, ch: char, from: nat) -> Option<nat>
    decreases c.len() - from,
{
    if from >= c.len() {
        None
    } else if c[from as int] == ch {
        Some(from)
    } else {
        char_from(c, ch, from + 1)
    }
}

/// Where the plain run from `from` ends: at the next `[` or the end of the line.
pub open spec fn run_end(c: Seq<char>, from: nat) -> nat
    decreases c.len() - from,
{
    if from >= c.len() || c[from as int] == '[' {
        from
    } else {
        run_end(c, from + 1)
    }
}

/// The end of the link that starts at `idx`: a wiki link `[[…]]`, or else a
/// Markdown link `[…](…)`.
pub open spec fn link_end(c: Seq<char>, idx: nat) -> Option<nat> {
    if idx + 2 < c.len() && c[idx as int] == '[' && c[(idx + 1) as int] == '[' && wiki_close(c, idx + 2) is Some {
        Some(wiki_close(c, idx + 2).unwrap() + 2)
    } else if idx < c.len() && c[idx as int] == '[' {
        match char_from(c, ']', idx + 1) {
            Some(eb) => if eb + 1 < c.len() && c[(eb + 1) as int] == '(' {
                match char_from(c, ')', eb + 2) {
                    Some(ep) => Some(ep + 1),
                    None => None,
                }
            } else {
                None
            },
            None => None,
        }
    } else {
        None
    }
}

pub proof fn lemma_wiki_close(c: Seq<char>, from: nat)
    ensures
        wiki_close(c, from) matches Some(j) ==> from <= j && j + 1 < c.len() && c[j as int] == ']' && c[(j + 1) as int] == ']',
    decreases c.len() - from,
{
    if from + 1 < c.len() && !(c[from as int] == ']' && c[(from + 1) as int] == ']') {
        lemma_wiki_close(c, from + 1);
    }
}

pub proof fn lemma_char_from(c: Seq<char>, ch: char, from: nat)
    ensures
        char_from(c, ch, from) matches Some(j) ==> from <= j < c.len() && c[j as int] == ch,
    decreases c.len() - from,
{
    if from < c.len() && c[from as int] != ch {
        lemma_char_from(c, ch, from + 1);
    }
}

pub proof fn lemma_run_end(c: Seq<char>, from: nat)
    ensures
        from <= c.len() ==> from <= run_end(c, from) <= c.len(),
    decreases c.len() - from,
{
    if from < c.len() && c[from as int] != '[' {
        lemma_run_end(c, from + 1);
    }
}

pub proof fn lemma_link_end(c: Seq<char>, idx: nat)
    ensures
        link_end(c, idx) matches Some(e) ==> idx < e <= c.len(),
{
    lemma_wiki_close(c, idx + 2);
    lemma_char_from(c, ']', idx + 1);
    if let Some(eb) = char_from(c, ']', idx + 1) {
        lemma_char_from(c, ')', eb + 2);
    }
}

/// The spans of a line from `idx` on: links, and plain runs up to the next `[`
/// drawn in the line's style.
pub open spec fn line_spans(c: Seq<char>, idx: nat, style: SpanStyle) -> Seq<(Seq<char>, SpanStyle)>
    decreases c.len() - idx,
{
    if idx >= c.len() {
        Seq::empty()
    } else {
        proof {
            lemma_link_end(c, idx);
            lemma_run_end(c, idx + 1);
        }
        match link_end(c, idx) {
            Some(e) => seq![(c.subrange(idx as int, e as int), SpanStyle::Link)] + line_spans(c, e, style),
            None => {
                let e = run_end(c, idx + 1);
                seq![(c.subrange(idx as int, e as int), style)] + line_spans(c, e, style)
            },
        }
    }
}

/// Whether a line opens or closes a fenced code block.
pub open spec fn is_fence(line: Seq<char>) -> bool {
    starts_with(trim(line), seq!['`', '`', '`'])
}

/// The style of a line's plain runs; `in_code` says whether a code block is open.
pub open spec fn line_style(line: Seq<char>, in_code: bool) -> SpanStyle {
    let t = trim(line);
    if is_fence(line) || in_code {
        SpanStyle::Code
    } else if starts_with(t, seq!['#']) {
        SpanStyle::Heading
    } else if starts_with(t, seq!['>']) {
        SpanStyle::Quote
    } else {
        SpanStyle::Normal
    }
}

/// The spans of the lines from `i` on, with a line feed span between lines.
pub open spec fn layout_from(lines: Seq<Seq<char>>, i: nat, in_code: bool) -> Seq<(Seq<char>, SpanStyle)>
    decreases lines.len() - i,
{
    if i >= lines.len() {
        Seq::empty()
    } else {
        let line = lines[i as int];
        let sep = if i + 1 < lines.len() {
            seq![(seq!['\n'], SpanStyle::Normal)]
        } else {
            Seq::empty()
        };
        line_spans(line, 0, line_style(line, in_code)) + sep + layout_from(
            lines,
            i + 1,
            if is_fence(line) {
                !in_code
            } else {
                in_code
            },
        )
    }
}

/// The spans of the editor text.
pub open spec fn layout_of(text: Seq<char>) -> Seq<(Seq<char>, SpanStyle)> {
    layout_from(split_lf(text), 0, false)
}

proof fn lemma_split_lf_len(s: Seq<char>)
    ensures
        split_lf(s).len() >= 1,
    decreases s.len(),
{
    if s.len() > 0 {
        lemma_split_lf_len(s.drop_last());
    }
}

/// The pieces of `s` between line feeds.
fn split_on_lf(s: &[char]) -> (r: Vec<Vec<char>>)
    ensures
        r@.map_values(|v: Vec<char>| v@) == split_lf(s@),
{
    let mut out: Vec<Vec<char>> = Vec::new();
    out.push(Vec::new());
    let mut i: usize = 0;
    proof {
        assert(s@.take(0) =~= Seq::<char>::empty());
        assert(out@.map_values(|v: Vec<char>| v@) =~= split_lf(s@.take(0)));
    }
    while i < s.len()
        invariant
            i <= s@.len(),
            out@.len() >= 1,
            out@.map_values(|v: Vec<char>| v@) == split_lf(s@.take(i as int)),
        decreases s@.len() - i,
    {
        let ghost before = out@.map_values(|v: Vec<char>| v@);
        let ghost pre = s@.take(i as int + 1);
        proof {
            assert(pre.drop_last() =~= s@.take(i as int));
            assert(pre.last() == s@[i as int]);
        }
        if s[i] == '\n' {
            out.push(Vec::new());
            proof {
                assert(out@.map_values(|v: Vec<char>| v@) =~= before.push(Seq::<char>::empty()));
            }
        } else {
            let last = out.len() - 1;
            let mut piece = out.pop().unwrap();
            piece.push(s[i]);
            out.push(piece);
            proof {
                assert(out@.map_values(|v: Vec<char>| v@) =~= before.update(
                    before.len() - 1,
                    before.last().push(s@[i as int]),
                ));
            }
        }
        i += 1;
    }
    proof {
        lemma_take_all(s@);
    }
    out
}

fn wiki_close_exec(c: &[char], from: usize) -> (r: Option<usize>)
    ensures
        match r {
            Some(j) => wiki_close(c@, from as nat) == Some(j as nat),
            None => wiki_close(c@, from as nat) is None,
        },
{
    let n = c.len();
    let mut j = from;
    while j < n && j + 1 < n
        invariant
            n == c@.len(),
            from <= j,
            wiki_close(c@, j as nat) == wiki_close(c@, from as nat),
        decreases n - j,
    {
        if c[j] == ']' && c[j + 1] == ']' {
            return Some(j);
        }
        j += 1;
    }
    None
}

fn char_from_exec(c: &[char], ch: char, from: usize) -> (r: Option<usize>)
    ensures
        match r {
            Some(j) => char_from(c@, ch, from as nat) == Some(j as nat),
            None => char_from(c@, ch, from as nat) is None,
        },
{
    let n = c.len();
    let mut j = from;
    while j < n
        invariant
            n == c@.len(),
            from <= j,
            char_from(c@, ch, j as nat) == char_from(c@, ch, from as nat),
        decreases n - j,
    {
        if c[j] == ch {
            return Some(j);
        }
        j += 1;
    }
    None
}

fn run_end_exec(c: &[char], from: usize) -> (r: usize)
    requires
        from <= c@.len(),
    ensures
        r == run_end(c@, from as nat),
{
    let mut j = from;
    while j < c.len() && c[j] != '['
        invariant
            from <= j <= c@.len(),
            run_end(c@, j as nat) == run_end(c@, from as nat),
        decreases c@.len() - j,
    {
        j += 1;
    }
    j
}

fn link_end_exec(c: &[char], idx: usize) -> (r: Option<usize>)
    requires
        idx < c@.len(),
    ensures
        match r {
            Some(e) => link_end(c@, idx as nat) == Some(e as nat),
            None => link_end(c@, idx as nat) is None,
        },
{
    let n = c.len();
    proof {
        lemma_wiki_close(c@, (idx + 2) as nat);
        lemma_char_from(c@, ']', (idx + 1) as nat);
    }
    if n >= 3 && idx < n - 2 && c[idx] == '[' && c[idx + 1] == '[' {
        match wiki_close_exec(c, idx + 2) {
            Some(j) => {
                return Some(j + 2);
            },
            None => {},
        }
    }
    if c[idx] == '[' {
        match char_from_exec(c, ']', idx + 1) {
            Some(eb) => {
                if eb + 1 < n && c[eb + 1] == '(' {
                    proof {
                        lemma_char_from(c@, ')', (eb + 2) as nat);
                    }
                    match char_from_exec(c, ')', eb + 2) {
                        Some(ep) => Some(ep + 1),
                        None => None,
                    }
                } else {
                    None
                }
            },
            None => None,
        }
    } else {
        None
    }
}

/// Appends the spans of a line (see `line_spans`).
fn push_line_spans(out: &mut Vec<Span>, c: &[char], style: SpanStyle)
    ensures
        span_views(final(out)@) == span_views(old(out)@) + line_spans(c@, 0, style),
{
    let ghost start = span_views(out@);
    let mut idx: usize = 0;
    while idx < c.len()
        invariant
            idx <= c@.len(),
            span_views(out@) + line_spans(c@, idx as nat, style) == start + line_spans(c@, 0, style),
        decreases c@.len() - idx,
    {
        let ghost before = span_views(out@);
        proof {
            lemma_link_end(c@, idx as nat);
            lemma_run_end(c@, (idx + 1) as nat);
        }
        let (e, st) = match link_end_exec(c, idx) {
            Some(e) => (e, SpanStyle::Link),
            None => (run_end_exec(c, idx + 1), style),
        };
        let piece = sub_chars(c, idx, e);
        out.push(Span { text: string_of(piece.as_slice()), style: st });
        proof {
            assert(span_views(out@) =~= before.push((c@.subrange(idx as int, e as int), st)));
            assert(before + line_spans(c@, idx as nat, style) =~= before.push(
                (c@.subrange(idx as int, e as int), st),
            ) + line_spans(c@, e as nat, style));
        }
        idx = e;
    }
    proof {
        assert(span_views(out@) + Seq::<(Seq<char>, SpanStyle)>::empty() =~= span_views(out@));
    }
}

/// The spans of the editor text with their styles (see `layout_of`).
pub fn layout_spans(text: &str) -> (r: Vec<Span>)
    ensures
        span_views(r@) == layout_of(text@),
{
    let chars = chars_of(text);
    let lines = split_on_lf(chars.as_slice());
    let ghost ls = lines@.map_values(|v: Vec<char>| v@);
    let mut out: Vec<Span> = Vec::new();
    let mut in_code = false;
    let mut i: usize = 0;
    proof {
        assert(span_views(out@) + layout_from(ls, 0, false) =~= layout_from(ls, 0, false));
    }
    while i < lines.len()
        invariant
            i <= lines@.len(),
            ls == lines@.map_values(|v: Vec<char>| v@),
            ls == split_lf(text@),
            span_views(out@) + layout_from(ls, i as nat, in_code) == layout_from(ls, 0, false),
        decreases lines@.len() - i,
    {
        let line = lines[i].as_slice();
        proof {
            assert(ls[i as int] == line@);
        }
        let t = trim_chars(line);
        let fence = has_prefix(t.as_slice(), "```");
        let heading = has_prefix(t.as_slice(), "#");
        let quote = has_prefix(t.as_slice(), ">");
        proof {
            reveal_strlit("```");
            reveal_strlit("#");
            reveal_strlit(">");
            assert("```"@ =~= seq!['`', '`', '`']);
            assert("#"@ =~= seq!['#']);
            assert(">"@ =~= seq!['>']);
        }
        let style = if fence || in_code {
            SpanStyle::Code
        } else if heading {
            SpanStyle::Heading
        } else if quote {
            SpanStyle::Quote
        } else {
            SpanStyle::Normal
        };
        let ghost before = span_views(out@);
        push_line_spans(&mut out, line, style);
        let ghost mid = span_views(out@);
        if i + 1 < lines.len() {
            let lf = vec!['\n'];
            let sp = Span { text: string_of(lf.as_slice()), style: SpanStyle::Normal };
            proof {
                assert(sp.text@ =~= seq!['\n']);
            }
            out.push(sp);
            proof {
                assert(span_views(out@) =~= mid.push((seq!['\n'], SpanStyle::Normal)));
            }
        }
        proof {
            let sep = if i + 1 < ls.len() {
                seq![(seq!['\n'], SpanStyle::Normal)]
            } else {
                Seq::<(Seq<char>, SpanStyle)>::empty()
            };
            assert(span_views(out@) =~= before + line_spans(line@, 0, style) + sep);
        }
        if fence {
            in_code = !in_code;
        }
        i += 1;
    }
    proof {
        assert(span_views(out@) + Seq::<(Seq<char>, SpanStyle)>::empty() =~= span_views(out@));
    }
    out
}

/// The texts of spans put together.
pub open spec fn flat(spans: Seq<(Seq<char>, SpanStyle)>) -> Seq<char>
    decreases spans.len(),
{
    if spans.len() == 0 {
        Seq::empty()
    } else {
        spans[0].0 + flat(spans.drop_first())
    }
}

/// The lines from `i` on with line feeds between them.
pub open spec fn joined_from(lines: Seq<Seq<char>>, i: nat) -> Seq<char>
    decreases lines.len() - i,
{
    if i >= lines.len() {
        Seq::empty()
    } else {
        lines[i as int] + (if i + 1 < lines.len() {
            seq!['\n']
        } else {
            Seq::empty()
        }) + joined_from(lines, i + 1)
    }
}

proof fn lemma_flat_append(a: Seq<(Seq<char>, SpanStyle)>, b: Seq<(Seq<char>, SpanStyle)>)
    ensures
        flat(a + b) == flat(a) + flat(b),
    decreases a.len(),
{
    if a.len() == 0 {
        assert(a + b =~= b);
    } else {
        assert((a + b).drop_first() =~= a.drop_first() + b);
        lemma_flat_append(a.drop_first(), b);
        assert((a + b)[0] == a[0]);
    }
}

proof fn lemma_flat_line_spans(c: Seq<char>, idx: nat, style: SpanStyle)
    requires
        idx <= c.len(),
    ensures
        flat(line_spans(c, idx, style)) == c.skip(idx as int),
    decreases c.len() - idx,
{
    if idx >= c.len() {
        assert(c.skip(idx as int) =~= Seq::<char>::empty());
    } else {
        lemma_link_end(c, idx);
        lemma_run_end(c, idx + 1);
        let e = match link_end(c, idx) {
            Some(e) => e,
            None => run_end(c, idx + 1),
        };
        let st = match link_end(c, idx) {
            Some(_) => SpanStyle::Link,
            None => style,
        };
        let head = seq![(c.subrange(idx as int, e as int), st)];
        assert(line_spans(c, idx, style) == head + line_spans(c, e, style));
        lemma_flat_line_spans(c, e, style);
        lemma_flat_append(head, line_spans(c, e, style));
        assert(flat(head) =~= c.subrange(idx as int, e as int)) by {
            let d = head.drop_first();
            assert(d =~= Seq::<(Seq<char>, SpanStyle)>::empty());
            assert(flat(d) =~= Seq::<char>::empty());
            assert(flat(head) == head[0].0 + flat(d));
        }
        assert(c.subrange(idx as int, e as int) + c.skip(e as int) =~= c.skip(idx as int));
    }
}

proof fn lemma_flat_layout_from(lines: Seq<Seq<char>>, i: nat, in_code: bool)
    ensures
        flat(layout_from(lines, i, in_code)) == joined_from(lines, i),
    decreases lines.len() - i,
{
    if i < lines.len() {
        let line = lines[i as int];
        let sep = if i + 1 < lines.len() {
            seq![(seq!['\n'], SpanStyle::Normal)]
        } else {
            Seq::<(Seq<char>, SpanStyle)>::empty()
        };
        let next = if is_fence(line) {
            !in_code
        } else {
            in_code
        };
        let spans = line_spans(line, 0, line_style(line, in_code));
        lemma_flat_layout_from(lines, i + 1, next);
        lemma_flat_line_spans(line, 0, line_style(line, in_code));
        assert(line.skip(0) =~= line);
        lemma_flat_append(spans + sep, layout_from(lines, i + 1, next));
        lemma_flat_append(spans, sep);
        if i + 1 < lines.len() {
            let d = sep.drop_first();
            assert(d =~= Seq::<(Seq<char>, SpanStyle)>::empty());
            assert(flat(d) =~= Seq::<char>::empty());
            assert(flat(sep) == sep[0].0 + flat(d));
            assert(flat(sep) =~= seq!['\n']);
        } else {
            assert(flat(sep) =~= Seq::<char>::empty());
        }
    }
}

proof fn lemma_joined_push(ls: Seq<Seq<char>>, x: Seq<char>, i: nat)
    requires
        i < ls.len(),
    ensures
        joined_from(ls.push(x), i) == joined_from(ls, i) + seq!['\n'] + x,
    decreases ls.len() - i,
{
    let lx = ls.push(x);
    assert(lx[i as int] == ls[i as int]);
    if i + 1 < ls.len() {
        lemma_joined_push(ls, x, i + 1);
    } else {
        assert(lx[(i + 1) as int] == x);
        assert(joined_from(lx, i + 2) =~= Seq::<char>::empty());
        assert(joined_from(lx, i + 1) =~= x);
        assert(joined_from(ls, i + 1) =~= Seq::<char>::empty());
    }
}

proof fn lemma_joined_extend_last(ls: Seq<Seq<char>>, ch: char, i: nat)
    requires
        i < ls.len(),
    ensures
        joined_from(ls.update(ls.len() - 1, ls.last().push(ch)), i) == joined_from(ls, i).push(ch),
    decreases ls.len() - i,
{
    let lu = ls.update(ls.len() - 1, ls.last().push(ch));
    if i + 1 < ls.len() {
        assert(lu[i as int] == ls[i as int]);
        lemma_joined_extend_last(ls, ch, i + 1);
    } else {
        assert(joined_from(lu, i + 1) =~= Seq::<char>::empty());
        assert(joined_from(ls, i + 1) =~= Seq::<char>::empty());
    }
}

proof fn lemma_joined_split(s: Seq<char>)
    ensures
        joined_from(split_lf(s), 0) == s,
    decreases s.len(),
{
    if s.len() == 0 {
        assert(joined_from(split_lf(s), 1) =~= Seq::<char>::empty());
        assert(s =~= Seq::<char>::empty());
    } else {
        let rest = split_lf(s.drop_last());
        lemma_split_lf_len(s.drop_last());
        lemma_joined_split(s.drop_last());
        if s.last() == '\n' {
            lemma_joined_push(rest, Seq::empty(), 0);
        } else {
            lemma_joined_extend_last(rest, s.last(), 0);
        }
        assert(s.drop_last().push(s.last()) =~= s);
    }
}

/// The spans show the text exactly: their texts put together give back the text,
/// so positions in the laid-out text are positions in the document.
pub proof fn law_spans_spell_the_text(text: Seq<char>)
    ensures
        flat(layout_of(text)) == text,
{
    lemma_flat_layout_from(split_lf(text), 0, false);
    lemma_joined_split(text);
}

// ---------------------------------------------------------------------------
// Search matches over the spans

/// How the search marks a piece of a span.
#[derive(Clone, Copy, Debug, PartialEq, Eq, Structural)]
pub enum MatchMark {
    Unmarked,
    Match,
    ActiveMatch,
}

/// A part of a span (`section`) cut by the search matches: its bytes, its mark,
/// and whether it starts where the span starts and so keeps the span's leading space.
#[derive(Clone, Copy, Debug, PartialEq, Eq, Structural)]
pub struct MarkedPiece {
    pub section: usize,
    pub start: usize,
    pub end: usize,
    pub mark: MatchMark,
    pub leading: bool,
}

/// The mark of match `j`.
pub open spec fn mark_of(j: nat, active: Option<usize>) -> MatchMark {
    if active == Some(j as usize) {
        MatchMark::ActiveMatch
    } else {
        MatchMark::Match
    }
}

/// A piece of span `k`, which starts at `s0`.
pub open spec fn piece(k: nat, s0: nat, a: nat, b: nat, mark: MatchMark) -> MarkedPiece {
    MarkedPiece { section: k as usize, start: a as usize, end: b as usize, mark, leading: a == s0 }
}

/// The pieces of span `k` (bytes `s0..s_end`) from byte `cur` on, going through
/// the matches from `j` on: a match wholly before `cur` is passed over, the first
/// one from the span's end on stops the walk, and each other one cuts off the
/// unmarked part before it and the marked part it covers.
pub open spec fn section_pieces(
    k: nat,
    s0: nat,
    s_end: nat,
    m: Seq<(nat, nat)>,
    active: Option<usize>,
    j: nat,
    cur: nat,
) -> Seq<MarkedPiece>
    decreases m.len() - j,
{
    if j < m.len() && m[j as int].1 <= cur {
        section_pieces(k, s0, s_end, m, active, j + 1, cur)
    } else if j < m.len() && m[j as int].0 < s_end {
        let (ms, me) = m[j as int];
        let before = if ms > cur {
            seq![piece(k, s0, cur, ms, MatchMark::Unmarked)]
        } else {
            Seq::empty()
        };
        let c1 = if ms > cur {
            ms
        } else {
            cur
        };
        let oe = if me < s_end {
            me
        } else {
            s_end
        };
        let over = if c1 < oe {
            seq![piece(k, s0, c1, oe, mark_of(j, active))]
        } else {
            Seq::empty()
        };
        let c2 = if c1 < oe {
            oe
        } else {
            c1
        };
        before + over + section_pieces(k, s0, s_end, m, active, j + 1, c2)
    } else if cur < s_end {
        seq![piece(k, s0, cur, s_end, MatchMark::Unmarked)]
    } else {
        Seq::empty()
    }
}

/// The pieces of the spans from `k` on.
pub open spec fn marked_from(sections: Seq<(nat, nat)>, m: Seq<(nat, nat)>, active: Option<usize>, k: nat) -> Seq<MarkedPiece>
    decreases sections.len() - k,
{
    if k >= sections.len() {
        Seq::empty()
    } else {
        let (s0, s_end) = sections[k as int];
        section_pieces(k, s0, s_end, m, active, 0, s0) + marked_from(sections, m, active, k + 1)
    }
}

/// The spans' pieces with the search marks: without matches, each span whole and
/// unmarked.
pub open spec fn highlighted(sections: Seq<(nat, nat)>, m: Seq<(nat, nat)>, active: Option<usize>) -> Seq<MarkedPiece> {
    if m.len() == 0 {
        Seq::new(
            sections.len(),
            |k: int| piece(k as nat, sections[k].0, sections[k].0, sections[k].1, MatchMark::Unmarked),
        )
    } else {
        marked_from(sections, m, active, 0)
    }
}

/// Cuts the spans (`sections`, as byte ranges) by the search matches (byte ranges
/// in the order found), marking the active one (see `highlighted`).
pub fn highlight_pieces(sections: &[Range<usize>], matches: &[Range<usize>], active: Option<usize>) -> (r: Vec<MarkedPiece>)
    ensures
        r@ == highlighted(
            crate::editor::search::range_pairs(sections@),
            crate::editor::search::range_pairs(matches@),
            active,
        ),
{
    let ghost sec = crate::editor::search::range_pairs(sections@);
    let ghost m = crate::editor::search::range_pairs(matches@);
    let mut out: Vec<MarkedPiece> = Vec::new();
    let ns = sections.len();
    let nm = matches.len();
    if nm == 0 {
        let mut k: usize = 0;
        while k < ns
            invariant
                k <= ns,
                ns == sections@.len(),
                sec == crate::editor::search::range_pairs(sections@),
                out@ == Seq::new(
                    k as nat,
                    |x: int| piece(x as nat, sec[x].0, sec[x].0, sec[x].1, MatchMark::Unmarked),
                ),
            decreases ns - k,
        {
            let ghost before = out@;
            out.push(
                MarkedPiece {
                    section: k,
                    start: sections[k].start,
                    end: sections[k].end,
                    mark: MatchMark::Unmarked,
                    leading: true,
                },
            );
            proof {
                assert(out@ =~= Seq::new(
                    (k + 1) as nat,
                    |x: int| piece(x as nat, sec[x].0, sec[x].0, sec[x].1, MatchMark::Unmarked),
                ));
            }
            k += 1;
        }
        return out;
    }
    let mut k: usize = 0;
    proof {
        assert(out@ + marked_from(sec, m, active, 0) =~= marked_from(sec, m, active, 0));
    }
    while k < ns
        invariant
            k <= ns,
            ns == sections@.len(),
            nm == matches@.len(),
            nm > 0,
            sec == crate::editor::search::range_pairs(sections@),
            m == crate::editor::search::range_pairs(matches@),
            out@ + marked_from(sec, m, active, k as nat) == marked_from(sec, m, active, 0),
        decreases ns - k,
    {
        let s0 = sections[k].start;
        let s_end = sections[k].end;
        let ghost outer = out@;
        let mut cur = s0;
        let mut j: usize = 0;
        proof {
            assert(sec[k as int] == (s0 as nat, s_end as nat));
        }
        loop
            invariant
                j <= nm,
                nm == matches@.len(),
                m == crate::editor::search::range_pairs(matches@),
                out@ + section_pieces(k as nat, s0 as nat, s_end as nat, m, active, j as nat, cur as nat)
                    == outer + section_pieces(k as nat, s0 as nat, s_end as nat, m, active, 0, s0 as nat),
            ensures
                out@ + (if cur < s_end {
                    seq![piece(k as nat, s0 as nat, cur as nat, s_end as nat, MatchMark::Unmarked)]
                } else {
                    Seq::<MarkedPiece>::empty()
                }) == outer + section_pieces(k as nat, s0 as nat, s_end as nat, m, active, 0, s0 as nat),
            decreases nm - j,
        {
            if j >= nm {
                break;
            }
            let ms = matches[j].start;
            let me = matches[j].end;
            proof {
                assert(m[j as int] == (ms as nat, me as nat));
            }
            if me <= cur {
                j += 1;
                continue;
            }
            if ms >= s_end {
                break;
            }
            let ghost before = out@;
            let ghost cur0 = cur;
            if ms > cur {
                out.push(
                    MarkedPiece {
                        section: k,
                        start: cur,
                        end: ms,
                        mark: MatchMark::Unmarked,
                        leading: cur == s0,
                    },
                );
                cur = ms;
            }
            let oe = if me < s_end {
                me
            } else {
                s_end
            };
            let ghost cur1 = cur;
            if cur < oe {
                let is_active = match active {
                    Some(a) => a == j,
                    None => false,
                };
                let mark = if is_active {
                    MatchMark::ActiveMatch
                } else {
                    MatchMark::Match
                };
                proof {
                    assert(mark == mark_of(j as nat, active));
                }
                out.push(MarkedPiece { section: k, start: cur, end: oe, mark, leading: cur == s0 });
                cur = oe;
            }
            proof {
                let sp_before = if ms > cur0 {
                    seq![piece(k as nat, s0 as nat, cur0 as nat, ms as nat, MatchMark::Unmarked)]
                } else {
                    Seq::<MarkedPiece>::empty()
                };
                let sp_over = if cur1 < oe {
                    seq![piece(k as nat, s0 as nat, cur1 as nat, oe as nat, mark_of(j as nat, active))]
                } else {
                    Seq::<MarkedPiece>::empty()
                };
                assert(out@ =~= before + sp_before + sp_over);
                assert(section_pieces(k as nat, s0 as nat, s_end as nat, m, active, j as nat, cur0 as nat)
                    == sp_before + sp_over + section_pieces(k as nat, s0 as nat, s_end as nat, m, active, (j + 1) as nat, cur as nat));
                assert(out@ + section_pieces(k as nat, s0 as nat, s_end as nat, m, active, (j + 1) as nat, cur as nat)
                    =~= before + section_pieces(k as nat, s0 as nat, s_end as nat, m, active, j as nat, cur0 as nat));
            }
            j += 1;
        }
        let ghost at_end = out@;
        if cur < s_end {
            out.push(
                MarkedPiece { section: k, start: cur, end: s_end, mark: MatchMark::Unmarked, leading: cur == s0 },
            );
        }
        proof {
            let tail = if cur < s_end {
                seq![piece(k as nat, s0 as nat, cur as nat, s_end as nat, MatchMark::Unmarked)]
            } else {
                Seq::<MarkedPiece>::empty()
            };
            assert(out@ =~= at_end + tail);
            assert(marked_from(sec, m, active, k as nat) == section_pieces(k as nat, s0 as nat, s_end as nat, m, active, 0, s0 as nat)
                + marked_from(sec, m, active, (k + 1) as nat));
            assert(out@ + marked_from(sec, m, active, (k + 1) as nat) =~= outer + marked_from(sec, m, active, k as nat));
        }
        k += 1;
    }
    proof {
        assert(out@ + Seq::<MarkedPiece>::empty() =~= out@);
    }
    out
}

/// The pieces cover the bytes `a..b` one after another, none of them empty.
pub open spec fn tiles(pieces: Seq<MarkedPiece>, a: nat, b: nat) -> bool
    decreases pieces.len(),
{
    if pieces.len() == 0 {
        a == b
    } else {
        pieces[0].start == a && pieces[0].start < pieces[0].end && tiles(pieces.drop_first(), pieces[0].end as nat, b)
    }
}

proof fn lemma_tiles_append(p: Seq<MarkedPiece>, q: Seq<MarkedPiece>, a: nat, m: nat, b: nat)
    requires
        tiles(p, a, m),
        tiles(q, m, b),
    ensures
        tiles(p + q, a, b),
    decreases p.len(),
{
    if p.len() == 0 {
        assert(p + q =~= q);
    } else {
        assert((p + q).drop_first() =~= p.drop_first() + q);
        lemma_tiles_append(p.drop_first(), q, p[0].end as nat, m, b);
    }
}

proof fn lemma_section_tiles(
    k: nat,
    s0: nat,
    s_end: nat,
    m: Seq<(nat, nat)>,
    active: Option<usize>,
    j: nat,
    cur: nat,
)
    requires
        cur <= s_end <= usize::MAX,
        k <= usize::MAX,
    ensures
        tiles(section_pieces(k, s0, s_end, m, active, j, cur), cur, s_end),
    decreases m.len() - j,
{
    if j < m.len() && m[j as int].1 <= cur {
        lemma_section_tiles(k, s0, s_end, m, active, j + 1, cur);
    } else if j < m.len() && m[j as int].0 < s_end {
        let (ms, me) = m[j as int];
        let before = if ms > cur {
            seq![piece(k, s0, cur, ms, MatchMark::Unmarked)]
        } else {
            Seq::<MarkedPiece>::empty()
        };
        let c1 = if ms > cur {
            ms
        } else {
            cur
        };
        let oe = if me < s_end {
            me
        } else {
            s_end
        };
        let over = if c1 < oe {
            seq![piece(k, s0, c1, oe, mark_of(j, active))]
        } else {
            Seq::<MarkedPiece>::empty()
        };
        let c2 = if c1 < oe {
            oe
        } else {
            c1
        };
        lemma_section_tiles(k, s0, s_end, m, active, j + 1, c2);
        let rest = section_pieces(k, s0, s_end, m, active, j + 1, c2);
        assert(tiles(before, cur, c1)) by {
            if ms > cur {
                let d = before.drop_first();
                assert(d =~= Seq::<MarkedPiece>::empty());
                assert(tiles(d, ms, c1));
                assert(before[0].start == cur && before[0].end == ms);
            }
        }
        assert(tiles(over, c1, c2)) by {
            if c1 < oe {
                let d = over.drop_first();
                assert(d =~= Seq::<MarkedPiece>::empty());
                assert(tiles(d, oe, c2));
                assert(over[0].start == c1 && over[0].end == oe);
            }
        }
        lemma_tiles_append(over, rest, c1, c2, s_end);
        lemma_tiles_append(before, over + rest, cur, c1, s_end);
        assert(before + over + rest =~= before + (over + rest));
    } else if cur < s_end {
        let tail = seq![piece(k, s0, cur, s_end, MatchMark::Unmarked)];
        let d = tail.drop_first();
        assert(d =~= Seq::<MarkedPiece>::empty());
        assert(tiles(d, s_end, s_end));
        assert(tail[0].start == cur && tail[0].end == s_end);
    }
}

/// Cutting a span by the search matches keeps all of it: its pieces cover its
/// bytes one after another, none of them empty.
pub proof fn law_pieces_cover_each_span(
    k: nat,
    s0: nat,
    s_end: nat,
    m: Seq<(nat, nat)>,
    active: Option<usize>,
)
    requires
        s0 <= s_end <= usize::MAX,
        k <= usize::MAX,
    ensures
        tiles(section_pieces(k, s0, s_end, m, active, 0, s0), s0, s_end),
{
    lemma_section_tiles(k, s0, s_end, m, active, 0, s0);
}

} // verus!
