//! Markdown formatting of a selected text, and the text inserted when nothing is selected.
use vstd::prelude::*;
use crate::text::{
    char_rows, chars_of, contains_char, decimal, ends_with, extend_chars, extend_str, has_prefix,
    has_suffix, join_lines, join_rows, lines_of, next_newline, push_decimal, split_lines,
    starts_with, str_equal, strip_cr, sub_chars, trim, trim_chars,
};

verus! {

/// `line` unchanged when it is blank or already a task item, else made a task item.
pub open spec fn checkbox_line(line: Seq<char>) -> Seq<char> {
    if trim(line).len() == 0 || starts_with(trim(line), "- [ ] "@) {
        line
    } else {
        "- [ ] "@ + line
    }
}

/// `line` unchanged when it is blank, else preceded by `marker`.
pub open spec fn marked_line(line: Seq<char>, marker: Seq<char>) -> Seq<char> {
    if trim(line).len() == 0 {
        line
    } else {
        marker + line
    }
}

/// The lines numbered from `n` on, blank lines left unnumbered.
pub open spec fn numbered_lines(ls: Seq<Seq<char>>, n: nat) -> Seq<Seq<char>>
    decreases ls.len(),
{
    if ls.len() == 0 {
        Seq::empty()
    } else if trim(ls[0]).len() == 0 {
        seq![ls[0]] + numbered_lines(ls.drop_first(), n)
    } else {
        seq![decimal(n) + ". "@ + ls[0]] + numbered_lines(ls.drop_first(), n + 1)
    }
}

/// A text of several lines transformed line by line, or a single line transformed.
pub open spec fn per_line(sel: Seq<char>, marker: Seq<char>) -> Seq<char> {
    if sel.contains('\n') {
        join_lines(lines_of(sel).map_values(|l: Seq<char>| marked_line(l, marker)))
    } else {
        marked_line(sel, marker)
    }
}

/// The first comment form applies: the text starts with `<!-- ` and ends with ` -->`.
pub open spec fn spaced_comment(sel: Seq<char>) -> bool {
    starts_with(sel, "<!-- "@) && ends_with(sel, " -->"@)
}

/// The second comment form applies: the text starts with `<!--` and ends with `-->`.
pub open spec fn tight_comment(sel: Seq<char>) -> bool {
    starts_with(sel, "<!--"@) && ends_with(sel, "-->"@)
}

/// Unwrapping a comment is possible: its opening and closing marks do not overlap.
pub open spec fn comment_unwraps(sel: Seq<char>) -> bool {
    &&& spaced_comment(sel) ==> sel.len() >= 9
    &&& !spaced_comment(sel) && tight_comment(sel) ==> sel.len() >= 7
}

/// `kind` names the format that formatting selected text with `kind` needs checked
/// (comments are unwrapped by position).
pub open spec fn format_accepts(kind: Seq<char>, sel: Seq<char>) -> bool {
    kind == "comment"@ ==> comment_unwraps(sel)
}

/// The selected text `sel` formatted as `kind` says.
pub open spec fn formatted(kind: Seq<char>, sel: Seq<char>) -> Seq<char> {
    if kind == "bold"@ {
        "**"@ + sel + "**"@
    } else if kind == "italic"@ {
        "*"@ + sel + "*"@
    } else if kind == "code"@ {
        if sel.contains('\n') {
            "```\n"@ + sel + "\n```"@
        } else {
            "`"@ + sel + "`"@
        }
    } else if kind == "link"@ {
        "["@ + sel + "](url)"@
    } else if kind == "checkbox"@ {
        if sel.contains('\n') {
            join_lines(lines_of(sel).map_values(|l: Seq<char>| checkbox_line(l)))
        } else {
            checkbox_line(sel)
        }
    } else if kind == "numbered_list"@ {
        if sel.contains('\n') {
            join_lines(numbered_lines(lines_of(sel), 1))
        } else {
            marked_line(sel, "1. "@)
        }
    } else if kind == "bulleted_list"@ {
        per_line(sel, "- "@)
    } else if kind == "indent"@ {
        per_line(sel, "> "@)
    } else if kind == "comment"@ {
        if spaced_comment(sel) {
            sel.subrange(5, sel.len() - 4)
        } else if tight_comment(sel) {
            sel.subrange(4, sel.len() - 3)
        } else {
            "<!-- "@ + sel + " -->"@
        }
    } else if kind == "table"@ {
        "| "@ + sel + " | Header 2 |\n| -------- | -------- |\n| Cell 1   | Cell 2   |"@
    } else {
        sel
    }
}

/// The text inserted at the cursor for `kind` when nothing is selected.
pub open spec fn placeholder(kind: Seq<char>) -> Seq<char> {
    if kind == "bold"@ {
        "****"@
    } else if kind == "italic"@ {
        "**"@
    } else if kind == "code"@ {
        "```\n\n```"@
    } else if kind == "link"@ {
        "[](url)"@
    } else if kind == "checkbox"@ {
        "- [ ] "@
    } else if kind == "numbered_list"@ {
        "1. "@
    } else if kind == "bulleted_list"@ {
        "- "@
    } else if kind == "indent"@ {
        "> "@
    } else if kind == "comment"@ {
        "<!--  -->"@
    } else if kind == "table"@ {
        "| Header 1 | Header 2 |\n| -------- | -------- |\n| Cell 1   | Cell 2   |"@
    } else {
        ""@
    }
}

/// How far the cursor moves into the placeholder for `kind`.
pub open spec fn placeholder_offset(kind: Seq<char>) -> nat {
    if kind == "bold"@ {
        2
    } else if kind == "italic"@ {
        1
    } else if kind == "code"@ {
        4
    } else if kind == "link"@ {
        1
    } else if kind == "checkbox"@ {
        6
    } else if kind == "numbered_list"@ {
        3
    } else if kind == "bulleted_list"@ {
        2
    } else if kind == "indent"@ {
        2
    } else if kind == "comment"@ {
        5
    } else if kind == "table"@ {
        2
    } else {
        placeholder(kind).len()
    }
}

/// A text has at least as many characters as it has lines.
pub proof fn lemma_lines_count(s: Seq<char>)
    ensures
        lines_of(s).len() <= s.len(),
    decreases s.len(),
{
    if s.len() > 0 {
        let k = next_newline(s, 0);
        if k < s.len() {
            lemma_lines_count(s.skip(k + 1 as int));
        }
    }
}

fn checkbox_row(line: &[char]) -> (r: Vec<char>)
    ensures
        r@ == checkbox_line(line@),
{
    let t = trim_chars(line);
    if t.len() == 0 || has_prefix(t.as_slice(), "- [ ] ") {
        sub_chars(line, 0, line.len())
    } else {
        let mut r: Vec<char> = Vec::new();
        extend_str(&mut r, "- [ ] ");
        extend_chars(&mut r, line);
        r
    }
}

fn marked_row(line: &[char], marker: &str) -> (r: Vec<char>)
    ensures
        r@ == marked_line(line@, marker@),
{
    let t = trim_chars(line);
    if t.len() == 0 {
        sub_chars(line, 0, line.len())
    } else {
        let mut r: Vec<char> = Vec::new();
        extend_str(&mut r, marker);
        extend_chars(&mut r, line);
        r
    }
}

fn per_line_rows(sel: &[char], marker: &str) -> (r: Vec<char>)
    ensures
        r@ == per_line(sel@, marker@),
{
    if contains_char(sel, '\n') {
        let rows = split_lines(sel);
        let mut out: Vec<Vec<char>> = Vec::new();
        let ghost ls = lines_of(sel@);
        let mut i: usize = 0;
        while i < rows.len()
            invariant
                i <= rows@.len(),
                char_rows(rows@) == ls,
                char_rows(out@) == ls.take(i as int).map_values(
                    |l: Seq<char>| marked_line(l, marker@),
                ),
            decreases rows@.len() - i,
        {
            let row = marked_row(rows[i].as_slice(), marker);
            let ghost before = char_rows(out@);
            out.push(row);
            proof {
                assert(ls[i as int] == rows@[i as int]@);
                assert(char_rows(out@) =~= before.push(row@));
                assert(ls.take(i as int + 1).map_values(|l: Seq<char>| marked_line(l, marker@))
                    =~= ls.take(i as int).map_values(|l: Seq<char>| marked_line(l, marker@)).push(
                    marked_line(ls[i as int], marker@),
                ));
            }
            i += 1;
        }
        proof {
            assert(ls.take(rows@.len() as int) =~= ls);
        }
        join_rows(&out)
    } else {
        marked_row(sel, marker)
    }
}

fn checkbox_rows(sel: &[char]) -> (r: Vec<char>)
    ensures
        r@ == (if sel@.contains('\n') {
            join_lines(lines_of(sel@).map_values(|l: Seq<char>| checkbox_line(l)))
        } else {
            checkbox_line(sel@)
        }),
{
    if contains_char(sel, '\n') {
        let rows = split_lines(sel);
        let mut out: Vec<Vec<char>> = Vec::new();
        let ghost ls = lines_of(sel@);
        let mut i: usize = 0;
        while i < rows.len()
            invariant
                i <= rows@.len(),
                char_rows(rows@) == ls,
                char_rows(out@) == ls.take(i as int).map_values(|l: Seq<char>| checkbox_line(l)),
            decreases rows@.len() - i,
        {
            let row = checkbox_row(rows[i].as_slice());
            let ghost before = char_rows(out@);
            out.push(row);
            proof {
                assert(ls[i as int] == rows@[i as int]@);
                assert(char_rows(out@) =~= before.push(row@));
                assert(ls.take(i as int + 1).map_values(|l: Seq<char>| checkbox_line(l))
                    =~= ls.take(i as int).map_values(|l: Seq<char>| checkbox_line(l)).push(
                    checkbox_line(ls[i as int]),
                ));
            }
            i += 1;
        }
        proof {
            assert(ls.take(rows@.len() as int) =~= ls);
        }
        join_rows(&out)
    } else {
        checkbox_row(sel)
    }
}

proof fn lemma_numbered_split(ls: Seq<Seq<char>>, i: int, n: nat)
    requires
        0 <= i < ls.len(),
    ensures
        numbered_lines(ls.skip(i), n) == seq![
            if trim(ls[i]).len() == 0 {
                ls[i]
            } else {
                decimal(n) + ". "@ + ls[i]
            },
        ] + numbered_lines(ls.skip(i + 1), if trim(ls[i]).len() == 0 {
            n
        } else {
            n + 1
        }),
{
    assert(ls.skip(i).drop_first() =~= ls.skip(i + 1));
}

fn numbered_rows(sel: &[char]) -> (r: Vec<char>)
    requires
        sel@.len() < usize::MAX,
    ensures
        r@ == (if sel@.contains('\n') {
            join_lines(numbered_lines(lines_of(sel@), 1))
        } else {
            marked_line(sel@, "1. "@)
        }),
{
    if contains_char(sel, '\n') {
        let rows = split_lines(sel);
        let ghost ls = lines_of(sel@);
        proof {
            lemma_lines_count(sel@);
        }
        let mut out: Vec<Vec<char>> = Vec::new();
        let mut next_num: usize = 1;
        let mut i: usize = 0;
        proof {
            assert(ls.skip(0) =~= ls);
            assert(char_rows(out@) + numbered_lines(ls, 1) =~= numbered_lines(ls, 1));
        }
        while i < rows.len()
            invariant
                i <= rows@.len(),
                rows@.len() < usize::MAX,
                1 <= next_num <= i + 1,
                char_rows(rows@) == ls,
                char_rows(out@) + numbered_lines(ls.skip(i as int), next_num as nat)
                    == numbered_lines(ls, 1),
            decreases rows@.len() - i,
        {
            let ghost before = char_rows(out@);
            proof {
                assert(ls[i as int] == rows@[i as int]@);
                lemma_numbered_split(ls, i as int, next_num as nat);
            }
            let t = trim_chars(rows[i].as_slice());
            if t.len() == 0 {
                out.push(sub_chars(rows[i].as_slice(), 0, rows[i].len()));
                proof {
                    assert(rows@[i as int]@.subrange(0, rows@[i as int]@.len() as int) =~= ls[i as int]);
                }
            } else {
                let mut row: Vec<char> = Vec::new();
                push_decimal(&mut row, next_num);
                extend_str(&mut row, ". ");
                extend_chars(&mut row, rows[i].as_slice());
                out.push(row);
                next_num += 1;
            }
            proof {
                assert(char_rows(out@) =~= before.push(out@.last()@));
                assert(char_rows(out@) + numbered_lines(ls.skip(i as int + 1), next_num as nat)
                    =~= before + numbered_lines(ls.skip(i as int), old_num_of(next_num, t@)));
            }
            i += 1;
        }
        proof {
            assert(ls.skip(rows@.len() as int) =~= Seq::<Seq<char>>::empty());
            assert(char_rows(out@) + Seq::<Seq<char>>::empty() =~= char_rows(out@));
        }
        join_rows(&out)
    } else {
        marked_row(sel, "1. ")
    }
}

/// The number a line was given, from the number after it and its trimmed text.
spec fn old_num_of(next: usize, trimmed: Seq<char>) -> nat {
    if trimmed.len() == 0 {
        next as nat
    } else {
        (next - 1) as nat
    }
}

fn is_kind(kind: &str, name: &str) -> (r: bool)
    ensures
        r <==> kind@ == name@,
{
    str_equal(kind, name)
}

fn wrap(before: &str, sel: &[char], after: &str) -> (r: Vec<char>)
    ensures
        r@ == before@ + sel@ + after@,
{
    let mut r: Vec<char> = Vec::new();
    extend_str(&mut r, before);
    extend_chars(&mut r, sel);
    extend_str(&mut r, after);
    r
}

/// Formats the selected text as `kind` says (bold, italic, code, link, checkbox,
/// numbered or bulleted list, blockquote, comment or table); other kinds leave it as is.
pub fn format_text(kind: &str, sel: &[char]) -> (r: Vec<char>)
    requires
        format_accepts(kind@, sel@),
        sel@.len() < usize::MAX,
    ensures
        r@ == formatted(kind@, sel@),
{
    if is_kind(kind, "bold") {
        wrap("**", sel, "**")
    } else if is_kind(kind, "italic") {
        wrap("*", sel, "*")
    } else if is_kind(kind, "code") {
        if contains_char(sel, '\n') {
            wrap("```\n", sel, "\n```")
        } else {
            wrap("`", sel, "`")
        }
    } else if is_kind(kind, "link") {
        wrap("[", sel, "](url)")
    } else if is_kind(kind, "checkbox") {
        checkbox_rows(sel)
    } else if is_kind(kind, "numbered_list") {
        numbered_rows(sel)
    } else if is_kind(kind, "bulleted_list") {
        per_line_rows(sel, "- ")
    } else if is_kind(kind, "indent") {
        per_line_rows(sel, "> ")
    } else if is_kind(kind, "comment") {
        if has_prefix(sel, "<!-- ") && has_suffix(sel, " -->") {
            sub_chars(sel, 5, sel.len() - 4)
        } else if has_prefix(sel, "<!--") && has_suffix(sel, "-->") {
            sub_chars(sel, 4, sel.len() - 3)
        } else {
            wrap("<!-- ", sel, " -->")
        }
    } else if is_kind(kind, "table") {
        wrap("| ", sel, " | Header 2 |\n| -------- | -------- |\n| Cell 1   | Cell 2   |")
    } else {
        sub_chars(sel, 0, sel.len())
    }
}

/// The placeholder for `kind` and how far into it the cursor goes.
pub fn placeholder_for(kind: &str) -> (r: (&'static str, usize))
    ensures
        r.0@ == placeholder(kind@),
        r.1 == placeholder_offset(kind@),
{
    if is_kind(kind, "bold") {
        ("****", 2)
    } else if is_kind(kind, "italic") {
        ("**", 1)
    } else if is_kind(kind, "code") {
        ("```\n\n```", 4)
    } else if is_kind(kind, "link") {
        ("[](url)", 1)
    } else if is_kind(kind, "checkbox") {
        ("- [ ] ", 6)
    } else if is_kind(kind, "numbered_list") {
        ("1. ", 3)
    } else if is_kind(kind, "bulleted_list") {
        ("- ", 2)
    } else if is_kind(kind, "indent") {
        ("> ", 2)
    } else if is_kind(kind, "comment") {
        ("<!--  -->", 5)
    } else if is_kind(kind, "table") {
        ("| Header 1 | Header 2 |\n| -------- | -------- |\n| Cell 1   | Cell 2   |", 2)
    } else {
        let p = "";
        let n = chars_of(p).len();
        (p, n)
    }
}


// ---------------------------------------------------------------------------
// Tables

/// Header cells `c..=cols`, each ` Header {c} |`.
pub open spec fn header_cells(c: nat, cols: nat) -> Seq<char>
    decreases cols + 1 - c,
{
    if c > cols {
        Seq::empty()
    } else {
        " Header "@ + decimal(c) + " |"@ + header_cells(c + 1, cols)
    }
}

/// `n` separator cells.
pub open spec fn separator_cells(n: nat) -> Seq<char>
    decreases n,
{
    if n == 0 {
        Seq::empty()
    } else {
        " -------- |"@ + separator_cells((n - 1) as nat)
    }
}

/// Body cells `c..=cols` of row `r`, each ` Cell {r}.{c} |`.
pub open spec fn body_cells(r: nat, c: nat, cols: nat) -> Seq<char>
    decreases cols + 1 - c,
{
    if c > cols {
        Seq::empty()
    } else {
        " Cell "@ + decimal(r) + "."@ + decimal(c) + " |"@ + body_cells(r, c + 1, cols)
    }
}

/// Body rows `r..=rows`, separated by line feeds.
pub open spec fn body_rows(r: nat, rows: nat, cols: nat) -> Seq<char>
    decreases rows + 1 - r,
{
    if r > rows {
        Seq::empty()
    } else {
        "|"@ + body_cells(r, 1, cols) + (if r < rows {
            "\n"@
        } else {
            Seq::empty()
        }) + body_rows(r + 1, rows, cols)
    }
}

/// A Markdown table of `cols` columns and `rows` body rows (each at least one),
/// whose first header is `first` or `Header 1` when `first` is empty.
pub open spec fn table_text(cols: nat, rows: nat, first: Seq<char>) -> Seq<char> {
    let cols = if cols < 1 {
        1
    } else {
        cols
    };
    let rows = if rows < 1 {
        1
    } else {
        rows
    };
    let first_header = if first.len() == 0 {
        "Header 1"@
    } else {
        first
    };
    "|"@ + " "@ + first_header + " |"@ + header_cells(2, cols) + "\n"@ + "|"@ + separator_cells(cols)
        + "\n"@ + body_rows(1, rows, cols)
}

fn push_header_cells(out: &mut Vec<char>, cols: usize)
    ensures
        final(out)@ == old(out)@ + header_cells(2, cols as nat),
{
    let mut k: usize = 1;
    proof {
        assert(old(out)@ + header_cells(2, cols as nat) =~= out@ + header_cells(
            (k + 1) as nat,
            cols as nat,
        ));
    }
    while k < cols
        invariant
            1 <= k,
            k <= cols || cols == 0,
            out@ + header_cells((k + 1) as nat, cols as nat) == old(out)@ + header_cells(
                2,
                cols as nat,
            ),
        decreases cols - k,
    {
        let ghost before = out@;
        extend_str(out, " Header ");
        push_decimal(out, k + 1);
        extend_str(out, " |");
        proof {
            assert(before + header_cells((k + 1) as nat, cols as nat) =~= out@ + header_cells(
                (k + 2) as nat,
                cols as nat,
            ));
        }
        k += 1;
    }
    proof {
        assert(header_cells((k + 1) as nat, cols as nat) =~= Seq::<char>::empty());
        assert(out@ + Seq::<char>::empty() =~= out@);
    }
}

fn push_separator_cells(out: &mut Vec<char>, cols: usize)
    ensures
        final(out)@ == old(out)@ + separator_cells(cols as nat),
{
    let mut k: usize = 0;
    proof {
        assert(old(out)@ + separator_cells(cols as nat) =~= out@ + separator_cells(
            (cols - k) as nat,
        ));
    }
    while k < cols
        invariant
            k <= cols,
            out@ + separator_cells((cols - k) as nat) == old(out)@ + separator_cells(cols as nat),
        decreases cols - k,
    {
        let ghost before = out@;
        extend_str(out, " -------- |");
        proof {
            assert(before + separator_cells((cols - k) as nat) =~= out@ + separator_cells(
                (cols - k - 1) as nat,
            ));
        }
        k += 1;
    }
    proof {
        assert(out@ + separator_cells(0) =~= out@);
    }
}

fn push_body_cells(out: &mut Vec<char>, r: usize, cols: usize)
    ensures
        final(out)@ == old(out)@ + body_cells(r as nat, 1, cols as nat),
{
    let mut k: usize = 0;
    proof {
        assert(old(out)@ + body_cells(r as nat, 1, cols as nat) =~= out@ + body_cells(
            r as nat,
            (k + 1) as nat,
            cols as nat,
        ));
    }
    while k < cols
        invariant
            k <= cols,
            out@ + body_cells(r as nat, (k + 1) as nat, cols as nat) == old(out)@ + body_cells(
                r as nat,
                1,
                cols as nat,
            ),
        decreases cols - k,
    {
        let ghost before = out@;
        extend_str(out, " Cell ");
        push_decimal(out, r);
        extend_str(out, ".");
        push_decimal(out, k + 1);
        extend_str(out, " |");
        proof {
            assert(before + body_cells(r as nat, (k + 1) as nat, cols as nat) =~= out@
                + body_cells(r as nat, (k + 2) as nat, cols as nat));
        }
        k += 1;
    }
    proof {
        assert(out@ + Seq::<char>::empty() =~= out@);
    }
}

fn push_body_rows(out: &mut Vec<char>, rows: usize, cols: usize)
    ensures
        final(out)@ == old(out)@ + body_rows(1, rows as nat, cols as nat),
{
    let mut k: usize = 0;
    proof {
        assert(old(out)@ + body_rows(1, rows as nat, cols as nat) =~= out@ + body_rows(
            (k + 1) as nat,
            rows as nat,
            cols as nat,
        ));
    }
    while k < rows
        invariant
            k <= rows,
            out@ + body_rows((k + 1) as nat, rows as nat, cols as nat) == old(out)@ + body_rows(
                1,
                rows as nat,
                cols as nat,
            ),
        decreases rows - k,
    {
        let ghost before = out@;
        extend_str(out, "|");
        push_body_cells(out, k + 1, cols);
        if k + 1 < rows {
            extend_str(out, "\n");
        } else {
            proof {
                assert(out@ + Seq::<char>::empty() =~= out@);
            }
        }
        proof {
            assert(before + body_rows((k + 1) as nat, rows as nat, cols as nat) =~= out@
                + body_rows((k + 2) as nat, rows as nat, cols as nat));
        }
        k += 1;
    }
    proof {
        assert(out@ + Seq::<char>::empty() =~= out@);
    }
}

/// Builds the Markdown table that `table_text` describes.
pub fn build_table(cols: usize, rows: usize, first: &str) -> (r: Vec<char>)
    ensures
        r@ == table_text(cols as nat, rows as nat, first@),
{
    let cols = if cols < 1 {
        1
    } else {
        cols
    };
    let rows = if rows < 1 {
        1
    } else {
        rows
    };
    let mut out: Vec<char> = Vec::new();
    extend_str(&mut out, "|");
    let first_chars = chars_of(first);
    if first_chars.len() == 0 {
        extend_str(&mut out, " ");
        extend_str(&mut out, "Header 1");
    } else {
        extend_str(&mut out, " ");
        extend_chars(&mut out, first_chars.as_slice());
    }
    extend_str(&mut out, " |");
    push_header_cells(&mut out, cols);
    extend_str(&mut out, "\n");
    extend_str(&mut out, "|");
    push_separator_cells(&mut out, cols);
    extend_str(&mut out, "\n");
    push_body_rows(&mut out, rows, cols);
    out
}

// ---------------------------------------------------------------------------
// Lists and quotes mark every line

/// `s` holds no line feed.
pub open spec fn no_newline(s: Seq<char>) -> bool {
    forall|k: int| 0 <= k < s.len() ==> s[k] != '\n'
}

proof fn lemma_next_newline_props(s: Seq<char>, i: nat)
    requires
        i <= s.len(),
    ensures
        i <= next_newline(s, i) <= s.len(),
        forall|k: int| i <= k < next_newline(s, i) ==> s[k] != '\n',
        next_newline(s, i) < s.len() ==> s[next_newline(s, i) as int] == '\n',
    decreases s.len() - i,
{
    if i < s.len() && s[i as int] != '\n' {
        lemma_next_newline_props(s, i + 1);
    }
}

/// No line holds a line feed, and a text with a character has a line.
proof fn lemma_lines_no_newline(s: Seq<char>)
    ensures
        forall|i: int| 0 <= i < lines_of(s).len() ==> no_newline(#[trigger] lines_of(s)[i]),
        s.len() > 0 ==> lines_of(s).len() > 0,
    decreases s.len(),
{
    if s.len() > 0 {
        lemma_next_newline_props(s, 0);
        let k = next_newline(s, 0);
        if k < s.len() {
            let rest = s.skip(k + 1 as int);
            lemma_lines_no_newline(rest);
            let ls = lines_of(s);
            let first = s.take(k as int);
            assert(ls == seq![strip_cr(first)] + lines_of(rest));
            assert forall|i: int| 0 <= i < ls.len() implies no_newline(#[trigger] ls[i]) by {
                if i == 0 {
                    assert forall|x: int| 0 <= x < strip_cr(first).len() implies strip_cr(first)[x] != '\n' by {
                        assert(strip_cr(first)[x] == first[x]);
                    }
                } else {
                    assert(ls[i] == lines_of(rest)[i - 1]);
                }
            }
        }
    }
}

proof fn lemma_join_lines_front(ls: Seq<Seq<char>>)
    requires
        ls.len() >= 2,
    ensures
        join_lines(ls) == ls[0] + seq!['\n'] + join_lines(ls.drop_first()),
    decreases ls.len(),
{
    let rest = ls.drop_first();
    let dl = ls.drop_last();
    assert(join_lines(ls) == join_lines(dl) + seq!['\n'] + ls.last());
    if ls.len() == 2 {
        assert(dl =~= seq![ls[0]]);
        assert(join_lines(dl) == ls[0]);
        assert(rest =~= seq![ls[1]]);
        assert(join_lines(rest) == ls[1]);
    } else {
        lemma_join_lines_front(dl);
        assert(dl.drop_first() =~= rest.drop_last());
        assert(dl[0] == ls[0]);
        assert(rest.last() == ls.last());
        assert(join_lines(rest) == join_lines(rest.drop_last()) + seq!['\n'] + rest.last());
        assert(join_lines(ls) =~= ls[0] + seq!['\n'] + join_lines(rest));
    }
}

/// Lines joined with line feeds read back as the same lines, when none holds a
/// line feed, none but the last ends with a carriage return, and the last is not
/// empty.
proof fn lemma_lines_of_join(ls: Seq<Seq<char>>)
    requires
        ls.len() >= 1,
        forall|i: int| 0 <= i < ls.len() ==> no_newline(#[trigger] ls[i]),
        forall|i: int| 0 <= i < ls.len() - 1 ==> (#[trigger] ls[i]).len() == 0 || ls[i].last() != '\r',
        ls.last().len() > 0,
    ensures
        lines_of(join_lines(ls)) == ls,
    decreases ls.len(),
{
    let s = join_lines(ls);
    let l0 = ls[0];
    if ls.len() == 1 {
        lemma_next_newline_props(s, 0);
        assert(ls =~= seq![l0]);
    } else {
        let rest = ls.drop_first();
        lemma_join_lines_front(ls);
        let j = join_lines(rest);
        assert forall|i: int| 0 <= i < rest.len() implies no_newline(#[trigger] rest[i]) by {
            assert(rest[i] == ls[i + 1]);
        }
        assert forall|i: int| 0 <= i < rest.len() - 1 implies (#[trigger] rest[i]).len() == 0 || rest[i].last() != '\r' by {
            assert(rest[i] == ls[i + 1]);
        }
        lemma_lines_of_join(rest);
        lemma_next_newline_props(s, 0);
        assert(s[l0.len() as int] == '\n');
        assert(no_newline(ls[0]));
        assert forall|k: int| 0 <= k < l0.len() implies s[k] != '\n' by {
            assert(s[k] == l0[k]);
        }
        assert(next_newline(s, 0) == l0.len());
        assert(s.take(l0.len() as int) =~= l0);
        assert(strip_cr(l0) == l0);
        assert(s.skip(l0.len() + 1 as int) =~= j);
        assert(ls =~= seq![l0] + rest);
    }
}

/// A bulleted list and a quote of a selection over several lines mark each line:
/// the result has the selection's lines, in order, each with `- ` (or `> `) in
/// front unless it is blank. This holds whenever the lines read back from the
/// joined text, that is unless the selection ends with an empty line or a line
/// other than the last ends with a carriage return.
pub proof fn law_list_marks_every_line(sel: Seq<char>)
    requires
        sel.contains('\n'),
        lines_of(sel).last().len() > 0,
        forall|i: int|
            0 <= i < lines_of(sel).len() - 1 ==> (#[trigger] lines_of(sel)[i]).len() == 0
                || lines_of(sel)[i].last() != '\r',
    ensures
        lines_of(formatted("bulleted_list"@, sel)) == lines_of(sel).map_values(
            |l: Seq<char>| marked_line(l, "- "@),
        ),
        lines_of(formatted("indent"@, sel)) == lines_of(sel).map_values(
            |l: Seq<char>| marked_line(l, "> "@),
        ),
{
    reveal_strlit("bold");
    reveal_strlit("italic");
    reveal_strlit("code");
    reveal_strlit("link");
    reveal_strlit("checkbox");
    reveal_strlit("numbered_list");
    reveal_strlit("bulleted_list");
    reveal_strlit("indent");
    reveal_strlit("- ");
    reveal_strlit("> ");
    lemma_lines_no_newline(sel);
    let ls = lines_of(sel);
    assert(sel.len() > 0);
    assert(ls.len() >= 1);
    assert(no_newline("- "@));
    assert(no_newline("> "@));
    let kinds = seq!["bold"@, "italic"@, "code"@, "link"@, "checkbox"@, "numbered_list"@];
    assert forall|i: int| 0 <= i < kinds.len() implies #[trigger] kinds[i] != "bulleted_list"@ by {
        assert(kinds[i].len() != "bulleted_list"@.len() || kinds[i][0] != 'b' || kinds[i][1] != 'u');
    }
    assert forall|i: int| 0 <= i < kinds.len() implies #[trigger] kinds[i] != "indent"@ by {
        assert(kinds[i].len() != "indent"@.len() || kinds[i][1] != 'n');
    }
    assert(kinds[0] != "bulleted_list"@ && kinds[1] != "bulleted_list"@ && kinds[2] != "bulleted_list"@
        && kinds[3] != "bulleted_list"@ && kinds[4] != "bulleted_list"@ && kinds[5] != "bulleted_list"@);
    assert(kinds[0] != "indent"@ && kinds[1] != "indent"@ && kinds[2] != "indent"@ && kinds[3]
        != "indent"@ && kinds[4] != "indent"@ && kinds[5] != "indent"@);
    assert("bulleted_list"@ != "indent"@);
    assert(formatted("bulleted_list"@, sel) == per_line(sel, "- "@));
    assert(formatted("indent"@, sel) == per_line(sel, "> "@));
    lemma_marked_lines_read_back(ls, "- "@);
    lemma_marked_lines_read_back(ls, "> "@);
}

proof fn lemma_marked_lines_read_back(ls: Seq<Seq<char>>, marker: Seq<char>)
    requires
        ls.len() >= 1,
        marker.len() > 0,
        no_newline(marker),
        forall|i: int| 0 <= i < ls.len() ==> no_newline(#[trigger] ls[i]),
        forall|i: int| 0 <= i < ls.len() - 1 ==> (#[trigger] ls[i]).len() == 0 || ls[i].last() != '\r',
        ls.last().len() > 0,
    ensures
        lines_of(join_lines(ls.map_values(|l: Seq<char>| marked_line(l, marker)))) == ls.map_values(
            |l: Seq<char>| marked_line(l, marker),
        ),
{
    let ms = ls.map_values(|l: Seq<char>| marked_line(l, marker));
    assert forall|i: int| 0 <= i < ms.len() implies no_newline(#[trigger] ms[i]) by {
        let l = ls[i];
        assert(ms[i] == marked_line(l, marker));
        assert(no_newline(l));
        if trim(l).len() != 0 {
            assert forall|k: int| 0 <= k < ms[i].len() implies ms[i][k] != '\n' by {
                if k < marker.len() {
                    assert(ms[i][k] == marker[k]);
                } else {
                    assert(ms[i][k] == l[k - marker.len()]);
                }
            }
        }
    }
    assert forall|i: int| 0 <= i < ms.len() - 1 implies (#[trigger] ms[i]).len() == 0 || ms[i].last() != '\r' by {
        let l = ls[i];
        assert(ms[i] == marked_line(l, marker));
        if trim(l).len() != 0 && l.len() > 0 {
            assert(ms[i].last() == l.last());
        }
        if trim(l).len() != 0 && l.len() == 0 {
            assert(ms[i].last() == marker.last());
            assert(marker.last() != '\r');
        }
    }
    let last = ls.last();
    assert(ms.last() == marked_line(last, marker));
    lemma_lines_of_join(ms);
}

} // verus!
