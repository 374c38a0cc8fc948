use dr_md::editor::{Cursor, EditBuffer, Selection};

#[test]
fn line_col_and_back() {
    let b = EditBuffer::from_str("ab\ncde\n\nf");
    let c = Cursor::new(4);
    assert_eq!(c.line_col(&b.rope), (1, 1));
    assert_eq!(Cursor::from_line_col(&b.rope, 1, 1).char_idx, 4);
    assert_eq!(Cursor::from_line_col(&b.rope, 0, 10).char_idx, 2);
    assert_eq!(Cursor::from_line_col(&b.rope, 9, 9).char_idx, 9);
}

#[test]
fn moves() {
    let b = EditBuffer::from_str("ab\ncde\nf");
    let mut c = Cursor::new(5);
    c.move_up(&b.rope);
    assert_eq!(c.char_idx, 2);
    c.move_down(&b.rope);
    assert_eq!(c.char_idx, 5);
    c.move_down(&b.rope);
    assert_eq!(c.char_idx, 8);
    c.move_down(&b.rope);
    assert_eq!(c.char_idx, 8);
    c.move_right(&b.rope);
    assert_eq!(c.char_idx, 8);
    c.move_left(&b.rope);
    assert_eq!(c.char_idx, 7);
    let mut z = Cursor::new(0);
    z.move_left(&b.rope);
    assert_eq!(z.char_idx, 0);
}

#[test]
fn crlf_counts_as_one_break() {
    let b = EditBuffer::from_str("a\r\nb");
    assert_eq!(Cursor::new(3).line_col(&b.rope), (1, 0));
    assert_eq!(Cursor::new(2).line_col(&b.rope), (0, 2));
}

#[test]
fn selection_ends() {
    let s = Selection::new(7, 3);
    assert_eq!(s.start(), 3);
    assert_eq!(s.end(), 7);
    assert!(!s.is_empty());
    assert_eq!(s.range(), Some(3..7));
    let mut s = s;
    s.clear(4);
    assert!(s.is_empty());
    assert_eq!(s.range(), None);
}

#[test]
fn buffer_clamps() {
    let mut b = EditBuffer::new();
    b.insert(3, "x");
    assert_eq!(b.to_string(), "");
    b.insert(0, "hello");
    b.remove(3, 99);
    assert_eq!(b.to_string(), "hel");
    b.remove(2, 1);
    assert_eq!(b.to_string(), "hel");
    assert_eq!(b.len_chars(), 3);
    assert_eq!(b.slice_to_string(1, 3), "el");
}

#[test]
fn line_col_and_back_gives_every_position() {
    let text = "ab\r\ncd\n\nlast\rx\u{2028}end";
    let rope = ropey::Rope::from_str(text);
    for i in 0..=rope.len_chars() {
        let (line, col) = Cursor::new(i).line_col(&rope);
        assert_eq!(Cursor::from_line_col(&rope, line, col).char_idx, i);
    }
}
