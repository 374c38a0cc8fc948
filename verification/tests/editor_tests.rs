use dr_md::editor::clipboard::{copy_selection, cut_selection, paste_over};
use dr_md::editor::renderer::CursorRange;
use dr_md::editor::{EditBuffer, Editor};

#[test]
fn test_format_selection_comment() {
    let mut editor = Editor::new();
    editor.buffer = EditBuffer::from_str("hello world");

    editor.selection.anchor = 0;
    editor.selection.head = 5;
    editor.format_selection("comment");
    assert_eq!(editor.buffer.to_string(), "<!-- hello --> world");

    editor.selection.anchor = 0;
    editor.selection.head = 14;
    editor.format_selection("comment");
    assert_eq!(editor.buffer.to_string(), "hello world");

    editor.selection.clear(0);
    editor.cursor.char_idx = 0;
    editor.format_selection("comment");
    assert_eq!(editor.buffer.to_string(), "<!--  -->hello world");
    assert_eq!(editor.cursor.char_idx, 5);
}

#[test]
fn test_format_selection_table() {
    let mut editor = Editor::new();
    editor.buffer = EditBuffer::from_str("MyHeader");

    editor.selection.anchor = 0;
    editor.selection.head = 8;
    editor.format_selection("table");
    assert_eq!(
        editor.buffer.to_string(),
        "| MyHeader | Header 2 |\n| -------- | -------- |\n| Cell 1   | Cell 2   |"
    );

    let mut editor2 = Editor::new();
    editor2.buffer = EditBuffer::from_str("");
    editor2.cursor.char_idx = 0;
    editor2.selection.clear(0);
    editor2.format_selection("table");
    assert_eq!(
        editor2.buffer.to_string(),
        "| Header 1 | Header 2 |\n| -------- | -------- |\n| Cell 1   | Cell 2   |"
    );
    assert_eq!(editor2.cursor.char_idx, 2);

    let mut editor3 = Editor::new();
    editor3.buffer = EditBuffer::from_str("");
    editor3.cursor.char_idx = 0;
    editor3.selection.clear(0);
    editor3.format_table(3, 2, "");
    assert_eq!(
        editor3.buffer.to_string(),
        "| Header 1 | Header 2 | Header 3 |\n| -------- | -------- | -------- |\n| Cell 1.1 | Cell 1.2 | Cell 1.3 |\n| Cell 2.1 | Cell 2.2 | Cell 2.3 |"
    );
    assert_eq!(editor3.cursor.char_idx, 2);
}

fn editor_with(text: &str, anchor: usize, head: usize) -> Editor {
    let mut e = Editor::new();
    e.set_text(text);
    e.selection.anchor = anchor;
    e.selection.head = head;
    e.cursor.char_idx = head;
    e
}

#[test]
fn formats_wrap_selection() {
    let cases = [
        ("bold", "**b**"),
        ("italic", "*b*"),
        ("code", "`b`"),
        ("link", "[b](url)"),
        ("checkbox", "- [ ] b"),
        ("numbered_list", "1. b"),
        ("bulleted_list", "- b"),
        ("indent", "> b"),
        ("unknown", "b"),
    ];
    for (kind, expected) in cases {
        let mut e = editor_with("abc", 1, 2);
        e.format_selection(kind);
        assert_eq!(e.buffer.to_string(), format!("a{}c", expected), "{}", kind);
        assert_eq!(e.cursor.char_idx, 1 + expected.chars().count());
    }
}

#[test]
fn multi_line_formats_work_per_line() {
    let mut e = editor_with("x\r\n\n y\n- [ ] z\n", 0, 15);
    e.format_selection("checkbox");
    assert_eq!(e.buffer.to_string(), "- [ ] x\n\n- [ ]  y\n- [ ] z");

    let mut e = editor_with("one\n\ntwo\nthree", 0, 14);
    e.format_selection("numbered_list");
    assert_eq!(e.buffer.to_string(), "1. one\n\n2. two\n3. three");

    let mut e = editor_with("a\nb", 0, 3);
    e.format_selection("code");
    assert_eq!(e.buffer.to_string(), "```\na\nb\n```");
}

#[test]
fn placeholders_and_offsets() {
    let mut e = editor_with("", 0, 0);
    e.format_selection("bold");
    assert_eq!(e.buffer.to_string(), "****");
    assert_eq!(e.cursor.char_idx, 2);
    let mut e = editor_with("", 0, 0);
    e.format_selection("checkbox");
    assert_eq!(e.buffer.to_string(), "- [ ] ");
    assert_eq!(e.cursor.char_idx, 6);
}

#[test]
fn degenerate_comment_is_refused_by_try() {
    let mut e = editor_with("<!-- -->", 0, 8);
    assert!(!e.can_format_selection("comment"));
    assert!(!e.try_format_selection("comment"));
    assert_eq!(e.buffer.to_string(), "<!-- -->");
    assert!(e.try_format_selection("bold"));
    assert_eq!(e.buffer.to_string(), "**<!-- -->**");
}

#[test]
fn insert_and_delete_with_undo() {
    let mut e = Editor::new();
    e.set_text("hello");
    e.cursor.char_idx = 5;
    e.selection.clear(5);
    e.insert_text(" world");
    assert_eq!(e.buffer.to_string(), "hello world");
    assert_eq!(e.cursor.char_idx, 11);
    e.delete_backward();
    assert_eq!(e.buffer.to_string(), "hello worl");
    e.undo();
    assert_eq!(e.buffer.to_string(), "hello world");
    e.undo();
    assert_eq!(e.buffer.to_string(), "hello");
    assert_eq!(e.cursor.char_idx, 5);
    e.redo();
    assert_eq!(e.buffer.to_string(), "hello world");
    e.cursor.char_idx = 0;
    e.selection.clear(0);
    e.delete_forward();
    assert_eq!(e.buffer.to_string(), "ello world");
    assert!(e.is_dirty);
}

#[test]
fn insert_replaces_selection() {
    let mut e = editor_with("hello world", 6, 11);
    e.insert_text("there");
    assert_eq!(e.buffer.to_string(), "hello there");
    assert_eq!(e.cursor.char_idx, 11);
}

#[test]
fn sync_text_groups_typing() {
    let mut e = Editor::new();
    e.set_text("");
    let v = e.version;
    e.sync_text("a");
    e.sync_text("ab");
    assert_eq!(e.version, v + 2);
    e.sync_text("ab");
    assert_eq!(e.version, v + 2);
    e.undo();
    assert_eq!(e.buffer.to_string(), "");
}

#[test]
fn load_file_resets_state() {
    let mut e = editor_with("x", 0, 1);
    e.insert_text("y");
    e.load_file("/tmp/n.md".to_string(), "content");
    assert_eq!(e.buffer.to_string(), "content");
    assert_eq!(e.active_path.as_deref(), Some("/tmp/n.md"));
    assert!(!e.is_dirty);
    e.undo();
    assert_eq!(e.buffer.to_string(), "content");
}

#[test]
fn cut_copy_and_paste() {
    let mut editor = Editor::new();
    editor.buffer = EditBuffer::from_str("hello world");
    let mut content = String::new();
    let sel = CursorRange { primary: 5, secondary: 0 };
    assert_eq!(copy_selection(&editor, sel), Some("hello".to_string()));
    assert_eq!(copy_selection(&editor, CursorRange::two(3, 3)), None);

    let cut = cut_selection(&mut editor, &mut content, sel);
    assert_eq!(cut, Some(("hello".to_string(), CursorRange::two(0, 0))));
    assert_eq!(editor.buffer.to_string(), " world");
    assert_eq!(content, " world");
    assert_eq!(editor.cursor.char_idx, 0);
    assert!(editor.is_dirty);
    assert_eq!(editor.version, 0);

    let r = paste_over(&mut editor, &mut content, CursorRange { primary: 6, secondary: 1 }, "üh");
    assert_eq!(editor.buffer.to_string(), " üh");
    assert_eq!(content, " üh");
    assert_eq!(r, CursorRange::two(3, 3));
    assert_eq!(editor.cursor.char_idx, 3);
    assert_eq!(editor.selection.anchor, 3);
}

#[test]
fn pasting_what_was_cut_restores_the_text() {
    let mut editor = Editor::new();
    editor.buffer = EditBuffer::from_str("one two three");
    let mut content = String::new();
    let (text, caret) = cut_selection(&mut editor, &mut content, CursorRange::two(4, 8)).unwrap();
    assert_eq!(text, "two ");
    assert_eq!(editor.buffer.to_string(), "one three");
    paste_over(&mut editor, &mut content, caret, &text);
    assert_eq!(editor.buffer.to_string(), "one two three");
}

#[test]
fn an_insert_reads_back_and_its_removal_restores() {
    let mut buffer = EditBuffer::from_str("héllo world");
    buffer.insert(5, "ünïcode ");
    assert_eq!(buffer.slice_to_string(5, 13), "ünïcode ");
    assert_eq!(buffer.to_string(), "hélloünïcode  world");
    buffer.remove(5, 13);
    assert_eq!(buffer.to_string(), "héllo world");
    buffer.insert(99, "x");
    assert_eq!(buffer.to_string(), "héllo world");
}

#[test]
fn saving_keeps_cursor_selection_and_history() {
    let mut editor = Editor::new();
    editor.set_text("abc");
    editor.selection.anchor = 1;
    editor.selection.head = 3;
    editor.cursor.char_idx = 3;
    editor.insert_text("X");
    let cursor = editor.cursor;
    let selection = editor.selection;
    editor.mark_saved();
    assert!(!editor.is_dirty);
    assert_eq!(editor.cursor, cursor);
    assert_eq!(editor.selection, selection);
    editor.mark_saved_as("/v/new.md".to_string());
    assert_eq!(editor.active_path, Some("/v/new.md".to_string()));
    assert_eq!(editor.cursor, cursor);
    editor.undo();
    assert_eq!(editor.buffer.to_string(), "abc");
}
