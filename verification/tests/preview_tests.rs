use dr_md::editor::renderer::EditorRenderer;
use dr_md::editor::Editor;
use dr_md::markdown::preview::{checkbox_write_back, PreviewText};

#[test]
fn ticking_a_box_writes_back_to_the_document() {
    let content = "# Tasks\n- [ ] milk\n- [ ] eggs";
    let before = "# Tasks\n- [ ] milk\n- [ ] eggs";
    let after = "# Tasks\n- [x] milk\n- [ ] eggs";
    assert_eq!(
        checkbox_write_back(content, before, after),
        Some("# Tasks\n- [x] milk\n- [ ] eggs".to_string())
    );
}

#[test]
fn unticking_a_star_box_writes_back() {
    let content = "  * [x] done [[link]]";
    let before = "  * [x] done [link](link.md)";
    let after = "  * [ ] done [link](link.md)";
    assert_eq!(
        checkbox_write_back(content, before, after),
        Some("  * [ ] done [[link]]".to_string())
    );
}

#[test]
fn other_line_changes_are_not_written_back() {
    let content = "- [ ] a\nplain";
    let before = "- [ ] a\nplain";
    let after = "- [ ] a\nchanged";
    assert_eq!(
        checkbox_write_back(content, before, after),
        Some("- [ ] a\nplain".to_string())
    );
}

#[test]
fn different_line_counts_are_not_written_back() {
    assert_eq!(checkbox_write_back("a\nb", "a", "b"), None);
}

#[test]
fn preview_refreshes_and_writes_back_through_the_editor() {
    let mut editor = Editor::new();
    editor.set_text("- [ ] [[todo]]");
    let mut preview = PreviewText::new();
    assert!(preview.refresh(false, &editor));
    assert_eq!(preview.processed_content, "- [ ] [todo](todo.md)");
    assert!(!preview.refresh(false, &editor));
    assert!(preview.refresh(true, &editor));

    let before = preview.processed_content.clone();
    let after = "- [x] [todo](todo.md)".to_string();
    preview.apply_checkbox_changes(&before, &after, &mut editor);
    assert_eq!(preview.cached_content, "- [x] [[todo]]");
    assert_eq!(editor.buffer.to_string(), "- [x] [[todo]]");
    assert_eq!(preview.processed_content, "- [x] [todo](todo.md)");
    assert_eq!(preview.last_version, editor.version);
}

#[test]
fn test_preview_search_highlighting() {
    let mut preview = PreviewText::new();
    let mut editor = Editor::new();
    let mut renderer = EditorRenderer::new();

    editor.set_text("Hello world! This is a test file with Hello keywords.");
    renderer.content_buffer = editor.buffer.to_string();
    renderer.find_visible = true;
    renderer.find_query = "Hello".to_string();
    renderer.update_find_matches();

    // The preview takes in the text the matches were found in.
    assert!(preview.refresh(false, &editor));
    assert_eq!(preview.cached_content, renderer.content_buffer);
    assert_eq!(renderer.matches.len(), 2);
    assert_eq!(renderer.matches[0], 0..5);
    assert_eq!(renderer.matches[1], 38..43);
}
