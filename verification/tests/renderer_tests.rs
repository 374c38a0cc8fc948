use dr_md::editor::renderer::{CursorRange, EditorRenderer};
use dr_md::editor::{EditBuffer, Editor};

#[test]
fn test_process_autoclosing_pairs() {
    let pairs = [
        ("{}", "{\n\n}"),
        ("()", "(\n\n)"),
        ("[]", "[\n\n]"),
        ("\"\"", "\"\n\n\""),
        ("''", "'\n\n'"),
        ("``", "`\n\n`"),
    ];

    for (input_pair, expected_output) in pairs {
        let mut renderer = EditorRenderer::new();
        // The pair with the cursor between them (index 1) in the previous frame.
        renderer.content_buffer = input_pair.to_string();
        renderer.previous_text = input_pair.to_string();
        renderer.previous_cursor = Some(CursorRange::two(1, 1));

        // Enter typed: the text becomes "{left}\n{right}" and the cursor is at 2.
        let left_char = input_pair.chars().next().unwrap();
        let right_char = input_pair.chars().nth(1).unwrap();
        renderer.content_buffer = format!("{}\n{}", left_char, right_char);

        let changed = renderer.process_autoclosing(Some(CursorRange::two(2, 2)), true);

        assert!(changed.is_some(), "Failed for pair: {}", input_pair);
        assert_eq!(
            renderer.content_buffer, expected_output,
            "Incorrect content buffer for pair: {}",
            input_pair
        );

        // The cursor range handed back to the text widget.
        let updated_range = changed.unwrap();
        assert_eq!(
            updated_range.primary, 2,
            "Incorrect primary cursor index for pair: {}",
            input_pair
        );
        assert_eq!(
            updated_range.secondary, 2,
            "Incorrect secondary cursor index for pair: {}",
            input_pair
        );
    }
}

#[test]
fn test_find_in_file_string_and_regex() {
    let mut renderer = EditorRenderer::new();
    renderer.content_buffer =
        "Hello world! This is a test file for search. Hello again!".to_string();

    // 1. Literal string search, case insensitive (default)
    renderer.find_query = "hello".to_string();
    renderer.case_sensitive = false;
    renderer.use_regex = false;
    renderer.update_find_matches();
    assert_eq!(renderer.matches.len(), 2);
    assert_eq!(renderer.matches[0], 0..5);
    assert_eq!(renderer.matches[1], 45..50);
    assert_eq!(renderer.active_match_index, Some(0));

    // 2. Literal string search, case sensitive
    renderer.find_query = "Hello".to_string();
    renderer.case_sensitive = true;
    renderer.update_find_matches();
    assert_eq!(renderer.matches.len(), 2);
    assert_eq!(renderer.matches[0], 0..5);
    assert_eq!(renderer.matches[1], 45..50);
    assert_eq!(renderer.active_match_index, Some(0));

    // 3. Regex search, case insensitive
    renderer.find_query = "th.s".to_string();
    renderer.case_sensitive = false;
    renderer.use_regex = true;
    renderer.update_find_matches();
    assert_eq!(renderer.matches.len(), 1);
    assert_eq!(renderer.matches[0], 13..17);
    assert_eq!(renderer.active_match_index, Some(0));

    // 4. Regex search, case sensitive
    renderer.case_sensitive = true;
    renderer.update_find_matches();
    assert_eq!(renderer.matches.len(), 0);
    assert_eq!(renderer.active_match_index, None);

    // 5. Navigate matches
    renderer.find_query = "world".to_string();
    renderer.case_sensitive = true;
    renderer.use_regex = false;
    renderer.update_find_matches();
    assert_eq!(renderer.matches.len(), 1);

    renderer.find_query = "Hello".to_string();
    renderer.case_sensitive = false;
    renderer.update_find_matches();
    assert_eq!(renderer.matches.len(), 2);
    assert_eq!(renderer.active_match_index, Some(0));

    let mut editor = Editor::new();
    editor.buffer = EditBuffer::from_str(&renderer.content_buffer);

    renderer.navigate_match(true, &mut editor);
    assert_eq!(renderer.active_match_index, Some(1));
    assert_eq!(editor.selection.anchor, 45);
    assert_eq!(editor.selection.head, 50);

    renderer.navigate_match(true, &mut editor);
    assert_eq!(renderer.active_match_index, Some(0));
    assert_eq!(editor.selection.anchor, 0);
    assert_eq!(editor.selection.head, 5);

    renderer.navigate_match(false, &mut editor);
    assert_eq!(renderer.active_match_index, Some(1));
    assert_eq!(editor.selection.anchor, 45);
    assert_eq!(editor.selection.head, 50);

    // 6. Replace current match
    renderer.replace_query = "Hi".to_string();
    renderer.replace_current(&mut editor);
    assert_eq!(
        renderer.content_buffer,
        "Hello world! This is a test file for search. Hi again!"
    );
    assert_eq!(renderer.matches.len(), 1);
    assert_eq!(renderer.matches[0], 0..5);

    // 7. Replace all matches
    renderer.find_query = "a".to_string();
    renderer.replace_query = "x".to_string();
    renderer.case_sensitive = true;
    renderer.use_regex = false;
    renderer.update_find_matches();
    renderer.replace_all(&mut editor);
    assert_eq!(
        renderer.content_buffer,
        "Hello world! This is x test file for sexrch. Hi xgxin!"
    );
}

#[test]
fn search_counts_characters_not_bytes() {
    let mut renderer = EditorRenderer::new();
    renderer.content_buffer = "héllo wörld héllo".to_string();
    renderer.find_query = "héllo".to_string();
    renderer.case_sensitive = true;
    renderer.update_find_matches();
    assert_eq!(renderer.matches, vec![0..5, 12..17]);
}

#[test]
fn case_insensitive_search_lowercases_both_texts() {
    let mut renderer = EditorRenderer::new();
    renderer.content_buffer = "ABC abc AbC".to_string();
    renderer.find_query = "aBc".to_string();
    renderer.update_find_matches();
    assert_eq!(renderer.matches, vec![0..3, 4..7, 8..11]);
    renderer.case_sensitive = true;
    renderer.update_find_matches();
    assert!(renderer.matches.is_empty());
}

#[test]
fn literal_matches_do_not_overlap() {
    let mut renderer = EditorRenderer::new();
    renderer.content_buffer = "aaaa".to_string();
    renderer.find_query = "aa".to_string();
    renderer.case_sensitive = true;
    renderer.update_find_matches();
    assert_eq!(renderer.matches, vec![0..2, 2..4]);
}

#[test]
fn empty_query_finds_nothing() {
    let mut renderer = EditorRenderer::new();
    renderer.content_buffer = "text".to_string();
    renderer.active_match_index = Some(3);
    renderer.update_find_matches();
    assert!(renderer.matches.is_empty());
    assert_eq!(renderer.active_match_index, None);
}

#[test]
fn invalid_regex_finds_nothing() {
    let mut renderer = EditorRenderer::new();
    renderer.content_buffer = "a(b".to_string();
    renderer.find_query = "(".to_string();
    renderer.use_regex = true;
    renderer.update_find_matches();
    assert!(renderer.matches.is_empty());
}

#[test]
fn regex_empty_matches_are_skipped_but_kept_in_text_search() {
    let mut renderer = EditorRenderer::new();
    renderer.content_buffer = "ab".to_string();
    renderer.find_query = "x*".to_string();
    renderer.use_regex = true;
    renderer.update_find_matches();
    assert!(renderer.matches.is_empty());
    assert_eq!(renderer.find_matches_in_text("ab"), vec![0..0, 1..1, 2..2]);
}

#[test]
fn active_match_survives_when_still_present() {
    let mut renderer = EditorRenderer::new();
    renderer.content_buffer = "x x x".to_string();
    renderer.find_query = "x".to_string();
    renderer.active_match_index = Some(2);
    renderer.update_find_matches();
    assert_eq!(renderer.active_match_index, Some(2));
    renderer.active_match_index = Some(7);
    renderer.update_find_matches();
    assert_eq!(renderer.active_match_index, Some(0));
}

#[test]
fn regex_replace_expands_groups() {
    let mut renderer = EditorRenderer::new();
    renderer.content_buffer = "name: Ada, name: Bob".to_string();
    renderer.find_query = r"name: (\w+)".to_string();
    renderer.replace_query = "[$1]".to_string();
    renderer.use_regex = true;
    renderer.case_sensitive = true;
    renderer.update_find_matches();
    assert_eq!(renderer.matches, vec![0..9, 11..20]);
    let mut editor = Editor::new();
    editor.buffer = EditBuffer::from_str(&renderer.content_buffer);
    let shown = renderer.replace_current(&mut editor);
    assert_eq!(renderer.content_buffer, "[Ada], name: Bob");
    assert_eq!(editor.buffer.to_string(), "[Ada], name: Bob");
    assert_eq!(renderer.matches, vec![7..16]);
    assert_eq!(renderer.active_match_index, Some(0));
    assert_eq!(shown, Some(CursorRange { primary: 16, secondary: 7 }));

    renderer.replace_all(&mut editor);
    assert_eq!(renderer.content_buffer, "[Ada], [Bob]");
    assert_eq!(editor.buffer.to_string(), "[Ada], [Bob]");
    assert!(renderer.matches.is_empty());
    assert_eq!(renderer.active_match_index, None);
}

#[test]
fn replace_last_match_leaves_caret_after_replacement() {
    let mut renderer = EditorRenderer::new();
    renderer.content_buffer = "one two".to_string();
    renderer.find_query = "two".to_string();
    renderer.replace_query = "2".to_string();
    renderer.update_find_matches();
    let mut editor = Editor::new();
    editor.buffer = EditBuffer::from_str(&renderer.content_buffer);
    let shown = renderer.replace_current(&mut editor);
    assert_eq!(renderer.content_buffer, "one 2");
    assert_eq!(shown, Some(CursorRange { primary: 5, secondary: 5 }));
    assert_eq!(editor.cursor.char_idx, 5);
    assert_eq!(renderer.active_match_index, None);
    assert!(editor.is_dirty);
}

#[test]
fn replace_without_active_match_does_nothing() {
    let mut renderer = EditorRenderer::new();
    renderer.content_buffer = "one".to_string();
    let mut editor = Editor::new();
    assert_eq!(renderer.replace_current(&mut editor), None);
    renderer.replace_all(&mut editor);
    assert_eq!(renderer.content_buffer, "one");
    assert_eq!(editor.version, 0);
}

#[test]
fn navigate_without_matches_does_nothing() {
    let mut renderer = EditorRenderer::new();
    let mut editor = Editor::new();
    assert_eq!(renderer.navigate_match(true, &mut editor), None);
    assert_eq!(editor.version, 0);
}

#[test]
fn typing_over_selection_wraps_it() {
    let mut renderer = EditorRenderer::new();
    renderer.previous_text = "say hi now".to_string();
    renderer.previous_cursor = Some(CursorRange { primary: 6, secondary: 4 });
    // The widget replaced "hi" by the typed '('.
    renderer.content_buffer = "say ( now".to_string();
    let changed = renderer.process_autoclosing(Some(CursorRange::two(5, 5)), true);
    assert_eq!(renderer.content_buffer, "say (hi) now");
    assert_eq!(changed, Some(CursorRange::two(8, 8)));
    assert_eq!(renderer.previous_text, "say (hi) now");
    assert_eq!(renderer.previous_cursor, changed);
}

#[test]
fn typing_an_opening_bracket_adds_the_closing_one() {
    let mut renderer = EditorRenderer::new();
    renderer.previous_text = "ab".to_string();
    renderer.previous_cursor = Some(CursorRange::two(1, 1));
    renderer.content_buffer = "a[b".to_string();
    let changed = renderer.process_autoclosing(Some(CursorRange::two(2, 2)), true);
    assert_eq!(renderer.content_buffer, "a[]b");
    assert_eq!(changed, Some(CursorRange::two(2, 2)));
}

#[test]
fn typing_a_closer_before_the_same_closer_steps_over_it() {
    let mut renderer = EditorRenderer::new();
    renderer.previous_text = "()".to_string();
    renderer.previous_cursor = Some(CursorRange::two(1, 1));
    renderer.content_buffer = "())".to_string();
    let changed = renderer.process_autoclosing(Some(CursorRange::two(2, 2)), true);
    assert_eq!(renderer.content_buffer, "()");
    assert_eq!(changed, Some(CursorRange::two(2, 2)));
}

#[test]
fn deleting_an_opener_deletes_its_closer() {
    let mut renderer = EditorRenderer::new();
    renderer.previous_text = "x()".to_string();
    renderer.previous_cursor = Some(CursorRange::two(2, 2));
    renderer.content_buffer = "x)".to_string();
    let changed = renderer.process_autoclosing(Some(CursorRange::two(1, 1)), true);
    assert_eq!(renderer.content_buffer, "x");
    assert_eq!(changed, Some(CursorRange::two(1, 1)));
}

#[test]
fn without_a_change_only_the_frame_is_remembered() {
    let mut renderer = EditorRenderer::new();
    renderer.content_buffer = "a(".to_string();
    renderer.previous_text = "a".to_string();
    renderer.previous_cursor = Some(CursorRange::two(1, 1));
    let changed = renderer.process_autoclosing(Some(CursorRange::two(2, 2)), false);
    assert_eq!(changed, None);
    assert_eq!(renderer.content_buffer, "a(");
    assert_eq!(renderer.previous_text, "a(");
    assert_eq!(renderer.previous_cursor, Some(CursorRange::two(2, 2)));
}

#[test]
fn tab_inserts_spaces_at_the_cursor() {
    let mut renderer = EditorRenderer::new();
    renderer.content_buffer = "ab".to_string();
    let r = renderer.handle_tab_key(Some(CursorRange::two(1, 1)), true, false, 4);
    assert_eq!(renderer.content_buffer, "a    b");
    assert_eq!(r, Some(CursorRange::two(5, 5)));
}

#[test]
fn shift_tab_unindents_the_cursor_line() {
    let mut renderer = EditorRenderer::new();
    renderer.content_buffer = "x\n      y".to_string();
    let r = renderer.handle_tab_key(Some(CursorRange::two(8, 8)), false, true, 4);
    assert_eq!(renderer.content_buffer, "x\n  y");
    assert_eq!(r, Some(CursorRange::two(4, 4)));
}

#[test]
fn tab_indents_every_selected_line() {
    let mut renderer = EditorRenderer::new();
    renderer.content_buffer = "one\ntwo\nthree".to_string();
    // Selection from inside "one" to inside "two", cursor at the end.
    let r = renderer.handle_tab_key(Some(CursorRange { primary: 6, secondary: 1 }), true, false, 2);
    assert_eq!(renderer.content_buffer, "  one\n  two\nthree");
    assert_eq!(r, Some(CursorRange { primary: 10, secondary: 3 }));
}

#[test]
fn shift_tab_unindents_every_selected_line() {
    let mut renderer = EditorRenderer::new();
    renderer.content_buffer = "  one\n  two\nthree".to_string();
    let r = renderer.handle_tab_key(Some(CursorRange { primary: 3, secondary: 10 }), false, true, 2);
    assert_eq!(renderer.content_buffer, "one\ntwo\nthree");
    assert_eq!(r, Some(CursorRange { primary: 1, secondary: 6 }));
}

#[test]
fn no_tab_key_does_nothing() {
    let mut renderer = EditorRenderer::new();
    renderer.content_buffer = "ab".to_string();
    assert_eq!(renderer.handle_tab_key(Some(CursorRange::two(1, 1)), false, false, 4), None);
    assert_eq!(renderer.handle_tab_key(None, true, false, 4), None);
    assert_eq!(renderer.content_buffer, "ab");
}

#[test]
fn sync_between_widget_and_editor() {
    let mut editor = Editor::new();
    editor.set_text("hello");
    let mut renderer = EditorRenderer::new();
    let shown = renderer.sync_from_editor(&editor);
    assert_eq!(shown, Some(CursorRange::two(0, 0)));
    assert_eq!(renderer.content_buffer, "hello");
    assert_eq!(renderer.last_version, editor.version);
    assert_eq!(renderer.sync_from_editor(&editor), None);

    renderer.content_buffer = "hello!".to_string();
    renderer.sync_to_editor(&mut editor, Some(CursorRange { primary: 6, secondary: 2 }));
    assert_eq!(editor.buffer.to_string(), "hello!");
    assert_eq!(editor.cursor.char_idx, 6);
    assert_eq!(editor.selection.anchor, 2);
    assert_eq!(editor.selection.head, 6);
    assert_eq!(renderer.last_version, editor.version);
}

#[test]
fn shift_tab_undoes_tab_at_line_start() {
    let mut renderer = EditorRenderer::new();
    renderer.content_buffer = "a\nb".to_string();
    let r = renderer.handle_tab_key(Some(CursorRange::two(2, 2)), true, false, 4);
    assert_eq!(renderer.content_buffer, "a\n    b");
    let r = renderer.handle_tab_key(r, false, true, 4);
    assert_eq!(renderer.content_buffer, "a\nb");
    assert_eq!(r, Some(CursorRange::two(2, 2)));
}

#[test]
fn shift_tab_undoes_tab_on_a_selection() {
    let original = " one\ntwo\n  three\nfour";
    for (primary, secondary) in [(2usize, 12usize), (12, 2), (5, 9)] {
        let mut renderer = EditorRenderer::new();
        renderer.content_buffer = original.to_string();
        let r = renderer.handle_tab_key(Some(CursorRange { primary, secondary }), true, false, 3);
        assert_ne!(renderer.content_buffer, original);
        let r = renderer.handle_tab_key(r, false, true, 3);
        assert_eq!(renderer.content_buffer, original);
        assert_eq!(r, Some(CursorRange { primary, secondary }));
    }
}

#[test]
fn tab_key_fits_checks_the_moved_positions() {
    let mut renderer = EditorRenderer::new();
    renderer.content_buffer = "a\nb\nc".to_string();
    assert!(renderer.tab_key_fits(CursorRange::two(1, 1), true, 4));
    assert!(!renderer.tab_key_fits(CursorRange::two(usize::MAX, usize::MAX), true, 4));
    assert!(renderer.tab_key_fits(CursorRange::two(usize::MAX, usize::MAX), false, 4));
    let half = usize::MAX / 2;
    assert!(renderer.tab_key_fits(CursorRange { primary: 1, secondary: 0 }, true, half));
    assert!(!renderer.tab_key_fits(CursorRange { primary: 5, secondary: 0 }, true, half));
}
