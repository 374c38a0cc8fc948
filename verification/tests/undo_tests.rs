use dr_md::editor::undo::{find_char_difference, EditType, UndoStack};

#[test]
fn test_find_char_difference() {
    assert_eq!(find_char_difference("hello", "hello"), None);
    assert_eq!(
        find_char_difference("hello", "hello world"),
        Some((EditType::Insert, 5, "".to_string(), " world".to_string()))
    );
    assert_eq!(
        find_char_difference("hello world", "hello"),
        Some((EditType::Delete, 5, " world".to_string(), "".to_string()))
    );
    assert_eq!(
        find_char_difference("hello", "hella"),
        Some((EditType::Replace, 4, "o".to_string(), "a".to_string()))
    );
}

#[test]
fn test_undo_stack_word_by_word() {
    let mut stack = UndoStack::new();

    stack.push_change("".to_string(), "h");
    stack.push_change("h".to_string(), "he");
    stack.push_change("he".to_string(), "hel");
    stack.push_change("hel".to_string(), "hell");
    stack.push_change("hell".to_string(), "hello");

    stack.push_change("hello".to_string(), "hello ");

    stack.push_change("hello ".to_string(), "hello w");
    stack.push_change("hello w".to_string(), "hello wo");
    stack.push_change("hello wo".to_string(), "hello wor");
    stack.push_change("hello wor".to_string(), "hello worl");
    stack.push_change("hello worl".to_string(), "hello world");

    let u1 = stack.undo("hello world".to_string());
    assert_eq!(u1, Some("hello ".to_string()));

    let u2 = stack.undo("hello ".to_string());
    assert_eq!(u2, Some("hello".to_string()));

    let u3 = stack.undo("hello".to_string());
    assert_eq!(u3, Some("".to_string()));
}

#[test]
fn difference_of_multibyte_text_counts_characters() {
    assert_eq!(
        find_char_difference("héllo", "héllo wörld"),
        Some((EditType::Insert, 5, "".to_string(), " wörld".to_string()))
    );
    assert_eq!(
        find_char_difference("aXb", "aYYb"),
        Some((EditType::Replace, 1, "X".to_string(), "YY".to_string()))
    );
}

#[test]
fn difference_rebuilds_new_text() {
    let old = "the quick brown fox";
    let new = "the quack brown box";
    let (_, p, del, ins) = find_char_difference(old, new).unwrap();
    let old_chars: Vec<char> = old.chars().collect();
    let mut rebuilt: String = old_chars[..p].iter().collect();
    rebuilt.push_str(&ins);
    let rest: String = old_chars[p + del.chars().count()..].iter().collect();
    rebuilt.push_str(&rest);
    assert_eq!(rebuilt, new);
}

#[test]
fn undo_then_redo_round_trips() {
    let mut stack = UndoStack::new();
    stack.push("first".to_string());
    let restored = stack.undo("second".to_string());
    assert_eq!(restored, Some("first".to_string()));
    let back = stack.redo("first".to_string());
    assert_eq!(back, Some("second".to_string()));
    assert_eq!(stack.redo("second".to_string()), None);
    assert_eq!(stack.undo("second".to_string()), Some("first".to_string()));
}

#[test]
fn undo_on_empty_history_is_none() {
    let mut stack = UndoStack::new();
    assert_eq!(stack.undo("x".to_string()), None);
    assert_eq!(stack.redo("x".to_string()), None);
}

#[test]
fn push_of_same_text_is_recorded_once_and_clears_redo() {
    let mut stack = UndoStack::new();
    stack.push("a".to_string());
    stack.push("a".to_string());
    assert_eq!(stack.undo("b".to_string()), Some("a".to_string()));
    assert_eq!(stack.undo("a".to_string()), None);
    stack.push("c".to_string());
    assert_eq!(stack.redo("c".to_string()), None);
}

#[test]
fn deleting_a_word_groups_into_one_step() {
    let mut stack = UndoStack::new();
    stack.push_change("hello".to_string(), "hell");
    stack.push_change("hell".to_string(), "hel");
    stack.push_change("hel".to_string(), "he");
    assert_eq!(stack.undo("he".to_string()), Some("hello".to_string()));
    assert_eq!(stack.undo("hello".to_string()), None);
}

#[test]
fn clear_forgets_history() {
    let mut stack = UndoStack::new();
    stack.push("a".to_string());
    stack.clear();
    assert_eq!(stack.undo("b".to_string()), None);
}
