use dr_md::config::{CursorStyle, FileState, ThemeAccent, ViewMode};
use dr_md::keymap::{shortcut_for, ShortcutAction, ShortcutKey};
use dr_md::keymap::ShortcutKey::{ArrowLeft, Tab, F11, N, R, S, Z};
use dr_md::workspace::Vault;
use std::path::PathBuf;

#[test]
fn accents_have_names_and_colours() {
    let all = ThemeAccent::all();
    assert_eq!(all.len(), 8);
    assert_eq!(all[0], ThemeAccent::Blue);
    assert_eq!(all[7], ThemeAccent::Yellow);
    assert_eq!(ThemeAccent::Blue.name(), "Blue");
    assert_eq!(ThemeAccent::Teal.name(), "Teal");
    assert_eq!(ThemeAccent::Blue.color(), (29, 78, 216));
    assert_eq!(ThemeAccent::Yellow.color(), (161, 98, 7));
    let names: Vec<&str> = all.iter().map(|a| a.name()).collect();
    for (i, n) in names.iter().enumerate() {
        assert!(!names[i + 1..].contains(n));
    }
}

#[test]
fn settings_defaults() {
    assert_eq!(ThemeAccent::default(), ThemeAccent::Blue);
    assert_eq!(CursorStyle::default(), CursorStyle::IBeam);
    assert_eq!(ViewMode::default(), ViewMode::Split);
    let fs = FileState::default();
    assert!(fs.last_open_tabs.is_empty());
    assert_eq!(fs.last_active_tab, None);
}

#[test]
fn vault_keeps_root_and_forgets_active_file() {
    let mut v = Vault::new(Some(PathBuf::from("/notes")));
    assert_eq!(v.root_path, Some(PathBuf::from("/notes")));
    assert_eq!(v.active_file, None);
    v.active_file = Some(PathBuf::from("/notes/a.md"));
    v.set_root(PathBuf::from("/other"));
    assert_eq!(v.root_path, Some(PathBuf::from("/other")));
    assert_eq!(v.active_file, None);
}

#[test]
fn shortcuts_pick_the_first_matching_binding() {
    assert_eq!(shortcut_for(true, false, false, &[S]), Some((ShortcutAction::Save, S)));
    assert_eq!(shortcut_for(true, true, false, &[S]), Some((ShortcutAction::SaveAs, S)));
    assert_eq!(shortcut_for(true, true, false, &[Z]), Some((ShortcutAction::Redo, Z)));
    assert_eq!(shortcut_for(true, false, false, &[Z]), Some((ShortcutAction::Undo, Z)));
    assert_eq!(shortcut_for(true, false, false, &[R]), Some((ShortcutAction::Redo, R)));
    assert_eq!(shortcut_for(false, false, true, &[ArrowLeft]), Some((ShortcutAction::Back, ArrowLeft)));
    assert_eq!(shortcut_for(false, false, false, &[F11]), Some((ShortcutAction::ToggleFocusMode, F11)));
    assert_eq!(shortcut_for(true, false, true, &[S]), None);
    assert_eq!(shortcut_for(false, false, false, &[S]), None);
    // Bindings are tried in order: New Folder comes before Save As.
    assert_eq!(shortcut_for(true, true, false, &[S, N]), Some((ShortcutAction::NewFolder, N)));
}

#[test]
fn ctrl_tab_moves_between_tabs() {
    assert_eq!(shortcut_for(true, false, false, &[Tab, S]), Some((ShortcutAction::NextTab, Tab)));
    assert_eq!(shortcut_for(true, true, true, &[Tab]), Some((ShortcutAction::PrevTab, Tab)));
    assert_eq!(shortcut_for(false, false, false, &[Tab]), None);
}
