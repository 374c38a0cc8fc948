use dr_md::app::state::{
    active_after_swap, autosave_plan, cycled_tab, focus_after_close, restored_active, session_state, AutosavePlan,
    EditTimer, FocusAfterClose,
};
use dr_md::config::ViewMode;
use dr_md::explorer::{
    compare_entries, entry_listed, is_hidden, is_removed_with, marquee_step, MarqueeStep, numbered_file_name, relocate_active, split_numbered_stem,
    EntryOrder,
};

fn parts(p: &str) -> Vec<String> {
    p.split('/').map(|s| s.to_string()).collect()
}

#[test]
fn numbered_names_continue_an_existing_number() {
    assert_eq!(split_numbered_stem("note"), ("note".to_string(), 1));
    assert_eq!(split_numbered_stem("note_3"), ("note".to_string(), 4));
    assert_eq!(split_numbered_stem("my_note"), ("my_note".to_string(), 1));
    assert_eq!(split_numbered_stem("note_"), ("note_".to_string(), 1));
    assert_eq!(split_numbered_stem("a_1_07"), ("a_1".to_string(), 8));
    assert_eq!(
        split_numbered_stem("n_99999999999999999999999"),
        ("n_99999999999999999999999".to_string(), 1)
    );
    assert_eq!(numbered_file_name("note", 4, Some("md")), "note_4.md");
    assert_eq!(numbered_file_name("folder", 12, None), "folder_12");
}

#[test]
fn the_open_file_follows_a_move() {
    let active = parts("/v/a/b.md");
    assert_eq!(relocate_active(&active, &parts("/v/a/b.md"), &parts("/v/c/b.md")), Some(parts("/v/c/b.md")));
    assert_eq!(relocate_active(&active, &parts("/v/a"), &parts("/v/x/a_1")), Some(parts("/v/x/a_1/b.md")));
    assert_eq!(relocate_active(&active, &parts("/v/ab"), &parts("/v/x")), None);
    assert_eq!(relocate_active(&active, &parts("/v/a/b.md/c"), &parts("/v/x")), None);
}

#[test]
fn the_open_file_goes_with_a_deleted_folder() {
    let active = parts("/v/a/b.md");
    assert!(is_removed_with(&active, &parts("/v/a")));
    assert!(is_removed_with(&active, &parts("/v/a/b.md")));
    assert!(!is_removed_with(&active, &parts("/v/a/b")));
}

#[test]
fn closing_tabs_moves_the_focus() {
    assert_eq!(focus_after_close(Some(0), 0, 0), FocusAfterClose::NoTabs);
    assert_eq!(focus_after_close(Some(2), 2, 2), FocusAfterClose::SwitchTo(1));
    assert_eq!(focus_after_close(Some(1), 1, 3), FocusAfterClose::SwitchTo(1));
    assert_eq!(focus_after_close(Some(3), 1, 3), FocusAfterClose::Keep(Some(2)));
    assert_eq!(focus_after_close(Some(0), 1, 3), FocusAfterClose::Keep(Some(0)));
    assert_eq!(focus_after_close(None, 1, 3), FocusAfterClose::Keep(None));
}

#[test]
fn autosave_waits_for_the_text_to_settle() {
    // A new version restarts the timer.
    assert_eq!(
        autosave_plan(false, None, true, Some((true, 5)), 4, Some(true)),
        AutosavePlan { save_session: false, save_file: false, repaint: true, timer: EditTimer::Start, last_editor_version: 5 }
    );
    // The same version with the timer run out is saved.
    assert_eq!(
        autosave_plan(false, None, true, Some((true, 5)), 5, Some(true)),
        AutosavePlan { save_session: false, save_file: true, repaint: false, timer: EditTimer::Clear, last_editor_version: 5 }
    );
    // Still waiting.
    assert_eq!(
        autosave_plan(true, Some(false), true, Some((true, 5)), 5, Some(false)),
        AutosavePlan { save_session: false, save_file: false, repaint: true, timer: EditTimer::Keep, last_editor_version: 5 }
    );
    // Autosave off: nothing is saved, the version is noted.
    assert_eq!(
        autosave_plan(true, Some(true), false, Some((true, 7)), 5, Some(true)),
        AutosavePlan { save_session: true, save_file: false, repaint: false, timer: EditTimer::Clear, last_editor_version: 7 }
    );
    assert_eq!(
        autosave_plan(false, None, true, None, 5, None),
        AutosavePlan { save_session: false, save_file: false, repaint: false, timer: EditTimer::Clear, last_editor_version: 0 }
    );
}

#[test]
fn numbering_stops_at_the_largest_number() {
    assert!(dr_md::explorer::numbering_overflows("n_18446744073709551615"));
    assert!(!dr_md::explorer::numbering_overflows("n_18446744073709551614"));
    assert!(!dr_md::explorer::numbering_overflows("n"));
}

#[test]
fn opening_an_open_file_finds_its_tab() {
    let tabs = vec![parts("/v/a.md"), parts("/v/b.md"), parts("/v/a.md")];
    assert_eq!(dr_md::app::state::find_tab(&tabs, &parts("/v/a.md")), Some(0));
    assert_eq!(dr_md::app::state::find_tab(&tabs, &parts("/v/b.md")), Some(1));
    assert_eq!(dr_md::app::state::find_tab(&tabs, &parts("/v/c.md")), None);
    assert_eq!(dr_md::app::state::find_tab(&tabs, &parts("/v")), None);
}

#[test]
fn folders_come_before_files() {
    assert_eq!(compare_entries(true, "zeta", false, "alpha"), EntryOrder::Before);
    assert_eq!(compare_entries(false, "alpha", true, "zeta"), EntryOrder::After);
}

#[test]
fn entries_of_one_kind_go_by_name() {
    assert_eq!(compare_entries(false, "b.md", false, "a.md"), EntryOrder::After);
    assert_eq!(compare_entries(true, "notes", true, "notes"), EntryOrder::Same);
    assert_eq!(compare_entries(false, "note", false, "notes"), EntryOrder::Before);
    assert_eq!(compare_entries(false, "Zed", false, "apple"), EntryOrder::Before);
    assert_eq!(compare_entries(false, "é", false, "z"), EntryOrder::After);
}

#[test]
fn entry_order_is_a_strict_total_order() {
    let entries = [(true, "b"), (true, "a"), (false, "c"), (false, "a"), (false, "ab")];
    for &(ad, a) in &entries {
        for &(bd, b) in &entries {
            let ab = compare_entries(ad, a, bd, b);
            let ba = compare_entries(bd, b, ad, a);
            assert_eq!(ab == EntryOrder::Same, ad == bd && a == b);
            assert_eq!(ab == EntryOrder::Before, ba == EntryOrder::After);
            for &(cd, c) in &entries {
                if ab == EntryOrder::Before && compare_entries(bd, b, cd, c) == EntryOrder::Before {
                    assert_eq!(compare_entries(ad, a, cd, c), EntryOrder::Before);
                }
            }
        }
    }
}

#[test]
fn dotfiles_are_hidden() {
    assert!(is_hidden(".git"));
    assert!(is_hidden(".obsidian"));
    assert!(!is_hidden("notes.md"));
    assert!(!is_hidden("a.b"));
    assert!(!is_hidden(""));
}

#[test]
fn the_tree_lists_folders_and_notes() {
    assert!(entry_listed("notes", true, false));
    assert!(entry_listed("idea.md", false, false));
    assert!(entry_listed("long.markdown", false, false));
    assert!(entry_listed("a.b.md", false, false));
    assert!(!entry_listed("image.png", false, false));
    assert!(!entry_listed("README.MD", false, false));
    assert!(!entry_listed("md", false, false));
    assert!(entry_listed("image.png", false, true));
    assert!(!entry_listed(".git", true, false));
    assert!(!entry_listed(".hidden.md", false, true));
}

#[test]
fn next_and_previous_tab_go_round() {
    assert_eq!(cycled_tab(Some(0), 3, true), Some(1));
    assert_eq!(cycled_tab(Some(2), 3, true), Some(0));
    assert_eq!(cycled_tab(Some(0), 3, false), Some(2));
    assert_eq!(cycled_tab(Some(2), 3, false), Some(1));
    assert_eq!(cycled_tab(None, 3, true), None);
    assert_eq!(cycled_tab(Some(0), 0, true), None);
    assert_eq!(cycled_tab(Some(usize::MAX), 3, true), Some(1));
    for i in 0..4 {
        let next = cycled_tab(Some(i), 4, true);
        assert_eq!(cycled_tab(next, 4, false), Some(i));
    }
}

#[test]
fn the_active_tab_follows_its_document_when_tabs_swap() {
    assert_eq!(active_after_swap(Some(1), 1, 2), Some(2));
    assert_eq!(active_after_swap(Some(2), 1, 2), Some(1));
    assert_eq!(active_after_swap(Some(0), 1, 2), Some(0));
    assert_eq!(active_after_swap(None, 1, 2), None);
}

#[test]
fn test_file_tree_drag_started_on_item_prevents_marquee() {
    // 1. The press was on an item: dragging starts no rectangle and leaves the
    //    selection alone.
    let step = marquee_step(true, true, true, false, false, true, false, false);
    assert_eq!(step, MarqueeStep::Clear);
    // 2. The press was not on an item: dragging starts a rectangle, which replaces
    //    the selection since the command key is not held.
    let step = marquee_step(true, true, true, false, false, false, false, false);
    assert_eq!(step, MarqueeStep::Start { keep_selection: false });
}

#[test]
fn the_selection_rectangle_follows_the_pointer() {
    assert_eq!(marquee_step(true, true, true, false, false, false, true, false), MarqueeStep::Track);
    assert_eq!(marquee_step(true, true, true, false, false, false, false, true), MarqueeStep::Start { keep_selection: true });
    assert_eq!(marquee_step(true, false, true, false, false, false, true, false), MarqueeStep::Keep);
    assert_eq!(marquee_step(true, true, false, false, false, false, true, false), MarqueeStep::Keep);
    assert_eq!(marquee_step(false, true, true, false, false, false, true, false), MarqueeStep::Clear);
    assert_eq!(marquee_step(true, true, true, true, false, false, true, false), MarqueeStep::Clear);
    assert_eq!(marquee_step(true, true, true, false, true, false, true, false), MarqueeStep::Clear);
}

#[test]
fn the_session_remembers_the_open_tabs() {
    let paths = vec!["/v/a.md".to_string(), "/v/b.md".to_string()];
    let modes = vec![ViewMode::Split, ViewMode::Preview];
    let saved = session_state(&paths, &modes, Some(1), true);
    assert_eq!(saved.last_open_tabs.len(), 2);
    assert_eq!(saved.last_open_tabs[0].path, "/v/a.md");
    assert_eq!(saved.last_open_tabs[0].view_mode, ViewMode::Split);
    assert_eq!(saved.last_open_tabs[1].path, "/v/b.md");
    assert_eq!(saved.last_open_tabs[1].view_mode, ViewMode::Preview);
    assert_eq!(saved.last_active_tab, Some(1));

    let off = session_state(&paths, &modes, Some(1), false);
    assert!(off.last_open_tabs.is_empty());
    assert_eq!(off.last_active_tab, None);
}

#[test]
fn a_restored_session_switches_to_its_active_tab_if_it_reopened() {
    assert_eq!(restored_active(Some(1), 2), Some(1));
    assert_eq!(restored_active(Some(2), 2), None);
    assert_eq!(restored_active(None, 2), None);
}
