use dr_md::app::links::{classify_link, link_action, md_fallback_path, LinkAction, LinkTarget, PathKind};
use dr_md::app::tab_bar::{tab_label, truncate_filename};
use dr_md::app::{clean_path, find_heading_line, resolve_link_path, slugify};

#[test]
fn test_slugify() {
    assert_eq!(slugify("Section Name"), "section-name");
    assert_eq!(slugify("## My Cool Heading! (Extra)"), "my-cool-heading-extra");
    assert_eq!(slugify("**Bold** Heading"), "bold-heading");
}

#[test]
fn test_find_heading_line() {
    let doc = "# Title\n\n## Section One\nSome text.\n\n### Sub-section\nMore text.";
    assert_eq!(find_heading_line(doc, "title"), Some(0));
    assert_eq!(find_heading_line(doc, "section-one"), Some(2));
    assert_eq!(find_heading_line(doc, "sub-section"), Some(5));
    assert_eq!(find_heading_line(doc, "non-existent"), None);
}

#[test]
fn test_resolve_link_path_relative() {
    let active_file = "/home/user/vault/sub/note.md";
    let root_path = "/home/user/vault";
    let res = resolve_link_path("./README_2.md", Some(active_file), Some(root_path), None);
    assert_eq!(res, "/home/user/vault/sub/README_2.md");
    let res = resolve_link_path("../README_2.md", Some(active_file), Some(root_path), None);
    assert_eq!(res, "/home/user/vault/README_2.md");
}

#[test]
fn test_resolve_link_path_absolute() {
    let active_file = "/home/user/vault/sub/note.md";
    let root_path = "/home/user/vault";
    let res = resolve_link_path("/media/user/README_2.md", Some(active_file), Some(root_path), None);
    assert_eq!(res, "/media/user/README_2.md");
}

#[test]
fn test_resolve_link_path_file_scheme() {
    let active_file = "/home/user/vault/sub/note.md";
    let root_path = "/home/user/vault";
    let res = resolve_link_path(
        "file:///media/user/README_2.md",
        Some(active_file),
        Some(root_path),
        None,
    );
    assert_eq!(res, "/media/user/README_2.md");
    let res = resolve_link_path(
        "file://localhost/media/user/README_2.md",
        Some(active_file),
        Some(root_path),
        None,
    );
    assert_eq!(res, "/media/user/README_2.md");
}

#[test]
fn resolve_link_path_decodes_percent_escapes() {
    let res = resolve_link_path("My%20Note.md", Some("/v/a.md"), None, None);
    assert_eq!(res, "/v/My Note.md");
}

#[test]
fn resolve_link_path_falls_back_to_root_then_current_dir() {
    assert_eq!(resolve_link_path("x.md", None, Some("/root/vault"), Some("/cwd")), "/root/vault/x.md");
    assert_eq!(resolve_link_path("x.md", None, None, Some("/cwd")), "/cwd/x.md");
    assert_eq!(resolve_link_path("x.md", None, None, None), "x.md");
}

#[test]
fn test_truncate_filename() {
    assert_eq!(truncate_filename("short.md", 15), "short.md");
    assert_eq!(truncate_filename("filename_is_really_long.md", 15), "filename_is_.md");
    assert_eq!(truncate_filename("no_extension_at_all_long", 15), "no_extension_at");
    assert_eq!(truncate_filename("long.extension.md", 15), "long.extensi.md");
    assert_eq!(truncate_filename("filename_is_really_long.md", 4), "fil.md");
    assert_eq!(truncate_filename("no_extension_at_all_long", 2), "no_");
}

#[test]
fn tab_label_truncates_only_long_names_of_many_words() {
    assert_eq!(tab_label("two_words.md", 4), "two_words.md");
    assert_eq!(tab_label("one_two_three_four.md", 10), "one_two.md");
}

#[test]
fn clean_path_normalizes() {
    assert_eq!(clean_path("/a/./b/../c"), "/a/c");
    assert_eq!(clean_path("a/../../b"), "../b");
    assert_eq!(clean_path("/../a"), "/a");
    assert_eq!(clean_path("./a//b/"), "a/b");
    assert_eq!(clean_path(""), "");
    assert_eq!(clean_path("/"), "/");
}

#[test]
fn slugify_is_idempotent_on_examples() {
    for s in ["Hello World", "--Weird__Name--", "Ünïcödé Títle 2", "a - b"] {
        let once = slugify(s);
        assert_eq!(slugify(&once), once);
        assert!(!once.starts_with('-') && !once.ends_with('-'));
        assert!(!once.contains("--"));
    }
}

#[test]
fn heading_requires_space_after_hashes() {
    let doc = "#NoSpace\n  ## Indented Heading  \r\n";
    assert_eq!(find_heading_line(doc, "nospace"), None);
    assert_eq!(find_heading_line(doc, "indented-heading"), Some(1));
}

#[test]
fn links_are_classified_by_path_and_anchor() {
    assert_eq!(classify_link("#intro"), LinkTarget::InDocument(Some("intro".to_string())));
    assert_eq!(classify_link(""), LinkTarget::InDocument(None));
    assert_eq!(classify_link("https://example.com#x"), LinkTarget::External);
    assert_eq!(classify_link("mailto:me@example.com"), LinkTarget::External);
    assert_eq!(
        classify_link("notes/a.md#part-two#b"),
        LinkTarget::Local { path: "notes/a.md".to_string(), anchor: Some("part-two#b".to_string()) }
    );
    assert_eq!(
        classify_link("b.md"),
        LinkTarget::Local { path: "b.md".to_string(), anchor: None }
    );
}

#[test]
fn a_link_without_the_note_extension_falls_back_to_md() {
    assert_eq!(md_fallback_path("/v/notes/idea"), Some("/v/notes/idea.md".to_string()));
    assert_eq!(md_fallback_path("/v/notes/idea.txt"), Some("/v/notes/idea.txt.md".to_string()));
    assert_eq!(md_fallback_path("/v/notes/idea.md"), None);
}

#[test]
fn a_local_link_opens_what_is_there() {
    assert_eq!(link_action("/v/sub", PathKind::Folder, PathKind::Missing), LinkAction::OpenFolder("/v/sub".to_string()));
    assert_eq!(link_action("/v/a.md", PathKind::File, PathKind::Missing), LinkAction::OpenFile("/v/a.md".to_string()));
    assert_eq!(link_action("/v/LICENSE", PathKind::File, PathKind::File), LinkAction::OpenFile("/v/LICENSE".to_string()));
    assert_eq!(link_action("/v/idea", PathKind::Missing, PathKind::File), LinkAction::OpenFile("/v/idea.md".to_string()));
}

#[test]
fn a_missing_linked_note_is_created() {
    assert_eq!(link_action("/v/idea", PathKind::Missing, PathKind::Missing), LinkAction::Create("/v/idea.md".to_string()));
    assert_eq!(link_action("/v/idea.md", PathKind::Missing, PathKind::File), LinkAction::Create("/v/idea.md".to_string()));
}

#[test]
fn cleaning_is_clean_and_idempotent() {
    assert_eq!(clean_path("/a/b/./../../../c"), "/c");
    assert_eq!(clean_path("../a/../../b"), "../../b");
    for p in ["/a/b/./../../../c", "../a/../../b", "./x/./y/..", "a//b/../..", "/..", "", "/"] {
        let c = clean_path(p);
        assert_eq!(clean_path(&c), c);
        assert_eq!(c.starts_with('/'), p.starts_with('/'));
        assert!(!c.split('/').any(|part| part == "."));
    }
}

/// The slug by its description: the alphanumeric characters lower-cased, one `-`
/// between two of them exactly when a separator stands between them.
fn slug_by_description(text: &str) -> String {
    let mut out = String::new();
    let mut sep_seen = false;
    let mut any = false;
    for c in text.chars() {
        if c.is_alphanumeric() {
            if any && sep_seen {
                out.push('-');
            }
            out.push(c.to_ascii_lowercase());
            any = true;
            sep_seen = false;
        } else if c.is_whitespace() || c == '-' || c == '_' {
            sep_seen = true;
        }
    }
    out
}

#[test]
fn slugs_follow_their_description() {
    for text in [
        "My Cool Heading! (Extra)",
        "  --Leading and trailing__  ",
        "a!b",
        "a - ! - b",
        "Ünïcode Wörds 42",
        "___",
        "",
        "x_y-z w",
    ] {
        let r = slugify(text);
        assert_eq!(r, slug_by_description(text), "for {:?}", text);
        assert_eq!(slugify(&r), r);
    }
    assert_eq!(slugify("a!b"), "ab");
    assert_eq!(slugify("a - ! - b"), "a-b");
}
