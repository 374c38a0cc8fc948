use dr_md::markdown::parser::{extract_wiki_links, preprocess_wiki_links};

#[test]
fn test_preprocess_wiki_links_complete() {
    assert_eq!(preprocess_wiki_links("[[hello]]"), "[hello](hello.md)");
    assert_eq!(preprocess_wiki_links("[[hello|label]]"), "[label](hello.md)");
}

#[test]
fn test_preprocess_wiki_links_incomplete() {
    assert_eq!(preprocess_wiki_links("[[hello"), "[[hello");
    assert_eq!(preprocess_wiki_links("[[hello]"), "[[hello]");
    assert_eq!(preprocess_wiki_links("hello [ world"), "hello [ world");
}

#[test]
fn test_extract_wiki_links() {
    assert_eq!(extract_wiki_links("[[hello]]"), vec!["hello".to_string()]);
    assert_eq!(extract_wiki_links("[[hello|label]]"), vec!["hello|label".to_string()]);
    let empty: Vec<String> = vec![];
    assert_eq!(extract_wiki_links("[[hello"), empty);
}

#[test]
fn several_links_in_running_text() {
    let text = "see [[a]] and [[b|B]] then [x](y) and [[c]d]]";
    assert_eq!(
        preprocess_wiki_links(text),
        "see [a](a.md) and [B](b.md) then [x](y) and [c]d](c]d.md)"
    );
    assert_eq!(
        extract_wiki_links(text),
        vec!["a".to_string(), "b|B".to_string(), "c]d".to_string()]
    );
}

#[test]
fn plain_text_is_unchanged() {
    let text = "no links here [just] brackets";
    assert_eq!(preprocess_wiki_links(text), text);
    assert!(extract_wiki_links(text).is_empty());
}

#[test]
fn unclosed_link_keeps_rest_verbatim() {
    assert_eq!(preprocess_wiki_links("[[a]] [[b] c"), "[a](a.md) [[b] c");
}
