use dr_md::editor::layout::{
    char_ranges_to_byte_ranges, highlight_pieces, layout_spans, MarkedPiece, MatchMark, SpanStyle,
};

fn spans(text: &str) -> Vec<(String, SpanStyle)> {
    layout_spans(text).into_iter().map(|s| (s.text, s.style)).collect()
}

#[test]
fn char_ranges_become_byte_ranges() {
    let s = "aé€b";
    let r = char_ranges_to_byte_ranges(s, &[0..1, 1..3, 3..4, 2..9]);
    assert_eq!(r, vec![0..1, 1..6, 6..7, 3..7]);
}

#[test]
fn lines_get_their_styles() {
    assert_eq!(
        spans("# Title\n> quote\ntext"),
        vec![
            ("# Title".to_string(), SpanStyle::Heading),
            ("\n".to_string(), SpanStyle::Normal),
            ("> quote".to_string(), SpanStyle::Quote),
            ("\n".to_string(), SpanStyle::Normal),
            ("text".to_string(), SpanStyle::Normal),
        ]
    );
}

#[test]
fn code_fences_color_the_block() {
    assert_eq!(
        spans("```\n# not a heading\n```\nafter"),
        vec![
            ("```".to_string(), SpanStyle::Code),
            ("\n".to_string(), SpanStyle::Normal),
            ("# not a heading".to_string(), SpanStyle::Code),
            ("\n".to_string(), SpanStyle::Normal),
            ("```".to_string(), SpanStyle::Code),
            ("\n".to_string(), SpanStyle::Normal),
            ("after".to_string(), SpanStyle::Normal),
        ]
    );
}

#[test]
fn links_are_their_own_spans() {
    assert_eq!(
        spans("see [[note|n]] and [a](b) or [x"),
        vec![
            ("see ".to_string(), SpanStyle::Normal),
            ("[[note|n]]".to_string(), SpanStyle::Link),
            (" and ".to_string(), SpanStyle::Normal),
            ("[a](b)".to_string(), SpanStyle::Link),
            (" or ".to_string(), SpanStyle::Normal),
            ("[x".to_string(), SpanStyle::Normal),
        ]
    );
}

#[test]
fn trailing_newline_gives_an_empty_last_line() {
    assert_eq!(
        spans("a\n"),
        vec![("a".to_string(), SpanStyle::Normal), ("\n".to_string(), SpanStyle::Normal)]
    );
    assert!(spans("").is_empty());
}

#[test]
fn matches_cut_spans_and_mark_the_active_one() {
    let pieces = highlight_pieces(&[0..10, 10..20], &[2..4, 8..12], Some(1));
    let p = |section, start, end, mark, leading| MarkedPiece { section, start, end, mark, leading };
    assert_eq!(
        pieces,
        vec![
            p(0, 0, 2, MatchMark::Unmarked, true),
            p(0, 2, 4, MatchMark::Match, false),
            p(0, 4, 8, MatchMark::Unmarked, false),
            p(0, 8, 10, MatchMark::ActiveMatch, false),
            p(1, 10, 12, MatchMark::ActiveMatch, true),
            p(1, 12, 20, MatchMark::Unmarked, false),
        ]
    );
}

#[test]
fn without_matches_spans_stay_whole() {
    let pieces = highlight_pieces(&[0..3, 3..3], &[], None);
    assert_eq!(pieces.len(), 2);
    assert_eq!(
        pieces[1],
        MarkedPiece { section: 1, start: 3, end: 3, mark: MatchMark::Unmarked, leading: true }
    );
}

#[test]
fn span_texts_put_together_give_the_text() {
    for text in ["# T\n[[a]] x [b](c) [d\n```\ncode\n```\n", "", "\n\n", "plain", "a [[b]] [c](d"] {
        let joined: String = layout_spans(text).into_iter().map(|s| s.text).collect();
        assert_eq!(joined, text);
    }
}

#[test]
fn pieces_cover_each_span_in_order() {
    let sections = [0..10, 10..20, 20..25];
    let pieces = highlight_pieces(&sections, &[3..3, 5..15, 18..30], Some(0));
    for (k, s) in sections.iter().enumerate() {
        let mine: Vec<&MarkedPiece> = pieces.iter().filter(|p| p.section == k).collect();
        assert_eq!(mine.first().unwrap().start, s.start);
        assert_eq!(mine.last().unwrap().end, s.end);
        for w in mine.windows(2) {
            assert_eq!(w[0].end, w[1].start);
        }
        assert!(mine.iter().all(|p| p.start < p.end));
    }
}
