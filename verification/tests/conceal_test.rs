use slate::editor::conceal::{
    cursor_on_line, is_revealed, line_tag_plan, parse_markdown_elements, parse_markdown_spans,
    SpanType, BOLD_TAG, CONCEAL_TAG, H1_TAG, H6_TAG,
};

#[test]
fn test_heading_h1() {
    let line = "# Mon grand titre";
    let spans = parse_markdown_spans(line);

    assert_eq!(spans[0].start, 0);
    assert_eq!(spans[0].end, 2);
    assert_eq!(spans[0].span_type, SpanType::Conceal);

    assert_eq!(spans[1].start, 2);
    assert_eq!(spans[1].end, 17);
    assert_eq!(spans[1].span_type, SpanType::H1);
}

#[test]
fn test_heading_h2_with_french_accent() {
    let line = "## Réunion d'été";
    let spans = parse_markdown_spans(line);

    assert_eq!(spans[0].start, 0);
    assert_eq!(spans[0].end, 3);
    assert_eq!(spans[0].span_type, SpanType::Conceal);

    assert_eq!(spans[1].start, 3);
    assert_eq!(spans[1].end, 16);
    assert_eq!(spans[1].span_type, SpanType::H2);
}

#[test]
fn test_heading_h3_to_h6() {
    let h3 = parse_markdown_spans("### Titre 3");
    assert_eq!(h3[0].span_type, SpanType::Conceal);
    assert_eq!(h3[0].end, 4);
    assert_eq!(h3[1].span_type, SpanType::H3);

    let h6 = parse_markdown_spans("###### Titre 6");
    assert_eq!(h6[0].span_type, SpanType::Conceal);
    assert_eq!(h6[0].end, 7);
    assert_eq!(h6[1].span_type, SpanType::H6);
}

#[test]
fn test_bold_spans() {
    let line = "Voici du **texte en gras** ici.";
    let spans = parse_markdown_spans(line);

    assert_eq!(spans[0].start, 9);
    assert_eq!(spans[0].end, 11);
    assert_eq!(spans[0].span_type, SpanType::Conceal);

    assert_eq!(spans[1].start, 11);
    assert_eq!(spans[1].end, 24);
    assert_eq!(spans[1].span_type, SpanType::Bold);

    assert_eq!(spans[2].start, 24);
    assert_eq!(spans[2].end, 26);
    assert_eq!(spans[2].span_type, SpanType::Conceal);
}

#[test]
fn test_italic_spans() {
    let line = "Texte en *italique* simple.";
    let spans = parse_markdown_spans(line);

    assert_eq!(spans[0].start, 9);
    assert_eq!(spans[0].end, 10);
    assert_eq!(spans[0].span_type, SpanType::Conceal);

    assert_eq!(spans[1].start, 10);
    assert_eq!(spans[1].end, 18);
    assert_eq!(spans[1].span_type, SpanType::Italic);

    assert_eq!(spans[2].start, 18);
    assert_eq!(spans[2].end, 19);
    assert_eq!(spans[2].span_type, SpanType::Conceal);
}

#[test]
fn test_strikethrough_spans() {
    let line = "Mot ~~barré~~ terminé.";
    let spans = parse_markdown_spans(line);

    assert_eq!(spans[0].start, 4);
    assert_eq!(spans[0].end, 6);
    assert_eq!(spans[0].span_type, SpanType::Conceal);

    assert_eq!(spans[1].start, 6);
    assert_eq!(spans[1].end, 11);
    assert_eq!(spans[1].span_type, SpanType::Strike);

    assert_eq!(spans[2].start, 11);
    assert_eq!(spans[2].end, 13);
    assert_eq!(spans[2].span_type, SpanType::Conceal);
}

#[test]
fn test_inline_code_spans() {
    let line = "Exécute `cargo build --release` svp.";
    let spans = parse_markdown_spans(line);

    assert_eq!(spans[0].start, 8);
    assert_eq!(spans[0].end, 9);
    assert_eq!(spans[0].span_type, SpanType::Conceal);

    assert_eq!(spans[1].start, 9);
    assert_eq!(spans[1].end, 30);
    assert_eq!(spans[1].span_type, SpanType::Code);

    assert_eq!(spans[2].start, 30);
    assert_eq!(spans[2].end, 31);
    assert_eq!(spans[2].span_type, SpanType::Conceal);
}

#[test]
fn test_link_spans() {
    let line = "Documentation sur [Slate](https://github.com/slate).";
    let spans = parse_markdown_spans(line);

    assert_eq!(spans[0].start, 18);
    assert_eq!(spans[0].end, 19);
    assert_eq!(spans[0].span_type, SpanType::Conceal);

    assert_eq!(spans[1].start, 19);
    assert_eq!(spans[1].end, 24);
    assert_eq!(spans[1].span_type, SpanType::Link);

    assert_eq!(spans[2].start, 24);
    assert_eq!(spans[2].end, 51);
    assert_eq!(spans[2].span_type, SpanType::Conceal);
}

#[test]
fn test_blockquote_spans() {
    let line = "> Citation inspirante.";
    let spans = parse_markdown_spans(line);

    assert_eq!(spans[0].start, 0);
    assert_eq!(spans[0].end, 2);
    assert_eq!(spans[0].span_type, SpanType::Conceal);

    assert_eq!(spans[1].start, 2);
    assert_eq!(spans[1].end, 22);
    assert_eq!(spans[1].span_type, SpanType::Quote);
}

#[test]
fn test_multiple_spans_on_single_line() {
    let line = "Du **gras** et du `code` et du *italique*.";
    let spans = parse_markdown_spans(line);

    assert_eq!(spans.len(), 9);
    assert_eq!(spans[1].span_type, SpanType::Bold);
    assert_eq!(spans[4].span_type, SpanType::Code);
    assert_eq!(spans[7].span_type, SpanType::Italic);
}

#[test]
fn test_unclosed_delimiters_ignored() {
    let line = "Ceci a une seule * étoile et deux ** étoiles.";
    let spans = parse_markdown_spans(line);
    assert!(spans.is_empty());
}

#[test]
fn test_user_screenshot_elements() {
    let line = "**gras** *italique* _italique_";
    let elements = parse_markdown_elements(line);

    assert_eq!(elements.len(), 3);

    assert_eq!(elements[0].start, 0);
    assert_eq!(elements[0].end, 8);
    assert_eq!(elements[0].delims, vec![(0, 2), (6, 8)]);
    assert_eq!(elements[0].styles[0].2, SpanType::Bold);

    assert_eq!(elements[1].start, 9);
    assert_eq!(elements[1].end, 19);
    assert_eq!(elements[1].delims, vec![(9, 10), (18, 19)]);
    assert_eq!(elements[1].styles[0].2, SpanType::Italic);

    assert_eq!(elements[2].start, 20);
    assert_eq!(elements[2].end, 30);
    assert_eq!(elements[2].delims, vec![(20, 21), (29, 30)]);
    assert_eq!(elements[2].styles[0].2, SpanType::Italic);
}

#[test]
fn empty_line_has_no_elements() {
    assert!(parse_markdown_elements("").is_empty());
    assert!(parse_markdown_spans("").is_empty());
}

#[test]
fn bold_italic_gets_both_styles() {
    let elements = parse_markdown_elements("a ***fort*** b");
    assert_eq!(elements.len(), 1);
    assert_eq!(elements[0].start, 2);
    assert_eq!(elements[0].end, 12);
    assert_eq!(elements[0].delims, vec![(2, 5), (9, 12)]);
    assert_eq!(
        elements[0].styles,
        vec![(5, 9, SpanType::Bold), (5, 9, SpanType::Italic)]
    );
}

#[test]
fn underscore_bold_and_escaped_closer() {
    let elements = parse_markdown_elements("__gras__");
    assert_eq!(elements.len(), 1);
    assert_eq!(elements[0].styles, vec![(2, 6, SpanType::Bold)]);

    // A backslash before the closing backquote escapes it.
    let escaped = parse_markdown_elements("`a\\` b");
    assert!(escaped.is_empty());
}

#[test]
fn underscore_inside_word_is_not_italic() {
    assert!(parse_markdown_elements("snake_case_name").is_empty());
}

#[test]
fn checked_task_is_struck_through() {
    let elements = parse_markdown_elements("- [x] fait");
    assert_eq!(elements.len(), 1);
    assert_eq!(elements[0].start, 6);
    assert_eq!(elements[0].end, 10);
    assert!(elements[0].is_line_block);
    assert!(elements[0].delims.is_empty());
    assert_eq!(elements[0].styles, vec![(6, 10, SpanType::Strike)]);

    assert!(parse_markdown_elements("- [ ] à faire").is_empty());
}

#[test]
fn code_fence_is_code() {
    let elements = parse_markdown_elements("  ```rust");
    assert_eq!(elements.len(), 1);
    assert_eq!(elements[0].styles, vec![(2, 9, SpanType::Code)]);
}

#[test]
fn seven_hashes_are_not_a_heading() {
    assert!(parse_markdown_spans("####### sept").is_empty());
}

#[test]
fn heading_keeps_inline_bold_after_it() {
    let spans = parse_markdown_spans("# **a**");
    let kinds: Vec<(usize, usize, SpanType)> =
        spans.iter().map(|s| (s.start, s.end, s.span_type)).collect();
    assert_eq!(
        kinds,
        vec![
            (0, 2, SpanType::Conceal),
            (2, 7, SpanType::H1),
            (2, 4, SpanType::Conceal),
            (4, 5, SpanType::Bold),
            (5, 7, SpanType::Conceal),
        ]
    );
}

#[test]
fn tag_names() {
    assert_eq!(SpanType::Conceal.tag_name(), CONCEAL_TAG);
    assert_eq!(SpanType::Bold.tag_name(), BOLD_TAG);
    assert_eq!(SpanType::H1.tag_name(), H1_TAG);
    assert_eq!(SpanType::H6.tag_name(), "slate_h6");
    assert_eq!(H6_TAG, "slate_h6");
}

#[test]
fn caret_inside_reveals_delimiters() {
    let elements = parse_markdown_elements("du **gras** ici");
    let bold = &elements[0];
    assert!(is_revealed(bold, Some((5, 5))));
    assert!(!is_revealed(bold, Some((3, 3))));
    assert!(!is_revealed(bold, Some((11, 11))));
    assert!(is_revealed(bold, Some((0, 4))));
    assert!(!is_revealed(bold, None));

    let heading = &parse_markdown_elements("# Titre")[0];
    assert!(is_revealed(heading, Some((0, 0))));
    assert!(!is_revealed(heading, None));
}

#[test]
fn tag_plan_conceals_only_away_from_cursor() {
    let away = line_tag_plan("a *b* c", None);
    let kinds: Vec<(usize, usize, SpanType)> =
        away.iter().map(|s| (s.start, s.end, s.span_type)).collect();
    assert_eq!(
        kinds,
        vec![
            (2, 3, SpanType::Conceal),
            (4, 5, SpanType::Conceal),
            (3, 4, SpanType::Italic),
        ]
    );

    let near = line_tag_plan("a *b* c", Some((3, 3)));
    let kinds: Vec<(usize, usize, SpanType)> =
        near.iter().map(|s| (s.start, s.end, s.span_type)).collect();
    assert_eq!(kinds, vec![(3, 4, SpanType::Italic)]);
}

#[test]
fn cursor_range_on_line() {
    assert_eq!(cursor_on_line(Some((2, 1, 2, 5)), 2, 9), (1, 5));
    assert_eq!(cursor_on_line(Some((1, 1, 2, 5)), 2, 9), (9, 9));
    assert_eq!(cursor_on_line(None, 2, 9), (9, 9));
}
