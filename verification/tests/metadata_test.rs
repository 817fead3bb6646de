use slate::document::TextCounts;

#[test]
fn text_counts_empty() {
    let c = TextCounts::compute("");
    assert_eq!(c.char_count, 0);
    assert_eq!(c.word_count, 0);
    assert_eq!(c.line_count, 0);
}

#[test]
fn text_counts_content() {
    let content = "# Titre\n\nVoici un paragraphe de test avec plusieurs mots pour compter la lecture.\n";
    let c = TextCounts::compute(content);
    assert_eq!(c.line_count, 3);
    assert_eq!(c.word_count, 14);
    assert_eq!(c.char_count, content.chars().count());
}

#[test]
fn text_counts_edge_cases() {
    let c = TextCounts::compute("é\t b\n\nc");
    assert_eq!(c.char_count, 7);
    assert_eq!(c.word_count, 3);
    assert_eq!(c.line_count, 3);
    let blank = TextCounts::compute("   \n");
    assert_eq!(blank.word_count, 0);
    assert_eq!(blank.line_count, 1);
    let nbsp = TextCounts::compute("a\u{00a0}b");
    assert_eq!(nbsp.word_count, 2);
}
