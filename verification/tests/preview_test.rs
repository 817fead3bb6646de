use slate::preview::{
    heading_style, markup_escape_text, preview_blocks, render_events, Block, Cell, Flow, MdEvent,
    MdTag, MdTagEnd,
};

fn para(m: &str) -> Block {
    Block::Flow(Flow::Paragraph(m.to_string()))
}

fn item(m: &str, depth: usize, badge: &str, numbered: bool) -> Block {
    Block::Flow(Flow::ListItem {
        markup: m.to_string(),
        depth,
        badge: badge.to_string(),
        numbered,
    })
}

#[test]
fn preview_of_blank_document() {
    let notice = vec![Block::Notice("Document vide".to_string())];
    assert_eq!(preview_blocks(""), notice);
    assert_eq!(preview_blocks("  \n\t\n"), notice);
}

#[test]
fn preview_heading_and_inline_markup() {
    assert_eq!(
        preview_blocks("# Titre"),
        vec![Block::Heading { markup: "Titre".to_string(), level: 1 }]
    );
    assert_eq!(
        preview_blocks("### Trois"),
        vec![Block::Heading { markup: "Trois".to_string(), level: 3 }]
    );
    assert_eq!(
        preview_blocks("Du **gras**, de l'*italique*, du ~~barré~~ et `x<y`"),
        vec![para("Du <b>gras</b>, de l&#39;<i>italique</i>, du <s>barré</s> et <tt>x&lt;y</tt>")]
    );
    assert_eq!(
        preview_blocks("[Slate](http://a.b?x=1&y=2)"),
        vec![para("<a href=\"http://a.b?x=1&amp;y=2\">Slate</a>")]
    );
}

#[test]
fn preview_lists() {
    assert_eq!(
        preview_blocks("1. un\n2. deux\n"),
        vec![item("un", 1, "1.", true), item("deux", 1, "2.", true)]
    );
    assert_eq!(
        preview_blocks("3. trois\n4. quatre\n"),
        vec![item("trois", 1, "3.", true), item("quatre", 1, "4.", true)]
    );
    assert_eq!(preview_blocks("- x\n"), vec![item("x", 1, "\u{2022}", false)]);
    assert_eq!(
        preview_blocks("- [x] fait\n- [ ] à faire\n"),
        vec![
            item("\u{2611} fait", 1, "\u{2022}", false),
            item("\u{2610} à faire", 1, "\u{2022}", false)
        ]
    );
}

#[test]
fn preview_code_quote_rule_table() {
    assert_eq!(
        preview_blocks("```rust\nlet a = 1 < 2;\n```\n"),
        vec![Block::Flow(Flow::CodeBlock {
            code: "let a = 1 < 2;\n".to_string(),
            title: "rust".to_string()
        })]
    );
    assert_eq!(
        preview_blocks("```\nx\n```\n"),
        vec![Block::Flow(Flow::CodeBlock { code: "x\n".to_string(), title: "code".to_string() })]
    );
    assert_eq!(
        preview_blocks("> Citation inspirante.\n"),
        vec![Block::Quote(vec![Flow::Paragraph("Citation inspirante.".to_string())])]
    );
    assert_eq!(preview_blocks("a\n\n---\n\nb\n"), vec![para("a"), Block::Rule, para("b")]);
    let cell = |m: &str, column: usize, row: usize| Cell { markup: m.to_string(), column, row };
    assert_eq!(
        preview_blocks("| a | b |\n|---|---|\n| 1 | 2 |\n"),
        vec![Block::Table(vec![
            cell("<b>a</b>", 0, 0),
            cell("<b>b</b>", 1, 0),
            cell("1", 0, 1),
            cell("2", 1, 1)
        ])]
    );
}

#[test]
fn render_events_quirks() {
    // A heading inside a quote goes on the page, before the quote.
    let events = vec![
        MdEvent::Start(MdTag::BlockQuote),
        MdEvent::Start(MdTag::Heading(2)),
        MdEvent::Text("H".to_string()),
        MdEvent::End(MdTagEnd::Heading),
        MdEvent::Start(MdTag::Paragraph),
        MdEvent::Text("p".to_string()),
        MdEvent::End(MdTagEnd::Paragraph),
        MdEvent::End(MdTagEnd::BlockQuote),
    ];
    assert_eq!(
        render_events(&events),
        vec![
            Block::Heading { markup: "H".to_string(), level: 2 },
            Block::Quote(vec![Flow::Paragraph("p".to_string())])
        ]
    );
    // Blank paragraphs and items show nothing, and an empty item takes no number.
    let events = vec![
        MdEvent::Start(MdTag::List(Some(7))),
        MdEvent::Start(MdTag::Item),
        MdEvent::Text("  ".to_string()),
        MdEvent::End(MdTagEnd::Item),
        MdEvent::Start(MdTag::Item),
        MdEvent::Text("b".to_string()),
        MdEvent::SoftBreak,
        MdEvent::Text("c".to_string()),
        MdEvent::End(MdTagEnd::Item),
        MdEvent::End(MdTagEnd::List),
        MdEvent::Start(MdTag::Paragraph),
        MdEvent::HardBreak,
        MdEvent::End(MdTagEnd::Paragraph),
    ];
    assert_eq!(render_events(&events), vec![item("b c", 1, "7.", true)]);
    // Nested lists are deeper, and text in a code block is not escaped.
    let events = vec![
        MdEvent::Start(MdTag::List(None)),
        MdEvent::Start(MdTag::Item),
        MdEvent::Start(MdTag::List(Some(1))),
        MdEvent::Start(MdTag::Item),
        MdEvent::Text("<in>".to_string()),
        MdEvent::End(MdTagEnd::Item),
        MdEvent::End(MdTagEnd::List),
        MdEvent::End(MdTagEnd::Item),
        MdEvent::End(MdTagEnd::List),
        MdEvent::Start(MdTag::CodeBlock(String::new())),
        MdEvent::Text("<raw>".to_string()),
        MdEvent::End(MdTagEnd::CodeBlock),
    ];
    assert_eq!(
        render_events(&events),
        vec![
            item("&lt;in&gt;", 2, "1.", true),
            Block::Flow(Flow::CodeBlock { code: "<raw>".to_string(), title: "code".to_string() })
        ]
    );
}

#[test]
fn markup_escaping() {
    assert_eq!(
        markup_escape_text("a<b>&'\"\u{1}\t\u{1f}\u{7f}\u{85}é"),
        "a&lt;b&gt;&amp;&#39;&quot;&#x1;\t&#x1f;&#x7f;\u{85}é"
    );
    assert_eq!(markup_escape_text(""), "");
}

#[test]
fn heading_styles() {
    assert_eq!(heading_style(1), ("title-1", 20, 10));
    assert_eq!(heading_style(4), ("title-4", 10, 4));
    assert_eq!(heading_style(6), ("caption-heading", 6, 2));
}
