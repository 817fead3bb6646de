use slate::editor::formatting::{transform_lines, LineTransform};
use slate::editor::markdown::{
    cycle_heading_prefix, indent_text, toggle_blockquote, toggle_bullet_list,
    toggle_numbered_list, toggle_wrap, unindent_text, wrap_code, wrap_link,
};

#[test]
fn test_toggle_wrap_bold() {
    let (wrapped, start, end) = toggle_wrap("Bonjour", "**", "**");
    assert_eq!(wrapped, "**Bonjour**");
    assert_eq!(start, 0);
    assert_eq!(end, 11);

    let (unwrapped, u_start, u_end) = toggle_wrap(&wrapped, "**", "**");
    assert_eq!(unwrapped, "Bonjour");
    assert_eq!(u_start, 0);
    assert_eq!(u_end, 7);
}

#[test]
fn test_toggle_wrap_empty() {
    let (template, start, end) = toggle_wrap("", "**", "**");
    assert_eq!(template, "****");
    assert_eq!(start, 2);
    assert_eq!(end, 2);
}

#[test]
fn test_toggle_wrap_italic_strikethrough() {
    let (italic, _, _) = toggle_wrap("texte", "*", "*");
    assert_eq!(italic, "*texte*");

    let (strike, _, _) = toggle_wrap("barré", "~~", "~~");
    assert_eq!(strike, "~~barré~~");
}

#[test]
fn test_wrap_link() {
    let (link, _, _) = wrap_link("Google");
    assert_eq!(link, "[Google](url)");

    let (empty_link, _, _) = wrap_link("");
    assert_eq!(empty_link, "[texte](url)");

    let (url_link, _, _) = wrap_link("https://example.com");
    assert_eq!(url_link, "[lien](https://example.com)");
}

#[test]
fn test_cycle_heading() {
    let l0 = "Titre de section";
    let l1 = cycle_heading_prefix(l0);
    assert_eq!(l1, "# Titre de section");

    let l2 = cycle_heading_prefix(&l1);
    assert_eq!(l2, "## Titre de section");

    let l3 = cycle_heading_prefix(&l2);
    assert_eq!(l3, "### Titre de section");

    let l4 = cycle_heading_prefix(&l3);
    assert_eq!(l4, "#### Titre de section");

    let l5 = cycle_heading_prefix(&l4);
    assert_eq!(l5, "##### Titre de section");

    let l6 = cycle_heading_prefix(&l5);
    assert_eq!(l6, "###### Titre de section");

    let l_none = cycle_heading_prefix(&l6);
    assert_eq!(l_none, "Titre de section");
}

#[test]
fn test_toggle_bullet_list() {
    let plain = "Élément";
    let bullet = toggle_bullet_list(plain);
    assert_eq!(bullet, "- Élément");

    let reverted = toggle_bullet_list(&bullet);
    assert_eq!(reverted, "Élément");
}

#[test]
fn test_toggle_blockquote() {
    let plain = "Citation importante";
    let quote = toggle_blockquote(plain);
    assert_eq!(quote, "> Citation importante");

    let reverted = toggle_blockquote(&quote);
    assert_eq!(reverted, "Citation importante");
}

#[test]
fn test_toggle_numbered_list() {
    let items = vec!["Premier", "Deuxième", "Troisième"];
    let numbered = toggle_numbered_list(&items);
    assert_eq!(numbered, vec!["1. Premier", "2. Deuxième", "3. Troisième"]);

    let as_refs: Vec<&str> = numbered.iter().map(|s| s.as_str()).collect();
    let unnumbered = toggle_numbered_list(&as_refs);
    assert_eq!(unnumbered, vec!["Premier", "Deuxième", "Troisième"]);
}

#[test]
fn test_wrap_code() {
    let inline = "let x = 10;";
    let (code, _, _) = wrap_code(inline);
    assert_eq!(code, "`let x = 10;`");

    let multiline = "fn main() {\n    println!(\"hi\");\n}";
    let (block, _, _) = wrap_code(multiline);
    assert_eq!(block, "```\nfn main() {\n    println!(\"hi\");\n}\n```");
}

#[test]
fn test_indent_and_unindent() {
    let lines = vec!["Line 1", "Line 2"];
    let indented = indent_text(&lines);
    assert_eq!(indented, vec!["    Line 1", "    Line 2"]);

    let refs: Vec<&str> = indented.iter().map(|s| s.as_str()).collect();
    let unindented = unindent_text(&refs);
    assert_eq!(unindented, vec!["Line 1", "Line 2"]);
}

#[test]
fn wrap_selection_positions() {
    let (wrapped, start, end) = toggle_wrap("é", "~~", "~~");
    assert_eq!(wrapped, "~~é~~");
    assert_eq!((start, end), (0, 5));

    let (link, s, e) = wrap_link("Google");
    assert_eq!(&link.chars().collect::<Vec<_>>()[s..e].iter().collect::<String>(), "url");
    let (empty, s, e) = wrap_link("");
    assert_eq!(&empty.chars().collect::<Vec<_>>()[s..e].iter().collect::<String>(), "texte");
    let (url, s, e) = wrap_link("http://a.b");
    assert_eq!(&url.chars().collect::<Vec<_>>()[s..e].iter().collect::<String>(), "lien");

    let (code, s, e) = wrap_code("a\nb");
    assert_eq!(code, "```\na\nb\n```");
    assert_eq!((s, e), (0, 11));
    let (empty, s, e) = wrap_code("");
    assert_eq!(empty, "```\n\n```");
    assert_eq!((s, e), (4, 4));
}

#[test]
fn wrap_unwraps_only_both_delimiters() {
    let (only_prefix, _, _) = toggle_wrap("**a", "**", "**");
    assert_eq!(only_prefix, "****a**");
    let (short, _, _) = toggle_wrap("**", "**", "**");
    assert_eq!(short, "******");
    let (four, s, e) = toggle_wrap("****", "**", "**");
    assert_eq!(four, "");
    assert_eq!((s, e), (0, 0));
}

#[test]
fn heading_cycle_edge_cases() {
    assert_eq!(cycle_heading_prefix(""), "# ");
    assert_eq!(cycle_heading_prefix("#Titre"), "# #Titre");
    assert_eq!(cycle_heading_prefix("####### Sept"), "# ####### Sept");
    assert_eq!(cycle_heading_prefix("###### "), "");
    let mut line = String::from("abc");
    for _ in 0..7 {
        line = cycle_heading_prefix(&line);
    }
    assert_eq!(line, "abc");
}

#[test]
fn list_and_quote_edge_cases() {
    assert_eq!(toggle_bullet_list("-x"), "- -x");
    assert_eq!(toggle_bullet_list("- "), "");
    assert_eq!(toggle_blockquote(">x"), "> >x");
    assert_eq!(toggle_blockquote("> > a"), "> a");
}

#[test]
fn numbered_list_mixed_and_indented() {
    let mixed = vec!["1. a", "b"];
    assert_eq!(toggle_numbered_list(&mixed), vec!["1. 1. a", "2. b"]);
    let indented = vec!["  x", "\ty"];
    assert_eq!(toggle_numbered_list(&indented), vec!["  1. x", "\t2. y"]);
    let back: Vec<String> = toggle_numbered_list(&["  1. x", "\t2. y"]);
    assert_eq!(back, vec!["  x", "\ty"]);
    let big = vec!["10. dix", "123. cent"];
    assert_eq!(toggle_numbered_list(&big), vec!["dix", "cent"]);
    let empty: Vec<&str> = Vec::new();
    assert_eq!(toggle_numbered_list(&empty), Vec::<String>::new());
    assert_eq!(toggle_numbered_list(&["1.x"]), vec!["1. 1.x"]);
}

#[test]
fn unindent_variants() {
    let lines = vec!["\tTab", "  deux", "        huit", "sans"];
    assert_eq!(unindent_text(&lines), vec!["Tab", "deux", "    huit", "sans"]);
}

#[test]
fn transform_lines_on_text() {
    assert_eq!(transform_lines("a\nb", LineTransform::Indent), "    a\n    b");
    assert_eq!(transform_lines("    a\n\tb\n", LineTransform::Unindent), "a\nb\n");
    assert_eq!(transform_lines("a\nb", LineTransform::ToggleNumbered), "1. a\n2. b");
    assert_eq!(transform_lines("", LineTransform::Indent), "    ");
}
