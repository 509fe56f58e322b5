use sitegen::markdown::markdown_to_html;

#[test]
fn test_markdown_to_html_basic() {
    let md = "# Heading\n\nParagraph with **bold**";
    let html = markdown_to_html(md);

    assert!(html.contains("<h1>"));
    assert!(html.contains("<strong>"));
    assert!(html.contains("Heading"));
}

#[test]
fn markdown_extensions_are_enabled() {
    let html = markdown_to_html("~~gone~~\n\n| a | b |\n|---|---|\n| 1 | 2 |\n");
    assert!(html.contains("<del>"));
    assert!(html.contains("<table>"));
    assert_eq!(markdown_to_html(""), "");
}
