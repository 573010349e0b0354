use allay::markdown::{convert_to_html, AllayMdParser};

#[test]
fn test_basic() {
    let markdown = "# Hello, world!\nThis is a new **test**.";
    assert_eq!(
        AllayMdParser::default().parse(markdown).trim(),
        "<h1>Hello, world!</h1>\n<p>This is a new <strong>test</strong>.</p>"
    );
}

#[test]
fn raw_articles_render_tables() {
    let html = convert_to_html("| a | b |\n|---|---|\n| 1 | 2 |");
    assert!(html.contains("<table>"));
    assert!(html.contains("<td>1</td>"));
}

#[test]
fn raw_articles_render_strikethrough() {
    assert_eq!(convert_to_html("~~gone~~"), "<p><del>gone</del></p>\n");
}
