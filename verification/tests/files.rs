use wikiup::files::is_markdown_extension;

#[test]
fn markdown_extensions() {
    assert!(is_markdown_extension("md"));
    assert!(is_markdown_extension("markdown"));
}

#[test]
fn other_extensions() {
    assert!(!is_markdown_extension(""));
    assert!(!is_markdown_extension("MD"));
    assert!(!is_markdown_extension("Markdown"));
    assert!(!is_markdown_extension("mdx"));
    assert!(!is_markdown_extension("m"));
    assert!(!is_markdown_extension(".md"));
    assert!(!is_markdown_extension("txt"));
    assert!(!is_markdown_extension("html"));
}
