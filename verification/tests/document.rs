use wikiup::html::RenderError;
use wikiup::lexer::Token;
use wikiup::{get_tokens, get_tokens_checked, to_html};

#[test]
fn document() {
    let markdown = "
# Hello World
## Hello World
### Hello World
#### Hello World
##### Hello World
###### Hello World

*Hello* **World**!
**Hola** `Mundo`!

Yes, this is a paragraph.

```rust
fn main() {
    println!(\"Hello World\");
}
```

```
no language
```

- abc
  - def
- ghi
";
    let expected = vec![
        "<h1>Hello World</h1>",
        "<h2>Hello World</h2>",
        "<h3>Hello World</h3>",
        "<h4>Hello World</h4>",
        "<h5>Hello World</h5>",
        "<h6>Hello World</h6>",
        "<p><i>Hello</i> <b>World</b>!<b> Hola</b> <code>Mundo</code>!</p>",
        "<p>Yes, this is a paragraph.</p>",
        "<pre><code class=\"language-rust\">fn main() {\n    println!(\"Hello World\");\n}\n</code></pre>",
        "<pre><code>no language\n</code></pre>",
        "<ul><li>abc</li><ul><li>def</li></ul><li>ghi</li></ul>",
    ]
    .join("");
    assert_eq!(to_html(markdown).unwrap(), expected);
}

#[test]
fn headings_of_every_level() {
    assert_eq!(to_html("# Title").unwrap(), "<h1>Title</h1>");
    assert_eq!(to_html("## Title").unwrap(), "<h2>Title</h2>");
    assert_eq!(to_html("### Title").unwrap(), "<h3>Title</h3>");
    assert_eq!(to_html("#### Title").unwrap(), "<h4>Title</h4>");
    assert_eq!(to_html("##### Title").unwrap(), "<h5>Title</h5>");
    assert_eq!(to_html("###### Ünïcode title").unwrap(), "<h6>Ünïcode title</h6>");
    assert_eq!(to_html("# ").unwrap(), "<h1></h1>");
}

#[test]
fn more_than_six_hashes_fail_the_document() {
    assert_eq!(to_html("####### Title"), Err(RenderError::IllegalToken));
    assert_eq!(
        to_html("Fine.\n\n########\n\nFine."),
        Err(RenderError::IllegalToken)
    );
    // One document that fails leaves the next one as it is.
    assert_eq!(to_html("###### Title").unwrap(), "<h6>Title</h6>");
}

#[test]
fn emphasis_pairs_in_the_order_of_the_delimiters() {
    assert_eq!(
        to_html("*a* **b**").unwrap(),
        "<p><i>a</i> <b>b</b></p>"
    );
    assert_eq!(
        to_html("Hello **World!**").unwrap(),
        "<p>Hello <b>World!</b></p>"
    );
    assert_eq!(
        to_html("***a***").unwrap(),
        "<p><b><i>a</i></b></p>"
    );
}

#[test]
fn paragraph_break_starts_a_new_paragraph() {
    assert_eq!(to_html("a\n\nb").unwrap(), "<p>a</p><p>b</p>");
    assert_eq!(to_html("a\n\n\n\nb").unwrap(), "<p>a</p><p>b</p>");
    assert_eq!(to_html("a\r\n\r\nb\r\n").unwrap(), "<p>a</p><p>b</p>");
}

#[test]
fn line_break_in_a_paragraph_is_a_space() {
    assert_eq!(to_html("a\nb").unwrap(), "<p>a b</p>");
    assert_eq!(to_html("a\nb\nc\n").unwrap(), "<p>a b c</p>");
}

#[test]
fn nested_bullets() {
    assert_eq!(
        to_html("- a\n  - b\n- c").unwrap(),
        "<ul><li>a</li><ul><li>b</li></ul><li>c</li></ul>"
    );
    assert_eq!(
        to_html("- a\n  - b\n    - c").unwrap(),
        "<ul><li>a</li><ul><li>b</li><ul><li>c</li></ul></ul></ul>"
    );
}

#[test]
fn second_item_is_one_list_deeper_for_two_spaces() {
    assert_eq!(
        to_html("- a\n- b").unwrap(),
        "<ul><li>a</li><li>b</li></ul>"
    );
    assert_eq!(
        to_html("- a\n - b").unwrap(),
        "<ul><li>a</li><li>b</li></ul>"
    );
    assert_eq!(
        to_html("- a\n     - b").unwrap(),
        "<ul><li>a</li><ul><ul><li>b</li></ul></ul></ul>"
    );
}

#[test]
fn emphasis_around_the_second_text() {
    assert_eq!(to_html("a *b c*").unwrap(), "<p>a <i>b c</i></p>");
    assert_eq!(to_html("a **b c**").unwrap(), "<p>a <b>b c</b></p>");
    assert_eq!(to_html("ä*ö*").unwrap(), "<p>ä<i>ö</i></p>");
}

#[test]
fn inline_code_keeps_its_characters() {
    assert_eq!(
        to_html("`# *a* - b\nc`").unwrap(),
        "<p><code># *a* - b\nc</code></p>"
    );
    assert_eq!(to_html("`ü`").unwrap(), "<p><code>ü</code></p>");
}

#[test]
fn fenced_block_keeps_its_body() {
    assert_eq!(
        to_html("```rust\nfn a() {}\n\n\nfn b() {}\n```").unwrap(),
        "<pre><code class=\"language-rust\">fn a() {}\n\n\nfn b() {}\n</code></pre>"
    );
    assert_eq!(
        to_html("```\n# no *markup* - here\n```").unwrap(),
        "<pre><code># no *markup* - here\n</code></pre>"
    );
    assert_eq!(
        to_html("- a\n```\nb\n```\n").unwrap(),
        "<ul><li>a</li><pre><code>b\n</code></pre></ul>"
    );
}

#[test]
fn other_fences_fail_the_document() {
    assert_eq!(to_html("``a``"), Err(RenderError::IllegalToken));
    assert_eq!(to_html("````\na\n````"), Err(RenderError::IllegalToken));
}

#[test]
fn conversion_gives_the_same_result_again() {
    let markdown = "# a\n\nb *c* **d**\n\n- e\n  - f\n\n```x\ng\n```\n";
    let first = to_html(markdown);
    let second = to_html(markdown);
    assert_eq!(first, second);
    assert_eq!(
        first.unwrap(),
        "<h1>a</h1><p>b <i>c</i> <b>d</b></p><ul><li>e</li><ul><li>f</li></ul></ul><pre><code class=\"language-x\">g\n</code></pre>"
    );
    let documents = vec!["# a", "b\n\nc", "####### d", "- e"];
    let forward: Vec<_> = documents.iter().map(|d| to_html(d)).collect();
    let mut backward: Vec<_> = documents.iter().rev().map(|d| to_html(d)).collect();
    backward.reverse();
    assert_eq!(forward, backward);
}

#[test]
fn tokens_of_a_document_end_with_the_end_token() {
    assert_eq!(
        get_tokens("# a\r\nb"),
        vec![
            Token::Heading1,
            Token::Text("a".into()),
            Token::Newline,
            Token::Text("b".into()),
            Token::EndOfFile
        ]
    );
    assert_eq!(get_tokens(""), vec![Token::EndOfFile]);
    assert_eq!(get_tokens("a\0b"), vec![Token::Text("a".into()), Token::EndOfFile]);
}

#[test]
fn list_behind_a_line_break_stands_in_the_paragraph() {
    assert_eq!(
        to_html("a\n- b").unwrap(),
        "<p>a<ul><li> b</p></li></ul>"
    );
}

#[test]
fn unclosed_emphasis_is_closed_at_the_end() {
    assert_eq!(to_html("**a").unwrap(), "<p><b>a</b></p>");
    assert_eq!(to_html("# *a").unwrap(), "<h1><i>a</i></h1>");
    assert_eq!(to_html("***a").unwrap(), "<p><b><i>a</i></b></p>");
    assert_eq!(to_html("- **a\n- b").unwrap(), "<ul><li><b>a</li><li>b</b></li></ul>");
}

#[test]
fn empty_document_is_an_empty_fragment() {
    assert_eq!(to_html("").unwrap(), "");
    assert_eq!(to_html("\n\n").unwrap(), "");
}

#[test]
fn undecodable_runs_of_a_document_are_counted() {
    assert_eq!(
        get_tokens_checked("# a\n- b"),
        (
            vec![
                Token::Heading1,
                Token::Text("a".into()),
                Token::Newline,
                Token::UnorderedBullet(0),
                Token::Text("b".into()),
                Token::EndOfFile
            ],
            0
        )
    );
    assert_eq!(
        get_tokens_checked("-é\n-ü\n- ö"),
        (
            vec![
                Token::UnorderedBullet(0),
                Token::Text(String::new()),
                Token::Newline,
                Token::UnorderedBullet(0),
                Token::Text(String::new()),
                Token::Newline,
                Token::UnorderedBullet(0),
                Token::Text("ö".into()),
                Token::EndOfFile
            ],
            2
        )
    );
    assert_eq!(get_tokens_checked(""), (vec![Token::EndOfFile], 0));
}

fn assert_closed(html: &str, start: &str, end: &str) {
    assert_eq!(html.matches(start).count(), html.matches(end).count());
    for length in 0..=html.len() {
        if html.is_char_boundary(length) {
            let beginning = &html[..length];
            assert!(beginning.matches(end).count() <= beginning.matches(start).count());
        }
    }
}

#[test]
fn documents_without_a_tag_close_every_tag() {
    let documents = vec![
        "**a",
        "*a **b",
        "- a\n    - **b\n  - c *d\n\n- e",
        "# *a\n\n- b\n      - c",
        "x\n- a **b\n\n\n  - c*",
        "``` ü\n*a\n```\n- `b` **c",
    ];
    for document in documents {
        let html = to_html(document).unwrap();
        assert_closed(&html, "<ul>", "</ul>");
        assert_closed(&html, "<b>", "</b>");
        assert_closed(&html, "<i>", "</i>");
    }
}
