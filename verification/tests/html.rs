use wikiup::html::{render_html, RenderError};
use wikiup::lexer::Token;

#[test]
fn heading_1() {
    let tokens = vec![
        Token::Heading1,
        Token::Text("Hello World".into()),
        Token::Newline,
        Token::EndOfFile,
    ];
    assert_eq!(render_html(tokens).unwrap(), "<h1>Hello World</h1>");
}

#[test]
fn heading_2() {
    let tokens = vec![
        Token::Heading2,
        Token::Text("Hello World".into()),
        Token::Newline,
        Token::EndOfFile,
    ];
    assert_eq!(render_html(tokens).unwrap(), "<h2>Hello World</h2>");
}

#[test]
fn heading_3() {
    let tokens = vec![
        Token::Heading3,
        Token::Text("Hello World".into()),
        Token::Newline,
        Token::EndOfFile,
    ];
    assert_eq!(render_html(tokens).unwrap(), "<h3>Hello World</h3>");
}

#[test]
fn heading_4() {
    let tokens = vec![
        Token::Heading4,
        Token::Text("Hello World".into()),
        Token::Newline,
        Token::EndOfFile,
    ];
    assert_eq!(render_html(tokens).unwrap(), "<h4>Hello World</h4>");
}

#[test]
fn heading_5() {
    let tokens = vec![
        Token::Heading5,
        Token::Text("Hello World".into()),
        Token::Newline,
        Token::EndOfFile,
    ];
    assert_eq!(render_html(tokens).unwrap(), "<h5>Hello World</h5>");
}

#[test]
fn heading_6() {
    let tokens = vec![
        Token::Heading6,
        Token::Text("Hello World".into()),
        Token::Newline,
        Token::EndOfFile,
    ];
    assert_eq!(render_html(tokens).unwrap(), "<h6>Hello World</h6>");
}

#[test]
fn p() {
    let tokens = vec![
        Token::Text("Hello World".into()),
        Token::Newline,
        Token::EndOfFile,
    ];
    assert_eq!(render_html(tokens).unwrap(), "<p>Hello World</p>");
}

#[test]
fn bold() {
    let tokens = vec![
        Token::Text("Hello ".into()),
        Token::Bold,
        Token::Text("World!".into()),
        Token::Bold,
        Token::Newline,
        Token::EndOfFile,
    ];
    assert_eq!(render_html(tokens).unwrap(), "<p>Hello <b>World!</b></p>");
}

#[test]
fn italic() {
    let tokens = vec![
        Token::Text("Hello ".into()),
        Token::Italic,
        Token::Text("World!".into()),
        Token::Italic,
        Token::Newline,
        Token::EndOfFile,
    ];
    assert_eq!(render_html(tokens).unwrap(), "<p>Hello <i>World!</i></p>");
}

#[test]
fn html_newlines() {
    let tokens = vec![
        Token::Text("Hi".into()),
        Token::Newline,
        Token::Text("Hey".into()),
        Token::DoubleNewline,
        Token::Text("Yo".into()),
        Token::Newline,
        Token::EndOfFile,
    ];
    assert_eq!(render_html(tokens).unwrap(), "<p>Hi Hey</p><p>Yo</p>");
}

#[test]
fn inline_code() {
    let tokens = vec![
        Token::Code("Hello".into()),
        Token::Text(" World!".into()),
        Token::Newline,
        Token::EndOfFile,
    ];
    assert_eq!(
        render_html(tokens).unwrap(),
        "<p><code>Hello</code> World!</p>"
    );
}

#[test]
fn html_code_block() {
    let tokens = vec![
        Token::CodeBlock(
            Some("rust".into()),
            "fn main() {\n    println!(\"Hello World!\");\n}".into(),
        ),
        Token::Newline,
        Token::EndOfFile,
    ];
    assert_eq!(render_html(tokens).unwrap(), "<pre><code class=\"language-rust\">fn main() {\n    println!(\"Hello World!\");\n}</code></pre>");
}

#[test]
fn html_code_block_no_language() {
    let tokens = vec![
        Token::CodeBlock(None, "Hello\nWorld!".into()),
        Token::Newline,
        Token::EndOfFile,
    ];
    assert_eq!(
        render_html(tokens).unwrap(),
        "<pre><code>Hello\nWorld!</code></pre>"
    );
}

#[test]
fn unordered_list() {
    let tokens = vec![
        Token::UnorderedBullet(0),
        Token::Text("Hello".into()),
        Token::Newline,
        Token::UnorderedBullet(0),
        Token::Text("Hi ".into()),
        Token::Italic,
        Token::Text("there".into()),
        Token::Italic,
        Token::Newline,
        Token::UnorderedBullet(1),
        Token::Text("Hello".into()),
        Token::Newline,
        Token::UnorderedBullet(0),
        Token::Text("Hola".into()),
        Token::EndOfFile,
    ];
    assert_eq!(
        render_html(tokens).unwrap(),
        "<ul><li>Hello</li><li>Hi <i>there</i></li><ul><li>Hello</li></ul><li>Hola</li></ul>"
    );
}

#[test]
fn illegal_token_has_no_rendering() {
    let tokens = vec![
        Token::Text("Hello".into()),
        Token::Illegal,
        Token::EndOfFile,
    ];
    assert_eq!(render_html(tokens), Err(RenderError::IllegalToken));
}

#[test]
fn illegal_token_fails_wherever_it_stands() {
    assert_eq!(
        render_html(vec![Token::Illegal]),
        Err(RenderError::IllegalToken)
    );
    assert_eq!(
        render_html(vec![
            Token::Heading1,
            Token::Text("a".into()),
            Token::EndOfFile,
            Token::Illegal
        ]),
        Err(RenderError::IllegalToken)
    );
}

#[test]
fn no_tokens_no_fragment() {
    assert_eq!(render_html(vec![]).unwrap(), "");
    assert_eq!(render_html(vec![Token::EndOfFile]).unwrap(), "");
    assert_eq!(render_html(vec![Token::DoubleNewline]).unwrap(), "");
}

#[test]
fn open_headings_close_in_level_order() {
    let tokens = vec![
        Token::Heading3,
        Token::Heading1,
        Token::Text("a".into()),
        Token::Newline,
        Token::Text("b".into()),
        Token::EndOfFile,
    ];
    assert_eq!(
        render_html(tokens).unwrap(),
        "<h3><h1>a</h1></h3><p>b</p>"
    );
}

#[test]
fn italic_and_bold_toggle_on_their_own() {
    let tokens = vec![
        Token::Italic,
        Token::Text("a".into()),
        Token::Italic,
        Token::Text(" ".into()),
        Token::Italic,
        Token::Text("b".into()),
        Token::Italic,
        Token::Bold,
        Token::Italic,
        Token::Text("c".into()),
        Token::Italic,
        Token::Bold,
        Token::EndOfFile,
    ];
    assert_eq!(
        render_html(tokens).unwrap(),
        "<p><i>a</i> <i>b</i><b><i>c</i></b></p>"
    );
}

#[test]
fn emphasis_opens_a_paragraph() {
    assert_eq!(
        render_html(vec![Token::Bold, Token::Bold, Token::EndOfFile]).unwrap(),
        "<p><b></b></p>"
    );
    assert_eq!(
        render_html(vec![Token::Heading2, Token::Italic, Token::EndOfFile]).unwrap(),
        "<h2><i></i></h2>"
    );
}

#[test]
fn end_closes_open_emphasis() {
    let bold = vec![Token::Bold, Token::Text("a".into()), Token::EndOfFile];
    assert_eq!(render_html(bold).unwrap(), "<p><b>a</b></p>");
    let italic = vec![Token::Text("a".into()), Token::Italic, Token::EndOfFile];
    assert_eq!(render_html(italic).unwrap(), "<p>a<i></i></p>");
    let both = vec![
        Token::Bold,
        Token::Italic,
        Token::Text("a".into()),
        Token::EndOfFile,
    ];
    assert_eq!(render_html(both).unwrap(), "<p><b><i>a</i></b></p>");
    let other_order = vec![
        Token::Italic,
        Token::Bold,
        Token::Text("a".into()),
        Token::EndOfFile,
    ];
    assert_eq!(render_html(other_order).unwrap(), "<p><i><b>a</i></b></p>");
}

#[test]
fn emphasis_stays_open_across_breaks() {
    let tokens = vec![
        Token::Bold,
        Token::Text("a".into()),
        Token::Newline,
        Token::Text("b".into()),
        Token::DoubleNewline,
        Token::Text("c".into()),
        Token::Bold,
        Token::Italic,
        Token::DoubleNewline,
        Token::EndOfFile,
    ];
    assert_eq!(
        render_html(tokens).unwrap(),
        "<p><b>a b</p><p>c</b><i></p></i>"
    );
}

#[test]
fn end_in_the_middle_closes_emphasis_there() {
    let tokens = vec![
        Token::Bold,
        Token::Text("a".into()),
        Token::EndOfFile,
        Token::Bold,
        Token::Text("b".into()),
        Token::Bold,
        Token::EndOfFile,
    ];
    assert_eq!(
        render_html(tokens).unwrap(),
        "<p><b>a</b></p><p><b>b</b></p>"
    );
}

#[test]
fn every_fragment_closes_its_tags() {
    let sequences = vec![
        vec![Token::Bold, Token::Text("a".into()), Token::EndOfFile],
        vec![Token::Italic, Token::Bold, Token::Italic, Token::EndOfFile],
        vec![
            Token::UnorderedBullet(3),
            Token::Bold,
            Token::UnorderedBullet(1),
            Token::Italic,
            Token::Newline,
            Token::UnorderedBullet(5),
            Token::EndOfFile,
        ],
        vec![
            Token::UnorderedBullet(2),
            Token::DoubleNewline,
            Token::UnorderedBullet(0),
            Token::Text("a".into()),
            Token::Bold,
            Token::EndOfFile,
        ],
    ];
    for tokens in sequences {
        let html = render_html(tokens).unwrap();
        assert_eq!(html.matches("<b>").count(), html.matches("</b>").count());
        assert_eq!(html.matches("<i>").count(), html.matches("</i>").count());
        assert_eq!(html.matches("<ul>").count(), html.matches("</ul>").count());
        assert_eq!(html.matches("<p>").count(), html.matches("</p>").count());
        let mut open: usize = 0;
        let mut rest = html.as_str();
        while let Some(at) = rest.find("ul>") {
            if rest[..at].ends_with("</") {
                assert!(open > 0);
                open -= 1;
            } else {
                open += 1;
            }
            rest = &rest[at + 3..];
        }
        assert_eq!(open, 0);
    }
}

#[test]
fn texts_in_a_row_can_spell_a_tag() {
    let tokens = vec![
        Token::Text("<u".into()),
        Token::Text("l>".into()),
        Token::EndOfFile,
    ];
    assert_eq!(render_html(tokens).unwrap(), "<p><ul></p>");
}

#[test]
fn pending_space_waits_for_the_next_text() {
    let tokens = vec![
        Token::Text("a".into()),
        Token::Newline,
        Token::Code("b".into()),
        Token::Bold,
        Token::Text("c".into()),
        Token::Bold,
        Token::Text("d".into()),
        Token::EndOfFile,
    ];
    assert_eq!(
        render_html(tokens).unwrap(),
        "<p>a<code>b</code><b> c</b>d</p>"
    );
}

#[test]
fn line_break_outside_a_paragraph_leaves_no_space() {
    let tokens = vec![
        Token::Heading1,
        Token::Text("a".into()),
        Token::Newline,
        Token::Text("b".into()),
        Token::Newline,
        Token::Newline,
        Token::Text("c".into()),
        Token::EndOfFile,
    ];
    assert_eq!(
        render_html(tokens).unwrap(),
        "<h1>a</h1><p>b c</p>"
    );
}

#[test]
fn code_block_ignores_what_is_open() {
    let block = "<pre><code class=\"language-c\">a\n\nb</code></pre>";
    let in_paragraph = vec![
        Token::Text("x".into()),
        Token::CodeBlock(Some("c".into()), "a\n\nb".into()),
        Token::Text("y".into()),
        Token::EndOfFile,
    ];
    assert_eq!(
        render_html(in_paragraph).unwrap(),
        format!("<p>x{block}y</p>")
    );
    let in_list = vec![
        Token::UnorderedBullet(1),
        Token::CodeBlock(Some("c".into()), "a\n\nb".into()),
        Token::EndOfFile,
    ];
    assert_eq!(
        render_html(in_list).unwrap(),
        format!("<ul><ul><li>{block}</li></ul></ul>")
    );
    let alone = vec![Token::CodeBlock(Some("c".into()), "a\n\nb".into())];
    assert_eq!(render_html(alone).unwrap(), block);
}

#[test]
fn lists_open_and_close_with_the_depth() {
    let tokens = vec![
        Token::UnorderedBullet(2),
        Token::Text("a".into()),
        Token::Newline,
        Token::UnorderedBullet(0),
        Token::Text("b".into()),
        Token::Newline,
        Token::UnorderedBullet(3),
        Token::Text("c".into()),
        Token::DoubleNewline,
        Token::UnorderedBullet(0),
        Token::Text("d".into()),
        Token::EndOfFile,
    ];
    assert_eq!(
        render_html(tokens).unwrap(),
        "<ul><ul><ul><li>a</li></ul></ul><li>b</li><ul><ul><ul><li>c</li></ul></ul></ul></ul><ul><li>d</li></ul>"
    );
}

#[test]
fn list_item_stays_open_until_a_boundary() {
    let tokens = vec![
        Token::UnorderedBullet(0),
        Token::Text("a".into()),
        Token::UnorderedBullet(0),
        Token::Text("b".into()),
        Token::EndOfFile,
    ];
    assert_eq!(
        render_html(tokens).unwrap(),
        "<ul><li>a<li>b</li></ul>"
    );
}

#[test]
fn tokens_behind_the_end_are_rendered_too() {
    let tokens = vec![
        Token::Text("a".into()),
        Token::EndOfFile,
        Token::Text("b".into()),
    ];
    assert_eq!(render_html(tokens).unwrap(), "<p>a</p><p>b");
}

#[test]
fn text_is_not_escaped() {
    let tokens = vec![Token::Text("<a> & </b>".into()), Token::EndOfFile];
    assert_eq!(render_html(tokens).unwrap(), "<p><a> & </b></p>");
}
