use wikiup::lexer::{indent_depth, Lexer, Token};

#[test]
fn headings() {
    let text = String::from("Hello World");
    let input = format!(
        "
# {text}
## {text}
### {text}
#### {text}
##### {text}
###### {text}
"
    );
    let mut lexer = Lexer::new(input);
    assert_eq!(lexer.next_token(), Token::Newline);
    assert_eq!(lexer.next_token(), Token::Heading1);
    assert_eq!(lexer.next_token(), Token::Text(text.clone()));
    assert_eq!(lexer.next_token(), Token::Newline);
    assert_eq!(lexer.next_token(), Token::Heading2);
    assert_eq!(lexer.next_token(), Token::Text(text.clone()));
    assert_eq!(lexer.next_token(), Token::Newline);
    assert_eq!(lexer.next_token(), Token::Heading3);
    assert_eq!(lexer.next_token(), Token::Text(text.clone()));
    assert_eq!(lexer.next_token(), Token::Newline);
    assert_eq!(lexer.next_token(), Token::Heading4);
    assert_eq!(lexer.next_token(), Token::Text(text.clone()));
    assert_eq!(lexer.next_token(), Token::Newline);
    assert_eq!(lexer.next_token(), Token::Heading5);
    assert_eq!(lexer.next_token(), Token::Text(text.clone()));
    assert_eq!(lexer.next_token(), Token::Newline);
    assert_eq!(lexer.next_token(), Token::Heading6);
    assert_eq!(lexer.next_token(), Token::Text(text));
    assert_eq!(lexer.next_token(), Token::Newline);
    assert_eq!(lexer.next_token(), Token::EndOfFile);
}

#[test]
fn bold_and_italic() {
    let text = String::from("hi");
    let input = format!("{text} **{text}** *{text}* ***{text}***");
    let mut lexer = Lexer::new(input);
    assert_eq!(lexer.next_token(), Token::Text("hi ".into()));
    assert_eq!(lexer.next_token(), Token::Bold);
    assert_eq!(lexer.next_token(), Token::Text("hi".into()));
    assert_eq!(lexer.next_token(), Token::Bold);
    assert_eq!(lexer.next_token(), Token::Text(" ".into()));
    assert_eq!(lexer.next_token(), Token::Italic);
    assert_eq!(lexer.next_token(), Token::Text("hi".into()));
    assert_eq!(lexer.next_token(), Token::Italic);
    assert_eq!(lexer.next_token(), Token::Text(" ".into()));
    assert_eq!(lexer.next_token(), Token::Bold);
    assert_eq!(lexer.next_token(), Token::Italic);
    assert_eq!(lexer.next_token(), Token::Text("hi".into()));
    assert_eq!(lexer.next_token(), Token::Italic);
    assert_eq!(lexer.next_token(), Token::Bold);
    assert_eq!(lexer.next_token(), Token::EndOfFile);
}

#[test]
fn lexer_newlines() {
    let input = "Hello\n\nWorld\n".to_string();
    let mut lexer = Lexer::new(input);
    assert_eq!(lexer.next_token(), Token::Text("Hello".into()));
    assert_eq!(lexer.next_token(), Token::DoubleNewline);
    assert_eq!(lexer.next_token(), Token::Text("World".into()));
    assert_eq!(lexer.next_token(), Token::Newline);
    assert_eq!(lexer.next_token(), Token::EndOfFile);
}

#[test]
fn code() {
    let input = "Example: `code`".to_string();
    let mut lexer = Lexer::new(input);
    assert_eq!(lexer.next_token(), Token::Text("Example: ".into()));
    assert_eq!(lexer.next_token(), Token::Code("code".into()));
    assert_eq!(lexer.next_token(), Token::EndOfFile);
}

#[test]
fn lexer_code_block_no_language() {
    let input = "```\ncode\n```".to_string();
    let mut lexer = Lexer::new(input);
    assert_eq!(lexer.next_token(), Token::CodeBlock(None, "code\n".into()));
    assert_eq!(lexer.next_token(), Token::EndOfFile);
}

#[test]
fn lexer_code_block() {
    let input = "```rust\n\rcode\n\rmore code\n\r```".to_string();
    let mut lexer = Lexer::new(input);
    assert_eq!(
        lexer.next_token(),
        Token::CodeBlock(Some("rust".into()), "code\nmore code\n".into())
    );
    assert_eq!(lexer.next_token(), Token::EndOfFile);
}

#[test]
fn handle_carriage_return() {
    let input = String::from("# Hello\r\n\r\nWorld\r\n");
    let mut lexer = Lexer::new(input);
    assert_eq!(lexer.next_token(), Token::Heading1);
    assert_eq!(lexer.next_token(), Token::Text("Hello".into()));
    assert_eq!(lexer.next_token(), Token::DoubleNewline);
    assert_eq!(lexer.next_token(), Token::Text("World".into()));
    assert_eq!(lexer.next_token(), Token::Newline);
    assert_eq!(lexer.next_token(), Token::EndOfFile);
}

#[test]
fn unordered_bullets() {
    let input = "- hi\n- hey\n  - hola\n    - **howdy**".to_string();
    let mut lexer = Lexer::new(input);
    assert_eq!(lexer.next_token(), Token::UnorderedBullet(0));
    assert_eq!(lexer.next_token(), Token::Text("hi".into()));
    assert_eq!(lexer.next_token(), Token::Newline);
    assert_eq!(lexer.next_token(), Token::UnorderedBullet(0));
    assert_eq!(lexer.next_token(), Token::Text("hey".into()));
    assert_eq!(lexer.next_token(), Token::Newline);
    assert_eq!(lexer.next_token(), Token::UnorderedBullet(1));
    assert_eq!(lexer.next_token(), Token::Text("hola".into()));
    assert_eq!(lexer.next_token(), Token::Newline);
    assert_eq!(lexer.next_token(), Token::UnorderedBullet(2));
    assert_eq!(lexer.next_token(), Token::Bold);
    assert_eq!(lexer.next_token(), Token::Text("howdy".into()));
    assert_eq!(lexer.next_token(), Token::Bold);
    assert_eq!(lexer.next_token(), Token::EndOfFile);
}

fn tokens(input: &str) -> Vec<Token> {
    let mut lexer = Lexer::new(input.to_string());
    let mut tokens = Vec::new();
    loop {
        let token = lexer.next_token();
        let end = token == Token::EndOfFile;
        tokens.push(token);
        if end {
            return tokens;
        }
    }
}

#[test]
fn seven_hashes_are_illegal() {
    assert_eq!(
        tokens("####### Hello"),
        vec![Token::Illegal, Token::Text("Hello".into()), Token::EndOfFile]
    );
}

#[test]
fn six_hashes_are_the_deepest_heading() {
    assert_eq!(
        tokens("######Hello"),
        vec![Token::Heading6, Token::Text("Hello".into()), Token::EndOfFile]
    );
}

#[test]
fn heading_skips_every_space_behind_the_hashes() {
    assert_eq!(
        tokens("##    Hello"),
        vec![Token::Heading2, Token::Text("Hello".into()), Token::EndOfFile]
    );
}

#[test]
fn heading_needs_no_line_start() {
    assert_eq!(
        tokens("a # b"),
        vec![
            Token::Text("a ".into()),
            Token::Heading1,
            Token::Text("b".into()),
            Token::EndOfFile
        ]
    );
}

#[test]
fn dash_inside_text_is_text() {
    assert_eq!(
        tokens("a - b"),
        vec![Token::Text("a - b".into()), Token::EndOfFile]
    );
}

#[test]
fn dash_behind_a_marker_is_a_bullet() {
    assert_eq!(
        tokens("**- b"),
        vec![
            Token::Bold,
            Token::UnorderedBullet(0),
            Token::Text("b".into()),
            Token::EndOfFile
        ]
    );
}

#[test]
fn spaces_that_lead_the_document_are_text() {
    assert_eq!(
        tokens("  - a"),
        vec![Token::Text("  - a".into()), Token::EndOfFile]
    );
}

#[test]
fn spaces_that_lead_a_line_are_dropped() {
    assert_eq!(
        tokens("a\n   b"),
        vec![
            Token::Text("a".into()),
            Token::Newline,
            Token::Text("b".into()),
            Token::EndOfFile
        ]
    );
}

#[test]
fn odd_indentation_rounds_down() {
    assert_eq!(
        tokens("a\n   - b\n     - c\n - d"),
        vec![
            Token::Text("a".into()),
            Token::Newline,
            Token::UnorderedBullet(1),
            Token::Text("b".into()),
            Token::Newline,
            Token::UnorderedBullet(2),
            Token::Text("c".into()),
            Token::Newline,
            Token::UnorderedBullet(0),
            Token::Text("d".into()),
            Token::EndOfFile
        ]
    );
}

#[test]
fn depth_is_one_level_for_two_spaces() {
    assert_eq!(indent_depth(0), 0);
    assert_eq!(indent_depth(1), 0);
    assert_eq!(indent_depth(2), 1);
    assert_eq!(indent_depth(3), 1);
    assert_eq!(indent_depth(4), 2);
    assert_eq!(indent_depth(9), 4);
    assert_eq!(indent_depth(usize::MAX), usize::MAX / 2);
}

#[test]
fn bullet_takes_the_byte_behind_the_dash() {
    assert_eq!(
        tokens("-xy"),
        vec![
            Token::UnorderedBullet(0),
            Token::Text("y".into()),
            Token::EndOfFile
        ]
    );
    assert_eq!(tokens("-"), vec![Token::UnorderedBullet(0), Token::EndOfFile]);
}

#[test]
fn broken_character_becomes_empty_text() {
    // The bullet takes the first of the two bytes of `é`.
    assert_eq!(
        tokens("-é"),
        vec![
            Token::UnorderedBullet(0),
            Token::Text(String::new()),
            Token::EndOfFile
        ]
    );
}

#[test]
fn text_beyond_ascii_is_kept() {
    assert_eq!(
        tokens("héllo *wörld* — ✓"),
        vec![
            Token::Text("héllo ".into()),
            Token::Italic,
            Token::Text("wörld".into()),
            Token::Italic,
            Token::Text(" — ✓".into()),
            Token::EndOfFile
        ]
    );
}

#[test]
fn three_line_breaks_are_one_paragraph_break() {
    assert_eq!(
        tokens("a\n\n\nb\n\n\n\n"),
        vec![
            Token::Text("a".into()),
            Token::DoubleNewline,
            Token::Text("b".into()),
            Token::DoubleNewline,
            Token::EndOfFile
        ]
    );
}

#[test]
fn two_or_four_backticks_are_illegal() {
    assert_eq!(
        tokens("``a"),
        vec![Token::Illegal, Token::Text("a".into()), Token::EndOfFile]
    );
    assert_eq!(
        tokens("````\na"),
        vec![
            Token::Illegal,
            Token::Newline,
            Token::Text("a".into()),
            Token::EndOfFile
        ]
    );
}

#[test]
fn code_without_an_end_reaches_the_end_of_the_document() {
    assert_eq!(
        tokens("a `b\nc"),
        vec![
            Token::Text("a ".into()),
            Token::Code("b\nc".into()),
            Token::EndOfFile
        ]
    );
    assert_eq!(tokens("`"), vec![Token::Code(String::new()), Token::EndOfFile]);
}

#[test]
fn code_keeps_markers_as_they_are() {
    assert_eq!(
        tokens("`# *a* - b`c"),
        vec![
            Token::Code("# *a* - b".into()),
            Token::Text("c".into()),
            Token::EndOfFile
        ]
    );
}

#[test]
fn fence_without_an_end_reaches_the_end_of_the_document() {
    assert_eq!(
        tokens("```rust"),
        vec![
            Token::CodeBlock(Some("rust".into()), String::new()),
            Token::EndOfFile
        ]
    );
    assert_eq!(
        tokens("```rust\nlet a;"),
        vec![
            Token::CodeBlock(Some("rust".into()), "let a;".into()),
            Token::EndOfFile
        ]
    );
    assert_eq!(
        tokens("```"),
        vec![Token::CodeBlock(None, String::new()), Token::EndOfFile]
    );
}

#[test]
fn fence_keeps_every_line_break_of_the_body() {
    assert_eq!(
        tokens("```\n\n\na\n\n  b\n\n```"),
        vec![
            Token::CodeBlock(None, "\n\na\n\n  b\n\n".into()),
            Token::EndOfFile
        ]
    );
}

#[test]
fn fence_ends_with_its_closing_backticks() {
    assert_eq!(
        tokens("```\na\n```b"),
        vec![
            Token::CodeBlock(None, "a\n".into()),
            Token::Text("b".into()),
            Token::EndOfFile
        ]
    );
    assert_eq!(
        tokens("```\na\n`````\n\nb"),
        vec![
            Token::CodeBlock(None, "a\n".into()),
            Token::DoubleNewline,
            Token::Text("b".into()),
            Token::EndOfFile
        ]
    );
}

#[test]
fn end_token_comes_again_and_again() {
    let mut lexer = Lexer::new("a\n  ".to_string());
    assert_eq!(lexer.next_token(), Token::Text("a".into()));
    assert_eq!(lexer.next_token(), Token::Newline);
    assert_eq!(lexer.next_token(), Token::EndOfFile);
    assert_eq!(lexer.next_token(), Token::EndOfFile);
    assert_eq!(lexer.next_token(), Token::EndOfFile);
}

#[test]
fn end_sentinel_inside_the_document_ends_it() {
    let mut lexer = Lexer::new("a\0b".to_string());
    assert_eq!(lexer.next_token(), Token::Text("a".into()));
    assert_eq!(lexer.next_token(), Token::EndOfFile);
    assert_eq!(lexer.next_token(), Token::EndOfFile);
}

#[test]
fn empty_document_is_the_end_token() {
    assert_eq!(tokens(""), vec![Token::EndOfFile]);
    assert_eq!(tokens("\r\r"), vec![Token::EndOfFile]);
}

#[test]
fn single_asterisk_closes_an_open_italic_span_first() {
    assert_eq!(
        tokens("*a**b"),
        vec![
            Token::Italic,
            Token::Text("a".into()),
            Token::Italic,
            Token::Italic,
            Token::Text("b".into()),
            Token::EndOfFile
        ]
    );
}

#[test]
fn end_token_is_told_apart() {
    assert!(Token::EndOfFile.is_end());
    assert!(!Token::Newline.is_end());
    assert!(!Token::Illegal.is_end());
    assert!(!Token::Text(String::new()).is_end());
}

#[test]
fn undecodable_runs_are_counted() {
    let mut lexer = Lexer::new("-é".to_string());
    assert_eq!(lexer.next_token_checked(), (Token::UnorderedBullet(0), 0));
    assert_eq!(lexer.next_token_checked(), (Token::Text(String::new()), 1));
    assert_eq!(lexer.next_token_checked(), (Token::EndOfFile, 0));
    assert_eq!(lexer.next_token_checked(), (Token::EndOfFile, 0));
}

#[test]
fn decodable_runs_are_not_counted() {
    let mut lexer = Lexer::new("é `ü` *ö*\n```ä\nß\n```\n```\n```".to_string());
    loop {
        let (token, undecodable) = lexer.next_token_checked();
        assert_eq!(undecodable, 0);
        if token == Token::EndOfFile {
            break;
        }
    }
}

#[test]
fn undecodable_code_is_counted() {
    // The bullet takes the first byte of `é`; the second one begins the code.
    let mut lexer = Lexer::new("x\n-é`".to_string());
    assert_eq!(lexer.next_token_checked(), (Token::Text("x".into()), 0));
    assert_eq!(lexer.next_token_checked(), (Token::Newline, 0));
    assert_eq!(lexer.next_token_checked(), (Token::UnorderedBullet(0), 0));
    assert_eq!(lexer.next_token_checked(), (Token::Text(String::new()), 1));
    assert_eq!(lexer.next_token_checked(), (Token::Code(String::new()), 0));
    assert_eq!(lexer.next_token_checked(), (Token::EndOfFile, 0));
}
