use rusttc::lexer::tokenize;
use rusttc::lexer::DocStyle;
use rusttc::lexer::TokenKind;

#[test]
fn test_whitespace() {
    let input = "   \t\n";
    let tokens = tokenize(input);
    assert_eq!(tokens.len(), 1);
    assert_eq!(tokens[0].kind, TokenKind::Whitespace);
    assert_eq!(tokens[0].text, "   \t\n");
}

#[test]
fn test_identifiers() {
    let input = "abc def";
    let tokens = tokenize(input);
    assert_eq!(tokens.len(), 3); // includes whitespace
    assert_eq!(tokens[0].kind, TokenKind::Ident);
    assert_eq!(tokens[0].text, "abc");
    assert_eq!(tokens[2].kind, TokenKind::Ident);
    assert_eq!(tokens[2].text, "def");
}

#[test]
fn test_line_comment() {
    let input = "// this is a comment";
    let tokens = tokenize(input);
    assert_eq!(tokens.len(), 1);
    assert_eq!(tokens[0].kind, TokenKind::LineComment { doc_style: None });
    assert_eq!(tokens[0].text, "// this is a comment");
}

#[test]
fn test_block_comment() {
    let input = "/* this is a \n block comment */";
    let tokens = tokenize(input);
    assert_eq!(tokens.len(), 1);
    assert_eq!(tokens[0].kind, TokenKind::BlockComment { doc_style: None, terminated: true });
    assert_eq!(tokens[0].text, "/* this is a \n block comment */");
}

#[test]
fn test_multiline_comment() {
    let input = "/* this is a \n multiline \n comment */";
    let tokens = tokenize(input);
    assert_eq!(tokens.len(), 1);
    assert_eq!(tokens[0].kind, TokenKind::BlockComment { doc_style: None, terminated: true });
    assert_eq!(tokens[0].text, "/* this is a \n multiline \n comment */");
}

#[test]
fn test_whitespace_with_newlines() {
    let input = "   \n   \t\n";
    let tokens = tokenize(input);
    assert_eq!(tokens.len(), 1);
    assert_eq!(tokens[0].kind, TokenKind::Whitespace);
    assert_eq!(tokens[0].text, "   \n   \t\n");
}

#[test]
fn test_mixed_tokens_with_newlines() {
    let input = "fn main() {\n    println!(\"Hello, world!\");\n}";
    let tokens = tokenize(input);
    assert_eq!(tokens[0].kind, TokenKind::Ident);
    assert_eq!(tokens[0].text, "fn");
    assert_eq!(tokens[1].kind, TokenKind::Whitespace);
    assert_eq!(tokens[2].kind, TokenKind::Ident);
    assert_eq!(tokens[2].text, "main");
    assert_eq!(tokens[3].kind, TokenKind::OpenParen);
    assert_eq!(tokens[3].text, "(");
    assert_eq!(tokens[4].kind, TokenKind::CloseParen);
    assert_eq!(tokens[4].text, ")");
    assert_eq!(tokens[5].kind, TokenKind::Whitespace);
    assert_eq!(tokens[6].kind, TokenKind::OpenBrace);
    assert_eq!(tokens[7].kind, TokenKind::Whitespace);
    assert_eq!(tokens[8].kind, TokenKind::Ident);
    assert_eq!(tokens[8].text, "println");
    assert_eq!(tokens[9].text, "!");
    assert_eq!(tokens[10].kind, TokenKind::OpenParen);
    assert_eq!(tokens[11].kind, TokenKind::StringLiteral);
    assert_eq!(tokens[11].text, "\"Hello, world!\"");
    assert_eq!(tokens[12].kind, TokenKind::CloseParen);
    assert_eq!(tokens[13].kind, TokenKind::Semi);
    assert_eq!(tokens[14].kind, TokenKind::Whitespace);
    assert_eq!(tokens[15].kind, TokenKind::CloseBrace);
}

#[test]
fn test_whitespace_run_is_one_token() {
    let input = "\r\t \n ";
    let tokens = tokenize(input);
    assert_eq!(tokens.len(), 1);
    assert_eq!(tokens[0].kind, TokenKind::Whitespace);
    assert_eq!(tokens[0].text, input);
}

#[test]
fn test_digit_run_is_one_literal() {
    let input = "0123456789";
    let tokens = tokenize(input);
    assert_eq!(tokens.len(), 1);
    assert_eq!(tokens[0].kind, TokenKind::Literal);
    assert_eq!(tokens[0].text, input);
}

#[test]
fn test_round_trip_reconstruction() {
    let input = "let x = 10 + 2; /* note /* inner */ done */ 'c' \"s\" //! tail";
    let tokens = tokenize(input);
    let mut rebuilt = String::new();
    for t in &tokens {
        rebuilt.push_str(&t.text);
    }
    assert_eq!(rebuilt, input);
}

#[test]
fn test_nested_block_comment() {
    let tokens = tokenize("/* /* */ */");
    assert_eq!(tokens.len(), 1);
    assert_eq!(tokens[0].kind, TokenKind::BlockComment { doc_style: None, terminated: true });
    assert_eq!(tokens[0].text, "/* /* */ */");
}

#[test]
fn test_unterminated_block_comment() {
    let tokens = tokenize("/* /*");
    assert_eq!(tokens.len(), 1);
    assert_eq!(tokens[0].kind, TokenKind::BlockComment { doc_style: None, terminated: false });
    assert_eq!(tokens[0].text, "/* /*");
}

#[test]
fn test_unterminated_string_error() {
    let tokens = tokenize("\"abc");
    assert_eq!(tokens.len(), 1);
    assert_eq!(tokens[0].kind, TokenKind::Error);
    assert_eq!(tokens[0].text, "\"abc");
}

#[test]
fn test_unrecognized_character_error() {
    let tokens = tokenize("\u{00a7}");
    assert_eq!(tokens.len(), 1);
    assert_eq!(tokens[0].kind, TokenKind::Error);
    assert_eq!(tokens[0].text, "Err");
}

#[test]
fn test_doc_comment_styles() {
    let outer_line = tokenize("/// doc");
    assert_eq!(outer_line[0].kind, TokenKind::LineComment { doc_style: Some(DocStyle::Outer) });
    assert_eq!(outer_line[0].text, "/// doc");

    let inner_line = tokenize("//! doc");
    assert_eq!(inner_line[0].kind, TokenKind::LineComment { doc_style: Some(DocStyle::Inner) });
    assert_eq!(inner_line[0].text, "//! doc");

    let outer_block = tokenize("/** doc */");
    assert_eq!(
        outer_block[0].kind,
        TokenKind::BlockComment { doc_style: Some(DocStyle::Outer), terminated: true }
    );

    let inner_block = tokenize("/*! doc */");
    assert_eq!(
        inner_block[0].kind,
        TokenKind::BlockComment { doc_style: Some(DocStyle::Inner), terminated: true }
    );
}

#[test]
fn test_char_literals() {
    let closed = tokenize("'a'");
    assert_eq!(closed.len(), 1);
    assert_eq!(closed[0].kind, TokenKind::CharLiteral);
    assert_eq!(closed[0].text, "'a'");

    // No closing quote before the end: the partial text is kept.
    let open = tokenize("'ab");
    assert_eq!(open.len(), 1);
    assert_eq!(open[0].kind, TokenKind::CharLiteral);
    assert_eq!(open[0].text, "'ab");
}

#[test]
fn test_punctuation_tokens() {
    let input = ";,.(){}[]@#~?:$=!<>-&|+*/^%";
    let tokens = tokenize(input);
    let expected = [
        TokenKind::Semi,
        TokenKind::Comma,
        TokenKind::Dot,
        TokenKind::OpenParen,
        TokenKind::CloseParen,
        TokenKind::OpenBrace,
        TokenKind::CloseBrace,
        TokenKind::OpenBracket,
        TokenKind::CloseBracket,
        TokenKind::At,
        TokenKind::Pound,
        TokenKind::Tilde,
        TokenKind::Question,
        TokenKind::Colon,
        TokenKind::Dollar,
        TokenKind::Eq,
        TokenKind::Bang,
        TokenKind::Lt,
        TokenKind::Gt,
        TokenKind::Minus,
        TokenKind::And,
        TokenKind::Or,
        TokenKind::Plus,
        TokenKind::Star,
        TokenKind::Slash,
        TokenKind::Caret,
        TokenKind::Percent,
    ];
    assert_eq!(tokens.len(), expected.len());
    for (i, kind) in expected.iter().enumerate() {
        assert_eq!(tokens[i].kind, *kind);
    }
}

#[test]
fn test_null_character_yields_eof_token() {
    let tokens = tokenize("\0");
    assert_eq!(tokens.len(), 1);
    assert_eq!(tokens[0].kind, TokenKind::EOF);
    assert_eq!(tokens[0].text, "\0");
}

#[test]
fn test_empty_input() {
    let tokens = tokenize("");
    assert_eq!(tokens.len(), 0);
}
