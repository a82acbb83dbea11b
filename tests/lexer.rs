use scamper::{tokenize, Delimiter, LiteralKind, Token, TokenKind};

#[test]
fn empty_string() {
    assert_eq!(
        tokenize("").expect("lex failed"),
        vec![Token::new(TokenKind::Eof, 0, 0)]
    );
}

#[test]
fn define() {
    assert_eq!(
        tokenize("(define a 1)").expect("lex failed"),
        vec![
            Token::new(TokenKind::OpenDelimiter(Delimiter::Parenthesis), 0, 1),
            Token::new(TokenKind::Sequence, 1, 6),
            Token::new(TokenKind::Sequence, 8, 1),
            Token::new(TokenKind::Literal(LiteralKind::Integer), 10, 1),
            Token::new(TokenKind::CloseDelimiter(Delimiter::Parenthesis), 11, 1),
            Token::new(TokenKind::Eof, 12, 0)
        ]
    )
}

#[test]
fn comments() {
    assert_eq!(
        tokenize("; comment\nx").expect("lex failed"),
        vec![
            Token::new(TokenKind::LineComment, 0, 9),
            Token::new(TokenKind::Sequence, 10, 1),
            Token::new(TokenKind::Eof, 11, 0)
        ]
    );
}

#[test]
fn string_char_literals() {
    assert_eq!(
        tokenize("\"\"").expect("lex failed"),
        vec![
            Token::new(TokenKind::Literal(LiteralKind::String), 0, 2),
            Token::new(TokenKind::Eof, 2, 0)
        ]
    );
    assert_eq!(
        tokenize("\"test\"").expect("lex failed"),
        vec![
            Token::new(TokenKind::Literal(LiteralKind::String), 0, 6),
            Token::new(TokenKind::Eof, 6, 0)
        ]
    );
    assert!(tokenize("\"").is_err());
}

#[test]
fn number_literals() {
    assert_eq!(
        tokenize("1").expect("lex failed"),
        vec![
            Token::new(TokenKind::Literal(LiteralKind::Integer), 0, 1),
            Token::new(TokenKind::Eof, 1, 0)
        ]
    );
    assert_eq!(
        tokenize("9223372036854775807").expect("lex failed"),
        vec![
            Token::new(TokenKind::Literal(LiteralKind::Integer), 0, 19),
            Token::new(TokenKind::Eof, 19, 0)
        ]
    );
    assert_eq!(
        tokenize("1.0").expect("lex failed"),
        vec![
            Token::new(TokenKind::Literal(LiteralKind::Float), 0, 3),
            Token::new(TokenKind::Eof, 3, 0)
        ]
    );
}

#[test]
fn quotes() {
    assert_eq!(
        tokenize("'a").expect("lex failed"),
        vec![
            Token::new(TokenKind::Quote, 0, 1),
            Token::new(TokenKind::Sequence, 1, 1),
            Token::new(TokenKind::Eof, 2, 0)
        ]
    );
    assert_eq!(
        tokenize("'(a b c)").expect("lex failed"),
        vec![
            Token::new(TokenKind::Quote, 0, 1),
            Token::new(TokenKind::OpenDelimiter(Delimiter::Parenthesis), 1, 1),
            Token::new(TokenKind::Sequence, 2, 1),
            Token::new(TokenKind::Sequence, 4, 1),
            Token::new(TokenKind::Sequence, 6, 1),
            Token::new(TokenKind::CloseDelimiter(Delimiter::Parenthesis), 7, 1),
            Token::new(TokenKind::Eof, 8, 0)
        ]
    );
}

#[test]
fn whitespace_is_skipped_and_tracked() {
    let tokens = tokenize("  x\u{2028}y").expect("lex failed");
    assert_eq!(
        tokens,
        vec![
            Token::new(TokenKind::Sequence, 2, 1),
            Token::new(TokenKind::Sequence, 6, 1),
            Token::new(TokenKind::Eof, 7, 0)
        ]
    );
}

#[test]
fn unterminated_string_points_at_the_literal() {
    let err = tokenize("(a \"bc\nd)").unwrap_err();
    assert_eq!(err.message, "unterminated double quote string");
    assert_eq!(err.span, Some(scamper::Span { loc: 3, len: 4 }));
    assert!(err.code.is_some());
}

#[test]
fn minus_alone_is_a_symbol_and_before_digits_a_number() {
    assert_eq!(
        tokenize("- -> -5 #t #\\a").expect("lex failed"),
        vec![
            Token::new(TokenKind::Sequence, 0, 1),
            Token::new(TokenKind::Sequence, 2, 2),
            Token::new(TokenKind::Literal(LiteralKind::Integer), 5, 2),
            Token::new(TokenKind::Literal(LiteralKind::Boolean), 8, 2),
            Token::new(TokenKind::Literal(LiteralKind::Char), 11, 3),
            Token::new(TokenKind::Eof, 14, 0)
        ]
    );
}

#[test]
fn numeric_characters_beyond_ascii_start_numbers() {
    assert_eq!(
        tokenize("\u{0663}4 x").expect("lex failed"),
        vec![
            Token::new(TokenKind::Literal(LiteralKind::Integer), 0, 3),
            Token::new(TokenKind::Sequence, 4, 1),
            Token::new(TokenKind::Eof, 5, 0)
        ]
    );
    assert_eq!(
        tokenize("x\u{0663}").expect("lex failed"),
        vec![Token::new(TokenKind::Sequence, 0, 3), Token::new(TokenKind::Eof, 3, 0)]
    );
    let err = scamper::parse("\u{0663}4").unwrap_err();
    assert_eq!(err.message, "invalid integer literal");
}
