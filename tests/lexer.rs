use lox_front::lexer::{Lexer, LexerError};
use lox_front::token::{Decimal, Token, TokenKind, TokenValue};

fn number(value: f64) -> Token {
    Token::from_number(Decimal::parse(&value.to_string()).unwrap())
}

fn scan(source: &str) -> Vec<Result<Token, LexerError>> {
    Lexer::new(source.to_string()).scan_tokens()
}

#[test]
fn test_int() {
    let mut lexer = Lexer::new("123".to_string());
    assert_eq!(
        lexer.scan_tokens(),
        vec![Ok(number(123.0)), Ok(Token::bare(TokenKind::EoF))]
    );
}

#[test]
fn test_float() {
    let mut lexer = Lexer::new("123.456".to_string());
    assert_eq!(
        lexer.scan_tokens(),
        vec![Ok(number(123.456)), Ok(Token::bare(TokenKind::EoF))]
    );
}

#[test]
fn test_trailing_dot() {
    let mut lexer = Lexer::new("123.abc".to_string());
    assert_eq!(
        lexer.scan_tokens(),
        vec![
            Ok(number(123.0)),
            Ok(Token::bare(TokenKind::Dot)),
            Ok(Token::from_text(TokenKind::Identifier, "abc".to_string())),
            Ok(Token::bare(TokenKind::EoF))
        ]
    );
}

#[test]
fn lexer_test_string() {
    let mut lexer = Lexer::new("\"this is a string\"".to_string());
    assert_eq!(
        lexer.scan_tokens(),
        vec![
            Ok(Token::from_text(TokenKind::String, "this is a string".to_string())),
            Ok(Token::bare(TokenKind::EoF))
        ]
    );
}

#[test]
fn lexer_test_expression() {
    let mut lexer = Lexer::new("var _true = (true or false)".to_string());
    assert_eq!(
        lexer.scan_tokens(),
        vec![
            Ok(Token::bare(TokenKind::Var)),
            Ok(Token::from_text(TokenKind::Identifier, "_true".to_string())),
            Ok(Token::bare(TokenKind::Equal)),
            Ok(Token::bare(TokenKind::LeftParen)),
            Ok(Token::bare(TokenKind::True)),
            Ok(Token::bare(TokenKind::Or)),
            Ok(Token::bare(TokenKind::False)),
            Ok(Token::bare(TokenKind::RightParen)),
            Ok(Token::bare(TokenKind::EoF))
        ]
    );
}

#[test]
fn test_number() {
    let mut lexer = Lexer::new("1".to_string());
    assert_eq!(
        lexer.scan_tokens(),
        vec![Ok(number(1.0)), Ok(Token::bare(TokenKind::EoF))]
    );
}

#[test]
fn empty_source_gives_only_end_of_input() {
    assert_eq!(scan(""), vec![Ok(Token::bare(TokenKind::EoF))]);
    assert_eq!(scan(" \t\r\n"), vec![Ok(Token::bare(TokenKind::EoF))]);
}

#[test]
fn unterminated_string_reports_its_text_and_line() {
    assert_eq!(
        scan("\"abc"),
        vec![
            Err(LexerError::UnterminatedString("abc".to_string(), 1)),
            Ok(Token::bare(TokenKind::EoF))
        ]
    );
}

#[test]
fn unterminated_string_reports_the_line_it_starts_on() {
    assert_eq!(
        scan("\n\"ab\ncd"),
        vec![
            Err(LexerError::UnterminatedString("ab\ncd".to_string(), 2)),
            Ok(Token::bare(TokenKind::EoF))
        ]
    );
}

#[test]
fn comment_is_discarded() {
    assert_eq!(
        scan("// comment\n123"),
        vec![Ok(number(123.0)), Ok(Token::bare(TokenKind::EoF))]
    );
}

#[test]
fn comment_advances_the_line() {
    assert_eq!(
        scan("// comment\n@"),
        vec![Err(LexerError::UnexpectedChar('@', 2)), Ok(Token::bare(TokenKind::EoF))]
    );
}

#[test]
fn unexpected_characters_do_not_stop_the_scan() {
    assert_eq!(
        scan("1 # 2\n$"),
        vec![
            Ok(number(1.0)),
            Err(LexerError::UnexpectedChar('#', 1)),
            Ok(number(2.0)),
            Err(LexerError::UnexpectedChar('$', 2)),
            Ok(Token::bare(TokenKind::EoF))
        ]
    );
}

#[test]
fn two_character_operators_are_preferred() {
    assert_eq!(
        scan("!= ! == = <= < >= > / -+;*,.{}"),
        vec![
            Ok(Token::bare(TokenKind::BangEqual)),
            Ok(Token::bare(TokenKind::Bang)),
            Ok(Token::bare(TokenKind::EqualEqual)),
            Ok(Token::bare(TokenKind::Equal)),
            Ok(Token::bare(TokenKind::LessEqual)),
            Ok(Token::bare(TokenKind::Less)),
            Ok(Token::bare(TokenKind::GreaterEqual)),
            Ok(Token::bare(TokenKind::Greater)),
            Ok(Token::bare(TokenKind::Slash)),
            Ok(Token::bare(TokenKind::Minus)),
            Ok(Token::bare(TokenKind::Plus)),
            Ok(Token::bare(TokenKind::Semicolon)),
            Ok(Token::bare(TokenKind::Star)),
            Ok(Token::bare(TokenKind::Comma)),
            Ok(Token::bare(TokenKind::Dot)),
            Ok(Token::bare(TokenKind::LeftBrace)),
            Ok(Token::bare(TokenKind::RightBrace)),
            Ok(Token::bare(TokenKind::EoF))
        ]
    );
}

#[test]
fn every_keyword_is_recognised() {
    let tokens = scan("and class else false for fun if nil or print return super this true var while");
    let kinds: Vec<TokenKind> = tokens.into_iter().map(|t| t.unwrap().kind).collect();
    assert_eq!(
        kinds,
        vec![
            TokenKind::And,
            TokenKind::Class,
            TokenKind::Else,
            TokenKind::False,
            TokenKind::For,
            TokenKind::Fun,
            TokenKind::If,
            TokenKind::Nil,
            TokenKind::Or,
            TokenKind::Print,
            TokenKind::Return,
            TokenKind::Super,
            TokenKind::This,
            TokenKind::True,
            TokenKind::Var,
            TokenKind::While,
            TokenKind::EoF
        ]
    );
}

#[test]
fn words_use_unicode_letters_and_digits() {
    assert_eq!(
        scan("été x1_y andy"),
        vec![
            Ok(Token::from_text(TokenKind::Identifier, "été".to_string())),
            Ok(Token::from_text(TokenKind::Identifier, "x1_y".to_string())),
            Ok(Token::from_text(TokenKind::Identifier, "andy".to_string())),
            Ok(Token::bare(TokenKind::EoF))
        ]
    );
}

#[test]
fn string_may_span_lines() {
    assert_eq!(
        scan("\"a\nb\" @"),
        vec![
            Ok(Token::from_text(TokenKind::String, "a\nb".to_string())),
            Err(LexerError::UnexpectedChar('@', 2)),
            Ok(Token::bare(TokenKind::EoF))
        ]
    );
}

#[test]
fn number_keeps_its_exact_text() {
    let tokens = scan("007.50");
    match &tokens[0] {
        Ok(Token { kind: TokenKind::Number, value: Some(TokenValue::Number(d)) }) => {
            assert_eq!(d.text(), "007.50");
            assert_eq!(d.display_text(), "7.5");
            assert_eq!(d.text().parse::<f64>().unwrap(), 7.5);
        }
        other => panic!("unexpected {:?}", other),
    }
}

#[test]
fn constructors_set_the_payload() {
    let bare = Token::bare(TokenKind::Plus);
    assert_eq!(bare.kind, TokenKind::Plus);
    assert_eq!(bare.value, None);
    let text = Token::from_text(TokenKind::String, "hi".to_string());
    assert_eq!(text.value, Some(TokenValue::String("hi".to_string())));
    let d = Decimal::parse("2.5").unwrap();
    let num = Token::from_number(d.clone());
    assert_eq!(num.kind, TokenKind::Number);
    assert_eq!(num.value, Some(TokenValue::Number(d)));
    assert_eq!(num.duplicate(), num);
}

#[test]
fn decimal_parse_accepts_only_number_shapes() {
    assert!(Decimal::parse("12").is_some());
    assert!(Decimal::parse("1.25").is_some());
    assert!(Decimal::parse("").is_none());
    assert!(Decimal::parse("1.").is_none());
    assert!(Decimal::parse(".5").is_none());
    assert!(Decimal::parse("1.2.3").is_none());
    assert!(Decimal::parse("a").is_none());
}

#[test]
fn decimal_display_is_shortest() {
    let shown = |s: &str| Decimal::parse(s).unwrap().display_text();
    assert_eq!(shown("123"), "123");
    assert_eq!(shown("1.0"), "1");
    assert_eq!(shown("000"), "0");
    assert_eq!(shown("0.10"), "0.1");
    assert_eq!(shown("45.67"), "45.67");
}

#[test]
fn lexer_error_messages() {
    assert_eq!(
        LexerError::UnexpectedChar('#', 3).message(),
        "Line 3: Unexpected character: '#'"
    );
    assert_eq!(
        LexerError::UnterminatedString("abc".to_string(), 12).message(),
        "Line 12: Unterminated string: 'abc'"
    );
    assert_eq!(
        LexerError::InvalidNumber("1x".to_string(), 405).message(),
        "Line 405: Invalid number: '1x'"
    );
}

#[test]
fn token_display_text() {
    assert_eq!(Token::bare(TokenKind::EqualEqual).display_text(), "==");
    assert_eq!(Token::bare(TokenKind::EoF).display_text(), "EOF");
    assert_eq!(
        Token::from_text(TokenKind::Identifier, "x".to_string()).display_text(),
        "identifier(\"x\")"
    );
    assert_eq!(number(2.5).display_text(), "number(2.5)");
}

#[test]
fn output_ends_with_end_of_input_and_tokens_are_well_formed() {
    for source in ["", "1 + 2", "\"open", "x = (y >= 3.25) // c", "#", "and_or 0.5."] {
        let tokens = scan(source);
        assert_eq!(tokens.last(), Some(&Ok(Token::bare(TokenKind::EoF))));
        for token in tokens.into_iter().flatten() {
            match (&token.kind, &token.value) {
                (TokenKind::Identifier | TokenKind::String, value) => {
                    assert!(matches!(value, Some(TokenValue::String(_))))
                }
                (TokenKind::Number, value) => assert!(matches!(value, Some(TokenValue::Number(_)))),
                (_, value) => assert!(value.is_none()),
            }
        }
    }
}
