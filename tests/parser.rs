use lox_front::ast_display::AstDisplay;
use lox_front::expression::{BinaryExpr, Expr, GroupingExpr, UnaryExpr};
use lox_front::lexer::Lexer;
use lox_front::parser::{Parser, ParserError};
use lox_front::token::{Decimal, Token, TokenKind};

fn number(value: f64) -> Token {
    Token::from_number(Decimal::parse(&value.to_string()).unwrap())
}

fn literal(value: f64) -> Expr {
    Expr::NumberLiteral(Decimal::parse(&value.to_string()).unwrap())
}

fn parse_source(source: &str) -> Result<Expr, ParserError> {
    let tokens: Vec<Token> = Lexer::new(source.to_string())
        .scan_tokens()
        .into_iter()
        .map(|t| t.unwrap())
        .collect();
    Parser::new(tokens).parse()
}

#[test]
fn parser_test_equality() -> Result<(), ParserError> {
    let tokens: Vec<Token> = vec![number(1.0), Token::bare(TokenKind::EqualEqual), number(1.0)];
    let mut parser = Parser::new(tokens);
    let expression = parser.parse();
    assert_eq!(
        expression?,
        Expr::Binary(BinaryExpr::new(literal(1.0), Token::bare(TokenKind::EqualEqual), literal(1.0)))
    );
    Ok(())
}

#[test]
fn parser_test_comparison() -> Result<(), ParserError> {
    let tokens: Vec<Token> = vec![number(1.0), Token::bare(TokenKind::Greater), number(2.0)];
    let mut parser = Parser::new(tokens);
    let expression = parser.parse();
    assert_eq!(
        expression?,
        Expr::Binary(BinaryExpr::new(literal(1.0), Token::bare(TokenKind::Greater), literal(2.0)))
    );
    Ok(())
}

#[test]
fn parser_test_term() -> Result<(), ParserError> {
    let tokens: Vec<Token> = vec![number(1.0), Token::bare(TokenKind::Plus), number(2.0)];
    let mut parser = Parser::new(tokens);
    let expression = parser.parse();
    assert_eq!(
        expression?,
        Expr::Binary(BinaryExpr::new(literal(1.0), Token::bare(TokenKind::Plus), literal(2.0)))
    );
    Ok(())
}

#[test]
fn parser_test_factor() -> Result<(), ParserError> {
    let tokens: Vec<Token> = vec![number(1.0), Token::bare(TokenKind::Star), number(2.0)];
    let mut parser = Parser::new(tokens);
    let expression = parser.parse();
    assert_eq!(
        expression?,
        Expr::Binary(BinaryExpr::new(literal(1.0), Token::bare(TokenKind::Star), literal(2.0)))
    );
    Ok(())
}

#[test]
fn parser_test_unary() -> Result<(), ParserError> {
    let tokens: Vec<Token> = vec![Token::bare(TokenKind::Minus), number(1.0)];
    let mut parser = Parser::new(tokens);
    let expression = parser.parse();
    assert_eq!(
        expression?,
        Expr::Unary(UnaryExpr::new(Token::bare(TokenKind::Minus), literal(1.0)))
    );
    Ok(())
}

#[test]
fn parser_test_maths() -> Result<(), ParserError> {
    // (1 + 2) * 3 - 4 / 2
    let tokens: Vec<Token> = vec![
        Token::bare(TokenKind::LeftParen),
        number(1.0),
        Token::bare(TokenKind::Plus),
        number(2.0),
        Token::bare(TokenKind::RightParen),
        Token::bare(TokenKind::Star),
        number(3.0),
        Token::bare(TokenKind::Minus),
        number(4.0),
        Token::bare(TokenKind::Slash),
        number(2.0),
    ];
    let mut parser = Parser::new(tokens);
    let expression = parser.parse();
    assert_eq!(
        expression?,
        Expr::Binary(BinaryExpr::new(
            Expr::Binary(BinaryExpr::new(
                Expr::Grouping(GroupingExpr::new(Expr::Binary(BinaryExpr::new(
                    literal(1.0),
                    Token::bare(TokenKind::Plus),
                    literal(2.0)
                )))),
                Token::bare(TokenKind::Star),
                literal(3.0)
            )),
            Token::bare(TokenKind::Minus),
            Expr::Binary(BinaryExpr::new(
                literal(4.0),
                Token::bare(TokenKind::Slash),
                literal(2.0)
            ))
        ))
    );
    Ok(())
}

#[test]
fn empty_token_sequence_expects_an_expression() {
    assert_eq!(Parser::new(vec![]).parse(), Err(ParserError::ExpectedExpression));
}

#[test]
fn missing_closing_parenthesis_is_reported() {
    let tokens = vec![
        Token::bare(TokenKind::LeftParen),
        number(1.0),
        Token::bare(TokenKind::Plus),
        number(2.0),
    ];
    assert_eq!(Parser::new(tokens).parse(), Err(ParserError::UnclosedParenthesis));
    assert_eq!(parse_source("(1 + 2"), Err(ParserError::UnclosedParenthesis));
}

#[test]
fn unexpected_token_is_reported() {
    assert_eq!(
        parse_source("1 + ;"),
        Err(ParserError::ExpectedPrimaryExpressionGot(Token::bare(TokenKind::Semicolon)))
    );
    assert_eq!(
        parse_source("x"),
        Err(ParserError::ExpectedPrimaryExpressionGot(Token::from_text(
            TokenKind::Identifier,
            "x".to_string()
        )))
    );
}

#[test]
fn number_token_without_value_is_reported() {
    let token = Token { kind: TokenKind::Number, value: None };
    assert_eq!(
        Parser::new(vec![token.clone()]).parse(),
        Err(ParserError::ExpectedPrimaryExpressionGot(token))
    );
}

#[test]
fn operators_are_left_associative() {
    let e = parse_source("1 - 2 - 3").unwrap();
    assert_eq!(e.ast(), "(- (- 1 2) 3)");
    let e = parse_source("8 / 4 / 2 == 1 != false").unwrap();
    assert_eq!(e.ast(), "(!= (== (/ (/ 8 4) 2) 1) false)");
}

#[test]
fn precedence_levels_nest() {
    let e = parse_source("1 + 2 * 3 < 4 == !true").unwrap();
    assert_eq!(e.ast(), "(== (< (+ 1 (* 2 3)) 4) (! true))");
    let e = parse_source("--1 >= \"s\" <= nil").unwrap();
    assert_eq!(e.ast(), "(<= (>= (- (- 1)) \"s\") nil)");
}

#[test]
fn parsing_stops_at_first_complete_expression() {
    assert_eq!(parse_source("1 2").unwrap(), literal(1.0));
}

#[test]
fn recovery_lets_the_next_form_parse() {
    let tokens: Vec<Token> = Lexer::new("1 + ) ; 2 * 3".to_string())
        .scan_tokens()
        .into_iter()
        .map(|t| t.unwrap())
        .collect();
    let mut parser = Parser::new(tokens);
    assert!(parser.parse().is_err());
    assert_eq!(parser.parse().unwrap().ast(), "(* 2 3)");

    let tokens: Vec<Token> = Lexer::new("1 + ) x var 7".to_string())
        .scan_tokens()
        .into_iter()
        .map(|t| t.unwrap())
        .collect();
    let mut parser = Parser::new(tokens);
    assert!(parser.parse().is_err());
    assert_eq!(
        parser.parse(),
        Err(ParserError::ExpectedPrimaryExpressionGot(Token::bare(TokenKind::Var)))
    );
    assert_eq!(parser.parse(), Err(ParserError::ExpectedExpression));
}

#[test]
fn parser_error_messages() {
    assert_eq!(ParserError::ExpectedExpression.message(), "Expected expression");
    assert_eq!(ParserError::UnclosedParenthesis.message(), "Unclosed parenthesis");
    assert_eq!(
        ParserError::ExpectedPrimaryExpressionGot(Token::bare(TokenKind::Semicolon)).message(),
        "Expected primary expression got ;"
    );
}
