use lox_front::ast_display::{print_expr, AstDisplay};
use lox_front::expression::{BinaryExpr, Expr, GroupingExpr, UnaryExpr};
use lox_front::lexer::Lexer;
use lox_front::parser::Parser;
use lox_front::token::{Decimal, Token, TokenKind};

fn literal(text: &str) -> Expr {
    Expr::NumberLiteral(Decimal::parse(text).unwrap())
}

fn print_source(source: &str) -> String {
    let tokens: Vec<Token> = Lexer::new(source.to_string())
        .scan_tokens()
        .into_iter()
        .map(|t| t.unwrap())
        .collect();
    Parser::new(tokens).parse().unwrap().ast()
}

#[test]
fn literals_print_as_values() {
    assert_eq!(Expr::BooleanLiteral(true).ast(), "true");
    assert_eq!(Expr::BooleanLiteral(false).ast(), "false");
    assert_eq!(Expr::NilLiteral.ast(), "nil");
    assert_eq!(Expr::StringLiteral("one".to_string()).ast(), "\"one\"");
    assert_eq!(literal("45.67").ast(), "45.67");
    assert_eq!(literal("123.0").ast(), "123");
}

#[test]
fn composite_nodes_print_in_prefix_form() {
    let e = Expr::Binary(BinaryExpr::new(
        Expr::Unary(UnaryExpr::new(Token::bare(TokenKind::Minus), literal("123"))),
        Token::bare(TokenKind::Star),
        Expr::Grouping(GroupingExpr::new(literal("45.67"))),
    ));
    assert_eq!(e.ast(), "(* (- 123) (group 45.67))");
    assert_eq!(print_expr(&e), e.ast());
    let e = Expr::Binary(BinaryExpr::new(
        Expr::StringLiteral("one".to_string()),
        Token::bare(TokenKind::Plus),
        Expr::StringLiteral("two".to_string()),
    ));
    assert_eq!(e.ast(), "(+ \"one\" \"two\")");
}

#[test]
fn parentheses_match_composite_nodes() {
    let e = Expr::Grouping(GroupingExpr::new(Expr::Binary(BinaryExpr::new(
        Expr::Unary(UnaryExpr::new(Token::bare(TokenKind::Bang), Expr::BooleanLiteral(true))),
        Token::bare(TokenKind::EqualEqual),
        Expr::Grouping(GroupingExpr::new(Expr::NilLiteral)),
    ))));
    let text = e.ast();
    assert_eq!(text.matches('(').count(), 4);
    assert_eq!(text.matches(')').count(), 4);
    let mut depth: i64 = 0;
    for c in text.chars() {
        if c == '(' {
            depth += 1;
        } else if c == ')' {
            depth -= 1;
        }
        assert!(depth >= 0);
    }
    assert_eq!(depth, 0);
}

#[test]
fn printing_is_stable_across_equivalent_sources() {
    let first = print_source("(1 + 2) * 3 - 4 / 2");
    assert_eq!(first, "(- (* (group (+ 1 2)) 3) (/ 4 2))");
    assert_eq!(print_source("( 1+2 )*3-4/2 // same"), first);
    assert_eq!(print_source("(1.0 + 2.00) * 03 - 4 / 2"), first);
}
