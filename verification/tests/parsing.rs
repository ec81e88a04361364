use lox_core::ast::{Binary, Expr};
use lox_core::num::Num;
use lox_core::parser::{ParseError, ParseErrorKind, Parser};
use lox_core::token::{LiteralTypes, Token, TokenType};

fn normal_token(ttype: TokenType, lexeme: &str) -> Token {
    Token::new(ttype, lexeme.as_bytes().to_vec(), LiteralTypes::Nil, 1)
}

fn number(mantissa: i64) -> Expr {
    Expr::Literal(LiteralTypes::Number(Num { mantissa }))
}

#[test]
fn test_normal() {
    let mut parser = Parser::new(b"1 + 2 * 3 - 4".to_vec());
    let ast = parser.expression().unwrap();
    assert_eq!(
        ast,
        Expr::Binary(Binary {
            left: Box::new(Expr::Binary(Binary {
                left: Box::new(number(1_000_000)),
                op: normal_token(TokenType::Plus, "+"),
                right: Box::new(Expr::Binary(Binary {
                    left: Box::new(number(2_000_000)),
                    op: normal_token(TokenType::Star, "*"),
                    right: Box::new(number(3_000_000)),
                }))
            })),
            op: normal_token(TokenType::Minus, "-"),
            right: Box::new(number(4_000_000))
        })
    )
}

fn parse_failure(source: &str) -> ParseError {
    let mut parser = Parser::new(source.as_bytes().to_vec());
    parser.parse().unwrap_err()
}

#[test]
fn missing_semicolon_is_reported() {
    assert_eq!(
        parse_failure("print 1"),
        ParseError { line: 1, kind: ParseErrorKind::ExpectedSemicolonAfterValue }
    );
}

#[test]
fn unmatched_paren_is_reported() {
    assert_eq!(
        parse_failure("(1 + 2;"),
        ParseError { line: 1, kind: ParseErrorKind::ExpectedRightParenAfterExpression }
    );
}

#[test]
fn invalid_assignment_target_is_reported() {
    assert_eq!(
        parse_failure("1 = 2;"),
        ParseError { line: 1, kind: ParseErrorKind::InvalidAssignmentTarget }
    );
}

#[test]
fn missing_block_brace_is_reported() {
    assert_eq!(
        parse_failure("{ print 1;"),
        ParseError { line: 1, kind: ParseErrorKind::ExpectedRightBraceAfterBlock }
    );
}

#[test]
fn missing_variable_name_is_reported() {
    assert_eq!(
        parse_failure("var = 1;"),
        ParseError { line: 1, kind: ParseErrorKind::ExpectedVariableName }
    );
}

#[test]
fn stray_token_is_reported() {
    assert_eq!(
        parse_failure("+;"),
        ParseError { line: 1, kind: ParseErrorKind::ExpectedExpression }
    );
}
