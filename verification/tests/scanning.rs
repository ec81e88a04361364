use lox_core::lexer::Lexer;
use lox_core::num::Num;
use lox_core::token::{LiteralTypes, Token, TokenType};

fn normal_token(ttype: TokenType, lexeme: &str) -> Token {
    Token::new(ttype, lexeme.as_bytes().to_vec(), LiteralTypes::Nil, 1)
}

fn number_token(lexeme: &str, mantissa: i64) -> Token {
    Token::new(
        TokenType::Number,
        lexeme.as_bytes().to_vec(),
        LiteralTypes::Number(Num { mantissa }),
        1,
    )
}

fn string_token(lexeme: &str, value: &str) -> Token {
    Token::new(
        TokenType::String,
        lexeme.as_bytes().to_vec(),
        LiteralTypes::String(value.as_bytes().to_vec()),
        1,
    )
}

fn iden_token(lexeme: &str) -> Token {
    Token::new(
        TokenType::Identifier,
        lexeme.as_bytes().to_vec(),
        LiteralTypes::String(lexeme.as_bytes().to_vec()),
        1,
    )
}

fn scan(source: &str) -> Vec<Token> {
    Lexer::new(source.as_bytes().to_vec()).scan_tokens()
}

#[test]
fn test_expression() {
    let tokens = scan("1 + a - 2.5");
    assert_eq!(
        tokens,
        vec![
            number_token("1", 1_000_000),
            normal_token(TokenType::Plus, "+"),
            iden_token("a"),
            normal_token(TokenType::Minus, "-"),
            number_token("2.5", 2_500_000),
            normal_token(TokenType::Eof, "")
        ]
    )
}

#[test]
fn test_assign() {
    let tokens = scan("var foo = \"bar\"");
    assert_eq!(
        tokens,
        vec![
            normal_token(TokenType::Var, "var"),
            iden_token("foo"),
            normal_token(TokenType::Equal, "="),
            string_token("\"bar\"", "bar"),
            normal_token(TokenType::Eof, "")
        ]
    )
}

#[test]
fn test_error() {
    let tokens = scan("@#");
    assert_eq!(
        tokens,
        vec![
            normal_token(TokenType::Error, "@"),
            normal_token(TokenType::Error, "#"),
            normal_token(TokenType::Eof, "")
        ]
    )
}

#[test]
fn test_string_error() {
    let tokens = scan("\"foo");
    assert_eq!(
        tokens,
        vec![
            normal_token(TokenType::Error, "\"foo"),
            normal_token(TokenType::Eof, "")
        ]
    )
}

#[test]
fn scans_keywords_and_comments() {
    let tokens = scan("while // trailing note\nnil");
    assert_eq!(tokens.len(), 3);
    assert_eq!(tokens[0].ttype, TokenType::While);
    assert_eq!(tokens[1].ttype, TokenType::Nil);
    assert_eq!(tokens[1].line, 2);
    assert_eq!(tokens[2].ttype, TokenType::Eof);
}

#[test]
fn scans_two_byte_operators() {
    let tokens = scan("<= == != >= < >");
    let kinds: Vec<TokenType> = tokens.iter().map(|t| t.ttype).collect();
    assert_eq!(
        kinds,
        vec![
            TokenType::LessEqual,
            TokenType::EqualEqual,
            TokenType::BangEqual,
            TokenType::GreaterEqual,
            TokenType::Less,
            TokenType::Greater,
            TokenType::Eof
        ]
    );
}

#[test]
fn string_spans_lines() {
    let tokens = scan("\"a\nb\"");
    assert_eq!(tokens[0].ttype, TokenType::String);
    assert_eq!(tokens[0].literal, LiteralTypes::String(b"a\nb".to_vec()));
    assert_eq!(tokens[0].line, 2);
}

#[test]
fn number_literal_too_large_is_error_token() {
    let tokens = scan("99999999999999999999");
    assert_eq!(tokens[0].ttype, TokenType::Error);
    assert_eq!(tokens[1].ttype, TokenType::Eof);
}

#[test]
fn fraction_digits_beyond_six_are_truncated() {
    let tokens = scan("1.2345678");
    assert_eq!(
        tokens[0].literal,
        LiteralTypes::Number(Num { mantissa: 1_234_567 })
    );
    assert_eq!(tokens[0].lexeme, b"1.2345678".to_vec());
}

#[test]
fn trailing_dot_is_not_part_of_number() {
    let tokens = scan("7.");
    assert_eq!(tokens[0].ttype, TokenType::Number);
    assert_eq!(tokens[0].lexeme, b"7".to_vec());
    assert_eq!(tokens[1].ttype, TokenType::Dot);
}
