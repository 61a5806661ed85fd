use rlox::token::token_type::TokenType;
use rlox::token::Token;
use rlox::treewalk::scanner::Scanner;

/// The number a number token's literal text denotes.
fn number_value(token: &Token) -> f64 {
    assert_eq!(token.type_of, TokenType::Number);
    token.literal.as_ref().unwrap().parse::<f64>().unwrap()
}

#[test]
fn test_eof() {
    let input = "";
    let scanner = Scanner::new(input);
    let tok = scanner.scan_tokens();
    assert_eq!(tok[0], Token::new(TokenType::Eof, "", 1));
}

#[test]
fn test_single_char() {
    let input = "=";
    let scanner = Scanner::new(input);
    let tok = scanner.scan_tokens();
    assert_eq!(tok[0], Token::new(TokenType::Equal, "", 1));
}

#[test]
fn test_double_char() {
    let input = "==";
    let scanner = Scanner::new(input);
    let tok = scanner.scan_tokens();
    assert_eq!(tok[0], Token::new(TokenType::EqualEqual, "", 1));
}

#[test]
fn test_multi_char() {
    let input = "= !=";
    let scanner = Scanner::new(input);
    let tok = scanner.scan_tokens();
    assert_eq!(tok[0], Token::new(TokenType::Equal, "", 1));
    assert_eq!(tok[1], Token::new(TokenType::BangEqual, "", 1));
}

#[test]
fn test_number() {
    let input = "1";
    let scanner = Scanner::new(input);
    let tok = scanner.scan_tokens();
    assert_eq!(number_value(&tok[0]), 1.0);
    assert_eq!(tok[0], Token::new_number("1", 1));
}

#[test]
fn test_number_decimal() {
    let input = "1.23";
    let scanner = Scanner::new(input);
    let tok = scanner.scan_tokens();
    assert_eq!(number_value(&tok[0]), 1.23);
    assert_eq!(tok[0], Token::new_number("1.23", 1));
}

#[test]
fn test_string() {
    let input = "\"heya\"";
    let scanner = Scanner::new(input);
    let tok = scanner.scan_tokens();
    assert_eq!(tok[0], Token::new_string("heya", 1));
}

#[test]
fn test_keyword() {
    let input = "and or while";
    let scanner = Scanner::new(input);
    let tok = scanner.scan_tokens();
    assert_eq!(tok[0], Token::new_keyword(TokenType::And, 1));
    assert_eq!(tok[1], Token::new_keyword(TokenType::Or, 1));
    assert_eq!(tok[2], Token::new_keyword(TokenType::While, 1));
}
