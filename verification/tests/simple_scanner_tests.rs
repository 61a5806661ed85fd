use rlox::scanner::Scanner;
use rlox::token::token_type::TokenType;
use rlox::token::Token;
use rlox::treewalk::scanner::ScanError;

fn types(tokens: &[Token]) -> Vec<TokenType> {
    tokens.iter().map(|t| t.type_of).collect()
}

#[test]
fn simple_scanner_operators() {
    let tokens = Scanner::new("!=<=>===!").scan_tokens();
    assert_eq!(
        types(&tokens),
        vec![
            TokenType::BangEqual,
            TokenType::LessEqual,
            TokenType::GreaterEqual,
            TokenType::EqualEqual,
            TokenType::Bang,
            TokenType::Eof,
        ]
    );
    assert_eq!(tokens[0], Token::new(TokenType::BangEqual, "", 1));
}

#[test]
fn simple_scanner_swaps_braces() {
    let tokens = Scanner::new("{}").scan_tokens();
    assert_eq!(types(&tokens), vec![TokenType::RightBrace, TokenType::LeftBrace, TokenType::Eof]);
}

#[test]
fn simple_scanner_reports_everything_else() {
    let (tokens, errors) = Scanner::new("( a\n)").scan_tokens_with_errors();
    assert_eq!(types(&tokens), vec![TokenType::LeftParen, TokenType::RightParen, TokenType::Eof]);
    // every token and error stands on line 1
    assert_eq!(tokens[1].line, 1);
    assert_eq!(
        errors,
        vec![
            ScanError { line: 1, character: ' ' },
            ScanError { line: 1, character: 'a' },
            ScanError { line: 1, character: '\n' },
        ]
    );
}

#[test]
fn simple_scanner_empty() {
    let tokens = Scanner::new("").scan_tokens();
    assert_eq!(tokens, vec![Token::new(TokenType::Eof, "", 1)]);
}
