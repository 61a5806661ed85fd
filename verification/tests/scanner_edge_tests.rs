use rlox::token::token_type::TokenType;
use rlox::token::Token;
use rlox::treewalk::scanner::{ScanError, Scanner};

fn scan(source: &str) -> Vec<Token> {
    Scanner::new(source).scan_tokens()
}

fn types(tokens: &[Token]) -> Vec<TokenType> {
    tokens.iter().map(|t| t.type_of).collect()
}

#[test]
fn punctuation_and_operators() {
    let tokens = scan("(){},.-+;*/ ! != = == < <= > >=");
    assert_eq!(
        types(&tokens),
        vec![
            TokenType::LeftParen,
            TokenType::RightParen,
            TokenType::LeftBrace,
            TokenType::RightBrace,
            TokenType::Comma,
            TokenType::Dot,
            TokenType::Minus,
            TokenType::Plus,
            TokenType::Semicolon,
            TokenType::Star,
            TokenType::Slash,
            TokenType::Bang,
            TokenType::BangEqual,
            TokenType::Equal,
            TokenType::EqualEqual,
            TokenType::Less,
            TokenType::LessEqual,
            TokenType::Greater,
            TokenType::GreaterEqual,
            TokenType::Eof,
        ]
    );
}

#[test]
fn eof_carries_last_line() {
    let tokens = scan("a\nb\n\nc");
    assert_eq!(tokens.len(), 4);
    assert_eq!(tokens[0], Token::new_identifier("a", 1));
    assert_eq!(tokens[1], Token::new_identifier("b", 2));
    assert_eq!(tokens[2], Token::new_identifier("c", 4));
    assert_eq!(tokens[3], Token::new(TokenType::Eof, "", 4));
}

#[test]
fn line_comment_is_skipped() {
    let tokens = scan("+ // a comment ; *\n-");
    assert_eq!(tokens.len(), 3);
    assert_eq!(tokens[0], Token::new_keyword(TokenType::Plus, 1));
    // the comment's own newline is consumed with it
    assert_eq!(tokens[1], Token::new_keyword(TokenType::Minus, 1));
}

#[test]
fn block_comment_is_skipped() {
    let tokens = scan("+ /* * ; \n */ -");
    assert_eq!(types(&tokens), vec![TokenType::Plus, TokenType::Minus, TokenType::Eof]);
}

#[test]
fn block_comment_closes_on_first_star_slash() {
    // the '*' of the opening "/*" already counts towards the closing "*/"
    let tokens = scan("/*/ ;");
    assert_eq!(types(&tokens), vec![TokenType::Semicolon, TokenType::Eof]);
}

#[test]
fn unclosed_block_comment_eats_the_rest() {
    let tokens = scan("; /* + -");
    assert_eq!(types(&tokens), vec![TokenType::Semicolon, TokenType::Eof]);
}

#[test]
fn strings_keep_their_contents() {
    let tokens = scan("\"a b\" \"\"");
    assert_eq!(tokens[0], Token::new_string("a b", 1));
    assert_eq!(tokens[1], Token::new_string("", 1));
}

#[test]
fn unterminated_string_runs_to_the_end() {
    let tokens = scan("\"abc");
    assert_eq!(tokens.len(), 2);
    assert_eq!(tokens[0], Token::new_string("abc", 1));
}

#[test]
fn newline_in_string_does_not_count() {
    let tokens = scan("\"a\nb\" x");
    assert_eq!(tokens[0], Token::new_string("a\nb", 1));
    assert_eq!(tokens[1], Token::new_identifier("x", 1));
}

#[test]
fn number_takes_one_dot() {
    let tokens = scan("1.2.3");
    assert_eq!(tokens[0], Token::new_number("1.2", 1));
    assert_eq!(tokens[1], Token::new_keyword(TokenType::Dot, 1));
    assert_eq!(tokens[2], Token::new_number("3", 1));
}

#[test]
fn number_then_identifier() {
    let tokens = scan("12ab");
    assert_eq!(tokens[0], Token::new_number("12", 1));
    assert_eq!(tokens[1], Token::new_identifier("ab", 1));
}

#[test]
fn identifiers_take_digits() {
    let tokens = scan("x1y2 _z");
    assert_eq!(tokens[0], Token::new_identifier("x1y2", 1));
    // '_' starts no token, and is not part of an identifier
    assert_eq!(tokens[1], Token::new_identifier("z", 1));
    assert_eq!(tokens.len(), 3);
}

#[test]
fn identifiers_take_non_ascii_letters() {
    let tokens = scan("caf\u{e9} x");
    assert_eq!(tokens[0], Token::new_identifier("caf\u{e9}", 1));
    assert_eq!(tokens[1], Token::new_identifier("x", 1));
}

#[test]
fn all_keywords() {
    let tokens = scan(
        "and break class else for fun if nil or print return super this true false var while",
    );
    assert_eq!(
        types(&tokens),
        vec![
            TokenType::And,
            TokenType::Break,
            TokenType::Class,
            TokenType::Else,
            TokenType::For,
            TokenType::Fun,
            TokenType::If,
            TokenType::Nil,
            TokenType::Or,
            TokenType::Print,
            TokenType::Return,
            TokenType::Super,
            TokenType::This,
            TokenType::True,
            TokenType::False,
            TokenType::Var,
            TokenType::While,
            TokenType::Eof,
        ]
    );
    assert_eq!(tokens[3], Token::new_keyword(TokenType::Else, 1));
}

#[test]
fn keyword_prefix_is_an_identifier() {
    let tokens = scan("android While");
    assert_eq!(tokens[0], Token::new_identifier("android", 1));
    assert_eq!(tokens[1], Token::new_identifier("While", 1));
}

#[test]
fn unexpected_characters_are_reported() {
    let (tokens, errors) = Scanner::new("a @\n# b").scan_tokens_with_errors();
    assert_eq!(types(&tokens), vec![TokenType::Identifier, TokenType::Identifier, TokenType::Eof]);
    assert_eq!(
        errors,
        vec![ScanError { line: 1, character: '@' }, ScanError { line: 2, character: '#' }]
    );
}

#[test]
fn leading_space_changes_nothing() {
    let source = "var x = 1;\nprint x;";
    let spaced = format!(" {}", source);
    assert_eq!(scan(source), scan(&spaced));
}

#[test]
fn only_one_eof() {
    let tokens = scan("print 1 + 2; // done");
    let eofs = tokens.iter().filter(|t| t.type_of == TokenType::Eof).count();
    assert_eq!(eofs, 1);
    assert_eq!(tokens.last().unwrap().type_of, TokenType::Eof);
}

#[test]
fn eof_line_counts_every_newline_outside_strings_and_comments() {
    let source = "a\n\n+ b\n;\n";
    let tokens = scan(source);
    let newlines = source.matches('\n').count() as u32;
    assert_eq!(*tokens.last().unwrap(), Token::new(TokenType::Eof, "", 1 + newlines));
    for pair in tokens.windows(2) {
        assert!(pair[0].line <= pair[1].line);
    }
}

#[test]
fn identifier_stops_at_ascii_punctuation() {
    let tokens = scan("a_b a-b");
    assert_eq!(tokens[0], Token::new_identifier("a", 1));
    assert_eq!(tokens[1], Token::new_identifier("b", 1));
    assert_eq!(tokens[2], Token::new_identifier("a", 1));
    assert_eq!(tokens[3], Token::new_keyword(TokenType::Minus, 1));
    assert_eq!(tokens[4], Token::new_identifier("b", 1));
}
