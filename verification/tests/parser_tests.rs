use rlox::expression::Expr;
use rlox::grammar::ParseError;
use rlox::parser::{parse, try_parse};
use rlox::statement::Stmt;
use rlox::token::token_type::TokenType;
use rlox::token::{Literal, Token};
use rlox::treewalk::scanner::Scanner;

fn tokens_of(source: &str) -> Vec<Token> {
    Scanner::new(source).scan_tokens()
}

fn parse_source(source: &str) -> Result<Vec<Stmt>, ParseError> {
    let mut tokens = tokens_of(source);
    try_parse(&mut tokens)
}

fn num(text: &str) -> Box<Expr> {
    Box::new(Expr::Literal(Literal::Number(text.to_string())))
}

fn var(name: &str) -> Box<Expr> {
    Box::new(Expr::Variable(Token::new_identifier(name, 1)))
}

fn op(t: TokenType) -> Token {
    Token::new_keyword(t, 1)
}

#[test]
fn parse_print_binary() {
    let mut tokens = tokens_of("print 1 + 2 * 3;");
    let stmts = parse(&mut tokens);
    let product = Box::new(Expr::Binary(num("2"), op(TokenType::Star), num("3")));
    let sum = Expr::Binary(num("1"), op(TokenType::Plus), product);
    assert_eq!(stmts, vec![Stmt::Print(Box::new(sum))]);
}

#[test]
fn parse_left_associative() {
    let stmts = parse_source("1 - 2 - 3;").unwrap();
    let first = Box::new(Expr::Binary(num("1"), op(TokenType::Minus), num("2")));
    let all = Expr::Binary(first, op(TokenType::Minus), num("3"));
    assert_eq!(stmts, vec![Stmt::Expr(Box::new(all))]);
}

#[test]
fn parse_unary_takes_whole_expression() {
    let stmts = parse_source("-1 + 2;").unwrap();
    let sum = Box::new(Expr::Binary(num("1"), op(TokenType::Plus), num("2")));
    assert_eq!(stmts, vec![Stmt::Expr(Box::new(Expr::Unary(op(TokenType::Minus), sum)))]);
}

#[test]
fn parse_var_declarations() {
    let stmts = parse_source("var a = \"s\"; var b;").unwrap();
    assert_eq!(
        stmts,
        vec![
            Stmt::Var(
                Token::new_identifier("a", 1),
                Box::new(Expr::Literal(Literal::Str("s".to_string())))
            ),
            Stmt::Var(Token::new_identifier("b", 1), Box::new(Expr::Empty)),
        ]
    );
}

#[test]
fn parse_literals() {
    let stmts = parse_source("true; false; nil;").unwrap();
    assert_eq!(
        stmts,
        vec![
            Stmt::Expr(Box::new(Expr::Literal(Literal::Bool(true)))),
            Stmt::Expr(Box::new(Expr::Literal(Literal::Bool(false)))),
            Stmt::Expr(Box::new(Expr::Literal(Literal::Nil))),
        ]
    );
}

#[test]
fn parse_assignment_and_logic() {
    let stmts = parse_source("a = b or c and d;").unwrap();
    let and = Box::new(Expr::Logical(var("c"), op(TokenType::And), var("d")));
    let or = Box::new(Expr::Logical(var("b"), op(TokenType::Or), and));
    let assign = Expr::Assign(Token::new_identifier("a", 1), or);
    assert_eq!(stmts, vec![Stmt::Expr(Box::new(assign))]);
}

#[test]
fn parse_grouping_and_comparison() {
    let stmts = parse_source("(1 < 2) == true;").unwrap();
    let less = Box::new(Expr::Binary(num("1"), op(TokenType::Less), num("2")));
    let eq = Expr::Binary(
        Box::new(Expr::Grouping(less)),
        op(TokenType::EqualEqual),
        Box::new(Expr::Literal(Literal::Bool(true))),
    );
    assert_eq!(stmts, vec![Stmt::Expr(Box::new(eq))]);
}

#[test]
fn parse_call() {
    let stmts = parse_source("f(1, x);").unwrap();
    let call = Expr::Call(var("f"), op(TokenType::RightParen), vec![num("1"), var("x")]);
    assert_eq!(stmts, vec![Stmt::Expr(Box::new(call))]);
}

#[test]
fn parse_function_declaration() {
    let stmts = parse_source("fun add(a, b) { return a + b; }").unwrap();
    let body = vec![Box::new(Stmt::Return(
        op(TokenType::Return),
        Box::new(Expr::Binary(var("a"), op(TokenType::Plus), var("b"))),
    ))];
    assert_eq!(
        stmts,
        vec![Stmt::Function(
            Token::new_identifier("add", 1),
            vec![Token::new_identifier("a", 1), Token::new_identifier("b", 1)],
            body
        )]
    );
}

#[test]
fn parse_if_else_and_while() {
    let stmts = parse_source("if (x) print 1; else print 2; while (y) break;").unwrap();
    assert_eq!(
        stmts,
        vec![
            Stmt::If(
                var("x"),
                Box::new(Stmt::Print(num("1"))),
                Box::new(Stmt::Print(num("2")))
            ),
            Stmt::While(var("y"), Box::new(Stmt::Break)),
        ]
    );
}

#[test]
fn parse_if_without_else() {
    let stmts = parse_source("if (x) {}").unwrap();
    assert_eq!(
        stmts,
        vec![Stmt::If(
            var("x"),
            Box::new(Stmt::Block(vec![])),
            Box::new(Stmt::Expr(Box::new(Expr::Empty)))
        )]
    );
}

#[test]
fn parse_for_is_desugared() {
    let stmts = parse_source("for (var i = 0; i < 3; i = i + 1) print i;").unwrap();
    let init = Stmt::Var(Token::new_identifier("i", 1), num("0"));
    let cond = Box::new(Expr::Binary(var("i"), op(TokenType::Less), num("3")));
    let step = Expr::Assign(
        Token::new_identifier("i", 1),
        Box::new(Expr::Binary(var("i"), op(TokenType::Plus), num("1"))),
    );
    let body = Stmt::Block(vec![Box::new(Stmt::Print(var("i"))), Box::new(Stmt::Expr(Box::new(step)))]);
    let lp = Stmt::While(cond, Box::new(body));
    assert_eq!(stmts, vec![Stmt::Block(vec![Box::new(init), Box::new(lp)])]);
}

#[test]
fn parse_empty_for() {
    let stmts = parse_source("for (;;) break;").unwrap();
    assert_eq!(
        stmts,
        vec![Stmt::While(Box::new(Expr::Literal(Literal::Bool(true))), Box::new(Stmt::Break))]
    );
}

#[test]
fn parse_nested_blocks() {
    let stmts = parse_source("{ var a = 1; { print a; } }").unwrap();
    let inner = Stmt::Block(vec![Box::new(Stmt::Print(var("a")))]);
    let outer = Stmt::Block(vec![
        Box::new(Stmt::Var(Token::new_identifier("a", 1), num("1"))),
        Box::new(inner),
    ]);
    assert_eq!(stmts, vec![outer]);
}

#[test]
fn parse_empty_program() {
    assert_eq!(parse_source(""), Ok(vec![]));
}

#[test]
fn parse_errors() {
    assert_eq!(parse_source("print 1"), Err(ParseError::MissingSemicolon));
    assert_eq!(parse_source("var 1 = 2;"), Err(ParseError::VarNameNotIdentifier));
    assert_eq!(parse_source("{ print 1;"), Err(ParseError::UnmatchedBrace));
    assert_eq!(parse_source("1 = 2;"), Err(ParseError::InvalidAssignmentTarget));
    assert_eq!(parse_source("(1;"), Err(ParseError::UnclosedGrouping));
    assert_eq!(parse_source("fun (a) {}"), Err(ParseError::ExpectedIdentifier));
    assert_eq!(parse_source("fun f {}"), Err(ParseError::ExpectedLeftParen));
    assert_eq!(parse_source("fun f(a b) {}"), Err(ParseError::ExpectedRightParen));
    assert_eq!(parse_source("fun f() print 1;"), Err(ParseError::ExpectedLeftBrace));
    assert_eq!(parse_source("return 1"), Err(ParseError::MissingSemicolonAfterReturn));
    assert_eq!(parse_source("for x"), Err(ParseError::MissingLeftParenAfterFor));
    assert_eq!(parse_source("for (;1 2) x;"), Err(ParseError::MissingSemicolonAfterLoopCondition));
    assert_eq!(parse_source("for (;; x; y"), Err(ParseError::MissingRightParenAfterFor));
    assert_eq!(parse_source("while x"), Err(ParseError::MissingLeftParenAfterWhile));
    assert_eq!(parse_source("while (x; y"), Err(ParseError::MissingRightParenAfterWhile));
    assert_eq!(parse_source("if x"), Err(ParseError::MissingLeftParenAfterIf));
    assert_eq!(parse_source("if (x; y"), Err(ParseError::MissingRightParenAfterCondition));
    assert_eq!(parse_source("f(1;"), Err(ParseError::MissingRightParenAfterArguments));
    assert_eq!(
        parse_source("f(1, 2, 3, 4, 5, 6, 7, 8);"),
        Err(ParseError::TooManyArguments)
    );
}

#[test]
fn seven_arguments_are_accepted() {
    assert!(parse_source("f(1, 2, 3, 4, 5, 6, 7);").is_ok());
}

#[test]
fn parse_error_messages() {
    assert_eq!(ParseError::MissingSemicolon.message(), "Couldn't find ';' at end of statement");
    assert_eq!(ParseError::UnmatchedBrace.message(), "Could not find matching '}'");
    assert_eq!(
        ParseError::TooManyArguments.message(),
        "Cannot have more than 8 arguments per function"
    );
}

#[test]
fn parse_leaves_only_eof() {
    let mut tokens = vec![
        Token::new_keyword(TokenType::Print, 1),
        Token::new_number("1", 1),
        Token::new(TokenType::Semicolon, "", 1),
        Token::new(TokenType::Eof, "", 1),
    ];
    let stmts = parse(&mut tokens);
    assert_eq!(stmts, vec![Stmt::Print(num("1"))]);
    assert_eq!(tokens, vec![Token::new(TokenType::Eof, "", 1)]);
}

#[test]
fn parse_of_eof_alone_is_empty() {
    let mut tokens = vec![Token::new(TokenType::Eof, "", 3)];
    let stmts = parse(&mut tokens);
    assert!(stmts.is_empty());
    assert_eq!(tokens, vec![Token::new(TokenType::Eof, "", 3)]);
}

#[test]
fn try_parse_leaves_only_eof_after_blocks() {
    let mut tokens = tokens_of("{ var a = 1; } fun f(x) { return x; } print f(2);");
    let last = tokens.last().unwrap().clone();
    assert!(try_parse(&mut tokens).is_ok());
    assert_eq!(tokens, vec![last]);
}
