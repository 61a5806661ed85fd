use rlox::expression::Expr;
use rlox::parser::try_parse;
use rlox::printer::LeafFormat;
use rlox::statement::Stmt;
use rlox::token::{Literal, Token};
use rlox::treewalk::scanner::Scanner;

fn expression_of(source: &str) -> Expr {
    let mut tokens = Scanner::new(source).scan_tokens();
    match try_parse(&mut tokens).unwrap().remove(0) {
        Stmt::Expr(e) => *e,
        _ => panic!("not an expression statement"),
    }
}

fn short(e: &Expr) -> String {
    let leaves = LeafFormat {
        token: |t: &Token| {
            if t.lexeme.is_empty() {
                format!("{:?}", t.type_of)
            } else {
                t.lexeme.clone()
            }
        },
        literal: |l: &Literal| match l {
            Literal::Nil => "nil".to_string(),
            Literal::Bool(b) => b.to_string(),
            Literal::Number(text) => text.clone(),
            Literal::Str(s) => format!("\"{}\"", s),
        },
    };
    e.prefix_form(&leaves)
}

#[test]
fn prefix_form_binary_and_grouping() {
    assert_eq!(short(&expression_of("1 + (2 * 3);")), "(Plus 1 ((Star 2 3)))");
}

#[test]
fn prefix_form_assign_logical_unary() {
    assert_eq!(
        short(&expression_of("a = !b or c;")),
        "(Assign a, (Bang (Or b, c)))"
    );
}

#[test]
fn prefix_form_call_and_empty() {
    assert_eq!(short(&expression_of("f(1, \"s\", nil);")), "(Call f RightParen [1, \"s\", nil])");
    assert_eq!(short(&expression_of("g();")), "(Call g RightParen [])");
    assert_eq!(short(&Expr::Empty), "()");
}

#[test]
fn prefix_form_with_debug_tokens() {
    let leaves = LeafFormat {
        token: |t: &Token| format!("{:?}", t),
        literal: |_: &Literal| "L".to_string(),
    };
    let e = expression_of("x;");
    assert_eq!(e.prefix_form(&leaves), format!("{:?}", Token::new_identifier("x", 1)));
}
