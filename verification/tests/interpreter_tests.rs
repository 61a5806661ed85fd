use rlox::expression::Expr;
use rlox::interpreter::{interpret, run};
use rlox::numbers::{ArithOp, NumberOps};
use rlox::parser::try_parse;
use rlox::semantics::{Fault, Halt, RuntimeError};
use rlox::statement::Stmt;
use rlox::token::token_type::TokenType;
use rlox::token::{Literal, Object, Token};
use rlox::treewalk::scanner::Scanner;

fn ops() -> NumberOps<impl Fn(&str) -> u64, impl Fn(ArithOp, u64, u64) -> u64> {
    NumberOps {
        parse: |s: &str| s.parse::<f64>().unwrap().to_bits(),
        arith: |op: ArithOp, a: u64, b: u64| {
            let (x, y) = (f64::from_bits(a), f64::from_bits(b));
            let r = match op {
                ArithOp::Minus => x - y,
                ArithOp::Slash => x / y,
                ArithOp::Star => x * y,
                ArithOp::Plus => x + y,
            };
            r.to_bits()
        },
    }
}

fn program(source: &str) -> Vec<Stmt> {
    let mut tokens = Scanner::new(source).scan_tokens();
    try_parse(&mut tokens).unwrap()
}

fn run_source(source: &str, is_repl: bool) -> (Vec<Object>, Result<(), Halt>) {
    run(&program(source), is_repl, &ops())
}

fn n(x: f64) -> Object {
    Object::Number(x.to_bits())
}

fn s(x: &str) -> Object {
    Object::String(x.to_string())
}

fn prints(source: &str) -> Vec<Object> {
    let (out, res) = run_source(source, false);
    assert_eq!(res, Ok(()));
    out
}

fn halts(source: &str) -> Halt {
    run_source(source, false).1.unwrap_err()
}

#[test]
fn arithmetic() {
    assert_eq!(prints("print 1 + 2 * 3;"), vec![n(7.0)]);
    assert_eq!(prints("print 10 / 4;"), vec![n(2.5)]);
    assert_eq!(prints("print 1.5 - 0.25;"), vec![n(1.25)]);
    assert_eq!(prints("print (1 + 2) * 3;"), vec![n(9.0)]);
}

#[test]
fn unary_minus_covers_the_rest_of_the_expression() {
    assert_eq!(prints("print -1 + 2;"), vec![n(-3.0)]);
    assert_eq!(prints("print --4;"), vec![n(4.0)]);
}

#[test]
fn division_by_zero_follows_doubles() {
    assert_eq!(prints("print 1 / 0;"), vec![n(f64::INFINITY)]);
    let out = prints("print 0 / 0;");
    match out[0] {
        Object::Number(bits) => assert!(f64::from_bits(bits).is_nan()),
        _ => panic!("not a number"),
    }
}

#[test]
fn strings() {
    assert_eq!(prints("print \"ab\" + \"cd\";"), vec![s("abcd")]);
    assert_eq!(
        prints("print \"a\" < \"b\"; print \"b\" <= \"a\"; print \"ab\" > \"a\"; print \"a\" >= \"a\";"),
        vec![Object::Bool(true), Object::Bool(false), Object::Bool(true), Object::Bool(true)]
    );
}

#[test]
fn comparisons_and_equality() {
    assert_eq!(
        prints("print 1 < 2; print 2 <= 1; print 3 > 2; print 2 >= 2; print 1 == 1; print 1 != 1;"),
        vec![
            Object::Bool(true),
            Object::Bool(false),
            Object::Bool(true),
            Object::Bool(true),
            Object::Bool(true),
            Object::Bool(false),
        ]
    );
    assert_eq!(
        prints("print nil == nil; print true == false; print \"x\" != \"y\"; print 0 == -0;"),
        vec![Object::Bool(true), Object::Bool(false), Object::Bool(true), Object::Bool(true)]
    );
}

#[test]
fn nan_is_not_equal_to_itself() {
    assert_eq!(
        prints("var x = 0 / 0; print x == x; print x != x; print x < 1;"),
        vec![Object::Bool(false), Object::Bool(true), Object::Bool(false)]
    );
}

#[test]
fn bang_and_logic() {
    assert_eq!(
        prints("print !true; print !nil; print !1; print !!false;"),
        vec![Object::Bool(false), Object::Bool(false), Object::Bool(true), Object::Bool(false)]
    );
    assert_eq!(
        prints("print true and false; print false or true; print false and x; print true or x;"),
        vec![Object::Bool(false), Object::Bool(true), Object::Bool(false), Object::Bool(true)]
    );
}

#[test]
fn variables_and_scopes() {
    assert_eq!(
        prints("var a = 1; { var a = 2; print a; } print a;"),
        vec![n(2.0), n(1.0)]
    );
    assert_eq!(prints("var a = 1; { a = 2; } print a;"), vec![n(2.0)]);
    assert_eq!(prints("var a; print a;"), vec![Object::Nil]);
    assert_eq!(prints("var a = 1; var a = 2; print a;"), vec![n(2.0)]);
}

#[test]
fn if_else() {
    assert_eq!(
        prints("if (1 < 2) print \"yes\"; else print \"no\"; if (false) print 1;"),
        vec![s("yes")]
    );
}

#[test]
fn while_loop() {
    assert_eq!(
        prints("var i = 0; while (i < 3) { print i; i = i + 1; }"),
        vec![n(0.0), n(1.0), n(2.0)]
    );
}

#[test]
fn for_loop() {
    assert_eq!(
        prints("for (var i = 0; i < 3; i = i + 1) print i;"),
        vec![n(0.0), n(1.0), n(2.0)]
    );
}

#[test]
fn break_stops_a_loop() {
    assert_eq!(prints("while (true) { print 1; break; print 2; }"), vec![n(1.0)]);
}

#[test]
fn functions_and_returns() {
    assert_eq!(
        prints("fun add(a, b) { return a + b; } print add(1, 2);"),
        vec![n(3.0)]
    );
    assert_eq!(
        prints("var g = 10; fun f(x) { return x + g; } print f(1);"),
        vec![n(11.0)]
    );
    assert_eq!(prints("fun f() { print 5; } f();"), vec![n(5.0)]);
}

#[test]
fn function_sees_globals_not_callers_locals() {
    assert_eq!(
        halts("fun f() { return y; } { var y = 1; print f(); }"),
        Halt::Panic(Fault::UndefinedVariable)
    );
}

#[test]
fn repl_prints_expression_statements() {
    let (out, res) = run_source("1 + 1; var a = 2; a;", true);
    assert_eq!(res, Ok(()));
    assert_eq!(out, vec![n(2.0), n(2.0)]);
    let (out, _) = run_source("1 + 1;", false);
    assert!(out.is_empty());
}

#[test]
fn assignment_has_no_value() {
    let (out, res) = run_source("var a = 1; a = 2;", true);
    assert_eq!(res, Ok(()));
    assert_eq!(out, vec![Object::NoValue]);
    assert_eq!(halts("var b; var a = b = 1; print a;"), Halt::Panic(Fault::NilVariable));
}

#[test]
fn runtime_errors() {
    assert_eq!(halts("print -\"a\";"), Halt::Error(RuntimeError::NegateNonNumber));
    assert_eq!(halts("print 1 + \"a\";"), Halt::Error(RuntimeError::OperandTypes));
    assert_eq!(halts("print \"a\" - \"b\";"), Halt::Error(RuntimeError::OperandTypes));
    assert_eq!(halts("print 1 < \"a\";"), Halt::Error(RuntimeError::OperandTypes));
    assert_eq!(halts("print 1 == \"a\";"), Halt::Error(RuntimeError::EqualityTypes));
    assert_eq!(
        halts("fun f(a) { return a; } f(1, 2);"),
        Halt::Error(RuntimeError::Arity)
    );
}

#[test]
fn errors_from_operators_the_parser_never_builds() {
    let one = || Box::new(Expr::Literal(Literal::Bool(true)));
    let unary = vec![Stmt::Expr(Box::new(Expr::Unary(Token::new_keyword(TokenType::Plus, 1), one())))];
    assert_eq!(run(&unary, false, &ops()).1, Err(Halt::Error(RuntimeError::UnaryOperator)));
    let logical = vec![Stmt::Expr(Box::new(Expr::Logical(one(), Token::new_keyword(TokenType::Plus, 1), one())))];
    assert_eq!(run(&logical, false, &ops()).1, Err(Halt::Error(RuntimeError::LogicalOperator)));
    let binary = vec![Stmt::Expr(Box::new(Expr::Binary(one(), Token::new_keyword(TokenType::Comma, 1), one())))];
    assert_eq!(run(&binary, false, &ops()).1, Err(Halt::Error(RuntimeError::BinaryOperator)));
}

#[test]
fn faults() {
    assert_eq!(halts("print x;"), Halt::Panic(Fault::UndefinedVariable));
    assert_eq!(halts("x = 1;"), Halt::Panic(Fault::AssignUndefined));
    assert_eq!(halts("if (1) print 1;"), Halt::Panic(Fault::NonBooleanCondition));
    assert_eq!(halts("print 1 or 2;"), Halt::Panic(Fault::NotTrueOrFalse));
    assert_eq!(halts("while (1) print 1;"), Halt::Panic(Fault::NotTrueOrFalse));
    assert_eq!(halts("var a = 1; a();"), Halt::Panic(Fault::NotCallable));
    assert_eq!(
        halts("fun f(a) {} f(-\"x\");"),
        Halt::Panic(Fault::ArgumentError(RuntimeError::NegateNonNumber))
    );
}

#[test]
fn output_before_an_error_is_kept() {
    let (out, res) = run_source("print 1; print -nil; print 2;", false);
    assert_eq!(out, vec![n(1.0)]);
    assert_eq!(res, Err(Halt::Error(RuntimeError::NegateNonNumber)));
}

#[test]
fn interpret_appends_and_reports() {
    let mut output = vec![s("before")];
    let r = interpret(program("print 1; print \"x\";"), false, &ops(), &mut output);
    assert_eq!(r, Ok(()));
    assert_eq!(output, vec![s("before"), n(1.0), s("x")]);

    let mut output = Vec::new();
    let r = interpret(program("print 3; print true + 1;"), false, &ops(), &mut output);
    assert_eq!(
        r,
        Err("Couldn't perform binary arithmetic because types didn't match/weren't supported")
    );
    assert_eq!(output, vec![n(3.0)]);
}

#[test]
fn error_messages() {
    assert_eq!(RuntimeError::Arity.message(), "Arguments do not match Parameter arity");
    assert_eq!(Fault::UndefinedVariable.message(), "Get: Undefined Variable!");
    assert_eq!(
        Fault::ArgumentError(RuntimeError::EqualityTypes).message(),
        "Cannot perform ==/2 on a non-number or non-string"
    );
}

#[test]
fn strings_compare_lexicographically_not_by_length() {
    assert_eq!(
        prints("print \"b\" > \"aa\"; print \"aa\" > \"b\"; print \"aa\" <= \"b\"; print \"b\" >= \"b\";"),
        vec![Object::Bool(true), Object::Bool(false), Object::Bool(true), Object::Bool(true)]
    );
}

#[test]
fn short_circuit_skips_the_right_operand() {
    // the right operands name an undefined variable, so evaluating them would fault
    assert_eq!(
        prints("print true or nope; print false and nope;"),
        vec![Object::Bool(true), Object::Bool(false)]
    );
    assert_eq!(halts("print false or nope;"), Halt::Panic(Fault::UndefinedVariable));
}
