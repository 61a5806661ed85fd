//! The grammar that the parser implements, as spec functions over a stack
//! of tokens whose top (last element) is the next token. Each function
//! gives the syntax tree it builds and the tokens left, or the error at
//! which parsing stops.

use vstd::prelude::*;
use crate::token::{TokenView, LiteralView, bare_token};
use crate::token::token_type::TokenType;
use crate::expression::ExprView;
use crate::statement::StmtView;

verus! {

/// Why parsing stops.
#[derive(Debug, Clone, Copy, PartialEq, Eq, Structural)]
pub enum ParseError {
    ExpectedIdentifier,
    ExpectedLeftParen,
    ExpectedRightParen,
    ExpectedLeftBrace,
    MissingSemicolon,
    MissingSemicolonAfterReturn,
    MissingLeftParenAfterFor,
    MissingSemicolonAfterLoopCondition,
    MissingRightParenAfterFor,
    MissingLeftParenAfterWhile,
    MissingRightParenAfterWhile,
    MissingLeftParenAfterIf,
    MissingRightParenAfterCondition,
    MissingRightParenAfterArguments,
    VarNameNotIdentifier,
    UnmatchedBrace,
    InvalidAssignmentTarget,
    TooManyArguments,
    UnclosedGrouping,
}

impl ParseError {
    /// The message that describes the error.
    /// The text of [`Self::message`].
    pub open spec fn describe(self) -> Seq<char> {
        match self {
            ParseError::ExpectedIdentifier => "Expected Identifier"@,
            ParseError::ExpectedLeftParen => "Expected LeftParen"@,
            ParseError::ExpectedRightParen => "Expected RightParen"@,
            ParseError::ExpectedLeftBrace => "Expected LeftBrace"@,
            ParseError::MissingSemicolon => "Couldn't find ';' at end of statement"@,
            ParseError::MissingSemicolonAfterReturn => "Expect ';' after return"@,
            ParseError::MissingLeftParenAfterFor => "Expect '(' after for"@,
            ParseError::MissingSemicolonAfterLoopCondition => "Expect ';' after loop"@,
            ParseError::MissingRightParenAfterFor => "Expect ')' after for"@,
            ParseError::MissingLeftParenAfterWhile => "Expect '(' after while"@,
            ParseError::MissingRightParenAfterWhile => "Expect ')' after while"@,
            ParseError::MissingLeftParenAfterIf => "Expect '(' after if"@,
            ParseError::MissingRightParenAfterCondition => "Expect ')' after condition"@,
            ParseError::MissingRightParenAfterArguments => "Expect ')' after arguments"@,
            ParseError::VarNameNotIdentifier => "Expected identifier"@,
            ParseError::UnmatchedBrace => "Could not find matching '}'"@,
            ParseError::InvalidAssignmentTarget => "Invalid assignment target"@,
            ParseError::TooManyArguments => "Cannot have more than 8 arguments per function"@,
            ParseError::UnclosedGrouping => "Couldn't find ')' for Grouping"@,
        }
    }

    pub fn message(&self) -> (r: &'static str)
        ensures
            r@ == self.describe(),
    {
        match self {
            ParseError::ExpectedIdentifier => "Expected Identifier",
            ParseError::ExpectedLeftParen => "Expected LeftParen",
            ParseError::ExpectedRightParen => "Expected RightParen",
            ParseError::ExpectedLeftBrace => "Expected LeftBrace",
            ParseError::MissingSemicolon => "Couldn't find ';' at end of statement",
            ParseError::MissingSemicolonAfterReturn => "Expect ';' after return",
            ParseError::MissingLeftParenAfterFor => "Expect '(' after for",
            ParseError::MissingSemicolonAfterLoopCondition => "Expect ';' after loop",
            ParseError::MissingRightParenAfterFor => "Expect ')' after for",
            ParseError::MissingLeftParenAfterWhile => "Expect '(' after while",
            ParseError::MissingRightParenAfterWhile => "Expect ')' after while",
            ParseError::MissingLeftParenAfterIf => "Expect '(' after if",
            ParseError::MissingRightParenAfterCondition => "Expect ')' after condition",
            ParseError::MissingRightParenAfterArguments => "Expect ')' after arguments",
            ParseError::VarNameNotIdentifier => "Expected identifier",
            ParseError::UnmatchedBrace => "Could not find matching '}'",
            ParseError::InvalidAssignmentTarget => "Invalid assignment target",
            ParseError::TooManyArguments => "Cannot have more than 8 arguments per function",
            ParseError::UnclosedGrouping => "Couldn't find ')' for Grouping",
        }
    }
}

/// A parse of some `T` from a token stack: the value and the tokens left.
pub type Parsed<T> = Result<(T, Seq<TokenView>), ParseError>;

/// The next token; past the end, an `Eof` token on line 1.
pub open spec fn peek(s: Seq<TokenView>) -> TokenView {
    if s.len() > 0 { s.last() } else { bare_token(TokenType::Eof, 1) }
}

/// The stack without its top.
pub open spec fn pop_rest(s: Seq<TokenView>) -> Seq<TokenView> {
    if s.len() > 0 { s.drop_last() } else { s }
}

/// `r`, where it is no longer than `s` (as every parse leaves it).
pub open spec fn clip(s: Seq<TokenView>, r: Seq<TokenView>) -> Seq<TokenView> {
    if r.len() <= s.len() { r } else { s }
}

/// Takes the next token if its kind is in `family` and is not `Eof`.
pub open spec fn consume(s: Seq<TokenView>, family: Seq<TokenType>) -> (bool, Seq<TokenView>) {
    let t = peek(s).type_of;
    if t != TokenType::Eof && family.contains(t) { (true, pop_rest(s)) } else { (false, s) }
}

/// Takes the next token, which must be of a kind in `family`.
pub open spec fn expect(s: Seq<TokenView>, family: Seq<TokenType>, err: ParseError) -> Result<Seq<TokenView>, ParseError> {
    if family.contains(peek(s).type_of) { Ok(pop_rest(s)) } else { Err(err) }
}

/// Pops tokens up to and including the first of a kind in `family`;
/// whether one was found before `Eof`.
#[verifier::opaque]
pub open spec fn until_found(s: Seq<TokenView>, family: Seq<TokenType>) -> (bool, Seq<TokenView>)
    decreases s.len(),
{
    let t = peek(s).type_of;
    if t == TokenType::Eof {
        (false, pop_rest(s))
    } else if family.contains(t) {
        (true, pop_rest(s))
    } else if s.len() == 0 {
        (false, s)
    } else {
        until_found(s.drop_last(), family)
    }
}

pub open spec fn one(t: TokenType) -> Seq<TokenType> {
    seq![t]
}

pub open spec fn equality_ops() -> Seq<TokenType> {
    seq![TokenType::BangEqual, TokenType::EqualEqual]
}

pub open spec fn comparison_ops() -> Seq<TokenType> {
    seq![TokenType::Less, TokenType::LessEqual, TokenType::Greater, TokenType::GreaterEqual]
}

pub open spec fn addition_ops() -> Seq<TokenType> {
    seq![TokenType::Plus, TokenType::Minus]
}

pub open spec fn multiplication_ops() -> Seq<TokenType> {
    seq![TokenType::Star, TokenType::Slash]
}

pub open spec fn unary_ops() -> Seq<TokenType> {
    seq![TokenType::Bang, TokenType::Minus]
}

pub open spec fn binary(l: ExprView, t: TokenView, r: ExprView) -> ExprView {
    ExprView::Binary(Box::new(l), t, Box::new(r))
}

pub open spec fn logical(l: ExprView, t: TokenView, r: ExprView) -> ExprView {
    ExprView::Logical(Box::new(l), t, Box::new(r))
}

// ----- expressions -----

#[verifier::opaque]
pub open spec fn expression(s: Seq<TokenView>) -> Parsed<ExprView>
    decreases s.len(), 30int,
{
    assignment(s)
}

#[verifier::opaque]
pub open spec fn assignment(s: Seq<TokenView>) -> Parsed<ExprView>
    decreases s.len(), 29int,
{
    match or_expr(s) {
        Err(e) => Err(e),
        Ok((left, r)) => {
            let (m, r2) = consume(clip(s, r), one(TokenType::Equal));
            if m {
                match assignment(r2) {
                    Err(e) => Err(e),
                    Ok((value, r3)) => match left {
                        ExprView::Variable(t) => Ok((ExprView::Assign(t, Box::new(value)), r3)),
                        _ => Err(ParseError::InvalidAssignmentTarget),
                    },
                }
            } else {
                Ok((left, clip(s, r)))
            }
        },
    }
}

#[verifier::opaque]
pub open spec fn or_expr(s: Seq<TokenView>) -> Parsed<ExprView>
    decreases s.len(), 28int,
{
    match and_expr(s) {
        Err(e) => Err(e),
        Ok((left, r)) => or_rest(left, clip(s, r)),
    }
}

#[verifier::opaque]
pub open spec fn or_rest(left: ExprView, s: Seq<TokenView>) -> Parsed<ExprView>
    decreases s.len(), 27int,
{
    let c = consume(s, one(TokenType::Or));
    if c.0 {
        match and_expr(c.1) {
            Err(e) => Err(e),
            Ok((right, r)) => or_rest(logical(left, peek(s), right), clip(c.1, r)),
        }
    } else {
        Ok((left, s))
    }
}

#[verifier::opaque]
pub open spec fn and_expr(s: Seq<TokenView>) -> Parsed<ExprView>
    decreases s.len(), 26int,
{
    match equality(s) {
        Err(e) => Err(e),
        Ok((left, r)) => and_rest(left, clip(s, r)),
    }
}

#[verifier::opaque]
pub open spec fn and_rest(left: ExprView, s: Seq<TokenView>) -> Parsed<ExprView>
    decreases s.len(), 25int,
{
    let (m, s1) = consume(s, one(TokenType::And));
    if m {
        match equality(s1) {
            Err(e) => Err(e),
            Ok((right, r)) => and_rest(logical(left, peek(s), right), clip(s1, r)),
        }
    } else {
        Ok((left, s))
    }
}

#[verifier::opaque]
pub open spec fn equality(s: Seq<TokenView>) -> Parsed<ExprView>
    decreases s.len(), 24int,
{
    match comparison(s) {
        Err(e) => Err(e),
        Ok((left, r)) => equality_rest(left, clip(s, r)),
    }
}

#[verifier::opaque]
pub open spec fn equality_rest(left: ExprView, s: Seq<TokenView>) -> Parsed<ExprView>
    decreases s.len(), 23int,
{
    let (m, s1) = consume(s, equality_ops());
    if m {
        match comparison(s1) {
            Err(e) => Err(e),
            Ok((right, r)) => equality_rest(binary(left, peek(s), right), clip(s1, r)),
        }
    } else {
        Ok((left, s))
    }
}

#[verifier::opaque]
pub open spec fn comparison(s: Seq<TokenView>) -> Parsed<ExprView>
    decreases s.len(), 22int,
{
    match addition(s) {
        Err(e) => Err(e),
        Ok((left, r)) => comparison_rest(left, clip(s, r)),
    }
}

#[verifier::opaque]
pub open spec fn comparison_rest(left: ExprView, s: Seq<TokenView>) -> Parsed<ExprView>
    decreases s.len(), 21int,
{
    let (m, s1) = consume(s, comparison_ops());
    if m {
        match addition(s1) {
            Err(e) => Err(e),
            Ok((right, r)) => comparison_rest(binary(left, peek(s), right), clip(s1, r)),
        }
    } else {
        Ok((left, s))
    }
}

#[verifier::opaque]
pub open spec fn addition(s: Seq<TokenView>) -> Parsed<ExprView>
    decreases s.len(), 20int,
{
    match multiplication(s) {
        Err(e) => Err(e),
        Ok((left, r)) => addition_rest(left, clip(s, r)),
    }
}

#[verifier::opaque]
pub open spec fn addition_rest(left: ExprView, s: Seq<TokenView>) -> Parsed<ExprView>
    decreases s.len(), 19int,
{
    let (m, s1) = consume(s, addition_ops());
    if m {
        match multiplication(s1) {
            Err(e) => Err(e),
            Ok((right, r)) => addition_rest(binary(left, peek(s), right), clip(s1, r)),
        }
    } else {
        Ok((left, s))
    }
}

#[verifier::opaque]
pub open spec fn multiplication(s: Seq<TokenView>) -> Parsed<ExprView>
    decreases s.len(), 18int,
{
    match unary(s) {
        Err(e) => Err(e),
        Ok((left, r)) => multiplication_rest(left, clip(s, r)),
    }
}

#[verifier::opaque]
pub open spec fn multiplication_rest(left: ExprView, s: Seq<TokenView>) -> Parsed<ExprView>
    decreases s.len(), 17int,
{
    let (m, s1) = consume(s, multiplication_ops());
    if m {
        match unary(s1) {
            Err(e) => Err(e),
            Ok((right, r)) => multiplication_rest(binary(left, peek(s), right), clip(s1, r)),
        }
    } else {
        Ok((left, s))
    }
}

/// A prefix operator applies to a whole expression that follows it.
#[verifier::opaque]
pub open spec fn unary(s: Seq<TokenView>) -> Parsed<ExprView>
    decreases s.len(), 16int,
{
    let (m, s1) = consume(s, unary_ops());
    if m {
        match expression(s1) {
            Err(e) => Err(e),
            Ok((operand, r)) => Ok((ExprView::Unary(peek(s), Box::new(operand)), r)),
        }
    } else {
        call(s)
    }
}

#[verifier::opaque]
pub open spec fn call(s: Seq<TokenView>) -> Parsed<ExprView>
    decreases s.len(), 15int,
{
    match primary(s) {
        Err(e) => Err(e),
        Ok((callee, r)) => call_rest(callee, clip(s, r)),
    }
}

#[verifier::opaque]
pub open spec fn call_rest(callee: ExprView, s: Seq<TokenView>) -> Parsed<ExprView>
    decreases s.len(), 14int,
{
    let (m, s1) = consume(s, one(TokenType::LeftParen));
    if m {
        match finish_call(callee, s1) {
            Err(e) => Err(e),
            Ok((c, r)) => call_rest(c, clip(s1, r)),
        }
    } else {
        Ok((callee, s))
    }
}

/// The arguments of a call after its `(`, then the `)`.
#[verifier::opaque]
pub open spec fn finish_call(callee: ExprView, s: Seq<TokenView>) -> Parsed<ExprView>
    decreases s.len(), 40int,
{
    let args: Parsed<Seq<ExprView>> = if peek(s).type_of != TokenType::RightParen {
        arguments(s)
    } else {
        Ok((Seq::empty(), s))
    };
    match args {
        Err(e) => Err(e),
        Ok((args, r)) => {
            let r1 = clip(s, r);
            if args.len() >= 8 {
                Err(ParseError::TooManyArguments)
            } else {
                match expect(r1, one(TokenType::RightParen), ParseError::MissingRightParenAfterArguments) {
                    Err(e) => Err(e),
                    Ok(r2) => Ok((ExprView::Call(Box::new(callee), peek(r1), args), r2)),
                }
            }
        },
    }
}

/// Comma-separated expressions.
#[verifier::opaque]
pub open spec fn arguments(s: Seq<TokenView>) -> Parsed<Seq<ExprView>>
    decreases s.len(), 39int,
{
    arguments_rest(Seq::empty(), s)
}

/// Comma-separated expressions after those in `acc`.
#[verifier::opaque]
pub open spec fn arguments_rest(acc: Seq<ExprView>, s: Seq<TokenView>) -> Parsed<Seq<ExprView>>
    decreases s.len(), 38int,
{
    match expression(s) {
        Err(e) => Err(e),
        Ok((arg, r)) => {
            let (m, r2) = consume(clip(s, r), one(TokenType::Comma));
            if m {
                arguments_rest(acc.push(arg), r2)
            } else {
                Ok((acc.push(arg), clip(s, r)))
            }
        },
    }
}

/// The literal of a number or string token, as the parser reads it.
pub open spec fn token_literal(t: TokenView, number: bool) -> LiteralView {
    match t.literal {
        Some(text) => if number { LiteralView::Number(text) } else { LiteralView::Str(text) },
        None => LiteralView::Nil,
    }
}

#[verifier::opaque]
pub open spec fn primary(s: Seq<TokenView>) -> Parsed<ExprView>
    decreases s.len(), 13int,
{
    let t = peek(s);
    let s1 = pop_rest(s);
    if t.type_of == TokenType::Number {
        Ok((ExprView::Literal(token_literal(t, true)), s1))
    } else if t.type_of == TokenType::String {
        Ok((ExprView::Literal(token_literal(t, false)), s1))
    } else if t.type_of == TokenType::False {
        Ok((ExprView::Literal(LiteralView::Bool(false)), s1))
    } else if t.type_of == TokenType::True {
        Ok((ExprView::Literal(LiteralView::Bool(true)), s1))
    } else if t.type_of == TokenType::Nil {
        Ok((ExprView::Literal(LiteralView::Nil), s1))
    } else if t.type_of == TokenType::LeftParen {
        match expression(s1) {
            Err(e) => Err(e),
            Ok((inner, r)) => {
                let (found, r2) = until_found(clip(s1, r), one(TokenType::RightParen));
                if found {
                    Ok((ExprView::Grouping(Box::new(inner)), r2))
                } else {
                    Err(ParseError::UnclosedGrouping)
                }
            },
        }
    } else if t.type_of == TokenType::Identifier {
        Ok((ExprView::Variable(t), s1))
    } else {
        Ok((ExprView::Empty, s1))
    }
}

// ----- statements -----

pub open spec fn empty_expr_stmt() -> StmtView {
    StmtView::Expr(ExprView::Empty)
}

/// The statements of a whole token stack, up to `Eof`.
#[verifier::opaque]
pub open spec fn program(s: Seq<TokenView>) -> Parsed<Seq<StmtView>>
    decreases s.len(), 61int,
{
    program_rest(Seq::empty(), s)
}

/// The statements after those in `acc`, up to `Eof`.
#[verifier::opaque]
pub open spec fn program_rest(acc: Seq<StmtView>, s: Seq<TokenView>) -> Parsed<Seq<StmtView>>
    decreases s.len(), 60int,
{
    if peek(s).type_of == TokenType::Eof {
        Ok((acc, s))
    } else {
        match declaration(s) {
            Err(e) => Err(e),
            Ok((d, r)) => if r.len() < s.len() {
                program_rest(acc.push(d), r)
            } else {
                Ok((acc.push(d), r))
            },
        }
    }
}

#[verifier::opaque]
pub open spec fn declaration(s: Seq<TokenView>) -> Parsed<StmtView>
    decreases s.len(), 50int,
{
    let (f, s1) = consume(s, one(TokenType::Fun));
    if f {
        function(s1)
    } else {
        let (v, s2) = consume(s, one(TokenType::Var));
        if v {
            var_declaration(s2)
        } else {
            statement(s)
        }
    }
}

/// The statements of a block after those in `acc`, up to its `}` (not
/// taken).
#[verifier::opaque]
pub open spec fn block_items(acc: Seq<StmtView>, s: Seq<TokenView>) -> Parsed<Seq<StmtView>>
    decreases s.len(), 52int,
{
    if peek(s).type_of == TokenType::RightBrace {
        Ok((acc, s))
    } else {
        match declaration(s) {
            Err(e) => Err(e),
            Ok((d, r)) => {
                let r1 = clip(s, r);
                if peek(r1).type_of == TokenType::Eof {
                    Err(ParseError::UnmatchedBrace)
                } else if r1.len() < s.len() {
                    block_items(acc.push(d), r1)
                } else {
                    Ok((acc.push(d), r1))
                }
            },
        }
    }
}

/// The statements of a block after its `{`, then its `}`.
#[verifier::opaque]
pub open spec fn block(s: Seq<TokenView>) -> Parsed<Seq<StmtView>>
    decreases s.len(), 53int,
{
    match block_items(Seq::empty(), s) {
        Err(e) => Err(e),
        Ok((items, r)) => Ok((items, until_found(clip(s, r), one(TokenType::RightBrace)).1)),
    }
}

/// Comma-separated parameter names after those in `acc`, up to the first
/// token that is not an identifier or not followed by a comma.
#[verifier::opaque]
pub open spec fn parameters(acc: Seq<TokenView>, s: Seq<TokenView>) -> (Seq<TokenView>, Seq<TokenView>)
    decreases s.len(),
{
    let p = peek(s);
    let (m, s1) = consume(s, one(TokenType::Identifier));
    if !m {
        (acc, s)
    } else {
        let (c, s2) = consume(s1, one(TokenType::Comma));
        if !c {
            (acc.push(p), s1)
        } else {
            parameters(acc.push(p), s2)
        }
    }
}

/// A function declaration after `fun`.
#[verifier::opaque]
pub open spec fn function(s: Seq<TokenView>) -> Parsed<StmtView>
    decreases s.len(), 45int,
{
    let name = peek(s);
    match expect(s, one(TokenType::Identifier), ParseError::ExpectedIdentifier) {
        Err(e) => Err(e),
        Ok(s1) => match expect(s1, one(TokenType::LeftParen), ParseError::ExpectedLeftParen) {
            Err(e) => Err(e),
            Ok(s2) => {
                let (params, s3) = if peek(s2).type_of != TokenType::RightParen {
                    parameters(Seq::empty(), s2)
                } else {
                    (Seq::empty(), s2)
                };
                let s3 = clip(s2, s3);
                match expect(s3, one(TokenType::RightParen), ParseError::ExpectedRightParen) {
                    Err(e) => Err(e),
                    Ok(s4) => match expect(s4, one(TokenType::LeftBrace), ParseError::ExpectedLeftBrace) {
                        Err(e) => Err(e),
                        Ok(s5) => match block(s5) {
                            Err(e) => Err(e),
                            Ok((body, r)) => Ok((StmtView::Function(name, params, body), r)),
                        },
                    },
                }
            },
        },
    }
}

/// A variable declaration after `var`.
#[verifier::opaque]
pub open spec fn var_declaration(s: Seq<TokenView>) -> Parsed<StmtView>
    decreases s.len(), 45int,
{
    let name = peek(s);
    let s1 = pop_rest(s);
    if name.type_of != TokenType::Identifier {
        Err(ParseError::VarNameNotIdentifier)
    } else {
        let (m, s2) = consume(s1, one(TokenType::Equal));
        let init: Parsed<ExprView> = if m { expression(s2) } else { Ok((ExprView::Empty, s1)) };
        match init {
            Err(e) => Err(e),
            Ok((init, r)) => match expect(clip(s1, r), one(TokenType::Semicolon), ParseError::MissingSemicolon) {
                Err(e) => Err(e),
                Ok(r2) => Ok((StmtView::Var(name, init), r2)),
            },
        }
    }
}

#[verifier::opaque]
pub open spec fn statement(s: Seq<TokenView>) -> Parsed<StmtView>
    decreases s.len(), 49int,
{
    let (p, s1) = consume(s, one(TokenType::Print));
    if p {
        match expression(s1) {
            Err(e) => Err(e),
            Ok((e, r)) => match expect(clip(s1, r), one(TokenType::Semicolon), ParseError::MissingSemicolon) {
                Err(err) => Err(err),
                Ok(r2) => Ok((StmtView::Print(e), r2)),
            },
        }
    } else if consume(s, one(TokenType::LeftBrace)).0 {
        match block(pop_rest(s)) {
            Err(e) => Err(e),
            Ok((items, r)) => Ok((StmtView::Block(items), r)),
        }
    } else if consume(s, one(TokenType::If)).0 {
        if_statement(pop_rest(s))
    } else if consume(s, one(TokenType::While)).0 {
        while_statement(pop_rest(s))
    } else if consume(s, one(TokenType::For)).0 {
        for_statement(pop_rest(s))
    } else if consume(s, one(TokenType::Return)).0 {
        return_statement(pop_rest(s))
    } else if consume(s, one(TokenType::Break)).0 {
        match expect(pop_rest(s), one(TokenType::Semicolon), ParseError::MissingSemicolon) {
            Err(e) => Err(e),
            Ok(r) => Ok((StmtView::Break, r)),
        }
    } else {
        match expression(s) {
            Err(e) => Err(e),
            Ok((e, r)) => match expect(clip(s, r), one(TokenType::Semicolon), ParseError::MissingSemicolon) {
                Err(err) => Err(err),
                Ok(r2) => Ok((StmtView::Expr(e), r2)),
            },
        }
    }
}

/// A return statement after `return`; its keyword token is always a bare
/// `Return` token on line 1.
#[verifier::opaque]
pub open spec fn return_statement(s: Seq<TokenView>) -> Parsed<StmtView>
    decreases s.len(), 45int,
{
    let value: Parsed<ExprView> = if peek(s).type_of != TokenType::Semicolon {
        expression(s)
    } else {
        Ok((ExprView::Empty, s))
    };
    match value {
        Err(e) => Err(e),
        Ok((v, r)) => match expect(clip(s, r), one(TokenType::Semicolon), ParseError::MissingSemicolonAfterReturn) {
            Err(e) => Err(e),
            Ok(r2) => Ok((StmtView::Return(bare_token(TokenType::Return, 1), v), r2)),
        },
    }
}

/// A while statement after `while`.
#[verifier::opaque]
pub open spec fn while_statement(s: Seq<TokenView>) -> Parsed<StmtView>
    decreases s.len(), 45int,
{
    match expect(s, one(TokenType::LeftParen), ParseError::MissingLeftParenAfterWhile) {
        Err(e) => Err(e),
        Ok(s1) => match expression(s1) {
            Err(e) => Err(e),
            Ok((cond, r)) => match expect(clip(s1, r), one(TokenType::RightParen), ParseError::MissingRightParenAfterWhile) {
                Err(e) => Err(e),
                Ok(s2) => match statement(s2) {
                    Err(e) => Err(e),
                    Ok((body, r2)) => Ok((StmtView::While(cond, Box::new(body)), r2)),
                },
            },
        },
    }
}

/// An if statement after `if`; a missing else branch is an empty
/// expression statement.
#[verifier::opaque]
pub open spec fn if_statement(s: Seq<TokenView>) -> Parsed<StmtView>
    decreases s.len(), 45int,
{
    match expect(s, one(TokenType::LeftParen), ParseError::MissingLeftParenAfterIf) {
        Err(e) => Err(e),
        Ok(s1) => match expression(s1) {
            Err(e) => Err(e),
            Ok((cond, r)) => match expect(clip(s1, r), one(TokenType::RightParen), ParseError::MissingRightParenAfterCondition) {
                Err(e) => Err(e),
                Ok(s2) => match statement(s2) {
                    Err(e) => Err(e),
                    Ok((then_branch, r2)) => {
                        let (m, s3) = consume(clip(s2, r2), one(TokenType::Else));
                        let else_branch: Parsed<StmtView> = if m {
                            statement(s3)
                        } else {
                            Ok((empty_expr_stmt(), s3))
                        };
                        match else_branch {
                            Err(e) => Err(e),
                            Ok((else_branch, r3)) => Ok((
                                StmtView::If(cond, Box::new(then_branch), Box::new(else_branch)),
                                r3,
                            )),
                        }
                    },
                },
            },
        },
    }
}

/// The loop that a `for` statement stands for: the body followed by the
/// increment (if any) repeated while the condition holds, preceded by the
/// initializer (unless it is empty).
pub open spec fn desugar_for(init: StmtView, cond: ExprView, incr: ExprView, body: StmtView) -> StmtView {
    let body = if incr != ExprView::Empty {
        StmtView::Block(seq![body, StmtView::Expr(incr)])
    } else {
        body
    };
    let body = StmtView::While(cond, Box::new(body));
    if init != empty_expr_stmt() {
        StmtView::Block(seq![init, body])
    } else {
        body
    }
}

/// A for statement after `for`. A missing condition is `true`. An
/// expression initializer does not take a `;`: the `;` after it counts
/// as the end of the condition.
#[verifier::opaque]
pub open spec fn for_statement(s: Seq<TokenView>) -> Parsed<StmtView>
    decreases s.len(), 45int,
{
    match expect(s, one(TokenType::LeftParen), ParseError::MissingLeftParenAfterFor) {
        Err(e) => Err(e),
        Ok(s1) => {
            let (semi, s1a) = consume(s1, one(TokenType::Semicolon));
            let (var, s1b) = consume(s1, one(TokenType::Var));
            let init: Parsed<StmtView> = if semi {
                Ok((empty_expr_stmt(), s1a))
            } else if var {
                var_declaration(s1b)
            } else {
                match expression(s1) {
                    Err(e) => Err(e),
                    Ok((e, r)) => Ok((StmtView::Expr(e), r)),
                }
            };
            match init {
                Err(e) => Err(e),
                Ok((init, r)) => {
                    let s2 = clip(s1, r);
                    let cond: Parsed<ExprView> = if peek(s2).type_of == TokenType::Semicolon {
                        Ok((ExprView::Literal(LiteralView::Bool(true)), s2))
                    } else {
                        expression(s2)
                    };
                    match cond {
                        Err(e) => Err(e),
                        Ok((cond, r)) => match expect(clip(s2, r), one(TokenType::Semicolon), ParseError::MissingSemicolonAfterLoopCondition) {
                            Err(e) => Err(e),
                            Ok(s3) => {
                                let incr: Parsed<ExprView> = if peek(s3).type_of == TokenType::RightParen {
                                    Ok((ExprView::Empty, s3))
                                } else {
                                    expression(s3)
                                };
                                match incr {
                                    Err(e) => Err(e),
                                    Ok((incr, r)) => match expect(clip(s3, r), one(TokenType::RightParen), ParseError::MissingRightParenAfterFor) {
                                        Err(e) => Err(e),
                                        Ok(s4) => match statement(s4) {
                                            Err(e) => Err(e),
                                            Ok((body, r)) => Ok((desugar_for(init, cond, incr, body), r)),
                                        },
                                    },
                                }
                            },
                        },
                    }
                },
            }
        },
    }
}

/// The stack a token sequence is read from: its first token on top.
pub open spec fn token_stack(ts: Seq<TokenView>) -> Seq<TokenView> {
    Seq::new(ts.len(), |i: int| ts[ts.len() - 1 - i])
}

/// The statements that `tokens` parse into, or the error that stops it.
pub open spec fn parse_tokens(ts: Seq<TokenView>) -> Result<Seq<StmtView>, ParseError> {
    match program(token_stack(ts)) {
        Err(e) => Err(e),
        Ok((stmts, r)) => Ok(stmts),
    }
}

// ----- unfolding -----
// Each spec function above equals its body.

pub proof fn unfold_until_found(s: Seq<TokenView>, family: Seq<TokenType>)
    ensures
        until_found(s, family) == ({
            let t = peek(s).type_of;
            if t == TokenType::Eof {
                (false, pop_rest(s))
            } else if family.contains(t) {
                (true, pop_rest(s))
            } else if s.len() == 0 {
                (false, s)
            } else {
                until_found(s.drop_last(), family)
            }
        }),
{
    reveal_with_fuel(until_found, 1);
}

pub proof fn unfold_expression(s: Seq<TokenView>)
    ensures
        expression(s) == ({
            assignment(s)
        }),
{
    reveal_with_fuel(expression, 1);
    reveal_with_fuel(assignment, 1);
}

pub proof fn unfold_assignment(s: Seq<TokenView>)
    ensures
        assignment(s) == ({
            match or_expr(s) {
                Err(e) => Err(e),
                Ok((left, r)) => {
                    let (m, r2) = consume(clip(s, r), one(TokenType::Equal));
                    if m {
                        match assignment(r2) {
                            Err(e) => Err(e),
                            Ok((value, r3)) => match left {
                                ExprView::Variable(t) => Ok((ExprView::Assign(t, Box::new(value)), r3)),
                                _ => Err(ParseError::InvalidAssignmentTarget),
                            },
                        }
                    } else {
                        Ok((left, clip(s, r)))
                    }
                },
            }
        }),
{
    reveal_with_fuel(assignment, 1);
    reveal_with_fuel(or_expr, 1);
}

pub proof fn unfold_or_expr(s: Seq<TokenView>)
    ensures
        or_expr(s) == ({
            match and_expr(s) {
                Err(e) => Err(e),
                Ok((left, r)) => or_rest(left, clip(s, r)),
            }
        }),
{
    reveal_with_fuel(or_expr, 1);
    reveal_with_fuel(or_rest, 1);
    reveal_with_fuel(and_expr, 1);
}

pub proof fn unfold_or_rest(left: ExprView, s: Seq<TokenView>)
    ensures
        or_rest(left, s) == ({
            let c = consume(s, one(TokenType::Or));
            if c.0 {
                match and_expr(c.1) {
                    Err(e) => Err(e),
                    Ok((right, r)) => or_rest(logical(left, peek(s), right), clip(c.1, r)),
                }
            } else {
                Ok((left, s))
            }
        }),
{
    reveal_with_fuel(or_rest, 1);
    reveal_with_fuel(and_expr, 1);
}

pub proof fn unfold_and_expr(s: Seq<TokenView>)
    ensures
        and_expr(s) == ({
            match equality(s) {
                Err(e) => Err(e),
                Ok((left, r)) => and_rest(left, clip(s, r)),
            }
        }),
{
    reveal_with_fuel(and_expr, 1);
    reveal_with_fuel(and_rest, 1);
    reveal_with_fuel(equality, 1);
}

pub proof fn unfold_and_rest(left: ExprView, s: Seq<TokenView>)
    ensures
        and_rest(left, s) == ({
            let (m, s1) = consume(s, one(TokenType::And));
            if m {
                match equality(s1) {
                    Err(e) => Err(e),
                    Ok((right, r)) => and_rest(logical(left, peek(s), right), clip(s1, r)),
                }
            } else {
                Ok((left, s))
            }
        }),
{
    reveal_with_fuel(and_rest, 1);
    reveal_with_fuel(equality, 1);
}

pub proof fn unfold_equality(s: Seq<TokenView>)
    ensures
        equality(s) == ({
            match comparison(s) {
                Err(e) => Err(e),
                Ok((left, r)) => equality_rest(left, clip(s, r)),
            }
        }),
{
    reveal_with_fuel(equality, 1);
    reveal_with_fuel(equality_rest, 1);
    reveal_with_fuel(comparison, 1);
}

pub proof fn unfold_equality_rest(left: ExprView, s: Seq<TokenView>)
    ensures
        equality_rest(left, s) == ({
            let (m, s1) = consume(s, equality_ops());
            if m {
                match comparison(s1) {
                    Err(e) => Err(e),
                    Ok((right, r)) => equality_rest(binary(left, peek(s), right), clip(s1, r)),
                }
            } else {
                Ok((left, s))
            }
        }),
{
    reveal_with_fuel(equality_rest, 1);
    reveal_with_fuel(comparison, 1);
}

pub proof fn unfold_comparison(s: Seq<TokenView>)
    ensures
        comparison(s) == ({
            match addition(s) {
                Err(e) => Err(e),
                Ok((left, r)) => comparison_rest(left, clip(s, r)),
            }
        }),
{
    reveal_with_fuel(comparison, 1);
    reveal_with_fuel(comparison_rest, 1);
    reveal_with_fuel(addition, 1);
}

pub proof fn unfold_comparison_rest(left: ExprView, s: Seq<TokenView>)
    ensures
        comparison_rest(left, s) == ({
            let (m, s1) = consume(s, comparison_ops());
            if m {
                match addition(s1) {
                    Err(e) => Err(e),
                    Ok((right, r)) => comparison_rest(binary(left, peek(s), right), clip(s1, r)),
                }
            } else {
                Ok((left, s))
            }
        }),
{
    reveal_with_fuel(comparison_rest, 1);
    reveal_with_fuel(addition, 1);
}

pub proof fn unfold_addition(s: Seq<TokenView>)
    ensures
        addition(s) == ({
            match multiplication(s) {
                Err(e) => Err(e),
                Ok((left, r)) => addition_rest(left, clip(s, r)),
            }
        }),
{
    reveal_with_fuel(addition, 1);
    reveal_with_fuel(addition_rest, 1);
    reveal_with_fuel(multiplication, 1);
}

pub proof fn unfold_addition_rest(left: ExprView, s: Seq<TokenView>)
    ensures
        addition_rest(left, s) == ({
            let (m, s1) = consume(s, addition_ops());
            if m {
                match multiplication(s1) {
                    Err(e) => Err(e),
                    Ok((right, r)) => addition_rest(binary(left, peek(s), right), clip(s1, r)),
                }
            } else {
                Ok((left, s))
            }
        }),
{
    reveal_with_fuel(addition_rest, 1);
    reveal_with_fuel(multiplication, 1);
}

pub proof fn unfold_multiplication(s: Seq<TokenView>)
    ensures
        multiplication(s) == ({
            match unary(s) {
                Err(e) => Err(e),
                Ok((left, r)) => multiplication_rest(left, clip(s, r)),
            }
        }),
{
    reveal_with_fuel(multiplication, 1);
    reveal_with_fuel(multiplication_rest, 1);
    reveal_with_fuel(unary, 1);
}

pub proof fn unfold_multiplication_rest(left: ExprView, s: Seq<TokenView>)
    ensures
        multiplication_rest(left, s) == ({
            let (m, s1) = consume(s, multiplication_ops());
            if m {
                match unary(s1) {
                    Err(e) => Err(e),
                    Ok((right, r)) => multiplication_rest(binary(left, peek(s), right), clip(s1, r)),
                }
            } else {
                Ok((left, s))
            }
        }),
{
    reveal_with_fuel(multiplication_rest, 1);
    reveal_with_fuel(unary, 1);
}

pub proof fn unfold_unary(s: Seq<TokenView>)
    ensures
        unary(s) == ({
            let (m, s1) = consume(s, unary_ops());
            if m {
                match expression(s1) {
                    Err(e) => Err(e),
                    Ok((operand, r)) => Ok((ExprView::Unary(peek(s), Box::new(operand)), r)),
                }
            } else {
                call(s)
            }
        }),
{
    reveal_with_fuel(unary, 1);
    reveal_with_fuel(expression, 1);
    reveal_with_fuel(call, 1);
}

pub proof fn unfold_call(s: Seq<TokenView>)
    ensures
        call(s) == ({
            match primary(s) {
                Err(e) => Err(e),
                Ok((callee, r)) => call_rest(callee, clip(s, r)),
            }
        }),
{
    reveal_with_fuel(call, 1);
    reveal_with_fuel(call_rest, 1);
    reveal_with_fuel(primary, 1);
}

pub proof fn unfold_call_rest(callee: ExprView, s: Seq<TokenView>)
    ensures
        call_rest(callee, s) == ({
            let (m, s1) = consume(s, one(TokenType::LeftParen));
            if m {
                match finish_call(callee, s1) {
                    Err(e) => Err(e),
                    Ok((c, r)) => call_rest(c, clip(s1, r)),
                }
            } else {
                Ok((callee, s))
            }
        }),
{
    reveal_with_fuel(call_rest, 1);
    reveal_with_fuel(finish_call, 1);
}

pub proof fn unfold_finish_call(callee: ExprView, s: Seq<TokenView>)
    ensures
        finish_call(callee, s) == ({
            let args: Parsed<Seq<ExprView>> = if peek(s).type_of != TokenType::RightParen {
                arguments(s)
            } else {
                Ok((Seq::empty(), s))
            };
            match args {
                Err(e) => Err(e),
                Ok((args, r)) => {
                    let r1 = clip(s, r);
                    if args.len() >= 8 {
                        Err(ParseError::TooManyArguments)
                    } else {
                        match expect(r1, one(TokenType::RightParen), ParseError::MissingRightParenAfterArguments) {
                            Err(e) => Err(e),
                            Ok(r2) => Ok((ExprView::Call(Box::new(callee), peek(r1), args), r2)),
                        }
                    }
                },
            }
        }),
{
    reveal_with_fuel(finish_call, 1);
    reveal_with_fuel(arguments, 1);
}

pub proof fn unfold_arguments(s: Seq<TokenView>)
    ensures
        arguments(s) == ({
            arguments_rest(Seq::empty(), s)
        }),
{
    reveal_with_fuel(arguments, 1);
    reveal_with_fuel(arguments_rest, 1);
}

pub proof fn unfold_arguments_rest(acc: Seq<ExprView>, s: Seq<TokenView>)
    ensures
        arguments_rest(acc, s) == ({
            match expression(s) {
                Err(e) => Err(e),
                Ok((arg, r)) => {
                    let (m, r2) = consume(clip(s, r), one(TokenType::Comma));
                    if m {
                        arguments_rest(acc.push(arg), r2)
                    } else {
                        Ok((acc.push(arg), clip(s, r)))
                    }
                },
            }
        }),
{
    reveal_with_fuel(expression, 1);
    reveal_with_fuel(arguments_rest, 1);
}

pub proof fn unfold_primary(s: Seq<TokenView>)
    ensures
        primary(s) == ({
            let t = peek(s);
            let s1 = pop_rest(s);
            if t.type_of == TokenType::Number {
                Ok((ExprView::Literal(token_literal(t, true)), s1))
            } else if t.type_of == TokenType::String {
                Ok((ExprView::Literal(token_literal(t, false)), s1))
            } else if t.type_of == TokenType::False {
                Ok((ExprView::Literal(LiteralView::Bool(false)), s1))
            } else if t.type_of == TokenType::True {
                Ok((ExprView::Literal(LiteralView::Bool(true)), s1))
            } else if t.type_of == TokenType::Nil {
                Ok((ExprView::Literal(LiteralView::Nil), s1))
            } else if t.type_of == TokenType::LeftParen {
                match expression(s1) {
                    Err(e) => Err(e),
                    Ok((inner, r)) => {
                        let (found, r2) = until_found(clip(s1, r), one(TokenType::RightParen));
                        if found {
                            Ok((ExprView::Grouping(Box::new(inner)), r2))
                        } else {
                            Err(ParseError::UnclosedGrouping)
                        }
                    },
                }
            } else if t.type_of == TokenType::Identifier {
                Ok((ExprView::Variable(t), s1))
            } else {
                Ok((ExprView::Empty, s1))
            }
        }),
{
    reveal_with_fuel(primary, 1);
    reveal_with_fuel(until_found, 1);
    reveal_with_fuel(expression, 1);
}

pub proof fn unfold_program(s: Seq<TokenView>)
    ensures
        program(s) == ({
            program_rest(Seq::empty(), s)
        }),
{
    reveal_with_fuel(program, 1);
    reveal_with_fuel(program_rest, 1);
}

pub proof fn unfold_program_rest(acc: Seq<StmtView>, s: Seq<TokenView>)
    ensures
        program_rest(acc, s) == ({
            if peek(s).type_of == TokenType::Eof {
                Ok((acc, s))
            } else {
                match declaration(s) {
                    Err(e) => Err(e),
                    Ok((d, r)) => if r.len() < s.len() {
                        program_rest(acc.push(d), r)
                    } else {
                        Ok((acc.push(d), r))
                    },
                }
            }
        }),
{
    reveal_with_fuel(program_rest, 1);
    reveal_with_fuel(declaration, 1);
}

pub proof fn unfold_declaration(s: Seq<TokenView>)
    ensures
        declaration(s) == ({
            let (f, s1) = consume(s, one(TokenType::Fun));
            if f {
                function(s1)
            } else {
                let (v, s2) = consume(s, one(TokenType::Var));
                if v {
                    var_declaration(s2)
                } else {
                    statement(s)
                }
            }
        }),
{
    reveal_with_fuel(declaration, 1);
    reveal_with_fuel(function, 1);
    reveal_with_fuel(var_declaration, 1);
    reveal_with_fuel(statement, 1);
}

pub proof fn unfold_block_items(acc: Seq<StmtView>, s: Seq<TokenView>)
    ensures
        block_items(acc, s) == ({
            if peek(s).type_of == TokenType::RightBrace {
                Ok((acc, s))
            } else {
                match declaration(s) {
                    Err(e) => Err(e),
                    Ok((d, r)) => {
                        let r1 = clip(s, r);
                        if peek(r1).type_of == TokenType::Eof {
                            Err(ParseError::UnmatchedBrace)
                        } else if r1.len() < s.len() {
                            block_items(acc.push(d), r1)
                        } else {
                            Ok((acc.push(d), r1))
                        }
                    },
                }
            }
        }),
{
    reveal_with_fuel(declaration, 1);
    reveal_with_fuel(block_items, 1);
}

pub proof fn unfold_block(s: Seq<TokenView>)
    ensures
        block(s) == ({
            match block_items(Seq::empty(), s) {
                Err(e) => Err(e),
                Ok((items, r)) => Ok((items, until_found(clip(s, r), one(TokenType::RightBrace)).1)),
            }
        }),
{
    reveal_with_fuel(block, 1);
    reveal_with_fuel(until_found, 1);
    reveal_with_fuel(block_items, 1);
}

pub proof fn unfold_parameters(acc: Seq<TokenView>, s: Seq<TokenView>)
    ensures
        parameters(acc, s) == ({
            let p = peek(s);
            let (m, s1) = consume(s, one(TokenType::Identifier));
            if !m {
                (acc, s)
            } else {
                let (c, s2) = consume(s1, one(TokenType::Comma));
                if !c {
                    (acc.push(p), s1)
                } else {
                    parameters(acc.push(p), s2)
                }
            }
        }),
{
    reveal_with_fuel(parameters, 1);
}

pub proof fn unfold_function(s: Seq<TokenView>)
    ensures
        function(s) == ({
            let name = peek(s);
            match expect(s, one(TokenType::Identifier), ParseError::ExpectedIdentifier) {
                Err(e) => Err(e),
                Ok(s1) => match expect(s1, one(TokenType::LeftParen), ParseError::ExpectedLeftParen) {
                    Err(e) => Err(e),
                    Ok(s2) => {
                        let (params, s3) = if peek(s2).type_of != TokenType::RightParen {
                            parameters(Seq::empty(), s2)
                        } else {
                            (Seq::empty(), s2)
                        };
                        let s3 = clip(s2, s3);
                        match expect(s3, one(TokenType::RightParen), ParseError::ExpectedRightParen) {
                            Err(e) => Err(e),
                            Ok(s4) => match expect(s4, one(TokenType::LeftBrace), ParseError::ExpectedLeftBrace) {
                                Err(e) => Err(e),
                                Ok(s5) => match block(s5) {
                                    Err(e) => Err(e),
                                    Ok((body, r)) => Ok((StmtView::Function(name, params, body), r)),
                                },
                            },
                        }
                    },
                },
            }
        }),
{
    reveal_with_fuel(function, 1);
    reveal_with_fuel(block, 1);
    reveal_with_fuel(parameters, 1);
}

pub proof fn unfold_var_declaration(s: Seq<TokenView>)
    ensures
        var_declaration(s) == ({
            let name = peek(s);
            let s1 = pop_rest(s);
            if name.type_of != TokenType::Identifier {
                Err(ParseError::VarNameNotIdentifier)
            } else {
                let (m, s2) = consume(s1, one(TokenType::Equal));
                let init: Parsed<ExprView> = if m { expression(s2) } else { Ok((ExprView::Empty, s1)) };
                match init {
                    Err(e) => Err(e),
                    Ok((init, r)) => match expect(clip(s1, r), one(TokenType::Semicolon), ParseError::MissingSemicolon) {
                        Err(e) => Err(e),
                        Ok(r2) => Ok((StmtView::Var(name, init), r2)),
                    },
                }
            }
        }),
{
    reveal_with_fuel(var_declaration, 1);
    reveal_with_fuel(expression, 1);
}

pub proof fn unfold_statement(s: Seq<TokenView>)
    ensures
        statement(s) == ({
            let (p, s1) = consume(s, one(TokenType::Print));
            if p {
                match expression(s1) {
                    Err(e) => Err(e),
                    Ok((e, r)) => match expect(clip(s1, r), one(TokenType::Semicolon), ParseError::MissingSemicolon) {
                        Err(err) => Err(err),
                        Ok(r2) => Ok((StmtView::Print(e), r2)),
                    },
                }
            } else if consume(s, one(TokenType::LeftBrace)).0 {
                match block(pop_rest(s)) {
                    Err(e) => Err(e),
                    Ok((items, r)) => Ok((StmtView::Block(items), r)),
                }
            } else if consume(s, one(TokenType::If)).0 {
                if_statement(pop_rest(s))
            } else if consume(s, one(TokenType::While)).0 {
                while_statement(pop_rest(s))
            } else if consume(s, one(TokenType::For)).0 {
                for_statement(pop_rest(s))
            } else if consume(s, one(TokenType::Return)).0 {
                return_statement(pop_rest(s))
            } else if consume(s, one(TokenType::Break)).0 {
                match expect(pop_rest(s), one(TokenType::Semicolon), ParseError::MissingSemicolon) {
                    Err(e) => Err(e),
                    Ok(r) => Ok((StmtView::Break, r)),
                }
            } else {
                match expression(s) {
                    Err(e) => Err(e),
                    Ok((e, r)) => match expect(clip(s, r), one(TokenType::Semicolon), ParseError::MissingSemicolon) {
                        Err(err) => Err(err),
                        Ok(r2) => Ok((StmtView::Expr(e), r2)),
                    },
                }
            }
        }),
{
    reveal_with_fuel(statement, 1);
    reveal_with_fuel(expression, 1);
    reveal_with_fuel(block, 1);
    reveal_with_fuel(return_statement, 1);
    reveal_with_fuel(while_statement, 1);
    reveal_with_fuel(if_statement, 1);
    reveal_with_fuel(for_statement, 1);
}

pub proof fn unfold_return_statement(s: Seq<TokenView>)
    ensures
        return_statement(s) == ({
            let value: Parsed<ExprView> = if peek(s).type_of != TokenType::Semicolon {
                expression(s)
            } else {
                Ok((ExprView::Empty, s))
            };
            match value {
                Err(e) => Err(e),
                Ok((v, r)) => match expect(clip(s, r), one(TokenType::Semicolon), ParseError::MissingSemicolonAfterReturn) {
                    Err(e) => Err(e),
                    Ok(r2) => Ok((StmtView::Return(bare_token(TokenType::Return, 1), v), r2)),
                },
            }
        }),
{
    reveal_with_fuel(return_statement, 1);
    reveal_with_fuel(expression, 1);
}

pub proof fn unfold_while_statement(s: Seq<TokenView>)
    ensures
        while_statement(s) == ({
            match expect(s, one(TokenType::LeftParen), ParseError::MissingLeftParenAfterWhile) {
                Err(e) => Err(e),
                Ok(s1) => match expression(s1) {
                    Err(e) => Err(e),
                    Ok((cond, r)) => match expect(clip(s1, r), one(TokenType::RightParen), ParseError::MissingRightParenAfterWhile) {
                        Err(e) => Err(e),
                        Ok(s2) => match statement(s2) {
                            Err(e) => Err(e),
                            Ok((body, r2)) => Ok((StmtView::While(cond, Box::new(body)), r2)),
                        },
                    },
                },
            }
        }),
{
    reveal_with_fuel(while_statement, 1);
    reveal_with_fuel(expression, 1);
    reveal_with_fuel(statement, 1);
}

pub proof fn unfold_if_statement(s: Seq<TokenView>)
    ensures
        if_statement(s) == ({
            match expect(s, one(TokenType::LeftParen), ParseError::MissingLeftParenAfterIf) {
                Err(e) => Err(e),
                Ok(s1) => match expression(s1) {
                    Err(e) => Err(e),
                    Ok((cond, r)) => match expect(clip(s1, r), one(TokenType::RightParen), ParseError::MissingRightParenAfterCondition) {
                        Err(e) => Err(e),
                        Ok(s2) => match statement(s2) {
                            Err(e) => Err(e),
                            Ok((then_branch, r2)) => {
                                let (m, s3) = consume(clip(s2, r2), one(TokenType::Else));
                                let else_branch: Parsed<StmtView> = if m {
                                    statement(s3)
                                } else {
                                    Ok((empty_expr_stmt(), s3))
                                };
                                match else_branch {
                                    Err(e) => Err(e),
                                    Ok((else_branch, r3)) => Ok((
                                        StmtView::If(cond, Box::new(then_branch), Box::new(else_branch)),
                                        r3,
                                    )),
                                }
                            },
                        },
                    },
                },
            }
        }),
{
    reveal_with_fuel(if_statement, 1);
    reveal_with_fuel(expression, 1);
    reveal_with_fuel(statement, 1);
}

pub proof fn unfold_for_statement(s: Seq<TokenView>)
    ensures
        for_statement(s) == ({
            match expect(s, one(TokenType::LeftParen), ParseError::MissingLeftParenAfterFor) {
                Err(e) => Err(e),
                Ok(s1) => {
                    let (semi, s1a) = consume(s1, one(TokenType::Semicolon));
                    let (var, s1b) = consume(s1, one(TokenType::Var));
                    let init: Parsed<StmtView> = if semi {
                        Ok((empty_expr_stmt(), s1a))
                    } else if var {
                        var_declaration(s1b)
                    } else {
                        match expression(s1) {
                            Err(e) => Err(e),
                            Ok((e, r)) => Ok((StmtView::Expr(e), r)),
                        }
                    };
                    match init {
                        Err(e) => Err(e),
                        Ok((init, r)) => {
                            let s2 = clip(s1, r);
                            let cond: Parsed<ExprView> = if peek(s2).type_of == TokenType::Semicolon {
                                Ok((ExprView::Literal(LiteralView::Bool(true)), s2))
                            } else {
                                expression(s2)
                            };
                            match cond {
                                Err(e) => Err(e),
                                Ok((cond, r)) => match expect(clip(s2, r), one(TokenType::Semicolon), ParseError::MissingSemicolonAfterLoopCondition) {
                                    Err(e) => Err(e),
                                    Ok(s3) => {
                                        let incr: Parsed<ExprView> = if peek(s3).type_of == TokenType::RightParen {
                                            Ok((ExprView::Empty, s3))
                                        } else {
                                            expression(s3)
                                        };
                                        match incr {
                                            Err(e) => Err(e),
                                            Ok((incr, r)) => match expect(clip(s3, r), one(TokenType::RightParen), ParseError::MissingRightParenAfterFor) {
                                                Err(e) => Err(e),
                                                Ok(s4) => match statement(s4) {
                                                    Err(e) => Err(e),
                                                    Ok((body, r)) => Ok((desugar_for(init, cond, incr, body), r)),
                                                },
                                            },
                                        }
                                    },
                                },
                            }
                        },
                    }
                },
            }
        }),
{
    reveal_with_fuel(for_statement, 1);
    reveal_with_fuel(expression, 1);
    reveal_with_fuel(var_declaration, 1);
    reveal_with_fuel(statement, 1);
}

} // verus!
