//! The recursive-descent parser: turns tokens into statements. It reads the
//! tokens as a stack whose top (last element) is the next token; each
//! function follows the rule of the same name in [`crate::grammar`].

use vstd::prelude::*;
use crate::token::{Token, TokenView, Literal};
use crate::token::token_type::TokenType;
use crate::expression::{Expr, ExprView, lemma_exprs_view_push};
use crate::statement::{Stmt, StmtView, lemma_stmts_view_push};
use crate::treewalk::scanner::tokens_view;
use crate::grammar;
use crate::grammar::{ParseError, Parsed, peek, pop_rest, consume, expect, clip, one};

verus! {

/// `r` is the parse that `spec` describes, and `after` the tokens it leaves.
pub open spec fn parsed_as<T: View>(r: Result<T, ParseError>, spec: Parsed<T::V>, after: Seq<TokenView>) -> bool {
    match spec {
        Ok((v, rest)) => r is Ok && r->Ok_0@ == v && after == rest,
        Err(e) => r is Err && r->Err_0 == e,
    }
}

/// `after` is what is left of `before` once tokens were taken from its top.
pub open spec fn taken_from(after: Seq<Token>, before: Seq<Token>) -> bool {
    &&& after.len() <= before.len()
    &&& forall|i: int| 0 <= i < after.len() ==> #[trigger] after[i] == before[i]
}

/// Tokens were taken from the top of `before`, the last of them not `Eof`.
pub open spec fn took_token(after: Seq<Token>, before: Seq<Token>) -> bool {
    &&& taken_from(after, before)
    &&& after.len() < before.len()
    &&& before[after.len() as int].type_of != TokenType::Eof
}

pub proof fn lemma_tokens_view_pop(v: Seq<Token>)
    requires
        v.len() > 0,
    ensures
        tokens_view(v.drop_last()) == tokens_view(v).drop_last(),
        tokens_view(v).last() == v.last()@,
        tokens_view(v).len() == v.len(),
{
    assert(tokens_view(v.drop_last()) =~= tokens_view(v).drop_last());
}

/// The next token; past the end, an `Eof` token on line 1.
fn peek_token(tokens: &Vec<Token>) -> (t: Token)
    ensures
        t@ == peek(tokens_view(tokens@)),
{
    if tokens.len() > 0 {
        proof { lemma_tokens_view_pop(tokens@); }
        tokens[tokens.len() - 1].duplicate()
    } else {
        Token::new_keyword(TokenType::Eof, 1)
    }
}

/// Takes the next token.
fn pop_token(tokens: &mut Vec<Token>) -> (t: Token)
    ensures
        t@ == peek(tokens_view(old(tokens)@)),
        tokens_view(final(tokens)@) == pop_rest(tokens_view(old(tokens)@)),
        taken_from(final(tokens)@, old(tokens)@),
        old(tokens)@.len() > 0 ==> final(tokens)@ == old(tokens)@.drop_last(),
        old(tokens)@.len() == 0 ==> final(tokens)@ == old(tokens)@,
{
    proof {
        if tokens@.len() > 0 {
            lemma_tokens_view_pop(tokens@);
        }
    }
    match tokens.pop() {
        Some(t) => t,
        None => Token::new_keyword(TokenType::Eof, 1),
    }
}

fn in_family(t: TokenType, family: &[TokenType]) -> (r: bool)
    ensures
        r == family@.contains(t),
{
    let mut i: usize = 0;
    while i < family.len()
        invariant
            i <= family@.len(),
            forall|j: int| 0 <= j < i ==> family@[j] != t,
        decreases family.len() - i,
    {
        if family[i] == t {
            return true;
        }
        i = i + 1;
    }
    false
}

/// If the next token's kind is in the family (and is not `Eof`), takes it
/// and returns true; else false.
fn consume_match(tokens: &mut Vec<Token>, family: &[TokenType]) -> (r: bool)
    ensures
        (r, tokens_view(final(tokens)@)) == consume(tokens_view(old(tokens)@), family@),
        taken_from(final(tokens)@, old(tokens)@),
        r ==> took_token(final(tokens)@, old(tokens)@),
        !r ==> final(tokens)@ == old(tokens)@,
{
    let t = peek_token(tokens).type_of;
    assert(tokens_view(tokens@).len() == tokens@.len());
    if t == TokenType::Eof {
        false
    } else if in_family(t, family) {
        pop_token(tokens);
        true
    } else {
        false
    }
}

/// Takes tokens until one of the family is taken or `Eof` is reached;
/// returns whether the family was found first.
fn consume_until_found(tokens: &mut Vec<Token>, family: &[TokenType]) -> (r: bool)
    ensures
        (r, tokens_view(final(tokens)@)) == grammar::until_found(tokens_view(old(tokens)@), family@),
        taken_from(final(tokens)@, old(tokens)@),
        r ==> took_token(final(tokens)@, old(tokens)@),
        old(tokens)@.len() > 0 && old(tokens)@.last().type_of != TokenType::Eof
            && family@.contains(old(tokens)@.last().type_of) ==> r && final(tokens)@ == old(tokens)@.drop_last(),
    decreases old(tokens)@.len(),
{
    proof { grammar::unfold_until_found(tokens_view(tokens@), family@); }
    let ghost s = tokens_view(tokens@);
    let t = pop_token(tokens).type_of;
    if t == TokenType::Eof {
        false
    } else if in_family(t, family) {
        true
    } else {
        proof {
            assert(s.len() > 0);
            assert(tokens_view(tokens@).len() == tokens@.len());
        }
        consume_until_found(tokens, family)
    }
}

/// Takes the next token, which must be of a kind in the family.
fn try_consume(tokens: &mut Vec<Token>, family: &[TokenType], err: ParseError, Ghost(strict): Ghost<bool>) -> (r: Result<(), ParseError>)
    requires
        strict ==> expect(tokens_view(old(tokens)@), family@, err) is Ok,
        !family@.contains(TokenType::Eof),
    ensures
        match expect(tokens_view(old(tokens)@), family@, err) {
            Ok(rest) => r is Ok && tokens_view(final(tokens)@) == rest,
            Err(e) => r == Err::<(), ParseError>(e),
        },
        taken_from(final(tokens)@, old(tokens)@),
        r is Ok ==> took_token(final(tokens)@, old(tokens)@),
{
    assert(tokens_view(tokens@).len() == tokens@.len());
    if !in_family(peek_token(tokens).type_of, family) {
        return Err(err);
    }
    pop_token(tokens);
    Ok(())
}

/// If the next token is of kind `t` (and `t` is not `Eof`), takes it and
/// returns true; else false.
fn consume_match_one(tokens: &mut Vec<Token>, t: TokenType) -> (r: bool)
    ensures
        (r, tokens_view(final(tokens)@)) == consume(tokens_view(old(tokens)@), one(t)),
        taken_from(final(tokens)@, old(tokens)@),
        r ==> took_token(final(tokens)@, old(tokens)@),
        !r ==> final(tokens)@ == old(tokens)@,
{
    let family: &[TokenType] = &[t];
    assert(family@ == one(t));
    consume_match(tokens, family)
}

/// Takes the next token, which must be of kind `t`.
fn try_consume_one(tokens: &mut Vec<Token>, t: TokenType, err: ParseError, Ghost(strict): Ghost<bool>) -> (r: Result<(), ParseError>)
    requires
        strict ==> expect(tokens_view(old(tokens)@), one(t), err) is Ok,
        t != TokenType::Eof,
    ensures
        match expect(tokens_view(old(tokens)@), one(t), err) {
            Ok(rest) => r is Ok && tokens_view(final(tokens)@) == rest,
            Err(e) => r == Err::<(), ParseError>(e),
        },
        taken_from(final(tokens)@, old(tokens)@),
        r is Ok ==> took_token(final(tokens)@, old(tokens)@),
{
    let family: &[TokenType] = &[t];
    assert(family@ == one(t));
    try_consume(tokens, family, err, Ghost(strict))
}

/// Takes tokens until one of kind `t` is taken or `Eof` is reached.
fn consume_until_found_one(tokens: &mut Vec<Token>, t: TokenType) -> (r: bool)
    ensures
        (r, tokens_view(final(tokens)@)) == grammar::until_found(tokens_view(old(tokens)@), one(t)),
        taken_from(final(tokens)@, old(tokens)@),
        r ==> took_token(final(tokens)@, old(tokens)@),
        old(tokens)@.len() > 0 && old(tokens)@.last().type_of != TokenType::Eof
            && old(tokens)@.last().type_of == t ==> r && final(tokens)@ == old(tokens)@.drop_last(),
{
    let family: &[TokenType] = &[t];
    assert(family@ == one(t));
    consume_until_found(tokens, family)
}

pub open spec fn view_of(tokens: &Vec<Token>) -> Seq<TokenView> {
    tokens_view(tokens@)
}

fn expression(tokens: &mut Vec<Token>, Ghost(strict): Ghost<bool>) -> (r: Result<Expr, ParseError>)
    requires
        strict ==> grammar::expression(view_of(old(tokens))) is Ok,
    ensures
        parsed_as(r, grammar::expression(view_of(old(tokens))), view_of(final(tokens))),
        taken_from(final(tokens)@, old(tokens)@),
    decreases old(tokens)@.len(), 30int,
{
    proof { grammar::unfold_expression(view_of(tokens)); }
    assignment(tokens, Ghost(strict))
}

fn assignment(tokens: &mut Vec<Token>, Ghost(strict): Ghost<bool>) -> (r: Result<Expr, ParseError>)
    requires
        strict ==> grammar::assignment(view_of(old(tokens))) is Ok,
    ensures
        parsed_as(r, grammar::assignment(view_of(old(tokens))), view_of(final(tokens))),
        taken_from(final(tokens)@, old(tokens)@),
    decreases old(tokens)@.len(), 29int,
{
    proof { grammar::unfold_assignment(view_of(tokens)); }
    let ghost s = view_of(tokens);
    let expr = match or(tokens, Ghost(strict)) {
        Ok(e) => e,
        Err(e) => {
            assert(grammar::or_expr(s) == Err::<(ExprView, Seq<TokenView>), ParseError>(e));
            return Err(e);
        },
    };
    assert(clip(s, view_of(tokens)) == view_of(tokens));
    if consume_match_one(tokens, TokenType::Equal) {
        let ghost s2 = view_of(tokens);
        let value = match assignment(tokens, Ghost(strict)) {
            Ok(v) => v,
            Err(e) => {
                assert(grammar::assignment(s2) == Err::<(ExprView, Seq<TokenView>), ParseError>(e));
                return Err(e);
            },
        };
        // The left side must name a variable.
        if let Expr::Variable(token) = expr {
            return Ok(Expr::Assign(token, Box::new(value)));
        } else {
            return Err(ParseError::InvalidAssignmentTarget);
        }
    }
    Ok(expr)
}

fn or(tokens: &mut Vec<Token>, Ghost(strict): Ghost<bool>) -> (r: Result<Expr, ParseError>)
    requires
        strict ==> grammar::or_expr(view_of(old(tokens))) is Ok,
    ensures
        parsed_as(r, grammar::or_expr(view_of(old(tokens))), view_of(final(tokens))),
        taken_from(final(tokens)@, old(tokens)@),
    decreases old(tokens)@.len(), 28int,
{
    proof { grammar::unfold_or_expr(view_of(tokens)); }
    let ghost s = view_of(tokens);
    let expr = match and(tokens, Ghost(strict)) {
        Ok(e) => e,
        Err(e) => {
            assert(grammar::and_expr(s) == Err::<(ExprView, Seq<TokenView>), ParseError>(e));
            return Err(e);
        },
    };
    assert(clip(s, view_of(tokens)) == view_of(tokens));
    or_rest(tokens, expr, Ghost(strict))
}

fn or_rest(tokens: &mut Vec<Token>, left: Expr, Ghost(strict): Ghost<bool>) -> (r: Result<Expr, ParseError>)
    requires
        strict ==> grammar::or_rest(left@, view_of(old(tokens))) is Ok,
    ensures
        parsed_as(r, grammar::or_rest(left@, view_of(old(tokens))), view_of(final(tokens))),
        taken_from(final(tokens)@, old(tokens)@),
    decreases old(tokens)@.len(), 27int,
{
    proof { grammar::unfold_or_rest(left@, view_of(tokens)); }
    let ghost s = view_of(tokens);

    let token = peek_token(tokens);
    if consume_match_one(tokens, TokenType::Or) {
        let ghost s1 = view_of(tokens);
        assert(consume(s, one(TokenType::Or)) == (true, s1));
        let right = match and(tokens, Ghost(strict)) {
            Ok(e) => e,
            Err(e) => {
                assert(grammar::and_expr(s1) == Err::<(ExprView, Seq<TokenView>), ParseError>(e));
                return Err(e);
            },
        };
        assert(clip(s1, view_of(tokens)) == view_of(tokens));
        assert(grammar::and_expr(s1) == Ok::<(ExprView, Seq<TokenView>), ParseError>((right@, view_of(tokens))));
        assert(grammar::or_rest(left@, s) == grammar::or_rest(grammar::logical(left@, token@, right@), view_of(tokens)));
        or_rest(tokens, Expr::Logical(Box::new(left), token, Box::new(right)), Ghost(strict))
    } else {
        assert(consume(s, one(TokenType::Or)).0 == false);
        Ok(left)
    }
}

fn and(tokens: &mut Vec<Token>, Ghost(strict): Ghost<bool>) -> (r: Result<Expr, ParseError>)
    requires
        strict ==> grammar::and_expr(view_of(old(tokens))) is Ok,
    ensures
        parsed_as(r, grammar::and_expr(view_of(old(tokens))), view_of(final(tokens))),
        taken_from(final(tokens)@, old(tokens)@),
    decreases old(tokens)@.len(), 26int,
{
    proof { grammar::unfold_and_expr(view_of(tokens)); }
    let ghost s = view_of(tokens);
    let expr = match equality(tokens, Ghost(strict)) {
        Ok(e) => e,
        Err(e) => {
            assert(grammar::equality(s) == Err::<(ExprView, Seq<TokenView>), ParseError>(e));
            return Err(e);
        },
    };
    assert(clip(s, view_of(tokens)) == view_of(tokens));
    and_rest(tokens, expr, Ghost(strict))
}

fn and_rest(tokens: &mut Vec<Token>, left: Expr, Ghost(strict): Ghost<bool>) -> (r: Result<Expr, ParseError>)
    requires
        strict ==> grammar::and_rest(left@, view_of(old(tokens))) is Ok,
    ensures
        parsed_as(r, grammar::and_rest(left@, view_of(old(tokens))), view_of(final(tokens))),
        taken_from(final(tokens)@, old(tokens)@),
    decreases old(tokens)@.len(), 25int,
{
    proof { grammar::unfold_and_rest(left@, view_of(tokens)); }
    let ghost s = view_of(tokens);
    let token = peek_token(tokens);
    if consume_match_one(tokens, TokenType::And) {
        let ghost s1 = view_of(tokens);
        assert(consume(s, one(TokenType::And)) == (true, s1));
        let right = match equality(tokens, Ghost(strict)) {
            Ok(e) => e,
            Err(e) => {
                assert(grammar::equality(s1) == Err::<(ExprView, Seq<TokenView>), ParseError>(e));
                return Err(e);
            },
        };
        assert(clip(s1, view_of(tokens)) == view_of(tokens));
        and_rest(tokens, Expr::Logical(Box::new(left), token, Box::new(right)), Ghost(strict))
    } else {
        assert(consume(s, one(TokenType::And)).0 == false);
        Ok(left)
    }
}

fn equality(tokens: &mut Vec<Token>, Ghost(strict): Ghost<bool>) -> (r: Result<Expr, ParseError>)
    requires
        strict ==> grammar::equality(view_of(old(tokens))) is Ok,
    ensures
        parsed_as(r, grammar::equality(view_of(old(tokens))), view_of(final(tokens))),
        taken_from(final(tokens)@, old(tokens)@),
    decreases old(tokens)@.len(), 24int,
{
    proof { grammar::unfold_equality(view_of(tokens)); }
    let ghost s = view_of(tokens);
    let expr = match comparison(tokens, Ghost(strict)) {
        Ok(e) => e,
        Err(e) => {
            assert(grammar::comparison(s) == Err::<(ExprView, Seq<TokenView>), ParseError>(e));
            return Err(e);
        },
    };
    assert(clip(s, view_of(tokens)) == view_of(tokens));
    equality_rest(tokens, expr, Ghost(strict))
}

fn equality_rest(tokens: &mut Vec<Token>, left: Expr, Ghost(strict): Ghost<bool>) -> (r: Result<Expr, ParseError>)
    requires
        strict ==> grammar::equality_rest(left@, view_of(old(tokens))) is Ok,
    ensures
        parsed_as(r, grammar::equality_rest(left@, view_of(old(tokens))), view_of(final(tokens))),
        taken_from(final(tokens)@, old(tokens)@),
    decreases old(tokens)@.len(), 23int,
{
    proof { grammar::unfold_equality_rest(left@, view_of(tokens)); }
    let ghost s = view_of(tokens);
    let family: &[TokenType] = &[TokenType::BangEqual, TokenType::EqualEqual];
    assert(family@ == grammar::equality_ops());
    let token = peek_token(tokens);
    if consume_match(tokens, family) {
        let ghost s1 = view_of(tokens);
        assert(consume(s, grammar::equality_ops()) == (true, s1));
        let right = match comparison(tokens, Ghost(strict)) {
            Ok(e) => e,
            Err(e) => {
                assert(grammar::comparison(s1) == Err::<(ExprView, Seq<TokenView>), ParseError>(e));
                return Err(e);
            },
        };
        assert(clip(s1, view_of(tokens)) == view_of(tokens));
        equality_rest(tokens, Expr::Binary(Box::new(left), token, Box::new(right)), Ghost(strict))
    } else {
        assert(consume(s, grammar::equality_ops()).0 == false);
        Ok(left)
    }
}

fn comparison(tokens: &mut Vec<Token>, Ghost(strict): Ghost<bool>) -> (r: Result<Expr, ParseError>)
    requires
        strict ==> grammar::comparison(view_of(old(tokens))) is Ok,
    ensures
        parsed_as(r, grammar::comparison(view_of(old(tokens))), view_of(final(tokens))),
        taken_from(final(tokens)@, old(tokens)@),
    decreases old(tokens)@.len(), 22int,
{
    proof { grammar::unfold_comparison(view_of(tokens)); }
    let ghost s = view_of(tokens);
    let expr = match addition(tokens, Ghost(strict)) {
        Ok(e) => e,
        Err(e) => {
            assert(grammar::addition(s) == Err::<(ExprView, Seq<TokenView>), ParseError>(e));
            return Err(e);
        },
    };
    assert(clip(s, view_of(tokens)) == view_of(tokens));
    comparison_rest(tokens, expr, Ghost(strict))
}

fn comparison_rest(tokens: &mut Vec<Token>, left: Expr, Ghost(strict): Ghost<bool>) -> (r: Result<Expr, ParseError>)
    requires
        strict ==> grammar::comparison_rest(left@, view_of(old(tokens))) is Ok,
    ensures
        parsed_as(r, grammar::comparison_rest(left@, view_of(old(tokens))), view_of(final(tokens))),
        taken_from(final(tokens)@, old(tokens)@),
    decreases old(tokens)@.len(), 21int,
{
    proof { grammar::unfold_comparison_rest(left@, view_of(tokens)); }
    let ghost s = view_of(tokens);
    let family: &[TokenType] = &[TokenType::Less, TokenType::LessEqual, TokenType::Greater, TokenType::GreaterEqual];
    assert(family@ == grammar::comparison_ops());
    let token = peek_token(tokens);
    if consume_match(tokens, family) {
        let ghost s1 = view_of(tokens);
        assert(consume(s, grammar::comparison_ops()) == (true, s1));
        let right = match addition(tokens, Ghost(strict)) {
            Ok(e) => e,
            Err(e) => {
                assert(grammar::addition(s1) == Err::<(ExprView, Seq<TokenView>), ParseError>(e));
                return Err(e);
            },
        };
        assert(clip(s1, view_of(tokens)) == view_of(tokens));
        comparison_rest(tokens, Expr::Binary(Box::new(left), token, Box::new(right)), Ghost(strict))
    } else {
        assert(consume(s, grammar::comparison_ops()).0 == false);
        Ok(left)
    }
}

fn addition(tokens: &mut Vec<Token>, Ghost(strict): Ghost<bool>) -> (r: Result<Expr, ParseError>)
    requires
        strict ==> grammar::addition(view_of(old(tokens))) is Ok,
    ensures
        parsed_as(r, grammar::addition(view_of(old(tokens))), view_of(final(tokens))),
        taken_from(final(tokens)@, old(tokens)@),
    decreases old(tokens)@.len(), 20int,
{
    proof { grammar::unfold_addition(view_of(tokens)); }
    let ghost s = view_of(tokens);
    let expr = match multiplication(tokens, Ghost(strict)) {
        Ok(e) => e,
        Err(e) => {
            assert(grammar::multiplication(s) == Err::<(ExprView, Seq<TokenView>), ParseError>(e));
            return Err(e);
        },
    };
    assert(clip(s, view_of(tokens)) == view_of(tokens));
    addition_rest(tokens, expr, Ghost(strict))
}

fn addition_rest(tokens: &mut Vec<Token>, left: Expr, Ghost(strict): Ghost<bool>) -> (r: Result<Expr, ParseError>)
    requires
        strict ==> grammar::addition_rest(left@, view_of(old(tokens))) is Ok,
    ensures
        parsed_as(r, grammar::addition_rest(left@, view_of(old(tokens))), view_of(final(tokens))),
        taken_from(final(tokens)@, old(tokens)@),
    decreases old(tokens)@.len(), 19int,
{
    proof { grammar::unfold_addition_rest(left@, view_of(tokens)); }
    let ghost s = view_of(tokens);
    let family: &[TokenType] = &[TokenType::Plus, TokenType::Minus];
    assert(family@ == grammar::addition_ops());
    let token = peek_token(tokens);
    if consume_match(tokens, family) {
        let ghost s1 = view_of(tokens);
        assert(consume(s, grammar::addition_ops()) == (true, s1));
        let right = match multiplication(tokens, Ghost(strict)) {
            Ok(e) => e,
            Err(e) => {
                assert(grammar::multiplication(s1) == Err::<(ExprView, Seq<TokenView>), ParseError>(e));
                return Err(e);
            },
        };
        assert(clip(s1, view_of(tokens)) == view_of(tokens));
        addition_rest(tokens, Expr::Binary(Box::new(left), token, Box::new(right)), Ghost(strict))
    } else {
        assert(consume(s, grammar::addition_ops()).0 == false);
        Ok(left)
    }
}

fn multiplication(tokens: &mut Vec<Token>, Ghost(strict): Ghost<bool>) -> (r: Result<Expr, ParseError>)
    requires
        strict ==> grammar::multiplication(view_of(old(tokens))) is Ok,
    ensures
        parsed_as(r, grammar::multiplication(view_of(old(tokens))), view_of(final(tokens))),
        taken_from(final(tokens)@, old(tokens)@),
    decreases old(tokens)@.len(), 18int,
{
    proof { grammar::unfold_multiplication(view_of(tokens)); }
    let ghost s = view_of(tokens);
    let expr = match unary(tokens, Ghost(strict)) {
        Ok(e) => e,
        Err(e) => {
            assert(grammar::unary(s) == Err::<(ExprView, Seq<TokenView>), ParseError>(e));
            return Err(e);
        },
    };
    assert(clip(s, view_of(tokens)) == view_of(tokens));
    multiplication_rest(tokens, expr, Ghost(strict))
}

fn multiplication_rest(tokens: &mut Vec<Token>, left: Expr, Ghost(strict): Ghost<bool>) -> (r: Result<Expr, ParseError>)
    requires
        strict ==> grammar::multiplication_rest(left@, view_of(old(tokens))) is Ok,
    ensures
        parsed_as(r, grammar::multiplication_rest(left@, view_of(old(tokens))), view_of(final(tokens))),
        taken_from(final(tokens)@, old(tokens)@),
    decreases old(tokens)@.len(), 17int,
{
    proof { grammar::unfold_multiplication_rest(left@, view_of(tokens)); }
    let ghost s = view_of(tokens);
    let family: &[TokenType] = &[TokenType::Star, TokenType::Slash];
    assert(family@ == grammar::multiplication_ops());
    let token = peek_token(tokens);
    if consume_match(tokens, family) {
        let ghost s1 = view_of(tokens);
        assert(consume(s, grammar::multiplication_ops()) == (true, s1));
        let right = match unary(tokens, Ghost(strict)) {
            Ok(e) => e,
            Err(e) => {
                assert(grammar::unary(s1) == Err::<(ExprView, Seq<TokenView>), ParseError>(e));
                return Err(e);
            },
        };
        assert(clip(s1, view_of(tokens)) == view_of(tokens));
        multiplication_rest(tokens, Expr::Binary(Box::new(left), token, Box::new(right)), Ghost(strict))
    } else {
        assert(consume(s, grammar::multiplication_ops()).0 == false);
        Ok(left)
    }
}

fn unary(tokens: &mut Vec<Token>, Ghost(strict): Ghost<bool>) -> (r: Result<Expr, ParseError>)
    requires
        strict ==> grammar::unary(view_of(old(tokens))) is Ok,
    ensures
        parsed_as(r, grammar::unary(view_of(old(tokens))), view_of(final(tokens))),
        taken_from(final(tokens)@, old(tokens)@),
    decreases old(tokens)@.len(), 16int,
{
    proof { grammar::unfold_unary(view_of(tokens)); }
    let family: &[TokenType] = &[TokenType::Bang, TokenType::Minus];
    assert(family@ == grammar::unary_ops());
    let token = peek_token(tokens);
    if consume_match(tokens, family) {
        let ghost s1 = view_of(tokens);
        match expression(tokens, Ghost(strict)) {
            Ok(operand) => Ok(Expr::Unary(token, Box::new(operand))),
            Err(e) => {
                assert(grammar::expression(s1) == Err::<(ExprView, Seq<TokenView>), ParseError>(e));
                Err(e)
            },
        }
    } else {
        call(tokens, Ghost(strict))
    }
}

fn call(tokens: &mut Vec<Token>, Ghost(strict): Ghost<bool>) -> (r: Result<Expr, ParseError>)
    requires
        strict ==> grammar::call(view_of(old(tokens))) is Ok,
    ensures
        parsed_as(r, grammar::call(view_of(old(tokens))), view_of(final(tokens))),
        taken_from(final(tokens)@, old(tokens)@),
    decreases old(tokens)@.len(), 15int,
{
    proof { grammar::unfold_call(view_of(tokens)); }
    let ghost s = view_of(tokens);
    let expr = match primary(tokens, Ghost(strict)) {
        Ok(e) => e,
        Err(e) => {
            assert(grammar::primary(s) == Err::<(ExprView, Seq<TokenView>), ParseError>(e));
            return Err(e);
        },
    };
    assert(clip(s, view_of(tokens)) == view_of(tokens));
    call_rest(tokens, expr, Ghost(strict))
}

/// Each `(` after a callee starts the arguments of a call.
fn call_rest(tokens: &mut Vec<Token>, callee: Expr, Ghost(strict): Ghost<bool>) -> (r: Result<Expr, ParseError>)
    requires
        strict ==> grammar::call_rest(callee@, view_of(old(tokens))) is Ok,
    ensures
        parsed_as(r, grammar::call_rest(callee@, view_of(old(tokens))), view_of(final(tokens))),
        taken_from(final(tokens)@, old(tokens)@),
    decreases old(tokens)@.len(), 14int,
{
    proof { grammar::unfold_call_rest(callee@, view_of(tokens)); }
    if consume_match_one(tokens, TokenType::LeftParen) {
        let ghost s1 = view_of(tokens);
        let expr = match finish_call(tokens, callee, Ghost(strict)) {
            Ok(e) => e,
            Err(e) => {
                return Err(e);
            },
        };
        assert(clip(s1, view_of(tokens)) == view_of(tokens));
        call_rest(tokens, expr, Ghost(strict))
    } else {
        Ok(callee)
    }
}

pub open spec fn args_view(v: Vec<Box<Expr>>) -> Seq<ExprView> {
    crate::expression::exprs_view(v@)
}

fn finish_call(tokens: &mut Vec<Token>, callee: Expr, Ghost(strict): Ghost<bool>) -> (r: Result<Expr, ParseError>)
    requires
        strict ==> grammar::finish_call(callee@, view_of(old(tokens))) is Ok,
    ensures
        parsed_as(r, grammar::finish_call(callee@, view_of(old(tokens))), view_of(final(tokens))),
        taken_from(final(tokens)@, old(tokens)@),
    decreases old(tokens)@.len(), 40int,
{
    proof { grammar::unfold_finish_call(callee@, view_of(tokens)); }
    let ghost s = view_of(tokens);
    let mut arguments: Vec<Box<Expr>> = Vec::new();
    if peek_token(tokens).type_of != TokenType::RightParen {
        proof {
            grammar::unfold_arguments(view_of(tokens));
            assert(args_view(arguments) =~= Seq::<ExprView>::empty());
        }
        match argument_list(tokens, &mut arguments, Ghost(strict)) {
            Ok(()) => {},
            Err(e) => {
                return Err(e);
            },
        }
    } else {
        assert(crate::expression::exprs_view(arguments@) =~= Seq::<ExprView>::empty());
    }
    assert(clip(s, view_of(tokens)) == view_of(tokens));
    proof { crate::expression::lemma_exprs_view_len(arguments@); }
    if arguments.len() >= 8 {
        return Err(ParseError::TooManyArguments);
    }
    let token = peek_token(tokens);
    match try_consume_one(tokens, TokenType::RightParen, ParseError::MissingRightParenAfterArguments, Ghost(strict)) {
        Ok(()) => {},
        Err(e) => return Err(e),
    }
    Ok(Expr::Call(Box::new(callee), token, arguments))
}

/// Comma-separated arguments of a call, after those in `args`.
fn argument_list(tokens: &mut Vec<Token>, args: &mut Vec<Box<Expr>>, Ghost(strict): Ghost<bool>) -> (r: Result<(), ParseError>)
    requires
        strict ==> grammar::arguments_rest(args_view(*old(args)), view_of(old(tokens))) is Ok,
    ensures
        match grammar::arguments_rest(args_view(*old(args)), view_of(old(tokens))) {
            Ok((all, rest)) => r is Ok && args_view(*final(args)) == all && view_of(final(tokens)) == rest,
            Err(e) => r is Err && r->Err_0 == e,
        },
        taken_from(final(tokens)@, old(tokens)@),
    decreases old(tokens)@.len(), 38int,
{
    proof { grammar::unfold_arguments_rest(args_view(*args), view_of(tokens)); }
    let ghost s = view_of(tokens);
    let arg = match expression(tokens, Ghost(strict)) {
        Ok(e) => e,
        Err(e) => {
            assert(grammar::expression(s) == Err::<(ExprView, Seq<TokenView>), ParseError>(e));
            return Err(e);
        },
    };
    assert(clip(s, view_of(tokens)) == view_of(tokens));
    let ghost before = args@;
    let b = Box::new(arg);
    proof { crate::expression::lemma_exprs_view_push(before, b); }
    args.push(b);
    if consume_match_one(tokens, TokenType::Comma) {
        argument_list(tokens, args, Ghost(strict))
    } else {
        Ok(())
    }
}

/// The literal that a number or string token stands for.
fn token_literal(token: Token, number: bool) -> (l: Literal)
    ensures
        l@ == grammar::token_literal(token@, number),
{
    match token.literal {
        Some(text) => if number { Literal::Number(text) } else { Literal::Str(text) },
        None => Literal::Nil,
    }
}

fn primary(tokens: &mut Vec<Token>, Ghost(strict): Ghost<bool>) -> (r: Result<Expr, ParseError>)
    requires
        strict ==> grammar::primary(view_of(old(tokens))) is Ok,
    ensures
        parsed_as(r, grammar::primary(view_of(old(tokens))), view_of(final(tokens))),
        taken_from(final(tokens)@, old(tokens)@),
    decreases old(tokens)@.len(), 13int,
{
    proof { grammar::unfold_primary(view_of(tokens)); }
    let token = pop_token(tokens);
    match token.type_of {
        TokenType::Number => Ok(Expr::Literal(token_literal(token, true))),
        TokenType::String => Ok(Expr::Literal(token_literal(token, false))),
        TokenType::False => Ok(Expr::Literal(Literal::Bool(false))),
        TokenType::True => Ok(Expr::Literal(Literal::Bool(true))),
        TokenType::Nil => Ok(Expr::Literal(Literal::Nil)),
        TokenType::LeftParen => {
            let ghost s1 = view_of(tokens);
            let inner = match expression(tokens, Ghost(strict)) {
                Ok(e) => e,
                Err(e) => {
                    assert(grammar::expression(s1) == Err::<(ExprView, Seq<TokenView>), ParseError>(e));
                    return Err(e);
                },
            };
            assert(clip(s1, view_of(tokens)) == view_of(tokens));
            if !consume_until_found_one(tokens, TokenType::RightParen) {
                return Err(ParseError::UnclosedGrouping);
            }
            Ok(Expr::Grouping(Box::new(inner)))
        },
        TokenType::Identifier => Ok(Expr::Variable(token)),
        _ => Ok(Expr::Empty),
    }
}

// ----- statements -----

pub open spec fn block_view(v: Vec<Box<Stmt>>) -> Seq<StmtView> {
    crate::statement::stmts_view(v@)
}

/// Two statements as a block's list.
fn pair(a: Stmt, b: Stmt) -> (v: Vec<Box<Stmt>>)
    ensures
        block_view(v) == seq![a@, b@],
{
    let mut v: Vec<Box<Stmt>> = Vec::new();
    let ba = Box::new(a);
    let bb = Box::new(b);
    proof {
        lemma_stmts_view_push(v@, ba);
        assert(crate::statement::stmts_view(v@) =~= Seq::<StmtView>::empty());
    }
    v.push(ba);
    proof { lemma_stmts_view_push(v@, bb); }
    v.push(bb);
    proof { assert(block_view(v) =~= seq![a@, b@]); }
    v
}

pub open spec fn program_view(v: Vec<Stmt>) -> Seq<StmtView> {
    plain_stmts_view(v@)
}

pub open spec fn plain_stmts_view(s: Seq<Stmt>) -> Seq<StmtView> {
    s.map_values(|x: Stmt| x@)
}

/// Whether the tokens end with an `Eof` token, and it is their only one
/// (as the scanners give them).
pub open spec fn ends_with_only_eof(ts: Seq<TokenView>) -> bool {
    &&& ts.len() > 0
    &&& ts.last().type_of == TokenType::Eof
    &&& forall|i: int| 0 <= i < ts.len() - 1 ==> #[trigger] ts[i].type_of != TokenType::Eof
}

/// The statements the tokens parse into, or the error at which parsing
/// stops. The tokens are read as a sequence (first token first); on
/// success `tokens` holds, as a stack, what was left unread: of tokens
/// that end with their only `Eof`, just that `Eof`.
pub fn try_parse(tokens: &mut Vec<Token>) -> (r: Result<Vec<Stmt>, ParseError>)
    ensures
        match grammar::parse_tokens(tokens_view(old(tokens)@)) {
            Ok(stmts) => r is Ok && program_view(r->Ok_0) == stmts,
            Err(e) => r is Err && r->Err_0 == e,
        },
        grammar::program(grammar::token_stack(tokens_view(old(tokens)@))) matches Ok((stmts, rest))
            ==> tokens_view(final(tokens)@) == rest,
        r is Ok && ends_with_only_eof(tokens_view(old(tokens)@)) ==> {
            &&& tokens_view(final(tokens)@) == seq![tokens_view(old(tokens)@).last()]
            &&& (r->Ok_0.len() == 0 <==> old(tokens)@.len() == 1)
        },
{
    parse_program(tokens, Ghost(false))
}

/// The statements the tokens parse into. The tokens must parse: the
/// tokens are read as a sequence (first token first); on return `tokens`
/// holds, as a stack, what was left unread: of tokens that end with their
/// only `Eof`, just that `Eof`.
pub fn parse(tokens: &mut Vec<Token>) -> (r: Vec<Stmt>)
    requires
        grammar::parse_tokens(tokens_view(old(tokens)@)) is Ok,
    ensures
        grammar::parse_tokens(tokens_view(old(tokens)@)) == Ok::<Seq<StmtView>, ParseError>(program_view(r)),
        grammar::program(grammar::token_stack(tokens_view(old(tokens)@))) matches Ok((stmts, rest))
            ==> tokens_view(final(tokens)@) == rest,
        ends_with_only_eof(tokens_view(old(tokens)@)) ==> {
            &&& tokens_view(final(tokens)@) == seq![tokens_view(old(tokens)@).last()]
            &&& (r.len() == 0 <==> old(tokens)@.len() == 1)
        },
{
    match parse_program(tokens, Ghost(true)) {
        Ok(r) => r,
        Err(e) => Vec::new(),
    }
}

/// Parsing the whole program. With `strict`, the tokens must parse (as
/// where the parse panics on an error); without, an error is returned.
fn parse_program(tokens: &mut Vec<Token>, Ghost(strict): Ghost<bool>) -> (r: Result<Vec<Stmt>, ParseError>)
    requires
        strict ==> grammar::parse_tokens(tokens_view(old(tokens)@)) is Ok,
    ensures
        match grammar::parse_tokens(tokens_view(old(tokens)@)) {
            Ok(stmts) => r is Ok && program_view(r->Ok_0) == stmts,
            Err(e) => r is Err && r->Err_0 == e,
        },
        grammar::program(grammar::token_stack(tokens_view(old(tokens)@))) matches Ok((stmts, rest))
            ==> tokens_view(final(tokens)@) == rest,
        r is Ok && ends_with_only_eof(tokens_view(old(tokens)@)) ==> {
            &&& tokens_view(final(tokens)@) == seq![tokens_view(old(tokens)@).last()]
            &&& (r->Ok_0.len() == 0 <==> old(tokens)@.len() == 1)
        },
{
    let ghost ts = tokens_view(tokens@);
    reverse_tokens(tokens);
    let ghost stack = tokens@;
    let mut statements: Vec<Stmt> = Vec::new();
    proof {
        grammar::unfold_program(view_of(tokens));
        assert(program_view(statements) =~= Seq::<StmtView>::empty());
    }
    match program_rest(tokens, &mut statements, Ghost(strict)) {
        Ok(()) => {},
        Err(e) => return Err(e),
    }
    proof {
        if ends_with_only_eof(ts) {
            let sv = tokens_view(stack);
            assert(sv == grammar::token_stack(ts));
            assert(sv[0] == ts.last());
            assert(forall|j: int| 1 <= j < sv.len() ==> #[trigger] sv[j].type_of != TokenType::Eof) by {
                assert forall|j: int| 1 <= j < sv.len() implies #[trigger] sv[j].type_of != TokenType::Eof by {
                    assert(sv[j] == ts[ts.len() - 1 - j]);
                }
            }
            assert(stack[0]@ == sv[0]);
            let fv = tokens_view(tokens@);
            if tokens@ == stack {
                assert(sv.last() == sv[sv.len() - 1]);
                assert(sv.len() == 1);
                assert(fv =~= seq![ts.last()]);
            } else {
                let k = tokens@.len() as int;
                assert(stack[k]@ == sv[k]);
                assert(k >= 1);
                assert(fv.last() == tokens@[k - 1]@);
                assert(tokens@[k - 1] == stack[k - 1]);
                assert(sv[k - 1] == stack[k - 1]@);
                assert(k == 1);
                assert(tokens@[0] == stack[0]);
                assert(fv =~= seq![ts.last()]);
            }
            assert(tokens_view(tokens@) == seq![ts.last()]);
            assert(statements@.len() == 0 <==> stack.len() == 1);
            assert(sv.len() == stack.len());
            assert(ts.len() == stack.len());
        }
    }
    Ok(statements)
}

/// Reverses the tokens, to read them as a stack.
fn reverse_tokens(tokens: &mut Vec<Token>)
    ensures
        tokens_view(final(tokens)@) == grammar::token_stack(tokens_view(old(tokens)@)),
{
    let ghost orig = tokens_view(tokens@);
    let mut stack: Vec<Token> = Vec::new();
    while tokens.len() > 0
        invariant
            orig.len() == tokens@.len() + stack@.len(),
            tokens_view(tokens@) == orig.take(tokens@.len() as int),
            tokens_view(stack@) == grammar::token_stack(orig).take(stack@.len() as int),
        decreases tokens.len(),
    {
        let ghost n = tokens@.len();
        let ghost before = tokens@;
        let ghost sb = stack@;
        let t = tokens.pop().unwrap();
        proof {
            lemma_tokens_view_pop(before);
            assert(tokens_view(tokens@) =~= orig.take(tokens@.len() as int));
        }
        stack.push(t);
        proof {
            assert(tokens_view(stack@) =~= grammar::token_stack(orig).take(stack@.len() as int));
        }
    }
    assert(grammar::token_stack(orig).take(stack@.len() as int) =~= grammar::token_stack(orig));
    *tokens = stack;
}

/// The statements after those in `acc`, up to `Eof`.
fn program_rest(tokens: &mut Vec<Token>, acc: &mut Vec<Stmt>, Ghost(strict): Ghost<bool>) -> (r: Result<(), ParseError>)
    requires
        strict ==> grammar::program_rest(program_view(*old(acc)), view_of(old(tokens))) is Ok,
    ensures
        match grammar::program_rest(program_view(*old(acc)), view_of(old(tokens))) {
            Ok((all, rest)) => r is Ok && program_view(*final(acc)) == all && view_of(final(tokens)) == rest,
            Err(e) => r is Err && r->Err_0 == e,
        },
        r is Ok ==> peek(view_of(final(tokens))).type_of == TokenType::Eof,
        r is Ok ==> (final(acc)@.len() == old(acc)@.len() && final(tokens)@ == old(tokens)@)
            || (final(acc)@.len() > old(acc)@.len() && took_token(final(tokens)@, old(tokens)@)),
    decreases old(tokens)@.len(),
{
    proof { grammar::unfold_program_rest(program_view(*acc), view_of(tokens)); }
    if peek_token(tokens).type_of == TokenType::Eof {
        return Ok(());
    }
    let ghost s = view_of(tokens);
    let d = match declaration(tokens, Ghost(strict)) {
        Ok(d) => d,
        Err(e) => return Err(e),
    };
    let ghost before = acc@;
    acc.push(d);
    proof {
        assert(plain_stmts_view(acc@) =~= plain_stmts_view(before).push(d@));
    }
    program_rest(tokens, acc, Ghost(strict))
}

fn declaration(tokens: &mut Vec<Token>, Ghost(strict): Ghost<bool>) -> (r: Result<Stmt, ParseError>)
    requires
        strict ==> grammar::declaration(view_of(old(tokens))) is Ok,
    ensures
        parsed_as(r, grammar::declaration(view_of(old(tokens))), view_of(final(tokens))),
        taken_from(final(tokens)@, old(tokens)@),
        r is Ok ==> took_token(final(tokens)@, old(tokens)@),
    decreases old(tokens)@.len(), 50int,
{
    proof { grammar::unfold_declaration(view_of(tokens)); }
    if consume_match_one(tokens, TokenType::Fun) {
        function(tokens, Ghost(strict))
    } else if consume_match_one(tokens, TokenType::Var) {
        var_declaration(tokens, Ghost(strict))
    } else {
        statement(tokens, Ghost(strict))
    }
}

/// Comma-separated parameter names, after those in `acc`.
fn parameters(tokens: &mut Vec<Token>, acc: &mut Vec<Token>)
    ensures
        (tokens_view(final(acc)@), view_of(final(tokens)))
            == grammar::parameters(tokens_view(old(acc)@), view_of(old(tokens))),
        taken_from(final(tokens)@, old(tokens)@),
    decreases old(tokens)@.len(),
{
    proof { grammar::unfold_parameters(tokens_view(acc@), view_of(tokens)); }
    let parameter = peek_token(tokens);
    if !consume_match_one(tokens, TokenType::Identifier) {
        return;
    }
    let ghost before = acc@;
    acc.push(parameter);
    proof {
        assert(tokens_view(acc@) =~= tokens_view(before).push(acc@.last()@));
    }
    if !consume_match_one(tokens, TokenType::Comma) {
        return;
    }
    parameters(tokens, acc)
}

/// A function declaration after `fun`.
fn function(tokens: &mut Vec<Token>, Ghost(strict): Ghost<bool>) -> (r: Result<Stmt, ParseError>)
    requires
        strict ==> grammar::function(view_of(old(tokens))) is Ok,
    ensures
        parsed_as(r, grammar::function(view_of(old(tokens))), view_of(final(tokens))),
        taken_from(final(tokens)@, old(tokens)@),
        r is Ok ==> took_token(final(tokens)@, old(tokens)@),
    decreases old(tokens)@.len(), 45int,
{
    proof { grammar::unfold_function(view_of(tokens)); }
    let name = peek_token(tokens);
    match try_consume_one(tokens, TokenType::Identifier, ParseError::ExpectedIdentifier, Ghost(strict)) {
        Ok(()) => {},
        Err(e) => return Err(e),
    }
    match try_consume_one(tokens, TokenType::LeftParen, ParseError::ExpectedLeftParen, Ghost(strict)) {
        Ok(()) => {},
        Err(e) => return Err(e),
    }
    let ghost s2 = view_of(tokens);
    let mut params: Vec<Token> = Vec::new();
    proof { assert(tokens_view(params@) =~= Seq::<TokenView>::empty()); }
    if peek_token(tokens).type_of != TokenType::RightParen {
        parameters(tokens, &mut params);
    }
    assert(clip(s2, view_of(tokens)) == view_of(tokens));
    match try_consume_one(tokens, TokenType::RightParen, ParseError::ExpectedRightParen, Ghost(strict)) {
        Ok(()) => {},
        Err(e) => return Err(e),
    }
    match try_consume_one(tokens, TokenType::LeftBrace, ParseError::ExpectedLeftBrace, Ghost(strict)) {
        Ok(()) => {},
        Err(e) => return Err(e),
    }
    let body = match block(tokens, Ghost(strict)) {
        Ok(b) => b,
        Err(e) => return Err(e),
    };
    Ok(Stmt::Function(name, params, body))
}

/// A variable declaration after `var`.
fn var_declaration(tokens: &mut Vec<Token>, Ghost(strict): Ghost<bool>) -> (r: Result<Stmt, ParseError>)
    requires
        strict ==> grammar::var_declaration(view_of(old(tokens))) is Ok,
    ensures
        parsed_as(r, grammar::var_declaration(view_of(old(tokens))), view_of(final(tokens))),
        taken_from(final(tokens)@, old(tokens)@),
        r is Ok ==> took_token(final(tokens)@, old(tokens)@),
    decreases old(tokens)@.len(), 45int,
{
    proof { grammar::unfold_var_declaration(view_of(tokens)); }
    let name = pop_token(tokens);
    if name.type_of != TokenType::Identifier {
        return Err(ParseError::VarNameNotIdentifier);
    }
    let ghost s1 = view_of(tokens);
    let initializer = if consume_match_one(tokens, TokenType::Equal) {
        match expression(tokens, Ghost(strict)) {
            Ok(e) => e,
            Err(e) => return Err(e),
        }
    } else {
        Expr::Empty
    };
    assert(clip(s1, view_of(tokens)) == view_of(tokens));
    match try_consume_one(tokens, TokenType::Semicolon, ParseError::MissingSemicolon, Ghost(strict)) {
        Ok(()) => {},
        Err(e) => return Err(e),
    }
    Ok(Stmt::Var(name, Box::new(initializer)))
}

fn statement(tokens: &mut Vec<Token>, Ghost(strict): Ghost<bool>) -> (r: Result<Stmt, ParseError>)
    requires
        strict ==> grammar::statement(view_of(old(tokens))) is Ok,
    ensures
        parsed_as(r, grammar::statement(view_of(old(tokens))), view_of(final(tokens))),
        taken_from(final(tokens)@, old(tokens)@),
        r is Ok ==> took_token(final(tokens)@, old(tokens)@),
    decreases old(tokens)@.len(), 49int,
{
    proof { grammar::unfold_statement(view_of(tokens)); }
    let ghost s = view_of(tokens);
    // Print statements
    if consume_match_one(tokens, TokenType::Print) {
        let ghost s1 = view_of(tokens);
        let expr = match expression(tokens, Ghost(strict)) {
            Ok(e) => e,
            Err(e) => return Err(e),
        };
        assert(clip(s1, view_of(tokens)) == view_of(tokens));
        let stmt = Stmt::Print(Box::new(expr));
        match try_consume_one(tokens, TokenType::Semicolon, ParseError::MissingSemicolon, Ghost(strict)) {
            Ok(()) => {},
            Err(e) => return Err(e),
        }
        return Ok(stmt);
    }
    // Statements that start with a keyword or a brace
    if consume_match_one(tokens, TokenType::LeftBrace) {
        match block(tokens, Ghost(strict)) {
            Ok(b) => Ok(Stmt::Block(b)),
            Err(e) => Err(e),
        }
    } else if consume_match_one(tokens, TokenType::If) {
        if_statement(tokens, Ghost(strict))
    } else if consume_match_one(tokens, TokenType::While) {
        while_statement(tokens, Ghost(strict))
    } else if consume_match_one(tokens, TokenType::For) {
        for_statement(tokens, Ghost(strict))
    } else if consume_match_one(tokens, TokenType::Return) {
        return_statement(tokens, Ghost(strict))
    } else if consume_match_one(tokens, TokenType::Break) {
        match try_consume_one(tokens, TokenType::Semicolon, ParseError::MissingSemicolon, Ghost(strict)) {
            Ok(()) => Ok(Stmt::Break),
            Err(e) => Err(e),
        }
    } else {
        let expr = match expression(tokens, Ghost(strict)) {
            Ok(e) => e,
            Err(e) => return Err(e),
        };
        assert(clip(s, view_of(tokens)) == view_of(tokens));
        let stmt = Stmt::Expr(Box::new(expr));
        match try_consume_one(tokens, TokenType::Semicolon, ParseError::MissingSemicolon, Ghost(strict)) {
            Ok(()) => {},
            Err(e) => return Err(e),
        }
        Ok(stmt)
    }
}

/// A return statement after `return`.
fn return_statement(tokens: &mut Vec<Token>, Ghost(strict): Ghost<bool>) -> (r: Result<Stmt, ParseError>)
    requires
        strict ==> grammar::return_statement(view_of(old(tokens))) is Ok,
    ensures
        parsed_as(r, grammar::return_statement(view_of(old(tokens))), view_of(final(tokens))),
        taken_from(final(tokens)@, old(tokens)@),
        r is Ok ==> took_token(final(tokens)@, old(tokens)@),
    decreases old(tokens)@.len(), 45int,
{
    proof { grammar::unfold_return_statement(view_of(tokens)); }
    let ghost s = view_of(tokens);
    let keyword = Token::new_keyword(TokenType::Return, 1);
    let mut value = Expr::Empty;
    if peek_token(tokens).type_of != TokenType::Semicolon {
        value = match expression(tokens, Ghost(strict)) {
            Ok(e) => e,
            Err(e) => return Err(e),
        };
    }
    assert(clip(s, view_of(tokens)) == view_of(tokens));
    match try_consume_one(tokens, TokenType::Semicolon, ParseError::MissingSemicolonAfterReturn, Ghost(strict)) {
        Ok(()) => {},
        Err(e) => return Err(e),
    }
    Ok(Stmt::Return(keyword, Box::new(value)))
}

fn is_empty_expr(e: &Expr) -> (b: bool)
    ensures
        b == (e@ == ExprView::Empty),
{
    match e {
        Expr::Empty => true,
        _ => false,
    }
}

fn is_empty_expr_stmt(s: &Stmt) -> (b: bool)
    ensures
        b == (s@ == grammar::empty_expr_stmt()),
{
    match s {
        Stmt::Expr(e) => is_empty_expr(e),
        _ => false,
    }
}

/// The loop that a for statement stands for.
fn desugar(initializer: Stmt, condition: Expr, increment: Expr, body: Stmt) -> (r: Stmt)
    ensures
        r@ == grammar::desugar_for(initializer@, condition@, increment@, body@),
{
    let mut body = body;
    let ghost (iv, cv, incv, bv) = (initializer@, condition@, increment@, body@);
    let ghost b1 = if incv != ExprView::Empty {
        StmtView::Block(seq![bv, StmtView::Expr(incv)])
    } else {
        bv
    };
    if !is_empty_expr(&increment) {
        let v = pair(body, Stmt::Expr(Box::new(increment)));
        body = Stmt::Block(v);
        assert(body@ == StmtView::Block(block_view(v)));
    }
    assert(body@ == b1);
    let ghost b2 = StmtView::While(cv, Box::new(b1));
    body = Stmt::While(Box::new(condition), Box::new(body));
    assert(body@ == b2);
    if !is_empty_expr_stmt(&initializer) {
        let v = pair(initializer, body);
        body = Stmt::Block(v);
        assert(body@ == StmtView::Block(block_view(v)));
    }
    assert(body@ == grammar::desugar_for(iv, cv, incv, bv));
    body
}

/// A for statement after `for`, as the loop it stands for.
#[verifier::rlimit(60)]
fn for_statement(tokens: &mut Vec<Token>, Ghost(strict): Ghost<bool>) -> (r: Result<Stmt, ParseError>)
    requires
        strict ==> grammar::for_statement(view_of(old(tokens))) is Ok,
    ensures
        parsed_as(r, grammar::for_statement(view_of(old(tokens))), view_of(final(tokens))),
        taken_from(final(tokens)@, old(tokens)@),
        r is Ok ==> took_token(final(tokens)@, old(tokens)@),
    decreases old(tokens)@.len(), 45int,
{
    proof { grammar::unfold_for_statement(view_of(tokens)); }
    match try_consume_one(tokens, TokenType::LeftParen, ParseError::MissingLeftParenAfterFor, Ghost(strict)) {
        Ok(()) => {},
        Err(e) => return Err(e),
    }
    let ghost s1 = view_of(tokens);
    let initializer = if consume_match_one(tokens, TokenType::Semicolon) {
        Stmt::Expr(Box::new(Expr::Empty))
    } else if consume_match_one(tokens, TokenType::Var) {
        match var_declaration(tokens, Ghost(strict)) {
            Ok(d) => d,
            Err(e) => return Err(e),
        }
    } else {
        match expression(tokens, Ghost(strict)) {
            Ok(e) => Stmt::Expr(Box::new(e)),
            Err(e) => return Err(e),
        }
    };
    assert(clip(s1, view_of(tokens)) == view_of(tokens));
    let ghost s2 = view_of(tokens);
    let condition = if peek_token(tokens).type_of == TokenType::Semicolon {
        Expr::Literal(Literal::Bool(true))
    } else {
        match expression(tokens, Ghost(strict)) {
            Ok(e) => e,
            Err(e) => return Err(e),
        }
    };
    assert(clip(s2, view_of(tokens)) == view_of(tokens));
    match try_consume_one(tokens, TokenType::Semicolon, ParseError::MissingSemicolonAfterLoopCondition, Ghost(strict)) {
        Ok(()) => {},
        Err(e) => return Err(e),
    }
    let ghost s3 = view_of(tokens);
    let increment = if peek_token(tokens).type_of == TokenType::RightParen {
        Expr::Empty
    } else {
        match expression(tokens, Ghost(strict)) {
            Ok(e) => e,
            Err(e) => return Err(e),
        }
    };
    assert(clip(s3, view_of(tokens)) == view_of(tokens));
    match try_consume_one(tokens, TokenType::RightParen, ParseError::MissingRightParenAfterFor, Ghost(strict)) {
        Ok(()) => {},
        Err(e) => return Err(e),
    }
    let body = match statement(tokens, Ghost(strict)) {
        Ok(b) => b,
        Err(e) => return Err(e),
    };
    Ok(desugar(initializer, condition, increment, body))
}

/// A while statement after `while`.
fn while_statement(tokens: &mut Vec<Token>, Ghost(strict): Ghost<bool>) -> (r: Result<Stmt, ParseError>)
    requires
        strict ==> grammar::while_statement(view_of(old(tokens))) is Ok,
    ensures
        parsed_as(r, grammar::while_statement(view_of(old(tokens))), view_of(final(tokens))),
        taken_from(final(tokens)@, old(tokens)@),
        r is Ok ==> took_token(final(tokens)@, old(tokens)@),
    decreases old(tokens)@.len(), 45int,
{
    proof { grammar::unfold_while_statement(view_of(tokens)); }
    match try_consume_one(tokens, TokenType::LeftParen, ParseError::MissingLeftParenAfterWhile, Ghost(strict)) {
        Ok(()) => {},
        Err(e) => return Err(e),
    }
    let ghost s1 = view_of(tokens);
    let condition = match expression(tokens, Ghost(strict)) {
        Ok(e) => e,
        Err(e) => return Err(e),
    };
    assert(clip(s1, view_of(tokens)) == view_of(tokens));
    match try_consume_one(tokens, TokenType::RightParen, ParseError::MissingRightParenAfterWhile, Ghost(strict)) {
        Ok(()) => {},
        Err(e) => return Err(e),
    }
    let body = match statement(tokens, Ghost(strict)) {
        Ok(b) => b,
        Err(e) => return Err(e),
    };
    Ok(Stmt::While(Box::new(condition), Box::new(body)))
}

/// An if statement after `if`.
#[verifier::rlimit(30)]
fn if_statement(tokens: &mut Vec<Token>, Ghost(strict): Ghost<bool>) -> (r: Result<Stmt, ParseError>)
    requires
        strict ==> grammar::if_statement(view_of(old(tokens))) is Ok,
    ensures
        parsed_as(r, grammar::if_statement(view_of(old(tokens))), view_of(final(tokens))),
        taken_from(final(tokens)@, old(tokens)@),
        r is Ok ==> took_token(final(tokens)@, old(tokens)@),
    decreases old(tokens)@.len(), 45int,
{
    proof { grammar::unfold_if_statement(view_of(tokens)); }
    match try_consume_one(tokens, TokenType::LeftParen, ParseError::MissingLeftParenAfterIf, Ghost(strict)) {
        Ok(()) => {},
        Err(e) => return Err(e),
    }
    let ghost s1 = view_of(tokens);
    let condition = match expression(tokens, Ghost(strict)) {
        Ok(e) => e,
        Err(e) => return Err(e),
    };
    assert(clip(s1, view_of(tokens)) == view_of(tokens));
    match try_consume_one(tokens, TokenType::RightParen, ParseError::MissingRightParenAfterCondition, Ghost(strict)) {
        Ok(()) => {},
        Err(e) => return Err(e),
    }
    let ghost s2 = view_of(tokens);
    let then_branch = match statement(tokens, Ghost(strict)) {
        Ok(b) => b,
        Err(e) => return Err(e),
    };
    assert(clip(s2, view_of(tokens)) == view_of(tokens));
    let ghost s2b = view_of(tokens);
    let has_else = consume_match_one(tokens, TokenType::Else);
    let ghost s3 = view_of(tokens);
    assert(consume(s2b, one(TokenType::Else)) == (has_else, s3));
    let else_branch = if has_else {
        match statement(tokens, Ghost(strict)) {
            Ok(b) => b,
            Err(e) => {
                assert(grammar::statement(s3) == Err::<(StmtView, Seq<TokenView>), ParseError>(e));
                return Err(e);
            },
        }
    } else {
        Stmt::Expr(Box::new(Expr::Empty))
    };
    let r = Stmt::If(Box::new(condition), Box::new(then_branch), Box::new(else_branch));
    assert(r@ == StmtView::If(condition@, Box::new(then_branch@), Box::new(else_branch@)));
    Ok(r)
}

/// The statements of a block after its `{`, then its `}`.
fn block(tokens: &mut Vec<Token>, Ghost(strict): Ghost<bool>) -> (r: Result<Vec<Box<Stmt>>, ParseError>)
    requires
        strict ==> grammar::block(view_of(old(tokens))) is Ok,
    ensures
        match grammar::block(view_of(old(tokens))) {
            Ok((items, rest)) => r is Ok && block_view(r->Ok_0) == items && view_of(final(tokens)) == rest,
            Err(e) => r is Err && r->Err_0 == e,
        },
        taken_from(final(tokens)@, old(tokens)@),
        r is Ok ==> took_token(final(tokens)@, old(tokens)@),
    decreases old(tokens)@.len(), 53int,
{
    proof { grammar::unfold_block(view_of(tokens)); }
    let ghost s = view_of(tokens);
    let mut statements: Vec<Box<Stmt>> = Vec::new();
    proof { assert(block_view(statements) =~= Seq::<StmtView>::empty()); }
    match block_items(tokens, &mut statements, Ghost(strict)) {
        Ok(()) => {},
        Err(e) => return Err(e),
    }
    assert(clip(s, view_of(tokens)) == view_of(tokens));
    consume_until_found_one(tokens, TokenType::RightBrace);
    Ok(statements)
}

/// The statements of a block after those in `acc`, up to its `}`.
fn block_items(tokens: &mut Vec<Token>, acc: &mut Vec<Box<Stmt>>, Ghost(strict): Ghost<bool>) -> (r: Result<(), ParseError>)
    requires
        strict ==> grammar::block_items(block_view(*old(acc)), view_of(old(tokens))) is Ok,
    ensures
        match grammar::block_items(block_view(*old(acc)), view_of(old(tokens))) {
            Ok((all, rest)) => r is Ok && block_view(*final(acc)) == all && view_of(final(tokens)) == rest,
            Err(e) => r is Err && r->Err_0 == e,
        },
        taken_from(final(tokens)@, old(tokens)@),
        r is Ok ==> peek(view_of(final(tokens))).type_of == TokenType::RightBrace,
    decreases old(tokens)@.len(), 52int,
{
    proof { grammar::unfold_block_items(block_view(*acc), view_of(tokens)); }
    if peek_token(tokens).type_of == TokenType::RightBrace {
        return Ok(());
    }
    let ghost s = view_of(tokens);
    let d = match declaration(tokens, Ghost(strict)) {
        Ok(d) => d,
        Err(e) => return Err(e),
    };
    assert(clip(s, view_of(tokens)) == view_of(tokens));
    if peek_token(tokens).type_of == TokenType::Eof {
        return Err(ParseError::UnmatchedBrace);
    }
    let ghost before = acc@;
    let b = Box::new(d);
    proof { lemma_stmts_view_push(before, b); }
    acc.push(b);
    block_items(tokens, acc, Ghost(strict))
}

} // verus!
